use vstd::prelude::*;
use std::ops::Range;

verus! {

/// `key` lies in the half-open interval `r`.
pub open spec fn in_interval(r: Range<u8>, key: u8) -> bool {
    r.start <= key && key < r.end
}

/// The intervals made from the scaled cumulative probabilities of a table: row `r` spans
/// from just after the previous row's bound (from 1 for the first row) up to, and not
/// including, its own bound `upper[r]`. `lower_next[r]` is where the row after `r` starts.
pub open spec fn intervals_from(upper: Seq<u8>, lower_next: Seq<u8>) -> Seq<Range<u8>> {
    Seq::new(
        upper.len(),
        |r: int| Range { start: if r == 0 { 1u8 } else { lower_next[r - 1] }, end: upper[r] },
    )
}

/// Fills `b` with one interval per row of the table: the first from 1 up to `upper[0]`,
/// each later one from `lower_next` of the row before up to its own `upper`.
pub fn make_range(upper: &Vec<u8>, lower_next: &Vec<u8>, b: &mut Vec<Range<u8>>)
    requires
        upper@.len() == lower_next@.len(),
    ensures
        final(b)@ == intervals_from(upper@, lower_next@),
        final(b)@.len() == upper@.len(),
        forall|r: int| 0 <= r < upper@.len() ==> (#[trigger] final(b)@[r]).end == upper@[r],
        upper@.len() > 0 ==> final(b)@[0].start == 1,
        forall|r: int| 0 < r < upper@.len() ==> (#[trigger] final(b)@[r]).start == lower_next@[r - 1],
{
    b.clear();
    let mut row: usize = 0;
    while row < upper.len()
        invariant
            upper@.len() == lower_next@.len(),
            row <= upper@.len(),
            b@.len() == row,
            forall|r: int| 0 <= r < row ==> #[trigger] b@[r] == intervals_from(upper@, lower_next@)[r],
        decreases upper@.len() - row,
    {
        let e = upper[row];
        let begin: u8 = if row == 0 { 1 } else { lower_next[row - 1] };
        b.push(begin..e);
        row = row + 1;
    }
    assert(b@ =~= intervals_from(upper@, lower_next@));
    proof {
        lemma_intervals_bounds(upper@, lower_next@);
    }
}

/// `found` is what a search for `key` among `ranges` gives: the first interval that
/// holds it, or none when no interval does.
pub open spec fn is_first_match(ranges: Seq<Range<u8>>, key: u8, found: Option<usize>) -> bool {
    match found {
        Some(i) => {
            &&& i < ranges.len()
            &&& in_interval(ranges[i as int], key)
            &&& forall|j: int| 0 <= j < i ==> !in_interval(#[trigger] ranges[j], key)
        },
        None => forall|j: int| 0 <= j < ranges.len() ==> !in_interval(#[trigger] ranges[j], key),
    }
}

/// The first interval of `b` that holds `key`: the row of the table whose value replaces
/// a random number.
pub fn one_num_check(b: &Vec<Range<u8>>, key: u8) -> (found: Option<usize>)
    ensures
        is_first_match(b@, key, found),
        found is Some ==> found->0 < b@.len() && b@[found->0 as int].start <= key && key
            < b@[found->0 as int].end,
        found is Some ==> forall|j: int|
            0 <= j < found->0 ==> !((#[trigger] b@[j]).start <= key && key < b@[j].end),
        found is None ==> forall|j: int|
            0 <= j < b@.len() ==> !((#[trigger] b@[j]).start <= key && key < b@[j].end),
{
    let mut col: usize = 0;
    while col < b.len()
        invariant
            col <= b@.len(),
            forall|j: int| 0 <= j < col ==> !in_interval(#[trigger] b@[j], key),
        decreases b@.len() - col,
    {
        if b[col].contains(&key) {
            proof {
                lemma_first_match_meaning(b@, key, Some(col));
            }
            return Some(col);
        }
        col = col + 1;
    }
    proof {
        lemma_first_match_meaning(b@, key, None);
    }
    None
}

/// The intervals made from nondecreasing bounds, each row starting no lower than the
/// bound before it, do not overlap.
pub proof fn lemma_intervals_disjoint(upper: Seq<u8>, lower_next: Seq<u8>, key: u8, r1: int, r2: int)
    requires
        upper.len() == lower_next.len(),
        forall|i: int, j: int| 0 <= i <= j < upper.len() ==> upper[i] <= upper[j],
        forall|i: int| 0 <= i < upper.len() ==> upper[i] <= #[trigger] lower_next[i],
        0 <= r1 < r2 < upper.len(),
        in_interval(intervals_from(upper, lower_next)[r1], key),
    ensures
        !in_interval(intervals_from(upper, lower_next)[r2], key),
{
    assert(upper[r1] <= upper[r2 - 1]);
    assert(upper[r2 - 1] <= lower_next[r2 - 1]);
}

/// Over intervals made from nondecreasing bounds, a search for a key that some interval
/// holds finds exactly that interval.
pub proof fn lemma_search_finds_holding_interval(
    upper: Seq<u8>,
    lower_next: Seq<u8>,
    key: u8,
    r: int,
    found: Option<usize>,
)
    requires
        upper.len() == lower_next.len(),
        forall|i: int, j: int| 0 <= i <= j < upper.len() ==> upper[i] <= upper[j],
        forall|i: int| 0 <= i < upper.len() ==> upper[i] <= #[trigger] lower_next[i],
        0 <= r < upper.len(),
        in_interval(intervals_from(upper, lower_next)[r], key),
        is_first_match(intervals_from(upper, lower_next), key, found),
    ensures
        found == Some(r as usize),
{
    let ranges = intervals_from(upper, lower_next);
    match found {
        Some(i) => {
            if (i as int) < r {
                lemma_intervals_disjoint(upper, lower_next, key, i as int, r);
            } else if (i as int) > r {
                assert(!in_interval(ranges[r], key));
            }
        },
        None => {
            assert(!in_interval(ranges[r], key));
        },
    }
}

/// Each made interval ends at its row's bound and starts at 1 for the first row and at
/// the previous row's `lower_next` after that, so every key in that span is covered.
pub proof fn lemma_intervals_bounds(upper: Seq<u8>, lower_next: Seq<u8>)
    requires
        upper.len() == lower_next.len(),
    ensures
        intervals_from(upper, lower_next).len() == upper.len(),
        forall|r: int| 0 <= r < upper.len() ==> (#[trigger] intervals_from(upper, lower_next)[r]).end == upper[r],
        upper.len() > 0 ==> intervals_from(upper, lower_next)[0].start == 1,
        forall|r: int|
            0 < r < upper.len() ==> (#[trigger] intervals_from(upper, lower_next)[r]).start
                == lower_next[r - 1],
        forall|r: int, key: u8|
            0 < r < upper.len() && lower_next[r - 1] <= key < upper[r] ==> #[trigger] in_interval(
                intervals_from(upper, lower_next)[r],
                key,
            ),
{
}

/// A search answers with an interval that holds the key and with no earlier one that
/// does, or with none only when no interval holds the key.
pub proof fn lemma_first_match_meaning(ranges: Seq<Range<u8>>, key: u8, found: Option<usize>)
    requires
        is_first_match(ranges, key, found),
    ensures
        found is Some ==> found->0 < ranges.len() && ranges[found->0 as int].start <= key && key
            < ranges[found->0 as int].end,
        found is Some ==> forall|j: int|
            0 <= j < found->0 ==> !((#[trigger] ranges[j]).start <= key && key < ranges[j].end),
        found is None ==> forall|j: int|
            0 <= j < ranges.len() ==> !((#[trigger] ranges[j]).start <= key && key < ranges[j].end),
{
}

} // verus!
