use vstd::prelude::*;
use crate::grid::texts;

verus! {

/// Number of headings of a table of customers served by `count` servers: customer,
/// interarrival time, arrival clock, three per server, and the two waiting times.
pub open spec fn heading_count(count: nat) -> nat {
    5 + 3 * count
}

/// The headings after `make_headnig`: the first three kept (empty where there were
/// none), then `repeated[i % 3]` at each position `i` of the servers' block, then the
/// two entries of `end`.
pub open spec fn headings_after(
    old: Seq<Seq<char>>,
    repeated: Seq<Seq<char>>,
    end: Seq<Seq<char>>,
    count: nat,
) -> Seq<Seq<char>> {
    Seq::new(
        heading_count(count),
        |i: int|
            if i < 3 {
                if i < old.len() {
                    old[i]
                } else {
                    Seq::empty()
                }
            } else if i < 3 + 3 * count {
                repeated[i % 3]
            } else if i == 3 + 3 * count {
                end[0]
            } else {
                end[1]
            },
    )
}

/// Lays out the headings of the table of customers for `count` servers.
pub fn make_headnig(
    headings: &mut Vec<String>,
    repeated: &mut Vec<String>,
    end: &Vec<String>,
    count: usize,
)
    requires
        5 + 3 * count <= usize::MAX,
        count > 0 ==> old(repeated)@.len() >= 3,
        end@.len() >= 2,
    ensures
        texts(final(headings)@) == headings_after(
            texts(old(headings)@),
            texts(old(repeated)@),
            texts(end@),
            count as nat,
        ),
        final(repeated)@ == old(repeated)@,
        final(headings)@.len() == 5 + 3 * count,
        forall|i: int|
            0 <= i < 3 && i < old(headings)@.len() ==> #[trigger] final(headings)@[i]@ == old(
                headings,
            )@[i]@,
        forall|i: int|
            0 <= i < 3 && i >= old(headings)@.len() ==> #[trigger] final(headings)@[i]@
                == Seq::<char>::empty(),
        forall|j: int, k: int|
            0 <= j < count && 0 <= k < 3 ==> #[trigger] final(headings)@[3 + 3 * j + k]@ == old(
                repeated,
            )@[k]@,
        final(headings)@[3 + 3 * count]@ == end@[0]@,
        final(headings)@[4 + 3 * count]@ == end@[1]@,
{
    let ghost start = texts(headings@);
    let a: usize = 4 + (count * 3) + 1;
    if a <= headings.len() {
        headings.truncate(a);
    } else {
        while headings.len() < a
            invariant
                start.len() <= headings@.len() <= a,
                forall|i: int|
                    0 <= i < headings@.len() ==> #[trigger] headings@[i]@ == (if i < start.len() {
                        start[i]
                    } else {
                        Seq::empty()
                    }),
            decreases a - headings@.len(),
        {
            headings.push(String::new());
        }
    }
    let mut i: usize = 3;
    while i < a - 2
        invariant
            a == 5 + 3 * count,
            3 <= i <= a - 2,
            headings@.len() == a,
            count > 0 ==> repeated@.len() >= 3,
            forall|k: int|
                0 <= k < a ==> #[trigger] headings@[k]@ == (if 3 <= k < i {
                    repeated@[k % 3]@
                } else if k < start.len() {
                    start[k]
                } else {
                    Seq::empty()
                }),
        decreases a - 2 - i,
    {
        let h = repeated[i % 3].clone();
        headings.set(i, h);
        i = i + 1;
    }
    let last0 = end[0].clone();
    headings.set(a - 2, last0);
    let last1 = end[1].clone();
    headings.set(a - 1, last1);
    assert(texts(headings@) =~= headings_after(start, texts(repeated@), texts(end@), count as nat));
    proof {
        let after = headings_after(start, texts(repeated@), texts(end@), count as nat);
        lemma_headings_layout(start, texts(repeated@), texts(end@), count as nat);
        assert forall|i: int| 0 <= i < headings@.len() implies #[trigger] headings@[i]@ == after[i] by {
            assert(texts(headings@)[i] == headings@[i]@);
        }
        assert forall|j: int, k: int|
            0 <= j < count && 0 <= k < 3 implies #[trigger] headings@[3 + 3 * j + k]@ == repeated@[k]@ by {
            assert(after[3 + 3 * j + k] == texts(repeated@)[k]);
            assert(headings@[3 + 3 * j + k]@ == after[3 + 3 * j + k]);
        }
    }
}

/// Laying out the headings a second time with the same arguments changes nothing.
pub proof fn lemma_headings_idempotent(
    old: Seq<Seq<char>>,
    repeated: Seq<Seq<char>>,
    end: Seq<Seq<char>>,
    count: nat,
)
    ensures
        headings_after(headings_after(old, repeated, end, count), repeated, end, count)
            == headings_after(old, repeated, end, count),
{
    let once = headings_after(old, repeated, end, count);
    assert(headings_after(once, repeated, end, count) =~= once);
}

/// Each heading of a server's block names, in turn, the service, its start and its end,
/// and the number of headings grows by three with each server.
pub proof fn lemma_headings_blocks(
    old: Seq<Seq<char>>,
    repeated: Seq<Seq<char>>,
    end: Seq<Seq<char>>,
    count: nat,
    server: nat,
)
    requires
        server < count,
    ensures
        headings_after(old, repeated, end, count).len() == headings_after(
            old,
            repeated,
            end,
            (count - 1) as nat,
        ).len() + 3,
        headings_after(old, repeated, end, count)[3 + 3 * server as int] == repeated[0],
        headings_after(old, repeated, end, count)[4 + 3 * server as int] == repeated[1],
        headings_after(old, repeated, end, count)[5 + 3 * server as int] == repeated[2],
{
    assert((3 + 3 * server) % 3 == 0);
    assert((4 + 3 * server) % 3 == 1);
    assert((5 + 3 * server) % 3 == 2);
}

/// The layout of the headings for every count of servers: `5 + 3 * count` entries, the
/// first three kept (or empty), then server after server the three names of `repeated`
/// in order, and last `end[0]` followed by `end[1]`.
pub proof fn lemma_headings_layout(
    old: Seq<Seq<char>>,
    repeated: Seq<Seq<char>>,
    end: Seq<Seq<char>>,
    count: nat,
)
    ensures
        headings_after(old, repeated, end, count).len() == 5 + 3 * count,
        forall|i: int|
            0 <= i < 3 && i < old.len() ==> #[trigger] headings_after(old, repeated, end, count)[i]
                == old[i],
        forall|i: int|
            0 <= i < 3 && i >= old.len() ==> #[trigger] headings_after(old, repeated, end, count)[i]
                == Seq::<char>::empty(),
        forall|j: int, k: int|
            0 <= j < count && 0 <= k < 3 ==> #[trigger] headings_after(old, repeated, end, count)[3
                + 3 * j + k] == repeated[k],
        headings_after(old, repeated, end, count)[3 + 3 * count as int] == end[0],
        headings_after(old, repeated, end, count)[4 + 3 * count as int] == end[1],
{
    assert forall|j: int, k: int|
        0 <= j < count && 0 <= k < 3 implies #[trigger] headings_after(old, repeated, end, count)[3
            + 3 * j + k] == repeated[k] by {
        assert((3 + 3 * j + k) % 3 == k) by (nonlinear_arith)
            requires
                0 <= k < 3,
                0 <= j,
        ;
    }
}

} // verus!
