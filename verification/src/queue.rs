use vstd::prelude::*;

verus! {

/// `i` is the first index whose flag is set, or 0 when no flag is set.
pub open spec fn is_first_fit(fits: Seq<bool>, i: int) -> bool {
    &&& forall|j: int| 0 <= j < i && j < fits.len() ==> !#[trigger] fits[j]
    &&& {
        ||| (0 <= i < fits.len() && fits[i])
        ||| (i == 0 && forall|j: int| 0 <= j < fits.len() ==> !#[trigger] fits[j])
    }
}

/// Index of the first server whose flag is set (the first one that is free by the
/// customer's arrival), or 0 when there is none.
pub fn find_min_order(fits: &Vec<bool>) -> (index: usize)
    ensures
        is_first_fit(fits@, index as int),
        forall|j: int| 0 <= j < index ==> !#[trigger] fits@[j],
        fits@.len() > 0 && fits@[0] ==> index == 0,
        (exists|k: int| 0 <= k < fits@.len() && fits@[k]) ==> index < fits@.len() && fits@[index as int],
        (forall|k: int| 0 <= k < fits@.len() ==> !fits@[k]) ==> index == 0,
{
    let mut i: usize = 0;
    while i < fits.len()
        invariant
            i <= fits@.len(),
            forall|j: int| 0 <= j < i ==> !#[trigger] fits@[j],
        decreases fits@.len() - i,
    {
        if fits[i] {
            return i;
        }
        i = i + 1;
    }
    0
}

/// Columns of server `server` in the table of customers: its service time, the clock at
/// which it begins serving, and the clock at which it ends.
pub fn server_columns(server: usize) -> (cols: (usize, usize, usize))
    requires
        3 * server + 4 <= usize::MAX,
    ensures
        cols.0 == 3 * server + 2,
        cols.1 == 3 * server + 3,
        cols.2 == 3 * server + 4,
{
    (3 * server + 2, 3 * server + 3, 3 * server + 4)
}

/// Which server takes the next customer, and whether the customer is served at once.
/// `free_by[i]` says that server `i` finished its last customer no later than the
/// arrival, `free_before[i]` that it finished strictly before it. The first server that
/// is free by the arrival serves at once when it finished strictly before; otherwise the
/// customer waits for server 0.
pub fn assign_server(free_by: &Vec<bool>, free_before: &Vec<bool>) -> (choice: (usize, bool))
    requires
        free_by@.len() == free_before@.len(),
        free_by@.len() > 0,
    ensures
        choice.1 ==> is_first_fit(free_by@, choice.0 as int) && free_before@[choice.0 as int],
        !choice.1 ==> choice.0 == 0 && forall|i: int|
            is_first_fit(free_by@, i) ==> !free_before@[i],
        choice.0 < free_by@.len(),
        forall|j: int| 0 <= j < choice.0 ==> !#[trigger] free_by@[j],
        choice.0 > 0 ==> choice.1 && free_by@[choice.0 as int],
        (forall|k: int| 0 <= k < free_by@.len() ==> !free_by@[k]) ==> choice == (
            0usize,
            free_before@[0],
        ),
        free_by@[0] ==> choice == (0usize, free_before@[0]),
        forall|i: int|
            0 <= i < free_by@.len() && free_by@[i] && free_before@[i] && (forall|j: int|
                0 <= j < i ==> !#[trigger] free_by@[j]) ==> choice == (i as usize, true),
{
    let b = find_min_order(free_by);
    if free_before[b] {
        (b, true)
    } else {
        proof {
            assert forall|i: int| is_first_fit(free_by@, i) implies !free_before@[i] by {
                lemma_first_fit_unique(free_by@, i, b as int);
            }
        }
        (0, false)
    }
}

/// The first fitting index is unique.
pub proof fn lemma_first_fit_unique(fits: Seq<bool>, a: int, b: int)
    requires
        is_first_fit(fits, a),
        is_first_fit(fits, b),
    ensures
        a == b,
{
    if a < b {
        if 0 <= a < fits.len() && fits[a] {
            assert(!fits[a]);
        }
    } else if b < a {
        if 0 <= b < fits.len() && fits[b] {
            assert(!fits[b]);
        }
    }
}

/// A row of the table of customers after each server's service column has been given
/// the value of column 2.
pub open spec fn service_copied<T>(row: Seq<T>, servers: nat) -> Seq<T> {
    Seq::new(row.len(), |c: int| if c % 3 == 2 && c < 3 * servers { row[2] } else { row[c] })
}

/// Copies column 2 of each of the first `customers` rows into the service column of
/// each of the `servers` servers.
pub fn copy_service_column<T: Copy>(sol: &mut Vec<Vec<T>>, servers: usize, customers: usize)
    requires
        customers <= old(sol)@.len(),
        forall|i: int| 0 <= i < customers ==> 3 * servers <= #[trigger] old(sol)@[i]@.len(),
    ensures
        final(sol)@.len() == old(sol)@.len(),
        forall|i: int|
            0 <= i < final(sol)@.len() ==> #[trigger] final(sol)@[i]@ == (if i < customers {
                service_copied(old(sol)@[i]@, servers as nat)
            } else {
                old(sol)@[i]@
            }),
        forall|i: int| 0 <= i < final(sol)@.len() ==> (#[trigger] final(sol)@[i])@.len() == old(sol)@[i]@.len(),
        forall|i: int, j: int|
            0 <= i < customers && 0 <= j < servers ==> #[trigger] final(sol)@[i]@[3 * j + 2]
                == old(sol)@[i]@[2],
        forall|i: int, c: int|
            0 <= i < final(sol)@.len() && 0 <= c < old(sol)@[i]@.len() && (i >= customers || c % 3
                != 2 || c >= 3 * servers) ==> #[trigger] final(sol)@[i]@[c] == old(sol)@[i]@[c],
{
    let ghost start = sol@;
    let mut j: usize = 0;
    while j < servers
        invariant
            j <= servers,
            sol@.len() == start.len(),
            customers <= start.len(),
            forall|i: int| 0 <= i < customers ==> 3 * servers <= #[trigger] start[i]@.len(),
            forall|i: int|
                0 <= i < sol@.len() ==> #[trigger] sol@[i]@ == (if i < customers {
                    service_copied(start[i]@, j as nat)
                } else {
                    start[i]@
                }),
        decreases servers - j,
    {
        let mut i: usize = 0;
        while i < customers
            invariant
                j < servers,
                i <= customers,
                sol@.len() == start.len(),
                customers <= start.len(),
                forall|k: int| 0 <= k < customers ==> 3 * servers <= #[trigger] start[k]@.len(),
                forall|k: int|
                    0 <= k < sol@.len() ==> #[trigger] sol@[k]@ == (if k < i {
                        service_copied(start[k]@, (j + 1) as nat)
                    } else if k < customers {
                        service_copied(start[k]@, j as nat)
                    } else {
                        start[k]@
                    }),
            decreases customers - i,
        {
            let ghost before = sol@[i as int]@;
            let row_len = sol[i].len();
            assert(row_len == start[i as int]@.len());
            assert(3 * servers <= row_len);
            let col = 3 * j + 2;
            let v = sol[i][2];
            sol[i].set(col, v);
            assert(sol@[i as int]@ =~= service_copied(start[i as int]@, (j + 1) as nat));
            i = i + 1;
        }
        j = j + 1;
    }
    proof {
        assert forall|i: int, jj: int|
            0 <= i < customers && 0 <= jj < servers implies #[trigger] sol@[i]@[3 * jj + 2]
                == start[i]@[2] by {
            lemma_service_copied_columns(start[i]@, servers as nat, jj);
        }
    }
}

/// Copying the service columns a second time changes nothing: column 2 itself is never
/// overwritten with anything but its own value.
pub proof fn lemma_service_copy_idempotent<T>(row: Seq<T>, servers: nat)
    requires
        row.len() > 2,
    ensures
        service_copied(service_copied(row, servers), servers) == service_copied(row, servers),
{
    let once = service_copied(row, servers);
    assert(once[2] == row[2]);
    assert(service_copied(once, servers) =~= once);
}

/// The first fitting index is the least set index: no index before it is set, index 0
/// is chosen whenever it is set, a set index is chosen whenever there is one, and 0 is the
/// answer only as a fallback when nothing is set.
pub proof fn lemma_first_fit_is_least(fits: Seq<bool>, i: int)
    requires
        is_first_fit(fits, i),
    ensures
        0 <= i,
        forall|j: int| 0 <= j < i ==> !#[trigger] fits[j],
        fits.len() > 0 && fits[0] ==> i == 0,
        (exists|k: int| 0 <= k < fits.len() && fits[k]) ==> i < fits.len() && fits[i],
        (forall|k: int| 0 <= k < fits.len() ==> !fits[k]) ==> i == 0,
{
    if exists|k: int| 0 <= k < fits.len() && fits[k] {
        let k = choose|k: int| 0 <= k < fits.len() && fits[k];
        assert(fits[k]);
    }
}

/// The least set index is a first fit, so every sequence of flags has exactly one.
pub proof fn lemma_least_set_index_is_first_fit(fits: Seq<bool>, i: int)
    requires
        0 <= i < fits.len(),
        fits[i],
        forall|j: int| 0 <= j < i ==> !#[trigger] fits[j],
    ensures
        is_first_fit(fits, i),
{
}

/// After the copy, each server's service column of a row holds the row's column 2, and
/// every other cell keeps its value.
pub proof fn lemma_service_copied_columns<T>(row: Seq<T>, servers: nat, j: int)
    requires
        row.len() >= 3 * servers,
        0 <= j < servers,
    ensures
        service_copied(row, servers).len() == row.len(),
        service_copied(row, servers)[3 * j + 2] == row[2],
        forall|c: int|
            0 <= c < row.len() && (c % 3 != 2 || c >= 3 * servers) ==> #[trigger] service_copied(
                row,
                servers,
            )[c] == row[c],
{
    assert((3 * j + 2) % 3 == 2);
}

} // verus!
