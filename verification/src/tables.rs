//! Rows in their order of arrival: filtering and uniqueness.
use vstd::prelude::*;

verus! {

/// Whether no two rows have the same key.
pub open spec fn unique<T, K>(rows: Seq<T>, key: spec_fn(T) -> K) -> bool {
    forall|i: int, j: int|
        0 <= i < j < rows.len() ==> key(#[trigger] rows[i]) != key(#[trigger] rows[j])
}

/// One more row at the end is filtered on its own.
pub proof fn filter_push<T>(rows: Seq<T>, row: T, keep: spec_fn(T) -> bool)
    ensures
        rows.push(row).filter(keep) == if keep(row) {
            rows.filter(keep).push(row)
        } else {
            rows.filter(keep)
        },
{
    reveal(Seq::filter);
    assert(rows.push(row).drop_last() =~= rows);
}

/// A filtered list holds exactly the accepted rows.
pub proof fn filter_holds<T>(rows: Seq<T>, keep: spec_fn(T) -> bool)
    ensures
        forall|row: T| #[trigger]
            rows.filter(keep).contains(row) <==> rows.contains(row) && keep(row),
        rows.filter(keep).len() <= rows.len(),
    decreases rows.len(),
{
    reveal(Seq::filter);
    if rows.len() > 0 {
        let front = rows.drop_last();
        let last = rows.last();
        filter_holds(front, keep);
        let out = rows.filter(keep);
        let before = front.filter(keep);
        assert(rows =~= front.push(last));
        filter_push(front, last, keep);
        assert forall|row: T| #[trigger] out.contains(row) <==> rows.contains(row) && keep(row) by {
            if out.contains(row) {
                let i = choose|i: int| 0 <= i < out.len() && out[i] == row;
                if i < before.len() {
                    assert(before[i] == row);
                    assert(before.contains(row));
                    let j = choose|j: int| 0 <= j < front.len() && front[j] == row;
                    assert(rows[j] == row);
                } else {
                    assert(rows[rows.len() - 1] == row);
                }
            }
            if rows.contains(row) && keep(row) {
                let j = choose|j: int| 0 <= j < rows.len() && rows[j] == row;
                if j < front.len() {
                    assert(front[j] == row);
                    assert(before.contains(row));
                    let i = choose|i: int| 0 <= i < before.len() && before[i] == row;
                    assert(out[i] == row);
                } else {
                    assert(out[out.len() - 1] == row);
                }
            }
        }
    }
}

/// Every row of a filtered list is accepted and was there before.
pub proof fn filter_rows<T>(rows: Seq<T>, keep: spec_fn(T) -> bool)
    ensures
        forall|i: int|
            0 <= i < rows.filter(keep).len() ==> keep(#[trigger] rows.filter(keep)[i])
                && rows.contains(rows.filter(keep)[i]),
        rows.filter(keep).len() <= rows.len(),
{
    filter_holds(rows, keep);
    let out = rows.filter(keep);
    assert forall|i: int| 0 <= i < out.len() implies keep(#[trigger] out[i]) && rows.contains(
        out[i],
    ) by {
        assert(out.contains(out[i]));
    }
}

/// Filtering keeps keys unique.
pub proof fn filter_unique<T, K>(rows: Seq<T>, keep: spec_fn(T) -> bool, key: spec_fn(T) -> K)
    requires
        unique(rows, key),
    ensures
        unique(rows.filter(keep), key),
    decreases rows.len(),
{
    reveal(Seq::filter);
    if rows.len() > 0 {
        let front = rows.drop_last();
        let last = rows.last();
        assert(unique(front, key)) by {
            assert forall|i: int, j: int| 0 <= i < j < front.len() implies key(#[trigger] front[i])
                != key(#[trigger] front[j]) by {
                assert(rows[i] == front[i]);
                assert(rows[j] == front[j]);
            }
        }
        filter_unique(front, keep, key);
        filter_rows(front, keep);
        assert(rows =~= front.push(last));
        filter_push(front, last, keep);
        let before = front.filter(keep);
        let out = rows.filter(keep);
        assert forall|i: int, j: int| 0 <= i < j < out.len() implies key(#[trigger] out[i]) != key(
            #[trigger] out[j],
        ) by {
            assert(out[i] == before[i]);
            if j < before.len() {
                assert(out[j] == before[j]);
            } else {
                let w = choose|w: int| 0 <= w < front.len() && front[w] == before[i];
                assert(rows[w] == before[i]);
                assert(rows[rows.len() - 1] == last);
            }
        }
    }
}

/// A list that is accepted whole stays as it is.
pub proof fn filter_all<T>(rows: Seq<T>, keep: spec_fn(T) -> bool)
    requires
        forall|i: int| 0 <= i < rows.len() ==> keep(#[trigger] rows[i]),
    ensures
        rows.filter(keep) == rows,
    decreases rows.len(),
{
    reveal(Seq::filter);
    if rows.len() > 0 {
        let front = rows.drop_last();
        assert forall|i: int| 0 <= i < front.len() implies keep(#[trigger] front[i]) by {
            assert(front[i] == rows[i]);
        }
        filter_all(front, keep);
        assert(rows =~= front.push(rows.last()));
        filter_push(front, rows.last(), keep);
        assert(keep(rows[rows.len() - 1]));
    }
}

/// A filtered list of the same length has lost nothing.
pub proof fn filter_same<T>(rows: Seq<T>, keep: spec_fn(T) -> bool)
    requires
        rows.filter(keep).len() == rows.len(),
    ensures
        rows.filter(keep) == rows,
    decreases rows.len(),
{
    reveal(Seq::filter);
    if rows.len() > 0 {
        let front = rows.drop_last();
        assert(rows =~= front.push(rows.last()));
        filter_push(front, rows.last(), keep);
        filter_holds(front, keep);
        filter_same(front, keep);
    } else {
        assert(rows.filter(keep) =~= rows);
    }
}

/// Filtering by two tests that agree on the rows gives the same list.
pub proof fn filter_agrees<T>(rows: Seq<T>, a: spec_fn(T) -> bool, b: spec_fn(T) -> bool)
    requires
        forall|i: int| 0 <= i < rows.len() ==> a(#[trigger] rows[i]) == b(rows[i]),
    ensures
        rows.filter(a) == rows.filter(b),
    decreases rows.len(),
{
    reveal(Seq::filter);
    if rows.len() > 0 {
        let front = rows.drop_last();
        assert forall|i: int| 0 <= i < front.len() implies a(#[trigger] front[i]) == b(front[i]) by {
            assert(front[i] == rows[i]);
        }
        filter_agrees(front, a, b);
        assert(rows =~= front.push(rows.last()));
        filter_push(front, rows.last(), a);
        filter_push(front, rows.last(), b);
        assert(a(rows[rows.len() - 1]) == b(rows[rows.len() - 1]));
    }
}

/// Filtering twice is filtering by both tests.
pub proof fn filter_twice<T>(rows: Seq<T>, a: spec_fn(T) -> bool, b: spec_fn(T) -> bool)
    ensures
        rows.filter(a).filter(b) == rows.filter(|row: T| a(row) && b(row)),
    decreases rows.len(),
{
    reveal(Seq::filter);
    let both = |row: T| a(row) && b(row);
    if rows.len() > 0 {
        let front = rows.drop_last();
        let last = rows.last();
        filter_twice(front, a, b);
        assert(rows =~= front.push(last));
        filter_push(front, last, a);
        filter_push(front, last, both);
        if a(last) {
            filter_push(front.filter(a), last, b);
        }
    }
}

/// Taking a row out keeps keys unique.
pub proof fn remove_unique<T, K>(rows: Seq<T>, i: int, key: spec_fn(T) -> K)
    requires
        unique(rows, key),
        0 <= i < rows.len(),
    ensures
        unique(rows.remove(i), key),
{
    let out = rows.remove(i);
    assert forall|a: int, b: int| 0 <= a < b < out.len() implies key(#[trigger] out[a]) != key(
        #[trigger] out[b],
    ) by {
        let x = if a < i {
            a
        } else {
            a + 1
        };
        let y = if b < i {
            b
        } else {
            b + 1
        };
        assert(out[a] == rows[x]);
        assert(out[b] == rows[y]);
    }
}

/// A row with a new key keeps keys unique.
pub proof fn push_unique<T, K>(rows: Seq<T>, row: T, key: spec_fn(T) -> K)
    requires
        unique(rows, key),
        forall|i: int| 0 <= i < rows.len() ==> key(#[trigger] rows[i]) != key(row),
    ensures
        unique(rows.push(row), key),
{
    let out = rows.push(row);
    assert forall|a: int, b: int| 0 <= a < b < out.len() implies key(#[trigger] out[a]) != key(
        #[trigger] out[b],
    ) by {
        assert(out[a] == rows[a]);
        if b < rows.len() {
            assert(out[b] == rows[b]);
        }
    }
}

/// Filtering rows and taking their keys can be done in either order.
pub proof fn filter_map<T, K>(
    rows: Seq<T>,
    key: spec_fn(T) -> K,
    keep: spec_fn(T) -> bool,
    accept: spec_fn(K) -> bool,
)
    requires
        forall|row: T| keep(row) == accept(#[trigger] key(row)),
    ensures
        rows.filter(keep).map_values(key) == rows.map_values(key).filter(accept),
    decreases rows.len(),
{
    reveal(Seq::filter);
    if rows.len() == 0 {
        assert(rows.filter(keep).map_values(key) =~= rows.map_values(key).filter(accept));
    } else {
        let front = rows.drop_last();
        let last = rows.last();
        filter_map(front, key, keep, accept);
        assert(rows =~= front.push(last));
        filter_push(front, last, keep);
        assert(rows.map_values(key) =~= front.map_values(key).push(key(last)));
        filter_push(front.map_values(key), key(last), accept);
        if keep(last) {
            assert(rows.filter(keep).map_values(key) =~= front.filter(keep).map_values(key).push(
                key(last),
            ));
        }
    }
}

/// Two lists can be filtered before or after they are joined.
pub proof fn filter_add<T>(a: Seq<T>, b: Seq<T>, keep: spec_fn(T) -> bool)
    ensures
        (a + b).filter(keep) == a.filter(keep) + b.filter(keep),
    decreases b.len(),
{
    reveal(Seq::filter);
    if b.len() == 0 {
        assert(a + b =~= a);
        assert(a.filter(keep) + b.filter(keep) =~= a.filter(keep));
    } else {
        let front = b.drop_last();
        filter_add(a, front, keep);
        assert(a + b =~= (a + front).push(b.last()));
        assert(b =~= front.push(b.last()));
        filter_push(a + front, b.last(), keep);
        filter_push(front, b.last(), keep);
        assert((a + b).filter(keep) =~= a.filter(keep) + b.filter(keep));
    }
}

/// Exchanging a row that a test rejects for another such row is not seen by the
/// filtered list.
pub proof fn filter_update<T>(rows: Seq<T>, i: int, row: T, keep: spec_fn(T) -> bool)
    requires
        0 <= i < rows.len(),
        !keep(rows[i]),
        !keep(row),
    ensures
        rows.update(i, row).filter(keep) == rows.filter(keep),
    decreases rows.len(),
{
    reveal(Seq::filter);
    let front = rows.drop_last();
    let out = rows.update(i, row);
    if i == rows.len() - 1 {
        assert(out.drop_last() =~= front);
    } else {
        filter_update(front, i, row, keep);
        assert(out.drop_last() =~= front.update(i, row));
    }
}

/// Where one row alone is accepted, the filtered list is that row.
pub proof fn filter_single<T>(rows: Seq<T>, i: int, keep: spec_fn(T) -> bool)
    requires
        0 <= i < rows.len(),
        keep(rows[i]),
        forall|j: int| 0 <= j < rows.len() && j != i ==> !keep(#[trigger] rows[j]),
    ensures
        rows.filter(keep) == seq![rows[i]],
    decreases rows.len(),
{
    reveal(Seq::filter);
    let front = rows.drop_last();
    if i == rows.len() - 1 {
        assert forall|j: int| 0 <= j < front.len() implies !keep(#[trigger] front[j]) by {
            assert(front[j] == rows[j]);
        }
        filter_none(front, keep);
        assert(rows.filter(keep) =~= seq![rows[i]]);
    } else {
        assert forall|j: int| 0 <= j < front.len() && j != i implies !keep(
            #[trigger] front[j],
        ) by {
            assert(front[j] == rows[j]);
        }
        filter_single(front, i, keep);
        assert(!keep(rows[rows.len() - 1]));
    }
}

/// Where no row is accepted, nothing is left.
pub proof fn filter_none<T>(rows: Seq<T>, keep: spec_fn(T) -> bool)
    requires
        forall|j: int| 0 <= j < rows.len() ==> !keep(#[trigger] rows[j]),
    ensures
        rows.filter(keep).len() == 0,
    decreases rows.len(),
{
    reveal(Seq::filter);
    if rows.len() > 0 {
        let front = rows.drop_last();
        assert forall|j: int| 0 <= j < front.len() implies !keep(#[trigger] front[j]) by {
            assert(front[j] == rows[j]);
        }
        filter_none(front, keep);
        assert(!keep(rows[rows.len() - 1]));
    }
}

/// Keeps the rows that `keep` accepts, in their order; the number of rows that
/// went is handed back.
pub(crate) fn retain<T, F: Fn(&T) -> bool>(
    rows: &mut Vec<T>,
    keep: F,
    Ghost(wanted): Ghost<spec_fn(T) -> bool>,
) -> (removed: usize)
    requires
        forall|row: T| call_requires(keep, (&row,)),
        forall|row: T, b: bool| call_ensures(keep, (&row,), b) ==> b == wanted(row),
    ensures
        final(rows)@ == old(rows)@.filter(wanted),
        removed == old(rows)@.len() - final(rows)@.len(),
{
    let ghost all = rows@;
    let total: usize = rows.len();
    let mut forward: Vec<T> = Vec::new();
    std::mem::swap(rows, &mut forward);
    let mut back: Vec<T> = Vec::new();
    let ghost mut n = all.len() as int;
    while forward.len() > 0
        invariant
            0 <= n <= all.len(),
            forward@ == all.take(n),
            back@ == all.skip(n).reverse(),
        decreases forward@.len(),
    {
        if let Some(row) = forward.pop() {
            back.push(row);
            proof {
                n = n - 1;
                assert(forward@ =~= all.take(n));
                assert(back@ =~= all.skip(n).reverse());
            }
        }
    }
    proof {
        assert(all.take(0).filter(wanted) =~= seq![]) by {
            reveal(Seq::filter);
        }
    }
    while back.len() > 0
        invariant
            0 <= n <= all.len(),
            back@ == all.skip(n).reverse(),
            rows@ == all.take(n).filter(wanted),
            forall|row: T| call_requires(keep, (&row,)),
            forall|row: T, b: bool| call_ensures(keep, (&row,), b) ==> b == wanted(row),
        decreases back@.len(),
    {
        if let Some(row) = back.pop() {
            proof {
                assert(all.skip(n).reverse().last() == all[n]);
                assert(all.skip(n).reverse().drop_last() =~= all.skip(n + 1).reverse());
                assert(all.take(n + 1) =~= all.take(n).push(row));
                filter_push(all.take(n), row, wanted);
                n = n + 1;
            }
            if keep(&row) {
                rows.push(row);
            }
        }
    }
    proof {
        assert(all.take(n) =~= all);
        filter_holds(all, wanted);
    }
    total - rows.len()
}

} // verus!
