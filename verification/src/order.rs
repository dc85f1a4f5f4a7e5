//! The byte order of names, and sorted lists without repetition.
use vstd::prelude::*;
use vstd::slice::{slice_subrange, slice_to_vec};

verus! {

/// How one byte string stands to another.
#[derive(Clone, Copy, PartialEq, Eq, Structural)]
pub enum Order {
    Less,
    Equal,
    Greater,
}

/// Whether `a` comes strictly before `b` in byte order.
pub open spec fn precedes(a: Seq<u8>, b: Seq<u8>) -> bool
    decreases a.len(),
{
    if b.len() == 0 {
        false
    } else if a.len() == 0 {
        true
    } else if a[0] != b[0] {
        a[0] < b[0]
    } else {
        precedes(a.skip(1), b.skip(1))
    }
}

/// Nothing comes before itself.
pub proof fn precedes_irreflexive(a: Seq<u8>)
    ensures
        !precedes(a, a),
    decreases a.len(),
{
    if a.len() > 0 {
        precedes_irreflexive(a.skip(1));
    }
}

/// The byte order is transitive.
pub proof fn precedes_transitive(a: Seq<u8>, b: Seq<u8>, c: Seq<u8>)
    requires
        precedes(a, b),
        precedes(b, c),
    ensures
        precedes(a, c),
    decreases a.len(),
{
    if a.len() > 0 && a[0] == b[0] && b[0] == c[0] {
        precedes_transitive(a.skip(1), b.skip(1), c.skip(1));
    }
}

/// Of two different byte strings one comes before the other.
pub proof fn precedes_total(a: Seq<u8>, b: Seq<u8>)
    ensures
        a == b || precedes(a, b) || precedes(b, a),
    decreases a.len(),
{
    if a.len() > 0 && b.len() > 0 && a[0] == b[0] {
        precedes_total(a.skip(1), b.skip(1));
        if a.skip(1) == b.skip(1) {
            assert(a =~= b) by {
                assert(a.len() == a.skip(1).len() + 1);
                assert forall|i: int| 0 <= i < a.len() implies a[i] == b[i] by {
                    if i > 0 {
                        assert(a[i] == a.skip(1)[i - 1]);
                        assert(b[i] == b.skip(1)[i - 1]);
                    }
                }
            }
        }
    } else if a.len() == 0 && b.len() == 0 {
        assert(a =~= b);
    }
}

/// A common front does not change the order.
pub proof fn precedes_common(front: Seq<u8>, a: Seq<u8>, b: Seq<u8>)
    ensures
        precedes(front + a, front + b) == precedes(a, b),
    decreases front.len(),
{
    if front.len() == 0 {
        assert(front + a =~= a);
        assert(front + b =~= b);
    } else {
        precedes_common(front.skip(1), a, b);
        assert((front + a).skip(1) =~= front.skip(1) + a);
        assert((front + b).skip(1) =~= front.skip(1) + b);
    }
}

/// Compares two byte strings.
pub fn compare_bytes(a: &[u8], b: &[u8]) -> (r: Order)
    ensures
        (r == Order::Less) == precedes(a@, b@),
        (r == Order::Greater) == precedes(b@, a@),
        (r == Order::Equal) == (a@ == b@),
{
    let mut i: usize = 0;
    proof {
        assert(a@.skip(0) =~= a@);
        assert(b@.skip(0) =~= b@);
    }
    while i < a.len() && i < b.len()
        invariant
            i <= a.len(),
            i <= b.len(),
            a@.take(i as int) =~= b@.take(i as int),
            precedes(a@, b@) == precedes(a@.skip(i as int), b@.skip(i as int)),
            precedes(b@, a@) == precedes(b@.skip(i as int), a@.skip(i as int)),
        decreases a.len() - i,
    {
        let (x, y): (u8, u8) = (a[i], b[i]);
        assert(a@.skip(i as int).skip(1) =~= a@.skip(i + 1));
        assert(b@.skip(i as int).skip(1) =~= b@.skip(i + 1));
        if x != y {
            assert(a@[i as int] != b@[i as int]);
            return if x < y { Order::Less } else { Order::Greater };
        }
        assert(a@.take(i + 1) =~= a@.take(i as int).push(x));
        assert(b@.take(i + 1) =~= b@.take(i as int).push(y));
        i = i + 1;
    }
    if i < b.len() {
        Order::Less
    } else if i < a.len() {
        Order::Greater
    } else {
        assert(a@.take(i as int) =~= a@);
        assert(b@.take(i as int) =~= b@);
        proof {
            precedes_irreflexive(a@);
        }
        Order::Equal
    }
}

/// Whether every entry comes before all later ones.
pub open spec fn strictly_sorted(keys: Seq<Seq<u8>>) -> bool {
    forall|i: int, j: int| 0 <= i < j < keys.len() ==> precedes(#[trigger] keys[i], #[trigger] keys[j])
}

/// The byte strings of a list.
pub open spec fn byte_rows(keys: Seq<Vec<u8>>) -> Seq<Seq<u8>> {
    keys.map_values(|k: Vec<u8>| k@)
}

/// Merges two sorted lists; what both hold comes once.
fn merge(a: &Vec<Vec<u8>>, b: &Vec<Vec<u8>>) -> (r: Vec<Vec<u8>>)
    requires
        strictly_sorted(byte_rows(a@)),
        strictly_sorted(byte_rows(b@)),
        a@.len() + b@.len() <= usize::MAX,
    ensures
        strictly_sorted(byte_rows(r@)),
        forall|k: Seq<u8>| #[trigger]
            byte_rows(r@).contains(k) <==> byte_rows(a@).contains(k) || byte_rows(b@).contains(k),
        r@.len() <= a@.len() + b@.len(),
{
    let ghost ra = byte_rows(a@);
    let ghost rb = byte_rows(b@);
    let mut out: Vec<Vec<u8>> = Vec::new();
    let mut i: usize = 0;
    let mut j: usize = 0;
    while i < a.len() || j < b.len()
        invariant
            i <= a.len(),
            j <= b.len(),
            ra == byte_rows(a@),
            rb == byte_rows(b@),
            strictly_sorted(ra),
            strictly_sorted(rb),
            strictly_sorted(byte_rows(out@)),
            out@.len() <= i + j,
            forall|m: int, n: int|
                0 <= m < out@.len() && i <= n < ra.len() ==> precedes(
                    #[trigger] byte_rows(out@)[m],
                    #[trigger] ra[n],
                ),
            forall|m: int, n: int|
                0 <= m < out@.len() && j <= n < rb.len() ==> precedes(
                    #[trigger] byte_rows(out@)[m],
                    #[trigger] rb[n],
                ),
            forall|m: int| 0 <= m < i ==> byte_rows(out@).contains(#[trigger] ra[m]),
            forall|m: int| 0 <= m < j ==> byte_rows(out@).contains(#[trigger] rb[m]),
            forall|m: int|
                0 <= m < out@.len() ==> ra.contains(#[trigger] byte_rows(out@)[m]) || rb.contains(
                    byte_rows(out@)[m],
                ),
        decreases a.len() - i + b.len() - j,
    {
        let side: Order = if i == a.len() {
            Order::Greater
        } else if j == b.len() {
            Order::Less
        } else {
            compare_bytes(a[i].as_slice(), b[j].as_slice())
        };
        let ghost before = byte_rows(out@);
        let next: Vec<u8> = if side == Order::Greater {
            slice_to_vec(b[j].as_slice())
        } else {
            slice_to_vec(a[i].as_slice())
        };
        let ghost key = next@;
        out.push(next);
        let ghost after = byte_rows(out@);
        proof {
            assert(after =~= before.push(key));
            assert(side != Order::Greater ==> key == ra[i as int]);
            assert(side == Order::Greater ==> key == rb[j as int]);
            assert forall|m: int| 0 <= m < before.len() implies precedes(
                #[trigger] before[m],
                key,
            ) by {
                if side == Order::Greater {
                    assert(precedes(before[m], rb[j as int]));
                } else {
                    assert(precedes(before[m], ra[i as int]));
                }
            }
            assert(after.contains(key)) by {
                assert(after[before.len() as int] == key);
            }
            assert forall|m: int| 0 <= m < before.len() implies after.contains(
                #[trigger] before[m],
            ) by {
                assert(after[m] == before[m]);
            }
            let ni: int = if side == Order::Greater { i as int } else { i + 1 };
            let nj: int = if side == Order::Less { j as int } else { j + 1 };
            assert forall|n: int| ni <= n < ra.len() implies precedes(key, #[trigger] ra[n]) by {
                if side == Order::Greater {
                    if n > i {
                        precedes_transitive(key, ra[i as int], ra[n]);
                    }
                }
            }
            assert forall|n: int| nj <= n < rb.len() implies precedes(key, #[trigger] rb[n]) by {
                if side == Order::Less {
                    assert(precedes(key, rb[j as int]));
                    if n > j {
                        precedes_transitive(key, rb[j as int], rb[n]);
                    }
                } else {
                    assert(key == rb[j as int]);
                }
            }
            assert forall|m: int, n: int| 0 <= m < after.len() && ni <= n < ra.len() implies precedes(
                #[trigger] after[m],
                #[trigger] ra[n],
            ) by {
                if m < before.len() {
                    assert(after[m] == before[m]);
                }
            }
            assert forall|m: int, n: int| 0 <= m < after.len() && nj <= n < rb.len() implies precedes(
                #[trigger] after[m],
                #[trigger] rb[n],
            ) by {
                if m < before.len() {
                    assert(after[m] == before[m]);
                }
            }
            assert forall|m: int| 0 <= m < after.len() implies ra.contains(#[trigger] after[m])
                || rb.contains(after[m]) by {
                if m < before.len() {
                    assert(after[m] == before[m]);
                } else if side == Order::Greater {
                    assert(rb.contains(rb[j as int]));
                } else {
                    assert(ra.contains(ra[i as int]));
                }
            }
            assert forall|m: int| 0 <= m < ni implies after.contains(#[trigger] ra[m]) by {
                if m < i {
                    let w = choose|w: int| 0 <= w < before.len() && before[w] == ra[m];
                    assert(after[w] == ra[m]);
                }
            }
            assert forall|m: int| 0 <= m < nj implies after.contains(#[trigger] rb[m]) by {
                if m < j {
                    let w = choose|w: int| 0 <= w < before.len() && before[w] == rb[m];
                    assert(after[w] == rb[m]);
                }
            }
        }
        if side == Order::Greater {
            j = j + 1;
        } else if side == Order::Less {
            i = i + 1;
        } else {
            i = i + 1;
            j = j + 1;
        }
    }
    proof {
        let all = byte_rows(out@);
        assert forall|k: Seq<u8>| #[trigger] all.contains(k) <==> ra.contains(k) || rb.contains(k) by {
            if ra.contains(k) {
                let w = choose|w: int| 0 <= w < ra.len() && ra[w] == k;
                assert(all.contains(ra[w]));
            }
            if rb.contains(k) {
                let w = choose|w: int| 0 <= w < rb.len() && rb[w] == k;
                assert(all.contains(rb[w]));
            }
            if all.contains(k) {
                let w = choose|w: int| 0 <= w < all.len() && all[w] == k;
                assert(ra.contains(all[w]) || rb.contains(all[w]));
            }
        }
    }
    out
}

/// Sorts byte strings; what occurs more than once comes once.
pub fn sorted_unique(keys: &[Vec<u8>]) -> (r: Vec<Vec<u8>>)
    ensures
        strictly_sorted(byte_rows(r@)),
        forall|k: Seq<u8>| #[trigger] byte_rows(r@).contains(k) <==> byte_rows(keys@).contains(k),
        r@.len() <= keys@.len(),
    decreases keys@.len(),
{
    let n: usize = keys.len();
    if n == 0 {
        assert(byte_rows(keys@) =~= seq![]);
        let none: Vec<Vec<u8>> = Vec::new();
        assert(byte_rows(none@) =~= seq![]);
        return none;
    }
    if n == 1 {
        let mut one: Vec<Vec<u8>> = Vec::new();
        one.push(slice_to_vec(keys[0].as_slice()));
        assert(byte_rows(one@) =~= byte_rows(keys@));
        return one;
    }
    let middle: usize = n / 2;
    let low: &[Vec<u8>] = slice_subrange(keys, 0, middle);
    let high: &[Vec<u8>] = slice_subrange(keys, middle, n);
    let a: Vec<Vec<u8>> = sorted_unique(low);
    let b: Vec<Vec<u8>> = sorted_unique(high);
    proof {
        let whole = byte_rows(keys@);
        let rl = byte_rows(low@);
        let rh = byte_rows(high@);
        assert forall|k: Seq<u8>| #[trigger] whole.contains(k) <==> rl.contains(k) || rh.contains(k) by {
            if whole.contains(k) {
                let w = choose|w: int| 0 <= w < whole.len() && whole[w] == k;
                if w < middle {
                    assert(rl[w] == k);
                } else {
                    assert(rh[w - middle] == k);
                }
            }
            if rl.contains(k) {
                let w = choose|w: int| 0 <= w < rl.len() && rl[w] == k;
                assert(whole[w] == k);
            }
            if rh.contains(k) {
                let w = choose|w: int| 0 <= w < rh.len() && rh[w] == k;
                assert(whole[w + middle] == k);
            }
        }
    }
    merge(&a, &b)
}

/// Whether a relation between positions can order a list: nothing comes before
/// what comes before it, and "not after" is transitive.
pub open spec fn orders(before: spec_fn(int, int) -> bool, n: int) -> bool {
    &&& forall|a: int, b: int|
        0 <= a < n && 0 <= b < n && #[trigger] before(a, b) ==> !before(b, a)
    &&& forall|a: int, b: int, c: int|
        0 <= a < n && 0 <= b < n && 0 <= c < n && !#[trigger] before(b, a) && !#[trigger] before(
            c,
            b,
        ) ==> !before(c, a)
}

/// Whether positions stand in order.
pub open spec fn in_order(list: Seq<usize>, before: spec_fn(int, int) -> bool) -> bool {
    forall|i: int, j: int|
        0 <= i < j < list.len() ==> !before(#[trigger] list[j] as int, #[trigger] list[i] as int)
}

/// Whether a list holds exactly the positions from `low` up to `high`, each once.
pub open spec fn arranges(list: Seq<usize>, low: int, high: int) -> bool {
    &&& list.len() == high - low
    &&& list.no_duplicates()
    &&& forall|i: int| 0 <= i < list.len() ==> low <= #[trigger] list[i] < high
}

/// A list that arranges a range holds every position of it.
pub proof fn arranges_all(list: Seq<usize>, low: int, high: int, x: usize)
    requires
        arranges(list, low, high),
        low <= x < high,
    ensures
        list.contains(x),
    decreases high - low,
{
    if !list.contains(x) {
        // The entries would be as many distinct numbers as the range has, in a
        // range with one number fewer.
        let ids = list.map_values(|i: usize| i as int);
        let set = ids.to_set();
        let all = vstd::set_lib::set_int_range(low, high).remove(x as int);
        assert(ids.no_duplicates()) by {
            assert forall|i: int, j: int| 0 <= i < ids.len() && 0 <= j < ids.len() && i != j implies ids[i]
                != ids[j] by {
                assert(list[i] != list[j]);
            }
        }
        ids.unique_seq_to_set();
        vstd::set_lib::lemma_int_range(low, high);
        assert(set.subset_of(all)) by {
            assert forall|v: int| set.contains(v) implies all.contains(v) by {
                let i = choose|i: int| 0 <= i < ids.len() && ids[i] == v;
                assert(low <= list[i] < high);
                if v == x as int {
                    assert(list[i] == x);
                    assert(list.contains(x));
                }
            }
        }
        vstd::set_lib::lemma_len_subset(set, all);
        assert(false);
    }
}

/// Positions from `low` up to `high`, in order; what compares equal keeps its
/// place.
pub(crate) fn sorted_range<F: Fn(usize, usize) -> bool>(
    low: usize,
    high: usize,
    n: usize,
    less: &F,
    Ghost(before): Ghost<spec_fn(int, int) -> bool>,
) -> (r: Vec<usize>)
    requires
        low <= high <= n,
        forall|a: usize, b: usize| a < n && b < n ==> call_requires(*less, (a, b)),
        forall|a: usize, b: usize, x: bool|
            a < n && b < n && call_ensures(*less, (a, b), x) ==> x == before(a as int, b as int),
        orders(before, n as int),
    ensures
        arranges(r@, low as int, high as int),
        in_order(r@, before),
    decreases high - low,
{
    let mut out: Vec<usize> = Vec::new();
    if high - low == 0 {
        return out;
    }
    if high - low == 1 {
        out.push(low);
        return out;
    }
    let mid: usize = low + (high - low) / 2;
    let a: Vec<usize> = sorted_range(low, mid, n, less, Ghost(before));
    let b: Vec<usize> = sorted_range(mid, high, n, less, Ghost(before));
    let mut i: usize = 0;
    let mut j: usize = 0;
    while i < a.len() || j < b.len()
        invariant
            low <= mid <= high <= n,
            i <= a.len(),
            j <= b.len(),
            arranges(a@, low as int, mid as int),
            arranges(b@, mid as int, high as int),
            in_order(a@, before),
            in_order(b@, before),
            orders(before, n as int),
            forall|x: usize, y: usize| x < n && y < n ==> call_requires(*less, (x, y)),
            forall|x: usize, y: usize, t: bool|
                x < n && y < n && call_ensures(*less, (x, y), t) ==> t == before(
                    x as int,
                    y as int,
                ),
            out@.len() == i + j,
            in_order(out@, before),
            out@.no_duplicates(),
            forall|k: int|
                0 <= k < out@.len() ==> (exists|m: int| 0 <= m < i && a@[m] == #[trigger] out@[k])
                    || (exists|m: int| 0 <= m < j && b@[m] == out@[k]),
            forall|k: int, m: int|
                0 <= k < out@.len() && i <= m < a@.len() ==> !before(
                    #[trigger] a@[m] as int,
                    #[trigger] out@[k] as int,
                ),
            forall|k: int, m: int|
                0 <= k < out@.len() && j <= m < b@.len() ==> !before(
                    #[trigger] b@[m] as int,
                    #[trigger] out@[k] as int,
                ),
        decreases a.len() - i + b.len() - j,
    {
        let first: bool = if i >= a.len() {
            false
        } else if j >= b.len() {
            true
        } else {
            !less(b[j], a[i])
        };
        let ghost now = out@;
        if first {
            proof {
                let x = a@[i as int];
                assert forall|k: int| 0 <= k < now.len() implies now[k] != x by {
                    if exists|m: int| 0 <= m < i && a@[m] == now[k] {
                    } else {
                        let m = choose|m: int| 0 <= m < j && b@[m] == now[k];
                        assert(b@[m] >= mid);
                    }
                }
                assert forall|m: int| j <= m < b@.len() implies !before(
                    #[trigger] b@[m] as int,
                    x as int,
                ) by {
                    if m > j {
                        assert(!before(b@[m] as int, b@[j as int] as int));
                    }
                }
            }
            out.push(a[i]);
            i = i + 1;
            proof {
                assert forall|k: int| 0 <= k < out@.len() implies (exists|m: int|
                    0 <= m < i && a@[m] == #[trigger] out@[k]) || (exists|m: int|
                    0 <= m < j && b@[m] == out@[k]) by {
                    if k < now.len() {
                        assert(out@[k] == now[k]);
                        if exists|m: int| 0 <= m < i - 1 && a@[m] == now[k] {
                            let m = choose|m: int| 0 <= m < i - 1 && a@[m] == now[k];
                            assert(a@[m] == out@[k]);
                        } else {
                            let m = choose|m: int| 0 <= m < j && b@[m] == now[k];
                            assert(b@[m] == out@[k]);
                        }
                    } else {
                        assert(a@[i - 1] == out@[k]);
                    }
                }
            }
        } else {
            proof {
                let x = b@[j as int];
                assert forall|k: int| 0 <= k < now.len() implies now[k] != x by {
                    if exists|m: int| 0 <= m < i && a@[m] == now[k] {
                        let m = choose|m: int| 0 <= m < i && a@[m] == now[k];
                        assert(a@[m] < mid);
                    } else {
                        let m = choose|m: int| 0 <= m < j && b@[m] == now[k];
                        assert(b@[m] != b@[j as int]);
                    }
                }
                assert forall|m: int| i <= m < a@.len() implies !before(
                    #[trigger] a@[m] as int,
                    x as int,
                ) by {
                    assert(before(x as int, a@[i as int] as int));
                    assert(!before(a@[i as int] as int, x as int));
                    if m > i {
                        assert(!before(a@[m] as int, a@[i as int] as int));
                    }
                }
            }
            out.push(b[j]);
            j = j + 1;
            proof {
                assert forall|k: int| 0 <= k < out@.len() implies (exists|m: int|
                    0 <= m < i && a@[m] == #[trigger] out@[k]) || (exists|m: int|
                    0 <= m < j && b@[m] == out@[k]) by {
                    if k < now.len() {
                        assert(out@[k] == now[k]);
                        if exists|m: int| 0 <= m < i && a@[m] == now[k] {
                            let m = choose|m: int| 0 <= m < i && a@[m] == now[k];
                            assert(a@[m] == out@[k]);
                        } else {
                            let m = choose|m: int| 0 <= m < j - 1 && b@[m] == now[k];
                            assert(b@[m] == out@[k]);
                        }
                    } else {
                        assert(b@[j - 1] == out@[k]);
                    }
                }
            }
        }
    }
    proof {
        assert forall|k: int| 0 <= k < out@.len() implies low <= #[trigger] out@[k] < high by {
            if exists|m: int| 0 <= m < i && a@[m] == out@[k] {
                let m = choose|m: int| 0 <= m < i && a@[m] == out@[k];
                assert(low <= a@[m] < mid);
            } else {
                let m = choose|m: int| 0 <= m < j && b@[m] == out@[k];
                assert(mid <= b@[m] < high);
            }
        }
    }
    out
}

} // verus!
