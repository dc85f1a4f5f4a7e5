//! The pending queue stays tidy: no scope waits for what another one covers, and
//! every scope lies inside a location that is still authorized.
use crate::model::Root;
use crate::paths::{below, plainly_spelled, scope_outcome, scopes_are_plain, under, under_itself, FsPath};
use crate::store::claims::requeue_failure;
use crate::store::grants::{forgotten, root_apart, scope_apart};
use crate::store::queue::{
    apart, batch_failure, canonical, covered, enqueue_keeps_settled, enqueue_outcome, enqueued,
    enqueued_all, inside, outside_scope, scope_failure, settled, settled_filter,
};
use crate::store::recover::{known, rebuilt, recovered, replayed, root_scopes, work_failure};
use crate::store::{keys, Journal, Scope, ScopeKey, Store};
use crate::tables::{filter_holds, filter_map, filter_rows, unique};
use crate::text::begins;
use vstd::prelude::*;

verus! {

/// Whether a scope lies inside the authorized location that it belongs to.
pub open spec fn authorized(store: Store, scope: ScopeKey) -> bool {
    store.has_root(scope.0) && under(scope.1, store.root_of(scope.0).path@)
}

/// Whether no scope of a queue lies under another one of its root, and each is
/// authorized.
pub open spec fn tidy_queue(store: Store, queue: Seq<ScopeKey>) -> bool {
    settled(queue) && forall|i: int| 0 <= i < queue.len() ==> authorized(store, #[trigger] queue[i])
}

impl Store {
    /// Whether the pending queue is tidy.
    pub open spec fn tidy(self) -> bool {
        tidy_queue(self, keys(self.journal.pending@))
    }
}

/// Authorization depends on the locations alone.
pub proof fn same_roots_authorize(a: Store, b: Store)
    requires
        a.roots@ == b.roots@,
        unique(a.roots@, |r: Root| r.id@),
    ensures
        forall|id: Seq<char>| a.has_root(id) == b.has_root(id),
        forall|id: Seq<char>| a.has_root(id) ==> #[trigger] a.root_of(id) == b.root_of(id),
        forall|queue: Seq<ScopeKey>| tidy_queue(a, queue) == tidy_queue(b, queue),
{
    assert forall|id: Seq<char>| a.has_root(id) == b.has_root(id) by {
        if a.has_root(id) {
            let c = choose|c: int| #[trigger] a.root_at(id, c);
            assert(b.root_at(id, c));
        }
        if b.has_root(id) {
            let c = choose|c: int| #[trigger] b.root_at(id, c);
            assert(a.root_at(id, c));
        }
    }
    assert forall|id: Seq<char>| a.has_root(id) implies #[trigger] a.root_of(id) == b.root_of(
        id,
    ) by {
        let c = choose|c: int| #[trigger] a.root_at(id, c);
        assert(b.root_at(id, c));
        let d = choose|d: int| #[trigger] b.root_at(id, d);
        assert(b.root_at(id, d));
        if c < d {
            assert(a.roots@[c].id@ != a.roots@[d].id@);
        } else if d < c {
            assert(a.roots@[d].id@ != a.roots@[c].id@);
        }
    }
    assert forall|queue: Seq<ScopeKey>| tidy_queue(a, queue) == tidy_queue(b, queue) by {
        if tidy_queue(a, queue) {
            assert forall|i: int| 0 <= i < queue.len() implies authorized(
                b,
                #[trigger] queue[i],
            ) by {
                assert(authorized(a, queue[i]));
                assert(a.root_of(queue[i].0) == b.root_of(queue[i].0));
            }
        }
        if tidy_queue(b, queue) {
            assert forall|i: int| 0 <= i < queue.len() implies authorized(
                a,
                #[trigger] queue[i],
            ) by {
                assert(authorized(b, queue[i]));
                assert(a.root_of(queue[i].0) == b.root_of(queue[i].0));
            }
        }
    }
}

/// Whatever leaves the locations and the pending list alone leaves it tidy.
pub proof fn tidiness_is_of_locations_and_pending(before: Store, after: Store)
    requires
        before.tidy(),
        unique(before.roots@, |r: Root| r.id@),
        after.roots@ == before.roots@,
        keys(after.journal.pending@) == keys(before.journal.pending@),
    ensures
        after.tidy(),
{
    same_roots_authorize(before, after);
}

/// One more scope of an authorized location keeps the queue tidy.
pub proof fn enqueue_keeps_tidy(
    store: Store,
    queue: Seq<ScopeKey>,
    root: Seq<char>,
    path: Seq<u8>,
)
    requires
        tidy_queue(store, queue),
        authorized(store, (root, path)),
        plainly_spelled(path),
    ensures
        tidy_queue(store, enqueued(queue, root, store.root_of(root).path@, path)),
{
    let base = store.root_of(root).path@;
    assert(inside(queue, root, base)) by {
        assert forall|i: int| 0 <= i < queue.len() && (#[trigger] queue[i]).0 == root implies under(
            queue[i].1,
            base,
        ) by {
            assert(authorized(store, queue[i]));
        }
    }
    enqueue_keeps_settled(queue, root, base, path);
    let after = enqueued(queue, root, base, path);
    if !covered(queue, root, base, path) {
        let keep = apart(root, path);
        filter_rows(queue, keep);
        let left = queue.filter(keep);
        assert forall|i: int| 0 <= i < after.len() implies authorized(store, #[trigger] after[i]) by {
            if i < left.len() {
                assert(after[i] == left[i]);
                let w = choose|w: int| 0 <= w < queue.len() && queue[w] == left[i];
                assert(authorized(store, queue[w]));
            }
        }
    }
}

/// Taking scopes out keeps a queue tidy.
pub proof fn filter_keeps_tidy(store: Store, queue: Seq<ScopeKey>, keep: spec_fn(ScopeKey) -> bool)
    requires
        tidy_queue(store, queue),
    ensures
        tidy_queue(store, queue.filter(keep)),
{
    settled_filter(queue, keep);
    filter_rows(queue, keep);
    let left = queue.filter(keep);
    assert forall|i: int| 0 <= i < left.len() implies authorized(store, #[trigger] left[i]) by {
        let w = choose|w: int| 0 <= w < queue.len() && queue[w] == left[i];
        assert(authorized(store, queue[w]));
    }
}

/// The same, of the scopes themselves.
pub proof fn scopes_leave_tidy(
    store: Store,
    scopes: Seq<Scope>,
    keep: spec_fn(Scope) -> bool,
    keep_key: spec_fn(ScopeKey) -> bool,
)
    requires
        tidy_queue(store, keys(scopes)),
        forall|s: Scope| #[trigger] keep(s) == keep_key(s.key()),
    ensures
        tidy_queue(store, keys(scopes.filter(keep))),
{
    filter_map(scopes, |s: Scope| s.key(), keep, keep_key);
    filter_keeps_tidy(store, keys(scopes), keep_key);
}

/// Discarding what a pass covers keeps a queue tidy.
pub proof fn discard_keeps_tidy(
    store: Store,
    scopes: Seq<Scope>,
    root: Seq<char>,
    path: Seq<u8>,
)
    requires
        tidy_queue(store, keys(scopes)),
    ensures
        tidy_queue(store, keys(scopes.filter(outside_scope(root, path)))),
{
    let keep_key = |k: ScopeKey| !(k.0 == root && (k.1 == path || begins(k.1, below(path))));
    scopes_leave_tidy(store, scopes, outside_scope(root, path), keep_key);
}

/// Taking one scope out keeps a queue tidy.
pub proof fn claim_keeps_tidy(store: Store, scopes: Seq<Scope>, i: int)
    requires
        tidy_queue(store, keys(scopes)),
        0 <= i < scopes.len(),
    ensures
        tidy_queue(store, keys(scopes.remove(i))),
{
    let queue = keys(scopes);
    let left = keys(scopes.remove(i));
    assert forall|k: int| 0 <= k < left.len() implies left[k] == queue[if k < i {
        k
    } else {
        k + 1
    }] by {}
    assert forall|k: int| 0 <= k < left.len() implies plainly_spelled((#[trigger] left[k]).1) by {
        assert(plainly_spelled(queue[if k < i {
            k
        } else {
            k + 1
        }].1));
    }
    assert forall|k: int| 0 <= k < left.len() implies authorized(store, #[trigger] left[k]) by {
        assert(authorized(store, queue[if k < i {
            k
        } else {
            k + 1
        }]));
    }
}

/// Several scopes in turn keep the queue tidy.
pub proof fn batch_keeps_tidy(
    store: Store,
    queue: Seq<ScopeKey>,
    root: Seq<char>,
    paths: Seq<Seq<u8>>,
)
    requires
        tidy_queue(store, queue),
        forall|j: int| 0 <= j < paths.len() ==> authorized(store, (root, #[trigger] paths[j])),
        forall|j: int| 0 <= j < paths.len() ==> plainly_spelled(#[trigger] paths[j]),
    ensures
        tidy_queue(store, enqueued_all(queue, root, store.root_of(root).path@, paths)),
    decreases paths.len(),
{
    if paths.len() > 0 {
        batch_keeps_tidy(store, queue, root, paths.drop_last());
        assert(authorized(store, (root, paths[paths.len() - 1])));
        assert(plainly_spelled(paths[paths.len() - 1]));
        enqueue_keeps_tidy(
            store,
            enqueued_all(queue, root, store.root_of(root).path@, paths.drop_last()),
            root,
            paths.last(),
        );
    }
}

/// Work that is put back keeps the queue tidy.
pub proof fn replay_keeps_tidy(store: Store, queue: Seq<ScopeKey>, work: Seq<ScopeKey>)
    requires
        tidy_queue(store, queue),
        work_failure(store, work) is None,
    ensures
        tidy_queue(store, replayed(store, queue, work)),
    decreases work.len(),
{
    if work.len() > 0 {
        replay_keeps_tidy(store, queue, work.drop_last());
        assert(requeue_failure(store, work.last().0, work.last().1) is None);
        scopes_are_plain(work.last().1);
        enqueue_keeps_tidy(
            store,
            replayed(store, queue, work.drop_last()),
            work.last().0,
            scope_outcome(work.last().1)->Ok_0,
        );
    }
}

/// Whether every location is spelled plainly.
pub open spec fn plain_roots(store: Store) -> bool {
    forall|i: int| 0 <= i < store.roots@.len() ==> plainly_spelled((#[trigger] store.roots@[i]).path@)
}

/// A new set of rules leaves one scope for each location, whatever was pending.
pub proof fn rebuilding_tidies(before: Store, after: Store, rule_version: u32)
    requires
        rebuilt(before, after, rule_version),
        unique(before.roots@, |r: Root| r.id@),
        plain_roots(before),
    ensures
        after.tidy(),
{
    let queue = root_scopes(before);
    assert forall|i: int| 0 <= i < queue.len() implies plainly_spelled((#[trigger] queue[i]).1) by {
        assert(plainly_spelled(before.roots@[i].path@));
    }
    assert forall|i: int, j: int|
        0 <= i < queue.len() && 0 <= j < queue.len() && i != j && (#[trigger] queue[i]).0 == (
        #[trigger] queue[j]).0 implies !under(queue[i].1, queue[j].1) by {
        if i < j {
            assert(before.roots@[i].id@ != before.roots@[j].id@);
        } else {
            assert(before.roots@[j].id@ != before.roots@[i].id@);
        }
    }
    assert forall|i: int| 0 <= i < queue.len() implies authorized(after, #[trigger] queue[i]) by {
        let id = before.roots@[i].id@;
        under_itself(queue[i].1, queue[i].1);
        assert(after.root_at(id, i));
        let c = choose|c: int| #[trigger] after.root_at(id, c);
        assert(after.root_at(id, c));
        if c < i {
            assert(before.roots@[c].id@ != before.roots@[i].id@);
        } else if i < c {
            assert(before.roots@[i].id@ != before.roots@[c].id@);
        }
    }
}

/// Recovery keeps the queue tidy.
pub proof fn recovery_keeps_tidy(before: Store, after: Store)
    requires
        before.tidy(),
        unique(before.roots@, |r: Root| r.id@),
        recovered(before, after),
        work_failure(before, crate::store::recover::abandoned(before)) is None,
    ensures
        after.tidy(),
{
    let work = crate::store::recover::abandoned(before);
    replay_keeps_tidy(before, keys(before.journal.pending@), work);
    filter_keeps_tidy(before, replayed(before, keys(before.journal.pending@), work), known(before));
    same_roots_authorize(before, after);
}

/// Forgetting locations keeps the queue tidy: their scopes go with them.
pub proof fn forgetting_keeps_tidy(before: Store, after: Store, ids: Seq<Seq<char>>)
    requires
        before.tidy(),
        before.wf(),
        forgotten(before, after, ids),
    ensures
        after.tidy(),
{
    let gone = |k: ScopeKey| !ids.contains(k.0);
    let scopes = before.journal.pending@;
    scopes_leave_tidy(before, scopes, scope_apart(ids), gone);
    filter_map(scopes, |s: Scope| s.key(), scope_apart(ids), gone);
    let queue = keys(scopes);
    let left = queue.filter(gone);
    assert(left == keys(after.journal.pending@));
    filter_rows(queue, gone);
    filter_holds(before.roots@, root_apart(ids));
    crate::tables::filter_unique(before.roots@, root_apart(ids), |r: Root| r.id@);
    assert forall|i: int| 0 <= i < left.len() implies authorized(after, #[trigger] left[i]) by {
        assert(authorized(before, left[i]));
        let id = left[i].0;
        let c = choose|c: int| #[trigger] before.root_at(id, c);
        let root = before.roots@[c];
        assert(before.roots@.contains(root));
        assert(after.roots@.contains(root));
        let d = choose|d: int| 0 <= d < after.roots@.len() && after.roots@[d] == root;
        assert(after.root_at(id, d));
        let e = choose|e: int| #[trigger] after.root_at(id, e);
        assert(after.root_at(id, e));
        if e < d {
            assert(after.roots@[e].id@ != after.roots@[d].id@);
        } else if d < e {
            assert(after.roots@[d].id@ != after.roots@[e].id@);
        }
    }
}

/// One more location keeps the queue tidy.
pub proof fn new_location_keeps_tidy(before: Store, after: Store, root: Root, queue: Seq<ScopeKey>)
    requires
        tidy_queue(before, queue),
        after.roots@ == before.roots@.push(root),
        unique(after.roots@, |r: Root| r.id@),
    ensures
        tidy_queue(after, queue),
        after.has_root(root.id@),
        after.root_of(root.id@) == root,
{
    assert(after.root_at(root.id@, before.roots@.len() as int));
    let n = before.roots@.len() as int;
    let c = choose|c: int| #[trigger] after.root_at(root.id@, c);
    assert(after.root_at(root.id@, c));
    if c < n {
        assert(after.roots@[c].id@ != after.roots@[n].id@);
    }
    assert forall|i: int| 0 <= i < queue.len() implies authorized(after, #[trigger] queue[i]) by {
        assert(authorized(before, queue[i]));
        let id = queue[i].0;
        let d = choose|d: int| #[trigger] before.root_at(id, d);
        assert(after.root_at(id, d));
        let e = choose|e: int| #[trigger] after.root_at(id, e);
        assert(after.root_at(id, e));
        if e < d {
            assert(after.roots@[e].id@ != after.roots@[d].id@);
        } else if d < e {
            assert(after.roots@[d].id@ != after.roots@[e].id@);
        }
    }
}

/// A valid path is a scope of its location.
pub proof fn valid_batches_are_authorized(
    store: Store,
    root: Seq<char>,
    paths: Seq<FsPath>,
    n: int,
)
    requires
        store.has_root(root),
        0 <= n <= paths.len(),
        batch_failure(store.root_of(root).path@, paths, n) is None,
    ensures
        forall|j: int| 0 <= j < n ==> authorized(store, (root, #[trigger] canonical(paths)[j])),
        forall|j: int| 0 <= j < n ==> plainly_spelled(#[trigger] canonical(paths)[j]),
        forall|j: int|
            0 <= j < n ==> scope_failure(
                store.root_of(root).path@,
                (#[trigger] paths[j])@,
            ) is None,
    decreases n,
{
    if n > 0 {
        valid_batches_are_authorized(store, root, paths, n - 1);
        assert(scope_failure(store.root_of(root).path@, paths[n - 1]@) is None);
        assert(canonical(paths)[n - 1] == scope_outcome(paths[n - 1]@)->Ok_0);
        scopes_are_plain(paths[n - 1]@);
    }
}

/// A batch leaves the queue as its paths leave it one after the other, and
/// touches nothing else.
pub proof fn a_batch_is_its_paths_in_turn(
    stores: Seq<Store>,
    root: Seq<char>,
    paths: Seq<FsPath>,
    results: Seq<Result<(), String>>,
)
    requires
        stores.len() == paths.len() + 1,
        results.len() == paths.len(),
        stores[0].has_root(root),
        unique(stores[0].roots@, |r: Root| r.id@),
        batch_failure(stores[0].root_of(root).path@, paths, paths.len() as int) is None,
        forall|i: int|
            0 <= i < paths.len() ==> enqueue_outcome(
                #[trigger] stores[i],
                stores[i + 1],
                root,
                paths[i]@,
                results[i],
            ),
    ensures
        forall|i: int| 0 <= i < paths.len() ==> (#[trigger] results[i]) is Ok,
        keys(stores.last().journal.pending@) == enqueued_all(
            keys(stores[0].journal.pending@),
            root,
            stores[0].root_of(root).path@,
            canonical(paths),
        ),
        stores.last() == (Store {
            journal: Journal { pending: stores.last().journal.pending, ..stores[0].journal },
            ..stores[0]
        }),
    decreases paths.len(),
{
    let n = paths.len() as int;
    if n > 0 {
        let base = stores[0].root_of(root).path@;
        valid_batches_are_authorized(stores[0], root, paths, n);
        let front = paths.drop_last();
        batch_of_fewer(base, paths, n - 1);
        assert forall|i: int| 0 <= i < front.len() implies enqueue_outcome(
            #[trigger] stores.drop_last()[i],
            stores.drop_last()[i + 1],
            root,
            front[i]@,
            results.drop_last()[i],
        ) by {
            assert(enqueue_outcome(stores[i], stores[i + 1], root, paths[i]@, results[i]));
        }
        a_batch_is_its_paths_in_turn(stores.drop_last(), root, front, results.drop_last());
        let last = stores[n - 1];
        assert(stores.drop_last().last() == last);
        same_roots_authorize(stores[0], last);
        assert(enqueue_outcome(last, stores[n], root, paths[n - 1]@, results[n - 1]));
        assert(scope_failure(base, paths[n - 1]@) is None);
        assert(canonical(paths).drop_last() =~= canonical(front));
        assert(canonical(paths).last() == scope_outcome(paths[n - 1]@)->Ok_0);
        assert forall|i: int| 0 <= i < n implies (#[trigger] results[i]) is Ok by {
            if i < n - 1 {
                assert(results.drop_last()[i] is Ok);
            }
        }
    }
}

proof fn batch_of_fewer(base: Seq<u8>, paths: Seq<FsPath>, n: int)
    requires
        0 <= n <= paths.len(),
    ensures
        batch_failure(base, paths, paths.len() as int) is None ==> batch_failure(
            base,
            paths.take(n),
            n,
        ) is None,
        paths.drop_last() == paths.take(paths.len() - 1) || paths.len() == 0,
{
    same_batch_at(base, paths, n, n);
    if batch_failure(base, paths, n) is Some {
        fewer_fail_less(base, paths, n, paths.len() as int);
    }
    if paths.len() > 0 {
        assert(paths.drop_last() =~= paths.take(paths.len() - 1));
    }
}

proof fn fewer_fail_less(base: Seq<u8>, paths: Seq<FsPath>, n: int, m: int)
    requires
        0 <= n <= m,
        batch_failure(base, paths, n) is Some,
    ensures
        batch_failure(base, paths, m) is Some,
    decreases m,
{
    if n < m {
        fewer_fail_less(base, paths, n, m - 1);
    }
}

proof fn same_batch_at(base: Seq<u8>, paths: Seq<FsPath>, n: int, k: int)
    requires
        0 <= k <= n <= paths.len(),
    ensures
        batch_failure(base, paths.take(n), k) == batch_failure(base, paths, k),
    decreases k,
{
    if k > 0 {
        same_batch_at(base, paths, n, k - 1);
    }
}

} // verus!
