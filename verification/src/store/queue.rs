//! The queue of discovery scopes: what is pending, what is claimed, and how
//! pending scopes subsume each other.
use crate::paths::{
    above, above_holds, above_plain, above_step, above_transitive, begins_below, below, is_above,
    is_under, path_bytes, plain_is_rooted, plain_ranges, plain_under, plainly_spelled,
    scope_outcome, scope_path, scopes_are_plain, share, under, FsPath,
};
use crate::store::tidy::{
    batch_keeps_tidy, claim_keeps_tidy, discard_keeps_tidy, enqueue_keeps_tidy,
    same_roots_authorize, valid_batches_are_authorized,
};
use crate::store::{keys, no_row, Journal, Scope, ScopeKey, Store};
use crate::tables::{filter_holds, filter_map, filter_rows, filter_unique, push_unique, retain, unique};
use crate::text::{begins, fail, failed, same_bytes, same_text};
use vstd::prelude::*;

verus! {

/// Whether a pending scope of this root, inside its grant, covers the path: its text
/// is that of the path or of a folder above it.
pub open spec fn covered(
    queue: Seq<ScopeKey>,
    root: Seq<char>,
    root_path: Seq<u8>,
    path: Seq<u8>,
) -> bool {
    exists|i: int|
        0 <= i < queue.len() && (#[trigger] queue[i]).0 == root && above(queue[i].1, path)
            && under(queue[i].1, root_path)
}

/// The scopes that do not lie below a path of a root.
pub open spec fn apart(root: Seq<char>, path: Seq<u8>) -> spec_fn(ScopeKey) -> bool {
    |k: ScopeKey| !(k.0 == root && begins(k.1, below(path)))
}

/// The queue without what lies below a path of a root.
pub open spec fn without_below(queue: Seq<ScopeKey>, root: Seq<char>, path: Seq<u8>) -> Seq<
    ScopeKey,
> {
    queue.filter(apart(root, path))
}

/// The queue after one more scope: a pending ancestor already stands for it;
/// otherwise it replaces its pending descendants and waits at the end.
pub open spec fn enqueued(
    queue: Seq<ScopeKey>,
    root: Seq<char>,
    root_path: Seq<u8>,
    path: Seq<u8>,
) -> Seq<ScopeKey> {
    if covered(queue, root, root_path, path) {
        queue
    } else {
        without_below(queue, root, path).push((root, path))
    }
}

/// The queue after several scopes, one after the other.
pub open spec fn enqueued_all(
    queue: Seq<ScopeKey>,
    root: Seq<char>,
    root_path: Seq<u8>,
    paths: Seq<Seq<u8>>,
) -> Seq<ScopeKey>
    decreases paths.len(),
{
    if paths.len() == 0 {
        queue
    } else {
        enqueued(
            enqueued_all(queue, root, root_path, paths.drop_last()),
            root,
            root_path,
            paths.last(),
        )
    }
}

/// The canonical paths, if every path can be a scope of the root.
pub open spec fn scope_failure(root_path: Seq<u8>, path: Seq<u8>) -> Option<Seq<char>> {
    match scope_outcome(path) {
        Err(reason) => Some(reason),
        Ok(scope) => if under(scope, root_path) {
            None
        } else {
            Some("The discovery scope is outside its authorized location"@)
        },
    }
}

/// Every scope is spelled plainly, and none lies under another one of the same root.
pub open spec fn settled(queue: Seq<ScopeKey>) -> bool {
    &&& forall|i: int| 0 <= i < queue.len() ==> plainly_spelled((#[trigger] queue[i]).1)
    &&& forall|i: int, j: int|
        0 <= i < queue.len() && 0 <= j < queue.len() && i != j && (#[trigger] queue[i]).0 == (
        #[trigger] queue[j]).0 ==> !under(queue[i].1, queue[j].1)
}

/// Whether every scope of a root lies inside its grant.
pub open spec fn inside(queue: Seq<ScopeKey>, root: Seq<char>, root_path: Seq<u8>) -> bool {
    forall|i: int|
        0 <= i < queue.len() && (#[trigger] queue[i]).0 == root ==> under(queue[i].1, root_path)
}

/// Pending ancestors subsume descendants: a queue without nested scopes stays so.
pub proof fn enqueue_keeps_settled(
    queue: Seq<ScopeKey>,
    root: Seq<char>,
    root_path: Seq<u8>,
    path: Seq<u8>,
)
    requires
        settled(queue),
        inside(queue, root, root_path),
        under(path, root_path),
        plainly_spelled(path),
    ensures
        settled(enqueued(queue, root, root_path, path)),
        inside(enqueued(queue, root, root_path, path), root, root_path),
{
    if !covered(queue, root, root_path, path) {
        let keep = apart(root, path);
        let left = queue.filter(keep);
        let after = left.push((root, path));
        filter_rows(queue, keep);
        settled_filter(queue, keep);
        assert forall|i: int, j: int|
            0 <= i < after.len() && 0 <= j < after.len() && i != j && (#[trigger] after[i]).0 == (
            #[trigger] after[j]).0 implies !under(after[i].1, after[j].1) by {
            if i < left.len() && j < left.len() {
                assert(after[i] == left[i]);
                assert(after[j] == left[j]);
            } else if i < left.len() {
                // The new scope stands at j; what lies under it has left.
                assert(after[i] == left[i]);
                assert(keep(left[i]));
                let w = choose|w: int| 0 <= w < queue.len() && queue[w] == left[i];
                assert(plainly_spelled(queue[w].1));
                plain_under(left[i].1, path);
                plain_is_rooted(left[i].1);
                above_step(path, path);
                if under(left[i].1, path) {
                    above_holds(path, left[i].1);
                }
                if left[i].1 == path {
                    assert(covered(queue, root, root_path, path));
                }
            } else {
                assert(after[j] == left[j]);
                let w = choose|w: int| 0 <= w < queue.len() && queue[w] == left[j];
                assert(plainly_spelled(queue[w].1));
                plain_under(path, left[j].1);
                if under(path, left[j].1) {
                    assert(queue[w].0 == root);
                    assert(covered(queue, root, root_path, path));
                }
            }
        }
        assert forall|i: int| 0 <= i < after.len() implies plainly_spelled(
            (#[trigger] after[i]).1,
        ) by {
            if i < left.len() {
                assert(after[i] == left[i]);
                let w = choose|w: int| 0 <= w < queue.len() && queue[w] == left[i];
                assert(plainly_spelled(queue[w].1));
            }
        }
        assert forall|i: int| 0 <= i < after.len() && (#[trigger] after[i]).0 == root implies under(
            after[i].1,
            root_path,
        ) by {
            if i < left.len() {
                assert(after[i] == left[i]);
                let w = choose|w: int| 0 <= w < queue.len() && queue[w] == left[i];
                assert(queue[w].0 == root);
            }
        }
    }
}

/// Taking scopes out nests none.
pub proof fn settled_filter(queue: Seq<ScopeKey>, keep: spec_fn(ScopeKey) -> bool)
    requires
        settled(queue),
    ensures
        settled(queue.filter(keep)),
    decreases queue.len(),
{
    reveal(Seq::filter);
    if queue.len() > 0 {
        let front = queue.drop_last();
        let last = queue.last();
        assert(settled(front)) by {
            assert forall|i: int| 0 <= i < front.len() implies plainly_spelled(
                (#[trigger] front[i]).1,
            ) by {
                assert(front[i] == queue[i]);
            }
            assert forall|i: int, j: int|
                0 <= i < front.len() && 0 <= j < front.len() && i != j && (#[trigger] front[i]).0
                    == (#[trigger] front[j]).0 implies !under(front[i].1, front[j].1) by {
                assert(front[i] == queue[i]);
                assert(front[j] == queue[j]);
            }
        }
        settled_filter(front, keep);
        filter_rows(front, keep);
        assert(queue =~= front.push(last));
        crate::tables::filter_push(front, last, keep);
        let before = front.filter(keep);
        let after = queue.filter(keep);
        assert forall|i: int| 0 <= i < after.len() implies plainly_spelled(
            (#[trigger] after[i]).1,
        ) by {
            if i < before.len() {
                assert(after[i] == before[i]);
            } else {
                assert(queue[queue.len() - 1] == last);
            }
        }
        assert forall|i: int, j: int|
            0 <= i < after.len() && 0 <= j < after.len() && i != j && (#[trigger] after[i]).0 == (
            #[trigger] after[j]).0 implies !under(after[i].1, after[j].1) by {
            if i < before.len() && j < before.len() {
                assert(after[i] == before[i]);
                assert(after[j] == before[j]);
            } else if i < before.len() {
                assert(after[i] == before[i]);
                let w = choose|w: int| 0 <= w < front.len() && front[w] == before[i];
                assert(queue[w] == before[i]);
                assert(queue[queue.len() - 1] == last);
            } else {
                assert(after[j] == before[j]);
                let w = choose|w: int| 0 <= w < front.len() && front[w] == before[j];
                assert(queue[w] == before[j]);
                assert(queue[queue.len() - 1] == last);
            }
        }
    }
}

/// After a scope was enqueued, some pending scope covers it.
pub proof fn enqueue_covers(
    queue: Seq<ScopeKey>,
    root: Seq<char>,
    root_path: Seq<u8>,
    path: Seq<u8>,
)
    requires
        under(path, root_path),
    ensures
        covered(enqueued(queue, root, root_path, path), root, root_path, path),
{
    let after = enqueued(queue, root, root_path, path);
    above_step(path, path);
    if !covered(queue, root, root_path, path) {
        assert(after[after.len() - 1] == (root, path));
    }
}

/// No pending work is lost by one more scope: what was covered stays covered.
pub proof fn enqueue_keeps_cover(
    queue: Seq<ScopeKey>,
    root: Seq<char>,
    root_path: Seq<u8>,
    path: Seq<u8>,
    other: Seq<u8>,
)
    requires
        under(path, root_path),
        plainly_spelled(path),
        plainly_spelled(other),
        covered(queue, root, root_path, other),
    ensures
        covered(enqueued(queue, root, root_path, path), root, root_path, other),
{
    let after = enqueued(queue, root, root_path, path);
    if !covered(queue, root, root_path, path) {
        let keep = apart(root, path);
        filter_holds(queue, keep);
        let left = queue.filter(keep);
        let w = choose|w: int|
            0 <= w < queue.len() && (#[trigger] queue[w]).0 == root && above(queue[w].1, other)
                && under(queue[w].1, root_path);
        if keep(queue[w]) {
            assert(queue.contains(queue[w]));
            assert(left.contains(queue[w]));
            let v = choose|v: int| 0 <= v < left.len() && left[v] == queue[w];
            assert(after[v] == queue[w]);
        } else {
            above_plain(queue[w].1, other);
            plain_ranges(queue[w].1, path);
            above_transitive(path, queue[w].1, other);
            assert(after[after.len() - 1] == (root, path));
        }
    }
}

/// The keys stay distinct.
proof fn enqueue_unique(
    queue: Seq<ScopeKey>,
    root: Seq<char>,
    root_path: Seq<u8>,
    path: Seq<u8>,
)
    requires
        unique(queue, |k: ScopeKey| k),
        under(path, root_path),
    ensures
        unique(enqueued(queue, root, root_path, path), |k: ScopeKey| k),
{
    if !covered(queue, root, root_path, path) {
        let keep = apart(root, path);
        let left = queue.filter(keep);
        filter_unique(queue, keep, |k: ScopeKey| k);
        filter_rows(queue, keep);
        let after = left.push((root, path));
        assert forall|i: int, j: int| 0 <= i < j < after.len() implies #[trigger] after[i]
            != #[trigger] after[j] by {
            if j == left.len() {
                assert(after[i] == left[i]);
                if left[i] == (root, path) {
                    above_step(path, path);
                    let w = choose|w: int| 0 <= w < queue.len() && queue[w] == left[i];
                    assert(queue[w].0 == root);
                    assert(covered(queue, root, root_path, path));
                }
            } else {
                assert(after[i] == left[i]);
                assert(after[j] == left[j]);
            }
        }
    }
}

/// Copies a scope.
pub fn copy_scope(scope: &Scope) -> (r: Scope)
    ensures
        r == *scope,
{
    Scope { root_id: scope.root_id.clone(), path: share(&scope.path) }
}

fn is_covered(queue: &Vec<Scope>, root: &str, root_path: &[u8], path: &[u8]) -> (r: bool)
    ensures
        r == covered(keys(queue@), root@, root_path@, path@),
{
    let mut i: usize = 0;
    while i < queue.len()
        invariant
            i <= queue.len(),
            forall|j: int|
                0 <= j < i ==> !((#[trigger] keys(queue@)[j]).0 == root@ && above(
                    keys(queue@)[j].1,
                    path@,
                ) && under(keys(queue@)[j].1, root_path@)),
        decreases queue.len() - i,
    {
        let scope: &[u8] = path_bytes(&queue[i].path);
        assert(keys(queue@)[i as int] == (queue@[i as int].root_id@, queue@[i as int].path@));
        if same_text(queue[i].root_id.as_str(), root) && is_above(scope, path) && is_under(
            scope,
            root_path,
        ) {
            return true;
        }
        i = i + 1;
    }
    false
}

/// Drops what lies below a path of a root from a queue.
fn drop_below(queue: &mut Vec<Scope>, root: &str, path: &[u8])
    ensures
        keys(final(queue)@) == without_below(keys(old(queue)@), root@, path@),
{
    let ghost keep = |s: Scope| !(s.root_id@ == root@ && begins(s.path@, below(path@)));
    let ghost before = queue@;
    let stays = |s: &Scope| -> (b: bool)
        ensures
            b == !(s.root_id@ == root@ && begins(s.path@, below(path@))),
    {
        !(same_text(s.root_id.as_str(), root) && begins_below(path_bytes(&s.path), path))
    };
    retain(queue, stays, Ghost(keep));
    proof {
        filter_map(
            before,
            |s: Scope| s.key(),
            keep,
            apart(root@, path@),
        );
    }
}

impl Journal {
    /// Adds a scope that lies inside the grant at `root_path`.
    pub(crate) fn enqueue_validated(&mut self, root: &str, root_path: &[u8], path: &FsPath)
        requires
            old(self).wf(),
            under(path@, root_path@),
        ensures
            final(self).wf(),
            keys(final(self).pending@) == enqueued(
                keys(old(self).pending@),
                root@,
                root_path@,
                path@,
            ),
            *final(self) == (Journal { pending: final(self).pending, ..*old(self) }),
    {
        proof {
            enqueue_unique(keys(self.pending@), root@, root_path@, path@);
        }
        if is_covered(&self.pending, root, root_path, path_bytes(path)) {
            return ;
        }
        drop_below(&mut self.pending, root, path_bytes(path));
        let ghost left = keys(self.pending@);
        self.pending.push(Scope { root_id: root.to_owned(), path: share(path) });
        assert(keys(self.pending@) =~= left.push((root@, path@)));
    }
}

/// What enqueueing one path of a root does: the failure, or the new queue.
pub open spec fn enqueue_outcome(
    before: Store,
    after: Store,
    root: Seq<char>,
    path: Seq<u8>,
    r: Result<(), String>,
) -> bool {
    match scope_outcome(path) {
        Err(reason) => failed(r, reason) && after == before,
        Ok(scope) => if !before.has_root(root) {
            failed(r, no_row()) && after == before
        } else if !under(scope, before.root_of(root).path@) {
            failed(r, "The discovery scope is outside its authorized location"@) && after == before
        } else {
            &&& r is Ok
            &&& after == (Store {
                journal: Journal { pending: after.journal.pending, ..before.journal },
                ..before
            })
            &&& keys(after.journal.pending@) == enqueued(
                keys(before.journal.pending@),
                root,
                before.root_of(root).path@,
                scope,
            )
        },
    }
}

/// What checking a list of paths says: the first failure, if there is one.
pub open spec fn batch_failure(root_path: Seq<u8>, paths: Seq<FsPath>, n: int) -> Option<Seq<char>>
    decreases n,
{
    if n <= 0 {
        None
    } else {
        match batch_failure(root_path, paths, n - 1) {
            Some(reason) => Some(reason),
            None => scope_failure(root_path, paths[n - 1]@),
        }
    }
}

/// The canonical scopes of a list of paths.
pub open spec fn canonical(paths: Seq<FsPath>) -> Seq<Seq<u8>> {
    paths.map_values(|p: FsPath| scope_outcome(p@)->Ok_0)
}

impl Store {
    /// Persist a refresh request before acknowledging its filesystem event.
    /// Pending ancestors subsume descendants; an active traversal never does.
    pub fn enqueue_scope(&mut self, root: &str, path: &FsPath) -> (r: Result<(), String>)
        requires
            old(self).wf(),
        ensures
            final(self).wf(),
            old(self).tidy() ==> final(self).tidy(),
            enqueue_outcome(*old(self), *final(self), root@, path@, r),
    {
        let scope: FsPath = match scope_path(path_bytes(path)) {
            Ok(scope) => scope,
            Err(reason) => {
                return Err(reason);
            },
        };
        let at: usize = match self.find_root(root) {
            Some(at) => at,
            None => {
                return fail("Query returned no rows");
            },
        };
        proof {
            self.root_unique(root@, at as int);
        }
        let base: FsPath = share(&self.roots[at].path);
        if !is_under(path_bytes(&scope), path_bytes(&base)) {
            return fail("The discovery scope is outside its authorized location");
        }
        self.journal.enqueue_validated(root, path_bytes(&base), &scope);
        proof {
            let start = *old(self);
            if start.tidy() {
                scopes_are_plain(path@);
                enqueue_keeps_tidy(start, keys(start.journal.pending@), root@, scope@);
                same_roots_authorize(start, *self);
            }
        }
        Ok(())
    }

    /// One durable commit per bounded batch, rather than one per path: a batch
    /// with an invalid path changes nothing, and a valid one leaves the queue
    /// as its paths would have left it one after the other.
    pub fn enqueue_scopes(&mut self, root: &str, paths: &[FsPath]) -> (r: Result<(), String>)
        requires
            old(self).wf(),
        ensures
            final(self).wf(),
            old(self).tidy() ==> final(self).tidy(),
            if paths@.len() > 512 {
                failed(r, "Too many event scopes in one batch"@) && *final(self) == *old(self)
            } else if paths@.len() == 0 {
                r is Ok && *final(self) == *old(self)
            } else if paths@.len() == 1 {
                enqueue_outcome(*old(self), *final(self), root@, paths@[0]@, r)
            } else if !old(self).has_root(root@) {
                failed(r, no_row()) && *final(self) == *old(self)
            } else {
                match batch_failure(
                    old(self).root_of(root@).path@,
                    paths@,
                    paths@.len() as int,
                ) {
                    Some(reason) => failed(r, reason) && *final(self) == *old(self),
                    None => {
                        &&& r is Ok
                        &&& *final(self) == (Store {
                            journal: Journal {
                                pending: final(self).journal.pending,
                                ..old(self).journal
                            },
                            ..*old(self)
                        })
                        &&& keys(final(self).journal.pending@) == enqueued_all(
                            keys(old(self).journal.pending@),
                            root@,
                            old(self).root_of(root@).path@,
                            canonical(paths@),
                        )
                    },
                }
            },
    {
        if paths.len() > 512 {
            return fail("Too many event scopes in one batch");
        }
        if paths.len() == 0 {
            return Ok(());
        }
        if paths.len() == 1 {
            return self.enqueue_scope(root, &paths[0]);
        }
        let at: usize = match self.find_root(root) {
            Some(at) => at,
            None => {
                return fail("Query returned no rows");
            },
        };
        proof {
            self.root_unique(root@, at as int);
        }
        let base: FsPath = share(&self.roots[at].path);
        let mut scopes: Vec<FsPath> = Vec::new();
        let ghost all = canonical(paths@);
        let mut i: usize = 0;
        while i < paths.len()
            invariant
                i <= paths.len(),
                all == canonical(paths@),
                scopes@.len() == i,
                batch_failure(base@, paths@, i as int) is None,
                base@ == self.root_of(root@).path@,
                self.has_root(root@),
                *self == *old(self),
                2 <= paths@.len() <= 512,
                old(self).wf(),
                forall|j: int|
                    0 <= j < i ==> (#[trigger] scopes@[j])@ == all[j] && under(
                        scopes@[j]@,
                        base@,
                    ),
            decreases paths.len() - i,
        {
            // Validate every input before changing the queue. A valid ancestor
            // must never hide a malformed or unauthorized descendant.
            let outcome: Result<FsPath, String> = scope_path(path_bytes(&paths[i]));
            match outcome {
                Err(reason) => {
                    proof {
                        batch_failure_first(base@, paths@, i + 1, paths@.len() as int);
                    }
                    return Err(reason);
                },
                Ok(scope) => {
                    if !is_under(path_bytes(&scope), path_bytes(&base)) {
                        proof {
                            batch_failure_first(base@, paths@, i + 1, paths@.len() as int);
                        }
                        return fail("The discovery scope is outside its authorized location");
                    }
                    scopes.push(scope);
                },
            }
            i = i + 1;
        }
        let mut k: usize = 0;
        assert(all.take(0) =~= seq![]);
        while k < scopes.len()
            invariant
                k <= scopes.len(),
                scopes@.len() == all.len(),
                self.wf(),
                *self == (Store {
                    journal: Journal { pending: self.journal.pending, ..old(self).journal },
                    ..*old(self)
                }),
                forall|j: int|
                    0 <= j < scopes@.len() ==> (#[trigger] scopes@[j])@ == all[j] && under(
                        scopes@[j]@,
                        base@,
                    ),
                keys(self.journal.pending@) == enqueued_all(
                    keys(old(self).journal.pending@),
                    root@,
                    base@,
                    all.take(k as int),
                ),
            decreases scopes.len() - k,
        {
            self.journal.enqueue_validated(root, path_bytes(&base), &scopes[k]);
            proof {
                assert(all.take(k + 1).drop_last() =~= all.take(k as int));
                assert(all.take(k + 1).last() == all[k as int]);
            }
            k = k + 1;
        }
        assert(all.take(k as int) =~= all);
        proof {
            let start = *old(self);
            if start.tidy() {
                valid_batches_are_authorized(start, root@, paths@, paths@.len() as int);
                batch_keeps_tidy(start, keys(start.journal.pending@), root@, all);
                same_roots_authorize(start, *self);
            }
        }
        Ok(())
    }
}

proof fn batch_failure_first(root_path: Seq<u8>, paths: Seq<FsPath>, i: int, n: int)
    requires
        0 <= i <= n,
        batch_failure(root_path, paths, i) is Some,
    ensures
        batch_failure(root_path, paths, n) == batch_failure(root_path, paths, i),
    decreases n,
{
    if i < n {
        batch_failure_first(root_path, paths, i, n - 1);
    }
}

/// Whether the pending scope at `i` may be claimed now: there is room for one
/// more reader, and none works on the same root.
pub open spec fn claimable(
    pending: Seq<Scope>,
    active: Seq<Scope>,
    limit: int,
    i: int,
) -> bool {
    &&& 0 <= i < pending.len()
    &&& active.len() < limit
    &&& forall|j: int|
        0 <= j < active.len() ==> (#[trigger] active[j]).root_id@ != pending[i].root_id@
}

/// Whether `i` is the first pending scope that may be claimed.
pub open spec fn next_claim(
    pending: Seq<Scope>,
    active: Seq<Scope>,
    limit: int,
    i: int,
) -> bool {
    &&& claimable(pending, active, limit, i)
    &&& forall|j: int| 0 <= j < i ==> !#[trigger] claimable(pending, active, limit, j)
}

/// The scopes other than the one with this key.
pub open spec fn other_than(root: Seq<char>, path: Seq<u8>) -> spec_fn(Scope) -> bool {
    |s: Scope| s.key() != (root, path)
}

/// The scopes that neither are a path of a root nor lie below it.
pub open spec fn outside_scope(root: Seq<char>, path: Seq<u8>) -> spec_fn(Scope) -> bool {
    |s: Scope| !(s.root_id@ == root && (s.path@ == path || begins(s.path@, below(path))))
}

proof fn keys_filter_unique(scopes: Seq<Scope>, keep: spec_fn(Scope) -> bool)
    requires
        unique(keys(scopes), |k: ScopeKey| k),
    ensures
        unique(keys(scopes.filter(keep)), |k: ScopeKey| k),
{
    keys_are_unique(scopes);
    filter_unique(scopes, keep, |s: Scope| s.key());
    rows_are_unique(scopes.filter(keep));
}

proof fn keys_are_unique(scopes: Seq<Scope>)
    requires
        unique(keys(scopes), |k: ScopeKey| k),
    ensures
        unique(scopes, |s: Scope| s.key()),
{
    assert forall|i: int, j: int| 0 <= i < j < scopes.len() implies (#[trigger] scopes[i]).key()
        != (#[trigger] scopes[j]).key() by {
        assert(keys(scopes)[i] != keys(scopes)[j]);
    }
}

proof fn rows_are_unique(scopes: Seq<Scope>)
    requires
        unique(scopes, |s: Scope| s.key()),
    ensures
        unique(keys(scopes), |k: ScopeKey| k),
{
    assert forall|i: int, j: int| 0 <= i < j < keys(scopes).len() implies #[trigger] keys(scopes)[i]
        != #[trigger] keys(scopes)[j] by {
        assert(scopes[i].key() != scopes[j].key());
    }
}

/// Where a scope with this key stands.
pub open spec fn claimed_at(scopes: Seq<Scope>, root: Seq<char>, path: Seq<u8>, i: int) -> bool {
    0 <= i < scopes.len() && scopes[i].key() == (root, path)
}

impl Journal {
    /// Takes the scope with this key off the active list.
    pub(crate) fn release(&mut self, root: &str, path: &[u8]) -> (r: bool)
        requires
            old(self).wf(),
        ensures
            final(self).wf(),
            final(self).active@ == old(self).active@.filter(other_than(root@, path@)),
            *final(self) == (Journal { active: final(self).active, ..*old(self) }),
            r == exists|i: int| #[trigger] claimed_at(old(self).active@, root@, path@, i),
    {
        let ghost before = self.active@;
        let stays = |s: &Scope| -> (b: bool)
            ensures
                b == (s.key() != (root@, path@)),
        {
            !(same_text(s.root_id.as_str(), root) && same_bytes(path_bytes(&s.path), path))
        };
        proof {
            keys_filter_unique(before, other_than(root@, path@));
            filter_holds(before, other_than(root@, path@));
        }
        let removed: usize = retain(&mut self.active, stays, Ghost(other_than(root@, path@)));
        proof {
            let keep = other_than(root@, path@);
            if exists|i: int| #[trigger] claimed_at(before, root@, path@, i) {
                let i = choose|i: int| #[trigger] claimed_at(before, root@, path@, i);
                if before.filter(keep).len() == before.len() {
                    crate::tables::filter_same(before, keep);
                    assert(before.contains(before[i]));
                    assert(before.filter(keep).contains(before[i]));
                }
            } else {
                assert forall|i: int| 0 <= i < before.len() implies keep(#[trigger] before[i]) by {
                    if !keep(before[i]) {
                        assert(claimed_at(before, root@, path@, i));
                    }
                }
                crate::tables::filter_all(before, keep);
            }
        }
        removed > 0
    }

    /// Drops pending work that a pass over this scope is about to cover.
    pub(crate) fn discard_pending(&mut self, root: &str, path: &[u8])
        requires
            old(self).wf(),
        ensures
            final(self).wf(),
            final(self).pending@ == old(self).pending@.filter(outside_scope(root@, path@)),
            *final(self) == (Journal { pending: final(self).pending, ..*old(self) }),
    {
        let ghost before = self.pending@;
        let stays = |s: &Scope| -> (b: bool)
            ensures
                b == !(s.root_id@ == root@ && (s.path@ == path@ || begins(s.path@, below(path@)))),
        {
            !(same_text(s.root_id.as_str(), root) && (same_bytes(path_bytes(&s.path), path)
                || begins_below(path_bytes(&s.path), path)))
        };
        proof {
            keys_filter_unique(before, outside_scope(root@, path@));
        }
        retain(&mut self.pending, stays, Ghost(outside_scope(root@, path@)));
    }
}

impl Store {
    pub fn has_pending_scopes(&self) -> (r: bool)
        ensures
            r == (self.journal.pending@.len() > 0),
    {
        self.journal.pending.len() > 0
    }

    pub fn has_active_scopes(&self) -> (r: bool)
        ensures
            r == (self.journal.active@.len() > 0),
    {
        self.journal.active.len() > 0
    }

    /// Claim one durable work item. Only one scanner owns an active scope; a
    /// second claim leaves pending work untouched until the first is finished.
    pub fn take_scope(&mut self) -> (r: Option<Scope>)
        requires
            old(self).wf(),
        ensures
            final(self).wf(),
            old(self).tidy() ==> final(self).tidy(),
            claim_outcome(*old(self), *final(self), 1, r),
    {
        match self.take_scope_bounded(1) {
            Ok(claim) => claim,
            Err(_) => None,
        }
    }

    /// Bounded parallel readers may own distinct roots, never two generations
    /// for the same root. The oldest pending scope that may be claimed moves to
    /// the active list.
    pub fn take_scope_bounded(&mut self, limit: usize) -> (r: Result<Option<Scope>, String>)
        requires
            old(self).wf(),
        ensures
            final(self).wf(),
            old(self).tidy() ==> final(self).tidy(),
            if limit == 1 || limit == 2 {
                r matches Ok(claim) && claim_outcome(*old(self), *final(self), limit as int, claim)
            } else {
                failed(r, "Invalid read-only discovery admission limit"@) && *final(self)
                    == *old(self)
            },
    {
        if limit < 1 || limit > 2 {
            return fail("Invalid read-only discovery admission limit");
        }
        let ghost before = self.journal;
        if self.journal.active.len() >= limit {
            return Ok(None);
        }
        let mut i: usize = 0;
        while i < self.journal.pending.len()
            invariant
                i <= self.journal.pending.len(),
                self.wf(),
                *self == *old(self),
                before == self.journal,
                self.journal.active@.len() < limit,
                1 <= limit <= 2,
                forall|j: int|
                    0 <= j < i ==> !#[trigger] claimable(
                        before.pending@,
                        before.active@,
                        limit as int,
                        j,
                    ),
            decreases self.journal.pending.len() - i,
        {
            let mut busy: bool = false;
            let mut k: usize = 0;
            while k < self.journal.active.len()
                invariant
                    k <= self.journal.active.len(),
                    i < self.journal.pending.len(),
                    before == self.journal,
                    busy == exists|j: int|
                        0 <= j < k && (#[trigger] before.active@[j]).root_id@
                            == before.pending@[i as int].root_id@,
                decreases self.journal.active.len() - k,
            {
                if same_text(
                    self.journal.active[k].root_id.as_str(),
                    self.journal.pending[i].root_id.as_str(),
                ) {
                    assert(before.active@[k as int].root_id@
                        == before.pending@[i as int].root_id@);
                    busy = true;
                }
                k = k + 1;
            }
            if !busy {
                assert(claimable(before.pending@, before.active@, limit as int, i as int));
                let scope: Scope = self.journal.pending.remove(i);
                let claim: Scope = copy_scope(&scope);
                self.journal.active.push(scope);
                proof {
                    keys_are_unique(before.pending@);
                    crate::tables::remove_unique(before.pending@, i as int, |s: Scope| s.key());
                    rows_are_unique(self.journal.pending@);
                    keys_are_unique(before.active@);
                    crate::tables::push_unique(before.active@, scope, |s: Scope| s.key());
                    rows_are_unique(self.journal.active@);
                    assert(next_claim(before.pending@, before.active@, limit as int, i as int));
                    if old(self).tidy() {
                        claim_keeps_tidy(*old(self), before.pending@, i as int);
                        same_roots_authorize(*old(self), *self);
                    }
                }
                return Ok(Some(claim));
            }
            i = i + 1;
        }
        Ok(None)
    }

    /// Release a claim.
    pub fn finish_scope(&mut self, root: &str, path: &FsPath) -> (r: Result<(), String>)
        requires
            old(self).wf(),
        ensures
            final(self).wf(),
            old(self).tidy() ==> final(self).tidy(),
            match scope_outcome(path@) {
                Err(reason) => failed(r, reason) && *final(self) == *old(self),
                Ok(scope) => {
                    &&& r is Ok
                    &&& final(self).journal.active@ == old(self).journal.active@.filter(
                        other_than(root@, scope),
                    )
                    &&& *final(self) == (Store {
                        journal: Journal {
                            active: final(self).journal.active,
                            ..old(self).journal
                        },
                        ..*old(self)
                    })
                },
            },
    {
        match scope_path(path_bytes(path)) {
            Err(reason) => Err(reason),
            Ok(scope) => {
                self.journal.release(root, path_bytes(&scope));
                proof {
                    same_roots_authorize(*old(self), *self);
                }
                Ok(())
            },
        }
    }

    /// Scope resolution can widen a file event to its artifact or parent. Drop
    /// already-queued work covered by that pass before it starts; later events
    /// remain pending, and the claimed scope stays active for crash recovery.
    pub fn discard_pending_scope(&mut self, root: &str, scope: &FsPath) -> (r: Result<(), String>)
        requires
            old(self).wf(),
        ensures
            final(self).wf(),
            old(self).tidy() ==> final(self).tidy(),
            match scope_outcome(scope@) {
                Err(reason) => failed(r, reason) && *final(self) == *old(self),
                Ok(path) => {
                    &&& r is Ok
                    &&& final(self).journal.pending@ == old(self).journal.pending@.filter(
                        outside_scope(root@, path),
                    )
                    &&& *final(self) == (Store {
                        journal: Journal {
                            pending: final(self).journal.pending,
                            ..old(self).journal
                        },
                        ..*old(self)
                    })
                },
            },
    {
        match scope_path(path_bytes(scope)) {
            Err(reason) => Err(reason),
            Ok(path) => {
                self.journal.discard_pending(root, path_bytes(&path));
                proof {
                    if old(self).tidy() {
                        discard_keeps_tidy(*old(self), old(self).journal.pending@, root@, path@);
                        same_roots_authorize(*old(self), *self);
                    }
                }
                Ok(())
            },
        }
    }
}

/// What a claim does: the first scope that may be claimed moves from the
/// pending to the active list, and without one nothing changes.
pub open spec fn claim_outcome(before: Store, after: Store, limit: int, r: Option<Scope>) -> bool {
    match r {
        Some(scope) => exists|i: int|
            {
                &&& #[trigger] next_claim(
                    before.journal.pending@,
                    before.journal.active@,
                    limit,
                    i,
                )
                &&& scope == before.journal.pending@[i]
                &&& after.journal.pending@ == before.journal.pending@.remove(i)
                &&& after.journal.active@ == before.journal.active@.push(scope)
                &&& after == (Store {
                    journal: Journal {
                        pending: after.journal.pending,
                        active: after.journal.active,
                        ..before.journal
                    },
                    ..before
                })
            },
        None => after == before && forall|i: int|
            !#[trigger] claimable(before.journal.pending@, before.journal.active@, limit, i),
    }
}

/// Readers stay apart: a claim never exceeds its limit, and never gives one root
/// to two readers.
pub proof fn claims_keep_readers_apart(before: Store, after: Store, limit: int, r: Option<Scope>)
    requires
        claim_outcome(before, after, limit, r),
        unique(before.journal.active@, |s: Scope| s.root_id@),
        before.journal.active@.len() <= limit,
    ensures
        unique(after.journal.active@, |s: Scope| s.root_id@),
        after.journal.active@.len() <= limit,
{
    if let Some(scope) = r {
        let i = choose|i: int|
            #[trigger] next_claim(before.journal.pending@, before.journal.active@, limit, i)
                && scope == before.journal.pending@[i] && after.journal.active@
                == before.journal.active@.push(scope);
        assert(claimable(before.journal.pending@, before.journal.active@, limit, i));
        push_unique(before.journal.active@, scope, |s: Scope| s.root_id@);
    }
}

} // verus!
