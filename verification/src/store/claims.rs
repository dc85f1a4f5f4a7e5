//! Refreshes that belong to a claimed scope: their start, their atomic end, and
//! what a restart makes of claims that nobody finished.
use crate::model::{copy_path, Root, ScanStats};
use crate::paths::{
    above, above_chain, above_step, above_transitive, is_above, is_under, parent, parent_of, path_bytes, scope_outcome, scope_path, scopes_are_plain,
    share, under, FsPath,
};
use crate::pnpm::texts;
use crate::store::coverage::{marked, other_id};
use crate::store::queue::{claimed_at, enqueued, other_than, outside_scope};
use crate::store::tidy::{discard_keeps_tidy, enqueue_keeps_tidy, same_roots_authorize};
use crate::store::refresh::{begun, reach_of, refresh_at, scope_view, Reach};
use crate::store::{
    keys, no_row, Admission, Index, IndexRow, Journal, Limited, SavedScan, Scope, Store,
};
use crate::tables::{filter_rows, filter_unique, push_unique, retain};
use crate::text::{fail, failed, same_bytes, same_text};
use vstd::prelude::*;

verus! {

/// Binds one refresh generation to its separately durable scope claim.
pub struct ScopeRefresh {
    pub root: String,
    pub claimed: FsPath,
    pub scope: Option<FsPath>,
    pub generation: String,
    pub was_incomplete: bool,
}

/// Whether a finding of the root encloses a path, or is at it: its text is that of
/// the path or of a folder above it.
pub open spec fn encloses(row: IndexRow, root: Root, path: Seq<u8>) -> bool {
    row.root_id@ == root.id@ && above(row.path@, path) && under(row.path@, root.path@)
}

/// Whether the row at `i` is the closest finding that encloses the path.
pub open spec fn closest(rows: Seq<IndexRow>, root: Root, path: Seq<u8>, i: int) -> bool {
    &&& 0 <= i < rows.len()
    &&& encloses(rows[i], root, path)
    &&& forall|j: int|
        0 <= j < rows.len() && encloses(#[trigger] rows[j], root, path) ==> above(
            rows[j].path@,
            rows[i].path@,
        )
}

impl Store {
    /// Find the closest enclosing artifact of a path of a root.
    pub fn enclosing_candidate(&self, root: &Root, path: &FsPath) -> (r: Option<FsPath>)
        ensures
            match r {
                Some(found) => exists|i: int| #[trigger]
                    closest(self.index.rows@, *root, path@, i) && found == self.index.rows@[i].path,
                None => forall|i: int|
                    0 <= i < self.index.rows@.len() ==> !encloses(
                        #[trigger] self.index.rows@[i],
                        *root,
                        path@,
                    ),
            },
    {
        let ghost rows = self.index.rows@;
        let mut best: Option<usize> = None;
        let mut i: usize = 0;
        while i < self.index.rows.len()
            invariant
                i <= self.index.rows.len(),
                rows == self.index.rows@,
                match best {
                    Some(b) => {
                        &&& b < i
                        &&& encloses(rows[b as int], *root, path@)
                        &&& forall|j: int|
                            0 <= j < i && encloses(#[trigger] rows[j], *root, path@) ==> above(
                                rows[j].path@,
                                rows[b as int].path@,
                            )
                    },
                    None => forall|j: int|
                        0 <= j < i ==> !encloses(#[trigger] rows[j], *root, path@),
                },
            decreases self.index.rows.len() - i,
        {
            let row: &IndexRow = &self.index.rows[i];
            if same_text(row.root_id.as_str(), root.id.as_str()) && is_above(
                path_bytes(&row.path),
                path_bytes(path),
            ) && is_under(path_bytes(&row.path), path_bytes(&root.path)) {
                match best {
                    None => {
                        proof {
                            above_step(row.path@, row.path@);
                        }
                        best = Some(i);
                    },
                    Some(b) => {
                        proof {
                            above_step(row.path@, row.path@);
                            let near = rows[i as int].path@;
                            let far = rows[b as int].path@;
                            if near.len() <= far.len() {
                                above_chain(path@, near, far);
                            } else {
                                above_chain(path@, far, near);
                            }
                        }
                        if is_above(path_bytes(&self.index.rows[b].path), path_bytes(&row.path)) {
                            proof {
                                assert forall|j: int|
                                    0 <= j <= i && encloses(
                                        #[trigger] rows[j],
                                        *root,
                                        path@,
                                    ) implies above(rows[j].path@, rows[i as int].path@) by {
                                    if j < i {
                                        above_transitive(
                                            rows[j].path@,
                                            rows[b as int].path@,
                                            rows[i as int].path@,
                                        );
                                    }
                                }
                            }
                            best = Some(i);
                        }
                    },
                }
            }
            i = i + 1;
        }
        match best {
            Some(b) => {
                assert(closest(rows, *root, path@, b as int));
                Some(share(&self.index.rows[b].path))
            },
            None => None,
        }
    }
}

/// What a scope resolves to.
pub open spec fn resolved(root: Root, scope: Option<FsPath>) -> Seq<u8> {
    match scope {
        Some(path) => path@,
        None => root.path@,
    }
}

/// Whether a scope lies inside its root and covers a claim.
pub open spec fn covers_claim(root: Root, claimed: Seq<u8>, scope: Seq<u8>) -> bool {
    under(scope, root.path@) && under(claimed, scope)
}

fn is_covering(root: &Root, claimed: &FsPath, scope: &FsPath) -> (r: bool)
    ensures
        r == covers_claim(*root, claimed@, scope@),
{
    is_under(path_bytes(scope), path_bytes(&root.path)) && is_under(
        path_bytes(claimed),
        path_bytes(scope),
    )
}

/// Whether a scope is claimed.
pub open spec fn is_claimed(journal: Journal, root: Seq<char>, path: Seq<u8>) -> bool {
    exists|i: int| #[trigger] claimed_at(journal.active@, root, path, i)
}

impl Journal {
    pub(crate) fn holds_claim(&self, root: &str, path: &[u8]) -> (r: bool)
        ensures
            r == is_claimed(*self, root@, path@),
    {
        let mut i: usize = 0;
        while i < self.active.len()
            invariant
                i <= self.active.len(),
                forall|j: int| 0 <= j < i ==> !#[trigger] claimed_at(self.active@, root@, path@, j),
            decreases self.active.len() - i,
        {
            if same_text(self.active[i].root_id.as_str(), root) && same_bytes(
                path_bytes(&self.active[i].path),
                path,
            ) {
                assert(claimed_at(self.active@, root@, path@, i as int));
                return true;
            }
            i = i + 1;
        }
        false
    }
}

/// Why a refresh of a claimed scope cannot begin, if it cannot.
pub open spec fn begin_failure(
    store: Store,
    root: Root,
    claimed: Seq<u8>,
    scope: Option<FsPath>,
    sibling: Option<FsPath>,
) -> Option<Seq<char>> {
    if !covers_claim(root, claimed, resolved(root, scope)) {
        Some("The refresh scope does not cover its authorized claim"@)
    } else {
        match (scope_outcome(claimed), scope_outcome(resolved(root, scope))) {
            (Err(reason), _) => Some(reason),
            (_, Err(reason)) => Some(reason),
            (Ok(claim), Ok(_)) => match sibling {
                Some(path) if scope_outcome(path@) is Err => Some(scope_outcome(path@)->Err_0),
                _ => if is_claimed(store.journal, root.id@, claim) {
                    None
                } else {
                    Some("The refresh has no matching durable scope claim"@)
                },
            },
        }
    }
}

/// The pending work that a refresh leaves in the queue.
pub open spec fn after_discard(
    pending: Seq<Scope>,
    root: Seq<char>,
    scope: Seq<u8>,
    sibling: Option<Seq<u8>>,
) -> Seq<Scope> {
    let left = pending.filter(outside_scope(root, scope));
    match sibling {
        Some(path) => left.filter(outside_scope(root, path)),
        None => left,
    }
}

/// What the start of a refresh does to a claimed scope: pending work that the
/// pass covers leaves the queue, coverage is open until the end, and the
/// findings in reach await their observation.
pub open spec fn begin_result(
    before: Store,
    after: Store,
    root: Root,
    claimed: Seq<u8>,
    scope: Option<FsPath>,
    sibling: Option<FsPath>,
    generation: Seq<char>,
    refresh: ScopeRefresh,
) -> bool {
    let at = scope_outcome(resolved(root, scope))->Ok_0;
    let beside = match sibling {
        Some(path) => Some(scope_outcome(path@)->Ok_0),
        None => None,
    };
    &&& refresh.root@ == root.id@
    &&& refresh.claimed@ == scope_outcome(claimed)->Ok_0
    &&& scope_view(refresh.scope) == if scope is Some {
        Some(at)
    } else {
        None
    }
    &&& refresh.generation@ == generation
    &&& refresh.was_incomplete == before.journal.needs_pass(root.id@)
    &&& after.journal.pending@ == after_discard(before.journal.pending@, root.id@, at, beside)
    &&& texts(after.journal.incomplete@) == marked(texts(before.journal.incomplete@), root.id@)
    &&& exists|reach: Reach| #[trigger]
        begun(before, after, root.id@, refresh.scope, generation, reach) && match sibling {
            Some(_) => reach matches Reach::Pair(a, b) && a@ == at && Some(b@) == beside,
            None => reach == reach_of(refresh.scope),
        }
    &&& after == (Store {
        journal: Journal {
            pending: after.journal.pending,
            incomplete: after.journal.incomplete,
            seen: after.journal.seen,
            refreshes: after.journal.refreshes,
            ..before.journal
        },
        index: Index { tombstones: after.index.tombstones, ..before.index },
        ..before
    })
}

impl Store {
    /// Called where a traversal begins or is adopted. The claim predates this;
    /// later events remain queued. The generation is one that no other refresh
    /// has.
    pub fn begin_scope_refresh(
        &mut self,
        root: &Root,
        claimed: &FsPath,
        scope: Option<FsPath>,
        generation: &str,
    ) -> (r: Result<ScopeRefresh, String>)
        requires
            old(self).wf(),
        ensures
            final(self).wf(),
            old(self).tidy() ==> final(self).tidy(),
            match begin_failure(*old(self), *root, claimed@, scope, None) {
                Some(reason) => failed(r, reason) && *final(self) == *old(self),
                None => r matches Ok(refresh) && begin_result(
                    *old(self),
                    *final(self),
                    *root,
                    claimed@,
                    scope,
                    None,
                    generation@,
                    refresh,
                ),
            },
    {
        self.begin_scope_refresh_with_sibling(root, claimed, scope, None, generation)
    }

    /// Begins the refresh of a claim that covers a scope and, where there is
    /// one, a sibling of it.
    pub(crate) fn begin_scope_refresh_with_sibling(
        &mut self,
        root: &Root,
        claimed: &FsPath,
        scope: Option<FsPath>,
        sibling: Option<FsPath>,
        generation: &str,
    ) -> (r: Result<ScopeRefresh, String>)
        requires
            old(self).wf(),
        ensures
            final(self).wf(),
            old(self).tidy() ==> final(self).tidy(),
            match begin_failure(*old(self), *root, claimed@, scope, sibling) {
                Some(reason) => failed(r, reason) && *final(self) == *old(self),
                None => r matches Ok(refresh) && begin_result(
                    *old(self),
                    *final(self),
                    *root,
                    claimed@,
                    scope,
                    sibling,
                    generation@,
                    refresh,
                ),
            },
    {
        let ghost start = *self;
        let place: FsPath = match &scope {
            Some(path) => share(path),
            None => share(&root.path),
        };
        if !is_covering(root, claimed, &place) {
            return fail("The refresh scope does not cover its authorized claim");
        }
        let claim: FsPath = match scope_path(path_bytes(claimed)) {
            Ok(claim) => claim,
            Err(reason) => {
                return Err(reason);
            },
        };
        let at: FsPath = match scope_path(path_bytes(&place)) {
            Ok(at) => at,
            Err(reason) => {
                return Err(reason);
            },
        };
        let beside: Option<FsPath> = match &sibling {
            Some(path) => match scope_path(path_bytes(path)) {
                Ok(beside) => Some(beside),
                Err(reason) => {
                    return Err(reason);
                },
            },
            None => None,
        };
        if !self.journal.holds_claim(root.id.as_str(), path_bytes(&claim)) {
            return fail("The refresh has no matching durable scope claim");
        }
        let chosen: Option<FsPath> = match &scope {
            Some(_) => Some(share(&at)),
            None => None,
        };
        let was_incomplete: bool = self.journal.lacks_coverage(root.id.as_str());
        self.journal.mark_incomplete(root.id.as_str());
        self.journal.discard_pending(root.id.as_str(), path_bytes(&at));
        let reach: Reach = match &beside {
            Some(path) => {
                self.journal.discard_pending(root.id.as_str(), path_bytes(path));
                Reach::Pair(share(&at), share(path))
            },
            None => match &chosen {
                Some(path) => Reach::Around(share(path)),
                None => Reach::All,
            },
        };
        let ghost ready = *self;
        self.start_refresh(root.id.as_str(), copy_path(&chosen), generation, &reach);
        proof {
            assert(begun(ready, *self, root.id@, chosen, generation@, reach));
            assert(begun(start, *self, root.id@, chosen, generation@, reach));
            if start.tidy() {
                let first = start.journal.pending@.filter(outside_scope(root.id@, at@));
                discard_keeps_tidy(start, start.journal.pending@, root.id@, at@);
                if let Some(path) = beside {
                    discard_keeps_tidy(start, first, root.id@, path@);
                }
                same_roots_authorize(start, *self);
            }
        }
        Ok(
            ScopeRefresh {
                root: root.id.clone(),
                claimed: claim,
                scope: chosen,
                generation: generation.to_owned(),
                was_incomplete,
            },
        )
    }

    /// The exact lock path is the durable replay marker. Its refresh covers
    /// only that subtree and its immediate target sibling, never the project.
    /// The caller resolves the target: there is none where the origin is not an
    /// eligible lock file strictly below its root.
    pub fn begin_cargo_lock_refresh(
        &mut self,
        root: &Root,
        origin: &FsPath,
        target: Option<FsPath>,
        generation: &str,
    ) -> (r: Result<ScopeRefresh, String>)
        requires
            old(self).wf(),
        ensures
            final(self).wf(),
            old(self).tidy() ==> final(self).tidy(),
            match scope_outcome(origin@) {
                Err(reason) => failed(r, reason) && *final(self) == *old(self),
                Ok(exact) => if target is None {
                    failed(
                        r,
                        "A Cargo lock refresh requires an eligible exact descendant Cargo.lock scope"@,
                    ) && *final(self) == *old(self)
                } else if parent_of(exact) is None {
                    failed(r, "The Cargo lock scope has no parent"@) && *final(self) == *old(self)
                } else if exists|i: int|
                    0 <= i < old(self).index.rows@.len() && encloses(
                        #[trigger] old(self).index.rows@[i],
                        *root,
                        parent_of(exact)->Some_0,
                    ) {
                    failed(
                        r,
                        "An enclosing indexed candidate requires its ordinary subtree refresh"@,
                    ) && *final(self) == *old(self)
                } else {
                    exists|lock: FsPath|
                        (#[trigger] lock@) == exact && match begin_failure(
                            *old(self),
                            *root,
                            exact,
                            Some(lock),
                            target,
                        ) {
                            Some(reason) => failed(r, reason) && *final(self) == *old(self),
                            None => r matches Ok(refresh) && begin_result(
                                *old(self),
                                *final(self),
                                *root,
                                exact,
                                Some(lock),
                                target,
                                generation@,
                                refresh,
                            ),
                        }
                },
            },
    {
        let exact: FsPath = match scope_path(path_bytes(origin)) {
            Ok(exact) => exact,
            Err(reason) => {
                return Err(reason);
            },
        };
        if target.is_none() {
            return fail(
                "A Cargo lock refresh requires an eligible exact descendant Cargo.lock scope",
            );
        }
        let above: FsPath = match parent(path_bytes(&exact)) {
            Some(above) => crate::paths::fs_path(vstd::slice::slice_to_vec(above)),
            None => {
                return fail("The Cargo lock scope has no parent");
            },
        };
        // An equal-origin row belongs to this footprint. A strictly enclosing
        // indexed artifact must instead retain its ordinary refresh.
        match self.enclosing_candidate(root, &above) {
            Some(_) => {
                return fail("An enclosing indexed candidate requires its ordinary subtree refresh");
            },
            None => {},
        }
        let r = self.begin_scope_refresh_with_sibling(
            root,
            &exact,
            Some(share(&exact)),
            target,
            generation,
        );
        assert(exact@ == scope_outcome(origin@)->Ok_0);
        r
    }
}


/// The admissions other than those of one generation of a root.
pub open spec fn other_admission(root: Seq<char>, generation: Seq<char>) -> spec_fn(
    Admission,
) -> bool {
    |a: Admission| !(a.root_id@ == root && a.generation@ == generation)
}

/// Whether a generation could not admit everything.
pub open spec fn was_limited(journal: Journal, root: Seq<char>, generation: Seq<char>) -> bool {
    exists|i: int|
        0 <= i < journal.admissions@.len() && !other_admission(root, generation)(
            #[trigger] journal.admissions@[i],
        )
}

/// The saved counters of other roots.
pub open spec fn other_scan(root: Seq<char>) -> spec_fn(SavedScan) -> bool {
    |s: SavedScan| s.root_id@ != root
}

/// The warnings of other roots.
pub open spec fn other_limited(root: Seq<char>) -> spec_fn(Limited) -> bool {
    |l: Limited| l.root_id@ != root
}

/// The saved counters after a scan of a root.
pub open spec fn scan_saved(
    before: Seq<SavedScan>,
    after: Seq<SavedScan>,
    root: Seq<char>,
    stats: ScanStats,
) -> bool {
    &&& after.len() > 0
    &&& after.drop_last() == before.filter(other_scan(root))
    &&& after.last().root_id@ == root
    &&& after.last().stats == stats
}

/// Whether the refresh is still the one that was begun.
pub open spec fn is_current(journal: Journal, refresh: ScopeRefresh) -> bool {
    exists|i: int| #[trigger]
        refresh_at(journal.refreshes@, refresh.root@, scope_view(refresh.scope), i)
            && journal.refreshes@[i].generation@ == refresh.generation@
}

/// Why the result of a refresh cannot be committed, if it cannot.
pub open spec fn finish_failure(
    store: Store,
    refresh: ScopeRefresh,
    stats: ScanStats,
    requeue: bool,
) -> Option<Seq<char>> {
    if stats.complete && (stats.cancelled || stats.errors != 0) {
        Some("Incomplete discovery cannot commit complete coverage"@)
    } else if !is_current(store.journal, refresh) {
        Some("The completed refresh does not match its active generation"@)
    } else {
        match requeue_failure(store, refresh.root@, refresh.claimed@) {
            Some(reason) if requeue => Some(reason),
            _ => if is_claimed(store.journal, refresh.root@, refresh.claimed@) {
                None
            } else {
                Some("The completed refresh has no matching durable scope claim"@)
            },
        }
    }
}

/// Why a scope cannot be enqueued, if it cannot.
pub open spec fn requeue_failure(store: Store, root: Seq<char>, path: Seq<u8>) -> Option<
    Seq<char>,
> {
    match scope_outcome(path) {
        Err(reason) => Some(reason),
        Ok(scope) => if !store.has_root(root) {
            Some(no_row())
        } else if !under(scope, store.root_of(root).path@) {
            Some("The discovery scope is outside its authorized location"@)
        } else {
            None
        },
    }
}

/// What the end of a refresh commits, all of it together: only a complete and
/// unlimited pass prunes and closes coverage, the claim is acknowledged, and a
/// requeued claim waits again.
pub open spec fn finish_result(
    before: Store,
    after: Store,
    refresh: ScopeRefresh,
    stats: ScanStats,
    requeue: bool,
) -> bool {
    let root = refresh.root@;
    let complete = stats.complete && !was_limited(before.journal, root, refresh.generation@);
    let closes = complete && (refresh.scope is None || !refresh.was_incomplete);
    &&& after.journal.seen@ == before.journal.seen@.filter(
        crate::store::refresh::seen_elsewhere(root),
    )
    &&& after.journal.refreshes@ == before.journal.refreshes@.filter(
        crate::store::refresh::refresh_elsewhere(root),
    )
    &&& after.index.rows@ == if complete {
        before.index.rows@.filter(
            crate::store::refresh::survives(before.journal.seen@, root, refresh.generation@),
        )
    } else {
        before.index.rows@
    }
    &&& scan_saved(before.scans@, after.scans@, root, stats)
    &&& after.journal.admissions@ == before.journal.admissions@.filter(
        other_admission(root, refresh.generation@),
    )
    &&& texts(after.journal.incomplete@) == if closes {
        texts(before.journal.incomplete@).filter(other_id(root))
    } else {
        texts(before.journal.incomplete@)
    }
    &&& after.index.limited@ == if closes && refresh.scope is None {
        before.index.limited@.filter(other_limited(root))
    } else {
        before.index.limited@
    }
    &&& keys(after.journal.pending@) == if requeue {
        enqueued(
            keys(before.journal.pending@),
            root,
            before.root_of(root).path@,
            scope_outcome(refresh.claimed@)->Ok_0,
        )
    } else {
        keys(before.journal.pending@)
    }
    &&& after.journal.active@ == before.journal.active@.filter(
        other_than(root, refresh.claimed@),
    )
    &&& after == (Store {
        journal: Journal { cursor: before.journal.cursor, ..after.journal },
        index: Index {
            rows: after.index.rows,
            row_count: after.index.row_count,
            payload_bytes: after.index.payload_bytes,
            limited: after.index.limited,
            ..before.index
        },
        scans: after.scans,
        ..before
    })
}

impl Journal {
    pub(crate) fn is_limited(&self, root: &str, generation: &str) -> (r: bool)
        ensures
            r == was_limited(*self, root@, generation@),
    {
        let mut i: usize = 0;
        while i < self.admissions.len()
            invariant
                i <= self.admissions.len(),
                forall|j: int|
                    0 <= j < i ==> other_admission(root@, generation@)(
                        #[trigger] self.admissions@[j],
                    ),
            decreases self.admissions.len() - i,
        {
            if same_text(self.admissions[i].root_id.as_str(), root) && same_text(
                self.admissions[i].generation.as_str(),
                generation,
            ) {
                assert(!other_admission(root@, generation@)(self.admissions@[i as int]));
                return true;
            }
            i = i + 1;
        }
        false
    }

    pub(crate) fn drop_admission(&mut self, root: &str, generation: &str)
        requires
            old(self).wf(),
        ensures
            final(self).wf(),
            final(self).admissions@ == old(self).admissions@.filter(
                other_admission(root@, generation@),
            ),
            *final(self) == (Journal { admissions: final(self).admissions, ..*old(self) }),
    {
        let ghost before = self.admissions@;
        let stays = |a: &Admission| -> (b: bool)
            ensures
                b == !(a.root_id@ == root@ && a.generation@ == generation@),
        {
            !(same_text(a.root_id.as_str(), root) && same_text(a.generation.as_str(), generation))
        };
        retain(&mut self.admissions, stays, Ghost(other_admission(root@, generation@)));
        proof {
            filter_unique(
                before,
                other_admission(root@, generation@),
                |a: Admission| (a.root_id@, a.generation@),
            );
        }
    }

    pub(crate) fn is_current_refresh(&self, refresh: &ScopeRefresh) -> (r: bool)
        requires
            self.wf(),
        ensures
            r == is_current(*self, *refresh),
    {
        match crate::store::refresh::find_refresh(
            &self.refreshes,
            refresh.root.as_str(),
            &refresh.scope,
        ) {
            None => false,
            Some(at) => {
                proof {
                    assert forall|i: int| #[trigger]
                        refresh_at(
                            self.refreshes@,
                            refresh.root@,
                            scope_view(refresh.scope),
                            i,
                        ) implies i == at by {
                        if i < at {
                            assert(self.refreshes@[i].root_id@ != self.refreshes@[at as int].root_id@);
                        } else if at < i {
                            assert(self.refreshes@[at as int].root_id@ != self.refreshes@[i].root_id@);
                        }
                    }
                }
                same_text(self.refreshes[at].generation.as_str(), refresh.generation.as_str())
            },
        }
    }
}

impl Index {
    pub(crate) fn clear_limited(&mut self, root: &str)
        requires
            old(self).wf(),
        ensures
            final(self).wf(),
            final(self).limited@ == old(self).limited@.filter(other_limited(root@)),
            *final(self) == (Index { limited: final(self).limited, ..*old(self) }),
    {
        let ghost before = self.limited@;
        let stays = |l: &Limited| -> (b: bool)
            ensures
                b == (l.root_id@ != root@),
        {
            !same_text(l.root_id.as_str(), root)
        };
        retain(&mut self.limited, stays, Ghost(other_limited(root@)));
        proof {
            filter_unique(before, other_limited(root@), |l: Limited| l.root_id@);
        }
    }
}

impl Store {
    /// Save the counters of a scan.
    pub fn save_stats(&mut self, id: &str, stats: &ScanStats)
        requires
            old(self).wf(),
        ensures
            final(self).wf(),
            scan_saved(old(self).scans@, final(self).scans@, id@, *stats),
            *final(self) == (Store { scans: final(self).scans, ..*old(self) }),
    {
        let ghost before = self.scans@;
        let stays = |s: &SavedScan| -> (b: bool)
            ensures
                b == (s.root_id@ != id@),
        {
            !same_text(s.root_id.as_str(), id)
        };
        retain(&mut self.scans, stays, Ghost(other_scan(id@)));
        let row: SavedScan = SavedScan { root_id: id.to_owned(), stats: stats.copy() };
        let ghost left = self.scans@;
        let ghost added = row;
        self.scans.push(row);
        proof {
            filter_unique(before, other_scan(id@), |s: SavedScan| s.root_id@);
            filter_rows(before, other_scan(id@));
            push_unique(left, added, |s: SavedScan| s.root_id@);
            assert(self.scans@.drop_last() =~= left);
        }
    }

    /// Commit the result and acknowledge its claim together. Any failure leaves
    /// pruning, statistics, coverage, requeue and acknowledgement undone.
    pub fn finish_scope_refresh(
        &mut self,
        refresh: &ScopeRefresh,
        stats: &ScanStats,
        requeue: bool,
    ) -> (r: Result<(), String>)
        requires
            old(self).wf(),
        ensures
            final(self).wf(),
            old(self).tidy() ==> final(self).tidy(),
            match finish_failure(*old(self), *refresh, *stats, requeue) {
                Some(reason) => failed(r, reason) && *final(self) == *old(self),
                None => r is Ok && finish_result(
                    *old(self),
                    *final(self),
                    *refresh,
                    *stats,
                    requeue,
                ),
            },
    {
        let ghost start = *self;
        if stats.complete && (stats.cancelled || stats.errors != 0) {
            return fail("Incomplete discovery cannot commit complete coverage");
        }
        if !self.journal.is_current_refresh(refresh) {
            return fail("The completed refresh does not match its active generation");
        }
        let mut again: Option<(FsPath, FsPath)> = None;
        if requeue {
            match self.check_scope(refresh.root.as_str(), &refresh.claimed) {
                Ok(pair) => {
                    again = Some(pair);
                },
                Err(reason) => {
                    return Err(reason);
                },
            }
        }
        if !self.journal.holds_claim(refresh.root.as_str(), path_bytes(&refresh.claimed)) {
            return fail("The completed refresh has no matching durable scope claim");
        }
        let limited: bool = self.journal.is_limited(
            refresh.root.as_str(),
            refresh.generation.as_str(),
        );
        let complete: bool = stats.complete && !limited;
        self.end_refresh(refresh.root.as_str(), refresh.generation.as_str(), complete);
        self.save_stats(refresh.root.as_str(), stats);
        self.journal.drop_admission(refresh.root.as_str(), refresh.generation.as_str());
        if complete && (refresh.scope.is_none() || !refresh.was_incomplete) {
            self.journal.mark_complete(refresh.root.as_str());
            // A successful full pass is the only operation that clears a
            // persistent admission warning. Scoped passes cannot prove that
            // omitted observations elsewhere in this root are now present.
            if refresh.scope.is_none() {
                self.index.clear_limited(refresh.root.as_str());
            }
        }
        match &again {
            Some(pair) => {
                self.journal.enqueue_validated(
                    refresh.root.as_str(),
                    path_bytes(&pair.1),
                    &pair.0,
                );
            },
            None => {},
        }
        self.journal.release(refresh.root.as_str(), path_bytes(&refresh.claimed));
        proof {
            if start.tidy() {
                if let Some(pair) = again {
                    scopes_are_plain(refresh.claimed@);
                    enqueue_keeps_tidy(
                        start,
                        keys(start.journal.pending@),
                        refresh.root@,
                        pair.0@,
                    );
                }
                same_roots_authorize(start, *self);
            }
        }
        Ok(())
    }

    /// The canonical form of a path of a root together with the root's own path,
    /// if the path can be a scope of it.
    pub(crate) fn check_scope(&self, root: &str, path: &FsPath) -> (r: Result<
        (FsPath, FsPath),
        String,
    >)
        requires
            self.wf(),
        ensures
            match requeue_failure(*self, root@, path@) {
                Some(reason) => failed(r, reason),
                None => r matches Ok(pair) && pair.0@ == scope_outcome(path@)->Ok_0 && pair.1
                    == self.root_of(root@).path && under(pair.0@, pair.1@),
            },
    {
        let scope: FsPath = match scope_path(path_bytes(path)) {
            Ok(scope) => scope,
            Err(reason) => {
                return Err(reason);
            },
        };
        let at: usize = match self.find_root(root) {
            Some(at) => at,
            None => {
                return fail("Query returned no rows");
            },
        };
        proof {
            self.root_unique(root@, at as int);
        }
        let base: FsPath = share(&self.roots[at].path);
        if !is_under(path_bytes(&scope), path_bytes(&base)) {
            return fail("The discovery scope is outside its authorized location");
        }
        Ok((scope, base))
    }

    /// Cancellation before a refresh begins still leaves incomplete coverage and
    /// durable replay work, with no gap between requeue and acknowledgement.
    pub fn cancel_claimed_scope(&mut self, root: &str, claimed: &FsPath) -> (r: Result<(), String>)
        requires
            old(self).wf(),
        ensures
            final(self).wf(),
            old(self).tidy() ==> final(self).tidy(),
            match requeue_failure(*old(self), root@, claimed@) {
                Some(reason) => failed(r, reason) && *final(self) == *old(self),
                None => {
                    let scope = scope_outcome(claimed@)->Ok_0;
                    if !is_claimed(old(self).journal, root@, scope) {
                        failed(
                            r,
                            "The completed refresh has no matching durable scope claim"@,
                        ) && *final(self) == *old(self)
                    } else {
                        &&& r is Ok
                        &&& texts(final(self).journal.incomplete@) == marked(
                            texts(old(self).journal.incomplete@),
                            root@,
                        )
                        &&& keys(final(self).journal.pending@) == enqueued(
                            keys(old(self).journal.pending@),
                            root@,
                            old(self).root_of(root@).path@,
                            scope,
                        )
                        &&& final(self).journal.active@ == old(self).journal.active@.filter(
                            other_than(root@, scope),
                        )
                        &&& *final(self) == (Store {
                            journal: Journal {
                                incomplete: final(self).journal.incomplete,
                                pending: final(self).journal.pending,
                                active: final(self).journal.active,
                                ..old(self).journal
                            },
                            ..*old(self)
                        })
                    }
                },
            },
    {
        let pair: (FsPath, FsPath) = match self.check_scope(root, claimed) {
            Ok(pair) => pair,
            Err(reason) => {
                return Err(reason);
            },
        };
        if !self.journal.holds_claim(root, path_bytes(&pair.0)) {
            return fail("The completed refresh has no matching durable scope claim");
        }
        self.journal.mark_incomplete(root);
        self.journal.enqueue_validated(root, path_bytes(&pair.1), &pair.0);
        self.journal.release(root, path_bytes(&pair.0));
        proof {
            let start = *old(self);
            if start.tidy() {
                scopes_are_plain(claimed@);
                enqueue_keeps_tidy(start, keys(start.journal.pending@), root@, pair.0@);
                same_roots_authorize(start, *self);
            }
        }
        Ok(())
    }
}

} // verus!
