//! What a restart does: abandoned claims and refreshes become pending work
//! again, and a change of the rules rebuilds the derived index.
use crate::model::Root;
use crate::paths::{
    above, path_bytes, plainly_spelled, scope_outcome, scopes_are_plain, share, under, FsPath,
};
use crate::pnpm::texts;
use crate::store::claims::requeue_failure;
use crate::store::coverage::marked;
use crate::store::queue::{covered, enqueue_covers, enqueue_keeps_cover, enqueued};
use crate::store::tidy::{plain_roots, rebuilding_tidies, recovery_keeps_tidy, same_roots_authorize};
use crate::store::{keys, payload, Foreground, Index, Journal, Refresh, Scope, ScopeKey, Store};
use crate::tables::{filter_add, filter_holds, filter_map, filter_push, filter_unique, retain, unique};
use crate::text::{fail, failed};
use vstd::prelude::*;

verus! {

/// The version of the accounting that the counters are kept by.
pub const DERIVED_USAGE_VERSION: u32 = 1;

/// Whether the root of a scope is still authorized.
pub open spec fn known(store: Store) -> spec_fn(ScopeKey) -> bool {
    |k: ScopeKey| store.has_root(k.0)
}

/// The scope that a refresh works on.
pub open spec fn refresh_key(store: Store) -> spec_fn(Refresh) -> ScopeKey {
    |r: Refresh|
        (
            r.root_id@,
            match r.scope {
                Some(path) => path@,
                None => store.root_of(r.root_id@).path@,
            },
        )
}

/// The work that nobody finished: claims first, then refreshes.
pub open spec fn abandoned(store: Store) -> Seq<ScopeKey> {
    keys(store.journal.active@).filter(known(store))
        + store.journal.refreshes@.map_values(refresh_key(store)).filter(known(store))
}

/// Why work cannot be queued again: the first reason, if there is one.
pub open spec fn work_failure(store: Store, work: Seq<ScopeKey>) -> Option<Seq<char>>
    decreases work.len(),
{
    if work.len() == 0 {
        None
    } else {
        match work_failure(store, work.drop_last()) {
            Some(reason) => Some(reason),
            None => requeue_failure(store, work.last().0, work.last().1),
        }
    }
}

/// The queue after the work was put back, one scope after the other.
pub open spec fn replayed(store: Store, queue: Seq<ScopeKey>, work: Seq<ScopeKey>) -> Seq<ScopeKey>
    decreases work.len(),
{
    if work.len() == 0 {
        queue
    } else {
        enqueued(
            replayed(store, queue, work.drop_last()),
            work.last().0,
            store.root_of(work.last().0).path@,
            scope_outcome(work.last().1)->Ok_0,
        )
    }
}

/// The list of roots without coverage after the work was put back.
pub open spec fn reopened(list: Seq<Seq<char>>, work: Seq<ScopeKey>) -> Seq<Seq<char>>
    decreases work.len(),
{
    if work.len() == 0 {
        list
    } else {
        marked(reopened(list, work.drop_last()), work.last().0)
    }
}

/// What recovery makes of a store: no finding is touched, and every abandoned
/// claim of an authorized root waits again.
pub open spec fn recovered(before: Store, after: Store) -> bool {
    let work = abandoned(before);
    &&& keys(after.journal.pending@) == replayed(
        before,
        keys(before.journal.pending@),
        work,
    ).filter(known(before))
    &&& texts(after.journal.incomplete@) == reopened(texts(before.journal.incomplete@), work)
    &&& after.journal.active@.len() == 0
    &&& after.journal.refreshes@.len() == 0
    &&& after.journal.seen@.len() == 0
    &&& after.journal.admissions@.len() == 0
    &&& after == (Store {
        journal: Journal { cursor: before.journal.cursor, ..after.journal },
        ..before
    })
}

pub proof fn failure_extends(store: Store, work: Seq<ScopeKey>, more: Seq<ScopeKey>)
    requires
        work_failure(store, work) is Some,
    ensures
        work_failure(store, work + more) == work_failure(store, work),
    decreases more.len(),
{
    if more.len() == 0 {
        assert(work + more =~= work);
    } else {
        failure_extends(store, work, more.drop_last());
        assert((work + more).drop_last() =~= work + more.drop_last());
    }
}

/// Whether a list holds the canonical scopes of the work.
pub open spec fn prepared(store: Store, list: Seq<Scope>, work: Seq<ScopeKey>) -> bool {
    &&& list.len() == work.len()
    &&& forall|j: int|
        0 <= j < list.len() ==> {
            &&& (#[trigger] list[j]).root_id@ == work[j].0
            &&& requeue_failure(store, work[j].0, work[j].1) is None
            &&& list[j].path@ == scope_outcome(work[j].1)->Ok_0
        }
}

impl Store {
    /// Adds one scope to the work if its root is known.
    pub(crate) fn prepare(&self, list: &mut Vec<Scope>, root: &str, path: &FsPath, Ghost(work): Ghost<
        Seq<ScopeKey>,
    >) -> (r: Result<(), String>)
        requires
            self.wf(),
            prepared(*self, old(list)@, work),
            work_failure(*self, work) is None,
            self.has_root(root@),
        ensures
            match requeue_failure(*self, root@, path@) {
                Some(reason) => failed(r, reason) && work_failure(
                    *self,
                    work.push((root@, path@)),
                ) == Some(reason),
                None => r is Ok && prepared(*self, final(list)@, work.push((root@, path@)))
                    && work_failure(*self, work.push((root@, path@))) is None,
            },
    {
        proof {
            assert(work.push((root@, path@)).drop_last() =~= work);
        }
        match self.check_scope(root, path) {
            Err(reason) => Err(reason),
            Ok(pair) => {
                let ghost before = list@;
                list.push(Scope { root_id: root.to_owned(), path: share(&pair.0) });
                proof {
                    let after = work.push((root@, path@));
                    assert forall|j: int| 0 <= j < list@.len() implies {
                        &&& (#[trigger] list@[j]).root_id@ == after[j].0
                        &&& requeue_failure(*self, after[j].0, after[j].1) is None
                        &&& list@[j].path@ == scope_outcome(after[j].1)->Ok_0
                    } by {
                        if j < before.len() {
                            assert(list@[j] == before[j]);
                        }
                    }
                }
                Ok(())
            },
        }
    }

    /// The abandoned work, each scope in its canonical form.
    fn abandoned_work(&self) -> (r: Result<Vec<Scope>, String>)
        requires
            self.wf(),
        ensures
            match work_failure(*self, abandoned(*self)) {
                Some(reason) => failed(r, reason),
                None => r matches Ok(list) && prepared(*self, list@, abandoned(*self)),
            },
    {
        let ghost claims = keys(self.journal.active@);
        let ghost marks = self.journal.refreshes@.map_values(refresh_key(*self));
        let ghost test = known(*self);
        let mut list: Vec<Scope> = Vec::new();
        let mut i: usize = 0;
        proof {
            assert(claims.take(0).filter(test) =~= seq![]) by {
                reveal(Seq::filter);
            }
            assert(marks.take(0).filter(test) =~= seq![]) by {
                reveal(Seq::filter);
            }
        }
        while i < self.journal.active.len()
            invariant
                i <= self.journal.active.len(),
                self.wf(),
                claims == keys(self.journal.active@),
                marks == self.journal.refreshes@.map_values(refresh_key(*self)),
                test == known(*self),
                prepared(*self, list@, claims.take(i as int).filter(test)),
                work_failure(*self, claims.take(i as int).filter(test)) is None,
            decreases self.journal.active.len() - i,
        {
            let scope: &Scope = &self.journal.active[i];
            let ghost now = claims.take(i as int);
            let ghost key = claims[i as int];
            proof {
                assert(claims.take(i + 1) =~= now.push(key));
                filter_push(now, key, test);
            }
            match self.find_root(scope.root_id.as_str()) {
                None => {},
                Some(at) => {
                    assert(self.root_at(scope.root_id@, at as int));
                    match self.prepare(
                        &mut list,
                        scope.root_id.as_str(),
                        &scope.path,
                        Ghost(now.filter(test)),
                    ) {
                        Ok(_) => {},
                        Err(reason) => {
                            proof {
                                let rest = claims.skip(i + 1).filter(test) + marks.filter(test);
                                assert(claims =~= claims.take(i + 1) + claims.skip(i + 1));
                                filter_add(claims.take(i + 1), claims.skip(i + 1), test);
                                failure_extends(*self, claims.take(i + 1).filter(test), rest);
                                assert(abandoned(*self) =~= claims.take(i + 1).filter(test) + rest);
                            }
                            return Err(reason);
                        },
                    }
                },
            }
            i = i + 1;
        }
        assert(claims.take(i as int) =~= claims);
        let ghost first = claims.filter(test);
        let mut k: usize = 0;
        assert(first + marks.take(0).filter(test) =~= first);
        while k < self.journal.refreshes.len()
            invariant
                k <= self.journal.refreshes.len(),
                self.wf(),
                claims == keys(self.journal.active@),
                first == claims.filter(test),
                marks == self.journal.refreshes@.map_values(refresh_key(*self)),
                test == known(*self),
                prepared(*self, list@, first + marks.take(k as int).filter(test)),
                work_failure(*self, first + marks.take(k as int).filter(test)) is None,
            decreases self.journal.refreshes.len() - k,
        {
            let refresh: &Refresh = &self.journal.refreshes[k];
            let ghost now = marks.take(k as int);
            let ghost key = marks[k as int];
            proof {
                assert(marks.take(k + 1) =~= now.push(key));
                filter_push(now, key, test);
                assert(key.0 == refresh.root_id@);
            }
            match self.find_root(refresh.root_id.as_str()) {
                None => {},
                Some(at) => {
                    proof {
                        self.root_unique(refresh.root_id@, at as int);
                        assert(first + now.push(key).filter(test) =~= (first + now.filter(
                            test,
                        )).push(key));
                    }
                    let path: FsPath = match &refresh.scope {
                        Some(path) => share(path),
                        None => share(&self.roots[at].path),
                    };
                    match self.prepare(
                        &mut list,
                        refresh.root_id.as_str(),
                        &path,
                        Ghost(first + now.filter(test)),
                    ) {
                        Ok(_) => {},
                        Err(reason) => {
                            proof {
                                let rest = marks.skip(k + 1).filter(test);
                                assert(marks =~= marks.take(k + 1) + marks.skip(k + 1));
                                filter_add(marks.take(k + 1), marks.skip(k + 1), test);
                                let done = first + marks.take(k + 1).filter(test);
                                failure_extends(*self, done, rest);
                                assert(abandoned(*self) =~= done + rest);
                            }
                            return Err(reason);
                        },
                    }
                },
            }
            k = k + 1;
        }
        assert(marks.take(k as int) =~= marks);
        Ok(list)
    }

    /// Recover abandoned read claims after process exit or after the sole
    /// coordinator has stopped and discarded every helper receiver. Never call
    /// this while another reader still has publication authority. No findings
    /// are pruned, and a failure leaves the replay journal intact.
    pub fn recover_discovery(&mut self) -> (r: Result<(), String>)
        requires
            old(self).wf(),
        ensures
            final(self).wf(),
            old(self).tidy() ==> final(self).tidy(),
            match work_failure(*old(self), abandoned(*old(self))) {
                Some(reason) => failed(r, reason) && *final(self) == *old(self),
                None => r is Ok && recovered(*old(self), *final(self)),
            },
    {
        let ghost start = *self;
        let ghost work = abandoned(start);
        let list: Vec<Scope> = match self.abandoned_work() {
            Ok(list) => list,
            Err(reason) => {
                return Err(reason);
            },
        };
        let mut i: usize = 0;
        assert(work.take(0) =~= seq![]);
        while i < list.len()
            invariant
                i <= list.len(),
                self.wf(),
                start.wf(),
                prepared(start, list@, work),
                self.roots == start.roots,
                *self == (Store {
                    journal: Journal {
                        pending: self.journal.pending,
                        incomplete: self.journal.incomplete,
                        ..start.journal
                    },
                    ..start
                }),
                keys(self.journal.pending@) == replayed(
                    start,
                    keys(start.journal.pending@),
                    work.take(i as int),
                ),
                texts(self.journal.incomplete@) == reopened(
                    texts(start.journal.incomplete@),
                    work.take(i as int),
                ),
            decreases list.len() - i,
        {
            let scope: &Scope = &list[i];
            proof {
                assert(work.take(i + 1).drop_last() =~= work.take(i as int));
                assert(work.take(i + 1).last() == work[i as int]);
                assert(list@[i as int].root_id@ == work[i as int].0);
            }
            match self.find_root(scope.root_id.as_str()) {
                Some(at) => {
                    let base: FsPath = share(&self.roots[at].path);
                    proof {
                        assert(start.root_at(scope.root_id@, at as int));
                        start.root_unique(scope.root_id@, at as int);
                    }
                    self.journal.enqueue_validated(
                        scope.root_id.as_str(),
                        path_bytes(&base),
                        &scope.path,
                    );
                    self.journal.mark_incomplete(scope.root_id.as_str());
                },
                None => {
                    proof {
                        assert(start.has_root(scope.root_id@));
                        let c = choose|c: int| #[trigger] start.root_at(scope.root_id@, c);
                        assert(self.root_at(scope.root_id@, c));
                        assert(false);
                    }
                },
            }
            i = i + 1;
        }
        assert(work.take(i as int) =~= work);
        self.journal.active = Vec::new();
        self.journal.refreshes = Vec::new();
        self.journal.seen = Vec::new();
        self.journal.admissions = Vec::new();
        let ghost queued = self.journal.pending@;
        let ghost keep = |s: Scope| start.has_root(s.root_id@);
        let mut stay: Vec<Scope> = Vec::new();
        std::mem::swap(&mut stay, &mut self.journal.pending);
        let ghost roots = self.roots;
        let holder: &Store = &*self;
        assert(forall|id: Seq<char>| holder.has_root(id) == start.has_root(id)) by {
            assert forall|id: Seq<char>| holder.has_root(id) == start.has_root(id) by {
                if holder.has_root(id) {
                    let c = choose|c: int| #[trigger] holder.root_at(id, c);
                    assert(start.root_at(id, c));
                }
                if start.has_root(id) {
                    let c = choose|c: int| #[trigger] start.root_at(id, c);
                    assert(holder.root_at(id, c));
                }
            }
        }
        let stays = |s: &Scope| -> (b: bool)
            ensures
                b == holder.has_root(s.root_id@),
        {
            holder.knows_root(s.root_id.as_str())
        };
        retain(&mut stay, stays, Ghost(keep));
        self.journal.pending = stay;
        proof {
            filter_map(queued, |s: Scope| s.key(), keep, known(start));
            filter_unique(keys(queued), known(start), |k: ScopeKey| k);
            if start.tidy() {
                recovery_keeps_tidy(start, *self);
            }
        }
        Ok(())
    }
}


proof fn replay_covers(store: Store, queue: Seq<ScopeKey>, work: Seq<ScopeKey>, j: int)
    requires
        0 <= j < work.len(),
        forall|i: int|
            0 <= i < work.len() ==> requeue_failure(
                store,
                (#[trigger] work[i]).0,
                work[i].1,
            ) is None,
    ensures
        covered(
            replayed(store, queue, work),
            work[j].0,
            store.root_of(work[j].0).path@,
            scope_outcome(work[j].1)->Ok_0,
        ),
    decreases work.len(),
{
    let front = work.drop_last();
    let last = work.last();
    let before = replayed(store, queue, front);
    let base = store.root_of(last.0).path@;
    let path = scope_outcome(last.1)->Ok_0;
    assert(requeue_failure(store, work[work.len() - 1].0, work[work.len() - 1].1) is None);
    if j == work.len() - 1 {
        enqueue_covers(before, last.0, base, path);
    } else {
        assert forall|i: int| 0 <= i < front.len() implies requeue_failure(
            store,
            (#[trigger] front[i]).0,
            front[i].1,
        ) is None by {
            assert(front[i] == work[i]);
        }
        replay_covers(store, queue, front, j);
        assert(front[j] == work[j]);
        assert(requeue_failure(store, work[j].0, work[j].1) is None);
        scopes_are_plain(last.1);
        scopes_are_plain(work[j].1);
        cover_survives(
            before,
            last.0,
            base,
            path,
            work[j].0,
            store.root_of(work[j].0).path@,
            scope_outcome(work[j].1)->Ok_0,
        );
    }
}

/// One more scope of some root leaves every covered scope of every root covered.
proof fn cover_survives(
    queue: Seq<ScopeKey>,
    root: Seq<char>,
    base: Seq<u8>,
    path: Seq<u8>,
    other: Seq<char>,
    other_base: Seq<u8>,
    other_path: Seq<u8>,
)
    requires
        under(path, base),
        plainly_spelled(path),
        plainly_spelled(other_path),
        covered(queue, other, other_base, other_path),
        root == other ==> base == other_base,
    ensures
        covered(enqueued(queue, root, base, path), other, other_base, other_path),
{
    if root == other {
        enqueue_keeps_cover(queue, root, base, path, other_path);
    } else if !covered(queue, root, base, path) {
        let keep = crate::store::queue::apart(root, path);
        let left = queue.filter(keep);
        filter_holds(queue, keep);
        let w = choose|w: int|
            0 <= w < queue.len() && (#[trigger] queue[w]).0 == other && above(
                queue[w].1,
                other_path,
            ) && under(queue[w].1, other_base);
        assert(queue.contains(queue[w]));
        assert(left.contains(queue[w]));
        let v = choose|v: int| 0 <= v < left.len() && left[v] == queue[w];
        assert(enqueued(queue, root, base, path)[v] == queue[w]);
    }
}

proof fn no_failure(store: Store, work: Seq<ScopeKey>)
    requires
        work_failure(store, work) is None,
    ensures
        forall|i: int|
            0 <= i < work.len() ==> requeue_failure(
                store,
                (#[trigger] work[i]).0,
                work[i].1,
            ) is None,
    decreases work.len(),
{
    if work.len() > 0 {
        no_failure(store, work.drop_last());
        assert forall|i: int| 0 <= i < work.len() implies requeue_failure(
            store,
            (#[trigger] work[i]).0,
            work[i].1,
        ) is None by {
            if i < work.len() - 1 {
                assert(work.drop_last()[i] == work[i]);
            }
        }
    }
}

/// Recovery loses no work: after it, pending work covers every scope that was
/// claimed or being refreshed.
pub proof fn recovery_keeps_work(before: Store, after: Store, j: int)
    requires
        work_failure(before, abandoned(before)) is None,
        recovered(before, after),
        0 <= j < abandoned(before).len(),
    ensures
        covered(
            keys(after.journal.pending@),
            abandoned(before)[j].0,
            before.root_of(abandoned(before)[j].0).path@,
            scope_outcome(abandoned(before)[j].1)->Ok_0,
        ),
{
    let work = abandoned(before);
    let queue = replayed(before, keys(before.journal.pending@), work);
    let root = work[j].0;
    let base = before.root_of(root).path@;
    let path = scope_outcome(work[j].1)->Ok_0;
    no_failure(before, work);
    replay_covers(before, keys(before.journal.pending@), work, j);
    filter_holds(queue, known(before));
    let w = choose|w: int|
        0 <= w < queue.len() && (#[trigger] queue[w]).0 == root && above(queue[w].1, path)
            && under(queue[w].1, base);
    assert(queue.contains(queue[w]));
    assert(known(before)(queue[w]));
    let left = queue.filter(known(before));
    assert(left.contains(queue[w]));
    let v = choose|v: int| 0 <= v < left.len() && left[v] == queue[w];
    assert(left[v].0 == root);
}

/// The scopes that stand for the whole roots.
pub open spec fn root_scopes(store: Store) -> Seq<ScopeKey> {
    store.roots@.map_values(|r: crate::model::Root| (r.id@, r.path@))
}

/// The tables with counters that a recount gives.
pub open spec fn counted(store: Store) -> Store {
    Store {
        index: Index {
            row_count: store.index.rows@.len() as u64,
            payload_bytes: payload(store.index.rows@) as u64,
            ..store.index
        },
        ..store
    }
}

/// What a change of the rules does: the findings go, every root waits for a
/// full pass, and saved summaries lose their context.
pub open spec fn rebuilt(before: Store, after: Store, rule_version: u32) -> bool {
    &&& after.index.rows@.len() == 0
    &&& keys(after.journal.pending@) == root_scopes(before)
    &&& texts(after.journal.incomplete@) == reopened(
        texts(before.journal.incomplete@),
        root_scopes(before),
    )
    &&& after.rule_version == rule_version
    &&& after.foreground == (Foreground {
        revision: (before.foreground.revision + 1) as i64,
        summary: None,
        completed_at: None,
    })
    &&& after == (Store {
        journal: Journal {
            pending: after.journal.pending,
            incomplete: after.journal.incomplete,
            ..before.journal
        },
        index: Index {
            rows: after.index.rows,
            row_count: 0,
            payload_bytes: 0,
            ..before.index
        },
        foreground: after.foreground,
        rule_version,
        ..before
    })
}

impl Foreground {
    /// Gives later scans a new context and forgets the saved summary.
    pub(crate) fn invalidate(&mut self) -> (r: Result<(), String>)
        requires
            old(self).revision >= 0,
        ensures
            if old(self).revision < i64::MAX {
                r is Ok && *final(self) == (Foreground {
                    revision: (old(self).revision + 1) as i64,
                    summary: None,
                    completed_at: None,
                })
            } else {
                failed(r, "The foreground summary context is missing or exhausted"@) && *final(self)
                    == *old(self)
            },
    {
        if self.revision >= i64::MAX {
            return fail("The foreground summary context is missing or exhausted");
        }
        self.revision = self.revision + 1;
        self.summary = None;
        self.completed_at = None;
        Ok(())
    }
}

/// Why tables could not be taken over, and the tables as they then stand: what was
/// recounted or rebuilt before is durable.
pub struct OpenFailure {
    pub reason: String,
    pub tables: Store,
}

/// Whether tables were not taken over for a reason, and how they then stand.
pub open spec fn not_opened(r: Result<Store, OpenFailure>, reason: Seq<char>, tables: Store) -> bool {
    r matches Err(failure) && failure.reason@ == reason && failure.tables == tables
}

impl Store {
    /// What tables hold by their keys alone, with counters yet to be trusted.
    pub open spec fn loaded(self) -> bool {
        &&& unique(self.roots@, |r: crate::model::Root| r.id@)
        &&& unique(self.roots@, |r: crate::model::Root| r.path@)
        &&& self.journal.wf()
        &&& self.index.tables_wf()
        &&& payload(self.index.rows@) <= i64::MAX
        &&& self.limits.max_candidate_payload_bytes <= i64::MAX
        &&& self.ledger.wf()
        &&& unique(self.scans@, |s: crate::store::SavedScan| s.root_id@)
        &&& crate::order::strictly_sorted(crate::order::byte_rows(self.kept@))
        &&& self.foreground.revision >= 0
    }

    /// Takes over tables. Counters of another accounting are recounted, a
    /// change of the rules rebuilds the derived index durably, and abandoned
    /// discovery work is recovered. Where that fails, the tables come back as they
    /// were recounted and rebuilt.
    pub fn open(tables: Store, usage_version: u32, rule_version: u32) -> (r: Result<
        Store,
        OpenFailure,
    >)
        requires
            tables.loaded(),
            usage_version == DERIVED_USAGE_VERSION ==> tables.index.wf(),
        ensures
            if tables.rule_version == rule_version {
                match work_failure(counted(tables), abandoned(counted(tables))) {
                    Some(reason) => not_opened(r, reason, counted(tables)),
                    None => r matches Ok(store) && store.wf() && recovered(
                        counted(tables),
                        store,
                    ),
                }
            } else if tables.foreground.revision == i64::MAX {
                not_opened(
                    r,
                    "The foreground summary context is missing or exhausted"@,
                    counted(tables),
                )
            } else {
                exists|fresh: Store| #[trigger]
                    rebuilt(counted(tables), fresh, rule_version) && match work_failure(
                        fresh,
                        abandoned(fresh),
                    ) {
                        Some(reason) => not_opened(r, reason, fresh),
                        None => r matches Ok(store) && store.wf() && recovered(fresh, store),
                    }
            },
            (if tables.rule_version == rule_version {
                tables.tidy()
            } else {
                plain_roots(tables)
            }) ==> (r matches Ok(store) ==> store.tidy()),
    {
        let mut store: Store = tables;
        if usage_version != DERIVED_USAGE_VERSION {
            store.index.recount();
        }
        assert(store == counted(tables));
        let ghost base = store;
        if store.rule_version != rule_version {
            match store.foreground.invalidate() {
                Ok(_) => {},
                Err(reason) => {
                    return Err(OpenFailure { reason, tables: store });
                },
            }
            // Classification changes rebuild only the derived index. Event
            // receipt may already have a cursor, so the rebuild is durable.
            store.index.rows = Vec::new();
            store.index.row_count = 0;
            store.index.payload_bytes = 0;
            store.journal.pending = Vec::new();
            store.rule_version = rule_version;
            let ghost scopes = root_scopes(base);
            let mut i: usize = 0;
            assert(keys(store.journal.pending@) =~= scopes.take(0));
            assert(scopes.take(0) =~= seq![]);
            while i < store.roots.len()
                invariant
                    i <= store.roots.len(),
                    base.wf(),
                    scopes == root_scopes(base),
                    store.wf(),
                    keys(store.journal.pending@) == scopes.take(i as int),
                    texts(store.journal.incomplete@) == reopened(
                        texts(base.journal.incomplete@),
                        scopes.take(i as int),
                    ),
                    base.foreground.revision < i64::MAX,
                    store.foreground == (Foreground {
                        revision: (base.foreground.revision + 1) as i64,
                        summary: None,
                        completed_at: None,
                    }),
                    store.index.rows@.len() == 0,
                    store == (Store {
                        journal: Journal {
                            pending: store.journal.pending,
                            incomplete: store.journal.incomplete,
                            ..base.journal
                        },
                        index: Index {
                            rows: store.index.rows,
                            row_count: 0,
                            payload_bytes: 0,
                            ..base.index
                        },
                        foreground: store.foreground,
                        rule_version,
                        ..base
                    }),
                decreases store.roots.len() - i,
            {
                let id: String = store.roots[i].id.clone();
                let path: FsPath = share(&store.roots[i].path);
                let ghost queued = store.journal.pending@;
                proof {
                    assert(scopes.take(i + 1).drop_last() =~= scopes.take(i as int));
                    assert(scopes.take(i + 1).last() == (id@, path@));
                }
                let ghost key = (id@, path@);
                store.journal.mark_incomplete(id.as_str());
                store.journal.pending.push(Scope { root_id: id, path });
                proof {
                    assert(keys(store.journal.pending@) =~= scopes.take(i + 1));
                    let now = keys(store.journal.pending@);
                    assert forall|a: int, b: int| 0 <= a < b < now.len() implies #[trigger] now[a]
                        != #[trigger] now[b] by {
                        assert(now[a] == scopes[a]);
                        assert(now[b] == scopes[b]);
                        assert(base.roots@[a].id@ != base.roots@[b].id@);
                    }
                }
                i = i + 1;
            }
            assert(scopes.take(i as int) =~= scopes);
            assert(rebuilt(counted(tables), store, rule_version));
            proof {
                if plain_roots(tables) {
                    rebuilding_tidies(counted(tables), store, rule_version);
                }
            }
        } else {
            proof {
                same_roots_authorize(tables, store);
            }
        }
        match store.recover_discovery() {
            Ok(_) => Ok(store),
            Err(reason) => Err(OpenFailure { reason, tables: store }),
        }
    }
}

/// Recovery prunes nothing: findings, tombstones, kept paths, grants and the
/// ledger are as they were.
pub proof fn recovery_prunes_nothing(before: Store, after: Store)
    requires
        recovered(before, after),
    ensures
        after.index == before.index,
        after.roots == before.roots,
        after.kept == before.kept,
        after.ledger == before.ledger,
        after.scans == before.scans,
{
}

/// After events were lost, pending work covers every root.
pub proof fn lost_events_reach_every_root(store: Store, sorted: Seq<Root>, j: int)
    requires
        crate::store::grants::by_path(store.roots@, sorted),
        work_failure(store, crate::store::foreground::whole_roots(sorted)) is None,
        0 <= j < store.roots@.len(),
    ensures
        covered(
            replayed(
                store,
                keys(store.journal.pending@),
                crate::store::foreground::whole_roots(sorted),
            ),
            store.roots@[j].id@,
            store.root_of(store.roots@[j].id@).path@,
            scope_outcome(store.roots@[j].path@)->Ok_0,
        ),
{
    let work = crate::store::foreground::whole_roots(sorted);
    assert(sorted.contains(store.roots@[j]));
    let i = choose|i: int| 0 <= i < sorted.len() && sorted[i] == store.roots@[j];
    assert(work[i] == (store.roots@[j].id@, store.roots@[j].path@));
    no_failure(store, work);
    replay_covers(store, keys(store.journal.pending@), work, i);
}

} // verus!
