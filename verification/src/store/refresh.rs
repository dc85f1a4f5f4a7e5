//! Refreshes: which findings a pass has to meet again, and what its end commits.
use crate::paths::{
    above, begins_below, below, is_above, path_bytes, scope_outcome, scope_path, share, FsPath,
};
use crate::store::{payload, Index, IndexRow, Journal, Limited, Refresh, Seen, Store, Tombstone};
use crate::tables::{
    filter_holds, filter_push, filter_rows, filter_unique, push_unique, retain, unique,
};
use crate::text::{begins, fail, failed, same_bytes, same_text};
use vstd::prelude::*;

verus! {

/// How far a refresh reaches.
pub enum Reach {
    /// The whole root.
    All,
    /// One path: what is below it, the path itself, and what encloses it.
    Around(FsPath),
    /// Two paths with what is below them, and nothing that encloses them.
    Pair(FsPath, FsPath),
}

impl Reach {
    /// Whether a pass over this reach has to answer for a path.
    pub open spec fn holds(self, path: Seq<u8>) -> bool {
        match self {
            Reach::All => true,
            Reach::Around(scope) => begins(path, below(scope@)) || above(path, scope@),
            Reach::Pair(first, second) => begins(path, below(first@)) || path == first@ || begins(
                path,
                below(second@),
            ) || path == second@,
        }
    }

    fn test(&self, path: &[u8]) -> (r: bool)
        ensures
            r == self.holds(path@),
    {
        match self {
            Reach::All => true,
            Reach::Around(scope) => begins_below(path, path_bytes(scope)) || is_above(
                path,
                path_bytes(scope),
            ),
            Reach::Pair(first, second) => begins_below(path, path_bytes(first)) || same_bytes(
                path,
                path_bytes(first),
            ) || begins_below(path, path_bytes(second)) || same_bytes(path, path_bytes(second)),
        }
    }
}

/// The findings of a root that a refresh answers for.
pub open spec fn answers_for(root: Seq<char>, reach: Reach) -> spec_fn(IndexRow) -> bool {
    |row: IndexRow| row.root_id@ == root && reach.holds(row.path@)
}

/// The tombstones that a refresh leaves in place.
pub open spec fn stays_buried(root: Seq<char>, reach: Reach) -> spec_fn(Tombstone) -> bool {
    |t: Tombstone| !(t.location matches Some(at) && at.root_id@ == root && reach.holds(at.path@))
}

/// The rows of other roots.
pub open spec fn seen_elsewhere(root: Seq<char>) -> spec_fn(Seen) -> bool {
    |s: Seen| s.root_id@ != root
}

pub open spec fn refresh_elsewhere(root: Seq<char>) -> spec_fn(Refresh) -> bool {
    |r: Refresh| r.root_id@ != root
}

/// The bookkeeping of one finding that the refresh has not met yet.
pub open spec fn awaited(s: Seen, root: Seq<char>, generation: Seq<char>, id: Seq<char>) -> bool {
    s.root_id@ == root && s.generation@ == generation && s.candidate_id@ == id && !s.seen
}

/// The journal and the index after a refresh began: its generation replaces an
/// abandoned one, it awaits exactly the findings it answers for, and the
/// tombstones in its reach no longer reject.
pub open spec fn begun(
    before: Store,
    after: Store,
    root: Seq<char>,
    scope: Option<FsPath>,
    generation: Seq<char>,
    reach: Reach,
) -> bool {
    let old_seen = before.journal.seen@.filter(seen_elsewhere(root));
    let rows = before.index.rows@.filter(answers_for(root, reach));
    let fresh = after.journal.refreshes@.last();
    &&& after.journal.seen@.len() == old_seen.len() + rows.len()
    &&& after.journal.seen@.take(old_seen.len() as int) == old_seen
    &&& forall|i: int|
        0 <= i < rows.len() ==> awaited(
            #[trigger] after.journal.seen@[old_seen.len() + i],
            root,
            generation,
            rows[i].id@,
        )
    &&& after.journal.refreshes@.len() > 0
    &&& after.journal.refreshes@.drop_last() == before.journal.refreshes@.filter(
        refresh_elsewhere(root),
    )
    &&& fresh.root_id@ == root
    &&& fresh.scope == scope
    &&& fresh.generation@ == generation
    &&& after.index.tombstones@ == before.index.tombstones@.filter(stays_buried(root, reach))
    &&& after.index.rows@ == before.index.rows@
}

proof fn seen_append_unique(seen: Seq<Seen>, row: Seen)
    requires
        unique(seen, |s: Seen| (s.root_id@, s.generation@, s.candidate_id@)),
        forall|i: int|
            0 <= i < seen.len() ==> !((#[trigger] seen[i]).root_id@ == row.root_id@
                && seen[i].generation@ == row.generation@ && seen[i].candidate_id@
                == row.candidate_id@),
    ensures
        unique(seen.push(row), |s: Seen| (s.root_id@, s.generation@, s.candidate_id@)),
{
    push_unique(seen, row, |s: Seen| (s.root_id@, s.generation@, s.candidate_id@));
}

impl Store {
    /// Starts the bookkeeping of a refresh.
    pub(crate) fn start_refresh(
        &mut self,
        root: &str,
        scope: Option<FsPath>,
        generation: &str,
        reach: &Reach,
    )
        requires
            old(self).wf(),
        ensures
            final(self).wf(),
            begun(*old(self), *final(self), root@, scope, generation@, *reach),
            *final(self) == (Store {
                journal: Journal {
                    seen: final(self).journal.seen,
                    refreshes: final(self).journal.refreshes,
                    ..old(self).journal
                },
                index: Index { tombstones: final(self).index.tombstones, ..old(self).index },
                ..*old(self)
            }),
    {
        let ghost start = *self;
        let seen_key = Ghost(|s: Seen| (s.root_id@, s.generation@, s.candidate_id@));
        let other_seen = |s: &Seen| -> (b: bool)
            ensures
                b == (s.root_id@ != root@),
        {
            !same_text(s.root_id.as_str(), root)
        };
        retain(&mut self.journal.seen, other_seen, Ghost(seen_elsewhere(root@)));
        let other_refresh = |r: &Refresh| -> (b: bool)
            ensures
                b == (r.root_id@ != root@),
        {
            !same_text(r.root_id.as_str(), root)
        };
        retain(&mut self.journal.refreshes, other_refresh, Ghost(refresh_elsewhere(root@)));
        proof {
            filter_unique(start.journal.seen@, seen_elsewhere(root@), seen_key@);
            filter_rows(start.journal.seen@, seen_elsewhere(root@));
            filter_unique(
                start.journal.refreshes@,
                refresh_elsewhere(root@),
                |r: Refresh| r.root_id@,
            );
            filter_rows(start.journal.refreshes@, refresh_elsewhere(root@));
        }
        let fresh: Refresh = Refresh {
            root_id: root.to_owned(),
            scope,
            generation: generation.to_owned(),
        };
        let ghost refreshes = self.journal.refreshes@;
        let ghost added = fresh;
        self.journal.refreshes.push(fresh);
        proof {
            push_unique(refreshes, added, |r: Refresh| r.root_id@);
            assert(self.journal.refreshes@.drop_last() =~= refreshes);
        }
        let ghost old_seen = self.journal.seen@;
        let ghost wanted = answers_for(root@, *reach);
        let ghost rows = start.index.rows@;
        let mut i: usize = 0;
        assert(rows.take(0).filter(wanted) =~= seq![]) by {
            reveal(Seq::filter);
        }
        while i < self.index.rows.len()
            invariant
                i <= self.index.rows.len(),
                rows == start.index.rows@,
                self.index == start.index,
                wanted == answers_for(root@, *reach),
                start.wf(),
                unique(
                    self.journal.seen@,
                    |s: Seen| (s.root_id@, s.generation@, s.candidate_id@),
                ),
                self.journal.seen@.len() == old_seen.len() + rows.take(i as int).filter(
                    wanted,
                ).len(),
                self.journal.seen@.take(old_seen.len() as int) == old_seen,
                forall|j: int| 0 <= j < old_seen.len() ==> (#[trigger] old_seen[j]).root_id@ != root@,
                forall|j: int|
                    0 <= j < rows.take(i as int).filter(wanted).len() ==> awaited(
                        #[trigger] self.journal.seen@[old_seen.len() + j],
                        root@,
                        generation@,
                        rows.take(i as int).filter(wanted)[j].id@,
                    ),
                *self == (Store {
                    journal: Journal {
                        seen: self.journal.seen,
                        refreshes: self.journal.refreshes,
                        ..start.journal
                    },
                    ..start
                }),
                self.journal.refreshes@.len() > 0,
                self.journal.refreshes@.drop_last() == start.journal.refreshes@.filter(
                    refresh_elsewhere(root@),
                ),
                self.journal.refreshes@.last() == added,
                unique(self.journal.refreshes@, |r: Refresh| r.root_id@),
            decreases self.index.rows.len() - i,
        {
            let row: &IndexRow = &self.index.rows[i];
            let ghost now = rows.take(i as int).filter(wanted);
            proof {
                assert(rows.take(i + 1) =~= rows.take(i as int).push(rows[i as int]));
                filter_push(rows.take(i as int), rows[i as int], wanted);
                filter_rows(rows.take(i as int), wanted);
            }
            if same_text(row.root_id.as_str(), root) && reach.test(path_bytes(&row.path)) {
                let entry: Seen = Seen {
                    root_id: root.to_owned(),
                    generation: generation.to_owned(),
                    candidate_id: row.id.clone(),
                    seen: false,
                };
                let ghost seen = self.journal.seen@;
                let ghost next = entry;
                self.journal.seen.push(entry);
                proof {
                    assert forall|j: int| 0 <= j < seen.len() implies !((
                    #[trigger] seen[j]).root_id@ == next.root_id@ && seen[j].generation@
                        == next.generation@ && seen[j].candidate_id@ == next.candidate_id@) by {
                        if j < old_seen.len() {
                            assert(seen.take(old_seen.len() as int)[j] == old_seen[j]);
                        } else {
                            let m = j - old_seen.len();
                            assert(awaited(
                                seen[old_seen.len() + m],
                                root@,
                                generation@,
                                now[m].id@,
                            ));
                            let w = choose|w: int| 0 <= w < i && rows.take(i as int)[w] == now[m];
                            assert(rows[w].id@ != rows[i as int].id@);
                        }
                    }
                    seen_append_unique(seen, next);
                    assert(self.journal.seen@.take(old_seen.len() as int) =~= old_seen);
                    assert forall|j: int|
                        0 <= j < rows.take(i + 1).filter(wanted).len() implies awaited(
                        #[trigger] self.journal.seen@[old_seen.len() + j],
                        root@,
                        generation@,
                        rows.take(i + 1).filter(wanted)[j].id@,
                    ) by {
                        if j < now.len() {
                            assert(self.journal.seen@[old_seen.len() + j] == seen[old_seen.len()
                                + j]);
                        }
                    }
                }
            }
            i = i + 1;
        }
        assert(rows.take(i as int) =~= rows);
        let buried = |t: &Tombstone| -> (b: bool)
            ensures
                b == !(t.location matches Some(at) && at.root_id@ == root@ && reach.holds(
                    at.path@,
                )),
        {
            match &t.location {
                Some(at) => !(same_text(at.root_id.as_str(), root) && reach.test(
                    path_bytes(&at.path),
                )),
                None => true,
            }
        };
        retain(&mut self.index.tombstones, buried, Ghost(stays_buried(root@, *reach)));
        proof {
            filter_unique(
                start.index.tombstones@,
                stays_buried(root@, *reach),
                |t: Tombstone| t.id@,
            );
        }
    }
}

/// Whether a refresh of a root still awaits a finding.
pub open spec fn unmet(seen: Seq<Seen>, root: Seq<char>, generation: Seq<char>, id: Seq<char>) -> bool {
    exists|i: int| 0 <= i < seen.len() && awaited(#[trigger] seen[i], root, generation, id)
}

/// The findings that survive the complete end of a refresh.
pub open spec fn survives(seen: Seq<Seen>, root: Seq<char>, generation: Seq<char>) -> spec_fn(
    IndexRow,
) -> bool {
    |row: IndexRow| !(row.root_id@ == root && unmet(seen, root, generation, row.id@))
}

fn is_unmet(seen: &Vec<Seen>, root: &str, generation: &str, id: &str) -> (r: bool)
    ensures
        r == unmet(seen@, root@, generation@, id@),
{
    let mut i: usize = 0;
    while i < seen.len()
        invariant
            i <= seen.len(),
            forall|j: int|
                0 <= j < i ==> !awaited(#[trigger] seen@[j], root@, generation@, id@),
        decreases seen.len() - i,
    {
        if !seen[i].seen && same_text(seen[i].root_id.as_str(), root) && same_text(
            seen[i].generation.as_str(),
            generation,
        ) && same_text(seen[i].candidate_id.as_str(), id) {
            assert(awaited(seen@[i as int], root@, generation@, id@));
            return true;
        }
        i = i + 1;
    }
    false
}

/// Fewer rows are charged no more.
pub proof fn payload_filter(rows: Seq<IndexRow>, keep: spec_fn(IndexRow) -> bool)
    ensures
        0 <= payload(rows.filter(keep)) <= payload(rows),
    decreases rows.len(),
{
    reveal(Seq::filter);
    if rows.len() > 0 {
        let front = rows.drop_last();
        payload_filter(front, keep);
        assert(rows =~= front.push(rows.last()));
        filter_push(front, rows.last(), keep);
        if keep(rows.last()) {
            assert(rows.filter(keep).drop_last() =~= front.filter(keep));
        }
    }
}

pub proof fn payload_prefix(rows: Seq<IndexRow>, n: int)
    requires
        0 <= n <= rows.len(),
    ensures
        0 <= payload(rows.take(n)) <= payload(rows),
    decreases rows.len(),
{
    if n == rows.len() {
        assert(rows.take(n) =~= rows);
        if n > 0 {
            payload_prefix(rows.drop_last(), n - 1);
        }
    } else {
        payload_prefix(rows.drop_last(), n);
        assert(rows.drop_last().take(n) =~= rows.take(n));
    }
}

impl Index {
    /// Everything but the counters.
    pub open spec fn tables_wf(self) -> bool {
        &&& unique(self.rows@, |r: IndexRow| r.id@)
        &&& unique(self.rows@, |r: IndexRow| r.path@)
        &&& unique(self.tombstones@, |t: Tombstone| t.id@)
        &&& unique(self.limited@, |l: Limited| l.root_id@)
    }

    /// Sets the counters to what the rows are charged.
    pub(crate) fn recount(&mut self)
        requires
            old(self).tables_wf(),
            payload(old(self).rows@) <= i64::MAX,
        ensures
            final(self).wf(),
            *final(self) == (Index {
                row_count: final(self).row_count,
                payload_bytes: final(self).payload_bytes,
                ..*old(self)
            }),
    {
        let mut total: u64 = 0;
        let mut i: usize = 0;
        while i < self.rows.len()
            invariant
                i <= self.rows.len(),
                total == payload(self.rows@.take(i as int)),
                payload(self.rows@) <= i64::MAX,
                *self == *old(self),
            decreases self.rows.len() - i,
        {
            proof {
                assert(self.rows@.take(i + 1).drop_last() =~= self.rows@.take(i as int));
                assert(self.rows@.take(i + 1).last() == self.rows@[i as int]);
                payload_prefix(self.rows@, i + 1);
            }
            total = total + self.rows[i].json.len() as u64 + self.rows[i].path.len() as u64
                + crate::store::CANDIDATE_PAYLOAD_OVERHEAD;
            i = i + 1;
        }
        assert(self.rows@.take(i as int) =~= self.rows@);
        self.row_count = self.rows.len() as u64;
        self.payload_bytes = total;
    }

    /// Drops the rows that a test rejects, and recounts.
    pub(crate) fn keep_rows<F: Fn(&IndexRow) -> bool>(
        &mut self,
        keep: F,
        Ghost(wanted): Ghost<spec_fn(IndexRow) -> bool>,
    ) -> (removed: usize)
        requires
            old(self).wf(),
            forall|row: IndexRow| call_requires(keep, (&row,)),
            forall|row: IndexRow, b: bool| call_ensures(keep, (&row,), b) ==> b == wanted(row),
        ensures
            final(self).wf(),
            final(self).rows@ == old(self).rows@.filter(wanted),
            removed == old(self).rows@.len() - final(self).rows@.len(),
            *final(self) == (Index {
                rows: final(self).rows,
                row_count: final(self).row_count,
                payload_bytes: final(self).payload_bytes,
                ..*old(self)
            }),
    {
        let ghost before = self.rows@;
        let removed: usize = retain(&mut self.rows, keep, Ghost(wanted));
        proof {
            filter_unique(before, wanted, |r: IndexRow| r.id@);
            filter_unique(before, wanted, |r: IndexRow| r.path@);
            payload_filter(before, wanted);
        }
        self.recount();
        removed
    }
}

/// What the end of a refresh does to the journal and the index: only a complete
/// pass removes the findings that it did not meet.
pub open spec fn ended(
    before: Store,
    after: Store,
    root: Seq<char>,
    generation: Seq<char>,
    complete: bool,
) -> bool {
    &&& after.journal.seen@ == before.journal.seen@.filter(seen_elsewhere(root))
    &&& after.journal.refreshes@ == before.journal.refreshes@.filter(refresh_elsewhere(root))
    &&& complete ==> after.index.rows@ == before.index.rows@.filter(
        survives(before.journal.seen@, root, generation),
    )
    &&& !complete ==> after.index == before.index
    &&& after.index == (Index {
        rows: after.index.rows,
        row_count: after.index.row_count,
        payload_bytes: after.index.payload_bytes,
        ..before.index
    })
}

impl Store {
    pub(crate) fn end_refresh(&mut self, root: &str, generation: &str, complete: bool)
        requires
            old(self).wf(),
        ensures
            final(self).wf(),
            ended(*old(self), *final(self), root@, generation@, complete),
            *final(self) == (Store {
                journal: Journal {
                    seen: final(self).journal.seen,
                    refreshes: final(self).journal.refreshes,
                    ..old(self).journal
                },
                index: final(self).index,
                ..*old(self)
            }),
    {
        let ghost start = *self;
        if complete {
            let seen: &Vec<Seen> = &self.journal.seen;
            let met = |row: &IndexRow| -> (b: bool)
                ensures
                    b == !(row.root_id@ == root@ && unmet(
                        seen@,
                        root@,
                        generation@,
                        row.id@,
                    )),
            {
                !(same_text(row.root_id.as_str(), root) && is_unmet(
                    seen,
                    root,
                    generation,
                    row.id.as_str(),
                ))
            };
            self.index.keep_rows(met, Ghost(survives(start.journal.seen@, root@, generation@)));
        }
        let other_seen = |s: &Seen| -> (b: bool)
            ensures
                b == (s.root_id@ != root@),
        {
            !same_text(s.root_id.as_str(), root)
        };
        retain(&mut self.journal.seen, other_seen, Ghost(seen_elsewhere(root@)));
        let other_refresh = |r: &Refresh| -> (b: bool)
            ensures
                b == (r.root_id@ != root@),
        {
            !same_text(r.root_id.as_str(), root)
        };
        retain(&mut self.journal.refreshes, other_refresh, Ghost(refresh_elsewhere(root@)));
        proof {
            filter_unique(
                start.journal.seen@,
                seen_elsewhere(root@),
                |s: Seen| (s.root_id@, s.generation@, s.candidate_id@),
            );
            filter_unique(
                start.journal.refreshes@,
                refresh_elsewhere(root@),
                |r: Refresh| r.root_id@,
            );
        }
    }
}


/// The exact scope of a refresh: the canonical path, or the whole root.
pub open spec fn scope_view(scope: Option<FsPath>) -> Option<Seq<u8>> {
    match scope {
        Some(path) => Some(path@),
        None => None,
    }
}

/// The canonical form of an optional scope.
pub open spec fn scope_choice(scope: Option<FsPath>) -> Result<Option<Seq<u8>>, Seq<char>> {
    match scope {
        Some(path) => match scope_outcome(path@) {
            Ok(canonical) => Ok(Some(canonical)),
            Err(reason) => Err(reason),
        },
        None => Ok(None),
    }
}

fn choose_scope(scope: &Option<FsPath>) -> (r: Result<Option<FsPath>, String>)
    ensures
        match scope_choice(*scope) {
            Ok(canonical) => r matches Ok(path) && scope_view(path) == canonical,
            Err(reason) => failed(r, reason),
        },
{
    match scope {
        Some(path) => match scope_path(path_bytes(path)) {
            Ok(canonical) => Ok(Some(canonical)),
            Err(reason) => Err(reason),
        },
        None => Ok(None),
    }
}

/// How far a refresh of a scope reaches.
pub open spec fn reach_of(scope: Option<FsPath>) -> Reach {
    match scope {
        Some(path) => Reach::Around(path),
        None => Reach::All,
    }
}

fn reach_from(scope: &Option<FsPath>) -> (r: Reach)
    ensures
        r == reach_of(*scope),
{
    match scope {
        Some(path) => Reach::Around(share(path)),
        None => Reach::All,
    }
}

/// Whether two optional paths are the same.
fn same_scope(a: &Option<FsPath>, b: &Option<FsPath>) -> (r: bool)
    ensures
        r == (scope_view(*a) == scope_view(*b)),
{
    match (a, b) {
        (Some(a), Some(b)) => same_bytes(path_bytes(a), path_bytes(b)),
        (None, None) => true,
        _ => false,
    }
}

/// Whether the refresh at `i` is the one of this root and scope.
pub open spec fn refresh_at(
    refreshes: Seq<Refresh>,
    root: Seq<char>,
    scope: Option<Seq<u8>>,
    i: int,
) -> bool {
    &&& 0 <= i < refreshes.len()
    &&& refreshes[i].root_id@ == root
    &&& scope_view(refreshes[i].scope) == scope
}

pub(crate) fn find_refresh(refreshes: &Vec<Refresh>, root: &str, scope: &Option<FsPath>) -> (r: Option<usize>)
    ensures
        match r {
            Some(i) => refresh_at(refreshes@, root@, scope_view(*scope), i as int),
            None => forall|i: int|
                !#[trigger] refresh_at(refreshes@, root@, scope_view(*scope), i),
        },
{
    let mut i: usize = 0;
    while i < refreshes.len()
        invariant
            i <= refreshes.len(),
            forall|j: int|
                0 <= j < i ==> !#[trigger] refresh_at(refreshes@, root@, scope_view(*scope), j),
        decreases refreshes.len() - i,
    {
        if same_text(refreshes[i].root_id.as_str(), root) && same_scope(
            &refreshes[i].scope,
            scope,
        ) {
            return Some(i);
        }
        i = i + 1;
    }
    None
}

/// The frame of what starting or ending a refresh may change.
pub open spec fn refresh_frame(before: Store, after: Store) -> bool {
    after == (Store {
        journal: Journal {
            seen: after.journal.seen,
            refreshes: after.journal.refreshes,
            ..before.journal
        },
        index: after.index,
        ..before
    })
}

impl Store {
    /// Keep the last completed result visible while its replacement is measured.
    /// The generation, which no other refresh has, tracks absence.
    pub fn begin_refresh(
        &mut self,
        root: &str,
        scope: Option<FsPath>,
        generation: &str,
    ) -> (r: Result<(), String>)
        requires
            old(self).wf(),
        ensures
            final(self).wf(),
            match scope_choice(scope) {
                Err(reason) => failed(r, reason) && *final(self) == *old(self),
                Ok(canonical) => {
                    let chosen = final(self).journal.refreshes@.last().scope;
                    &&& r is Ok
                    &&& scope_view(chosen) == canonical
                    &&& begun(
                        *old(self),
                        *final(self),
                        root@,
                        chosen,
                        generation@,
                        reach_of(chosen),
                    )
                    &&& refresh_frame(*old(self), *final(self))
                },
            },
    {
        let chosen: Option<FsPath> = match choose_scope(&scope) {
            Ok(chosen) => chosen,
            Err(reason) => {
                return Err(reason);
            },
        };
        let reach: Reach = reach_from(&chosen);
        self.start_refresh(root, chosen, generation, &reach);
        Ok(())
    }

    /// Ends the refresh of a scope. Only a complete one removes findings.
    pub fn finish_refresh(
        &mut self,
        root: &str,
        scope: Option<FsPath>,
        complete: bool,
    ) -> (r: Result<(), String>)
        requires
            old(self).wf(),
        ensures
            final(self).wf(),
            match scope_choice(scope) {
                Err(reason) => failed(r, reason) && *final(self) == *old(self),
                Ok(canonical) => match r {
                    Ok(_) => exists|i: int| #[trigger]
                        refresh_at(old(self).journal.refreshes@, root@, canonical, i) && ended(
                            *old(self),
                            *final(self),
                            root@,
                            old(self).journal.refreshes@[i].generation@,
                            complete,
                        ) && refresh_frame(*old(self), *final(self)),
                    Err(_) => {
                        &&& failed(
                            r,
                            "The completed refresh does not match its active scope"@,
                        )
                        &&& *final(self) == *old(self)
                        &&& forall|i: int|
                            !#[trigger] refresh_at(
                                old(self).journal.refreshes@,
                                root@,
                                canonical,
                                i,
                            )
                    },
                },
            },
    {
        let chosen: Option<FsPath> = match choose_scope(&scope) {
            Ok(chosen) => chosen,
            Err(reason) => {
                return Err(reason);
            },
        };
        match find_refresh(&self.journal.refreshes, root, &chosen) {
            None => fail("The completed refresh does not match its active scope"),
            Some(at) => {
                let generation: String = self.journal.refreshes[at].generation.clone();
                self.end_refresh(root, generation.as_str(), complete);
                Ok(())
            },
        }
    }
}

/// A finding that was met by no pass leaves only through a complete refresh
/// whose reach holds it: a pass that meets nothing removes exactly what it
/// answers for, and every other finding stays.
pub proof fn empty_pass_removes_its_reach(
    before: Store,
    begun_at: Store,
    after: Store,
    root: Seq<char>,
    scope: Option<FsPath>,
    generation: Seq<char>,
    reach: Reach,
)
    requires
        before.wf(),
        begun(before, begun_at, root, scope, generation, reach),
        ended(begun_at, after, root, generation, true),
    ensures
        after.index.rows@ == before.index.rows@.filter(
            |row: IndexRow| !answers_for(root, reach)(row),
        ),
{
    let rows = before.index.rows@;
    let captured = rows.filter(answers_for(root, reach));
    let seen = begun_at.journal.seen@;
    let others = before.journal.seen@.filter(seen_elsewhere(root));
    filter_holds(rows, answers_for(root, reach));
    filter_rows(rows, answers_for(root, reach));
    filter_rows(before.journal.seen@, seen_elsewhere(root));
    let a = survives(seen, root, generation);
    let b = |row: IndexRow| !answers_for(root, reach)(row);
    assert forall|i: int| 0 <= i < rows.len() implies a(#[trigger] rows[i]) == b(rows[i]) by {
        let row = rows[i];
        if answers_for(root, reach)(row) {
            assert(rows.contains(row));
            assert(captured.contains(row));
            let j = choose|j: int| 0 <= j < captured.len() && captured[j] == row;
            assert(awaited(seen[others.len() + j], root, generation, captured[j].id@));
            assert(unmet(seen, root, generation, row.id@));
        } else if row.root_id@ == root && unmet(seen, root, generation, row.id@) {
            let k = choose|k: int|
                0 <= k < seen.len() && awaited(#[trigger] seen[k], root, generation, row.id@);
            if k < others.len() {
                assert(seen.take(others.len() as int)[k] == seen[k]);
                assert(others[k].root_id@ != root);
            } else {
                let j = k - others.len();
                assert(awaited(seen[others.len() + j], root, generation, captured[j].id@));
                let w = choose|w: int| 0 <= w < rows.len() && rows[w] == captured[j];
                assert(rows[w].id@ == rows[i].id@);
                assert(w == i);
            }
        }
    }
    crate::tables::filter_agrees(rows, a, b);
}

/// The last findings stay visible while a pass is made, and a pass that did not
/// get everywhere removes none of them.
pub proof fn findings_outlast_open_passes(
    before: Store,
    begun_at: Store,
    after: Store,
    root: Seq<char>,
    scope: Option<FsPath>,
    generation: Seq<char>,
    reach: Reach,
)
    requires
        begun(before, begun_at, root, scope, generation, reach),
        ended(begun_at, after, root, generation, false),
    ensures
        begun_at.index.rows@ == before.index.rows@,
        after.index.rows@ == before.index.rows@,
{
}

} // verus!
