//! Findings that a scan publishes: how a batch enters the index, and what has to
//! leave it when the budget is full.
use crate::model::{capped, Candidate, ScanBatch};
use crate::paths::{path_bytes, scope_outcome, scope_path, share, FsPath};
use crate::pnpm::texts;
use crate::store::coverage::marked;
use crate::store::refresh::{awaited, ended, payload_filter, payload_prefix, survives, unmet};
use crate::store::{
    payload, Admission, DerivedLimits, Index, IndexRow, Journal, Limited, Scope, Seen, Store,
    Tombstone, CANDIDATE_PAYLOAD_OVERHEAD,
};
use crate::tables::{
    filter_agrees, filter_all, filter_holds, filter_push, filter_rows, filter_single, filter_twice,
    filter_unique, filter_update, push_unique, retain, unique,
};
use crate::text::{fail, failed, same_bytes, same_text};
use vstd::prelude::*;
use vstd::slice::slice_to_vec;

verus! {

/// Whether the refresh of a root is at this place.
pub open spec fn refreshing_at(journal: Journal, root: Seq<char>, i: int) -> bool {
    0 <= i < journal.refreshes@.len() && journal.refreshes@[i].root_id@ == root
}

/// Whether a root is being refreshed.
pub open spec fn refreshing(journal: Journal, root: Seq<char>) -> bool {
    exists|i: int| #[trigger] refreshing_at(journal, root, i)
}

/// The generation of the refresh of a root.
pub open spec fn generation_of(journal: Journal, root: Seq<char>) -> Seq<char> {
    journal.refreshes@[choose|i: int| #[trigger] refreshing_at(journal, root, i)].generation@
}

/// The bookkeeping of other findings.
pub open spec fn other_seen(root: Seq<char>, generation: Seq<char>, id: Seq<char>) -> spec_fn(
    Seen,
) -> bool {
    |s: Seen| !(s.root_id@ == root && s.generation@ == generation && s.candidate_id@ == id)
}

/// The journal after the refresh of a root, if there is one, met a finding.
pub open spec fn met(before: Journal, after: Journal, root: Seq<char>, id: Seq<char>) -> bool {
    if refreshing(before, root) {
        let generation = generation_of(before, root);
        &&& after.seen@.len() > 0
        &&& after.seen@.drop_last() == before.seen@.filter(other_seen(root, generation, id))
        &&& after.seen@.last().root_id@ == root
        &&& after.seen@.last().generation@ == generation
        &&& after.seen@.last().candidate_id@ == id
        &&& after.seen@.last().seen
        &&& after == (Journal { seen: after.seen, ..before })
    } else {
        after == before
    }
}

impl Journal {
    /// Where the refresh of a root stands.
    pub(crate) fn find_generation(&self, root: &str) -> (r: Option<usize>)
        requires
            self.wf(),
        ensures
            match r {
                Some(i) => refreshing(*self, root@) && refreshing_at(*self, root@, i as int)
                    && generation_of(*self, root@) == self.refreshes@[i as int].generation@,
                None => !refreshing(*self, root@),
            },
    {
        let mut i: usize = 0;
        while i < self.refreshes.len()
            invariant
                i <= self.refreshes.len(),
                self.wf(),
                forall|j: int| 0 <= j < i ==> !#[trigger] refreshing_at(*self, root@, j),
            decreases self.refreshes.len() - i,
        {
            if same_text(self.refreshes[i].root_id.as_str(), root) {
                proof {
                    assert(refreshing_at(*self, root@, i as int));
                    let c = choose|c: int| #[trigger] refreshing_at(*self, root@, c);
                    if c < i {
                        assert(self.refreshes@[c].root_id@ != self.refreshes@[i as int].root_id@);
                    } else if i < c {
                        assert(self.refreshes@[i as int].root_id@ != self.refreshes@[c].root_id@);
                    }
                }
                return Some(i);
            }
            i = i + 1;
        }
        None
    }

    /// Notes that the refresh of a root met a finding.
    pub(crate) fn meet(&mut self, root: &str, id: &str)
        requires
            old(self).wf(),
        ensures
            final(self).wf(),
            met(*old(self), *final(self), root@, id@),
    {
        let ghost start = *self;
        match self.find_generation(root) {
            None => {},
            Some(at) => {
                let generation: String = self.refreshes[at].generation.clone();
                let stays = |s: &Seen| -> (b: bool)
                    ensures
                        b == !(s.root_id@ == root@ && s.generation@ == generation@
                            && s.candidate_id@ == id@),
                {
                    !(same_text(s.root_id.as_str(), root) && same_text(
                        s.generation.as_str(),
                        generation.as_str(),
                    ) && same_text(s.candidate_id.as_str(), id))
                };
                let ghost keep = other_seen(root@, generation@, id@);
                retain(&mut self.seen, stays, Ghost(keep));
                let ghost left = self.seen@;
                let row: Seen = Seen {
                    root_id: root.to_owned(),
                    generation: generation.clone(),
                    candidate_id: id.to_owned(),
                    seen: true,
                };
                let ghost added = row;
                self.seen.push(row);
                proof {
                    let key = |s: Seen| (s.root_id@, s.generation@, s.candidate_id@);
                    filter_unique(start.seen@, keep, key);
                    filter_rows(start.seen@, keep);
                    push_unique(left, added, key);
                    assert(self.seen@.drop_last() =~= left);
                }
            },
        }
    }
}

/// The tombstones after a late batch told where a suppressed finding lies.
pub open spec fn located(
    before: Seq<Tombstone>,
    after: Seq<Tombstone>,
    id: Seq<char>,
    root: Seq<char>,
    path: Seq<u8>,
) -> bool {
    &&& after.len() == before.len()
    &&& forall|i: int|
        0 <= i < before.len() ==> if before[i].id@ == id && before[i].location is None {
            &&& (#[trigger] after[i]).id == before[i].id
            &&& after[i].location matches Some(at) && at.key() == (root, path)
        } else {
            after[i] == before[i]
        }
}

/// Whether a finding is suppressed.
pub open spec fn buried(index: Index, id: Seq<char>) -> bool {
    exists|i: int| 0 <= i < index.tombstones@.len() && (#[trigger] index.tombstones@[i]).id@ == id
}

/// The rows that a finding takes the place of: those with its id or its path.
pub open spec fn unrelated(id: Seq<char>, path: Seq<u8>) -> spec_fn(IndexRow) -> bool {
    |r: IndexRow| r.id@ != id && r.path@ != path
}

/// The rows that do not hold the finding's path under another id.
pub open spec fn unopposed(id: Seq<char>, path: Seq<u8>) -> spec_fn(IndexRow) -> bool {
    |r: IndexRow| !(r.path@ == path && r.id@ != id)
}

/// Where the row with an id stands.
pub open spec fn row_at(rows: Seq<IndexRow>, id: Seq<char>, i: int) -> bool {
    0 <= i < rows.len() && rows[i].id@ == id
}

/// The rows after a finding entered: it takes the place of the row with its id,
/// and no other row keeps its path.
pub open spec fn placed(rows: Seq<IndexRow>, row: IndexRow) -> Seq<IndexRow> {
    let left = rows.filter(unopposed(row.id@, row.path@));
    if exists|i: int| #[trigger] row_at(left, row.id@, i) {
        left.update(choose|i: int| #[trigger] row_at(left, row.id@, i), row)
    } else {
        left.push(row)
    }
}

/// Whether a row holds exactly this finding.
pub open spec fn row_is(row: IndexRow, c: Candidate, path: Seq<u8>, json: Seq<u8>) -> bool {
    &&& row.id@ == c.id@
    &&& row.root_id@ == c.root_id@
    &&& row.path@ == path
    &&& row.candidate == c
    &&& row.json@ == json
}

/// What a finding is charged.
pub open spec fn charge(path: Seq<u8>, json: Seq<u8>) -> int {
    json.len() + path.len() + CANDIDATE_PAYLOAD_OVERHEAD
}

/// How many rows there are with the finding.
pub open spec fn projected_rows(rows: Seq<IndexRow>, id: Seq<char>, path: Seq<u8>) -> int {
    rows.filter(unrelated(id, path)).len() as int + 1
}

/// What the rows are charged with the finding.
pub open spec fn projected_bytes(
    rows: Seq<IndexRow>,
    id: Seq<char>,
    path: Seq<u8>,
    json: Seq<u8>,
) -> int {
    payload(rows.filter(unrelated(id, path))) + charge(path, json)
}

/// Whether the index holds the finding already, letter for letter.
pub open spec fn unchanged(rows: Seq<IndexRow>, path: Seq<u8>, json: Seq<u8>) -> bool {
    exists|i: int|
        0 <= i < rows.len() && (#[trigger] rows[i]).path@ == path && rows[i].json@ == json
}

/// Whether the index with the finding stays within the budget.
pub open spec fn fits(
    index: Index,
    limits: DerivedLimits,
    id: Seq<char>,
    path: Seq<u8>,
    json: Seq<u8>,
) -> bool {
    &&& json.len() <= limits.max_candidate_json_bytes
    &&& projected_rows(index.rows@, id, path) <= limits.max_candidate_rows
    &&& projected_bytes(index.rows@, id, path, json) <= limits.max_candidate_payload_bytes
}

/// What a place in the index lacks.
pub open spec fn shortfall(projected: int, limit: int, now: int) -> int {
    if projected > limit && projected > now {
        projected - now
    } else {
        0
    }
}

pub open spec fn larger(a: int, b: int) -> int {
    if a < b {
        b
    } else {
        a
    }
}

/// Why a finding was not admitted.
pub open spec fn omission_reason(limits: DerivedLimits, json: Seq<u8>) -> Seq<char> {
    if json.len() > limits.max_candidate_json_bytes {
        "candidate row exceeds the derived JSON limit"@
    } else {
        "derived candidate budget is full"@
    }
}

/// One more omission of a root.
pub open spec fn limited_noted(
    before: Seq<Limited>,
    after: Seq<Limited>,
    root: Seq<char>,
    rows: int,
    bytes: int,
    reason: Seq<char>,
) -> bool {
    if exists|i: int| 0 <= i < before.len() && (#[trigger] before[i]).root_id@ == root {
        &&& after.len() == before.len()
        &&& forall|i: int|
            0 <= i < before.len() ==> if before[i].root_id@ == root {
                &&& (#[trigger] after[i]).root_id@ == root
                &&& after[i].rows == capped(before[i].rows + rows)
                &&& after[i].bytes == capped(before[i].bytes + bytes)
                &&& after[i].reason@ == reason
            } else {
                after[i] == before[i]
            }
    } else {
        &&& after.len() == before.len() + 1
        &&& after.drop_last() == before
        &&& after.last().root_id@ == root
        &&& after.last().rows == rows
        &&& after.last().bytes == bytes
        &&& after.last().reason@ == reason
    }
}

/// One more omission of a refresh.
pub open spec fn admission_noted(
    before: Seq<Admission>,
    after: Seq<Admission>,
    root: Seq<char>,
    generation: Seq<char>,
    bytes: int,
    reason: Seq<char>,
) -> bool {
    if exists|i: int|
        0 <= i < before.len() && (#[trigger] before[i]).root_id@ == root && before[i].generation@
            == generation {
        &&& after.len() == before.len()
        &&& forall|i: int|
            0 <= i < before.len() ==> if before[i].root_id@ == root && before[i].generation@
                == generation {
                &&& (#[trigger] after[i]).root_id@ == root
                &&& after[i].generation@ == generation
                &&& after[i].rows == capped(before[i].rows + 1)
                &&& after[i].bytes == capped(before[i].bytes + bytes)
                &&& after[i].reason@ == reason
            } else {
                after[i] == before[i]
            }
    } else {
        &&& after.len() == before.len() + 1
        &&& after.drop_last() == before
        &&& after.last().root_id@ == root
        &&& after.last().generation@ == generation
        &&& after.last().rows == 1
        &&& after.last().bytes == bytes
        &&& after.last().reason@ == reason
    }
}

/// The store after a finding could not be admitted: the root lacks coverage, the
/// omission is counted, and a finding that could fit on its own asks for room.
pub open spec fn omitted(
    before: Store,
    after: Store,
    c: Candidate,
    path: Seq<u8>,
    json: Seq<u8>,
) -> bool {
    let limits = before.limits;
    let could_fit = json.len() <= limits.max_candidate_json_bytes && charge(path, json)
        <= limits.max_candidate_payload_bytes && limits.max_candidate_rows != 0;
    let reason = omission_reason(limits, json);
    &&& after.index.row_headroom == larger(
        before.index.row_headroom as int,
        if could_fit {
            shortfall(
                projected_rows(before.index.rows@, c.id@, path),
                limits.max_candidate_rows as int,
                before.index.row_count as int,
            )
        } else {
            0
        },
    )
    &&& after.index.byte_headroom == larger(
        before.index.byte_headroom as int,
        if could_fit {
            shortfall(
                projected_bytes(before.index.rows@, c.id@, path, json),
                limits.max_candidate_payload_bytes as int,
                before.index.payload_bytes as int,
            )
        } else {
            0
        },
    )
    &&& limited_noted(
        before.index.limited@,
        after.index.limited@,
        c.root_id@,
        1,
        charge(path, json),
        reason,
    )
    &&& if refreshing(before.journal, c.root_id@) {
        admission_noted(
            before.journal.admissions@,
            after.journal.admissions@,
            c.root_id@,
            generation_of(before.journal, c.root_id@),
            charge(path, json),
            reason,
        )
    } else {
        after.journal.admissions == before.journal.admissions
    }
    &&& texts(after.journal.incomplete@) == marked(texts(before.journal.incomplete@), c.root_id@)
    &&& after == (Store {
        journal: Journal {
            admissions: after.journal.admissions,
            incomplete: after.journal.incomplete,
            ..before.journal
        },
        index: Index {
            row_headroom: after.index.row_headroom,
            byte_headroom: after.index.byte_headroom,
            limited: after.index.limited,
            ..before.index
        },
        ..before
    })
}

/// What one finding of a batch does to the store.
pub open spec fn entered(
    before: Store,
    after: Store,
    c: Candidate,
    path: Seq<u8>,
    json: Seq<u8>,
) -> bool {
    exists|told: Store|
        {
            &&& #[trigger] located(
                before.index.tombstones@,
                told.index.tombstones@,
                c.id@,
                c.root_id@,
                path,
            )
            &&& told == (Store {
                index: Index { tombstones: told.index.tombstones, ..before.index },
                ..before
            })
            &&& if c.provisional || unchanged(before.index.rows@, path, json) {
                &&& met(told.journal, after.journal, c.root_id@, c.id@)
                &&& after == (Store { journal: after.journal, ..told })
            } else if !fits(told.index, told.limits, c.id@, path, json) {
                omitted(told, after, c, path, json)
            } else {
                &&& met(told.journal, after.journal, c.root_id@, c.id@)
                &&& if buried(told.index, c.id@) {
                    after == (Store { journal: after.journal, ..told })
                } else {
                    &&& exists|row: IndexRow| #[trigger]
                        row_is(row, c, path, json) && after.index.rows@ == placed(
                            told.index.rows@,
                            row,
                        )
                    &&& after == (Store {
                        journal: after.journal,
                        index: Index {
                            rows: after.index.rows,
                            row_count: after.index.row_count,
                            payload_bytes: after.index.payload_bytes,
                            ..told.index
                        },
                        ..told
                    })
                }
            }
        }
}


/// The payload of a list whose row was exchanged.
proof fn payload_update(rows: Seq<IndexRow>, i: int, row: IndexRow)
    requires
        0 <= i < rows.len(),
    ensures
        payload(rows.update(i, row)) == payload(rows) - rows[i].weight() + row.weight(),
    decreases rows.len(),
{
    let out = rows.update(i, row);
    if i == rows.len() - 1 {
        assert(out.drop_last() =~= rows.drop_last());
    } else {
        payload_update(rows.drop_last(), i, row);
        assert(out.drop_last() =~= rows.drop_last().update(i, row));
        assert(out.last() == rows.last());
    }
}

/// A list is charged what its two halves are charged.
proof fn payload_split(rows: Seq<IndexRow>, keep: spec_fn(IndexRow) -> bool)
    ensures
        payload(rows) == payload(rows.filter(keep)) + payload(
            rows.filter(|r: IndexRow| !keep(r)),
        ),
        rows.len() == rows.filter(keep).len() + rows.filter(|r: IndexRow| !keep(r)).len(),
    decreases rows.len(),
{
    reveal(Seq::filter);
    let not = |r: IndexRow| !keep(r);
    if rows.len() > 0 {
        let front = rows.drop_last();
        let last = rows.last();
        payload_split(front, keep);
        assert(rows =~= front.push(last));
        filter_push(front, last, keep);
        filter_push(front, last, not);
        if keep(last) {
            assert(rows.filter(keep).drop_last() =~= front.filter(keep));
        } else {
            assert(rows.filter(not).drop_last() =~= front.filter(not));
        }
    }
}

/// What entering a finding does to the counts, and that ids and paths stay
/// distinct.
proof fn placed_counts(rows: Seq<IndexRow>, row: IndexRow)
    requires
        unique(rows, |r: IndexRow| r.id@),
        unique(rows, |r: IndexRow| r.path@),
    ensures
        placed(rows, row).len() == rows.filter(unrelated(row.id@, row.path@)).len() + 1,
        payload(placed(rows, row)) == payload(rows.filter(unrelated(row.id@, row.path@)))
            + row.weight(),
        unique(placed(rows, row), |r: IndexRow| r.id@),
        unique(placed(rows, row), |r: IndexRow| r.path@),
{
    let id = row.id@;
    let path = row.path@;
    let free = unopposed(id, path);
    let away = unrelated(id, path);
    let near = |r: IndexRow| !away(r);
    let left = rows.filter(free);
    let out = placed(rows, row);
    filter_unique(rows, free, |r: IndexRow| r.id@);
    filter_unique(rows, free, |r: IndexRow| r.path@);
    filter_rows(rows, free);
    filter_twice(rows, free, away);
    filter_agrees(rows, |r: IndexRow| free(r) && away(r), away);
    assert(left.filter(away) == rows.filter(away));
    if exists|i: int| #[trigger] row_at(left, id, i) {
        let i = choose|i: int| #[trigger] row_at(left, id, i);
        assert(out == left.update(i, row));
        filter_update(left, i, row, away);
        assert forall|j: int| 0 <= j < out.len() && j != i implies !near(#[trigger] out[j])
            && out[j].id@ != id && out[j].path@ != path by {
            assert(out[j] == left[j]);
            if j < i {
                assert(left[j].id@ != left[i].id@);
            } else {
                assert(left[i].id@ != left[j].id@);
            }
            assert(free(left[j]));
        }
        filter_single(out, i, near);
        payload_split(out, away);
        assert(payload(seq![row]) == row.weight()) by {
            assert(seq![row].drop_last() =~= seq![]);
            assert(payload(seq![]) == 0);
        }
        assert forall|a: int, b: int| 0 <= a < b < out.len() implies (#[trigger] out[a]).id@ != (
        #[trigger] out[b]).id@ by {
            if a != i && b != i {
                assert(left[a].id@ != left[b].id@);
            }
        }
        assert forall|a: int, b: int| 0 <= a < b < out.len() implies (#[trigger] out[a]).path@ != (
        #[trigger] out[b]).path@ by {
            if a != i && b != i {
                assert(left[a].path@ != left[b].path@);
            }
        }
    } else {
        assert forall|j: int| 0 <= j < left.len() implies away(#[trigger] left[j]) by {
            assert(free(left[j]));
            if left[j].id@ == id {
                assert(row_at(left, id, j));
            }
        }
        filter_all(left, away);
        assert(out.drop_last() =~= left);
        push_unique(left, row, |r: IndexRow| r.id@);
        push_unique(left, row, |r: IndexRow| r.path@);
    }
}

/// What the rows that a finding leaves in place amount to.
struct Remainder {
    rows: u64,
    bytes: u64,
}

impl Index {
    /// Counts the rows that a finding does not replace.
    fn remainder(&self, id: &str, path: &[u8]) -> (r: Remainder)
        requires
            self.wf(),
        ensures
            r.rows == self.rows@.filter(unrelated(id@, path@)).len(),
            r.bytes == payload(self.rows@.filter(unrelated(id@, path@))),
            r.bytes <= self.payload_bytes,
            r.rows <= self.row_count,
    {
        let ghost keep = unrelated(id@, path@);
        let ghost all = self.rows@;
        let mut rows: u64 = 0;
        let mut bytes: u64 = 0;
        let mut i: usize = 0;
        proof {
            assert(all.take(0).filter(keep) =~= seq![]) by {
                reveal(Seq::filter);
            }
            payload_filter(all, keep);
            filter_holds(all, keep);
        }
        while i < self.rows.len()
            invariant
                i <= self.rows.len(),
                self.wf(),
                all == self.rows@,
                keep == unrelated(id@, path@),
                rows == all.take(i as int).filter(keep).len(),
                rows <= i,
                bytes == payload(all.take(i as int).filter(keep)),
            decreases self.rows.len() - i,
        {
            let row: &IndexRow = &self.rows[i];
            proof {
                assert(all.take(i + 1) =~= all.take(i as int).push(all[i as int]));
                filter_push(all.take(i as int), all[i as int], keep);
                payload_prefix(all, i + 1);
                payload_filter(all.take(i + 1), keep);
                if keep(all[i as int]) {
                    assert(all.take(i + 1).filter(keep).drop_last() =~= all.take(
                        i as int,
                    ).filter(keep));
                }
            }
            if !same_text(row.id.as_str(), id) && !same_bytes(path_bytes(&row.path), path) {
                rows = rows + 1;
                bytes = bytes + row.json.len() as u64 + row.path.len() as u64
                    + CANDIDATE_PAYLOAD_OVERHEAD;
            }
            i = i + 1;
        }
        assert(all.take(i as int) =~= all);
        Remainder { rows, bytes }
    }

    /// Whether the index holds a finding letter for letter.
    fn holds(&self, path: &[u8], json: &[u8]) -> (r: bool)
        ensures
            r == unchanged(self.rows@, path@, json@),
    {
        let mut i: usize = 0;
        while i < self.rows.len()
            invariant
                i <= self.rows.len(),
                forall|j: int|
                    0 <= j < i ==> !((#[trigger] self.rows@[j]).path@ == path@ && self.rows@[j].json@
                        == json@),
            decreases self.rows.len() - i,
        {
            if same_bytes(path_bytes(&self.rows[i].path), path) && same_bytes(
                self.rows[i].json.as_slice(),
                json,
            ) {
                return true;
            }
            i = i + 1;
        }
        false
    }

    pub(crate) fn is_buried(&self, id: &str) -> (r: bool)
        ensures
            r == buried(*self, id@),
    {
        let mut i: usize = 0;
        while i < self.tombstones.len()
            invariant
                i <= self.tombstones.len(),
                forall|j: int| 0 <= j < i ==> (#[trigger] self.tombstones@[j]).id@ != id@,
            decreases self.tombstones.len() - i,
        {
            if same_text(self.tombstones[i].id.as_str(), id) {
                return true;
            }
            i = i + 1;
        }
        false
    }

    /// Records where a suppressed finding lies.
    fn locate_tombstone(&mut self, id: &str, root: &str, path: &FsPath)
        requires
            old(self).wf(),
        ensures
            final(self).wf(),
            located(old(self).tombstones@, final(self).tombstones@, id@, root@, path@),
            *final(self) == (Index { tombstones: final(self).tombstones, ..*old(self) }),
    {
        let ghost before = self.tombstones@;
        let mut i: usize = 0;
        while i < self.tombstones.len()
            invariant
                i <= self.tombstones.len(),
                old(self).wf(),
                before == old(self).tombstones@,
                self.tombstones@.len() == before.len(),
                *self == (Index { tombstones: self.tombstones, ..*old(self) }),
                forall|j: int|
                    0 <= j < i ==> if before[j].id@ == id@ && before[j].location is None {
                        &&& (#[trigger] self.tombstones@[j]).id == before[j].id
                        &&& self.tombstones@[j].location matches Some(at) && at.key() == (
                            root@,
                            path@,
                        )
                    } else {
                        self.tombstones@[j] == before[j]
                    },
                forall|j: int| i <= j < before.len() ==> self.tombstones@[j] == before[j],
            decreases self.tombstones.len() - i,
        {
            if self.tombstones[i].location.is_none() && same_text(
                self.tombstones[i].id.as_str(),
                id,
            ) {
                let told: Tombstone = Tombstone {
                    id: self.tombstones[i].id.clone(),
                    location: Some(Scope { root_id: root.to_owned(), path: share(path) }),
                };
                self.tombstones.set(i, told);
            }
            i = i + 1;
        }
        proof {
            let now = self.tombstones@;
            assert forall|a: int, b: int| 0 <= a < b < now.len() implies (#[trigger] now[a]).id@
                != (#[trigger] now[b]).id@ by {
                assert(before[a].id@ != before[b].id@);
            }
        }
    }

    /// Enters a finding.
    fn place(&mut self, row: IndexRow)
        requires
            old(self).wf(),
            payload(old(self).rows@.filter(unrelated(row.id@, row.path@))) + row.weight()
                <= i64::MAX,
        ensures
            final(self).wf(),
            final(self).rows@ == placed(old(self).rows@, row),
            *final(self) == (Index {
                rows: final(self).rows,
                row_count: final(self).row_count,
                payload_bytes: final(self).payload_bytes,
                ..*old(self)
            }),
    {
        let ghost start = self.rows@;
        let ghost added = row;
        let ghost free = unopposed(row.id@, row.path@);
        proof {
            placed_counts(start, row);
        }
        let stays = |r: &IndexRow| -> (b: bool)
            ensures
                b == !(r.path@ == row.path@ && r.id@ != row.id@),
        {
            !(same_bytes(path_bytes(&r.path), path_bytes(&row.path)) && !same_text(
                r.id.as_str(),
                row.id.as_str(),
            ))
        };
        retain(&mut self.rows, stays, Ghost(free));
        let ghost left = self.rows@;
        let mut at: Option<usize> = None;
        let mut i: usize = 0;
        while i < self.rows.len() && at.is_none()
            invariant
                i <= self.rows.len(),
                left == self.rows@,
                added == row,
                match at {
                    Some(a) => row_at(left, row.id@, a as int),
                    None => forall|j: int| 0 <= j < i ==> !#[trigger] row_at(left, row.id@, j),
                },
                *self == (Index { rows: self.rows, ..*old(self) }),
            decreases self.rows.len() - i,
        {
            if same_text(self.rows[i].id.as_str(), row.id.as_str()) {
                assert(row_at(left, row.id@, i as int));
                at = Some(i);
            }
            i = i + 1;
        }
        match at {
            Some(a) => {
                proof {
                    filter_unique(start, free, |r: IndexRow| r.id@);
                    let c = choose|c: int| #[trigger] row_at(left, row.id@, c);
                    if c < a {
                        assert(left[c].id@ != left[a as int].id@);
                    } else if a < c {
                        assert(left[a as int].id@ != left[c].id@);
                    }
                }
                self.rows.set(a, row);
            },
            None => {
                self.rows.push(row);
            },
        }
        assert(self.rows@ == placed(start, added));
        self.recount();
    }

    /// Counts an omission of a root.
    pub(crate) fn note_limited(&mut self, root: &str, rows: u64, bytes: u64, reason: &str)
        requires
            old(self).wf(),
        ensures
            final(self).wf(),
            limited_noted(
                old(self).limited@,
                final(self).limited@,
                root@,
                rows as int,
                bytes as int,
                reason@,
            ),
            *final(self) == (Index { limited: final(self).limited, ..*old(self) }),
    {
        let ghost before = self.limited@;
        let mut i: usize = 0;
        while i < self.limited.len()
            invariant
                i <= self.limited.len(),
                old(self).wf(),
                *self == *old(self),
                before == self.limited@,
                forall|j: int| 0 <= j < i ==> (#[trigger] before[j]).root_id@ != root@,
            decreases self.limited.len() - i,
        {
            if same_text(self.limited[i].root_id.as_str(), root) {
                let next: Limited = Limited {
                    root_id: root.to_owned(),
                    rows: self.limited[i].rows.saturating_add(rows),
                    bytes: self.limited[i].bytes.saturating_add(bytes),
                    reason: reason.to_owned(),
                };
                self.limited.set(i, next);
                proof {
                    let now = self.limited@;
                    assert forall|a: int, b: int| 0 <= a < b < now.len() implies (
                    #[trigger] now[a]).root_id@ != (#[trigger] now[b]).root_id@ by {
                        assert(before[a].root_id@ != before[b].root_id@);
                    }
                    assert(before[i as int].root_id@ == root@);
                    assert forall|j: int| 0 <= j < before.len() && j != i implies (
                    #[trigger] before[j]).root_id@ != root@ by {
                        if j > i {
                            assert(before[i as int].root_id@ != before[j].root_id@);
                        }
                    }
                }
                return ;
            }
            i = i + 1;
        }
        let row: Limited = Limited {
            root_id: root.to_owned(),
            rows,
            bytes,
            reason: reason.to_owned(),
        };
        let ghost added = row;
        self.limited.push(row);
        proof {
            push_unique(before, added, |l: Limited| l.root_id@);
            assert(self.limited@.drop_last() =~= before);
        }
    }
}

impl Journal {
    /// Counts an omission of a refresh.
    fn note_admission(&mut self, root: &str, generation: &str, bytes: u64, reason: &str)
        requires
            old(self).wf(),
        ensures
            final(self).wf(),
            admission_noted(
                old(self).admissions@,
                final(self).admissions@,
                root@,
                generation@,
                bytes as int,
                reason@,
            ),
            *final(self) == (Journal { admissions: final(self).admissions, ..*old(self) }),
    {
        let ghost before = self.admissions@;
        let mut i: usize = 0;
        while i < self.admissions.len()
            invariant
                i <= self.admissions.len(),
                old(self).wf(),
                *self == *old(self),
                before == self.admissions@,
                forall|j: int|
                    0 <= j < i ==> !((#[trigger] before[j]).root_id@ == root@
                        && before[j].generation@ == generation@),
            decreases self.admissions.len() - i,
        {
            if same_text(self.admissions[i].root_id.as_str(), root) && same_text(
                self.admissions[i].generation.as_str(),
                generation,
            ) {
                let next: Admission = Admission {
                    root_id: root.to_owned(),
                    generation: generation.to_owned(),
                    rows: self.admissions[i].rows.saturating_add(1),
                    bytes: self.admissions[i].bytes.saturating_add(bytes),
                    reason: reason.to_owned(),
                };
                self.admissions.set(i, next);
                proof {
                    let now = self.admissions@;
                    let key = |a: Admission| (a.root_id@, a.generation@);
                    assert forall|a: int, b: int| 0 <= a < b < now.len() implies key(
                        #[trigger] now[a],
                    ) != key(#[trigger] now[b]) by {
                        assert(key(before[a]) != key(before[b]));
                    }
                    assert forall|j: int| 0 <= j < before.len() && j != i implies !((
                    #[trigger] before[j]).root_id@ == root@ && before[j].generation@
                        == generation@) by {
                        if j > i {
                            assert(key(before[i as int]) != key(before[j]));
                        }
                    }
                    assert(before[i as int].root_id@ == root@);
                }
                return ;
            }
            i = i + 1;
        }
        let row: Admission = Admission {
            root_id: root.to_owned(),
            generation: generation.to_owned(),
            rows: 1,
            bytes,
            reason: reason.to_owned(),
        };
        let ghost added = row;
        self.admissions.push(row);
        proof {
            push_unique(before, added, |a: Admission| (a.root_id@, a.generation@));
            assert(self.admissions@.drop_last() =~= before);
        }
    }
}


/// The store after the findings of a batch entered, one after the other.
pub open spec fn entered_all(
    before: Store,
    after: Store,
    findings: Seq<Candidate>,
    json: Seq<Vec<u8>>,
) -> bool
    decreases findings.len(),
{
    if findings.len() == 0 {
        after == before
    } else {
        exists|mid: Store|
            entered_all(before, mid, findings.drop_last(), json.drop_last()) && #[trigger] entered(
                mid,
                after,
                findings.last(),
                scope_outcome(findings.last().path@)->Ok_0,
                json.last()@,
            )
    }
}

/// Why a finding cannot be part of a batch, if it cannot. A charge is stored as
/// a signed integer.
pub open spec fn finding_failure(c: Candidate, json: Seq<u8>) -> Option<Seq<char>> {
    match scope_outcome(c.path@) {
        Err(reason) => Some(reason),
        Ok(path) => if !c.provisional && charge(path, json) > i64::MAX {
            Some("Derived candidate payload overflow"@)
        } else {
            None
        },
    }
}

/// Why a batch cannot be saved: the first reason, if there is one.
pub open spec fn batch_failure(findings: Seq<Candidate>, json: Seq<Vec<u8>>) -> Option<Seq<char>>
    decreases findings.len(),
{
    if findings.len() == 0 {
        None
    } else {
        match batch_failure(findings.drop_last(), json.drop_last()) {
            Some(reason) => Some(reason),
            None => finding_failure(findings.last(), json.last()@),
        }
    }
}

proof fn batch_failure_stays(findings: Seq<Candidate>, json: Seq<Vec<u8>>, n: int)
    requires
        0 <= n <= findings.len(),
        json.len() == findings.len(),
        batch_failure(findings.take(n), json.take(n)) is Some,
    ensures
        batch_failure(findings, json) == batch_failure(findings.take(n), json.take(n)),
    decreases findings.len(),
{
    if n == findings.len() {
        assert(findings.take(n) =~= findings);
        assert(json.take(n) =~= json);
    } else {
        assert(findings.drop_last().take(n) =~= findings.take(n));
        assert(json.drop_last().take(n) =~= json.take(n));
        batch_failure_stays(findings.drop_last(), json.drop_last(), n);
    }
}

/// Whether the first findings can enter, with these canonical paths.
pub open spec fn cleared(
    findings: Seq<Candidate>,
    json: Seq<Vec<u8>>,
    paths: Seq<FsPath>,
    n: int,
) -> bool {
    forall|j: int|
        0 <= j < n ==> {
            &&& finding_failure(#[trigger] findings[j], json[j]@) is None
            &&& paths[j]@ == scope_outcome(findings[j].path@)->Ok_0
        }
}

proof fn one_more(
    start: Store,
    mid: Store,
    after: Store,
    findings: Seq<Candidate>,
    json: Seq<Vec<u8>>,
    k: int,
)
    requires
        0 <= k < findings.len(),
        json.len() == findings.len(),
        entered_all(start, mid, findings.take(k), json.take(k)),
        entered(
            mid,
            after,
            findings[k],
            scope_outcome(findings[k].path@)->Ok_0,
            json[k]@,
        ),
    ensures
        entered_all(start, after, findings.take(k + 1), json.take(k + 1)),
{
    let upto = findings.take(k + 1);
    let rows = json.take(k + 1);
    assert(upto.drop_last() =~= findings.take(k));
    assert(rows.drop_last() =~= json.take(k));
    assert(entered(
        mid,
        after,
        upto.last(),
        scope_outcome(upto.last().path@)->Ok_0,
        rows.last()@,
    ));
}

impl Store {
    /// Enters one finding of a batch.
    #[verifier::rlimit(40)]
    fn enter(&mut self, c: &Candidate, path: &FsPath, json: &Vec<u8>)
        requires
            old(self).wf(),
            !c.provisional ==> charge(path@, json@) <= i64::MAX,
        ensures
            final(self).wf(),
            entered(*old(self), *final(self), *c, path@, json@),
    {
        let ghost start = *self;
        // A defensive suppression of an already-missing id can acquire its
        // scope from a late batch, while still rejecting that batch.
        self.index.locate_tombstone(c.id.as_str(), c.root_id.as_str(), path);
        let ghost told = *self;
        assert(located(
            start.index.tombstones@,
            told.index.tombstones@,
            c.id@,
            c.root_id@,
            path@,
        ));
        // An unchanged row consumes no additional budget and must be
        // acknowledged by the active refresh even when retention has left the
        // existing findings temporarily over the limit.
        if c.provisional || self.index.holds(path_bytes(path), json.as_slice()) {
            self.journal.meet(c.root_id.as_str(), c.id.as_str());
            return ;
        }
        let weight: u64 = json.len() as u64 + path.len() as u64 + CANDIDATE_PAYLOAD_OVERHEAD;
        let rest: Remainder = self.index.remainder(c.id.as_str(), path_bytes(path));
        let limits: DerivedLimits = self.limits;
        let too_long: bool = json.len() > limits.max_candidate_json_bytes;
        if too_long || rest.rows >= limits.max_candidate_rows || rest.bytes + weight
            > limits.max_candidate_payload_bytes {
            // Reserve headroom only for a finding that could fit on its own.
            // Oversized rows must not evict useful findings. This pressure is
            // separate from the persistent coverage warning and is consumed
            // after one low-water target.
            if !too_long && weight <= limits.max_candidate_payload_bytes
                && limits.max_candidate_rows != 0 {
                if rest.rows >= limits.max_candidate_rows && rest.rows >= self.index.row_count
                    && self.index.row_headroom < 1 {
                    self.index.row_headroom = 1;
                }
                if rest.bytes + weight > limits.max_candidate_payload_bytes && rest.bytes + weight
                    > self.index.payload_bytes {
                    let lack: u64 = rest.bytes + weight - self.index.payload_bytes;
                    if lack > self.index.byte_headroom {
                        self.index.byte_headroom = lack;
                    }
                }
            }
            let reason: &str = if too_long {
                "candidate row exceeds the derived JSON limit"
            } else {
                "derived candidate budget is full"
            };
            match self.journal.find_generation(c.root_id.as_str()) {
                Some(at) => {
                    let generation: String = self.journal.refreshes[at].generation.clone();
                    self.journal.note_admission(
                        c.root_id.as_str(),
                        generation.as_str(),
                        weight,
                        reason,
                    );
                },
                None => {},
            }
            self.index.note_limited(c.root_id.as_str(), 1, weight, reason);
            self.journal.mark_incomplete(c.root_id.as_str());
            assert(omitted(told, *self, *c, path@, json@));
            return ;
        }
        assert(fits(told.index, told.limits, c.id@, path@, json@));
        self.journal.meet(c.root_id.as_str(), c.id.as_str());
        if !self.index.is_buried(c.id.as_str()) {
            let row: IndexRow = IndexRow {
                id: c.id.clone(),
                root_id: c.root_id.clone(),
                path: share(path),
                candidate: c.copy(),
                json: slice_to_vec(json.as_slice()),
            };
            assert(row_is(row, *c, path@, json@));
            self.index.place(row);
        }
    }

    /// Saves the findings of a batch, each with the text it is stored as. All of
    /// them enter, or none.
    pub fn save_batch(&mut self, batch: &ScanBatch, json: &Vec<Vec<u8>>) -> (r: Result<(), String>)
        requires
            old(self).wf(),
            json@.len() == batch.candidates@.len(),
        ensures
            final(self).wf(),
            match batch_failure(batch.candidates@, json@) {
                Some(reason) => failed(r, reason) && *final(self) == *old(self),
                None => r is Ok && entered_all(
                    *old(self),
                    *final(self),
                    batch.candidates@,
                    json@,
                ),
            },
    {
        let ghost start = *self;
        let findings: &Vec<Candidate> = &batch.candidates;
        let ghost all = findings@;
        let mut paths: Vec<FsPath> = Vec::new();
        let mut i: usize = 0;
        while i < findings.len()
            invariant
                i <= findings.len(),
                all == findings@,
                all == batch.candidates@,
                json@.len() == all.len(),
                *self == *old(self),
                self.wf(),
                paths@.len() == i,
                batch_failure(all.take(i as int), json@.take(i as int)) is None,
                cleared(all, json@, paths@, i as int),
            decreases findings.len() - i,
        {
            let c: &Candidate = &findings[i];
            proof {
                assert(all.take(i + 1).drop_last() =~= all.take(i as int));
                assert(json@.take(i + 1).drop_last() =~= json@.take(i as int));
                assert(all.take(i + 1).last() == all[i as int]);
                assert(json@.take(i + 1).last() == json@[i as int]);
            }
            match scope_path(path_bytes(&c.path)) {
                Ok(path) => {
                    let text: usize = json[i].len();
                    let place: usize = path.len();
                    if !c.provisional && text as u128 + place as u128
                        + CANDIDATE_PAYLOAD_OVERHEAD as u128 > i64::MAX as u128 {
                        proof {
                            batch_failure_stays(all, json@, i + 1);
                        }
                        return fail("Derived candidate payload overflow");
                    }
                    paths.push(path);
                },
                Err(reason) => {
                    proof {
                        batch_failure_stays(all, json@, i + 1);
                    }
                    return Err(reason);
                },
            }
            i = i + 1;
        }
        proof {
            assert(all.take(i as int) =~= all);
            assert(json@.take(i as int) =~= json@);
        }
        let mut k: usize = 0;
        assert(all.take(0) =~= seq![]);
        while k < findings.len()
            invariant
                k <= findings.len(),
                all == findings@,
                json@.len() == all.len(),
                paths@.len() == all.len(),
                self.wf(),
                entered_all(start, *self, all.take(k as int), json@.take(k as int)),
                cleared(all, json@, paths@, all.len() as int),
            decreases findings.len() - k,
        {
            let ghost mid = *self;
            assert(finding_failure(all[k as int], json@[k as int]@) is None);
            self.enter(&findings[k], &paths[k], &json[k]);
            proof {
                one_more(start, mid, *self, all, json@, k as int);
            }
            k = k + 1;
        }
        proof {
            assert(all.take(k as int) =~= all);
            assert(json@.take(k as int) =~= json@);
        }
        Ok(())
    }
}

/// A suppressed finding stays out: a late batch changes no row while its
/// tombstone stands, and the tombstone keeps standing.
pub proof fn buried_finding_stays_out(
    before: Store,
    after: Store,
    c: Candidate,
    path: Seq<u8>,
    json: Seq<u8>,
)
    requires
        entered(before, after, c, path, json),
        buried(before.index, c.id@),
    ensures
        after.index.rows == before.index.rows,
        buried(after.index, c.id@),
{
    let told = choose|told: Store|
        #[trigger] located(
            before.index.tombstones@,
            told.index.tombstones@,
            c.id@,
            c.root_id@,
            path,
        ) && told == (Store {
            index: Index { tombstones: told.index.tombstones, ..before.index },
            ..before
        }) && (if c.provisional || unchanged(before.index.rows@, path, json) {
            &&& met(told.journal, after.journal, c.root_id@, c.id@)
            &&& after == (Store { journal: after.journal, ..told })
        } else if !fits(told.index, told.limits, c.id@, path, json) {
            omitted(told, after, c, path, json)
        } else {
            &&& met(told.journal, after.journal, c.root_id@, c.id@)
            &&& buried(told.index, c.id@) ==> after == (Store { journal: after.journal, ..told })
        });
    let i = choose|i: int|
        0 <= i < before.index.tombstones@.len() && (#[trigger] before.index.tombstones@[i]).id@
            == c.id@;
    assert(told.index.tombstones@[i].id@ == c.id@);
}

/// A finding that the index already holds letter for letter writes nothing but
/// its observation by the refresh.
pub proof fn unchanged_finding_writes_nothing(
    before: Store,
    after: Store,
    c: Candidate,
    path: Seq<u8>,
    json: Seq<u8>,
)
    requires
        entered(before, after, c, path, json),
        unchanged(before.index.rows@, path, json),
        !buried(before.index, c.id@),
    ensures
        after.index.rows == before.index.rows,
        after.index.tombstones@ == before.index.tombstones@,
        after.index.limited == before.index.limited,
        !refreshing(before.journal, c.root_id@) ==> after.journal == before.journal,
{
    let told = choose|told: Store|
        #[trigger] located(
            before.index.tombstones@,
            told.index.tombstones@,
            c.id@,
            c.root_id@,
            path,
        ) && told == (Store {
            index: Index { tombstones: told.index.tombstones, ..before.index },
            ..before
        }) && met(told.journal, after.journal, c.root_id@, c.id@) && after == (Store {
            journal: after.journal,
            ..told
        });
    assert(told.index.tombstones@ =~= before.index.tombstones@);
}

/// What the findings are charged never grows past the budget by a batch: after
/// an admission the index is within its limits.
pub proof fn admission_respects_the_budget(
    before: Store,
    after: Store,
    c: Candidate,
    path: Seq<u8>,
    json: Seq<u8>,
)
    requires
        before.wf(),
        after.wf(),
        entered(before, after, c, path, json),
        after.index.rows@ != before.index.rows@,
    ensures
        after.index.row_count <= after.limits.max_candidate_rows,
        after.index.payload_bytes <= after.limits.max_candidate_payload_bytes,
{
    let told = choose|told: Store|
        #[trigger] located(
            before.index.tombstones@,
            told.index.tombstones@,
            c.id@,
            c.root_id@,
            path,
        ) && told == (Store {
            index: Index { tombstones: told.index.tombstones, ..before.index },
            ..before
        }) && fits(told.index, told.limits, c.id@, path, json) && exists|row: IndexRow| #[trigger]
            row_is(row, c, path, json) && after.index.rows@ == placed(told.index.rows@, row);
    let row = choose|row: IndexRow| #[trigger]
        row_is(row, c, path, json) && after.index.rows@ == placed(told.index.rows@, row);
    placed_counts(before.index.rows@, row);
}

/// What a complete pass met, it keeps: a finding that a batch brought while its
/// root was refreshed outlasts the end of that refresh.
pub proof fn met_findings_stay(
    before: Journal,
    store: Store,
    after: Store,
    root: Seq<char>,
    row: IndexRow,
)
    requires
        refreshing(before, root),
        met(before, store.journal, root, row.id@),
        ended(store, after, root, generation_of(before, root), true),
        store.index.rows@.contains(row),
    ensures
        after.index.rows@.contains(row),
{
    let generation = generation_of(before, root);
    let seen = store.journal.seen@;
    let keep = survives(seen, root, generation);
    let rest = before.seen@.filter(other_seen(root, generation, row.id@));
    filter_rows(before.seen@, other_seen(root, generation, row.id@));
    if unmet(seen, root, generation, row.id@) {
        let i = choose|i: int|
            0 <= i < seen.len() && awaited(#[trigger] seen[i], root, generation, row.id@);
        if i < seen.len() - 1 {
            assert(seen[i] == seen.drop_last()[i]);
            assert(seen[i] == rest[i]);
            assert(other_seen(root, generation, row.id@)(rest[i]));
        }
    }
    assert(keep(row));
    filter_holds(store.index.rows@, keep);
}

} // verus!
