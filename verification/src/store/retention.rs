//! What leaves the index when it is over its budget.
use crate::paths::{path_bytes, SLASH};
use crate::pnpm::{has_text, texts};
use crate::store::batch::{larger, limited_noted};
use crate::store::coverage::marked;
use crate::store::{
    Index, IndexRow, Journal, Limited, Scope, Store, CANDIDATE_PAYLOAD_OVERHEAD,
    DERIVED_MAINTENANCE_ROWS,
};
use crate::tables::{filter_holds, filter_push, filter_rows};
use crate::text::{begins, bytes_begin, same_bytes, same_text};
use vstd::prelude::*;

verus! {

/// The counters of the derived findings.
#[derive(Clone, Copy, PartialEq, Eq, Structural, Debug)]
pub struct DerivedUsage {
    pub candidate_rows: u64,
    pub candidate_payload_bytes: u64,
}

/// Whether one text is another one with a separator behind it.
pub open spec fn continues(path: Seq<u8>, base: Seq<u8>) -> bool {
    begins(path, base.push(SLASH))
}

pub(crate) fn is_continuing(path: &[u8], base: &[u8]) -> (r: bool)
    ensures
        r == continues(path@, base@),
{
    let n: usize = base.len();
    if path.len() <= n || path[n] != SLASH || !bytes_begin(path, base) {
        proof {
            if continues(path@, base@) {
                let head = base@.push(SLASH);
                assert(path@.take(head.len() as int) == head);
                assert(path@[n as int] == head[n as int]);
                assert(path@.take(n as int) =~= head.take(n as int));
                assert(head.take(n as int) =~= base@);
            }
        }
        return false;
    }
    assert(path@.take(n + 1) =~= base@.push(SLASH));
    true
}

/// Whether a path is kept, lies in a kept path, or encloses one.
pub open spec fn kept_near(kept: Seq<Vec<u8>>, path: Seq<u8>) -> bool {
    exists|i: int|
        0 <= i < kept.len() && ((#[trigger] kept[i])@ == path || continues(path, kept[i]@)
            || continues(kept[i]@, path))
}

pub(crate) fn is_kept_near(kept: &Vec<Vec<u8>>, path: &[u8]) -> (r: bool)
    ensures
        r == kept_near(kept@, path@),
{
    let mut i: usize = 0;
    while i < kept.len()
        invariant
            i <= kept.len(),
            forall|j: int|
                0 <= j < i ==> !((#[trigger] kept@[j])@ == path@ || continues(path@, kept@[j]@)
                    || continues(kept@[j]@, path@)),
        decreases kept.len() - i,
    {
        let k: &[u8] = kept[i].as_slice();
        if same_bytes(k, path) || is_continuing(path, k) || is_continuing(k, path) {
            return true;
        }
        i = i + 1;
    }
    false
}

/// Whether a claimed scope holds a finding.
pub open spec fn in_use(active: Seq<Scope>, row: IndexRow) -> bool {
    exists|i: int|
        0 <= i < active.len() && (#[trigger] active[i]).root_id@ == row.root_id@ && (
        active[i].path@ == row.path@ || continues(row.path@, active[i].path@))
}

fn is_in_use(active: &Vec<Scope>, row: &IndexRow) -> (r: bool)
    ensures
        r == in_use(active@, *row),
{
    let mut i: usize = 0;
    while i < active.len()
        invariant
            i <= active.len(),
            forall|j: int|
                0 <= j < i ==> !((#[trigger] active@[j]).root_id@ == row.root_id@ && (
                active@[j].path@ == row.path@ || continues(row.path@, active@[j].path@))),
        decreases active.len() - i,
    {
        if same_text(active[i].root_id.as_str(), row.root_id.as_str()) && (same_bytes(
            path_bytes(&active[i].path),
            path_bytes(&row.path),
        ) || is_continuing(path_bytes(&row.path), path_bytes(&active[i].path))) {
            return true;
        }
        i = i + 1;
    }
    false
}

/// Whether a finding may leave: no claimed scope holds it, and it is not kept.
pub open spec fn expendable(active: Seq<Scope>, kept: Seq<Vec<u8>>) -> spec_fn(IndexRow) -> bool {
    |row: IndexRow| !in_use(active, row) && !kept_near(kept, row.path@)
}

/// The findings that one pass looks at: the oldest expendable ones.
pub open spec fn window(store: Store) -> Seq<IndexRow> {
    let all = store.index.rows@.filter(expendable(store.journal.active@, store.kept@));
    if all.len() > DERIVED_MAINTENANCE_ROWS {
        all.take(DERIVED_MAINTENANCE_ROWS as int)
    } else {
        all
    }
}

/// How far a pass has come.
pub struct Sweep {
    pub rows: int,
    pub bytes: int,
    pub evicted: Seq<Seq<char>>,
    pub touched: Seq<Seq<char>>,
}

/// The low-water mark: the budget less the room that was asked for.
pub open spec fn target(limit: u64, headroom: u64) -> int {
    larger(limit - headroom, 0)
}

/// One more finding: while the index is over its target, a finding leaves unless
/// the caller protects it. Either way its root needs another pass.
pub open spec fn swept(
    state: Sweep,
    row: IndexRow,
    protected: Seq<Seq<char>>,
    rows: int,
    bytes: int,
) -> Sweep {
    if state.rows <= rows && state.bytes <= bytes {
        state
    } else if protected.contains(row.id@) {
        Sweep { touched: marked(state.touched, row.root_id@), ..state }
    } else {
        Sweep {
            rows: larger(state.rows - 1, 0),
            bytes: larger(state.bytes - row.weight(), 0),
            evicted: state.evicted.push(row.id@),
            touched: marked(state.touched, row.root_id@),
        }
    }
}

/// The whole pass over a list of findings.
pub open spec fn sweep(
    list: Seq<IndexRow>,
    start: Sweep,
    protected: Seq<Seq<char>>,
    rows: int,
    bytes: int,
) -> Sweep
    decreases list.len(),
{
    if list.len() == 0 {
        start
    } else {
        swept(
            sweep(list.drop_last(), start, protected, rows, bytes),
            list.last(),
            protected,
            rows,
            bytes,
        )
    }
}

/// The pass that maintenance makes.
pub open spec fn retention(store: Store, protected: Seq<Seq<char>>) -> Sweep {
    sweep(
        window(store),
        Sweep {
            rows: store.index.row_count as int,
            bytes: store.index.payload_bytes as int,
            evicted: seq![],
            touched: seq![],
        },
        protected,
        target(store.limits.max_candidate_rows, store.index.row_headroom),
        target(store.limits.max_candidate_payload_bytes, store.index.byte_headroom),
    )
}

/// The findings that a pass leaves.
pub open spec fn not_among(ids: Seq<Seq<char>>) -> spec_fn(IndexRow) -> bool {
    |row: IndexRow| !ids.contains(row.id@)
}

/// The reason that maintenance gives.
pub open spec fn retention_reason() -> Seq<char> {
    "derived retention protected or evicted observations"@
}

/// The warnings after every touched root was noted.
pub open spec fn warned(before: Seq<Limited>, after: Seq<Limited>, roots: Seq<Seq<char>>) -> bool
    decreases roots.len(),
{
    if roots.len() == 0 {
        after == before
    } else {
        exists|mid: Seq<Limited>|
            warned(before, mid, roots.drop_last()) && #[trigger] limited_noted(
                mid,
                after,
                roots.last(),
                0,
                0,
                retention_reason(),
            )
    }
}

/// A list of ids with several more.
pub open spec fn marked_all(list: Seq<Seq<char>>, more: Seq<Seq<char>>) -> Seq<Seq<char>>
    decreases more.len(),
{
    if more.len() == 0 {
        list
    } else {
        marked(marked_all(list, more.drop_last()), more.last())
    }
}

/// What maintenance does: nothing is queued, so a full budget cannot create a
/// retry storm.
pub open spec fn maintained(before: Store, after: Store, protected: Seq<Seq<char>>) -> bool {
    let pass = retention(before, protected);
    let met = pass.rows <= target(before.limits.max_candidate_rows, before.index.row_headroom)
        && pass.bytes <= target(
        before.limits.max_candidate_payload_bytes,
        before.index.byte_headroom,
    );
    &&& after.index.rows@ == before.index.rows@.filter(not_among(pass.evicted))
    &&& texts(after.journal.incomplete@) == marked_all(
        texts(before.journal.incomplete@),
        pass.touched,
    )
    &&& warned(before.index.limited@, after.index.limited@, pass.touched)
    &&& after.index.row_headroom == if met {
        0
    } else {
        before.index.row_headroom
    }
    &&& after.index.byte_headroom == if met {
        0
    } else {
        before.index.byte_headroom
    }
    &&& after == (Store {
        journal: Journal { incomplete: after.journal.incomplete, ..before.journal },
        index: Index { tombstones: before.index.tombstones, ..after.index },
        ..before
    })
}

proof fn warned_more(
    before: Seq<Limited>,
    mid: Seq<Limited>,
    after: Seq<Limited>,
    roots: Seq<Seq<char>>,
    k: int,
)
    requires
        0 <= k < roots.len(),
        warned(before, mid, roots.take(k)),
        limited_noted(mid, after, roots[k], 0, 0, retention_reason()),
    ensures
        warned(before, after, roots.take(k + 1)),
{
    let upto = roots.take(k + 1);
    assert(upto.drop_last() =~= roots.take(k));
    assert(limited_noted(mid, after, upto.last(), 0, 0, retention_reason()));
}

impl Store {
    /// The counters of the derived findings. Durable tables are deliberately
    /// excluded from them.
    pub fn derived_usage(&self) -> (r: DerivedUsage)
        ensures
            r.candidate_rows == self.index.row_count,
            r.candidate_payload_bytes == self.index.payload_bytes,
    {
        DerivedUsage {
            candidate_rows: self.index.row_count,
            candidate_payload_bytes: self.index.payload_bytes,
        }
    }

    /// Remove only expendable findings, a bounded number at a time. Eviction
    /// itself invalidates the affected roots; no refresh is enqueued here, so a
    /// full budget cannot create a retry storm.
    #[verifier::rlimit(40)]
    pub fn maintain_derived(&mut self, protected_candidate_ids: &Vec<String>) -> (r: DerivedUsage)
        requires
            old(self).wf(),
        ensures
            final(self).wf(),
            maintained(*old(self), *final(self), texts(protected_candidate_ids@)),
            r.candidate_rows == final(self).index.row_count,
            r.candidate_payload_bytes == final(self).index.payload_bytes,
    {
        let ghost start = *self;
        let ghost shield = texts(protected_candidate_ids@);
        let ghost test = expendable(self.journal.active@, self.kept@);
        let ghost all = self.index.rows@;
        let row_target: u64 = self.limits.max_candidate_rows.saturating_sub(
            self.index.row_headroom,
        );
        let byte_target: u64 = self.limits.max_candidate_payload_bytes.saturating_sub(
            self.index.byte_headroom,
        );
        let mut rows: u64 = self.index.row_count;
        let mut bytes: u64 = self.index.payload_bytes;
        let mut evicted: Vec<String> = Vec::new();
        let mut touched: Vec<String> = Vec::new();
        let ghost first = Sweep {
            rows: rows as int,
            bytes: bytes as int,
            evicted: seq![],
            touched: seq![],
        };
        let mut seen: usize = 0;
        let mut i: usize = 0;
        proof {
            assert(all.take(0).filter(test) =~= seq![]) by {
                reveal(Seq::filter);
            }
            assert(texts(evicted@) =~= seq![]);
            assert(texts(touched@) =~= seq![]);
        }
        while i < self.index.rows.len() && seen < DERIVED_MAINTENANCE_ROWS
            invariant
                i <= self.index.rows.len(),
                seen <= DERIVED_MAINTENANCE_ROWS,
                *self == start,
                start.wf(),
                all == start.index.rows@,
                test == expendable(start.journal.active@, start.kept@),
                shield == texts(protected_candidate_ids@),
                row_target == target(start.limits.max_candidate_rows, start.index.row_headroom),
                byte_target == target(
                    start.limits.max_candidate_payload_bytes,
                    start.index.byte_headroom,
                ),
                seen == all.take(i as int).filter(test).len(),
                sweep(
                    all.take(i as int).filter(test),
                    first,
                    shield,
                    row_target as int,
                    byte_target as int,
                ) == (Sweep {
                    rows: rows as int,
                    bytes: bytes as int,
                    evicted: texts(evicted@),
                    touched: texts(touched@),
                }),
            decreases self.index.rows.len() - i,
        {
            let row: &IndexRow = &self.index.rows[i];
            let ghost now = all.take(i as int);
            proof {
                assert(all.take(i + 1) =~= now.push(all[i as int]));
                filter_push(now, all[i as int], test);
                if test(all[i as int]) {
                    let upto = now.filter(test).push(all[i as int]);
                    assert(upto.drop_last() =~= now.filter(test));
                    assert(upto.last() == all[i as int]);
                }
            }
            if !is_in_use(&self.journal.active, row) && !is_kept_near(
                &self.kept,
                path_bytes(&row.path),
            ) {
                seen = seen + 1;
                if rows > row_target || bytes > byte_target {
                    let ghost went = texts(evicted@);
                    if !has_text(protected_candidate_ids, row.id.as_str()) {
                        proof {
                            crate::store::refresh::payload_prefix(all, i + 1);
                            assert(all.take(i + 1).drop_last() =~= now);
                            crate::store::refresh::payload_prefix(all, i as int);
                        }
                        let weight: u64 = row.json.len() as u64 + row.path.len() as u64
                            + CANDIDATE_PAYLOAD_OVERHEAD;
                        rows = rows.saturating_sub(1);
                        bytes = bytes.saturating_sub(weight);
                        evicted.push(row.id.clone());
                        assert(texts(evicted@) =~= went.push(row.id@));
                    }
                    let ghost roots = texts(touched@);
                    if !has_text(&touched, row.root_id.as_str()) {
                        touched.push(row.root_id.clone());
                        assert(texts(touched@) =~= roots.push(row.root_id@));
                    }
                }
            }
            i = i + 1;
        }
        proof {
            assert(window(start) == all.take(i as int).filter(test)) by {
                crate::tables::filter_add(all.take(i as int), all.skip(i as int), test);
                assert(all =~= all.take(i as int) + all.skip(i as int));
                let whole = all.filter(test);
                let part = all.take(i as int).filter(test);
                if i == all.len() {
                    assert(all.take(i as int) =~= all);
                } else {
                    assert(part.len() == DERIVED_MAINTENANCE_ROWS);
                    assert(whole.take(part.len() as int) =~= part);
                    assert(whole =~= part + all.skip(i as int).filter(test));
                    if whole.len() == part.len() {
                        assert(whole =~= part);
                    }
                }
            }
        }
        let ghost pass = retention(start, shield);
        assert(texts(evicted@) == pass.evicted);
        assert(texts(touched@) == pass.touched);
        let stays = |r: &IndexRow| -> (b: bool)
            ensures
                b == !texts(evicted@).contains(r.id@),
        {
            !has_text(&evicted, r.id.as_str())
        };
        self.index.keep_rows(stays, Ghost(not_among(pass.evicted)));
        let mut k: usize = 0;
        assert(pass.touched.take(0) =~= seq![]);
        while k < touched.len()
            invariant
                k <= touched.len(),
                self.wf(),
                texts(touched@) == pass.touched,
                texts(self.journal.incomplete@) == marked_all(
                    texts(start.journal.incomplete@),
                    pass.touched.take(k as int),
                ),
                warned(
                    start.index.limited@,
                    self.index.limited@,
                    pass.touched.take(k as int),
                ),
                self.index.rows@ == start.index.rows@.filter(not_among(pass.evicted)),
                *self == (Store {
                    journal: Journal { incomplete: self.journal.incomplete, ..start.journal },
                    index: Index {
                        rows: self.index.rows,
                        row_count: self.index.row_count,
                        payload_bytes: self.index.payload_bytes,
                        limited: self.index.limited,
                        ..start.index
                    },
                    ..start
                }),
            decreases touched.len() - k,
        {
            let ghost mid = self.index.limited@;
            proof {
                assert(pass.touched[k as int] == touched@[k as int]@);
                assert(pass.touched.take(k + 1).drop_last() =~= pass.touched.take(k as int));
                assert(pass.touched.take(k + 1).last() == pass.touched[k as int]);
            }
            self.journal.mark_incomplete(touched[k].as_str());
            self.index.note_limited(
                touched[k].as_str(),
                0,
                0,
                "derived retention protected or evicted observations",
            );
            proof {
                warned_more(
                    start.index.limited@,
                    mid,
                    self.index.limited@,
                    pass.touched,
                    k as int,
                );
            }
            k = k + 1;
        }
        assert(pass.touched.take(k as int) =~= pass.touched);
        if rows <= row_target && bytes <= byte_target {
            self.index.row_headroom = 0;
            self.index.byte_headroom = 0;
        }
        self.derived_usage()
    }
}

/// Maintenance never removes a finding that the caller protects, that a claimed
/// scope holds or that is kept, and it queues nothing.
pub proof fn maintenance_spares(before: Store, after: Store, protected: Seq<Seq<char>>, i: int)
    requires
        before.wf(),
        maintained(before, after, protected),
        0 <= i < before.index.rows@.len(),
        protected.contains(before.index.rows@[i].id@) || in_use(
            before.journal.active@,
            before.index.rows@[i],
        ) || kept_near(before.kept@, before.index.rows@[i].path@),
    ensures
        after.index.rows@.contains(before.index.rows@[i]),
        after.journal.pending == before.journal.pending,
        after.journal.active == before.journal.active,
{
    let row = before.index.rows@[i];
    let pass = retention(before, protected);
    let list = window(before);
    let test = expendable(before.journal.active@, before.kept@);
    let all = before.index.rows@.filter(test);
    filter_rows(before.index.rows@, test);
    evicted_from(
        list,
        Sweep {
            rows: before.index.row_count as int,
            bytes: before.index.payload_bytes as int,
            evicted: seq![],
            touched: seq![],
        },
        protected,
        target(before.limits.max_candidate_rows, before.index.row_headroom),
        target(before.limits.max_candidate_payload_bytes, before.index.byte_headroom),
        row.id@,
    );
    if pass.evicted.contains(row.id@) {
        let j = choose|j: int|
            0 <= j < list.len() && (#[trigger] list[j]).id@ == row.id@ && !protected.contains(
                row.id@,
            );
        assert(list[j] == all[j]);
        let w = choose|w: int|
            0 <= w < before.index.rows@.len() && before.index.rows@[w] == all[j];
        if w < i {
            assert(before.index.rows@[w].id@ != before.index.rows@[i].id@);
        } else if i < w {
            assert(before.index.rows@[i].id@ != before.index.rows@[w].id@);
        }
        assert(test(row));
        assert(false);
    }
    filter_holds(before.index.rows@, not_among(pass.evicted));
    assert(before.index.rows@.contains(row));
}

proof fn evicted_from(
    list: Seq<IndexRow>,
    start: Sweep,
    protected: Seq<Seq<char>>,
    rows: int,
    bytes: int,
    id: Seq<char>,
)
    requires
        start.evicted.len() == 0,
    ensures
        sweep(list, start, protected, rows, bytes).evicted.contains(id) ==> exists|j: int|
            0 <= j < list.len() && (#[trigger] list[j]).id@ == id && !protected.contains(id),
    decreases list.len(),
{
    if list.len() > 0 {
        let front = list.drop_last();
        evicted_from(front, start, protected, rows, bytes, id);
        let before = sweep(front, start, protected, rows, bytes);
        let after = sweep(list, start, protected, rows, bytes);
        if after.evicted.contains(id) {
            if before.evicted.contains(id) {
                let j = choose|j: int|
                    0 <= j < front.len() && (#[trigger] front[j]).id@ == id && !protected.contains(
                        id,
                    );
                assert(list[j] == front[j]);
            } else {
                let k = choose|k: int| 0 <= k < after.evicted.len() && after.evicted[k] == id;
                if k < before.evicted.len() {
                    assert(before.evicted[k] == id);
                }
                assert(list[list.len() - 1].id@ == id);
            }
        }
    }
}

} // verus!
