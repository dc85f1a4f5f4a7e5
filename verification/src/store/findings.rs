//! The findings: the ones to show, the ones to compare, and single ones.
use crate::model::Candidate;
use crate::order::{
    arranges, compare_bytes, in_order, orders, precedes, precedes_irreflexive, precedes_total,
    precedes_transitive, sorted_range, Order,
};
use crate::paths::{above, is_above, path_bytes, share, FsPath};
use crate::policy::Policy;
use crate::store::retention::{continues, is_continuing, is_kept_near, kept_near};
use crate::store::{no_row, Index, IndexRow, Scope, Store, Tombstone};
use crate::tables::{filter_push, filter_rows, filter_unique, push_unique, retain};
use crate::text::{fail, failed, same_text};
use vstd::prelude::*;

verus! {

/// How many findings are shown.
pub const MAX_VISIBLE: usize = 500;

/// Whether a finding can be shown.
pub open spec fn shown(policy: Policy, kept: Seq<Vec<u8>>) -> spec_fn(IndexRow) -> bool {
    |row: IndexRow|
        {
            &&& row.candidate.suggestion_eligible
            &&& row.candidate.blocked_reason is None
            &&& policy.large_enough(row.candidate.kind@, row.candidate.allocated_bytes)
            &&& !kept_near(kept, row.path@)
        }
}

/// Whether a finding comes before another: by the place of its kind, then by
/// size with the larger one first, then by path.
pub open spec fn outranks(policy: Policy, a: IndexRow, b: IndexRow) -> bool {
    let x = policy.rank(a.candidate.kind@);
    let y = policy.rank(b.candidate.kind@);
    if x != y {
        x < y
    } else if a.candidate.allocated_bytes != b.candidate.allocated_bytes {
        a.candidate.allocated_bytes > b.candidate.allocated_bytes
    } else {
        precedes(a.path@, b.path@)
    }
}

/// The order of findings by their rank.
pub open spec fn rank_before(policy: Policy, rows: Seq<IndexRow>) -> spec_fn(int, int) -> bool {
    |a: int, b: int| outranks(policy, rows[a], rows[b])
}

/// Whether a list holds the first findings of an order.
pub open spec fn page(
    policy: Policy,
    visible: Seq<IndexRow>,
    order: Seq<usize>,
    out: Seq<Candidate>,
) -> bool {
    &&& arranges(order, 0, visible.len() as int)
    &&& in_order(order, rank_before(policy, visible))
    &&& out.len() == if visible.len() < MAX_VISIBLE {
        visible.len() as int
    } else {
        MAX_VISIBLE as int
    }
    &&& forall|i: int|
        0 <= i < out.len() ==> #[trigger] out[i] == visible[order[i] as int].candidate
}

proof fn rank_orders(policy: Policy, rows: Seq<IndexRow>)
    ensures
        orders(rank_before(policy, rows), rows.len() as int),
{
    let before = rank_before(policy, rows);
    let n = rows.len() as int;
    assert forall|a: int, b: int| 0 <= a < n && 0 <= b < n && #[trigger] before(a, b) implies !before(
        b,
        a,
    ) by {
        if before(b, a) {
            if precedes(rows[a].path@, rows[b].path@) && precedes(rows[b].path@, rows[a].path@) {
                precedes_transitive(rows[a].path@, rows[b].path@, rows[a].path@);
                precedes_irreflexive(rows[a].path@);
            }
        }
    }
    assert forall|a: int, b: int, c: int|
        0 <= a < n && 0 <= b < n && 0 <= c < n && !#[trigger] before(b, a) && !#[trigger] before(
            c,
            b,
        ) implies !before(c, a) by {
        if before(c, a) {
            let (x, y, z) = (rows[a].path@, rows[b].path@, rows[c].path@);
            precedes_total(x, y);
            precedes_total(y, z);
            precedes_irreflexive(x);
            if precedes(x, y) && precedes(y, z) {
                precedes_transitive(x, y, z);
            }
            if precedes(x, z) && precedes(z, x) {
                precedes_transitive(x, z, x);
            }
        }
    }
}

/// The rows at the positions that a list gives.
pub open spec fn rows_at(rows: Seq<IndexRow>, at: Seq<usize>) -> Seq<IndexRow> {
    at.map_values(|i: usize| rows[i as int])
}

impl Store {
    /// The findings to show, the best first. A kept path, or one that encloses
    /// or lies in a kept path, is not shown.
    pub fn candidates(&self, policy: &Policy) -> (r: Vec<Candidate>)
        ensures
            exists|order: Seq<usize>| #[trigger]
                page(*policy, self.index.rows@.filter(shown(*policy, self.kept@)), order, r@),
    {
        let all: &Vec<IndexRow> = &self.index.rows;
        let ghost test = shown(*policy, self.kept@);
        let mut list: Vec<usize> = Vec::new();
        let mut i: usize = 0;
        proof {
            assert(all@.take(0).filter(test) =~= seq![]) by {
                reveal(Seq::filter);
            }
            assert(rows_at(all@, list@) =~= seq![]);
        }
        while i < all.len()
            invariant
                i <= all.len(),
                all@ == self.index.rows@,
                test == shown(*policy, self.kept@),
                rows_at(all@, list@) == all@.take(i as int).filter(test),
                forall|k: int| 0 <= k < list@.len() ==> (#[trigger] list@[k]) < i,
            decreases all.len() - i,
        {
            let row: &IndexRow = &all[i];
            let ghost now = list@;
            proof {
                assert(all@.take(i + 1) =~= all@.take(i as int).push(all@[i as int]));
                filter_push(all@.take(i as int), all@[i as int], test);
            }
            if row.candidate.suggestion_eligible && row.candidate.blocked_reason.is_none()
                && policy.is_large_enough(
                row.candidate.kind.as_str(),
                row.candidate.allocated_bytes,
            ) && !is_kept_near(&self.kept, path_bytes(&row.path)) {
                list.push(i);
                assert(rows_at(all@, list@) =~= rows_at(all@, now).push(all@[i as int]));
            }
            i = i + 1;
        }
        assert(all@.take(i as int) =~= all@);
        let ghost visible = all@.filter(test);
        let n: usize = list.len();
        assert(visible.len() == n);
        let picks: &Vec<usize> = &list;
        let less = |a: usize, b: usize| -> (x: bool)
            requires
                a < n,
                b < n,
                n == picks@.len(),
                forall|k: int| 0 <= k < picks@.len() ==> (#[trigger] picks@[k]) < all@.len(),
            ensures
                x == outranks(*policy, all@[picks@[a as int] as int], all@[picks@[b as int] as int]),
        {
            let p: &IndexRow = &all[picks[a]];
            let q: &IndexRow = &all[picks[b]];
            let x: u64 = policy.rank_of(p.candidate.kind.as_str());
            let y: u64 = policy.rank_of(q.candidate.kind.as_str());
            if x != y {
                x < y
            } else if p.candidate.allocated_bytes != q.candidate.allocated_bytes {
                p.candidate.allocated_bytes > q.candidate.allocated_bytes
            } else {
                match compare_bytes(path_bytes(&p.path), path_bytes(&q.path)) {
                    Order::Less => true,
                    _ => false,
                }
            }
        };
        proof {
            rank_orders(*policy, visible);
            assert forall|a: int| 0 <= a < n implies visible[a] == all@[#[trigger] list@[a] as int] by {
                assert(rows_at(all@, list@)[a] == all@[list@[a] as int]);
            }
        }
        let order: Vec<usize> = sorted_range(0, n, n, &less, Ghost(rank_before(*policy, visible)));
        let mut out: Vec<Candidate> = Vec::new();
        let mut k: usize = 0;
        while k < order.len() && k < MAX_VISIBLE
            invariant
                k <= order.len(),
                k <= MAX_VISIBLE,
                n == list@.len(),
                n == visible.len(),
                all@ == self.index.rows@,
                arranges(order@, 0, n as int),
                forall|a: int| 0 <= a < n ==> (#[trigger] list@[a]) < all@.len(),
                forall|a: int| 0 <= a < n ==> visible[a] == all@[#[trigger] list@[a] as int],
                out@.len() == k,
                forall|j: int|
                    0 <= j < k ==> #[trigger] out@[j] == visible[order@[j] as int].candidate,
            decreases order.len() - k,
        {
            assert(order@[k as int] < n);
            let at: usize = list[order[k]];
            assert(visible[order@[k as int] as int] == all@[list@[order@[k as int] as int] as int]);
            out.push(all[at].candidate.copy());
            k = k + 1;
        }
        assert(page(*policy, visible, order@, out@));
        out
    }
}


/// Whether a finding belongs to a root.
pub open spec fn of_root(root: Seq<char>) -> spec_fn(IndexRow) -> bool {
    |row: IndexRow| row.root_id@ == root
}

/// Whether a finding has another id.
pub open spec fn other_row(id: Seq<char>) -> spec_fn(IndexRow) -> bool {
    |row: IndexRow| row.id@ != id
}

/// Whether the row at `i` has an id.
pub open spec fn finding_at(rows: Seq<IndexRow>, id: Seq<char>, i: int) -> bool {
    0 <= i < rows.len() && rows[i].id@ == id
}

/// What clearing a scope leaves: what is neither in it nor encloses it.
pub open spec fn cleared_of(root: Seq<char>, scope: Option<FsPath>) -> spec_fn(IndexRow) -> bool {
    |row: IndexRow|
        !(row.root_id@ == root && match scope {
            Some(path) => continues(row.path@, path@) || above(row.path@, path@),
            None => true,
        })
}

impl Store {
    /// The findings of a root, in the order in which they came.
    pub fn candidates_for_root(&self, root: &str) -> (r: Vec<Candidate>)
        ensures
            r@ == self.index.rows@.filter(of_root(root@)).map_values(|row: IndexRow| row.candidate),
    {
        let ghost all = self.index.rows@;
        let ghost test = of_root(root@);
        let mut out: Vec<Candidate> = Vec::new();
        let mut i: usize = 0;
        proof {
            assert(all.take(0).filter(test) =~= seq![]) by {
                reveal(Seq::filter);
            }
            assert(out@ =~= all.take(0).filter(test).map_values(|row: IndexRow| row.candidate));
        }
        while i < self.index.rows.len()
            invariant
                i <= self.index.rows.len(),
                all == self.index.rows@,
                test == of_root(root@),
                out@ == all.take(i as int).filter(test).map_values(
                    |row: IndexRow| row.candidate,
                ),
            decreases self.index.rows.len() - i,
        {
            let row: &IndexRow = &self.index.rows[i];
            let ghost now = all.take(i as int);
            let ghost held = out@;
            proof {
                assert(all.take(i + 1) =~= now.push(all[i as int]));
                filter_push(now, all[i as int], test);
            }
            if same_text(row.root_id.as_str(), root) {
                out.push(row.candidate.copy());
                assert(out@ =~= now.push(all[i as int]).filter(test).map_values(
                    |row: IndexRow| row.candidate,
                ));
            }
            i = i + 1;
        }
        assert(all.take(i as int) =~= all);
        out
    }

    /// The finding with an id.
    pub fn candidate(&self, id: &str) -> (r: Result<Candidate, String>)
        requires
            self.wf(),
        ensures
            match r {
                Ok(c) => exists|i: int| #[trigger]
                    finding_at(self.index.rows@, id@, i) && c == self.index.rows@[i].candidate,
                Err(_) => failed(r, no_row()) && forall|i: int|
                    !#[trigger] finding_at(self.index.rows@, id@, i),
            },
    {
        let mut i: usize = 0;
        while i < self.index.rows.len()
            invariant
                i <= self.index.rows.len(),
                forall|j: int| 0 <= j < i ==> !#[trigger] finding_at(self.index.rows@, id@, j),
            decreases self.index.rows.len() - i,
        {
            if same_text(self.index.rows[i].id.as_str(), id) {
                assert(finding_at(self.index.rows@, id@, i as int));
                return Ok(self.index.rows[i].candidate.copy());
            }
            i = i + 1;
        }
        fail("Query returned no rows")
    }

    /// Drop a finding.
    pub fn discard_candidate(&mut self, id: &str)
        requires
            old(self).wf(),
        ensures
            final(self).wf(),
            final(self).index.rows@ == old(self).index.rows@.filter(other_row(id@)),
            *final(self) == (Store {
                index: Index {
                    rows: final(self).index.rows,
                    row_count: final(self).index.row_count,
                    payload_bytes: final(self).index.payload_bytes,
                    ..old(self).index
                },
                ..*old(self)
            }),
    {
        let stays = |row: &IndexRow| -> (b: bool)
            ensures
                b == (row.id@ != id@),
        {
            !same_text(row.id.as_str(), id)
        };
        self.index.keep_rows(stays, Ghost(other_row(id@)));
    }

    /// Drop the findings in a scope and those that enclose it.
    pub fn clear_scope(&mut self, root: &str, scope: Option<FsPath>) -> (r: Result<(), String>)
        requires
            old(self).wf(),
        ensures
            final(self).wf(),
            match scope {
                Some(path) if !vstd::utf8::valid_utf8(path@) => failed(
                    r,
                    "This path cannot be represented in the native interface"@,
                ) && *final(self) == *old(self),
                _ => {
                    &&& r is Ok
                    &&& final(self).index.rows@ == old(self).index.rows@.filter(
                        cleared_of(root@, scope),
                    )
                    &&& *final(self) == (Store {
                        index: Index {
                            rows: final(self).index.rows,
                            row_count: final(self).index.row_count,
                            payload_bytes: final(self).index.payload_bytes,
                            ..old(self).index
                        },
                        ..*old(self)
                    })
                },
            },
    {
        match &scope {
            Some(path) => {
                if crate::text::utf8_text(path_bytes(path)).is_none() {
                    return fail("This path cannot be represented in the native interface");
                }
                let stays = |row: &IndexRow| -> (b: bool)
                    ensures
                        b == !(row.root_id@ == root@ && (continues(row.path@, path@) || above(
                            row.path@,
                            path@,
                        ))),
                {
                    !(same_text(row.root_id.as_str(), root) && (is_continuing(
                        path_bytes(&row.path),
                        path_bytes(path),
                    ) || is_above(path_bytes(&row.path), path_bytes(path))))
                };
                self.index.keep_rows(stays, Ghost(cleared_of(root@, scope)));
            },
            None => {
                let stays = |row: &IndexRow| -> (b: bool)
                    ensures
                        b == (row.root_id@ != root@),
                {
                    !same_text(row.root_id.as_str(), root)
                };
                self.index.keep_rows(stays, Ghost(cleared_of(root@, scope)));
            },
        }
        Ok(())
    }
}

/// The tombstones of other findings.
pub open spec fn other_tombstone(id: Seq<char>) -> spec_fn(Tombstone) -> bool {
    |t: Tombstone| t.id@ != id
}

/// The tombstones after a finding was suppressed: one that is indexed is buried
/// where it lies, and an unknown one stays as it was or is buried without a
/// place.
pub open spec fn suppressed(
    rows: Seq<IndexRow>,
    before: Seq<Tombstone>,
    after: Seq<Tombstone>,
    id: Seq<char>,
) -> bool {
    if exists|i: int| #[trigger] finding_at(rows, id, i) {
        &&& after.len() > 0
        &&& after.drop_last() == before.filter(other_tombstone(id))
        &&& after.last().id@ == id
        &&& exists|i: int| #[trigger]
            finding_at(rows, id, i) && after.last().location == Some(
                Scope { root_id: rows[i].root_id, path: rows[i].path },
            )
    } else if exists|i: int| 0 <= i < before.len() && (#[trigger] before[i]).id@ == id {
        after == before
    } else {
        &&& after.len() > 0
        &&& after.drop_last() == before
        &&& after.last().id@ == id
        &&& after.last().location is None
    }
}

impl Store {
    /// Suppress buffered discoveries before a cleanup changes the filesystem.
    /// A new refresh of this location explicitly permits its next observation.
    pub fn suppress_candidate(&mut self, id: &str)
        requires
            old(self).wf(),
        ensures
            final(self).wf(),
            suppressed(
                old(self).index.rows@,
                old(self).index.tombstones@,
                final(self).index.tombstones@,
                id@,
            ),
            final(self).index.rows@ == old(self).index.rows@.filter(other_row(id@)),
            *final(self) == (Store {
                index: Index {
                    rows: final(self).index.rows,
                    row_count: final(self).index.row_count,
                    payload_bytes: final(self).index.payload_bytes,
                    tombstones: final(self).index.tombstones,
                    ..old(self).index
                },
                ..*old(self)
            }),
    {
        let ghost start = self.index;
        let mut place: Option<Scope> = None;
        let mut i: usize = 0;
        while i < self.index.rows.len()
            invariant
                i <= self.index.rows.len(),
                self.wf(),
                *self == *old(self),
                self.index == start,
                match place {
                    Some(at) => exists|j: int| #[trigger]
                        finding_at(start.rows@, id@, j) && at == (Scope {
                            root_id: start.rows@[j].root_id,
                            path: start.rows@[j].path,
                        }),
                    None => forall|j: int|
                        0 <= j < i ==> !#[trigger] finding_at(start.rows@, id@, j),
                },
            decreases self.index.rows.len() - i,
        {
            let row: &IndexRow = &self.index.rows[i];
            if same_text(row.id.as_str(), id) {
                assert(finding_at(start.rows@, id@, i as int));
                place = Some(Scope { root_id: row.root_id.clone(), path: share(&row.path) });
            }
            i = i + 1;
        }
        match place {
            Some(at) => {
                let stays = |t: &Tombstone| -> (b: bool)
                    ensures
                        b == (t.id@ != id@),
                {
                    !same_text(t.id.as_str(), id)
                };
                retain(&mut self.index.tombstones, stays, Ghost(other_tombstone(id@)));
                let ghost left = self.index.tombstones@;
                let row: Tombstone = Tombstone { id: id.to_owned(), location: Some(at) };
                let ghost added = row;
                self.index.tombstones.push(row);
                proof {
                    filter_unique(
                        start.tombstones@,
                        other_tombstone(id@),
                        |t: Tombstone| t.id@,
                    );
                    filter_rows(start.tombstones@, other_tombstone(id@));
                    push_unique(left, added, |t: Tombstone| t.id@);
                    assert(self.index.tombstones@.drop_last() =~= left);
                }
            },
            None => {
                // Keep an unknown id suppressed as well; a batch can later
                // record its location without allowing that delayed result to
                // resurrect the row.
                if !self.index.is_buried(id) {
                    let row: Tombstone = Tombstone { id: id.to_owned(), location: None };
                    let ghost added = row;
                    self.index.tombstones.push(row);
                    proof {
                        push_unique(start.tombstones@, added, |t: Tombstone| t.id@);
                        assert(self.index.tombstones@.drop_last() =~= start.tombstones@);
                    }
                }
            },
        }
        self.discard_candidate(id);
    }
}

/// A suppressed finding is buried and indexed no more.
pub proof fn suppression_buries(
    rows: Seq<IndexRow>,
    before: Seq<Tombstone>,
    after: Index,
    id: Seq<char>,
)
    requires
        suppressed(rows, before, after.tombstones@, id),
        after.rows@ == rows.filter(other_row(id)),
    ensures
        crate::store::batch::buried(after, id),
        forall|i: int| !#[trigger] finding_at(after.rows@, id, i),
{
    filter_rows(rows, other_row(id));
    let t = after.tombstones@;
    if exists|i: int| #[trigger] finding_at(rows, id, i) {
        assert(t[t.len() - 1].id@ == id);
    } else if exists|i: int| 0 <= i < before.len() && (#[trigger] before[i]).id@ == id {
        let i = choose|i: int| 0 <= i < before.len() && (#[trigger] before[i]).id@ == id;
        assert(t[i].id@ == id);
    } else {
        assert(t[t.len() - 1].id@ == id);
    }
}

} // verus!
