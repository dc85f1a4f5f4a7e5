//! Which findings are recorded, kept, shown and compared.
use crate::evidence::Found;
use crate::model::{Candidate, EntryMeta, Root};
use crate::order::{arranges_all, precedes};
use crate::paths::{above, above_step, below, parent_of, root_path, under, FsPath};
use crate::pnpm::texts;
use crate::policy::Policy;
use crate::sightings::{
    first_sight, link_key, linked, measured_sight, tallied, Counters, LinkState, Sighting,
};
use crate::store::batch::{
    buried, entered, fits, limited_noted, located, met, omitted, placed, row_at, row_is,
    unchanged, unopposed, unrelated,
};
use crate::store::claims::{after_discard, closest, encloses};
use crate::store::duplicates::{
    allocation, bucket_first, comparable, first_buckets, members, select,
};
use crate::store::findings::{cleared_of, of_root, other_row, page, shown};
use crate::store::queue::outside_scope;
use crate::store::recover::{abandoned, rebuilt, reopened};
use crate::store::refresh::{answers_for, awaited, ended, survives, Reach};
use crate::store::retention::{
    expendable, maintained, not_among, sweep, swept, target, window, Sweep,
};
use crate::store::{keys, payload, DerivedLimits, Index, IndexRow, Limited, Scope, Store};
use crate::tables::{filter_all, filter_holds};
use crate::text::begins;
use vstd::prelude::*;

verus! {

/// Nothing the user keeps lies at this path, above it or below it.
pub open spec fn nothing_kept(kept: Seq<Vec<u8>>, path: Seq<u8>) -> bool {
    forall|i: int|
        0 <= i < kept.len() ==> {
            let k = (#[trigger] kept[i])@;
            &&& k != path
            &&& !begins(path, k.push(47u8))
            &&& !begins(k, path.push(47u8))
        }
}

/// A finding is shown exactly when it may be suggested, nothing blocks it, it is large
/// enough by the rule for its kind, and nothing near it is kept.
pub proof fn findings_are_shown(
    policy: Policy,
    kept: Seq<Vec<u8>>,
    rows: Seq<IndexRow>,
    row: IndexRow,
)
    ensures
        rows.filter(shown(policy, kept)).contains(row) <==> {
            &&& rows.contains(row)
            &&& row.candidate.suggestion_eligible
            &&& row.candidate.blocked_reason is None
            &&& policy.has_rule(row.candidate.kind@)
            &&& row.candidate.allocated_bytes >= policy.rule_of(row.candidate.kind@).minimum_bytes
            &&& nothing_kept(kept, row.path@)
        },
{
    filter_holds(rows, shown(policy, kept));
}

/// Up to five hundred findings are listed, every one of them where there are no more.
pub proof fn every_shown_finding_is_listed(
    policy: Policy,
    visible: Seq<IndexRow>,
    order: Seq<usize>,
    out: Seq<Candidate>,
    i: int,
)
    requires
        page(policy, visible, order, out),
        0 <= i < visible.len(),
        visible.len() <= usize::MAX,
    ensures
        visible.len() <= 500 ==> out.len() == visible.len() && out.contains(visible[i].candidate),
        visible.len() > 500 ==> out.len() == 500,
{
    arranges_all(order, 0, visible.len() as int, i as usize);
    let k = choose|k: int| 0 <= k < order.len() && order[k] == i as usize;
    if visible.len() <= 500 {
        assert(out[k] == visible[order[k] as int].candidate);
    }
}

/// They are listed by the rank of their kind; of one rank the larger comes first, and
/// of one size the one whose path comes first.
pub proof fn findings_are_listed_in_order(
    policy: Policy,
    visible: Seq<IndexRow>,
    order: Seq<usize>,
    out: Seq<Candidate>,
    i: int,
    j: int,
)
    requires
        page(policy, visible, order, out),
        0 <= i < j < out.len(),
    ensures
        ({
            let a = visible[order[i] as int];
            let b = visible[order[j] as int];
            &&& out[i] == a.candidate && out[j] == b.candidate
            &&& policy.rank(a.candidate.kind@) <= policy.rank(b.candidate.kind@)
            &&& policy.rank(a.candidate.kind@) == policy.rank(b.candidate.kind@)
                ==> a.candidate.allocated_bytes >= b.candidate.allocated_bytes
            &&& policy.rank(a.candidate.kind@) == policy.rank(b.candidate.kind@)
                && a.candidate.allocated_bytes == b.candidate.allocated_bytes ==> !precedes(
                b.path@,
                a.path@,
            )
        }),
{
    assert(!crate::store::findings::rank_before(policy, visible)(order[j] as int, order[i] as int));
}

/// A finding fits exactly when its record is not too long, and with it there are not
/// too many rows and not too many bytes in all, what it takes the place of not counted.
pub proof fn findings_fit_within_the_limits(
    index: Index,
    limits: DerivedLimits,
    id: Seq<char>,
    path: Seq<u8>,
    json: Seq<u8>,
)
    ensures
        ({
            let others = index.rows@.filter(|r: IndexRow| r.id@ != id && r.path@ != path);
            fits(index, limits, id, path, json) <==> {
                &&& json.len() <= limits.max_candidate_json_bytes
                &&& others.len() + 1 <= limits.max_candidate_rows
                &&& payload(others) + json.len() + path.len() + 64
                    <= limits.max_candidate_payload_bytes
            }
        }),
{
    let other = |r: IndexRow| r.id@ != id && r.path@ != path;
    crate::tables::filter_agrees(index.rows@, unrelated(id, path), other);
}

/// A finding that was measured, is new or changed, fits and was not put aside is
/// recorded as it is; every other one under another id at another path stays, and what
/// had its path before is gone.
pub proof fn new_findings_are_recorded(
    before: Store,
    after: Store,
    c: Candidate,
    path: Seq<u8>,
    json: Seq<u8>,
    other: IndexRow,
)
    requires
        entered(before, after, c, path, json),
        !c.provisional,
        !unchanged(before.index.rows@, path, json),
        fits(before.index, before.limits, c.id@, path, json),
        !buried(before.index, c.id@),
    ensures
        exists|row: IndexRow| #[trigger]
            row_is(row, c, path, json) && after.index.rows@.contains(row),
        before.index.rows@.contains(other) && other.id@ != c.id@ && other.path@ != path
            ==> after.index.rows@.contains(other),
        other.path@ == path && other.id@ != c.id@ ==> !after.index.rows@.contains(other),
        after.index.limited == before.index.limited,
        after.ledger == before.ledger,
{
    let told = choose|told: Store|
        {
            &&& #[trigger] located(
                before.index.tombstones@,
                told.index.tombstones@,
                c.id@,
                c.root_id@,
                path,
            )
            &&& told == (Store {
                index: Index { tombstones: told.index.tombstones, ..before.index },
                ..before
            })
            &&& if c.provisional || unchanged(before.index.rows@, path, json) {
                &&& met(told.journal, after.journal, c.root_id@, c.id@)
                &&& after == (Store { journal: after.journal, ..told })
            } else if !fits(told.index, told.limits, c.id@, path, json) {
                omitted(told, after, c, path, json)
            } else {
                &&& met(told.journal, after.journal, c.root_id@, c.id@)
                &&& if buried(told.index, c.id@) {
                    after == (Store { journal: after.journal, ..told })
                } else {
                    &&& exists|row: IndexRow| #[trigger]
                        row_is(row, c, path, json) && after.index.rows@ == placed(
                            told.index.rows@,
                            row,
                        )
                    &&& after == (Store {
                        journal: after.journal,
                        index: Index {
                            rows: after.index.rows,
                            row_count: after.index.row_count,
                            payload_bytes: after.index.payload_bytes,
                            ..told.index
                        },
                        ..told
                    })
                }
            }
        };
    assert(told.index.rows@ == before.index.rows@);
    assert(!buried(told.index, c.id@)) by {
        if buried(told.index, c.id@) {
            let i = choose|i: int|
                0 <= i < told.index.tombstones@.len() && (#[trigger] told.index.tombstones@[i]).id@
                    == c.id@;
            assert(before.index.tombstones@[i].id@ == c.id@);
        }
    }
    assert(fits(told.index, told.limits, c.id@, path, json));
    let row = choose|row: IndexRow| #[trigger]
        row_is(row, c, path, json) && after.index.rows@ == placed(told.index.rows@, row);
    placing_keeps_the_rest(before.index.rows@, row, other);
}

proof fn placing_keeps_the_rest(rows: Seq<IndexRow>, row: IndexRow, other: IndexRow)
    ensures
        placed(rows, row).contains(row),
        rows.contains(other) && other.id@ != row.id@ && other.path@ != row.path@ ==> placed(
            rows,
            row,
        ).contains(other),
        other.path@ == row.path@ && other.id@ != row.id@ ==> !placed(rows, row).contains(other),
{
    let left = rows.filter(unopposed(row.id@, row.path@));
    filter_holds(rows, unopposed(row.id@, row.path@));
    let out = placed(rows, row);
    if exists|i: int| #[trigger] row_at(left, row.id@, i) {
        let k = choose|i: int| #[trigger] row_at(left, row.id@, i);
        assert(out[k] == row);
        if left.contains(other) && other.id@ != row.id@ {
            let m = choose|m: int| 0 <= m < left.len() && left[m] == other;
            assert(out[m] == other);
        }
        if out.contains(other) && other.id@ != row.id@ {
            let m = choose|m: int| 0 <= m < out.len() && out[m] == other;
            assert(left[m] == other);
            assert(left.contains(other));
        }
    } else {
        assert(out[left.len() as int] == row);
        if left.contains(other) {
            let m = choose|m: int| 0 <= m < left.len() && left[m] == other;
            assert(out[m] == other);
        }
        if out.contains(other) && other.id@ != row.id@ {
            let m = choose|m: int| 0 <= m < out.len() && out[m] == other;
            assert(left[m] == other);
            assert(left.contains(other));
        }
    }
}

/// A finding that is only provisional is not recorded; one that does not fit leaves the
/// rows as they are, and the location in need of another pass.
pub proof fn other_findings_are_not_recorded(
    before: Store,
    after: Store,
    c: Candidate,
    path: Seq<u8>,
    json: Seq<u8>,
)
    requires
        entered(before, after, c, path, json),
        c.provisional || !fits(before.index, before.limits, c.id@, path, json),
    ensures
        after.index.rows@ == before.index.rows@,
        !c.provisional && !unchanged(before.index.rows@, path, json) ==> after.journal.needs_pass(
            c.root_id@,
        ),
{
    let told = choose|told: Store|
        {
            &&& #[trigger] located(
                before.index.tombstones@,
                told.index.tombstones@,
                c.id@,
                c.root_id@,
                path,
            )
            &&& told == (Store {
                index: Index { tombstones: told.index.tombstones, ..before.index },
                ..before
            })
            &&& if c.provisional || unchanged(before.index.rows@, path, json) {
                &&& met(told.journal, after.journal, c.root_id@, c.id@)
                &&& after == (Store { journal: after.journal, ..told })
            } else if !fits(told.index, told.limits, c.id@, path, json) {
                omitted(told, after, c, path, json)
            } else {
                &&& met(told.journal, after.journal, c.root_id@, c.id@)
                &&& if buried(told.index, c.id@) {
                    after == (Store { journal: after.journal, ..told })
                } else {
                    &&& exists|row: IndexRow| #[trigger]
                        row_is(row, c, path, json) && after.index.rows@ == placed(
                            told.index.rows@,
                            row,
                        )
                    &&& after == (Store {
                        journal: after.journal,
                        index: Index {
                            rows: after.index.rows,
                            row_count: after.index.row_count,
                            payload_bytes: after.index.payload_bytes,
                            ..told.index
                        },
                        ..told
                    })
                }
            }
        };
    let list = texts(before.journal.incomplete@);
    if !list.contains(c.root_id@) {
        assert(list.push(c.root_id@)[list.len() as int] == c.root_id@);
    }
}

/// What was left out is counted for its location, on top of what was before.
pub proof fn omissions_add_up(
    before: Seq<Limited>,
    after: Seq<Limited>,
    root: Seq<char>,
    rows: int,
    bytes: int,
    reason: Seq<char>,
    i: int,
)
    requires
        limited_noted(before, after, root, rows, bytes, reason),
        rows >= 0,
        bytes >= 0,
        forall|k: int|
            0 <= k < before.len() ==> (#[trigger] before[k]).rows + rows <= u64::MAX
                && before[k].bytes + bytes <= u64::MAX,
        0 <= i < before.len(),
    ensures
        before[i].root_id@ == root ==> after[i].rows == before[i].rows + rows && after[i].bytes
            == before[i].bytes + bytes && after[i].reason@ == reason,
        before[i].root_id@ != root ==> after[i] == before[i],
        exists|k: int| 0 <= k < after.len() && (#[trigger] after[k]).root_id@ == root,
{
    if exists|k: int| 0 <= k < before.len() && (#[trigger] before[k]).root_id@ == root {
        let k = choose|k: int| 0 <= k < before.len() && (#[trigger] before[k]).root_id@ == root;
        assert(after[k].root_id@ == root);
    } else {
        assert(after[before.len() as int].root_id@ == root);
        assert(after.drop_last()[i] == after[i]);
    }
}

/// A refresh answers for the whole of its location, or for what lies at its path, below
/// it and around it; the refresh of a pair answers for these two and what is below them.
pub proof fn refreshes_answer_for_their_reach(
    root: Seq<char>,
    scope: FsPath,
    other: FsPath,
    row: IndexRow,
)
    ensures
        answers_for(root, Reach::All)(row) == (row.root_id@ == root),
        row.root_id@ != root ==> !answers_for(root, Reach::Around(scope))(row) && !answers_for(
            root,
            Reach::Pair(scope, other),
        )(row),
        row.root_id@ == root && row.path@ == scope@ ==> answers_for(
            root,
            Reach::Pair(scope, other),
        )(row),
        row.root_id@ == root && row.path@ == other@ ==> answers_for(
            root,
            Reach::Pair(scope, other),
        )(row),
{
}

/// After a complete pass exactly the rows of its location are gone that it was to meet
/// and did not; after an incomplete one none is.
pub proof fn unmet_rows_are_gone(
    before: Store,
    after: Store,
    root: Seq<char>,
    generation: Seq<char>,
    row: IndexRow,
)
    requires
        ended(before, after, root, generation, true),
    ensures
        after.index.rows@.contains(row) <==> before.index.rows@.contains(row) && !(row.root_id@
            == root && exists|i: int|
            0 <= i < before.journal.seen@.len() && (#[trigger] before.journal.seen@[i]).root_id@
                == root && before.journal.seen@[i].generation@ == generation
                && before.journal.seen@[i].candidate_id@ == row.id@
                && !before.journal.seen@[i].seen),
{
    filter_holds(before.index.rows@, survives(before.journal.seen@, root, generation));
    let seen = before.journal.seen@;
    if exists|i: int|
        0 <= i < seen.len() && (#[trigger] seen[i]).root_id@ == root && seen[i].generation@
            == generation && seen[i].candidate_id@ == row.id@ && !seen[i].seen {
        let i = choose|i: int|
            0 <= i < seen.len() && (#[trigger] seen[i]).root_id@ == root && seen[i].generation@
                == generation && seen[i].candidate_id@ == row.id@ && !seen[i].seen;
        assert(awaited(seen[i], root, generation, row.id@));
    }
}

/// Nothing is evicted as long as rows and bytes are within their targets.
pub proof fn within_the_budget_nothing_is_evicted(
    before: Store,
    after: Store,
    protected: Seq<Seq<char>>,
)
    requires
        maintained(before, after, protected),
        before.index.row_count + before.index.row_headroom <= before.limits.max_candidate_rows,
        before.index.payload_bytes + before.index.byte_headroom
            <= before.limits.max_candidate_payload_bytes,
    ensures
        after.index.rows@ == before.index.rows@,
        texts(after.journal.incomplete@) == texts(before.journal.incomplete@),
        after.index.limited@ == before.index.limited@,
{
    let start = Sweep {
        rows: before.index.row_count as int,
        bytes: before.index.payload_bytes as int,
        evicted: seq![],
        touched: seq![],
    };
    idle_sweep(
        window(before),
        start,
        protected,
        target(before.limits.max_candidate_rows, before.index.row_headroom),
        target(before.limits.max_candidate_payload_bytes, before.index.byte_headroom),
    );
    filter_all(before.index.rows@, not_among(seq![]));
}

proof fn idle_sweep(
    list: Seq<IndexRow>,
    start: Sweep,
    protected: Seq<Seq<char>>,
    rows: int,
    bytes: int,
)
    requires
        start.rows <= rows,
        start.bytes <= bytes,
    ensures
        sweep(list, start, protected, rows, bytes) == start,
    decreases list.len(),
{
    if list.len() > 0 {
        idle_sweep(list.drop_last(), start, protected, rows, bytes);
    }
}

/// A sweep either comes down to its targets or evicts every row of its list that is not
/// protected; it evicts nothing else, and goes by the order of the list.
pub proof fn a_sweep_goes_as_far_as_it_must(
    list: Seq<IndexRow>,
    start: Sweep,
    protected: Seq<Seq<char>>,
    rows: int,
    bytes: int,
    i: int,
)
    requires
        0 <= i < list.len(),
    ensures
        ({
            let end = sweep(list, start, protected, rows, bytes);
            &&& (end.rows > rows || end.bytes > bytes) && !protected.contains(list[i].id@)
                ==> end.evicted.contains(list[i].id@)
            &&& end.rows <= start.rows || end.rows == 0
        }),
        forall|id: Seq<char>| #[trigger]
            sweep(list, start, protected, rows, bytes).evicted.contains(id)
                ==> start.evicted.contains(id) || (!protected.contains(id) && exists|k: int|
                0 <= k < list.len() && (#[trigger] list[k]).id@ == id),
    decreases list.len(),
{
    let front = list.drop_last();
    let last = list.last();
    let mid = sweep(front, start, protected, rows, bytes);
    let end = sweep(list, start, protected, rows, bytes);
    assert(end == swept(mid, last, protected, rows, bytes));
    if front.len() > 0 {
        let k = if i < front.len() {
            i
        } else {
            0
        };
        a_sweep_goes_as_far_as_it_must(front, start, protected, rows, bytes, k);
    }
    if (end.rows > rows || end.bytes > bytes) && !protected.contains(list[i].id@) {
        assert(mid.rows > rows || mid.bytes > bytes);
        if i < front.len() {
            assert(front[i] == list[i]);
            assert(mid.evicted.contains(list[i].id@));
            let m = choose|m: int| 0 <= m < mid.evicted.len() && mid.evicted[m] == list[i].id@;
            assert(end.evicted[m] == list[i].id@);
        } else {
            assert(end.evicted[mid.evicted.len() as int] == last.id@);
        }
    }
    assert forall|id: Seq<char>| #[trigger] end.evicted.contains(id) implies start.evicted.contains(
        id,
    ) || (!protected.contains(id) && exists|k: int|
        0 <= k < list.len() && (#[trigger] list[k]).id@ == id) by {
        let m = choose|m: int| 0 <= m < end.evicted.len() && end.evicted[m] == id;
        if m < mid.evicted.len() {
            assert(mid.evicted[m] == id);
            assert(mid.evicted.contains(id));
            if !start.evicted.contains(id) {
                let k = choose|k: int| 0 <= k < front.len() && (#[trigger] front[k]).id@ == id;
                assert(list[k].id@ == id);
            }
        } else {
            assert(list[list.len() - 1].id@ == id);
        }
    }
}

/// What may be evicted is what no reader is at and nothing kept is near.
pub proof fn what_may_be_evicted(store: Store, row: IndexRow)
    ensures
        expendable(store.journal.active@, store.kept@)(row) <==> nothing_kept(
            store.kept@,
            row.path@,
        ) && forall|i: int|
            0 <= i < store.journal.active@.len() && (#[trigger] store.journal.active@[i]).root_id@
                == row.root_id@ ==> store.journal.active@[i].path@ != row.path@ && !begins(
                row.path@,
                store.journal.active@[i].path@.push(47u8),
            ),
{
}

/// Personal files are compared exactly when they may be suggested, nothing blocks them,
/// they were measured, are only to be moved to the trash, are large enough, are not
/// empty, and lie in a granted location.
pub proof fn personal_files_are_compared(store: Store, policy: Policy, row: IndexRow)
    ensures
        store.index.rows@.filter(comparable(store, policy)).contains(row) <==> {
            &&& store.index.rows@.contains(row)
            &&& row.candidate.kind@ == "download"@ || row.candidate.kind@ == "installer"@
                || row.candidate.kind@ == "archive"@ || row.candidate.kind@ == "largefile"@
            &&& row.candidate.suggestion_eligible
            &&& row.candidate.blocked_reason is None
            &&& !row.candidate.provisional
            &&& !row.candidate.eligible_permanent
            &&& policy.has_rule(row.candidate.kind@)
            &&& row.candidate.allocated_bytes >= policy.rule_of(row.candidate.kind@).minimum_bytes
            &&& 0 < row.candidate.identity.size <= i64::MAX
            &&& row.json@.len() <= 16384
            &&& store.has_root(row.root_id@)
        },
{
    filter_holds(store.index.rows@, comparable(store, policy));
}

/// Files are set side by side exactly where they lie on one volume and have one size.
pub proof fn files_of_one_size_are_set_side_by_side(
    rows: Seq<IndexRow>,
    device: u64,
    size: u64,
    row: IndexRow,
)
    ensures
        members(rows, (device, size)).contains(row) <==> rows.contains(row)
            && row.candidate.identity.device == device && row.candidate.identity.size == size,
{
    filter_holds(rows, crate::store::duplicates::in_bucket((device, size)));
}

/// How many files these sets hold together.
pub open spec fn together(rows: Seq<IndexRow>, list: Seq<(u64, u64)>) -> int
    decreases list.len(),
{
    if list.len() == 0 {
        0
    } else {
        together(rows, list.drop_last()) + members(rows, list.last()).len()
    }
}

/// As long as all sets together hold no more than five hundred files, none is skipped
/// and every file of every set is compared; more than five hundred never are.
pub proof fn small_selections_are_whole(
    rows: Seq<IndexRow>,
    list: Seq<(u64, u64)>,
    k: int,
    row: IndexRow,
)
    requires
        0 <= k < list.len(),
    ensures
        select(rows, list).files.len() <= 500,
        together(rows, list) <= 500 ==> {
            &&& select(rows, list).skipped == 0
            &&& select(rows, list).skipped_files == 0
            &&& select(rows, list).files.len() == together(rows, list)
            &&& members(rows, list[k]).contains(row) ==> select(rows, list).files.contains(row)
        },
    decreases list.len(),
{
    let front = list.drop_last();
    let before = select(rows, front);
    let more = members(rows, list.last());
    if front.len() > 0 {
        let m = if k < front.len() {
            k
        } else {
            0
        };
        small_selections_are_whole(rows, front, m, row);
    }
    sets_hold_files(rows, front);
    if together(rows, list) <= 500 && members(rows, list[k]).contains(row) {
        let files = before.files + more;
        if k < front.len() {
            assert(front[k] == list[k]);
            assert(before.files.contains(row));
            let m = choose|m: int| 0 <= m < before.files.len() && before.files[m] == row;
            assert(files[m] == row);
        } else {
            let m = choose|m: int| 0 <= m < more.len() && more[m] == row;
            assert(files[before.files.len() + m] == row);
        }
    }
}

proof fn sets_hold_files(rows: Seq<IndexRow>, list: Seq<(u64, u64)>)
    ensures
        together(rows, list) >= 0,
    decreases list.len(),
{
    if list.len() > 0 {
        sets_hold_files(rows, list.drop_last());
    }
}

/// A set that does not fit is skipped whole, and the ones behind it are still tried.
pub proof fn large_sets_are_skipped(rows: Seq<IndexRow>, list: Seq<(u64, u64)>, key: (u64, u64))
    ensures
        ({
            let before = select(rows, list);
            let after = select(rows, list.push(key));
            let more = members(rows, key);
            &&& before.files.len() + more.len() > 500 ==> after.files == before.files
                && after.skipped == before.skipped + 1 && after.skipped_files
                == before.skipped_files + more.len()
            &&& before.files.len() + more.len() <= 500 ==> after.files == before.files + more
                && after.skipped == before.skipped
        }),
{
    assert(list.push(key).drop_last() =~= list);
}

/// Starting over with new rules keeps nothing found, asks for every location anew, and
/// leaves grants, history and what is kept as they are.
pub proof fn starting_over_asks_for_everything(
    before: Store,
    after: Store,
    rule_version: u32,
    i: int,
)
    requires
        rebuilt(before, after, rule_version),
        0 <= i < before.roots@.len(),
    ensures
        after.index.rows@.len() == 0,
        after.rule_version == rule_version,
        keys(after.journal.pending@).contains((before.roots@[i].id@, before.roots@[i].path@)),
        after.journal.needs_pass(before.roots@[i].id@),
        after.roots == before.roots,
        after.ledger == before.ledger,
        after.kept == before.kept,
        after.foreground.summary is None,
{
    let work = crate::store::recover::root_scopes(before);
    assert(work[i] == (before.roots@[i].id@, before.roots@[i].path@));
    reopening_marks(texts(before.journal.incomplete@), work, i);
}

proof fn reopening_marks(list: Seq<Seq<char>>, work: Seq<(Seq<char>, Seq<u8>)>, i: int)
    requires
        0 <= i < work.len(),
    ensures
        reopened(list, work).contains(work[i].0),
    decreases work.len(),
{
    let front = work.drop_last();
    let before = reopened(list, front);
    let id = work.last().0;
    if i < front.len() {
        reopening_marks(list, front, i);
        assert(front[i] == work[i]);
        let m = choose|m: int| 0 <= m < before.len() && before[m] == work[i].0;
        if !before.contains(id) {
            assert(before.push(id)[m] == work[i].0);
        }
    } else if !before.contains(id) {
        assert(before.push(id)[before.len() as int] == id);
    }
}

/// Every reader that was at work in a granted location is work to be taken up again.
pub proof fn interrupted_readers_are_taken_up(store: Store, i: int)
    requires
        0 <= i < store.journal.active@.len(),
        store.has_root(store.journal.active@[i].root_id@),
    ensures
        abandoned(store).contains(
            (store.journal.active@[i].root_id@, store.journal.active@[i].path@),
        ),
{
    let all = keys(store.journal.active@);
    let key = (store.journal.active@[i].root_id@, store.journal.active@[i].path@);
    assert(all[i] == key);
    assert(all.contains(key));
    filter_holds(all, crate::store::recover::known(store));
    let front = all.filter(crate::store::recover::known(store));
    assert(crate::store::recover::known(store)(key));
    assert(front.contains(key));
    let m = choose|m: int| 0 <= m < front.len() && front[m] == key;
    assert(abandoned(store)[m] == key);
}

/// A finding is first seen without sizes, as provisional and blocked until it was
/// measured; its age is that of the later of its own change and its evidence's.
pub proof fn findings_are_first_seen_provisionally(
    root_id: Seq<char>,
    path: Seq<u8>,
    meta: EntryMeta,
    found: Found,
)
    requires
        i64::MIN <= found.latest <= i64::MAX,
    ensures
        ({
            let c = first_sight(root_id, path, meta, found);
            &&& c.provisional && !c.suggestion_eligible && !c.eligible_permanent
            &&& c.blocked_reason is Some
            &&& c.allocated_bytes == 0 && c.logical_bytes == 0 && c.file_count == 0
            &&& c.root_id == root_id && c.path == path && c.kind == found.kind
            &&& c.title == found.title && c.explanation == found.explanation
            &&& c.consequence == found.consequence && c.evidence == found.fingerprint
            &&& c.identity == meta.identity
            &&& c.modified_ns >= meta.identity.modified_ns && c.modified_ns >= found.latest
            &&& c.modified_ns == meta.identity.modified_ns || c.modified_ns == found.latest
        }),
{
}

/// A measurement gives a finding its sizes and can only make it younger.
pub proof fn measuring_fills_in_the_sizes(c: Sighting, m: crate::evidence::Measurement)
    ensures
        measured_sight(c, m).allocated_bytes == m.allocated_bytes,
        measured_sight(c, m).logical_bytes == m.logical_bytes,
        measured_sight(c, m).file_count == m.files,
        measured_sight(c, m).fingerprint == m.fingerprint@,
        measured_sight(c, m).modified_ns >= c.modified_ns,
        measured_sight(c, m).modified_ns >= m.latest_modified_ns,
        measured_sight(c, m).id == c.id && measured_sight(c, m).path == c.path && measured_sight(
            c,
            m,
        ).kind == c.kind && measured_sight(c, m).evidence == c.evidence,
{
}

/// Every entry that is met counts. A local file on the volume counts with its sizes
/// under the first of its names; a folder counts as a folder; a placeholder or an entry
/// of another volume counts as no more than an entry.
pub proof fn entries_are_counted(
    stats: Counters,
    links: LinkState,
    meta: EntryMeta,
    device: u64,
)
    requires
        stats.entries < u64::MAX,
        stats.files < u64::MAX,
        stats.directories < u64::MAX,
        stats.logical_bytes + meta.identity.size <= u64::MAX,
        stats.allocated_bytes + meta.allocated <= u64::MAX,
    ensures
        tallied(stats, links, meta, device).entries == stats.entries + 1,
        meta.identity.device != device || meta.flags & 0x4000_0000 != 0 ==> tallied(
            stats,
            links,
            meta,
            device,
        ) == (Counters { entries: (stats.entries + 1) as u64, ..stats }),
        meta.identity.device == device && meta.flags & 0x4000_0000 == 0 && meta.identity.mode
            & 0o170000 == 0o040000 ==> tallied(stats, links, meta, device).directories
            == stats.directories + 1 && tallied(stats, links, meta, device).files == stats.files,
        meta.identity.device == device && meta.flags & 0x4000_0000 == 0 && meta.identity.mode
            & 0o170000 == 0o100000 ==> {
            let after = tallied(stats, links, meta, device);
            let first = meta.links <= 1 || (!links.seen.contains(link_key(meta.identity))
                && links.seen.len() < links.limit);
            &&& after.files == stats.files + 1
            &&& after.directories == stats.directories
            &&& after.allocated_bytes == stats.allocated_bytes + if first {
                meta.allocated as int
            } else {
                0
            }
            &&& after.logical_bytes == stats.logical_bytes + if first {
                meta.identity.size as int
            } else {
                0
            }
        },
        tallied(stats, links, meta, device).errors == stats.errors,
        tallied(stats, links, meta, device).skipped == stats.skipped,
{
    assert(!(meta.dir() && meta.file()));
}

/// A file with several names is remembered as long as there is room, and where there is
/// none that is remembered too.
pub proof fn links_are_remembered(links: LinkState, meta: EntryMeta, device: u64)
    requires
        meta.identity.device == device,
        meta.flags & 0x4000_0000 == 0,
        meta.identity.mode & 0o170000 == 0o100000,
    ensures
        meta.links > 1 && links.seen.len() < links.limit ==> linked(
            links,
            meta,
            device,
        ).seen.contains(link_key(meta.identity)),
        meta.links <= 1 ==> linked(links, meta, device) == links,
        meta.links > 1 && !links.seen.contains(link_key(meta.identity)) && links.seen.len()
            >= links.limit ==> linked(links, meta, device).full,
{
}

/// A refresh around a path answers for what is there, for what lies below it, and for
/// every folder above it that was found; not for what lies beside it.
pub proof fn refreshes_reach_around_their_path(
    root: Seq<char>,
    scope: FsPath,
    row: IndexRow,
    rest: Seq<u8>,
)
    requires
        row.root_id@ == root,
    ensures
        row.path@ == scope@ ==> answers_for(root, Reach::Around(scope))(row),
        scope@ != seq![47u8] && row.path@ == scope@ + seq![47u8] + rest ==> answers_for(
            root,
            Reach::Around(scope),
        )(row) && answers_for(root, Reach::Pair(scope, scope))(row),
        parent_of(scope@) == Some(row.path@) ==> answers_for(root, Reach::Around(scope))(row)
            && (row.path@ != scope@ && !begins(row.path@, below(scope@)) ==> !answers_for(
            root,
            Reach::Pair(scope, scope),
        )(row)),
        !begins(row.path@, below(scope@)) && !above(row.path@, scope@) ==> !answers_for(
            root,
            Reach::Around(scope),
        )(row),
{
    above_step(row.path@, scope@);
    if scope@ != seq![47u8] && row.path@ == scope@ + seq![47u8] + rest {
        assert(root_path() =~= seq![47u8]);
        let head = scope@.push(47u8);
        assert(row.path@.take(head.len() as int) =~= head);
    }
    if parent_of(scope@) == Some(row.path@) {
        above_step(row.path@, row.path@);
    }
}

/// Clearing a place takes every finding of its location at it, below it and above it,
/// or all of the location, and no other.
pub proof fn clearing_takes_the_place(
    rows: Seq<IndexRow>,
    root: Seq<char>,
    scope: FsPath,
    row: IndexRow,
)
    ensures
        rows.filter(cleared_of(root, None)).contains(row) <==> rows.contains(row) && row.root_id@
            != root,
        rows.filter(cleared_of(root, Some(scope))).contains(row) <==> rows.contains(row) && (
        row.root_id@ != root || (!begins(row.path@, scope@.push(47u8)) && !above(
            row.path@,
            scope@,
        ))),
        rows.filter(of_root(root)).contains(row) <==> rows.contains(row) && row.root_id@ == root,
        rows.filter(other_row(root)).contains(row) <==> rows.contains(row) && row.id@ != root,
{
    filter_holds(rows, cleared_of(root, None));
    filter_holds(rows, cleared_of(root, Some(scope)));
    filter_holds(rows, of_root(root));
    filter_holds(rows, other_row(root));
}

/// What is waiting at the place of a refresh, or below it, need not be looked at again;
/// everything else stays.
pub proof fn refreshes_spare_waiting_scopes(
    pending: Seq<Scope>,
    root: Seq<char>,
    scope: Seq<u8>,
    other: Scope,
)
    ensures
        after_discard(pending, root, scope, None).contains(other) <==> pending.contains(other) && (
        other.root_id@ != root || (other.path@ != scope && !begins(other.path@, below(scope)))),
{
    filter_holds(pending, outside_scope(root, scope));
}

/// Sets of equal files come by the space that they take together, the largest first;
/// then by their volume, and then by their size.
pub proof fn the_largest_sets_come_first(rows: Seq<IndexRow>, a: (u64, u64), b: (u64, u64))
    ensures
        allocation(members(rows, a)) > allocation(members(rows, b)) ==> bucket_first(rows, a, b)
            && !bucket_first(rows, b, a),
        allocation(members(rows, a)) == allocation(members(rows, b)) && a.0 < b.0
            ==> bucket_first(rows, a, b) && !bucket_first(rows, b, a),
        allocation(members(rows, a)) == allocation(members(rows, b)) && a.0 == b.0 && a.1 > b.1
            ==> bucket_first(rows, a, b) && !bucket_first(rows, b, a),
        !bucket_first(rows, a, a),
{
}

/// The space that files take together is the sum of what each takes.
pub proof fn allocations_add_up(rows: Seq<IndexRow>, row: IndexRow)
    ensures
        allocation(rows.push(row)) == allocation(rows) + row.candidate.allocated_bytes,
        allocation(Seq::<IndexRow>::empty()) == 0,
        payload(rows.push(row)) == payload(rows) + row.json@.len() + row.path@.len() + 64,
        payload(Seq::<IndexRow>::empty()) == 0,
{
    assert(rows.push(row).drop_last() =~= rows);
}

/// No more than a thousand and twenty-four sets are gone through, the first ones.
pub proof fn the_first_sets_are_gone_through(list: Seq<(u64, u64)>)
    ensures
        list.len() <= 1024 ==> first_buckets(list) == list,
        list.len() > 1024 ==> first_buckets(list) == list.take(1024),
{
}

/// A refresh that was interrupted is taken up at its place, or for the whole of its
/// location.
pub proof fn interrupted_refreshes_are_taken_up(store: Store, i: int)
    requires
        0 <= i < store.journal.refreshes@.len(),
        store.has_root(store.journal.refreshes@[i].root_id@),
    ensures
        abandoned(store).contains(
            (
                store.journal.refreshes@[i].root_id@,
                match store.journal.refreshes@[i].scope {
                    Some(path) => path@,
                    None => store.root_of(store.journal.refreshes@[i].root_id@).path@,
                },
            ),
        ),
{
    let refresh = store.journal.refreshes@[i];
    let key = (
        refresh.root_id@,
        match refresh.scope {
            Some(path) => path@,
            None => store.root_of(refresh.root_id@).path@,
        },
    );
    let known = crate::store::recover::known(store);
    let all = store.journal.refreshes@.map_values(crate::store::recover::refresh_key(store));
    assert(all[i] == key);
    assert(all.contains(key));
    filter_holds(all, known);
    assert(known(key));
    let back = all.filter(known);
    assert(back.contains(key));
    let front = keys(store.journal.active@).filter(known);
    let m = choose|m: int| 0 <= m < back.len() && back[m] == key;
    assert(abandoned(store)[front.len() + m] == key);
}

/// The closest finding around a path is one that holds it and that no other such
/// finding lies in.
pub proof fn the_closest_finding_encloses(
    rows: Seq<IndexRow>,
    root: Root,
    path: Seq<u8>,
    i: int,
    j: int,
)
    requires
        closest(rows, root, path, i),
        0 <= j < rows.len(),
        rows[j].root_id@ == root.id@,
        above(rows[j].path@, path),
        under(rows[j].path@, root.path@),
    ensures
        rows[i].root_id@ == root.id@,
        above(rows[i].path@, path),
        under(rows[i].path@, root.path@),
        above(rows[j].path@, rows[i].path@),
{
    assert(encloses(rows[j], root, path));
}

/// A finding was put aside exactly when there is a mark for its id.
pub proof fn put_aside_findings_are_marked(index: Index, id: Seq<char>, i: int)
    ensures
        0 <= i < index.tombstones@.len() && index.tombstones@[i].id@ == id ==> buried(index, id),
        (forall|k: int|
            0 <= k < index.tombstones@.len() ==> (#[trigger] index.tombstones@[k]).id@ != id)
            ==> !buried(index, id),
{
}

} // verus!
