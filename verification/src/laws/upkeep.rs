//! What is remembered, queued and taken up again.
use crate::digest::Digest;
use crate::evidence::Found;
use crate::manifest::{
    manifest_weight, patterns_weight, CachedManifestWorkspaces, ManifestWorkspaceCache,
};
use crate::model::{Candidate, EntryMeta, ForegroundScan, Root};
use crate::paths::{components, parent_of, parent_parts, plainly_spelled, scope_outcome, under, FsPath};
use crate::pnpm::{lock_importers, texts};
use crate::pnpm_cache::{key_bytes, pnpm_weight, CachedPnpm, PnpmLockCache};
use crate::scanner::lockfile::{hidden_findings, receive_all, receive_one, LockState};
use crate::scanner::review::{holder_of, project_of, Review};
use crate::scanner::start::{
    lanes_of, lanes_step, path_views, starts_as, LaneFact, LaneStep, ScanStart, Setting,
};
use crate::scanner::state::{kept_over, Plan, ScanMode, StartView};
use crate::scanner::validate::folders_below;
use crate::sightings::{Counters, Sighting, Spot};
use crate::sources::{admitted, content_bytes, CachedContent, ContentCache};
use crate::storage_inventory::report::{os_failure, IssueKind, OsFailure};
use crate::store::batch::{
    admission_noted, generation_of, met, omitted, other_seen, refreshing, refreshing_at, batch_failure, entered, entered_all};
use crate::store::claims::{was_limited, begin_result, is_current, ScopeRefresh};
use crate::store::duplicates::{bucket_list, members};
use crate::store::foreground::{same_scan, same_summary};
use crate::store::marks::{limit_message, omitted_bytes, omitted_rows, open_message};
use crate::store::queue::{covered, enqueue_covers, enqueue_keeps_cover, enqueued_all};
use crate::store::recover::work_failure;
use crate::store::refresh::{
    answers_for, begun, reach_of, scope_choice, scope_view, stays_buried, Reach,
};
use crate::store::telemetry::reported;
use crate::store::{
    Admission, Foreground, IndexRow, Journal, Limited, Seen, Store, Tombstone,
};
use crate::tables::filter_holds;
use crate::text::digits;
use vstd::prelude::*;
use vstd::utf8::encode_utf8;

verus! {

/// A finding can be recorded exactly where its path is a scope and its record can be
/// counted; a batch exactly where all of its findings can.
pub proof fn batches_are_recorded_whole(findings: Seq<Candidate>, json: Seq<Vec<u8>>)
    requires
        findings.len() == json.len(),
    ensures
        batch_failure(findings, json) is None <==> forall|i: int|
            0 <= i < findings.len() ==> {
                let c = #[trigger] findings[i];
                &&& scope_outcome(c.path@) is Ok
                &&& c.provisional || json[i]@.len() + scope_outcome(c.path@)->Ok_0.len() + 64
                    <= i64::MAX
            },
    decreases findings.len(),
{
    if findings.len() > 0 {
        let front = findings.drop_last();
        let less = json.drop_last();
        batches_are_recorded_whole(front, less);
        assert forall|i: int| 0 <= i < front.len() implies #[trigger] front[i] == findings[i]
            && less[i] == json[i] by {}
        if batch_failure(findings, json) is None {
            assert forall|i: int| 0 <= i < findings.len() implies {
                let c = #[trigger] findings[i];
                &&& scope_outcome(c.path@) is Ok
                &&& c.provisional || json[i]@.len() + scope_outcome(c.path@)->Ok_0.len() + 64
                    <= i64::MAX
            } by {
                if i < front.len() {
                    assert(front[i] == findings[i]);
                }
            }
        } else if forall|i: int|
            0 <= i < findings.len() ==> {
                let c = #[trigger] findings[i];
                &&& scope_outcome(c.path@) is Ok
                &&& c.provisional || json[i]@.len() + scope_outcome(c.path@)->Ok_0.len() + 64
                    <= i64::MAX
            } {
            assert forall|i: int| 0 <= i < front.len() implies {
                let c = #[trigger] front[i];
                &&& scope_outcome(c.path@) is Ok
                &&& c.provisional || less[i]@.len() + scope_outcome(c.path@)->Ok_0.len() + 64
                    <= i64::MAX
            } by {
                assert(front[i] == findings[i]);
            }
            assert(scope_outcome(findings[findings.len() - 1].path@) is Ok);
        }
    }
}

/// The findings of a batch are entered one after the other, each at its scope.
pub proof fn batches_are_entered_in_order(
    before: Store,
    mid: Store,
    after: Store,
    findings: Seq<Candidate>,
    json: Seq<Vec<u8>>,
    c: Candidate,
    record: Vec<u8>,
)
    requires
        findings.len() == json.len(),
    ensures
        entered_all(before, mid, findings, json) && entered(
            mid,
            after,
            c,
            scope_outcome(c.path@)->Ok_0,
            record@,
        ) ==> entered_all(before, after, findings.push(c), json.push(record)),
        entered_all(before, after, findings, json) && findings.len() == 0 ==> after == before,
{
    let more = findings.push(c);
    let records = json.push(record);
    assert(more.drop_last() =~= findings);
    assert(records.drop_last() =~= json);
    if entered_all(before, mid, findings, json) && entered(
        mid,
        after,
        c,
        scope_outcome(c.path@)->Ok_0,
        record@,
    ) {
        assert(entered_all(before, mid, more.drop_last(), records.drop_last()));
        assert(entered(
            mid,
            after,
            more.last(),
            scope_outcome(more.last().path@)->Ok_0,
            records.last()@,
        ));
    }
}

/// A refresh that begins awaits every row that it answers for, keeps every row, and
/// gives up the marks of what was put aside in its reach and no others.
pub proof fn beginning_awaits_what_is_known(
    before: Store,
    after: Store,
    root: Seq<char>,
    scope: Option<FsPath>,
    generation: Seq<char>,
    reach: Reach,
    row: IndexRow,
    mark: Tombstone,
)
    requires
        begun(before, after, root, scope, generation, reach),
    ensures
        before.index.rows@.contains(row) && row.root_id@ == root && reach.holds(row.path@)
            ==> exists|i: int|
            0 <= i < after.journal.seen@.len() && (#[trigger] after.journal.seen@[i]).root_id@
                == root && after.journal.seen@[i].generation@ == generation
                && after.journal.seen@[i].candidate_id@ == row.id@ && !after.journal.seen@[i].seen,
        after.index.rows@ == before.index.rows@,
        after.index.tombstones@.contains(mark) <==> before.index.tombstones@.contains(mark) && !(
        mark.location is Some && mark.location->Some_0.root_id@ == root && reach.holds(
            mark.location->Some_0.path@,
        )),
        after.journal.refreshes@.last().root_id@ == root,
        after.journal.refreshes@.last().generation@ == generation,
        after.journal.refreshes@.last().scope == scope,
{
    filter_holds(before.index.tombstones@, stays_buried(root, reach));
    filter_holds(before.index.rows@, answers_for(root, reach));
    let rows = before.index.rows@.filter(answers_for(root, reach));
    if before.index.rows@.contains(row) && row.root_id@ == root && reach.holds(row.path@) {
        assert(answers_for(root, reach)(row));
        assert(rows.contains(row));
        let i = choose|i: int| 0 <= i < rows.len() && rows[i] == row;
        let n = before.journal.seen@.filter(crate::store::refresh::seen_elsewhere(root)).len();
        let seen = after.journal.seen@[n + i];
        assert(crate::store::refresh::awaited(seen, root, generation, rows[i].id@));
    }
}

/// A refresh of a location reaches all of it, one of a path what is around the path;
/// the path is brought into its plain spelling first.
pub proof fn refreshes_choose_their_reach(path: FsPath, scope: Seq<u8>)
    ensures
        reach_of(None) is All,
        reach_of(Some(path)) == Reach::Around(path),
        scope_choice(None) == Ok::<Option<Seq<u8>>, Seq<char>>(None),
        scope_outcome(path@) == Ok::<Seq<u8>, Seq<char>>(scope) ==> scope_choice(Some(path))
            == Ok::<Option<Seq<u8>>, Seq<char>>(Some(scope)),
        scope_outcome(path@) is Err ==> scope_choice(Some(path)) is Err,
{
}

/// A refresh that began is the current one of its location, which needs a pass until
/// it ends.
pub proof fn what_began_is_current(
    before: Store,
    after: Store,
    root: Root,
    claimed: Seq<u8>,
    scope: Option<FsPath>,
    sibling: Option<FsPath>,
    generation: Seq<char>,
    refresh: ScopeRefresh,
)
    requires
        begin_result(before, after, root, claimed, scope, sibling, generation, refresh),
    ensures
        is_current(after.journal, refresh),
        after.journal.needs_pass(root.id@),
        refresh.was_incomplete == before.journal.needs_pass(root.id@),
        refresh.root@ == root.id@,
        refresh.generation@ == generation,
        Ok::<Seq<u8>, Seq<char>>(refresh.claimed@) == Ok::<Seq<u8>, Seq<char>>(
            scope_outcome(claimed)->Ok_0,
        ),
        scope is None <==> refresh.scope is None,
        after.index.rows@ == before.index.rows@,
        after.journal.active == before.journal.active,
        after.ledger == before.ledger,
{
    let reach = choose|reach: Reach| #[trigger]
        begun(before, after, root.id@, refresh.scope, generation, reach);
    let last = after.journal.refreshes@.len() - 1;
    assert(crate::store::refresh::refresh_at(
        after.journal.refreshes@,
        refresh.root@,
        scope_view(refresh.scope),
        last,
    ));
    let list = texts(before.journal.incomplete@);
    if !list.contains(root.id@) {
        assert(list.push(root.id@)[list.len() as int] == root.id@);
    }
}

/// Of several scopes that are queued together every one is covered afterwards.
pub proof fn all_scopes_are_queued(
    queue: Seq<(Seq<char>, Seq<u8>)>,
    root: Seq<char>,
    root_path: Seq<u8>,
    paths: Seq<Seq<u8>>,
    i: int,
)
    requires
        0 <= i < paths.len(),
        forall|k: int|
            0 <= k < paths.len() ==> under(#[trigger] paths[k], root_path) && plainly_spelled(
                paths[k],
            ),
    ensures
        covered(enqueued_all(queue, root, root_path, paths), root, root_path, paths[i]),
    decreases paths.len(),
{
    let front = paths.drop_last();
    let mid = enqueued_all(queue, root, root_path, front);
    assert(under(paths[paths.len() - 1], root_path));
    if i < front.len() {
        assert forall|k: int| 0 <= k < front.len() implies under(#[trigger] front[k], root_path)
            && plainly_spelled(front[k]) by {
            assert(front[k] == paths[k]);
        }
        all_scopes_are_queued(queue, root, root_path, front, i);
        assert(front[i] == paths[i]);
        enqueue_keeps_cover(mid, root, root_path, paths.last(), paths[i]);
    } else {
        enqueue_covers(mid, root, root_path, paths.last());
    }
}

/// Work can be taken up exactly where every part of it is a scope of a granted location.
pub proof fn work_can_be_taken_up(store: Store, work: Seq<(Seq<char>, Seq<u8>)>)
    ensures
        work_failure(store, work) is None <==> forall|i: int|
            0 <= i < work.len() ==> {
                let part = #[trigger] work[i];
                &&& scope_outcome(part.1) is Ok
                &&& store.has_root(part.0)
                &&& under(scope_outcome(part.1)->Ok_0, store.root_of(part.0).path@)
            },
    decreases work.len(),
{
    if work.len() > 0 {
        let front = work.drop_last();
        work_can_be_taken_up(store, front);
        assert forall|i: int| 0 <= i < front.len() implies #[trigger] front[i] == work[i] by {}
        if work_failure(store, work) is None {
            assert forall|i: int| 0 <= i < work.len() implies {
                let part = #[trigger] work[i];
                &&& scope_outcome(part.1) is Ok
                &&& store.has_root(part.0)
                &&& under(scope_outcome(part.1)->Ok_0, store.root_of(part.0).path@)
            } by {
                if i < front.len() {
                    assert(front[i] == work[i]);
                }
            }
        } else if forall|i: int|
            0 <= i < work.len() ==> {
                let part = #[trigger] work[i];
                &&& scope_outcome(part.1) is Ok
                &&& store.has_root(part.0)
                &&& under(scope_outcome(part.1)->Ok_0, store.root_of(part.0).path@)
            } {
            assert forall|i: int| 0 <= i < front.len() implies {
                let part = #[trigger] front[i];
                &&& scope_outcome(part.1) is Ok
                &&& store.has_root(part.0)
                &&& under(scope_outcome(part.1)->Ok_0, store.root_of(part.0).path@)
            } by {
                assert(front[i] == work[i]);
            }
            assert(store.has_root(work[work.len() - 1].0));
        }
    }
}

/// What was left out of several locations adds up.
pub proof fn omissions_are_summed(limited: Seq<Limited>, more: Limited)
    ensures
        omitted_rows(limited.push(more)) == omitted_rows(limited) + more.rows,
        omitted_bytes(limited.push(more)) == omitted_bytes(limited) + more.bytes,
        omitted_rows(Seq::<Limited>::empty()) == 0,
        omitted_bytes(Seq::<Limited>::empty()) == 0,
{
    assert(limited.push(more).drop_last() =~= limited);
}

/// What is told of it holds the numbers, and asks for a complete pass.
pub proof fn omissions_are_told(
    subject: Seq<char>,
    rows: u64,
    bytes: u64,
    count: nat,
    entries: u64,
)
    ensures
        limit_message(subject, rows as int, bytes as int) == subject + digits(rows as nat)
            + " observations / "@ + digits(bytes as nat)
            + " payload bytes omitted); complete reconciliation is required."@,
        open_message(count, entries) == digits(count)
            + " authorized location(s) still need complete reconciliation. "@ + digits(
            entries as nat,
        ) + " entries checked in the latest pass."@,
{
}

/// A count that is not positive is reported as none.
pub proof fn counts_are_reported(n: i64)
    ensures
        n >= 0 ==> reported(n) == n,
        n < 0 ==> reported(n) == 0,
{
}

/// A summary is the same exactly when its record is and everything that it says.
pub proof fn same_summaries_are_known(foreground: Foreground, scan: ForegroundScan, json: Seq<u8>)
    requires
        json.len() <= 65536,
        foreground.summary is Some,
        foreground.summary->Some_0.scan == Some(scan),
    ensures
        same_summary(foreground, scan, json) <==> foreground.summary->Some_0.json@ == json,
        same_scan(scan, scan),
{
}

/// Where every place of a scan is there and none is kept, it starts from all of them,
/// each in its lane.
pub proof fn every_place_is_started_from(
    plan: Plan,
    requested: Seq<Seq<u8>>,
    facts: Seq<LaneFact>,
    places: Seq<FsPath>,
    metas: Seq<EntryMeta>,
    n: int,
)
    requires
        0 <= n <= requested.len() <= usize::MAX,
        facts.len() == requested.len(),
        places.len() == requested.len(),
        metas.len() == requested.len(),
        forall|i: int| 0 <= i < n ==> !kept_over(plan.kept@, #[trigger] requested[i]),
        forall|i: int|
            0 <= i < n ==> (#[trigger] facts[i]).place == Some(Ok::<FsPath, String>(places[i]))
                && facts[i].meta == Some(Ok::<Option<EntryMeta>, String>(Some(metas[i]))),
    ensures
        lanes_step(plan, requested, facts, n, None) matches LaneStep::Have(opening)
            && opening.skipped == 0 && opening.errors == 0 && opening.next.len() == n && forall|
            i: int,
        |
            0 <= i < n ==> #[trigger] opening.next[i] == (StartView {
                entry: Spot { path: places[i]@, meta: metas[i] },
                lane: i as usize,
            }),
    decreases n,
{
    if n > 0 {
        every_place_is_started_from(plan, requested, facts, places, metas, n - 1);
        let before = lanes_step(plan, requested, facts, n - 1, None)->Have_0;
        assert(!kept_over(plan.kept@, requested[n - 1]));
        assert(facts[n - 1].place == Some(Ok::<FsPath, String>(places[n - 1])));
        let opening = lanes_step(plan, requested, facts, n, None)->Have_0;
        assert forall|i: int| 0 <= i < n implies #[trigger] opening.next[i] == (StartView {
            entry: Spot { path: places[i]@, meta: metas[i] },
            lane: i as usize,
        }) by {
            if i < n - 1 {
                assert(opening.next[i] == before.next[i]);
            }
        }
    }
}

/// A scan starts with what it was asked for: the location, what is kept, the mode and
/// the places.
pub proof fn scans_start_as_asked(
    start: ScanStart,
    root: Root,
    scope: Option<FsPath>,
    kept: Seq<FsPath>,
    setting: Setting,
    mode: ScanMode,
)
    requires
        starts_as(start, root, scope, kept, setting, mode),
    ensures
        start.plan.root == root,
        start.plan.kept@ == kept,
        start.plan.mode == mode,
        start.plan.downloads == setting.downloads,
        start.plan.max_depth == setting.max_depth,
        start.plan.hints == setting.hints,
        start.plan.user == setting.user,
        start.link_limit == setting.link_limit,
        start.plan.lanes == start.starts@.len(),
        path_views(start.starts@) == lanes_of(root, scope, setting),
        root.kind@ == "home"@ && scope is None ==> start.plan.logical,
        root.kind@ != "home"@ ==> !start.plan.logical,
{
}

/// The folders that could hold a nearer repository are those between the entry and the
/// work tree, which is not one of them.
pub proof fn nearer_repositories_lie_between(path: Seq<u8>, tree: Seq<u8>, above: Seq<u8>)
    requires
        parent_of(path) == Some(above),
    ensures
        components(above) == components(tree) ==> folders_below(path, tree).len() == 0,
        components(above) != components(tree) ==> folders_below(path, tree) == seq![above]
            + folders_below(above, tree),
{
    parent_parts(path);
}

/// The project of a finding is the one that its evidence names, else the folder that
/// holds it.
pub proof fn findings_have_their_project(found: Found, path: Seq<u8>)
    ensures
        found.activity_root matches Some(project) ==> project_of(found, path) == project,
        found.activity_root is None ==> project_of(found, path) == holder_of(path),
        parent_of(path) matches Some(above) ==> holder_of(path) == above,
        parent_of(path) is None ==> holder_of(path) == path,
{
}

/// The refresh of a lockfile hides what its parts count as findings, and keeps all
/// other counts.
pub proof fn parts_count_no_findings(stats: Counters)
    ensures
        hidden_findings(stats).candidates == 0,
        hidden_findings(stats).first_finding_ms is None,
        hidden_findings(stats) == (Counters {
            candidates: 0,
            first_finding_ms: None,
            ..stats
        }),
{
}

/// Findings are received one after the other, and the last one stands.
pub proof fn findings_are_received_in_order(state: LockState, list: Seq<Sighting>, next: Sighting)
    ensures
        receive_all(state, list.push(next)) == receive_one(receive_all(state, list), next),
        receive_all(state, Seq::<Sighting>::empty()) == state,
{
    assert(list.push(next).drop_last() =~= list);
}

/// What the system refuses is told as what it is.
pub proof fn refusals_of_the_system_are_told()
    ensures
        os_failure(OsFailure::Denied).kind == IssueKind::PermissionDenied,
        os_failure(OsFailure::Loop).kind == IssueKind::Symlink,
        os_failure(OsFailure::Missing).kind == IssueKind::Changed,
        os_failure(OsFailure::NotFolder).kind == IssueKind::Changed,
        os_failure(OsFailure::Other).kind == IssueKind::Unavailable,
{
}

/// Files are compared in sets of two or more, and every such set is there.
pub proof fn every_pair_is_a_set(rows: Seq<IndexRow>, list: Seq<(u64, u64)>, a: int, b: int)
    requires
        bucket_list(rows, list),
        0 <= a < b < rows.len(),
        rows[a].candidate.identity.device == rows[b].candidate.identity.device,
        rows[a].candidate.identity.size == rows[b].candidate.identity.size,
    ensures
        list.contains((rows[a].candidate.identity.device, rows[a].candidate.identity.size)),
{
    let key = (rows[a].candidate.identity.device, rows[a].candidate.identity.size);
    let keep = crate::store::duplicates::in_bucket(key);
    two_are_kept(rows, keep, a, b);
    assert(members(rows, key).len() > 1);
}

proof fn two_are_kept(rows: Seq<IndexRow>, keep: spec_fn(IndexRow) -> bool, a: int, b: int)
    requires
        0 <= a < b < rows.len(),
        keep(rows[a]),
        keep(rows[b]),
    ensures
        rows.filter(keep).len() >= 2,
{
    let front = rows.take(a + 1);
    let back = rows.skip(a + 1);
    assert(front + back =~= rows);
    crate::tables::filter_add(front, back, keep);
    filter_holds(front, keep);
    filter_holds(back, keep);
    assert(front[a] == rows[a]);
    assert(front.contains(rows[a]));
    assert(back[b - a - 1] == rows[b]);
    assert(back.contains(rows[b]));
    assert(front.filter(keep).contains(rows[a]));
    assert(back.filter(keep).contains(rows[b]));
}

/// A set of one is none.
pub proof fn a_single_file_is_no_set(rows: Seq<IndexRow>, list: Seq<(u64, u64)>, key: (u64, u64))
    requires
        bucket_list(rows, list),
        members(rows, key).len() <= 1,
    ensures
        !list.contains(key),
{
}

proof fn content_splits(entries: Seq<CachedContent>, k: int)
    requires
        0 <= k <= entries.len(),
    ensures
        content_bytes(entries) == content_bytes(entries.take(k)) + content_bytes(entries.skip(k)),
        content_bytes(entries) >= 0,
    decreases entries.len(),
{
    if k < entries.len() {
        let front = entries.drop_last();
        content_splits(front, k);
        assert(front.take(k) =~= entries.take(k));
        assert(front.skip(k) =~= entries.skip(k).drop_last());
        assert(entries.skip(k).last() == entries.last());
    } else {
        assert(entries.take(k) =~= entries);
        assert(entries.skip(k).len() == 0);
        if entries.len() > 0 {
            content_splits(entries.drop_last(), entries.len() - 1);
        }
    }
}

/// What is read once is remembered, and while there is room for it nothing else is
/// forgotten: up to sixty-four files of sixteen mebibytes together.
pub proof fn what_is_read_is_remembered(
    before: Seq<CachedContent>,
    after: Seq<CachedContent>,
    row: CachedContent,
    dropped: int,
)
    requires
        admitted(before, after, row, dropped),
    ensures
        after.last() == row,
        before.len() < 64 && content_bytes(before) + row.source.bytes@.len() <= 16 * 1024 * 1024
            ==> after == before.push(row),
        ContentCache::has_room(before, row.source.bytes@.len() as int) <==> before.len() < 64
            && content_bytes(before) + row.source.bytes@.len() <= 16 * 1024 * 1024,
{
    if before.len() < 64 && content_bytes(before) + row.source.bytes@.len() <= 16 * 1024 * 1024 {
        if dropped > 0 {
            content_splits(before, dropped - 1);
            content_splits(before.take(dropped - 1), 0);
            assert(false);
        }
        assert(before.skip(0) =~= before);
    }
}

/// The keys of a lockfile weigh their bytes, and the patterns of a manifest theirs with
/// twenty-four for each.
pub proof fn what_is_remembered_has_its_weight(
    keys: Seq<Seq<char>>,
    key: Seq<char>,
    patterns: Seq<String>,
    pattern: String,
)
    ensures
        key_bytes(keys.push(key)) == key_bytes(keys) + encode_utf8(key).len(),
        key_bytes(Seq::<Seq<char>>::empty()) == 0,
        patterns_weight(patterns.push(pattern)) == patterns_weight(patterns) + 24 + encode_utf8(
            pattern@,
        ).len(),
        patterns_weight(Seq::<String>::empty()) == 0,
{
    assert(keys.push(key).drop_last() =~= keys);
    assert(patterns.push(pattern).drop_last() =~= patterns);
}

/// A large lockfile that was read without a failure is remembered if there are at most
/// sixty-five thousand five hundred and thirty-six members, and they fit into a mebibyte
/// beside eighty bytes for each of eight entries; a small one is not.
pub proof fn large_lockfiles_are_remembered(
    before: PnpmLockCache,
    after: PnpmLockCache,
    digest: Digest,
    source: Seq<u8>,
)
    requires
        before.entry_limit == 8,
        before.byte_limit == 1024 * 1024,
        before.served(&after, digest, source, true),
    ensures
        source.len() < 32 * 1024 ==> after == before,
        source.len() >= 32 * 1024 && lock_importers(source).0.len() <= 65536 && key_bytes(
            lock_importers(source).0,
        ) + 8 * lock_importers(source).0.len() <= 1024 * 1024 - 8 * 80 ==> after.entries@.len() > 0
            && after.entries@.last().digest@ == digest@,
        source.len() >= 32 * 1024 && before.knows(digest) ==> after.entries@.len()
            == before.entries@.len() && after.entries@.last().digest@ == digest@,
{
}

/// A large manifest that was read without a failure is remembered if its patterns fit
/// into a mebibyte beside fifty-six bytes for each of eight entries; a small one is not.
pub proof fn large_manifests_are_remembered(
    before: ManifestWorkspaceCache,
    after: ManifestWorkspaceCache,
    digest: Digest,
    source: Seq<u8>,
    list: Seq<String>,
)
    requires
        before.entry_limit == 8,
        before.byte_limit == 1024 * 1024,
    ensures
        before.served(&after, digest, source, true) && source.len() < 8 * 1024 ==> after == before,
        before.served(&after, digest, source, true) && source.len() >= 8 * 1024 && before.knows(
            digest,
        ) ==> after.entries@.len() == before.entries@.len() && after.entries@.last().digest@
            == digest@,
        before.keeps(&after, digest, source, list) && patterns_weight(list) <= 1024 * 1024 - 8 * 56
            ==> after.entries@.len() > 0 && after.entries@.last().digest@ == digest@
            && after.entries@.last().source@ == source && texts(after.entries@.last().patterns@)
            == texts(list),
        before.keeps(&after, digest, source, list) && patterns_weight(list) > 1024 * 1024 - 8 * 56
            ==> after == before,
{
}

/// A failure is not remembered.
pub proof fn failures_are_not_remembered(
    before: PnpmLockCache,
    after: PnpmLockCache,
    first: ManifestWorkspaceCache,
    second: ManifestWorkspaceCache,
    digest: Digest,
    source: Seq<u8>,
)
    ensures
        before.served(&after, digest, source, false) ==> after == before,
        first.served(&second, digest, source, false) ==> second == first,
{
}

/// A refresh that meets a finding has seen it; without a refresh nothing is noted, and
/// what was noted of other findings stays.
pub proof fn findings_that_are_met_are_seen(
    before: Journal,
    after: Journal,
    root: Seq<char>,
    id: Seq<char>,
    i: int,
    other: Seen,
)
    requires
        met(before, after, root, id),
    ensures
        0 <= i < before.refreshes@.len() && before.refreshes@[i].root_id@ == root
            ==> after.seen@.len() > 0 && after.seen@.last().seen && after.seen@.last().root_id@
            == root && after.seen@.last().candidate_id@ == id,
        0 <= i < before.refreshes@.len() && before.refreshes@[i].root_id@ == root && (forall|j: int|
            0 <= j < before.refreshes@.len() && before.refreshes@[j].root_id@ == root ==> (
            #[trigger] before.refreshes@[j]).generation@ == before.refreshes@[i].generation@)
            ==> after.seen@.last().generation@ == before.refreshes@[i].generation@,
        (forall|j: int|
            0 <= j < before.refreshes@.len() ==> (#[trigger] before.refreshes@[j]).root_id@ != root)
            ==> after == before,
        before.seen@.contains(other) && (other.root_id@ != root || other.candidate_id@ != id)
            ==> after.seen@.contains(other),
        after.refreshes@ == before.refreshes@,
        after.pending@ == before.pending@,
{
    if 0 <= i < before.refreshes@.len() && before.refreshes@[i].root_id@ == root {
        assert(refreshing_at(before, root, i));
        let c = choose|c: int| #[trigger] refreshing_at(before, root, c);
        assert(refreshing_at(before, root, c));
    }
    if refreshing(before, root) {
        let generation = generation_of(before, root);
        let keep = other_seen(root, generation, id);
        filter_holds(before.seen@, keep);
        if before.seen@.contains(other) && (other.root_id@ != root || other.candidate_id@ != id) {
            assert(keep(other));
            let front = after.seen@.drop_last();
            assert(front.contains(other));
            let k = choose|k: int| 0 <= k < front.len() && front[k] == other;
            assert(after.seen@[k] == other);
        }
    }
}

/// A refresh was limited exactly when something of its generation was left out.
pub proof fn refreshes_are_limited_by_what_they_leave_out(
    journal: Journal,
    root: Seq<char>,
    generation: Seq<char>,
)
    ensures
        was_limited(journal, root, generation) <==> exists|i: int|
            0 <= i < journal.admissions@.len() && (#[trigger] journal.admissions@[i]).root_id@ == root
                && journal.admissions@[i].generation@ == generation,
{
}

/// What is left out is counted by its location and generation, together with the bytes
/// and the latest reason.
pub proof fn what_is_left_out_is_counted(
    before: Seq<Admission>,
    after: Seq<Admission>,
    root: Seq<char>,
    generation: Seq<char>,
    bytes: int,
    reason: Seq<char>,
    i: int,
)
    requires
        admission_noted(before, after, root, generation, bytes, reason),
        0 <= i < before.len(),
    ensures
        before[i].root_id@ == root && before[i].generation@ == generation && before[i].rows
            < 1_000_000_000 && 0 <= before[i].bytes + bytes < 1_000_000_000_000 ==> after[i].rows
            == before[i].rows + 1 && after[i].bytes == before[i].bytes + bytes && after[i].reason@
            == reason && after.len() == before.len(),
        before[i].root_id@ != root || before[i].generation@ != generation ==> after[i] == before[i],
{
    if !(before[i].root_id@ == root && before[i].generation@ == generation) {
        if after.len() == before.len() + 1 {
            assert(after.drop_last()[i] == after[i]);
        }
    }
}

/// A review holds the bytes of all its texts and paths.
pub proof fn reviews_hold_their_texts(review: Review, reason: Seq<char>, leaf: Seq<u8>)
    requires
        review.blocked is None,
        review.recent_leaf is None,
    ensures
        (Review { blocked: Some(reason), ..review }).weight() == review.weight() + encode_utf8(
            reason,
        ).len(),
        (Review { recent_leaf: Some(leaf), ..review }).weight() == review.weight() + leaf.len(),
        review.candidate.blocked_reason is None ==> (Review {
            candidate: Sighting { blocked_reason: Some(reason), ..review.candidate },
            ..review
        }).weight() == review.weight() + encode_utf8(reason).len(),
        review.found.activity_root is None ==> (Review {
            found: Found { activity_root: Some(leaf), ..review.found },
            ..review
        }).weight() == review.weight() + leaf.len(),
        review.weight() >= review.entry.path.len() + review.candidate.path.len() + encode_utf8(
            review.candidate.explanation,
        ).len(),
{
}

/// There is room for more as long as there are fewer than eight entries, and all of them
/// fit into a mebibyte together.
pub proof fn remembering_has_its_limits(
    locks: PnpmLockCache,
    facts: Seq<CachedPnpm>,
    manifests: ManifestWorkspaceCache,
    lists: Seq<CachedManifestWorkspaces>,
    heap: int,
)
    requires
        locks.entry_limit == 8,
        locks.byte_limit == 1024 * 1024,
        manifests.entry_limit == 8,
        manifests.byte_limit == 1024 * 1024,
    ensures
        locks.has_room(facts, heap) <==> facts.len() < 8 && 8 * 80 + pnpm_weight(facts) + heap
            <= 1024 * 1024,
        manifests.has_room(lists, heap) <==> lists.len() < 8 && 8 * 56 + manifest_weight(lists)
            + heap <= 1024 * 1024,
{
}

/// A finding that could never fit makes no room for itself, and one that is left out is
/// counted for its location.
pub proof fn what_cannot_fit_makes_no_room(
    before: Store,
    after: Store,
    c: Candidate,
    path: Seq<u8>,
    json: Seq<u8>,
)
    requires
        omitted(before, after, c, path, json),
        json.len() > before.limits.max_candidate_json_bytes || path.len() + json.len() + 64
            > before.limits.max_candidate_payload_bytes || before.limits.max_candidate_rows == 0,
    ensures
        after.index.row_headroom == before.index.row_headroom,
        after.index.byte_headroom == before.index.byte_headroom,
{
}

} // verus!
