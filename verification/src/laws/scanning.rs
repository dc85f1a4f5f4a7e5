//! How a scan goes on from what it is told.
use crate::classify::{artifact_path, conditional_path};
use crate::evidence::{cutoff, Found, Measurement};
use crate::model::{EntryMeta, Root};
use crate::paths::{components, named, under, FsPath};
use crate::scanner::lockfile::{closing, receive_one, LockState};
use crate::scanner::press::{News, Press};
use crate::scanner::review::Review;
use crate::scanner::start::{
    lane_step, lanes_of, reader_of, routed, start_failure, FolderFacts, LaneFact, LaneStep, Opening,
    Reader, Setting,
};
use crate::scanner::state::{
    first_of_lane, kept_below, kept_over, unfinished, CaseView, ChecksView, Effort, EntryFacts,
    FrameMark, FrameView, ItemView, JobView, Listed, Listing, Plan, ScanMode, ScanState, Stage,
    StartView, Tick,
};
use crate::sightings::{first_sight, linked, tallied, Bulletin, Counters, Sighting, Spot};
use vstd::prelude::*;

verus! {

/// What a scan goes into: a real file or folder on the location's volume, in a place
/// that is scanned, that the user neither keeps nor is still downloading.
pub open spec fn scannable(plan: Plan, path: Seq<u8>, meta: EntryMeta, facts: EntryFacts) -> bool {
    &&& forall|i: int| 0 <= i < plan.kept@.len() ==> !under(path, (#[trigger] plan.kept@[i])@)
    &&& !unfinished(plan, path)
    &&& meta.identity.device == plan.root.identity.device
    &&& meta.flags & 0x4000_0000 == 0
    &&& meta.identity.mode & 0o170000 == 0o040000 || meta.identity.mode & 0o170000 == 0o100000
    &&& !facts.media
    &&& !facts.excluded
    &&& facts.library ==> facts.route_allowed
}

proof fn kinds_of(meta: EntryMeta)
    ensures
        meta.dir() == (meta.identity.mode & 0o170000 == 0o040000),
        meta.file() == (meta.identity.mode & 0o170000 == 0o100000),
        !(meta.dir() && meta.symlink()),
        !(meta.file() && meta.symlink()),
        !(meta.dir() && meta.file()),
{
}

/// An entry that was met for the first time and can be scanned is judged, and counted;
/// only a suggestion scan passes over artifacts that changed within the last week.
pub proof fn scannable_entries_are_judged(
    s: ScanState,
    item: ItemView,
    facts: EntryFacts,
    t: Tick,
)
    requires
        scannable(s.plan, item.entry.path, item.entry.meta, facts),
        item.previous is None,
        item.classify,
        components(item.entry.path) != components(s.plan.root.path@),
        s.plan.mode == ScanMode::MetadataCoverage || item.entry.meta.identity.mode & 0o170000
            == 0o100000 || !artifact_path(item.entry.path, facts.provider) || conditional_path(
            item.entry.path,
            facts.provider,
        ) || item.entry.meta.identity.modified_ns <= cutoff(t.now_ns, 7),
    ensures
        s.looked(item, facts, t) == (ScanState {
            stats: tallied(s.stats, s.links, item.entry.meta, s.plan.root.identity.device),
            links: linked(s.links, item.entry.meta, s.plan.root.identity.device),
            phase: Stage::Judging(ItemView { provider: facts.provider, ..item }),
            ..s
        }),
{
    reveal(ScanState::looked);
    kinds_of(item.entry.meta);
    assert(!kept_over(s.plan.kept@, item.entry.path));
}

/// What cannot be scanned is skipped, and nothing of it is looked at.
pub proof fn other_entries_are_skipped(
    s: ScanState,
    item: ItemView,
    facts: EntryFacts,
    t: Tick,
)
    requires
        !scannable(s.plan, item.entry.path, item.entry.meta, facts),
        item.previous is None,
    ensures
        s.looked(item, facts, t).phase is Idle,
        s.looked(item, facts, t).frontier == s.frontier,
        s.looked(item, facts, t).press == s.press,
        s.looked(item, facts, t).stats == tallied(
            s.stats,
            s.links,
            item.entry.meta,
            s.plan.root.identity.device,
        ).skip(),
{
    reveal(ScanState::looked);
    kinds_of(item.entry.meta);
    if exists|i: int|
        0 <= i < s.plan.kept@.len() && under(item.entry.path, (#[trigger] s.plan.kept@[i])@) {
        let i = choose|i: int|
            0 <= i < s.plan.kept@.len() && under(item.entry.path, (#[trigger] s.plan.kept@[i])@);
        assert(kept_over(s.plan.kept@, item.entry.path));
    }
}

/// A folder that is nothing of its own is entered as long as it is not too deep, from
/// the folder that it was found in; a file that is nothing of its own is passed.
pub proof fn ordinary_folders_are_entered(s: ScanState, item: ItemView, t: Tick)
    requires
        !artifact_path(item.entry.path, item.provider) || conditional_path(
            item.entry.path,
            item.provider,
        ),
        item.opened is None,
    ensures
        item.entry.meta.identity.mode & 0o170000 == 0o040000 && item.depth < s.plan.max_depth
            ==> s.judged(item, Ok(None), t) == (ScanState {
            phase: Stage::Entering(
                item,
                item.classify,
                if item.depth > 0 && s.frontier.len() > 0 {
                    Some(s.frontier[0].mark.id)
                } else {
                    None
                },
            ),
            ..s
        }),
        item.entry.meta.identity.mode & 0o170000 == 0o040000 && item.depth >= s.plan.max_depth
            ==> s.judged(item, Ok(None), t).phase is Idle && s.judged(item, Ok(None), t).stats
            == s.stats.skip().err(),
        item.entry.meta.identity.mode & 0o170000 != 0o040000 ==> s.judged(item, Ok(None), t).phase
            is Idle && s.judged(item, Ok(None), t).frontier == s.frontier,
{
    reveal(ScanState::judged);
    reveal(ScanState::descend);
}

/// A folder that was opened is read, with what is in it one level deeper; one that
/// could not be opened counts as an error.
pub proof fn opened_folders_are_read(
    s: ScanState,
    item: ItemView,
    classify: bool,
    id: u64,
    reason: String,
    t: Tick,
)
    requires
        s.frontier.len() < 32,
        s.stats.errors < u64::MAX,
    ensures
        s.opened(item, classify, Ok(id), t).frontier == s.frontier.push(
            FrameView {
                path: item.entry.path,
                mark: FrameMark { id, depth: item.depth, classify, lane: item.lane },
            },
        ),
        s.opened(item, classify, Ok(id), t).phase is Idle,
        s.opened(item, classify, Err(reason), t).frontier == s.frontier,
        s.opened(item, classify, Err(reason), t).stats.errors == s.stats.errors + 1,
        s.opened(item, classify, Err(reason), t).phase is Idle,
{
    reveal(ScanState::opened);
}

/// What a folder lists is met one level below it, and the files that were only counted
/// are counted; a folder is left once it was read to its end.
pub proof fn listed_entries_are_met(s: ScanState, listing: Listing, entry: crate::model::Entry, t: Tick)
    requires
        s.frontier.len() > 0,
        s.frontier[0].mark.depth < usize::MAX,
        s.stats.entries + listing.files + listing.skipped <= u64::MAX,
        s.stats.files + listing.files <= u64::MAX,
    ensures
        listing.found == Listed::Entry(entry) ==> (s.listed(Ok(listing), t).phase matches Stage::Looking(
            item,
        ) && {
            &&& item.entry == entry@
            &&& item.depth == s.frontier[0].mark.depth + 1
            &&& item.classify == s.frontier[0].mark.classify
            &&& item.lane == s.frontier[0].mark.lane
            &&& item.previous is None
        }),
        listing.found is Nothing && !listing.finished ==> s.listed(Ok(listing), t).frontier
            == s.frontier,
        listing.found is Nothing && listing.finished ==> s.listed(Ok(listing), t).frontier
            == s.frontier.skip(1),
        listing.found is Nothing && listing.finished && s.stats.errors < u64::MAX ==> s.listed(
            Ok(listing),
            t,
        ).stats.errors == s.stats.errors + if listing.changed {
            1int
        } else {
            0
        },
        s.listed(Ok(listing), t).stats.files == s.stats.files + listing.files || listing.found
            is Directory,
        listing.found matches Listed::Directory(path) ==> (!kept_over(s.plan.kept@, path@)
            ==> s.listed(Ok(listing), t).phase == Stage::Opening(path@)),
{
    reveal(ScanState::listed);
}

/// An artifact that is quiet and that nothing speaks against is measured: at once where
/// no process needs to be looked for and no file is remembered, with everything counted
/// in a coverage scan and only as far as needed for a suggestion.
pub proof fn quiet_artifacts_are_measured(s: ScanState, item: ItemView, found: Found, t: Tick)
    requires
        item.previous is None,
        item.entry.meta.identity.mode & 0o170000 == 0o040000,
        forall|i: int|
            0 <= i < s.plan.kept@.len() ==> !under(
                (#[trigger] s.plan.kept@[i])@,
                item.entry.path,
            ),
        found.blocked is None,
        !found.rules.checks_activity,
        item.entry.meta.identity.modified_ns <= cutoff(t.now_ns, found.quiet_days),
        found.latest <= cutoff(t.now_ns, found.quiet_days),
        s.plan.mode == ScanMode::Suggestions ==> !s.plan.hints,
    ensures
        s.recognized(item, found, t).phase matches Stage::Starting(review, effort) && {
            &&& review.entry == item.entry
            &&& review.found == found
            &&& review.blocked is None
            &&& review.is_dir
            &&& review.recent_leaf is None
            &&& review.candidate == first_sight(
                s.plan.root.id@,
                item.entry.path,
                item.entry.meta,
                found,
            )
            &&& effort == if s.plan.mode == ScanMode::Suggestions {
                Effort::Suggestion
            } else {
                Effort::Full
            }
        },
{
    reveal(ScanState::recognized);
    reveal(ScanState::weighed);
    reveal(ScanState::checked);
    reveal(ScanState::begin);
    assert(!kept_below(s.plan.kept@, item.entry.path));
}

/// Where processes count, a quiet artifact that nothing speaks against has them looked
/// for first, and is measured when there is none.
pub proof fn processes_are_looked_for(s: ScanState, item: ItemView, found: Found, t: Tick)
    requires
        item.previous is None,
        item.entry.meta.identity.mode & 0o170000 == 0o040000,
        forall|i: int|
            0 <= i < s.plan.kept@.len() ==> !under(
                (#[trigger] s.plan.kept@[i])@,
                item.entry.path,
            ),
        found.blocked is None,
        found.rules.checks_activity,
        item.entry.meta.identity.modified_ns <= cutoff(t.now_ns, found.quiet_days),
        found.latest <= cutoff(t.now_ns, found.quiet_days),
        s.plan.mode == ScanMode::Suggestions ==> !s.plan.hints,
    ensures
        s.recognized(item, found, t).phase matches Stage::Checking(case) && {
            &&& case.item == item
            &&& case.checks == (ChecksView { found, quiet: true, blocked: None })
            &&& s.recognized(item, found, t).active(case, None, t).phase matches Stage::Starting(
                review,
                _,
            ) && review.blocked is None && review.entry == item.entry
        },
{
    reveal(ScanState::recognized);
    reveal(ScanState::weighed);
    reveal(ScanState::checked);
    reveal(ScanState::begin);
    assert(!kept_below(s.plan.kept@, item.entry.path));
}

/// An artifact that holds something kept is passed over.
pub proof fn artifacts_around_the_kept_are_passed(
    s: ScanState,
    item: ItemView,
    found: Found,
    t: Tick,
    i: int,
)
    requires
        0 <= i < s.plan.kept@.len(),
        under(s.plan.kept@[i]@, item.entry.path),
    ensures
        s.recognized(item, found, t).phase is Idle,
        s.recognized(item, found, t).press == s.press,
{
    reveal(ScanState::recognized);
    assert(kept_below(s.plan.kept@, item.entry.path));
}

/// A measurement that could begin is queued; one that could not leaves the finding
/// blocked, with the reason.
pub proof fn measurements_are_queued(
    s: ScanState,
    review: Review,
    cursor: u64,
    t: Tick,
)
    requires
        review.weight() <= 1024 * 1024,
    ensures
        s.started(review, Ok(cursor), t).measurements == s.measurements.push(
            JobView { review, cursor },
        ),
        s.started(review, Ok(cursor), t).phase is Idle,
{
    reveal(ScanState::started);
}

/// What a measurement comes to is checked further exactly where nothing speaks against
/// it: first for what Git tracks, then for processes, then for the evidence once more.
pub proof fn clean_measurements_are_checked_further(
    s: ScanState,
    review: Review,
    m: Measurement,
    t: Tick,
)
    requires
        review.blocked is None,
        m.unsafe_reason is None,
        !m.pruned,
        m.allocated_bytes >= review.found.rules.minimum_bytes,
        m.latest_modified_ns <= cutoff(t.now_ns, review.found.quiet_days),
        review.found.latest <= cutoff(t.now_ns, review.found.quiet_days),
    ensures
        review.found.rules.checks_git ==> (s.reviewed(review, m, t).phase matches Stage::Tracking(
            judged,
        ) && judged.blocked is None && judged.candidate.allocated_bytes == m.allocated_bytes),
        !review.found.rules.checks_git && review.found.rules.checks_activity ==> s.reviewed(
            review,
            m,
            t,
        ).phase is Using,
        !review.found.rules.checks_git && !review.found.rules.checks_activity ==> s.reviewed(
            review,
            m,
            t,
        ).phase is Recalling,
        review.found.rules.checks_activity ==> s.untracked(review, None).phase == Stage::Using(
            review,
        ),
        !review.found.rules.checks_activity ==> s.untracked(review, None).phase
            == Stage::Recalling(review),
        s.unused(review, None).phase == Stage::Recalling(review),
{
    reveal(ScanState::reviewed);
    reveal(ScanState::untracked);
    reveal(ScanState::unused);
}

/// An artifact whose evidence is the same after everything else is offered: it may be
/// suggested, nothing blocks it, it is final, it may be removed permanently exactly
/// where its kind may, and it counts.
pub proof fn confirmed_artifacts_are_offered(s: ScanState, review: Review, current: Found)
    requires
        review.blocked is None,
        current.fingerprint == review.found.fingerprint,
        current.blocked is None,
        review.candidate.fingerprint.len() > 0,
        !s.stats.cancelled,
        s.stats.candidates < u64::MAX,
    ensures
        ({
            let after = s.recalled(review, Ok(Some(current)));
            &&& after.phase is Idle
            &&& after.stats.candidates == s.stats.candidates + 1
            &&& after.stats.skipped == s.stats.skipped
            &&& exists|c: Sighting, force: bool|
                {
                    &&& after.press == #[trigger] s.press.queue(c, after.stats, force)
                    &&& c.suggestion_eligible
                    &&& c.eligible_permanent == review.found.rules.permanent
                    &&& c.blocked_reason is None
                    &&& !c.provisional
                    &&& c.id == review.candidate.id
                    &&& c.path == review.candidate.path
                    &&& c.allocated_bytes == review.candidate.allocated_bytes
                }
        }),
{
    reveal(ScanState::recalled);
    reveal(ScanState::conclude);
    let after = s.recalled(review, Ok(Some(current)));
    let first = s.stats.first_finding_ms is None;
    let c = Sighting {
        blocked_reason: None,
        provisional: false,
        suggestion_eligible: true,
        eligible_permanent: review.found.rules.permanent,
        explanation: review.candidate.explanation + crate::scanner::state::offer_note(
            review.found,
            review.is_dir,
        ),
        ..review.candidate
    };
    assert(after.press == s.press.queue(c, after.stats, first));
}

/// An artifact whose evidence changed meanwhile, or that is blocked now, is shown and
/// not offered.
pub proof fn unconfirmed_artifacts_are_not_offered(
    s: ScanState,
    review: Review,
    outcome: Result<Option<Found>, Seq<char>>,
)
    requires
        outcome matches Ok(Some(current)) ==> current.fingerprint != review.found.fingerprint
            || current.blocked is Some,
    ensures
        s.recalled(review, outcome).stats.candidates == s.stats.candidates,
        exists|c: Sighting, force: bool|
            {
                &&& s.recalled(review, outcome).press == #[trigger] s.press.queue(
                    c,
                    s.recalled(review, outcome).stats,
                    force,
                )
                &&& !c.suggestion_eligible && !c.eligible_permanent
                &&& c.blocked_reason is Some
                &&& !c.provisional
            },
{
    reveal(ScanState::recalled);
    reveal(ScanState::conclude);
    let after = s.recalled(review, outcome);
    let c = Sighting {
        blocked_reason: Some("Project evidence changed during the scan; refresh this review"@),
        provisional: false,
        suggestion_eligible: false,
        eligible_permanent: false,
        explanation: if review.candidate.fingerprint.len() == 0 {
            review.candidate.explanation + crate::scanner::state::refusal_note(
                crate::scanner::state::diagnostic_reason(),
            )
        } else {
            review.candidate.explanation
        },
        ..review.candidate
    };
    assert(after.press == s.press.queue(c, after.stats, false));
}

/// A finding that is queued is published: alone among the waiting ones, or with all of
/// them in one batch once it is pressing, the time is due or there are sixty-four.
pub proof fn findings_are_published(press: Press, c: Sighting, stats: Counters, force: bool)
    requires
        press.queued.len() < 64,
    ensures
        force || press.due || press.queued.len() == 63 ==> {
            let after = press.queue(c, stats, force);
            &&& after.queued.len() == 0
            &&& after.outbox == press.outbox.push(
                News::Batch(Bulletin { candidates: press.queued.push(c), stats }),
            )
        },
        !force && !press.due && press.queued.len() < 63 ==> {
            let after = press.queue(c, stats, force);
            &&& after.queued == press.queued.push(c)
            &&& after.outbox == press.outbox
        },
{
}

/// A scan that ends is complete exactly when it was not cancelled, nothing failed, and
/// every file with several names could be told apart; what was still waiting is
/// published.
pub proof fn scans_end_complete(s: ScanState, t: Tick)
    ensures
        s.finish(t).phase is Done,
        s.finish(t).stats.complete <==> !s.stats.cancelled && s.stats.errors == 0 && !s.links.full,
        s.finish(t).stats.elapsed_ms == t.elapsed_ms,
        s.finish(t).press.queued.len() == 0,
        s.finish(t).press.outbox.last() == News::Batch(
            Bulletin { candidates: s.press.queued, stats: s.finish(t).stats },
        ),
        s.finish(t).stats.candidates == s.stats.candidates,
        s.finish(t).stats.files == s.stats.files,
{
    reveal(ScanState::finish);
}

/// The turns of a scan: what it starts from comes first, then the folders that are
/// open, then what was put off; it ends when nothing is left.
pub proof fn work_is_taken_up_in_turn(s: ScanState, t: Tick)
    requires
        s.deferred.len() < 256,
    ensures
        s.next.len() > 0 ==> (s.explore(t).phase matches Stage::Looking(item) && item.entry
            == s.next[0].entry && item.classify && item.depth == 0 && item.previous is None)
            && s.explore(t).next == s.next.skip(1),
        s.next.len() == 0 && s.frontier.len() > 0 ==> s.explore(t).phase is Reading,
        s.next.len() == 0 && s.frontier.len() == 0 && s.deferred.len() > 0 ==> (s.explore(t).phase
            matches Stage::Looking(item) && item.entry == s.deferred[0].entry && item.previous
            == Some(s.deferred[0].checks)) && s.explore(t).deferred == s.deferred.skip(1),
        s.next.len() == 0 && s.frontier.len() == 0 && s.deferred.len() == 0 ==> s.explore(t).phase
            is Done,
{
    reveal(ScanState::explore);
    reveal(ScanState::finish);
}

/// A queued measurement has its turn: always every other turn, and at once where two
/// are queued or nothing else is left.
pub proof fn measurements_have_their_turn(s: ScanState, t: Tick)
    requires
        !t.cancel,
        !s.stats.cancelled,
        s.measurements.len() > 0,
        s.measurement_turn || s.measurements.len() >= 2 || (s.next.len() == 0 && s.frontier.len()
            == 0 && s.deferred.len() == 0),
    ensures
        s.turn(t).phase == Stage::Measuring(s.measurements[0]),
        s.turn(t).measurements == s.measurements.skip(1),
        !s.turn(t).measurement_turn,
{
    reveal(ScanState::turn);
}

/// The routes of a library that lie in the selection are scanned, and the home folder
/// after them; another selection is scanned from one place.
pub proof fn selections_have_their_lanes(
    root: Root,
    scope: Option<FsPath>,
    setting: Setting,
    i: int,
)
    ensures
        root.kind@ == "home"@ && scope is None ==> lanes_of(root, scope, setting).last()
            == root.path@,
        root.kind@ == "home"@ && scope is None && 0 <= i < setting.routes@.len() && under(
            named(root.path@, setting.routes@[i]@),
            root.path@,
        ) ==> lanes_of(root, scope, setting).contains(named(root.path@, setting.routes@[i]@)),
        root.kind@ != "home"@ && setting.normalized is Ok ==> lanes_of(root, scope, setting)
            == seq![setting.normalized->Ok_0@],
{
    let lanes = lanes_of(root, scope, setting);
    if root.kind@ == "home"@ && scope is None {
        let routes = routed(root.path@, setting.routes@, root.path@);
        assert(lanes == routes.push(root.path@));
        if 0 <= i < setting.routes@.len() && under(
            named(root.path@, setting.routes@[i]@),
            root.path@,
        ) {
            routes_are_taken(root.path@, setting.routes@, root.path@, i);
            let k = choose|k: int|
                0 <= k < routes.len() && routes[k] == named(root.path@, setting.routes@[i]@);
            assert(lanes[k] == routes[k]);
        }
    }
}

proof fn routes_are_taken(root: Seq<u8>, routes: Seq<String>, selection: Seq<u8>, i: int)
    requires
        0 <= i < routes.len(),
        under(named(root, routes[i]@), selection),
    ensures
        routed(root, routes, selection).contains(named(root, routes[i]@)),
    decreases routes.len(),
{
    let front = routes.drop_last();
    let before = routed(root, front, selection);
    let path = named(root, routes.last()@);
    if i < front.len() {
        assert(front[i] == routes[i]);
        routes_are_taken(root, front, selection, i);
        let k = choose|k: int| 0 <= k < before.len() && before[k] == named(root, routes[i]@);
        if under(path, selection) {
            assert(before.push(path)[k] == before[k]);
        }
    } else {
        assert(before.push(path)[before.len() as int] == path);
    }
}

/// A scan of one place begins exactly where it was not cancelled and the place is
/// known.
pub proof fn plain_scans_begin(
    root: Root,
    scope: Option<FsPath>,
    setting: Setting,
    cancel: bool,
)
    requires
        root.kind@ != "home"@,
    ensures
        start_failure(root, scope, setting, cancel) is None <==> !cancel && setting.normalized
            is Ok,
{
}

/// A place that is there and not kept is where a scan starts; a kept one is skipped.
pub proof fn places_that_are_there_are_scanned(
    plan: Plan,
    requested: Seq<u8>,
    place: FsPath,
    meta: EntryMeta,
    fact: LaneFact,
    lane: int,
    before: Opening,
)
    requires
        fact.place == Some(Ok::<FsPath, String>(place)),
        fact.meta == Some(Ok::<Option<EntryMeta>, String>(Some(meta))),
        0 <= lane <= usize::MAX,
        before.skipped < u64::MAX,
    ensures
        (forall|i: int| 0 <= i < plan.kept@.len() ==> !under(requested, (#[trigger] plan.kept@[i])@))
            ==> lane_step(plan, requested, fact, lane, None, before) == LaneStep::Have(
            Opening {
                next: before.next.push(
                    StartView { entry: Spot { path: place@, meta }, lane: lane as usize },
                ),
                ..before
            },
        ),
        (exists|i: int| 0 <= i < plan.kept@.len() && under(requested, (#[trigger] plan.kept@[i])@))
            ==> lane_step(plan, requested, fact, lane, None, before) == LaneStep::Have(
            Opening { skipped: (before.skipped + 1) as u64, ..before },
        ),
{
}

/// How a folder is read: the library's areas by their rules; in a suggestion scan and
/// outside the downloads places for personal files by their size and all others for
/// what can be discovered; anything else entry by entry.
pub proof fn folders_are_read_by_their_place(plan: Plan, path: Seq<u8>, facts: FolderFacts)
    ensures
        facts.library ==> reader_of(plan, path, facts) == Reader::Library(facts.caches_top),
        !facts.library && plan.mode == ScanMode::MetadataCoverage ==> reader_of(plan, path, facts)
            is Plain,
        !facts.library && (plan.downloads matches Some(base) && under(path, base@)) ==> reader_of(
            plan,
            path,
            facts,
        ) is Plain,
        !facts.library && plan.mode == ScanMode::Suggestions && plan.downloads is None ==> {
            let home = plan.root.kind@ == "home"@ && components(path) == components(
                plan.root.path@,
            );
            reader_of(plan, path, facts) == if facts.personal {
                Reader::Personal(home)
            } else {
                Reader::Discovery(home)
            }
        },
{
}

/// The refresh of a lockfile takes the finding of the selected build output, as it was
/// last, and refuses any other.
pub proof fn refreshes_take_the_selected_output(state: LockState, next: Sighting)
    requires
        components(next.path) == components(state.target),
        next.root_id == state.root_id,
        state.expected == Some(next.identity),
        state.candidate matches Some(prior) ==> prior.id == next.id,
    ensures
        receive_one(state, next).candidate == Some(next),
        receive_one(state, next).invalid == state.invalid,
        forall|other: Sighting|
            other.root_id != state.root_id || components(other.path) != components(state.target)
                || state.expected != Some(other.identity) ==> (#[trigger] receive_one(
                state,
                other,
            )).invalid,
{
}

/// It is complete exactly when both its parts are, cancelled when either was, and shows
/// the finding where there is one.
pub proof fn refreshes_join_their_parts(
    state: LockState,
    target: Counters,
    combined: Counters,
    elapsed_ms: u64,
)
    ensures
        closing(state, target, combined, elapsed_ms).stats.complete <==> state.origin.complete
            && target.complete,
        closing(state, target, combined, elapsed_ms).stats.cancelled <==> combined.cancelled
            || state.origin.cancelled,
        state.candidate matches Some(c) ==> closing(
            state,
            target,
            combined,
            elapsed_ms,
        ).candidates == seq![c],
        state.candidate is None ==> closing(
            state,
            target,
            combined,
            elapsed_ms,
        ).candidates.len() == 0,
        closing(state, target, combined, elapsed_ms).stats.elapsed_ms == elapsed_ms,
        closing(state, target, combined, elapsed_ms).stats.entries == combined.entries,
{
}

/// An artifact that changed lately, or that something speaks against, is shown with the
/// reason in a suggestion scan and put off in a coverage scan.
pub proof fn busy_artifacts_are_shown_or_put_off(s: ScanState, case: CaseView, t: Tick)
    requires
        case.item.previous is None,
        case.item.entry.meta.identity.mode & 0o170000 == 0o040000,
        !case.checks.quiet || case.checks.blocked is Some,
    ensures
        s.checked(case, t).phase is Idle,
        s.plan.mode == ScanMode::Suggestions ==> exists|c: Sighting|
            {
                &&& s.checked(case, t).press == #[trigger] s.press.queue(
                    c,
                    s.checked(case, t).stats,
                    false,
                )
                &&& !c.provisional
                &&& c.suggestion_eligible == case.candidate.suggestion_eligible
                &&& c.blocked_reason is Some
                &&& case.checks.blocked is Some ==> c.blocked_reason == case.checks.blocked
                &&& c.id == case.candidate.id
            },
        s.plan.mode == ScanMode::Suggestions ==> s.checked(case, t).deferred == s.deferred
            && s.checked(case, t).stats == s.stats.skip().exclude(),
        s.plan.mode == ScanMode::MetadataCoverage ==> {
            &&& s.checked(case, t).deferred.len() == s.deferred.len() + 1
            &&& s.checked(case, t).deferred.last().entry == case.item.entry
            &&& s.checked(case, t).deferred.last().checks == case.checks
            &&& s.checked(case, t).press == s.press.queue(case.candidate, s.stats, false)
        },
{
    reveal(ScanState::checked);
    if s.plan.mode == ScanMode::Suggestions {
        let c = Sighting {
            blocked_reason: match case.checks.blocked {
                Some(reason) => Some(reason),
                None => Some(crate::evidence::recent_reason(case.checks.found.quiet_days)),
            },
            provisional: false,
            explanation: case.candidate.explanation + crate::scanner::state::excluded_note(),
            ..case.candidate
        };
        assert(s.checked(case, t).press == s.press.queue(c, s.checked(case, t).stats, false));
    }
}

/// A file that its metadata already excludes is shown with the reason and not measured.
pub proof fn excluded_files_are_not_measured(s: ScanState, item: ItemView, found: Found, t: Tick)
    requires
        s.plan.mode == ScanMode::Suggestions,
        item.entry.meta.identity.mode & 0o170000 == 0o100000,
        forall|i: int|
            0 <= i < s.plan.kept@.len() ==> !under(
                (#[trigger] s.plan.kept@[i])@,
                item.entry.path,
            ),
        item.entry.meta.allocated < found.rules.minimum_bytes
            || item.entry.meta.identity.modified_ns > cutoff(t.now_ns, found.quiet_days)
            || found.latest > cutoff(t.now_ns, found.quiet_days),
    ensures
        s.recognized(item, found, t).phase is Idle,
        s.recognized(item, found, t).measurements == s.measurements,
        exists|c: Sighting, stats: Counters|
            {
                &&& s.recognized(item, found, t).press == #[trigger] s.press.queue(
                    c,
                    stats,
                    false,
                )
                &&& !c.provisional && !c.suggestion_eligible && c.blocked_reason is Some
                &&& c.path == item.entry.path
            },
{
    reveal(ScanState::recognized);
    reveal(ScanState::declined);
    kinds_of(item.entry.meta);
    assert(!kept_below(s.plan.kept@, item.entry.path));
    let unfit = crate::evidence::suggestion_outcome(
        found.rules,
        found.quiet_days,
        found.latest,
        item.entry.meta.allocated,
        item.entry.meta.identity.modified_ns as int,
        t.now_ns,
    );
    assert(unfit is Some);
    let candidate = first_sight(s.plan.root.id@, item.entry.path, item.entry.meta, found);
    let c = Sighting {
        provisional: false,
        explanation: candidate.explanation + crate::scanner::state::plain_file_note(
            unfit->Some_0,
        ),
        blocked_reason: Some(unfit->Some_0),
        ..candidate
    };
    let stats = s.recognized(item, found, t).stats;
    assert(s.recognized(item, found, t).press == s.press.queue(c, stats, false));
}

/// What has the name of an artifact and is none is left out of a suggestion scan, and
/// gone through without looking for more in a coverage scan.
pub proof fn unrecognized_artifacts_are_left_out(
    s: ScanState,
    item: ItemView,
    reason: Seq<char>,
    t: Tick,
)
    requires
        artifact_path(item.entry.path, item.provider),
        item.opened is None,
        item.entry.meta.identity.mode & 0o170000 == 0o040000,
        item.depth < s.plan.max_depth,
    ensures
        s.plan.mode == ScanMode::Suggestions ==> s.judged(item, Err(reason), t).phase is Idle
            && s.judged(item, Err(reason), t).frontier == s.frontier && s.judged(
            item,
            Err(reason),
            t,
        ).stats == s.stats.skip().exclude(),
        s.plan.mode == ScanMode::MetadataCoverage ==> (s.judged(item, Err(reason), t).phase
            matches Stage::Entering(at, classify, _) && at == item && !classify),
        !conditional_path(item.entry.path, item.provider) && s.plan.mode == ScanMode::Suggestions
            ==> s.judged(item, Ok(None), t).phase is Idle && s.judged(item, Ok(None), t).stats
            == s.stats.skip().exclude(),
        !conditional_path(item.entry.path, item.provider) && s.plan.mode
            == ScanMode::MetadataCoverage ==> (s.judged(item, Ok(None), t).phase matches Stage::Entering(
            at,
            classify,
            _,
        ) && at == item && !classify),
{
    reveal(ScanState::judged);
    reveal(ScanState::descend);
}

/// A measurement that fails leaves the finding blocked with the reason, counts as an
/// error, and is shown.
pub proof fn failed_measurements_block(s: ScanState, review: Review, reason: Seq<char>, t: Tick)
    requires
        !t.cancel,
        s.stats.errors < u64::MAX,
    ensures
        s.failed(review, reason, t).phase is Idle,
        s.failed(review, reason, t).stats.errors == s.stats.errors + 1,
        s.failed(review, reason, t).stats.candidates == s.stats.candidates,
        exists|c: Sighting, force: bool|
            {
                &&& s.failed(review, reason, t).press == #[trigger] s.press.queue(
                    c,
                    s.failed(review, reason, t).stats,
                    force,
                )
                &&& c.blocked_reason == Some(reason)
                &&& !c.suggestion_eligible && !c.provisional
            },
{
    reveal(ScanState::failed);
    reveal(ScanState::conclude);
    let c = Sighting {
        blocked_reason: Some(reason),
        provisional: false,
        suggestion_eligible: false,
        eligible_permanent: false,
        explanation: review.candidate.explanation + crate::scanner::state::refusal_note(
            "Measurement is incomplete"@,
        ),
        ..review.candidate
    };
    assert(s.failed(review, reason, t).press == s.press.queue(
        c,
        s.failed(review, reason, t).stats,
        false,
    ));
}

/// While an artifact is measured, what lies in it is counted like anything else; the
/// first recent file of the user's in it is remembered where that is wanted.
pub proof fn measuring_counts_what_it_sees(
    s: ScanState,
    job: JobView,
    entry: Spot,
    partial: Measurement,
    t: Tick,
)
    requires
        !s.press.due,
        components(entry.path) != components(job.review.entry.path),
    ensures
        s.seen(job, entry, partial, t).stats == tallied(
            s.stats,
            s.links,
            entry.meta,
            s.plan.root.identity.device,
        ),
        s.seen(job, entry, partial, t).links == linked(
            s.links,
            entry.meta,
            s.plan.root.identity.device,
        ),
        s.seen(job, entry, partial, t).phase matches Stage::Measuring(next) && next.cursor
            == job.cursor && next.review.entry == job.review.entry,
        job.review.can_learn && job.review.recent_leaf is None && partial.errors == 0
            && partial.unsafe_reason is None && entry.meta.identity.modified_ns > job.review.cutoff
            && entry.meta.identity.mode & 0o170000 == 0o100000 && entry.meta.flags & 0x4000_0000
            == 0 && entry.meta.identity.device == s.plan.root.identity.device && entry.meta.links
            == 1 && entry.meta.uid == s.plan.user && !kept_over(s.plan.kept@, entry.path) ==> (
        s.seen(job, entry, partial, t).phase matches Stage::Measuring(next)
            && next.review.recent_leaf == Some(entry.path)),
        job.review.recent_leaf is Some ==> (s.seen(job, entry, partial, t).phase
            matches Stage::Measuring(next) && next.review.recent_leaf == job.review.recent_leaf),
{
    reveal(ScanState::seen);
}

/// A remembered file inside the artifact that is not kept is looked at first; any other
/// is forgotten.
pub proof fn remembered_files_are_looked_at(s: ScanState, case: CaseView, path: Seq<u8>, t: Tick)
    requires
        under(path, case.item.entry.path),
        components(path) != components(case.item.entry.path),
    ensures
        (forall|i: int| 0 <= i < s.plan.kept@.len() ==> !under(path, (#[trigger] s.plan.kept@[i])@))
            ==> s.hinted(case, Some(path), t) == (ScanState {
            phase: Stage::Observing(case, path),
            ..s
        }),
        kept_over(s.plan.kept@, path) ==> !(s.hinted(case, Some(path), t).phase is Observing),
{
    reveal(ScanState::hinted);
    reveal(ScanState::begin);
}

/// The lanes of a scan take turns: the next one that still has an open folder goes on
/// with the one that has waited longest.
pub proof fn lanes_take_turns(s: ScanState, at: int)
    requires
        s.plan.logical,
        0 < s.plan.lanes,
        s.lane_turn < s.plan.lanes,
        0 <= at < s.frontier.len(),
        s.frontier[at].mark.lane == s.lane_turn,
        forall|k: int| 0 <= k < at ==> (#[trigger] s.frontier[k]).mark.lane != s.lane_turn,
    ensures
        s.rotate().frontier == s.frontier.skip(at) + s.frontier.take(at),
        s.rotate().frontier[0] == s.frontier[at],
        s.rotate().lane_turn == (if s.lane_turn + 1 == s.plan.lanes {
            0int
        } else {
            s.lane_turn + 1
        }),
{
    reveal(ScanState::rotate);
    let lanes = s.plan.lanes as int;
    let turn = s.lane_turn as int;
    assert((turn + 0) % lanes == turn) by (nonlinear_arith)
        requires
            0 <= turn < lanes,
    ;
    assert((turn + 1) % lanes == if turn + 1 == lanes {
        0
    } else {
        turn + 1
    }) by (nonlinear_arith)
        requires
            0 <= turn < lanes,
    ;
    first_in_lane(s.frontier, turn, 0, at);
}

proof fn first_in_lane(frontier: Seq<FrameView>, lane: int, from: int, at: int)
    requires
        0 <= from <= at < frontier.len(),
        frontier[at].mark.lane == lane,
        forall|k: int| from <= k < at ==> (#[trigger] frontier[k]).mark.lane != lane,
    ensures
        first_of_lane(frontier, lane, from) == Some(at),
    decreases at - from,
{
    if from < at {
        assert(frontier[from].mark.lane != lane);
        first_in_lane(frontier, lane, from + 1, at);
    }
}

/// An artifact that waited and is no longer what it was is shown as blocked with the
/// reason, and counts as an error; one that still is goes on to be measured.
pub proof fn waiting_artifacts_must_not_change(
    s: ScanState,
    case: CaseView,
    reason: Seq<char>,
    t: Tick,
)
    requires
        !t.cancel,
        s.stats.errors < u64::MAX,
        s.stats.skipped < u64::MAX,
    ensures
        s.verified(case, Some(reason), t).phase is Idle,
        s.verified(case, Some(reason), t).stats.errors == s.stats.errors + 1,
        s.verified(case, Some(reason), t).stats.skipped == s.stats.skipped + 1,
        s.verified(case, Some(reason), t).stats.candidates == s.stats.candidates,
        s.verified(case, Some(reason), t).press == s.press.queue(
            (Sighting { blocked_reason: Some(reason), provisional: false, ..case.candidate }),
            s.verified(case, Some(reason), t).stats,
            false,
        ),
        s.verified(case, None, t) == s.begin(case, t),
{
    reveal(ScanState::verified);
}

/// When looking for suggestions, a folder of an artifact below the location that changed
/// in the last seven days is passed at once, but not one whose name alone tells nothing.
pub proof fn recent_artifacts_are_passed_at_once(s: ScanState, item: ItemView, now_ns: i64)
    requires
        now_ns >= 7 * 86_400 * 1_000_000_000,
    ensures
        s.hopeless(item, now_ns) <==> s.plan.mode == ScanMode::Suggestions && item.classify
            && item.entry.meta.dir() && components(item.entry.path) != components(
            s.plan.root.path@,
        ) && artifact_path(item.entry.path, item.provider) && !conditional_path(
            item.entry.path,
            item.provider,
        ) && item.entry.meta.identity.modified_ns > now_ns - 7 * 86_400 * 1_000_000_000,
{
}

} // verus!
