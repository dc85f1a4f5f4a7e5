//! Where a session's findings lie and what they rest on, in every session that
//! can be reached: below the authorized location, apart from all that is kept,
//! and identified by the classifier.
use super::press::{News, Press};
use super::review::{outcome_view, Review};
use super::start::{fresh, lanes_step, LaneFact, LaneStep, Opening};
use super::state::{
    calm, kept_below, kept_over, CaseView, ChecksView, DeferredView, EntryFacts, Event, FrameView,
    ItemView, JobView, Listed, Listing, Plan, ScanState, Stage, StartView, Tick,
};
use crate::classify::{class_of, Placing, Surroundings};
use crate::evidence::{path_view, suggestion_outcome, text_view, Found, Measurement};
use crate::model::{Entry, EntryMeta};
use crate::paths::{
    parent_holds, parent_of, same_place, strictly_under, under, under_itself, under_transitive,
};
use crate::probe::Got;
use crate::sightings::{first_sight, linked, measured_sight, tallied, LinkState, Sighting, Spot};
use crate::sources::{later, Sources};
use vstd::prelude::*;

verus! {

/// Whether the classifier takes an entry for this, from some observations.
#[verifier::opaque]
pub open spec fn identified(plan: Plan, entry: Spot, found: Found) -> bool {
    exists|placing: Placing, around: Surroundings, seen: Sources, cancel: bool|
        #[trigger] class_of(
            plan.root.path@,
            entry.path,
            entry.meta,
            placing,
            around,
            seen,
            cancel,
        ) == Got::Have(Some(found))
}

/// Whether an entry can be a finding: it lies below the authorized location and on
/// its volume, is neither kept nor lies in or around anything kept, and is what the
/// classifier says.
#[verifier::opaque]
pub open spec fn findable(plan: Plan, entry: Spot, found: Found) -> bool {
    &&& strictly_under(entry.path, plan.root.path@)
    &&& entry.meta.identity.device == plan.root.identity.device
    &&& !kept_over(plan.kept@, entry.path)
    &&& !kept_below(plan.kept@, entry.path)
    &&& identified(plan, entry, found)
}

/// Whether a finding shows an entry as what it was identified as.
pub open spec fn shows(plan: Plan, c: Sighting, entry: Spot, found: Found) -> bool {
    &&& c.root_id == plan.root.id@
    &&& c.path == entry.path
    &&& c.identity == entry.meta.identity
    &&& c.kind == found.kind
    &&& c.title == found.title
    &&& c.consequence == found.consequence
    &&& c.evidence == found.fingerprint
}

/// Whether a finding is one that this scan may show.
#[verifier::opaque]
pub open spec fn proper(plan: Plan, c: Sighting) -> bool {
    exists|entry: Spot, found: Found| #[trigger]
        findable(plan, entry, found) && shows(plan, c, entry, found)
}

pub open spec fn proper_list(plan: Plan, list: Seq<Sighting>) -> bool {
    forall|i: int| 0 <= i < list.len() ==> proper(plan, #[trigger] list[i])
}

pub open spec fn proper_news(plan: Plan, news: News) -> bool {
    news matches News::Batch(batch) ==> proper_list(plan, batch.candidates)
}

/// Whether all that waits or went out may be shown.
pub open spec fn proper_press(plan: Plan, press: Press) -> bool {
    &&& proper_list(plan, press.queued)
    &&& forall|i: int|
        0 <= i < press.outbox.len() ==> proper_news(plan, #[trigger] press.outbox[i])
}

pub open spec fn proper_case(plan: Plan, case: CaseView) -> bool {
    findable(plan, case.item.entry, case.checks.found) && shows(
        plan,
        case.candidate,
        case.item.entry,
        case.checks.found,
    )
}

pub open spec fn proper_review(plan: Plan, review: Review) -> bool {
    findable(plan, review.entry, review.found) && shows(
        plan,
        review.candidate,
        review.entry,
        review.found,
    )
}

pub open spec fn proper_item(plan: Plan, item: ItemView) -> bool {
    &&& under(item.entry.path, plan.root.path@)
    &&& item.previous matches Some(checks) ==> findable(plan, item.entry, checks.found)
}

pub open spec fn proper_starts(plan: Plan, next: Seq<StartView>) -> bool {
    forall|i: int|
        0 <= i < next.len() ==> under((#[trigger] next[i]).entry.path, plan.root.path@)
}

pub open spec fn proper_frames(plan: Plan, frontier: Seq<FrameView>) -> bool {
    forall|i: int|
        0 <= i < frontier.len() ==> under((#[trigger] frontier[i]).path, plan.root.path@)
}

pub open spec fn proper_deferred(plan: Plan, deferred: Seq<DeferredView>) -> bool {
    forall|i: int|
        0 <= i < deferred.len() ==> findable(
            plan,
            (#[trigger] deferred[i]).entry,
            deferred[i].checks.found,
        )
}

pub open spec fn proper_jobs(plan: Plan, measurements: Seq<JobView>) -> bool {
    forall|i: int|
        0 <= i < measurements.len() ==> proper_review(plan, (#[trigger] measurements[i]).review)
}

/// Whether all that a session holds beside what it waits for is as it should be.
pub open spec fn orderly(s: ScanState) -> bool {
    &&& proper_press(s.plan, s.press)
    &&& proper_starts(s.plan, s.next)
    &&& proper_frames(s.plan, s.frontier)
    &&& proper_deferred(s.plan, s.deferred)
    &&& proper_jobs(s.plan, s.measurements)
}

/// Whether what a session waits for is as it should be.
pub open spec fn proper_stage(plan: Plan, frontier: Seq<FrameView>, stage: Stage) -> bool {
    match stage {
        Stage::Reading => frontier.len() > 0,
        Stage::Opening(path) => under(path, plan.root.path@),
        Stage::Looking(item) => proper_item(plan, item),
        Stage::Judging(item) => item.previous is None && strictly_under(
            item.entry.path,
            plan.root.path@,
        ) && item.entry.meta.identity.device == plan.root.identity.device && !kept_over(
            plan.kept@,
            item.entry.path,
        ),
        Stage::Checking(case) => proper_case(plan, case),
        Stage::Verifying(case) => proper_case(plan, case),
        Stage::Hinting(case) => proper_case(plan, case),
        Stage::Observing(case, _) => proper_case(plan, case),
        Stage::Starting(review, _) => proper_review(plan, review),
        Stage::Measuring(job) => proper_review(plan, job.review),
        Stage::Tracking(review) => proper_review(plan, review),
        Stage::Using(review) => proper_review(plan, review),
        Stage::Recalling(review) => proper_review(plan, review),
        Stage::Entering(item, _, _) => under(item.entry.path, plan.root.path@),
        _ => true,
    }
}

/// What holds of every session that can be reached.
pub open spec fn confined(s: ScanState) -> bool {
    orderly(s) && proper_stage(s.plan, s.frontier, s.phase)
}

/// Whether an answer is a true one: what is listed of a folder is a child of it,
/// a folder that was opened is the one that was named, and an entry is identified
/// as what the classifier says.
pub open spec fn truthful(s: ScanState, event: Event) -> bool {
    match (s.phase, event) {
        (Stage::Reading, Event::Listed(Ok(listing))) => match listing.found {
            Listed::Nothing => true,
            Listed::Directory(path) => parent_of(path@) == Some(s.frontier[0].path),
            Listed::Entry(entry) => parent_of(entry@.path) == Some(s.frontier[0].path),
        },
        (Stage::Opening(path), Event::Entered(Ok(pair))) => pair.0@.path == path,
        (Stage::Judging(item), Event::Evidence(Ok(Some(found)))) => identified(
            s.plan,
            item.entry,
            found@,
        ),
        _ => true,
    }
}

/// Whether a session went on and is as it should be.
pub open spec fn advanced(a: ScanState, b: ScanState) -> bool {
    b.plan == a.plan && confined(b)
}

proof fn proper_from(plan: Plan, c: Sighting, entry: Spot, found: Found)
    requires
        findable(plan, entry, found),
        shows(plan, c, entry, found),
    ensures
        proper(plan, c),
{
    reveal(proper);
}

proof fn flush_proper(plan: Plan, p: Press, stats: crate::sightings::Counters)
    requires
        proper_press(plan, p),
    ensures
        proper_press(plan, p.flush(stats)),
{
    let after = p.flush(stats);
    assert forall|i: int| 0 <= i < after.outbox.len() implies proper_news(
        plan,
        #[trigger] after.outbox[i],
    ) by {
        if i < p.outbox.len() {
            assert(after.outbox[i] == p.outbox[i]);
        }
    }
}

proof fn tell_proper(plan: Plan, p: Press, news: News)
    requires
        proper_press(plan, p),
        !(news is Batch),
    ensures
        proper_press(plan, p.tell(news)),
{
    let after = p.tell(news);
    assert forall|i: int| 0 <= i < after.outbox.len() implies proper_news(
        plan,
        #[trigger] after.outbox[i],
    ) by {
        if i < p.outbox.len() {
            assert(after.outbox[i] == p.outbox[i]);
        }
    }
}

proof fn publish_proper(s: ScanState, c: Sighting, force: bool)
    requires
        orderly(s),
        proper(s.plan, c),
    ensures
        orderly(s.publish(c, force)),
{
    let more = Press { queued: s.press.queued.push(c), ..s.press };
    assert forall|i: int| 0 <= i < more.queued.len() implies proper(
        s.plan,
        #[trigger] more.queued[i],
    ) by {
        if i < s.press.queued.len() {
            assert(more.queued[i] == s.press.queued[i]);
        }
    }
    flush_proper(s.plan, more, s.stats);
}

proof fn pulse_proper(s: ScanState, t: Tick)
    requires
        orderly(s),
    ensures
        orderly(s.pulse(t)),
{
    flush_proper(s.plan, s.press, s.stats.at(t.elapsed_ms));
}

proof fn finish_proper(s: ScanState, t: Tick)
    requires
        orderly(s),
    ensures
        advanced(s, s.finish(t)),
{
    reveal(ScanState::finish);
    flush_proper(s.plan, s.press, s.finish(t).stats);
}

proof fn rotate_proper(s: ScanState)
    requires
        orderly(s),
    ensures
        orderly(s.rotate()),
        s.rotate().plan == s.plan,
        s.frontier.len() > 0 ==> s.rotate().frontier.len() > 0,
{
    reveal(ScanState::rotate);
    if s.plan.logical {
        if let Some((at, lane)) = super::state::lane_pick(
            s.frontier,
            s.plan.lanes as int,
            s.lane_turn as int,
            0,
        ) {
            lane_inside(s.frontier, s.plan.lanes as int, s.lane_turn as int, 0);
            let turned = s.frontier.skip(at) + s.frontier.take(at);
            assert forall|i: int| 0 <= i < turned.len() implies under(
                (#[trigger] turned[i]).path,
                s.plan.root.path@,
            ) by {
                if i < s.frontier.len() - at {
                    assert(turned[i] == s.frontier[i + at]);
                } else {
                    assert(turned[i] == s.frontier[i - (s.frontier.len() - at)]);
                }
            }
        }
    }
}

proof fn first_inside(frontier: Seq<FrameView>, lane: int, from: int)
    ensures
        super::state::first_of_lane(frontier, lane, from) matches Some(at) ==> 0 <= at
            < frontier.len(),
    decreases frontier.len() - from,
{
    if 0 <= from < frontier.len() && frontier[from].mark.lane != lane {
        first_inside(frontier, lane, from + 1);
    }
}

/// A lane that is picked has a folder.
pub proof fn lane_inside(frontier: Seq<FrameView>, lanes: int, turn: int, offset: int)
    ensures
        super::state::lane_pick(frontier, lanes, turn, offset) matches Some(pair) ==> 0 <= pair.0
            < frontier.len(),
    decreases lanes - offset,
{
    if offset < lanes {
        let lane = (turn + offset) % lanes;
        first_inside(frontier, lane, 0);
        if super::state::first_of_lane(frontier, lane, 0) is None {
            lane_inside(frontier, lanes, turn, offset + 1);
        }
    }
}

proof fn explore_proper(s: ScanState, t: Tick)
    requires
        orderly(s),
    ensures
        advanced(s, s.explore(t)),
{
    reveal(ScanState::explore);
    rotate_proper(s);
    finish_proper(s, t);
    if s.deferred.len() > 0 {
        let first = s.deferred[0];
        let rest = s.deferred.skip(1);
        assert forall|i: int| 0 <= i < rest.len() implies findable(
            s.plan,
            (#[trigger] rest[i]).entry,
            rest[i].checks.found,
        ) by {
            assert(rest[i] == s.deferred[i + 1]);
        }
        assert(findable(s.plan, first.entry, first.checks.found));
        assert(under(first.entry.path, s.plan.root.path@)) by {
            reveal(findable);
        }
    }
    if s.next.len() > 0 {
        let rest = s.next.skip(1);
        assert forall|i: int| 0 <= i < rest.len() implies under(
            (#[trigger] rest[i]).entry.path,
            s.plan.root.path@,
        ) by {
            assert(rest[i] == s.next[i + 1]);
        }
        assert(under(s.next[0].entry.path, s.plan.root.path@));
    }
}

proof fn turn_proper(s: ScanState, t: Tick)
    requires
        orderly(s),
    ensures
        advanced(s, s.turn(t)),
{
    reveal(ScanState::turn);
    finish_proper(s.with(s.stats.cancel()), t);
    pulse_proper(s, t);
    let p = s.pulse(t);
    if p.measures_now() {
        let rest = p.measurements.skip(1);
        assert forall|i: int| 0 <= i < rest.len() implies proper_review(
            s.plan,
            (#[trigger] rest[i]).review,
        ) by {
            assert(rest[i] == p.measurements[i + 1]);
        }
        assert(proper_review(s.plan, p.measurements[0].review));
    } else {
        explore_proper(ScanState { measurement_turn: true, ..p }, t);
    }
}

proof fn leave_proper(s: ScanState)
    requires
        orderly(s),
        s.frontier.len() > 0,
    ensures
        advanced(s, s.leave()),
{
    let rest = s.frontier.skip(1);
    assert forall|i: int| 0 <= i < rest.len() implies under(
        (#[trigger] rest[i]).path,
        s.plan.root.path@,
    ) by {
        assert(rest[i] == s.frontier[i + 1]);
    }
}

/// A child of a folder below the location lies below it too.
proof fn child_inside(root: Seq<u8>, folder: Seq<u8>, path: Seq<u8>)
    requires
        under(folder, root),
        parent_of(path) == Some(folder),
    ensures
        under(path, root),
{
    parent_holds(path);
    under_transitive(path, folder, root);
}

proof fn listed_proper(s: ScanState, outcome: Result<Listing, String>, t: Tick)
    requires
        orderly(s),
        s.frontier.len() > 0,
        truthful(ScanState { phase: Stage::Reading, ..s }, Event::Listed(outcome)),
    ensures
        advanced(s, s.listed(outcome, t)),
{
    reveal(ScanState::listed);
    finish_proper(s.with(s.stats.cancel()), t);
    leave_proper(s.with(s.stats.err()));
    assert(under(s.frontier[0].path, s.plan.root.path@));
    if let Ok(listing) = outcome {
        let counted = s.with(
            crate::sightings::Counters {
                entries: crate::model::capped(s.stats.entries + listing.files + listing.skipped),
                files: crate::model::capped(s.stats.files + listing.files),
                skipped: crate::model::capped(s.stats.skipped + listing.skipped),
                metadata_skipped: crate::model::capped(
                    s.stats.metadata_skipped + listing.metadata_skipped,
                ),
                ..s.stats
            },
        );
        leave_proper(counted);
        leave_proper(counted.with(counted.stats.err()));
        match listing.found {
            Listed::Nothing => {},
            Listed::Directory(path) => {
                child_inside(s.plan.root.path@, s.frontier[0].path, path@);
            },
            Listed::Entry(entry) => {
                child_inside(s.plan.root.path@, s.frontier[0].path, entry@.path);
            },
        }
    }
}

proof fn entered_proper(
    s: ScanState,
    path: Seq<u8>,
    outcome: Result<(Entry, Option<u64>), String>,
    t: Tick,
)
    requires
        orderly(s),
        under(path, s.plan.root.path@),
        outcome matches Ok(pair) ==> pair.0@.path == path,
    ensures
        advanced(s, s.entered(outcome, t)),
{
    reveal(ScanState::entered);
    finish_proper(s.with(s.stats.cancel()), t);
}

proof fn enter_proper(s: ScanState, item: ItemView, classify: bool, id: u64)
    requires
        orderly(s),
        under(item.entry.path, s.plan.root.path@),
    ensures
        orderly(s.enter(item, classify, id)),
        s.enter(item, classify, id).plan == s.plan,
{
    let after = s.enter(item, classify, id).frontier;
    assert forall|i: int| 0 <= i < after.len() implies under(
        (#[trigger] after[i]).path,
        s.plan.root.path@,
    ) by {
        if s.frontier.len() < super::state::MAX_SHALLOW_FRONTIER {
            if i < s.frontier.len() {
                assert(after[i] == s.frontier[i]);
            }
        } else if i > 0 {
            assert(after[i] == s.frontier[i - 1]);
        }
    }
}

proof fn descend_proper(s: ScanState, item: ItemView, classify: bool, t: Tick)
    requires
        orderly(s),
        under(item.entry.path, s.plan.root.path@),
    ensures
        advanced(s, s.descend(item, classify, t)),
{
    reveal(ScanState::descend);
    pulse_proper(s, t);
    if let Some(id) = item.opened {
        enter_proper(s, item, classify, id);
        pulse_proper(s.enter(item, classify, id), t);
    }
}

proof fn opened_proper(
    s: ScanState,
    item: ItemView,
    classify: bool,
    outcome: Result<u64, String>,
    t: Tick,
)
    requires
        orderly(s),
        under(item.entry.path, s.plan.root.path@),
    ensures
        advanced(s, s.opened(item, classify, outcome, t)),
{
    reveal(ScanState::opened);
    pulse_proper(s.with(s.stats.err().skip()), t);
    if let Ok(id) = outcome {
        enter_proper(s, item, classify, id);
        pulse_proper(s.enter(item, classify, id), t);
    }
}

proof fn begin_proper(s: ScanState, case: CaseView, t: Tick)
    requires
        orderly(s),
        proper_case(s.plan, case),
    ensures
        advanced(s, s.begin(case, t)),
{
    reveal(ScanState::begin);
    proper_from(s.plan, case.candidate, case.item.entry, case.checks.found);
    publish_proper(s, case.candidate, false);
}

proof fn checked_proper(s: ScanState, case: CaseView, t: Tick)
    requires
        orderly(s),
        proper_case(s.plan, case),
    ensures
        advanced(s, s.checked(case, t)),
{
    reveal(ScanState::checked);
    begin_proper(s, case, t);
    let shown = Sighting {
        blocked_reason: match case.checks.blocked {
            Some(reason) => Some(reason),
            None => Some(crate::evidence::recent_reason(case.checks.found.quiet_days)),
        },
        provisional: false,
        explanation: case.candidate.explanation + super::state::excluded_note(),
        ..case.candidate
    };
    proper_from(s.plan, shown, case.item.entry, case.checks.found);
    publish_proper(s.with(s.stats.skip().exclude()), shown, false);
    proper_from(s.plan, case.candidate, case.item.entry, case.checks.found);
    publish_proper(s, case.candidate, false);
    let told = s.publish(case.candidate, false);
    let more = told.deferred.push(DeferredView { entry: case.item.entry, checks: case.checks });
    assert forall|i: int| 0 <= i < more.len() implies findable(
        s.plan,
        (#[trigger] more[i]).entry,
        more[i].checks.found,
    ) by {
        if i < told.deferred.len() {
            assert(more[i] == told.deferred[i]);
        }
    }
}

proof fn weighed_proper(s: ScanState, item: ItemView, found: Found, candidate: Sighting, t: Tick)
    requires
        orderly(s),
        findable(s.plan, item.entry, found),
        shows(s.plan, candidate, item.entry, found),
        item.previous matches Some(checks) ==> checks.found == found,
    ensures
        advanced(s, s.weighed(item, found, candidate, t)),
{
    reveal(ScanState::weighed);
    match item.previous {
        Some(checks) => {
            checked_proper(s, CaseView { item, candidate, checks }, t);
        },
        None => {
            let changed = item.entry.meta.identity.modified_ns as int;
            let quiet = calm(later(changed, found.latest), t.now_ns, found.quiet_days);
            checked_proper(
                s,
                CaseView {
                    item,
                    candidate,
                    checks: ChecksView { found, quiet, blocked: found.blocked },
                },
                t,
            );
        },
    }
}

proof fn declined_proper(
    s: ScanState,
    candidate: Sighting,
    reason: Seq<char>,
    entry: Spot,
    found: Found,
)
    requires
        orderly(s),
        findable(s.plan, entry, found),
        shows(s.plan, candidate, entry, found),
    ensures
        advanced(s, s.declined(candidate, reason)),
{
    reveal(ScanState::declined);
    let shown = Sighting {
        provisional: false,
        explanation: candidate.explanation + super::state::plain_file_note(reason),
        blocked_reason: Some(reason),
        ..candidate
    };
    proper_from(s.plan, shown, entry, found);
    publish_proper(s.with(s.stats.skip()), shown, false);
}

proof fn recognized_proper(s: ScanState, item: ItemView, found: Found, t: Tick)
    requires
        orderly(s),
        strictly_under(item.entry.path, s.plan.root.path@),
        item.entry.meta.identity.device == s.plan.root.identity.device,
        !kept_over(s.plan.kept@, item.entry.path),
        identified(s.plan, item.entry, found),
        item.previous matches Some(checks) ==> checks.found == found,
    ensures
        advanced(s, s.recognized(item, found, t)),
{
    reveal(ScanState::recognized);
    if !kept_below(s.plan.kept@, item.entry.path) {
        assert(findable(s.plan, item.entry, found)) by {
            reveal(findable);
        }
        let timed = s.with(s.stats.at(t.elapsed_ms));
        let candidate = first_sight(s.plan.root.id@, item.entry.path, item.entry.meta, found);
        let unfit = suggestion_outcome(
            found.rules,
            found.quiet_days,
            found.latest,
            item.entry.meta.allocated,
            item.entry.meta.identity.modified_ns as int,
            t.now_ns,
        );
        if let Some(reason) = unfit {
            declined_proper(timed, candidate, reason, item.entry, found);
        }
        weighed_proper(timed, item, found, candidate, t);
    }
}

proof fn judged_proper(
    s: ScanState,
    item: ItemView,
    outcome: Result<Option<Found>, Seq<char>>,
    t: Tick,
)
    requires
        orderly(s),
        item.previous is None,
        strictly_under(item.entry.path, s.plan.root.path@),
        item.entry.meta.identity.device == s.plan.root.identity.device,
        !kept_over(s.plan.kept@, item.entry.path),
        outcome matches Ok(Some(found)) ==> identified(s.plan, item.entry, found),
    ensures
        advanced(s, s.judged(item, outcome, t)),
{
    reveal(ScanState::judged);
    descend_proper(s.with(s.stats.skip()), item, false, t);
    descend_proper(s, item, item.classify, t);
    if let Ok(Some(found)) = outcome {
        recognized_proper(s, item, found, t);
    }
}

proof fn looked_proper(s: ScanState, item: ItemView, facts: EntryFacts, t: Tick)
    requires
        orderly(s),
        proper_item(s.plan, item),
    ensures
        advanced(s, s.looked(item, facts, t)),
{
    reveal(ScanState::looked);
    let seen = ItemView { provider: facts.provider, ..item };
    let meta = seen.entry.meta;
    let counted = if seen.previous is Some {
        s
    } else {
        ScanState {
            stats: tallied(s.stats, s.links, meta, s.plan.root.identity.device),
            links: linked(s.links, meta, s.plan.root.identity.device),
            ..s
        }
    };
    assert(orderly(counted));
    descend_proper(counted, seen, seen.classify, t);
    if let Some(checks) = seen.previous {
        assert(findable(s.plan, seen.entry, checks.found));
        assert(strictly_under(seen.entry.path, s.plan.root.path@)
            && seen.entry.meta.identity.device == s.plan.root.identity.device && !kept_over(
            s.plan.kept@,
            seen.entry.path,
        ) && identified(s.plan, seen.entry, checks.found)) by {
            reveal(findable);
        }
        recognized_proper(counted, seen, checks.found, t);
    }
}

proof fn verified_proper(s: ScanState, case: CaseView, failure: Option<Seq<char>>, t: Tick)
    requires
        orderly(s),
        proper_case(s.plan, case),
    ensures
        advanced(s, s.verified(case, failure, t)),
{
    reveal(ScanState::verified);
    begin_proper(s, case, t);
    if let Some(reason) = failure {
        let told = if t.cancel {
            s.stats.cancel()
        } else {
            s.stats.err()
        };
        let shown = Sighting {
            blocked_reason: Some(reason),
            provisional: false,
            ..case.candidate
        };
        proper_from(s.plan, shown, case.item.entry, case.checks.found);
        publish_proper(s.with(told.skip()), shown, false);
    }
}

proof fn hinted_proper(s: ScanState, case: CaseView, hint: Option<Seq<u8>>, t: Tick)
    requires
        orderly(s),
        proper_case(s.plan, case),
    ensures
        advanced(s, s.hinted(case, hint, t)),
{
    reveal(ScanState::hinted);
    begin_proper(s, case, t);
    tell_proper(s.plan, s.press, News::Forget(case.item.entry.path));
    begin_proper(s.forget(case.item.entry.path), case, t);
}

proof fn observed_proper(s: ScanState, case: CaseView, meta: Option<EntryMeta>, t: Tick)
    requires
        orderly(s),
        proper_case(s.plan, case),
    ensures
        advanced(s, s.observed(case, meta, t)),
{
    reveal(ScanState::observed);
    finish_proper(s.with(s.stats.cancel()), t);
    tell_proper(s.plan, s.press, News::Forget(case.item.entry.path));
    begin_proper(s.forget(case.item.entry.path), case, t);
    if let Some(meta) = meta {
        let shown = Sighting {
            modified_ns: later(
                case.candidate.modified_ns as int,
                meta.identity.modified_ns as int,
            ) as i64,
            provisional: false,
            blocked_reason: Some(super::state::hinted_reason(case.checks.found.quiet_days)),
            explanation: case.candidate.explanation + super::state::hinted_note(),
            ..case.candidate
        };
        proper_from(s.plan, shown, case.item.entry, case.checks.found);
        publish_proper(s.with(s.stats.skip().exclude()), shown, false);
    }
}

proof fn conclude_proper(s: ScanState, review: Review, quality: Option<Seq<char>>)
    requires
        orderly(s),
        proper_review(s.plan, review),
    ensures
        advanced(s, s.conclude(review, quality)),
{
    reveal(ScanState::conclude);
    let after = s.conclude(review, quality);
    let doubt = if quality is None && review.candidate.fingerprint.len() == 0 {
        Some(super::state::diagnostic_reason())
    } else {
        quality
    };
    let offered = review.blocked is None && doubt is None && !s.stats.cancelled;
    let first = offered && s.stats.first_finding_ms is None;
    let shown = Sighting {
        blocked_reason: review.blocked,
        provisional: false,
        suggestion_eligible: offered,
        eligible_permanent: review.found.rules.permanent && offered,
        explanation: if offered {
            review.candidate.explanation + super::state::offer_note(review.found, review.is_dir)
        } else {
            match doubt {
                Some(reason) => review.candidate.explanation + super::state::refusal_note(reason),
                None => review.candidate.explanation,
            }
        },
        ..review.candidate
    };
    proper_from(s.plan, shown, review.entry, review.found);
    publish_proper(s.with(after.stats), shown, first);
}

proof fn failed_proper(s: ScanState, review: Review, reason: Seq<char>, t: Tick)
    requires
        orderly(s),
        proper_review(s.plan, review),
    ensures
        advanced(s, s.failed(review, reason, t)),
{
    reveal(ScanState::failed);
    let told = if t.cancel {
        s.stats.cancel()
    } else {
        s.stats.err()
    };
    conclude_proper(
        s.with(told),
        Review { blocked: Some(reason), ..review },
        Some("Measurement is incomplete"@),
    );
}

proof fn jobs_proper(plan: Plan, measurements: Seq<JobView>, job: JobView)
    requires
        proper_jobs(plan, measurements),
        proper_review(plan, job.review),
    ensures
        proper_jobs(plan, measurements.push(job)),
{
    let more = measurements.push(job);
    assert forall|i: int| 0 <= i < more.len() implies proper_review(
        plan,
        (#[trigger] more[i]).review,
    ) by {
        if i < measurements.len() {
            assert(more[i] == measurements[i]);
        }
    }
}

proof fn started_proper(s: ScanState, review: Review, outcome: Result<u64, String>, t: Tick)
    requires
        orderly(s),
        proper_review(s.plan, review),
    ensures
        advanced(s, s.started(review, outcome, t)),
{
    reveal(ScanState::started);
    let timed = s.with(s.stats.at(t.elapsed_ms));
    failed_proper(
        timed,
        review,
        "Artifact scheduling metadata exceeds the bounded queue limit"@,
        t,
    );
    match outcome {
        Ok(cursor) => {
            jobs_proper(s.plan, timed.measurements, JobView { review, cursor });
        },
        Err(reason) => {
            failed_proper(timed, review, reason@, t);
        },
    }
}

proof fn seen_proper(s: ScanState, job: JobView, entry: Spot, partial: Measurement, t: Tick)
    requires
        orderly(s),
        proper_review(s.plan, job.review),
    ensures
        advanced(s, s.seen(job, entry, partial, t)),
{
    reveal(ScanState::seen);
    let device = s.plan.root.identity.device;
    let counted = if !same_place(entry.path, job.review.entry.path) {
        ScanState {
            stats: tallied(s.stats, s.links, entry.meta, device),
            links: linked(s.links, entry.meta, device),
            ..s
        }
    } else {
        s
    };
    let candidate = measured_sight(job.review.candidate, partial);
    proper_from(s.plan, candidate, job.review.entry, job.review.found);
    publish_proper(counted.with(counted.stats.at(t.elapsed_ms)), candidate, true);
}

proof fn untracked_proper(s: ScanState, review: Review, quality: Option<Seq<char>>)
    requires
        orderly(s),
        proper_review(s.plan, review),
    ensures
        advanced(s, s.untracked(review, quality)),
        advanced(s, s.unused(review, quality)),
{
    reveal(ScanState::untracked);
    reveal(ScanState::unused);
    conclude_proper(s, review, quality);
}

proof fn reviewed_proper(s: ScanState, review: Review, measured: Measurement, t: Tick)
    requires
        orderly(s),
        proper_review(s.plan, review),
    ensures
        advanced(s, s.reviewed(review, measured, t)),
{
    reveal(ScanState::reviewed);
    let added = s.with(
        crate::sightings::Counters {
            skipped: crate::model::capped(s.stats.skipped + measured.skipped),
            errors: crate::model::capped(s.stats.errors + measured.errors),
            excluded_artifacts: if measured.pruned {
                crate::model::capped(s.stats.excluded_artifacts + 1)
            } else {
                s.stats.excluded_artifacts
            },
            ..s.stats
        },
    );
    let quality = if measured.pruned {
        Some(super::state::pruned_reason())
    } else {
        suggestion_outcome(
            review.found.rules,
            review.found.quiet_days,
            review.found.latest,
            measured.allocated_bytes,
            measured.latest_modified_ns as int,
            t.now_ns,
        )
    };
    let judged = Review {
        candidate: measured_sight(review.candidate, measured),
        blocked: match review.blocked {
            Some(reason) => Some(reason),
            None => text_view(measured.unsafe_reason),
        },
        ..review
    };
    untracked_proper(added, judged, quality);
    if let Some(leaf) = review.recent_leaf {
        let news = News::Remember(review.entry.path, leaf);
        tell_proper(s.plan, added.press, news);
        let told = ScanState { press: added.press.tell(news), ..added };
        untracked_proper(told, judged, quality);
    }
}

proof fn measured_proper(
    s: ScanState,
    job: JobView,
    outcome: Result<Measurement, String>,
    t: Tick,
)
    requires
        orderly(s),
        proper_review(s.plan, job.review),
    ensures
        advanced(s, s.measured(job, outcome, t)),
{
    reveal(ScanState::measured);
    let timed = s.with(s.stats.at(t.elapsed_ms));
    match outcome {
        Ok(measured) => {
            reviewed_proper(timed, job.review, measured, t);
        },
        Err(reason) => {
            failed_proper(timed, job.review, reason@, t);
        },
    }
}

proof fn recalled_proper(
    s: ScanState,
    review: Review,
    outcome: Result<Option<Found>, Seq<char>>,
)
    requires
        orderly(s),
        proper_review(s.plan, review),
    ensures
        advanced(s, s.recalled(review, outcome)),
{
    reveal(ScanState::recalled);
    conclude_proper(s, review, None);
    conclude_proper(
        s,
        Review {
            blocked: Some("Project evidence changed during the scan; refresh this review"@),
            ..review
        },
        None,
    );
}

/// A true answer keeps a session confined.
pub proof fn true_answers_keep_a_session_confined(s: ScanState, event: Event, t: Tick)
    requires
        confined(s),
        truthful(s, event),
    ensures
        confined(s.step(event, t)),
        s.step(event, t).plan == s.plan,
{
    reveal(ScanState::answered);
    let at = ScanState { press: Press { due: t.due, ..s.press }, phase: Stage::Idle, ..s };
    assert(proper_press(s.plan, at.press));
    assert(orderly(at));
    match (s.phase, event) {
        (Stage::Idle, Event::Proceed) => {
            turn_proper(at, t);
        },
        (Stage::Reading, Event::Listed(outcome)) => {
            listed_proper(at, outcome, t);
        },
        (Stage::Opening(path), Event::Entered(outcome)) => {
            entered_proper(at, path, outcome, t);
        },
        (Stage::Looking(item), Event::Facts(facts)) => {
            looked_proper(at, item, facts, t);
        },
        (Stage::Judging(item), Event::Evidence(outcome)) => {
            judged_proper(at, item, outcome_view(outcome), t);
        },
        (Stage::Checking(case), Event::Activity(reason)) => {
            checked_proper(
                at,
                CaseView {
                    checks: ChecksView { blocked: text_view(reason), ..case.checks },
                    ..case
                },
                t,
            );
        },
        (Stage::Verifying(case), Event::Verified(outcome)) => {
            verified_proper(
                at,
                case,
                match outcome {
                    Ok(_) => None,
                    Err(reason) => Some(reason@),
                },
                t,
            );
        },
        (Stage::Hinting(case), Event::Hint(hint)) => {
            hinted_proper(at, case, path_view(hint), t);
        },
        (Stage::Observing(case, _), Event::Observed(meta)) => {
            observed_proper(at, case, meta, t);
        },
        (Stage::Starting(review, _), Event::Cursor(outcome)) => {
            started_proper(at, review, outcome, t);
        },
        (Stage::Measuring(job), Event::Seen(entry, partial)) => {
            seen_proper(at, job, entry@, partial, t);
        },
        (Stage::Measuring(job), Event::Pending) => {
            jobs_proper(s.plan, at.measurements, job);
        },
        (Stage::Measuring(job), Event::Measured(outcome)) => {
            measured_proper(at, job, outcome, t);
        },
        (Stage::Tracking(review), Event::Git(reason)) => {
            untracked_proper(at, Review { blocked: text_view(reason), ..review }, None);
        },
        (Stage::Using(review), Event::Activity(reason)) => {
            untracked_proper(at, Review { blocked: text_view(reason), ..review }, None);
        },
        (Stage::Recalling(review), Event::Evidence(outcome)) => {
            recalled_proper(at, review, outcome_view(outcome));
        },
        (Stage::Entering(item, classify, _), Event::Opened(outcome)) => {
            opened_proper(at, item, classify, outcome, t);
        },
        _ => {},
    }
}

/// A session after some answers, one after the other.
pub open spec fn after_answers(s: ScanState, answers: Seq<(Event, Tick)>) -> ScanState
    decreases answers.len(),
{
    if answers.len() == 0 {
        s
    } else {
        let before = after_answers(s, answers.drop_last());
        before.step(answers.last().0, answers.last().1)
    }
}

/// Whether all of the answers are true ones.
pub open spec fn all_truthful(s: ScanState, answers: Seq<(Event, Tick)>) -> bool
    decreases answers.len(),
{
    answers.len() == 0 || (all_truthful(s, answers.drop_last()) && truthful(
        after_answers(s, answers.drop_last()),
        answers.last().0,
    ))
}

/// A session that begins at places in the authorized location is confined.
pub proof fn fresh_sessions_are_confined(plan: Plan, links: LinkState, opening: Opening)
    requires
        proper_starts(plan, opening.next),
    ensures
        confined(fresh(plan, links, opening)),
{
}

/// Whether every place that was found to start from lies in the location.
pub open spec fn places_inside(plan: Plan, facts: Seq<LaneFact>) -> bool {
    forall|i: int|
        0 <= i < facts.len() ==> ((#[trigger] facts[i]).place matches Some(Ok(place)) ==> under(
            place@,
            plan.root.path@,
        ))
}

/// A session begins only at places that were found.
pub proof fn sessions_begin_inside(
    plan: Plan,
    requested: Seq<Seq<u8>>,
    facts: Seq<LaneFact>,
    n: int,
    expected: Option<EntryMeta>,
)
    requires
        places_inside(plan, facts),
        n <= facts.len(),
    ensures
        lanes_step(plan, requested, facts, n, expected) matches LaneStep::Have(opening)
            ==> proper_starts(plan, opening.next),
    decreases n,
{
    if n > 0 {
        sessions_begin_inside(plan, requested, facts, n - 1, expected);
        if let LaneStep::Have(before) = lanes_step(plan, requested, facts, n - 1, expected) {
            if let LaneStep::Have(after) = lanes_step(plan, requested, facts, n, expected) {
                assert forall|i: int| 0 <= i < after.next.len() implies under(
                    (#[trigger] after.next[i]).entry.path,
                    plan.root.path@,
                ) by {
                    if i < before.next.len() {
                        assert(after.next[i] == before.next[i]);
                    } else {
                        assert(facts[n - 1].place is Some);
                    }
                }
            }
        }
    }
}

proof fn runs_are_confined(s: ScanState, answers: Seq<(Event, Tick)>)
    requires
        confined(s),
        all_truthful(s, answers),
    ensures
        confined(after_answers(s, answers)),
        after_answers(s, answers).plan == s.plan,
    decreases answers.len(),
{
    if answers.len() > 0 {
        runs_are_confined(s, answers.drop_last());
        true_answers_keep_a_session_confined(
            after_answers(s, answers.drop_last()),
            answers.last().0,
            answers.last().1,
        );
    }
}

/// Whether a finding waits in a session or was handed out by it.
pub open spec fn published(s: ScanState, c: Sighting) -> bool {
    ||| s.press.queued.contains(c)
    ||| exists|i: int|
        0 <= i < s.press.outbox.len() && (#[trigger] s.press.outbox[i] matches News::Batch(batch)
            && batch.candidates.contains(c))
}

/// Whatever a scan publishes, in any session that true answers lead to, lies
/// strictly below the authorized location and on its volume, and was identified
/// there by the classifier.
pub proof fn findings_lie_in_the_location(
    plan: Plan,
    links: LinkState,
    opening: Opening,
    answers: Seq<(Event, Tick)>,
    c: Sighting,
)
    requires
        proper_starts(plan, opening.next),
        all_truthful(fresh(plan, links, opening), answers),
        published(after_answers(fresh(plan, links, opening), answers), c),
    ensures
        strictly_under(c.path, plan.root.path@),
        c.identity.device == plan.root.identity.device,
        exists|entry: Spot, found: Found|
            identified(plan, entry, found) && #[trigger] shows(plan, c, entry, found),
{
    published_is_proper(plan, links, opening, answers, c);
    reveal(proper);
    reveal(findable);
}

/// Whatever a scan publishes, in any session that true answers lead to, is not
/// kept, lies in nothing that is kept, and holds nothing that is kept.
pub proof fn kept_paths_are_never_found(
    plan: Plan,
    links: LinkState,
    opening: Opening,
    answers: Seq<(Event, Tick)>,
    c: Sighting,
    i: int,
)
    requires
        proper_starts(plan, opening.next),
        all_truthful(fresh(plan, links, opening), answers),
        published(after_answers(fresh(plan, links, opening), answers), c),
        0 <= i < plan.kept@.len(),
    ensures
        !same_place(c.path, plan.kept@[i]@),
        !under(c.path, plan.kept@[i]@),
        !under(plan.kept@[i]@, c.path),
{
    published_is_proper(plan, links, opening, answers, c);
    reveal(proper);
    reveal(findable);
    if same_place(c.path, plan.kept@[i]@) {
        under_itself(c.path, plan.kept@[i]@);
    }
}

proof fn published_is_proper(
    plan: Plan,
    links: LinkState,
    opening: Opening,
    answers: Seq<(Event, Tick)>,
    c: Sighting,
)
    requires
        proper_starts(plan, opening.next),
        all_truthful(fresh(plan, links, opening), answers),
        published(after_answers(fresh(plan, links, opening), answers), c),
    ensures
        proper(plan, c),
{
    let start = fresh(plan, links, opening);
    let s = after_answers(start, answers);
    fresh_sessions_are_confined(plan, links, opening);
    runs_are_confined(start, answers);
    if s.press.queued.contains(c) {
        let k = choose|k: int| 0 <= k < s.press.queued.len() && s.press.queued[k] == c;
        assert(proper(plan, s.press.queued[k]));
    } else {
        let i = choose|i: int|
            0 <= i < s.press.outbox.len() && (#[trigger] s.press.outbox[i] matches News::Batch(
                batch,
            ) && batch.candidates.contains(c));
        assert(proper_news(plan, s.press.outbox[i]));
        if let News::Batch(batch) = s.press.outbox[i] {
            let k = choose|k: int| 0 <= k < batch.candidates.len() && batch.candidates[k] == c;
            assert(proper(plan, batch.candidates[k]));
        }
    }
}

} // verus!
