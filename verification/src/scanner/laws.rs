//! What holds of every discovery session.
use super::press::{News, Press};
use super::review::{outcome_view, Review};
use super::state::{
    first_of_lane, lane_pick, CaseView, Event, FrameView, ItemView, JobView, Listed, Listing,
    ScanState, Stage, Tick,
};
use crate::evidence::{path_view, text_view, Found, Measurement};
use crate::model::{Entry, EntryMeta};
use crate::sightings::Counters;
use vstd::prelude::*;

verus! {

/// Whether nothing that is being read changed.
pub open spec fn same_course(a: ScanState, b: ScanState) -> bool {
    a.plan == b.plan && a.frontier == b.frontier && a.lane_turn == b.lane_turn
}

proof fn lane_found(frontier: Seq<FrameView>, lane: int, from: int)
    requires
        0 <= from,
    ensures
        first_of_lane(frontier, lane, from) matches Some(at) ==> from <= at < frontier.len(),
    decreases frontier.len() - from,
{
    if from < frontier.len() && frontier[from].mark.lane != lane {
        lane_found(frontier, lane, from + 1);
    }
}

proof fn pick_found(frontier: Seq<FrameView>, lanes: int, turn: int, offset: int)
    requires
        0 < lanes,
        0 <= turn,
        0 <= offset,
    ensures
        lane_pick(frontier, lanes, turn, offset) matches Some(pair) ==> 0 <= pair.0
            < frontier.len() && 0 <= pair.1 < lanes,
    decreases lanes - offset,
{
    if offset < lanes {
        let lane = (turn + offset) % lanes;
        lane_found(frontier, lane, 0);
        if first_of_lane(frontier, lane, 0) is None {
            pick_found(frontier, lanes, turn, offset + 1);
        }
    }
}

proof fn rotation_keeps(s: ScanState)
    requires
        s.wf(),
    ensures
        s.rotate().wf(),
        s.rotate().plan == s.plan,
        s.rotate().frontier.len() == s.frontier.len(),
{
    reveal(ScanState::rotate);
    if s.plan.logical && s.plan.lanes > 0 {
        pick_found(s.frontier, s.plan.lanes as int, s.lane_turn as int, 0);
        match lane_pick(s.frontier, s.plan.lanes as int, s.lane_turn as int, 0) {
            None => {},
            Some((at, lane)) => {
                let turned = s.frontier.skip(at) + s.frontier.take(at);
                assert forall|i: int| 0 <= i < turned.len() implies (
                #[trigger] turned[i]).mark.depth < s.plan.max_depth by {
                    if i < s.frontier.len() - at {
                        assert(turned[i] == s.frontier[at + i]);
                    } else {
                        assert(turned[i] == s.frontier[i - (s.frontier.len() - at)]);
                    }
                }
                assert(0 <= (lane + 1) % (s.plan.lanes as int) < s.plan.lanes);
            },
        }
    }
}

proof fn conclude_keeps(s: ScanState, review: Review, quality: Option<Seq<char>>)
    ensures
        same_course(s, s.conclude(review, quality)),
        s.conclude(review, quality).phase is Idle,
{
    reveal(ScanState::conclude);
}

proof fn failed_keeps(s: ScanState, review: Review, reason: Seq<char>, t: Tick)
    ensures
        same_course(s, s.failed(review, reason, t)),
        s.failed(review, reason, t).phase is Idle,
{
    reveal(ScanState::failed);
    let told = if t.cancel {
        s.stats.cancel()
    } else {
        s.stats.err()
    };
    conclude_keeps(
        s.with(told),
        Review { blocked: Some(reason), ..review },
        Some("Measurement is incomplete"@),
    );
}

/// Whether a step is neither reading nor opening a folder.
pub open spec fn elsewhere(s: ScanState) -> bool {
    !(s.phase is Reading) && !(s.phase is Opening) && !(s.phase is Entering)
}

proof fn untracked_keeps(s: ScanState, review: Review, quality: Option<Seq<char>>)
    ensures
        same_course(s, s.untracked(review, quality)),
        elsewhere(s.untracked(review, quality)),
        same_course(s, s.unused(review, quality)),
        elsewhere(s.unused(review, quality)),
{
    reveal(ScanState::untracked);
    reveal(ScanState::unused);
    conclude_keeps(s, review, quality);
}

proof fn measured_keeps(s: ScanState, job: JobView, outcome: Result<Measurement, String>, t: Tick)
    ensures
        same_course(s, s.measured(job, outcome, t)),
        elsewhere(s.measured(job, outcome, t)),
{
    reveal(ScanState::measured);
    let timed = s.with(s.stats.at(t.elapsed_ms));
    match outcome {
        Err(reason) => {
            failed_keeps(timed, job.review, reason@, t);
        },
        Ok(measured) => {
            reviewed_keeps(timed, job.review, measured, t);
        },
    }
}

proof fn reviewed_keeps(s: ScanState, review: Review, measured: Measurement, t: Tick)
    ensures
        same_course(s, s.reviewed(review, measured, t)),
        elsewhere(s.reviewed(review, measured, t)),
{
    reveal(ScanState::reviewed);
    let added = s.with(
        Counters {
            skipped: crate::model::capped(s.stats.skipped + measured.skipped),
            errors: crate::model::capped(s.stats.errors + measured.errors),
            excluded_artifacts: if measured.pruned {
                crate::model::capped(s.stats.excluded_artifacts + 1)
            } else {
                s.stats.excluded_artifacts
            },
            ..s.stats
        },
    );
    let told = if measured.pruned && measured.errors == 0 && s.plan.hints {
        match review.recent_leaf {
            Some(leaf) => ScanState {
                press: added.press.tell(News::Remember(review.entry.path, leaf)),
                ..added
            },
            None => added,
        }
    } else {
        added
    };
    let quality = if measured.pruned {
        Some(super::state::pruned_reason())
    } else {
        crate::evidence::suggestion_outcome(
            review.found.rules,
            review.found.quiet_days,
            review.found.latest,
            measured.allocated_bytes,
            measured.latest_modified_ns as int,
            t.now_ns,
        )
    };
    let judged = Review {
        candidate: crate::sightings::measured_sight(review.candidate, measured),
        blocked: match review.blocked {
            Some(reason) => Some(reason),
            None => text_view(measured.unsafe_reason),
        },
        ..review
    };
    untracked_keeps(told, judged, quality);
}

proof fn started_keeps(s: ScanState, review: Review, outcome: Result<u64, String>, t: Tick)
    ensures
        same_course(s, s.started(review, outcome, t)),
        elsewhere(s.started(review, outcome, t)),
{
    reveal(ScanState::started);
    let timed = s.with(s.stats.at(t.elapsed_ms));
    failed_keeps(
        timed,
        review,
        "Artifact scheduling metadata exceeds the bounded queue limit"@,
        t,
    );
    if let Err(reason) = outcome {
        failed_keeps(timed, review, reason@, t);
    }
}

proof fn seen_keeps(s: ScanState, job: JobView, entry: crate::sightings::Spot, partial: Measurement, t: Tick)
    ensures
        same_course(s, s.seen(job, entry, partial, t)),
        elsewhere(s.seen(job, entry, partial, t)),
{
    reveal(ScanState::seen);
}

proof fn begin_keeps(s: ScanState, case: CaseView, t: Tick)
    ensures
        same_course(s, s.begin(case, t)),
        s.begin(case, t).phase is Starting,
{
    reveal(ScanState::begin);
}

proof fn finish_keeps(s: ScanState, t: Tick)
    ensures
        same_course(s, s.finish(t)),
        s.finish(t).phase is Done,
{
    reveal(ScanState::finish);
}

proof fn checked_keeps(s: ScanState, case: CaseView, t: Tick)
    ensures
        same_course(s, s.checked(case, t)),
        elsewhere(s.checked(case, t)),
{
    reveal(ScanState::checked);
    begin_keeps(s, case, t);
}

proof fn verified_keeps(s: ScanState, case: CaseView, failure: Option<Seq<char>>, t: Tick)
    ensures
        same_course(s, s.verified(case, failure, t)),
        elsewhere(s.verified(case, failure, t)),
{
    reveal(ScanState::verified);
    begin_keeps(s, case, t);
}

proof fn hinted_keeps(s: ScanState, case: CaseView, hint: Option<Seq<u8>>, t: Tick)
    ensures
        same_course(s, s.hinted(case, hint, t)),
        elsewhere(s.hinted(case, hint, t)),
{
    reveal(ScanState::hinted);
    begin_keeps(s, case, t);
    begin_keeps(s.forget(case.item.entry.path), case, t);
}

proof fn observed_keeps(s: ScanState, case: CaseView, meta: Option<EntryMeta>, t: Tick)
    ensures
        same_course(s, s.observed(case, meta, t)),
        elsewhere(s.observed(case, meta, t)),
{
    reveal(ScanState::observed);
    begin_keeps(s.forget(case.item.entry.path), case, t);
    finish_keeps(s.with(s.stats.cancel()), t);
}

proof fn recalled_keeps(s: ScanState, review: Review, outcome: Result<Option<Found>, Seq<char>>)
    ensures
        same_course(s, s.recalled(review, outcome)),
        elsewhere(s.recalled(review, outcome)),
{
    reveal(ScanState::recalled);
    conclude_keeps(s, review, None);
    conclude_keeps(
        s,
        Review {
            blocked: Some("Project evidence changed during the scan; refresh this review"@),
            ..review
        },
        None,
    );
}

proof fn recognized_keeps(s: ScanState, item: ItemView, found: Found, t: Tick)
    ensures
        same_course(s, s.recognized(item, found, t)),
        elsewhere(s.recognized(item, found, t)),
{
    reveal(ScanState::recognized);
    reveal(ScanState::declined);
    reveal(ScanState::weighed);
    let timed = s.with(s.stats.at(t.elapsed_ms));
    let candidate = crate::sightings::first_sight(
        s.plan.root.id@,
        item.entry.path,
        item.entry.meta,
        found,
    );
    let changed = item.entry.meta.identity.modified_ns as int;
    match item.previous {
        Some(checks) => {
            checked_keeps(timed, CaseView { item, candidate, checks }, t);
        },
        None => {
            let quiet = super::state::calm(
                crate::sources::later(changed, found.latest),
                t.now_ns,
                found.quiet_days,
            );
            checked_keeps(
                timed,
                CaseView {
                    item,
                    candidate,
                    checks: super::state::ChecksView { found, quiet, blocked: found.blocked },
                },
                t,
            );
        },
    }
}

proof fn enter_keeps(s: ScanState, item: ItemView, classify: bool, id: u64)
    requires
        s.wf(),
        item.depth < s.plan.max_depth,
    ensures
        s.enter(item, classify, id).wf(),
        s.enter(item, classify, id).plan == s.plan,
        s.enter(item, classify, id).phase == s.phase,
{
    let after = s.enter(item, classify, id);
    assert forall|i: int| 0 <= i < after.frontier.len() implies (
    #[trigger] after.frontier[i]).mark.depth < s.plan.max_depth by {
        if s.frontier.len() < super::state::MAX_SHALLOW_FRONTIER {
            if i < s.frontier.len() {
                assert(after.frontier[i] == s.frontier[i]);
            }
        } else if i > 0 {
            assert(after.frontier[i] == s.frontier[i - 1]);
        }
    }
}

proof fn descend_keeps(s: ScanState, item: ItemView, classify: bool, t: Tick)
    requires
        s.wf(),
    ensures
        s.descend(item, classify, t).wf(),
        s.descend(item, classify, t).plan == s.plan,
{
    reveal(ScanState::descend);
    if item.entry.meta.dir() && item.depth < s.plan.max_depth {
        if let Some(id) = item.opened {
            enter_keeps(s, item, classify, id);
        }
    }
}

proof fn turn_keeps(s: ScanState, t: Tick)
    requires
        s.wf(),
        s.phase is Idle,
    ensures
        s.turn(t).wf(),
        s.turn(t).plan == s.plan,
{
    reveal(ScanState::turn);
    reveal(ScanState::explore);
    let p = ScanState { measurement_turn: true, ..s.pulse(t) };
    assert(p.wf());
    rotation_keeps(p);
    finish_keeps(p, t);
    finish_keeps(s.with(s.stats.cancel()), t);
}

proof fn looked_keeps(s: ScanState, item: ItemView, facts: super::state::EntryFacts, t: Tick)
    requires
        s.wf(),
        s.phase is Idle,
    ensures
        s.looked(item, facts, t).wf(),
        s.looked(item, facts, t).plan == s.plan,
{
    reveal(ScanState::looked);
    let seen = ItemView { provider: facts.provider, ..item };
    let meta = seen.entry.meta;
    let counted = if seen.previous is Some {
        s
    } else {
        ScanState {
            stats: crate::sightings::tallied(
                s.stats,
                s.links,
                meta,
                s.plan.root.identity.device,
            ),
            links: crate::sightings::linked(s.links, meta, s.plan.root.identity.device),
            ..s
        }
    };
    assert(counted.wf());
    descend_keeps(counted, seen, seen.classify, t);
    if let Some(checks) = seen.previous {
        recognized_keeps(counted, seen, checks.found, t);
    }
}

proof fn judged_keeps(
    s: ScanState,
    item: ItemView,
    outcome: Result<Option<Found>, Seq<char>>,
    t: Tick,
)
    requires
        s.wf(),
        s.phase is Idle,
    ensures
        s.judged(item, outcome, t).wf(),
        s.judged(item, outcome, t).plan == s.plan,
{
    reveal(ScanState::judged);
    descend_keeps(s.with(s.stats.skip()), item, false, t);
    descend_keeps(s, item, item.classify, t);
    if let Ok(Some(found)) = outcome {
        recognized_keeps(s, item, found, t);
    }
}

proof fn entered_keeps(
    s: ScanState,
    outcome: Result<(Entry, Option<u64>), String>,
    t: Tick,
)
    requires
        s.wf(),
        s.phase is Idle,
    ensures
        s.entered(outcome, t).wf(),
        s.entered(outcome, t).plan == s.plan,
{
    reveal(ScanState::entered);
    finish_keeps(s.with(s.stats.cancel()), t);
}

proof fn opened_keeps(
    s: ScanState,
    item: ItemView,
    classify: bool,
    outcome: Result<u64, String>,
    t: Tick,
)
    requires
        s.wf(),
        s.phase is Idle,
        item.depth < s.plan.max_depth,
    ensures
        s.opened(item, classify, outcome, t).wf(),
        s.opened(item, classify, outcome, t).plan == s.plan,
{
    reveal(ScanState::opened);
    if let Ok(id) = outcome {
        enter_keeps(s, item, classify, id);
    }
}

/// Whatever is answered, a session stays well formed, and the terms of its scan
/// stay as they are.
pub proof fn step_keeps_wf(s: ScanState, event: Event, t: Tick)
    requires
        s.wf(),
    ensures
        s.step(event, t).wf(),
        s.step(event, t).plan == s.plan,
{
    reveal(ScanState::answered);
    let w = ScanState { press: Press { due: t.due, ..s.press }, phase: Stage::Idle, ..s };
    assert(w.wf());
    assert(ScanState { phase: s.phase, ..w }.wf());
    match (s.phase, event) {
        (Stage::Idle, Event::Proceed) => {
            turn_keeps(w, t);
        },
        (Stage::Reading, Event::Listed(outcome)) => {
            listed_keeps(w, outcome, t);
        },
        (Stage::Opening(_), Event::Entered(outcome)) => {
            entered_keeps(w, outcome, t);
        },
        (Stage::Looking(item), Event::Facts(facts)) => {
            looked_keeps(w, item, facts, t);
        },
        (Stage::Judging(item), Event::Evidence(outcome)) => {
            judged_keeps(w, item, outcome_view(outcome), t);
        },
        (Stage::Checking(case), Event::Activity(reason)) => {
            checked_keeps(
                w,
                CaseView {
                    checks: super::state::ChecksView { blocked: text_view(reason), ..case.checks },
                    ..case
                },
                t,
            );
        },
        (Stage::Verifying(case), Event::Verified(outcome)) => {
            verified_keeps(
                w,
                case,
                match outcome {
                    Ok(_) => None,
                    Err(reason) => Some(reason@),
                },
                t,
            );
        },
        (Stage::Hinting(case), Event::Hint(hint)) => {
            hinted_keeps(w, case, path_view(hint), t);
        },
        (Stage::Observing(case, _), Event::Observed(meta)) => {
            observed_keeps(w, case, meta, t);
        },
        (Stage::Starting(review, _), Event::Cursor(outcome)) => {
            started_keeps(w, review, outcome, t);
        },
        (Stage::Measuring(job), Event::Seen(entry, partial)) => {
            seen_keeps(w, job, entry@, partial, t);
        },
        (Stage::Measuring(job), Event::Pending) => {},
        (Stage::Measuring(job), Event::Measured(outcome)) => {
            measured_keeps(w, job, outcome, t);
        },
        (Stage::Tracking(review), Event::Git(reason)) => {
            untracked_keeps(w, Review { blocked: text_view(reason), ..review }, None);
        },
        (Stage::Using(review), Event::Activity(reason)) => {
            untracked_keeps(w, Review { blocked: text_view(reason), ..review }, None);
        },
        (Stage::Recalling(review), Event::Evidence(outcome)) => {
            recalled_keeps(w, review, outcome_view(outcome));
        },
        (Stage::Entering(item, classify, _), Event::Opened(outcome)) => {
            opened_keeps(w, item, classify, outcome, t);
        },
        _ => {},
    }
}

proof fn listed_keeps(s: ScanState, outcome: Result<Listing, String>, t: Tick)
    requires
        s.wf(),
        s.phase is Idle,
        s.frontier.len() > 0,
    ensures
        s.listed(outcome, t).wf(),
        s.listed(outcome, t).plan == s.plan,
{
    reveal(ScanState::listed);
    reveal(ScanState::finish);
    let left = s.frontier.skip(1);
    assert forall|i: int| 0 <= i < left.len() implies (#[trigger] left[i]).mark.depth
        < s.plan.max_depth by {
        assert(left[i] == s.frontier[i + 1]);
    }
}

} // verus!
