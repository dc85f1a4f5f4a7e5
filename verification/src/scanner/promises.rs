//! What a discovery session promises of its findings, its counters and its
//! queues, whatever is answered.
use super::press::{News, Press, MAX_BATCH};
use super::review::{outcome_view, recent_local, Review};
use super::state::{
    calm, kept_below, kept_over, pruned_reason, CaseView, ChecksView, EntryFacts, Event, ItemView,
    JobView, Listed, Listing, ScanState, Stage, Tick, MAX_ACTIVE_MEASUREMENTS,
    MAX_DEFERRED_ARTIFACTS,
};
use crate::evidence::{cutoff, path_view, suggestion_outcome, text_view, Found, Measurement};
use crate::model::{capped, Entry, EntryMeta};
use crate::paths::same_place;
use crate::sightings::{
    first_sight, linked, measured_sight, tallied, Counters, Sighting, Spot,
};
use crate::sources::later;
use vstd::prelude::*;

verus! {

/// Whether nothing among some findings is offered.
pub open spec fn plain_list(list: Seq<Sighting>) -> bool {
    forall|i: int| 0 <= i < list.len() ==> !(#[trigger] list[i]).suggestion_eligible
}

pub open spec fn plain_news(news: News) -> bool {
    news matches News::Batch(batch) ==> plain_list(batch.candidates)
}

/// Whether nothing that waits or went out is offered.
pub open spec fn modest(press: Press) -> bool {
    &&& plain_list(press.queued)
    &&& forall|i: int| 0 <= i < press.outbox.len() ==> plain_news(#[trigger] press.outbox[i])
}

/// Whether no counter went back.
pub open spec fn grown(a: Counters, b: Counters) -> bool {
    &&& a.entries <= b.entries
    &&& a.files <= b.files
    &&& a.directories <= b.directories
    &&& a.skipped <= b.skipped
    &&& a.metadata_skipped <= b.metadata_skipped
    &&& a.errors <= b.errors
    &&& a.excluded_artifacts <= b.excluded_artifacts
    &&& a.candidates <= b.candidates
    &&& a.logical_bytes <= b.logical_bytes
    &&& a.allocated_bytes <= b.allocated_bytes
    &&& a.cancelled ==> b.cancelled
    &&& a.first_finding_ms is Some ==> b.first_finding_ms == a.first_finding_ms
}

/// Whether a session went on without offering anything: no counter went back,
/// batches stay small, and what was modest still is.
pub open spec fn quietly(a: ScanState, b: ScanState) -> bool {
    &&& grown(a.stats, b.stats)
    &&& a.press.queued.len() < MAX_BATCH ==> b.press.queued.len() < MAX_BATCH
    &&& modest(a.press) ==> modest(b.press)
    &&& a.measurements == b.measurements
    &&& a.deferred == b.deferred
}

/// Whether nothing that is held of an artifact is offered yet.
pub open spec fn unoffered(stage: Stage) -> bool {
    match stage {
        Stage::Checking(case) => !case.candidate.suggestion_eligible,
        Stage::Verifying(case) => !case.candidate.suggestion_eligible,
        Stage::Hinting(case) => !case.candidate.suggestion_eligible,
        Stage::Observing(case, _) => !case.candidate.suggestion_eligible,
        Stage::Starting(review, _) => !review.candidate.suggestion_eligible,
        Stage::Measuring(job) => !job.review.candidate.suggestion_eligible,
        Stage::Tracking(review) => !review.candidate.suggestion_eligible,
        Stage::Using(review) => !review.candidate.suggestion_eligible,
        Stage::Recalling(review) => !review.candidate.suggestion_eligible,
        _ => true,
    }
}

pub open spec fn plain_jobs(measurements: Seq<JobView>) -> bool {
    forall|i: int|
        0 <= i < measurements.len()
            ==> !(#[trigger] measurements[i]).review.candidate.suggestion_eligible
}

/// What is held of a session between its steps.
pub open spec fn steady(s: ScanState) -> bool {
    &&& unoffered(s.phase)
    &&& plain_jobs(s.measurements)
    &&& s.press.queued.len() < MAX_BATCH
    &&& s.measurements.len() <= MAX_ACTIVE_MEASUREMENTS
    &&& !(s.phase is Idle || s.phase is Done) ==> s.measurements.len() < MAX_ACTIVE_MEASUREMENTS
    &&& s.deferred.len() <= MAX_DEFERRED_ARTIFACTS
    &&& !(s.phase is Idle || s.phase is Done || s.phase is Measuring || s.phase is Tracking
        || s.phase is Using || s.phase is Recalling) ==> s.deferred.len() < MAX_DEFERRED_ARTIFACTS
    &&& s.phase is Done ==> s.stats.complete == (!s.stats.cancelled && s.stats.errors == 0)
}

proof fn flush_modest(p: Press, stats: Counters)
    requires
        modest(p),
    ensures
        modest(p.flush(stats)),
{
    let after = p.flush(stats);
    assert forall|i: int| 0 <= i < after.outbox.len() implies plain_news(
        #[trigger] after.outbox[i],
    ) by {
        if i < p.outbox.len() {
            assert(after.outbox[i] == p.outbox[i]);
        }
    }
}

proof fn tell_modest(p: Press, news: News)
    requires
        !(news is Batch),
    ensures
        modest(p) ==> modest(p.tell(news)),
{
    let after = p.tell(news);
    if modest(p) {
        assert forall|i: int| 0 <= i < after.outbox.len() implies plain_news(
            #[trigger] after.outbox[i],
        ) by {
            if i < p.outbox.len() {
                assert(after.outbox[i] == p.outbox[i]);
            }
        }
    }
}

proof fn queue_modest(p: Press, candidate: Sighting, stats: Counters, force: bool)
    ensures
        modest(p) && !candidate.suggestion_eligible ==> modest(p.queue(candidate, stats, force)),
        p.queued.len() < MAX_BATCH ==> p.queue(candidate, stats, force).queued.len() < MAX_BATCH,
{
    if modest(p) && !candidate.suggestion_eligible {
        let more = Press { queued: p.queued.push(candidate), ..p };
        assert forall|i: int| 0 <= i < more.queued.len() implies !(
        #[trigger] more.queued[i]).suggestion_eligible by {
            if i < p.queued.len() {
                assert(more.queued[i] == p.queued[i]);
            }
        }
        assert(modest(more));
        flush_modest(more, stats);
    }
}

proof fn publish_quiet(s: ScanState, candidate: Sighting, force: bool)
    requires
        !candidate.suggestion_eligible,
    ensures
        quietly(s, s.publish(candidate, force)),
{
    queue_modest(s.press, candidate, s.stats, force);
}

proof fn pulse_quiet(s: ScanState, t: Tick)
    ensures
        quietly(s, s.pulse(t)),
{
    if modest(s.press) {
        flush_modest(s.press, s.stats.at(t.elapsed_ms));
    }
}

proof fn finish_quiet(s: ScanState, t: Tick)
    ensures
        quietly(s, s.finish(t)),
        s.finish(t).phase is Done,
        s.finish(t).stats.complete == (!s.finish(t).stats.cancelled && s.finish(t).stats.errors
            == 0),
        s.finish(t).stats.cancelled == s.stats.cancelled,
{
    reveal(ScanState::finish);
    if modest(s.press) {
        flush_modest(s.press, s.finish(t).stats);
    }
}

proof fn descend_quiet(s: ScanState, item: ItemView, classify: bool, t: Tick)
    ensures
        quietly(s, s.descend(item, classify, t)),
        s.descend(item, classify, t).phase is Idle || s.descend(
            item,
            classify,
            t,
        ).phase is Entering,
{
    reveal(ScanState::descend);
    pulse_quiet(s, t);
    if let Some(id) = item.opened {
        pulse_quiet(s.enter(item, classify, id), t);
    }
}

proof fn begin_quiet(s: ScanState, case: CaseView, t: Tick)
    requires
        !case.candidate.suggestion_eligible,
    ensures
        quietly(s, s.begin(case, t)),
        s.begin(case, t).phase is Starting,
        unoffered(s.begin(case, t).phase),
{
    reveal(ScanState::begin);
    publish_quiet(s, case.candidate, false);
}

/// Whether a session went on and put at most one artifact off.
pub open spec fn deferring(a: ScanState, b: ScanState) -> bool {
    &&& grown(a.stats, b.stats)
    &&& a.press.queued.len() < MAX_BATCH ==> b.press.queued.len() < MAX_BATCH
    &&& modest(a.press) ==> modest(b.press)
    &&& a.measurements == b.measurements
    &&& b.deferred == a.deferred || (b.phase is Idle && b.deferred.len() == a.deferred.len() + 1)
}

proof fn checked_quiet(s: ScanState, case: CaseView, t: Tick)
    requires
        !case.candidate.suggestion_eligible,
    ensures
        deferring(s, s.checked(case, t)),
        unoffered(s.checked(case, t).phase),
        !(s.checked(case, t).phase is Done),
{
    reveal(ScanState::checked);
    begin_quiet(s, case, t);
    let shown = Sighting {
        blocked_reason: match case.checks.blocked {
            Some(reason) => Some(reason),
            None => Some(crate::evidence::recent_reason(case.checks.found.quiet_days)),
        },
        provisional: false,
        explanation: case.candidate.explanation + super::state::excluded_note(),
        ..case.candidate
    };
    publish_quiet(s.with(s.stats.skip().exclude()), shown, false);
    publish_quiet(s, case.candidate, false);
}

proof fn weighed_quiet(s: ScanState, item: ItemView, found: Found, candidate: Sighting, t: Tick)
    requires
        !candidate.suggestion_eligible,
    ensures
        deferring(s, s.weighed(item, found, candidate, t)),
        unoffered(s.weighed(item, found, candidate, t).phase),
        !(s.weighed(item, found, candidate, t).phase is Done),
{
    reveal(ScanState::weighed);
    match item.previous {
        Some(checks) => {
            checked_quiet(s, CaseView { item, candidate, checks }, t);
        },
        None => {
            let changed = item.entry.meta.identity.modified_ns as int;
            let quiet = calm(later(changed, found.latest), t.now_ns, found.quiet_days);
            checked_quiet(
                s,
                CaseView {
                    item,
                    candidate,
                    checks: ChecksView { found, quiet, blocked: found.blocked },
                },
                t,
            );
        },
    }
}

proof fn declined_quiet(s: ScanState, candidate: Sighting, reason: Seq<char>)
    requires
        !candidate.suggestion_eligible,
    ensures
        quietly(s, s.declined(candidate, reason)),
        s.declined(candidate, reason).phase is Idle,
{
    reveal(ScanState::declined);
    publish_quiet(
        s.with(s.stats.skip()),
        Sighting {
            provisional: false,
            explanation: candidate.explanation + super::state::plain_file_note(reason),
            blocked_reason: Some(reason),
            ..candidate
        },
        false,
    );
}

proof fn recognized_quiet(s: ScanState, item: ItemView, found: Found, t: Tick)
    ensures
        deferring(s, s.recognized(item, found, t)),
        unoffered(s.recognized(item, found, t).phase),
        !(s.recognized(item, found, t).phase is Done),
{
    reveal(ScanState::recognized);
    let timed = s.with(s.stats.at(t.elapsed_ms));
    let candidate = first_sight(s.plan.root.id@, item.entry.path, item.entry.meta, found);
    let unfit = suggestion_outcome(
        found.rules,
        found.quiet_days,
        found.latest,
        item.entry.meta.allocated,
        item.entry.meta.identity.modified_ns as int,
        t.now_ns,
    );
    if let Some(reason) = unfit {
        declined_quiet(timed, candidate, reason);
    }
    weighed_quiet(timed, item, found, candidate, t);
}

proof fn judged_quiet(
    s: ScanState,
    item: ItemView,
    outcome: Result<Option<Found>, Seq<char>>,
    t: Tick,
)
    ensures
        deferring(s, s.judged(item, outcome, t)),
        unoffered(s.judged(item, outcome, t).phase),
        !(s.judged(item, outcome, t).phase is Done),
{
    reveal(ScanState::judged);
    descend_quiet(s.with(s.stats.skip()), item, false, t);
    descend_quiet(s, item, item.classify, t);
    if let Ok(Some(found)) = outcome {
        recognized_quiet(s, item, found, t);
    }
}

proof fn looked_quiet(s: ScanState, item: ItemView, facts: EntryFacts, t: Tick)
    ensures
        deferring(s, s.looked(item, facts, t)),
        unoffered(s.looked(item, facts, t).phase),
        !(s.looked(item, facts, t).phase is Done),
{
    reveal(ScanState::looked);
    let seen = ItemView { provider: facts.provider, ..item };
    let meta = seen.entry.meta;
    let counted = if seen.previous is Some {
        s
    } else {
        ScanState {
            stats: tallied(s.stats, s.links, meta, s.plan.root.identity.device),
            links: linked(s.links, meta, s.plan.root.identity.device),
            ..s
        }
    };
    assert(quietly(s, counted));
    descend_quiet(counted, seen, seen.classify, t);
    if let Some(checks) = seen.previous {
        recognized_quiet(counted, seen, checks.found, t);
    }
}

proof fn verified_quiet(s: ScanState, case: CaseView, failure: Option<Seq<char>>, t: Tick)
    requires
        !case.candidate.suggestion_eligible,
    ensures
        quietly(s, s.verified(case, failure, t)),
        unoffered(s.verified(case, failure, t).phase),
        !(s.verified(case, failure, t).phase is Done),
{
    reveal(ScanState::verified);
    begin_quiet(s, case, t);
    if let Some(reason) = failure {
        let told = if t.cancel {
            s.stats.cancel()
        } else {
            s.stats.err()
        };
        publish_quiet(
            s.with(told.skip()),
            Sighting { blocked_reason: Some(reason), provisional: false, ..case.candidate },
            false,
        );
    }
}

proof fn hinted_quiet(s: ScanState, case: CaseView, hint: Option<Seq<u8>>, t: Tick)
    requires
        !case.candidate.suggestion_eligible,
    ensures
        quietly(s, s.hinted(case, hint, t)),
        unoffered(s.hinted(case, hint, t).phase),
        !(s.hinted(case, hint, t).phase is Done),
{
    reveal(ScanState::hinted);
    begin_quiet(s, case, t);
    tell_modest(s.press, News::Forget(case.item.entry.path));
    begin_quiet(s.forget(case.item.entry.path), case, t);
}

proof fn observed_quiet(s: ScanState, case: CaseView, meta: Option<EntryMeta>, t: Tick)
    requires
        !case.candidate.suggestion_eligible,
    ensures
        quietly(s, s.observed(case, meta, t)),
        unoffered(s.observed(case, meta, t).phase),
        s.observed(case, meta, t).phase is Done ==> s.observed(case, meta, t).stats.complete == (
        !s.observed(case, meta, t).stats.cancelled && s.observed(case, meta, t).stats.errors == 0),
{
    reveal(ScanState::observed);
    tell_modest(s.press, News::Forget(case.item.entry.path));
    begin_quiet(s.forget(case.item.entry.path), case, t);
    finish_quiet(s.with(s.stats.cancel()), t);
    if let Some(meta) = meta {
        publish_quiet(
            s.with(s.stats.skip().exclude()),
            Sighting {
                modified_ns: later(
                    case.candidate.modified_ns as int,
                    meta.identity.modified_ns as int,
                ) as i64,
                provisional: false,
                blocked_reason: Some(
                    super::state::hinted_reason(case.checks.found.quiet_days),
                ),
                explanation: case.candidate.explanation + super::state::hinted_note(),
                ..case.candidate
            },
            false,
        );
    }
}

/// Whether a session went on and opened at most one measurement.
pub open spec fn measuring(a: ScanState, b: ScanState) -> bool {
    &&& grown(a.stats, b.stats)
    &&& a.press.queued.len() < MAX_BATCH ==> b.press.queued.len() < MAX_BATCH
    &&& modest(a.press) ==> modest(b.press)
    &&& a.deferred == b.deferred
    &&& b.measurements == a.measurements || (b.phase is Idle && exists|job: JobView|
        !job.review.candidate.suggestion_eligible && b.measurements == #[trigger] a.measurements.push(
            job,
        ))
}

proof fn conclude_quiet(s: ScanState, review: Review, quality: Option<Seq<char>>)
    requires
        review.blocked is Some || quality is Some,
    ensures
        quietly(s, s.conclude(review, quality)),
        s.conclude(review, quality).phase is Idle,
{
    reveal(ScanState::conclude);
    let after = s.conclude(review, quality);
    let doubt = if quality is None && review.candidate.fingerprint.len() == 0 {
        Some(super::state::diagnostic_reason())
    } else {
        quality
    };
    let candidate = Sighting {
        blocked_reason: review.blocked,
        provisional: false,
        suggestion_eligible: false,
        eligible_permanent: false,
        explanation: match doubt {
            Some(reason) => review.candidate.explanation + super::state::refusal_note(reason),
            None => review.candidate.explanation,
        },
        ..review.candidate
    };
    publish_quiet(s.with(s.stats.skip()), candidate, false);
}

proof fn failed_quiet(s: ScanState, review: Review, reason: Seq<char>, t: Tick)
    ensures
        quietly(s, s.failed(review, reason, t)),
        s.failed(review, reason, t).phase is Idle,
{
    reveal(ScanState::failed);
    let told = if t.cancel {
        s.stats.cancel()
    } else {
        s.stats.err()
    };
    conclude_quiet(
        s.with(told),
        Review { blocked: Some(reason), ..review },
        Some("Measurement is incomplete"@),
    );
}

proof fn started_quiet(s: ScanState, review: Review, outcome: Result<u64, String>, t: Tick)
    requires
        !review.candidate.suggestion_eligible,
    ensures
        measuring(s, s.started(review, outcome, t)),
        s.started(review, outcome, t).phase is Idle,
{
    reveal(ScanState::started);
    let timed = s.with(s.stats.at(t.elapsed_ms));
    failed_quiet(
        timed,
        review,
        "Artifact scheduling metadata exceeds the bounded queue limit"@,
        t,
    );
    match outcome {
        Err(reason) => {
            failed_quiet(timed, review, reason@, t);
        },
        Ok(cursor) => {
            let job = JobView { review, cursor };
            assert(!job.review.candidate.suggestion_eligible);
            assert(timed.measurements.push(job) == s.measurements.push(job));
        },
    }
}

proof fn seen_quiet(s: ScanState, job: JobView, entry: Spot, partial: Measurement, t: Tick)
    requires
        !job.review.candidate.suggestion_eligible,
    ensures
        quietly(s, s.seen(job, entry, partial, t)),
        s.seen(job, entry, partial, t).phase is Measuring,
        unoffered(s.seen(job, entry, partial, t).phase),
{
    reveal(ScanState::seen);
    let device = s.plan.root.identity.device;
    let inside = !same_place(entry.path, job.review.entry.path);
    let counted = if inside {
        ScanState {
            stats: tallied(s.stats, s.links, entry.meta, device),
            links: linked(s.links, entry.meta, device),
            ..s
        }
    } else {
        s
    };
    assert(quietly(s, counted));
    publish_quiet(
        counted.with(counted.stats.at(t.elapsed_ms)),
        measured_sight(job.review.candidate, partial),
        true,
    );
}

proof fn untracked_quiet(s: ScanState, review: Review, quality: Option<Seq<char>>)
    requires
        !review.candidate.suggestion_eligible,
    ensures
        quietly(s, s.untracked(review, quality)),
        unoffered(s.untracked(review, quality).phase),
        quietly(s, s.unused(review, quality)),
        unoffered(s.unused(review, quality).phase),
        s.untracked(review, quality).phase is Idle || s.untracked(review, quality).phase is Using
            || s.untracked(review, quality).phase is Recalling,
        s.unused(review, quality).phase is Idle || s.unused(review, quality).phase is Recalling,
{
    reveal(ScanState::untracked);
    reveal(ScanState::unused);
    if review.blocked is Some || quality is Some {
        conclude_quiet(s, review, quality);
    }
}

proof fn reviewed_quiet(s: ScanState, review: Review, measured: Measurement, t: Tick)
    requires
        !review.candidate.suggestion_eligible,
    ensures
        quietly(s, s.reviewed(review, measured, t)),
        unoffered(s.reviewed(review, measured, t).phase),
        s.reviewed(review, measured, t).phase is Idle || s.reviewed(
            review,
            measured,
            t,
        ).phase is Tracking || s.reviewed(review, measured, t).phase is Using || s.reviewed(
            review,
            measured,
            t,
        ).phase is Recalling,
{
    reveal(ScanState::reviewed);
    let added = s.with(
        Counters {
            skipped: capped(s.stats.skipped + measured.skipped),
            errors: capped(s.stats.errors + measured.errors),
            excluded_artifacts: if measured.pruned {
                capped(s.stats.excluded_artifacts + 1)
            } else {
                s.stats.excluded_artifacts
            },
            ..s.stats
        },
    );
    assert(quietly(s, added));
    let told = if measured.pruned && measured.errors == 0 && s.plan.hints {
        match review.recent_leaf {
            Some(leaf) => ScanState {
                press: added.press.tell(News::Remember(review.entry.path, leaf)),
                ..added
            },
            None => added,
        }
    } else {
        added
    };
    if let Some(leaf) = review.recent_leaf {
        tell_modest(added.press, News::Remember(review.entry.path, leaf));
    }
    assert(quietly(added, told));
    let quality = if measured.pruned {
        Some(pruned_reason())
    } else {
        suggestion_outcome(
            review.found.rules,
            review.found.quiet_days,
            review.found.latest,
            measured.allocated_bytes,
            measured.latest_modified_ns as int,
            t.now_ns,
        )
    };
    let judged = Review {
        candidate: measured_sight(review.candidate, measured),
        blocked: match review.blocked {
            Some(reason) => Some(reason),
            None => text_view(measured.unsafe_reason),
        },
        ..review
    };
    untracked_quiet(told, judged, quality);
}

proof fn measured_quiet(s: ScanState, job: JobView, outcome: Result<Measurement, String>, t: Tick)
    requires
        !job.review.candidate.suggestion_eligible,
    ensures
        quietly(s, s.measured(job, outcome, t)),
        unoffered(s.measured(job, outcome, t).phase),
        s.measured(job, outcome, t).phase is Idle || s.measured(job, outcome, t).phase is Tracking
            || s.measured(job, outcome, t).phase is Using || s.measured(
            job,
            outcome,
            t,
        ).phase is Recalling,
{
    reveal(ScanState::measured);
    let timed = s.with(s.stats.at(t.elapsed_ms));
    match outcome {
        Err(reason) => {
            failed_quiet(timed, job.review, reason@, t);
        },
        Ok(measured) => {
            reviewed_quiet(timed, job.review, measured, t);
        },
    }
}

proof fn listed_quiet(s: ScanState, outcome: Result<Listing, String>, t: Tick)
    ensures
        quietly(s, s.listed(outcome, t)),
        unoffered(s.listed(outcome, t).phase),
        s.listed(outcome, t).phase is Done ==> s.listed(outcome, t).stats.complete == (!s.listed(
            outcome,
            t,
        ).stats.cancelled && s.listed(outcome, t).stats.errors == 0),
{
    reveal(ScanState::listed);
    finish_quiet(s.with(s.stats.cancel()), t);
}

proof fn entered_quiet(s: ScanState, outcome: Result<(Entry, Option<u64>), String>, t: Tick)
    ensures
        quietly(s, s.entered(outcome, t)),
        unoffered(s.entered(outcome, t).phase),
        s.entered(outcome, t).phase is Done ==> s.entered(outcome, t).stats.complete == (
        !s.entered(outcome, t).stats.cancelled && s.entered(outcome, t).stats.errors == 0),
{
    reveal(ScanState::entered);
    finish_quiet(s.with(s.stats.cancel()), t);
}

proof fn opened_quiet(
    s: ScanState,
    item: ItemView,
    classify: bool,
    outcome: Result<u64, String>,
    t: Tick,
)
    ensures
        quietly(s, s.opened(item, classify, outcome, t)),
        s.opened(item, classify, outcome, t).phase is Idle,
{
    reveal(ScanState::opened);
    match outcome {
        Ok(id) => {
            pulse_quiet(s.enter(item, classify, id), t);
        },
        Err(_) => {
            pulse_quiet(s.with(s.stats.err().skip()), t);
        },
    }
}

proof fn turn_steady(s: ScanState, t: Tick)
    requires
        steady(s),
        s.phase is Idle,
    ensures
        steady(s.turn(t)),
        grown(s.stats, s.turn(t).stats),
        modest(s.press) ==> modest(s.turn(t).press),
{
    reveal(ScanState::turn);
    reveal(ScanState::explore);
    reveal(ScanState::rotate);
    pulse_quiet(s, t);
    finish_quiet(s.with(s.stats.cancel()), t);
    let p = s.pulse(t);
    let q = ScanState { measurement_turn: true, ..p };
    finish_quiet(q, t);
    if p.measures_now() {
        let left = p.measurements.skip(1);
        assert forall|i: int| 0 <= i < left.len() implies !(
        #[trigger] left[i]).review.candidate.suggestion_eligible by {
            assert(left[i] == p.measurements[i + 1]);
        }
    }
}

/// Whatever is answered: no counter goes back, no queue outgrows its bound, a
/// finished scan is complete exactly when it was neither cancelled nor met an
/// error, and nothing is offered except after its evidence was read again.
#[verifier::spinoff_prover]
#[verifier::rlimit(60)]
pub proof fn sessions_keep_their_promises(s: ScanState, event: Event, t: Tick)
    requires
        steady(s),
    ensures
        steady(s.step(event, t)),
        grown(s.stats, s.step(event, t).stats),
        modest(s.press) && !(s.phase is Recalling && event is Evidence) ==> modest(
            s.step(event, t).press,
        ),
{
    reveal(ScanState::answered);
    let w = ScanState { press: Press { due: t.due, ..s.press }, phase: Stage::Idle, ..s };
    assert(modest(s.press) ==> modest(w.press));
    match (s.phase, event) {
        (Stage::Idle, Event::Proceed) => {
            turn_steady(w, t);
        },
        (Stage::Reading, Event::Listed(outcome)) => {
            listed_quiet(w, outcome, t);
        },
        (Stage::Opening(_), Event::Entered(outcome)) => {
            entered_quiet(w, outcome, t);
        },
        (Stage::Looking(item), Event::Facts(facts)) => {
            looked_quiet(w, item, facts, t);
        },
        (Stage::Judging(item), Event::Evidence(outcome)) => {
            judged_quiet(w, item, outcome_view(outcome), t);
        },
        (Stage::Checking(case), Event::Activity(reason)) => {
            checked_quiet(
                w,
                CaseView {
                    checks: ChecksView { blocked: text_view(reason), ..case.checks },
                    ..case
                },
                t,
            );
        },
        (Stage::Verifying(case), Event::Verified(outcome)) => {
            verified_quiet(
                w,
                case,
                match outcome {
                    Ok(_) => None,
                    Err(reason) => Some(reason@),
                },
                t,
            );
        },
        (Stage::Hinting(case), Event::Hint(hint)) => {
            hinted_quiet(w, case, path_view(hint), t);
        },
        (Stage::Observing(case, _), Event::Observed(meta)) => {
            observed_quiet(w, case, meta, t);
        },
        (Stage::Starting(review, _), Event::Cursor(outcome)) => {
            started_quiet(w, review, outcome, t);
            let after = w.started(review, outcome, t);
            if after.measurements != w.measurements {
                let job = choose|job: JobView|
                    !job.review.candidate.suggestion_eligible && after.measurements
                        == #[trigger] w.measurements.push(job);
                jobs_push(w.measurements, job);
            }
        },
        (Stage::Measuring(job), Event::Seen(entry, partial)) => {
            seen_quiet(w, job, entry@, partial, t);
        },
        (Stage::Measuring(job), Event::Pending) => {
            jobs_push(w.measurements, job);
        },
        (Stage::Measuring(job), Event::Measured(outcome)) => {
            measured_quiet(w, job, outcome, t);
        },
        (Stage::Tracking(review), Event::Git(reason)) => {
            untracked_quiet(w, Review { blocked: text_view(reason), ..review }, None);
        },
        (Stage::Using(review), Event::Activity(reason)) => {
            untracked_quiet(w, Review { blocked: text_view(reason), ..review }, None);
        },
        (Stage::Recalling(review), Event::Evidence(outcome)) => {
            recalled_steady(w, review, outcome_view(outcome));
        },
        (Stage::Entering(item, classify, _), Event::Opened(outcome)) => {
            opened_quiet(w, item, classify, outcome, t);
        },
        _ => {},
    }
}

proof fn jobs_push(measurements: Seq<JobView>, job: JobView)
    requires
        plain_jobs(measurements),
        !job.review.candidate.suggestion_eligible,
    ensures
        plain_jobs(measurements.push(job)),
{
    let more = measurements.push(job);
    assert forall|i: int| 0 <= i < more.len() implies !(
    #[trigger] more[i]).review.candidate.suggestion_eligible by {
        if i < measurements.len() {
            assert(more[i] == measurements[i]);
        }
    }
}

proof fn recalled_steady(s: ScanState, review: Review, outcome: Result<Option<Found>, Seq<char>>)
    ensures
        grown(s.stats, s.recalled(review, outcome).stats),
        s.recalled(review, outcome).phase is Idle,
        s.recalled(review, outcome).measurements == s.measurements,
        s.recalled(review, outcome).deferred == s.deferred,
        s.press.queued.len() < MAX_BATCH ==> s.recalled(review, outcome).press.queued.len()
            < MAX_BATCH,
{
    reveal(ScanState::recalled);
    reveal(ScanState::conclude);
}

/// Nothing is offered unless its evidence, read again after the measurement, is
/// what it was, and the scan was not cancelled.
pub proof fn offers_are_rechecked(
    s: ScanState,
    review: Review,
    outcome: Result<Option<Found>, Seq<char>>,
)
    requires
        modest(s.press),
        !modest(s.recalled(review, outcome).press),
    ensures
        outcome matches Ok(Some(current)) && current.fingerprint == review.found.fingerprint
            && current.blocked is None,
        review.blocked is None,
        review.candidate.fingerprint.len() > 0,
        !s.stats.cancelled,
{
    reveal(ScanState::recalled);
    reveal(ScanState::conclude);
    let changed = Review {
        blocked: Some("Project evidence changed during the scan; refresh this review"@),
        ..review
    };
    conclude_quiet(s, changed, None);
    let same = outcome matches Ok(Some(current)) && current.fingerprint == review.found.fingerprint
        && current.blocked is None;
    if same {
        if review.blocked is Some {
            conclude_quiet(s, review, None);
        } else if review.candidate.fingerprint.len() == 0 || s.stats.cancelled {
            let doubt = if review.candidate.fingerprint.len() == 0 {
                Some(super::state::diagnostic_reason())
            } else {
                None
            };
            publish_quiet(
                s.with(s.stats.skip()),
                Sighting {
                    blocked_reason: review.blocked,
                    provisional: false,
                    suggestion_eligible: false,
                    eligible_permanent: false,
                    explanation: match doubt {
                        Some(reason) => review.candidate.explanation
                            + super::state::refusal_note(reason),
                        None => review.candidate.explanation,
                    },
                    ..review.candidate
                },
                false,
            );
        }
    }
}

/// What the user keeps is passed over: it is counted and skipped, nothing of it
/// is opened, judged or published.
pub proof fn kept_entries_are_passed_over(s: ScanState, item: ItemView, facts: EntryFacts, t: Tick)
    requires
        kept_over(s.plan.kept@, item.entry.path),
    ensures
        s.looked(item, facts, t).phase is Idle,
        s.looked(item, facts, t).press == s.press,
        s.looked(item, facts, t).frontier == s.frontier,
        s.looked(item, facts, t).measurements == s.measurements,
        s.looked(item, facts, t).deferred == s.deferred,
{
    reveal(ScanState::looked);
}

/// An artifact that holds something the user keeps is never measured or offered.
pub proof fn keeping_protects_the_artifact_around(
    s: ScanState,
    item: ItemView,
    found: Found,
    t: Tick,
)
    requires
        kept_below(s.plan.kept@, item.entry.path),
    ensures
        s.recognized(item, found, t).phase is Idle,
        s.recognized(item, found, t).press == s.press,
        s.recognized(item, found, t).measurements == s.measurements,
        s.recognized(item, found, t).deferred == s.deferred,
{
    reveal(ScanState::recognized);
}

/// A finished scan stays finished.
pub proof fn finished_scans_stay_finished(s: ScanState, event: Event, t: Tick)
    requires
        s.phase is Done,
    ensures
        s.step(event, t).phase is Done,
        s.step(event, t).stats == s.stats,
        s.step(event, t).press.outbox == s.press.outbox,
{
    reveal(ScanState::answered);
}

/// A cancelled scan ends at its next turn, and is not complete.
pub proof fn cancelling_ends_a_scan(s: ScanState, t: Tick)
    requires
        s.phase is Idle,
        t.cancel,
    ensures
        s.step(Event::Proceed, t).phase is Done,
        s.step(Event::Proceed, t).stats.cancelled,
        !s.step(Event::Proceed, t).stats.complete,
{
    reveal(ScanState::answered);
    reveal(ScanState::turn);
    reveal(ScanState::finish);
}

/// A hint that cannot be confirmed is only a miss: the artifact is measured as if
/// there had been none, and the hint is forgotten.
pub proof fn stale_hints_are_misses(s: ScanState, case: CaseView, meta: Option<EntryMeta>, t: Tick)
    requires
        !t.cancel,
        !(meta matches Some(found) && recent_local(
            found,
            s.plan.root.identity.device,
            cutoff(t.now_ns, case.checks.found.quiet_days),
            s.plan.user,
        )),
    ensures
        s.observed(case, meta, t) == s.forget(case.item.entry.path).hinted(case, None, t),
{
    reveal(ScanState::observed);
    reveal(ScanState::hinted);
}

/// A confirmed hint rules an artifact out without any measured bytes, and offers
/// nothing.
pub proof fn hints_grant_nothing(s: ScanState, case: CaseView, meta: EntryMeta, t: Tick)
    requires
        !t.cancel,
        recent_local(
            meta,
            s.plan.root.identity.device,
            cutoff(t.now_ns, case.checks.found.quiet_days),
            s.plan.user,
        ),
    ensures
        s.observed(case, Some(meta), t).phase is Idle,
        s.observed(case, Some(meta), t).stats == s.stats.skip().exclude(),
        s.observed(case, Some(meta), t).stats.logical_bytes == s.stats.logical_bytes,
        s.observed(case, Some(meta), t).stats.allocated_bytes == s.stats.allocated_bytes,
        s.observed(case, Some(meta), t).measurements == s.measurements,
{
    reveal(ScanState::observed);
}

} // verus!
