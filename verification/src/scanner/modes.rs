//! Suggestion discovery and metadata coverage agree on what they offer.
use super::press::{News, Press};
use super::review::{outcome_view, Review};
use super::state::{
    calm, kept_below, CaseView, ChecksView, Effort, Event, ItemView, JobView, Plan, ScanMode, ScanState, Stage,
    Tick,
};
use crate::classify::conditional_path;
use crate::evidence::{
    cutoff, path_view, suggestion_outcome, text_view, Evidence, Found, Measurement,
};
use crate::paths::FsPath;
use crate::sightings::{first_sight, measured_sight, Sighting, Spot};
use crate::sources::later;
use vstd::prelude::*;

verus! {

/// The measurement that judging an entry leads to, if it leads to one: what is
/// held of the artifact, and how it is measured. No file is looked at first.
pub open spec fn review_begun(
    s: ScanState,
    found: Evidence,
    active: Option<String>,
    t: Tick,
) -> Option<(Review, Effort)> {
    let judged = s.step(Event::Evidence(Ok(Some(found))), t);
    let checked = if judged.phase is Checking {
        judged.step(Event::Activity(active), t)
    } else {
        judged
    };
    let hinted = if checked.phase is Hinting {
        checked.step(Event::Hint(None), t)
    } else {
        checked
    };
    match hinted.phase {
        Stage::Starting(review, effort) => Some((review, effort)),
        _ => None,
    }
}

/// A session after a measurement ended and what is then asked was answered.
pub open spec fn review_ended(
    s: ScanState,
    measured: Measurement,
    tracking: Option<String>,
    active: Option<String>,
    current: Result<Option<Evidence>, String>,
    t: Tick,
) -> ScanState {
    let first = s.step(Event::Measured(Ok(measured)), t);
    let second = if first.phase is Tracking {
        first.step(Event::Git(tracking), t)
    } else {
        first
    };
    let third = if second.phase is Using {
        second.step(Event::Activity(active), t)
    } else {
        second
    };
    if third.phase is Recalling {
        third.step(Event::Evidence(current), t)
    } else {
        third
    }
}

/// The finding that came last.
pub open spec fn latest_row(press: Press) -> Option<Sighting> {
    if press.queued.len() > 0 {
        Some(press.queued.last())
    } else if press.outbox.len() > 0 {
        match press.outbox.last() {
            News::Batch(batch) => if batch.candidates.len() > 0 {
                Some(batch.candidates.last())
            } else {
                None
            },
            _ => None,
        }
    } else {
        None
    }
}

/// Whether two reviews are of the same artifact, found to be the same; how far
/// each was measured does not matter.
pub open spec fn same_artifact(a: Review, b: Review) -> bool {
    &&& a.entry == b.entry
    &&& a.found == b.found
    &&& a.blocked == b.blocked
    &&& a.is_dir == b.is_dir
    &&& a.candidate == (Sighting {
        logical_bytes: a.candidate.logical_bytes,
        allocated_bytes: a.candidate.allocated_bytes,
        file_count: a.candidate.file_count,
        modified_ns: a.candidate.modified_ns,
        fingerprint: a.candidate.fingerprint,
        ..b.candidate
    })
}

/// Whether two rows say the same of an artifact, beside when it last changed.
pub open spec fn same_row(a: Sighting, b: Sighting) -> bool {
    a == (Sighting { modified_ns: a.modified_ns, ..b })
}

/// A session whose question was answered.
spec fn at_rest(s: ScanState, t: Tick) -> ScanState {
    ScanState { press: Press { due: t.due, ..s.press }, phase: Stage::Idle, ..s }
}

/// The case that an entry makes, and whether it may be measured at once.
spec fn case_of(plan: Plan, item: ItemView, found: Found, t: Tick) -> CaseView {
    CaseView {
        item,
        candidate: first_sight(plan.root.id@, item.entry.path, item.entry.meta, found),
        checks: ChecksView {
            found,
            quiet: calm(
                later(item.entry.meta.identity.modified_ns as int, found.latest),
                t.now_ns,
                found.quiet_days,
            ),
            blocked: found.blocked,
        },
    }
}

/// What a session waits for once a measurement is asked for.
spec fn begin_stage(plan: Plan, case: CaseView, t: Tick) -> Stage {
    let fresh = case.item.previous is None && case.checks.quiet && case.checks.blocked is None;
    Stage::Starting(
        Review {
            entry: case.item.entry,
            found: case.checks.found,
            candidate: case.candidate,
            blocked: case.checks.blocked,
            is_dir: case.item.entry.meta.dir(),
            cutoff: cutoff(t.now_ns, case.checks.found.quiet_days) as i64,
            can_learn: plan.mode == ScanMode::Suggestions && fresh
                && case.item.entry.meta.dir() && plan.hints,
            recent_leaf: None,
        },
        if !fresh {
            Effort::Metadata
        } else if plan.mode == ScanMode::Suggestions {
            Effort::Suggestion
        } else {
            Effort::Full
        },
    )
}

/// What it waits for once the cheap checks are done.
spec fn checked_stage(plan: Plan, case: CaseView, t: Tick) -> Stage {
    if case.item.previous is Some {
        Stage::Verifying(case)
    } else if case.item.entry.meta.dir() && (!case.checks.quiet || case.checks.blocked is Some) {
        Stage::Idle
    } else if plan.mode == ScanMode::Suggestions && case.item.entry.meta.dir() && plan.hints {
        Stage::Hinting(case)
    } else {
        begin_stage(plan, case, t)
    }
}

/// What it waits for once an artifact was recognized for the first time.
spec fn recognized_stage(plan: Plan, item: ItemView, found: Found, t: Tick) -> Stage {
    let meta = item.entry.meta;
    let changed = meta.identity.modified_ns as int;
    let case = case_of(plan, item, found, t);
    if kept_below(plan.kept@, item.entry.path) {
        Stage::Idle
    } else if plan.mode == ScanMode::Suggestions && meta.dir() && conditional_path(
        item.entry.path,
        item.provider,
    ) && !calm(changed, t.now_ns, found.quiet_days) {
        Stage::Idle
    } else if plan.mode == ScanMode::Suggestions && !meta.dir() && suggestion_outcome(
        found.rules,
        found.quiet_days,
        found.latest,
        meta.allocated,
        changed,
        t.now_ns,
    ) is Some {
        Stage::Idle
    } else if found.rules.checks_activity && found.blocked is None && case.checks.quiet {
        Stage::Checking(case)
    } else {
        checked_stage(plan, case, t)
    }
}

proof fn begin_waits(s: ScanState, case: CaseView, t: Tick)
    ensures
        s.begin(case, t).phase == begin_stage(s.plan, case, t),
        s.begin(case, t).plan == s.plan,
{
    reveal(ScanState::begin);
}

proof fn checked_waits(s: ScanState, case: CaseView, t: Tick)
    ensures
        s.checked(case, t).phase == checked_stage(s.plan, case, t),
        s.checked(case, t).plan == s.plan,
{
    reveal(ScanState::checked);
    begin_waits(s, case, t);
}

proof fn recognized_waits(s: ScanState, item: ItemView, found: Found, t: Tick)
    requires
        item.previous is None,
    ensures
        s.recognized(item, found, t).phase == recognized_stage(s.plan, item, found, t),
        s.recognized(item, found, t).plan == s.plan,
{
    reveal(ScanState::recognized);
    reveal(ScanState::declined);
    reveal(ScanState::weighed);
    checked_waits(
        s.with(s.stats.at(t.elapsed_ms)),
        case_of(s.plan, item, found, t),
        t,
    );
}

/// What the review of a judged entry begins with, by what it waits for.
spec fn begun_from(
    plan: Plan,
    item: ItemView,
    found: Found,
    active: Option<Seq<char>>,
    t: Tick,
) -> Stage {
    let first = recognized_stage(plan, item, found, t);
    let second = match first {
        Stage::Checking(case) => checked_stage(
            plan,
            CaseView { checks: ChecksView { blocked: active, ..case.checks }, ..case },
            t,
        ),
        other => other,
    };
    match second {
        Stage::Hinting(case) => begin_stage(plan, case, t),
        other => other,
    }
}

proof fn review_begins(
    s: ScanState,
    item: ItemView,
    found: Evidence,
    active: Option<String>,
    t: Tick,
)
    requires
        s.phase == Stage::Judging(item),
        item.previous is None,
    ensures
        review_begun(s, found, active, t) == match begun_from(
            s.plan,
            item,
            found@,
            text_view(active),
            t,
        ) {
            Stage::Starting(review, effort) => Some((review, effort)),
            _ => None,
        },
{
    let outcome = outcome_view(Ok(Some(found)));
    assert(outcome == Ok::<Option<Found>, Seq<char>>(Some(found@)));
    let first = s.step(Event::Evidence(Ok(Some(found))), t);
    assert(first == at_rest(s, t).recognized(item, found@, t)) by {
        reveal(ScanState::answered);
        reveal(ScanState::judged);
    }
    recognized_waits(at_rest(s, t), item, found@, t);
    let second = if let Stage::Checking(case) = first.phase {
        let known = CaseView {
            checks: ChecksView { blocked: text_view(active), ..case.checks },
            ..case
        };
        assert(first.step(Event::Activity(active), t) == at_rest(first, t).checked(known, t)) by {
            reveal(ScanState::answered);
        }
        checked_waits(at_rest(first, t), known, t);
        first.step(Event::Activity(active), t)
    } else {
        first
    };
    if let Stage::Hinting(case) = second.phase {
        assert(second.step(Event::Hint(None), t) == at_rest(second, t).begin(case, t)) by {
            reveal(ScanState::answered);
            reveal(ScanState::hinted);
            assert(path_view(None::<FsPath>) is None);
        }
        begin_waits(at_rest(second, t), case, t);
    }
}

/// What a suggestion scan measures in search of a recommendation, and what
/// metadata coverage measures in full, are the same artifacts: the same item,
/// identified and checked alike, begins the same review in both.
pub proof fn both_modes_begin_the_same_review(
    s: ScanState,
    m: ScanState,
    item: ItemView,
    found: Evidence,
    active: Option<String>,
    t: Tick,
)
    requires
        s.plan.mode == ScanMode::Suggestions,
        m.plan == (Plan { mode: ScanMode::MetadataCoverage, ..s.plan }),
        s.phase == Stage::Judging(item),
        m.phase == Stage::Judging(item),
        item.previous is None,
        review_begun(s, found, active, t) is Some,
    ensures
        ({
            let (review, effort) = review_begun(s, found, active, t)->Some_0;
            review_begun(m, found, active, t) == Some(
                (
                    Review { can_learn: false, ..review },
                    if effort is Suggestion {
                        Effort::Full
                    } else {
                        effort
                    },
                ),
            )
        }),
{
    review_begins(s, item, found, active, t);
    review_begins(m, item, found, active, t);
}

/// What a measurement meets on its way changes nothing of what is reviewed.
pub proof fn measuring_keeps_the_artifact(
    s: ScanState,
    job: JobView,
    entry: Spot,
    partial: Measurement,
    t: Tick,
)
    ensures
        s.seen(job, entry, partial, t).phase matches Stage::Measuring(after) && same_artifact(
            after.review,
            job.review,
        ),
{
    reveal(ScanState::seen);
}

/// What a concluded review shows.
spec fn concluded_row(review: Review, quality: Option<Seq<char>>, cancelled: bool) -> Sighting {
    let doubt = if quality is None && review.candidate.fingerprint.len() == 0 {
        Some(super::state::diagnostic_reason())
    } else {
        quality
    };
    let offered = review.blocked is None && doubt is None && !cancelled;
    Sighting {
        blocked_reason: review.blocked,
        provisional: false,
        suggestion_eligible: offered,
        eligible_permanent: review.found.rules.permanent && offered,
        explanation: if offered {
            review.candidate.explanation + super::state::offer_note(review.found, review.is_dir)
        } else {
            match doubt {
                Some(reason) => review.candidate.explanation + super::state::refusal_note(reason),
                None => review.candidate.explanation,
            }
        },
        ..review.candidate
    }
}

proof fn conclusion_shows(s: ScanState, review: Review, quality: Option<Seq<char>>)
    ensures
        latest_row(s.conclude(review, quality).press) == Some(
            concluded_row(review, quality, s.stats.cancelled),
        ),
        s.conclude(review, quality).phase is Idle,
{
    reveal(ScanState::conclude);
}

/// What the end of a measurement comes to: the row that it shows.
spec fn ended_row(
    review: Review,
    measured: Measurement,
    tracking: Option<String>,
    active: Option<String>,
    current: Result<Option<Evidence>, String>,
    cancelled: bool,
    t: Tick,
) -> Sighting {
    let quality = suggestion_outcome(
        review.found.rules,
        review.found.quiet_days,
        review.found.latest,
        measured.allocated_bytes,
        measured.latest_modified_ns as int,
        t.now_ns,
    );
    let judged = Review {
        candidate: measured_sight(review.candidate, measured),
        blocked: match review.blocked {
            Some(reason) => Some(reason),
            None => text_view(measured.unsafe_reason),
        },
        ..review
    };
    if judged.blocked is Some || quality is Some {
        concluded_row(judged, quality, cancelled)
    } else {
        let tracked_by = Review {
            blocked: if review.found.rules.checks_git {
                text_view(tracking)
            } else {
                None
            },
            ..judged
        };
        if tracked_by.blocked is Some {
            concluded_row(tracked_by, None, cancelled)
        } else {
            let used = Review {
                blocked: if review.found.rules.checks_activity {
                    text_view(active)
                } else {
                    None
                },
                ..tracked_by
            };
            if used.blocked is Some {
                concluded_row(used, None, cancelled)
            } else {
                match outcome_view(current) {
                    Ok(Some(now)) if now.fingerprint == review.found.fingerprint
                        && now.blocked is None => concluded_row(used, None, cancelled),
                    _ => concluded_row(
                        Review {
                            blocked: Some(
                                "Project evidence changed during the scan; refresh this review"@,
                            ),
                            ..used
                        },
                        None,
                        cancelled,
                    ),
                }
            }
        }
    }
}

proof fn recalling_shows(
    s: ScanState,
    review: Review,
    current: Result<Option<Evidence>, String>,
    t: Tick,
)
    requires
        s.phase == Stage::Recalling(review),
    ensures
        latest_row(s.step(Event::Evidence(current), t).press) == Some(
            match outcome_view(current) {
                Ok(Some(now)) if now.fingerprint == review.found.fingerprint
                    && now.blocked is None => concluded_row(review, None, s.stats.cancelled),
                _ => concluded_row(
                    Review {
                        blocked: Some(
                            "Project evidence changed during the scan; refresh this review"@,
                        ),
                        ..review
                    },
                    None,
                    s.stats.cancelled,
                ),
            },
        ),
{
    reveal(ScanState::answered);
    reveal(ScanState::recalled);
    let at = at_rest(s, t);
    conclusion_shows(at, review, None);
    conclusion_shows(
        at,
        Review {
            blocked: Some("Project evidence changed during the scan; refresh this review"@),
            ..review
        },
        None,
    );
}

proof fn ending_shows(
    s: ScanState,
    job: JobView,
    measured: Measurement,
    tracking: Option<String>,
    active: Option<String>,
    current: Result<Option<Evidence>, String>,
    t: Tick,
)
    requires
        s.phase == Stage::Measuring(job),
        !measured.pruned,
    ensures
        latest_row(review_ended(s, measured, tracking, active, current, t).press) == Some(
            ended_row(job.review, measured, tracking, active, current, s.stats.cancelled, t),
        ),
{
    reveal(ScanState::answered);
    reveal(ScanState::measured);
    reveal(ScanState::reviewed);
    reveal(ScanState::untracked);
    reveal(ScanState::unused);
    let review = job.review;
    let quality = suggestion_outcome(
        review.found.rules,
        review.found.quiet_days,
        review.found.latest,
        measured.allocated_bytes,
        measured.latest_modified_ns as int,
        t.now_ns,
    );
    let judged = Review {
        candidate: measured_sight(review.candidate, measured),
        blocked: match review.blocked {
            Some(reason) => Some(reason),
            None => text_view(measured.unsafe_reason),
        },
        ..review
    };
    let first = s.step(Event::Measured(Ok(measured)), t);
    let timed = at_rest(s, t).with(at_rest(s, t).stats.at(t.elapsed_ms));
    let added = timed.with(
        crate::sightings::Counters {
            skipped: crate::model::capped(timed.stats.skipped + measured.skipped),
            errors: crate::model::capped(timed.stats.errors + measured.errors),
            ..timed.stats
        },
    );
    assert(first == timed.reviewed(review, measured, t));
    conclusion_shows(added, judged, quality);
    if judged.blocked is None && quality is None {
        let second = if first.phase is Tracking {
            let told = Review { blocked: text_view(tracking), ..judged };
            conclusion_shows(at_rest(first, t), told, None);
            first.step(Event::Git(tracking), t)
        } else {
            first
        };
        if second.phase is Using {
            let held = second.phase->Using_0;
            let told = Review { blocked: text_view(active), ..held };
            conclusion_shows(at_rest(second, t), told, None);
            let third = second.step(Event::Activity(active), t);
            if third.phase is Recalling {
                recalling_shows(third, third.phase->Recalling_0, current, t);
            }
        } else if second.phase is Recalling {
            recalling_shows(second, second.phase->Recalling_0, current, t);
        }
    }
}

/// Both modes come to the same row: where the same artifact, measured in full to
/// the same result, meets the same answers, what is shown of it is the same in
/// every respect but the moment of its last change, which each session may have
/// seen in parts. Whether it is offered, and whether it may be removed for good,
/// is part of that.
pub proof fn both_modes_end_in_the_same_row(
    s: ScanState,
    m: ScanState,
    a: JobView,
    b: JobView,
    measured: Measurement,
    tracking: Option<String>,
    active: Option<String>,
    current: Result<Option<Evidence>, String>,
    t: Tick,
)
    requires
        s.phase == Stage::Measuring(a),
        m.phase == Stage::Measuring(b),
        same_artifact(a.review, b.review),
        !measured.pruned,
        s.stats.cancelled == m.stats.cancelled,
    ensures
        ({
            let x = latest_row(review_ended(s, measured, tracking, active, current, t).press);
            let y = latest_row(review_ended(m, measured, tracking, active, current, t).press);
            x is Some && y is Some && same_row(x->Some_0, y->Some_0)
        }),
{
    ending_shows(s, a, measured, tracking, active, current, t);
    ending_shows(m, b, measured, tracking, active, current, t);
}

/// From the judgement to the row: an item that both modes identify alike and check
/// alike, measured in full to the same result, is shown alike in the end. Where a
/// suggestion scan offers it, metadata coverage offers it, and the other way round,
/// with the same path, identity, evidence, fingerprint, sizes and number of files.
pub proof fn both_modes_offer_the_same(
    s: ScanState,
    m: ScanState,
    item: ItemView,
    found: Evidence,
    used: Option<String>,
    began: Tick,
    late_s: ScanState,
    late_m: ScanState,
    a: JobView,
    b: JobView,
    measured: Measurement,
    tracking: Option<String>,
    active: Option<String>,
    current: Result<Option<Evidence>, String>,
    t: Tick,
)
    requires
        s.plan.mode == ScanMode::Suggestions,
        m.plan == (Plan { mode: ScanMode::MetadataCoverage, ..s.plan }),
        s.phase == Stage::Judging(item),
        m.phase == Stage::Judging(item),
        item.previous is None,
        review_begun(s, found, used, began) is Some,
        review_begun(m, found, used, began) is Some,
        late_s.phase == Stage::Measuring(a),
        late_m.phase == Stage::Measuring(b),
        same_artifact(a.review, review_begun(s, found, used, began)->Some_0.0),
        same_artifact(b.review, review_begun(m, found, used, began)->Some_0.0),
        !measured.pruned,
        !late_s.stats.cancelled,
        !late_m.stats.cancelled,
    ensures
        ({
            let x = latest_row(
                review_ended(late_s, measured, tracking, active, current, t).press,
            )->Some_0;
            let y = latest_row(
                review_ended(late_m, measured, tracking, active, current, t).press,
            )->Some_0;
            &&& same_row(x, y)
            &&& x.path == item.entry.path && y.path == item.entry.path
            &&& x.suggestion_eligible == y.suggestion_eligible
            &&& x.eligible_permanent == y.eligible_permanent
            &&& x.fingerprint == measured.fingerprint@
            &&& x.logical_bytes == measured.logical_bytes
            &&& x.allocated_bytes == measured.allocated_bytes
            &&& x.file_count == measured.files
        }),
{
    both_modes_begin_the_same_review(s, m, item, found, used, began);
    review_begins(s, item, found, used, began);
    ending_shows(late_s, a, measured, tracking, active, current, t);
    both_modes_end_in_the_same_row(
        late_s,
        late_m,
        a,
        b,
        measured,
        tracking,
        active,
        current,
        t,
    );
}

} // verus!
