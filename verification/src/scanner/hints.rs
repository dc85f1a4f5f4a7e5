//! What is told beside the findings steers nothing, so that a hint which is only
//! a miss leaves a scan as it would have been.
use super::confinement::after_answers;
use super::press::{News, Press};
use super::review::{outcome_view, recent_local, Review};
use super::state::{
    calm, kept_over, CaseView, ChecksView, EntryFacts, Event, ItemView, JobView, Listing,
    ScanState, Stage, Tick,
};
use crate::evidence::{cutoff, path_view, suggestion_outcome, text_view, Found, Measurement};
use crate::model::{Entry, EntryMeta};
use crate::paths::strictly_under;
use crate::sightings::{first_sight, linked, measured_sight, tallied, Counters, Sighting, Spot};
use crate::sources::later;
use vstd::prelude::*;

verus! {

/// A press to which this was handed out before.
pub open spec fn with_news(press: Press, news: Seq<News>) -> Press {
    Press { outbox: news + press.outbox, ..press }
}

/// A session that had handed out this before.
pub open spec fn having_told(s: ScanState, news: Seq<News>) -> ScanState {
    ScanState { press: with_news(s.press, news), ..s }
}

proof fn press_after(news: Seq<News>)
    ensures
        forall|p: Press, stats: Counters| #[trigger]
            with_news(p, news).flush(stats) == with_news(p.flush(stats), news),
        forall|p: Press, c: Sighting, stats: Counters, force: bool| #[trigger]
            with_news(p, news).queue(c, stats, force) == with_news(
                p.queue(c, stats, force),
                news,
            ),
        forall|p: Press, more: News| #[trigger]
            with_news(p, news).tell(more) == with_news(p.tell(more), news),
{
    assert forall|p: Press, stats: Counters| #[trigger]
        with_news(p, news).flush(stats) == with_news(p.flush(stats), news) by {
        assert(with_news(p, news).flush(stats).outbox =~= with_news(p.flush(stats), news).outbox);
    }
    assert forall|p: Press, c: Sighting, stats: Counters, force: bool| #[trigger]
        with_news(p, news).queue(c, stats, force) == with_news(p.queue(c, stats, force), news) by {
        let more = Press { queued: p.queued.push(c), ..p };
        assert(with_news(more, news).flush(stats) == with_news(more.flush(stats), news));
    }
    assert forall|p: Press, more: News| #[trigger]
        with_news(p, news).tell(more) == with_news(p.tell(more), news) by {
        assert(with_news(p, news).tell(more).outbox =~= with_news(p.tell(more), news).outbox);
    }
}

proof fn finish_after(s: ScanState, news: Seq<News>, t: Tick)
    ensures
        having_told(s, news).finish(t) == having_told(s.finish(t), news),
{
    reveal(ScanState::finish);
    press_after(news);
}

proof fn explore_after(s: ScanState, news: Seq<News>, t: Tick)
    ensures
        having_told(s, news).explore(t) == having_told(s.explore(t), news),
{
    reveal(ScanState::explore);
    reveal(ScanState::rotate);
    finish_after(s, news, t);
}

proof fn turn_after(s: ScanState, news: Seq<News>, t: Tick)
    ensures
        having_told(s, news).turn(t) == having_told(s.turn(t), news),
{
    reveal(ScanState::turn);
    press_after(news);
    finish_after(s.with(s.stats.cancel()), news, t);
    let p = s.pulse(t);
    assert(having_told(s, news).pulse(t) == having_told(p, news));
    explore_after(ScanState { measurement_turn: true, ..p }, news, t);
}

proof fn listed_after(s: ScanState, news: Seq<News>, outcome: Result<Listing, String>, t: Tick)
    ensures
        having_told(s, news).listed(outcome, t) == having_told(s.listed(outcome, t), news),
{
    reveal(ScanState::listed);
    finish_after(s.with(s.stats.cancel()), news, t);
}

proof fn entered_after(
    s: ScanState,
    news: Seq<News>,
    outcome: Result<(Entry, Option<u64>), String>,
    t: Tick,
)
    ensures
        having_told(s, news).entered(outcome, t) == having_told(s.entered(outcome, t), news),
{
    reveal(ScanState::entered);
    finish_after(s.with(s.stats.cancel()), news, t);
}

proof fn descend_after(s: ScanState, news: Seq<News>, item: ItemView, classify: bool, t: Tick)
    ensures
        having_told(s, news).descend(item, classify, t) == having_told(
            s.descend(item, classify, t),
            news,
        ),
{
    reveal(ScanState::descend);
    press_after(news);
}

proof fn opened_after(
    s: ScanState,
    news: Seq<News>,
    item: ItemView,
    classify: bool,
    outcome: Result<u64, String>,
    t: Tick,
)
    ensures
        having_told(s, news).opened(item, classify, outcome, t) == having_told(
            s.opened(item, classify, outcome, t),
            news,
        ),
{
    reveal(ScanState::opened);
    press_after(news);
}

proof fn begin_after(s: ScanState, news: Seq<News>, case: CaseView, t: Tick)
    ensures
        having_told(s, news).begin(case, t) == having_told(s.begin(case, t), news),
{
    reveal(ScanState::begin);
    press_after(news);
}

proof fn checked_after(s: ScanState, news: Seq<News>, case: CaseView, t: Tick)
    ensures
        having_told(s, news).checked(case, t) == having_told(s.checked(case, t), news),
{
    reveal(ScanState::checked);
    press_after(news);
    begin_after(s, news, case, t);
}

proof fn weighed_after(
    s: ScanState,
    news: Seq<News>,
    item: ItemView,
    found: Found,
    candidate: Sighting,
    t: Tick,
)
    ensures
        having_told(s, news).weighed(item, found, candidate, t) == having_told(
            s.weighed(item, found, candidate, t),
            news,
        ),
{
    reveal(ScanState::weighed);
    match item.previous {
        Some(checks) => {
            checked_after(s, news, CaseView { item, candidate, checks }, t);
        },
        None => {
            let changed = item.entry.meta.identity.modified_ns as int;
            let quiet = calm(later(changed, found.latest), t.now_ns, found.quiet_days);
            checked_after(
                s,
                news,
                CaseView {
                    item,
                    candidate,
                    checks: ChecksView { found, quiet, blocked: found.blocked },
                },
                t,
            );
        },
    }
}

proof fn recognized_after(s: ScanState, news: Seq<News>, item: ItemView, found: Found, t: Tick)
    ensures
        having_told(s, news).recognized(item, found, t) == having_told(
            s.recognized(item, found, t),
            news,
        ),
{
    reveal(ScanState::recognized);
    reveal(ScanState::declined);
    press_after(news);
    let timed = s.with(s.stats.at(t.elapsed_ms));
    let candidate = first_sight(s.plan.root.id@, item.entry.path, item.entry.meta, found);
    weighed_after(timed, news, item, found, candidate, t);
}

proof fn judged_after(
    s: ScanState,
    news: Seq<News>,
    item: ItemView,
    outcome: Result<Option<Found>, Seq<char>>,
    t: Tick,
)
    ensures
        having_told(s, news).judged(item, outcome, t) == having_told(
            s.judged(item, outcome, t),
            news,
        ),
{
    reveal(ScanState::judged);
    descend_after(s.with(s.stats.skip()), news, item, false, t);
    descend_after(s, news, item, item.classify, t);
    if let Ok(Some(found)) = outcome {
        recognized_after(s, news, item, found, t);
    }
}

proof fn looked_after(s: ScanState, news: Seq<News>, item: ItemView, facts: EntryFacts, t: Tick)
    ensures
        having_told(s, news).looked(item, facts, t) == having_told(
            s.looked(item, facts, t),
            news,
        ),
{
    reveal(ScanState::looked);
    let seen = ItemView { provider: facts.provider, ..item };
    let meta = seen.entry.meta;
    let counted = if seen.previous is Some {
        s
    } else {
        ScanState {
            stats: tallied(s.stats, s.links, meta, s.plan.root.identity.device),
            links: linked(s.links, meta, s.plan.root.identity.device),
            ..s
        }
    };
    descend_after(counted, news, seen, seen.classify, t);
    if let Some(checks) = seen.previous {
        recognized_after(counted, news, seen, checks.found, t);
    }
}

proof fn verified_after(
    s: ScanState,
    news: Seq<News>,
    case: CaseView,
    failure: Option<Seq<char>>,
    t: Tick,
)
    ensures
        having_told(s, news).verified(case, failure, t) == having_told(
            s.verified(case, failure, t),
            news,
        ),
{
    reveal(ScanState::verified);
    press_after(news);
    begin_after(s, news, case, t);
}

proof fn hinted_after(
    s: ScanState,
    news: Seq<News>,
    case: CaseView,
    hint: Option<Seq<u8>>,
    t: Tick,
)
    ensures
        having_told(s, news).hinted(case, hint, t) == having_told(s.hinted(case, hint, t), news),
{
    reveal(ScanState::hinted);
    press_after(news);
    begin_after(s, news, case, t);
    begin_after(s.forget(case.item.entry.path), news, case, t);
}

proof fn observed_after(
    s: ScanState,
    news: Seq<News>,
    case: CaseView,
    meta: Option<EntryMeta>,
    t: Tick,
)
    ensures
        having_told(s, news).observed(case, meta, t) == having_told(
            s.observed(case, meta, t),
            news,
        ),
{
    reveal(ScanState::observed);
    press_after(news);
    finish_after(s.with(s.stats.cancel()), news, t);
    begin_after(s.forget(case.item.entry.path), news, case, t);
}

proof fn conclude_after(s: ScanState, news: Seq<News>, review: Review, quality: Option<Seq<char>>)
    ensures
        having_told(s, news).conclude(review, quality) == having_told(
            s.conclude(review, quality),
            news,
        ),
{
    reveal(ScanState::conclude);
    press_after(news);
}

proof fn failed_after(s: ScanState, news: Seq<News>, review: Review, reason: Seq<char>, t: Tick)
    ensures
        having_told(s, news).failed(review, reason, t) == having_told(
            s.failed(review, reason, t),
            news,
        ),
{
    reveal(ScanState::failed);
    let told = if t.cancel {
        s.stats.cancel()
    } else {
        s.stats.err()
    };
    conclude_after(
        s.with(told),
        news,
        Review { blocked: Some(reason), ..review },
        Some("Measurement is incomplete"@),
    );
}

proof fn started_after(
    s: ScanState,
    news: Seq<News>,
    review: Review,
    outcome: Result<u64, String>,
    t: Tick,
)
    ensures
        having_told(s, news).started(review, outcome, t) == having_told(
            s.started(review, outcome, t),
            news,
        ),
{
    reveal(ScanState::started);
    let timed = s.with(s.stats.at(t.elapsed_ms));
    failed_after(
        timed,
        news,
        review,
        "Artifact scheduling metadata exceeds the bounded queue limit"@,
        t,
    );
    if let Err(reason) = outcome {
        failed_after(timed, news, review, reason@, t);
    }
}

proof fn seen_after(
    s: ScanState,
    news: Seq<News>,
    job: JobView,
    entry: Spot,
    partial: Measurement,
    t: Tick,
)
    ensures
        having_told(s, news).seen(job, entry, partial, t) == having_told(
            s.seen(job, entry, partial, t),
            news,
        ),
{
    reveal(ScanState::seen);
    press_after(news);
}

proof fn untracked_after(
    s: ScanState,
    news: Seq<News>,
    review: Review,
    quality: Option<Seq<char>>,
)
    ensures
        having_told(s, news).untracked(review, quality) == having_told(
            s.untracked(review, quality),
            news,
        ),
        having_told(s, news).unused(review, quality) == having_told(
            s.unused(review, quality),
            news,
        ),
{
    reveal(ScanState::untracked);
    reveal(ScanState::unused);
    conclude_after(s, news, review, quality);
}

proof fn reviewed_after(
    s: ScanState,
    news: Seq<News>,
    review: Review,
    measured: Measurement,
    t: Tick,
)
    ensures
        having_told(s, news).reviewed(review, measured, t) == having_told(
            s.reviewed(review, measured, t),
            news,
        ),
{
    reveal(ScanState::reviewed);
    press_after(news);
    let added = s.with(
        Counters {
            skipped: crate::model::capped(s.stats.skipped + measured.skipped),
            errors: crate::model::capped(s.stats.errors + measured.errors),
            excluded_artifacts: if measured.pruned {
                crate::model::capped(s.stats.excluded_artifacts + 1)
            } else {
                s.stats.excluded_artifacts
            },
            ..s.stats
        },
    );
    let quality = if measured.pruned {
        Some(super::state::pruned_reason())
    } else {
        suggestion_outcome(
            review.found.rules,
            review.found.quiet_days,
            review.found.latest,
            measured.allocated_bytes,
            measured.latest_modified_ns as int,
            t.now_ns,
        )
    };
    let judged = Review {
        candidate: measured_sight(review.candidate, measured),
        blocked: match review.blocked {
            Some(reason) => Some(reason),
            None => text_view(measured.unsafe_reason),
        },
        ..review
    };
    untracked_after(added, news, judged, quality);
    if let Some(leaf) = review.recent_leaf {
        let told = ScanState {
            press: added.press.tell(News::Remember(review.entry.path, leaf)),
            ..added
        };
        untracked_after(told, news, judged, quality);
    }
}

proof fn measured_after(
    s: ScanState,
    news: Seq<News>,
    job: JobView,
    outcome: Result<Measurement, String>,
    t: Tick,
)
    ensures
        having_told(s, news).measured(job, outcome, t) == having_told(
            s.measured(job, outcome, t),
            news,
        ),
{
    reveal(ScanState::measured);
    let timed = s.with(s.stats.at(t.elapsed_ms));
    match outcome {
        Ok(measured) => {
            reviewed_after(timed, news, job.review, measured, t);
        },
        Err(reason) => {
            failed_after(timed, news, job.review, reason@, t);
        },
    }
}

proof fn recalled_after(
    s: ScanState,
    news: Seq<News>,
    review: Review,
    outcome: Result<Option<Found>, Seq<char>>,
)
    ensures
        having_told(s, news).recalled(review, outcome) == having_told(
            s.recalled(review, outcome),
            news,
        ),
{
    reveal(ScanState::recalled);
    conclude_after(s, news, review, None);
    conclude_after(
        s,
        news,
        Review {
            blocked: Some("Project evidence changed during the scan; refresh this review"@),
            ..review
        },
        None,
    );
}

/// What a session handed out before steers nothing: it goes on as it would
/// without.
#[verifier::rlimit(100)]
pub proof fn what_was_told_steers_nothing(s: ScanState, news: Seq<News>, event: Event, t: Tick)
    ensures
        having_told(s, news).step(event, t) == having_told(s.step(event, t), news),
{
    reveal(ScanState::answered);
    let at = ScanState { press: Press { due: t.due, ..s.press }, phase: Stage::Idle, ..s };
    let told = ScanState {
        press: Press { due: t.due, ..having_told(s, news).press },
        phase: Stage::Idle,
        ..having_told(s, news)
    };
    assert(told == having_told(at, news));
    match (s.phase, event) {
        (Stage::Idle, Event::Proceed) => {
            turn_after(at, news, t);
        },
        (Stage::Reading, Event::Listed(outcome)) => {
            listed_after(at, news, outcome, t);
        },
        (Stage::Opening(_), Event::Entered(outcome)) => {
            entered_after(at, news, outcome, t);
        },
        (Stage::Looking(item), Event::Facts(facts)) => {
            looked_after(at, news, item, facts, t);
        },
        (Stage::Judging(item), Event::Evidence(outcome)) => {
            judged_after(at, news, item, outcome_view(outcome), t);
        },
        (Stage::Checking(case), Event::Activity(reason)) => {
            checked_after(
                at,
                news,
                CaseView {
                    checks: ChecksView { blocked: text_view(reason), ..case.checks },
                    ..case
                },
                t,
            );
        },
        (Stage::Verifying(case), Event::Verified(outcome)) => {
            verified_after(
                at,
                news,
                case,
                match outcome {
                    Ok(_) => None,
                    Err(reason) => Some(reason@),
                },
                t,
            );
        },
        (Stage::Hinting(case), Event::Hint(hint)) => {
            hinted_after(at, news, case, path_view(hint), t);
        },
        (Stage::Observing(case, _), Event::Observed(meta)) => {
            observed_after(at, news, case, meta, t);
        },
        (Stage::Starting(review, _), Event::Cursor(outcome)) => {
            started_after(at, news, review, outcome, t);
        },
        (Stage::Measuring(job), Event::Seen(entry, partial)) => {
            seen_after(at, news, job, entry@, partial, t);
        },
        (Stage::Measuring(job), Event::Pending) => {},
        (Stage::Measuring(job), Event::Measured(outcome)) => {
            measured_after(at, news, job, outcome, t);
        },
        (Stage::Tracking(review), Event::Git(reason)) => {
            untracked_after(at, news, Review { blocked: text_view(reason), ..review }, None);
        },
        (Stage::Using(review), Event::Activity(reason)) => {
            untracked_after(at, news, Review { blocked: text_view(reason), ..review }, None);
        },
        (Stage::Recalling(review), Event::Evidence(outcome)) => {
            recalled_after(at, news, review, outcome_view(outcome));
        },
        (Stage::Entering(item, classify, _), Event::Opened(outcome)) => {
            opened_after(at, news, item, classify, outcome, t);
        },
        _ => {},
    }
}

proof fn runs_after(s: ScanState, news: Seq<News>, answers: Seq<(Event, Tick)>)
    ensures
        after_answers(having_told(s, news), answers) == having_told(
            after_answers(s, answers),
            news,
        ),
    decreases answers.len(),
{
    if answers.len() > 0 {
        runs_after(s, news, answers.drop_last());
        what_was_told_steers_nothing(
            after_answers(s, answers.drop_last()),
            news,
            answers.last().0,
            answers.last().1,
        );
    }
}

/// Whether a hint is only a miss: it is kept, does not lie inside the artifact,
/// or is not seen to be a local file that changed too recently.
pub open spec fn only_a_miss(
    s: ScanState,
    case: CaseView,
    path: Seq<u8>,
    meta: Option<EntryMeta>,
    t: Tick,
) -> bool {
    ||| kept_over(s.plan.kept@, path)
    ||| !strictly_under(path, case.item.entry.path)
    ||| !(meta matches Some(meta) && recent_local(
        meta,
        s.plan.root.identity.device,
        cutoff(t.now_ns, case.checks.found.quiet_days),
        s.plan.user,
    ))
}

/// A session that was given a hint and, where it then asked for it, what the file
/// is.
pub open spec fn with_hint(
    s: ScanState,
    path: crate::paths::FsPath,
    meta: Option<EntryMeta>,
    asked: Tick,
    t: Tick,
) -> ScanState {
    let first = s.step(Event::Hint(Some(path)), asked);
    if first.phase is Observing {
        first.step(Event::Observed(meta), t)
    } else {
        s.step(Event::Hint(Some(path)), t)
    }
}

/// Two sessions of which the first told once, in between, that a hint is to be
/// forgotten, and that are otherwise the same: the same findings, and the same
/// counters.
pub open spec fn differ_by_a_forgotten_hint(a: ScanState, b: ScanState, artifact: Seq<u8>) -> bool {
    exists|base: ScanState, news: Seq<News>|
        a == having_told(base, news.push(News::Forget(artifact))) && b == #[trigger] having_told(
            base,
            news,
        )
}

/// A hint that is missing, aged, kept, the artifact itself or outside of it leaves
/// the whole scan as it would have been without one, however it goes on: every
/// finding, every batch and every counter. All that is told besides is that it is
/// to be forgotten.
pub proof fn a_stale_hint_changes_nothing(
    s: ScanState,
    case: CaseView,
    path: crate::paths::FsPath,
    meta: Option<EntryMeta>,
    asked: Tick,
    t: Tick,
    answers: Seq<(Event, Tick)>,
)
    requires
        s.phase == Stage::Hinting(case),
        only_a_miss(s, case, path@, meta, t),
        !t.cancel,
    ensures
        differ_by_a_forgotten_hint(
            after_answers(with_hint(s, path, meta, asked, t), answers),
            after_answers(s.step(Event::Hint(None), t), answers),
            case.item.entry.path,
        ),
        after_answers(with_hint(s, path, meta, asked, t), answers).stats == after_answers(
            s.step(Event::Hint(None), t),
            answers,
        ).stats,
{
    reveal(ScanState::answered);
    reveal(ScanState::hinted);
    reveal(ScanState::observed);
    let artifact = case.item.entry.path;
    let news = s.press.outbox;
    let more = news.push(News::Forget(artifact));
    let at = ScanState {
        press: Press { due: t.due, outbox: seq![], ..s.press },
        phase: Stage::Idle,
        ..s
    };
    let plain = ScanState { press: Press { due: t.due, ..s.press }, phase: Stage::Idle, ..s };
    assert(having_told(at, news).press.outbox =~= news);
    assert(having_told(at, news) == plain);
    assert(having_told(at, more).press.outbox =~= more);
    assert(having_told(at, more) == plain.forget(artifact));
    let base = at.begin(case, t);
    begin_after(at, news, case, t);
    begin_after(at, more, case, t);
    let a = with_hint(s, path, meta, asked, t);
    let b = s.step(Event::Hint(None), t);
    assert(b == having_told(base, news));
    assert(plain.forget(artifact).begin(case, t) == having_told(base, more));
    let first = s.step(Event::Hint(Some(path)), asked);
    let early = ScanState {
        press: Press { due: asked.due, ..s.press },
        phase: Stage::Idle,
        ..s
    };
    assert(path_view(Some(path)) == Some(path@));
    assert(first == early.hinted(case, Some(path@), asked));
    if kept_over(s.plan.kept@, path@) || !strictly_under(path@, artifact) {
        reveal(ScanState::begin);
        assert(!(first.phase is Observing));
        assert(a == plain.hinted(case, Some(path@), t));
    } else {
        assert(first == (ScanState { phase: Stage::Observing(case, path@), ..early }));
        assert(a == plain.observed(case, meta, t));
    }
    assert(a == having_told(base, more));
    runs_after(base, news, answers);
    runs_after(base, more, answers);
}

} // verus!
