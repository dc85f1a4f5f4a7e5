//! Metadata coverage comes to every artifact that suggestion discovery offers, and
//! shows the same of it.
use super::confinement::{after_answers, published};
use super::coverage::{
    all_served, covering, every_answer_progresses, fair, fair_stage, served, unused, Disk, World,
};
use super::modes::same_row;
use super::press::{News, Press};
use super::review::{outcome_view, Review};
use super::start::{fresh, Opening};
use super::state::{
    calm, offer_note, CaseView, ChecksView, Event, FrameView, ItemView, JobView, Listed, Plan,
    ScanMode, ScanState, Stage, StartView, Tick,
};
use crate::classify::{artifact_path, conditional_path};
use crate::evidence::{suggestion_outcome, text_view, Found, Measurement};
use crate::paths::same_place;
use crate::sightings::{first_sight, measured_sight, Counters, LinkState, Sighting, Spot};
use crate::sources::later;
use vstd::prelude::*;

verus! {

/// What is found out about the entries of a location, whichever scan asks: what
/// they are, whether anything uses them before and after they are measured, what
/// measuring them in full gives, whether a repository tracks them; and the moment.
pub struct Nature {
    pub evidence: spec_fn(Seq<u8>) -> Option<Found>,
    pub provider: spec_fn(Seq<u8>) -> bool,
    pub used: spec_fn(Seq<u8>) -> Option<Seq<char>>,
    pub measured: spec_fn(Seq<u8>) -> Measurement,
    pub tracking: spec_fn(Seq<u8>) -> Option<Seq<char>>,
    pub active: spec_fn(Seq<u8>) -> Option<Seq<char>>,
    pub now_ns: i64,
}

/// Whether an answer is the one that a scan of such a location gets. Only a
/// suggestion scan may stop measuring early.
pub open spec fn told(n: Nature, s: ScanState, event: Event, t: Tick) -> bool {
    &&& t.now_ns == n.now_ns
    &&& !t.cancel
    &&& match (s.phase, event) {
        (Stage::Looking(item), Event::Facts(facts)) => facts.provider == (n.provider)(
            item.entry.path,
        ),
        (Stage::Judging(item), Event::Evidence(outcome)) => outcome_view(outcome) == Ok::<
            Option<Found>,
            Seq<char>,
        >((n.evidence)(item.entry.path)),
        (Stage::Checking(case), Event::Activity(reason)) => text_view(reason) == (n.used)(
            case.item.entry.path,
        ),
        (Stage::Measuring(job), Event::Measured(Ok(measured))) => if measured.pruned {
            s.plan.mode == ScanMode::Suggestions
        } else {
            measured == (n.measured)(job.review.entry.path)
        },
        (Stage::Tracking(review), Event::Git(reason)) => text_view(reason) == (n.tracking)(
            review.entry.path,
        ),
        (Stage::Using(review), Event::Activity(reason)) => text_view(reason) == (n.active)(
            review.entry.path,
        ),
        (Stage::Recalling(review), Event::Evidence(outcome)) => outcome_view(outcome) == Ok::<
            Option<Found>,
            Seq<char>,
        >((n.evidence)(review.entry.path)),
        _ => true,
    }
}

/// Whether all answers are such ones.
pub open spec fn all_told(n: Nature, s: ScanState, answers: Seq<(Event, Tick)>) -> bool {
    forall|i: int|
        0 <= i < answers.len() ==> told(
            n,
            after_answers(s, answers.take(i)),
            (#[trigger] answers[i]).0,
            answers[i].1,
        )
}

/// Whether an entry is passed through on the way down: it is no artifact, nor
/// called like one.
pub open spec fn passed(n: Nature, plan: Plan, p: Seq<u8>) -> bool {
    same_place(p, plan.root.path@) || ((n.evidence)(p) is None && !(artifact_path(
        p,
        (n.provider)(p),
    ) && !conditional_path(p, (n.provider)(p))))
}

/// Whether a chain of folders leads from the location down, each in the one before
/// and passed through.
pub open spec fn leads(d: Disk, n: Nature, plan: Plan, chain: Seq<Seq<u8>>) -> bool {
    &&& chain.len() > 0
    &&& chain[0] == plan.root.path@
    &&& forall|i: int|
        0 <= i < chain.len() - 1 ==> (d.children)(#[trigger] chain[i]).contains(chain[i + 1])
    &&& forall|i: int| 0 < i < chain.len() ==> passed(n, plan, #[trigger] chain[i])
}

/// Whether a way leads to an entry: a chain to the folder that holds it.
pub open spec fn way(d: Disk, n: Nature, plan: Plan, chain: Seq<Seq<u8>>, p: Seq<u8>) -> bool {
    &&& leads(d, n, plan, chain)
    &&& (d.children)(chain.last()).contains(p)
    &&& !same_place(p, plan.root.path@)
}

/// Whether nothing was changed lately.
pub open spec fn quiet_of(d: Disk, n: Nature, p: Seq<u8>, found: Found) -> bool {
    calm(
        later((d.meta)(p).identity.modified_ns as int, found.latest),
        n.now_ns,
        found.quiet_days,
    )
}

/// What stands against an artifact before it is measured.
pub open spec fn block_of(d: Disk, n: Nature, p: Seq<u8>, found: Found) -> Option<Seq<char>> {
    if found.rules.checks_activity && found.blocked is None && quiet_of(d, n, p, found) {
        (n.used)(p)
    } else {
        found.blocked
    }
}

/// Whether all that is found out about an artifact lets it be offered.
pub open spec fn fit(d: Disk, n: Nature, p: Seq<u8>, found: Found) -> bool {
    let measured = (n.measured)(p);
    &&& (n.evidence)(p) == Some(found)
    &&& (d.meta)(p).dir() ==> quiet_of(d, n, p, found)
    &&& block_of(d, n, p, found) is None
    &&& measured.unsafe_reason is None
    &&& measured.fingerprint@.len() > 0
    &&& suggestion_outcome(
        found.rules,
        found.quiet_days,
        found.latest,
        measured.allocated_bytes,
        measured.latest_modified_ns as int,
        n.now_ns,
    ) is None
    &&& found.rules.checks_git ==> (n.tracking)(p) is None
    &&& found.rules.checks_activity ==> (n.active)(p) is None
}

/// What is shown of an artifact that is offered.
pub open spec fn offer_of(d: Disk, n: Nature, plan: Plan, p: Seq<u8>, found: Found) -> Sighting {
    let first = first_sight(plan.root.id@, p, (d.meta)(p), found);
    let measured = (n.measured)(p);
    Sighting {
        logical_bytes: measured.logical_bytes,
        allocated_bytes: measured.allocated_bytes,
        file_count: measured.files,
        fingerprint: measured.fingerprint@,
        blocked_reason: None,
        provisional: false,
        suggestion_eligible: true,
        eligible_permanent: found.rules.permanent,
        explanation: first.explanation + offer_note(found, (d.meta)(p).dir()),
        ..first
    }
}

/// Whether a row was shown.
pub open spec fn shown(press: Press, c: Sighting) -> bool {
    ||| press.queued.contains(c)
    ||| exists|i: int|
        0 <= i < press.outbox.len() && (#[trigger] press.outbox[i] matches News::Batch(batch)
            && batch.candidates.contains(c))
}

/// Whether what was shown stays shown.
spec fn keeps_rows(a: Press, b: Press) -> bool {
    forall|c: Sighting| #[trigger] shown(a, c) ==> shown(b, c)
}

proof fn tell_keeps(press: Press, news: News)
    ensures
        keeps_rows(press, press.tell(news)),
{
    let after = press.tell(news);
    assert forall|c: Sighting| #[trigger] shown(press, c) implies shown(after, c) by {
        if !press.queued.contains(c) {
            let i = choose|i: int|
                0 <= i < press.outbox.len() && (#[trigger] press.outbox[i] matches News::Batch(
                    batch,
                ) && batch.candidates.contains(c));
            assert(after.outbox[i] == press.outbox[i]);
        }
    }
}

proof fn flush_keeps(press: Press, stats: Counters)
    ensures
        keeps_rows(press, press.flush(stats)),
{
    let after = press.flush(stats);
    assert forall|c: Sighting| #[trigger] shown(press, c) implies shown(after, c) by {
        let n = press.outbox.len() as int;
        if press.queued.contains(c) {
            assert(after.outbox[n] matches News::Batch(batch) && batch.candidates.contains(c));
        } else {
            let i = choose|i: int|
                0 <= i < press.outbox.len() && (#[trigger] press.outbox[i] matches News::Batch(
                    batch,
                ) && batch.candidates.contains(c));
            assert(after.outbox[i] == press.outbox[i]);
        }
    }
}

proof fn queue_keeps(press: Press, candidate: Sighting, stats: Counters, force: bool)
    ensures
        keeps_rows(press, press.queue(candidate, stats, force)),
        shown(press.queue(candidate, stats, force), candidate),
{
    let more = Press { queued: press.queued.push(candidate), ..press };
    assert forall|c: Sighting| #[trigger] shown(press, c) implies shown(more, c) by {
        if press.queued.contains(c) {
            let i = choose|i: int| 0 <= i < press.queued.len() && press.queued[i] == c;
            assert(more.queued[i] == c);
        } else {
            let i = choose|i: int|
                0 <= i < press.outbox.len() && (#[trigger] press.outbox[i] matches News::Batch(
                    batch,
                ) && batch.candidates.contains(c));
            assert(more.outbox[i] == press.outbox[i]);
        }
    }
    assert(more.queued[press.queued.len() as int] == candidate);
    assert(shown(more, candidate));
    flush_keeps(more, stats);
}

/// Whether a session still holds all that another one held beside what it waits
/// for.
spec fn onward(a: ScanState, b: ScanState) -> bool {
    &&& b.plan == a.plan
    &&& b.next == a.next
    &&& forall|i: int| 0 <= i < a.frontier.len() ==> b.frontier.contains(#[trigger] a.frontier[i])
    &&& forall|i: int|
        0 <= i < a.measurements.len() ==> b.measurements.contains(#[trigger] a.measurements[i])
    &&& keeps_rows(a.press, b.press)
}

proof fn onward_same(a: ScanState, b: ScanState)
    requires
        b.plan == a.plan,
        b.next == a.next,
        b.frontier == a.frontier,
        b.measurements == a.measurements,
        keeps_rows(a.press, b.press),
    ensures
        onward(a, b),
{
    assert forall|i: int| 0 <= i < a.frontier.len() implies b.frontier.contains(
        #[trigger] a.frontier[i],
    ) by {
        assert(b.frontier[i] == a.frontier[i]);
    }
    assert forall|i: int| 0 <= i < a.measurements.len() implies b.measurements.contains(
        #[trigger] a.measurements[i],
    ) by {
        assert(b.measurements[i] == a.measurements[i]);
    }
}

proof fn pulse_onward(s: ScanState, t: Tick)
    ensures
        onward(s, s.pulse(t)),
        s.pulse(t).phase == s.phase,
        s.pulse(t).frontier == s.frontier,
        s.pulse(t).measurements == s.measurements,
        s.pulse(t).deferred == s.deferred,
        s.pulse(t).stats.cancelled == s.stats.cancelled,
{
    flush_keeps(s.press, s.stats.at(t.elapsed_ms));
    onward_same(s, s.pulse(t));
}

proof fn publish_onward(s: ScanState, c: Sighting, force: bool)
    ensures
        onward(s, s.publish(c, force)),
        shown(s.publish(c, force).press, c),
{
    queue_keeps(s.press, c, s.stats, force);
    onward_same(s, s.publish(c, force));
}

proof fn enter_onward(s: ScanState, item: ItemView, classify: bool, id: u64)
    ensures
        onward(s, s.enter(item, classify, id)),
        s.enter(item, classify, id).frontier.contains(
            FrameView {
                path: item.entry.path,
                mark: super::state::FrameMark { id, depth: item.depth, classify, lane: item.lane },
            },
        ),
{
    let b = s.enter(item, classify, id);
    let frame = FrameView {
        path: item.entry.path,
        mark: super::state::FrameMark { id, depth: item.depth, classify, lane: item.lane },
    };
    assert forall|i: int| 0 <= i < s.frontier.len() implies b.frontier.contains(
        #[trigger] s.frontier[i],
    ) by {
        if s.frontier.len() < super::state::MAX_SHALLOW_FRONTIER {
            assert(b.frontier[i] == s.frontier[i]);
        } else {
            assert(b.frontier[i + 1] == s.frontier[i]);
        }
    }
    if s.frontier.len() < super::state::MAX_SHALLOW_FRONTIER {
        assert(b.frontier[s.frontier.len() as int] == frame);
    } else {
        assert(b.frontier[0] == frame);
    }
    assert forall|i: int| 0 <= i < s.measurements.len() implies b.measurements.contains(
        #[trigger] s.measurements[i],
    ) by {
        assert(b.measurements[i] == s.measurements[i]);
    }
}

proof fn onward_on(a: ScanState, b: ScanState, c: ScanState)
    requires
        onward(a, b),
        onward(b, c),
    ensures
        onward(a, c),
{
    assert forall|i: int| 0 <= i < a.frontier.len() implies c.frontier.contains(
        #[trigger] a.frontier[i],
    ) by {
        assert(b.frontier.contains(a.frontier[i]));
        let j = choose|j: int| 0 <= j < b.frontier.len() && b.frontier[j] == a.frontier[i];
        assert(c.frontier.contains(b.frontier[j]));
    }
    assert forall|i: int| 0 <= i < a.measurements.len() implies c.measurements.contains(
        #[trigger] a.measurements[i],
    ) by {
        assert(b.measurements.contains(a.measurements[i]));
        let j = choose|j: int|
            0 <= j < b.measurements.len() && b.measurements[j] == a.measurements[i];
        assert(c.measurements.contains(b.measurements[j]));
    }
}

/// What is looked for: an artifact that can be offered, and the way to it.
pub struct Quest {
    pub d: Disk,
    pub n: Nature,
    pub plan: Plan,
    pub chain: Seq<Seq<u8>>,
    pub p: Seq<u8>,
    pub found: Found,
}

/// Whether a row is another one, but for what is measured.
spec fn alike(c: Sighting, b: Sighting) -> bool {
    c == (Sighting {
        logical_bytes: c.logical_bytes,
        allocated_bytes: c.allocated_bytes,
        file_count: c.file_count,
        modified_ns: c.modified_ns,
        fingerprint: c.fingerprint,
        ..b
    })
}

impl Quest {
    /// Whether there is such an artifact.
    pub open spec fn sought(self) -> bool {
        way(self.d, self.n, self.plan, self.chain, self.p) && fit(
            self.d,
            self.n,
            self.p,
            self.found,
        )
    }

    /// All that is come by, the artifact last.
    spec fn full(self) -> Seq<Seq<u8>> {
        self.chain.push(self.p)
    }

    spec fn first(self) -> Sighting {
        first_sight(self.plan.root.id@, self.p, (self.d.meta)(self.p), self.found)
    }

    /// What is shown in the end.
    pub open spec fn offer(self) -> Sighting {
        offer_of(self.d, self.n, self.plan, self.p, self.found)
    }

    /// Whether the artifact is under review, with nothing against it.
    spec fn reviews(self, review: Review) -> bool {
        &&& review.entry == self.d.spot(self.p)
        &&& review.found == self.found
        &&& review.blocked is None
        &&& review.is_dir == (self.d.meta)(self.p).dir()
        &&& alike(review.candidate, self.first())
    }

    /// The same, once it was measured.
    spec fn judges(self, review: Review) -> bool {
        let measured = (self.n.measured)(self.p);
        &&& self.reviews(review)
        &&& review.candidate.logical_bytes == measured.logical_bytes
        &&& review.candidate.allocated_bytes == measured.allocated_bytes
        &&& review.candidate.file_count == measured.files
        &&& review.candidate.fingerprint == measured.fingerprint@
    }

    /// Whether the next folder or the artifact is still to be listed.
    spec fn framed(self, h: World, f: FrameView) -> bool {
        f.mark.classify && exists|k: int|
            0 <= k < self.chain.len() && f.path == #[trigger] self.chain[k]
                && h.left[f.mark.id].contains(self.full()[k + 1])
    }

    /// Whether a session has it ahead, under review or shown, beside what it waits
    /// for.
    spec fn ahead(self, h: World, s: ScanState) -> bool {
        ||| exists|i: int|
            0 <= i < s.next.len() && (#[trigger] s.next[i]).entry == self.d.spot(
                self.plan.root.path@,
            )
        ||| exists|i: int| 0 <= i < s.frontier.len() && self.framed(h, #[trigger] s.frontier[i])
        ||| exists|i: int|
            0 <= i < s.measurements.len() && self.reviews((#[trigger] s.measurements[i]).review)
        ||| exists|c: Sighting| #[trigger] shown(s.press, c) && same_row(c, self.offer())
    }

    /// Whether it is what a session waits for.
    spec fn awaited(self, s: ScanState) -> bool {
        match s.phase {
            Stage::Opening(path) => s.frontier.len() > 0 && s.frontier[0].mark.classify
                && self.full().contains(path),
            Stage::Looking(item) => item.previous is None && item.classify && self.full().contains(
                item.entry.path,
            ),
            Stage::Judging(item) => item.previous is None && item.classify && self.full().contains(
                item.entry.path,
            ) && item.provider == (self.n.provider)(item.entry.path) && !same_place(
                item.entry.path,
                self.plan.root.path@,
            ),
            Stage::Entering(item, classify, _) => classify && self.chain.contains(
                item.entry.path,
            ),
            Stage::Checking(case) => {
                &&& case.item.entry == self.d.spot(self.p)
                &&& case.item.previous is None
                &&& case.checks.found == self.found
                &&& case.checks.quiet == quiet_of(self.d, self.n, self.p, self.found)
                &&& case.candidate == self.first()
                &&& self.found.rules.checks_activity && self.found.blocked is None
                    && case.checks.quiet
            },
            Stage::Starting(review, _) => self.reviews(review),
            Stage::Measuring(job) => self.reviews(job.review),
            Stage::Tracking(review) => self.judges(review) && self.found.rules.checks_git,
            Stage::Using(review) => self.judges(review) && self.found.rules.checks_activity,
            Stage::Recalling(review) => self.judges(review),
            _ => false,
        }
    }

    /// Whether it was shown.
    pub open spec fn exhibited(self, s: ScanState) -> bool {
        exists|c: Sighting| #[trigger] shown(s.press, c) && same_row(c, self.offer())
    }

    spec fn on_track(self, h: World, s: ScanState) -> bool {
        self.ahead(h, s) || self.awaited(s)
    }
}

proof fn ahead_moves(q: Quest, h: World, after: World, a: ScanState, b: ScanState)
    requires
        onward(a, b),
        q.ahead(h, a),
        forall|i: int|
            0 <= i < a.frontier.len() ==> after.left[(#[trigger] a.frontier[i]).mark.id]
                == h.left[a.frontier[i].mark.id],
    ensures
        q.ahead(after, b),
{
    if exists|i: int| 0 <= i < a.frontier.len() && q.framed(h, #[trigger] a.frontier[i]) {
        let i = choose|i: int| 0 <= i < a.frontier.len() && q.framed(h, #[trigger] a.frontier[i]);
        assert(b.frontier.contains(a.frontier[i]));
        let j = choose|j: int| 0 <= j < b.frontier.len() && b.frontier[j] == a.frontier[i];
        assert(q.framed(after, b.frontier[j]));
    } else if exists|i: int|
        0 <= i < a.measurements.len() && q.reviews((#[trigger] a.measurements[i]).review) {
        let i = choose|i: int|
            0 <= i < a.measurements.len() && q.reviews((#[trigger] a.measurements[i]).review);
        assert(b.measurements.contains(a.measurements[i]));
        let j = choose|j: int|
            0 <= j < b.measurements.len() && b.measurements[j] == a.measurements[i];
        assert(q.reviews(b.measurements[j].review));
    } else if exists|c: Sighting| #[trigger] shown(a.press, c) && same_row(c, q.offer()) {
        let c = choose|c: Sighting| #[trigger] shown(a.press, c) && same_row(c, q.offer());
        assert(shown(b.press, c));
    }
}

proof fn begin_onward(s: ScanState, case: CaseView, t: Tick)
    ensures
        onward(s, s.begin(case, t)),
{
    reveal(ScanState::begin);
    publish_onward(s, case.candidate, false);
    onward_same(s.publish(case.candidate, false), s.begin(case, t));
    onward_on(s, s.publish(case.candidate, false), s.begin(case, t));
}

proof fn same_rows(press: Press)
    ensures
        keeps_rows(press, press),
{
}

proof fn checked_onward(s: ScanState, case: CaseView, t: Tick)
    ensures
        onward(s, s.checked(case, t)),
{
    reveal(ScanState::checked);
    begin_onward(s, case, t);
    let b = s.checked(case, t);
    if !onward(s, b) {
        same_rows(s.press);
        let shown_as = Sighting {
            blocked_reason: match case.checks.blocked {
                Some(reason) => Some(reason),
                None => Some(crate::evidence::recent_reason(case.checks.found.quiet_days)),
            },
            provisional: false,
            explanation: case.candidate.explanation + super::state::excluded_note(),
            ..case.candidate
        };
        publish_onward(s.with(s.stats.skip().exclude()), shown_as, false);
        publish_onward(s, case.candidate, false);
        onward_same(s, b);
    }
}

proof fn recognized_onward(s: ScanState, item: ItemView, found: Found, t: Tick)
    ensures
        onward(s, s.recognized(item, found, t)),
{
    reveal(ScanState::recognized);
    reveal(ScanState::declined);
    reveal(ScanState::weighed);
    same_rows(s.press);
    let b = s.recognized(item, found, t);
    let timed = s.with(s.stats.at(t.elapsed_ms));
    onward_same(s, timed);
    let candidate = first_sight(s.plan.root.id@, item.entry.path, item.entry.meta, found);
    let changed = item.entry.meta.identity.modified_ns as int;
    let quiet = calm(later(changed, found.latest), t.now_ns, found.quiet_days);
    let case = CaseView {
        item,
        candidate,
        checks: ChecksView { found, quiet, blocked: found.blocked },
    };
    checked_onward(timed, case, t);
    onward_on(s, timed, timed.checked(case, t));
    if let Some(checks) = item.previous {
        let again = CaseView { item, candidate, checks };
        checked_onward(timed, again, t);
        onward_on(s, timed, timed.checked(again, t));
    }
    let unfit = suggestion_outcome(
        found.rules,
        found.quiet_days,
        found.latest,
        item.entry.meta.allocated,
        changed,
        t.now_ns,
    );
    if let Some(reason) = unfit {
        let row = Sighting {
            provisional: false,
            explanation: candidate.explanation + super::state::plain_file_note(reason),
            blocked_reason: Some(reason),
            ..candidate
        };
        let skipped = timed.with(timed.stats.skip());
        onward_same(s, skipped);
        publish_onward(skipped, row, false);
        onward_on(s, skipped, skipped.publish(row, false));
        onward_same(skipped.publish(row, false), skipped.publish(row, false).idle());
        onward_on(s, skipped.publish(row, false), skipped.publish(row, false).idle());
    }
    if !onward(s, b) {
        onward_same(s, b);
    }
}

proof fn descend_onward(s: ScanState, item: ItemView, classify: bool, t: Tick)
    ensures
        onward(s, s.descend(item, classify, t)),
{
    reveal(ScanState::descend);
    same_rows(s.press);
    let b = s.descend(item, classify, t);
    pulse_onward(s, t);
    if let Some(id) = item.opened {
        let within = s.enter(item, classify, id);
        enter_onward(s, item, classify, id);
        pulse_onward(within, t);
        onward_on(s, within, within.pulse(t));
        onward_same(within.pulse(t), within.pulse(t).idle());
        onward_on(s, within.pulse(t), within.pulse(t).idle());
    }
    if !onward(s, b) {
        onward_same(s, b);
    }
}

proof fn judged_onward(
    s: ScanState,
    item: ItemView,
    outcome: Result<Option<Found>, Seq<char>>,
    t: Tick,
)
    ensures
        onward(s, s.judged(item, outcome, t)),
{
    reveal(ScanState::judged);
    same_rows(s.press);
    let b = s.judged(item, outcome, t);
    let skipped = s.with(s.stats.skip());
    onward_same(s, skipped);
    descend_onward(skipped, item, false, t);
    onward_on(s, skipped, skipped.descend(item, false, t));
    descend_onward(s, item, item.classify, t);
    if let Ok(Some(found)) = outcome {
        recognized_onward(s, item, found, t);
    }
    if !onward(s, b) {
        onward_same(s, b);
    }
}

proof fn looked_onward(s: ScanState, seen: ItemView, facts: super::state::EntryFacts, t: Tick)
    ensures
        onward(s, s.looked(seen, facts, t)),
{
    reveal(ScanState::looked);
    same_rows(s.press);
    let b = s.looked(seen, facts, t);
    let item = ItemView { provider: facts.provider, ..seen };
    let device = s.plan.root.identity.device;
    let counted = if item.previous is Some {
        s
    } else {
        ScanState {
            stats: crate::sightings::tallied(s.stats, s.links, item.entry.meta, device),
            links: crate::sightings::linked(s.links, item.entry.meta, device),
            ..s
        }
    };
    onward_same(s, counted);
    descend_onward(counted, item, item.classify, t);
    onward_on(s, counted, counted.descend(item, item.classify, t));
    if let Some(checks) = item.previous {
        recognized_onward(counted, item, checks.found, t);
        onward_on(s, counted, counted.recognized(item, checks.found, t));
    }
    if !onward(s, b) {
        onward_same(s, b);
    }
}

proof fn conclude_onward(s: ScanState, review: Review, quality: Option<Seq<char>>)
    ensures
        onward(s, s.conclude(review, quality)),
{
    reveal(ScanState::conclude);
    let b = s.conclude(review, quality);
    assert(keeps_rows(s.press, b.press)) by {
        assert forall|stats: Counters, c: Sighting, force: bool|
            keeps_rows(s.press, #[trigger] s.press.queue(c, stats, force)) by {
            queue_keeps(s.press, c, stats, force);
        }
    }
    onward_same(s, b);
}

proof fn unused_onward(s: ScanState, review: Review, quality: Option<Seq<char>>)
    ensures
        onward(s, s.untracked(review, quality)),
        onward(s, s.unused(review, quality)),
{
    reveal(ScanState::untracked);
    reveal(ScanState::unused);
    same_rows(s.press);
    conclude_onward(s, review, quality);
    if !(review.blocked is None && quality is None) {
    } else {
        onward_same(s, s.unused(review, quality));
    }
    if review.blocked is None && quality is None && review.found.rules.checks_activity {
        onward_same(s, s.untracked(review, quality));
    }
}

proof fn measured_onward(s: ScanState, job: JobView, measured: Measurement, t: Tick)
    ensures
        onward(s, s.measured(job, Ok(measured), t)),
{
    reveal(ScanState::measured);
    reveal(ScanState::reviewed);
    same_rows(s.press);
    let review = job.review;
    let timed = s.with(s.stats.at(t.elapsed_ms));
    let added = timed.with(
        Counters {
            skipped: crate::model::capped(timed.stats.skipped + measured.skipped),
            errors: crate::model::capped(timed.stats.errors + measured.errors),
            excluded_artifacts: if measured.pruned {
                crate::model::capped(timed.stats.excluded_artifacts + 1)
            } else {
                timed.stats.excluded_artifacts
            },
            ..timed.stats
        },
    );
    let quality = if measured.pruned {
        Some(super::state::pruned_reason())
    } else {
        suggestion_outcome(
            review.found.rules,
            review.found.quiet_days,
            review.found.latest,
            measured.allocated_bytes,
            measured.latest_modified_ns as int,
            t.now_ns,
        )
    };
    let judged = Review {
        candidate: measured_sight(review.candidate, measured),
        blocked: match review.blocked {
            Some(reason) => Some(reason),
            None => text_view(measured.unsafe_reason),
        },
        ..review
    };
    let next = if measured.pruned && measured.errors == 0 && timed.plan.hints {
        match review.recent_leaf {
            Some(leaf) => {
                tell_keeps(added.press, News::Remember(review.entry.path, leaf));
                ScanState {
                    press: added.press.tell(News::Remember(review.entry.path, leaf)),
                    ..added
                }
            },
            None => added,
        }
    } else {
        added
    };
    onward_same(s, next);
    unused_onward(next, judged, quality);
    onward_on(s, next, next.untracked(judged, quality));
    let b = s.measured(job, Ok(measured), t);
    if !onward(s, b) {
        onward_same(s, b);
    }
}

proof fn seen_onward(s: ScanState, job: JobView, entry: Spot, partial: Measurement, t: Tick)
    ensures
        onward(s, s.seen(job, entry, partial, t)),
{
    reveal(ScanState::seen);
    same_rows(s.press);
    let b = s.seen(job, entry, partial, t);
    assert(keeps_rows(s.press, b.press)) by {
        assert forall|stats: Counters, c: Sighting, force: bool|
            keeps_rows(s.press, #[trigger] s.press.queue(c, stats, force)) by {
            queue_keeps(s.press, c, stats, force);
        }
    }
    onward_same(s, b);
}

proof fn started_onward(s: ScanState, review: Review, cursor: u64, t: Tick)
    requires
        review.weight() <= super::review::MAX_MEASUREMENT_JOB_BYTES,
    ensures
        onward(s, s.started(review, Ok(cursor), t)),
        s.started(review, Ok(cursor), t).measurements.contains(JobView { review, cursor }),
{
    reveal(ScanState::started);
    same_rows(s.press);
    pushed_onward(s, JobView { review, cursor }, s.started(review, Ok(cursor), t));
}

proof fn pushed_onward(s: ScanState, job: JobView, b: ScanState)
    requires
        b.plan == s.plan,
        b.next == s.next,
        b.frontier == s.frontier,
        b.measurements == s.measurements.push(job),
        b.press == s.press,
    ensures
        onward(s, b),
        b.measurements.contains(job),
{
    assert forall|i: int| 0 <= i < s.frontier.len() implies b.frontier.contains(
        #[trigger] s.frontier[i],
    ) by {
        assert(b.frontier[i] == s.frontier[i]);
    }
    assert forall|i: int| 0 <= i < s.measurements.len() implies b.measurements.contains(
        #[trigger] s.measurements[i],
    ) by {
        assert(b.measurements[i] == s.measurements[i]);
    }
    assert(b.measurements[s.measurements.len() as int] == job);
}

impl Quest {
    /// What holds of the session besides: it covers this location.
    spec fn covers(self, h: World, s: ScanState) -> bool {
        &&& self.sought()
        &&& fair(self.d, h, s)
        &&& s.plan == self.plan
    }
}

/// The artifact is not among the folders on the way.
proof fn target_is_last(q: Quest)
    requires
        q.sought(),
    ensures
        !q.chain.contains(q.p),
        forall|x: Seq<u8>| #[trigger]
            q.full().contains(x) ==> x == q.p || q.chain.contains(x),
        forall|x: Seq<u8>| #[trigger]
            q.chain.contains(x) ==> passed(q.n, q.plan, x) && (d_children_len(q, x) > 0),
{
    assert forall|x: Seq<u8>| #[trigger] q.full().contains(x) implies x == q.p
        || q.chain.contains(x) by {
        let k = choose|k: int| 0 <= k < q.full().len() && q.full()[k] == x;
        if k < q.chain.len() {
            assert(q.chain[k] == x);
        }
    }
    assert forall|x: Seq<u8>| #[trigger] q.chain.contains(x) implies passed(q.n, q.plan, x) && (
    d_children_len(q, x) > 0) by {
        let k = choose|k: int| 0 <= k < q.chain.len() && q.chain[k] == x;
        if k < q.chain.len() - 1 {
            assert((q.d.children)(q.chain[k]).contains(q.chain[k + 1]));
        } else {
            assert(x == q.chain.last());
        }
    }
    if q.chain.contains(q.p) {
        assert(passed(q.n, q.plan, q.p));
    }
}

spec fn d_children_len(q: Quest, x: Seq<u8>) -> nat {
    (q.d.children)(x).len()
}

/// A folder on the way that was opened has what comes next still to list.
proof fn opened_frame(q: Quest, h: World, f: FrameView)
    requires
        q.sought(),
        f.mark.classify,
        q.chain.contains(f.path),
        h.left[f.mark.id] == (q.d.children)(f.path),
    ensures
        q.framed(h, f),
{
    let k = choose|k: int| 0 <= k < q.chain.len() && q.chain[k] == f.path;
    if k < q.chain.len() - 1 {
        assert((q.d.children)(q.chain[k]).contains(q.chain[k + 1]));
        assert(q.full()[k + 1] == q.chain[k + 1]);
    } else {
        assert(q.full()[k + 1] == q.p);
    }
}

proof fn descend_reaches(q: Quest, h: World, s: ScanState, item: ItemView, t: Tick)
    requires
        q.covers(h, s),
        q.chain.contains(item.entry.path),
        item.entry == q.d.spot(item.entry.path),
        item.depth == (q.d.level)(item.entry.path),
        item.opened matches Some(id) ==> h.left[id] == (q.d.children)(item.entry.path),
    ensures
        q.on_track(h, s.descend(item, true, t)),
{
    reveal(ScanState::descend);
    target_is_last(q);
    assert(q.d.local(s.plan, item.entry.path));
    if let Some(id) = item.opened {
        let within = s.enter(item, true, id);
        let frame = FrameView {
            path: item.entry.path,
            mark: super::state::FrameMark { id, depth: item.depth, classify: true, lane: item.lane },
        };
        enter_onward(s, item, true, id);
        pulse_onward(within, t);
        let b = within.pulse(t).idle();
        let j = choose|j: int| 0 <= j < within.frontier.len() && within.frontier[j] == frame;
        opened_frame(q, h, frame);
        assert(b.frontier[j] == frame);
        assert(q.ahead(h, b));
    }
}

proof fn begin_reaches(q: Quest, h: World, s: ScanState, case: CaseView, t: Tick)
    requires
        q.covers(h, s),
        case.item.entry == q.d.spot(q.p),
        case.item.previous is None,
        case.checks.found == q.found,
        case.checks.quiet == quiet_of(q.d, q.n, q.p, q.found),
        case.checks.blocked is None,
        case.candidate == q.first(),
    ensures
        q.awaited(s.checked(case, t)),
{
    reveal(ScanState::checked);
    reveal(ScanState::begin);
}

proof fn recognized_reaches(q: Quest, h: World, s: ScanState, item: ItemView, t: Tick)
    requires
        q.covers(h, s),
        item.previous is None,
        item.entry == q.d.spot(q.p),
        t.now_ns == q.n.now_ns,
    ensures
        q.awaited(s.recognized(item, q.found, t)),
{
    reveal(ScanState::recognized);
    reveal(ScanState::weighed);
    let timed = s.with(s.stats.at(t.elapsed_ms));
    let case = CaseView {
        item,
        candidate: q.first(),
        checks: ChecksView {
            found: q.found,
            quiet: quiet_of(q.d, q.n, q.p, q.found),
            blocked: q.found.blocked,
        },
    };
    assert(!super::state::kept_below(s.plan.kept@, item.entry.path));
    if !(q.found.rules.checks_activity && q.found.blocked is None && case.checks.quiet) {
        begin_reaches(q, h, timed, case, t);
    }
}

proof fn judged_reaches(q: Quest, h: World, s: ScanState, item: ItemView, t: Tick)
    requires
        q.covers(h, s),
        super::coverage::fair_item(q.d, h, s.frontier, item),
        item.previous is None,
        item.classify,
        item.provider == (q.n.provider)(item.entry.path),
        q.full().contains(item.entry.path),
        !same_place(item.entry.path, q.plan.root.path@),
        t.now_ns == q.n.now_ns,
    ensures
        q.on_track(h, s.judged(item, Ok((q.n.evidence)(item.entry.path)), t)),
{
    reveal(ScanState::judged);
    target_is_last(q);
    if item.entry.path == q.p {
        recognized_reaches(q, h, s, item, t);
    } else {
        assert(passed(q.n, q.plan, item.entry.path));
        descend_reaches(q, h, s, item, t);
    }
}

proof fn looked_reaches(
    q: Quest,
    h: World,
    s: ScanState,
    seen: ItemView,
    facts: super::state::EntryFacts,
    t: Tick,
)
    requires
        q.covers(h, s),
        super::coverage::fair_item(q.d, h, s.frontier, seen),
        seen.previous is None,
        seen.classify,
        q.full().contains(seen.entry.path),
        facts.provider == (q.n.provider)(seen.entry.path),
        !facts.media && !facts.excluded && !facts.library,
    ensures
        q.on_track(h, s.looked(seen, facts, t)),
{
    reveal(ScanState::looked);
    target_is_last(q);
    let item = ItemView { provider: facts.provider, ..seen };
    let device = s.plan.root.identity.device;
    let counted = ScanState {
        stats: crate::sightings::tallied(s.stats, s.links, item.entry.meta, device),
        links: crate::sightings::linked(s.links, item.entry.meta, device),
        ..s
    };
    assert(q.d.local(s.plan, item.entry.path));
    assert(!super::state::kept_over(s.plan.kept@, item.entry.path));
    if same_place(item.entry.path, q.plan.root.path@) {
        assert(item.entry.path != q.p);
        assert(fair(q.d, h, counted));
        descend_reaches(q, h, counted, item, t);
    }
}

proof fn concluded_reaches(q: Quest, h: World, s: ScanState, review: Review)
    requires
        q.covers(h, s),
        q.judges(review),
    ensures
        q.ahead(h, s.conclude(review, None)),
{
    reveal(ScanState::conclude);
    let b = s.conclude(review, None);
    let row = Sighting {
        blocked_reason: None,
        provisional: false,
        suggestion_eligible: true,
        eligible_permanent: review.found.rules.permanent,
        explanation: review.candidate.explanation + offer_note(review.found, review.is_dir),
        ..review.candidate
    };
    let first = s.stats.first_finding_ms is None;
    let stats = Counters {
        candidates: crate::model::capped(s.stats.candidates + 1),
        first_finding_ms: if first {
            Some(s.stats.elapsed_ms)
        } else {
            s.stats.first_finding_ms
        },
        ..s.stats
    };
    queue_keeps(s.press, row, stats, first);
    assert(b.press == s.press.queue(row, stats, first));
    assert(same_row(row, q.offer()));
    assert(shown(b.press, row));
}

proof fn unused_reaches(q: Quest, s: ScanState, review: Review)
    requires
        q.judges(review),
    ensures
        q.awaited(s.unused(review, None)),
        q.awaited(s.untracked(review, None)),
{
    reveal(ScanState::unused);
    reveal(ScanState::untracked);
}

proof fn measured_reaches(q: Quest, h: World, s: ScanState, job: JobView, t: Tick)
    requires
        q.covers(h, s),
        q.reviews(job.review),
        !(q.n.measured)(q.p).pruned,
        t.now_ns == q.n.now_ns,
    ensures
        q.awaited(s.measured(job, Ok((q.n.measured)(q.p)), t)),
{
    reveal(ScanState::measured);
    reveal(ScanState::reviewed);
    let measured = (q.n.measured)(q.p);
    let review = job.review;
    let timed = s.with(s.stats.at(t.elapsed_ms));
    let added = timed.with(
        Counters {
            skipped: crate::model::capped(timed.stats.skipped + measured.skipped),
            errors: crate::model::capped(timed.stats.errors + measured.errors),
            ..timed.stats
        },
    );
    let judged = Review {
        candidate: measured_sight(review.candidate, measured),
        blocked: text_view(measured.unsafe_reason),
        ..review
    };
    assert(q.judges(judged));
    unused_reaches(q, added, judged);
}

proof fn seen_reaches(
    q: Quest,
    s: ScanState,
    job: JobView,
    entry: Spot,
    partial: Measurement,
    t: Tick,
)
    requires
        q.reviews(job.review),
    ensures
        q.awaited(s.seen(job, entry, partial, t)),
{
    reveal(ScanState::seen);
}

/// Listing brings the next on the way up, or leaves it where it is.
proof fn listed_reaches(
    q: Quest,
    h: World,
    s: ScanState,
    listing: super::state::Listing,
    t: Tick,
    after: World,
)
    requires
        q.covers(h, s),
        s.frontier.len() > 0,
        s.phase is Idle,
        q.ahead(h, s),
        served(
            q.d,
            h,
            ScanState { phase: Stage::Reading, ..s },
            Event::Listed(Ok(listing)),
            after,
        ),
    ensures
        q.on_track(after, s.listed(Ok(listing), t)),
{
    reveal(ScanState::listed);
    let b = s.listed(Ok(listing), t);
    let id = s.frontier[0].mark.id;
    let left = h.left[id];
    same_rows(s.press);
    assert(!(listing.found is Nothing) ==> after.left[id] == left.skip(1));
    if exists|i: int| 0 <= i < s.frontier.len() && q.framed(h, #[trigger] s.frontier[i]) {
        let i = choose|i: int| 0 <= i < s.frontier.len() && q.framed(h, #[trigger] s.frontier[i]);
        let f = s.frontier[i];
        let k = choose|k: int|
            0 <= k < q.chain.len() && f.path == #[trigger] q.chain[k]
                && h.left[f.mark.id].contains(q.full()[k + 1]);
        let next = q.full()[k + 1];
        if i > 0 {
            assert(f.mark.id != id);
            assert(after.left[f.mark.id] == h.left[f.mark.id]);
            assert(q.framed(after, f));
            if listing.found is Nothing && listing.finished {
                assert(b.frontier[i - 1] == f);
            } else {
                assert(b.frontier[i] == f);
            }
        } else if listing.found is Nothing {
            assert(!listing.finished);
            assert(b.frontier[0] == f);
            assert(q.framed(after, f));
        } else if left[0] == next {
            assert(q.full().contains(next));
            match listing.found {
                Listed::Directory(path) => {
                    assert(!super::state::kept_over(s.plan.kept@, path@));
                },
                _ => {},
            }
        } else {
            let w = choose|w: int| 0 <= w < left.len() && left[w] == next;
            assert(left.skip(1)[w - 1] == next);
            assert(b.frontier[0] == f);
            assert(q.framed(after, f));
        }
    } else if exists|i: int|
        0 <= i < s.next.len() && (#[trigger] s.next[i]).entry == q.d.spot(q.plan.root.path@) {
        let i = choose|i: int|
            0 <= i < s.next.len() && (#[trigger] s.next[i]).entry == q.d.spot(q.plan.root.path@);
        assert(b.next[i] == s.next[i]);
    } else if exists|i: int|
        0 <= i < s.measurements.len() && q.reviews((#[trigger] s.measurements[i]).review) {
        let i = choose|i: int|
            0 <= i < s.measurements.len() && q.reviews((#[trigger] s.measurements[i]).review);
        assert(b.measurements[i] == s.measurements[i]);
    } else {
        let c = choose|c: Sighting| #[trigger] shown(s.press, c) && same_row(c, q.offer());
        assert(shown(b.press, c));
    }
}

/// Whatever a session does on its turn, it keeps what is ahead; it does not end
/// before that is shown.
proof fn turn_reaches(q: Quest, h: World, s: ScanState, t: Tick)
    requires
        q.covers(h, s),
        s.phase is Idle,
        q.ahead(h, s),
        !t.cancel,
    ensures
        q.on_track(h, s.turn(t)),
        s.turn(t).phase is Done ==> q.exhibited(s.turn(t)),
{
    reveal(ScanState::turn);
    reveal(ScanState::explore);
    reveal(ScanState::finish);
    pulse_onward(s, t);
    let a = s.pulse(t);
    let b = s.turn(t);
    ahead_moves(q, h, h, s, a);
    rotate_keeps(ScanState { measurement_turn: true, ..a });
    assert(b.press == a.press || b.phase is Done);
    if exists|c: Sighting| #[trigger] shown(a.press, c) && same_row(c, q.offer()) {
        let c = choose|c: Sighting| #[trigger] shown(a.press, c) && same_row(c, q.offer());
        if b.phase is Done {
            assert forall|stats: Counters| keeps_rows(a.press, #[trigger] a.press.flush(stats)) by {
                flush_keeps(a.press, stats);
            }
            assert(shown(b.press, c));
        }
        assert(shown(b.press, c));
    } else if exists|i: int|
        0 <= i < a.measurements.len() && q.reviews((#[trigger] a.measurements[i]).review) {
        let i = choose|i: int|
            0 <= i < a.measurements.len() && q.reviews((#[trigger] a.measurements[i]).review);
        if a.measures_now() {
            if i > 0 {
                assert(b.measurements[i - 1] == a.measurements[i]);
            }
        } else {
            rotate_keeps(ScanState { measurement_turn: true, ..a });
            assert(b.measurements[i] == a.measurements[i]);
        }
    } else if exists|i: int|
        0 <= i < a.next.len() && (#[trigger] a.next[i]).entry == q.d.spot(q.plan.root.path@) {
        let i = choose|i: int|
            0 <= i < a.next.len() && (#[trigger] a.next[i]).entry == q.d.spot(q.plan.root.path@);
        if a.measures_now() || (a.deferred.len() > 0 && a.deferred.len()
            == super::state::MAX_DEFERRED_ARTIFACTS) {
            assert(b.next[i] == a.next[i]);
        } else if i > 0 {
            assert(b.next[i - 1] == a.next[i]);
        } else {
            assert(q.full()[0] == q.plan.root.path@);
            assert(q.full().contains(q.plan.root.path@));
        }
    } else {
        let i = choose|i: int| 0 <= i < a.frontier.len() && q.framed(h, #[trigger] a.frontier[i]);
        let turned = ScanState { measurement_turn: true, ..a };
        rotate_keeps(turned);
        assert(turned.rotate().frontier.contains(a.frontier[i]));
        if b.phase is Reading {
            let j = choose|j: int|
                0 <= j < turned.rotate().frontier.len() && turned.rotate().frontier[j]
                    == a.frontier[i];
            assert(b.frontier[j] == a.frontier[i]);
        } else {
            assert(b.frontier[i] == a.frontier[i]);
        }
    }
}

proof fn rotate_keeps(s: ScanState)
    ensures
        forall|i: int|
            0 <= i < s.frontier.len() ==> s.rotate().frontier.contains(#[trigger] s.frontier[i]),
        s.rotate().measurements == s.measurements,
        s.rotate().next == s.next,
        s.rotate().press == s.press,
        s.rotate().plan == s.plan,
{
    reveal(ScanState::rotate);
    let b = s.rotate();
    assert forall|i: int| 0 <= i < s.frontier.len() implies b.frontier.contains(
        #[trigger] s.frontier[i],
    ) by {
        if s.plan.logical {
            match super::state::lane_pick(
                s.frontier,
                s.plan.lanes as int,
                s.lane_turn as int,
                0,
            ) {
                None => {
                    assert(b.frontier[i] == s.frontier[i]);
                },
                Some((at, lane)) => {
                    super::confinement::lane_inside(
                        s.frontier,
                        s.plan.lanes as int,
                        s.lane_turn as int,
                        0,
                    );
                    if i < at {
                        assert(b.frontier[s.frontier.len() - at + i] == s.frontier[i]);
                    } else {
                        assert(b.frontier[i - at] == s.frontier[i]);
                    }
                },
            }
        } else {
            assert(b.frontier[i] == s.frontier[i]);
        }
    }
}

proof fn conclusions_wait(s: ScanState, review: Review, quality: Option<Seq<char>>)
    ensures
        !(s.conclude(review, quality).phase is Done),
        !(s.unused(review, quality).phase is Done),
        !(s.untracked(review, quality).phase is Done),
{
    reveal(ScanState::conclude);
    reveal(ScanState::unused);
    reveal(ScanState::untracked);
}

proof fn recognitions_wait(s: ScanState, item: ItemView, found: Found, case: CaseView, t: Tick)
    ensures
        !(s.recognized(item, found, t).phase is Done),
        !(s.checked(case, t).phase is Done),
        !(s.begin(case, t).phase is Done),
{
    reveal(ScanState::recognized);
    reveal(ScanState::declined);
    reveal(ScanState::weighed);
    reveal(ScanState::checked);
    reveal(ScanState::begin);
}

proof fn descents_wait(s: ScanState, item: ItemView, classify: bool, t: Tick)
    ensures
        !(s.descend(item, classify, t).phase is Done),
{
    reveal(ScanState::descend);
}

/// A session that covers its location ends on its own turn only.
proof fn only_turns_end(d: Disk, h: World, s: ScanState, event: Event, t: Tick, after: World)
    requires
        fair_stage(d, h, s),
        served(d, h, s, event, after),
        !t.cancel,
    ensures
        s.step(event, t).phase is Done ==> s.phase is Idle && event is Proceed,
{
    reveal(ScanState::answered);
    let at = ScanState { press: Press { due: t.due, ..s.press }, phase: Stage::Idle, ..s };
    match (s.phase, event) {
        (Stage::Reading, Event::Listed(outcome)) => {
            reveal(ScanState::listed);
        },
        (Stage::Opening(_), Event::Entered(outcome)) => {
            reveal(ScanState::entered);
        },
        (Stage::Looking(seen), Event::Facts(facts)) => {
            reveal(ScanState::looked);
            let item = ItemView { provider: facts.provider, ..seen };
            let device = s.plan.root.identity.device;
            let counted = if item.previous is Some {
                at
            } else {
                ScanState {
                    stats: crate::sightings::tallied(at.stats, at.links, item.entry.meta, device),
                    links: crate::sightings::linked(at.links, item.entry.meta, device),
                    ..at
                }
            };
            descents_wait(counted, item, item.classify, t);
            if let Some(checks) = item.previous {
                recognitions_wait(counted, item, checks.found, arbitrary(), t);
            }
        },
        (Stage::Judging(item), Event::Evidence(outcome)) => {
            reveal(ScanState::judged);
            descents_wait(at, item, item.classify, t);
            descents_wait(at.with(at.stats.skip()), item, false, t);
            if let Ok(Some(found)) = outcome_view(outcome) {
                recognitions_wait(at, item, found, arbitrary(), t);
            }
        },
        (Stage::Checking(case), Event::Activity(reason)) => {
            let known = CaseView {
                checks: ChecksView { blocked: text_view(reason), ..case.checks },
                ..case
            };
            recognitions_wait(at, case.item, case.checks.found, known, t);
        },
        (Stage::Verifying(case), Event::Verified(outcome)) => {
            reveal(ScanState::verified);
            recognitions_wait(at, case.item, case.checks.found, case, t);
        },
        (Stage::Starting(review, _), Event::Cursor(outcome)) => {
            reveal(ScanState::started);
        },
        (Stage::Measuring(job), Event::Seen(entry, partial)) => {
            reveal(ScanState::seen);
        },
        (Stage::Measuring(job), Event::Measured(outcome)) => {
            reveal(ScanState::measured);
            reveal(ScanState::reviewed);
            reveal(ScanState::conclude);
            reveal(ScanState::unused);
            reveal(ScanState::untracked);
        },
        (Stage::Tracking(review), Event::Git(reason)) => {
            conclusions_wait(at, Review { blocked: text_view(reason), ..review }, None);
        },
        (Stage::Using(review), Event::Activity(reason)) => {
            conclusions_wait(at, Review { blocked: text_view(reason), ..review }, None);
        },
        (Stage::Recalling(review), Event::Evidence(outcome)) => {
            reveal(ScanState::recalled);
            reveal(ScanState::conclude);
        },
        (Stage::Entering(item, classify, _), Event::Opened(outcome)) => {
            reveal(ScanState::opened);
        },
        _ => {},
    }
}

/// Every answer keeps the artifact on its way, until it is shown.
#[verifier::rlimit(60)]
proof fn answers_reach(q: Quest, h: World, s: ScanState, event: Event, t: Tick, after: World)
    requires
        q.covers(h, s),
        fair_stage(q.d, h, s),
        served(q.d, h, s, event, after),
        told(q.n, s, event, t),
        q.on_track(h, s),
    ensures
        q.on_track(after, s.step(event, t)),
        s.step(event, t).phase is Done ==> q.exhibited(s.step(event, t)),
{
    reveal(ScanState::answered);
    only_turns_end(q.d, h, s, event, t, after);
    let at = ScanState { press: Press { due: t.due, ..s.press }, phase: Stage::Idle, ..s };
    let b = s.step(event, t);
    assert(q.covers(h, at));
    assert forall|c: Sighting| shown(at.press, c) == #[trigger] shown(s.press, c) by {
        assert(at.press.queued == s.press.queued && at.press.outbox == s.press.outbox);
        if shown(s.press, c) && !s.press.queued.contains(c) {
            let i = choose|i: int|
                0 <= i < s.press.outbox.len() && (#[trigger] s.press.outbox[i] matches News::Batch(
                    batch,
                ) && batch.candidates.contains(c));
            assert(at.press.outbox[i] == s.press.outbox[i]);
        }
        if shown(at.press, c) && !at.press.queued.contains(c) {
            let i = choose|i: int|
                0 <= i < at.press.outbox.len() && (#[trigger] at.press.outbox[i] matches News::Batch(
                    batch,
                ) && batch.candidates.contains(c));
            assert(s.press.outbox[i] == at.press.outbox[i]);
        }
    }
    same_rows(at.press);
    onward_same(s, at);
    if q.ahead(h, s) {
        ahead_moves(q, h, h, s, at);
    }
    match (s.phase, event) {
        (Stage::Idle, Event::Proceed) => {
            turn_reaches(q, h, at, t);
        },
        (Stage::Reading, Event::Listed(outcome)) => {
            assert(served(
                q.d,
                h,
                ScanState { phase: Stage::Reading, ..at },
                Event::Listed(outcome),
                after,
            ));
            listed_reaches(q, h, at, outcome->Ok_0, t, after);
        },
        (Stage::Opening(path), Event::Entered(outcome)) => {
            reveal(ScanState::entered);
            onward_same(at, b);
            if q.ahead(h, at) {
                ahead_moves(q, h, after, at, b);
            }
        },
        (Stage::Looking(item), Event::Facts(facts)) => {
            looked_onward(at, item, facts, t);
            if q.ahead(h, at) {
                ahead_moves(q, h, after, at, b);
            } else {
                looked_reaches(q, h, at, item, facts, t);
            }
        },
        (Stage::Judging(item), Event::Evidence(outcome)) => {
            judged_onward(at, item, outcome_view(outcome), t);
            if q.ahead(h, at) {
                ahead_moves(q, h, after, at, b);
            } else {
                judged_reaches(q, h, at, item, t);
            }
        },
        (Stage::Checking(case), Event::Activity(reason)) => {
            let known = CaseView {
                checks: ChecksView { blocked: text_view(reason), ..case.checks },
                ..case
            };
            checked_onward(at, known, t);
            if q.ahead(h, at) {
                ahead_moves(q, h, after, at, b);
            } else {
                begin_reaches(q, h, at, known, t);
            }
        },
        (Stage::Verifying(case), Event::Verified(outcome)) => {
            reveal(ScanState::verified);
            begin_onward(at, case, t);
            ahead_moves(q, h, after, at, b);
        },
        (Stage::Starting(review, _), Event::Cursor(outcome)) => {
            let cursor = outcome->Ok_0;
            started_onward(at, review, cursor, t);
            if q.ahead(h, at) {
                ahead_moves(q, h, after, at, b);
            } else {
                let job = JobView { review, cursor };
                let j = choose|j: int| 0 <= j < b.measurements.len() && b.measurements[j] == job;
                assert(q.reviews(b.measurements[j].review));
            }
        },
        (Stage::Measuring(job), Event::Seen(entry, partial)) => {
            seen_onward(at, job, entry@, partial, t);
            if q.ahead(h, at) {
                ahead_moves(q, h, after, at, b);
            } else {
                seen_reaches(q, at, job, entry@, partial, t);
            }
        },
        (Stage::Measuring(job), Event::Pending) => {
            pushed_onward(at, job, b);
            if q.ahead(h, at) {
                ahead_moves(q, h, after, at, b);
            } else {
                let j = choose|j: int| 0 <= j < b.measurements.len() && b.measurements[j] == job;
                assert(q.reviews(b.measurements[j].review));
            }
        },
        (Stage::Measuring(job), Event::Measured(outcome)) => {
            let measured = outcome->Ok_0;
            measured_onward(at, job, measured, t);
            if q.ahead(h, at) {
                ahead_moves(q, h, after, at, b);
            } else {
                measured_reaches(q, h, at, job, t);
            }
        },
        (Stage::Tracking(review), Event::Git(reason)) => {
            let known = Review { blocked: text_view(reason), ..review };
            unused_onward(at, known, None);
            if q.ahead(h, at) {
                ahead_moves(q, h, after, at, b);
            } else {
                unused_reaches(q, at, known);
            }
        },
        (Stage::Using(review), Event::Activity(reason)) => {
            let known = Review { blocked: text_view(reason), ..review };
            unused_onward(at, known, None);
            if q.ahead(h, at) {
                ahead_moves(q, h, after, at, b);
            } else {
                unused_reaches(q, at, known);
            }
        },
        (Stage::Recalling(review), Event::Evidence(outcome)) => {
            reveal(ScanState::recalled);
            let stale = Review {
                blocked: Some("Project evidence changed during the scan; refresh this review"@),
                ..review
            };
            conclude_onward(at, review, None);
            conclude_onward(at, stale, None);
            if q.ahead(h, at) {
                ahead_moves(q, h, after, at, b);
            } else {
                concluded_reaches(q, h, at, review);
            }
        },
        (Stage::Entering(item, classify, _), Event::Opened(outcome)) => {
            opened_reaches(q, h, at, item, classify, outcome->Ok_0, t, after);
        },
        _ => {
            onward_same(at, b);
            if q.ahead(h, at) {
                ahead_moves(q, h, after, at, b);
            }
        },
    }
}

proof fn opened_reaches(
    q: Quest,
    h: World,
    s: ScanState,
    item: ItemView,
    classify: bool,
    id: u64,
    t: Tick,
    after: World,
)
    requires
        q.covers(h, s),
        unused(s.frontier, id),
        after == super::coverage::after_opening(q.d, h, id, item.entry.path),
        q.ahead(h, s) || (classify && q.chain.contains(item.entry.path)),
    ensures
        q.ahead(after, s.opened(item, classify, Ok(id), t)),
{
    reveal(ScanState::opened);
    let within = s.enter(item, classify, id);
    let frame = FrameView {
        path: item.entry.path,
        mark: super::state::FrameMark { id, depth: item.depth, classify, lane: item.lane },
    };
    enter_onward(s, item, classify, id);
    pulse_onward(within, t);
    let b = within.pulse(t).idle();
    onward_on(s, within, within.pulse(t));
    same_rows(within.pulse(t).press);
    onward_same(within.pulse(t), b);
    onward_on(s, within.pulse(t), b);
    if q.ahead(h, s) {
        ahead_moves(q, h, after, s, b);
    } else {
        let j = choose|j: int| 0 <= j < within.frontier.len() && within.frontier[j] == frame;
        opened_frame(q, after, frame);
        assert(b.frontier[j] == frame);
    }
}

impl Quest {
    /// Whether a session is on the way to the artifact, or has come to its end.
    #[verifier::opaque]
    spec fn stands(self, h: World, s: ScanState) -> bool {
        &&& self.on_track(h, s)
        &&& if s.phase is Done {
            self.exhibited(s)
        } else {
            self.covers(h, s) && fair_stage(self.d, h, s)
        }
    }
}

proof fn ends_stand(q: Quest, h: World, s: ScanState, event: Event, t: Tick, after: World)
    requires
        s.phase is Done,
        q.exhibited(s),
    ensures
        q.stands(after, s.step(event, t)),
{
    reveal(ScanState::answered);
    reveal(Quest::stands);
    let next = s.step(event, t);
    assert(next.press.queued == s.press.queued && next.press.outbox == s.press.outbox);
    let c = choose|c: Sighting| #[trigger] shown(s.press, c) && same_row(c, q.offer());
    if !s.press.queued.contains(c) {
        let i = choose|i: int|
            0 <= i < s.press.outbox.len() && (#[trigger] s.press.outbox[i] matches News::Batch(
                batch,
            ) && batch.candidates.contains(c));
        assert(next.press.outbox[i] == s.press.outbox[i]);
    }
    assert(shown(next.press, c));
}

proof fn steps_stand(q: Quest, h: World, s: ScanState, event: Event, t: Tick, after: World)
    requires
        q.stands(h, s),
        served(q.d, h, s, event, after),
        told(q.n, s, event, t),
    ensures
        q.stands(after, s.step(event, t)),
{
    assert(s.phase is Done ==> q.exhibited(s)) by {
        reveal(Quest::stands);
    }
    if s.phase is Done {
        ends_stand(q, h, s, event, t, after);
    } else {
        assert(q.covers(h, s) && fair_stage(q.d, h, s) && q.on_track(h, s)) by {
            reveal(Quest::stands);
        }
        answers_reach(q, h, s, event, t, after);
        every_answer_progresses(q.d, h, s, event, t, after, seq![]);
        let next = s.step(event, t);
        assert(q.stands(after, next)) by {
            reveal(Quest::stands);
        }
    }
}

/// A run of metadata coverage that ends has shown the artifact.
proof fn runs_reach(q: Quest, s: ScanState, answers: Seq<(Event, Tick)>, worlds: Seq<World>)
    requires
        q.stands(worlds[0], s),
        all_served(q.d, s, answers, worlds),
        all_told(q.n, s, answers),
    ensures
        q.stands(worlds.last(), after_answers(s, answers)),
    decreases answers.len(),
{
    let n = answers.len() as int;
    if n > 0 {
        let front = answers.drop_last();
        let before = worlds.drop_last();
        assert(answers.take(n - 1) =~= front);
        assert forall|i: int| 0 <= i < front.len() implies !(#[trigger] front[i]).1.cancel && served(
            q.d,
            before[i],
            after_answers(s, front.take(i)),
            front[i].0,
            before[i + 1],
        ) by {
            assert(front[i] == answers[i]);
            assert(front.take(i) =~= answers.take(i));
        }
        assert forall|i: int| 0 <= i < front.len() implies told(
            q.n,
            after_answers(s, front.take(i)),
            (#[trigger] front[i]).0,
            front[i].1,
        ) by {
            assert(front[i] == answers[i]);
            assert(front.take(i) =~= answers.take(i));
        }
        runs_reach(q, s, front, before);
        let e = after_answers(s, front);
        assert(told(q.n, e, answers[n - 1].0, answers[n - 1].1));
        assert(!answers[n - 1].1.cancel);
        steps_stand(q, worlds[n - 1], e, answers[n - 1].0, answers[n - 1].1, worlds[n]);
    }
}

/// Whether an answer shows what the location holds: what is listed of a folder is
/// in it, and an entry is what it is.
pub open spec fn honest(d: Disk, s: ScanState, event: Event) -> bool {
    match (s.phase, event) {
        (Stage::Reading, Event::Listed(Ok(listing))) => match listing.found {
            Listed::Nothing => true,
            Listed::Directory(path) => (d.children)(s.frontier[0].path).contains(path@),
            Listed::Entry(entry) => entry@ == d.spot(entry@.path) && (d.children)(
                s.frontier[0].path,
            ).contains(entry@.path),
        },
        (Stage::Opening(path), Event::Entered(Ok(pair))) => pair.0@ == d.spot(path),
        _ => true,
    }
}

/// Whether all answers are such ones.
pub open spec fn all_honest(d: Disk, s: ScanState, answers: Seq<(Event, Tick)>) -> bool {
    forall|i: int|
        0 <= i < answers.len() ==> honest(
            d,
            after_answers(s, answers.take(i)),
            (#[trigger] answers[i]).0,
        )
}

/// Whether a folder is come through.
spec fn reached(d: Disk, n: Nature, plan: Plan, f: Seq<u8>) -> bool {
    exists|chain: Seq<Seq<u8>>| #[trigger] leads(d, n, plan, chain) && chain.last() == f
}

/// Whether an entry is come by: the location itself, or what a folder holds that
/// is come through.
spec fn met(d: Disk, n: Nature, plan: Plan, x: Seq<u8>) -> bool {
    x == plan.root.path@ || exists|f: Seq<u8>|
        reached(d, n, plan, f) && (#[trigger] (d.children)(f)).contains(x)
}

proof fn met_and_passed(d: Disk, n: Nature, plan: Plan, x: Seq<u8>)
    requires
        met(d, n, plan, x),
        passed(n, plan, x),
    ensures
        reached(d, n, plan, x),
{
    if x == plan.root.path@ {
        let chain = seq![x];
        assert(leads(d, n, plan, chain));
        assert(chain.last() == x);
    } else {
        let f = choose|f: Seq<u8>|
            reached(d, n, plan, f) && (#[trigger] (d.children)(f)).contains(x);
        let before = choose|chain: Seq<Seq<u8>>| #[trigger]
            leads(d, n, plan, chain) && chain.last() == f;
        let chain = before.push(x);
        assert forall|i: int| 0 <= i < chain.len() - 1 implies (d.children)(
            #[trigger] chain[i],
        ).contains(chain[i + 1]) by {
            assert(chain[i] == before[i]);
            if i < before.len() - 1 {
                assert(chain[i + 1] == before[i + 1]);
            }
        }
        assert forall|i: int| 0 < i < chain.len() implies passed(n, plan, #[trigger] chain[i]) by {
            if i < before.len() {
                assert(chain[i] == before[i]);
            }
        }
        assert(leads(d, n, plan, chain));
        assert(chain.last() == x);
    }
}

/// Whether a row that is offered is one of an artifact that can be offered.
#[verifier::opaque]
spec fn grounded_row(d: Disk, n: Nature, plan: Plan, c: Sighting) -> bool {
    c.suggestion_eligible ==> exists|q: Quest|
        q.d == d && q.n == n && q.plan == plan && #[trigger] q.sought() && same_row(c, q.offer())
}

proof fn unoffered_rows(d: Disk, n: Nature, plan: Plan, c: Sighting)
    requires
        !c.suggestion_eligible,
    ensures
        grounded_row(d, n, plan, c),
{
    reveal(grounded_row);
}

spec fn grounded_press(d: Disk, n: Nature, plan: Plan, press: Press) -> bool {
    forall|c: Sighting| #[trigger] shown(press, c) ==> grounded_row(d, n, plan, c)
}

/// Whether an artifact under review is what the location says.
spec fn grounded_review(d: Disk, n: Nature, plan: Plan, review: Review) -> bool {
    let p = review.entry.path;
    &&& review.entry == d.spot(p)
    &&& met(d, n, plan, p)
    &&& !same_place(p, plan.root.path@)
    &&& (n.evidence)(p) == Some(review.found)
    &&& review.blocked is None ==> block_of(d, n, p, review.found) is None
    &&& (d.meta)(p).dir() ==> quiet_of(d, n, p, review.found)
    &&& review.is_dir == (d.meta)(p).dir()
    &&& alike(review.candidate, first_sight(plan.root.id@, p, (d.meta)(p), review.found))
}

/// The same once it was measured and nothing stands against it so far.
spec fn grounded_judgement(
    d: Disk,
    n: Nature,
    plan: Plan,
    review: Review,
    tracked_known: bool,
    used_known: bool,
) -> bool {
    let p = review.entry.path;
    let measured = (n.measured)(p);
    &&& grounded_review(d, n, plan, review)
    &&& block_of(d, n, p, review.found) is None
    &&& review.candidate.logical_bytes == measured.logical_bytes
    &&& review.candidate.allocated_bytes == measured.allocated_bytes
    &&& review.candidate.file_count == measured.files
    &&& review.candidate.fingerprint == measured.fingerprint@
    &&& measured.unsafe_reason is None
    &&& suggestion_outcome(
        review.found.rules,
        review.found.quiet_days,
        review.found.latest,
        measured.allocated_bytes,
        measured.latest_modified_ns as int,
        n.now_ns,
    ) is None
    &&& tracked_known && review.found.rules.checks_git ==> (n.tracking)(p) is None
    &&& used_known && review.found.rules.checks_activity ==> (n.active)(p) is None
}

spec fn grounded_case(d: Disk, n: Nature, plan: Plan, case: CaseView) -> bool {
    let p = case.item.entry.path;
    let found = case.checks.found;
    &&& case.item.previous is None
    &&& case.item.entry == d.spot(p)
    &&& met(d, n, plan, p)
    &&& !same_place(p, plan.root.path@)
    &&& (n.evidence)(p) == Some(found)
    &&& case.checks.quiet == quiet_of(d, n, p, found)
    &&& case.candidate == first_sight(plan.root.id@, p, (d.meta)(p), found)
}

spec fn grounded_item(d: Disk, n: Nature, plan: Plan, item: ItemView) -> bool {
    &&& item.previous is None
    &&& item.classify
    &&& item.entry == d.spot(item.entry.path)
    &&& met(d, n, plan, item.entry.path)
}

/// What a suggestion scan holds beside what it waits for.
#[verifier::opaque]
spec fn ground(d: Disk, n: Nature, s: ScanState) -> bool {
    &&& s.plan.mode == ScanMode::Suggestions
    &&& s.deferred.len() == 0
    &&& forall|i: int|
        0 <= i < s.next.len() ==> (#[trigger] s.next[i]).entry == d.spot(s.plan.root.path@)
    &&& forall|i: int|
        0 <= i < s.frontier.len() ==> (#[trigger] s.frontier[i]).mark.classify && reached(
            d,
            n,
            s.plan,
            s.frontier[i].path,
        )
    &&& forall|i: int|
        0 <= i < s.measurements.len() ==> grounded_review(
            d,
            n,
            s.plan,
            (#[trigger] s.measurements[i]).review,
        )
    &&& grounded_press(d, n, s.plan, s.press)
}

/// What it waits for.
spec fn grounded_stage(d: Disk, n: Nature, plan: Plan, frontier: Seq<FrameView>, stage: Stage) -> bool {
    match stage {
        Stage::Reading => frontier.len() > 0,
        Stage::Opening(path) => frontier.len() > 0 && frontier[0].mark.classify && met(
            d,
            n,
            plan,
            path,
        ),
        Stage::Looking(item) => grounded_item(d, n, plan, item),
        Stage::Judging(item) => grounded_item(d, n, plan, item) && item.provider == (n.provider)(
            item.entry.path,
        ) && !same_place(item.entry.path, plan.root.path@),
        Stage::Entering(item, classify, _) => classify && reached(d, n, plan, item.entry.path),
        Stage::Checking(case) => grounded_case(d, n, plan, case)
            && case.checks.found.rules.checks_activity && case.checks.found.blocked is None
            && case.checks.quiet,
        Stage::Verifying(_) => false,
        Stage::Hinting(case) => grounded_case(d, n, plan, case) && ready(d, n, case),
        Stage::Observing(case, _) => grounded_case(d, n, plan, case) && ready(d, n, case),
        Stage::Starting(review, _) => grounded_review(d, n, plan, review),
        Stage::Measuring(job) => grounded_review(d, n, plan, job.review),
        Stage::Tracking(review) => grounded_judgement(d, n, plan, review, false, false)
            && review.found.rules.checks_git,
        Stage::Using(review) => grounded_judgement(d, n, plan, review, true, false)
            && review.found.rules.checks_activity,
        Stage::Recalling(review) => grounded_judgement(d, n, plan, review, true, true),
        _ => true,
    }
}

/// Whether the cheap checks of an artifact are done.
spec fn ready(d: Disk, n: Nature, case: CaseView) -> bool {
    let p = case.item.entry.path;
    &&& case.checks.blocked == block_of(d, n, p, case.checks.found)
    &&& (d.meta)(p).dir() ==> case.checks.quiet
}

/// Whether a suggestion scan rests on what the location says.
spec fn rests(d: Disk, n: Nature, s: ScanState) -> bool {
    ground(d, n, s) && grounded_stage(d, n, s.plan, s.frontier, s.phase)
}

/// Only what a session holds matters, not what it waits for or has counted.
proof fn ground_same(d: Disk, n: Nature, a: ScanState, b: ScanState)
    requires
        ground(d, n, a),
        b.plan == a.plan,
        b.next == a.next,
        b.frontier == a.frontier,
        b.deferred == a.deferred,
        b.measurements == a.measurements,
        grounded_press(d, n, a.plan, b.press),
    ensures
        ground(d, n, b),
{
    reveal(ground);
}

proof fn ground_press(d: Disk, n: Nature, s: ScanState)
    requires
        ground(d, n, s),
    ensures
        grounded_press(d, n, s.plan, s.press),
        s.plan.mode == ScanMode::Suggestions,
{
    reveal(ground);
}

proof fn flush_shows(press: Press, stats: Counters, c: Sighting)
    requires
        shown(press.flush(stats), c),
    ensures
        shown(press, c),
{
    let after = press.flush(stats);
    let i = choose|i: int|
        0 <= i < after.outbox.len() && (#[trigger] after.outbox[i] matches News::Batch(batch)
            && batch.candidates.contains(c));
    if i < press.outbox.len() {
        assert(press.outbox[i] == after.outbox[i]);
    }
}

proof fn queue_shows(press: Press, candidate: Sighting, stats: Counters, force: bool, c: Sighting)
    requires
        shown(press.queue(candidate, stats, force), c),
    ensures
        c == candidate || shown(press, c),
{
    let more = Press { queued: press.queued.push(candidate), ..press };
    if press.queue(candidate, stats, force) != more {
        flush_shows(more, stats, c);
    }
    assert(shown(more, c));
    if more.queued.contains(c) {
        let i = choose|i: int| 0 <= i < more.queued.len() && more.queued[i] == c;
        if i < press.queued.len() {
            assert(press.queued[i] == c);
        }
    } else {
        let i = choose|i: int|
            0 <= i < more.outbox.len() && (#[trigger] more.outbox[i] matches News::Batch(batch)
                && batch.candidates.contains(c));
        assert(press.outbox[i] == more.outbox[i]);
    }
}

proof fn tell_shows(press: Press, news: News, c: Sighting)
    requires
        shown(press.tell(news), c),
        !(news is Batch),
    ensures
        shown(press, c),
{
    let after = press.tell(news);
    if !press.queued.contains(c) {
        let i = choose|i: int|
            0 <= i < after.outbox.len() && (#[trigger] after.outbox[i] matches News::Batch(batch)
                && batch.candidates.contains(c));
        assert(i < press.outbox.len());
        assert(press.outbox[i] == after.outbox[i]);
    }
}

/// One more row keeps the ground, whatever is counted.
proof fn queue_ground(
    d: Disk,
    n: Nature,
    plan: Plan,
    press: Press,
    c: Sighting,
    stats: Counters,
    force: bool,
)
    requires
        grounded_press(d, n, plan, press),
        grounded_row(d, n, plan, c),
    ensures
        grounded_press(d, n, plan, press.queue(c, stats, force)),
{
    assert forall|x: Sighting| #[trigger] shown(press.queue(c, stats, force), x) implies grounded_row(
        d,
        n,
        plan,
        x,
    ) by {
        queue_shows(press, c, stats, force, x);
    }
}

proof fn flush_ground(d: Disk, n: Nature, plan: Plan, press: Press)
    requires
        grounded_press(d, n, plan, press),
    ensures
        forall|stats: Counters| grounded_press(d, n, plan, #[trigger] press.flush(stats)),
{
    assert forall|stats: Counters| grounded_press(d, n, plan, #[trigger] press.flush(stats)) by {
        assert forall|x: Sighting| #[trigger] shown(press.flush(stats), x) implies grounded_row(
            d,
            n,
            plan,
            x,
        ) by {
            flush_shows(press, stats, x);
        }
    }
}

proof fn tell_ground(d: Disk, n: Nature, plan: Plan, press: Press, news: News)
    requires
        grounded_press(d, n, plan, press),
        !(news is Batch),
    ensures
        grounded_press(d, n, plan, press.tell(news)),
{
    assert forall|x: Sighting| #[trigger] shown(press.tell(news), x) implies grounded_row(
        d,
        n,
        plan,
        x,
    ) by {
        tell_shows(press, news, x);
    }
}

proof fn publish_ground(d: Disk, n: Nature, s: ScanState, c: Sighting, force: bool)
    requires
        ground(d, n, s),
        grounded_row(d, n, s.plan, c),
    ensures
        ground(d, n, s.publish(c, force)),
        ground(d, n, s.publish(c, force).idle()),
{
    ground_press(d, n, s);
    queue_ground(d, n, s.plan, s.press, c, s.stats, force);
    ground_same(d, n, s, s.publish(c, force));
    ground_same(d, n, s, s.publish(c, force).idle());
}

proof fn pulse_ground(d: Disk, n: Nature, s: ScanState, t: Tick)
    requires
        ground(d, n, s),
    ensures
        ground(d, n, s.pulse(t)),
        ground(d, n, s.pulse(t).idle()),
        s.pulse(t).plan == s.plan,
{
    ground_press(d, n, s);
    flush_ground(d, n, s.plan, s.press);
    ground_same(d, n, s, s.pulse(t));
    ground_same(d, n, s, s.pulse(t).idle());
}

proof fn enter_ground(d: Disk, n: Nature, s: ScanState, item: ItemView, id: u64)
    requires
        ground(d, n, s),
        reached(d, n, s.plan, item.entry.path),
    ensures
        ground(d, n, s.enter(item, true, id)),
{
    reveal(ground);
    let b = s.enter(item, true, id);
    assert forall|i: int| 0 <= i < b.frontier.len() implies (#[trigger] b.frontier[i]).mark.classify
        && reached(d, n, b.plan, b.frontier[i].path) by {
        if s.frontier.len() < super::state::MAX_SHALLOW_FRONTIER {
            if i < s.frontier.len() {
                assert(b.frontier[i] == s.frontier[i]);
            }
        } else if i > 0 {
            assert(b.frontier[i] == s.frontier[i - 1]);
        }
    }
}

proof fn push_ground(d: Disk, n: Nature, s: ScanState, job: JobView, b: ScanState)
    requires
        ground(d, n, s),
        grounded_review(d, n, s.plan, job.review),
        b.plan == s.plan,
        b.next == s.next,
        b.frontier == s.frontier,
        b.deferred == s.deferred,
        b.press == s.press,
        b.measurements == s.measurements.push(job),
    ensures
        ground(d, n, b),
{
    reveal(ground);
}

proof fn descend_rests(d: Disk, n: Nature, s: ScanState, item: ItemView, t: Tick)
    requires
        ground(d, n, s),
        reached(d, n, s.plan, item.entry.path),
    ensures
        rests(d, n, s.descend(item, true, t)),
{
    reveal(ScanState::descend);
    ground_press(d, n, s);
    pulse_ground(d, n, s, t);
    if let Some(id) = item.opened {
        enter_ground(d, n, s, item, id);
        pulse_ground(d, n, s.enter(item, true, id), t);
    }
    let b = s.descend(item, true, t);
    if !ground(d, n, b) {
        ground_same(d, n, s, b);
    }
}

proof fn begin_rests(d: Disk, n: Nature, s: ScanState, case: CaseView, t: Tick)
    requires
        ground(d, n, s),
        grounded_case(d, n, s.plan, case),
        ready(d, n, case),
    ensures
        rests(d, n, s.begin(case, t)),
{
    reveal(ScanState::begin);
    unoffered_rows(d, n, s.plan, case.candidate);
    publish_ground(d, n, s, case.candidate, false);
    let b = s.begin(case, t);
    ground_press(d, n, s.publish(case.candidate, false));
    ground_same(d, n, s.publish(case.candidate, false), b);
}

proof fn checked_rests(d: Disk, n: Nature, s: ScanState, case: CaseView, t: Tick)
    requires
        ground(d, n, s),
        grounded_case(d, n, s.plan, case),
        case.checks.blocked == block_of(d, n, case.item.entry.path, case.checks.found),
    ensures
        rests(d, n, s.checked(case, t)),
{
    reveal(ScanState::checked);
    ground_press(d, n, s);
    let b = s.checked(case, t);
    if case.item.entry.meta.dir() && (!case.checks.quiet || case.checks.blocked is Some) {
        let row = Sighting {
            blocked_reason: match case.checks.blocked {
                Some(reason) => Some(reason),
                None => Some(crate::evidence::recent_reason(case.checks.found.quiet_days)),
            },
            provisional: false,
            explanation: case.candidate.explanation + super::state::excluded_note(),
            ..case.candidate
        };
        unoffered_rows(d, n, s.plan, row);
        let counted = s.with(s.stats.skip().exclude());
        ground_same(d, n, s, counted);
        publish_ground(d, n, counted, row, false);
    } else {
        begin_rests(d, n, s, case, t);
        if s.plan.hints && case.item.entry.meta.dir() {
            ground_same(d, n, s, b);
        }
    }
}

proof fn recognized_rests(
    d: Disk,
    n: Nature,
    s: ScanState,
    item: ItemView,
    found: Found,
    t: Tick,
)
    requires
        ground(d, n, s),
        grounded_item(d, n, s.plan, item),
        !same_place(item.entry.path, s.plan.root.path@),
        (n.evidence)(item.entry.path) == Some(found),
        t.now_ns == n.now_ns,
    ensures
        rests(d, n, s.recognized(item, found, t)),
{
    reveal(ScanState::recognized);
    reveal(ScanState::declined);
    reveal(ScanState::weighed);
    ground_press(d, n, s);
    let b = s.recognized(item, found, t);
    let timed = s.with(s.stats.at(t.elapsed_ms));
    ground_same(d, n, s, timed);
    let candidate = first_sight(s.plan.root.id@, item.entry.path, item.entry.meta, found);
    let changed = item.entry.meta.identity.modified_ns as int;
    let quiet = calm(later(changed, found.latest), t.now_ns, found.quiet_days);
    let case = CaseView {
        item,
        candidate,
        checks: ChecksView { found, quiet, blocked: found.blocked },
    };
    if !(found.rules.checks_activity && found.blocked is None && quiet) {
        checked_rests(d, n, timed, case, t);
    }
    let unfit = suggestion_outcome(
        found.rules,
        found.quiet_days,
        found.latest,
        item.entry.meta.allocated,
        changed,
        t.now_ns,
    );
    if let Some(reason) = unfit {
        let row = Sighting {
            provisional: false,
            explanation: candidate.explanation + super::state::plain_file_note(reason),
            blocked_reason: Some(reason),
            ..candidate
        };
        unoffered_rows(d, n, s.plan, row);
        let skipped = timed.with(timed.stats.skip());
        ground_same(d, n, s, skipped);
        publish_ground(d, n, skipped, row, false);
    }
    if !ground(d, n, b) {
        ground_same(d, n, s, b);
    }
}

proof fn judged_rests(d: Disk, n: Nature, s: ScanState, item: ItemView, t: Tick)
    requires
        ground(d, n, s),
        grounded_item(d, n, s.plan, item),
        item.provider == (n.provider)(item.entry.path),
        !same_place(item.entry.path, s.plan.root.path@),
        t.now_ns == n.now_ns,
    ensures
        rests(d, n, s.judged(item, Ok((n.evidence)(item.entry.path)), t)),
{
    reveal(ScanState::judged);
    ground_press(d, n, s);
    match (n.evidence)(item.entry.path) {
        Some(found) => {
            recognized_rests(d, n, s, item, found, t);
        },
        None => {
            if passed(n, s.plan, item.entry.path) {
                met_and_passed(d, n, s.plan, item.entry.path);
                descend_rests(d, n, s, item, t);
            } else {
                ground_same(d, n, s, s.judged(item, Ok(None), t));
            }
        },
    }
}

proof fn looked_rests(
    d: Disk,
    n: Nature,
    s: ScanState,
    seen: ItemView,
    facts: super::state::EntryFacts,
    t: Tick,
)
    requires
        ground(d, n, s),
        grounded_item(d, n, s.plan, seen),
        facts.provider == (n.provider)(seen.entry.path),
    ensures
        rests(d, n, s.looked(seen, facts, t)),
{
    reveal(ScanState::looked);
    ground_press(d, n, s);
    let b = s.looked(seen, facts, t);
    let item = ItemView { provider: facts.provider, ..seen };
    let device = s.plan.root.identity.device;
    let counted = ScanState {
        stats: crate::sightings::tallied(s.stats, s.links, item.entry.meta, device),
        links: crate::sightings::linked(s.links, item.entry.meta, device),
        ..s
    };
    ground_same(d, n, s, counted);
    if same_place(item.entry.path, s.plan.root.path@) {
        met_and_passed(d, n, s.plan, item.entry.path);
        descend_rests(d, n, counted, item, t);
    }
    if !ground(d, n, b) {
        ground_same(d, n, s, b);
    }
}

/// What ends a review is offered only where all that was found out lets it.
proof fn conclude_rests(
    d: Disk,
    n: Nature,
    s: ScanState,
    review: Review,
    quality: Option<Seq<char>>,
)
    requires
        ground(d, n, s),
        !review.candidate.suggestion_eligible,
        review.blocked is Some || quality is Some || grounded_judgement(
            d,
            n,
            s.plan,
            review,
            true,
            true,
        ),
    ensures
        rests(d, n, s.conclude(review, quality)),
{
    reveal(ScanState::conclude);
    ground_press(d, n, s);
    let b = s.conclude(review, quality);
    let doubt = if quality is None && review.candidate.fingerprint.len() == 0 {
        Some(super::state::diagnostic_reason())
    } else {
        quality
    };
    let offered = review.blocked is None && doubt is None && !s.stats.cancelled;
    let first = offered && s.stats.first_finding_ms is None;
    let stats = if offered {
        Counters {
            candidates: crate::model::capped(s.stats.candidates + 1),
            first_finding_ms: if first {
                Some(s.stats.elapsed_ms)
            } else {
                s.stats.first_finding_ms
            },
            ..s.stats
        }
    } else {
        s.stats.skip()
    };
    let row = Sighting {
        blocked_reason: review.blocked,
        provisional: false,
        suggestion_eligible: offered,
        eligible_permanent: review.found.rules.permanent && offered,
        explanation: if offered {
            review.candidate.explanation + offer_note(review.found, review.is_dir)
        } else {
            match doubt {
                Some(reason) => review.candidate.explanation + super::state::refusal_note(reason),
                None => review.candidate.explanation,
            }
        },
        ..review.candidate
    };
    assert(b == s.with(stats).publish(row, first).idle());
    if offered {
        let p = review.entry.path;
        assert(p != s.plan.root.path@);
        let f = choose|f: Seq<u8>|
            reached(d, n, s.plan, f) && (#[trigger] (d.children)(f)).contains(p);
        let chain = choose|chain: Seq<Seq<u8>>| #[trigger]
            leads(d, n, s.plan, chain) && chain.last() == f;
        let q = Quest { d, n, plan: s.plan, chain, p, found: review.found };
        assert(q.sought());
        assert(same_row(row, q.offer()));
        reveal(grounded_row);
    } else {
        unoffered_rows(d, n, s.plan, row);
    }
    ground_same(d, n, s, s.with(stats));
    publish_ground(d, n, s.with(stats), row, first);
}

proof fn unused_rests(d: Disk, n: Nature, s: ScanState, review: Review, quality: Option<Seq<char>>)
    requires
        ground(d, n, s),
        !review.candidate.suggestion_eligible,
        review.blocked is Some || quality is Some || grounded_judgement(
            d,
            n,
            s.plan,
            review,
            true,
            true,
        ),
    ensures
        rests(d, n, s.unused(review, quality)),
{
    reveal(ScanState::unused);
    ground_press(d, n, s);
    conclude_rests(d, n, s, review, quality);
    ground_same(d, n, s, ScanState { phase: Stage::Recalling(review), ..s });
}

proof fn untracked_rests(
    d: Disk,
    n: Nature,
    s: ScanState,
    review: Review,
    quality: Option<Seq<char>>,
)
    requires
        ground(d, n, s),
        !review.candidate.suggestion_eligible,
        review.blocked is Some || quality is Some || grounded_judgement(
            d,
            n,
            s.plan,
            review,
            true,
            false,
        ),
    ensures
        rests(d, n, s.untracked(review, quality)),
{
    reveal(ScanState::untracked);
    ground_press(d, n, s);
    if review.blocked is None && quality is None && review.found.rules.checks_activity {
        ground_same(d, n, s, ScanState { phase: Stage::Using(review), ..s });
    } else {
        unused_rests(d, n, s, review, quality);
    }
}

proof fn failed_rests(d: Disk, n: Nature, s: ScanState, review: Review, reason: Seq<char>, t: Tick)
    requires
        ground(d, n, s),
        !review.candidate.suggestion_eligible,
    ensures
        rests(d, n, s.failed(review, reason, t)),
{
    reveal(ScanState::failed);
    ground_press(d, n, s);
    let counted = s.with(
        if t.cancel {
            s.stats.cancel()
        } else {
            s.stats.err()
        },
    );
    ground_same(d, n, s, counted);
    conclude_rests(
        d,
        n,
        counted,
        Review { blocked: Some(reason), ..review },
        Some("Measurement is incomplete"@),
    );
}

proof fn measured_rests(
    d: Disk,
    n: Nature,
    s: ScanState,
    job: JobView,
    outcome: Result<Measurement, String>,
    t: Tick,
)
    requires
        ground(d, n, s),
        grounded_review(d, n, s.plan, job.review),
        t.now_ns == n.now_ns,
        outcome matches Ok(measured) ==> measured.pruned || measured == (n.measured)(
            job.review.entry.path,
        ),
    ensures
        rests(d, n, s.measured(job, outcome, t)),
{
    reveal(ScanState::measured);
    reveal(ScanState::reviewed);
    ground_press(d, n, s);
    let timed = s.with(s.stats.at(t.elapsed_ms));
    ground_same(d, n, s, timed);
    let review = job.review;
    match outcome {
        Err(reason) => {
            failed_rests(d, n, timed, review, reason@, t);
        },
        Ok(measured) => {
            let added = timed.with(
                Counters {
                    skipped: crate::model::capped(timed.stats.skipped + measured.skipped),
                    errors: crate::model::capped(timed.stats.errors + measured.errors),
                    excluded_artifacts: if measured.pruned {
                        crate::model::capped(timed.stats.excluded_artifacts + 1)
                    } else {
                        timed.stats.excluded_artifacts
                    },
                    ..timed.stats
                },
            );
            ground_same(d, n, s, added);
            let next = if measured.pruned && measured.errors == 0 && timed.plan.hints {
                match review.recent_leaf {
                    Some(leaf) => {
                        let news = News::Remember(review.entry.path, leaf);
                        tell_ground(d, n, s.plan, added.press, news);
                        let next = ScanState { press: added.press.tell(news), ..added };
                        ground_same(d, n, added, next);
                        next
                    },
                    None => added,
                }
            } else {
                added
            };
            let quality = if measured.pruned {
                Some(super::state::pruned_reason())
            } else {
                suggestion_outcome(
                    review.found.rules,
                    review.found.quiet_days,
                    review.found.latest,
                    measured.allocated_bytes,
                    measured.latest_modified_ns as int,
                    t.now_ns,
                )
            };
            let judged = Review {
                candidate: measured_sight(review.candidate, measured),
                blocked: match review.blocked {
                    Some(reason) => Some(reason),
                    None => text_view(measured.unsafe_reason),
                },
                ..review
            };
            ground_press(d, n, next);
            if judged.blocked is None && quality is None {
                assert(grounded_judgement(d, n, s.plan, judged, false, false));
            }
            if judged.blocked is None && quality is None && review.found.rules.checks_git {
                ground_same(d, n, next, ScanState { phase: Stage::Tracking(judged), ..next });
            } else {
                untracked_rests(d, n, next, judged, quality);
            }
        },
    }
}

proof fn seen_rests(
    d: Disk,
    n: Nature,
    s: ScanState,
    job: JobView,
    entry: Spot,
    partial: Measurement,
    t: Tick,
)
    requires
        ground(d, n, s),
        grounded_review(d, n, s.plan, job.review),
    ensures
        rests(d, n, s.seen(job, entry, partial, t)),
{
    reveal(ScanState::seen);
    ground_press(d, n, s);
    let b = s.seen(job, entry, partial, t);
    assert forall|row: Sighting, stats: Counters, force: bool| !row.suggestion_eligible implies
        grounded_press(d, n, s.plan, #[trigger] s.press.queue(row, stats, force)) by {
        unoffered_rows(d, n, s.plan, row);
        queue_ground(d, n, s.plan, s.press, row, stats, force);
    }
    ground_same(d, n, s, b);
}

proof fn started_rests(
    d: Disk,
    n: Nature,
    s: ScanState,
    review: Review,
    outcome: Result<u64, String>,
    t: Tick,
)
    requires
        ground(d, n, s),
        grounded_review(d, n, s.plan, review),
    ensures
        rests(d, n, s.started(review, outcome, t)),
{
    reveal(ScanState::started);
    ground_press(d, n, s);
    let timed = s.with(s.stats.at(t.elapsed_ms));
    ground_same(d, n, s, timed);
    failed_rests(
        d,
        n,
        timed,
        review,
        "Artifact scheduling metadata exceeds the bounded queue limit"@,
        t,
    );
    match outcome {
        Ok(cursor) => {
            let job = JobView { review, cursor };
            push_ground(
                d,
                n,
                timed,
                job,
                ScanState { measurements: timed.measurements.push(job), ..timed }.idle(),
            );
        },
        Err(reason) => {
            failed_rests(d, n, timed, review, reason@, t);
        },
    }
}

proof fn finish_ground(d: Disk, n: Nature, s: ScanState, t: Tick)
    requires
        ground(d, n, s),
    ensures
        rests(d, n, s.finish(t)),
{
    reveal(ScanState::finish);
    ground_press(d, n, s);
    flush_ground(d, n, s.plan, s.press);
    ground_same(d, n, s, s.finish(t));
}

proof fn turn_rests(d: Disk, n: Nature, s: ScanState, t: Tick)
    requires
        ground(d, n, s),
    ensures
        rests(d, n, s.turn(t)),
{
    reveal(ScanState::turn);
    reveal(ScanState::explore);
    ground_press(d, n, s);
    let stopped = s.with(s.stats.cancel());
    ground_same(d, n, s, stopped);
    finish_ground(d, n, stopped, t);
    pulse_ground(d, n, s, t);
    let a = s.pulse(t);
    let b = s.turn(t);
    let turned = ScanState { measurement_turn: true, ..a };
    ground_press(d, n, a);
    ground_same(d, n, a, turned);
    finish_ground(d, n, turned, t);
    assert(a.deferred.len() == 0) by {
        reveal(ground);
    }
    if !(t.cancel || s.stats.cancelled) {
        if a.measures_now() {
            reveal(ground);
            assert(grounded_review(d, n, a.plan, a.measurements[0].review));
            assert forall|i: int| 0 <= i < b.measurements.len() implies grounded_review(
                d,
                n,
                b.plan,
                (#[trigger] b.measurements[i]).review,
            ) by {
                assert(b.measurements[i] == a.measurements[i + 1]);
            }
        } else if a.next.len() > 0 {
            reveal(ground);
            assert(a.next[0].entry == d.spot(a.plan.root.path@));
            assert forall|i: int| 0 <= i < b.next.len() implies (#[trigger] b.next[i]).entry
                == d.spot(b.plan.root.path@) by {
                assert(b.next[i] == a.next[i + 1]);
            }
        } else if a.frontier.len() > 0 {
            reveal(ground);
            reveal(ScanState::rotate);
            super::confinement::lane_inside(
                turned.frontier,
                turned.plan.lanes as int,
                turned.lane_turn as int,
                0,
            );
            let r = turned.rotate();
            assert forall|i: int| 0 <= i < r.frontier.len() implies (
            #[trigger] r.frontier[i]).mark.classify && reached(
                d,
                n,
                r.plan,
                r.frontier[i].path,
            ) by {
                if r.frontier != turned.frontier {
                    let at = super::state::lane_pick(
                        turned.frontier,
                        turned.plan.lanes as int,
                        turned.lane_turn as int,
                        0,
                    )->Some_0.0;
                    let m = turned.frontier.len() - at;
                    if i < m {
                        assert(r.frontier[i] == turned.frontier[i + at]);
                    } else {
                        assert(r.frontier[i] == turned.frontier[i - m]);
                    }
                }
            }
        }
    }
}

proof fn listed_rests(
    d: Disk,
    n: Nature,
    s: ScanState,
    outcome: Result<super::state::Listing, String>,
    t: Tick,
)
    requires
        ground(d, n, s),
        s.frontier.len() > 0,
        honest(d, ScanState { phase: Stage::Reading, ..s }, Event::Listed(outcome)),
    ensures
        rests(d, n, s.listed(outcome, t)),
{
    reveal(ScanState::listed);
    ground_press(d, n, s);
    let b = s.listed(outcome, t);
    let stopped = s.with(s.stats.cancel());
    ground_same(d, n, s, stopped);
    finish_ground(d, n, stopped, t);
    reveal(ScanState::finish);
    reveal(ground);
    let f = s.frontier[0];
    assert(f.mark.classify && reached(d, n, s.plan, f.path));
    if let Ok(listing) = outcome {
        match listing.found {
            Listed::Directory(path) => {
                assert((d.children)(f.path).contains(path@));
                assert(met(d, n, s.plan, path@));
            },
            Listed::Entry(entry) => {
                assert((d.children)(f.path).contains(entry@.path));
                assert(met(d, n, s.plan, entry@.path));
            },
            Listed::Nothing => {},
        }
    }
    if b.frontier != s.frontier {
        assert forall|i: int| 0 <= i < b.frontier.len() implies (
        #[trigger] b.frontier[i]).mark.classify && reached(d, n, b.plan, b.frontier[i].path) by {
            assert(b.frontier[i] == s.frontier[i + 1]);
        }
    }
}

proof fn hinted_rests(
    d: Disk,
    n: Nature,
    s: ScanState,
    case: CaseView,
    hint: Option<Seq<u8>>,
    meta: Option<crate::model::EntryMeta>,
    t: Tick,
)
    requires
        ground(d, n, s),
        grounded_case(d, n, s.plan, case),
        ready(d, n, case),
        !t.cancel,
    ensures
        rests(d, n, s.hinted(case, hint, t)),
        rests(d, n, s.observed(case, meta, t)),
{
    reveal(ScanState::hinted);
    reveal(ScanState::observed);
    ground_press(d, n, s);
    let gone = s.forget(case.item.entry.path);
    tell_ground(d, n, s.plan, s.press, News::Forget(case.item.entry.path));
    ground_same(d, n, s, gone);
    begin_rests(d, n, s, case, t);
    begin_rests(d, n, gone, case, t);
    if let Some(path) = hint {
        ground_same(d, n, s, ScanState { phase: Stage::Observing(case, path), ..s });
    }
    if let Some(meta) = meta {
        let days = case.checks.found.quiet_days;
        let row = Sighting {
            modified_ns: later(
                case.candidate.modified_ns as int,
                meta.identity.modified_ns as int,
            ) as i64,
            provisional: false,
            blocked_reason: Some(super::state::hinted_reason(days)),
            explanation: case.candidate.explanation + super::state::hinted_note(),
            ..case.candidate
        };
        unoffered_rows(d, n, s.plan, row);
        let counted = s.with(s.stats.skip().exclude());
        ground_same(d, n, s, counted);
        publish_ground(d, n, counted, row, false);
    }
}

proof fn entered_rests(
    d: Disk,
    n: Nature,
    s: ScanState,
    path: Seq<u8>,
    outcome: Result<(crate::model::Entry, Option<u64>), String>,
    t: Tick,
)
    requires
        ground(d, n, s),
        s.frontier.len() > 0,
        s.frontier[0].mark.classify,
        met(d, n, s.plan, path),
        outcome matches Ok(pair) ==> pair.0@ == d.spot(path),
        !t.cancel,
    ensures
        rests(d, n, s.entered(outcome, t)),
{
    reveal(ScanState::entered);
    ground_press(d, n, s);
    ground_same(d, n, s, s.entered(outcome, t));
}

proof fn opened_rests(
    d: Disk,
    n: Nature,
    s: ScanState,
    item: ItemView,
    outcome: Result<u64, String>,
    t: Tick,
)
    requires
        ground(d, n, s),
        reached(d, n, s.plan, item.entry.path),
    ensures
        rests(d, n, s.opened(item, true, outcome, t)),
{
    reveal(ScanState::opened);
    ground_press(d, n, s);
    match outcome {
        Ok(id) => {
            enter_ground(d, n, s, item, id);
            pulse_ground(d, n, s.enter(item, true, id), t);
        },
        Err(_) => {
            let counted = s.with(s.stats.err().skip());
            ground_same(d, n, s, counted);
            pulse_ground(d, n, counted, t);
        },
    }
}

/// Every answer leaves a suggestion scan resting on what the location says.
#[verifier::rlimit(40)]
proof fn answers_rest(d: Disk, n: Nature, s: ScanState, event: Event, t: Tick)
    requires
        rests(d, n, s),
        honest(d, s, event),
        told(n, s, event, t),
    ensures
        rests(d, n, s.step(event, t)),
{
    reveal(ScanState::answered);
    let at = ScanState { press: Press { due: t.due, ..s.press }, phase: Stage::Idle, ..s };
    let b = s.step(event, t);
    ground_press(d, n, s);
    assert(grounded_press(d, n, s.plan, at.press)) by {
        assert forall|c: Sighting| #[trigger] shown(at.press, c) implies grounded_row(
            d,
            n,
            s.plan,
            c,
        ) by {
            if !at.press.queued.contains(c) {
                let i = choose|i: int|
                    0 <= i < at.press.outbox.len() && (#[trigger] at.press.outbox[i] matches News::Batch(
                        batch,
                    ) && batch.candidates.contains(c));
                assert(s.press.outbox[i] == at.press.outbox[i]);
            }
            assert(shown(s.press, c));
        }
    }
    ground_same(d, n, s, at);
    match (s.phase, event) {
        (Stage::Idle, Event::Proceed) => {
            turn_rests(d, n, at, t);
        },
        (Stage::Reading, Event::Listed(outcome)) => {
            listed_rests(d, n, at, outcome, t);
        },
        (Stage::Opening(path), Event::Entered(outcome)) => {
            entered_rests(d, n, at, path, outcome, t);
        },
        (Stage::Looking(item), Event::Facts(facts)) => {
            looked_rests(d, n, at, item, facts, t);
        },
        (Stage::Judging(item), Event::Evidence(outcome)) => {
            judged_rests(d, n, at, item, t);
        },
        (Stage::Checking(case), Event::Activity(reason)) => {
            let known = CaseView {
                checks: ChecksView { blocked: text_view(reason), ..case.checks },
                ..case
            };
            checked_rests(d, n, at, known, t);
        },
        (Stage::Hinting(case), Event::Hint(hint)) => {
            hinted_rests(d, n, at, case, crate::evidence::path_view(hint), None, t);
        },
        (Stage::Observing(case, _), Event::Observed(meta)) => {
            hinted_rests(d, n, at, case, None, meta, t);
        },
        (Stage::Starting(review, _), Event::Cursor(outcome)) => {
            started_rests(d, n, at, review, outcome, t);
        },
        (Stage::Measuring(job), Event::Seen(entry, partial)) => {
            seen_rests(d, n, at, job, entry@, partial, t);
        },
        (Stage::Measuring(job), Event::Pending) => {
            push_ground(d, n, at, job, b);
        },
        (Stage::Measuring(job), Event::Measured(outcome)) => {
            measured_rests(d, n, at, job, outcome, t);
        },
        (Stage::Tracking(review), Event::Git(reason)) => {
            untracked_rests(d, n, at, Review { blocked: text_view(reason), ..review }, None);
        },
        (Stage::Using(review), Event::Activity(reason)) => {
            unused_rests(d, n, at, Review { blocked: text_view(reason), ..review }, None);
        },
        (Stage::Recalling(review), Event::Evidence(outcome)) => {
            reveal(ScanState::recalled);
            conclude_rests(
                d,
                n,
                at,
                Review {
                    blocked: Some("Project evidence changed during the scan; refresh this review"@),
                    ..review
                },
                None,
            );
            conclude_rests(d, n, at, review, None);
        },
        (Stage::Entering(item, classify, _), Event::Opened(outcome)) => {
            opened_rests(d, n, at, item, outcome, t);
        },
        _ => {
            ground_same(d, n, at, b);
        },
    }
}

proof fn conclude_keeps_plan(s: ScanState, review: Review, quality: Option<Seq<char>>)
    ensures
        s.conclude(review, quality).plan == s.plan,
        s.unused(review, quality).plan == s.plan,
        s.untracked(review, quality).plan == s.plan,
{
    reveal(ScanState::conclude);
    reveal(ScanState::unused);
    reveal(ScanState::untracked);
}

/// No answer changes the terms of a scan.
proof fn plan_stays(s: ScanState, event: Event, t: Tick)
    ensures
        s.step(event, t).plan == s.plan,
{
    reveal(ScanState::answered);
    let at = ScanState { press: Press { due: t.due, ..s.press }, phase: Stage::Idle, ..s };
    match (s.phase, event) {
        (Stage::Idle, Event::Proceed) => {
            reveal(ScanState::turn);
            reveal(ScanState::explore);
            reveal(ScanState::finish);
            reveal(ScanState::rotate);
        },
        (Stage::Reading, Event::Listed(outcome)) => {
            reveal(ScanState::listed);
            reveal(ScanState::finish);
        },
        (Stage::Opening(_), Event::Entered(outcome)) => {
            reveal(ScanState::entered);
            reveal(ScanState::finish);
        },
        (Stage::Looking(item), Event::Facts(facts)) => {
            looked_onward(at, item, facts, t);
        },
        (Stage::Judging(item), Event::Evidence(outcome)) => {
            judged_onward(at, item, outcome_view(outcome), t);
        },
        (Stage::Checking(case), Event::Activity(reason)) => {
            checked_onward(
                at,
                CaseView {
                    checks: ChecksView { blocked: text_view(reason), ..case.checks },
                    ..case
                },
                t,
            );
        },
        (Stage::Verifying(case), Event::Verified(outcome)) => {
            reveal(ScanState::verified);
            begin_onward(at, case, t);
        },
        (Stage::Hinting(case), Event::Hint(hint)) => {
            reveal(ScanState::hinted);
            begin_onward(at, case, t);
            begin_onward(at.forget(case.item.entry.path), case, t);
        },
        (Stage::Observing(case, _), Event::Observed(meta)) => {
            reveal(ScanState::observed);
            reveal(ScanState::finish);
            begin_onward(at.forget(case.item.entry.path), case, t);
        },
        (Stage::Starting(review, _), Event::Cursor(outcome)) => {
            reveal(ScanState::started);
            reveal(ScanState::failed);
            reveal(ScanState::conclude);
        },
        (Stage::Measuring(job), Event::Seen(entry, partial)) => {
            reveal(ScanState::seen);
        },
        (Stage::Measuring(job), Event::Measured(outcome)) => {
            reveal(ScanState::measured);
            reveal(ScanState::failed);
            reveal(ScanState::conclude);
            if let Ok(measured) = outcome {
                measured_onward(at, job, measured, t);
            }
        },
        (Stage::Tracking(review), Event::Git(reason)) => {
            conclude_keeps_plan(at, Review { blocked: text_view(reason), ..review }, None);
        },
        (Stage::Using(review), Event::Activity(reason)) => {
            conclude_keeps_plan(at, Review { blocked: text_view(reason), ..review }, None);
        },
        (Stage::Recalling(review), Event::Evidence(outcome)) => {
            reveal(ScanState::recalled);
            reveal(ScanState::conclude);
        },
        (Stage::Entering(item, classify, _), Event::Opened(outcome)) => {
            reveal(ScanState::opened);
        },
        _ => {},
    }
}

proof fn runs_rest(d: Disk, n: Nature, s: ScanState, answers: Seq<(Event, Tick)>)
    requires
        rests(d, n, s),
        all_honest(d, s, answers),
        all_told(n, s, answers),
    ensures
        rests(d, n, after_answers(s, answers)),
        after_answers(s, answers).plan == s.plan,
    decreases answers.len(),
{
    let m = answers.len() as int;
    if m > 0 {
        let front = answers.drop_last();
        assert(answers.take(m - 1) =~= front);
        assert forall|i: int| 0 <= i < front.len() implies honest(
            d,
            after_answers(s, front.take(i)),
            (#[trigger] front[i]).0,
        ) by {
            assert(front[i] == answers[i]);
            assert(front.take(i) =~= answers.take(i));
        }
        assert forall|i: int| 0 <= i < front.len() implies told(
            n,
            after_answers(s, front.take(i)),
            (#[trigger] front[i]).0,
            front[i].1,
        ) by {
            assert(front[i] == answers[i]);
            assert(front.take(i) =~= answers.take(i));
        }
        runs_rest(d, n, s, front);
        let e = after_answers(s, front);
        assert(honest(d, e, answers[m - 1].0));
        assert(told(n, e, answers[m - 1].0, answers[m - 1].1));
        answers_rest(d, n, e, answers[m - 1].0, answers[m - 1].1);
        plan_stays(e, answers[m - 1].0, answers[m - 1].1);
    }
}

/// A fresh session for a whole location.
pub open spec fn starting(d: Disk, plan: Plan, limit: usize) -> ScanState {
    let links = LinkState { seen: Set::empty(), limit, full: false };
    let root = StartView { entry: d.spot(plan.root.path@), lane: 0 };
    fresh(plan, links, Opening { skipped: 0, errors: 0, next: seq![root] })
}

/// What a suggestion scan offers is an artifact that can be offered.
proof fn offers_are_grounded(
    d: Disk,
    n: Nature,
    plan: Plan,
    limit: usize,
    quick: Seq<(Event, Tick)>,
    c: Sighting,
) -> (q: Quest)
    requires
        plan.mode == ScanMode::Suggestions,
        all_honest(d, starting(d, plan, limit), quick),
        all_told(n, starting(d, plan, limit), quick),
        published(after_answers(starting(d, plan, limit), quick), c),
        c.suggestion_eligible,
    ensures
        q.d == d,
        q.n == n,
        q.plan == plan,
        q.sought(),
        same_row(c, q.offer()),
{
    let s = starting(d, plan, limit);
    assert(ground(d, n, s)) by {
        reveal(ground);
    }
    runs_rest(d, n, s, quick);
    let e = after_answers(s, quick);
    ground_press(d, n, e);
    assert(shown(e.press, c));
    assert(grounded_row(d, n, plan, c));
    reveal(grounded_row);
    choose|q: Quest|
        q.d == d && q.n == n && q.plan == plan && #[trigger] q.sought() && same_row(c, q.offer())
}

/// The mode of a scan does not matter for what can be offered.
proof fn modes_seek_alike(q: Quest, other: Quest)
    requires
        q.sought(),
        other == (Quest { plan: Plan { mode: other.plan.mode, ..q.plan }, ..q }),
    ensures
        other.sought(),
        other.offer() == q.offer(),
{
    assert forall|i: int| 0 < i < q.chain.len() implies passed(
        q.n,
        other.plan,
        #[trigger] q.chain[i],
    ) by {
        assert(passed(q.n, q.plan, q.chain[i]));
    }
    assert(leads(q.d, q.n, other.plan, q.chain));
}

/// A run of metadata coverage that ends has shown what can be offered.
proof fn coverage_exhibits(
    q: Quest,
    limit: usize,
    thorough: Seq<(Event, Tick)>,
    worlds: Seq<World>,
)
    requires
        q.sought(),
        covering(q.plan),
        q.d.plain(q.plan),
        (q.d.level)(q.plan.root.path@) == 0,
        all_served(q.d, starting(q.d, q.plan, limit), thorough, worlds),
        all_told(q.n, starting(q.d, q.plan, limit), thorough),
        after_answers(starting(q.d, q.plan, limit), thorough).phase is Done,
    ensures
        q.exhibited(after_answers(starting(q.d, q.plan, limit), thorough)),
{
    let m = starting(q.d, q.plan, limit);
    assert(q.stands(worlds[0], m)) by {
        reveal(Quest::stands);
        assert(m.next[0].entry == q.d.spot(q.plan.root.path@));
        assert(q.ahead(worlds[0], m));
    }
    runs_reach(q, m, thorough, worlds);
    reveal(Quest::stands);
}

/// Metadata coverage comes to every artifact that suggestion discovery offers. Over
/// the same unchanging location, of which both find out the same at the same moment,
/// a row that a suggestion scan offers is shown by any run of metadata coverage that
/// ends: with the same name, path, identity, evidence, fingerprint, sizes and number
/// of files, offered as well, and as free to be removed for good.
pub proof fn coverage_shows_what_suggestions_offer(
    d: Disk,
    n: Nature,
    plan: Plan,
    limit: usize,
    quick: Seq<(Event, Tick)>,
    c: Sighting,
    thorough: Seq<(Event, Tick)>,
    worlds: Seq<World>,
)
    requires
        plan.mode == ScanMode::Suggestions,
        covering(Plan { mode: ScanMode::MetadataCoverage, ..plan }),
        d.plain(plan),
        (d.level)(plan.root.path@) == 0,
        all_honest(d, starting(d, plan, limit), quick),
        all_told(n, starting(d, plan, limit), quick),
        published(after_answers(starting(d, plan, limit), quick), c),
        c.suggestion_eligible,
        ({
            let m = starting(d, Plan { mode: ScanMode::MetadataCoverage, ..plan }, limit);
            &&& all_served(d, m, thorough, worlds)
            &&& all_told(n, m, thorough)
            &&& after_answers(m, thorough).phase is Done
        }),
    ensures
        ({
            let m = starting(d, Plan { mode: ScanMode::MetadataCoverage, ..plan }, limit);
            exists|y: Sighting| #[trigger]
                published(after_answers(m, thorough), y) && same_row(c, y)
        }),
{
    let all = Plan { mode: ScanMode::MetadataCoverage, ..plan };
    let found = offers_are_grounded(d, n, plan, limit, quick, c);
    let q = Quest { plan: all, ..found };
    modes_seek_alike(found, q);
    assert(d.plain(all)) by {
        assert forall|p: Seq<u8>| #[trigger] d.local(all, p) by {
            assert(d.local(plan, p));
        }
    }
    coverage_exhibits(q, limit, thorough, worlds);
    let end = after_answers(starting(d, all, limit), thorough);
    let y = choose|y: Sighting| #[trigger] shown(end.press, y) && same_row(y, q.offer());
    assert(published(end, y));
}

} // verus!
