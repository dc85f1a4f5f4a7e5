//! Metadata coverage meets every entry of a location once, however many artifacts
//! were put off: its counters are those of any other traversal.
use super::confinement::after_answers;
use super::press::Press;
use super::review::{outcome_view, Review, MAX_MEASUREMENT_JOB_BYTES};
use super::start::{fresh, Opening};
use super::state::{
    calm, kept_below, kept_over, lane_pick, CaseView, ChecksView, DeferredView, EntryFacts, Event,
    FrameView, ItemView, JobView, Listed, Listing, Plan, ScanMode, ScanState, Stage, StartView,
    Tick,
};
use crate::evidence::{suggestion_outcome, text_view, Found, Measurement};
use crate::model::{capped, Entry, EntryMeta};
use crate::paths::same_place;
use crate::sightings::{
    first_sight, link_key, linked, measured_sight, tallied, Counters, LinkState, Spot,
};
use crate::sources::later;
use vstd::multiset::Multiset;
use vstd::prelude::*;

verus! {

/// A location that does not change: what each path is, what a folder holds, all
/// that lies at or below a path, and how deep it lies; and the sizes of a file
/// that has several names.
pub struct Disk {
    pub meta: spec_fn(Seq<u8>) -> EntryMeta,
    pub children: spec_fn(Seq<u8>) -> Seq<Seq<u8>>,
    pub tree: spec_fn(Seq<u8>) -> Multiset<Seq<u8>>,
    pub level: spec_fn(Seq<u8>) -> nat,
    pub bytes: spec_fn(u128) -> u64,
    pub blocks: spec_fn(u128) -> u64,
}

/// The sum over a list.
pub open spec fn total<T>(list: Seq<T>, f: spec_fn(T) -> int) -> int
    decreases list.len(),
{
    if list.len() == 0 {
        0
    } else {
        total(list.drop_last(), f) + f(list.last())
    }
}

proof fn total_push<T>(list: Seq<T>, last: T, f: spec_fn(T) -> int)
    ensures
        total(list.push(last), f) == total(list, f) + f(last),
{
    assert(list.push(last).drop_last() =~= list);
}

proof fn total_concat<T>(a: Seq<T>, b: Seq<T>, f: spec_fn(T) -> int)
    ensures
        total(a + b, f) == total(a, f) + total(b, f),
    decreases b.len(),
{
    if b.len() == 0 {
        assert(a + b =~= a);
    } else {
        total_concat(a, b.drop_last(), f);
        assert((a + b).drop_last() =~= a + b.drop_last());
    }
}

proof fn total_first<T>(list: Seq<T>, f: spec_fn(T) -> int)
    requires
        list.len() > 0,
    ensures
        total(list, f) == f(list[0]) + total(list.skip(1), f),
{
    total_concat(list.take(1), list.skip(1), f);
    assert(list =~= list.take(1) + list.skip(1));
    total_push(Seq::<T>::empty(), list[0], f);
    assert(list.take(1) =~= Seq::<T>::empty().push(list[0]));
}

proof fn total_same<T>(list: Seq<T>, f: spec_fn(T) -> int, g: spec_fn(T) -> int)
    requires
        forall|i: int| 0 <= i < list.len() ==> f(#[trigger] list[i]) == g(list[i]),
    ensures
        total(list, f) == total(list, g),
    decreases list.len(),
{
    if list.len() > 0 {
        let front = list.drop_last();
        assert forall|i: int| 0 <= i < front.len() implies f(#[trigger] front[i]) == g(front[i]) by {
            assert(front[i] == list[i]);
        }
        total_same(front, f, g);
        assert(f(list[list.len() - 1]) == g(list[list.len() - 1]));
    }
}

impl Disk {
    /// How often a path occurs among all that lies at or below another one.
    pub open spec fn at(self, x: Seq<u8>) -> spec_fn(Seq<u8>) -> int {
        |p: Seq<u8>| (self.tree)(p).count(x) as int
    }

    /// How often it occurs below.
    pub open spec fn below(self, p: Seq<u8>, x: Seq<u8>) -> int {
        total((self.children)(p), self.at(x))
    }

    /// The entry at a path.
    pub open spec fn spot(self, p: Seq<u8>) -> Spot {
        Spot { path: p, meta: (self.meta)(p) }
    }

    /// Whether the location holds nothing but local folders and regular files of
    /// one volume: what lies at or below a path is the path itself and all that
    /// lies at or below its children, folders nest less deep than a scan goes, and
    /// the names of a file agree on its sizes.
    pub open spec fn plain(self, plan: Plan) -> bool {
        &&& forall|p: Seq<u8>| #[trigger] self.local(plan, p)
        &&& forall|p: Seq<u8>, x: Seq<u8>| #[trigger]
            (self.tree)(p).count(x) == self.below(p, x) + if x == p {
                1int
            } else {
                0
            }
    }

    /// What the location says of one path.
    pub open spec fn local(self, plan: Plan, p: Seq<u8>) -> bool {
        let meta = (self.meta)(p);
        &&& meta.identity.device == plan.root.identity.device
        &&& !meta.symlink()
        &&& !meta.dataless()
        &&& meta.dir() != meta.file()
        &&& (self.level)(p) < plan.max_depth
        &&& !meta.dir() ==> (self.children)(p).len() == 0
        &&& forall|i: int|
            0 <= i < (self.children)(p).len() ==> (self.level)(
                #[trigger] (self.children)(p)[i],
            ) == (self.level)(p) + 1
        &&& meta.links > 1 ==> (self.bytes)(link_key(meta.identity)) == meta.identity.size && (
        self.blocks)(link_key(meta.identity)) == meta.allocated
    }
}

/// What is left to be listed of the folders that are open, and to be met by the
/// measurements that are under way.
pub struct World {
    pub left: Map<u64, Seq<Seq<u8>>>,
    pub inside: Map<u64, Multiset<Seq<u8>>>,
}

/// Whether no folder that is read has this handle.
pub open spec fn unused(frontier: Seq<FrameView>, id: u64) -> bool {
    forall|i: int| 0 <= i < frontier.len() ==> (#[trigger] frontier[i]).mark.id != id
}

/// Whether no measurement has this cursor.
pub open spec fn idle_cursor(measurements: Seq<JobView>, cursor: u64) -> bool {
    forall|i: int| 0 <= i < measurements.len() ==> (#[trigger] measurements[i]).cursor != cursor
}

/// A folder with one entry less to list.
pub open spec fn after_listing(h: World, id: u64) -> World {
    World { left: h.left.insert(id, h.left[id].skip(1)), ..h }
}

/// A folder that was opened.
pub open spec fn after_opening(d: Disk, h: World, id: u64, p: Seq<u8>) -> World {
    World { left: h.left.insert(id, (d.children)(p)), ..h }
}

/// Whether an answer is the location's: folders list what they hold, once each,
/// and end unchanged; what is opened can be read; measurements meet all that lies
/// in the artifact, once each and without an error; nothing is excluded; and an
/// artifact that waited is still the same. What an entry is, and whether anything
/// uses or tracks it, is free.
pub open spec fn served(d: Disk, h: World, s: ScanState, event: Event, after: World) -> bool {
    match (s.phase, event) {
        (Stage::Reading, Event::Listed(outcome)) => outcome matches Ok(listing) && listing.files
            == 0 && listing.skipped == 0 && listing.metadata_skipped == 0 && {
            let id = s.frontier[0].mark.id;
            match listing.found {
                Listed::Nothing => after == h && (listing.finished ==> !listing.changed
                    && h.left[id].len() == 0),
                Listed::Directory(path) => h.left[id].len() > 0 && path@ == h.left[id][0]
                    && (d.meta)(path@).dir() && after == after_listing(h, id),
                Listed::Entry(entry) => h.left[id].len() > 0 && entry@ == d.spot(h.left[id][0])
                    && after == after_listing(h, id),
            }
        },
        (Stage::Opening(path), Event::Entered(outcome)) => outcome matches Ok(pair) && pair.0@
            == d.spot(path) && match pair.1 {
            None => after == h,
            Some(id) => unused(s.frontier, id) && after == after_opening(d, h, id, path),
        },
        (Stage::Looking(_), Event::Facts(facts)) => !facts.media && !facts.excluded
            && !facts.library && after == h,
        (Stage::Verifying(_), Event::Verified(outcome)) => outcome is Ok && after == h,
        (Stage::Starting(review, _), Event::Cursor(outcome)) => outcome matches Ok(cursor)
            && review.weight() <= MAX_MEASUREMENT_JOB_BYTES && idle_cursor(
            s.measurements,
            cursor,
        ) && after.left == h.left && (forall|x: Seq<u8>|
            #[trigger] after.inside[cursor].count(x) == d.below(review.entry.path, x)) && (forall|
            c: u64,
        |
            c != cursor ==> #[trigger] after.inside[c] == h.inside[c]),
        (Stage::Measuring(job), Event::Seen(entry, _)) => if same_place(
            entry@.path,
            job.review.entry.path,
        ) {
            after == h
        } else {
            &&& h.inside[job.cursor].count(entry@.path) > 0
            &&& entry@ == d.spot(entry@.path)
            &&& after == (World {
                inside: h.inside.insert(job.cursor, h.inside[job.cursor].remove(entry@.path)),
                ..h
            })
        },
        (Stage::Measuring(job), Event::Measured(outcome)) => outcome matches Ok(measured)
            && measured.errors == 0 && h.inside[job.cursor] == Multiset::<Seq<u8>>::empty()
            && after == h,
        (Stage::Entering(item, _, _), Event::Opened(outcome)) => outcome matches Ok(id) && unused(
            s.frontier,
            id,
        ) && after == after_opening(d, h, id, item.entry.path),
        _ => after == h,
    }
}

pub open spec fn start_count(d: Disk, x: Seq<u8>) -> spec_fn(StartView) -> int {
    |n: StartView| (d.tree)(n.entry.path).count(x) as int
}

pub open spec fn frame_count(d: Disk, h: World, x: Seq<u8>) -> spec_fn(FrameView) -> int {
    |f: FrameView| total(h.left[f.mark.id], d.at(x))
}

pub open spec fn deferred_count(d: Disk, x: Seq<u8>) -> spec_fn(DeferredView) -> int {
    |w: DeferredView| d.below(w.entry.path, x)
}

pub open spec fn job_count(h: World, x: Seq<u8>) -> spec_fn(JobView) -> int {
    |j: JobView| h.inside[j.cursor].count(x) as int
}

pub open spec fn stage_count(d: Disk, h: World, stage: Stage, x: Seq<u8>) -> int {
    match stage {
        Stage::Opening(path) => (d.tree)(path).count(x) as int,
        Stage::Looking(item) => if item.previous is Some {
            d.below(item.entry.path, x)
        } else {
            (d.tree)(item.entry.path).count(x) as int
        },
        Stage::Judging(item) => d.below(item.entry.path, x),
        Stage::Checking(case) => d.below(case.item.entry.path, x),
        Stage::Verifying(case) => d.below(case.item.entry.path, x),
        Stage::Starting(review, _) => d.below(review.entry.path, x),
        Stage::Measuring(job) => h.inside[job.cursor].count(x) as int,
        Stage::Entering(item, _, _) => d.below(item.entry.path, x),
        _ => 0,
    }
}

/// How often a path is still to be met.
pub open spec fn pending(d: Disk, h: World, s: ScanState, x: Seq<u8>) -> int {
    total(s.next, start_count(d, x)) + total(s.frontier, frame_count(d, h, x)) + total(
        s.deferred,
        deferred_count(d, x),
    ) + total(s.measurements, job_count(h, x)) + stage_count(d, h, s.phase, x)
}

/// What a plan must be for all to be met: no suggestion scan, nothing kept, and no
/// download folder.
pub open spec fn covering(plan: Plan) -> bool {
    plan.mode == ScanMode::MetadataCoverage && plan.kept@.len() == 0 && plan.downloads is None
}

pub open spec fn fair_frame(d: Disk, h: World, f: FrameView) -> bool {
    &&& f.mark.depth == (d.level)(f.path)
    &&& forall|i: int|
        0 <= i < h.left[f.mark.id].len() ==> (d.level)(#[trigger] h.left[f.mark.id][i])
            == f.mark.depth + 1
}

pub open spec fn distinct_frames(frontier: Seq<FrameView>) -> bool {
    forall|i: int, j: int|
        0 <= i < j < frontier.len() ==> (#[trigger] frontier[i]).mark.id != (
        #[trigger] frontier[j]).mark.id
}

pub open spec fn distinct_jobs(measurements: Seq<JobView>) -> bool {
    forall|i: int, j: int|
        0 <= i < j < measurements.len() ==> (#[trigger] measurements[i]).cursor != (
        #[trigger] measurements[j]).cursor
}

/// What is held beside what is waited for.
pub open spec fn fair(d: Disk, h: World, s: ScanState) -> bool {
    &&& covering(s.plan)
    &&& d.plain(s.plan)
    &&& distinct_frames(s.frontier)
    &&& distinct_jobs(s.measurements)
    &&& forall|i: int| 0 <= i < s.frontier.len() ==> fair_frame(d, h, #[trigger] s.frontier[i])
    &&& forall|i: int|
        0 <= i < s.next.len() ==> (#[trigger] s.next[i]).entry == d.spot(s.next[i].entry.path)
            && (d.level)(s.next[i].entry.path) == 0
    &&& forall|i: int|
        0 <= i < s.deferred.len() ==> (#[trigger] s.deferred[i]).entry == d.spot(
            s.deferred[i].entry.path,
        )
    &&& !s.stats.cancelled
    &&& s.stats.errors == 0
}

pub open spec fn fair_item(d: Disk, h: World, frontier: Seq<FrameView>, item: ItemView) -> bool {
    &&& item.entry == d.spot(item.entry.path)
    &&& item.previous is None ==> item.depth == (d.level)(item.entry.path)
    &&& item.opened matches Some(id) ==> unused(frontier, id) && h.left[id] == (d.children)(
        item.entry.path,
    )
}

pub open spec fn fair_stage(d: Disk, h: World, s: ScanState) -> bool {
    match s.phase {
        Stage::Reading => s.frontier.len() > 0,
        Stage::Opening(path) => s.frontier.len() > 0 && (d.level)(path) == s.frontier[0].mark.depth
            + 1,
        Stage::Looking(item) => fair_item(d, h, s.frontier, item),
        Stage::Judging(item) => fair_item(d, h, s.frontier, item) && item.previous is None,
        Stage::Checking(case) => case.item.entry == d.spot(case.item.entry.path),
        Stage::Verifying(case) => case.item.entry == d.spot(case.item.entry.path),
        Stage::Hinting(_) => false,
        Stage::Observing(_, _) => false,
        Stage::Measuring(job) => idle_cursor(s.measurements, job.cursor),
        Stage::Entering(item, _, _) => item.depth == (d.level)(item.entry.path),
        Stage::Done => false,
        _ => true,
    }
}

/// Whether the counters of entries are as they were, and nothing went wrong.
pub open spec fn uncounted(a: ScanState, b: ScanState) -> bool {
    &&& b.plan == a.plan
    &&& b.links == a.links
    &&& b.stats.entries == a.stats.entries
    &&& b.stats.files == a.stats.files
    &&& b.stats.directories == a.stats.directories
    &&& b.stats.logical_bytes == a.stats.logical_bytes
    &&& b.stats.allocated_bytes == a.stats.allocated_bytes
}

/// Whether a session went on from one that waits for nothing, with so much of a
/// path in hand.
pub open spec fn carried(d: Disk, h: World, a: ScanState, b: ScanState, x: Seq<u8>, n: int) -> bool {
    &&& uncounted(a, b)
    &&& fair(d, h, b)
    &&& fair_stage(d, h, b)
    &&& pending(d, h, b, x) == pending(d, h, a, x) + n
}

proof fn entered_frame(
    d: Disk,
    h: World,
    s: ScanState,
    item: ItemView,
    classify: bool,
    id: u64,
    x: Seq<u8>,
)
    requires
        fair(d, h, s),
        s.phase is Idle,
        item.depth == (d.level)(item.entry.path),
        unused(s.frontier, id),
        h.left[id] == (d.children)(item.entry.path),
    ensures
        carried(d, h, s, s.enter(item, classify, id), x, d.below(item.entry.path, x)),
        s.enter(item, classify, id).phase is Idle,
{
    let after = s.enter(item, classify, id);
    let f = frame_count(d, h, x);
    let frame = FrameView {
        path: item.entry.path,
        mark: super::state::FrameMark { id, depth: item.depth, classify, lane: item.lane },
    };
    assert(d.local(s.plan, item.entry.path));
    assert(fair_frame(d, h, frame));
    if s.frontier.len() < super::state::MAX_SHALLOW_FRONTIER {
        total_push(s.frontier, frame, f);
        assert forall|i: int| 0 <= i < after.frontier.len() implies fair_frame(
            d,
            h,
            #[trigger] after.frontier[i],
        ) by {
            if i < s.frontier.len() {
                assert(after.frontier[i] == s.frontier[i]);
            }
        }
    } else {
        total_concat(seq![frame], s.frontier, f);
        total_push(Seq::<FrameView>::empty(), frame, f);
        assert(seq![frame] =~= Seq::<FrameView>::empty().push(frame));
        assert forall|i: int| 0 <= i < after.frontier.len() implies fair_frame(
            d,
            h,
            #[trigger] after.frontier[i],
        ) by {
            if i > 0 {
                assert(after.frontier[i] == s.frontier[i - 1]);
            }
        }
    }
}

proof fn descend_carries(
    d: Disk,
    h: World,
    s: ScanState,
    item: ItemView,
    classify: bool,
    t: Tick,
    x: Seq<u8>,
)
    requires
        fair(d, h, s),
        s.phase is Idle,
        fair_item(d, h, s.frontier, item),
        item.previous is None,
    ensures
        carried(d, h, s, s.descend(item, classify, t), x, d.below(item.entry.path, x)),
{
    reveal(ScanState::descend);
    assert(d.local(s.plan, item.entry.path));
    if let Some(id) = item.opened {
        entered_frame(d, h, s, item, classify, id, x);
    }
}

proof fn begin_carries(d: Disk, h: World, s: ScanState, case: CaseView, t: Tick, x: Seq<u8>)
    requires
        fair(d, h, s),
        s.phase is Idle,
    ensures
        carried(d, h, s, s.begin(case, t), x, d.below(case.item.entry.path, x)),
{
    reveal(ScanState::begin);
}

proof fn checked_carries(d: Disk, h: World, s: ScanState, case: CaseView, t: Tick, x: Seq<u8>)
    requires
        fair(d, h, s),
        s.phase is Idle,
        case.item.entry == d.spot(case.item.entry.path),
    ensures
        carried(d, h, s, s.checked(case, t), x, d.below(case.item.entry.path, x)),
{
    reveal(ScanState::checked);
    begin_carries(d, h, s, case, t, x);
    let more = DeferredView { entry: case.item.entry, checks: case.checks };
    total_push(s.deferred, more, deferred_count(d, x));
}

proof fn recognized_carries(
    d: Disk,
    h: World,
    s: ScanState,
    item: ItemView,
    found: Found,
    t: Tick,
    x: Seq<u8>,
)
    requires
        fair(d, h, s),
        s.phase is Idle,
        item.entry == d.spot(item.entry.path),
    ensures
        carried(d, h, s, s.recognized(item, found, t), x, d.below(item.entry.path, x)),
{
    reveal(ScanState::recognized);
    reveal(ScanState::weighed);
    assert(!kept_below(s.plan.kept@, item.entry.path));
    let timed = s.with(s.stats.at(t.elapsed_ms));
    let candidate = first_sight(s.plan.root.id@, item.entry.path, item.entry.meta, found);
    match item.previous {
        Some(checks) => {
            checked_carries(d, h, timed, CaseView { item, candidate, checks }, t, x);
        },
        None => {
            let changed = item.entry.meta.identity.modified_ns as int;
            let quiet = calm(later(changed, found.latest), t.now_ns, found.quiet_days);
            checked_carries(
                d,
                h,
                timed,
                CaseView {
                    item,
                    candidate,
                    checks: ChecksView { found, quiet, blocked: found.blocked },
                },
                t,
                x,
            );
        },
    }
}

proof fn judged_carries(
    d: Disk,
    h: World,
    s: ScanState,
    item: ItemView,
    outcome: Result<Option<Found>, Seq<char>>,
    t: Tick,
    x: Seq<u8>,
)
    requires
        fair(d, h, s),
        s.phase is Idle,
        fair_item(d, h, s.frontier, item),
        item.previous is None,
    ensures
        carried(d, h, s, s.judged(item, outcome, t), x, d.below(item.entry.path, x)),
{
    reveal(ScanState::judged);
    let skipped = s.with(s.stats.skip());
    assert(fair(d, h, skipped));
    descend_carries(d, h, skipped, item, false, t, x);
    descend_carries(d, h, s, item, item.classify, t, x);
    if let Ok(Some(found)) = outcome {
        recognized_carries(d, h, s, item, found, t, x);
    }
}

/// Whether an entry was counted.
pub open spec fn counted_once(a: ScanState, b: ScanState, meta: EntryMeta) -> bool {
    &&& b.plan == a.plan
    &&& b.links == linked(a.links, meta, a.plan.root.identity.device)
    &&& ({
        let met = tallied(a.stats, a.links, meta, a.plan.root.identity.device);
        &&& b.stats.entries == met.entries
        &&& b.stats.files == met.files
        &&& b.stats.directories == met.directories
        &&& b.stats.logical_bytes == met.logical_bytes
        &&& b.stats.allocated_bytes == met.allocated_bytes
    })
}

proof fn looked_carries(
    d: Disk,
    h: World,
    s: ScanState,
    item: ItemView,
    facts: EntryFacts,
    t: Tick,
    x: Seq<u8>,
)
    requires
        fair(d, h, s),
        s.phase is Idle,
        fair_item(d, h, s.frontier, item),
        !facts.media,
        !facts.excluded,
        !facts.library,
    ensures
        ({
            let after = s.looked(item, facts, t);
            &&& fair(d, h, after)
            &&& fair_stage(d, h, after)
            &&& pending(d, h, after, x) == pending(d, h, s, x) + d.below(item.entry.path, x)
            &&& if item.previous is Some {
                uncounted(s, after)
            } else {
                counted_once(s, after, item.entry.meta)
            }
        }),
{
    reveal(ScanState::looked);
    let seen = ItemView { provider: facts.provider, ..item };
    let meta = seen.entry.meta;
    assert(d.local(s.plan, item.entry.path));
    assert(!kept_over(s.plan.kept@, item.entry.path));
    let counted = if seen.previous is Some {
        s
    } else {
        ScanState {
            stats: tallied(s.stats, s.links, meta, s.plan.root.identity.device),
            links: linked(s.links, meta, s.plan.root.identity.device),
            ..s
        }
    };
    assert(fair(d, h, counted));
    match seen.previous {
        Some(checks) => {
            recognized_carries(d, h, counted, seen, checks.found, t, x);
        },
        None => {
            descend_carries(d, h, counted, seen, seen.classify, t, x);
        },
    }
}

proof fn conclude_carries(
    d: Disk,
    h: World,
    s: ScanState,
    review: Review,
    quality: Option<Seq<char>>,
    x: Seq<u8>,
)
    requires
        fair(d, h, s),
        s.phase is Idle,
    ensures
        carried(d, h, s, s.conclude(review, quality), x, 0),
{
    reveal(ScanState::conclude);
}

proof fn untracked_carries(
    d: Disk,
    h: World,
    s: ScanState,
    review: Review,
    quality: Option<Seq<char>>,
    x: Seq<u8>,
)
    requires
        fair(d, h, s),
        s.phase is Idle,
    ensures
        carried(d, h, s, s.untracked(review, quality), x, 0),
        carried(d, h, s, s.unused(review, quality), x, 0),
{
    reveal(ScanState::untracked);
    reveal(ScanState::unused);
    conclude_carries(d, h, s, review, quality, x);
}

proof fn measured_carries(
    d: Disk,
    h: World,
    s: ScanState,
    job: JobView,
    measured: Measurement,
    t: Tick,
    x: Seq<u8>,
)
    requires
        fair(d, h, s),
        s.phase is Idle,
        measured.errors == 0,
    ensures
        carried(d, h, s, s.measured(job, Ok(measured), t), x, 0),
{
    reveal(ScanState::measured);
    reveal(ScanState::reviewed);
    let review = job.review;
    let timed = s.with(s.stats.at(t.elapsed_ms));
    let added = timed.with(
        Counters {
            skipped: capped(timed.stats.skipped + measured.skipped),
            errors: capped(timed.stats.errors + measured.errors),
            excluded_artifacts: if measured.pruned {
                capped(timed.stats.excluded_artifacts + 1)
            } else {
                timed.stats.excluded_artifacts
            },
            ..timed.stats
        },
    );
    assert(fair(d, h, added));
    let quality = if measured.pruned {
        Some(super::state::pruned_reason())
    } else {
        suggestion_outcome(
            review.found.rules,
            review.found.quiet_days,
            review.found.latest,
            measured.allocated_bytes,
            measured.latest_modified_ns as int,
            t.now_ns,
        )
    };
    let judged = Review {
        candidate: measured_sight(review.candidate, measured),
        blocked: match review.blocked {
            Some(reason) => Some(reason),
            None => text_view(measured.unsafe_reason),
        },
        ..review
    };
    untracked_carries(d, h, added, judged, quality, x);
    if let Some(leaf) = review.recent_leaf {
        let told = ScanState {
            press: added.press.tell(super::press::News::Remember(review.entry.path, leaf)),
            ..added
        };
        assert(fair(d, h, told));
        untracked_carries(d, h, told, judged, quality, x);
    }
}

proof fn recalled_carries(
    d: Disk,
    h: World,
    s: ScanState,
    review: Review,
    outcome: Result<Option<Found>, Seq<char>>,
    x: Seq<u8>,
)
    requires
        fair(d, h, s),
        s.phase is Idle,
    ensures
        carried(d, h, s, s.recalled(review, outcome), x, 0),
{
    reveal(ScanState::recalled);
    conclude_carries(d, h, s, review, None, x);
    conclude_carries(
        d,
        h,
        s,
        Review {
            blocked: Some("Project evidence changed during the scan; refresh this review"@),
            ..review
        },
        None,
        x,
    );
}

/// Whether frames are left as they were by a change of the world.
proof fn frames_unmoved(d: Disk, h: World, after: World, frontier: Seq<FrameView>, x: Seq<u8>)
    requires
        forall|i: int|
            0 <= i < frontier.len() ==> after.left[(#[trigger] frontier[i]).mark.id]
                == h.left[frontier[i].mark.id],
    ensures
        total(frontier, frame_count(d, after, x)) == total(frontier, frame_count(d, h, x)),
        forall|i: int|
            0 <= i < frontier.len() ==> (fair_frame(d, h, #[trigger] frontier[i]) == fair_frame(
                d,
                after,
                frontier[i],
            )),
{
    total_same(frontier, frame_count(d, after, x), frame_count(d, h, x));
    assert forall|i: int| 0 <= i < frontier.len() implies (fair_frame(d, h, #[trigger] frontier[i])
        == fair_frame(d, after, frontier[i])) by {
        assert(after.left[frontier[i].mark.id] == h.left[frontier[i].mark.id]);
    }
}

proof fn rotate_carries(d: Disk, h: World, s: ScanState, x: Seq<u8>)
    requires
        fair(d, h, s),
        s.phase is Idle,
        s.frontier.len() > 0,
    ensures
        carried(d, h, s, s.rotate(), x, 0),
        s.rotate().phase is Idle,
        s.rotate().frontier.len() > 0,
{
    reveal(ScanState::rotate);
    if s.plan.logical {
        if let Some((at, lane)) = lane_pick(
            s.frontier,
            s.plan.lanes as int,
            s.lane_turn as int,
            0,
        ) {
            super::confinement::lane_inside(
                s.frontier,
                s.plan.lanes as int,
                s.lane_turn as int,
                0,
            );
            let f = frame_count(d, h, x);
            let back = s.frontier.skip(at);
            let front = s.frontier.take(at);
            total_concat(front, back, f);
            total_concat(back, front, f);
            assert(s.frontier =~= front + back);
            let turned = back + front;
            let n = s.frontier.len() - at;
            assert forall|i: int| 0 <= i < turned.len() implies fair_frame(
                d,
                h,
                #[trigger] turned[i],
            ) by {
                if i < n {
                    assert(turned[i] == s.frontier[i + at]);
                } else {
                    assert(turned[i] == s.frontier[i - n]);
                }
            }
            assert forall|i: int, j: int| 0 <= i < j < turned.len() implies (
            #[trigger] turned[i]).mark.id != (#[trigger] turned[j]).mark.id by {
                let a = if i < n {
                    i + at
                } else {
                    i - n
                };
                let b = if j < n {
                    j + at
                } else {
                    j - n
                };
                assert(turned[i] == s.frontier[a]);
                assert(turned[j] == s.frontier[b]);
                if a < b {
                    assert(s.frontier[a].mark.id != s.frontier[b].mark.id);
                } else {
                    assert(s.frontier[b].mark.id != s.frontier[a].mark.id);
                }
            }
        }
    }
}

/// The end of a scan that met everything.
pub open spec fn ended(s: ScanState) -> bool {
    &&& s.phase is Done
    &&& !s.links.full ==> s.stats.errors == 0 && s.stats.complete && !s.stats.cancelled
}

proof fn turn_carries(d: Disk, h: World, s: ScanState, t: Tick, x: Seq<u8>)
    requires
        fair(d, h, s),
        s.phase is Idle,
        !t.cancel,
    ensures
        ({
            let after = s.turn(t);
            if after.phase is Done {
                pending(d, h, s, x) == 0 && uncounted(s, after) && ended(after)
            } else {
                carried(d, h, s, after, x, 0)
            }
        }),
{
    reveal(ScanState::turn);
    reveal(ScanState::explore);
    let p = s.pulse(t);
    assert(fair(d, h, p));
    assert(pending(d, h, p, x) == pending(d, h, s, x));
    if p.measures_now() {
        let first = p.measurements[0];
        let rest = p.measurements.skip(1);
        total_first(p.measurements, job_count(h, x));
        assert forall|i: int, j: int| 0 <= i < j < rest.len() implies (#[trigger] rest[i]).cursor
            != (#[trigger] rest[j]).cursor by {
            assert(rest[i] == p.measurements[i + 1]);
            assert(rest[j] == p.measurements[j + 1]);
        }
        assert forall|i: int| 0 <= i < rest.len() implies (#[trigger] rest[i]).cursor
            != first.cursor by {
            assert(rest[i] == p.measurements[i + 1]);
            assert(p.measurements[0].cursor != p.measurements[i + 1].cursor);
        }
    } else {
        let e = ScanState { measurement_turn: true, ..p };
        assert(fair(d, h, e));
        if e.deferred.len() > 0 && (e.deferred.len() == super::state::MAX_DEFERRED_ARTIFACTS || (
        e.next.len() == 0 && e.frontier.len() == 0)) {
            total_first(e.deferred, deferred_count(d, x));
            let rest = e.deferred.skip(1);
            assert forall|i: int| 0 <= i < rest.len() implies (#[trigger] rest[i]).entry == d.spot(
                rest[i].entry.path,
            ) by {
                assert(rest[i] == e.deferred[i + 1]);
            }
            assert(e.deferred[0].entry == d.spot(e.deferred[0].entry.path));
        } else if e.next.len() > 0 {
            total_first(e.next, start_count(d, x));
            let rest = e.next.skip(1);
            assert forall|i: int| 0 <= i < rest.len() implies (#[trigger] rest[i]).entry == d.spot(
                rest[i].entry.path,
            ) && (d.level)(rest[i].entry.path) == 0 by {
                assert(rest[i] == e.next[i + 1]);
            }
            assert(e.next[0].entry == d.spot(e.next[0].entry.path));
        } else if e.frontier.len() > 0 {
            rotate_carries(d, h, e, x);
        } else {
            reveal(ScanState::finish);
            assert(e.explored());
            assert(e.measurements.len() == 0);
        }
    }
}

/// What one entry less to list means.
proof fn listing_moves(d: Disk, h: World, s: ScanState, x: Seq<u8>)
    requires
        fair(d, h, s),
        s.frontier.len() > 0,
        h.left[s.frontier[0].mark.id].len() > 0,
    ensures
        ({
            let id = s.frontier[0].mark.id;
            let after = after_listing(h, id);
            &&& total(s.frontier, frame_count(d, h, x)) == total(
                s.frontier,
                frame_count(d, after, x),
            ) + (d.tree)(h.left[id][0]).count(x)
            &&& fair(d, after, s)
        }),
{
    let id = s.frontier[0].mark.id;
    let after = after_listing(h, id);
    let f = frame_count(d, h, x);
    let g = frame_count(d, after, x);
    let rest = s.frontier.skip(1);
    assert forall|i: int| 0 <= i < rest.len() implies after.left[(#[trigger] rest[i]).mark.id]
        == h.left[rest[i].mark.id] by {
        assert(rest[i] == s.frontier[i + 1]);
        assert(s.frontier[0].mark.id != s.frontier[i + 1].mark.id);
    }
    frames_unmoved(d, h, after, rest, x);
    total_first(s.frontier, f);
    total_first(s.frontier, g);
    total_first(h.left[id], d.at(x));
    assert forall|i: int| 0 <= i < s.frontier.len() implies fair_frame(
        d,
        after,
        #[trigger] s.frontier[i],
    ) by {
        assert(fair_frame(d, h, s.frontier[i]));
        if i > 0 {
            assert(rest[i - 1] == s.frontier[i]);
        } else {
            let left = after.left[id];
            assert forall|k: int| 0 <= k < left.len() implies (d.level)(#[trigger] left[k])
                == s.frontier[0].mark.depth + 1 by {
                assert(left[k] == h.left[id][k + 1]);
            }
        }
    }
}

proof fn listed_carries(
    d: Disk,
    h: World,
    s: ScanState,
    listing: Listing,
    t: Tick,
    after: World,
    x: Seq<u8>,
)
    requires
        fair(d, h, s),
        s.phase is Idle,
        s.frontier.len() > 0,
        served(
            d,
            h,
            ScanState { phase: Stage::Reading, ..s },
            Event::Listed(Ok(listing)),
            after,
        ),
    ensures
        ({
            let next = s.listed(Ok(listing), t);
            &&& uncounted(s, next)
            &&& fair(d, after, next)
            &&& fair_stage(d, after, next)
            &&& pending(d, after, next, x) == pending(d, h, s, x)
        }),
{
    reveal(ScanState::listed);
    let id = s.frontier[0].mark.id;
    assert(fair_frame(d, h, s.frontier[0]));
    assert(d.local(s.plan, s.frontier[0].path));
    match listing.found {
        Listed::Nothing => {
            if listing.finished {
                total_first(s.frontier, frame_count(d, h, x));
                let rest = s.frontier.skip(1);
                assert forall|i: int| 0 <= i < rest.len() implies fair_frame(
                    d,
                    h,
                    #[trigger] rest[i],
                ) by {
                    assert(rest[i] == s.frontier[i + 1]);
                }
                assert forall|i: int, j: int| 0 <= i < j < rest.len() implies (
                #[trigger] rest[i]).mark.id != (#[trigger] rest[j]).mark.id by {
                    assert(rest[i] == s.frontier[i + 1]);
                    assert(rest[j] == s.frontier[j + 1]);
                }
            }
        },
        Listed::Directory(path) => {
            listing_moves(d, h, s, x);
            assert(!kept_over(s.plan.kept@, path@));
            assert((d.level)(h.left[id][0]) == s.frontier[0].mark.depth + 1);
        },
        Listed::Entry(entry) => {
            listing_moves(d, h, s, x);
            assert((d.level)(h.left[id][0]) == s.frontier[0].mark.depth + 1);
        },
    }
}

/// A folder with a handle that no other has.
proof fn opening_moves(d: Disk, h: World, s: ScanState, id: u64, p: Seq<u8>, x: Seq<u8>)
    requires
        fair(d, h, s),
        unused(s.frontier, id),
    ensures
        ({
            let after = after_opening(d, h, id, p);
            &&& fair(d, after, s)
            &&& total(s.frontier, frame_count(d, after, x)) == total(
                s.frontier,
                frame_count(d, h, x),
            )
            &&& total(s.measurements, job_count(after, x)) == total(s.measurements, job_count(h, x))
        }),
{
    let after = after_opening(d, h, id, p);
    frames_unmoved(d, h, after, s.frontier, x);
    total_same(s.measurements, job_count(after, x), job_count(h, x));
}

proof fn entered_carries(
    d: Disk,
    h: World,
    s: ScanState,
    path: Seq<u8>,
    pair: (Entry, Option<u64>),
    t: Tick,
    after: World,
    x: Seq<u8>,
)
    requires
        fair(d, h, s),
        s.phase is Idle,
        s.frontier.len() > 0,
        (d.level)(path) == s.frontier[0].mark.depth + 1,
        served(
            d,
            h,
            ScanState { phase: Stage::Opening(path), ..s },
            Event::Entered(Ok(pair)),
            after,
        ),
    ensures
        ({
            let next = s.entered(Ok(pair), t);
            &&& uncounted(s, next)
            &&& fair(d, after, next)
            &&& fair_stage(d, after, next)
            &&& pending(d, after, next, x) == pending(d, h, s, x) + (d.tree)(path).count(x)
        }),
{
    reveal(ScanState::entered);
    assert(d.local(s.plan, path));
    if let Some(id) = pair.1 {
        opening_moves(d, h, s, id, path, x);
    }
}

proof fn opened_carries(
    d: Disk,
    h: World,
    s: ScanState,
    item: ItemView,
    classify: bool,
    id: u64,
    t: Tick,
    x: Seq<u8>,
)
    requires
        fair(d, h, s),
        s.phase is Idle,
        item.depth == (d.level)(item.entry.path),
        unused(s.frontier, id),
    ensures
        ({
            let after = after_opening(d, h, id, item.entry.path);
            let next = s.opened(item, classify, Ok(id), t);
            &&& uncounted(s, next)
            &&& fair(d, after, next)
            &&& fair_stage(d, after, next)
            &&& pending(d, after, next, x) == pending(d, h, s, x) + d.below(item.entry.path, x)
        }),
{
    reveal(ScanState::opened);
    let after = after_opening(d, h, id, item.entry.path);
    opening_moves(d, h, s, id, item.entry.path, x);
    entered_frame(d, after, s, item, classify, id, x);
}

proof fn seen_carries(
    d: Disk,
    h: World,
    s: ScanState,
    job: JobView,
    entry: Spot,
    partial: Measurement,
    t: Tick,
    after: World,
    x: Seq<u8>,
)
    requires
        fair(d, h, s),
        s.phase is Idle,
        idle_cursor(s.measurements, job.cursor),
        if same_place(entry.path, job.review.entry.path) {
            after == h
        } else {
            &&& h.inside[job.cursor].count(entry.path) > 0
            &&& entry == d.spot(entry.path)
            &&& after == (World {
                inside: h.inside.insert(job.cursor, h.inside[job.cursor].remove(entry.path)),
                ..h
            })
        },
    ensures
        ({
            let next = s.seen(job, entry, partial, t);
            let met = !same_place(entry.path, job.review.entry.path);
            &&& fair(d, after, next)
            &&& fair_stage(d, after, next)
            &&& pending(d, after, next, x) + (if met && x == entry.path {
                1int
            } else {
                0
            }) == pending(d, h, s, x) + h.inside[job.cursor].count(x)
            &&& if met {
                counted_once(s, next, entry.meta)
            } else {
                uncounted(s, next)
            }
        }),
{
    reveal(ScanState::seen);
    assert(d.local(s.plan, entry.path));
    frames_unmoved(d, h, after, s.frontier, x);
    total_same(s.measurements, job_count(after, x), job_count(h, x));
}

proof fn started_carries(
    d: Disk,
    h: World,
    s: ScanState,
    review: Review,
    cursor: u64,
    t: Tick,
    after: World,
    x: Seq<u8>,
)
    requires
        fair(d, h, s),
        s.phase is Idle,
        review.weight() <= MAX_MEASUREMENT_JOB_BYTES,
        idle_cursor(s.measurements, cursor),
        after.left == h.left,
        after.inside[cursor].count(x) == d.below(review.entry.path, x),
        forall|c: u64| c != cursor ==> #[trigger] after.inside[c] == h.inside[c],
    ensures
        ({
            let next = s.started(review, Ok(cursor), t);
            &&& uncounted(s, next)
            &&& fair(d, after, next)
            &&& fair_stage(d, after, next)
            &&& pending(d, after, next, x) == pending(d, h, s, x) + d.below(review.entry.path, x)
        }),
{
    reveal(ScanState::started);
    frames_unmoved(d, h, after, s.frontier, x);
    assert forall|i: int| 0 <= i < s.measurements.len() implies job_count(after, x)(
        #[trigger] s.measurements[i],
    ) == job_count(h, x)(s.measurements[i]) by {
        assert(s.measurements[i].cursor != cursor);
    }
    total_same(s.measurements, job_count(after, x), job_count(h, x));
    total_push(s.measurements, JobView { review, cursor }, job_count(after, x));
}

/// The entry that an answer lets a session meet, if it does.
pub open spec fn met_by(s: ScanState, event: Event) -> Option<Seq<u8>> {
    match (s.phase, event) {
        (Stage::Looking(item), Event::Facts(_)) => if item.previous is None {
            Some(item.entry.path)
        } else {
            None
        },
        (Stage::Measuring(job), Event::Seen(entry, _)) => if !same_place(
            entry@.path,
            job.review.entry.path,
        ) {
            Some(entry@.path)
        } else {
            None
        },
        _ => None,
    }
}

/// How often a path was met by that.
pub open spec fn met_count(met: Option<Seq<u8>>, x: Seq<u8>) -> int {
    if met == Some(x) {
        1
    } else {
        0
    }
}

/// Whether a session went on as it should: what was to be met is to be met still,
/// but for what was met; and what was met was counted.
pub open spec fn progressed(
    d: Disk,
    h: World,
    after: World,
    s: ScanState,
    next: ScanState,
    met: Option<Seq<u8>>,
    x: Seq<u8>,
) -> bool {
    if next.phase is Done {
        &&& met is None
        &&& pending(d, h, s, x) == 0
        &&& uncounted(s, next)
        &&& ended(next)
    } else {
        &&& fair(d, after, next)
        &&& fair_stage(d, after, next)
        &&& pending(d, h, s, x) == pending(d, after, next, x) + met_count(met, x)
        &&& match met {
            Some(p) => counted_once(s, next, (d.meta)(p)),
            None => uncounted(s, next),
        }
    }
}

#[verifier::rlimit(60)]
pub(crate) proof fn every_answer_progresses(
    d: Disk,
    h: World,
    s: ScanState,
    event: Event,
    t: Tick,
    after: World,
    x: Seq<u8>,
)
    requires
        fair(d, h, s),
        fair_stage(d, h, s),
        served(d, h, s, event, after),
        !t.cancel,
    ensures
        progressed(d, h, after, s, s.step(event, t), met_by(s, event), x),
{
    reveal(ScanState::answered);
    let at = ScanState { press: Press { due: t.due, ..s.press }, phase: Stage::Idle, ..s };
    assert(fair(d, h, at));
    assert(pending(d, h, s, x) == pending(d, h, at, x) + stage_count(d, h, s.phase, x));
    match (s.phase, event) {
        (Stage::Idle, Event::Proceed) => {
            turn_carries(d, h, at, t, x);
        },
        (Stage::Reading, Event::Listed(outcome)) => {
            listed_carries(d, h, at, outcome->Ok_0, t, after, x);
        },
        (Stage::Opening(path), Event::Entered(outcome)) => {
            entered_carries(d, h, at, path, outcome->Ok_0, t, after, x);
        },
        (Stage::Looking(item), Event::Facts(facts)) => {
            looked_carries(d, h, at, item, facts, t, x);
            assert((d.tree)(item.entry.path).count(x) == d.below(item.entry.path, x) + if x
                == item.entry.path {
                1int
            } else {
                0
            });
        },
        (Stage::Judging(item), Event::Evidence(outcome)) => {
            judged_carries(d, h, at, item, outcome_view(outcome), t, x);
        },
        (Stage::Checking(case), Event::Activity(reason)) => {
            checked_carries(
                d,
                h,
                at,
                CaseView {
                    checks: ChecksView { blocked: text_view(reason), ..case.checks },
                    ..case
                },
                t,
                x,
            );
        },
        (Stage::Verifying(case), Event::Verified(outcome)) => {
            reveal(ScanState::verified);
            begin_carries(d, h, at, case, t, x);
        },
        (Stage::Starting(review, _), Event::Cursor(outcome)) => {
            started_carries(d, h, at, review, outcome->Ok_0, t, after, x);
        },
        (Stage::Measuring(job), Event::Seen(entry, partial)) => {
            seen_carries(d, h, at, job, entry@, partial, t, after, x);
        },
        (Stage::Measuring(job), Event::Pending) => {
            total_push(at.measurements, job, job_count(h, x));
        },
        (Stage::Measuring(job), Event::Measured(outcome)) => {
            measured_carries(d, h, at, job, outcome->Ok_0, t, x);
        },
        (Stage::Tracking(review), Event::Git(reason)) => {
            untracked_carries(d, h, at, Review { blocked: text_view(reason), ..review }, None, x);
        },
        (Stage::Using(review), Event::Activity(reason)) => {
            untracked_carries(d, h, at, Review { blocked: text_view(reason), ..review }, None, x);
        },
        (Stage::Recalling(review), Event::Evidence(outcome)) => {
            recalled_carries(d, h, at, review, outcome_view(outcome), x);
        },
        (Stage::Entering(item, classify, _), Event::Opened(outcome)) => {
            opened_carries(d, h, at, item, classify, outcome->Ok_0, t, x);
        },
        _ => {},
    }
}

/// What a traversal counts: entries, files and folders, and bytes, where a file
/// with several names counts once.
#[verifier::ext_equal]
pub struct Account {
    pub entries: int,
    pub files: int,
    pub directories: int,
    pub logical: int,
    pub allocated: int,
    pub seen: Set<u128>,
}

pub open spec fn nothing_counted() -> Account {
    Account { entries: 0, files: 0, directories: 0, logical: 0, allocated: 0, seen: Set::empty() }
}

/// An account with one more entry.
pub open spec fn noted(d: Disk) -> spec_fn(Account, Seq<u8>) -> Account {
    |a: Account, p: Seq<u8>|
        {
            let meta = (d.meta)(p);
            let key = link_key(meta.identity);
            if meta.dir() {
                Account { entries: a.entries + 1, directories: a.directories + 1, ..a }
            } else if meta.links <= 1 {
                Account {
                    entries: a.entries + 1,
                    files: a.files + 1,
                    logical: a.logical + meta.identity.size,
                    allocated: a.allocated + meta.allocated,
                    ..a
                }
            } else if a.seen.contains(key) {
                Account { entries: a.entries + 1, files: a.files + 1, ..a }
            } else {
                Account {
                    entries: a.entries + 1,
                    files: a.files + 1,
                    logical: a.logical + (d.bytes)(key),
                    allocated: a.allocated + (d.blocks)(key),
                    seen: a.seen.insert(key),
                    ..a
                }
            }
        }
}

/// What a traversal counts that meets these entries, one after the other.
pub open spec fn account(d: Disk, walk: Seq<Seq<u8>>) -> Account {
    walk.fold_left(nothing_counted(), noted(d))
}

proof fn accounts_commute(d: Disk)
    ensures
        vstd::seq_lib::commutative_foldl(noted(d)),
{
    let f = noted(d);
    assert forall|x: Seq<u8>, y: Seq<u8>, v: Account| #[trigger] f(f(v, x), y) == f(f(v, y), x) by {
        assert(f(f(v, x), y).seen =~= f(f(v, y), x).seen);
        assert(f(f(v, x), y) =~= f(f(v, y), x));
    }
}

/// The order of a traversal does not matter.
pub proof fn traversals_agree(d: Disk, a: Seq<Seq<u8>>, b: Seq<Seq<u8>>)
    requires
        a.to_multiset() == b.to_multiset(),
    ensures
        account(d, a) == account(d, b),
{
    accounts_commute(d);
    vstd::seq_lib::lemma_fold_left_permutation(a, b, noted(d), nothing_counted());
}

/// Whether counters are those of an account, as far as they can count. Where the
/// room to tell files with several names apart is used up, there are more of them.
pub open spec fn accounted(s: ScanState, a: Account, limit: usize) -> bool {
    &&& a.seen.finite()
    &&& s.links.limit == limit
    &&& s.links.full ==> a.seen.len() > limit
    &&& a.entries >= 0 && a.files >= 0 && a.directories >= 0 && a.logical >= 0 && a.allocated
        >= 0
    &&& s.stats.entries == capped(a.entries)
    &&& s.stats.files == capped(a.files)
    &&& s.stats.directories == capped(a.directories)
    &&& !s.links.full ==> s.links.seen == a.seen && s.stats.logical_bytes == capped(a.logical)
        && s.stats.allocated_bytes == capped(a.allocated)
}

proof fn counting_accounts(
    d: Disk,
    s: ScanState,
    next: ScanState,
    p: Seq<u8>,
    walk: Seq<Seq<u8>>,
    limit: usize,
)
    requires
        d.local(s.plan, p),
        accounted(s, account(d, walk), limit),
        counted_once(s, next, (d.meta)(p)),
    ensures
        accounted(next, account(d, walk.push(p)), limit),
{
    reveal_with_fuel(Seq::fold_left, 2);
    assert(walk.push(p).drop_last() =~= walk);
    assert(account(d, walk.push(p)) == noted(d)(account(d, walk), p));
}

/// All that some answers let a session meet, in that order.
pub open spec fn met_along(s: ScanState, answers: Seq<(Event, Tick)>) -> Seq<Seq<u8>>
    decreases answers.len(),
{
    if answers.len() == 0 {
        seq![]
    } else {
        let front = answers.drop_last();
        match met_by(after_answers(s, front), answers.last().0) {
            Some(p) => met_along(s, front).push(p),
            None => met_along(s, front),
        }
    }
}

/// Whether all answers are the location's, and none cancels.
pub open spec fn all_served(
    d: Disk,
    s: ScanState,
    answers: Seq<(Event, Tick)>,
    worlds: Seq<World>,
) -> bool {
    &&& worlds.len() == answers.len() + 1
    &&& forall|i: int|
        0 <= i < answers.len() ==> !(#[trigger] answers[i]).1.cancel && served(
            d,
            worlds[i],
            after_answers(s, answers.take(i)),
            answers[i].0,
            worlds[i + 1],
        )
}

/// What holds all along: what was met and what is to be met are together all that
/// there is, and what was met was counted.
pub open spec fn covered_so_far(
    d: Disk,
    h: World,
    s: ScanState,
    met: Seq<Seq<u8>>,
    all: Multiset<Seq<u8>>,
    limit: usize,
) -> bool {
    &&& accounted(s, account(d, met), limit)
    &&& if s.phase is Done {
        ended(s) && forall|x: Seq<u8>| met.to_multiset().count(x) == #[trigger] all.count(x)
    } else {
        fair(d, h, s) && fair_stage(d, h, s) && forall|x: Seq<u8>|
            met.to_multiset().count(x) + pending(d, h, s, x) == #[trigger] all.count(x)
    }
}

proof fn one_answer_covers(
    d: Disk,
    h: World,
    s: ScanState,
    event: Event,
    t: Tick,
    after: World,
    met: Seq<Seq<u8>>,
    all: Multiset<Seq<u8>>,
    limit: usize,
)
    requires
        covered_so_far(d, h, s, met, all, limit),
        served(d, h, s, event, after),
        !t.cancel,
    ensures
        covered_so_far(
            d,
            after,
            s.step(event, t),
            match met_by(s, event) {
                Some(p) => met.push(p),
                None => met,
            },
            all,
            limit,
        ),
{
    broadcast use vstd::seq_lib::group_to_multiset_ensures;

    let next = s.step(event, t);
    let more = match met_by(s, event) {
        Some(p) => met.push(p),
        None => met,
    };
    if s.phase is Done {
        super::promises::finished_scans_stay_finished(s, event, t);
        reveal(ScanState::answered);
    } else {
        every_answer_progresses(d, h, s, event, t, after, seq![]);
        if let Some(p) = met_by(s, event) {
            assert(d.local(s.plan, p));
            counting_accounts(d, s, next, p, met, limit);
        }
        assert forall|x: Seq<u8>| more.to_multiset().count(x) + (if next.phase is Done {
            0
        } else {
            pending(d, after, next, x)
        }) == #[trigger] all.count(x) by {
            every_answer_progresses(d, h, s, event, t, after, x);
            assert(met.to_multiset().count(x) + pending(d, h, s, x) == all.count(x));
        }
    }
}

proof fn answers_cover(
    d: Disk,
    s: ScanState,
    answers: Seq<(Event, Tick)>,
    worlds: Seq<World>,
    all: Multiset<Seq<u8>>,
    limit: usize,
)
    requires
        all_served(d, s, answers, worlds),
        covered_so_far(d, worlds[0], s, seq![], all, limit),
    ensures
        covered_so_far(
            d,
            worlds.last(),
            after_answers(s, answers),
            met_along(s, answers),
            all,
            limit,
        ),
    decreases answers.len(),
{
    let n = answers.len() as int;
    if n > 0 {
        let front = answers.drop_last();
        let before = worlds.drop_last();
        assert(answers.take(n - 1) =~= front);
        assert forall|i: int| 0 <= i < front.len() implies !(#[trigger] front[i]).1.cancel && served(
            d,
            before[i],
            after_answers(s, front.take(i)),
            front[i].0,
            before[i + 1],
        ) by {
            assert(front[i] == answers[i]);
            assert(front.take(i) =~= answers.take(i));
        }
        answers_cover(d, s, front, before, all, limit);
        assert(!answers[n - 1].1.cancel);
        one_answer_covers(
            d,
            worlds[n - 1],
            after_answers(s, front),
            answers[n - 1].0,
            answers[n - 1].1,
            worlds[n],
            met_along(s, front),
            all,
            limit,
        );
    }
}

/// Metadata coverage of a whole location that holds only local folders and regular
/// files, with nothing kept, excluded or changing: a scan that ends is complete,
/// and its counters are those of any other traversal that meets every entry once,
/// a file with several names among them counting its bytes once. What its
/// artifacts are taken for, and how many of them are put off, makes no difference.
/// Only the room to tell files with several names apart must suffice for those of
/// the location.
pub proof fn metadata_coverage_counts_like_any_traversal(
    d: Disk,
    plan: Plan,
    limit: usize,
    answers: Seq<(Event, Tick)>,
    worlds: Seq<World>,
    walk: Seq<Seq<u8>>,
)
    requires
        covering(plan),
        d.plain(plan),
        (d.level)(plan.root.path@) == 0,
        ({
            let links = LinkState { seen: Set::empty(), limit, full: false };
            let root = StartView { entry: d.spot(plan.root.path@), lane: 0 };
            let start = fresh(plan, links, Opening { skipped: 0, errors: 0, next: seq![root] });
            &&& all_served(d, start, answers, worlds)
            &&& after_answers(start, answers).phase is Done
        }),
        walk.to_multiset() == (d.tree)(plan.root.path@),
        account(d, walk).seen.len() <= limit,
    ensures
        ({
            let links = LinkState { seen: Set::empty(), limit, full: false };
            let root = StartView { entry: d.spot(plan.root.path@), lane: 0 };
            let start = fresh(plan, links, Opening { skipped: 0, errors: 0, next: seq![root] });
            let stats = after_answers(start, answers).stats;
            &&& stats.complete
            &&& stats.errors == 0
            &&& !stats.cancelled
            &&& stats.entries == capped(account(d, walk).entries)
            &&& stats.files == capped(account(d, walk).files)
            &&& stats.directories == capped(account(d, walk).directories)
            &&& stats.logical_bytes == capped(account(d, walk).logical)
            &&& stats.allocated_bytes == capped(account(d, walk).allocated)
        }),
{
    broadcast use vstd::seq_lib::group_to_multiset_ensures;

    let links = LinkState { seen: Set::empty(), limit, full: false };
    let root = StartView { entry: d.spot(plan.root.path@), lane: 0 };
    let start = fresh(plan, links, Opening { skipped: 0, errors: 0, next: seq![root] });
    let all = (d.tree)(plan.root.path@);
    let h = worlds[0];
    let none: Seq<Seq<u8>> = seq![];
    assert forall|x: Seq<u8>| none.to_multiset().count(x) + pending(d, h, start, x)
        == #[trigger] all.count(x) by {
        total_push(Seq::<StartView>::empty(), root, start_count(d, x));
        assert(start.next =~= Seq::<StartView>::empty().push(root));
        assert(none.to_multiset() =~= Multiset::empty());
    }
    assert(account(d, none) == nothing_counted()) by {
        reveal_with_fuel(Seq::fold_left, 2);
    }
    answers_cover(d, start, answers, worlds, all, limit);
    let met = met_along(start, answers);
    assert(met.to_multiset() =~= walk.to_multiset()) by {
        assert forall|x: Seq<u8>| met.to_multiset().count(x) == walk.to_multiset().count(x) by {
            assert(all.count(x) == met.to_multiset().count(x));
        }
    }
    traversals_agree(d, met, walk);
}

/// Counting the entries of a traversal is counting their names.
pub proof fn an_account_counts_every_entry(d: Disk, walk: Seq<Seq<u8>>)
    ensures
        account(d, walk).entries == walk.len(),
        account(d, walk).entries == account(d, walk).files + account(d, walk).directories,
    decreases walk.len(),
{
    reveal_with_fuel(Seq::fold_left, 2);
    if walk.len() > 0 {
        an_account_counts_every_entry(d, walk.drop_last());
    }
}

} // verus!
