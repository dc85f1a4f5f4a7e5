//! A discovery session: what it holds, what it waits for, and how each answer
//! moves it on.
use super::press::{News, Press, Publisher};
use super::review::{
    outcome_view, recent_local, ArtifactReview, Review, MAX_MEASUREMENT_JOB_BYTES,
};
use crate::classify::{artifact_path, conditional_path};
use crate::evidence::{
    cutoff, recent_reason, suggestion_outcome, text_view, unfinished_below, Evidence, Found,
    Measurement, DEVELOPER_QUIET_DAYS,
};
use crate::model::{capped, Candidate, Entry, EntryMeta, Root, ScanStats};
use crate::paths::{same_place, strictly_under, under, FsPath};
use crate::sightings::{
    first_sight, linked, measured_sight, tallied, Counters, Hardlinks, LinkState, Sighting, Spot,
};
use crate::sources::later;
use crate::text::{digits, signed_digits};
use vstd::prelude::*;

verus! {

/// How many folders are read side by side before discovery goes deep.
pub const MAX_SHALLOW_FRONTIER: usize = 32;

/// How many artifacts wait for metadata coverage.
pub const MAX_DEFERRED_ARTIFACTS: usize = 256;

/// How many places one scan may start from.
pub const MAX_SCAN_LANES: usize = 4;

/// How many measurements are open at a time.
pub const MAX_ACTIVE_MEASUREMENTS: usize = 2;

/// Interactive discovery stops at artifact boundaries which cannot produce a
/// recommendation. Exhaustive metadata coverage remains available explicitly.
#[derive(Clone, Copy, Debug, Default, Eq, PartialEq, Structural)]
pub enum ScanMode {
    #[default]
    Suggestions,
    MetadataCoverage,
}

/// What holds for a whole scan.
pub struct Plan {
    pub root: Root,
    pub kept: Vec<FsPath>,
    pub mode: ScanMode,
    pub downloads: Option<FsPath>,
    /// How many places the scan starts from.
    pub lanes: usize,
    /// Whether these are separate places within one authorized location.
    pub logical: bool,
    /// How deep discovery goes.
    pub max_depth: usize,
    /// Whether recently changed files are remembered between scans.
    pub hints: bool,
    /// The user whose files count as local.
    pub user: u32,
}

/// A folder that is being read. The number stands for its open handle.
#[derive(Clone, Copy, Debug, PartialEq, Eq, Structural)]
pub struct FrameMark {
    pub id: u64,
    pub depth: usize,
    pub classify: bool,
    pub lane: usize,
}

/// A folder that is being read.
pub struct Frame {
    pub path: FsPath,
    pub mark: FrameMark,
}

#[verifier::ext_equal]
pub struct FrameView {
    pub path: Seq<u8>,
    pub mark: FrameMark,
}

impl View for Frame {
    type V = FrameView;

    open spec fn view(&self) -> FrameView {
        FrameView { path: self.path@, mark: self.mark }
    }
}

/// A place to start from.
pub struct Start {
    pub entry: Entry,
    pub lane: usize,
}

#[verifier::ext_equal]
pub struct StartView {
    pub entry: Spot,
    pub lane: usize,
}

impl View for Start {
    type V = StartView;

    open spec fn view(&self) -> StartView {
        StartView { entry: self.entry@, lane: self.lane }
    }
}

/// What was found out about an artifact that waits for metadata coverage.
pub struct Checks {
    pub found: Evidence,
    pub quiet: bool,
    pub blocked: Option<String>,
}

#[verifier::ext_equal]
pub struct ChecksView {
    pub found: Found,
    pub quiet: bool,
    pub blocked: Option<Seq<char>>,
}

impl View for Checks {
    type V = ChecksView;

    open spec fn view(&self) -> ChecksView {
        ChecksView { found: self.found@, quiet: self.quiet, blocked: text_view(self.blocked) }
    }
}

/// An artifact that waits for metadata coverage.
pub struct DeferredArtifact {
    pub entry: Entry,
    pub checks: Checks,
}

#[verifier::ext_equal]
pub struct DeferredView {
    pub entry: Spot,
    pub checks: ChecksView,
}

impl View for DeferredArtifact {
    type V = DeferredView;

    open spec fn view(&self) -> DeferredView {
        DeferredView { entry: self.entry@, checks: self.checks@ }
    }
}

/// A measurement under way. The number stands for its cursor.
pub struct ArtifactMeasurement {
    pub review: ArtifactReview,
    pub cursor: u64,
}

#[verifier::ext_equal]
pub struct JobView {
    pub review: Review,
    pub cursor: u64,
}

impl View for ArtifactMeasurement {
    type V = JobView;

    open spec fn view(&self) -> JobView {
        JobView { review: self.review@, cursor: self.cursor }
    }
}

/// An entry that is being decided on.
pub struct Item {
    pub entry: Entry,
    pub depth: usize,
    pub classify: bool,
    pub lane: usize,
    /// The handle of the folder, where reading its parent opened it.
    pub opened: Option<u64>,
    /// Whether a provider of build artifacts knows the name.
    pub provider: bool,
    /// What was found before the artifact was deferred.
    pub previous: Option<Checks>,
}

#[verifier::ext_equal]
pub struct ItemView {
    pub entry: Spot,
    pub depth: usize,
    pub classify: bool,
    pub lane: usize,
    pub opened: Option<u64>,
    pub provider: bool,
    pub previous: Option<ChecksView>,
}

pub open spec fn checks_view(previous: Option<Checks>) -> Option<ChecksView> {
    match previous {
        Some(checks) => Some(checks@),
        None => None,
    }
}

impl View for Item {
    type V = ItemView;

    open spec fn view(&self) -> ItemView {
        ItemView {
            entry: self.entry@,
            depth: self.depth,
            classify: self.classify,
            lane: self.lane,
            opened: self.opened,
            provider: self.provider,
            previous: checks_view(self.previous),
        }
    }
}

/// A recognized artifact before it is measured.
pub struct Case {
    pub item: Item,
    pub candidate: Candidate,
    pub checks: Checks,
}

#[verifier::ext_equal]
pub struct CaseView {
    pub item: ItemView,
    pub candidate: Sighting,
    pub checks: ChecksView,
}

impl View for Case {
    type V = CaseView;

    open spec fn view(&self) -> CaseView {
        CaseView { item: self.item@, candidate: self.candidate@, checks: self.checks@ }
    }
}

/// How an artifact is measured: up to the point where no recommendation can come
/// of it, in full, or for its metadata alone.
#[derive(Clone, Copy, Debug, PartialEq, Eq, Structural)]
pub enum Effort {
    Suggestion,
    Full,
    Metadata,
}

/// What a session waits for.
pub enum Phase {
    /// The next turn.
    Idle,
    /// The next entry of the first folder.
    Reading,
    /// A folder found while reading, opened.
    Opening(FsPath),
    /// What the place of an entry says of it.
    Looking(Item),
    /// What the entry is.
    Judging(Item),
    /// Whether its project is in use.
    Checking(Case),
    /// Whether an artifact that waited is still what it was.
    Verifying(Case),
    /// A file to look at first.
    Hinting(Case),
    /// The metadata of that file.
    Observing(Case, FsPath),
    /// A cursor for the measurement.
    Starting(ArtifactReview, Effort),
    /// The next step of a measurement.
    Measuring(ArtifactMeasurement),
    /// Whether its repository tracks any of it.
    Tracking(ArtifactReview),
    /// Whether its project is in use, after the measurement.
    Using(ArtifactReview),
    /// What the artifact is, after the measurement.
    Recalling(ArtifactReview),
    /// The folder opened, as a child of the folder with this handle or by path.
    Entering(Item, bool, Option<u64>),
    /// Nothing more.
    Done,
}

#[verifier::ext_equal]
pub enum Stage {
    Idle,
    Reading,
    Opening(Seq<u8>),
    Looking(ItemView),
    Judging(ItemView),
    Checking(CaseView),
    Verifying(CaseView),
    Hinting(CaseView),
    Observing(CaseView, Seq<u8>),
    Starting(Review, Effort),
    Measuring(JobView),
    Tracking(Review),
    Using(Review),
    Recalling(Review),
    Entering(ItemView, bool, Option<u64>),
    Done,
}

impl View for Phase {
    type V = Stage;

    open spec fn view(&self) -> Stage {
        match self {
            Phase::Idle => Stage::Idle,
            Phase::Reading => Stage::Reading,
            Phase::Opening(path) => Stage::Opening(path@),
            Phase::Looking(item) => Stage::Looking(item@),
            Phase::Judging(item) => Stage::Judging(item@),
            Phase::Checking(case) => Stage::Checking(case@),
            Phase::Verifying(case) => Stage::Verifying(case@),
            Phase::Hinting(case) => Stage::Hinting(case@),
            Phase::Observing(case, path) => Stage::Observing(case@, path@),
            Phase::Starting(review, effort) => Stage::Starting(review@, *effort),
            Phase::Measuring(job) => Stage::Measuring(job@),
            Phase::Tracking(review) => Stage::Tracking(review@),
            Phase::Using(review) => Stage::Using(review@),
            Phase::Recalling(review) => Stage::Recalling(review@),
            Phase::Entering(item, classify, from) => Stage::Entering(item@, *classify, *from),
            Phase::Done => Stage::Done,
        }
    }
}

/// What reading a folder gave.
pub enum Listed {
    Nothing,
    /// A folder whose metadata was not read.
    Directory(FsPath),
    Entry(Entry),
}

pub struct Listing {
    pub files: u64,
    pub skipped: u64,
    pub metadata_skipped: u64,
    pub found: Listed,
    pub finished: bool,
    /// Whether a finished folder changed while it was read.
    pub changed: bool,
}

/// What the place and the name of an entry say of it.
#[derive(Clone, Copy, Debug, PartialEq, Eq, Structural)]
pub struct EntryFacts {
    /// Whether it belongs to the media libraries of a home folder.
    pub media: bool,
    /// Whether entries of this name are never looked at.
    pub excluded: bool,
    /// Whether it lies in one of the library's own areas.
    pub library: bool,
    /// Whether such an area may be entered there.
    pub route_allowed: bool,
    /// Whether a provider of build artifacts knows the name.
    pub provider: bool,
}

/// An answer to what a session waits for.
pub enum Event {
    Proceed,
    Listed(Result<Listing, String>),
    Entered(Result<(Entry, Option<u64>), String>),
    Facts(EntryFacts),
    Evidence(Result<Option<Evidence>, String>),
    Activity(Option<String>),
    Verified(Result<(), String>),
    Hint(Option<FsPath>),
    Observed(Option<EntryMeta>),
    Cursor(Result<u64, String>),
    Seen(Entry, Measurement),
    Pending,
    Measured(Result<Measurement, String>),
    Git(Option<String>),
    Opened(Result<u64, String>),
}

/// The moment of an answer: whether the scan was cancelled, the clock, how long
/// the scan has run, and whether the time for a batch has come.
#[derive(Clone, Copy, Debug, PartialEq, Eq, Structural)]
pub struct Tick {
    pub cancel: bool,
    pub now_ns: i64,
    pub elapsed_ms: u64,
    pub due: bool,
}

/// A discovery session.
pub struct ScanSession {
    pub plan: Plan,
    pub links: Hardlinks,
    pub stats: ScanStats,
    pub press: Publisher,
    pub next: Vec<Start>,
    pub frontier: Vec<Frame>,
    pub deferred: Vec<DeferredArtifact>,
    pub measurements: Vec<ArtifactMeasurement>,
    pub measurement_turn: bool,
    pub lane_turn: usize,
    pub phase: Phase,
}

/// The same, as a value to reason about.
#[verifier::ext_equal]
pub struct ScanState {
    pub plan: Plan,
    pub links: LinkState,
    pub stats: Counters,
    pub press: Press,
    pub next: Seq<StartView>,
    pub frontier: Seq<FrameView>,
    pub deferred: Seq<DeferredView>,
    pub measurements: Seq<JobView>,
    pub measurement_turn: bool,
    pub lane_turn: usize,
    pub phase: Stage,
}

pub open spec fn starts(next: Seq<Start>) -> Seq<StartView> {
    next.map_values(|s: Start| s@)
}

pub open spec fn frames(frontier: Seq<Frame>) -> Seq<FrameView> {
    frontier.map_values(|f: Frame| f@)
}

pub open spec fn waiting(deferred: Seq<DeferredArtifact>) -> Seq<DeferredView> {
    deferred.map_values(|d: DeferredArtifact| d@)
}

pub open spec fn jobs(measurements: Seq<ArtifactMeasurement>) -> Seq<JobView> {
    measurements.map_values(|m: ArtifactMeasurement| m@)
}

impl View for ScanSession {
    type V = ScanState;

    open spec fn view(&self) -> ScanState {
        ScanState {
            plan: self.plan,
            links: self.links@,
            stats: self.stats@,
            press: self.press@,
            next: starts(self.next@),
            frontier: frames(self.frontier@),
            deferred: waiting(self.deferred@),
            measurements: jobs(self.measurements@),
            measurement_turn: self.measurement_turn,
            lane_turn: self.lane_turn,
            phase: self.phase@,
        }
    }
}

/// Whether a path is kept: it is one that the user keeps, or lies under one.
pub open spec fn kept_over(kept: Seq<FsPath>, path: Seq<u8>) -> bool {
    exists|i: int| 0 <= i < kept.len() && under(path, #[trigger] kept[i]@)
}

/// Whether something that the user keeps lies under a path.
pub open spec fn kept_below(kept: Seq<FsPath>, path: Seq<u8>) -> bool {
    exists|i: int| 0 <= i < kept.len() && under(#[trigger] kept[i]@, path)
}

/// Whether a path is part of an unfinished download.
pub open spec fn unfinished(plan: Plan, path: Seq<u8>) -> bool {
    plan.downloads matches Some(base) && under(path, base@) && unfinished_below(path, base@)
}

/// Whether an entry is one that discovery never looks into.
pub open spec fn unsupported(plan: Plan, meta: EntryMeta, facts: EntryFacts) -> bool {
    ||| meta.identity.device != plan.root.identity.device
    ||| meta.symlink()
    ||| meta.dataless()
    ||| facts.media
    ||| facts.excluded
    ||| facts.library && !facts.route_allowed
    ||| !meta.dir() && !meta.file()
}

/// Whether nothing was changed for a number of days.
pub open spec fn calm(latest: int, now_ns: i64, days: i64) -> bool {
    latest <= cutoff(now_ns, days)
}

/// The first folder of a lane, from a position on.
pub open spec fn first_of_lane(frontier: Seq<FrameView>, lane: int, from: int) -> Option<int>
    decreases frontier.len() - from,
{
    if from < 0 || from >= frontier.len() {
        None
    } else if frontier[from].mark.lane == lane {
        Some(from)
    } else {
        first_of_lane(frontier, lane, from + 1)
    }
}

/// The lane whose turn it is: the first, from the turn on, that has a folder, and
/// where that folder stands.
pub open spec fn lane_pick(frontier: Seq<FrameView>, lanes: int, turn: int, offset: int) -> Option<
    (int, int),
>
    decreases lanes - offset,
{
    if offset >= lanes {
        None
    } else {
        let lane = (turn + offset) % lanes;
        match first_of_lane(frontier, lane, 0) {
            Some(at) => Some((at, lane)),
            None => lane_pick(frontier, lanes, turn, offset + 1),
        }
    }
}

/// What is said at the end of a scan.
pub open spec fn closing_message(plan: Plan, full: bool, stats: Counters) -> Seq<char> {
    if plan.logical && stats.cancelled {
        "Scan cancelled; completed findings remain available."@
    } else if plan.logical && stats.errors > 0 {
        "Scan finished with inaccessible locations; completed findings are ready to review."@
    } else if plan.logical {
        "Scan complete. Targeted cleanup and personal-file findings are ready to review."@
    } else if stats.cancelled {
        "Scan cancelled; the displayed coverage is partial"@
    } else if full {
        "Partial accounting: the bounded hard-link identity limit was reached; additional shared files received zero size credit"@
    } else if stats.errors > 0 {
        "Partial coverage: "@ + digits(stats.errors as nat)
            + " inaccessible or changed portions; "@ + digits(stats.skipped as nat)
            + " excluded boundaries"@
    } else if plan.mode == ScanMode::Suggestions {
        "Suggestion discovery complete; "@ + digits(stats.entries as nat)
            + " entries examined and "@ + digits(stats.excluded_artifacts as nat)
            + " ineligible artifact contents excluded from traversal"@
    } else {
        "Scan complete within the selected scope; "@ + digits(stats.skipped as nat)
            + " protected, unsupported, kept, or unqualified opportunities excluded"@
    }
}

/// What is said of a file that its metadata alone rules out.
pub open spec fn plain_file_note(reason: Seq<char>) -> Seq<char> {
    " Not suggested: "@ + reason
        + ". Discovery metadata already excludes this file; it was not reopened or measured."@
}

pub open spec fn excluded_note() -> Seq<char> {
    " Not suggested: this artifact is already excluded by its ownership, modification time or current activity. Its contents were not traversed or measured."@
}

pub open spec fn hinted_note() -> Seq<char> {
    " A recently modified local file was verified inside this artifact. Its contents were not traversed or measured."@
}

pub open spec fn hinted_reason(days: i64) -> Seq<char> {
    "Artifact contents changed within the required "@ + signed_digits(days as int)
        + " quiet days"@
}

pub open spec fn pruned_reason() -> Seq<char> {
    "Measurement stopped when this artifact became ineligible; remaining contents were not traversed"@
}

pub open spec fn diagnostic_reason() -> Seq<char> {
    "This was a diagnostic-only measurement; refresh to review current eligibility"@
}

pub open spec fn offer_note(found: Found, is_dir: bool) -> Seq<char> {
    " At least "@ + digits((found.rules.minimum_bytes / 1_000_000) as nat)
        + " MB is allocated locally. The "@ + (if is_dir {
        "contents and identification files"@
    } else {
        "file contents"@
    }) + " have been unmodified for at least "@ + signed_digits(found.quiet_days as int)
        + " days."@
}

pub open spec fn refusal_note(reason: Seq<char>) -> Seq<char> {
    " Not suggested: "@ + reason + "."@
}

impl ScanState {
    pub open spec fn idle(self) -> ScanState {
        ScanState { phase: Stage::Idle, ..self }
    }

    pub open spec fn with(self, stats: Counters) -> ScanState {
        ScanState { stats, ..self }
    }

    /// One more finding waits for its batch.
    pub open spec fn publish(self, candidate: Sighting, force: bool) -> ScanState {
        ScanState { press: self.press.queue(candidate, self.stats, force), ..self }
    }

    /// What waits goes out if the time has come, with the time of the moment.
    pub open spec fn pulse(self, t: Tick) -> ScanState {
        if self.press.due {
            ScanState {
                stats: self.stats.at(t.elapsed_ms),
                press: self.press.flush(self.stats.at(t.elapsed_ms)),
                ..self
            }
        } else {
            self
        }
    }

    /// The end of a scan. It is complete if it was neither cancelled nor met an
    /// error.
    #[verifier::opaque]
    pub open spec fn finish(self, t: Tick) -> ScanState {
        let timed = self.stats.at(t.elapsed_ms);
        let counted = if self.links.full {
            timed.err()
        } else {
            timed
        };
        let whole = Counters { complete: !counted.cancelled && counted.errors == 0, ..counted };
        let told = Counters {
            message: closing_message(self.plan, self.links.full, whole),
            ..whole
        };
        ScanState { stats: told, press: self.press.flush(told), phase: Stage::Done, ..self }
    }

    /// Where the folder whose turn it is comes first.
    #[verifier::opaque]
    pub open spec fn rotate(self) -> ScanState {
        if !self.plan.logical {
            self
        } else {
            match lane_pick(self.frontier, self.plan.lanes as int, self.lane_turn as int, 0) {
                None => self,
                Some((at, lane)) => ScanState {
                    frontier: self.frontier.skip(at) + self.frontier.take(at),
                    lane_turn: ((lane + 1) % (self.plan.lanes as int)) as usize,
                    ..self
                },
            }
        }
    }

    /// Whether discovery has nothing left.
    pub open spec fn explored(self) -> bool {
        self.next.len() == 0 && self.frontier.len() == 0 && self.deferred.len() == 0
    }

    /// Whether a measurement is next.
    pub open spec fn measures_now(self) -> bool {
        self.measurements.len() > 0 && (self.measurement_turn || self.measurements.len()
            >= MAX_ACTIVE_MEASUREMENTS || self.explored())
    }

    /// What discovery does on its turn. What is already known to be no suggestion
    /// comes last; the oldest of it goes first where no more can wait.
    #[verifier::opaque]
    pub open spec fn explore(self, t: Tick) -> ScanState {
        if self.deferred.len() > 0 && (self.deferred.len() == MAX_DEFERRED_ARTIFACTS || (
        self.next.len() == 0 && self.frontier.len() == 0)) {
            ScanState {
                deferred: self.deferred.skip(1),
                phase: Stage::Looking(
                    ItemView {
                        entry: self.deferred[0].entry,
                        depth: 0,
                        classify: false,
                        lane: 0,
                        opened: None,
                        provider: false,
                        previous: Some(self.deferred[0].checks),
                    },
                ),
                ..self
            }
        } else if self.next.len() > 0 {
            ScanState {
                next: self.next.skip(1),
                phase: Stage::Looking(
                    ItemView {
                        entry: self.next[0].entry,
                        depth: 0,
                        classify: true,
                        lane: self.next[0].lane,
                        opened: None,
                        provider: false,
                        previous: None,
                    },
                ),
                ..self
            }
        } else if self.frontier.len() > 0 {
            ScanState { phase: Stage::Reading, ..self.rotate() }
        } else {
            self.finish(t)
        }
    }

    /// One turn: discovery and measurement alternate.
    #[verifier::opaque]
    pub open spec fn turn(self, t: Tick) -> ScanState {
        if t.cancel || self.stats.cancelled {
            self.with(self.stats.cancel()).finish(t)
        } else {
            let s = self.pulse(t);
            if s.measures_now() {
                ScanState {
                    measurement_turn: false,
                    measurements: s.measurements.skip(1),
                    phase: Stage::Measuring(s.measurements[0]),
                    ..s
                }
            } else {
                ScanState { measurement_turn: true, ..s }.explore(t)
            }
        }
    }

    /// Without the first folder.
    pub open spec fn leave(self) -> ScanState {
        ScanState { frontier: self.frontier.skip(1), ..self }.idle()
    }

    /// The entry of the first folder, to be looked at.
    pub open spec fn meet(self, entry: Spot, opened: Option<u64>) -> ScanState {
        ScanState {
            phase: Stage::Looking(
                ItemView {
                    entry,
                    depth: (self.frontier[0].mark.depth + 1) as usize,
                    classify: self.frontier[0].mark.classify,
                    lane: self.frontier[0].mark.lane,
                    opened,
                    provider: false,
                    previous: None,
                },
            ),
            ..self
        }
    }

    /// What was read of a folder.
    #[verifier::opaque]
    pub open spec fn listed(self, outcome: Result<Listing, String>, t: Tick) -> ScanState {
        match outcome {
            Err(_) => if t.cancel {
                self.with(self.stats.cancel()).finish(t)
            } else {
                self.with(self.stats.err()).leave()
            },
            Ok(listing) => {
                let s = self.with(
                    Counters {
                        entries: capped(self.stats.entries + listing.files + listing.skipped),
                        files: capped(self.stats.files + listing.files),
                        skipped: capped(self.stats.skipped + listing.skipped),
                        metadata_skipped: capped(
                            self.stats.metadata_skipped + listing.metadata_skipped,
                        ),
                        ..self.stats
                    },
                );
                match listing.found {
                    Listed::Nothing => if !listing.finished {
                        s.idle()
                    } else if listing.changed {
                        s.with(s.stats.err()).leave()
                    } else {
                        s.leave()
                    },
                    // Keeping is a lexical boundary: nothing of it is opened.
                    Listed::Directory(path) => if kept_over(self.plan.kept@, path@) {
                        s.with(
                            Counters {
                                entries: capped(s.stats.entries + 1),
                                directories: capped(s.stats.directories + 1),
                                skipped: capped(s.stats.skipped + 1),
                                metadata_skipped: capped(s.stats.metadata_skipped + 1),
                                ..s.stats
                            },
                        ).idle()
                    } else {
                        ScanState { phase: Stage::Opening(path@), ..s }
                    },
                    Listed::Entry(entry) => s.meet(entry@, None),
                }
            },
        }
    }

    /// A folder found while reading was opened, or not.
    #[verifier::opaque]
    pub open spec fn entered(
        self,
        outcome: Result<(Entry, Option<u64>), String>,
        t: Tick,
    ) -> ScanState {
        match outcome {
            Ok(pair) => self.meet(pair.0@, pair.1),
            Err(_) => if t.cancel {
                self.with(self.stats.cancel()).finish(t)
            } else {
                self.with(
                    Counters {
                        entries: capped(self.stats.entries + 1),
                        directories: capped(self.stats.directories + 1),
                        errors: capped(self.stats.errors + 1),
                        skipped: capped(self.stats.skipped + 1),
                        ..self.stats
                    },
                ).idle()
            },
        }
    }

    /// One more folder is read: beside the others while there are few, before
    /// them otherwise.
    pub open spec fn enter(self, item: ItemView, classify: bool, id: u64) -> ScanState {
        let frame = FrameView {
            path: item.entry.path,
            mark: FrameMark { id, depth: item.depth, classify, lane: item.lane },
        };
        ScanState {
            frontier: if self.frontier.len() < MAX_SHALLOW_FRONTIER {
                self.frontier.push(frame)
            } else {
                seq![frame] + self.frontier
            },
            ..self
        }
    }

    /// An entry that is no artifact: a folder is read in its turn.
    #[verifier::opaque]
    pub open spec fn descend(self, item: ItemView, classify: bool, t: Tick) -> ScanState {
        if !item.entry.meta.dir() {
            self.pulse(t).idle()
        } else if item.depth >= self.plan.max_depth {
            self.with(self.stats.skip().err()).idle()
        } else {
            match item.opened {
                Some(id) => self.enter(item, classify, id).pulse(t).idle(),
                None => ScanState {
                    phase: Stage::Entering(
                        item,
                        classify,
                        if item.depth > 0 && self.frontier.len() > 0 {
                            Some(self.frontier[0].mark.id)
                        } else {
                            None
                        },
                    ),
                    ..self
                },
            }
        }
    }

    /// A folder was opened, or not.
    #[verifier::opaque]
    pub open spec fn opened(
        self,
        item: ItemView,
        classify: bool,
        outcome: Result<u64, String>,
        t: Tick,
    ) -> ScanState {
        match outcome {
            Ok(id) => self.enter(item, classify, id).pulse(t).idle(),
            Err(_) => self.with(self.stats.err().skip()).pulse(t).idle(),
        }
    }

    /// Whether an artifact boundary is already known to be too recent. Names that
    /// need positive evidence may be ordinary folders, and are recognized first.
    pub open spec fn hopeless(self, item: ItemView, now_ns: i64) -> bool {
        &&& self.plan.mode == ScanMode::Suggestions
        &&& item.classify
        &&& item.entry.meta.dir()
        &&& !same_place(item.entry.path, self.plan.root.path@)
        &&& artifact_path(item.entry.path, item.provider)
        &&& !conditional_path(item.entry.path, item.provider)
        &&& !calm(item.entry.meta.identity.modified_ns as int, now_ns, DEVELOPER_QUIET_DAYS)
    }

    /// The place of an entry is known.
    #[verifier::opaque]
    pub open spec fn looked(self, seen: ItemView, facts: EntryFacts, t: Tick) -> ScanState {
        let item = ItemView { provider: facts.provider, ..seen };
        let meta = item.entry.meta;
        // An artifact that waited was counted when it was first met.
        let s = if item.previous is Some {
            self
        } else {
            ScanState {
                stats: tallied(self.stats, self.links, meta, self.plan.root.identity.device),
                links: linked(self.links, meta, self.plan.root.identity.device),
                ..self
            }
        };
        if kept_over(self.plan.kept@, item.entry.path) || unfinished(self.plan, item.entry.path) {
            s.with(s.stats.skip()).idle()
        } else if unsupported(self.plan, meta, facts) {
            s.with(s.stats.skip()).idle()
        } else if s.hopeless(item, t.now_ns) {
            s.with(s.stats.skip().exclude()).idle()
        } else {
            match item.previous {
                Some(checks) => s.recognized(item, checks.found, t),
                None => if item.classify && !same_place(item.entry.path, self.plan.root.path@) {
                    ScanState { phase: Stage::Judging(item), ..s }
                } else {
                    s.descend(item, item.classify, t)
                },
            }
        }
    }

    /// What an entry is, is known.
    #[verifier::opaque]
    pub open spec fn judged(
        self,
        item: ItemView,
        outcome: Result<Option<Found>, Seq<char>>,
        t: Tick,
    ) -> ScanState {
        match outcome {
            Ok(Some(found)) => self.recognized(item, found, t),
            Err(_) => {
                let s = self.with(self.stats.skip());
                if self.plan.mode == ScanMode::Suggestions && artifact_path(
                    item.entry.path,
                    item.provider,
                ) {
                    s.with(s.stats.exclude()).idle()
                } else {
                    s.descend(item, false, t)
                }
            },
            Ok(None) => if artifact_path(item.entry.path, item.provider) && !conditional_path(
                item.entry.path,
                item.provider,
            ) {
                let s = self.with(self.stats.skip());
                if self.plan.mode == ScanMode::Suggestions {
                    s.with(s.stats.exclude()).idle()
                } else {
                    s.descend(item, false, t)
                }
            } else {
                self.descend(item, item.classify, t)
            },
        }
    }

    /// An artifact was recognized. Keeping protects what lies in it, and nothing
    /// is opened of an artifact that its metadata already rules out.
    #[verifier::opaque]
    pub open spec fn recognized(self, item: ItemView, found: Found, t: Tick) -> ScanState {
        let meta = item.entry.meta;
        let changed = meta.identity.modified_ns as int;
        if kept_below(self.plan.kept@, item.entry.path) {
            let s = self.with(self.stats.skip());
            if meta.dir() {
                s.with(s.stats.exclude()).idle()
            } else {
                s.idle()
            }
        } else if self.plan.mode == ScanMode::Suggestions && meta.dir() && conditional_path(
            item.entry.path,
            item.provider,
        ) && !calm(changed, t.now_ns, found.quiet_days) {
            self.with(self.stats.skip().exclude()).idle()
        } else {
            let s = self.with(self.stats.at(t.elapsed_ms));
            let candidate = first_sight(self.plan.root.id@, item.entry.path, meta, found);
            let unfit = suggestion_outcome(
                found.rules,
                found.quiet_days,
                found.latest,
                meta.allocated,
                changed,
                t.now_ns,
            );
            if self.plan.mode == ScanMode::Suggestions && !meta.dir() && unfit is Some {
                s.declined(candidate, unfit->Some_0)
            } else {
                s.weighed(item, found, candidate, t)
            }
        }
    }

    /// A file that its metadata rules out is shown, and never reopened.
    #[verifier::opaque]
    pub open spec fn declined(self, candidate: Sighting, reason: Seq<char>) -> ScanState {
        self.with(self.stats.skip()).publish(
            Sighting {
                provisional: false,
                explanation: candidate.explanation + plain_file_note(reason),
                blocked_reason: Some(reason),
                ..candidate
            },
            false,
        ).idle()
    }

    /// The cheap checks of an artifact that may be offered.
    #[verifier::opaque]
    pub open spec fn weighed(
        self,
        item: ItemView,
        found: Found,
        candidate: Sighting,
        t: Tick,
    ) -> ScanState {
        match item.previous {
            Some(checks) => self.checked(CaseView { item, candidate, checks }, t),
            None => {
                let changed = item.entry.meta.identity.modified_ns as int;
                let quiet = calm(later(changed, found.latest), t.now_ns, found.quiet_days);
                let case = CaseView {
                    item,
                    candidate,
                    checks: ChecksView { found, quiet, blocked: found.blocked },
                };
                if found.rules.checks_activity && found.blocked is None && quiet {
                    ScanState { phase: Stage::Checking(case), ..self }
                } else {
                    self.checked(case, t)
                }
            },
        }
    }

    /// Whether the project is in use, is known.
    pub open spec fn active(self, case: CaseView, reason: Option<Seq<char>>, t: Tick) -> ScanState {
        self.checked(
            CaseView { checks: ChecksView { blocked: reason, ..case.checks }, ..case },
            t,
        )
    }

    /// The cheap checks are done: they rule an artifact out, put it off, or let
    /// it be measured.
    #[verifier::opaque]
    pub open spec fn checked(self, case: CaseView, t: Tick) -> ScanState {
        let checks = case.checks;
        if case.item.previous is Some {
            ScanState { phase: Stage::Verifying(case), ..self }
        } else if case.item.entry.meta.dir() && (!checks.quiet || checks.blocked is Some) {
            if self.plan.mode == ScanMode::Suggestions {
                self.with(self.stats.skip().exclude()).publish(
                    Sighting {
                        blocked_reason: match checks.blocked {
                            Some(reason) => Some(reason),
                            None => Some(recent_reason(checks.found.quiet_days)),
                        },
                        provisional: false,
                        explanation: case.candidate.explanation + excluded_note(),
                        ..case.candidate
                    },
                    false,
                ).idle()
            } else {
                let s = self.publish(case.candidate, false);
                ScanState {
                    deferred: s.deferred.push(
                        DeferredView { entry: case.item.entry, checks },
                    ),
                    ..s
                }.idle()
            }
        } else if self.plan.mode == ScanMode::Suggestions && case.item.entry.meta.dir()
            && self.plan.hints {
            ScanState { phase: Stage::Hinting(case), ..self }
        } else {
            self.begin(case, t)
        }
    }

    /// Whether an artifact that waited is still what it was, is known.
    #[verifier::opaque]
    pub open spec fn verified(self, case: CaseView, failure: Option<Seq<char>>, t: Tick) -> ScanState {
        match failure {
            None => self.begin(case, t),
            Some(reason) => {
                let told = if t.cancel {
                    self.stats.cancel()
                } else {
                    self.stats.err()
                };
                self.with(told.skip()).publish(
                    Sighting {
                        blocked_reason: Some(reason),
                        provisional: false,
                        ..case.candidate
                    },
                    false,
                ).idle()
            },
        }
    }

    /// A remembered file no longer tells anything.
    pub open spec fn forget(self, artifact: Seq<u8>) -> ScanState {
        ScanState { press: self.press.tell(News::Forget(artifact)), ..self }
    }

    /// The file to look at first is known, if there is one. A kept one, and one
    /// that does not lie inside the artifact, is not looked at.
    #[verifier::opaque]
    pub open spec fn hinted(self, case: CaseView, hint: Option<Seq<u8>>, t: Tick) -> ScanState {
        match hint {
            None => self.begin(case, t),
            Some(path) => if kept_over(self.plan.kept@, path) || !strictly_under(
                path,
                case.item.entry.path,
            ) {
                self.forget(case.item.entry.path).begin(case, t)
            } else {
                ScanState { phase: Stage::Observing(case, path), ..self }
            },
        }
    }

    /// The file to look at first was observed: a recent one rules the artifact
    /// out, anything else is only a miss.
    #[verifier::opaque]
    pub open spec fn observed(self, case: CaseView, meta: Option<EntryMeta>, t: Tick) -> ScanState {
        if t.cancel {
            self.with(self.stats.cancel()).finish(t)
        } else {
            let days = case.checks.found.quiet_days;
            match meta {
                Some(meta) if recent_local(
                    meta,
                    self.plan.root.identity.device,
                    cutoff(t.now_ns, days),
                    self.plan.user,
                ) => self.with(self.stats.skip().exclude()).publish(
                    Sighting {
                        modified_ns: later(
                            case.candidate.modified_ns as int,
                            meta.identity.modified_ns as int,
                        ) as i64,
                        provisional: false,
                        blocked_reason: Some(hinted_reason(days)),
                        explanation: case.candidate.explanation + hinted_note(),
                        ..case.candidate
                    },
                    false,
                ).idle(),
                _ => self.forget(case.item.entry.path).begin(case, t),
            }
        }
    }

    /// A measurement is asked for.
    #[verifier::opaque]
    pub open spec fn begin(self, case: CaseView, t: Tick) -> ScanState {
        let s = self.publish(case.candidate, false);
        let fresh = case.item.previous is None && case.checks.quiet && case.checks.blocked is None;
        let review = Review {
            entry: case.item.entry,
            found: case.checks.found,
            candidate: case.candidate,
            blocked: case.checks.blocked,
            is_dir: case.item.entry.meta.dir(),
            cutoff: cutoff(t.now_ns, case.checks.found.quiet_days) as i64,
            can_learn: self.plan.mode == ScanMode::Suggestions && fresh
                && case.item.entry.meta.dir() && self.plan.hints,
            recent_leaf: None,
        };
        let effort = if !fresh {
            Effort::Metadata
        } else if self.plan.mode == ScanMode::Suggestions {
            Effort::Suggestion
        } else {
            Effort::Full
        };
        ScanState { phase: Stage::Starting(review, effort), ..s }
    }

    /// A cursor was made, or not.
    #[verifier::opaque]
    pub open spec fn started(
        self,
        review: Review,
        outcome: Result<u64, String>,
        t: Tick,
    ) -> ScanState {
        let s = self.with(self.stats.at(t.elapsed_ms));
        if review.weight() > MAX_MEASUREMENT_JOB_BYTES {
            s.failed(
                review,
                "Artifact scheduling metadata exceeds the bounded queue limit"@,
                t,
            )
        } else {
            match outcome {
                Ok(cursor) => ScanState {
                    measurements: s.measurements.push(JobView { review, cursor }),
                    ..s
                }.idle(),
                Err(reason) => s.failed(review, reason@, t),
            }
        }
    }

    /// A measurement met an entry.
    #[verifier::opaque]
    pub open spec fn seen(self, job: JobView, entry: Spot, partial: Measurement, t: Tick) -> ScanState {
        let device = self.plan.root.identity.device;
        let inside = !same_place(entry.path, job.review.entry.path);
        let s = if inside {
            ScanState {
                stats: tallied(self.stats, self.links, entry.meta, device),
                links: linked(self.links, entry.meta, device),
                ..self
            }
        } else {
            self
        };
        let learns = inside && job.review.can_learn && job.review.recent_leaf is None
            && partial.errors == 0 && partial.unsafe_reason is None && recent_local(
            entry.meta,
            device,
            job.review.cutoff as int,
            self.plan.user,
        ) && !kept_over(self.plan.kept@, entry.path);
        let review = if learns {
            Review { recent_leaf: Some(entry.path), ..job.review }
        } else {
            job.review
        };
        if s.press.due {
            let candidate = measured_sight(review.candidate, partial);
            let told = s.with(s.stats.at(t.elapsed_ms)).publish(candidate, true);
            ScanState {
                phase: Stage::Measuring(
                    JobView { review: Review { candidate, ..review }, cursor: job.cursor },
                ),
                ..told
            }
        } else {
            ScanState {
                phase: Stage::Measuring(JobView { review, cursor: job.cursor }),
                ..s
            }
        }
    }

    /// A measurement used up its share of time.
    pub open spec fn yielded(self, job: JobView) -> ScanState {
        ScanState { measurements: self.measurements.push(job), ..self }.idle()
    }

    /// A measurement ended.
    #[verifier::opaque]
    pub open spec fn measured(
        self,
        job: JobView,
        outcome: Result<Measurement, String>,
        t: Tick,
    ) -> ScanState {
        let s = self.with(self.stats.at(t.elapsed_ms));
        match outcome {
            Err(reason) => s.failed(job.review, reason@, t),
            Ok(measured) => s.reviewed(job.review, measured, t),
        }
    }

    /// A measurement failed.
    #[verifier::opaque]
    pub open spec fn failed(self, review: Review, reason: Seq<char>, t: Tick) -> ScanState {
        let told = if t.cancel {
            self.stats.cancel()
        } else {
            self.stats.err()
        };
        self.with(told).conclude(
            Review { blocked: Some(reason), ..review },
            Some("Measurement is incomplete"@),
        )
    }

    /// What was measured is judged.
    #[verifier::opaque]
    pub open spec fn reviewed(self, review: Review, measured: Measurement, t: Tick) -> ScanState {
        let added = self.with(
            Counters {
                skipped: capped(self.stats.skipped + measured.skipped),
                errors: capped(self.stats.errors + measured.errors),
                excluded_artifacts: if measured.pruned {
                    capped(self.stats.excluded_artifacts + 1)
                } else {
                    self.stats.excluded_artifacts
                },
                ..self.stats
            },
        );
        let s = if measured.pruned && measured.errors == 0 && self.plan.hints {
            match review.recent_leaf {
                Some(leaf) => ScanState {
                    press: added.press.tell(News::Remember(review.entry.path, leaf)),
                    ..added
                },
                None => added,
            }
        } else {
            added
        };
        let quality = if measured.pruned {
            Some(pruned_reason())
        } else {
            suggestion_outcome(
                review.found.rules,
                review.found.quiet_days,
                review.found.latest,
                measured.allocated_bytes,
                measured.latest_modified_ns as int,
                t.now_ns,
            )
        };
        let judged = Review {
            candidate: measured_sight(review.candidate, measured),
            blocked: match review.blocked {
                Some(reason) => Some(reason),
                None => text_view(measured.unsafe_reason),
            },
            ..review
        };
        if judged.blocked is None && quality is None && review.found.rules.checks_git {
            ScanState { phase: Stage::Tracking(judged), ..s }
        } else {
            s.untracked(judged, quality)
        }
    }

    /// Whether the repository tracks any of it, is known or does not matter.
    #[verifier::opaque]
    pub open spec fn untracked(self, review: Review, quality: Option<Seq<char>>) -> ScanState {
        if review.blocked is None && quality is None && review.found.rules.checks_activity {
            ScanState { phase: Stage::Using(review), ..self }
        } else {
            self.unused(review, quality)
        }
    }

    /// Whether the project is in use, is known or does not matter. What was found
    /// before a measurement is never enough to offer anything.
    #[verifier::opaque]
    pub open spec fn unused(self, review: Review, quality: Option<Seq<char>>) -> ScanState {
        if review.blocked is None && quality is None {
            ScanState { phase: Stage::Recalling(review), ..self }
        } else {
            self.conclude(review, quality)
        }
    }

    /// What the artifact is after the measurement, is known.
    #[verifier::opaque]
    pub open spec fn recalled(
        self,
        review: Review,
        outcome: Result<Option<Found>, Seq<char>>,
    ) -> ScanState {
        match outcome {
            Ok(Some(current)) if current.fingerprint == review.found.fingerprint
                && current.blocked is None => self.conclude(review, None),
            _ => self.conclude(
                Review {
                    blocked: Some(
                        "Project evidence changed during the scan; refresh this review"@,
                    ),
                    ..review
                },
                None,
            ),
        }
    }

    /// The review is over: the finding is offered, or shown with what stands
    /// against it.
    #[verifier::opaque]
    pub open spec fn conclude(self, review: Review, quality: Option<Seq<char>>) -> ScanState {
        let doubt = if quality is None && review.candidate.fingerprint.len() == 0 {
            Some(diagnostic_reason())
        } else {
            quality
        };
        let offered = review.blocked is None && doubt is None && !self.stats.cancelled;
        let first = offered && self.stats.first_finding_ms is None;
        let stats = if offered {
            Counters {
                candidates: capped(self.stats.candidates + 1),
                first_finding_ms: if first {
                    Some(self.stats.elapsed_ms)
                } else {
                    self.stats.first_finding_ms
                },
                ..self.stats
            }
        } else {
            self.stats.skip()
        };
        let candidate = Sighting {
            blocked_reason: review.blocked,
            provisional: false,
            suggestion_eligible: offered,
            eligible_permanent: review.found.rules.permanent && offered,
            explanation: if offered {
                review.candidate.explanation + offer_note(review.found, review.is_dir)
            } else {
                match doubt {
                    Some(reason) => review.candidate.explanation + refusal_note(reason),
                    None => review.candidate.explanation,
                }
            },
            ..review.candidate
        };
        self.with(stats).publish(candidate, first).idle()
    }

    /// How an answer moves a session on. An answer to something else changes
    /// nothing but the moment.
    pub open spec fn step(self, event: Event, t: Tick) -> ScanState {
        ScanState {
            press: Press { due: t.due, ..self.press },
            phase: Stage::Idle,
            ..self
        }.answered(self.phase, event, t)
    }

    /// How an answer to what a session waited for moves it on.
    #[verifier::opaque]
    pub open spec fn answered(self, stage: Stage, event: Event, t: Tick) -> ScanState {
        let s = self;
        match (stage, event) {
            (Stage::Idle, Event::Proceed) => s.turn(t),
            (Stage::Reading, Event::Listed(outcome)) => s.listed(outcome, t),
            (Stage::Opening(_), Event::Entered(outcome)) => s.entered(outcome, t),
            (Stage::Looking(item), Event::Facts(facts)) => s.looked(item, facts, t),
            (Stage::Judging(item), Event::Evidence(outcome)) => s.judged(
                item,
                outcome_view(outcome),
                t,
            ),
            (Stage::Checking(case), Event::Activity(reason)) => s.active(
                case,
                text_view(reason),
                t,
            ),
            (Stage::Verifying(case), Event::Verified(outcome)) => s.verified(
                case,
                match outcome {
                    Ok(_) => None,
                    Err(reason) => Some(reason@),
                },
                t,
            ),
            (Stage::Hinting(case), Event::Hint(hint)) => s.hinted(
                case,
                crate::evidence::path_view(hint),
                t,
            ),
            (Stage::Observing(case, _), Event::Observed(meta)) => s.observed(case, meta, t),
            (Stage::Starting(review, _), Event::Cursor(outcome)) => s.started(review, outcome, t),
            (Stage::Measuring(job), Event::Seen(entry, partial)) => s.seen(job, entry@, partial, t),
            (Stage::Measuring(job), Event::Pending) => s.yielded(job),
            (Stage::Measuring(job), Event::Measured(outcome)) => s.measured(job, outcome, t),
            (Stage::Tracking(review), Event::Git(reason)) => s.untracked(
                Review { blocked: text_view(reason), ..review },
                None,
            ),
            (Stage::Using(review), Event::Activity(reason)) => s.unused(
                Review { blocked: text_view(reason), ..review },
                None,
            ),
            (Stage::Recalling(review), Event::Evidence(outcome)) => s.recalled(
                review,
                outcome_view(outcome),
            ),
            (Stage::Entering(item, classify, _), Event::Opened(outcome)) => s.opened(
                item,
                classify,
                outcome,
                t,
            ),
            _ => ScanState { phase: stage, ..s },
        }
    }

    /// What every session keeps: there are lanes to turn to, folders are less
    /// deep than allowed, also one that is being opened, and while a folder is
    /// read there is one.
    pub open spec fn wf(self) -> bool {
        &&& self.plan.logical ==> self.plan.lanes <= MAX_SCAN_LANES && (0 < self.plan.lanes
            ==> self.lane_turn < self.plan.lanes)
        &&& forall|i: int|
            0 <= i < self.frontier.len() ==> (#[trigger] self.frontier[i]).mark.depth
                < self.plan.max_depth
        &&& (self.phase is Reading || self.phase is Opening) ==> self.frontier.len() > 0
        &&& self.phase matches Stage::Entering(item, _, _) ==> item.depth < self.plan.max_depth
    }
}

} // verus!
