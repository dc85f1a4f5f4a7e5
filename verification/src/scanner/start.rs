//! Where a scan starts.
use super::press::{Press, Publisher};
use super::promises::steady;
use super::session::is_kept_over;
use super::state::{
    kept_over, starts, Phase, Plan, ScanMode, ScanSession, ScanState, Stage, Start, StartView, Tick,
    MAX_SCAN_LANES,
};
use crate::model::{copy_path, count, Entry, EntryMeta, Root, ScanStats};
use crate::paths::{
    is_same_place, is_under, join_text, named, path_bytes, same_place, share, under, FsPath,
};
use crate::sightings::{no_counts, Counters, Hardlinks, LinkState, Spot};
use crate::text::{fail, failed, same_text};
use vstd::prelude::*;

verus! {

/// What the surroundings say of a scan before it starts.
pub struct Setting {
    pub downloads: Option<FsPath>,
    pub max_depth: usize,
    /// How many files with several names are told apart.
    pub link_limit: usize,
    /// Whether recently changed files are remembered between scans.
    pub hints: bool,
    pub user: u32,
    /// The routes into the library of a home folder.
    pub routes: Vec<String>,
    /// Whether the selected place leads only to such routes.
    pub corridor: bool,
    /// Whether the selected place may be scanned.
    pub admitted: Result<(), String>,
    /// Whether the location is still the one that was authorized.
    pub valid: Result<(), String>,
    /// Where the scan really starts: at the artifact that holds the selected
    /// place, if there is one.
    pub normalized: Result<FsPath, String>,
}

/// A scan that is about to start.
pub struct ScanStart {
    pub plan: Plan,
    pub starts: Vec<FsPath>,
    pub link_limit: usize,
}

/// The place that was selected.
pub open spec fn selected(root: Root, scope: Option<FsPath>) -> Seq<u8> {
    match scope {
        Some(path) => path@,
        None => root.path@,
    }
}

/// Whether a home folder is scanned in separate lanes.
pub open spec fn in_lanes(root: Root, scope: Option<FsPath>, setting: Setting) -> bool {
    root.kind@ == "home"@ && (same_place(selected(root, scope), root.path@) || setting.corridor)
}

/// The routes into the library that lie in the selected place.
pub open spec fn routed(root: Seq<u8>, routes: Seq<String>, selected: Seq<u8>) -> Seq<Seq<u8>>
    decreases routes.len(),
{
    if routes.len() == 0 {
        seq![]
    } else {
        let before = routed(root, routes.drop_last(), selected);
        let path = named(root, routes.last()@);
        if under(path, selected) {
            before.push(path)
        } else {
            before
        }
    }
}

/// The places that a scan starts from. A home folder never enters its library
/// but by the fixed routes.
pub open spec fn lanes_of(root: Root, scope: Option<FsPath>, setting: Setting) -> Seq<Seq<u8>> {
    if in_lanes(root, scope, setting) {
        let routes = routed(root.path@, setting.routes@, selected(root, scope));
        if same_place(selected(root, scope), root.path@) {
            routes.push(root.path@)
        } else {
            routes
        }
    } else {
        match setting.normalized {
            Ok(path) => seq![path@],
            Err(_) => seq![],
        }
    }
}

/// Why a scan cannot start.
pub open spec fn start_failure(
    root: Root,
    scope: Option<FsPath>,
    setting: Setting,
    cancel: bool,
) -> Option<Seq<char>> {
    if in_lanes(root, scope, setting) && setting.admitted is Err {
        Some(setting.admitted->Err_0@)
    } else if in_lanes(root, scope, setting) && setting.valid is Err {
        Some(setting.valid->Err_0@)
    } else if cancel {
        Some("Cancelled"@)
    } else if setting.normalized is Err {
        Some(setting.normalized->Err_0@)
    } else if lanes_of(root, scope, setting).len() > MAX_SCAN_LANES {
        Some("The scan exceeds the bounded logical-lane limit"@)
    } else {
        None
    }
}

/// Paths, as values to reason about.
pub open spec fn path_views(paths: Seq<FsPath>) -> Seq<Seq<u8>> {
    paths.map_values(|p: FsPath| p@)
}

/// Whether a scan that is about to start is the one that was asked for.
pub open spec fn starts_as(
    start: ScanStart,
    root: Root,
    scope: Option<FsPath>,
    kept: Seq<FsPath>,
    setting: Setting,
    mode: ScanMode,
) -> bool {
    &&& start.plan.root == root
    &&& start.plan.kept@ == kept
    &&& start.plan.mode == mode
    &&& start.plan.downloads == setting.downloads
    &&& start.plan.lanes == start.starts@.len()
    &&& start.plan.logical == in_lanes(root, scope, setting)
    &&& start.plan.max_depth == setting.max_depth
    &&& start.plan.hints == setting.hints
    &&& start.plan.user == setting.user
    &&& start.link_limit == setting.link_limit
    &&& path_views(start.starts@) == lanes_of(root, scope, setting)
}

/// Whether starting a scan came out as it should.
pub open spec fn start_outcome(
    r: Result<ScanStart, String>,
    root: Root,
    scope: Option<FsPath>,
    kept: Seq<FsPath>,
    setting: Setting,
    mode: ScanMode,
    cancel: bool,
) -> bool {
    match start_failure(root, scope, setting, cancel) {
        Some(reason) => failed(r, reason),
        None => r matches Ok(start) && starts_as(start, root, scope, kept, setting, mode),
    }
}

/// A copy of some paths.
pub fn copy_paths(paths: &Vec<FsPath>) -> (r: Vec<FsPath>)
    ensures
        r@ == paths@,
{
    let mut out: Vec<FsPath> = Vec::new();
    let mut i: usize = 0;
    while i < paths.len()
        invariant
            i <= paths.len(),
            out@ == paths@.take(i as int),
        decreases paths.len() - i,
    {
        out.push(share(&paths[i]));
        i = i + 1;
        assert(paths@.take(i as int) =~= paths@.take(i - 1).push(paths@[i - 1]));
    }
    assert(paths@.take(i as int) =~= paths@);
    out
}

fn find_routes(root: &FsPath, routes: &Vec<String>, selected: &FsPath) -> (r: Vec<FsPath>)
    ensures
        path_views(r@) == routed(root@, routes@, selected@),
{
    let mut out: Vec<FsPath> = Vec::new();
    let mut i: usize = 0;
    assert(path_views(out@) =~= routed(root@, routes@.take(0), selected@));
    while i < routes.len()
        invariant
            i <= routes.len(),
            path_views(out@) == routed(root@, routes@.take(i as int), selected@),
        decreases routes.len() - i,
    {
        let path: FsPath = join_text(root, routes[i].as_str());
        let ghost before = out@;
        assert(routes@.take(i + 1).drop_last() =~= routes@.take(i as int));
        if is_under(path_bytes(&path), path_bytes(selected)) {
            out.push(path);
            assert(path_views(out@) =~= path_views(before).push(path@));
        }
        i = i + 1;
    }
    assert(routes@.take(i as int) =~= routes@);
    out
}

/// Starts a scan with everything that can be chosen: what is kept, and how far
/// discovery goes.
pub fn scan_with_checkpoint_mode(
    root: &Root,
    scope: &Option<FsPath>,
    kept: &Vec<FsPath>,
    setting: &Setting,
    mode: ScanMode,
    cancel: bool,
) -> (r: Result<ScanStart, String>)
    ensures
        start_outcome(r, *root, *scope, kept@, *setting, mode, cancel),
{
    let chosen: FsPath = match scope {
        Some(path) => share(path),
        None => share(&root.path),
    };
    let whole: bool = is_same_place(path_bytes(&chosen), path_bytes(&root.path));
    let logical: bool = same_text(root.kind.as_str(), "home") && (whole || setting.corridor);
    if logical {
        match &setting.admitted {
            Err(reason) => {
                return Err(reason.clone());
            },
            Ok(_) => {},
        }
        match &setting.valid {
            Err(reason) => {
                return Err(reason.clone());
            },
            Ok(_) => {},
        }
    }
    if cancel {
        return fail("Cancelled");
    }
    let normalized: FsPath = match &setting.normalized {
        Err(reason) => {
            return Err(reason.clone());
        },
        Ok(path) => share(path),
    };
    let mut lanes: Vec<FsPath> = Vec::new();
    if logical {
        lanes = find_routes(&root.path, &setting.routes, &chosen);
        if whole {
            let ghost before = lanes@;
            lanes.push(share(&root.path));
            assert(path_views(lanes@) =~= path_views(before).push(root.path@));
        }
    } else {
        lanes.push(normalized);
        assert(path_views(lanes@) =~= seq![normalized@]);
    }
    proof {
        assert(path_views(lanes@).len() == lanes@.len());
    }
    if lanes.len() > MAX_SCAN_LANES {
        return fail("The scan exceeds the bounded logical-lane limit");
    }
    Ok(
        ScanStart {
            plan: Plan {
                root: root.copy(),
                kept: copy_paths(kept),
                mode,
                downloads: copy_path(&setting.downloads),
                lanes: lanes.len(),
                logical,
                max_depth: setting.max_depth,
                hints: setting.hints,
                user: setting.user,
            },
            starts: lanes,
            link_limit: setting.link_limit,
        },
    )
}

/// Starts a scan that looks for suggestions, and passes over what is kept.
pub fn scan_with_checkpoint(
    root: &Root,
    scope: &Option<FsPath>,
    kept: &Vec<FsPath>,
    setting: &Setting,
    cancel: bool,
) -> (r: Result<ScanStart, String>)
    ensures
        start_outcome(r, *root, *scope, kept@, *setting, ScanMode::Suggestions, cancel),
{
    scan_with_checkpoint_mode(root, scope, kept, setting, ScanMode::Suggestions, cancel)
}

/// Starts a scan that looks for suggestions, and passes over what is kept.
pub fn scan_with_exclusions(
    root: &Root,
    scope: &Option<FsPath>,
    kept: &Vec<FsPath>,
    setting: &Setting,
    cancel: bool,
) -> (r: Result<ScanStart, String>)
    ensures
        start_outcome(r, *root, *scope, kept@, *setting, ScanMode::Suggestions, cancel),
{
    scan_with_checkpoint(root, scope, kept, setting, cancel)
}

/// Starts a scan that looks for suggestions everywhere in the selected place.
pub fn scan(root: &Root, scope: &Option<FsPath>, setting: &Setting, cancel: bool) -> (r: Result<
    ScanStart,
    String,
>)
    ensures
        start_outcome(r, *root, *scope, seq![], *setting, ScanMode::Suggestions, cancel),
{
    let none: Vec<FsPath> = Vec::new();
    assert(none@ =~= seq![]);
    scan_with_exclusions(root, scope, &none, setting, cancel)
}

/// What was observed of a place to start from, as far as it was asked for.
pub struct LaneFact {
    /// Where the scan really starts for it.
    pub place: Option<Result<FsPath, String>>,
    /// What is there; nothing, where it is gone.
    pub meta: Option<Result<Option<EntryMeta>, String>>,
}

/// What is asked of a place to start from.
#[derive(Clone, Copy, Debug, PartialEq, Eq, Structural)]
pub enum LaneAsk {
    Place,
    Meta,
}

/// The places that were found, and what was passed over.
#[verifier::ext_equal]
pub struct Opening {
    pub skipped: u64,
    pub errors: u64,
    pub next: Seq<StartView>,
}

/// How far the places to start from are known.
pub enum LaneStep {
    Need(int, LaneAsk),
    Fail(Seq<char>),
    /// The only place is gone.
    Removed(Opening),
    Have(Opening),
}

/// One place to start from. Within separate lanes, one that cannot be reached is
/// counted and passed over.
pub open spec fn lane_step(
    plan: Plan,
    requested: Seq<u8>,
    fact: LaneFact,
    lane: int,
    expected: Option<EntryMeta>,
    before: Opening,
) -> LaneStep {
    let failing = Opening { errors: crate::model::capped(before.errors + 1), ..before };
    if kept_over(plan.kept@, requested) {
        LaneStep::Have(Opening { skipped: crate::model::capped(before.skipped + 1), ..before })
    } else {
        match fact.place {
            None => LaneStep::Need(lane, LaneAsk::Place),
            Some(Err(reason)) => if plan.logical {
                LaneStep::Have(failing)
            } else {
                LaneStep::Fail(reason@)
            },
            Some(Ok(place)) => match fact.meta {
                None => LaneStep::Need(lane, LaneAsk::Meta),
                Some(Err(reason)) => if plan.logical {
                    LaneStep::Have(failing)
                } else {
                    LaneStep::Fail(reason@)
                },
                Some(Ok(None)) => if expected is Some {
                    LaneStep::Fail("The selected refresh scope disappeared before traversal"@)
                } else if plan.logical {
                    LaneStep::Have(before)
                } else {
                    LaneStep::Removed(before)
                },
                Some(Ok(Some(meta))) => if expected is Some && expected != Some(meta) {
                    LaneStep::Fail("The selected refresh scope changed before traversal"@)
                } else {
                    LaneStep::Have(
                        Opening {
                            next: before.next.push(
                                StartView {
                                    entry: Spot { path: place@, meta },
                                    lane: lane as usize,
                                },
                            ),
                            ..before
                        },
                    )
                },
            },
        }
    }
}

/// The first `n` places to start from.
pub open spec fn lanes_step(
    plan: Plan,
    requested: Seq<Seq<u8>>,
    facts: Seq<LaneFact>,
    n: int,
    expected: Option<EntryMeta>,
) -> LaneStep
    decreases n,
{
    if n <= 0 {
        LaneStep::Have(Opening { skipped: 0, errors: 0, next: seq![] })
    } else {
        match lanes_step(plan, requested, facts, n - 1, expected) {
            LaneStep::Have(before) => lane_step(
                plan,
                requested[n - 1],
                facts[n - 1],
                n - 1,
                expected,
                before,
            ),
            other => other,
        }
    }
}

pub open spec fn scanning_message() -> Seq<char> {
    "Scanning authorized local files…"@
}

/// The counters when discovery begins.
pub open spec fn first_counts(opening: Opening) -> Counters {
    Counters {
        skipped: opening.skipped,
        errors: opening.errors,
        message: scanning_message(),
        ..no_counts()
    }
}

/// A session that has not taken a turn yet.
pub open spec fn fresh(plan: Plan, links: LinkState, opening: Opening) -> ScanState {
    ScanState {
        plan,
        links,
        stats: first_counts(opening),
        press: Press { queued: seq![], due: false, outbox: seq![] },
        next: opening.next,
        frontier: seq![],
        deferred: seq![],
        measurements: seq![],
        measurement_turn: false,
        lane_turn: 0,
        phase: Stage::Idle,
    }
}

/// How far a scan has come to its start.
pub enum Begin {
    Need(usize, LaneAsk),
    Fail(String),
    /// The selected place is gone; there is nothing to scan.
    Removed(ScanStats),
    Begun(ScanSession),
}

/// Whether a start is what is expected of it.
pub open spec fn begun(
    r: Begin,
    start: ScanStart,
    links: LinkState,
    facts: Seq<LaneFact>,
    expected: Option<EntryMeta>,
    t: Tick,
) -> bool {
    let requested = path_views(start.starts@);
    if expected is Some && requested.len() != 1 {
        r matches Begin::Fail(text) && text@
            == "An exact refresh cannot span multiple logical lanes"@
    } else if t.cancel {
        r matches Begin::Fail(text) && text@ == "Cancelled"@
    } else {
        match lanes_step(start.plan, requested, facts, requested.len() as int, expected) {
            LaneStep::Need(lane, ask) => r matches Begin::Need(at, what) && at == lane && what
                == ask,
            LaneStep::Fail(reason) => r matches Begin::Fail(text) && text@ == reason,
            LaneStep::Removed(opening) => r matches Begin::Removed(stats) && stats@ == (Counters {
                complete: true,
                elapsed_ms: t.elapsed_ms,
                message: "Removed scope reconciled without scanning its parent."@,
                ..first_counts(opening)
            }),
            LaneStep::Have(opening) => r matches Begin::Begun(session) && session@ == fresh(
                start.plan,
                links,
                opening,
            ),
        }
    }
}

proof fn lanes_stop(
    i: int,
    n: int,
    plan: Plan,
    requested: Seq<Seq<u8>>,
    facts: Seq<LaneFact>,
    expected: Option<EntryMeta>,
)
    requires
        0 <= i <= n,
        !(lanes_step(plan, requested, facts, i, expected) is Have),
    ensures
        lanes_step(plan, requested, facts, n, expected) == lanes_step(
            plan,
            requested,
            facts,
            i,
            expected,
        ),
    decreases n - i,
{
    if i < n {
        lanes_stop(i + 1, n, plan, requested, facts, expected);
    }
}

/// Begins discovery at the places that a scan starts from. The same lookup tells
/// whether a place is there and what it is: a short-lived one may be gone before
/// discovery starts, and only a place known to be gone is complete without any
/// entry. `links` are the files that were counted before, where two scans share
/// their accounting.
pub fn begin_scan(
    start: ScanStart,
    links: Hardlinks,
    facts: &Vec<LaneFact>,
    expected: &Option<EntryMeta>,
    t: Tick,
) -> (r: Begin)
    requires
        facts@.len() == start.starts@.len(),
        start.plan.lanes == start.starts@.len(),
        start.starts@.len() <= MAX_SCAN_LANES,
    ensures
        begun(r, start, links@, facts@, *expected, t),
        r matches Begin::Begun(session) ==> session@.wf() && steady(session@),
{
    let ghost requested = path_views(start.starts@);
    if expected.is_some() && start.starts.len() != 1 {
        return Begin::Fail("An exact refresh cannot span multiple logical lanes".to_owned());
    }
    if t.cancel {
        return Begin::Fail("Cancelled".to_owned());
    }
    let mut stats: ScanStats = ScanStats::new();
    stats.message = "Scanning authorized local files…".to_owned();
    let mut next: Vec<Start> = Vec::new();
    let total: usize = start.starts.len();
    let mut lane: usize = 0;
    let ghost mut opening: Opening = Opening { skipped: 0, errors: 0, next: seq![] };
    assert(stats@ =~= first_counts(opening));
    assert(starts(next@) =~= opening.next);
    while lane < total
        invariant
            lane <= total,
            total == start.starts@.len(),
            facts@.len() == total,
            requested == path_views(start.starts@),
            !(expected is Some && requested.len() != 1),
            !t.cancel,
            lanes_step(start.plan, requested, facts@, lane as int, *expected) == LaneStep::Have(
                opening,
            ),
            stats@ == first_counts(opening),
            starts(next@) == opening.next,
        decreases total - lane,
    {
        let ghost here = lane as int;
        let ghost before = opening;
        let ghost row = lane_step(
            start.plan,
            requested[here],
            facts@[here],
            here,
            *expected,
            before,
        );
        let fact: &LaneFact = &facts[lane];
        assert(requested[here] == start.starts@[here]@);
        assert(lanes_step(start.plan, requested, facts@, here + 1, *expected) == row);
        if is_kept_over(&start.plan.kept, &start.starts[lane]) {
            count(&mut stats.skipped, 1);
            proof {
                opening = row->Have_0;
            }
        } else {
            match &fact.place {
                None => {
                    proof {
                        lanes_stop(
                            here + 1,
                            total as int,
                            start.plan,
                            requested,
                            facts@,
                            *expected,
                        );
                    }
                    return Begin::Need(lane, LaneAsk::Place);
                },
                Some(Err(reason)) => {
                    if start.plan.logical {
                        count(&mut stats.errors, 1);
                        proof {
                            opening = row->Have_0;
                        }
                    } else {
                        proof {
                            lanes_stop(
                                here + 1,
                                total as int,
                                start.plan,
                                requested,
                                facts@,
                                *expected,
                            );
                        }
                        return Begin::Fail(reason.clone());
                    }
                },
                Some(Ok(place)) => match &fact.meta {
                    None => {
                        proof {
                            lanes_stop(
                                here + 1,
                                total as int,
                                start.plan,
                                requested,
                                facts@,
                                *expected,
                            );
                        }
                        return Begin::Need(lane, LaneAsk::Meta);
                    },
                    Some(Err(reason)) => {
                        if start.plan.logical {
                            count(&mut stats.errors, 1);
                            proof {
                                opening = row->Have_0;
                            }
                        } else {
                            proof {
                                lanes_stop(
                                    here + 1,
                                    total as int,
                                    start.plan,
                                    requested,
                                    facts@,
                                    *expected,
                                );
                            }
                            return Begin::Fail(reason.clone());
                        }
                    },
                    Some(Ok(None)) => {
                        if expected.is_some() {
                            proof {
                                lanes_stop(
                                    here + 1,
                                    total as int,
                                    start.plan,
                                    requested,
                                    facts@,
                                    *expected,
                                );
                            }
                            return Begin::Fail(
                                "The selected refresh scope disappeared before traversal".to_owned(),
                            );
                        }
                        if !start.plan.logical {
                            proof {
                                lanes_stop(
                                    here + 1,
                                    total as int,
                                    start.plan,
                                    requested,
                                    facts@,
                                    *expected,
                                );
                            }
                            stats.complete = true;
                            stats.elapsed_ms = t.elapsed_ms;
                            stats.message =
                            "Removed scope reconciled without scanning its parent.".to_owned();
                            return Begin::Removed(stats);
                        }
                    },
                    Some(Ok(Some(meta))) => {
                        let changed: bool = match expected {
                            Some(known) => *known != *meta,
                            None => false,
                        };
                        if changed {
                            proof {
                                lanes_stop(
                                    here + 1,
                                    total as int,
                                    start.plan,
                                    requested,
                                    facts@,
                                    *expected,
                                );
                            }
                            return Begin::Fail(
                                "The selected refresh scope changed before traversal".to_owned(),
                            );
                        }
                        let place: Start = Start {
                            entry: Entry { path: share(place), meta: *meta },
                            lane,
                        };
                        let ghost added = place@;
                        next.push(place);
                        proof {
                            opening = row->Have_0;
                            assert(starts(next@) =~= before.next.push(added));
                        }
                    },
                },
            }
        }
        lane = lane + 1;
    }
    let session: ScanSession = ScanSession {
        plan: start.plan,
        links,
        stats,
        press: Publisher::new(),
        next,
        frontier: Vec::new(),
        deferred: Vec::new(),
        measurements: Vec::new(),
        measurement_turn: false,
        lane_turn: 0,
        phase: Phase::Idle,
    };
    assert(session@ =~= fresh(start.plan, links@, opening));
    Begin::Begun(session)
}

/// What the place of a folder says of how it is read.
#[derive(Clone, Copy, Debug, PartialEq, Eq, Structural)]
pub struct FolderFacts {
    /// Whether it lies in one of the library's own areas.
    pub library: bool,
    /// Whether it is the top of the caches among them.
    pub caches_top: bool,
    /// Whether it lies in a place for personal files.
    pub personal: bool,
}

/// How a folder is read: by the rules of the library, of personal files or of
/// projects, or entry by entry. The children of a home folder have rules of
/// their own.
#[derive(Clone, Copy, Debug, PartialEq, Eq, Structural)]
pub enum Reader {
    Library(bool),
    Personal(bool),
    Discovery(bool),
    Plain,
}

/// How a folder is read.
pub open spec fn reader_of(plan: Plan, path: Seq<u8>, facts: FolderFacts) -> Reader {
    let home = plan.root.kind@ == "home"@ && same_place(path, plan.root.path@);
    if facts.library {
        Reader::Library(facts.caches_top)
    } else if plan.mode == ScanMode::Suggestions && !(plan.downloads matches Some(base) && under(
        path,
        base@,
    )) {
        if facts.personal {
            Reader::Personal(home)
        } else {
            Reader::Discovery(home)
        }
    } else {
        Reader::Plain
    }
}

impl Plan {
    /// How a folder is read.
    pub fn reader(&self, path: &FsPath, facts: FolderFacts) -> (r: Reader)
        ensures
            r == reader_of(*self, path@, facts),
    {
        if facts.library {
            return Reader::Library(facts.caches_top);
        }
        let downloaded: bool = match &self.downloads {
            Some(base) => is_under(path_bytes(path), path_bytes(base)),
            None => false,
        };
        if self.mode == ScanMode::Suggestions && !downloaded {
            let home: bool = same_text(self.root.kind.as_str(), "home") && is_same_place(
                path_bytes(path),
                path_bytes(&self.root.path),
            );
            if facts.personal {
                Reader::Personal(home)
            } else {
                Reader::Discovery(home)
            }
        } else {
            Reader::Plain
        }
    }
}

proof fn routes_stay(root: Seq<u8>, routes: Seq<String>, selected: Seq<u8>, i: int)
    requires
        0 <= i < routed(root, routes, selected).len(),
    ensures
        under(routed(root, routes, selected)[i], selected),
        routed(root, routes, selected).len() <= routes.len(),
    decreases routes.len(),
{
    if routes.len() > 0 {
        let before = routed(root, routes.drop_last(), selected);
        if i < before.len() {
            routes_stay(root, routes.drop_last(), selected, i);
        } else if before.len() > 0 {
            routes_stay(root, routes.drop_last(), selected, 0);
        }
    }
}

/// No lane of a home folder leaves what was selected.
pub proof fn lanes_stay_in_the_selection(
    root: Root,
    scope: Option<FsPath>,
    setting: Setting,
    i: int,
)
    requires
        in_lanes(root, scope, setting),
        0 <= i < lanes_of(root, scope, setting).len(),
    ensures
        under(lanes_of(root, scope, setting)[i], selected(root, scope)),
{
    let routes = routed(root.path@, setting.routes@, selected(root, scope));
    if i < routes.len() {
        routes_stay(root.path@, setting.routes@, selected(root, scope), i);
    } else if same_place(selected(root, scope), root.path@) {
        crate::paths::under_itself(root.path@, selected(root, scope));
    }
}

} // verus!
