//! The storage overview: what it waits for, and how each answer moves it on.
use super::report::{
    blank_report, boundary, boundary_failure, one_object, same_object, CleanupAuthority, Failure,
    FailureView, InventoryState, IssueKind, ReportView, RowView, StorageInventoryReport,
    StorageInventoryRow, MAX_PATH_BYTES,
};
use super::locate::moved_failure;
use super::routes::{route_at, route_of, Route, Tool, SYSTEM_ROUTES, USER_ROUTES};
use crate::model::{capped, count, EntryMeta, Identity, Root};
use crate::paths::{child, fs_path, join, join_text, named, path_bytes, root_path, share, FsPath, SLASH};
use crate::sightings::link_key;
use crate::text::{ends, same_bytes, same_text};
use std::collections::HashSet;
use vstd::prelude::*;
use vstd::slice::slice_subrange;
use vstd::utf8::encode_utf8;

verus! {

/// How far an overview goes.
#[derive(Debug, Clone, Copy, PartialEq, Eq, Structural)]
pub struct Limits {
    pub entries_per_route: u64,
    pub total_entries: u64,
    pub depth: usize,
    pub route_ms: u64,
    pub total_ms: u64,
}

/// The limits that hold unless others are chosen.
pub open spec fn standard_limits() -> Limits {
    Limits {
        entries_per_route: 24_000,
        total_entries: 160_000,
        depth: 32,
        route_ms: 250,
        total_ms: 4_000,
    }
}

impl Limits {
    pub fn standard() -> (r: Limits)
        ensures
            r == standard_limits(),
    {
        Limits {
            entries_per_route: 24_000,
            total_entries: 160_000,
            depth: 32,
            route_ms: 250,
            total_ms: 4_000,
        }
    }
}

/// The moment of an answer: how long the overview and its current location have
/// taken.
#[derive(Debug, Clone, Copy, PartialEq, Eq, Structural)]
pub struct Moment {
    pub total_ms: u64,
    pub route_ms: u64,
}

/// What is held of a location while it is observed.
pub struct Visit {
    pub path: FsPath,
    pub meta: EntryMeta,
    pub state: InventoryState,
    pub allocated: u64,
    pub logical: u64,
    pub files: u64,
    pub directories: u64,
}

#[verifier::ext_equal]
pub struct VisitView {
    pub path: Seq<u8>,
    pub meta: EntryMeta,
    pub state: InventoryState,
    pub allocated: u64,
    pub logical: u64,
    pub files: u64,
    pub directories: u64,
}

impl View for Visit {
    type V = VisitView;

    open spec fn view(&self) -> VisitView {
        VisitView {
            path: self.path@,
            meta: self.meta,
            state: self.state,
            allocated: self.allocated,
            logical: self.logical,
            files: self.files,
            directories: self.directories,
        }
    }
}

/// An open folder of a location. The number stands for its handle.
pub struct Folder {
    pub id: u64,
    pub path: FsPath,
    pub initial: EntryMeta,
}

#[verifier::ext_equal]
pub struct FolderView {
    pub id: u64,
    pub path: Seq<u8>,
    pub initial: EntryMeta,
}

impl View for Folder {
    type V = FolderView;

    open spec fn view(&self) -> FolderView {
        FolderView { id: self.id, path: self.path@, initial: self.initial }
    }
}

/// A location whose folders are walked.
pub struct Walk {
    pub visit: Visit,
    pub stack: Vec<Folder>,
    pub inodes: HashSet<u128>,
    pub entries: u64,
}

#[verifier::ext_equal]
pub struct WalkView {
    pub visit: VisitView,
    pub stack: Seq<FolderView>,
    pub inodes: Set<u128>,
    pub entries: u64,
}

pub open spec fn folders(stack: Seq<Folder>) -> Seq<FolderView> {
    stack.map_values(|f: Folder| f@)
}

impl View for Walk {
    type V = WalkView;

    open spec fn view(&self) -> WalkView {
        WalkView {
            visit: self.visit@,
            stack: folders(self.stack@),
            inodes: self.inodes@,
            entries: self.entries,
        }
    }
}

/// What an overview waits for.
pub enum Phase {
    /// The home folder, opened and looked at.
    Home,
    /// The next location.
    Idle,
    /// Where the location leads.
    Locating(FsPath),
    /// The metadata of a single file, once more.
    Reading(Visit),
    /// The folder of the location, opened.
    Entering(Visit),
    /// The next turn in a location.
    Walking(Walk),
    /// The next name in the innermost folder.
    Listing(Walk),
    /// The metadata of a folder that was read, once more.
    Settling(Walk, Folder),
    /// The metadata of an entry; whether its name is one of cloud storage.
    Looking(Walk, FsPath, bool),
    /// The entry opened as a folder.
    Descending(Walk, FsPath, EntryMeta),
    /// Where the location leads now.
    Verifying(Visit),
    /// The file system's root, opened.
    System,
    /// The home folder, opened and looked at once more.
    Closing,
    /// Nothing more.
    Done,
}

#[verifier::ext_equal]
pub enum Stage {
    Home,
    Idle,
    Locating(Seq<u8>),
    Reading(VisitView),
    Entering(VisitView),
    Walking(WalkView),
    Listing(WalkView),
    Settling(WalkView, FolderView),
    Looking(WalkView, Seq<u8>, bool),
    Descending(WalkView, Seq<u8>, EntryMeta),
    Verifying(VisitView),
    System,
    Closing,
    Done,
}

impl View for Phase {
    type V = Stage;

    open spec fn view(&self) -> Stage {
        match self {
            Phase::Home => Stage::Home,
            Phase::Idle => Stage::Idle,
            Phase::Locating(path) => Stage::Locating(path@),
            Phase::Reading(visit) => Stage::Reading(visit@),
            Phase::Entering(visit) => Stage::Entering(visit@),
            Phase::Walking(walk) => Stage::Walking(walk@),
            Phase::Listing(walk) => Stage::Listing(walk@),
            Phase::Settling(walk, folder) => Stage::Settling(walk@, folder@),
            Phase::Looking(walk, path, cloud) => Stage::Looking(walk@, path@, *cloud),
            Phase::Descending(walk, path, meta) => Stage::Descending(walk@, path@, *meta),
            Phase::Verifying(visit) => Stage::Verifying(visit@),
            Phase::System => Stage::System,
            Phase::Closing => Stage::Closing,
            Phase::Done => Stage::Done,
        }
    }
}

/// An answer to what an overview waits for.
pub enum Event {
    Proceed,
    Home(Result<EntryMeta, Failure>),
    Located(Result<Option<EntryMeta>, Failure>),
    Stat(Result<EntryMeta, Failure>),
    Opened(Result<u64, Failure>),
    /// The next name, and whether it is one of cloud storage.
    Next(Result<Option<(Vec<u8>, bool)>, Failure>),
    /// What a folder that was read is now, as it is open and by its name, where that
    /// could be seen.
    Settled(Option<EntryMeta>, Option<EntryMeta>),
    System(Result<(), Failure>),
}

/// A storage overview.
pub struct Scan {
    pub report: StorageInventoryReport,
    pub limits: Limits,
    pub home: FsPath,
    pub expected: Identity,
    pub include_system: bool,
    pub tool: Tool,
    pub user: u32,
    pub home_meta: Option<EntryMeta>,
    /// The number of the location that is observed, or comes next.
    pub turn: usize,
    pub system_open: bool,
    pub phase: Phase,
}

#[verifier::ext_equal]
pub struct ScanView {
    pub report: ReportView,
    pub limits: Limits,
    pub home: Seq<u8>,
    pub expected: Identity,
    pub include_system: bool,
    pub tool: Tool,
    pub user: u32,
    pub home_meta: Option<EntryMeta>,
    pub turn: usize,
    pub system_open: bool,
    pub phase: Stage,
}

impl View for Scan {
    type V = ScanView;

    open spec fn view(&self) -> ScanView {
        ScanView {
            report: self.report@,
            limits: self.limits,
            home: self.home@,
            expected: self.expected,
            include_system: self.include_system,
            tool: self.tool,
            user: self.user,
            home_meta: self.home_meta,
            turn: self.turn,
            system_open: self.system_open,
            phase: self.phase@,
        }
    }
}

pub open spec fn fault(kind: IssueKind, detail: Seq<char>) -> FailureView {
    FailureView { kind, detail }
}

/// Why an overview stops here, if it does.
pub open spec fn limit_reached(
    limits: Limits,
    examined: u64,
    entries: u64,
    m: Moment,
) -> Option<FailureView> {
    if m.total_ms >= limits.total_ms || m.route_ms >= limits.route_ms {
        Some(
            fault(
                IssueKind::TimeLimit,
                "The overview reached its time limit. Only the measured portion is shown."@,
            ),
        )
    } else if examined >= limits.total_entries || entries >= limits.entries_per_route {
        Some(
            fault(
                IssueKind::EntryLimit,
                "The overview reached its entry limit. Only the measured portion is shown."@,
            ),
        )
    } else {
        None
    }
}

/// The row that a location gives, if it gives one. What was not measured has no
/// size, and an empty folder that was read in full is nothing to review.
pub open spec fn row_of(visit: VisitView, route: Route, tool: Tool, hidden: bool) -> Option<RowView> {
    if visit.state == InventoryState::Complete && visit.files == 0 {
        None
    } else {
        let unmeasured = hidden || visit.state == InventoryState::Unavailable || (visit.state
            == InventoryState::Partial && visit.files == 0);
        Some(
            RowView {
                id: route.id.text(tool),
                title: route.title.text(tool),
                category: route.category@,
                path: visit.path,
                state: visit.state,
                allocated_bytes: if unmeasured {
                    None
                } else {
                    Some(visit.allocated)
                },
                logical_bytes: if unmeasured {
                    None
                } else {
                    Some(visit.logical)
                },
                files: visit.files,
                directories: visit.directories,
                detail: route.detail.text(tool),
                owner_followup: route.followup.text(tool),
                provider: match route.provider {
                    Some(name) => Some(name@),
                    None => None,
                },
                cleanup_authority: CleanupAuthority::ReviewOnly,
            },
        )
    }
}

/// Whether a child of a location has a location of its own.
pub open spec fn skips(route: Route, depth: int, name: Seq<u8>) -> bool {
    depth == 1 && (route.skip_child matches Some(child) && name == encode_utf8(child@))
}

/// Whether a shallow location passes over a name.
pub open spec fn passes_over(route: Route, name: Seq<u8>) -> bool {
    route.child_suffix matches Some(suffix) && !ends(name, encode_utf8(suffix@))
}


impl VisitView {
    pub open spec fn turned(self, state: InventoryState) -> VisitView {
        VisitView { state, ..self }
    }

    pub open spec fn partial(self) -> VisitView {
        self.turned(InventoryState::Partial)
    }

    pub open spec fn unavailable(self) -> VisitView {
        self.turned(InventoryState::Unavailable)
    }
}

impl WalkView {
    pub open spec fn partial(self) -> WalkView {
        WalkView { visit: self.visit.partial(), ..self }
    }
}

impl ScanView {
    pub open spec fn to(self, phase: Stage) -> ScanView {
        ScanView { phase, ..self }
    }

    pub open spec fn issue(self, path: Seq<u8>, failure: FailureView) -> ScanView {
        ScanView { report: self.report.issue(path, failure), ..self }
    }

    pub open spec fn finish(self, m: Moment) -> ScanView {
        ScanView {
            report: ReportView { elapsed_ms: m.total_ms, ..self.report },
            phase: Stage::Done,
            ..self
        }
    }

    /// The location after this one.
    pub open spec fn onward(self) -> ScanView {
        ScanView { turn: (self.turn + 1) as usize, phase: Stage::Idle, ..self }
    }

    /// Whether the current location lies outside the home folder.
    pub open spec fn at_system(self) -> bool {
        self.turn >= USER_ROUTES
    }

    /// Whether an entry belongs to the user, or to the system where that counts.
    pub open spec fn owned(self, meta: EntryMeta) -> bool {
        meta.uid == self.user || (self.at_system() && meta.uid == 0)
    }

    /// The device that a location must lie on.
    pub open spec fn device(self) -> Option<u64> {
        if self.at_system() {
            None
        } else {
            match self.home_meta {
                Some(meta) => Some(meta.identity.device),
                None => None,
            }
        }
    }

    /// The home folder was looked at. It must be the user's own, and the one that
    /// was authorized.
    #[verifier::opaque]
    pub open spec fn entered_home(self, outcome: Result<EntryMeta, Failure>, m: Moment) -> ScanView {
        match outcome {
            Err(failure) => self.issue(self.home, failure@).finish(m),
            Ok(meta) => if meta.uid != self.user {
                self.issue(
                    self.home,
                    fault(
                        IssueKind::PermissionDenied,
                        "The home folder is owned by another user."@,
                    ),
                ).finish(m)
            } else if meta.identity.device != self.expected.device || meta.identity.inode
                != self.expected.inode || meta.identity.mode != self.expected.mode {
                self.issue(
                    self.home,
                    fault(
                        IssueKind::Changed,
                        "The authorized home folder was replaced. Choose the folder again before scanning."@,
                    ),
                ).finish(m)
            } else {
                ScanView { home_meta: Some(meta), ..self }.to(Stage::Idle)
            },
        }
    }

    /// The next location, where the limits leave room for it.
    #[verifier::opaque]
    pub open spec fn proceed(self, m: Moment) -> ScanView {
        if self.turn >= USER_ROUTES + SYSTEM_ROUTES || (self.at_system() && !self.include_system) {
            self.to(Stage::Closing)
        } else if self.at_system() && !self.system_open {
            self.to(Stage::System)
        } else {
            let route = route_of(self.turn as int);
            let base = if self.at_system() {
                root_path()
            } else {
                self.home
            };
            let path = named(base, route.relative.text(self.tool));
            match limit_reached(
                self.limits,
                self.report.examined_entries,
                0,
                Moment { route_ms: 0, ..m },
            ) {
                Some(failure) => self.issue(path, failure).onward(),
                None => self.to(Stage::Locating(path)),
            }
        }
    }

    /// The file system's root was opened, or not.
    pub open spec fn entered_system(self, outcome: Result<(), Failure>) -> ScanView {
        match outcome {
            Ok(_) => ScanView { system_open: true, ..self }.to(Stage::Idle),
            Err(failure) => self.issue(root_path(), failure@).to(Stage::Closing),
        }
    }

    /// Where a location leads, is known.
    #[verifier::opaque]
    pub open spec fn located(self, path: Seq<u8>, outcome: Result<Option<EntryMeta>, Failure>) -> ScanView {
        match outcome {
            Err(failure) => self.issue(path, failure@).onward(),
            Ok(None) => self.onward(),
            Ok(Some(meta)) => {
                let s = ScanView { report: self.report.examine(), ..self };
                let visit = VisitView {
                    path,
                    meta,
                    state: InventoryState::Complete,
                    allocated: 0,
                    logical: 0,
                    files: 0,
                    directories: 0,
                };
                if !s.owned(meta) {
                    s.issue(
                        path,
                        fault(
                            IssueKind::PermissionDenied,
                            "This storage belongs to another user."@,
                        ),
                    ).to(Stage::Verifying(visit.unavailable()))
                } else if route_of(self.turn as int).file_only {
                    if meta.file() {
                        s.to(
                            Stage::Reading(
                                VisitView {
                                    files: 1,
                                    allocated: meta.allocated,
                                    logical: meta.identity.size,
                                    ..visit
                                },
                            ),
                        )
                    } else {
                        s.issue(
                            path,
                            fault(
                                IssueKind::Unavailable,
                                "The expected disk-image file has a different type."@,
                            ),
                        ).to(Stage::Verifying(visit.unavailable()))
                    }
                } else if meta.dir() {
                    s.to(Stage::Entering(visit))
                } else {
                    s.issue(
                        path,
                        fault(
                            IssueKind::Unavailable,
                            "The expected storage folder has a different type."@,
                        ),
                    ).to(Stage::Verifying(visit.unavailable()))
                }
            },
        }
    }

    /// A single file was looked at once more.
    pub open spec fn reread(self, visit: VisitView, outcome: Result<EntryMeta, Failure>) -> ScanView {
        if outcome matches Ok(meta) && meta == visit.meta {
            self.to(Stage::Verifying(visit))
        } else {
            self.issue(
                visit.path,
                fault(IssueKind::Changed, "The file changed while its size was being read."@),
            ).to(Stage::Verifying(visit.partial()))
        }
    }

    /// The folder of a location was opened, or not.
    #[verifier::opaque]
    pub open spec fn entered(self, visit: VisitView, outcome: Result<u64, Failure>) -> ScanView {
        match outcome {
            Err(failure) => self.issue(visit.path, failure@).to(
                Stage::Verifying(visit.unavailable()),
            ),
            Ok(id) => self.to(
                Stage::Walking(
                    WalkView {
                        visit,
                        stack: seq![FolderView { id, path: visit.path, initial: visit.meta }],
                        inodes: Set::empty(),
                        entries: 1,
                    },
                ),
            ),
        }
    }

    /// A walk goes on while there is a folder to read.
    pub open spec fn walk_on(self, walk: WalkView) -> ScanView {
        if walk.stack.len() == 0 {
            self.to(Stage::Verifying(walk.visit))
        } else {
            self.to(Stage::Walking(walk))
        }
    }

    /// The next turn in a location, where the limits leave room for it.
    #[verifier::opaque]
    pub open spec fn turn_in(self, walk: WalkView, m: Moment) -> ScanView {
        match limit_reached(self.limits, self.report.examined_entries, walk.entries, m) {
            Some(failure) => self.issue(walk.visit.path, failure).to(
                Stage::Verifying(walk.visit.partial()),
            ),
            None => self.to(Stage::Listing(walk)),
        }
    }

    /// The next name in the innermost folder.
    #[verifier::opaque]
    pub open spec fn listed(
        self,
        walk: WalkView,
        outcome: Result<Option<(Vec<u8>, bool)>, Failure>,
    ) -> ScanView {
        let folder = walk.stack.last();
        let rest = WalkView { stack: walk.stack.drop_last(), ..walk };
        match outcome {
            Ok(None) => self.to(Stage::Settling(rest, folder)),
            Err(failure) => self.issue(folder.path, failure@).walk_on(rest.partial()),
            Ok(Some(pair)) => {
                let name = pair.0@;
                let route = route_of(self.turn as int);
                let path = child(folder.path, name);
                let s = ScanView { report: self.report.examine(), ..self };
                let more = WalkView { entries: capped(walk.entries + 1), ..walk };
                if skips(route, walk.stack.len() as int, name) || passes_over(route, name) {
                    s.to(Stage::Walking(more))
                } else if path.len() > MAX_PATH_BYTES {
                    s.issue(
                        folder.path,
                        fault(
                            IssueKind::DepthLimit,
                            "A nested path exceeded the overview's path limit."@,
                        ),
                    ).to(Stage::Walking(more.partial()))
                } else {
                    s.to(Stage::Looking(more, path, pair.1))
                }
            },
        }
    }

    /// A folder that was read was looked at again, as it is open and by its name. It
    /// is unchanged where both show what was seen at first.
    pub open spec fn settled(
        self,
        walk: WalkView,
        folder: FolderView,
        held: Option<EntryMeta>,
        named: Option<EntryMeta>,
    ) -> ScanView {
        if held == Some(folder.initial) && named == Some(folder.initial) {
            self.walk_on(walk)
        } else {
            self.issue(
                folder.path,
                fault(
                    IssueKind::Changed,
                    "This folder changed during the overview. Scan again for a fresh measurement."@,
                ),
            ).walk_on(walk.partial())
        }
    }

    /// A file of a location. Its names all count, its bytes once.
    #[verifier::opaque]
    pub open spec fn counted(self, walk: WalkView, path: Seq<u8>, meta: EntryMeta) -> ScanView {
        let visit = VisitView { files: capped(walk.visit.files + 1), ..walk.visit };
        let key = link_key(meta.identity);
        if walk.inodes.contains(key) {
            self.to(Stage::Walking(WalkView { visit, ..walk }))
        } else if visit.allocated + meta.allocated > u64::MAX || visit.logical + meta.identity.size
            > u64::MAX {
            self.issue(
                path,
                fault(
                    IssueKind::Unavailable,
                    "The storage measurement exceeded the supported size."@,
                ),
            ).to(Stage::Verifying(visit.unavailable()))
        } else {
            self.to(
                Stage::Walking(
                    WalkView {
                        visit: VisitView {
                            allocated: (visit.allocated + meta.allocated) as u64,
                            logical: (visit.logical + meta.identity.size) as u64,
                            ..visit
                        },
                        inodes: walk.inodes.insert(key),
                        ..walk
                    },
                ),
            )
        }
    }

    /// A folder within a location.
    #[verifier::opaque]
    pub open spec fn nested(self, walk: WalkView, path: Seq<u8>, meta: EntryMeta, cloud: bool) -> ScanView {
        if route_of(self.turn as int).child_suffix is Some {
            self.to(Stage::Walking(walk))
        } else {
            let more = WalkView {
                visit: VisitView {
                    directories: capped(walk.visit.directories + 1),
                    ..walk.visit
                },
                ..walk
            };
            if walk.stack.len() >= self.limits.depth || cloud {
                self.issue(
                    path,
                    fault(
                        if cloud {
                            IssueKind::CloudPlaceholder
                        } else {
                            IssueKind::DepthLimit
                        },
                        "This nested folder was excluded from the bounded local overview."@,
                    ),
                ).to(Stage::Walking(more.partial()))
            } else {
                self.to(Stage::Descending(more, path, meta))
            }
        }
    }

    /// The metadata of an entry is known.
    #[verifier::opaque]
    pub open spec fn looked(
        self,
        walk: WalkView,
        path: Seq<u8>,
        cloud: bool,
        outcome: Result<EntryMeta, Failure>,
    ) -> ScanView {
        let rejected = Stage::Walking(walk.partial());
        match outcome {
            Err(failure) => self.issue(path, failure@).to(rejected),
            Ok(meta) => match boundary_failure(meta, Some(walk.visit.meta.identity.device)) {
                Some(failure) => self.issue(path, failure).to(rejected),
                None => if !self.owned(meta) {
                    self.issue(
                        path,
                        fault(
                            IssueKind::PermissionDenied,
                            "An entry is owned by another user and was excluded."@,
                        ),
                    ).to(rejected)
                } else if meta.file() {
                    self.counted(walk, path, meta)
                } else if meta.dir() {
                    self.nested(walk, path, meta, cloud)
                } else {
                    self.issue(
                        path,
                        fault(IssueKind::Unavailable, "A special filesystem entry was excluded."@),
                    ).to(rejected)
                },
            },
        }
    }

    /// A folder within a location was opened, or not.
    #[verifier::opaque]
    pub open spec fn descended(
        self,
        walk: WalkView,
        path: Seq<u8>,
        meta: EntryMeta,
        outcome: Result<u64, Failure>,
    ) -> ScanView {
        match outcome {
            Err(failure) => self.issue(path, failure@).to(Stage::Walking(walk.partial())),
            Ok(id) => self.to(
                Stage::Walking(
                    WalkView {
                        stack: walk.stack.push(FolderView { id, path, initial: meta }),
                        ..walk
                    },
                ),
            ),
        }
    }

    /// Where a location leads after it was observed, is known. A handle can stay
    /// valid after a folder above it was renamed, so the path is followed again
    /// before it labels a measurement.
    #[verifier::opaque]
    pub open spec fn verified(self, visit: VisitView, outcome: Result<Option<EntryMeta>, Failure>) -> ScanView {
        let same = outcome matches Ok(Some(meta)) && one_object(meta, visit.meta);
        let s = if same {
            self
        } else {
            self.issue(visit.path, moved_failure())
        };
        let shown = if same {
            visit
        } else {
            visit.partial()
        };
        match row_of(shown, route_of(self.turn as int), self.tool, !same) {
            None => s.onward(),
            Some(row) => ScanView {
                report: ReportView { rows: s.report.rows.push(row), ..s.report },
                ..s
            }.onward(),
        }
    }

    /// The home folder was looked at once more. Where it is no longer the same,
    /// nothing that was observed is reported.
    #[verifier::opaque]
    pub open spec fn closed(self, outcome: Result<EntryMeta, Failure>, m: Moment) -> ScanView {
        let same = outcome matches Ok(current) && (self.home_meta matches Some(meta) && one_object(
            meta,
            current,
        ));
        if same {
            self.finish(m)
        } else {
            ScanView { report: ReportView { rows: seq![], ..self.report }, ..self }.issue(
                self.home,
                fault(
                    IssueKind::Changed,
                    "The home folder moved or changed during the overview. Scan it again."@,
                ),
            ).finish(m)
        }
    }

    /// How an answer moves an overview on. An answer to something else changes
    /// nothing.
    pub open spec fn step(self, event: Event, m: Moment) -> ScanView {
        self.to(Stage::Idle).answered(self.phase, event, m)
    }

    #[verifier::opaque]
    pub open spec fn answered(self, stage: Stage, event: Event, m: Moment) -> ScanView {
        match (stage, event) {
            (Stage::Home, Event::Home(outcome)) => self.entered_home(outcome, m),
            (Stage::Idle, Event::Proceed) => self.proceed(m),
            (Stage::Locating(path), Event::Located(outcome)) => self.located(path, outcome),
            (Stage::Reading(visit), Event::Stat(outcome)) => self.reread(visit, outcome),
            (Stage::Entering(visit), Event::Opened(outcome)) => self.entered(visit, outcome),
            (Stage::Walking(walk), Event::Proceed) => self.turn_in(walk, m),
            (Stage::Listing(walk), Event::Next(outcome)) => self.listed(walk, outcome),
            (Stage::Settling(walk, folder), Event::Settled(held, named)) => self.settled(
                walk,
                folder,
                held,
                named,
            ),
            (Stage::Looking(walk, path, cloud), Event::Stat(outcome)) => self.looked(
                walk,
                path,
                cloud,
                outcome,
            ),
            (Stage::Descending(walk, path, meta), Event::Opened(outcome)) => self.descended(
                walk,
                path,
                meta,
                outcome,
            ),
            (Stage::Verifying(visit), Event::Located(outcome)) => self.verified(visit, outcome),
            (Stage::System, Event::System(outcome)) => self.entered_system(outcome),
            (Stage::Closing, Event::Home(outcome)) => self.closed(outcome, m),
            _ => self.to(stage),
        }
    }

    /// What every overview keeps: a location is observed only while there is
    /// one, and a walk has a folder to read.
    pub open spec fn wf(self) -> bool {
        &&& self.turn <= USER_ROUTES + SYSTEM_ROUTES
        &&& !(self.phase is Home || self.phase is Idle || self.phase is System
            || self.phase is Closing || self.phase is Done) ==> self.turn < USER_ROUTES
            + SYSTEM_ROUTES
        &&& self.phase matches Stage::Walking(walk) ==> walk.stack.len() > 0
        &&& self.phase matches Stage::Listing(walk) ==> walk.stack.len() > 0
        &&& self.phase matches Stage::Looking(walk, _, _) ==> walk.stack.len() > 0
        &&& self.phase matches Stage::Descending(walk, _, _) ==> walk.stack.len() > 0
    }
}

/// An overview before its first answer.
pub open spec fn first_view(
    root: Root,
    include_system: bool,
    tool: Tool,
    limits: Limits,
    user: u32,
) -> ScanView {
    ScanView {
        report: blank_report(),
        limits,
        home: root.path@,
        expected: root.identity,
        include_system,
        tool,
        user,
        home_meta: None,
        turn: 0,
        system_open: false,
        phase: Stage::Home,
    }
}

/// An overview of a location. Only a home folder authorizes one.
pub open spec fn opening(
    root: Root,
    include_system: bool,
    tool: Tool,
    user: u32,
    m: Moment,
) -> ScanView {
    let start = first_view(root, include_system, tool, standard_limits(), user);
    if root.kind@ != "home"@ {
        start.issue(
            root.path@,
            fault(
                IssueKind::PermissionDenied,
                "A home-folder grant is required for the storage overview."@,
            ),
        ).finish(m)
    } else {
        start
    }
}

fn ends_with(s: &[u8], tail: &[u8]) -> (r: bool)
    ensures
        r == ends(s@, tail@),
{
    if tail.len() > s.len() {
        return false;
    }
    let back: &[u8] = slice_subrange(s, s.len() - tail.len(), s.len());
    assert(back@ =~= s@.skip(s@.len() - tail@.len()));
    same_bytes(back, tail)
}

fn make_row(visit: Visit, route: Route, tool: Tool, hidden: bool) -> (r: Option<StorageInventoryRow>)
    ensures
        match row_of(visit@, route, tool, hidden) {
            Some(row) => r matches Some(got) && got@ == row,
            None => r is None,
        },
{
    if visit.state == InventoryState::Complete && visit.files == 0 {
        return None;
    }
    let unmeasured: bool = hidden || visit.state == InventoryState::Unavailable || (visit.state
        == InventoryState::Partial && visit.files == 0);
    Some(
        StorageInventoryRow {
            id: route.id.render(tool),
            title: route.title.render(tool),
            category: route.category.to_owned(),
            path: visit.path,
            state: visit.state,
            allocated_bytes: if unmeasured {
                None
            } else {
                Some(visit.allocated)
            },
            logical_bytes: if unmeasured {
                None
            } else {
                Some(visit.logical)
            },
            files: visit.files,
            directories: visit.directories,
            detail: route.detail.render(tool),
            owner_followup: route.followup.render(tool),
            provider: match route.provider {
                Some(name) => Some(name.to_owned()),
                None => None,
            },
            cleanup_authority: CleanupAuthority::ReviewOnly,
        },
    )
}

impl Scan {
    pub fn new(root: &Root, include_system: bool, tool: Tool, limits: Limits, user: u32) -> (r: Scan)
        ensures
            r@ == first_view(*root, include_system, tool, limits, user),
    {
        Scan {
            report: StorageInventoryReport::new(),
            limits,
            home: share(&root.path),
            expected: root.identity,
            include_system,
            tool,
            user,
            home_meta: None,
            turn: 0,
            system_open: false,
            phase: Phase::Home,
        }
    }

    fn issue(&mut self, path: &FsPath, failure: Failure)
        ensures
            final(self)@ == old(self)@.issue(path@, failure@),
    {
        self.report.issue(path, failure);
    }

    fn finish(&mut self, m: Moment)
        ensures
            final(self)@ == old(self)@.finish(m),
    {
        self.report.elapsed_ms = m.total_ms;
        self.phase = Phase::Done;
    }

    fn onward(&mut self)
        requires
            old(self).turn < USER_ROUTES + SYSTEM_ROUTES,
        ensures
            final(self)@ == old(self)@.onward(),
    {
        self.turn = self.turn + 1;
        self.phase = Phase::Idle;
    }

    fn owned(&self, meta: &EntryMeta) -> (r: bool)
        ensures
            r == self@.owned(*meta),
    {
        meta.uid == self.user || (self.turn >= USER_ROUTES && meta.uid == 0)
    }

    /// The device that a location must lie on.
    pub fn device(&self) -> (r: Option<u64>)
        ensures
            r == self@.device(),
    {
        if self.turn >= USER_ROUTES {
            return None;
        }
        match &self.home_meta {
            Some(meta) => Some(meta.identity.device),
            None => None,
        }
    }

    /// Whether an overview may go on here.
    pub fn checkpoint(&self, entries: u64, m: Moment) -> (r: Result<(), Failure>)
        ensures
            match limit_reached(self.limits, self.report.examined_entries, entries, m) {
                Some(failure) => r matches Err(got) && got@ == failure,
                None => r is Ok,
            },
    {
        if m.total_ms >= self.limits.total_ms || m.route_ms >= self.limits.route_ms {
            return Err(
                Failure::new(
                    IssueKind::TimeLimit,
                    "The overview reached its time limit. Only the measured portion is shown.",
                ),
            );
        }
        if self.report.examined_entries >= self.limits.total_entries || entries
            >= self.limits.entries_per_route {
            return Err(
                Failure::new(
                    IssueKind::EntryLimit,
                    "The overview reached its entry limit. Only the measured portion is shown.",
                ),
            );
        }
        Ok(())
    }

    fn entered_home(&mut self, outcome: Result<EntryMeta, Failure>, m: Moment)
        ensures
            final(self)@ == old(self)@.entered_home(outcome, m),
    {
        proof {
            reveal(ScanView::entered_home);
        }
        let home: FsPath = share(&self.home);
        match outcome {
            Err(failure) => {
                self.issue(&home, failure);
                self.finish(m);
            },
            Ok(meta) => {
                if meta.uid != self.user {
                    self.issue(
                        &home,
                        Failure::new(
                            IssueKind::PermissionDenied,
                            "The home folder is owned by another user.",
                        ),
                    );
                    self.finish(m);
                } else if meta.identity.device != self.expected.device || meta.identity.inode
                    != self.expected.inode || meta.identity.mode != self.expected.mode {
                    self.issue(
                        &home,
                        Failure::new(
                            IssueKind::Changed,
                            "The authorized home folder was replaced. Choose the folder again before scanning.",
                        ),
                    );
                    self.finish(m);
                } else {
                    self.home_meta = Some(meta);
                    self.phase = Phase::Idle;
                }
            },
        }
    }

    fn proceed(&mut self, m: Moment)
        requires
            old(self).turn <= USER_ROUTES + SYSTEM_ROUTES,
        ensures
            final(self)@ == old(self)@.proceed(m),
    {
        proof {
            reveal(ScanView::proceed);
        }
        let system: bool = self.turn >= USER_ROUTES;
        if self.turn >= USER_ROUTES + SYSTEM_ROUTES || (system && !self.include_system) {
            self.phase = Phase::Closing;
            return ;
        }
        if system && !self.system_open {
            self.phase = Phase::System;
            return ;
        }
        let route: Route = route_at(self.turn);
        let path: FsPath = if system {
            let top: FsPath = fs_path(vec![SLASH]);
            assert(top@ =~= root_path());
            join_text(&top, route.relative.render(self.tool).as_str())
        } else {
            join_text(&self.home, route.relative.render(self.tool).as_str())
        };
        match self.checkpoint(0, Moment { total_ms: m.total_ms, route_ms: 0 }) {
            Err(failure) => {
                self.issue(&path, failure);
                self.onward();
            },
            Ok(_) => {
                self.phase = Phase::Locating(path);
            },
        }
    }

    fn entered_system(&mut self, outcome: Result<(), Failure>)
        ensures
            final(self)@ == old(self)@.entered_system(outcome),
    {
        match outcome {
            Ok(_) => {
                self.system_open = true;
                self.phase = Phase::Idle;
            },
            Err(failure) => {
                let top: FsPath = fs_path(vec![SLASH]);
                assert(top@ =~= root_path());
                self.issue(&top, failure);
                self.phase = Phase::Closing;
            },
        }
    }

    fn located(&mut self, path: FsPath, outcome: Result<Option<EntryMeta>, Failure>)
        requires
            old(self).turn < USER_ROUTES + SYSTEM_ROUTES,
        ensures
            final(self)@ == old(self)@.located(path@, outcome),
    {
        proof {
            reveal(ScanView::located);
        }
        let meta: EntryMeta = match outcome {
            Err(failure) => {
                self.issue(&path, failure);
                self.onward();
                return ;
            },
            Ok(None) => {
                self.onward();
                return ;
            },
            Ok(Some(meta)) => meta,
        };
        self.report.examine();
        let route: Route = route_at(self.turn);
        let mut visit: Visit = Visit {
            path: share(&path),
            meta,
            state: InventoryState::Complete,
            allocated: 0,
            logical: 0,
            files: 0,
            directories: 0,
        };
        if !self.owned(&meta) {
            self.issue(
                &path,
                Failure::new(IssueKind::PermissionDenied, "This storage belongs to another user."),
            );
            visit.state = InventoryState::Unavailable;
            self.phase = Phase::Verifying(visit);
        } else if route.file_only {
            if meta.is_file() {
                visit.files = 1;
                visit.allocated = meta.allocated;
                visit.logical = meta.identity.size;
                self.phase = Phase::Reading(visit);
            } else {
                self.issue(
                    &path,
                    Failure::new(
                        IssueKind::Unavailable,
                        "The expected disk-image file has a different type.",
                    ),
                );
                visit.state = InventoryState::Unavailable;
                self.phase = Phase::Verifying(visit);
            }
        } else if meta.is_dir() {
            self.phase = Phase::Entering(visit);
        } else {
            self.issue(
                &path,
                Failure::new(
                    IssueKind::Unavailable,
                    "The expected storage folder has a different type.",
                ),
            );
            visit.state = InventoryState::Unavailable;
            self.phase = Phase::Verifying(visit);
        }
    }

    fn reread(&mut self, visit: Visit, outcome: Result<EntryMeta, Failure>)
        ensures
            final(self)@ == old(self)@.reread(visit@, outcome),
    {
        let mut visit: Visit = visit;
        let same: bool = match &outcome {
            Ok(meta) => *meta == visit.meta,
            Err(_) => false,
        };
        if !same {
            self.issue(
                &visit.path,
                Failure::new(
                    IssueKind::Changed,
                    "The file changed while its size was being read.",
                ),
            );
            visit.state = InventoryState::Partial;
        }
        self.phase = Phase::Verifying(visit);
    }

    fn entered(&mut self, visit: Visit, outcome: Result<u64, Failure>)
        ensures
            final(self)@ == old(self)@.entered(visit@, outcome),
    {
        proof {
            reveal(ScanView::entered);
        }
        let mut visit: Visit = visit;
        match outcome {
            Err(failure) => {
                self.issue(&visit.path, failure);
                visit.state = InventoryState::Unavailable;
                self.phase = Phase::Verifying(visit);
            },
            Ok(id) => {
                let top: Folder = Folder { id, path: share(&visit.path), initial: visit.meta };
                let ghost first = top@;
                let mut stack: Vec<Folder> = Vec::new();
                stack.push(top);
                assert(folders(stack@) =~= seq![first]);
                let walk: Walk = Walk { visit, stack, inodes: HashSet::new(), entries: 1 };
                assert(walk@.inodes =~= Set::empty());
                self.phase = Phase::Walking(walk);
            },
        }
    }

    fn walk_on(&mut self, walk: Walk)
        ensures
            final(self)@ == old(self)@.walk_on(walk@),
    {
        if walk.stack.len() == 0 {
            self.phase = Phase::Verifying(walk.visit);
        } else {
            self.phase = Phase::Walking(walk);
        }
    }

    fn turn_in(&mut self, walk: Walk, m: Moment)
        ensures
            final(self)@ == old(self)@.turn_in(walk@, m),
    {
        proof {
            reveal(ScanView::turn_in);
        }
        match self.checkpoint(walk.entries, m) {
            Err(failure) => {
                let mut visit: Visit = walk.visit;
                self.issue(&visit.path, failure);
                visit.state = InventoryState::Partial;
                self.phase = Phase::Verifying(visit);
            },
            Ok(_) => {
                self.phase = Phase::Listing(walk);
            },
        }
    }

    fn listed(&mut self, walk: Walk, outcome: Result<Option<(Vec<u8>, bool)>, Failure>)
        requires
            walk@.stack.len() > 0,
        ensures
            final(self)@ == old(self)@.listed(walk@, outcome),
    {
        proof {
            reveal(ScanView::listed);
        }
        let ghost before = walk@;
        let mut walk: Walk = walk;
        let depth: usize = walk.stack.len();
        assert(before.stack.last() == walk.stack@[depth - 1]@);
        match outcome {
            Ok(None) => {
                let finished: Option<Folder> = walk.stack.pop();
                assert(walk@.stack =~= before.stack.drop_last());
                match finished {
                    Some(folder) => {
                        self.phase = Phase::Settling(walk, folder);
                    },
                    None => {
                        assert(false);
                    },
                }
            },
            Err(failure) => {
                let finished: Option<Folder> = walk.stack.pop();
                assert(walk@.stack =~= before.stack.drop_last());
                match finished {
                    Some(folder) => {
                        self.issue(&folder.path, failure);
                        walk.visit.state = InventoryState::Partial;
                        self.walk_on(walk);
                    },
                    None => {
                        assert(false);
                    },
                }
            },
            Ok(Some((name, cloud))) => {
                let route: Route = route_at(self.turn);
                count(&mut walk.entries, 1);
                self.report.examine();
                let skipped: bool = match route.skip_child {
                    Some(child) => depth == 1 && same_bytes(name.as_slice(), child.as_bytes()),
                    None => false,
                };
                let passed: bool = match route.child_suffix {
                    Some(suffix) => !ends_with(name.as_slice(), suffix.as_bytes()),
                    None => false,
                };
                if skipped || passed {
                    self.phase = Phase::Walking(walk);
                    return ;
                }
                let holder: FsPath = share(&walk.stack[depth - 1].path);
                let path: FsPath = join(path_bytes(&holder), name.as_slice());
                if path.len() > MAX_PATH_BYTES {
                    self.issue(
                        &holder,
                        Failure::new(
                            IssueKind::DepthLimit,
                            "A nested path exceeded the overview's path limit.",
                        ),
                    );
                    walk.visit.state = InventoryState::Partial;
                    self.phase = Phase::Walking(walk);
                } else {
                    self.phase = Phase::Looking(walk, path, cloud);
                }
            },
        }
    }

    fn settled(
        &mut self,
        walk: Walk,
        folder: Folder,
        held: Option<EntryMeta>,
        named: Option<EntryMeta>,
    )
        ensures
            final(self)@ == old(self)@.settled(walk@, folder@, held, named),
    {
        let mut walk: Walk = walk;
        let same: bool = match (held, named) {
            (Some(held), Some(named)) => held == folder.initial && named == folder.initial,
            _ => false,
        };
        if !same {
            self.issue(
                &folder.path,
                Failure::new(
                    IssueKind::Changed,
                    "This folder changed during the overview. Scan again for a fresh measurement.",
                ),
            );
            walk.visit.state = InventoryState::Partial;
        }
        self.walk_on(walk);
    }

    fn counted(&mut self, walk: Walk, path: &FsPath, meta: &EntryMeta)
        ensures
            final(self)@ == old(self)@.counted(walk@, path@, *meta),
    {
        broadcast use vstd::std_specs::hash::group_hash_axioms;

        proof {
            reveal(ScanView::counted);
        }
        let ghost before = walk@;
        let mut walk: Walk = walk;
        count(&mut walk.visit.files, 1);
        let key: u128 = meta.identity.device as u128 * 0x1_0000_0000_0000_0000
            + meta.identity.inode as u128;
        if walk.inodes.contains(&key) {
            self.phase = Phase::Walking(walk);
            return ;
        }
        let allocated: Option<u64> = walk.visit.allocated.checked_add(meta.allocated);
        let logical: Option<u64> = walk.visit.logical.checked_add(meta.identity.size);
        match (allocated, logical) {
            (Some(allocated), Some(logical)) => {
                walk.visit.allocated = allocated;
                walk.visit.logical = logical;
                walk.inodes.insert(key);
                assert(walk@.inodes =~= before.inodes.insert(key));
                self.phase = Phase::Walking(walk);
            },
            _ => {
                self.issue(
                    path,
                    Failure::new(
                        IssueKind::Unavailable,
                        "The storage measurement exceeded the supported size.",
                    ),
                );
                let mut visit: Visit = walk.visit;
                visit.state = InventoryState::Unavailable;
                self.phase = Phase::Verifying(visit);
            },
        }
    }

    fn nested(&mut self, walk: Walk, path: FsPath, meta: EntryMeta, cloud: bool)
        ensures
            final(self)@ == old(self)@.nested(walk@, path@, meta, cloud),
    {
        proof {
            reveal(ScanView::nested);
        }
        let mut walk: Walk = walk;
        if route_at(self.turn).child_suffix.is_some() {
            self.phase = Phase::Walking(walk);
            return ;
        }
        count(&mut walk.visit.directories, 1);
        if walk.stack.len() >= self.limits.depth || cloud {
            let kind: IssueKind = if cloud {
                IssueKind::CloudPlaceholder
            } else {
                IssueKind::DepthLimit
            };
            self.issue(
                &path,
                Failure::new(
                    kind,
                    "This nested folder was excluded from the bounded local overview.",
                ),
            );
            walk.visit.state = InventoryState::Partial;
            self.phase = Phase::Walking(walk);
        } else {
            self.phase = Phase::Descending(walk, path, meta);
        }
    }

    fn looked(&mut self, walk: Walk, path: FsPath, cloud: bool, outcome: Result<EntryMeta, Failure>)
        ensures
            final(self)@ == old(self)@.looked(walk@, path@, cloud, outcome),
    {
        proof {
            reveal(ScanView::looked);
        }
        let mut walk: Walk = walk;
        let found: Result<EntryMeta, Failure> = match outcome {
            Err(failure) => Err(failure),
            Ok(meta) => boundary(meta, Some(walk.visit.meta.identity.device)),
        };
        match found {
            Err(failure) => {
                self.issue(&path, failure);
                walk.visit.state = InventoryState::Partial;
                self.phase = Phase::Walking(walk);
            },
            Ok(meta) => {
                if !self.owned(&meta) {
                    self.issue(
                        &path,
                        Failure::new(
                            IssueKind::PermissionDenied,
                            "An entry is owned by another user and was excluded.",
                        ),
                    );
                    walk.visit.state = InventoryState::Partial;
                    self.phase = Phase::Walking(walk);
                } else if meta.is_file() {
                    self.counted(walk, &path, &meta);
                } else if meta.is_dir() {
                    self.nested(walk, path, meta, cloud);
                } else {
                    self.issue(
                        &path,
                        Failure::new(
                            IssueKind::Unavailable,
                            "A special filesystem entry was excluded.",
                        ),
                    );
                    walk.visit.state = InventoryState::Partial;
                    self.phase = Phase::Walking(walk);
                }
            },
        }
    }

    fn descended(&mut self, walk: Walk, path: FsPath, meta: EntryMeta, outcome: Result<u64, Failure>)
        ensures
            final(self)@ == old(self)@.descended(walk@, path@, meta, outcome),
    {
        proof {
            reveal(ScanView::descended);
        }
        let ghost before = walk@;
        let mut walk: Walk = walk;
        match outcome {
            Err(failure) => {
                self.issue(&path, failure);
                walk.visit.state = InventoryState::Partial;
            },
            Ok(id) => {
                let folder: Folder = Folder { id, path, initial: meta };
                let ghost added = folder@;
                walk.stack.push(folder);
                assert(walk@.stack =~= before.stack.push(added));
            },
        }
        self.phase = Phase::Walking(walk);
    }

    fn verified(&mut self, visit: Visit, outcome: Result<Option<EntryMeta>, Failure>)
        requires
            old(self).turn < USER_ROUTES + SYSTEM_ROUTES,
        ensures
            final(self)@ == old(self)@.verified(visit@, outcome),
    {
        proof {
            reveal(ScanView::verified);
        }
        let mut visit: Visit = visit;
        let same: bool = match &outcome {
            Ok(Some(meta)) => same_object(meta, &visit.meta),
            _ => false,
        };
        if !same {
            self.issue(
                &visit.path,
                Failure::new(
                    IssueKind::Changed,
                    "This storage location moved or changed. Its previous measurement is no longer associated with this path.",
                ),
            );
            visit.state = InventoryState::Partial;
        }
        let ghost s = self@;
        match make_row(visit, route_at(self.turn), self.tool, !same) {
            Some(row) => {
                let ghost added = row@;
                self.report.rows.push(row);
                assert(self@.report.rows =~= s.report.rows.push(added));
            },
            None => {},
        }
        self.onward();
    }

    fn closed(&mut self, outcome: Result<EntryMeta, Failure>, m: Moment)
        ensures
            final(self)@ == old(self)@.closed(outcome, m),
    {
        proof {
            reveal(ScanView::closed);
        }
        let same: bool = match (&outcome, &self.home_meta) {
            (Ok(current), Some(meta)) => same_object(meta, current),
            _ => false,
        };
        if !same {
            let home: FsPath = share(&self.home);
            self.report.rows = Vec::new();
            assert(self@.report.rows =~= seq![]);
            self.issue(
                &home,
                Failure::new(
                    IssueKind::Changed,
                    "The home folder moved or changed during the overview. Scan it again.",
                ),
            );
        }
        self.finish(m);
    }

    fn answer_walk(&mut self, phase: Phase, event: Event, m: Moment)
        requires
            old(self)@.phase is Idle,
            phase@ is Walking || phase@ is Listing || phase@ is Settling || phase@ is Looking
                || phase@ is Descending,
            phase@ matches Stage::Listing(walk) ==> walk.stack.len() > 0,
        ensures
            final(self)@ == old(self)@.answered(phase@, event, m),
    {
        proof {
            reveal(ScanView::answered);
        }
        match phase {
            Phase::Walking(walk) => match event {
                Event::Proceed => {
                    self.turn_in(walk, m);
                },
                _ => {
                    self.phase = Phase::Walking(walk);
                },
            },
            Phase::Listing(walk) => match event {
                Event::Next(outcome) => {
                    self.listed(walk, outcome);
                },
                _ => {
                    self.phase = Phase::Listing(walk);
                },
            },
            Phase::Settling(walk, folder) => match event {
                Event::Settled(held, named) => {
                    self.settled(walk, folder, held, named);
                },
                _ => {
                    self.phase = Phase::Settling(walk, folder);
                },
            },
            Phase::Looking(walk, path, cloud) => match event {
                Event::Stat(outcome) => {
                    self.looked(walk, path, cloud, outcome);
                },
                _ => {
                    self.phase = Phase::Looking(walk, path, cloud);
                },
            },
            Phase::Descending(walk, path, meta) => match event {
                Event::Opened(outcome) => {
                    self.descended(walk, path, meta, outcome);
                },
                _ => {
                    self.phase = Phase::Descending(walk, path, meta);
                },
            },
            other => {
                self.phase = other;
            },
        }
    }

    fn answer_route(&mut self, phase: Phase, event: Event, m: Moment)
        requires
            old(self)@.phase is Idle,
            old(self).turn <= USER_ROUTES + SYSTEM_ROUTES,
            phase@ is Home || phase@ is Idle || phase@ is Locating || phase@ is Reading
                || phase@ is Entering || phase@ is Verifying || phase@ is System
                || phase@ is Closing || phase@ is Done,
            phase@ is Locating || phase@ is Verifying ==> old(self).turn < USER_ROUTES
                + SYSTEM_ROUTES,
        ensures
            final(self)@ == old(self)@.answered(phase@, event, m),
    {
        proof {
            reveal(ScanView::answered);
        }
        match phase {
            Phase::Home => match event {
                Event::Home(outcome) => {
                    self.entered_home(outcome, m);
                },
                _ => {
                    self.phase = Phase::Home;
                },
            },
            Phase::Idle => match event {
                Event::Proceed => {
                    self.proceed(m);
                },
                _ => {},
            },
            Phase::Locating(path) => match event {
                Event::Located(outcome) => {
                    self.located(path, outcome);
                },
                _ => {
                    self.phase = Phase::Locating(path);
                },
            },
            Phase::Reading(visit) => match event {
                Event::Stat(outcome) => {
                    self.reread(visit, outcome);
                },
                _ => {
                    self.phase = Phase::Reading(visit);
                },
            },
            Phase::Entering(visit) => match event {
                Event::Opened(outcome) => {
                    self.entered(visit, outcome);
                },
                _ => {
                    self.phase = Phase::Entering(visit);
                },
            },
            Phase::Verifying(visit) => match event {
                Event::Located(outcome) => {
                    self.verified(visit, outcome);
                },
                _ => {
                    self.phase = Phase::Verifying(visit);
                },
            },
            Phase::System => match event {
                Event::System(outcome) => {
                    self.entered_system(outcome);
                },
                _ => {
                    self.phase = Phase::System;
                },
            },
            Phase::Closing => match event {
                Event::Home(outcome) => {
                    self.closed(outcome, m);
                },
                _ => {
                    self.phase = Phase::Closing;
                },
            },
            other => {
                self.phase = other;
            },
        }
    }

    /// Moves an overview on with an answer to what it waits for. An answer to
    /// something else is ignored.
    pub fn step(&mut self, event: Event, m: Moment)
        requires
            old(self)@.wf(),
        ensures
            final(self)@ == old(self)@.step(event, m),
            final(self)@.wf(),
    {
        proof {
            step_keeps_wf(self@, event, m);
        }
        let ghost start = self@;
        let mut phase: Phase = Phase::Idle;
        std::mem::swap(&mut phase, &mut self.phase);
        assert(self@ =~= start.to(Stage::Idle));
        assert(phase@ == start.phase);
        match &phase {
            Phase::Walking(_) | Phase::Listing(_) | Phase::Settling(_, _) | Phase::Looking(_, _, _)
            | Phase::Descending(_, _, _) => {
                self.answer_walk(phase, event, m);
            },
            _ => {
                self.answer_route(phase, event, m);
            },
        }
    }
}

/// Begins the storage overview of a home folder. The folder must match its grant
/// before any location is observed; `include_system` is permitted only for the
/// user's real home folder.
pub fn scan(root: &Root, include_system: bool, tool: Tool, user: u32, m: Moment) -> (r: Scan)
    ensures
        r@ == opening(*root, include_system, tool, user, m),
        r@.wf(),
{
    if !same_text(root.kind.as_str(), "home") {
        let mut r: Scan = Scan::new(root, include_system, tool, Limits::standard(), user);
        r.issue(
            &root.path,
            Failure::new(
                IssueKind::PermissionDenied,
                "A home-folder grant is required for the storage overview.",
            ),
        );
        r.finish(m);
        return r;
    }
    scan_bound(root, include_system, tool, Limits::standard(), user)
}

/// Begins the overview of a folder that is known to be a home folder, with limits
/// of its own.
pub fn scan_bound(root: &Root, include_system: bool, tool: Tool, limits: Limits, user: u32) -> (r:
    Scan)
    ensures
        r@ == first_view(*root, include_system, tool, limits, user),
        r@.wf(),
{
    Scan::new(root, include_system, tool, limits, user)
}

proof fn step_keeps_wf(s: ScanView, event: Event, m: Moment)
    requires
        s.wf(),
    ensures
        s.step(event, m).wf(),
{
    reveal(ScanView::answered);
    reveal(ScanView::entered_home);
    reveal(ScanView::proceed);
    reveal(ScanView::located);
    reveal(ScanView::entered);
    reveal(ScanView::turn_in);
    reveal(ScanView::listed);
    reveal(ScanView::counted);
    reveal(ScanView::nested);
    reveal(ScanView::looked);
    reveal(ScanView::descended);
    reveal(ScanView::verified);
    reveal(ScanView::closed);
}

} // verus!
