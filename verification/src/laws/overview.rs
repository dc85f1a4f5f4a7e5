//! What the storage overview measures.
use crate::model::EntryMeta;
use crate::paths::{child, named, root_path};
use crate::sightings::link_key;
use crate::storage_inventory::locate::{folder_failure, follow, ComponentFact, Finding};
use crate::storage_inventory::overview::{
    limit_reached, opening, Event, FolderView, Limits, Moment, ScanView, Stage, VisitView, WalkView,
};
use crate::storage_inventory::report::{
    boundary_failure, Failure, FailureView, InventoryState, IssueKind, ReportView,
};
use crate::storage_inventory::routes::{route_of, Tool};
use vstd::prelude::*;
use vstd::utf8::encode_utf8;

verus! {

/// An entry that may be read here: the user's own anywhere, and at a location of the
/// system also one of its superuser.
pub open spec fn readable(s: ScanView, meta: EntryMeta) -> bool {
    meta.uid == s.user || (s.turn >= 11 && meta.uid == 0)
}

/// The first measurement of a location that was found.
pub open spec fn untouched(path: Seq<u8>, meta: EntryMeta) -> VisitView {
    VisitView {
        path,
        meta,
        state: InventoryState::Complete,
        allocated: 0,
        logical: 0,
        files: 0,
        directories: 0,
    }
}

/// A readable folder at a location for folders is entered, with nothing noted against
/// it: the superuser's at a location of the system just as the user's own.
pub proof fn readable_folders_are_entered(s: ScanView, path: Seq<u8>, meta: EntryMeta)
    requires
        readable(s, meta),
        meta.identity.mode & 0o170000 == 0o040000,
        !route_of(s.turn as int).file_only,
    ensures
        s.located(path, Ok(Some(meta))).phase == Stage::Entering(untouched(path, meta)),
        s.located(path, Ok(Some(meta))).report.issues == s.report.issues,
        s.located(path, Ok(Some(meta))).report.complete == s.report.complete,
        s.located(path, Ok(Some(meta))).report.rows == s.report.rows,
        s.located(path, Ok(Some(meta))).turn == s.turn,
        s.report.examined_entries < u64::MAX ==> s.located(
            path,
            Ok(Some(meta)),
        ).report.examined_entries == s.report.examined_entries + 1,
{
    reveal(ScanView::located);
}

/// A readable file at a location for a single file is measured by its metadata.
pub proof fn readable_files_are_read(s: ScanView, path: Seq<u8>, meta: EntryMeta)
    requires
        readable(s, meta),
        meta.identity.mode & 0o170000 == 0o100000,
        route_of(s.turn as int).file_only,
    ensures
        s.located(path, Ok(Some(meta))).phase == Stage::Reading(
            VisitView {
                files: 1,
                allocated: meta.allocated,
                logical: meta.identity.size,
                ..untouched(path, meta)
            },
        ),
        s.located(path, Ok(Some(meta))).report.issues == s.report.issues,
        s.located(path, Ok(Some(meta))).report.complete == s.report.complete,
{
    reveal(ScanView::located);
}

/// What belongs to another user, or is of another type than the location expects, is
/// not entered: the location is unavailable and one issue says why.
pub proof fn other_storage_is_not_entered(s: ScanView, path: Seq<u8>, meta: EntryMeta)
    requires
        s.report.issues.len() < 64,
        !readable(s, meta) || (route_of(s.turn as int).file_only && meta.identity.mode & 0o170000
            != 0o100000) || (!route_of(s.turn as int).file_only && meta.identity.mode & 0o170000
            != 0o040000),
    ensures
        s.located(path, Ok(Some(meta))).phase == Stage::Verifying(
            VisitView { state: InventoryState::Unavailable, ..untouched(path, meta) },
        ),
        s.located(path, Ok(Some(meta))).report.issues.len() == s.report.issues.len() + 1,
        s.located(path, Ok(Some(meta))).report.issues.last().path == path,
        s.located(path, Ok(Some(meta))).report.issues.last().kind == if readable(s, meta) {
            IssueKind::Unavailable
        } else {
            IssueKind::PermissionDenied
        },
        !s.located(path, Ok(Some(meta))).report.complete,
{
    reveal(ScanView::located);
}

/// A location that is not there is passed over without a word; one that could not be
/// reached is passed over with an issue. Either way the next one follows.
pub proof fn missing_locations_are_passed(s: ScanView, path: Seq<u8>, failure: Failure)
    requires
        s.turn < usize::MAX,
        s.report.issues.len() < 64,
    ensures
        s.located(path, Ok(None)).turn == s.turn + 1,
        s.located(path, Ok(None)).phase is Idle,
        s.located(path, Ok(None)).report == s.report,
        s.located(path, Err(failure)).turn == s.turn + 1,
        s.located(path, Err(failure)).phase is Idle,
        s.located(path, Err(failure)).report.rows == s.report.rows,
        s.located(path, Err(failure)).report.issues.len() == s.report.issues.len() + 1,
        s.located(path, Err(failure)).report.issues.last().kind == failure.kind,
        s.located(path, Err(failure)).report.issues.last().detail == failure.detail@,
{
    reveal(ScanView::located);
}

/// What lies on this side of every boundary: no link, no placeholder, and on the
/// volume asked for.
pub open spec fn local(meta: EntryMeta, device: u64) -> bool {
    &&& meta.identity.mode & 0o170000 != 0o120000
    &&& meta.flags & 0x4000_0000 == 0
    &&& meta.identity.device == device
}

/// Boundaries stop exactly links, placeholders and other volumes, in this order.
pub proof fn boundaries_stop_what_is_not_local(meta: EntryMeta, device: u64)
    ensures
        boundary_failure(meta, Some(device)) is None <==> local(meta, device),
        boundary_failure(meta, None) is None <==> local(meta, meta.identity.device),
        meta.identity.mode & 0o170000 == 0o120000 ==> (boundary_failure(meta, Some(device))
            matches Some(failure) && failure.kind == IssueKind::Symlink),
        meta.identity.mode & 0o170000 != 0o120000 && meta.flags & 0x4000_0000 != 0 ==> (
        boundary_failure(meta, Some(device)) matches Some(failure) && failure.kind
            == IssueKind::CloudPlaceholder),
        meta.identity.mode & 0o170000 != 0o120000 && meta.flags & 0x4000_0000 == 0
            && meta.identity.device != device ==> (boundary_failure(meta, Some(device)) matches Some(
            failure,
        ) && failure.kind == IssueKind::MountBoundary),
{
}

/// A readable local file that is met for the first time is counted with both its
/// sizes; one that was met under another name is counted once more as a file and with
/// no size. Nothing is noted against either.
pub proof fn readable_files_are_counted(
    s: ScanView,
    walk: WalkView,
    path: Seq<u8>,
    cloud: bool,
    meta: EntryMeta,
)
    requires
        readable(s, meta),
        local(meta, walk.visit.meta.identity.device),
        meta.identity.mode & 0o170000 == 0o100000,
        walk.visit.allocated + meta.allocated <= u64::MAX,
        walk.visit.logical + meta.identity.size <= u64::MAX,
        walk.visit.files < u64::MAX,
    ensures
        s.looked(walk, path, cloud, Ok(meta)).report == s.report,
        s.looked(walk, path, cloud, Ok(meta)).turn == s.turn,
        s.looked(walk, path, cloud, Ok(meta)).phase matches Stage::Walking(after) && {
            let again = walk.inodes.contains(link_key(meta.identity));
            &&& after.visit.files == walk.visit.files + 1
            &&& after.visit.allocated == walk.visit.allocated + if again {
                0
            } else {
                meta.allocated as int
            }
            &&& after.visit.logical == walk.visit.logical + if again {
                0
            } else {
                meta.identity.size as int
            }
            &&& after.visit.directories == walk.visit.directories
            &&& after.visit.state == walk.visit.state
            &&& after.stack == walk.stack
            &&& after.inodes == walk.inodes.insert(link_key(meta.identity))
            &&& after.entries == walk.entries
        },
{
    reveal(ScanView::looked);
    reveal(ScanView::counted);
    boundaries_stop_what_is_not_local(meta, walk.visit.meta.identity.device);
    file_is_no_folder(meta);
    if walk.inodes.contains(link_key(meta.identity)) {
        assert(walk.inodes.insert(link_key(meta.identity)) =~= walk.inodes);
    }
}

proof fn file_is_no_folder(meta: EntryMeta)
    ensures
        !(meta.dir() && meta.file()),
        meta.dir() ==> !meta.symlink(),
        meta.file() ==> !meta.symlink(),
{
}

/// Two files are one to the overview exactly when they have the same number on the
/// same volume.
pub proof fn files_are_told_apart(a: EntryMeta, b: EntryMeta)
    ensures
        link_key(a.identity) == link_key(b.identity) <==> a.identity.device == b.identity.device
            && a.identity.inode == b.identity.inode,
{
    let x = a.identity.device as int * 0x1_0000_0000_0000_0000 + a.identity.inode;
    let y = b.identity.device as int * 0x1_0000_0000_0000_0000 + b.identity.inode;
    assert(0 <= x <= u128::MAX && 0 <= y <= u128::MAX);
    assert(link_key(a.identity) == x && link_key(b.identity) == y);
    if x == y && a.identity.device != b.identity.device {
        assert(false);
    }
}

/// A readable local folder is counted and entered as long as it is not too deep and
/// not one of cloud storage, at every location that measures folders.
pub proof fn readable_folders_are_descended(
    s: ScanView,
    walk: WalkView,
    path: Seq<u8>,
    cloud: bool,
    meta: EntryMeta,
)
    requires
        readable(s, meta),
        local(meta, walk.visit.meta.identity.device),
        meta.identity.mode & 0o170000 == 0o040000,
        route_of(s.turn as int).child_suffix is None,
        walk.visit.directories < u64::MAX,
        s.report.issues.len() < 64,
    ensures
        walk.stack.len() < s.limits.depth && !cloud ==> {
            &&& s.looked(walk, path, cloud, Ok(meta)).phase == Stage::Descending(
                WalkView {
                    visit: VisitView {
                        directories: (walk.visit.directories + 1) as u64,
                        ..walk.visit
                    },
                    ..walk
                },
                path,
                meta,
            )
            &&& s.looked(walk, path, cloud, Ok(meta)).report == s.report
        },
        walk.stack.len() >= s.limits.depth || cloud ==> {
            let after = s.looked(walk, path, cloud, Ok(meta));
            &&& after.phase matches Stage::Walking(next) && next.visit.state
                == InventoryState::Partial && next.visit.directories == walk.visit.directories + 1
                && next.stack == walk.stack && next.visit.files == walk.visit.files
            &&& after.report.issues.len() == s.report.issues.len() + 1
            &&& after.report.issues.last().path == path
            &&& after.report.issues.last().kind == if cloud {
                IssueKind::CloudPlaceholder
            } else {
                IssueKind::DepthLimit
            }
        },
{
    reveal(ScanView::looked);
    reveal(ScanView::nested);
    boundaries_stop_what_is_not_local(meta, walk.visit.meta.identity.device);
    file_is_no_folder(meta);
}

/// What is not readable, not local or neither a file nor a folder is left out: the
/// location's measurement becomes partial, counts nothing of it, and one issue says so.
pub proof fn other_entries_are_left_out(
    s: ScanView,
    walk: WalkView,
    path: Seq<u8>,
    cloud: bool,
    meta: EntryMeta,
)
    requires
        s.report.issues.len() < 64,
        !readable(s, meta) || !local(meta, walk.visit.meta.identity.device) || (
        meta.identity.mode & 0o170000 != 0o100000 && meta.identity.mode & 0o170000 != 0o040000),
    ensures
        s.looked(walk, path, cloud, Ok(meta)).phase == Stage::Walking(
            WalkView {
                visit: VisitView { state: InventoryState::Partial, ..walk.visit },
                ..walk
            },
        ),
        s.looked(walk, path, cloud, Ok(meta)).report.issues.len() == s.report.issues.len() + 1,
        s.looked(walk, path, cloud, Ok(meta)).report.issues.last().path == path,
        !s.looked(walk, path, cloud, Ok(meta)).report.complete,
{
    reveal(ScanView::looked);
    boundaries_stop_what_is_not_local(meta, walk.visit.meta.identity.device);
}

/// A location that was opened is read from its own folder, which counts as its first
/// entry; a folder below is read before what is left of the one above it.
pub proof fn opened_folders_are_read(
    s: ScanView,
    visit: VisitView,
    walk: WalkView,
    path: Seq<u8>,
    meta: EntryMeta,
    id: u64,
)
    ensures
        s.entered(visit, Ok(id)).phase matches Stage::Walking(next) && {
            &&& next.visit == visit
            &&& next.stack == seq![FolderView { id, path: visit.path, initial: visit.meta }]
            &&& next.entries == 1
            &&& forall|key: u128| !next.inodes.contains(key)
        },
        s.entered(visit, Ok(id)).report == s.report,
        s.descended(walk, path, meta, Ok(id)).phase == Stage::Walking(
            WalkView { stack: walk.stack.push(FolderView { id, path, initial: meta }), ..walk },
        ),
        s.descended(walk, path, meta, Ok(id)).report == s.report,
{
    reveal(ScanView::entered);
    reveal(ScanView::descended);
}

/// An entry of a folder that the location neither skips nor passes over is looked at
/// under its path; every name that comes counts as examined.
pub proof fn listed_entries_are_looked_at(
    s: ScanView,
    walk: WalkView,
    name: Vec<u8>,
    cloud: bool,
)
    requires
        walk.stack.len() > 0,
        route_of(s.turn as int).skip_child is None,
        route_of(s.turn as int).child_suffix is None,
        child(walk.stack.last().path, name@).len() <= 4096,
        walk.entries < u64::MAX,
        s.report.examined_entries < u64::MAX,
    ensures
        s.listed(walk, Ok(Some((name, cloud)))).phase == Stage::Looking(
            WalkView { entries: (walk.entries + 1) as u64, ..walk },
            child(walk.stack.last().path, name@),
            cloud,
        ),
        s.listed(walk, Ok(Some((name, cloud)))).report == (ReportView {
            examined_entries: (s.report.examined_entries + 1) as u64,
            ..s.report
        }),
{
    reveal(ScanView::listed);
}

/// The child that has a location of its own is skipped where it lies directly in the
/// location, and looked at anywhere deeper.
pub proof fn a_child_with_its_own_location_is_skipped(
    s: ScanView,
    walk: WalkView,
    name: Vec<u8>,
    cloud: bool,
    own: &'static str,
)
    requires
        walk.stack.len() > 0,
        route_of(s.turn as int).skip_child == Some(own),
        route_of(s.turn as int).child_suffix is None,
        child(walk.stack.last().path, name@).len() <= 4096,
    ensures
        walk.stack.len() == 1 && name@ == encode_utf8(own@) ==> (s.listed(
            walk,
            Ok(Some((name, cloud))),
        ).phase matches Stage::Walking(next) && next.visit == walk.visit && next.stack
            == walk.stack),
        walk.stack.len() > 1 || name@ != encode_utf8(own@) ==> s.listed(
            walk,
            Ok(Some((name, cloud))),
        ).phase is Looking,
        s.listed(walk, Ok(Some((name, cloud)))).report.issues == s.report.issues,
{
    reveal(ScanView::listed);
}

/// Where a location asks for one ending, exactly the names that end so are looked at.
pub proof fn an_ending_selects_names(
    s: ScanView,
    walk: WalkView,
    name: Vec<u8>,
    front: Seq<u8>,
    cloud: bool,
    ending: &'static str,
)
    requires
        walk.stack.len() > 0,
        route_of(s.turn as int).skip_child is None,
        route_of(s.turn as int).child_suffix == Some(ending),
        child(walk.stack.last().path, name@).len() <= 4096,
    ensures
        name@ == front + encode_utf8(ending@) ==> s.listed(
            walk,
            Ok(Some((name, cloud))),
        ).phase is Looking,
        s.listed(walk, Ok(Some((name, cloud)))).phase is Looking ==> exists|f: Seq<u8>|
            name@ == #[trigger] (f + encode_utf8(ending@)),
{
    reveal(ScanView::listed);
    let tail = encode_utf8(ending@);
    if name@ == front + tail {
        assert((front + tail).skip(front.len() as int) =~= tail);
    }
    if s.listed(walk, Ok(Some((name, cloud)))).phase is Looking {
        let f = name@.take(name@.len() - tail.len());
        assert(name@ =~= f + tail);
    }
}

/// A folder that was read to its end stands if it is still what it was, seen both ways;
/// otherwise the measurement is partial and an issue says that it changed.
pub proof fn unchanged_folders_stand(
    s: ScanView,
    walk: WalkView,
    folder: FolderView,
    held: Option<EntryMeta>,
    named: Option<EntryMeta>,
)
    requires
        s.report.issues.len() < 64,
    ensures
        held == Some(folder.initial) && named == Some(folder.initial) ==> {
            &&& s.settled(walk, folder, held, named).report == s.report
            &&& s.settled(walk, folder, held, named).phase == if walk.stack.len() > 0 {
                Stage::Walking(walk)
            } else {
                Stage::Verifying(walk.visit)
            }
        },
        held != Some(folder.initial) || named != Some(folder.initial) ==> {
            let after = s.settled(walk, folder, held, named);
            let visit = VisitView { state: InventoryState::Partial, ..walk.visit };
            &&& after.report.issues.len() == s.report.issues.len() + 1
            &&& after.report.issues.last().kind == IssueKind::Changed
            &&& after.phase == if walk.stack.len() > 0 {
                Stage::Walking(WalkView { visit, ..walk })
            } else {
                Stage::Verifying(visit)
            }
        },
{
}

/// A location that is still the same object gets its row with what was measured, and
/// none where it was read completely and holds no file.
pub proof fn measured_locations_get_their_row(
    s: ScanView,
    visit: VisitView,
    meta: EntryMeta,
)
    requires
        s.turn < usize::MAX,
        meta.identity.device == visit.meta.identity.device,
        meta.identity.inode == visit.meta.identity.inode,
        meta.identity.mode == visit.meta.identity.mode,
        meta.uid == visit.meta.uid,
        meta.flags == visit.meta.flags,
    ensures
        s.verified(visit, Ok(Some(meta))).report.issues == s.report.issues,
        s.verified(visit, Ok(Some(meta))).turn == s.turn + 1,
        s.verified(visit, Ok(Some(meta))).phase is Idle,
        visit.state == InventoryState::Complete && visit.files == 0 ==> s.verified(
            visit,
            Ok(Some(meta)),
        ).report.rows == s.report.rows,
        visit.state != InventoryState::Complete || visit.files > 0 ==> {
            let rows = s.verified(visit, Ok(Some(meta))).report.rows;
            let row = rows.last();
            &&& rows.len() == s.report.rows.len() + 1
            &&& rows.drop_last() == s.report.rows
            &&& row.path == visit.path
            &&& row.state == visit.state
            &&& row.files == visit.files
            &&& row.directories == visit.directories
            &&& row.id == route_of(s.turn as int).id.text(s.tool)
            &&& row.title == route_of(s.turn as int).title.text(s.tool)
            &&& visit.state == InventoryState::Complete ==> row.allocated_bytes == Some(
                visit.allocated,
            ) && row.logical_bytes == Some(visit.logical)
            &&& visit.state == InventoryState::Partial && visit.files > 0 ==> row.allocated_bytes
                == Some(visit.allocated) && row.logical_bytes == Some(visit.logical)
            &&& visit.state == InventoryState::Unavailable ==> row.allocated_bytes is None
                && row.logical_bytes is None
        },
{
    reveal(ScanView::verified);
    if visit.state != InventoryState::Complete || visit.files > 0 {
        assert(s.verified(visit, Ok(Some(meta))).report.rows.drop_last() =~= s.report.rows);
    }
}

/// A location that is another object now, or gone, gets a row without sizes.
pub proof fn moved_locations_have_no_size(
    s: ScanView,
    visit: VisitView,
    outcome: Result<Option<EntryMeta>, Failure>,
)
    requires
        s.report.issues.len() < 64,
        outcome matches Ok(Some(meta)) ==> meta.identity.device != visit.meta.identity.device
            || meta.identity.inode != visit.meta.identity.inode || meta.identity.mode
            != visit.meta.identity.mode || meta.uid != visit.meta.uid || meta.flags
            != visit.meta.flags,
    ensures
        s.verified(visit, outcome).report.rows.len() == s.report.rows.len() + 1,
        s.verified(visit, outcome).report.rows.last().allocated_bytes is None,
        s.verified(visit, outcome).report.rows.last().logical_bytes is None,
        s.verified(visit, outcome).report.rows.last().state == InventoryState::Partial,
        s.verified(visit, outcome).report.issues.len() == s.report.issues.len() + 1,
        s.verified(visit, outcome).report.issues.last().kind == IssueKind::Changed,
{
    reveal(ScanView::verified);
}

/// A single file that did not change while it was looked at is shown with its sizes:
/// from its location to its row.
pub proof fn a_disk_image_is_measured(s: ScanView, path: Seq<u8>, meta: EntryMeta)
    requires
        readable(s, meta),
        meta.identity.mode & 0o170000 == 0o100000,
        route_of(s.turn as int).file_only,
        s.turn < usize::MAX,
    ensures
        ({
            let read = s.located(path, Ok(Some(meta)));
            let again = read.answered(read.phase, Event::Stat(Ok(meta)), Moment {
                total_ms: 0,
                route_ms: 0,
            });
            let shown = again.answered(again.phase, Event::Located(Ok(Some(meta))), Moment {
                total_ms: 0,
                route_ms: 0,
            });
            let rows = shown.report.rows;
            &&& rows.len() == s.report.rows.len() + 1
            &&& rows.last().path == path
            &&& rows.last().state == InventoryState::Complete
            &&& rows.last().files == 1
            &&& rows.last().allocated_bytes == Some(meta.allocated)
            &&& rows.last().logical_bytes == Some(meta.identity.size)
            &&& shown.report.issues == s.report.issues
            &&& shown.turn == s.turn + 1
        }),
{
    reveal(ScanView::answered);
    reveal(ScanView::verified);
    reveal(ScanView::reread);
    readable_files_are_read(s, path, meta);
    let read = s.located(path, Ok(Some(meta)));
    assert(read.report.rows == s.report.rows && read.turn == s.turn) by {
        reveal(ScanView::located);
    }
}

/// A file that changed while its size was read is shown as partial.
pub proof fn a_changed_disk_image_is_partial(
    s: ScanView,
    visit: VisitView,
    outcome: Result<EntryMeta, Failure>,
)
    requires
        outcome != Ok::<EntryMeta, Failure>(visit.meta),
        s.report.issues.len() < 64,
    ensures
        s.reread(visit, outcome).phase == Stage::Verifying(
            VisitView { state: InventoryState::Partial, ..visit },
        ),
        s.reread(visit, outcome).report.issues.len() == s.report.issues.len() + 1,
{
}

/// The overview stops measuring a location exactly when a time or a number has reached
/// its limit: below every limit it goes on.
pub proof fn limits_are_reached_exactly(
    limits: Limits,
    examined: u64,
    entries: u64,
    m: Moment,
)
    ensures
        limit_reached(limits, examined, entries, m) is None <==> m.total_ms < limits.total_ms
            && m.route_ms < limits.route_ms && examined < limits.total_entries && entries
            < limits.entries_per_route,
        limit_reached(limits, examined, entries, m) matches Some(failure) ==> failure.kind == if m.total_ms
            >= limits.total_ms || m.route_ms >= limits.route_ms {
            IssueKind::TimeLimit
        } else {
            IssueKind::EntryLimit
        },
{
}

/// Within its limits a location is listed on; at a limit what was measured stays, as a
/// partial measurement.
pub proof fn a_location_is_listed_within_its_limits(s: ScanView, walk: WalkView, m: Moment)
    requires
        s.report.issues.len() < 64,
    ensures
        m.total_ms < s.limits.total_ms && m.route_ms < s.limits.route_ms
            && s.report.examined_entries < s.limits.total_entries && walk.entries
            < s.limits.entries_per_route ==> s.turn_in(walk, m) == (ScanView {
            phase: Stage::Listing(walk),
            ..s
        }),
        m.total_ms >= s.limits.total_ms || m.route_ms >= s.limits.route_ms
            || s.report.examined_entries >= s.limits.total_entries || walk.entries
            >= s.limits.entries_per_route ==> {
            &&& s.turn_in(walk, m).phase == Stage::Verifying(
                VisitView { state: InventoryState::Partial, ..walk.visit },
            )
            &&& s.turn_in(walk, m).report.issues.len() == s.report.issues.len() + 1
        },
{
    reveal(ScanView::turn_in);
}

/// A home folder of the user's that is the authorized one is observed.
pub proof fn the_authorized_home_is_observed(s: ScanView, meta: EntryMeta, m: Moment)
    requires
        meta.uid == s.user,
        meta.identity.device == s.expected.device,
        meta.identity.inode == s.expected.inode,
        meta.identity.mode == s.expected.mode,
    ensures
        s.entered_home(Ok(meta), m) == (ScanView {
            home_meta: Some(meta),
            phase: Stage::Idle,
            ..s
        }),
{
    reveal(ScanView::entered_home);
}

/// A home folder of another user is not.
pub proof fn another_users_home_is_not_observed(s: ScanView, meta: EntryMeta, m: Moment)
    requires
        meta.uid != s.user,
    ensures
        s.entered_home(Ok(meta), m).phase is Done,
        s.entered_home(Ok(meta), m).report.rows == s.report.rows,
        !s.entered_home(Ok(meta), m).report.complete,
{
    reveal(ScanView::entered_home);
}

/// A home folder that is the same object at the end keeps every row.
pub proof fn an_unmoved_home_keeps_its_rows(
    s: ScanView,
    meta: EntryMeta,
    current: EntryMeta,
    m: Moment,
)
    requires
        s.home_meta == Some(meta),
        current.identity.device == meta.identity.device,
        current.identity.inode == meta.identity.inode,
        current.identity.mode == meta.identity.mode,
        current.uid == meta.uid,
        current.flags == meta.flags,
    ensures
        s.closed(Ok(current), m).report.rows == s.report.rows,
        s.closed(Ok(current), m).report.issues == s.report.issues,
        s.closed(Ok(current), m).report.complete == s.report.complete,
        s.closed(Ok(current), m).report.elapsed_ms == m.total_ms,
        s.closed(Ok(current), m).phase is Done,
{
    reveal(ScanView::closed);
}

/// The overview of a home folder begins with looking at it, and shows nothing yet; its
/// limits leave room for a quarter of a second and twenty-four thousand entries at each
/// location, for four seconds and a hundred and sixty thousand in all.
pub proof fn an_overview_begins_with_the_home(
    root: crate::model::Root,
    include_system: bool,
    tool: Tool,
    user: u32,
    m: Moment,
)
    requires
        root.kind@ == "home"@,
    ensures
        ({
            let s = opening(root, include_system, tool, user, m);
            &&& s.phase is Home
            &&& s.turn == 0
            &&& s.home == root.path@
            &&& s.expected == root.identity
            &&& s.user == user
            &&& s.include_system == include_system
            &&& s.report.rows.len() == 0 && s.report.issues.len() == 0 && s.report.complete
            &&& s.limits == (Limits {
                entries_per_route: 24_000,
                total_entries: 160_000,
                depth: 32,
                route_ms: 250,
                total_ms: 4_000,
            })
        }),
{
}

/// The place of each location: eleven in the home folder, nine from the root of the
/// file system.
pub open spec fn place_of(turn: int, tool: Tool) -> Seq<char> {
    if turn == 0 {
        ".rustup/downloads"@
    } else if turn == 1 {
        ".rustup/toolchains"@
    } else if turn == 2 {
        "Library/Containers/com.docker.docker/Data/vms/0/data/Docker.raw"@
    } else if turn == 3 {
        "Library/Containers/com.docker.docker/Data/vms/0/data/Docker.qcow2"@
    } else if turn == 4 {
        "Library/Group Containers/HUAQ24HBR6.dev.orbstack/data/data.img"@
    } else if turn == 5 {
        "Library/Group Containers/HUAQ24HBR6.dev.orbstack/data/data.img.raw"@
    } else if turn == 6 {
        ".orbstack/data/data.img"@
    } else if turn == 7 {
        ".local/share/"@ + tool.folder@ + "/versions"@
    } else if turn == 8 {
        "Library/LaunchAgents"@
    } else if turn == 9 {
        "Library/Developer/CoreSimulator/Caches"@
    } else if turn == 10 {
        "Movies/CacheClip"@
    } else if turn == 11 {
        "Library/Caches"@
    } else if turn == 12 {
        "Library/Logs"@
    } else if turn == 13 {
        "Library/Logs/DiagnosticReports"@
    } else if turn == 14 {
        "private/var/log"@
    } else if turn == 15 {
        "Library/Developer/CoreSimulator/Caches"@
    } else if turn == 16 {
        "Library/Developer/CoreSimulator/Images"@
    } else if turn == 17 {
        "Library/Developer/CoreSimulator/Volumes"@
    } else if turn == 18 {
        "opt/homebrew/var/homebrew/locks"@
    } else {
        "usr/local/var/homebrew/locks"@
    }
}

/// Every location comes in its turn as long as there is time: those of the home folder
/// always, those of the system where they are asked for and the root is open. After
/// the last one the home folder is looked at once more.
pub proof fn every_location_has_its_turn(s: ScanView, m: Moment)
    requires
        m.total_ms < s.limits.total_ms,
        0 < s.limits.route_ms,
        0 < s.limits.entries_per_route,
        s.report.examined_entries < s.limits.total_entries,
    ensures
        s.turn < 11 ==> s.proceed(m) == (ScanView {
            phase: Stage::Locating(named(s.home, place_of(s.turn as int, s.tool))),
            ..s
        }),
        11 <= s.turn < 20 && s.include_system && s.system_open ==> s.proceed(m) == (ScanView {
            phase: Stage::Locating(named(seq![47u8], place_of(s.turn as int, s.tool))),
            ..s
        }),
        11 <= s.turn < 20 && s.include_system && !s.system_open ==> s.proceed(m).phase is System,
        s.turn >= 20 || (s.turn >= 11 && !s.include_system) ==> s.proceed(m).phase is Closing,
        s.turn < 20 ==> (route_of(s.turn as int).file_only <==> 2 <= s.turn <= 6),
        s.turn < 20 ==> (route_of(s.turn as int).child_suffix is Some <==> s.turn == 8),
        s.turn < 20 ==> (route_of(s.turn as int).skip_child is Some <==> s.turn == 12),
{
    reveal(ScanView::proceed);
    assert(root_path() =~= seq![47u8]);
}

/// Once the file system's root is open its locations follow; where it cannot be opened
/// the overview ends with an issue.
pub proof fn the_open_root_is_observed(s: ScanView, failure: Failure)
    requires
        s.report.issues.len() < 64,
    ensures
        s.entered_system(Ok(())) == (ScanView { system_open: true, phase: Stage::Idle, ..s }),
        s.entered_system(Err(failure)).phase is Closing,
        s.entered_system(Err(failure)).report.issues.len() == s.report.issues.len() + 1,
{
}

/// Each event is answered in the phase that asked for it, and an event that no one
/// asked for changes nothing.
pub proof fn unasked_events_change_nothing(s: ScanView, event: Event, m: Moment)
    requires
        s.phase is Done || (s.phase is Idle && !(event is Proceed)) || (s.phase is Home && !(
        event is Home)) || (s.phase is Locating && !(event is Located)) || (s.phase is Entering
            && !(event is Opened)) || (s.phase is Listing && !(event is Next)),
    ensures
        s.step(event, m) == s,
{
    reveal(ScanView::answered);
    reveal(ScanView::step);
}

/// A location is reached through components that are all folders on this side of every
/// boundary: what lies at its end is what was seen there.
pub proof fn plain_components_lead_to_the_location(
    facts: Seq<ComponentFact>,
    total: int,
    i: int,
    device: u64,
    meta: EntryMeta,
)
    requires
        0 <= i < total == facts.len(),
        forall|k: int|
            i <= k < total - 1 ==> {
                &&& (#[trigger] facts[k]).meta matches Some(Ok(Some(folder))) && local(
                    folder,
                    device,
                ) && folder.identity.mode & 0o170000 == 0o040000
                &&& facts[k].opened matches Some(Ok(_))
            },
        facts[total - 1].meta matches Some(Ok(Some(last))) && last == meta && local(meta, device),
    ensures
        follow(facts, total, i, Some(device)) == Finding::At(meta),
    decreases total - i,
{
    if i + 1 < total {
        let folder = facts[i].meta->Some_0->Ok_0->Some_0;
        boundaries_stop_what_is_not_local(folder, device);
        plain_components_lead_to_the_location(facts, total, i + 1, device, meta);
    } else {
        boundaries_stop_what_is_not_local(meta, device);
    }
}

/// A folder is measured where it is the local folder that was expected, on a volume
/// that is no remote one and no cloud storage; anything else stops it.
pub proof fn expected_folders_are_measured(
    actual: EntryMeta,
    expected: EntryMeta,
    cloud: Option<Seq<char>>,
    local_volume: Result<bool, FailureView>,
)
    ensures
        folder_failure(actual, expected, cloud, local_volume) is None <==> {
            &&& actual == expected
            &&& actual.identity.mode & 0o170000 == 0o040000
            &&& actual.flags & 0x4000_0000 == 0
            &&& cloud is None
            &&& local_volume == Ok::<bool, FailureView>(true)
        },
{
    boundaries_stop_what_is_not_local(actual, expected.identity.device);
    file_is_no_folder(actual);
}

} // verus!
