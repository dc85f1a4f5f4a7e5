//! What holds of every storage overview.
use super::overview::{limit_reached, row_of, Event, Moment, ScanView, Stage, VisitView};
use super::report::{
    one_object, CleanupAuthority, Failure, FailureView, InventoryState, ReportView, RowView,
    MAX_ISSUES,
};
use super::routes::{route_of, Route, Tool, USER_ROUTES};
use crate::model::{EntryMeta, Root};
use crate::paths::named;
use vstd::prelude::*;

verus! {

/// Whether a row claims no more than was observed: it may only be reviewed, what
/// could not be measured has no size, and a complete row has a file and a size.
pub open spec fn honest_row(row: RowView) -> bool {
    &&& row.cleanup_authority == CleanupAuthority::ReviewOnly
    &&& row.allocated_bytes is None <==> row.logical_bytes is None
    &&& row.state == InventoryState::Unavailable ==> row.allocated_bytes is None
    &&& row.state == InventoryState::Complete ==> row.files > 0 && row.allocated_bytes is Some
    &&& row.state == InventoryState::Partial && row.files == 0 ==> row.allocated_bytes is None
}

/// Whether a report is bounded and honest. It is complete exactly when nothing
/// stood in its way.
pub open spec fn honest(report: ReportView) -> bool {
    &&& report.issues.len() <= MAX_ISSUES
    &&& report.complete <==> report.issues.len() == 0 && report.omitted_issues == 0
    &&& report.omitted_issues > 0 ==> report.issues.len() == MAX_ISSUES
    &&& forall|i: int| 0 <= i < report.rows.len() ==> honest_row(#[trigger] report.rows[i])
}

proof fn issue_honest(report: ReportView, path: Seq<u8>, failure: FailureView)
    requires
        honest(report),
    ensures
        honest(report.issue(path, failure)),
        report.issue(path, failure).rows == report.rows,
        report.issue(path, failure).examined_entries == report.examined_entries,
{
}

proof fn row_honest(visit: VisitView, route: Route, tool: Tool, hidden: bool)
    requires
        hidden ==> visit.state == InventoryState::Partial,
    ensures
        row_of(visit, route, tool, hidden) matches Some(row) ==> honest_row(row),
{
}

proof fn push_honest(report: ReportView, row: RowView)
    requires
        honest(report),
        honest_row(row),
    ensures
        honest(ReportView { rows: report.rows.push(row), ..report }),
{
    let more = report.rows.push(row);
    assert forall|i: int| 0 <= i < more.len() implies honest_row(#[trigger] more[i]) by {
        if i < report.rows.len() {
            assert(more[i] == report.rows[i]);
        }
    }
}

proof fn verified_honest(s: ScanView, visit: VisitView, outcome: Result<Option<EntryMeta>, Failure>)
    requires
        honest(s.report),
    ensures
        honest(s.verified(visit, outcome).report),
        s.verified(visit, outcome).report.examined_entries == s.report.examined_entries,
{
    reveal(ScanView::verified);
    let same = outcome matches Ok(Some(meta)) && one_object(meta, visit.meta);
    let told = if same {
        s
    } else {
        s.issue(visit.path, super::locate::moved_failure())
    };
    issue_honest(s.report, visit.path, super::locate::moved_failure());
    let shown = if same {
        visit
    } else {
        visit.partial()
    };
    let row = row_of(shown, route_of(s.turn as int), s.tool, !same);
    row_honest(shown, route_of(s.turn as int), s.tool, !same);
    if let Some(row) = row {
        push_honest(told.report, row);
    }
}

/// Whatever is answered, a report stays bounded and honest, and the count of what
/// was examined never goes back.
pub proof fn overviews_stay_honest(s: ScanView, event: Event, m: Moment)
    requires
        honest(s.report),
    ensures
        honest(s.step(event, m).report),
        s.report.examined_entries <= s.step(event, m).report.examined_entries,
{
    reveal(ScanView::answered);
    let w = s.to(Stage::Idle);
    match (s.phase, event) {
        (Stage::Verifying(visit), Event::Located(outcome)) => {
            verified_honest(w, visit, outcome);
        },
        (Stage::Looking(walk, path, cloud), Event::Stat(outcome)) => {
            reveal(ScanView::looked);
            reveal(ScanView::counted);
            reveal(ScanView::nested);
        },
        (Stage::Listing(walk), Event::Next(outcome)) => {
            reveal(ScanView::listed);
        },
        (Stage::Home, Event::Home(outcome)) => {
            reveal(ScanView::entered_home);
        },
        (Stage::Idle, Event::Proceed) => {
            reveal(ScanView::proceed);
        },
        (Stage::Locating(path), Event::Located(outcome)) => {
            reveal(ScanView::located);
        },
        (Stage::Entering(visit), Event::Opened(outcome)) => {
            reveal(ScanView::entered);
        },
        (Stage::Walking(walk), Event::Proceed) => {
            reveal(ScanView::turn_in);
        },
        (Stage::Descending(walk, path, meta), Event::Opened(outcome)) => {
            reveal(ScanView::descended);
        },
        (Stage::Closing, Event::Home(outcome)) => {
            reveal(ScanView::closed);
        },
        _ => {},
    }
}

/// A grant of anything but a home folder authorizes no location: the overview is
/// over at once, and has examined nothing.
pub proof fn only_a_home_folder_is_inventoried(
    root: Root,
    include_system: bool,
    tool: Tool,
    user: u32,
    m: Moment,
)
    requires
        root.kind@ != "home"@,
    ensures
        super::overview::opening(root, include_system, tool, user, m).phase is Done,
        super::overview::opening(root, include_system, tool, user, m).report.rows.len() == 0,
        super::overview::opening(root, include_system, tool, user, m).report.examined_entries == 0,
        !super::overview::opening(root, include_system, tool, user, m).report.complete,
{
}

/// A home folder that was replaced before the overview is never observed.
pub proof fn a_replaced_home_is_not_observed(s: ScanView, outcome: Result<EntryMeta, Failure>, m: Moment)
    requires
        outcome matches Ok(meta) && (meta.identity.device != s.expected.device
            || meta.identity.inode != s.expected.inode || meta.identity.mode != s.expected.mode),
    ensures
        s.entered_home(outcome, m).phase is Done,
        s.entered_home(outcome, m).report.rows == s.report.rows,
        s.entered_home(outcome, m).report.examined_entries == s.report.examined_entries,
        !s.entered_home(outcome, m).report.complete,
{
    reveal(ScanView::entered_home);
}

/// A home folder that was replaced during the overview leaves no row behind.
pub proof fn a_moved_home_leaves_no_rows(s: ScanView, outcome: Result<EntryMeta, Failure>, m: Moment)
    requires
        !(outcome matches Ok(current) && (s.home_meta matches Some(meta) && one_object(
            meta,
            current,
        ))),
    ensures
        s.closed(outcome, m).report.rows.len() == 0,
        !s.closed(outcome, m).report.complete,
{
    reveal(ScanView::closed);
}

/// A further name of a file adds no bytes.
pub proof fn names_of_one_file_count_once(
    s: ScanView,
    walk: super::overview::WalkView,
    path: Seq<u8>,
    meta: EntryMeta,
)
    requires
        walk.inodes.contains(crate::sightings::link_key(meta.identity)),
    ensures
        s.counted(walk, path, meta).phase matches Stage::Walking(after) && after.visit.allocated
            == walk.visit.allocated && after.visit.logical == walk.visit.logical,
        s.counted(walk, path, meta).report == s.report,
{
    reveal(ScanView::counted);
}

/// A location that the limits leave no room for is reported as such, and never as
/// an empty one.
pub proof fn unvisited_locations_are_no_zeroes(s: ScanView, m: Moment)
    requires
        s.turn < USER_ROUTES,
        limit_reached(s.limits, s.report.examined_entries, 0, Moment { route_ms: 0, ..m }) is Some,
    ensures
        s.proceed(m).report.rows == s.report.rows,
        s.proceed(m).report.examined_entries == s.report.examined_entries,
        !s.proceed(m).report.complete,
{
    reveal(ScanView::proceed);
}

/// Without leave to look at the system, no system path is ever touched: the file
/// system's root is not opened, and every location that is looked up is one of
/// the home folder's own.
pub proof fn no_system_path_without_leave(s: ScanView, event: Event, m: Moment)
    requires
        !s.include_system,
        !(s.phase is System),
        s.phase matches Stage::Locating(path) ==> s.turn < USER_ROUTES && path == named(
            s.home,
            route_of(s.turn as int).relative.text(s.tool),
        ),
    ensures
        !s.step(event, m).include_system,
        !(s.step(event, m).phase is System),
        s.step(event, m).phase matches Stage::Locating(path) ==> s.step(event, m).turn
            < USER_ROUTES && path == named(
            s.step(event, m).home,
            route_of(s.step(event, m).turn as int).relative.text(s.step(event, m).tool),
        ),
{
    reveal(ScanView::answered);
    reveal(ScanView::looked);
    reveal(ScanView::counted);
    reveal(ScanView::nested);
    reveal(ScanView::listed);
    reveal(ScanView::entered_home);
    reveal(ScanView::proceed);
    reveal(ScanView::located);
    reveal(ScanView::entered);
    reveal(ScanView::turn_in);
    reveal(ScanView::descended);
    reveal(ScanView::closed);
    reveal(ScanView::verified);
}

} // verus!
