//! What the storage overview reports.
use crate::evidence::text_view;
use crate::model::{capped, count, EntryMeta};
use crate::paths::{share, FsPath};
use vstd::prelude::*;

verus! {

/// How many issues are reported in full.
pub const MAX_ISSUES: usize = 64;

/// How long a path may be.
pub const MAX_PATH_BYTES: usize = 4096;

#[derive(Debug, Clone, Copy, PartialEq, Eq, Structural)]
pub enum InventoryState {
    Complete,
    Partial,
    Unavailable,
}

/// What may be done with what is reported: it may be reviewed.
#[derive(Debug, Clone, Copy, PartialEq, Eq, Structural)]
pub enum CleanupAuthority {
    ReviewOnly,
}

#[derive(Debug, Clone, Copy, PartialEq, Eq, Structural)]
pub enum IssueKind {
    PermissionDenied,
    Symlink,
    Changed,
    DepthLimit,
    EntryLimit,
    TimeLimit,
    CloudPlaceholder,
    MountBoundary,
    Unavailable,
}

/// Something that could not be observed.
pub struct InventoryIssue {
    pub path: FsPath,
    pub kind: IssueKind,
    pub detail: String,
}

#[verifier::ext_equal]
pub struct IssueView {
    pub path: Seq<u8>,
    pub kind: IssueKind,
    pub detail: Seq<char>,
}

impl View for InventoryIssue {
    type V = IssueView;

    open spec fn view(&self) -> IssueView {
        IssueView { path: self.path@, kind: self.kind, detail: self.detail@ }
    }
}

/// What was observed of one location.
pub struct StorageInventoryRow {
    pub id: String,
    pub title: String,
    pub category: String,
    pub path: FsPath,
    pub state: InventoryState,
    /// Observed allocation, counted once per file within this location. Shared
    /// blocks make this no measure of recoverable space. For a partial row this
    /// is only the measured portion, never a full total.
    pub allocated_bytes: Option<u64>,
    pub logical_bytes: Option<u64>,
    pub files: u64,
    pub directories: u64,
    pub detail: String,
    pub owner_followup: String,
    /// An existing fixed owner-review destination, never an executable command.
    pub provider: Option<String>,
    pub cleanup_authority: CleanupAuthority,
}

#[verifier::ext_equal]
pub struct RowView {
    pub id: Seq<char>,
    pub title: Seq<char>,
    pub category: Seq<char>,
    pub path: Seq<u8>,
    pub state: InventoryState,
    pub allocated_bytes: Option<u64>,
    pub logical_bytes: Option<u64>,
    pub files: u64,
    pub directories: u64,
    pub detail: Seq<char>,
    pub owner_followup: Seq<char>,
    pub provider: Option<Seq<char>>,
    pub cleanup_authority: CleanupAuthority,
}

impl View for StorageInventoryRow {
    type V = RowView;

    open spec fn view(&self) -> RowView {
        RowView {
            id: self.id@,
            title: self.title@,
            category: self.category@,
            path: self.path@,
            state: self.state,
            allocated_bytes: self.allocated_bytes,
            logical_bytes: self.logical_bytes,
            files: self.files,
            directories: self.directories,
            detail: self.detail@,
            owner_followup: self.owner_followup@,
            provider: text_view(self.provider),
            cleanup_authority: self.cleanup_authority,
        }
    }
}

/// The whole overview.
pub struct StorageInventoryReport {
    pub rows: Vec<StorageInventoryRow>,
    pub issues: Vec<InventoryIssue>,
    pub omitted_issues: u64,
    pub examined_entries: u64,
    pub elapsed_ms: u64,
    /// Complete coverage of these fixed routes only, not the whole disk.
    pub complete: bool,
}

#[verifier::ext_equal]
pub struct ReportView {
    pub rows: Seq<RowView>,
    pub issues: Seq<IssueView>,
    pub omitted_issues: u64,
    pub examined_entries: u64,
    pub elapsed_ms: u64,
    pub complete: bool,
}

impl View for StorageInventoryReport {
    type V = ReportView;

    open spec fn view(&self) -> ReportView {
        ReportView {
            rows: self.rows@.map_values(|r: StorageInventoryRow| r@),
            issues: self.issues@.map_values(|i: InventoryIssue| i@),
            omitted_issues: self.omitted_issues,
            examined_entries: self.examined_entries,
            elapsed_ms: self.elapsed_ms,
            complete: self.complete,
        }
    }
}

/// Why something could not be observed.
pub struct Failure {
    pub kind: IssueKind,
    pub detail: String,
}

#[verifier::ext_equal]
pub struct FailureView {
    pub kind: IssueKind,
    pub detail: Seq<char>,
}

impl View for Failure {
    type V = FailureView;

    open spec fn view(&self) -> FailureView {
        FailureView { kind: self.kind, detail: self.detail@ }
    }
}

impl Failure {
    pub fn new(kind: IssueKind, detail: &str) -> (r: Failure)
        ensures
            r@ == (FailureView { kind, detail: detail@ }),
    {
        Failure { kind, detail: detail.to_owned() }
    }

    pub fn copy(&self) -> (r: Failure)
        ensures
            r == *self,
    {
        Failure { kind: self.kind, detail: self.detail.clone() }
    }
}

/// How an operation on the file system failed.
#[derive(Debug, Clone, Copy, PartialEq, Eq, Structural)]
pub enum OsFailure {
    Denied,
    Loop,
    Missing,
    NotFolder,
    Other,
}

pub open spec fn link_detail() -> Seq<char> {
    "Symbolic links are not followed by the overview."@
}

/// What is said of a failed operation.
pub open spec fn os_failure(failure: OsFailure) -> FailureView {
    match failure {
        OsFailure::Denied => FailureView {
            kind: IssueKind::PermissionDenied,
            detail:
                "macOS did not allow this location to be read. Check folder access and Full Disk Access."@,
        },
        OsFailure::Loop => FailureView { kind: IssueKind::Symlink, detail: link_detail() },
        OsFailure::Missing => FailureView {
            kind: IssueKind::Changed,
            detail: "This location moved or changed during the overview."@,
        },
        OsFailure::NotFolder => FailureView {
            kind: IssueKind::Changed,
            detail: "This location moved or changed during the overview."@,
        },
        OsFailure::Other => FailureView {
            kind: IssueKind::Unavailable,
            detail: "This location could not be measured."@,
        },
    }
}

impl Failure {
    /// What is said of a failed operation.
    pub fn io(failure: OsFailure) -> (r: Failure)
        ensures
            r@ == os_failure(failure),
    {
        match failure {
            OsFailure::Denied => Failure::new(
                IssueKind::PermissionDenied,
                "macOS did not allow this location to be read. Check folder access and Full Disk Access.",
            ),
            OsFailure::Loop => Failure::new(
                IssueKind::Symlink,
                "Symbolic links are not followed by the overview.",
            ),
            OsFailure::Missing | OsFailure::NotFolder => Failure::new(
                IssueKind::Changed,
                "This location moved or changed during the overview.",
            ),
            OsFailure::Other => Failure::new(
                IssueKind::Unavailable,
                "This location could not be measured.",
            ),
        }
    }
}

impl ReportView {
    /// The report with one more issue. Only so many are kept; the others are
    /// counted.
    pub open spec fn issue(self, path: Seq<u8>, failure: FailureView) -> ReportView {
        if self.issues.len() < MAX_ISSUES {
            ReportView {
                complete: false,
                issues: self.issues.push(
                    IssueView { path, kind: failure.kind, detail: failure.detail },
                ),
                ..self
            }
        } else {
            ReportView {
                complete: false,
                omitted_issues: capped(self.omitted_issues + 1),
                ..self
            }
        }
    }

    pub open spec fn examine(self) -> ReportView {
        ReportView { examined_entries: capped(self.examined_entries + 1), ..self }
    }
}

/// An overview that has observed nothing yet.
pub open spec fn blank_report() -> ReportView {
    ReportView {
        rows: seq![],
        issues: seq![],
        omitted_issues: 0,
        examined_entries: 0,
        elapsed_ms: 0,
        complete: true,
    }
}

impl StorageInventoryReport {
    pub fn new() -> (r: StorageInventoryReport)
        ensures
            r@ == blank_report(),
    {
        let r: StorageInventoryReport = StorageInventoryReport {
            rows: Vec::new(),
            issues: Vec::new(),
            omitted_issues: 0,
            examined_entries: 0,
            elapsed_ms: 0,
            complete: true,
        };
        assert(r@ =~= blank_report());
        r
    }

    pub fn issue(&mut self, path: &FsPath, failure: Failure)
        ensures
            final(self)@ == old(self)@.issue(path@, failure@),
    {
        let ghost before = self@;
        self.complete = false;
        if self.issues.len() < MAX_ISSUES {
            let row: InventoryIssue = InventoryIssue {
                path: share(path),
                kind: failure.kind,
                detail: failure.detail,
            };
            let ghost added = row@;
            self.issues.push(row);
            assert(self@.issues =~= before.issues.push(added));
        } else {
            count(&mut self.omitted_issues, 1);
        }
        assert(self@ =~= before.issue(path@, failure@));
    }

    pub fn examine(&mut self)
        ensures
            final(self)@ == old(self)@.examine(),
    {
        count(&mut self.examined_entries, 1);
    }
}

/// Why an entry is not looked into, if it is not.
pub open spec fn boundary_failure(meta: EntryMeta, device: Option<u64>) -> Option<FailureView> {
    if meta.symlink() {
        Some(FailureView { kind: IssueKind::Symlink, detail: link_detail() })
    } else if meta.dataless() {
        Some(
            FailureView {
                kind: IssueKind::CloudPlaceholder,
                detail: "Cloud placeholders are excluded without downloading them."@,
            },
        )
    } else if device is Some && device != Some(meta.identity.device) {
        Some(
            FailureView {
                kind: IssueKind::MountBoundary,
                detail:
                    "A different storage volume was excluded. Review it with its owning app."@,
            },
        )
    } else {
        None
    }
}

/// Passes on the metadata of an entry that may be looked into.
pub fn boundary(meta: EntryMeta, device: Option<u64>) -> (r: Result<EntryMeta, Failure>)
    ensures
        match boundary_failure(meta, device) {
            Some(failure) => r matches Err(got) && got@ == failure,
            None => r == Ok::<EntryMeta, Failure>(meta),
        },
{
    if meta.is_symlink() {
        return Err(
            Failure::new(
                IssueKind::Symlink,
                "Symbolic links are not followed by the overview.",
            ),
        );
    }
    if meta.is_dataless() {
        return Err(
            Failure::new(
                IssueKind::CloudPlaceholder,
                "Cloud placeholders are excluded without downloading them.",
            ),
        );
    }
    let elsewhere: bool = match device {
        Some(device) => meta.identity.device != device,
        None => false,
    };
    if elsewhere {
        return Err(
            Failure::new(
                IssueKind::MountBoundary,
                "A different storage volume was excluded. Review it with its owning app.",
            ),
        );
    }
    Ok(meta)
}

/// Whether two observations are of the same object.
pub open spec fn one_object(left: EntryMeta, right: EntryMeta) -> bool {
    left.identity.device == right.identity.device && left.identity.inode == right.identity.inode
        && left.identity.mode == right.identity.mode && left.uid == right.uid && left.flags
        == right.flags
}

pub fn same_object(left: &EntryMeta, right: &EntryMeta) -> (r: bool)
    ensures
        r == one_object(*left, *right),
{
    left.identity.device == right.identity.device && left.identity.inode == right.identity.inode
        && left.identity.mode == right.identity.mode && left.uid == right.uid && left.flags
        == right.flags
}

} // verus!
