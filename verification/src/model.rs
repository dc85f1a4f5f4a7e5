//! The values that discovery, the index and the ledger exchange.
use crate::paths::{share, FsPath};
use vstd::prelude::*;

verus! {

/// What identifies one object of the file system at one moment.
#[derive(Clone, Copy, PartialEq, Eq, Structural, Debug)]
pub struct Identity {
    pub device: u64,
    pub inode: u64,
    pub mode: u32,
    pub size: u64,
    pub modified_ns: i64,
    pub changed_ns: i64,
}

pub const TYPE_MASK: u32 = 0o170000;

pub const TYPE_DIRECTORY: u32 = 0o040000;

pub const TYPE_REGULAR: u32 = 0o100000;

pub const TYPE_LINK: u32 = 0o120000;

/// The flag of an entry whose contents are not stored locally.
pub const FLAG_DATALESS: u32 = 0x4000_0000;

/// The metadata of one entry, read without following a link.
#[derive(Clone, Copy, PartialEq, Eq, Structural, Debug)]
pub struct EntryMeta {
    pub identity: Identity,
    pub allocated: u64,
    pub links: u64,
    pub uid: u32,
    pub flags: u32,
}

impl EntryMeta {
    pub open spec fn dir(self) -> bool {
        self.identity.mode & TYPE_MASK == TYPE_DIRECTORY
    }

    pub open spec fn file(self) -> bool {
        self.identity.mode & TYPE_MASK == TYPE_REGULAR
    }

    pub open spec fn symlink(self) -> bool {
        self.identity.mode & TYPE_MASK == TYPE_LINK
    }

    pub open spec fn dataless(self) -> bool {
        self.flags & FLAG_DATALESS != 0
    }

    pub fn is_dir(&self) -> (r: bool)
        ensures
            r == self.dir(),
    {
        self.identity.mode & TYPE_MASK == TYPE_DIRECTORY
    }

    pub fn is_file(&self) -> (r: bool)
        ensures
            r == self.file(),
    {
        self.identity.mode & TYPE_MASK == TYPE_REGULAR
    }

    pub fn is_symlink(&self) -> (r: bool)
        ensures
            r == self.symlink(),
    {
        self.identity.mode & TYPE_MASK == TYPE_LINK
    }

    pub fn is_dataless(&self) -> (r: bool)
        ensures
            r == self.dataless(),
    {
        self.flags & FLAG_DATALESS != 0
    }
}

/// One entry that a traversal met.
pub struct Entry {
    pub path: FsPath,
    pub meta: EntryMeta,
}

/// A location that the user has authorized.
pub struct Root {
    pub id: String,
    pub path: FsPath,
    pub kind: String,
    pub identity: Identity,
}

impl Root {
    pub fn copy(&self) -> (r: Root)
        ensures
            r == *self,
    {
        Root {
            id: self.id.clone(),
            path: share(&self.path),
            kind: self.kind.clone(),
            identity: self.identity,
        }
    }
}

/// A possible cleanup: what was found, how large it is and why it may or may
/// not be offered.
pub struct Candidate {
    pub id: String,
    pub root_id: String,
    pub path: FsPath,
    pub title: String,
    pub kind: String,
    pub logical_bytes: u64,
    pub allocated_bytes: u64,
    pub file_count: u64,
    pub modified_ns: i64,
    pub explanation: String,
    pub consequence: String,
    pub eligible_permanent: bool,
    pub suggestion_eligible: bool,
    pub provisional: bool,
    pub blocked_reason: Option<String>,
    pub identity: Identity,
    pub fingerprint: String,
    pub evidence: String,
}

/// A copy of an optional text.
pub fn copy_text(text: &Option<String>) -> (r: Option<String>)
    ensures
        r == *text,
{
    match text {
        Some(text) => Some(text.clone()),
        None => None,
    }
}

/// A copy of an optional path.
pub fn copy_path(path: &Option<FsPath>) -> (r: Option<FsPath>)
    ensures
        r == *path,
{
    match path {
        Some(path) => Some(share(path)),
        None => None,
    }
}

impl Candidate {
    pub fn copy(&self) -> (r: Candidate)
        ensures
            r == *self,
    {
        Candidate {
            id: self.id.clone(),
            root_id: self.root_id.clone(),
            path: share(&self.path),
            title: self.title.clone(),
            kind: self.kind.clone(),
            logical_bytes: self.logical_bytes,
            allocated_bytes: self.allocated_bytes,
            file_count: self.file_count,
            modified_ns: self.modified_ns,
            explanation: self.explanation.clone(),
            consequence: self.consequence.clone(),
            eligible_permanent: self.eligible_permanent,
            suggestion_eligible: self.suggestion_eligible,
            provisional: self.provisional,
            blocked_reason: copy_text(&self.blocked_reason),
            identity: self.identity,
            fingerprint: self.fingerprint.clone(),
            evidence: self.evidence.clone(),
        }
    }
}

/// The counters of one scan.
pub struct ScanStats {
    pub entries: u64,
    pub files: u64,
    pub directories: u64,
    pub skipped: u64,
    pub metadata_skipped: u64,
    pub errors: u64,
    pub excluded_artifacts: u64,
    pub candidates: u64,
    pub logical_bytes: u64,
    pub allocated_bytes: u64,
    pub elapsed_ms: u64,
    pub first_finding_ms: Option<u64>,
    pub complete: bool,
    pub cancelled: bool,
    pub message: String,
}

impl ScanStats {
    /// Nothing counted yet.
    pub open spec fn blank(self) -> bool {
        &&& self.entries == 0
        &&& self.files == 0
        &&& self.directories == 0
        &&& self.skipped == 0
        &&& self.metadata_skipped == 0
        &&& self.errors == 0
        &&& self.excluded_artifacts == 0
        &&& self.candidates == 0
        &&& self.logical_bytes == 0
        &&& self.allocated_bytes == 0
        &&& self.elapsed_ms == 0
        &&& self.first_finding_ms is None
        &&& !self.complete
        &&& !self.cancelled
    }

    pub fn new() -> (r: ScanStats)
        ensures
            r.blank(),
            r.message@ == Seq::<char>::empty(),
    {
        ScanStats {
            entries: 0,
            files: 0,
            directories: 0,
            skipped: 0,
            metadata_skipped: 0,
            errors: 0,
            excluded_artifacts: 0,
            candidates: 0,
            logical_bytes: 0,
            allocated_bytes: 0,
            elapsed_ms: 0,
            first_finding_ms: None,
            complete: false,
            cancelled: false,
            message: String::new(),
        }
    }

    pub fn copy(&self) -> (r: ScanStats)
        ensures
            r == *self,
    {
        ScanStats {
            entries: self.entries,
            files: self.files,
            directories: self.directories,
            skipped: self.skipped,
            metadata_skipped: self.metadata_skipped,
            errors: self.errors,
            excluded_artifacts: self.excluded_artifacts,
            candidates: self.candidates,
            logical_bytes: self.logical_bytes,
            allocated_bytes: self.allocated_bytes,
            elapsed_ms: self.elapsed_ms,
            first_finding_ms: self.first_finding_ms,
            complete: self.complete,
            cancelled: self.cancelled,
            message: self.message.clone(),
        }
    }
}

/// Findings together with the counters at the moment they were published.
pub struct ScanBatch {
    pub candidates: Vec<Candidate>,
    pub stats: ScanStats,
}

/// The state of the scan that the user asked for last.
pub struct ForegroundScan {
    pub active: bool,
    pub stats: ScanStats,
}

impl ForegroundScan {
    pub fn copy(&self) -> (r: ForegroundScan)
        ensures
            r == *self,
    {
        ForegroundScan { active: self.active, stats: self.stats.copy() }
    }
}

/// What was done, or attempted, with one item.
pub struct Receipt {
    pub id: String,
    pub path: FsPath,
    pub title: String,
    pub operation: String,
    pub outcome: String,
    pub detail: String,
    pub created_at: i64,
    pub reported_bytes: u64,
    pub observed_bytes: u64,
    pub credited_bytes: u64,
    pub coins: u64,
    pub trash_path: Option<FsPath>,
    pub can_restore: bool,
    pub seq: Option<i64>,
}

impl Receipt {
    pub fn copy(&self) -> (r: Receipt)
        ensures
            r == *self,
    {
        Receipt {
            id: self.id.clone(),
            path: share(&self.path),
            title: self.title.clone(),
            operation: self.operation.clone(),
            outcome: self.outcome.clone(),
            detail: self.detail.clone(),
            created_at: self.created_at,
            reported_bytes: self.reported_bytes,
            observed_bytes: self.observed_bytes,
            credited_bytes: self.credited_bytes,
            coins: self.coins,
            trash_path: copy_path(&self.trash_path),
            can_restore: self.can_restore,
            seq: self.seq,
        }
    }
}

/// The rewards: what was collected, what has been credited, and what waits.
#[derive(Clone, Copy, PartialEq, Eq, Structural, Debug)]
pub struct Wallet {
    pub collected_coins: u64,
    pub fractional_bytes: u64,
    pub credited_bytes: u64,
    pub pending_coins: u64,
}

/// The sum of two counters, held at the largest number where it does not fit.
pub open spec fn capped(n: int) -> u64 {
    if n > u64::MAX {
        u64::MAX
    } else {
        n as u64
    }
}

/// Adds to a counter.
pub fn count(counter: &mut u64, by: u64)
    ensures
        *final(counter) == capped(*old(counter) + by),
{
    *counter = counter.saturating_add(by);
}

} // verus!
