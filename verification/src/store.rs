//! The durable index: authorized roots, findings, the discovery journal and the
//! reward ledger, as tables whose rows stand in their order of arrival.
use crate::model::{
    Candidate, ForegroundScan, Identity, Receipt, Root, ScanStats,
};
use crate::order::strictly_sorted;
use crate::paths::FsPath;
use crate::tables::unique;
use crate::text::same_text;
use vstd::prelude::*;

pub mod batch;
pub mod claims;
pub mod coverage;
pub mod duplicates;
pub mod findings;
pub mod foreground;
pub mod grants;
pub mod ledger;
pub mod marks;
pub mod queue;
pub mod recover;
pub mod refresh;
pub mod retention;
pub mod telemetry;
pub mod tidy;

verus! {

/// Derived findings are bounded independently of the durable cleanup and event
/// ledgers. These defaults are policy limits, not a claim about the physical
/// size of a database.
pub const DEFAULT_MAX_CANDIDATE_ROWS: u64 = 50_000;

pub const DEFAULT_MAX_CANDIDATE_PAYLOAD_BYTES: u64 = 32 * 1024 * 1024;

pub const DEFAULT_MAX_CANDIDATE_JSON_BYTES: usize = 16 * 1024;

pub const CANDIDATE_PAYLOAD_OVERHEAD: u64 = 64;

pub const DERIVED_MAINTENANCE_ROWS: usize = 256;

/// The budget of the derived findings.
#[derive(Clone, Copy, PartialEq, Eq, Structural, Debug)]
pub struct DerivedLimits {
    pub max_candidate_rows: u64,
    pub max_candidate_payload_bytes: u64,
    pub max_candidate_json_bytes: usize,
}

impl DerivedLimits {
    pub fn standard() -> (r: DerivedLimits)
        ensures
            r.max_candidate_rows == DEFAULT_MAX_CANDIDATE_ROWS,
            r.max_candidate_payload_bytes == DEFAULT_MAX_CANDIDATE_PAYLOAD_BYTES,
            r.max_candidate_json_bytes == DEFAULT_MAX_CANDIDATE_JSON_BYTES,
    {
        DerivedLimits {
            max_candidate_rows: DEFAULT_MAX_CANDIDATE_ROWS,
            max_candidate_payload_bytes: DEFAULT_MAX_CANDIDATE_PAYLOAD_BYTES,
            max_candidate_json_bytes: DEFAULT_MAX_CANDIDATE_JSON_BYTES,
        }
    }
}

/// One location of the discovery journal.
pub struct Scope {
    pub root_id: String,
    pub path: FsPath,
}

/// What identifies a scope: its root and its path.
pub type ScopeKey = (Seq<char>, Seq<u8>);

impl Scope {
    pub open spec fn key(self) -> ScopeKey {
        (self.root_id@, self.path@)
    }
}

/// The keys of a list of scopes.
pub open spec fn keys(scopes: Seq<Scope>) -> Seq<ScopeKey> {
    scopes.map_values(|s: Scope| s.key())
}

/// The refresh that is under way for a root.
pub struct Refresh {
    pub root_id: String,
    pub scope: Option<FsPath>,
    pub generation: String,
}

/// Whether a refresh has met a finding that was there when it began.
pub struct Seen {
    pub root_id: String,
    pub generation: String,
    pub candidate_id: String,
    pub seen: bool,
}

/// A finding that was cleaned up and must not come back by a late batch.
pub struct Tombstone {
    pub id: String,
    pub location: Option<Scope>,
}

/// What a root's findings lack because the budget was full.
pub struct Limited {
    pub root_id: String,
    pub rows: u64,
    pub bytes: u64,
    pub reason: String,
}

/// What one refresh could not admit.
pub struct Admission {
    pub root_id: String,
    pub generation: String,
    pub rows: u64,
    pub bytes: u64,
    pub reason: String,
}

/// One indexed finding with the text it is stored as.
pub struct IndexRow {
    pub id: String,
    pub root_id: String,
    pub path: FsPath,
    pub candidate: Candidate,
    pub json: Vec<u8>,
}

impl IndexRow {
    /// What the row is charged.
    pub open spec fn weight(self) -> int {
        self.json@.len() + self.path@.len() + CANDIDATE_PAYLOAD_OVERHEAD
    }
}

/// What all rows are charged together.
pub open spec fn payload(rows: Seq<IndexRow>) -> int
    decreases rows.len(),
{
    if rows.len() == 0 {
        0
    } else {
        payload(rows.drop_last()) + rows.last().weight()
    }
}

/// The discovery journal: work that waits, work that is claimed, and the state
/// of the refreshes.
pub struct Journal {
    pub pending: Vec<Scope>,
    pub active: Vec<Scope>,
    pub refreshes: Vec<Refresh>,
    pub seen: Vec<Seen>,
    pub admissions: Vec<Admission>,
    pub incomplete: Vec<String>,
    pub cursor: Option<u64>,
}

/// The derived findings and their accounting.
pub struct Index {
    pub rows: Vec<IndexRow>,
    pub row_count: u64,
    pub payload_bytes: u64,
    pub tombstones: Vec<Tombstone>,
    pub limited: Vec<Limited>,
    pub row_headroom: u64,
    pub byte_headroom: u64,
}

/// The saved result of the last foreground scan, with the text it is stored as.
/// There is no decoded scan where the text could not be read.
pub struct SavedSummary {
    pub json: Vec<u8>,
    pub scan: Option<ForegroundScan>,
}

/// The context that grants and rules give a foreground scan, and its summary.
pub struct Foreground {
    pub revision: i64,
    pub summary: Option<SavedSummary>,
    pub completed_at: Option<i64>,
}

/// One cleanup of the ledger.
pub struct Operation {
    pub seq: i64,
    pub id: String,
    pub root: Root,
    pub candidate: Candidate,
    pub receipt: Receipt,
    pub stage_path: Option<String>,
    pub trash_identity: Option<Identity>,
    pub state: String,
}

/// One observation window of free space.
pub struct Window {
    pub id: String,
    pub domain: String,
    pub state: String,
}

/// The coins that one cleanup earned.
pub struct Earning {
    pub operation_id: String,
    pub coins: u64,
    pub collected: bool,
}

/// The totals of the wallet.
#[derive(Clone, Copy, PartialEq, Eq, Structural, Debug)]
pub struct Totals {
    pub collected: u64,
    pub remainder: u64,
    pub credited: u64,
}

/// Cleanups and their rewards.
pub struct Ledger {
    pub operations: Vec<Operation>,
    pub windows: Vec<Window>,
    pub earnings: Vec<Earning>,
    pub totals: Totals,
}

/// The counters of the last scan of a root.
pub struct SavedScan {
    pub root_id: String,
    pub stats: ScanStats,
}

/// All tables.
pub struct Store {
    pub roots: Vec<Root>,
    pub journal: Journal,
    pub index: Index,
    pub foreground: Foreground,
    pub ledger: Ledger,
    pub kept: Vec<Vec<u8>>,
    pub scans: Vec<SavedScan>,
    pub limits: DerivedLimits,
    pub rule_version: u32,
}

impl Journal {
    pub open spec fn wf(self) -> bool {
        &&& unique(keys(self.pending@), |k: ScopeKey| k)
        &&& unique(keys(self.active@), |k: ScopeKey| k)
        &&& unique(self.refreshes@, |r: Refresh| r.root_id@)
        &&& unique(self.seen@, |s: Seen| (s.root_id@, s.generation@, s.candidate_id@))
        &&& unique(self.admissions@, |a: Admission| (a.root_id@, a.generation@))
        &&& unique(self.incomplete@, |id: String| id@)
    }
}

impl Index {
    /// Findings have distinct ids and distinct paths, and the counters, which
    /// are stored as signed integers, are what a recount would give.
    pub open spec fn wf(self) -> bool {
        &&& unique(self.rows@, |r: IndexRow| r.id@)
        &&& unique(self.rows@, |r: IndexRow| r.path@)
        &&& self.row_count == self.rows@.len()
        &&& self.payload_bytes == payload(self.rows@)
        &&& self.payload_bytes <= i64::MAX
        &&& unique(self.tombstones@, |t: Tombstone| t.id@)
        &&& unique(self.limited@, |l: Limited| l.root_id@)
    }
}

/// The coins that wait to be collected.
pub open spec fn pending_coins(earnings: Seq<Earning>) -> int
    decreases earnings.len(),
{
    if earnings.len() == 0 {
        0
    } else {
        pending_coins(earnings.drop_last()) + if earnings.last().collected {
            0
        } else {
            earnings.last().coins as int
        }
    }
}

impl Ledger {
    /// Sequence numbers grow, ids are distinct, and the totals, which are stored
    /// as signed integers, have room for every coin that waits.
    pub open spec fn wf(self) -> bool {
        &&& forall|i: int, j: int|
            0 <= i < j < self.operations@.len() ==> (#[trigger] self.operations@[i]).seq < (
            #[trigger] self.operations@[j]).seq
        &&& unique(self.operations@, |o: Operation| o.id@)
        &&& self.totals.collected + pending_coins(self.earnings@) <= i64::MAX
    }
}

impl Store {
    pub open spec fn wf(self) -> bool {
        &&& unique(self.roots@, |r: Root| r.id@)
        &&& unique(self.roots@, |r: Root| r.path@)
        &&& self.journal.wf()
        &&& self.index.wf()
        &&& self.ledger.wf()
        &&& unique(self.scans@, |s: SavedScan| s.root_id@)
        &&& strictly_sorted(crate::order::byte_rows(self.kept@))
        &&& self.foreground.revision >= 0
        &&& self.limits.max_candidate_payload_bytes <= i64::MAX
    }

    /// The root with an id.
    pub open spec fn root_at(self, id: Seq<char>, i: int) -> bool {
        0 <= i < self.roots@.len() && self.roots@[i].id@ == id
    }

    /// Whether there is a root with this id.
    pub open spec fn has_root(self, id: Seq<char>) -> bool {
        exists|i: int| #[trigger] self.root_at(id, i)
    }

    /// The root with this id.
    pub open spec fn root_of(self, id: Seq<char>) -> Root {
        self.roots@[choose|i: int| #[trigger] self.root_at(id, i)]
    }
}

/// The text that the failed lookup of a row gives.
pub open spec fn no_row() -> Seq<char> {
    "Query returned no rows"@
}

/// The text of a failure.
pub fn err(e: impl std::fmt::Display) -> (r: String)
    ensures
        vstd::string::to_string_from_display_ensures(&e, r),
{
    e.to_string()
}

impl Store {
    /// A store without rows.
    pub fn empty(rule_version: u32, limits: DerivedLimits) -> (r: Store)
        requires
            limits.max_candidate_payload_bytes <= i64::MAX,
        ensures
            r.wf(),
            r.roots@.len() == 0,
            r.journal.pending@.len() == 0,
            r.journal.active@.len() == 0,
            r.journal.refreshes@.len() == 0,
            r.journal.seen@.len() == 0,
            r.journal.admissions@.len() == 0,
            r.journal.incomplete@.len() == 0,
            r.journal.cursor is None,
            r.index.rows@.len() == 0,
            r.index.tombstones@.len() == 0,
            r.index.limited@.len() == 0,
            r.index.row_headroom == 0,
            r.index.byte_headroom == 0,
            r.foreground.revision == 0,
            r.foreground.summary is None,
            r.foreground.completed_at is None,
            r.ledger.operations@.len() == 0,
            r.ledger.windows@.len() == 0,
            r.ledger.earnings@.len() == 0,
            r.ledger.totals == (Totals { collected: 0, remainder: 0, credited: 0 }),
            r.kept@.len() == 0,
            r.scans@.len() == 0,
            r.limits == limits,
            r.rule_version == rule_version,
    {
        Store {
            roots: Vec::new(),
            journal: Journal {
                pending: Vec::new(),
                active: Vec::new(),
                refreshes: Vec::new(),
                seen: Vec::new(),
                admissions: Vec::new(),
                incomplete: Vec::new(),
                cursor: None,
            },
            index: Index {
                rows: Vec::new(),
                row_count: 0,
                payload_bytes: 0,
                tombstones: Vec::new(),
                limited: Vec::new(),
                row_headroom: 0,
                byte_headroom: 0,
            },
            foreground: Foreground { revision: 0, summary: None, completed_at: None },
            ledger: Ledger {
                operations: Vec::new(),
                windows: Vec::new(),
                earnings: Vec::new(),
                totals: Totals { collected: 0, remainder: 0, credited: 0 },
            },
            kept: Vec::new(),
            scans: Vec::new(),
            limits,
            rule_version,
        }
    }

    /// Where the root with this id stands.
    pub fn find_root(&self, id: &str) -> (r: Option<usize>)
        ensures
            match r {
                Some(i) => self.root_at(id@, i as int),
                None => !self.has_root(id@),
            },
    {
        let mut i: usize = 0;
        while i < self.roots.len()
            invariant
                i <= self.roots.len(),
                forall|j: int| 0 <= j < i ==> (#[trigger] self.roots@[j]).id@ != id@,
            decreases self.roots.len() - i,
        {
            if same_text(self.roots[i].id.as_str(), id) {
                return Some(i);
            }
            i = i + 1;
        }
        None
    }

    pub fn knows_root(&self, id: &str) -> (r: bool)
        ensures
            r == self.has_root(id@),
    {
        match self.find_root(id) {
            Some(at) => {
                assert(self.root_at(id@, at as int));
                true
            },
            None => false,
        }
    }

    /// The id determines the root.
    pub proof fn root_unique(self, id: Seq<char>, i: int)
        requires
            self.wf(),
            self.root_at(id, i),
        ensures
            self.has_root(id),
            self.root_of(id) == self.roots@[i],
    {
        let c = choose|c: int| #[trigger] self.root_at(id, c);
        assert(self.root_at(id, c));
        if c < i {
            assert(self.roots@[c].id@ != self.roots@[i].id@);
        } else if i < c {
            assert(self.roots@[i].id@ != self.roots@[c].id@);
        }
    }
}

} // verus!
