//! Automatic, metadata-only inventory of specific storage locations.
//!
//! These observations are deliberately not findings: they cannot authorize
//! cleanup, report recovery, or earn chips. No installed commands run and no file
//! contents are read. Defaults are inspected only when they exist; custom tool
//! paths must be reviewed with the owning tool.
pub mod laws;
pub mod locate;
pub mod overview;
pub mod report;
pub mod routes;
pub use overview::scan;
pub use report::{
    CleanupAuthority, InventoryIssue, InventoryState, IssueKind, StorageInventoryReport,
    StorageInventoryRow,
};
