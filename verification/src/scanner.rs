//! Discovery: one streaming session classifies before it descends, hands out
//! bounded batches, and leaves retention to the index.
pub mod confinement;
pub mod coverage;
pub mod hints;
pub mod laws;
pub mod lockfile;
pub mod modes;
pub mod press;
pub mod promises;
pub mod reach;
pub mod review;
pub mod session;
pub mod start;
pub mod state;
pub mod validate;
pub use start::{scan, scan_with_checkpoint, scan_with_checkpoint_mode, scan_with_exclusions};
pub use state::{ScanMode, ScanSession};
pub use validate::revalidate;
