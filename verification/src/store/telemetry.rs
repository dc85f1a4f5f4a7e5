//! What maintenance reports of the files that hold the tables.
use crate::store::retention::DerivedUsage;
use crate::store::Store;
use crate::text::{chars_hold, chars_of, failed, occurs};
use vstd::prelude::*;

verus! {

/// The sizes of the database and of its side files. A file that is not there has
/// the size zero.
#[derive(Clone, Copy, PartialEq, Eq, Structural, Debug)]
pub struct FileSizes {
    /// Telemetry only: the file holds durable truth too and is no quota.
    pub database_bytes: u64,
    pub wal_bytes: u64,
    pub wal_shm_bytes: u64,
}

/// What a checkpoint of the log answered.
#[derive(Clone, Copy, PartialEq, Eq, Structural, Debug)]
pub struct Checkpoint {
    pub busy: i64,
    pub frames: i64,
    pub checkpointed: i64,
}

/// The counters of the derived findings together with the state of the log.
#[derive(Clone, Copy, PartialEq, Eq, Structural, Debug)]
pub struct Telemetry {
    pub usage: DerivedUsage,
    pub sizes: FileSizes,
    pub wal_frames: u64,
    pub wal_checkpointed: u64,
    pub wal_busy: bool,
}

/// A count that the database reports, where it has one.
pub open spec fn reported(n: i64) -> u64 {
    if n > 0 {
        n as u64
    } else {
        0
    }
}

fn report(n: i64) -> (r: u64)
    ensures
        r == reported(n),
{
    if n > 0 {
        n as u64
    } else {
        0
    }
}

impl Store {
    /// What a checkpoint that never waits for readers leaves to report. A locked
    /// database is busy, so that a later checkpoint is needed; any other failure
    /// is one of the maintenance.
    pub fn checkpoint_wal(&self, outcome: Result<Checkpoint, String>, sizes: FileSizes) -> (r: Result<
        Telemetry,
        String,
    >)
        ensures
            match outcome {
                Ok(answer) => r matches Ok(out) && out == (Telemetry {
                    usage: DerivedUsage {
                        candidate_rows: self.index.row_count,
                        candidate_payload_bytes: self.index.payload_bytes,
                    },
                    sizes,
                    wal_frames: reported(answer.frames),
                    wal_checkpointed: reported(answer.checkpointed),
                    wal_busy: answer.busy != 0,
                }),
                Err(reason) => if occurs(reason@, "locked"@) {
                    r matches Ok(out) && out == (Telemetry {
                        usage: DerivedUsage {
                            candidate_rows: self.index.row_count,
                            candidate_payload_bytes: self.index.payload_bytes,
                        },
                        sizes,
                        wal_frames: 0,
                        wal_checkpointed: 0,
                        wal_busy: true,
                    })
                } else {
                    failed(r, reason@)
                },
            },
    {
        let answer: Checkpoint = match outcome {
            Ok(answer) => answer,
            Err(reason) => {
                if !chars_hold(chars_of(reason.as_str()).as_slice(), "locked") {
                    return Err(reason);
                }
                Checkpoint { busy: 1, frames: 0, checkpointed: 0 }
            },
        };
        Ok(
            Telemetry {
                usage: self.derived_usage(),
                sizes,
                wal_frames: report(answer.frames),
                wal_checkpointed: report(answer.checkpointed),
                wal_busy: answer.busy != 0,
            },
        )
    }
}

} // verus!
