//! The refresh after a lockfile changed: the file itself, and the build output
//! beside it.
use super::session::is_kept_over;
use super::state::kept_over;
use crate::model::{Candidate, EntryMeta, Identity, Root, ScanBatch, ScanStats};
use crate::paths::{is_same_place, path_bytes, same_place, FsPath};
use crate::sightings::{no_counts, sightings, Bulletin, Counters, Sighting};
use crate::text::{fail, failed, same_text};
use vstd::prelude::*;

verus! {

/// A refresh whose lockfile was scanned.
pub struct LockRefresh {
    pub root_id: String,
    pub target: FsPath,
    pub origin: ScanStats,
    /// What the build output was when it was selected.
    pub expected: Option<Identity>,
    /// The finding that the build output gave, as it was last.
    pub candidate: Option<Candidate>,
    /// Whether anything else was found there.
    pub invalid: bool,
}

/// The same, as a value to reason about.
#[verifier::ext_equal]
pub struct LockState {
    pub root_id: Seq<char>,
    pub target: Seq<u8>,
    pub origin: Counters,
    pub expected: Option<Identity>,
    pub candidate: Option<Sighting>,
    pub invalid: bool,
}

pub open spec fn candidate_view(candidate: Option<Candidate>) -> Option<Sighting> {
    match candidate {
        Some(candidate) => Some(candidate@),
        None => None,
    }
}

impl View for LockRefresh {
    type V = LockState;

    open spec fn view(&self) -> LockState {
        LockState {
            root_id: self.root_id@,
            target: self.target@,
            origin: self.origin@,
            expected: self.expected,
            candidate: candidate_view(self.candidate),
            invalid: self.invalid,
        }
    }
}

/// What comes after the lockfile was scanned.
pub enum LockStep {
    /// The refresh was cancelled.
    Stopped(ScanStats),
    /// The build output is kept: nothing of it is looked at.
    Kept(LockRefresh, ScanStats),
    /// The build output is to be observed.
    Observe(LockRefresh),
}

/// A batch of the lockfile's own scan: it is never complete, for the build output
/// was not looked at yet.
pub fn origin_batch(batch: ScanBatch) -> (r: ScanBatch)
    ensures
        r@ == (Bulletin { stats: Counters { complete: false, ..batch@.stats }, ..batch@ }),
{
    let mut batch: ScanBatch = batch;
    batch.stats.complete = false;
    batch
}

/// The counters of a build output that was not there, or not looked at.
pub open spec fn untouched(skipped: u64) -> Counters {
    Counters { complete: true, skipped, ..no_counts() }
}

fn untouched_stats(skipped: u64) -> (r: ScanStats)
    ensures
        r@ == untouched(skipped),
{
    let mut stats: ScanStats = ScanStats::new();
    stats.complete = true;
    stats.skipped = skipped;
    assert(stats@ =~= untouched(skipped));
    stats
}

/// The build output that a lockfile answers for. Without one nothing is scanned,
/// not even the lockfile.
pub fn lock_target(target: Option<FsPath>) -> (r: Result<FsPath, String>)
    ensures
        match target {
            None => failed(r, "The lockfile refresh is not an authorized dependency scope"@),
            Some(path) => r == Ok::<FsPath, String>(path),
        },
{
    match target {
        None => fail("The lockfile refresh is not an authorized dependency scope"),
        Some(path) => Ok(path),
    }
}

/// Goes on after the lockfile was scanned.
pub fn scan_cargo_lock_with_checkpoint_mode(
    root: &Root,
    target: Option<FsPath>,
    kept: &Vec<FsPath>,
    origin: ScanStats,
    cancel: bool,
) -> (r: Result<LockStep, String>)
    ensures
        match target {
            None => failed(r, "The lockfile refresh is not an authorized dependency scope"@),
            Some(path) => if origin.cancelled || cancel {
                r matches Ok(LockStep::Stopped(stats)) && stats@ == (Counters {
                    complete: false,
                    cancelled: true,
                    ..origin@
                })
            } else {
                let start = LockState {
                    root_id: root.id@,
                    target: path@,
                    origin: origin@,
                    expected: None,
                    candidate: None,
                    invalid: false,
                };
                if kept_over(kept@, path@) {
                    r matches Ok(LockStep::Kept(state, stats)) && state@ == start && stats@
                        == untouched(1)
                } else {
                    r matches Ok(LockStep::Observe(state)) && state@ == start
                }
            },
        },
{
    match lock_target(target) {
        Err(reason) => Err(reason),
        Ok(path) => {
            if origin.cancelled || cancel {
                let mut stats: ScanStats = origin;
                stats.complete = false;
                stats.cancelled = true;
                return Ok(LockStep::Stopped(stats));
            }
            let skips: bool = is_kept_over(kept, &path);
            let state: LockRefresh = LockRefresh {
                root_id: root.id.clone(),
                target: path,
                origin,
                expected: None,
                candidate: None,
                invalid: false,
            };
            if skips {
                Ok(LockStep::Kept(state, untouched_stats(1)))
            } else {
                Ok(LockStep::Observe(state))
            }
        },
    }
}

/// Whether a finding is that of the selected build output.
pub open spec fn belongs(state: LockState, next: Sighting) -> bool {
    &&& same_place(next.path, state.target)
    &&& next.root_id == state.root_id
    &&& state.expected == Some(next.identity)
    &&& state.candidate matches Some(prior) ==> prior.id == next.id
}

/// One finding of the build output. An artifact gives at most one row; only its
/// latest version is held.
pub open spec fn receive_one(state: LockState, next: Sighting) -> LockState {
    if belongs(state, next) {
        LockState { candidate: Some(next), ..state }
    } else {
        LockState { invalid: true, ..state }
    }
}

/// All findings of a batch, one after the other.
pub open spec fn receive_all(state: LockState, list: Seq<Sighting>) -> LockState
    decreases list.len(),
{
    if list.len() == 0 {
        state
    } else {
        receive_one(receive_all(state, list.drop_last()), list.last())
    }
}

/// The counters of a build output that may be shown before it is verified: no
/// finding of it is.
pub open spec fn hidden_findings(stats: Counters) -> Counters {
    Counters { candidates: 0, first_finding_ms: None, ..stats }
}

impl LockRefresh {
    /// The build output was observed. Where there is none, there is nothing to
    /// scan.
    pub fn observe(&mut self, meta: &Option<EntryMeta>) -> (r: Option<ScanStats>)
        ensures
            final(self)@ == (LockState {
                expected: match *meta {
                    Some(meta) => Some(meta.identity),
                    None => None,
                },
                ..old(self)@
            }),
            match *meta {
                Some(_) => r is None,
                None => r matches Some(stats) && stats@ == untouched(0),
            },
    {
        match meta {
            Some(meta) => {
                self.expected = Some(meta.identity);
                None
            },
            None => {
                self.expected = None;
                Some(untouched_stats(0))
            },
        }
    }

    fn belongs(&self, next: &Candidate) -> (r: bool)
        ensures
            r == belongs(self@, next@),
    {
        let known: bool = match &self.expected {
            Some(identity) => *identity == next.identity,
            None => false,
        };
        let same: bool = match &self.candidate {
            Some(prior) => same_text(prior.id.as_str(), next.id.as_str()),
            None => true,
        };
        known && same && is_same_place(path_bytes(&next.path), path_bytes(&self.target))
            && same_text(next.root_id.as_str(), self.root_id.as_str())
    }

    /// A batch of the build output's scan. Neither a row nor what was earned
    /// becomes visible until the selected object is verified.
    pub fn receive(&mut self, batch: ScanBatch) -> (r: ScanStats)
        ensures
            final(self)@ == receive_all(old(self)@, batch@.candidates),
            r@ == hidden_findings(batch@.stats),
    {
        let ghost start = self@;
        let ghost list = batch@.candidates;
        let ghost rows = batch.candidates@;
        let mut rest: Vec<Candidate> = batch.candidates;
        let total: usize = rest.len();
        let mut i: usize = 0;
        assert(list.take(0) =~= seq![]);
        while i < total
            invariant
                i <= total,
                total == rows.len(),
                list == sightings(rows),
                rest@ == rows.skip(i as int),
                self@ == receive_all(start, list.take(i as int)),
            decreases total - i,
        {
            let next: Candidate = rest.remove(0);
            assert(next == rows[i as int]);
            assert(rest@ =~= rows.skip(i + 1));
            assert(list.take(i + 1).drop_last() =~= list.take(i as int));
            assert(list.take(i + 1).last() == next@);
            if self.belongs(&next) {
                self.candidate = Some(next);
            } else {
                self.invalid = true;
            }
            i = i + 1;
        }
        assert(list.take(i as int) =~= list);
        let mut stats: ScanStats = batch.stats;
        stats.candidates = 0;
        stats.first_finding_ms = None;
        stats
    }

    /// What is told while the build output is scanned: `combined` are the
    /// counters of both scans together.
    pub fn progress(&self, combined: ScanStats, elapsed_ms: u64) -> (r: ScanBatch)
        ensures
            r@ == (Bulletin {
                candidates: seq![],
                stats: Counters {
                    complete: false,
                    cancelled: combined.cancelled || self.origin.cancelled,
                    elapsed_ms,
                    ..combined@
                },
            }),
    {
        let mut stats: ScanStats = combined;
        stats.complete = false;
        stats.cancelled = stats.cancelled || self.origin.cancelled;
        stats.elapsed_ms = elapsed_ms;
        let r: ScanBatch = ScanBatch { candidates: Vec::new(), stats };
        assert(r@.candidates =~= seq![]);
        r
    }

    /// The end of a refresh. `combined` are the counters of both scans together.
    pub fn conclude(self, target: &ScanStats, combined: ScanStats, elapsed_ms: u64) -> (r: Result<
        ScanBatch,
        String,
    >)
        ensures
            if self.invalid {
                failed(r, "The selected build output changed during its refresh"@)
            } else {
                r matches Ok(batch) && batch@ == closing(self@, target@, combined@, elapsed_ms)
            },
    {
        if self.invalid {
            return fail("The selected build output changed during its refresh");
        }
        let mut stats: ScanStats = combined;
        stats.complete = self.origin.complete && target.complete;
        stats.cancelled = stats.cancelled || self.origin.cancelled;
        stats.elapsed_ms = elapsed_ms;
        if self.origin.first_finding_ms.is_none() && target.first_finding_ms.is_some() {
            stats.first_finding_ms = Some(elapsed_ms);
        }
        if stats.complete {
            stats.message = "Lockfile and build output refresh complete.".to_owned();
        }
        let mut candidates: Vec<Candidate> = Vec::new();
        match self.candidate {
            Some(candidate) => {
                candidates.push(candidate);
                assert(sightings(candidates@) =~= seq![candidate@]);
            },
            None => {
                assert(sightings(candidates@) =~= seq![]);
            },
        }
        Ok(ScanBatch { candidates, stats })
    }
}

/// The last batch of a refresh. It is complete only if both scans were.
pub open spec fn closing(
    state: LockState,
    target: Counters,
    combined: Counters,
    elapsed_ms: u64,
) -> Bulletin {
    let complete = state.origin.complete && target.complete;
    Bulletin {
        candidates: match state.candidate {
            Some(candidate) => seq![candidate],
            None => seq![],
        },
        stats: Counters {
            complete,
            cancelled: combined.cancelled || state.origin.cancelled,
            elapsed_ms,
            first_finding_ms: if state.origin.first_finding_ms is None
                && target.first_finding_ms is Some {
                Some(elapsed_ms)
            } else {
                combined.first_finding_ms
            },
            message: if complete {
                "Lockfile and build output refresh complete."@
            } else {
                combined.message
            },
            ..combined
        },
    }
}

/// What a refresh shows of the build output is always the selected object, in the
/// selected place.
pub proof fn refreshes_show_the_selected_output(state: LockState, list: Seq<Sighting>)
    requires
        state.candidate is None,
    ensures
        receive_all(state, list).candidate matches Some(shown) ==> {
            &&& same_place(shown.path, state.target)
            &&& shown.root_id == state.root_id
            &&& state.expected == Some(shown.identity)
        },
        receive_all(state, list).target == state.target,
        receive_all(state, list).root_id == state.root_id,
        receive_all(state, list).expected == state.expected,
    decreases list.len(),
{
    if list.len() > 0 {
        refreshes_show_the_selected_output(state, list.drop_last());
    }
}

} // verus!
