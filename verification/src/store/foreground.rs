//! The saved result of the foreground scan, and the event cursor.
use crate::model::{ForegroundScan, Root, ScanStats};
use crate::paths::{path_bytes, share, FsPath};
use crate::store::grants::by_path;
use crate::store::recover::{prepared, replayed, work_failure};
use crate::store::tidy::{replay_keeps_tidy, same_roots_authorize};
use crate::store::{keys, Foreground, Journal, SavedSummary, Scope, ScopeKey, Store};
use crate::text::{byte_len, fail, failed, same_bytes, same_text};
use vstd::prelude::*;

verus! {

/// A terminal summary contains fixed counters and one human-readable message.
/// Both storage and decoding of this optional cache are bounded.
pub const MAX_FOREGROUND_SUMMARY_BYTES: usize = 64 * 1024;

/// Why a scan cannot be a saved summary, if it cannot.
pub open spec fn summary_failure(scan: ForegroundScan) -> Option<Seq<char>> {
    if scan.active {
        Some("An active foreground scan cannot be a saved summary"@)
    } else if scan.stats.complete && (scan.stats.cancelled || scan.stats.errors != 0) {
        Some("The foreground summary has inconsistent completion status"@)
    } else {
        None
    }
}

/// Checks that a scan can be a saved summary.
pub fn validate_foreground_summary(scan: &ForegroundScan) -> (r: Result<(), String>)
    ensures
        match summary_failure(*scan) {
            Some(reason) => failed(r, reason),
            None => r is Ok,
        },
{
    if scan.active {
        return fail("An active foreground scan cannot be a saved summary");
    }
    if scan.stats.complete && (scan.stats.cancelled || scan.stats.errors != 0) {
        return fail("The foreground summary has inconsistent completion status");
    }
    Ok(())
}

/// The summary that can be shown: one of a bounded size that could be decoded
/// and is consistent.
pub open spec fn shown_summary(foreground: Foreground) -> Option<ForegroundScan> {
    match foreground.summary {
        Some(saved) => match saved.scan {
            Some(scan) if saved.json@.len() <= MAX_FOREGROUND_SUMMARY_BYTES && summary_failure(
                scan,
            ) is None => Some(scan),
            _ => None,
        },
        None => None,
    }
}

/// Whether two scans say the same.
pub open spec fn same_scan(a: ForegroundScan, b: ForegroundScan) -> bool {
    &&& a.active == b.active
    &&& a.stats.message@ == b.stats.message@
    &&& a.stats == (ScanStats { message: a.stats.message, ..b.stats })
}

/// Whether the saved summary is already this scan with this text.
pub open spec fn same_summary(foreground: Foreground, scan: ForegroundScan, json: Seq<u8>) -> bool {
    foreground.summary matches Some(saved) && saved.json@.len() <= MAX_FOREGROUND_SUMMARY_BYTES
        && saved.json@ == json && (saved.scan matches Some(known) && same_scan(known, scan))
}

fn is_same_scan(a: &ForegroundScan, b: &ForegroundScan) -> (r: bool)
    ensures
        r == same_scan(*a, *b),
{
    let x: &ScanStats = &a.stats;
    let y: &ScanStats = &b.stats;
    let first: bool = match (x.first_finding_ms, y.first_finding_ms) {
        (Some(p), Some(q)) => p == q,
        (None, None) => true,
        _ => false,
    };
    a.active == b.active && x.entries == y.entries && x.files == y.files && x.directories
        == y.directories && x.skipped == y.skipped && x.metadata_skipped == y.metadata_skipped
        && x.errors == y.errors && x.excluded_artifacts == y.excluded_artifacts && x.candidates
        == y.candidates && x.logical_bytes == y.logical_bytes && x.allocated_bytes
        == y.allocated_bytes && x.elapsed_ms == y.elapsed_ms && first && x.complete == y.complete
        && x.cancelled == y.cancelled && same_text(x.message.as_str(), y.message.as_str())
}

/// Why a summary cannot be saved, if it cannot.
pub open spec fn save_failure(
    foreground: Foreground,
    expected_context: i64,
    scan: ForegroundScan,
    json: Seq<u8>,
) -> Option<Seq<char>> {
    match summary_failure(scan) {
        Some(reason) => Some(reason),
        None => if expected_context < 0 {
            Some("The foreground summary context is invalid"@)
        } else if vstd::utf8::encode_utf8(scan.stats.message@).len() > MAX_FOREGROUND_SUMMARY_BYTES
            || json.len() > MAX_FOREGROUND_SUMMARY_BYTES {
            Some("The foreground summary exceeds 64 KiB"@)
        } else if foreground.revision < 0 {
            Some("The foreground summary context is invalid"@)
        } else {
            None
        },
    }
}

impl Store {
    /// Grant and rule context for a foreground request. Callers also guard
    /// their in-process request generation before saving a terminal result.
    pub fn foreground_context(&self) -> (r: Result<i64, String>)
        ensures
            if self.foreground.revision < 0 {
                failed(r, "The foreground summary context is invalid"@)
            } else {
                r == Ok::<i64, String>(self.foreground.revision)
            },
    {
        if self.foreground.revision < 0 {
            return fail("The foreground summary context is invalid");
        }
        Ok(self.foreground.revision)
    }

    /// Optional presentation cache, never coverage or authorization evidence.
    /// Invalid cache content is ignored without changing the library.
    pub fn load_foreground_summary(&self) -> (r: Result<Option<ForegroundScan>, String>)
        ensures
            if self.foreground.revision < 0 {
                failed(r, "The foreground summary context is invalid"@)
            } else {
                r == Ok::<Option<ForegroundScan>, String>(shown_summary(self.foreground))
            },
    {
        if self.foreground.revision < 0 {
            return fail("The foreground summary context is invalid");
        }
        match &self.foreground.summary {
            Some(saved) => match &saved.scan {
                Some(scan) => {
                    if saved.json.len() <= MAX_FOREGROUND_SUMMARY_BYTES
                        && validate_foreground_summary(scan).is_ok() {
                        Ok(Some(scan.copy()))
                    } else {
                        Ok(None)
                    }
                },
                None => Ok(None),
            },
            None => Ok(None),
        }
    }

    /// A stale grant or rule context cannot overwrite the current summary. An
    /// identical repeat is accepted without another update or completion time.
    /// The caller supplies the stored text and the current time.
    pub fn save_foreground_summary(
        &mut self,
        expected_context: i64,
        scan: &ForegroundScan,
        json: Vec<u8>,
        now: i64,
    ) -> (r: Result<bool, String>)
        requires
            old(self).wf(),
        ensures
            final(self).wf(),
            match save_failure(old(self).foreground, expected_context, *scan, json@) {
                Some(reason) => failed(r, reason) && *final(self) == *old(self),
                None => {
                    &&& r == Ok::<bool, String>(old(self).foreground.revision == expected_context)
                    &&& *final(self) == if old(self).foreground.revision != expected_context
                        || same_summary(old(self).foreground, *scan, json@) {
                        *old(self)
                    } else {
                        (Store {
                            foreground: Foreground {
                                revision: old(self).foreground.revision,
                                summary: Some(SavedSummary { json, scan: Some(*scan) }),
                                completed_at: Some(now),
                            },
                            ..*old(self)
                        })
                    }
                },
            },
    {
        match validate_foreground_summary(scan) {
            Ok(_) => {},
            Err(reason) => {
                return Err(reason);
            },
        }
        if expected_context < 0 {
            return fail("The foreground summary context is invalid");
        }
        if byte_len(scan.stats.message.as_str()) > MAX_FOREGROUND_SUMMARY_BYTES || json.len()
            > MAX_FOREGROUND_SUMMARY_BYTES {
            return fail("The foreground summary exceeds 64 KiB");
        }
        if self.foreground.revision != expected_context {
            return Ok(false);
        }
        let unchanged: bool = match &self.foreground.summary {
            Some(saved) => saved.json.len() <= MAX_FOREGROUND_SUMMARY_BYTES && same_bytes(
                saved.json.as_slice(),
                json.as_slice(),
            ) && match &saved.scan {
                Some(known) => is_same_scan(known, scan),
                None => false,
            },
            None => false,
        };
        if !unchanged {
            self.foreground.summary = Some(SavedSummary { json, scan: Some(scan.copy()) });
            self.foreground.completed_at = Some(now);
        }
        Ok(true)
    }
}

/// What was accepted as a summary is what is shown afterwards, whether it was
/// written or had been there before.
pub proof fn saved_summary_is_shown(
    before: Foreground,
    after: Foreground,
    scan: ForegroundScan,
    json: Vec<u8>,
    now: i64,
)
    requires
        save_failure(before, before.revision, scan, json@) is None,
        after == if same_summary(before, scan, json@) {
            before
        } else {
            (Foreground {
                revision: before.revision,
                summary: Some(SavedSummary { json, scan: Some(scan) }),
                completed_at: Some(now),
            })
        },
    ensures
        shown_summary(after) matches Some(shown) && same_scan(shown, scan),
{
}

/// The whole roots as scopes.
pub open spec fn whole_roots(roots: Seq<Root>) -> Seq<ScopeKey> {
    roots.map_values(|r: Root| (r.id@, r.path@))
}

impl Store {
    /// Reconcile an event-history loss boundary atomically. Every root is
    /// queued again before the cursor advances, so a failure leaves the old
    /// cursor intact and the event source will retry.
    pub fn reconcile_events(&mut self, cursor: u64) -> (r: Result<(), String>)
        requires
            old(self).wf(),
        ensures
            final(self).wf(),
            old(self).tidy() ==> final(self).tidy(),
            exists|sorted: Seq<Root>| #[trigger]
                by_path(old(self).roots@, sorted) && match work_failure(
                    *old(self),
                    whole_roots(sorted),
                ) {
                    Some(reason) => failed(r, reason) && *final(self) == *old(self),
                    None => if old(self).journal.cursor is None {
                        failed(r, "The durable event cursor row is missing"@) && *final(self)
                            == *old(self)
                    } else {
                        &&& r is Ok
                        &&& keys(final(self).journal.pending@) == replayed(
                            *old(self),
                            keys(old(self).journal.pending@),
                            whole_roots(sorted),
                        )
                        &&& *final(self) == (Store {
                            journal: Journal {
                                pending: final(self).journal.pending,
                                cursor: Some(cursor),
                                ..old(self).journal
                            },
                            ..*old(self)
                        })
                    },
                },
    {
        let ghost start = *self;
        let existing: Vec<Root> = self.roots();
        let ghost work = whole_roots(existing@);
        let mut list: Vec<Scope> = Vec::new();
        let mut i: usize = 0;
        assert(work.take(0) =~= seq![]);
        while i < existing.len()
            invariant
                i <= existing.len(),
                by_path(start.roots@, existing@),
                work == whole_roots(existing@),
                self.wf(),
                *self == start,
                *self == *old(self),
                prepared(start, list@, work.take(i as int)),
                work_failure(start, work.take(i as int)) is None,
            decreases existing.len() - i,
        {
            let e: &Root = &existing[i];
            proof {
                assert(work.take(i + 1) =~= work.take(i as int).push((e.id@, e.path@)));
                assert(start.roots@.contains(existing@[i as int]));
                let w = choose|w: int|
                    0 <= w < start.roots@.len() && start.roots@[w] == existing@[i as int];
                assert(start.root_at(e.id@, w));
            }
            match self.prepare(&mut list, e.id.as_str(), &e.path, Ghost(work.take(i as int))) {
                Ok(_) => {},
                Err(reason) => {
                    proof {
                        crate::store::recover::failure_extends(
                            start,
                            work.take(i + 1),
                            work.skip(i + 1),
                        );
                        assert(work =~= work.take(i + 1) + work.skip(i + 1));
                    }
                    return Err(reason);
                },
            }
            i = i + 1;
        }
        assert(work.take(i as int) =~= work);
        if self.journal.cursor.is_none() {
            return fail("The durable event cursor row is missing");
        }
        let mut k: usize = 0;
        while k < list.len()
            invariant
                k <= list.len(),
                self.wf(),
                start.wf(),
                prepared(start, list@, work),
                *self == (Store {
                    journal: Journal { pending: self.journal.pending, ..start.journal },
                    ..start
                }),
                keys(self.journal.pending@) == replayed(
                    start,
                    keys(start.journal.pending@),
                    work.take(k as int),
                ),
            decreases list.len() - k,
        {
            let scope: &Scope = &list[k];
            proof {
                assert(work.take(k + 1).drop_last() =~= work.take(k as int));
                assert(work.take(k + 1).last() == work[k as int]);
                assert(list@[k as int].root_id@ == work[k as int].0);
            }
            match self.find_root(scope.root_id.as_str()) {
                Some(at) => {
                    let base: FsPath = share(&self.roots[at].path);
                    proof {
                        assert(start.root_at(scope.root_id@, at as int));
                        start.root_unique(scope.root_id@, at as int);
                    }
                    self.journal.enqueue_validated(
                        scope.root_id.as_str(),
                        path_bytes(&base),
                        &scope.path,
                    );
                },
                None => {
                    proof {
                        assert(start.has_root(scope.root_id@));
                        let c = choose|c: int| #[trigger] start.root_at(scope.root_id@, c);
                        assert(self.root_at(scope.root_id@, c));
                        assert(false);
                    }
                },
            }
            k = k + 1;
        }
        assert(work.take(k as int) =~= work);
        self.journal.cursor = Some(cursor);
        proof {
            if start.tidy() {
                replay_keeps_tidy(start, keys(start.journal.pending@), work);
                same_roots_authorize(start, *self);
            }
        }
        Ok(())
    }
}

} // verus!
