use chippytea::model::{
    Candidate, ForegroundScan, Identity, Receipt, Root, ScanBatch, ScanStats,
};
use chippytea::paths::{fs_path, FsPath};
use chippytea::policy::{KindRule, Policy, Rules};
use chippytea::store::claims::ScopeRefresh;
use chippytea::store::duplicates::DuplicateInputs;
use chippytea::store::foreground::MAX_FOREGROUND_SUMMARY_BYTES;
use chippytea::store::recover::DERIVED_USAGE_VERSION;
use chippytea::store::telemetry::{Checkpoint, FileSizes};
use chippytea::store::{
    err, DerivedLimits, Earning, Limited, SavedSummary, Scope, Store, Totals, Window,
    CANDIDATE_PAYLOAD_OVERHEAD, DEFAULT_MAX_CANDIDATE_JSON_BYTES,
};
use serde_json::Value;
use std::collections::{BTreeMap, BTreeSet};

const RULES: u32 = 5;

fn path(text: &str) -> FsPath {
    fs_path(text.as_bytes().to_vec())
}

fn text(path: &FsPath) -> String {
    String::from_utf8(path.to_vec()).unwrap()
}

fn new_store() -> Store {
    Store::empty(RULES, DerivedLimits::standard())
}

// What closing the tables and opening them again does.
fn reopen(store: Store) -> Store {
    Store::open(store, DERIVED_USAGE_VERSION, RULES).ok().unwrap()
}

fn minimum_bytes(kind: &str) -> u64 {
    match kind {
        "log" => 10_000_000,
        "crashreport" => 1_000_000,
        "archive" => 50_000_000,
        "largefile" => 500_000_000,
        _ => 100_000_000,
    }
}

fn policy() -> Policy {
    let kinds = [
        "webcache",
        "cargo",
        "venv",
        "node",
        "log",
        "crashreport",
        "cache",
        "xcode",
        "installer",
        "download",
        "archive",
        "largefile",
    ];
    let rules = kinds
        .iter()
        .enumerate()
        .map(|(place, kind)| KindRule {
            kind: (*kind).into(),
            rules: Rules {
                minimum_bytes: minimum_bytes(kind),
                quiet_days: 7,
                priority: place as u64,
                permanent: place < 4,
                checks_git: false,
                checks_activity: false,
                developer_measurement: place < 4,
            },
        })
        .collect();
    Policy {
        rules,
        rule_version: RULES,
    }
}

fn item(id: &str, location: &str, kind: &str, bytes: u64, eligible: bool) -> Candidate {
    Candidate {
        id: id.into(),
        root_id: "root".into(),
        path: path(location),
        title: id.into(),
        kind: kind.into(),
        logical_bytes: bytes,
        allocated_bytes: bytes,
        file_count: 1,
        modified_ns: 0,
        explanation: "Verified fixture".into(),
        consequence: "Rebuild".into(),
        eligible_permanent: kind != "download",
        blocked_reason: None,
        identity: Identity {
            device: 1,
            inode: 1,
            mode: 0,
            size: bytes,
            modified_ns: 0,
            changed_ns: 0,
        },
        fingerprint: "fixture".into(),
        evidence: "fixture".into(),
        suggestion_eligible: eligible,
        provisional: false,
    }
}

fn identity_value(identity: &Identity) -> Value {
    let mut object = serde_json::Map::new();
    object.insert("device".into(), Value::from(identity.device));
    object.insert("inode".into(), Value::from(identity.inode));
    object.insert("mode".into(), Value::from(identity.mode));
    object.insert("size".into(), Value::from(identity.size));
    object.insert("modified_ns".into(), Value::from(identity.modified_ns));
    object.insert("changed_ns".into(), Value::from(identity.changed_ns));
    Value::Object(object)
}

// The stored text of a finding, which tells any two of them apart.
fn json(c: &Candidate) -> Vec<u8> {
    let mut object = serde_json::Map::new();
    object.insert("id".into(), Value::from(c.id.as_str()));
    object.insert("root_id".into(), Value::from(c.root_id.as_str()));
    object.insert("path".into(), Value::from(text(&c.path)));
    object.insert("title".into(), Value::from(c.title.as_str()));
    object.insert("kind".into(), Value::from(c.kind.as_str()));
    object.insert("logical_bytes".into(), Value::from(c.logical_bytes));
    object.insert("allocated_bytes".into(), Value::from(c.allocated_bytes));
    object.insert("file_count".into(), Value::from(c.file_count));
    object.insert("modified_ns".into(), Value::from(c.modified_ns));
    object.insert("explanation".into(), Value::from(c.explanation.as_str()));
    object.insert("consequence".into(), Value::from(c.consequence.as_str()));
    object.insert("eligible_permanent".into(), Value::from(c.eligible_permanent));
    object.insert("suggestion_eligible".into(), Value::from(c.suggestion_eligible));
    object.insert("provisional".into(), Value::from(c.provisional));
    object.insert("blocked_reason".into(), Value::from(c.blocked_reason.clone()));
    object.insert("identity".into(), identity_value(&c.identity));
    object.insert("fingerprint".into(), Value::from(c.fingerprint.as_str()));
    object.insert("evidence".into(), Value::from(c.evidence.as_str()));
    serde_json::to_vec(&Value::Object(object)).unwrap()
}

fn texts(list: &[Candidate]) -> Vec<Vec<u8>> {
    list.iter().map(json).collect()
}

fn ids(list: &[Candidate]) -> Vec<String> {
    list.iter().map(|c| c.id.clone()).collect()
}

fn visible(store: &Store) -> Vec<Candidate> {
    store.candidates(&policy())
}

fn assert_stored(store: &Store, id: &str, expected: &Candidate) {
    assert_eq!(json(&store.candidate(id).unwrap()), json(expected), "{id}");
}

fn save(store: &mut Store, candidates: Vec<Candidate>) {
    let stored = texts(&candidates);
    store
        .save_batch(
            &ScanBatch {
                candidates,
                stats: ScanStats::new(),
            },
            &stored,
        )
        .unwrap();
}

fn copies(list: &[Candidate]) -> Vec<Candidate> {
    list.iter().map(Candidate::copy).collect()
}

fn root_at(id: &str, location: &str, kind: &str) -> Root {
    Root {
        id: id.into(),
        path: path(location),
        kind: kind.into(),
        identity: item(id, location, "cargo", 1, false).identity,
    }
}

fn discovery_root(store: &mut Store) {
    store.add_root(&root_at("root", "/root", "projects")).unwrap();
}

fn duplicate_bucket_counts(inputs: &DuplicateInputs) -> BTreeMap<(u64, u64), usize> {
    let mut counts = BTreeMap::new();
    for input in &inputs.files {
        let identity = &input.candidate.identity;
        *counts.entry((identity.device, identity.size)).or_insert(0) += 1;
    }
    counts
}

fn terminal_summary(entries: u64) -> ForegroundScan {
    let mut stats = ScanStats::new();
    stats.entries = entries;
    stats.complete = true;
    stats.elapsed_ms = 125;
    stats.first_finding_ms = Some(17);
    stats.message = "Disposable completed scan".into();
    ForegroundScan {
        active: false,
        stats,
    }
}

fn summary_json(scan: &ForegroundScan) -> Vec<u8> {
    let s = &scan.stats;
    let mut stats = serde_json::Map::new();
    stats.insert("entries".into(), Value::from(s.entries));
    stats.insert("files".into(), Value::from(s.files));
    stats.insert("directories".into(), Value::from(s.directories));
    stats.insert("skipped".into(), Value::from(s.skipped));
    stats.insert("metadata_skipped".into(), Value::from(s.metadata_skipped));
    stats.insert("errors".into(), Value::from(s.errors));
    stats.insert("excluded_artifacts".into(), Value::from(s.excluded_artifacts));
    stats.insert("candidates".into(), Value::from(s.candidates));
    stats.insert("logical_bytes".into(), Value::from(s.logical_bytes));
    stats.insert("allocated_bytes".into(), Value::from(s.allocated_bytes));
    stats.insert("elapsed_ms".into(), Value::from(s.elapsed_ms));
    stats.insert("first_finding_ms".into(), Value::from(s.first_finding_ms));
    stats.insert("complete".into(), Value::from(s.complete));
    stats.insert("cancelled".into(), Value::from(s.cancelled));
    stats.insert("message".into(), Value::from(s.message.as_str()));
    let mut object = serde_json::Map::new();
    object.insert("active".into(), Value::from(scan.active));
    object.insert("stats".into(), Value::Object(stats));
    serde_json::to_vec(&Value::Object(object)).unwrap()
}

fn save_summary(store: &mut Store, context: i64, scan: &ForegroundScan) -> Result<bool, String> {
    store.save_foreground_summary(context, scan, summary_json(scan), 1_700_000_000)
}

fn saved_summary(store: &Store) -> Option<Vec<u8>> {
    store
        .load_foreground_summary()
        .unwrap()
        .map(|scan| summary_json(&scan))
}

fn complete_stats(entries: u64) -> ScanStats {
    let mut stats = ScanStats::new();
    stats.entries = entries;
    stats.complete = true;
    stats
}

fn take(store: &mut Store) -> Option<(String, String)> {
    store
        .take_scope()
        .map(|scope| (scope.root_id, text(&scope.path)))
}

fn assert_taken(store: &mut Store, location: &str) {
    assert_eq!(take(store), Some(("root".to_owned(), location.to_owned())));
}

fn enqueue(store: &mut Store, location: &str) {
    store.enqueue_scope("root", &path(location)).unwrap();
}

fn finish(store: &mut Store, location: &str) {
    store.finish_scope("root", &path(location)).unwrap();
}

fn queued_paths(store: &Store) -> Vec<String> {
    let mut paths: Vec<String> = store.journal.pending.iter().map(|s| text(&s.path)).collect();
    paths.sort();
    paths
}

fn claim(store: &mut Store, location: &str) {
    enqueue(store, location);
    assert_taken(store, location);
}

fn begin(
    store: &mut Store,
    claimed: &str,
    scope: Option<&str>,
    generation: &str,
) -> Result<ScopeRefresh, String> {
    let root = store.root("root").unwrap();
    store.begin_scope_refresh(&root, &path(claimed), scope.map(path), generation)
}

// The output folder beside an eligible lock file.
fn begin_lock(store: &mut Store, origin: &str, generation: &str) -> Result<ScopeRefresh, String> {
    let root = store.root("root").unwrap();
    let target = origin
        .strip_suffix("Cargo.lock")
        .map(|parent| path(&format!("{parent}target")));
    store.begin_cargo_lock_refresh(&root, &path(origin), target, generation)
}

fn assert_no_rewards(store: &Store) {
    assert!(store.history().is_empty());
    assert_eq!(store.wallet().credited_bytes, 0);
}

fn reward(store: &mut Store) {
    store.ledger.totals = Totals {
        collected: 17,
        remainder: 42,
        credited: 1_700_000_042,
    };
}

fn assert_rewarded(store: &Store) {
    assert_eq!(store.wallet().collected_coins, 17);
    assert_eq!(store.wallet().fractional_bytes, 42);
}

#[test]
fn foreground_summary_roundtrips_complete_cancelled_and_failed_results() {
    for outcome in ["complete", "cancelled", "failed"] {
        let mut store = new_store();
        discovery_root(&mut store);
        let context = store.foreground_context().unwrap();
        let mut scan = terminal_summary(9_007_199_254_740_993);
        scan.stats.complete = outcome == "complete";
        scan.stats.cancelled = outcome == "cancelled";
        scan.stats.errors = u64::from(outcome == "failed");
        assert!(save_summary(&mut store, context, &scan).unwrap());
        let expected = summary_json(&scan);
        assert_eq!(saved_summary(&store), Some(expected.clone()));
        let store = reopen(store);
        assert_eq!(store.foreground_context().unwrap(), context);
        assert_eq!(saved_summary(&store), Some(expected));
        assert!(
            store.incomplete("root"),
            "A display summary cannot manufacture index coverage"
        );
        assert_no_rewards(&store);
    }
}

#[test]
fn foreground_summary_rejects_invalid_saves_and_ignores_invalid_cache_content() {
    let mut store = new_store();
    discovery_root(&mut store);
    reward(&mut store);
    let context = store.foreground_context().unwrap();
    let good = terminal_summary(3);
    assert!(save_summary(&mut store, context, &good).unwrap());
    let mut active = good.copy();
    active.active = true;
    let mut cancelled_complete = good.copy();
    cancelled_complete.stats.cancelled = true;
    let mut failed_complete = good.copy();
    failed_complete.stats.errors = 1;
    for (invalid, reason) in [
        (active, "An active foreground scan cannot be a saved summary"),
        (
            cancelled_complete,
            "The foreground summary has inconsistent completion status",
        ),
        (
            failed_complete,
            "The foreground summary has inconsistent completion status",
        ),
    ] {
        assert_eq!(save_summary(&mut store, context, &invalid), Err(reason.into()));
        assert_eq!(saved_summary(&store), Some(summary_json(&good)));
        store.foreground.summary = Some(SavedSummary {
            json: summary_json(&invalid),
            scan: Some(invalid.copy()),
        });
        assert!(store.load_foreground_summary().unwrap().is_none());
        assert!(save_summary(&mut store, context, &good).unwrap());
    }
    assert_eq!(
        save_summary(&mut store, -1, &good),
        Err("The foreground summary context is invalid".into())
    );
    for invalid in [
        "{",
        "null",
        "{}",
        r#"{"active":false,"stats":{"complete":true}}"#,
    ] {
        store.foreground.summary = Some(SavedSummary {
            json: invalid.as_bytes().to_vec(),
            scan: None,
        });
        assert!(store.load_foreground_summary().unwrap().is_none());
        assert_eq!(
            store.foreground.summary.as_ref().unwrap().json,
            invalid.as_bytes(),
            "Reading invalid presentation data must not mutate the library"
        );
    }
    assert!(save_summary(&mut store, context, &good).unwrap());
    for message in [
        "x".repeat(MAX_FOREGROUND_SUMMARY_BYTES),
        "\0".repeat(MAX_FOREGROUND_SUMMARY_BYTES / 2),
    ] {
        let mut oversized = good.copy();
        oversized.stats.message = message;
        assert_eq!(
            save_summary(&mut store, context, &oversized),
            Err("The foreground summary exceeds 64 KiB".into())
        );
        assert_eq!(saved_summary(&store), Some(summary_json(&good)));
        store.foreground.summary = Some(SavedSummary {
            json: summary_json(&oversized),
            scan: Some(oversized),
        });
        assert!(
            store.load_foreground_summary().unwrap().is_none(),
            "Oversized derived cache must not be decoded"
        );
        assert!(save_summary(&mut store, context, &good).unwrap());
    }
    // Text that could not be decoded has no scan.
    store.foreground.summary = Some(SavedSummary {
        json: vec![0xff],
        scan: None,
    });
    assert!(store.load_foreground_summary().unwrap().is_none());
    let mut store = reopen(store);
    assert!(store.load_foreground_summary().unwrap().is_none());
    assert!(store.root("root").is_ok());
    assert_rewarded(&store);
    assert!(
        save_summary(&mut store, context, &good).unwrap(),
        "Invalid UTF-8 in the old cache must not prevent a new terminal save"
    );
}

#[test]
fn foreground_summary_context_tracks_only_successful_grant_changes() {
    let mut store = new_store();
    discovery_root(&mut store);
    let root = store.root("root").unwrap();
    let context = store.foreground_context().unwrap();
    let scan = terminal_summary(8);
    assert!(save_summary(&mut store, context, &scan).unwrap());
    assert!(store.authorize_root(&root, false).is_err());
    assert_eq!(store.foreground_context().unwrap(), context);
    assert!(store.load_foreground_summary().unwrap().is_some());
    let mut duplicate_id = root.copy();
    duplicate_id.path = path("/unrelated");
    assert!(store.authorize_root(&duplicate_id, false).is_err());
    assert_eq!(store.foreground_context().unwrap(), context);
    assert!(store.load_foreground_summary().unwrap().is_some());
    let mut another = duplicate_id;
    another.id = "another".into();
    store.authorize_root(&another, false).unwrap();
    assert_eq!(store.foreground_context().unwrap(), context + 1);
    assert!(store.load_foreground_summary().unwrap().is_none());
    assert!(!save_summary(&mut store, context, &scan).unwrap());
    assert!(save_summary(&mut store, context + 1, &scan).unwrap());
    assert!(!store.remove_root("does-not-exist").unwrap());
    assert_eq!(store.foreground_context().unwrap(), context + 1);
    assert!(store.load_foreground_summary().unwrap().is_some());
    assert!(store.remove_root("another").unwrap());
    assert_eq!(store.foreground_context().unwrap(), context + 2);
    assert!(store.load_foreground_summary().unwrap().is_none());
    assert!(!save_summary(&mut store, context + 1, &scan).unwrap());
    assert!(store.root("root").is_ok());
}

#[test]
fn foreground_summary_invalidation_failure_rolls_back_grants_and_never_overflows() {
    let mut store = new_store();
    discovery_root(&mut store);
    let root = store.root("root").unwrap();
    let old = item("old", "/root/target", "cargo", 100_000_000, true);
    save(&mut store, vec![old.copy()]);
    let context = store.foreground_context().unwrap();
    let scan = terminal_summary(3);
    assert!(save_summary(&mut store, context, &scan).unwrap());
    let mut another = root.copy();
    another.id = "another".into();
    another.path = path("/unrelated");
    // The context has no successor, so nothing may be granted or removed.
    store.foreground.revision = i64::MAX;
    assert!(store.authorize_root(&another, false).is_err());
    assert!(store.root("another").is_err());
    assert!(store.remove_root("root").is_err());
    assert!(store.root("root").is_ok());
    assert_stored(&store, "old", &old);
    assert_eq!(store.foreground_context().unwrap(), i64::MAX);
    assert_eq!(saved_summary(&store), Some(summary_json(&scan)));
}

#[test]
fn foreground_summary_save_failure_and_background_refreshes_do_not_change_last_result() {
    let mut store = new_store();
    discovery_root(&mut store);
    let context = store.foreground_context().unwrap();
    let scan = terminal_summary(31);
    assert!(save_summary(&mut store, context, &scan).unwrap());
    assert!(
        store
            .save_foreground_summary(context, &scan, summary_json(&scan), 1_800_000_000)
            .unwrap(),
        "An identical terminal retry must not rewrite its summary"
    );
    assert_eq!(store.foreground.completed_at, Some(1_700_000_000));
    assert!(!save_summary(&mut store, context - 1, &scan).unwrap());
    for index in 0..3 {
        let location = format!("/root/changed-{index}");
        claim(&mut store, &location);
        let refresh = begin(&mut store, &location, Some(&location), &format!("g{index}")).unwrap();
        store
            .finish_scope_refresh(&refresh, &complete_stats(1), false)
            .unwrap();
    }
    assert_eq!(saved_summary(&store), Some(summary_json(&scan)));
    assert_eq!(store.foreground_context().unwrap(), context);
    assert_no_rewards(&store);
}

#[test]
fn a_thousand_pending_siblings_stay_scoped_and_coalesce_only_with_an_ancestor() {
    let mut store = new_store();
    discovery_root(&mut store);
    for index in 0..1000 {
        enqueue(&mut store, &format!("/root/project-{index}/target"));
    }
    assert_eq!(store.journal.pending.len(), 1000);
    assert!(store.incomplete("root"));
    assert_taken(&mut store, "/root/project-0/target");
    finish(&mut store, "/root/project-0/target");
    enqueue(&mut store, "/root");
    assert_taken(&mut store, "/root");
    assert!(!store.has_pending_scopes());
}

#[test]
fn pending_ancestors_preserve_literal_sibling_names_and_reject_escaping_paths() {
    let mut store = new_store();
    discovery_root(&mut store);
    for location in ["/root/a%_/one", "/root/a%_/two", "/root/a%_other/three"] {
        enqueue(&mut store, location);
    }
    enqueue(&mut store, "/root/a%_");
    enqueue(&mut store, "/root/a%_/another/deep/path");
    assert_eq!(store.journal.pending.len(), 2);
    assert_taken(&mut store, "/root/a%_other/three");
    for location in ["relative", "/root/../other", "/root-other"] {
        assert!(store.enqueue_scope("root", &path(location)).is_err());
    }
}

#[test]
fn scope_batches_match_sequential_coalescing_and_fifo() {
    let cases: [(&[&str], &[&str], &[&str]); 8] = [
        (&["/root/old"], &[], &["/root/old"]),
        (
            &["/root/old"],
            &["/root//one/./"],
            &["/root/old", "/root/one"],
        ),
        (
            &["/root/z"],
            &["/root//a/./", "/root/a", "/root/b", "/root/a/child"],
            &["/root/z", "/root/a", "/root/b"],
        ),
        (
            &["/root/a/old", "/root/z"],
            &[
                "/root/a/child",
                "/root/b",
                "/root/a",
                "/root/b/child",
                "/root/a/",
            ],
            &["/root/z", "/root/b", "/root/a"],
        ),
        (
            &["/root/a", "/root/z"],
            &["/root/a/child", "/root/b", "/root/a/other", "/root/a"],
            &["/root/a", "/root/z", "/root/b"],
        ),
        (
            &[],
            &[
                "/root/a",
                "/root/a-other",
                "/root/a/child",
                "/root/a%_",
                "/root/a%_/child",
                "/root/a%_other/child",
            ],
            &[
                "/root/a",
                "/root/a-other",
                "/root/a%_",
                "/root/a%_other/child",
            ],
        ),
        (
            &[],
            &[
                "/root/café/child",
                "/root/🪙/child",
                "/root/cafe\u{301}",
                "/root/café",
                "/root/🪙//./child/",
            ],
            &["/root/🪙/child", "/root/cafe\u{301}", "/root/café"],
        ),
        (
            &["/root/old"],
            &["/root/a", "/root/b", "/root", "/root/after"],
            &["/root"],
        ),
    ];
    for (index, (existing, batch, expected)) in cases.into_iter().enumerate() {
        let mut batched = new_store();
        let mut sequential = new_store();
        for store in [&mut batched, &mut sequential] {
            discovery_root(store);
            for location in existing {
                enqueue(store, location);
            }
        }
        let paths: Vec<FsPath> = batch.iter().map(|location| path(location)).collect();
        batched.enqueue_scopes("root", &paths).unwrap();
        for one in &paths {
            sequential.enqueue_scope("root", one).unwrap();
        }
        for location in expected {
            let batch_claim = take(&mut batched);
            assert_eq!(batch_claim, take(&mut sequential), "Case {index}");
            assert_eq!(
                batch_claim,
                Some(("root".to_owned(), (*location).to_owned())),
                "Case {index}"
            );
            for store in [&mut batched, &mut sequential] {
                finish(store, location);
            }
        }
        for store in [&mut batched, &mut sequential] {
            assert!(store.take_scope().is_none(), "Case {index}");
            assert!(!store.has_pending_scopes());
            assert_no_rewards(store);
        }
    }
}

#[test]
fn duplicate_scope_batches_preserve_active_claims_and_later_events() {
    let mut store = new_store();
    discovery_root(&mut store);
    claim(&mut store, "/root");
    let paths: Vec<FsPath> = (0..512)
        .map(|index| {
            path(if index % 2 == 0 {
                "/root/project/target"
            } else {
                "/root//project/./target/"
            })
        })
        .collect();
    store.enqueue_scopes("root", &paths).unwrap();
    enqueue(&mut store, "/root/later");
    assert!(store.take_scope().is_none());
    assert_eq!(
        queued_paths(&store),
        ["/root/later", "/root/project/target"]
    );
    finish(&mut store, "/root");
    assert_taken(&mut store, "/root/project/target");
    // A later event beneath an already-active artifact must remain pending.
    store.enqueue_scopes("root", &paths).unwrap();
    finish(&mut store, "/root/project/target");
    for location in ["/root/later", "/root/project/target"] {
        assert_taken(&mut store, location);
        finish(&mut store, location);
    }
    assert!(!store.has_pending_scopes());
}

#[test]
fn invalid_scope_batches_preserve_the_queue_and_do_not_hide_invalid_paths() {
    let mut store = new_store();
    discovery_root(&mut store);
    claim(&mut store, "/root/active");
    enqueue(&mut store, "/root/old");
    let before = queued_paths(&store);
    for invalid in [
        path("relative"),
        path("/root/../escape"),
        path("/root-other"),
        fs_path(b"/root/invalid-\xff".to_vec()),
    ] {
        let paths = [path("/root/new"), path("/root"), invalid];
        assert!(store.enqueue_scopes("root", &paths).is_err());
        assert_eq!(queued_paths(&store), before);
    }
    assert!(store
        .enqueue_scopes("root", &vec![path("/root"); 513])
        .is_err());
    assert!(store.enqueue_scopes("missing", &[path("/root")]).is_err());
    store.enqueue_scopes("missing", &[]).unwrap();
    assert_eq!(queued_paths(&store), before);
    assert!(store.take_scope().is_none());
    finish(&mut store, "/root/active");
    assert_taken(&mut store, "/root/old");
    assert_no_rewards(&store);
}

#[test]
fn events_during_an_active_full_scan_remain_child_scopes() {
    let mut store = new_store();
    discovery_root(&mut store);
    claim(&mut store, "/root");
    enqueue(&mut store, "/root/project/target");
    assert!(store.has_pending_scopes());
    assert!(store.take_scope().is_none());
    finish(&mut store, "/root");
    assert_taken(&mut store, "/root/project/target");
}

#[test]
fn resolving_a_scope_coalesces_older_events_but_preserves_active_and_new_work() {
    let mut store = new_store();
    discovery_root(&mut store);
    for location in ["/root/a/0", "/root/b/0", "/root/a/1"] {
        enqueue(&mut store, location);
    }
    assert_taken(&mut store, "/root/a/0");
    store
        .discard_pending_scope("root", &path("/root/a"))
        .unwrap();
    enqueue(&mut store, "/root/a/2");
    assert!(store.take_scope().is_none());
    finish(&mut store, "/root/a/0");
    assert_taken(&mut store, "/root/b/0");
    finish(&mut store, "/root/b/0");
    assert_taken(&mut store, "/root/a/2");
    assert!(!store.has_pending_scopes());
}

#[test]
fn cargo_lock_refresh_prunes_only_its_two_footprints_and_tombstones() {
    for already_incomplete in [false, true] {
        let mut store = new_store();
        discovery_root(&mut store);
        if !already_incomplete {
            store.journal.incomplete.clear();
        }
        let summary = terminal_summary(17);
        let context = store.foreground_context().unwrap();
        save_summary(&mut store, context, &summary).unwrap();
        let origin = "/root/a%_/Cargo.lock";
        let first = item("origin", origin, "download", 100_000_000, true);
        let candidates = [
            first.copy(),
            item(
                "origin-child",
                "/root/a%_/Cargo.lock/old/target",
                "cargo",
                1,
                false,
            ),
            item("target", "/root/a%_/target", "cargo", 100_000_000, true),
            item(
                "target-child",
                "/root/a%_/target/old/node_modules",
                "node",
                1,
                false,
            ),
            item(
                "unrelated",
                "/root/a%_/node_modules",
                "node",
                100_000_000,
                true,
            ),
            item(
                "prefix-sibling",
                "/root/a%_/target-other",
                "cargo",
                1,
                false,
            ),
            item("neighbor", "/root/a%_other/target", "cargo", 1, false),
        ];
        let suppressed = [
            item(
                "hidden-origin",
                "/root/a%_/Cargo.lock/new/target",
                "cargo",
                1,
                false,
            ),
            item(
                "hidden-target",
                "/root/a%_/target/new/node_modules",
                "node",
                1,
                false,
            ),
            item(
                "hidden-sibling",
                "/root/a%_/other/target",
                "cargo",
                1,
                false,
            ),
            item("hidden-parent", "/root/a%_", "cargo", 1, false),
        ];
        save(&mut store, copies(&candidates));
        save(&mut store, copies(&suppressed));
        for candidate in &suppressed {
            store.suppress_candidate(&candidate.id);
        }
        let shown = texts(&visible(&store));
        claim(&mut store, origin);
        let refresh = begin_lock(&mut store, origin, "g").unwrap();
        assert_eq!(refresh.scope.as_ref().map(text).as_deref(), Some(origin));
        assert_eq!(texts(&visible(&store)), shown);
        let mut updated = first;
        updated.fingerprint = "new lock evidence".into();
        save(&mut store, vec![updated.copy()]);
        save(&mut store, copies(&suppressed));
        store
            .finish_scope_refresh(&refresh, &complete_stats(0), false)
            .unwrap();
        assert_stored(&store, "origin", &updated);
        for id in ["origin-child", "target", "target-child"] {
            assert!(
                store.candidate(id).is_err(),
                "{id} was not observed in either footprint"
            );
        }
        for candidate in &candidates[4..] {
            assert_stored(&store, &candidate.id, candidate);
        }
        for candidate in &suppressed[..2] {
            assert_stored(&store, &candidate.id, candidate);
        }
        for candidate in &suppressed[2..] {
            assert!(
                store.candidate(&candidate.id).is_err(),
                "Unrelated cleanup suppression must survive"
            );
        }
        assert_eq!(store.incomplete("root"), already_incomplete);
        assert_eq!(saved_summary(&store), Some(summary_json(&summary)));
        assert!(!store.has_pending_scopes());
        assert_no_rewards(&store);
    }
}

#[test]
fn cargo_lock_refresh_replays_the_origin_and_preserves_late_scope_order() {
    for interruption in ["claimed", "begun", "cancelled"] {
        let origin = "/root/project/Cargo.lock";
        let target = item("target", "/root/project/target", "cargo", 100_000_000, true);
        let mut store = new_store();
        discovery_root(&mut store);
        save(&mut store, vec![target.copy()]);
        claim(&mut store, origin);
        let refresh = if interruption == "claimed" {
            None
        } else {
            Some(begin_lock(&mut store, origin, "first").unwrap())
        };
        for location in ["/root/other", origin, "/root/project/target/late"] {
            enqueue(&mut store, location);
        }
        if interruption == "cancelled" {
            let mut stats = ScanStats::new();
            stats.cancelled = true;
            store
                .finish_scope_refresh(refresh.as_ref().unwrap(), &stats, true)
                .unwrap();
        }
        assert_stored(&store, "target", &target);
        let mut store = reopen(store);
        assert_eq!(
            queued_paths(&store),
            [
                "/root/other",
                "/root/project/Cargo.lock",
                "/root/project/target/late"
            ]
        );
        assert!(store.incomplete("root"));
        for location in ["/root/other", origin] {
            assert_taken(&mut store, location);
            if location != origin {
                finish(&mut store, location);
            }
        }
        let refresh = begin_lock(&mut store, origin, "second").unwrap();
        assert!(
            !store.has_pending_scopes(),
            "Only the older target event is coalesced"
        );
        for location in ["/root/project/target/new", origin, "/root/after"] {
            enqueue(&mut store, location);
        }
        save(&mut store, vec![target.copy()]);
        store
            .finish_scope_refresh(&refresh, &complete_stats(0), false)
            .unwrap();
        assert_stored(&store, "target", &target);
        assert!(
            store.incomplete("root"),
            "A recovered partial root stays incomplete"
        );
        for location in ["/root/project/target/new", origin, "/root/after"] {
            assert_taken(&mut store, location);
            finish(&mut store, location);
        }
        assert!(!store.has_pending_scopes());
        assert_no_rewards(&store);
    }
}

#[test]
fn cargo_lock_refresh_failures_are_atomic_and_partial_results_do_not_prune() {
    let mut store = new_store();
    discovery_root(&mut store);
    store.journal.incomplete.clear();
    let origin = "/root/project/Cargo.lock";
    let candidates = [
        item("origin", origin, "download", 100_000_000, true),
        item("target", "/root/project/target", "cargo", 100_000_000, true),
    ];
    save(&mut store, copies(&candidates));
    store.save_stats("root", &complete_stats(17));
    let cached = texts(&visible(&store));
    claim(&mut store, origin);
    enqueue(&mut store, "/root/project/target/older");
    enqueue(&mut store, "/root/other");
    let pending = queued_paths(&store);
    // A lock that is not eligible has no output folder beside it.
    let root = store.root("root").unwrap();
    assert!(store
        .begin_cargo_lock_refresh(&root, &path(origin), None, "none")
        .is_err());
    assert_eq!(queued_paths(&store), pending);
    assert!(!store.incomplete("root"));
    assert!(store.take_scope().is_none());
    assert_eq!(texts(&visible(&store)), cached);
    let stale = begin_lock(&mut store, origin, "stale").unwrap();
    let current = begin_lock(&mut store, origin, "current").unwrap();
    for location in [origin, "/root/project/target/late"] {
        enqueue(&mut store, location);
    }
    let pending = queued_paths(&store);
    assert!(store
        .finish_scope_refresh(&stale, &complete_stats(23), false)
        .is_err());
    assert_eq!(texts(&visible(&store)), cached);
    for candidate in &candidates {
        assert_stored(&store, &candidate.id, candidate);
    }
    assert_eq!(queued_paths(&store), pending);
    assert_eq!(store.latest_stats().entries, 17);
    assert!(store.incomplete("root"));
    assert!(store.take_scope().is_none());
    let mut partial = ScanStats::new();
    partial.entries = 23;
    partial.errors = 1;
    store
        .finish_scope_refresh(&current, &partial, false)
        .unwrap();
    assert_eq!(texts(&visible(&store)), cached);
    assert_eq!(queued_paths(&store), pending);
    assert!(store.incomplete("root"));
    assert_eq!(store.latest_stats().errors, 1);
    assert!(store.take_scope().is_some());
}

#[test]
fn cargo_lock_refresh_requires_its_exact_claim_and_preserves_parent_subsumption() {
    let mut store = new_store();
    discovery_root(&mut store);
    let root = store.root("root").unwrap();
    for location in [
        "/root",
        "/root/project/Cargo.toml",
        "/root/project/cargo.lock",
        "/root/target/project/Cargo.lock",
        "/root/node_modules/Cargo.lock",
        "/root/Library/project/Cargo.lock",
        "/root/../other/Cargo.lock",
        "/elsewhere/Cargo.lock",
        "relative/Cargo.lock",
    ] {
        assert!(
            store
                .begin_cargo_lock_refresh(&root, &path(location), None, "none")
                .is_err(),
            "{location}"
        );
    }
    for location in [
        "/root/../other/Cargo.lock",
        "/elsewhere/Cargo.lock",
        "relative/Cargo.lock",
    ] {
        assert!(begin_lock(&mut store, location, "none").is_err(), "{location}");
    }
    let origin = "/root/project/Cargo.lock";
    assert!(
        begin_lock(&mut store, origin, "none").is_err(),
        "A durable claim is required"
    );
    claim(&mut store, origin);
    save(
        &mut store,
        vec![
            item("origin", origin, "download", 100_000_000, true),
            item("enclosing", "/root/project", "cargo", 1, false),
        ],
    );
    assert!(begin_lock(&mut store, origin, "none").is_err());
    store.discard_candidate("enclosing");
    let refresh = begin_lock(&mut store, origin, "g").unwrap();
    store
        .finish_scope_refresh(&refresh, &ScanStats::new(), false)
        .unwrap();

    for parent in ["/root/project", "/root"] {
        let mut store = new_store();
        discovery_root(&mut store);
        enqueue(&mut store, origin);
        enqueue(&mut store, "/root/other");
        enqueue(&mut store, parent);
        enqueue(&mut store, origin);
        if parent != "/root" {
            assert_taken(&mut store, "/root/other");
            finish(&mut store, "/root/other");
        }
        assert_taken(&mut store, parent);
        assert!(begin_lock(&mut store, origin, "none").is_err());
        assert!(!store.has_pending_scopes());
        finish(&mut store, parent);
    }
}

#[test]
fn compound_start_rolls_back_and_interrupted_generation_recovers_exact_scopes() {
    let requested = "/root/a/first";
    let resolved = "/root/a";
    let old = item("old", "/root/a/target", "cargo", 100_000_000, true);
    let hidden = item("hidden", "/root/a/node_modules", "node", 100_000_000, true);
    let mut store = new_store();
    discovery_root(&mut store);
    store.journal.incomplete.clear();
    save(&mut store, vec![old.copy(), hidden.copy()]);
    store.suppress_candidate("hidden");
    claim(&mut store, requested);
    enqueue(&mut store, "/root/a/second");
    enqueue(&mut store, "/root/b");
    assert!(begin(&mut store, requested, Some("/root/b"), "none").is_err());
    assert!(
        !store.incomplete("root"),
        "A failed start must not partially change coverage"
    );
    assert_eq!(queued_paths(&store), ["/root/a/second", "/root/b"]);
    assert!(
        store.take_scope().is_none(),
        "The original claim must remain active"
    );
    assert_stored(&store, "old", &old);
    save(&mut store, vec![hidden.copy()]);
    assert!(
        store.candidate("hidden").is_err(),
        "A failed start must retain cleanup suppression"
    );
    let _refresh = begin(&mut store, requested, Some(resolved), "g").unwrap();
    assert!(store.incomplete("root"));
    assert_eq!(queued_paths(&store), ["/root/b"]);
    save(&mut store, vec![hidden.copy()]);
    assert_stored(&store, "hidden", &hidden);
    enqueue(&mut store, "/root/a/late");
    // Without finalization, as after an interrupted traversal.
    let mut recovered = reopen(store);
    assert_eq!(queued_paths(&recovered), ["/root/a", "/root/b"]);
    assert!(recovered.incomplete("root"));
    assert_stored(&recovered, "old", &old);
    assert!(recovered.take_scope().is_some());
    assert_no_rewards(&recovered);
}

#[test]
fn compound_finalize_failure_preserves_rows_stats_cache_and_recoverable_claim() {
    let old = item("old", "/root/a/target", "cargo", 100_000_000, true);
    let mut store = new_store();
    discovery_root(&mut store);
    store.journal.incomplete.clear();
    save(&mut store, vec![old.copy()]);
    store.save_stats("root", &complete_stats(17));
    let cached = texts(&visible(&store));
    claim(&mut store, "/root");
    let mut refresh = begin(&mut store, "/root", None, "first").unwrap();
    enqueue(&mut store, "/root/late");
    let complete = complete_stats(23);
    // A generation that is not under way.
    refresh.generation = "lost".into();
    assert!(store
        .finish_scope_refresh(&refresh, &complete, false)
        .is_err());
    assert_stored(&store, "old", &old);
    assert_eq!(texts(&visible(&store)), cached);
    assert_eq!(store.latest_stats().entries, 17);
    assert!(store.incomplete("root"));
    assert_eq!(queued_paths(&store), ["/root/late"]);
    assert!(store.take_scope().is_none());
    // Opening the tables again recovers the full scope; neither pruning nor
    // acknowledgement escaped.
    let mut store = reopen(store);
    assert_eq!(queued_paths(&store), ["/root"]);
    assert_stored(&store, "old", &old);
    assert_eq!(store.latest_stats().entries, 17);
    assert_taken(&mut store, "/root");
    let refresh = begin(&mut store, "/root", None, "second").unwrap();
    enqueue(&mut store, "/root/after-restart");
    assert_eq!(texts(&visible(&store)), cached);
    store
        .finish_scope_refresh(&refresh, &complete, false)
        .unwrap();
    assert!(
        visible(&store).is_empty(),
        "Committed pruning must show in the visible findings"
    );
    assert_eq!(store.latest_stats().entries, 23);
    assert!(!store.incomplete("root"));
    assert_eq!(queued_paths(&store), ["/root/after-restart"]);
    assert!(
        store
            .finish_scope_refresh(&refresh, &complete, false)
            .is_err(),
        "A completed generation cannot acknowledge new work twice"
    );
}

#[test]
fn compound_partial_and_cancelled_results_preserve_findings_and_late_events() {
    for cancelled in [false, true] {
        let mut store = new_store();
        discovery_root(&mut store);
        store.journal.incomplete.clear();
        let old = item("old", "/root/a/target", "cargo", 100_000_000, true);
        save(&mut store, vec![old.copy()]);
        let requested = "/root/a/first";
        claim(&mut store, requested);
        let refresh = begin(&mut store, requested, Some("/root/a"), "g").unwrap();
        enqueue(&mut store, "/root/a/late");
        let mut stats = ScanStats::new();
        stats.entries = 11;
        stats.cancelled = cancelled;
        stats.errors = u64::from(!cancelled);
        store
            .finish_scope_refresh(&refresh, &stats, cancelled)
            .unwrap();
        assert_stored(&store, "old", &old);
        assert!(store.incomplete("root"));
        let saved = store.latest_stats();
        assert_eq!(saved.entries, 11);
        assert_eq!(saved.cancelled, cancelled);
        assert_eq!(saved.errors, u64::from(!cancelled));
        assert!(!saved.complete);
        let expected = if cancelled {
            vec!["/root/a/first", "/root/a/late"]
        } else {
            vec!["/root/a/late"]
        };
        assert_eq!(queued_paths(&store), expected);
        assert!(
            store.take_scope().is_some(),
            "Finalization must release the active claim"
        );
    }
}

#[test]
fn compound_success_preserves_prior_partial_coverage() {
    for already_incomplete in [false, true] {
        let mut store = new_store();
        discovery_root(&mut store);
        if !already_incomplete {
            store.journal.incomplete.clear();
        }
        let old = item("old", "/root/a/target", "cargo", 100_000_000, true);
        save(&mut store, vec![old]);
        claim(&mut store, "/root/a");
        let refresh = begin(&mut store, "/root/a", Some("/root/a"), "g").unwrap();
        store
            .finish_scope_refresh(&refresh, &complete_stats(0), false)
            .unwrap();
        assert_eq!(store.incomplete("root"), already_incomplete);
        assert!(visible(&store).is_empty());
    }
}

#[test]
fn compound_finalize_rejects_a_superseded_same_scope_generation() {
    let mut store = new_store();
    discovery_root(&mut store);
    let old = item("old", "/root/a/target", "cargo", 100_000_000, true);
    save(&mut store, vec![old.copy()]);
    claim(&mut store, "/root/a");
    let stale = begin(&mut store, "/root/a", Some("/root/a"), "stale").unwrap();
    let current = begin(&mut store, "/root/a", Some("/root/a"), "current").unwrap();
    enqueue(&mut store, "/root/a/late");
    assert!(store
        .finish_scope_refresh(&stale, &complete_stats(0), false)
        .is_err());
    assert!(store.take_scope().is_none());
    assert_stored(&store, "old", &old);
    assert!(store.incomplete("root"));
    assert_eq!(queued_paths(&store), ["/root/a/late"]);
    // The current generation remains usable; acknowledging its partial
    // result retains the old finding and leaves the late event pending.
    store
        .finish_scope_refresh(&current, &ScanStats::new(), false)
        .unwrap();
    assert_stored(&store, "old", &old);
    assert_taken(&mut store, "/root/a/late");
}

#[test]
fn cancellation_before_refresh_atomically_requeues_and_marks_incomplete() {
    let mut store = new_store();
    discovery_root(&mut store);
    store.journal.incomplete.clear();
    claim(&mut store, "/root");
    enqueue(&mut store, "/root/late");
    assert!(store
        .cancel_claimed_scope("root", &path("/root/late"))
        .is_err());
    assert!(!store.incomplete("root"));
    assert_eq!(queued_paths(&store), ["/root/late"]);
    assert!(store.take_scope().is_none());
    store.cancel_claimed_scope("root", &path("/root")).unwrap();
    assert!(store.incomplete("root"));
    assert_eq!(queued_paths(&store), ["/root"]);
    assert!(store.cancel_claimed_scope("root", &path("/root")).is_err());
    assert_taken(&mut store, "/root");
}

#[test]
fn interrupted_active_scope_and_refresh_recover_without_losing_old_findings() {
    let location = "/root/project";
    let old = item("old", "/root/project/target", "cargo", 100_000_000, true);
    let mut store = new_store();
    discovery_root(&mut store);
    save(&mut store, vec![old.copy()]);
    enqueue(&mut store, location);
    assert!(store.take_scope().is_some());
    store
        .begin_refresh("root", Some(path(location)), "first")
        .unwrap();
    enqueue(&mut store, "/root/project/new-child");
    let mut store = reopen(store);
    assert_stored(&store, "old", &old);
    assert!(store.incomplete("root"));
    assert_taken(&mut store, location);
    assert!(!store.has_pending_scopes());
    store
        .begin_refresh("root", Some(path(location)), "second")
        .unwrap();
    store
        .finish_refresh("root", Some(path(location)), true)
        .unwrap();
    finish(&mut store, location);
    assert!(store.candidate("old").is_err());
    assert!(!reopen(store).has_pending_scopes());
}

#[test]
fn provisional_and_partial_refreshes_keep_completed_findings_visible() {
    let mut store = new_store();
    let scope = || Some(path("/root/project"));
    let old = item("old", "/root/project/target", "cargo", 100_000_000, true);
    let missing = item(
        "missing",
        "/root/project/node_modules",
        "node",
        200_000_000,
        true,
    );
    save(&mut store, vec![old.copy(), missing]);
    let shown = texts(&visible(&store));
    store.begin_refresh("root", scope(), "first").unwrap();
    assert_eq!(texts(&visible(&store)), shown);
    let mut provisional = old.copy();
    provisional.provisional = true;
    provisional.allocated_bytes = 0;
    provisional.suggestion_eligible = false;
    provisional.fingerprint.clear();
    save(&mut store, vec![provisional]);
    assert_stored(&store, "old", &old);
    assert_eq!(texts(&visible(&store)), shown);
    store.finish_refresh("root", scope(), false).unwrap();
    assert!(store.candidate("missing").is_ok());
    store.begin_refresh("root", scope(), "second").unwrap();
    let mut updated = old;
    updated.allocated_bytes = 300_000_000;
    save(&mut store, vec![updated.copy()]);
    store.finish_refresh("root", scope(), true).unwrap();
    assert_stored(&store, "old", &updated);
    assert!(store.candidate("missing").is_err());
}

#[test]
fn scoped_refresh_only_removes_unseen_rows_in_the_exact_scope() {
    let mut store = new_store();
    save(
        &mut store,
        vec![
            item("a", "/root/a%_/target", "cargo", 100_000_000, true),
            item("b", "/root/abc/target", "cargo", 100_000_000, true),
            item("c", "/root/a%_other/target", "cargo", 100_000_000, true),
        ],
    );
    let scope = || Some(path("/root/a%_/target/descendant"));
    store.begin_refresh("root", scope(), "first").unwrap();
    assert!(store.finish_refresh("root", None, true).is_err());
    store.finish_refresh("root", scope(), true).unwrap();
    assert!(store.candidate("a").is_err());
    assert!(store.candidate("b").is_ok());
    assert!(store.candidate("c").is_ok());
    store.begin_refresh("root", None, "second").unwrap();
    store.finish_refresh("root", None, true).unwrap();
    assert!(visible(&store).is_empty());
}

#[test]
fn cleanup_tombstones_reject_late_batches_until_that_scope_is_refreshed() {
    let candidate = item("old", "/root/project/target", "cargo", 100_000_000, true);
    let mut store = new_store();
    discovery_root(&mut store);
    save(&mut store, vec![candidate.copy()]);
    store.begin_refresh("root", None, "first").unwrap();
    store.suppress_candidate("old");
    save(&mut store, vec![candidate.copy()]);
    assert!(store.candidate("old").is_err());
    store.finish_refresh("root", None, false).unwrap();
    let mut store = reopen(store);
    let other = || Some(path("/root/project-other"));
    store.begin_refresh("root", other(), "second").unwrap();
    save(&mut store, vec![candidate.copy()]);
    assert!(store.candidate("old").is_err());
    store.finish_refresh("root", other(), true).unwrap();
    let scope = || Some(path("/root/project"));
    store.begin_refresh("root", scope(), "third").unwrap();
    save(&mut store, vec![candidate.copy()]);
    store.finish_refresh("root", scope(), true).unwrap();
    assert_stored(&store, "old", &candidate);
}

#[test]
fn suppressing_an_already_missing_id_still_blocks_its_late_batch() {
    let mut store = new_store();
    let candidate = item("old", "/root/project/target", "cargo", 100_000_000, true);
    store.suppress_candidate("old");
    save(&mut store, vec![candidate.copy()]);
    assert!(store.candidate("old").is_err());
    store
        .begin_refresh("root", Some(path("/root/project")), "g")
        .unwrap();
    save(&mut store, vec![candidate]);
    assert!(store.candidate("old").is_ok());
}

#[test]
fn removing_a_root_removes_its_durable_discovery_state() {
    let mut store = new_store();
    discovery_root(&mut store);
    save(
        &mut store,
        vec![item("old", "/root/a/target", "cargo", 100_000_000, true)],
    );
    enqueue(&mut store, "/root/a");
    assert!(store.take_scope().is_some());
    enqueue(&mut store, "/root/b");
    store.begin_refresh("root", None, "g").unwrap();
    store.suppress_candidate("old");
    store.remove_root("root").unwrap();
    assert_eq!(store.journal.pending.len(), 0);
    assert_eq!(store.journal.active.len(), 0);
    assert_eq!(store.journal.refreshes.len(), 0);
    assert_eq!(store.journal.seen.len(), 0);
    assert_eq!(store.index.tombstones.len(), 0);
    assert!(!reopen(store).has_pending_scopes());
}

#[test]
fn ranking_only_returns_verified_meaningful_suggestions_and_respects_keep() {
    let mut store = new_store();
    let mut blocked = item("blocked", "/root/blocked", "cargo", 900_000_000, true);
    blocked.blocked_reason = Some("Active project".into());
    save(
        &mut store,
        vec![
            item(
                "personal",
                "/root/Downloads/big.dmg",
                "download",
                9_000_000_000,
                true,
            ),
            item("node", "/root/node/node_modules", "node", 200_000_000, true),
            item("cargo", "/root/cargo/target", "cargo", 100_000_000, true),
            item("tiny", "/root/tiny/target", "cargo", 999, true),
            item("fresh", "/root/fresh/target", "cargo", 300_000_000, false),
            item("venv", "/root/python/.venv", "venv", 800_000_000, true),
            item(
                "webcache",
                "/root/site/.next",
                "webcache",
                700_000_000,
                true,
            ),
            blocked,
        ],
    );
    // Prefer cheap regenerated caches, then rebuild output, then artifacts
    // likely to need network downloads. Size orders within each cost class.
    assert_eq!(
        ids(&visible(&store)),
        ["webcache", "cargo", "venv", "node", "personal"]
    );
    store.keep("/root/cargo", true);
    assert_eq!(visible(&store).len(), 4);
    store.keep("/root/cargo", false);
    assert_eq!(visible(&store)[0].id, "webcache");
    let mut changed = store.candidate("cargo").unwrap();
    changed.suggestion_eligible = false;
    save(&mut store, vec![changed]);
    assert_eq!(visible(&store).len(), 4);
}

#[test]
fn category_thresholds_and_priority_are_applied_by_the_indexed_query() {
    let mut store = new_store();
    let kinds = [
        "cache",
        "log",
        "crashreport",
        "xcode",
        "installer",
        "archive",
        "download",
        "largefile",
    ];
    let mut rows = Vec::new();
    for kind in kinds {
        let minimum = minimum_bytes(kind);
        rows.push(item(kind, &format!("/root/{kind}"), kind, minimum, true));
        rows.push(item(
            &format!("small-{kind}"),
            &format!("/root/small-{kind}"),
            kind,
            minimum - 1,
            true,
        ));
    }
    rows.push(item(
        "unknown",
        "/root/unknown",
        "unrecognized",
        u64::MAX,
        true,
    ));
    save(&mut store, rows);
    assert_eq!(
        visible(&store)
            .iter()
            .map(|row| row.kind.as_str())
            .collect::<Vec<&str>>(),
        [
            "log",
            "crashreport",
            "cache",
            "xcode",
            "installer",
            "download",
            "archive",
            "largefile"
        ]
    );
    // The 1 MB report and 10 MB log survive the query's size filter, while
    // a 500 MB personal file cannot displace first-group cleanup artifacts.
    assert_eq!(
        store.candidate("crashreport").unwrap().allocated_bytes,
        1_000_000
    );
}

#[test]
fn duplicate_inputs_admit_whole_buckets_without_exceeding_500_files() {
    let mut store = new_store();
    discovery_root(&mut store);
    let mut rows = Vec::new();
    // These are indexed sizes only; no corresponding large files are made.
    // Aggregate allocated size orders the buckets exactly as listed.
    for (prefix, bytes, count) in [
        ("oversized", 1_000_000_000, 501),
        ("large-fit", 900_000_000, 498),
        ("cannot-fit-remainder", 800_000_000, 3),
        ("small-fit", 700_000_000, 2),
        ("after-full", 600_000_000, 2),
    ] {
        for index in 0..count {
            let id = format!("{prefix}-{index:03}");
            rows.push(item(&id, &format!("/root/{id}"), "download", bytes, true));
        }
    }
    save(&mut store, rows);
    let inputs = store.duplicate_inputs(&policy(), false).unwrap();
    assert_eq!(inputs.files.len(), 500);
    assert_eq!(inputs.indexed_files, 1006);
    assert_eq!(
        duplicate_bucket_counts(&inputs),
        BTreeMap::from([((1, 900_000_000), 498), ((1, 700_000_000), 2)]),
        "Oversized buckets must be skipped whole, leaving room for later complete buckets"
    );
    assert_eq!(inputs.skipped_buckets, 3);
    assert_eq!(inputs.skipped_bucket_files, 506);
    assert!(!inputs.bucket_limit_reached);
}

#[test]
fn duplicate_inputs_keep_protected_rows_as_keeper_only() {
    let mut store = new_store();
    discovery_root(&mut store);
    save(
        &mut store,
        vec![
            item(
                "protected",
                "/root/café%_/clip.mov",
                "download",
                600_000_000,
                true,
            ),
            item(
                "copy",
                "/root/other/copy.mov",
                "download",
                600_000_000,
                true,
            ),
        ],
    );
    for (kept, overlaps) in [
        ("/root/café%_", true),
        ("/root/café%_/clip.mov", true),
        ("/root/café%_/clip.mov/previously-kept-child", true),
        ("/root/café%_/clip.mov-other", false),
        ("/root/caféXX/clip.mov", false),
    ] {
        store.keep(kept, true);
        assert_eq!(visible(&store).len(), if overlaps { 1 } else { 2 });
        let inputs = store.duplicate_inputs(&policy(), false).unwrap();
        assert_eq!(inputs.indexed_files, 2);
        assert_eq!(
            inputs
                .files
                .iter()
                .map(|input| (input.candidate.id.as_str(), input.keeper_only))
                .collect::<BTreeMap<&str, bool>>(),
            BTreeMap::from([("copy", false), ("protected", overlaps)]),
            "{kept}"
        );
        store.keep(kept, false);
    }
    store.keep("/root", true);
    assert!(visible(&store).is_empty());
    let inputs = store.duplicate_inputs(&policy(), false).unwrap();
    assert_eq!(inputs.files.len(), 2);
    assert!(inputs.files.iter().all(|input| input.keeper_only));
    assert_eq!(store.kept(), [b"/root".to_vec()]);
}

#[test]
fn duplicate_inputs_are_independent_of_visible_limit_and_category_ranks() {
    let mut store = new_store();
    discovery_root(&mut store);
    let mut personal = Vec::new();
    // Each same-size pair crosses ordinary presentation categories.
    for (kind, bytes) in [
        ("installer", 500_000_000),
        ("archive", 500_000_000),
        ("download", 600_000_000),
        ("largefile", 600_000_000),
    ] {
        let mut candidate = item(kind, &format!("/root/{kind}"), kind, bytes, true);
        candidate.eligible_permanent = false;
        personal.push(candidate);
    }
    save(&mut store, personal);
    assert_eq!(visible(&store).len(), 4);
    save(
        &mut store,
        (0..500)
            .map(|index| {
                let id = format!("cargo-{index:03}");
                item(
                    &id,
                    &format!("/root/{id}/target"),
                    "cargo",
                    100_000_000,
                    true,
                )
            })
            .collect(),
    );
    let shown = visible(&store);
    assert_eq!(shown.len(), 500);
    assert!(shown.iter().all(|candidate| candidate.kind == "cargo"));
    let inputs = store.duplicate_inputs(&policy(), false).unwrap();
    assert_eq!(inputs.indexed_files, 4);
    assert_eq!(
        inputs
            .files
            .iter()
            .map(|input| input.candidate.id.as_str())
            .collect::<BTreeSet<&str>>(),
        BTreeSet::from(["installer", "archive", "download", "largefile"])
    );
    assert_eq!(
        duplicate_bucket_counts(&inputs),
        BTreeMap::from([((1, 500_000_000), 2), ((1, 600_000_000), 2)])
    );
}

#[test]
fn duplicate_inputs_exclude_unverified_ineligible_and_nonpersonal_rows() {
    let mut store = new_store();
    discovery_root(&mut store);
    let mut rows = vec![
        item("match-a", "/root/match-a", "download", 600_000_000, true),
        item("match-b", "/root/match-b", "download", 600_000_000, true),
        item(
            "singleton",
            "/root/singleton",
            "download",
            700_000_000,
            true,
        ),
    ];
    for reason in [
        "provisional",
        "ineligible",
        "blocked",
        "nonpersonal",
        "permanent",
        "zero-size",
        "below-minimum",
        "oversized-json",
        "missing-root",
    ] {
        for index in 0..2 {
            let id = format!("{reason}-{index}");
            let mut candidate = item(&id, &format!("/root/{id}"), "download", 600_000_000, true);
            match reason {
                "provisional" => {} // Marked below, after normal saving.
                "ineligible" => candidate.suggestion_eligible = false,
                "blocked" => candidate.blocked_reason = Some("Fixture activity guard".into()),
                "nonpersonal" => candidate.kind = "cargo".into(),
                "permanent" => candidate.eligible_permanent = true,
                "zero-size" => candidate.identity.size = 0,
                "below-minimum" => {
                    candidate.allocated_bytes = minimum_bytes("download") - 1;
                }
                "oversized-json" => candidate.evidence = "x".repeat(17_000),
                "missing-root" => candidate.root_id = "missing".into(),
                _ => unreachable!(),
            }
            rows.push(candidate);
        }
    }
    save(&mut store, rows);
    // A batch never stores a provisional row. Mark these records to see that
    // the selection refuses them too.
    for row in &mut store.index.rows {
        if row.id.starts_with("provisional-") {
            row.candidate.provisional = true;
        }
    }
    let inputs = store.duplicate_inputs(&policy(), false).unwrap();
    assert_eq!(
        inputs.indexed_files, 3,
        "Only eligible indexed rows are counted"
    );
    assert_eq!(
        inputs
            .files
            .iter()
            .map(|input| input.candidate.id.as_str())
            .collect::<Vec<&str>>(),
        ["match-a", "match-b"],
        "Invalid rows cannot join an otherwise eligible size bucket"
    );
    assert_eq!(inputs.skipped_buckets, 0);
    assert_eq!(inputs.skipped_bucket_files, 0);
    assert!(!inputs.bucket_limit_reached);
}

#[test]
fn duplicate_inputs_do_not_form_buckets_across_devices() {
    let mut store = new_store();
    discovery_root(&mut store);
    let mut other = store.root("root").unwrap();
    other.id = "other".into();
    other.path = path("/other");
    other.identity.device = 2;
    store.add_root(&other).unwrap();
    let mut rows = Vec::new();
    for (root_id, root_path, device) in [("root", "/root", 1), ("other", "/other", 2)] {
        for (suffix, bytes) in [
            ("pair-a", 500_000_000),
            ("pair-b", 500_000_000),
            ("singleton", 800_000_000),
        ] {
            let id = format!("{root_id}-{suffix}");
            let mut candidate = item(
                &id,
                &format!("{root_path}/{suffix}"),
                "download",
                bytes,
                true,
            );
            candidate.root_id = root_id.into();
            candidate.identity.device = device;
            rows.push(candidate);
        }
    }
    save(&mut store, rows);
    let inputs = store.duplicate_inputs(&policy(), false).unwrap();
    assert_eq!(inputs.indexed_files, 6);
    assert_eq!(
        duplicate_bucket_counts(&inputs),
        BTreeMap::from([((1, 500_000_000), 2), ((2, 500_000_000), 2)]),
        "One same-size file on each device is not a comparable bucket"
    );
    assert!(inputs.files.iter().all(|input| {
        input.root.id == input.candidate.root_id
            && input.root.identity.device == input.candidate.identity.device
    }));
    assert_eq!(inputs.skipped_buckets, 0);
}

#[test]
fn duplicate_inputs_report_the_bucket_limit_without_partial_buckets() {
    let mut store = new_store();
    discovery_root(&mut store);
    let pair = |bucket: usize| {
        let bytes = 100_000_000 + bucket as u64;
        (0..2)
            .map(|member| {
                let id = format!("bucket-{bucket:04}-{member}");
                item(&id, &format!("/root/{id}"), "download", bytes, true)
            })
            .collect::<Vec<Candidate>>()
    };
    let mut rows = Vec::new();
    for bucket in 0..1024 {
        rows.extend(pair(bucket));
    }
    save(&mut store, rows);
    for extra_bucket in [false, true] {
        if extra_bucket {
            save(&mut store, pair(1024));
        }
        let inputs = store.duplicate_inputs(&policy(), false).unwrap();
        assert_eq!(inputs.indexed_files, if extra_bucket { 2050 } else { 2048 });
        assert_eq!(inputs.files.len(), 500);
        let counts = duplicate_bucket_counts(&inputs);
        assert_eq!(counts.len(), 250);
        assert!(counts.values().all(|count| *count == 2));
        assert_eq!(inputs.skipped_buckets, 774);
        assert_eq!(inputs.skipped_bucket_files, 1548);
        assert_eq!(inputs.bucket_limit_reached, extra_bucket);
    }
}

#[test]
fn a_cancelled_selection_compares_nothing() {
    let store = new_store();
    assert_eq!(
        store.duplicate_inputs(&policy(), true).err(),
        Some("Cancelled".into())
    );
}

#[test]
fn kept_descendants_hide_enclosing_candidates_without_hiding_sibling_prefixes() {
    let mut store = new_store();
    let selected = item(
        "selected",
        "/root/café%_/project/.venv",
        "venv",
        100_000_000,
        true,
    );
    save(
        &mut store,
        vec![
            selected.copy(),
            item("other", "/root/other/target", "cargo", 100_000_000, true),
        ],
    );
    for (kept, overlaps) in [
        ("/root/café%_/project", true),
        ("/root/café%_/project/.venv", true),
        ("/root/café%_/project/.venv/kept_%.txt", true),
        ("/root/café%_/project/.venv-other/kept_%.txt", false),
        ("/root/café%_/project/.ven", false),
        ("/root/caféXX/project/.venv/kept_%.txt", false),
    ] {
        assert_eq!(visible(&store).len(), 2);
        store.keep(kept, true);
        let shown = visible(&store);
        assert_eq!(
            shown.iter().any(|candidate| candidate.id == selected.id),
            !overlaps,
            "{kept}"
        );
        assert!(shown.iter().any(|candidate| candidate.id == "other"));
        assert_eq!(store.kept(), [kept.as_bytes().to_vec()]);
        assert_stored(&store, &selected.id, &selected);
        store.keep(kept, false);
    }
    assert_eq!(visible(&store).len(), 2);
}

fn receipt(id: &str, outcome: &str, detail: &str, reported_bytes: u64) -> Receipt {
    Receipt {
        id: id.into(),
        path: path("/root/target"),
        title: "Build artifacts".into(),
        operation: "permanent".into(),
        outcome: outcome.into(),
        detail: detail.into(),
        created_at: 1_700_000_000,
        reported_bytes,
        observed_bytes: 0,
        credited_bytes: 0,
        coins: 0,
        trash_path: None,
        can_restore: false,
        seq: None,
    }
}

#[test]
fn history_paging_returns_cursors_totals_and_monotonic_sequences() {
    let mut store = new_store();
    let root = root_at("root", "/root", "projects");
    let candidate = item("artifact", "/root/target", "cargo", 100_000_000, true);
    for index in 1..=7 {
        store
            .prepare_operation(
                &root,
                &candidate,
                &receipt(&format!("op-{index}"), "removed", "", 0),
                "/root/.stage",
            )
            .unwrap();
    }
    let mut cursor = None;
    let mut ids = Vec::new();
    let mut sequences: Vec<i64> = Vec::new();
    for expected_len in [3usize, 3, 1] {
        let (receipts, next_before, total) = store.history_page(cursor, 3);
        assert_eq!(total, 7);
        assert_eq!(receipts.len(), expected_len);
        for receipt in &receipts {
            let seq = receipt.seq.expect("Paged receipts carry a sequence");
            assert!(
                sequences.last().is_none_or(|last| seq < *last),
                "Sequences must strictly decrease across pages"
            );
            sequences.push(seq);
            ids.push(receipt.id.clone());
        }
        assert_eq!(
            next_before,
            if expected_len == 3 {
                sequences.last().copied()
            } else {
                None
            }
        );
        cursor = next_before;
    }
    assert_eq!(cursor, None);
    assert_eq!(
        ids,
        (1..=7)
            .rev()
            .map(|index| format!("op-{index}"))
            .collect::<Vec<String>>(),
        "Paging walks the complete ledger newest first without overlap"
    );
    // The bounded snapshot history carries no sequence.
    let unpaged = store.history();
    assert_eq!(unpaged.len(), 7);
    assert!(unpaged.iter().all(|receipt| receipt.seq.is_none()));
    // A full final page hands out one more cursor; it then proves empty.
    let (receipts, next_before, _) = store.history_page(None, 7);
    assert_eq!(receipts.len(), 7);
    let (empty, none, total) = store.history_page(next_before, 7);
    assert!(empty.is_empty() && none.is_none());
    assert_eq!(total, 7);
}

#[test]
fn an_operation_is_recorded_once_and_ends_with_its_outcome() {
    let mut store = new_store();
    let root = root_at("root", "/root", "projects");
    let candidate = item("artifact", "/root/target", "cargo", 100_000_000, true);
    let open = receipt("operation", "prepared", "", 0);
    store
        .prepare_operation(&root, &candidate, &open, "/root/.stage")
        .unwrap();
    assert_eq!(
        store.prepare_operation(&root, &candidate, &open, "/root/.stage"),
        Err("UNIQUE constraint failed: operations.id".into())
    );
    assert_eq!(store.history().len(), 1);
    let done = receipt("operation", "removed", "", 0);
    store.finish_operation(&done, Some(candidate.identity));
    let (_, found, settled, trash, stage) = store.operation("operation").unwrap();
    assert_eq!(found.id, "artifact");
    assert_eq!(settled.outcome, "removed");
    assert_eq!(trash, Some(candidate.identity));
    assert_eq!(stage.as_deref(), Some("/root/.stage"));
    assert_eq!(
        store.operation("missing").err(),
        Some("Query returned no rows".into())
    );
}

#[test]
fn replacing_contained_roots_is_atomic_and_preserves_keep_and_rewards() {
    let mut store = new_store();
    let identity = item("x", "/root/projects/target", "cargo", 100_000_000, true).identity;
    let make_root = |id: &str, location: &str| Root {
        id: id.into(),
        path: path(location),
        kind: "folder".into(),
        identity,
    };
    store
        .add_root(&make_root("projects", "/root/projects"))
        .unwrap();
    store.add_root(&make_root("external", "/other")).unwrap();
    let mut mount = make_root("mount", "/root/mount");
    mount.identity.device += 1;
    store.add_root(&mount).unwrap();
    store
        .enqueue_scope("projects", &path("/root/projects/a"))
        .unwrap();
    assert!(store.take_scope().is_some());
    store
        .enqueue_scope("projects", &path("/root/projects/b"))
        .unwrap();
    store.begin_refresh("projects", None, "g").unwrap();
    store.keep("/root/projects/target", true);
    reward(&mut store);
    // The conflicting id fails, and nothing of the grant may remain.
    assert!(store
        .authorize_root(&make_root("external", "/root"), true)
        .is_err());
    assert!(store.root("projects").is_ok());
    assert_eq!(store.roots().len(), 3);
    assert!(store.has_pending_scopes());
    let replaced = store
        .authorize_root(&make_root("home", "/root"), true)
        .unwrap();
    assert_eq!(replaced, ["projects"]);
    assert!(store.root("projects").is_err());
    assert!(store.root("external").is_ok());
    assert!(store.root("mount").is_ok());
    assert!(store.incomplete("home"));
    assert_eq!(store.kept(), [b"/root/projects/target".to_vec()]);
    assert_rewarded(&store);
    assert!(!store.has_pending_scopes());
    assert!(store.take_scope().is_none());
    assert_eq!(store.journal.active.len(), 0);
    assert_eq!(store.journal.refreshes.len(), 0);
    assert_eq!(store.journal.seen.len(), 0);
}

#[test]
fn legacy_home_policy_upgrade_preserves_grant_identity_and_rewards() {
    let mut store = new_store();
    let candidate = item(
        "old-media",
        "/root/Music/target",
        "cargo",
        100_000_000,
        true,
    );
    let root = Root {
        id: "root".into(),
        path: path("/root"),
        kind: "folder".into(),
        identity: candidate.identity,
    };
    store.add_root(&root).unwrap();
    save(&mut store, vec![candidate]);
    store.keep("/root/Projects/keep", true);
    reward(&mut store);
    let mut home = root.copy();
    home.kind = "home".into();
    let context = store.foreground_context().unwrap();
    let summary = terminal_summary(10);
    assert!(save_summary(&mut store, context, &summary).unwrap());
    assert!(store.authorize_root(&home, false).is_err());
    let mut replaced_object = home.copy();
    replaced_object.identity.inode += 1;
    assert!(store.authorize_root(&replaced_object, true).is_err());
    assert_eq!(store.foreground_context().unwrap(), context);
    assert!(store.load_foreground_summary().unwrap().is_some());
    assert_eq!(store.root("root").unwrap().kind, "folder");
    assert_eq!(visible(&store).len(), 1);
    assert_eq!(store.authorize_root(&home, true).unwrap(), ["root"]);
    assert_eq!(store.foreground_context().unwrap(), context + 1);
    assert!(store.load_foreground_summary().unwrap().is_none());
    assert!(!save_summary(&mut store, context, &summary).unwrap());
    assert_eq!(store.root("root").unwrap().kind, "home");
    assert!(visible(&store).is_empty());
    assert!(store.incomplete("root"));
    assert_eq!(store.kept(), [b"/root/Projects/keep".to_vec()]);
    assert_rewarded(&store);
    let mut restarted = reopen(store);
    assert_eq!(restarted.root("root").unwrap().kind, "home");
    assert_taken(&mut restarted, "/root");
}

#[test]
fn scoped_deletion_never_matches_sibling_prefixes_or_sql_wildcards() {
    let mut store = new_store();
    save(
        &mut store,
        vec![
            item("a", "/root/a%_/target", "cargo", 100_000_000, true),
            item("b", "/root/abc/target", "cargo", 100_000_000, true),
            item("c", "/root/a%_other/target", "cargo", 100_000_000, true),
        ],
    );
    store.clear_scope("root", Some(path("/root/a%_"))).unwrap();
    assert!(store.candidate("a").is_err());
    assert!(store.candidate("b").is_ok());
    assert!(store.candidate("c").is_ok());
}

#[test]
fn legacy_index_is_hidden_and_requires_reconciliation_without_touching_rewards() {
    let mut store = new_store();
    store.add_root(&root_at("root", "/root", "projects")).unwrap();
    save(
        &mut store,
        vec![item("old", "/root/old", "cargo", 100_000_000, true)],
    );
    store.journal.incomplete.clear();
    store.rule_version = 1;
    reward(&mut store);
    let context = store.foreground_context().unwrap();
    let summary = terminal_summary(7);
    assert!(save_summary(&mut store, context, &summary).unwrap());
    let mut store = reopen(store);
    assert_eq!(store.foreground_context().unwrap(), context + 1);
    assert!(store.load_foreground_summary().unwrap().is_none());
    assert!(!save_summary(&mut store, context, &summary).unwrap());
    assert!(visible(&store).is_empty());
    assert!(store.incomplete("root"));
    assert_taken(&mut store, "/root");
    assert_rewarded(&store);
}

#[test]
fn a_change_of_rules_without_a_next_context_is_refused() {
    let mut store = new_store();
    store.rule_version = 1;
    store.foreground.revision = i64::MAX;
    let failure = Store::open(store, DERIVED_USAGE_VERSION, RULES).err().unwrap();
    assert_eq!(
        failure.reason,
        "The foreground summary context is missing or exhausted"
    );
    assert_eq!(failure.tables.rule_version, 1);
}

#[test]
fn a_rebuild_survives_a_failed_recovery() {
    let mut store = new_store();
    store.add_root(&root_at("root", "/root", "projects")).unwrap();
    save(
        &mut store,
        vec![item("old", "/root/old", "cargo", 100_000_000, true)],
    );
    store.rule_version = RULES - 1;
    store.journal.active.push(Scope {
        root_id: "root".into(),
        path: path("outside"),
    });
    let failure = Store::open(store, DERIVED_USAGE_VERSION, RULES).err().unwrap();
    assert_eq!(failure.reason, "A discovery scope must be an absolute path without parent traversal");
    let rebuilt = failure.tables;
    assert_eq!(rebuilt.rule_version, RULES);
    assert!(rebuilt.index.rows.is_empty());
    assert!(rebuilt.incomplete("root"));
    assert_eq!(rebuilt.journal.pending.len(), 1);
    assert_eq!(text(&rebuilt.journal.pending[0].path), "/root");
    assert_eq!(rebuilt.journal.active.len(), 1);
}

#[test]
fn a_location_is_the_same_however_its_path_is_spelled() {
    let mut store = new_store();
    store.add_root(&root_at("inner", "/a/b", "projects")).unwrap();
    assert!(store.authorize_root(&root_at("outer", "/a/", "projects"), false).is_err());
    assert_eq!(
        store.authorize_root(&root_at("outer", "/a/", "projects"), true).unwrap(),
        ["inner"]
    );
    for spelled in ["/a/b", "/a", "/a//b/.", "/./a/b/"] {
        assert!(store.authorize_root(&root_at("again", spelled, "projects"), false).is_err());
        assert!(store.authorize_root(&root_at("again", spelled, "projects"), true).is_err());
    }
    store.authorize_root(&root_at("beside", "/ab", "projects"), false).unwrap();
    store
        .enqueue_scope("outer", &path("//a/./b/"))
        .unwrap();
    assert_eq!(text(&store.journal.pending[0].path), "/a/b");
}

#[test]
fn enclosing_findings_are_told_by_the_texts_of_the_folders_above() {
    let mut store = new_store();
    let root = root_at("root", "/root", "projects");
    store.add_root(&root).unwrap();
    save(
        &mut store,
        vec![
            item("whole", "/root/a", "cargo", 100_000_000, true),
            item("part", "/root/a/b", "cargo", 100_000_000, true),
        ],
    );
    let found = |location: &str| {
        store
            .enclosing_candidate(&root, &path(location))
            .map(|found| text(&found))
    };
    assert_eq!(found("/root/a/b").as_deref(), Some("/root/a/b"));
    assert_eq!(found("/root/a/b/c/./").as_deref(), Some("/root/a/b"));
    assert_eq!(found("/root/a/b/").as_deref(), Some("/root/a"));
    assert_eq!(found("/root/a//c").as_deref(), Some("/root/a"));
    assert_eq!(found("/root/other"), None);
    store.clear_scope("root", Some(path("/root/a/b/"))).unwrap();
    assert!(store.candidate("whole").is_err());
    assert!(store.candidate("part").is_ok());
}

#[test]
fn an_older_accounting_is_recounted() {
    let mut store = new_store();
    save(
        &mut store,
        vec![item("old", "/root/old", "cargo", 100_000_000, true)],
    );
    let payload = store.derived_usage().candidate_payload_bytes;
    store.index.row_count = 0;
    store.index.payload_bytes = 0;
    let store = Store::open(store, DERIVED_USAGE_VERSION - 1, RULES).ok().unwrap();
    assert_eq!(store.derived_usage().candidate_rows, 1);
    assert_eq!(store.derived_usage().candidate_payload_bytes, payload);
}

#[test]
fn interrupted_cleanup_preserves_recovery_evidence_across_restarts() {
    let candidate = item("artifact", "/root/target", "cargo", 100_000_000, true);
    let root = Root {
        id: "root".into(),
        path: path("/root"),
        kind: "projects".into(),
        identity: candidate.identity,
    };
    let open = receipt(
        "operation",
        "prepared",
        "Captured leaves may remain at /root/.chippytea-operation-recovery.",
        100_000_000,
    );
    let mut store = new_store();
    store
        .prepare_operation(&root, &candidate, &open, "/root/.chippytea-operation")
        .unwrap();
    let mut store = reopen(store);
    store.reconcile();
    let recovered = store.history().remove(0);
    assert_eq!(recovered.outcome, "interrupted");
    assert!(recovered.detail.contains(&open.detail));
    assert_eq!(recovered.credited_bytes, 0);
    assert_eq!(recovered.coins, 0);
    let mut store = reopen(store);
    store.reconcile();
    assert_eq!(store.history()[0].detail, recovered.detail);
    assert_eq!(store.wallet().pending_coins, 0);
}

fn weight(candidate: &Candidate) -> u64 {
    json(candidate).len() as u64 + candidate.path.len() as u64 + CANDIDATE_PAYLOAD_OVERHEAD
}

#[test]
fn derived_usage_counts_utf8_payload_and_unchanged_batches_do_not_write() {
    let mut store = new_store();
    discovery_root(&mut store);
    let candidate = item("🪙", "/root/🪙", "cargo", 100_000_000, true);
    save(&mut store, vec![candidate.copy()]);
    let usage = store.derived_usage();
    assert_eq!(usage.candidate_rows, 1);
    assert_eq!(usage.candidate_payload_bytes, weight(&candidate));
    save(&mut store, vec![candidate.copy()]);
    assert_eq!(store.derived_usage().candidate_rows, 1);
    assert_eq!(store.derived_usage().candidate_payload_bytes, weight(&candidate));
    assert_stored(&store, "🪙", &candidate);

    let mut changed = item("🪙", "/root/🪙", "cargo", 200_000_000, true);
    changed.title = "changed".into();
    save(&mut store, vec![changed.copy()]);
    let usage = store.derived_usage();
    assert_eq!(usage.candidate_rows, 1);
    assert_eq!(usage.candidate_payload_bytes, weight(&changed));
    assert_stored(&store, "🪙", &changed);
}

#[test]
fn limited_refresh_retains_old_findings_and_marks_coverage_incomplete() {
    for byte_pressure in [false, true] {
        let old = item("old", "/root/old", "cargo", 100_000_000, true);
        let limits = DerivedLimits {
            max_candidate_rows: if byte_pressure { 50_000 } else { 1 },
            max_candidate_payload_bytes: if byte_pressure {
                weight(&old)
            } else {
                i64::MAX as u64
            },
            max_candidate_json_bytes: DEFAULT_MAX_CANDIDATE_JSON_BYTES,
        };
        let mut store = Store::empty(RULES, limits);
        discovery_root(&mut store);
        save(&mut store, vec![old.copy()]);
        claim(&mut store, "/root");
        let refresh = begin(&mut store, "/root", None, "first").unwrap();
        let newer = item("new", "/root/new", "cargo", 100_000_000, true);
        save(&mut store, vec![newer.copy()]);
        store
            .finish_scope_refresh(&refresh, &complete_stats(0), false)
            .unwrap();
        assert_stored(&store, "old", &old);
        assert!(store.incomplete("root"));
        let mut stats = complete_stats(0);
        store.apply_coverage(&mut stats);
        assert!(!stats.complete);
        assert!(stats.message.contains("storage-limited"));
        let mut restarted = reopen(store);
        let mut restarted_stats = complete_stats(0);
        restarted.apply_coverage(&mut restarted_stats);
        assert!(!restarted_stats.complete);
        assert!(restarted_stats.message.contains("storage-limited"));
        // A durable admission-pressure signal permits one bounded Tidy slice
        // even at the cap, without letting the warning drive endless eviction.
        assert_eq!(restarted.maintain_derived(&vec![]).candidate_rows, 0);
        assert!(!restarted.has_pending_scopes());
        claim(&mut restarted, "/root");
        let refresh = begin(&mut restarted, "/root", None, "second").unwrap();
        save(&mut restarted, vec![newer.copy()]);
        restarted
            .finish_scope_refresh(&refresh, &complete_stats(0), false)
            .unwrap();
        assert_eq!(restarted.maintain_derived(&vec![]).candidate_rows, 1);
        let restarted = reopen(restarted);
        assert_stored(&restarted, "new", &newer);
        assert!(restarted.candidate("old").is_err());
        assert!(!restarted.incomplete("root"));
        let mut stats = complete_stats(0);
        restarted.apply_coverage(&mut stats);
        assert!(stats.complete);
        assert!(!stats.message.contains("storage-limited"));
    }
}

#[test]
fn admission_pressure_preserves_protected_rows_and_is_consumed_once() {
    let mut store = new_store();
    discovery_root(&mut store);
    save(
        &mut store,
        vec![
            item("one", "/root/one", "cargo", 100_000_000, true),
            item("two", "/root/two", "cargo", 100_000_000, true),
        ],
    );
    store.limits.max_candidate_rows = 2;
    store.keep("/root/two", true);
    save(
        &mut store,
        vec![item("new", "/root/new", "cargo", 100_000_000, true)],
    );
    let wallet = store.wallet();
    let pending = store.has_pending_scopes();
    store.journal.active.push(Scope {
        root_id: "root".into(),
        path: path("/root/one"),
    });
    assert_eq!(store.maintain_derived(&vec![]).candidate_rows, 2);
    store.journal.active.clear();
    assert_eq!(
        store.maintain_derived(&vec!["one".to_owned()]).candidate_rows,
        2
    );
    assert_eq!(store.maintain_derived(&vec![]).candidate_rows, 1);
    assert!(store.candidate("two").is_ok());
    store.keep("/root/two", false);
    // Persisted incomplete/limited coverage cannot by itself evict again.
    assert_eq!(store.maintain_derived(&vec![]).candidate_rows, 1);
    assert_eq!(store.wallet().credited_bytes, wallet.credited_bytes);
    assert_eq!(store.has_pending_scopes(), pending);
    let mut oversized = item("large", "/root/large", "cargo", 100_000_000, true);
    oversized.title = "x".repeat(DEFAULT_MAX_CANDIDATE_JSON_BYTES);
    save(&mut store, vec![oversized]);
    assert_eq!(store.maintain_derived(&vec![]).candidate_rows, 1);
}

#[test]
fn derived_retention_preserves_durable_truth_and_never_requeues_by_itself() {
    let mut store = new_store();
    discovery_root(&mut store);
    save(
        &mut store,
        vec![
            item("one", "/root/one", "cargo", 100_000_000, true),
            item("two", "/root/two", "cargo", 100_000_000, true),
        ],
    );
    store.limits.max_candidate_rows = 1;
    store.keep("/root/two", true);
    let before = store.wallet();
    let pending_before = store.has_pending_scopes();
    let usage = store.maintain_derived(&vec![]);
    assert!(usage.candidate_rows >= 1);
    assert!(
        store.candidate("two").is_ok(),
        "Keep-protected rows survive"
    );
    assert_eq!(store.wallet().credited_bytes, before.credited_bytes);
    assert_eq!(store.has_pending_scopes(), pending_before);
    assert!(store.incomplete("root"));
}

#[test]
fn root_coverage_overlay_does_not_leak_sibling_incomplete_state() {
    let mut store = new_store();
    discovery_root(&mut store);
    store.add_root(&root_at("other", "/other", "projects")).unwrap();
    store.journal.incomplete.retain(|id| id != "other");
    let mut stats = complete_stats(0);
    store.apply_root_coverage("other", &mut stats);
    assert!(stats.complete);
    store.apply_root_coverage("root", &mut stats);
    assert!(
        stats.complete,
        "A finished scope can coexist with an incomplete root"
    );
    store.index.limited.push(Limited {
        root_id: "root".into(),
        rows: 1,
        bytes: 1024,
        reason: "disposable limit".into(),
    });
    store.apply_root_coverage("other", &mut stats);
    assert!(stats.complete);
    store.apply_root_coverage("root", &mut stats);
    assert!(!stats.complete);
}

#[test]
fn event_loss_requeues_every_root_before_setting_exact_cursor() {
    let mut store = new_store();
    discovery_root(&mut store);
    store.journal.cursor = Some(99);
    store.reconcile_events(7).unwrap();
    assert_eq!(store.journal.cursor, Some(7));
    assert!(store.has_pending_scopes());
    assert!(store.incomplete("root"));

    store.journal.pending.clear();
    store.journal.cursor = None;
    assert_eq!(
        store.reconcile_events(8),
        Err("The durable event cursor row is missing".into())
    );
    assert!(!store.has_pending_scopes());
}

#[test]
fn coins_are_collected_once() {
    let mut store = new_store();
    store.ledger.earnings.push(Earning {
        operation_id: "a".into(),
        coins: 3,
        collected: false,
    });
    store.ledger.earnings.push(Earning {
        operation_id: "b".into(),
        coins: 4,
        collected: false,
    });
    assert_eq!(store.wallet().pending_coins, 7);
    assert_eq!(store.collect(), (0, 7, 7));
    assert_eq!(store.collect(), (7, 7, 0));
    assert_eq!(store.wallet().collected_coins, 7);
    assert_eq!(store.wallet().pending_coins, 0);
}

#[test]
fn a_restart_closes_open_observation_windows() {
    let mut store = new_store();
    store.ledger.windows.push(Window {
        id: "w".into(),
        domain: "disk".into(),
        state: "open".into(),
    });
    let before = store.ledger.windows[0].state.clone();
    store.reconcile();
    assert_eq!(before, "open");
    assert_eq!(store.ledger.windows[0].state, "interrupted");
}

#[test]
fn the_text_of_a_failure_is_what_it_displays() {
    assert_eq!(err("disk full"), "disk full");
    assert_eq!(err(7), "7");
}

#[test]
fn a_checkpoint_reports_the_log_and_takes_a_lock_for_busy() {
    let mut store = new_store();
    let candidate = item("one", "/root/one", "cargo", 100_000_000, true);
    let bytes = weight(&candidate);
    save(&mut store, vec![candidate]);
    let sizes = FileSizes {
        database_bytes: 4096,
        wal_bytes: 512,
        wal_shm_bytes: 64,
    };
    let answer = Checkpoint {
        busy: 0,
        frames: 9,
        checkpointed: -1,
    };
    let told = store.checkpoint_wal(Ok(answer), sizes).unwrap();
    assert_eq!(told.usage.candidate_rows, 1);
    assert_eq!(told.usage.candidate_payload_bytes, bytes);
    assert_eq!(told.sizes, sizes);
    assert_eq!((told.wal_frames, told.wal_checkpointed, told.wal_busy), (9, 0, false));
    let locked = store
        .checkpoint_wal(Err("database table is locked".into()), sizes)
        .unwrap();
    assert!(locked.wal_busy);
    assert_eq!((locked.wal_frames, locked.wal_checkpointed), (0, 0));
    assert_eq!(
        store.checkpoint_wal(Err("disk I/O error".into()), sizes),
        Err("disk I/O error".into())
    );
}

#[test]
fn claims_go_to_one_reader_a_root() {
    let mut store = new_store();
    discovery_root(&mut store);
    store.add_root(&root_at("other", "/other", "projects")).unwrap();
    while let Some(scope) = store.take_scope() {
        store.finish_scope(&scope.root_id, &scope.path).unwrap();
    }
    assert!(!store.has_active_scopes());
    for location in ["/root/a", "/root/b"] {
        store.enqueue_scope("root", &path(location)).unwrap();
    }
    store.enqueue_scope("other", &path("/other/c")).unwrap();
    let first = store.take_scope_bounded(2).unwrap().unwrap();
    assert_eq!(text(&first.path), "/root/a");
    assert!(store.has_active_scopes());
    let second = store.take_scope_bounded(2).unwrap().unwrap();
    assert_eq!(text(&second.path), "/other/c");
    assert!(store.take_scope_bounded(2).unwrap().is_none());
    store.finish_scope("root", &path("/root/a")).unwrap();
    let third = store.take_scope_bounded(2).unwrap().unwrap();
    assert_eq!(text(&third.path), "/root/b");
    assert_eq!(
        store.take_scope_bounded(3).err(),
        Some("Invalid read-only discovery admission limit".into())
    );
}

#[test]
fn findings_of_one_root_are_listed_in_their_order() {
    let mut store = new_store();
    discovery_root(&mut store);
    store.add_root(&root_at("other", "/other", "projects")).unwrap();
    let mut foreign = item("z", "/other/z", "cargo", 1, true);
    foreign.root_id = "other".into();
    let batch = ScanBatch {
        candidates: vec![
            item("b", "/root/b", "cargo", 1, true),
            foreign,
            item("a", "/root/a", "cargo", 1, true),
        ],
        stats: ScanStats::new(),
    };
    let json = vec![b"{}".to_vec(); 3];
    store.save_batch(&batch, &json).unwrap();
    let ids: Vec<String> = store
        .candidates_for_root("root")
        .into_iter()
        .map(|row| row.id)
        .collect();
    assert_eq!(ids, ["b", "a"]);
    assert!(store.candidates_for_root("none").is_empty());
}

fn nested(store: &Store) -> bool {
    let queue = &store.journal.pending;
    queue.iter().enumerate().any(|(i, a)| {
        queue.iter().enumerate().any(|(j, b)| {
            i != j
                && a.root_id == b.root_id
                && (a.path == b.path || text(&a.path).starts_with(&format!("{}/", text(&b.path))))
        })
    })
}

#[test]
fn no_operation_nests_the_pending_scopes() {
    let mut store = new_store();
    discovery_root(&mut store);
    let base = text(&store.root("root").unwrap().path);
    let at = |below: &str| format!("{base}/{below}");
    enqueue(&mut store, &at("a/b"));
    enqueue(&mut store, &at("a/c"));
    enqueue(&mut store, &at("d"));
    assert!(!nested(&store));
    enqueue(&mut store, &at("a"));
    assert_eq!(queued_paths(&store), [at("a"), at("d")]);
    assert_taken(&mut store, &at("d"));
    // The claimed scope does not count; the same work can wait again.
    enqueue(&mut store, &at("d/e"));
    assert!(!nested(&store));
    store.cancel_claimed_scope("root", &path(&at("d"))).unwrap();
    assert_eq!(queued_paths(&store), [at("a"), at("d")]);
    let mut store = reopen(store);
    assert!(!nested(&store));
    store.journal.cursor = Some(1);
    store.reconcile_events(2).unwrap();
    assert_eq!(queued_paths(&store), [base.clone()]);
}

#[test]
fn a_batch_leaves_the_queue_that_its_paths_leave() {
    let mut one = new_store();
    discovery_root(&mut one);
    let mut other = new_store();
    discovery_root(&mut other);
    let base = text(&one.root("root").unwrap().path);
    let paths: Vec<FsPath> = ["a/b", "c", "a", "a/d", "c/e", "f"]
        .iter()
        .map(|below| path(&format!("{base}/{below}")))
        .collect();
    for scope in &paths {
        one.enqueue_scope("root", scope).unwrap();
    }
    other.enqueue_scopes("root", &paths).unwrap();
    let order = |store: &Store| -> Vec<String> {
        store.journal.pending.iter().map(|s| text(&s.path)).collect()
    };
    assert_eq!(order(&one), order(&other));
    assert!(!nested(&other));
}

#[test]
fn a_summary_with_the_same_text_and_another_scan_is_replaced() {
    let mut store = new_store();
    let scan = terminal_summary(5);
    let json = summary_json(&scan);
    assert!(save_summary(&mut store, 0, &scan).unwrap());
    store.foreground.summary = Some(SavedSummary {
        json: json.clone(),
        scan: None,
    });
    assert!(store.load_foreground_summary().unwrap().is_none());
    assert!(store
        .save_foreground_summary(0, &scan, json.clone(), 1_900_000_000)
        .unwrap());
    assert_eq!(saved_summary(&store), Some(json.clone()));
    assert_eq!(store.foreground.completed_at, Some(1_900_000_000));
    // The same scan with the same text is accepted without another update.
    assert!(store
        .save_foreground_summary(0, &scan, json, 2_000_000_000)
        .unwrap());
    assert_eq!(store.foreground.completed_at, Some(1_900_000_000));
}
