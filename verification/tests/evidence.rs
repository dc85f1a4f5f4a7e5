use chippytea::activity::{activity_reason, may_reuse, ActivitySnapshot};
use chippytea::evidence::{
    quiet_for, suggestion_reason, unfinished_component, Evidence, Measurement, DAY_NS,
    DEVELOPER_QUIET_DAYS,
};
use chippytea::git::config::validate_git_config;
use chippytea::git::tracking::{git_output_wait_duration, POLLHUP, POLLIN};
use chippytea::paths::{fs_path, FsPath};
use chippytea::policy::Rules;

const LARGE_FILE_BYTES: u64 = 100_000_000;
const INSTALLER_QUIET_DAYS: i64 = 14;
const DOWNLOAD_QUIET_DAYS: i64 = 30;

fn path(text: &str) -> FsPath {
    fs_path(text.as_bytes().to_vec())
}

fn minimum_bytes(kind: &str) -> u64 {
    match kind {
        "log" => 10_000_000,
        "crashreport" => 1_000_000,
        "archive" => 50_000_000,
        "largefile" => 500_000_000,
        _ => 100_000_000,
    }
}

fn quiet_days(kind: &str) -> i64 {
    match kind {
        "installer" => INSTALLER_QUIET_DAYS,
        _ => DOWNLOAD_QUIET_DAYS,
    }
}

fn policy_evidence(kind: &str, quiet_days: i64) -> Evidence {
    Evidence {
        kind: kind.into(),
        title: "fixture".into(),
        explanation: String::new(),
        consequence: String::new(),
        fingerprint: "fingerprint".into(),
        blocked: None,
        latest_modified_ns: 0,
        quiet_days,
        activity_root: None,
        rules: Rules {
            minimum_bytes: minimum_bytes(kind),
            quiet_days,
            priority: 0,
            permanent: false,
            checks_git: false,
            checks_activity: false,
            developer_measurement: false,
        },
    }
}

#[test]
fn recommendation_cutoffs_use_allocated_bytes_and_latest_activity() {
    let now = 100 * DAY_NS;
    let cutoff = now - DEVELOPER_QUIET_DAYS * DAY_NS;
    assert!(quiet_for(cutoff, now, DEVELOPER_QUIET_DAYS));
    assert!(!quiet_for(cutoff + 1, now, DEVELOPER_QUIET_DAYS));
    assert!(!quiet_for(now + DAY_NS, now, DEVELOPER_QUIET_DAYS));
    let mut measured = Measurement {
        allocated_bytes: LARGE_FILE_BYTES,
        logical_bytes: LARGE_FILE_BYTES,
        latest_modified_ns: now - 7 * DAY_NS,
        ..Measurement::blank()
    };
    let mut found = policy_evidence("node", 7);
    assert!(suggestion_reason(&found, &measured, now).is_none());
    measured.allocated_bytes = LARGE_FILE_BYTES - 1;
    assert!(suggestion_reason(&found, &measured, now)
        .unwrap()
        .contains("100 MB"));
    measured.logical_bytes = 1_000_000_000_000;
    measured.allocated_bytes = 0;
    assert!(
        suggestion_reason(&found, &measured, now).is_some(),
        "Sparse logical length is not an opportunity"
    );
    measured.allocated_bytes = LARGE_FILE_BYTES;
    measured.latest_modified_ns += 1;
    assert!(suggestion_reason(&found, &measured, now)
        .unwrap()
        .contains("quiet"));
    measured.latest_modified_ns = now - 8 * DAY_NS;
    found.latest_modified_ns = now - DAY_NS;
    assert!(
        suggestion_reason(&found, &measured, now).is_some(),
        "A recently edited manifest keeps the project active"
    );
    found.latest_modified_ns = now + DAY_NS;
    assert!(
        suggestion_reason(&found, &measured, now).is_some(),
        "Future timestamps are not quiet"
    );
    for days in [INSTALLER_QUIET_DAYS, DOWNLOAD_QUIET_DAYS] {
        let found = policy_evidence("download", days);
        measured.latest_modified_ns = now - days * DAY_NS;
        assert!(suggestion_reason(&found, &measured, now).is_none());
        measured.latest_modified_ns += 1;
        assert!(suggestion_reason(&found, &measured, now).is_some());
    }
    for kind in [
        "cache",
        "log",
        "crashreport",
        "xcode",
        "installer",
        "archive",
        "largefile",
    ] {
        let days = quiet_days(kind);
        let found = policy_evidence(kind, days);
        measured.allocated_bytes = minimum_bytes(kind);
        measured.latest_modified_ns = now - days * DAY_NS;
        assert!(
            suggestion_reason(&found, &measured, now).is_none(),
            "{kind}"
        );
        measured.allocated_bytes -= 1;
        assert!(
            suggestion_reason(&found, &measured, now).is_some(),
            "{kind}"
        );
        measured.allocated_bytes += 1;
        measured.latest_modified_ns += 1;
        assert!(
            suggestion_reason(&found, &measured, now).is_some(),
            "{kind}"
        );
    }
}

#[test]
fn project_activity_is_conservative_without_blocking_unrelated_projects() {
    let snapshot = ActivitySnapshot {
        working_directories: vec![path("/Users/developer/projects/active/subdirectory")],
        executable_paths: vec![path("/Users/developer/projects/running/target/debug/app")],
        running_app_bundle_ids: Default::default(),
    };
    assert!(snapshot
        .blocked(&path("/Users/developer/projects/active"))
        .is_some());
    assert!(snapshot
        .blocked(&path("/Users/developer/projects/other"))
        .is_none());
    assert!(snapshot
        .blocked(&path("/Users/developer/projects/active-sibling"))
        .is_none());
    assert!(snapshot
        .blocked(&path("/Users/developer/projects/running"))
        .is_some());
}

#[test]
fn an_activity_that_cannot_be_captured_stands_against_the_project() {
    let project = path("/Users/developer/projects/active");
    assert_eq!(
        activity_reason(&Err("no snapshot".into()), &project),
        Some("no snapshot".into())
    );
    let snapshot = ActivitySnapshot {
        working_directories: vec![project.clone()],
        executable_paths: vec![],
        running_app_bundle_ids: vec![],
    };
    let reason = activity_reason(&Ok(snapshot), &path("/Users/developer/projects")).unwrap();
    assert!(reason.contains("running process"));
    assert!(may_reuse(1_000, 1_000));
    assert!(!may_reuse(1_001, 1_000));
}

#[test]
fn git_config_bom_cannot_hide_includes() {
    for config in [
        b"\xef\xbb\xbf[include]\npath = /outside/authorization\n".as_slice(),
        b"\xef\xbb\xbf[includeIf \"gitdir:/tmp/\"]\npath = /outside/authorization\n",
    ] {
        let reason = validate_git_config(config).unwrap_err();
        assert!(reason.contains("includes"), "{reason}");
    }
    assert!(validate_git_config(b"\xef\xbb\xbf[core]\nrepositoryformatversion = 0\n").is_ok());
}

#[test]
fn git_config_admits_what_only_looks_like_an_include() {
    assert!(validate_git_config(b"[core]\nrepositoryformatversion = 0\n[remote \"origin\"]\nurl = https://example.invalid/include\n").is_ok());
    assert!(validate_git_config(b"[core]\n[INCLUDE]\npath = x\n").is_err());
}

const MS: u64 = 1_000_000;

#[test]
fn git_output_wait_does_not_poll_eof_while_a_child_is_still_alive() {
    let delay = git_output_wait_duration(false, || {
        panic!("EOF must sleep rather than repeatedly poll a hung-up pipe")
    });
    assert_eq!(delay, 15 * MS);
}

#[test]
fn git_output_wait_returns_to_read_and_status_checks_after_readiness_or_timeout() {
    for (count, events, elapsed) in [
        (0, 0, 15 * MS),
        (1, POLLIN, 2 * MS),
        (1, POLLHUP, 3 * MS),
        (1, POLLIN | POLLHUP, 4 * MS),
    ] {
        assert_eq!(
            git_output_wait_duration(true, || (count, events, elapsed)),
            0,
            "Readiness and EOF are wakeups, never ownership decisions"
        );
    }
}

#[test]
fn git_output_wait_errors_and_unknown_events_use_only_the_remaining_quantum() {
    let pollout: i16 = 0x0004;
    let pollerr: i16 = 0x0008;
    let pollnval: i16 = 0x0020;
    for (count, events) in [
        (-1, 0), // Every poll errno, including EINTR, has this result.
        (1, pollerr),
        (1, pollnval),
        (1, pollout),
        (1, POLLIN | pollerr),
        (1, POLLHUP | pollnval),
        (1, 0),
        (0, POLLIN),
        (2, POLLIN),
    ] {
        for (elapsed, remaining) in [(0, 15), (4, 11), (15, 0), (20, 0)] {
            assert_eq!(
                git_output_wait_duration(true, || (count, events, elapsed * MS)),
                remaining * MS,
                "count={count}, events={events}, elapsed={elapsed}"
            );
        }
    }
}

#[test]
fn unfinished_names_are_recognized_whatever_their_capitals() {
    for name in [
        "movie.mp4.Download",
        "a.CRDOWNLOAD",
        "a.part",
        ".com.google.Chrome.abc",
        "x.aria2",
        "x.tmp",
    ] {
        assert!(unfinished_component(name.as_bytes()), "{name}");
    }
    for name in ["part", "movie.mp4", "x.tmpl", "com.google.chrome.abc"] {
        assert!(!unfinished_component(name.as_bytes()), "{name}");
    }
}

#[test]
fn a_small_artifact_names_its_threshold_and_a_recent_one_its_days() {
    let now = 100 * DAY_NS;
    let found = policy_evidence("node", 7);
    let small = Measurement::blank();
    assert_eq!(
        suggestion_reason(&found, &small, now).unwrap(),
        "Less than 100 MB is allocated locally; it does not meet this category's size threshold"
    );
    let recent = Measurement {
        allocated_bytes: LARGE_FILE_BYTES,
        latest_modified_ns: now,
        ..Measurement::blank()
    };
    assert_eq!(
        suggestion_reason(&found, &recent, now).unwrap(),
        "Recently modified; recommendations require 7 quiet days"
    );
}
