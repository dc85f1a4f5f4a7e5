use chippytea::model::{EntryMeta, Identity, Root};
use chippytea::paths::{fs_path, FsPath};
use chippytea::storage_inventory::locate::{
    locate, split_route, validate_directory, ComponentAsk, ComponentFact, Located,
};
use chippytea::storage_inventory::overview::{scan_bound, Event, Limits, Moment, Phase, Scan};
use chippytea::storage_inventory::report::{boundary, Failure, OsFailure, MAX_ISSUES};
use chippytea::storage_inventory::routes::{
    route_at, system_route_at, user_route_at, Tool, SYSTEM_ROUTES, USER_ROUTES,
};
use chippytea::storage_inventory::{
    scan, CleanupAuthority, InventoryState, IssueKind, StorageInventoryReport, StorageInventoryRow,
};
use std::collections::{BTreeMap, HashSet};

const USER: u32 = 501;
const FOLDER: u32 = 0o040755;
const FILE: u32 = 0o100644;
const LINK: u32 = 0o120777;
const HOME: &str = "/Users/someone";

const TOOL: Tool = Tool {
    name: "Assistant",
    folder: "assistant",
};

fn path(text: &str) -> FsPath {
    fs_path(text.as_bytes().to_vec())
}

fn text(path: &FsPath) -> String {
    String::from_utf8(path.to_vec()).unwrap()
}

// A disk that holds only what a test puts there.
struct Disk {
    entries: BTreeMap<String, EntryMeta>,
    denied: HashSet<String>,
    inode: u64,
}

impl Disk {
    fn new() -> Disk {
        let mut disk = Disk {
            entries: BTreeMap::new(),
            denied: HashSet::new(),
            inode: 1,
        };
        disk.folder(HOME);
        disk
    }

    fn meta(&mut self, mode: u32, size: u64, allocated: u64) -> EntryMeta {
        self.inode += 1;
        EntryMeta {
            identity: Identity {
                device: 1,
                inode: self.inode,
                mode,
                size,
                modified_ns: 0,
                changed_ns: 0,
            },
            allocated,
            links: 1,
            uid: USER,
            flags: 0,
        }
    }

    fn folder(&mut self, location: &str) {
        let mut at = String::new();
        for name in location.split('/').filter(|name| !name.is_empty()) {
            at = format!("{at}/{name}");
            if !self.entries.contains_key(&at) {
                let meta = self.meta(FOLDER, 96, 0);
                self.entries.insert(at.clone(), meta);
            }
        }
    }

    fn add(&mut self, relative: &str, mode: u32, size: u64, allocated: u64) -> String {
        let location = format!("{HOME}/{relative}");
        let (parent, _) = location.rsplit_once('/').unwrap();
        self.folder(parent);
        let meta = self.meta(mode, size, allocated);
        self.entries.insert(location.clone(), meta);
        location
    }

    fn put(&mut self, relative: &str, bytes: u64) -> String {
        self.add(relative, FILE, bytes, bytes.div_ceil(4096) * 4096)
    }

    fn link(&mut self, relative: &str) {
        self.add(relative, LINK, 8, 0);
    }

    fn stat(&self, location: &str) -> Result<EntryMeta, Failure> {
        match self.entries.get(location) {
            Some(meta) => Ok(*meta),
            None => Err(Failure::io(OsFailure::Missing)),
        }
    }

    fn open(&self, location: &str) -> Result<(), Failure> {
        if self.denied.contains(location) {
            return Err(Failure::io(OsFailure::Denied));
        }
        self.stat(location).map(|_| ())
    }

    fn names(&self, location: &str) -> Vec<String> {
        let base = format!("{location}/");
        self.entries
            .keys()
            .filter_map(|key| key.strip_prefix(&base))
            .filter(|rest| !rest.contains('/'))
            .map(str::to_owned)
            .collect()
    }

    // Answers what the search of a location asks.
    fn locate(&self, base: &str, relative: &str, device: Option<u64>) -> Result<Option<EntryMeta>, Failure> {
        let names: Vec<&str> = relative.split('/').collect();
        let mut facts: Vec<ComponentFact> = Vec::new();
        loop {
            let at = |i: usize| format!("{base}/{}", names[..=i].join("/"));
            match locate(relative.as_bytes(), &facts, device) {
                Located::Need(i, ComponentAsk::Meta) => {
                    assert_eq!(i, facts.len());
                    facts.push(ComponentFact {
                        meta: Some(Ok(self.entries.get(&at(i)).copied())),
                        opened: None,
                    });
                }
                Located::Need(i, ComponentAsk::Open) => {
                    facts[i].opened = Some(self.open(&at(i)));
                }
                Located::Fail(failure) => return Err(failure),
                Located::Absent => return Ok(None),
                Located::At(meta) => return Ok(Some(meta)),
            }
        }
    }

    fn root(&self, kind: &str) -> Root {
        Root {
            id: "fixture".into(),
            path: path(HOME),
            kind: kind.into(),
            identity: self.entries[HOME].identity,
        }
    }

    fn run(&self, mut scan: Scan, m: Moment, mut turn: impl FnMut(&Scan)) -> StorageInventoryReport {
        let mut open: BTreeMap<u64, Vec<String>> = BTreeMap::new();
        let mut next: u64 = 0;
        let mut steps = 0;
        loop {
            steps += 1;
            assert!(steps < 100_000, "an overview ends");
            turn(&scan);
            let base = if scan.turn < USER_ROUTES { HOME } else { "" };
            let mut enter = |location: &FsPath| {
                self.open(&text(location))?;
                next += 1;
                open.insert(next, self.names(&text(location)));
                Ok(next)
            };
            let event = match &scan.phase {
                Phase::Home | Phase::Closing => Event::Home(self.stat(HOME)),
                Phase::Idle | Phase::Walking(_) => Event::Proceed,
                Phase::System => Event::System(Ok(())),
                Phase::Locating(_) | Phase::Verifying(_) => Event::Located(self.locate(
                    base,
                    &route_at(scan.turn).relative.render(TOOL),
                    scan.device(),
                )),
                Phase::Reading(visit) => Event::Stat(self.stat(&text(&visit.path))),
                Phase::Entering(visit) => Event::Opened(enter(&visit.path)),
                Phase::Descending(_, location, _) => Event::Opened(enter(location)),
                Phase::Looking(_, location, _) => Event::Stat(self.stat(&text(location))),
                Phase::Listing(walk) => {
                    let list = open.get_mut(&walk.stack.last().unwrap().id).unwrap();
                    Event::Next(Ok(if list.is_empty() {
                        None
                    } else {
                        Some((list.remove(0).into_bytes(), false))
                    }))
                }
                Phase::Settling(_, folder) => {
                    let now = self.entries.get(&text(&folder.path)).copied();
                    Event::Settled(now, now)
                }
                Phase::Done => return scan.report,
            };
            scan.step(event, m);
        }
    }

    fn scan(&self, include_system: bool, limits: Limits) -> StorageInventoryReport {
        let m = Moment {
            total_ms: 1,
            route_ms: 1,
        };
        let scan = scan_bound(&self.root("home"), include_system, TOOL, limits, USER);
        self.run(scan, m, |_| {})
    }
}

fn relaxed() -> Limits {
    Limits {
        route_ms: 5_000,
        total_ms: 10_000,
        ..Limits::standard()
    }
}

fn row<'a>(report: &'a StorageInventoryReport, id: &str) -> &'a StorageInventoryRow {
    report.rows.iter().find(|row| row.id == id).unwrap()
}

fn met(report: &StorageInventoryReport, kind: IssueKind) -> bool {
    report.issues.iter().any(|issue| issue.kind == kind)
}

#[test]
fn replaced_home_cannot_be_scanned_under_an_earlier_grant() {
    let mut disk = Disk::new();
    let root = disk.root("home");
    let replacement = disk.meta(FOLDER, 96, 0);
    disk.entries.insert(HOME.into(), replacement);
    disk.put(".rustup/toolchains/replacement-data", 1_000_000);
    let m = Moment {
        total_ms: 0,
        route_ms: 0,
    };
    let report = disk.run(scan(&root, false, TOOL, USER, m), m, |_| {});
    assert!(report.rows.is_empty());
    assert_eq!(report.examined_entries, 0);
    assert_eq!(report.issues.len(), 1);
    assert_eq!(report.issues[0].kind, IssueKind::Changed);
}

#[test]
fn a_home_folder_that_moves_during_the_overview_leaves_no_rows() {
    let mut disk = Disk::new();
    disk.put(".rustup/toolchains/data", 1_000);
    let m = Moment {
        total_ms: 1,
        route_ms: 1,
    };
    let mut scan = scan(&disk.root("home"), false, TOOL, USER, m);
    scan.step(Event::Home(disk.stat(HOME)), m);
    let moved = disk.meta(FOLDER, 96, 0);
    disk.entries.insert(HOME.into(), moved);
    let report = disk.run(scan, m, |_| {});
    assert!(report.rows.is_empty());
    assert!(!report.complete);
    assert!(met(&report, IssueKind::Changed));
}

#[test]
fn a_non_home_grant_cannot_authorize_inventory_routes() {
    let mut disk = Disk::new();
    disk.put(".rustup/toolchains/data", 1_000_000);
    let m = Moment {
        total_ms: 0,
        route_ms: 0,
    };
    let report = disk.run(scan(&disk.root("folder"), false, TOOL, USER, m), m, |_| {});
    assert!(report.rows.is_empty());
    assert_eq!(report.examined_entries, 0);
    assert_eq!(report.issues[0].kind, IssueKind::PermissionDenied);
}

#[test]
fn a_home_folder_of_another_user_is_not_inventoried() {
    let disk = Disk::new();
    let m = Moment {
        total_ms: 0,
        route_ms: 0,
    };
    let report = disk.run(scan(&disk.root("home"), false, TOOL, USER + 1, m), m, |_| {});
    assert!(report.rows.is_empty());
    assert_eq!(report.issues[0].kind, IssueKind::PermissionDenied);
}

#[test]
fn cloud_and_volume_boundaries_are_rejected_before_directory_enumeration() {
    let mut disk = Disk::new();
    let metadata = disk.meta(FOLDER, 96, 0);
    let mut placeholder = metadata;
    placeholder.flags |= 0x4000_0000;
    assert_eq!(
        boundary(placeholder, None).err().unwrap().kind,
        IssueKind::CloudPlaceholder
    );
    assert_eq!(
        boundary(metadata, Some(metadata.identity.device.wrapping_add(1)))
            .err()
            .unwrap()
            .kind,
        IssueKind::MountBoundary
    );
    assert_eq!(boundary(metadata, Some(1)).ok(), Some(metadata));
}

#[test]
fn exact_defaults_measure_existing_files_without_inventorying_siblings() {
    let mut disk = Disk::new();
    disk.put(".rustup/toolchains/content/file", 7777);
    disk.put(".aws/credentials", 1_000_000);
    disk.put(".local/share/opencode/sessions/private", 1_000_000);
    disk.put("Movies/Originals/movie.mp4", 1_000_000);
    disk.put("Library/org.swift.swiftpm/security/private", 1_000_000);
    let report = disk.scan(false, relaxed());
    assert!(report.complete);
    assert_eq!(report.rows.len(), 1);
    let row = &report.rows[0];
    assert_eq!(row.id, "rust-toolchains");
    assert_eq!(row.logical_bytes, Some(7777));
    assert_eq!(row.allocated_bytes, Some(8192));
    assert_eq!(row.cleanup_authority, CleanupAuthority::ReviewOnly);
}

#[test]
fn scanner_owned_cache_and_log_routes_are_not_inventoried() {
    let mut disk = Disk::new();
    for location in [
        "Library/Caches/com.example.app",
        "Library/Caches/com.google.GoogleUpdater",
        "Library/Application Support/Google/GoogleUpdater/crx_cache",
        "Library/Application Support/Slack/Cache",
        "Library/Logs/com.example.app",
        "Library/Developer/Xcode/DerivedData/example",
        "Library/Caches/com.apple.dt.Xcode",
        ".npm/_logs",
        ".config/gcloud/logs",
        ".azure/logs",
        ".oh-my-zsh/cache",
        ".cache/opencode",
        ".cache/ghostty",
    ] {
        disk.put(&format!("{location}/preserved.log"), 1024);
    }
    let report = disk.scan(false, relaxed());
    assert!(report.complete);
    assert!(report.rows.is_empty());
    assert!(report.issues.is_empty());
    assert_eq!(report.examined_entries, 0);
}

#[test]
fn missing_and_empty_locations_do_not_create_suggestions_or_errors() {
    let mut disk = Disk::new();
    disk.folder(&format!("{HOME}/.rustup/toolchains"));
    let report = disk.scan(false, relaxed());
    assert!(report.complete);
    assert!(report.rows.is_empty());
    assert!(report.issues.is_empty());
}

#[test]
fn symlink_roots_and_ancestors_cannot_escape_the_home() {
    let mut disk = Disk::new();
    disk.link(".rustup/toolchains");
    disk.link(".local");
    let report = disk.scan(false, relaxed());
    assert!(report.rows.is_empty());
    assert!(!report.complete);
    assert!(report
        .issues
        .iter()
        .all(|issue| issue.kind == IssueKind::Symlink));
}

#[test]
fn nested_symlink_is_partial_and_never_contributes_target_bytes() {
    let mut disk = Disk::new();
    disk.put(".rustup/toolchains/local", 17);
    disk.put("unrelated/secret", 8_000_000);
    disk.link(".rustup/toolchains/link");
    let report = disk.scan(false, relaxed());
    let row = &report.rows[0];
    assert_eq!(row.state, InventoryState::Partial);
    assert_eq!(row.logical_bytes, Some(17));
    assert_eq!(row.files, 1);
    assert_eq!(report.issues[0].kind, IssueKind::Symlink);
}

#[test]
fn hardlinks_are_counted_once_and_sparse_file_allocation_is_not_logical_size() {
    let mut disk = Disk::new();
    let first = disk.put(".local/share/assistant/versions/a", 8192);
    let mut shared = disk.entries[&first];
    shared.links = 2;
    disk.entries.insert(first, shared);
    let second = disk.put(".local/share/assistant/versions/b", 8192);
    disk.entries.insert(second, shared);
    disk.add(
        "Library/Containers/com.docker.docker/Data/vms/0/data/Docker.raw",
        FILE,
        8_000_000_000,
        4096,
    );
    let report = disk.scan(false, relaxed());
    let versions = row(&report, "assistant-versions");
    assert_eq!(versions.logical_bytes, Some(8192));
    assert_eq!(versions.files, 2);
    assert_eq!(versions.title, "Assistant versions");
    assert_eq!(
        versions.detail,
        "Versioned Assistant installations may include the current and previous versions. This inventory does not identify which versions are unused."
    );
    assert_eq!(
        versions.owner_followup,
        "Review the active Assistant version and its installation before changing versioned binaries."
    );
    let docker = row(&report, "docker-disk");
    assert_eq!(docker.logical_bytes, Some(8_000_000_000));
    assert_eq!(docker.allocated_bytes, Some(4096));
    assert_eq!(docker.cleanup_authority, CleanupAuthority::ReviewOnly);
}

#[test]
fn entry_and_depth_limits_publish_only_partial_measurements() {
    let mut disk = Disk::new();
    for n in 0..20 {
        disk.put(&format!(".rustup/toolchains/{n}"), 100);
    }
    disk.put(".local/share/assistant/versions/a/b/c/d", 10_000);
    let report = disk.scan(
        false,
        Limits {
            entries_per_route: 3,
            depth: 1,
            ..relaxed()
        },
    );
    assert!(!report.complete);
    let toolchains = row(&report, "rust-toolchains");
    assert_eq!(toolchains.state, InventoryState::Partial);
    assert!(toolchains.logical_bytes.unwrap() <= 200);
    let versions = row(&report, "assistant-versions");
    assert_eq!(versions.state, InventoryState::Partial);
    assert_eq!(versions.allocated_bytes, None);
    assert!(met(&report, IssueKind::DepthLimit));
    assert!(met(&report, IssueKind::EntryLimit));
}

#[test]
fn global_entry_and_time_limits_do_not_turn_unvisited_routes_into_zeroes() {
    let mut disk = Disk::new();
    disk.put(".rustup/toolchains/one", 10);
    disk.put(".local/share/assistant/versions/one", 10);
    let entries = disk.scan(
        false,
        Limits {
            total_entries: 1,
            ..relaxed()
        },
    );
    assert!(entries.examined_entries <= 1);
    assert!(entries.rows.iter().all(|row| row.allocated_bytes.is_none()));
    assert!(met(&entries, IssueKind::EntryLimit));
    let time = disk.scan(
        false,
        Limits {
            total_ms: 0,
            ..relaxed()
        },
    );
    assert!(time.rows.is_empty());
    assert_eq!(time.examined_entries, 0);
    assert!(!time.issues.is_empty());
    assert!(time
        .issues
        .iter()
        .all(|issue| issue.kind == IssueKind::TimeLimit));
}

#[test]
fn inaccessible_root_is_unavailable_and_never_a_zero_byte_measurement() {
    let mut disk = Disk::new();
    disk.put(".rustup/toolchains/secret", 1000);
    disk.denied.insert(format!("{HOME}/.rustup/toolchains"));
    let report = disk.scan(false, relaxed());
    let row = row(&report, "rust-toolchains");
    assert_eq!(row.state, InventoryState::Unavailable);
    assert_eq!(row.allocated_bytes, None);
    assert_eq!(report.issues[0].kind, IssueKind::PermissionDenied);
}

#[test]
fn denied_descendant_keeps_other_measurement_partial() {
    let mut disk = Disk::new();
    disk.put(".rustup/toolchains/available", 11);
    disk.put(".rustup/toolchains/denied/secret", 9999);
    disk.denied.insert(format!("{HOME}/.rustup/toolchains/denied"));
    let report = disk.scan(false, relaxed());
    assert_eq!(report.rows[0].state, InventoryState::Partial);
    assert_eq!(report.rows[0].logical_bytes, Some(11));
    assert!(met(&report, IssueKind::PermissionDenied));
}

#[test]
fn issue_memory_is_bounded_even_for_many_excluded_entries() {
    let mut disk = Disk::new();
    for n in 0..100 {
        disk.link(&format!(".rustup/toolchains/{n}"));
    }
    let report = disk.scan(false, relaxed());
    assert_eq!(report.issues.len(), MAX_ISSUES);
    assert_eq!(report.omitted_issues, 100 - MAX_ISSUES as u64);
    assert_eq!(report.rows[0].allocated_bytes, None);
}

#[test]
fn a_directory_replaced_by_a_link_cannot_be_opened_from_old_metadata() {
    let mut disk = Disk::new();
    let before = disk.meta(FOLDER, 96, 0);
    assert!(validate_directory(before, &before, &None, &Ok(true)).is_ok());
    let replaced = disk.meta(LINK, 8, 0);
    assert!(validate_directory(replaced, &before, &None, &Ok(true)).is_err());
    let other = disk.meta(FOLDER, 96, 0);
    assert!(validate_directory(other, &before, &None, &Ok(true)).is_err());
    assert!(validate_directory(before, &before, &Some("iCloud".into()), &Ok(true)).is_err());
    assert!(validate_directory(before, &before, &None, &Ok(false)).is_err());
}

#[test]
fn a_renamed_intermediate_ancestor_invalidates_the_display_path() {
    let mut disk = Disk::new();
    disk.put(".rustup/toolchains/first", 100);
    let m = Moment {
        total_ms: 1,
        route_ms: 1,
    };
    let mut scan = scan_bound(&disk.root("home"), false, TOOL, relaxed(), USER);
    let mut seen = disk.locate(HOME, ".rustup/toolchains", None).ok().flatten();
    assert!(seen.is_some());
    // The location is replaced as a whole after it was measured.
    let mut moved = false;
    let mut opened: BTreeMap<u64, Vec<String>> = BTreeMap::new();
    let report = loop {
        if !moved {
            if let Phase::Verifying(visit) = &scan.phase {
                assert_eq!(text(&visit.path), format!("{HOME}/.rustup/toolchains"));
                let fresh = disk.meta(FOLDER, 96, 0);
                disk.entries
                    .insert(format!("{HOME}/.rustup/toolchains"), fresh);
                seen = Some(fresh);
                moved = true;
            }
        }
        if moved {
            break disk.run(scan, m, |_| {});
        }
        let event = match &scan.phase {
            Phase::Home => Event::Home(disk.stat(HOME)),
            Phase::Idle | Phase::Walking(_) => Event::Proceed,
            Phase::Locating(_) => Event::Located(disk.locate(
                HOME,
                &route_at(scan.turn).relative.render(TOOL),
                scan.device(),
            )),
            Phase::Entering(visit) => {
                opened.insert(1, disk.names(&text(&visit.path)));
                Event::Opened(Ok(1))
            }
            Phase::Listing(_) => {
                let list = opened.get_mut(&1).unwrap();
                Event::Next(Ok(if list.is_empty() {
                    None
                } else {
                    Some((list.remove(0).into_bytes(), false))
                }))
            }
            Phase::Looking(_, location, _) => Event::Stat(disk.stat(&text(location))),
            Phase::Settling(_, folder) => {
                Event::Settled(Some(folder.initial), Some(folder.initial))
            }
            _ => unreachable!(),
        };
        scan.step(event, m);
    };
    assert!(seen.is_some());
    assert!(met(&report, IssueKind::Changed));
    let row = row(&report, "rust-toolchains");
    assert_eq!(row.state, InventoryState::Partial);
    assert_eq!(row.allocated_bytes, None);
}

#[test]
fn launch_agents_are_shallow_plist_observations_without_stale_claims() {
    let mut disk = Disk::new();
    disk.put("Library/LaunchAgents/com.example.helper.plist", 23);
    disk.put("Library/LaunchAgents/.DS_Store", 900);
    disk.put("Library/LaunchAgents/unrelated/nested.plist", 900);
    let report = disk.scan(false, relaxed());
    assert!(report.complete);
    assert_eq!(report.rows[0].id, "login-agents");
    assert_eq!(report.rows[0].logical_bytes, Some(23));
    assert_eq!(report.rows[0].files, 1);
    assert!(!report.rows[0].title.contains("stale"));
}

#[test]
fn fixed_routes_are_unique_narrow_and_serialized_without_cleanup_authority() {
    let mut ids = HashSet::new();
    for i in 0..USER_ROUTES + SYSTEM_ROUTES {
        let route = route_at(i);
        let relative = route.relative.render(TOOL);
        assert!(ids.insert(route.id.render(TOOL)));
        assert!(split_route(relative.as_bytes()).is_ok());
        assert!(!matches!(
            relative.as_str(),
            "Library"
                | "Library/Application Support"
                | "Library/Containers"
                | "Movies"
                | ".aws"
                | ".config"
                | ".local/share"
        ));
        assert!(route
            .provider
            .is_none_or(|provider| matches!(provider, "homebrew" | "uv" | "docker")));
    }
    assert_eq!(
        route_at(0).id.render(TOOL),
        user_route_at(0).id.render(TOOL)
    );
    assert_eq!(
        route_at(USER_ROUTES).id.render(TOOL),
        system_route_at(0).id.render(TOOL)
    );
    let mut disk = Disk::new();
    for i in 0..USER_ROUTES {
        let route = user_route_at(i);
        let relative = route.relative.render(TOOL);
        if route.file_only {
            disk.put(&relative, 1);
        } else {
            disk.put(
                &format!(
                    "{}/fixture{}",
                    relative,
                    route.child_suffix.unwrap_or("")
                ),
                1,
            );
        }
    }
    let report = disk.scan(false, relaxed());
    assert!(report.complete);
    assert_eq!(report.rows.len(), USER_ROUTES);
    assert!(report
        .rows
        .iter()
        .all(|row| row.cleanup_authority == CleanupAuthority::ReviewOnly));
    assert!(report
        .rows
        .iter()
        .all(|row| text(&row.path).starts_with(HOME)));
}

#[test]
fn routes_must_be_plain_local_paths() {
    for relative in ["/absolute", "a/../b", "..", ""] {
        assert!(
            split_route(relative.as_bytes()).is_err()
                || split_route(relative.as_bytes()).ok().unwrap().is_empty(),
            "{relative}"
        );
    }
    assert_eq!(
        split_route(&vec![b'a'; 5000]).err().unwrap().kind,
        IssueKind::DepthLimit
    );
    assert_eq!(
        split_route(b".rustup/toolchains").ok().unwrap(),
        [b".rustup".to_vec(), b"toolchains".to_vec()]
    );
}

#[test]
fn system_locations_are_observed_only_on_request() {
    let disk = Disk::new();
    let mut reached = 0;
    let m = Moment {
        total_ms: 1,
        route_ms: 1,
    };
    for include_system in [false, true] {
        let scan = scan_bound(&disk.root("home"), include_system, TOOL, relaxed(), USER);
        disk.run(scan, m, |scan| reached = reached.max(scan.turn));
        assert_eq!(
            reached,
            if include_system {
                USER_ROUTES + SYSTEM_ROUTES
            } else {
                USER_ROUTES
            }
        );
    }
}

#[test]
fn an_answer_to_another_question_changes_nothing() {
    let disk = Disk::new();
    let m = Moment {
        total_ms: 1,
        route_ms: 1,
    };
    let mut scan = scan_bound(&disk.root("home"), false, TOOL, relaxed(), USER);
    scan.step(Event::Proceed, m);
    assert!(matches!(scan.phase, Phase::Home));
    assert!(scan.report.complete);
}
