use chippytea::caches::EvidenceCaches;
use chippytea::cargo::{cargo_evidence, CargoEnvironment};
use chippytea::evidence::Evidence;
use chippytea::manifest::MIN_MANIFEST_CACHE_BYTES;
use chippytea::model::{EntryMeta, Identity, Root};
use chippytea::node::{node_evidence, node_evidence_cached};
use chippytea::paths::{fs_path, FsPath};
use chippytea::policy::Rules;
use chippytea::probe::{Ask, Step};
use chippytea::sources::{EvidenceSource, SourceFact, Sources};
use std::collections::BTreeMap;

const FOLDER: u32 = 0o040755;
const FILE: u32 = 0o100644;
const OWNER: &str = "/root/project";
const MEMBER: &str = "/root/project/apps/member";

fn path(text: &str) -> FsPath {
    fs_path(text.as_bytes().to_vec())
}

fn rules() -> Rules {
    Rules {
        minimum_bytes: 100_000_000,
        quiet_days: 7,
        priority: 1,
        permanent: true,
        checks_git: true,
        checks_activity: true,
        developer_measurement: true,
    }
}

struct Disk {
    entries: BTreeMap<String, EntryMeta>,
    contents: BTreeMap<String, Vec<u8>>,
    // What reading a lockfile of npm or Bun says of the project.
    owned: bool,
    inode: u64,
}

impl Disk {
    fn put(&mut self, location: &str, mode: u32, size: u64) {
        self.inode += 1;
        self.entries.insert(
            location.to_owned(),
            EntryMeta {
                identity: Identity {
                    device: 1,
                    inode: self.inode,
                    mode,
                    size,
                    modified_ns: 5,
                    changed_ns: 5,
                },
                allocated: 0,
                links: 1,
                uid: 501,
                flags: 0,
            },
        );
    }

    fn folder(&mut self, location: &str) {
        self.put(location, FOLDER, 96);
    }

    fn write(&mut self, location: &str, contents: &[u8]) {
        self.put(location, FILE, contents.len() as u64);
        self.contents.insert(location.to_owned(), contents.to_vec());
    }

    fn workspace() -> Disk {
        let mut disk = Disk {
            entries: BTreeMap::new(),
            contents: BTreeMap::new(),
            owned: true,
            inode: 0,
        };
        for folder in [
            "/root",
            OWNER,
            "/root/project/node_modules",
            "/root/project/apps",
            MEMBER,
            "/root/project/apps/member/node_modules",
        ] {
            disk.folder(folder);
        }
        disk.write(
            "/root/project/package.json",
            br#"{"name":"fixture","workspaces":["apps/*"]}"#,
        );
        disk.write(
            "/root/project/apps/member/package.json",
            br#"{"name":"member","dependencies":{"example":"1"}}"#,
        );
        disk
    }

    fn root(&self, location: &str) -> Root {
        Root {
            id: "root".into(),
            path: path(location),
            kind: "projects".into(),
            identity: self.entries[location].identity,
        }
    }

    fn answer(&self, seen: &mut Sources, asked: &FsPath, ask: Ask) {
        let location = String::from_utf8(asked.to_vec()).unwrap();
        let at = match seen.facts.iter().position(|fact| &fact.path == asked) {
            Some(at) => at,
            None => {
                seen.facts.push(SourceFact {
                    path: asked.clone(),
                    present: None,
                    regular: None,
                    content: None,
                    owns: None,
                });
                seen.facts.len() - 1
            }
        };
        let fact = &mut seen.facts[at];
        match ask {
            Ask::Presence => fact.present = Some(Ok(self.entries.contains_key(&location))),
            Ask::Kind => {
                fact.regular = Some(Ok(self
                    .entries
                    .get(&location)
                    .is_some_and(EntryMeta::is_file)))
            }
            Ask::Content => {
                fact.content = Some(match self.contents.get(&location) {
                    Some(bytes) => Ok(EvidenceSource {
                        bytes: fs_path(bytes.clone()),
                        identity: self.entries[&location].identity,
                    }),
                    None => Err("not a regular file".into()),
                })
            }
            Ask::Ownership => fact.owns = Some(Ok(self.owned)),
            _ => unreachable!(),
        }
    }

    fn node_in(&self, root: &str, project: &str) -> Result<Option<Evidence>, String> {
        let root = self.root(root);
        let mut seen = Sources { facts: Vec::new() };
        loop {
            match node_evidence(&root, &path(project), &seen, rules(), false) {
                Step::Need(asked, ask) => self.answer(&mut seen, &asked, ask),
                Step::Fail(reason) => return Err(reason),
                Step::Have(found) => return Ok(found),
            }
        }
    }

    fn node(&self, project: &str) -> Result<Option<Evidence>, String> {
        self.node_in("/root", project)
    }

    fn cached(
        &self,
        project: &str,
        caches: &mut EvidenceCaches,
    ) -> Result<Option<Evidence>, String> {
        let root = self.root("/root");
        let mut seen = Sources { facts: Vec::new() };
        loop {
            match node_evidence_cached(&root, &path(project), &seen, caches, rules(), false) {
                Step::Need(asked, ask) => self.answer(&mut seen, &asked, ask),
                Step::Fail(reason) => return Err(reason),
                Step::Have(found) => return Ok(found),
            }
        }
    }

    fn cargo(&self, project: &str) -> Result<Option<Evidence>, String> {
        let root = self.root("/root");
        let environment = CargoEnvironment {
            custom_output: false,
            home: None,
        };
        let artifact = path(&format!("{project}/target"));
        let mut seen = Sources { facts: Vec::new() };
        loop {
            match cargo_evidence(
                &root,
                &path(project),
                &artifact,
                &environment,
                &seen,
                rules(),
                false,
            ) {
                Step::Need(asked, ask) => self.answer(&mut seen, &asked, ask),
                Step::Fail(reason) => return Err(reason),
                Step::Have(found) => return Ok(found),
            }
        }
    }
}

fn cacheable(source: &[u8]) -> Vec<u8> {
    let mut bytes = source.to_vec();
    bytes.resize(bytes.len().max(MIN_MANIFEST_CACHE_BYTES), b' ');
    bytes
}

fn fingerprint(found: Result<Option<Evidence>, String>) -> Result<Option<String>, String> {
    found.map(|found| found.map(|evidence| evidence.fingerprint))
}

#[test]
fn nested_cargo_workspace_owns_its_default_output() {
    let mut disk = Disk::workspace();
    disk.folder("/root/project/target");
    disk.write(
        "/root/project/target/CACHEDIR.TAG",
        b"Signature: 8a477f597d28d172789f06886806bc55\n",
    );
    disk.write("/root/Cargo.toml", b"[workspace]\nmembers = ['other']\n");
    let nested: &[u8] = b"[package]\nname = 'fixture'\nversion = '0.1.0'\n[workspace]\n";
    disk.write("/root/project/Cargo.toml", nested);
    let first = disk.cargo(OWNER).unwrap().unwrap();
    assert!(first.blocked.is_none());
    disk.write("/root/Cargo.toml", b"[workspace]\nmembers = ['different']\n");
    let changed_outer = disk.cargo(OWNER).unwrap().unwrap();
    assert_eq!(changed_outer.fingerprint, first.fingerprint);
    assert_eq!(changed_outer.latest_modified_ns, first.latest_modified_ns);
    disk.write(
        "/root/project/Cargo.toml",
        b"[package]\nname = 'fixture'\nversion = '0.1.0'\n",
    );
    assert!(disk
        .cargo(OWNER)
        .unwrap()
        .unwrap()
        .blocked
        .unwrap()
        .contains("ancestor workspace"));
    disk.write("/root/project/Cargo.toml", nested);
    disk.folder("/root/.cargo");
    disk.write(
        "/root/.cargo/config.toml",
        b"[build]\ntarget-dir = 'shared'\n",
    );
    assert!(disk
        .cargo(OWNER)
        .unwrap()
        .unwrap()
        .blocked
        .unwrap()
        .contains("nonstandard"));
}

#[test]
fn bun_binary_evidence_rejects_truncation_and_oversized_files() {
    let mut disk = Disk::workspace();
    let mut bytes = b"#!/usr/bin/env bun\nbun-lockfile-format-v0\n".to_vec();
    let offset = bytes.len();
    bytes.extend_from_slice(&2u32.to_le_bytes());
    bytes.extend_from_slice(&[7u8; 32]);
    bytes.extend_from_slice(&((offset + 68) as u64).to_le_bytes());
    bytes.extend_from_slice(&[0u8; 24]);
    disk.write("/root/project/bun.lockb", &bytes);
    assert!(disk.node(OWNER).unwrap().unwrap().blocked.is_none());
    // A binary lock never speaks for a member.
    assert!(disk.node(MEMBER).is_err());
    bytes.truncate(offset + 43);
    disk.write("/root/project/bun.lockb", &bytes);
    assert!(disk.node(OWNER).is_err());
}

#[test]
fn pnpm_component_globs_require_exact_importers_and_fresh_membership() {
    let mut disk = Disk::workspace();
    disk.write("/root/project/package.json", br#"{"name":"fixture"}"#);
    let workspace = "/root/project/pnpm-workspace.yaml";
    let patterns: &[u8] = b"packages:\n  - 'apps/*'\n  - 'crates/plugin-*'\n";
    disk.write(workspace, patterns);
    let plugin = "/root/project/crates/plugin-example";
    disk.folder("/root/project/crates");
    disk.folder(plugin);
    disk.folder("/root/project/crates/plugin-example/node_modules");
    disk.write(
        "/root/project/crates/plugin-example/package.json",
        br#"{"name":"plugin-example"}"#,
    );
    let lock = "/root/project/pnpm-lock.yaml";
    disk.write(lock, b"lockfileVersion: '9.0'\nimporters:\n  .: {}\n  apps/member: {}\n  crates/plugin-example: {}\npackages: {}\n");
    for project in [MEMBER, plugin] {
        let found = disk.node(project).unwrap().unwrap();
        assert!(found.blocked.is_none());
        assert_eq!(found.activity_root, Some(path(OWNER)));
    }
    let first = disk.node(MEMBER).unwrap().unwrap();
    disk.write(
        workspace,
        b"packages:\n  - 'apps/m*'\n  - 'crates/*-example'\n",
    );
    let changed = disk.node(MEMBER).unwrap().unwrap();
    assert_ne!(first.fingerprint, changed.fingerprint);
    disk.write(
        workspace,
        b"packages:\n  - 'apps/*'\n  - 'crates/plugin-*'\n  - '!apps/m*'\n",
    );
    assert!(disk.node(MEMBER).is_err());
    disk.write(workspace, patterns);
    disk.write(
        lock,
        b"lockfileVersion: '9.0'\nimporters:\n  .: {}\n  apps/other: {}\n  crates/plugin-other: {}\npackages: {}\n",
    );
    for project in [MEMBER, plugin] {
        let reason = disk.node(project).err().unwrap();
        assert!(reason.contains("No supported lockfile"), "{reason}");
    }
}

#[test]
fn pnpm_root_only_pattern_never_borrows_ownership_for_nested_projects() {
    let mut disk = Disk::workspace();
    disk.write("/root/project/package.json", br#"{"name":"fixture"}"#);
    disk.write(
        "/root/project/pnpm-workspace.yaml",
        b"packages:\n  - '.'\n",
    );
    // Even a stale member importer cannot override root-only membership.
    disk.write(
        "/root/project/pnpm-lock.yaml",
        b"lockfileVersion: '9.0'\nimporters:\n  .: {}\n  apps/member: {}\npackages: {}\n",
    );
    let found = disk.node(OWNER).unwrap().unwrap();
    assert!(found.blocked.is_none());
    assert_eq!(found.activity_root, Some(path(OWNER)));
    let reason = disk.node(MEMBER).err().unwrap();
    assert!(reason.contains("No supported lockfile"), "{reason}");
}

#[test]
fn shared_lock_cache_keeps_live_identity_membership_and_configuration_checks() {
    let mut disk = Disk::workspace();
    let manifest = "/root/project/package.json";
    let saved = cacheable(&disk.contents[manifest].clone());
    disk.write(manifest, &saved);
    let workspace = "/root/project/pnpm-workspace.yaml";
    disk.write(workspace, b"packages:\n  - 'apps/*'\n");
    let lock = "/root/project/pnpm-lock.yaml";
    let mut bytes =
        b"lockfileVersion: 9.0\nimporters:\n  .: {}\n  apps/member: {}\npackages:\n".to_vec();
    bytes.resize(32 * 1024, b' ');
    disk.write(lock, &bytes);
    let mut caches = EvidenceCaches::new();
    let first = disk.cached(MEMBER, &mut caches).unwrap().unwrap();
    assert_eq!(caches.manifest_workspaces.entries.len(), 1);
    assert_eq!(caches.pnpm_locks.entries.len(), 1);
    for project in [OWNER, MEMBER] {
        let cached = disk.cached(project, &mut caches).unwrap().unwrap();
        let fresh = disk.node(project).unwrap().unwrap();
        assert_eq!(cached.fingerprint, fresh.fingerprint);
        assert_eq!(cached.latest_modified_ns, fresh.latest_modified_ns);
        assert_eq!(cached.activity_root, fresh.activity_root);
        assert_eq!(cached.blocked, fresh.blocked);
    }
    let mut changed =
        b"lockfileVersion: 9.0\nimporters:\n  .: {}\n  apps/absent: {}\npackages:\n".to_vec();
    changed.resize(bytes.len(), b' ');
    disk.write(lock, &changed);
    assert!(disk.cached(MEMBER, &mut caches).is_err());
    assert_eq!(
        fingerprint(disk.cached(OWNER, &mut caches)),
        fingerprint(disk.node(OWNER))
    );
    disk.write(lock, &bytes);
    disk.write(workspace, b"packages:\n  - 'apps/*'\n  - '!apps/member'\n");
    assert!(disk.cached(MEMBER, &mut caches).is_err());
    disk.write(workspace, b"packages:\n  - 'apps/*'\n");
    disk.write(
        "/root/project/.yarnrc.yml",
        b"nodeLinker: node-modules\n",
    );
    let configured = disk.cached(MEMBER, &mut caches).unwrap().unwrap();
    assert!(configured.blocked.is_some());
    assert_ne!(configured.fingerprint, first.fingerprint);
    assert_eq!(
        fingerprint(Ok(Some(configured))),
        fingerprint(disk.node(MEMBER))
    );
}

#[test]
fn manifest_workspace_cache_is_ancestor_only_and_preserves_bun_names() {
    let mut disk = Disk::workspace();
    let manifest = "/root/project/package.json";
    let saved = cacheable(&disk.contents[manifest].clone());
    disk.write(manifest, &saved);
    disk.write("/root/project/bun.lock", b"{}");
    let mut caches = EvidenceCaches::new();
    disk.cached(MEMBER, &mut caches).unwrap();
    assert_eq!(caches.manifest_workspaces.entries.len(), 1);
    for source in [
        br#"{"name":"member","workspaces":null}"#.as_slice(),
        br#"{"name":null,"dependencies":{},"workspaces":null}"#.as_slice(),
        br#"{"dependencies":{},"workspaces":{"packages":false}}"#.as_slice(),
    ] {
        disk.write("/root/project/apps/member/package.json", source);
        let cached = disk.cached(MEMBER, &mut caches);
        assert!(cached.is_ok());
        assert_eq!(fingerprint(cached), fingerprint(disk.node(MEMBER)));
        assert_eq!(caches.manifest_workspaces.entries.len(), 1);
    }
    disk.write(
        manifest,
        &cacheable(br#"{"name":"fixture","workspaces":false}"#),
    );
    assert_eq!(
        disk.cached(MEMBER, &mut caches).err(),
        Some("Workspace membership is not a supported list".into())
    );
    // The same manifest is valid locally: its workspace shape is unused.
    let cached = disk.cached(OWNER, &mut caches).unwrap().unwrap();
    let fresh = disk.node(OWNER).unwrap().unwrap();
    assert_eq!(cached.fingerprint, fresh.fingerprint);
    assert_eq!(cached.blocked, fresh.blocked);
    assert_eq!(caches.manifest_workspaces.entries.len(), 1);
}

#[test]
fn ancestor_bun_lock_requires_declared_exact_member_and_authorization() {
    let mut disk = Disk::workspace();
    disk.write("/root/project/bun.lock", b"{}");
    let first = disk.node(MEMBER).unwrap().unwrap();
    assert_eq!(first.activity_root, Some(path(OWNER)));
    assert!(
        disk.node_in(MEMBER, MEMBER).is_err(),
        "Outside authorization is never borrowed"
    );
    disk.write(
        "/root/project/package.json",
        br#"{"name":"fixture","workspaces":["apps/*","!apps/member"]}"#,
    );
    assert!(disk.node(MEMBER).is_err());
    disk.write(
        "/root/project/package.json",
        br#"{"name":"fixture","workspaces":["apps/*"]}"#,
    );
    disk.owned = false;
    assert!(
        disk.node(MEMBER).is_err(),
        "A glob alone cannot invent a lockfile importer"
    );
    disk.owned = true;
    disk.folder("/root/project/apps/member/.git");
    assert!(
        disk.node(MEMBER).is_err(),
        "Nested repositories are separate ownership boundaries"
    );
}

#[test]
fn a_cancelled_look_at_ownership_decides_nothing() {
    let disk = Disk::workspace();
    let seen = Sources { facts: Vec::new() };
    let step = node_evidence(&disk.root("/root"), &path(OWNER), &seen, rules(), true);
    assert!(matches!(step, Step::Fail(reason) if reason == "Cancelled"));
}

#[test]
fn a_folder_without_a_manifest_has_no_verified_owner() {
    let mut disk = Disk::workspace();
    disk.entries.remove("/root/project/package.json");
    assert_eq!(
        disk.node(OWNER).err(),
        Some(
            "The dependency directory has no project manifest; ownership is unverified".to_owned()
        )
    );
}

const LINK: u32 = 0o120777;

impl Disk {
    // A link in the place of a file; links are never read.
    fn link(&mut self, location: &str) {
        self.put(location, LINK, 8);
        self.contents.remove(location);
    }

    // What the lockfile says of the project right now: the workspace's own folder
    // is always named, a member by its path and, for Bun, by its name too.
    fn names(&self, lock: &str, project: &str) -> bool {
        if project == OWNER {
            return true;
        }
        let text = match self.contents.get(lock) {
            Some(bytes) => String::from_utf8(bytes.clone()).unwrap(),
            None => return false,
        };
        if !lock.ends_with("bun.lock") {
            return text.contains("\"apps/member\":{");
        }
        let manifest = &self.contents["/root/project/apps/member/package.json"];
        let manifest = String::from_utf8(manifest.clone()).unwrap();
        let name = manifest.split('"').nth(3).unwrap();
        text.contains(&format!("\"apps/member\":{{\"name\":\"{name}\"}}"))
    }
}

fn shared_lockfile(name: &str, original: &[u8], replacement: &[u8]) {
    let mut disk = Disk::workspace();
    let manifest = "/root/project/package.json";
    let lock = format!("/root/project/{name}");
    let saved = cacheable(&disk.contents[manifest].clone());
    disk.write(manifest, &saved);
    let mut bytes = original.to_vec();
    bytes.resize(32 * 1024, b' ');
    disk.write(&lock, &bytes);
    let mut caches = EvidenceCaches::new();
    let cached = |disk: &mut Disk, project: &str, caches: &mut EvidenceCaches| {
        disk.owned = disk.names(&lock, project);
        disk.cached(project, caches)
    };
    let fresh = |disk: &mut Disk, project: &str| {
        disk.owned = disk.names(&lock, project);
        disk.node(project)
    };
    let first = cached(&mut disk, MEMBER, &mut caches).unwrap().unwrap();
    assert_eq!(caches.manifest_workspaces.entries.len(), 1);
    for project in [OWNER, MEMBER] {
        let kept = cached(&mut disk, project, &mut caches).unwrap().unwrap();
        let anew = fresh(&mut disk, project).unwrap().unwrap();
        assert_eq!(kept.fingerprint, anew.fingerprint);
        assert_eq!(kept.latest_modified_ns, anew.latest_modified_ns);
        assert_eq!(kept.activity_root, anew.activity_root);
        assert_eq!(kept.blocked, anew.blocked);
    }
    if name == "bun.lock" {
        let member = "/root/project/apps/member/package.json";
        let source = disk.contents[member].clone();
        disk.write(member, br#"{"name":"renamed"}"#);
        assert!(cached(&mut disk, MEMBER, &mut caches).is_err());
        disk.write(member, &source);
        assert!(cached(&mut disk, MEMBER, &mut caches).is_ok());
    }
    let mut changed = replacement.to_vec();
    changed.resize(bytes.len(), b' ');
    disk.write(&lock, &changed);
    assert!(cached(&mut disk, MEMBER, &mut caches).is_err());
    assert_eq!(
        fingerprint(cached(&mut disk, OWNER, &mut caches)),
        fingerprint(fresh(&mut disk, OWNER))
    );
    disk.write(&lock, &bytes);
    // The current workspace declaration decides, not one that was met before.
    let other = cacheable(br#"{"name":"fixture","workspaces":["other/*"]}"#);
    assert_eq!(other.len(), saved.len());
    disk.write(manifest, &other);
    assert!(cached(&mut disk, MEMBER, &mut caches).is_err());
    disk.write(manifest, &saved);
    // Patterns that are known cannot stand in for a manifest that became a link.
    disk.link(manifest);
    assert!(cached(&mut disk, MEMBER, &mut caches).is_err());
    disk.write(manifest, &saved);
    disk.write(
        "/root/project/.yarnrc.yml",
        b"nodeLinker: node-modules\n",
    );
    let configured = cached(&mut disk, MEMBER, &mut caches).unwrap().unwrap();
    assert!(configured.blocked.is_some());
    assert_ne!(configured.fingerprint, first.fingerprint);
    assert_eq!(
        fingerprint(Ok(Some(configured))),
        fingerprint(fresh(&mut disk, MEMBER))
    );
    // Nor can content that is known stand in for a lockfile that became a link.
    disk.link(&lock);
    assert!(cached(&mut disk, MEMBER, &mut caches).is_err());
}

#[test]
fn shared_npm_lockfiles_are_checked_live_with_warm_caches() {
    shared_lockfile(
        "package-lock.json",
        br#"{"lockfileVersion":3,"packages":{"apps/member":{}}}"#,
        br#"{"lockfileVersion":3,"packages":{"apps/absent":{}}}"#,
    );
}

#[test]
fn shared_bun_lockfiles_are_checked_live_with_warm_caches() {
    shared_lockfile(
        "bun.lock",
        br#"{"lockfileVersion":1,"packages":{},"workspaces":{"":{"name":"fixture"},"apps/member":{"name":"member"}}}"#,
        br#"{"lockfileVersion":1,"packages":{},"workspaces":{"":{"name":"fixture"},"apps/absent":{"name":"member"}}}"#,
    );
}

#[test]
fn links_in_the_place_of_pnpm_evidence_are_refused_with_warm_caches() {
    let mut disk = Disk::workspace();
    let manifest = "/root/project/package.json";
    let saved = cacheable(&disk.contents[manifest].clone());
    disk.write(manifest, &saved);
    disk.write(
        "/root/project/pnpm-workspace.yaml",
        b"packages:\n  - 'apps/*'\n",
    );
    let lock = "/root/project/pnpm-lock.yaml";
    let mut bytes =
        b"lockfileVersion: 9.0\nimporters:\n  .: {}\n  apps/member: {}\npackages:\n".to_vec();
    bytes.resize(32 * 1024, b' ');
    disk.write(lock, &bytes);
    let mut caches = EvidenceCaches::new();
    assert!(disk.cached(MEMBER, &mut caches).unwrap().is_some());
    assert_eq!(caches.pnpm_locks.entries.len(), 1);
    disk.link(manifest);
    assert!(disk.cached(MEMBER, &mut caches).is_err());
    disk.write(manifest, &saved);
    assert!(disk.cached(MEMBER, &mut caches).is_ok());
    disk.link(lock);
    assert!(disk.cached(MEMBER, &mut caches).is_err());
}
