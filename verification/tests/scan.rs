use chippytea::activity::ActivitySnapshot;
use chippytea::caches::EvidenceCaches;
use chippytea::cargo::{cargo_evidence, parse_toml, CargoEnvironment};
use chippytea::classify::{
    artifact_component, evidence_with_downloads, evidence_with_downloads_cached, is_artifact_name,
    is_conditional_artifact_name, Placing, ProviderFound, Surroundings,
};
use chippytea::evidence::{
    suggestion_reason, Evidence, Measurement, DAY_NS, DEVELOPER_QUIET_DAYS,
};
use chippytea::adapters::venv_evidence;
use chippytea::node::{node_evidence, node_evidence_cached};
use chippytea::model::{Candidate, Entry, EntryMeta, Identity, Root, ScanBatch, ScanStats};
use chippytea::paths::{fs_path, FsPath};
use chippytea::policy::{KindRule, Policy, Rules};
use chippytea::probe::{Ask, Step};
use chippytea::scanner::lockfile::{
    lock_target, origin_batch, scan_cargo_lock_with_checkpoint_mode, LockStep,
};
use chippytea::scanner::press::{Notice, MAX_BATCH};
use chippytea::scanner::review::{
    holding_folder, is_recent_local_file, owning_project, recent_file_modified, share_is_spent,
    verify_deferred_artifact,
};
use chippytea::scanner::start::{
    begin_scan, Begin, FolderFacts, LaneAsk, LaneFact, Reader, ScanStart, Setting,
};
use chippytea::scanner::state::{
    Effort, EntryFacts, Event, Listed, Listing, Phase, Tick, MAX_DEFERRED_ARTIFACTS,
};
use chippytea::scanner::validate::{
    nearer_folders, nearer_repository, Observations, Repository, Verdict, Want,
};
use chippytea::scanner::{
    revalidate, scan, scan_with_checkpoint, scan_with_checkpoint_mode, scan_with_exclusions,
    ScanMode, ScanSession,
};
use chippytea::sightings::{make_candidate, tally, Hardlinks};
use chippytea::sources::{EvidenceSource, SourceFact, Sources};
use std::collections::BTreeMap;

const USER: u32 = 501;
const FOLDER: u32 = 0o040755;
const FILE: u32 = 0o100644;
const LINK: u32 = 0o120777;
const NOW: i64 = 1_000 * DAY_NS;
const LARGE: u64 = 100_000_000;

fn path(text: &str) -> FsPath {
    fs_path(text.as_bytes().to_vec())
}

fn text(path: &FsPath) -> String {
    String::from_utf8(path.to_vec()).unwrap()
}

fn rules(minimum_bytes: u64, quiet_days: i64, place: u64) -> Rules {
    let developer = place < 4;
    Rules {
        minimum_bytes,
        quiet_days,
        priority: place,
        permanent: developer,
        checks_git: developer,
        checks_activity: developer,
        developer_measurement: developer,
    }
}

fn policy() -> Policy {
    let kinds: [(&str, u64, i64); 12] = [
        ("webcache", LARGE, 7),
        ("cargo", LARGE, 7),
        ("venv", LARGE, 7),
        ("node", LARGE, 7),
        ("log", 10_000_000, 30),
        ("crashreport", 1_000_000, 30),
        ("cache", LARGE, 30),
        ("xcode", LARGE, 30),
        ("installer", LARGE, 14),
        ("download", LARGE, 30),
        ("archive", 50_000_000, 30),
        ("largefile", 500_000_000, 30),
    ];
    Policy {
        rules: kinds
            .iter()
            .enumerate()
            .map(|(place, (kind, minimum, days))| KindRule {
                kind: (*kind).into(),
                rules: rules(*minimum, *days, place as u64),
            })
            .collect(),
        rule_version: 5,
    }
}

// A disk that holds only what a test puts there, and what was asked of it.
struct World {
    entries: BTreeMap<String, EntryMeta>,
    contents: BTreeMap<String, Vec<u8>>,
    read: Vec<String>,
    used: Option<String>,
    in_git: Option<String>,
    hint: Option<String>,
    downloads: Option<String>,
    evidence_changes: bool,
    inode: u64,
    base: String,
    kind: String,
    // Folders that cannot be opened any more.
    gone: Vec<String>,
    // Entries that are passed over for their name or place.
    excluded: Vec<String>,
    ownership: Result<bool, String>,
    // The recently changed files that were learned, by artifact.
    learning: bool,
    learned: BTreeMap<String, String>,
    // What was measured, entry by entry.
    measured: Vec<String>,
    // How often a session came to rest, and when it is cancelled.
    calls: usize,
    cancel_at: Option<usize>,
    // How many entries are measured before other work has its turn.
    quantum: usize,
}

impl World {
    fn new() -> World {
        let mut world = World {
            entries: BTreeMap::new(),
            contents: BTreeMap::new(),
            read: Vec::new(),
            used: None,
            in_git: None,
            hint: None,
            downloads: None,
            evidence_changes: false,
            inode: 1,
            base: "/root".to_owned(),
            kind: "projects".to_owned(),
            gone: Vec::new(),
            excluded: Vec::new(),
            ownership: Ok(true),
            learning: false,
            learned: BTreeMap::new(),
            measured: Vec::new(),
            calls: 0,
            cancel_at: None,
            quantum: 256,
        };
        world.folder("/root", 0);
        world
    }

    // A project whose dependencies were changed so many days ago.
    fn fixture(days: i64, bytes: u64) -> World {
        let mut world = World::new();
        world.project("/root/project", days, bytes);
        world
    }

    fn project(&mut self, location: &str, days: i64, bytes: u64) {
        self.folder(location, days);
        self.file(
            &format!("{location}/package.json"),
            br#"{"name":"fixture","dependencies":{"x":"1"}}"#,
            days,
        );
        self.file(
            &format!("{location}/package-lock.json"),
            br#"{"lockfileVersion":3,"packages":{}}"#,
            days,
        );
        self.folder(&format!("{location}/node_modules"), days);
        self.sized(&format!("{location}/node_modules/payload"), bytes, days);
    }

    // A folder that is named like a Python environment, without its marker.
    fn environment() -> World {
        let mut world = World::new();
        world.folder("/root/api", 8);
        world.folder("/root/api/.venv", 8);
        world.folder("/root/api/.venv/lib", 8);
        world.sized("/root/api/.venv/lib/payload", 4096, 8);
        world
    }

    fn put(&mut self, location: &str, mode: u32, size: u64, days: i64) {
        self.inode += 1;
        let modified_ns = NOW - days * DAY_NS;
        self.entries.insert(
            location.to_owned(),
            EntryMeta {
                identity: Identity {
                    device: 1,
                    inode: self.inode,
                    mode,
                    size,
                    modified_ns,
                    changed_ns: modified_ns,
                },
                allocated: if mode == FILE { size } else { 0 },
                links: 1,
                uid: USER,
                flags: 0,
            },
        );
    }

    fn folder(&mut self, location: &str, days: i64) {
        self.put(location, FOLDER, 96, days);
    }

    fn file(&mut self, location: &str, contents: &[u8], days: i64) {
        self.put(location, FILE, contents.len() as u64, days);
        self.contents.insert(location.to_owned(), contents.to_vec());
    }

    fn sized(&mut self, location: &str, bytes: u64, days: i64) {
        self.put(location, FILE, bytes, days);
    }

    // A file that holds nothing of its size.
    fn sparse(&mut self, location: &str, bytes: u64, days: i64) {
        self.put(location, FILE, bytes, days);
        if let Some(meta) = self.entries.get_mut(location) {
            meta.allocated = 0;
        }
    }

    // Entries, files, folders and bytes at and below a place.
    fn totals(&self, location: &str) -> (u64, u64, u64, u64) {
        let mut all = self.below(location);
        all.push(location.to_owned());
        let mut out = (0, 0, 0, 0);
        for key in all {
            let meta = self.entries[&key];
            out.0 += 1;
            if meta.is_file() {
                out.1 += 1;
                out.3 += meta.identity.size;
            } else if meta.is_dir() {
                out.2 += 1;
            }
        }
        out
    }

    fn root(&self) -> Root {
        Root {
            id: "root".into(),
            path: path(&self.base),
            kind: self.kind.clone(),
            identity: self.entries[&self.base].identity,
        }
    }

    fn setting(&self) -> Setting {
        Setting {
            downloads: self.downloads.as_deref().map(path),
            max_depth: 64,
            link_limit: 1_000,
            hints: self.learning || self.hint.is_some(),
            user: USER,
            routes: vec!["Library/Caches".to_owned(), "Library/Logs".to_owned()],
            corridor: false,
            admitted: Ok(()),
            valid: Ok(()),
            normalized: Ok(path(&self.base)),
        }
    }

    fn facts(&self, location: &str) -> EntryFacts {
        let home = self.kind == "home";
        let library = home && location.starts_with("/root/Library");
        EntryFacts {
            media: home
                && ["/root/Music", "/root/Pictures", "/root/Movies"]
                    .iter()
                    .any(|media| location == *media || location.starts_with(&format!("{media}/"))),
            excluded: self.excluded.iter().any(|name| name == location),
            library,
            route_allowed: library
                && (location.starts_with("/root/Library/Caches")
                    || location.starts_with("/root/Library/Logs")),
            provider: false,
        }
    }

    fn around(&self) -> Surroundings {
        Surroundings {
            downloads: self.downloads.as_deref().map(path),
            environment: CargoEnvironment {
                custom_output: false,
                home: None,
            },
            policy: policy(),
        }
    }

    fn placing(&self, location: &str) -> Placing {
        let home = self.kind == "home";
        let unit = |area: &str| {
            home && location
                .strip_prefix(area)
                .is_some_and(|rest| !rest.contains('/'))
        };
        Placing {
            library_kind: if unit("/root/Library/Caches/") {
                Some("cache".to_owned())
            } else if unit("/root/Library/Logs/") {
                Some("log".to_owned())
            } else {
                None
            },
            library_area: home && location.starts_with("/root/Library"),
            provider: false,
            provided: None,
            installer: location.ends_with(".dmg"),
            archive: location.ends_with(".zip"),
            personal: location.contains("/Movies/")
                || location.contains("/Documents/")
                || location.ends_with(".MOV"),
        }
    }

    fn children(&self, location: &str) -> Vec<String> {
        let base = format!("{location}/");
        self.entries
            .keys()
            .filter(|key| key.strip_prefix(&base).is_some_and(|rest| !rest.contains('/')))
            .cloned()
            .collect()
    }

    fn below(&self, location: &str) -> Vec<String> {
        let base = format!("{location}/");
        self.entries
            .keys()
            .filter(|key| key.starts_with(&base))
            .cloned()
            .collect()
    }

    fn answer(&self, seen: &mut Sources, asked: &FsPath, ask: Ask) {
        let location = text(asked);
        let at = match seen.facts.iter().position(|fact| &fact.path == asked) {
            Some(at) => at,
            None => {
                seen.facts.push(SourceFact {
                    path: asked.clone(),
                    present: None,
                    regular: None,
                    content: None,
                    owns: None,
                });
                seen.facts.len() - 1
            }
        };
        let fact = &mut seen.facts[at];
        match ask {
            Ask::Presence => fact.present = Some(Ok(self.entries.contains_key(&location))),
            Ask::Kind => {
                fact.regular = Some(Ok(self
                    .entries
                    .get(&location)
                    .is_some_and(EntryMeta::is_file)))
            }
            Ask::Content => {
                fact.content = Some(match self.contents.get(&location) {
                    Some(bytes) => Ok(EvidenceSource {
                        bytes: fs_path(bytes.clone()),
                        identity: self.entries[&location].identity,
                    }),
                    None => Err("missing".into()),
                })
            }
            Ask::Ownership => fact.owns = Some(self.ownership.clone()),
            _ => unreachable!(),
        }
    }

    fn evidence(
        &self,
        location: &str,
        caches: &mut EvidenceCaches,
    ) -> Result<Option<Evidence>, String> {
        let root = self.root();
        let meta = self.entries[location];
        let mut seen = Sources { facts: Vec::new() };
        loop {
            let step = evidence_with_downloads_cached(
                &root,
                &path(location),
                &meta,
                &self.placing(location),
                &self.around(),
                &seen,
                caches,
                false,
            );
            match step {
                Step::Need(asked, ask) => self.answer(&mut seen, &asked, ask),
                Step::Fail(reason) => return Err(reason),
                Step::Have(found) => return Ok(found),
            }
        }
    }

    fn node(&self, project: &str) -> Result<Option<Evidence>, String> {
        let root = self.root();
        let mut seen = Sources { facts: Vec::new() };
        loop {
            let step = node_evidence(&root, &path(project), &seen, rules(LARGE, 7, 3), false);
            match step {
                Step::Need(asked, ask) => self.answer(&mut seen, &asked, ask),
                Step::Fail(reason) => return Err(reason),
                Step::Have(found) => return Ok(found),
            }
        }
    }

    fn node_cached(
        &self,
        project: &str,
        caches: &mut EvidenceCaches,
    ) -> Result<Option<Evidence>, String> {
        let root = self.root();
        let mut seen = Sources { facts: Vec::new() };
        loop {
            let rules = rules(LARGE, 7, 3);
            match node_evidence_cached(&root, &path(project), &seen, caches, rules, false) {
                Step::Need(asked, ask) => {
                    self.answer(&mut seen, &asked, ask);
                    if ask == Ask::Content {
                        let meta = self.entries[&text(&asked)];
                        let kept = caches.contents.lookup(&asked, &Ok(meta), true).unwrap();
                        for fact in &mut seen.facts {
                            if fact.path == asked {
                                fact.content = Some(Ok(kept.copy()));
                            }
                        }
                    }
                }
                Step::Fail(reason) => return Err(reason),
                Step::Have(found) => return Ok(found),
            }
        }
    }

    // Reads what a project's evidence consists of, unless it is kept already.
    fn fill(&self, caches: &mut EvidenceCaches, project: &str) -> usize {
        let mut reads = 0;
        for name in ["package.json", "package-lock.json"] {
            let location = path(&format!("{project}/{name}"));
            let meta = self.entries[&text(&location)];
            if caches.contents.lookup(&location, &Ok(meta), true).is_none() {
                reads += 1;
                let source = EvidenceSource {
                    bytes: fs_path(self.contents[&text(&location)].clone()),
                    identity: meta.identity,
                };
                caches.contents.remember(&location, &Ok(meta), true, &source);
            }
        }
        reads
    }

    fn venv(&self, project: &str, artifact: &str) -> Result<Option<Evidence>, String> {
        let mut seen = Sources { facts: Vec::new() };
        loop {
            match venv_evidence(
                &path(project),
                &path(artifact),
                &seen,
                rules(LARGE, 7, 2),
                5,
                false,
            ) {
                Step::Need(asked, ask) => self.answer(&mut seen, &asked, ask),
                Step::Fail(reason) => return Err(reason),
                Step::Have(found) => return Ok(found),
            }
        }
    }

    fn cargo(&self, project: &str, artifact: &str) -> Result<Option<Evidence>, String> {
        let mut seen = Sources { facts: Vec::new() };
        loop {
            match cargo_evidence(
                &self.root(),
                &path(project),
                &path(artifact),
                &self.around().environment,
                &seen,
                rules(LARGE, 7, 1),
                false,
            ) {
                Step::Need(asked, ask) => self.answer(&mut seen, &asked, ask),
                Step::Fail(reason) => return Err(reason),
                Step::Have(found) => return Ok(found),
            }
        }
    }

    fn measurement(&self, location: &str) -> Measurement {
        let mut out = Measurement::blank();
        let mut all = self.below(location);
        all.push(location.to_owned());
        for key in all {
            let meta = self.entries[&key];
            out.latest_modified_ns = out.latest_modified_ns.max(meta.identity.modified_ns);
            if meta.is_file() {
                out.logical_bytes += meta.identity.size;
                out.allocated_bytes += meta.allocated;
                out.files += 1;
                if meta.links > 1 {
                    out.unsafe_reason = Some("It contains hard-linked files".into());
                }
            }
        }
        if self.entries.contains_key(&format!("{location}/.pnpm")) {
            out.unsafe_reason = Some("A shared-store layout is not measured".into());
        }
        out.fingerprint = format!("measured-{}", out.logical_bytes);
        out
    }

    fn begin(&self, start: ScanStart) -> Begin {
        self.begin_expecting(start, &None)
    }

    fn begin_expecting(&self, start: ScanStart, expected: &Option<EntryMeta>) -> Begin {
        let setting = self.setting();
        let mut facts: Vec<LaneFact> = start
            .starts
            .iter()
            .map(|_| LaneFact {
                place: None,
                meta: None,
            })
            .collect();
        let tick = calm_tick();
        loop {
            let again = ScanStart {
                plan: chippytea::scanner::state::Plan {
                    root: start.plan.root.copy(),
                    kept: start.plan.kept.clone(),
                    mode: start.plan.mode,
                    downloads: start.plan.downloads.clone(),
                    lanes: start.plan.lanes,
                    logical: start.plan.logical,
                    max_depth: start.plan.max_depth,
                    hints: start.plan.hints,
                    user: start.plan.user,
                },
                starts: start.starts.clone(),
                link_limit: start.link_limit,
            };
            match begin_scan(
                again,
                Hardlinks::new(setting.link_limit),
                &facts,
                expected,
                tick,
            ) {
                Begin::Need(lane, LaneAsk::Place) => {
                    facts[lane].place = Some(Ok(start.starts[lane].clone()))
                }
                Begin::Need(lane, LaneAsk::Meta) => {
                    facts[lane].meta =
                        Some(Ok(self.entries.get(&text(&start.starts[lane])).copied()))
                }
                other => return other,
            }
        }
    }

    fn session(&self, start: Result<ScanStart, String>) -> ScanSession {
        match self.begin(start.unwrap()) {
            Begin::Begun(session) => session,
            _ => panic!("the scan begins"),
        }
    }

    fn run(&mut self, mode: ScanMode, kept: &[&str]) -> (ScanStats, Vec<Candidate>) {
        let kept: Vec<FsPath> = kept.iter().map(|location| path(location)).collect();
        let root = self.root();
        let start = scan_with_checkpoint_mode(&root, &None, &kept, &self.setting(), mode, false);
        let session = self.session(start);
        self.drive(session, calm_tick())
    }

    fn run_scope(
        &mut self,
        scope: &str,
        mode: ScanMode,
        kept: &[&str],
    ) -> (ScanStats, Vec<Candidate>) {
        let kept: Vec<FsPath> = kept.iter().map(|location| path(location)).collect();
        let root = self.root();
        let mut setting = self.setting();
        setting.normalized = Ok(path(scope));
        let start = scan_with_checkpoint_mode(
            &root,
            &Some(path(scope)),
            &kept,
            &setting,
            mode,
            false,
        );
        let session = self.session(start);
        self.drive(session, calm_tick())
    }

    // Answers a session until it is done. The latest row of each finding counts.
    fn drive(&mut self, session: ScanSession, tick: Tick) -> (ScanStats, Vec<Candidate>) {
        self.drive_watching(session, tick, &mut |_, _| {})
    }

    fn drive_watching(
        &mut self,
        mut session: ScanSession,
        mut tick: Tick,
        watch: &mut dyn FnMut(&mut World, &ScanBatch),
    ) -> (ScanStats, Vec<Candidate>) {
        let mut share: usize = 0;
        let mut caches = EvidenceCaches::new();
        let mut open: BTreeMap<u64, Vec<String>> = BTreeMap::new();
        let mut cursors: BTreeMap<u64, (Vec<String>, Effort, bool)> = BTreeMap::new();
        let mut rows: BTreeMap<String, Candidate> = BTreeMap::new();
        let mut next: u64 = 0;
        let mut steps = 0;
        loop {
            steps += 1;
            assert!(steps < 1_000_000, "a session ends");
            for notice in std::mem::take(&mut session.press.outbox) {
                match notice {
                    Notice::Batch(batch) => {
                        assert!(batch.candidates.len() <= MAX_BATCH);
                        watch(self, &batch);
                        for candidate in batch.candidates {
                            rows.insert(candidate.id.clone(), candidate);
                        }
                    }
                    Notice::Remember(artifact, leaf) => {
                        self.learned.insert(text(&artifact), text(&leaf));
                    }
                    Notice::Forget(artifact) => {
                        self.learned.remove(&text(&artifact));
                    }
                }
            }
            let event = match &session.phase {
                Phase::Idle => {
                    self.calls += 1;
                    tick.cancel = tick.cancel || self.cancel_at == Some(self.calls);
                    Event::Proceed
                }
                Phase::Reading => {
                    let frame = &session.frontier[0];
                    let list = open.get_mut(&frame.mark.id).unwrap();
                    let found = if list.is_empty() {
                        None
                    } else {
                        Some(list.remove(0))
                    };
                    Event::Listed(Ok(Listing {
                        files: 0,
                        skipped: 0,
                        metadata_skipped: 0,
                        finished: found.is_none(),
                        changed: false,
                        found: match found {
                            Some(location) => Listed::Entry(Entry {
                                path: path(&location),
                                meta: self.entries[&location],
                            }),
                            None => Listed::Nothing,
                        },
                    }))
                }
                Phase::Opening(_) => unreachable!(),
                Phase::Looking(item) => Event::Facts(self.facts(&text(&item.entry.path))),
                Phase::Judging(item) => {
                    Event::Evidence(self.evidence(&text(&item.entry.path), &mut caches))
                }
                Phase::Checking(_) | Phase::Using(_) => Event::Activity(self.used.clone()),
                Phase::Verifying(case) => {
                    let location = text(&case.item.entry.path);
                    let meta = self.entries.get(&location).copied().ok_or("gone".to_owned());
                    let current = self.evidence(&location, &mut caches);
                    Event::Verified(verify_deferred_artifact(
                        &case.item.entry,
                        &case.checks.found,
                        &meta,
                        &current,
                    ))
                }
                Phase::Hinting(case) => Event::Hint(
                    match self.learned.get(&text(&case.item.entry.path)) {
                        Some(leaf) => Some(path(leaf)),
                        None => self.hint.as_deref().map(path),
                    },
                ),
                Phase::Observing(case, location) => {
                    let inside = format!("{}/", text(&case.item.entry.path));
                    Event::Observed(if text(location).starts_with(&inside) {
                        self.entries.get(&text(location)).copied()
                    } else {
                        None
                    })
                }
                Phase::Starting(review, effort) => {
                    next += 1;
                    let location = text(&review.entry.path);
                    self.read.push(location.clone());
                    let mut list = vec![location.clone()];
                    list.extend(self.below(&location));
                    cursors.insert(next, (list, *effort, false));
                    Event::Cursor(Ok(next))
                }
                Phase::Measuring(job) => {
                    let (list, effort, ruled_out) = cursors.get_mut(&job.cursor).unwrap();
                    let mut whole = self.measurement(&text(&job.review.entry.path));
                    if list.is_empty() || *ruled_out {
                        share = 0;
                        whole.pruned = *ruled_out;
                        Event::Measured(Ok(whole))
                    } else if share == self.quantum {
                        share = 0;
                        Event::Pending
                    } else {
                        share += 1;
                        let location = list.remove(0);
                        self.measured.push(location.clone());
                        *ruled_out = *effort == Effort::Suggestion
                            && self.entries[&location].identity.modified_ns > job.review.cutoff;
                        Event::Seen(
                            Entry {
                                path: path(&location),
                                meta: self.entries[&location],
                            },
                            whole,
                        )
                    }
                }
                Phase::Tracking(_) => Event::Git(self.in_git.clone()),
                Phase::Recalling(review) => {
                    let location = text(&review.entry.path);
                    if self.evidence_changes {
                        self.file("/root/project/package.json", br#"{"name":"other"}"#, 8);
                    }
                    Event::Evidence(self.evidence(&location, &mut caches))
                }
                Phase::Entering(item, _, _) => {
                    next += 1;
                    let location = text(&item.entry.path);
                    if self.gone.contains(&location) {
                        Event::Opened(Err("No such file or directory".into()))
                    } else {
                        self.read.push(location.clone());
                        open.insert(next, self.children(&location));
                        Event::Opened(Ok(next))
                    }
                }
                Phase::Done => return (session.stats, rows.into_values().collect()),
            };
            session.step(event, tick);
        }
    }
}

fn calm_tick() -> Tick {
    Tick {
        cancel: false,
        now_ns: NOW,
        elapsed_ms: 5,
        due: false,
    }
}

#[test]
fn fresh_artifact_boundary_is_pruned_without_a_diagnostic() {
    let mut world = World::fixture(0, 4096);
    let (stats, rows) = world.run(ScanMode::Suggestions, &[]);
    assert!(rows.is_empty());
    assert!(stats.first_finding_ms.is_none());
    assert_eq!(stats.candidates, 0);
    assert_eq!(stats.files, 2);
    assert_eq!(stats.excluded_artifacts, 1);
    assert!(stats.skipped >= 1);
    assert!(stats.complete, "{}", stats.message);
    assert!(!world.read.iter().any(|location| location.contains("node_modules")));

    let (covered, rows) = world.run(ScanMode::MetadataCoverage, &[]);
    assert!(covered.complete, "{}", covered.message);
    assert_eq!(covered.entries, 6);
    assert_eq!(covered.files, 3);
    assert_eq!(rows.len(), 1);
    assert_eq!(rows[0].kind, "node");
    assert_eq!(rows[0].logical_bytes, 4096);
    assert!(!rows[0].suggestion_eligible && !rows[0].eligible_permanent);
}

#[test]
fn aged_eligible_artifact_matches_full_metadata_discovery() {
    let mut world = World::fixture(9, LARGE);
    let (_, rows) = world.run(ScanMode::Suggestions, &[]);
    let candidate = rows
        .into_iter()
        .find(|candidate| candidate.suggestion_eligible)
        .expect("the aged fixture is eligible");
    let (stats, rows) = world.run(ScanMode::MetadataCoverage, &[]);
    assert!(stats.complete, "{}", stats.message);
    assert_eq!(stats.candidates, 1);
    assert_eq!(rows.len(), 1);
    assert_eq!(rows[0].path, candidate.path);
    assert_eq!(rows[0].identity, candidate.identity);
    assert_eq!(rows[0].evidence, candidate.evidence);
    assert_eq!(rows[0].fingerprint, candidate.fingerprint);
    assert_eq!(rows[0].logical_bytes, candidate.logical_bytes);
    assert_eq!(rows[0].allocated_bytes, candidate.allocated_bytes);
    assert_eq!(rows[0].file_count, candidate.file_count);
    assert!(rows[0].suggestion_eligible && rows[0].eligible_permanent);
    assert!(rows[0].explanation.ends_with(
        " At least 100 MB is allocated locally. The contents and identification files have been unmodified for at least 7 days."
    ));
    assert_eq!(stats.first_finding_ms, Some(5));
}

#[test]
fn recent_file_proof_requires_an_owned_single_link_regular_leaf_above_cutoff() {
    let mut world = World::new();
    world.sized("/root/leaf", 10, 1);
    let meta = world.entries["/root/leaf"];
    let cutoff = NOW - 7 * DAY_NS;
    assert!(is_recent_local_file(&meta, 1, cutoff, USER));
    assert_eq!(
        recent_file_modified(&Some(meta), 1, cutoff, USER),
        Some(meta.identity.modified_ns)
    );
    let mut shared = meta;
    shared.links = 2;
    let mut foreign = meta;
    foreign.uid = 0;
    let mut absent = meta;
    absent.flags = 0x4000_0000;
    let mut old = meta;
    old.identity.modified_ns = cutoff;
    for other in [shared, foreign, absent, old] {
        assert!(!is_recent_local_file(&other, 1, cutoff, USER));
    }
    assert!(!is_recent_local_file(&meta, 2, cutoff, USER));
    assert_eq!(recent_file_modified(&None, 1, cutoff, USER), None);
}

#[test]
fn a_running_project_process_blocks_a_disposable_artifact() {
    let mut world = World::fixture(9, LARGE);
    let snapshot = ActivitySnapshot {
        working_directories: vec![path("/root/project/src")],
        executable_paths: vec![],
        running_app_bundle_ids: vec![],
    };
    world.used = snapshot.blocked(&path("/root/project"));
    let (_, rows) = world.run(ScanMode::Suggestions, &[]);
    assert!(!rows[0].suggestion_eligible);
    assert_eq!(
        rows[0].blocked_reason.as_deref(),
        Some("A running process is using this project; close it and scan again")
    );
}

#[test]
fn tracked_descendant_disqualifies_the_whole_artifact() {
    let mut world = World::fixture(9, LARGE);
    world.in_git = Some("Git tracks content inside this artifact; cleanup is excluded".into());
    let (stats, rows) = world.run(ScanMode::Suggestions, &[]);
    assert_eq!(stats.candidates, 0);
    assert!(rows[0].blocked_reason.as_ref().unwrap().contains("tracks content"));
}

#[test]
fn evidence_that_changes_during_the_measurement_is_not_offered() {
    let mut world = World::fixture(9, LARGE);
    world.evidence_changes = true;
    let (_, rows) = world.run(ScanMode::Suggestions, &[]);
    assert!(!rows[0].suggestion_eligible);
    assert_eq!(
        rows[0].blocked_reason.as_deref(),
        Some("Project evidence changed during the scan; refresh this review")
    );
}

#[test]
fn webcache_requires_a_sibling_manifest_and_distinguishes_cache_directories() {
    let mut world = World::new();
    world.folder("/root/site", 9);
    let names = [".next", ".nuxt", ".turbo", ".parcel-cache"];
    let mut caches = EvidenceCaches::new();
    for name in names {
        let location = format!("/root/site/{name}");
        world.folder(&location, 9);
        world.sized(&format!("{location}/payload"), 1024, 9);
        assert!(
            world.evidence(&location, &mut caches).unwrap().is_none(),
            "{name} without a sibling manifest stays an ordinary folder"
        );
    }
    world.file("/root/site/package.json", br#"{"name":"site"}"#, 9);
    let mut fingerprints = std::collections::BTreeSet::new();
    for name in names {
        let found = world
            .evidence(&format!("/root/site/{name}"), &mut caches)
            .unwrap()
            .unwrap();
        assert_eq!(found.kind, "webcache");
        assert_eq!(found.title, "site build cache");
        assert!(found.explanation.contains(name), "{}", found.explanation);
        assert_eq!(found.quiet_days, DEVELOPER_QUIET_DAYS);
        assert_eq!(found.activity_root, Some(path("/root/site")));
        assert!(found.blocked.is_none());
        fingerprints.insert(found.fingerprint);
    }
    assert_eq!(
        fingerprints.len(),
        names.len(),
        "Sibling caches sharing one manifest keep distinct evidence"
    );
    // A manifest reachable only through a link is not positive recognition.
    world.put("/root/site/package.json", LINK, 8, 9);
    assert!(world
        .evidence("/root/site/.next", &mut caches)
        .unwrap()
        .is_none());
}

#[test]
fn unsupported_install_evidence_has_a_completed_diagnostic_row() {
    let mut world = World::fixture(8, 4096);
    world.entries.remove("/root/project/package-lock.json");
    let (stats, rows) = world.run(ScanMode::Suggestions, &[]);
    assert_eq!(rows.len(), 1);
    assert!(rows[0]
        .blocked_reason
        .as_deref()
        .unwrap()
        .contains("lockfile"));
    assert!(!rows[0].suggestion_eligible && !rows[0].provisional);
    assert_eq!(stats.files, 1);
    assert_eq!(stats.excluded_artifacts, 1);
    assert!(stats.complete);
    assert_eq!(stats.candidates, 0);
}

#[test]
fn pnpm_workspace_importer_is_recognized_but_shared_store_stays_blocked() {
    let mut world = World::new();
    world.folder("/root/project", 8);
    world.folder("/root/project/apps", 8);
    world.folder("/root/project/apps/member", 8);
    world.folder("/root/project/apps/member/node_modules", 8);
    world.sized("/root/project/apps/member/node_modules/payload", LARGE, 8);
    world.file("/root/project/package.json", br#"{"name":"fixture"}"#, 8);
    world.file(
        "/root/project/apps/member/package.json",
        br#"{"name":"member","dependencies":{"example":"1"}}"#,
        8,
    );
    world.file(
        "/root/project/pnpm-workspace.yaml",
        b"packages:\n  - 'apps/*'\n  - 'crates/plugin-*'\n",
        8,
    );
    world.file("/root/project/pnpm-lock.yaml", b"lockfileVersion: '9.0'\nimporters:\n  .:\n    dependencies: {}\n  apps/member:\n    dependencies: {}\npackages: {}\n", 8);
    let first = world.node("/root/project/apps/member").unwrap().unwrap();
    assert!(first.blocked.is_none());
    assert_eq!(first.activity_root, Some(path("/root/project")));
    world.folder("/root/project/apps/member/node_modules/.pnpm", 8);
    let (_, rows) = world.run(ScanMode::Suggestions, &[]);
    let row = rows
        .iter()
        .find(|row| text(&row.path) == "/root/project/apps/member/node_modules")
        .unwrap();
    assert!(row
        .blocked_reason
        .as_deref()
        .unwrap()
        .contains("shared-store"));
    assert!(!row.suggestion_eligible && !row.eligible_permanent);
    world.file(
        "/root/project/pnpm-workspace.yaml",
        b"packages:\n  - 'other/*'\n",
        8,
    );
    assert!(world.node("/root/project/apps/member").is_err());
}

#[test]
fn cargo_configuration_must_be_text_and_well_formed() {
    assert_eq!(
        parse_toml(b"\xff").err(),
        Some("Cargo configuration is not UTF-8".into())
    );
    assert_eq!(
        parse_toml(b"[package").err(),
        Some("Cargo configuration is not valid TOML".into())
    );
    assert!(parse_toml(b"[package]\nname = 'x'\n").is_ok());
}

#[test]
fn a_provider_names_what_it_recognizes() {
    let world = {
        let mut world = World::new();
        world.folder("/root/app", 9);
        world.folder("/root/app/Pods", 9);
        world
    };
    let root = world.root();
    let location = path("/root/app/Pods");
    let meta = world.entries["/root/app/Pods"];
    let mut placing = world.placing("/root/app/Pods");
    placing.provider = true;
    let seen = Sources { facts: Vec::new() };
    let step = evidence_with_downloads(
        &root,
        &location,
        &meta,
        &placing,
        &world.around(),
        &seen,
        false,
    );
    assert!(matches!(step, Step::Need(_, Ask::Provider)));
    placing.provided = Some(Ok(Some(ProviderFound {
        kind: "cargo".into(),
        title: "Pods".into(),
        explanation: "Installed pods.".into(),
        consequence: "Install again.".into(),
        fingerprint: "pods".into(),
        blocked: None,
        latest_modified_ns: 7,
        activity_root: path("/root/app"),
    })));
    match evidence_with_downloads(
        &root,
        &location,
        &meta,
        &placing,
        &world.around(),
        &seen,
        false,
    ) {
        Step::Have(Some(found)) => {
            assert_eq!(found.title, "Pods");
            assert_eq!(found.latest_modified_ns, 7);
        }
        _ => panic!("a provider's finding is evidence"),
    }
}

#[test]
fn starting_a_cancelled_scan_is_refused() {
    let world = World::new();
    let root = world.root();
    assert_eq!(
        scan(&root, &None, &world.setting(), true).err(),
        Some("Cancelled".into())
    );
    let mut setting = world.setting();
    setting.normalized = Err("This location is protected".into());
    assert_eq!(
        scan_with_checkpoint(&root, &None, &vec![], &setting, false).err(),
        Some("This location is protected".into())
    );
}

#[test]
fn a_home_folder_is_scanned_in_lanes_that_share_their_accounting() {
    let mut world = World::fixture(9, LARGE);
    let mut root = world.root();
    root.kind = "home".into();
    let setting = world.setting();
    let start = scan(&root, &None, &setting, false).unwrap();
    assert!(start.plan.logical);
    assert_eq!(
        start.starts,
        [
            path("/root/Library/Caches"),
            path("/root/Library/Logs"),
            path("/root")
        ]
    );
    world.folder("/root/Library", 9);
    world.folder("/root/Library/Caches", 9);
    let session = world.session(Ok(start));
    let (stats, rows) = world.drive(session, calm_tick());
    assert_eq!(rows.len(), 1);
    assert!(stats.message.starts_with("Scan "));
    let mut many = world.setting();
    many.routes = vec!["a".to_owned(); 9];
    assert_eq!(
        scan(&root, &None, &many, false).err(),
        Some("The scan exceeds the bounded logical-lane limit".into())
    );
}

#[test]
fn a_full_link_table_is_reported_as_partial_accounting() {
    let mut links = Hardlinks::new(1);
    let mut stats = ScanStats::new();
    let mut world = World::new();
    for name in ["/root/a", "/root/b"] {
        world.sized(name, 10, 1);
        let mut meta = world.entries[name];
        meta.links = 2;
        tally(&mut stats, &mut links, &meta, 1);
    }
    assert_eq!(stats.files, 2);
    assert_eq!(stats.logical_bytes, 10);
    assert!(links.saturated());
}

#[test]
fn findings_keep_their_ids_and_start_provisional() {
    let world = World::fixture(9, LARGE);
    let mut caches = EvidenceCaches::new();
    let location = "/root/project/node_modules";
    let found = world.evidence(location, &mut caches).unwrap().unwrap();
    let meta = world.entries[location];
    let candidate = make_candidate(&world.root(), &path(location), &meta, &found);
    assert_eq!(
        candidate.id,
        blake3::hash(b"root/root/project/node_modules").to_hex()[..24]
    );
    assert!(candidate.provisional && !candidate.suggestion_eligible);
    let mut later = meta;
    later.identity.inode += 1;
    assert_eq!(
        make_candidate(&world.root(), &path(location), &later, &found).id,
        candidate.id
    );
}

#[test]
fn folders_are_read_by_the_rules_of_their_place() {
    let mut world = World::new();
    world.downloads = Some("/root/Downloads".into());
    let root = world.root();
    let start = scan(&root, &None, &world.setting(), false).unwrap();
    let plain = FolderFacts {
        library: false,
        caches_top: false,
        personal: false,
    };
    let mut library = plain;
    library.library = true;
    library.caches_top = true;
    let mut personal = plain;
    personal.personal = true;
    assert_eq!(
        start.plan.reader(&path("/root/Library/Caches"), library),
        Reader::Library(true)
    );
    assert_eq!(
        start.plan.reader(&path("/root/src"), plain),
        Reader::Discovery(false)
    );
    assert_eq!(
        start.plan.reader(&path("/root/Movies"), personal),
        Reader::Personal(false)
    );
    assert_eq!(
        start.plan.reader(&path("/root/Downloads/x"), plain),
        Reader::Plain
    );
}

fn blank_observations() -> Observations {
    Observations {
        root: None,
        policy: None,
        meta: None,
        ancestors: None,
        evidence: None,
        git: None,
        activity: None,
        measured: None,
        root_again: None,
        meta_again: None,
        ancestors_again: None,
        evidence_again: None,
        activity_again: None,
        nearer: None,
        unchanged: None,
        git_again: None,
    }
}

// Answers what the last check asks until it decides.
fn check(
    world: &World,
    candidate: &Candidate,
    change: impl Fn(Want, &mut Observations),
) -> Result<(), String> {
    let root = world.root();
    let location = text(&candidate.path);
    let mut caches = EvidenceCaches::new();
    let mut seen = blank_observations();
    for _ in 0..64 {
        let want = match revalidate(&root, candidate, &seen, NOW, false) {
            Verdict::Need(want) => want,
            Verdict::Refused(reason) => return Err(reason),
            Verdict::Valid => return Ok(()),
        };
        match want {
            Want::Root => seen.root = Some(Ok(())),
            Want::Policy => seen.policy = Some(Ok(())),
            Want::Meta => seen.meta = Some(Ok(world.entries[&location])),
            Want::Ancestors => seen.ancestors = Some(Ok(())),
            Want::Evidence => seen.evidence = Some(world.evidence(&location, &mut caches)),
            Want::Git => {
                seen.git = Some(Ok(Some(Repository {
                    work_tree: path("/root/project"),
                })))
            }
            Want::Activity => seen.activity = Some(None),
            Want::Measure => seen.measured = Some(Ok(world.measurement(&location))),
            Want::RootAgain => seen.root_again = Some(Ok(())),
            Want::MetaAgain => seen.meta_again = Some(Ok(world.entries[&location])),
            Want::AncestorsAgain => seen.ancestors_again = Some(Ok(())),
            Want::EvidenceAgain => {
                seen.evidence_again = Some(world.evidence(&location, &mut caches))
            }
            Want::ActivityAgain => seen.activity_again = Some(Ok(None)),
            Want::Nearer => seen.nearer = Some(Ok(false)),
            Want::Unchanged => seen.unchanged = Some(Ok(())),
            Want::GitAgain => seen.git_again = Some(Ok(false)),
        }
        change(want, &mut seen);
    }
    panic!("a check ends")
}

fn eligible(world: &mut World) -> Candidate {
    let (_, rows) = world.run(ScanMode::Suggestions, &[]);
    rows.into_iter().find(|row| row.suggestion_eligible).unwrap()
}

#[test]
fn revalidation_rejects_what_changed_around_the_artifact() {
    let mut world = World::fixture(9, LARGE);
    let candidate = eligible(&mut world);
    let inode = candidate.identity.inode;
    for changed in [
        Want::Root,
        Want::Policy,
        Want::Meta,
        Want::Ancestors,
        Want::Evidence,
        Want::Git,
        Want::Activity,
        Want::Measure,
        Want::RootAgain,
        Want::MetaAgain,
        Want::AncestorsAgain,
        Want::EvidenceAgain,
        Want::ActivityAgain,
        Want::Nearer,
        Want::Unchanged,
    ] {
        let outcome = check(&world, &candidate, |want, seen| {
            if want != changed {
                return;
            }
            let no = || "refused".to_owned();
            match want {
                Want::Root => seen.root = Some(Err(no())),
                Want::Policy => seen.policy = Some(Err(no())),
                Want::Meta => {
                    if let Some(Ok(meta)) = &mut seen.meta {
                        meta.identity.inode = inode + 1;
                    }
                }
                Want::Ancestors => seen.ancestors = Some(Err(no())),
                Want::Evidence => seen.evidence = Some(Ok(None)),
                Want::Git => seen.git = Some(Err(no())),
                Want::Activity => seen.activity = Some(Some(no())),
                Want::Measure => seen.measured = Some(Err(no())),
                Want::RootAgain => seen.root_again = Some(Err(no())),
                Want::MetaAgain => {
                    if let Some(Ok(meta)) = &mut seen.meta_again {
                        meta.identity.inode = inode + 1;
                    }
                }
                Want::AncestorsAgain => seen.ancestors_again = Some(Err(no())),
                Want::EvidenceAgain => seen.evidence_again = Some(Ok(None)),
                Want::ActivityAgain => seen.activity_again = Some(Ok(Some(no()))),
                Want::Nearer => seen.nearer = Some(Ok(true)),
                Want::Unchanged => seen.unchanged = Some(Err(no())),
                Want::GitAgain => seen.git_again = Some(Ok(true)),
            }
        });
        assert!(outcome.is_err(), "{changed:?}");
    }
}

#[test]
fn a_cancelled_or_misplaced_check_is_refused() {
    let mut world = World::fixture(9, LARGE);
    let mut candidate = eligible(&mut world);
    let root = world.root();
    let seen = blank_observations();
    match revalidate(&root, &candidate, &seen, NOW, true) {
        Verdict::Refused(reason) => assert_eq!(reason, "Cancelled"),
        _ => panic!("a cancelled check decides nothing"),
    }
    candidate.path = path("/elsewhere");
    assert_eq!(
        check(&world, &candidate, |_, _| {}),
        Err("The item is outside its authorized location".into())
    );
}

#[test]
fn nearer_repositories_are_looked_for_below_the_known_one() {
    assert_eq!(
        nearer_folders(&path("/root/a/b/node_modules"), &path("/root/a")),
        [path("/root/a/b")]
    );
    assert_eq!(
        nearer_folders(&path("/root/a/b/node_modules"), &path("/root//a/")),
        [path("/root/a/b")]
    );
}

#[test]
fn the_first_look_that_tells_of_a_nearer_repository_decides() {
    let failed = || Err("Unreadable".to_string());
    assert_eq!(nearer_repository(&vec![], 2, false), None);
    assert_eq!(nearer_repository(&vec![Ok(false)], 2, false), None);
    assert_eq!(nearer_repository(&vec![Ok(false), Ok(false)], 2, false), Some(Ok(false)));
    assert_eq!(nearer_repository(&vec![Ok(true), failed()], 2, false), Some(Ok(true)));
    assert_eq!(nearer_repository(&vec![failed(), Ok(true)], 2, false), Some(failed()));
    assert_eq!(
        nearer_repository(&vec![Ok(false)], 2, true),
        Some(Err("Cancelled".to_string()))
    );
    assert_eq!(nearer_repository(&vec![], 0, true), Some(Ok(false)));
}

#[test]
fn a_measurement_has_a_bounded_share_of_a_turn() {
    assert!(!share_is_spent(0, 0));
    assert!(!share_is_spent(255, 4));
    assert!(share_is_spent(256, 0));
    assert!(share_is_spent(0, 5));
}

fn lock_stats(entries: u64) -> ScanStats {
    let mut stats = ScanStats::new();
    stats.entries = entries;
    stats.files = entries;
    stats.complete = true;
    stats
}

#[test]
fn lockfile_refresh_finds_unindexed_target_without_enumerating_unrelated_subtrees() {
    let mut world = World::new();
    world.folder("/root/project", 8);
    world.file(
        "/root/project/Cargo.toml",
        b"[package]\nname = 'disposable'\nversion = '0.1.0'\n",
        8,
    );
    world.file("/root/project/Cargo.lock", b"version = 4\n", 8);
    world.folder("/root/project/target", 8);
    world.file(
        "/root/project/target/CACHEDIR.TAG",
        b"Signature: 8a477f597d28d172789f06886806bc55\n",
        8,
    );
    world.sized("/root/project/target/payload", 4096, 8);
    world.folder("/root/project/unrelated", 8);
    world.sized("/root/project/unrelated/keep", 16, 8);
    for mode in [ScanMode::Suggestions, ScanMode::MetadataCoverage] {
        let (full, rows) = world.run(mode, &[]);
        assert!(full.complete);
        let target = path("/root/project/target");
        let expected = rows.iter().find(|row| row.path == target).unwrap();
        world.read.clear();
        // The lockfile itself is one plain file.
        let origin = lock_stats(1);
        let root = world.root();
        let mut refresh = match scan_cargo_lock_with_checkpoint_mode(
            &root,
            Some(target.clone()),
            &vec![],
            origin,
            false,
        ) {
            Ok(LockStep::Observe(refresh)) => refresh,
            _ => panic!("the build output is looked at"),
        };
        assert!(refresh
            .observe(&Some(world.entries["/root/project/target"]))
            .is_none());
        let mut setting = world.setting();
        setting.normalized = Ok(target.clone());
        let scope = Some(target.clone());
        let start = scan_with_checkpoint_mode(&root, &scope, &vec![], &setting, mode, false);
        let session = world.session(start);
        let (stats, found) = world.drive(session, calm_tick());
        assert_eq!(stats.entries, 3);
        assert_eq!(found.len(), 1);
        let hidden = refresh.receive(ScanBatch {
            candidates: found,
            stats: stats.copy(),
        });
        assert_eq!(hidden.candidates, 0);
        let mut combined = stats.copy();
        combined.entries += 1;
        combined.files += 1;
        let batch = refresh.conclude(&stats, combined, 9).unwrap();
        assert!(batch.stats.complete);
        assert_eq!(batch.stats.entries, 4);
        assert_eq!(batch.stats.files, 3);
        assert_eq!(batch.stats.directories, 1);
        assert_eq!(batch.candidates.len(), 1);
        assert_eq!(batch.candidates[0].id, expected.id);
        assert_eq!(batch.candidates[0].logical_bytes, expected.logical_bytes);
        assert_eq!(batch.candidates[0].explanation, expected.explanation);
        assert!(world
            .read
            .iter()
            .all(|location| location.starts_with("/root/project/target")));
    }
}

#[test]
fn lockfile_refreshes_keep_stop_and_refuse() {
    let world = World::fixture(9, LARGE);
    let root = world.root();
    let target = || Some(path("/root/project/target"));
    assert_eq!(
        lock_target(None),
        Err("The lockfile refresh is not an authorized dependency scope".into())
    );
    assert_eq!(lock_target(target()), Ok(path("/root/project/target")));
    assert_eq!(
        scan_cargo_lock_with_checkpoint_mode(&root, None, &vec![], lock_stats(1), false).err(),
        Some("The lockfile refresh is not an authorized dependency scope".into())
    );
    match scan_cargo_lock_with_checkpoint_mode(&root, target(), &vec![], lock_stats(1), true) {
        Ok(LockStep::Stopped(stats)) => assert!(stats.cancelled && !stats.complete),
        _ => panic!("a cancelled refresh stops"),
    }
    let kept = vec![path("/root/project")];
    match scan_cargo_lock_with_checkpoint_mode(&root, target(), &kept, lock_stats(1), false) {
        Ok(LockStep::Kept(_, stats)) => assert!(stats.complete),
        _ => panic!("kept build output is not looked at"),
    }
    let batch = origin_batch(ScanBatch {
        candidates: vec![],
        stats: lock_stats(1),
    });
    assert!(!batch.stats.complete);
}

#[test]
fn a_refresh_that_finds_anything_else_is_refused() {
    let mut world = World::fixture(9, LARGE);
    let other = eligible(&mut world);
    let root = world.root();
    let mut refresh = match scan_cargo_lock_with_checkpoint_mode(
        &root,
        Some(path("/root/project/target")),
        &vec![],
        lock_stats(1),
        false,
    ) {
        Ok(LockStep::Observe(refresh)) => refresh,
        _ => panic!("the build output is looked at"),
    };
    refresh.receive(ScanBatch {
        candidates: vec![other],
        stats: ScanStats::new(),
    });
    assert_eq!(
        refresh.conclude(&lock_stats(1), lock_stats(2), 1).err(),
        Some("The selected build output changed during its refresh".into())
    );
}

#[test]
fn an_answer_to_another_question_leaves_a_session_waiting() {
    let world = World::fixture(9, LARGE);
    let root = world.root();
    let mut session = world.session(scan(&root, &None, &world.setting(), false));
    assert!(matches!(session.phase, Phase::Idle));
    session.step(Event::Pending, calm_tick());
    assert!(matches!(session.phase, Phase::Idle));
    assert_eq!(session.stats.entries, 0);
    session.step(Event::Proceed, calm_tick());
    assert!(matches!(session.phase, Phase::Looking(_)));
}

#[test]
fn fresh_artifacts_skip_missing_or_unreadable_ownership() {
    for (artifact, manifest) in [("node_modules", "package.json"), ("target", "Cargo.toml")] {
        for unreadable in [false, true] {
            let mut world = World::new();
            world.folder("/root/project", 0);
            world.folder(&format!("/root/project/{artifact}"), 0);
            world.file(
                &format!("/root/project/{artifact}/preserve"),
                b"disposable payload",
                0,
            );
            if unreadable {
                world.sized(&format!("/root/project/{manifest}"), 18, 0);
            }
            let (stats, rows) = world.run(ScanMode::Suggestions, &[]);
            assert!(rows.is_empty(), "Ownership was not inspected or established");
            assert_eq!(stats.excluded_artifacts, 1);
            assert_eq!(stats.skipped, 1);
            assert_eq!(stats.errors, 0);
            assert!(stats.complete, "{}", stats.message);
            assert_eq!(world.read, ["/root", "/root/project"]);
        }
    }
}

#[test]
fn a_fresh_artifact_named_authorized_root_still_discovers_nested_projects() {
    for name in ["node_modules", "target"] {
        let mut world = World::new();
        world.base = format!("/root/{name}");
        world.folder(&format!("/root/{name}"), 0);
        let nested = format!("/root/{name}/project");
        world.project(&nested, 8, 4096);
        let (stats, rows) = world.run(ScanMode::Suggestions, &[]);
        assert!(stats.complete, "{}", stats.message);
        assert_eq!(stats.excluded_artifacts, 0);
        assert_eq!(rows.len(), 1);
        assert_eq!(rows[0].path, path(&format!("{nested}/node_modules")));
    }
}

#[test]
fn developer_link_is_a_leaf_without_reading_its_target() {
    let mut world = World::fixture(8, 4096);
    world.put("/root/project/node_modules/external", LINK, 11, 0);
    let (_, rows) = world.run(ScanMode::MetadataCoverage, &[]);
    assert_eq!(rows[0].logical_bytes, 4096);
    assert!(rows[0].blocked_reason.is_none());
    assert!(!rows[0].eligible_permanent);
    assert!(!world.read.contains(&"/root/project/node_modules/external".to_owned()));
}

#[test]
fn malformed_manifest_and_unrecognized_target_are_excluded() {
    let mut world = World::fixture(8, 4096);
    world.file("/root/project/package.json", b"this is not JSON", 8);
    world.folder("/root/project/target", 8);
    world.file("/root/project/target/personal", b"keep me", 8);
    let (stats, rows) = world.run(ScanMode::Suggestions, &[]);
    assert_eq!(rows.len(), 1);
    assert!(rows[0]
        .blocked_reason
        .as_deref()
        .unwrap()
        .contains("valid JSON"));
    assert!(!rows[0].suggestion_eligible && !rows[0].provisional);
    assert!(stats.skipped >= 2);
    assert_eq!(stats.excluded_artifacts, 2);
    assert!(!world.read.iter().any(|location| location.contains("target")));
}

#[test]
fn selected_scope_rejects_replacement_or_disappearance_before_start() {
    for replace in [false, true] {
        let mut world = World::fixture(8, 4096);
        let target = "/root/project/target";
        world.folder(target, 8);
        let expected = world.entries[target];
        world.entries.remove(target);
        if replace {
            world.folder(target, 0);
        }
        let root = world.root();
        let mut setting = world.setting();
        setting.normalized = Ok(path(target));
        let start = scan_with_checkpoint_mode(
            &root,
            &Some(path(target)),
            &vec![],
            &setting,
            ScanMode::Suggestions,
            false,
        )
        .unwrap();
        assert!(matches!(
            world.begin_expecting(start, &Some(expected)),
            Begin::Fail(_)
        ));
    }
}

#[test]
fn missing_incremental_scope_finishes_before_traversal_or_publication() {
    let mut world = World::fixture(0, 4096);
    let root = world.root();
    let scope = Some(path("/root/vanished/child"));
    let mut setting = world.setting();
    setting.normalized = Ok(path("/root/vanished/child"));
    let start = scan_with_checkpoint_mode(
        &root,
        &scope,
        &vec![],
        &setting,
        ScanMode::Suggestions,
        false,
    )
    .unwrap();
    match world.begin(start) {
        Begin::Removed(stats) => {
            assert!(stats.complete && !stats.cancelled);
            assert_eq!((stats.entries, stats.errors, stats.candidates), (0, 0, 0));
        }
        _ => panic!("A missing scope must not start traversal"),
    }
    assert!(world.read.is_empty());
    let start = scan_with_exclusions(&root, &scope, &vec![], &setting, false).unwrap();
    assert!(matches!(world.begin(start), Begin::Removed(_)));
    world.folder("/root/vanished", 0);
}

#[test]
fn disappearance_after_initial_metadata_stays_partial() {
    let mut world = World::fixture(0, 4096);
    world.gone.push("/root/project".to_owned());
    let (stats, rows) = world.run_scope("/root/project", ScanMode::Suggestions, &[]);
    assert!(rows.is_empty());
    assert!(!stats.complete && stats.errors > 0);
    assert_eq!(stats.entries, 1);
}

#[test]
fn missing_descendant_still_refreshes_its_existing_artifact_boundary() {
    let mut world = World::fixture(0, 4096);
    let root = world.root();
    let mut setting = world.setting();
    setting.normalized = Ok(path("/root/project/node_modules"));
    let start = scan_with_checkpoint_mode(
        &root,
        &Some(path("/root/project/node_modules/vanished")),
        &vec![],
        &setting,
        ScanMode::MetadataCoverage,
        false,
    );
    let session = world.session(start);
    let (stats, _) = world.drive(session, calm_tick());
    assert!(stats.complete && stats.errors == 0);
    assert!(stats.entries >= 2, "The existing artifact must be measured");
}

#[test]
fn protected_incremental_scope_is_rejected_before_artifact_probes() {
    let world = World::fixture(0, 4096);
    let root = world.root();
    let protected = path("/root/project/node_modules/Library/preserved");
    let mut setting = world.setting();
    setting.normalized = Err("This location is protected".into());
    for mode in [ScanMode::Suggestions, ScanMode::MetadataCoverage] {
        let result = scan_with_checkpoint_mode(
            &root,
            &Some(protected.clone()),
            &vec![],
            &setting,
            mode,
            false,
        );
        assert!(result.is_err());
    }
}

#[test]
fn checkpoint_is_cooperative_and_cancellation_retains_partial_coverage() {
    let mut world = World::fixture(0, 4096);
    world.cancel_at = Some(3);
    let root = world.root();
    let setting = world.setting();
    let session = world.session(scan_with_checkpoint(&root, &None, &vec![], &setting, false));
    let (stats, _) = world.drive(session, calm_tick());
    assert_eq!(world.calls, 3);
    assert!(stats.cancelled && !stats.complete);
    assert!(stats.entries > 0);
    assert_eq!(
        stats.message,
        "Scan cancelled; the displayed coverage is partial"
    );
}

#[test]
fn deferred_overflow_drains_all_metadata_with_exact_counts() {
    let mut world = World::fixture(0, 4096);
    for index in 0..=MAX_DEFERRED_ARTIFACTS {
        world.project(&format!("/root/fresh-{index}"), 0, 4096);
    }
    let (stats, rows) = world.run(ScanMode::MetadataCoverage, &[]);
    assert!(stats.complete, "{}", stats.message);
    assert_eq!(
        (
            stats.entries,
            stats.files,
            stats.directories,
            stats.logical_bytes
        ),
        world.totals("/root")
    );
    assert_eq!(rows.len(), MAX_DEFERRED_ARTIFACTS + 2);
    assert!(rows
        .iter()
        .all(|row| !row.provisional && !row.suggestion_eligible));
    assert_eq!(stats.candidates, 0);
}

#[test]
fn deferred_artifacts_share_global_hardlink_accounting() {
    let mut world = World::fixture(0, 4096);
    world.project("/root/fresh-0", 0, 4096);
    let shared = "/root/project/node_modules/payload";
    let mut meta = world.entries[shared];
    meta.links = 2;
    world.entries.insert(shared.into(), meta);
    world.entries.insert("/root/fresh-0/node_modules/payload".into(), meta);
    let (entries, files, directories, logical) = world.totals("/root");
    let (stats, rows) = world.run(ScanMode::MetadataCoverage, &[]);
    assert!(stats.complete);
    assert_eq!(
        (
            stats.entries,
            stats.files,
            stats.directories,
            stats.logical_bytes
        ),
        (entries, files, directories, logical - 4096)
    );
    assert_eq!(rows.len(), 2);
    assert!(rows.iter().all(|row| row
        .blocked_reason
        .as_deref()
        .unwrap()
        .contains("hard-linked")));
    assert!(rows.iter().all(|row| !row.suggestion_eligible));
}

#[test]
fn logical_lanes_share_exact_hardlink_accounting_without_duplicate_bytes() {
    let mut world = World::fixture(0, 4096);
    world.project("/root/fresh-0", 0, 4096);
    let shared = "/root/project/node_modules/payload";
    let mut meta = world.entries[shared];
    meta.links = 2;
    world.entries.insert(shared.into(), meta);
    world.entries.insert("/root/fresh-0/node_modules/payload".into(), meta);
    let first = world.totals("/root/project");
    let second = world.totals("/root/fresh-0");
    let root = world.root();
    let mut start = scan_with_checkpoint_mode(
        &root,
        &Some(path("/root")),
        &vec![],
        &world.setting(),
        ScanMode::MetadataCoverage,
        false,
    )
    .unwrap();
    start.starts = vec![path("/root/project"), path("/root/fresh-0")];
    start.plan.lanes = 2;
    start.plan.logical = true;
    let session = world.session(Ok(start));
    let (stats, rows) = world.drive(session, calm_tick());
    assert!(stats.complete, "{}", stats.message);
    assert_eq!(stats.entries, first.0 + second.0);
    assert_eq!(stats.files, first.1 + second.1);
    assert_eq!(stats.directories, first.2 + second.2);
    assert_eq!(stats.logical_bytes, first.3 + second.3 - meta.identity.size);
    assert_eq!(stats.allocated_bytes, first.3 + second.3 - meta.allocated);
    assert_eq!(rows.iter().filter(|row| !row.provisional).count(), 2);
    assert!(rows.iter().filter(|row| !row.provisional).all(|row| row
        .blocked_reason
        .as_deref()
        .is_some_and(|reason| reason.contains("hard-linked"))));
}

#[test]
fn changed_deferred_evidence_is_diagnostic_and_coverage_stays_partial() {
    let mut world = World::fixture(0, 4096);
    for index in 0..MAX_BATCH {
        world.project(&format!("/root/fresh-{index}"), 0, 4096);
    }
    let root = world.root();
    let start = scan_with_checkpoint_mode(
        &root,
        &None,
        &vec![],
        &world.setting(),
        ScanMode::MetadataCoverage,
        false,
    );
    let session = world.session(start);
    let mut changed: Option<String> = None;
    let (stats, rows) = world.drive_watching(session, calm_tick(), &mut |world, batch| {
        for candidate in &batch.candidates {
            if changed.is_none() && candidate.provisional {
                let location = text(&candidate.path);
                let project = location.strip_suffix("/node_modules").unwrap();
                world.file(
                    &format!("{project}/package-lock.json"),
                    br#"{"lockfileVersion":3,"packages":{"new-evidence":{}}}"#,
                    0,
                );
                changed = Some(candidate.id.clone());
            }
        }
    });
    let changed = changed.expect("Bounded provisional batches must be published during discovery");
    let row = rows.iter().find(|row| row.id == changed).unwrap();
    assert!(!row.provisional && !row.suggestion_eligible);
    assert!(row
        .blocked_reason
        .as_deref()
        .unwrap()
        .contains("evidence changed while waiting"));
    assert!(!stats.complete && stats.errors > 0);
}

#[test]
fn replacement_of_a_deferred_artifact_is_rejected() {
    let world = World::fixture(0, 4096);
    let mut caches = EvidenceCaches::new();
    let location = "/root/project/node_modules";
    let found = world.evidence(location, &mut caches).unwrap().unwrap();
    let entry = Entry {
        path: path(location),
        meta: world.entries[location],
    };
    let current = world.evidence(location, &mut caches);
    assert!(verify_deferred_artifact(&entry, &found, &Ok(entry.meta), &current).is_ok());
    let mut changed = entry.meta;
    changed.identity.inode += 1;
    assert_eq!(
        verify_deferred_artifact(&entry, &found, &Ok(changed), &current),
        Err(
            "The artifact changed while waiting for metadata coverage; refresh this location"
                .into()
        )
    );
    assert!(verify_deferred_artifact(&entry, &found, &Ok(entry.meta), &Ok(None)).is_err());
    assert_eq!(
        verify_deferred_artifact(&entry, &found, &Err("gone".into()), &current),
        Err("gone".into())
    );
}

#[test]
fn ineligible_regular_files_stay_diagnostic_until_a_fresh_complete_measurement() {
    let mut world = World::new();
    world.kind = "home".to_owned();
    world.folder("/root/Library", 60);
    world.folder("/root/Library/Logs", 60);
    let recent = "/root/Library/Logs/recent.log";
    let sparse = "/root/Library/Logs/sparse.log";
    world.sized(recent, 160 * 64 * 1024, 0);
    world.sized(sparse, 11_000_000, 31);
    let mut meta = world.entries[sparse];
    meta.allocated = 0;
    world.entries.insert(sparse.to_owned(), meta);
    let (stats, rows) = world.run(ScanMode::Suggestions, &[]);
    assert!(stats.complete && stats.errors == 0, "{}", stats.message);
    assert_eq!((stats.candidates, rows.len()), (0, 2));
    for row in &rows {
        assert!(!row.provisional && !row.suggestion_eligible && !row.eligible_permanent);
        assert!(row.fingerprint.is_empty());
        assert!(row.explanation.contains("not reopened or measured"));
        assert!(check(&world, row, |_, _| {}).is_err());
    }
    let reason = |location: &str| {
        rows.iter()
            .find(|row| row.path == path(location))
            .and_then(|row| row.blocked_reason.clone())
            .unwrap()
    };
    assert!(reason(recent).contains("quiet days"));
    assert!(reason(sparse).contains("allocated locally"));

    let (coverage, measured) = world.run(ScanMode::MetadataCoverage, &[]);
    assert!(coverage.complete && coverage.errors == 0);
    for row in measured {
        let metadata = world.entries[&text(&row.path)];
        assert_eq!(row.logical_bytes, metadata.identity.size);
        assert_eq!(row.allocated_bytes, metadata.allocated);
        assert_eq!(row.file_count, 1);
        assert!(!row.suggestion_eligible);
    }

    // An earlier negative observation never prevents a later scan from
    // producing a fully measured, revalidatable review once it qualifies.
    world.sized(recent, 160 * 64 * 1024, 31);
    let (stats, rows) = world.run(ScanMode::Suggestions, &[]);
    assert!(stats.complete && stats.errors == 0);
    assert_eq!(stats.candidates, 1);
    let row = rows.iter().find(|row| row.path == path(recent)).unwrap();
    assert!(row.suggestion_eligible && !row.eligible_permanent);
    assert_eq!(row.file_count, 1);
    assert!(row.allocated_bytes >= 10_000_000);
    assert!(!row.fingerprint.is_empty());
    assert_eq!(check(&world, row, |_, _| {}), Ok(()));
}

#[test]
fn unfinished_downloads_are_no_findings() {
    let mut world = World::new();
    world.downloads = Some("/root/Downloads".into());
    world.folder("/root/Downloads", 60);
    world.sized("/root/Downloads/fresh.iso", 2 * LARGE, 1);
    world.sized("/root/Downloads/old.iso", 2 * LARGE, 60);
    world.sized("/root/Downloads/old.iso.part", 2 * LARGE, 60);
    let (stats, rows) = world.run(ScanMode::Suggestions, &[]);
    assert!(stats.complete);
    assert_eq!(rows.len(), 2);
    let fresh = rows.iter().find(|row| text(&row.path).ends_with("fresh.iso")).unwrap();
    assert!(!fresh.suggestion_eligible && !fresh.provisional);
    let old = rows.iter().find(|row| text(&row.path).ends_with("old.iso")).unwrap();
    assert!(old.suggestion_eligible);
    assert!(!old.eligible_permanent, "downloads are never removed for good");
    assert_eq!(old.kind, "download");
}

#[test]
fn a_recent_descendant_blocks_an_old_artifact_root() {
    let mut world = World::fixture(9, 4096);
    let artifact = "/root/project/node_modules";
    world.sized("/root/project/node_modules/payload", 4096, 0);
    let mut measured = world.measurement(artifact);
    assert!(measured.latest_modified_ns > world.entries[artifact].identity.modified_ns);
    measured.allocated_bytes = LARGE;
    let found = world.node("/root/project").unwrap().unwrap();
    assert!(suggestion_reason(&found, &measured, NOW)
        .unwrap()
        .contains("quiet"));
    world.sized("/root/project/node_modules/payload", LARGE, 0);
    let (stats, rows) = world.run(ScanMode::Suggestions, &[]);
    assert!(stats.complete);
    assert_eq!(stats.candidates, 0);
    assert_eq!(stats.excluded_artifacts, 1);
    assert!(rows[0].explanation.ends_with(
        " Not suggested: Measurement stopped when this artifact became ineligible; remaining contents were not traversed."
    ));
}

#[test]
fn recent_file_hint_excludes_only_suggestion_measurement() {
    let mut world = World::fixture(9, 4096);
    let artifact = "/root/project/node_modules";
    let leaf = "/root/project/node_modules/deep/nested/changed";
    world.folder("/root/project/node_modules/deep", 9);
    world.folder("/root/project/node_modules/deep/nested", 9);
    world.file(leaf, b"disposable output", 0);
    world.learning = true;
    world.learned.insert(artifact.to_owned(), leaf.to_owned());
    let (suggested, rows) = world.run_scope(artifact, ScanMode::Suggestions, &[]);
    assert!(suggested.complete && !suggested.cancelled);
    assert_eq!(
        (suggested.entries, suggested.errors, suggested.candidates),
        (1, 0, 0)
    );
    assert_eq!(suggested.excluded_artifacts, 1);
    let diagnostic = &rows[0];
    assert!(
        !diagnostic.provisional
            && !diagnostic.suggestion_eligible
            && !diagnostic.eligible_permanent
    );
    assert_eq!(
        (
            diagnostic.file_count,
            diagnostic.allocated_bytes,
            diagnostic.logical_bytes
        ),
        (0, 0, 0)
    );
    assert!(diagnostic.fingerprint.is_empty());
    assert!(diagnostic
        .blocked_reason
        .as_deref()
        .unwrap()
        .contains("quiet days"));
    assert!(diagnostic.explanation.contains("not traversed or measured"));
    assert_eq!(diagnostic.identity, world.entries[artifact].identity);
    let (covered, _) = world.run_scope(artifact, ScanMode::MetadataCoverage, &[]);
    assert!(covered.complete);
    assert_eq!((covered.entries, covered.files, covered.errors), (5, 2, 0));
    world.learned.clear();
    world.run(ScanMode::MetadataCoverage, &[]);
    assert!(world.learned.is_empty());
}

#[test]
fn invalid_hints_fall_back_but_kept_descendants_exclude_the_artifact() {
    let artifact = "/root/project/node_modules";
    let leaf = "/root/project/node_modules/payload";
    let mut world = World::fixture(9, 4096);
    world.learning = true;
    let (expected, rows) = world.run_scope(artifact, ScanMode::Suggestions, &[]);
    assert_eq!(rows.len(), 1);
    for hint in [
        leaf,
        "/root/project/node_modules/absent",
        "/root/project/package.json",
        artifact,
    ] {
        world.learned.insert(artifact.to_owned(), hint.to_owned());
        let (stats, actual) = world.run_scope(artifact, ScanMode::Suggestions, &[]);
        assert!(same_row(&actual[0], &rows[0]), "{hint}");
        assert_eq!(
            (stats.entries, stats.files, stats.errors),
            (expected.entries, expected.files, expected.errors)
        );
        assert!(world.learned.is_empty(), "{hint}");
    }
    world.sized(leaf, 4096, 0);
    let (expected, rows) = world.run_scope(artifact, ScanMode::Suggestions, &[leaf]);
    world.learned.insert(artifact.to_owned(), leaf.to_owned());
    let (actual, hinted) = world.run_scope(artifact, ScanMode::Suggestions, &[leaf]);
    assert!(hinted.is_empty());
    assert!(rows.is_empty(), "A kept descendant excludes its whole artifact");
    assert_eq!(actual.entries, expected.entries);
    assert_eq!(actual.entries, 1, "The kept artifact must not be measured");
}

#[test]
fn learned_recent_hints_skip_full_and_parent_repeats_without_changing_suggestions() {
    let mut world = World::fixture(9, LARGE);
    let expected = eligible(&mut world);
    let active = "/root/active";
    let artifact = "/root/active/node_modules";
    let leaf = "/root/active/node_modules/deep/recent";
    world.folder(active, 9);
    world.folder(artifact, 9);
    world.folder("/root/active/node_modules/deep", 9);
    world.file("/root/active/package.json", br#"{"name":"active"}"#, 9);
    world.file(
        "/root/active/package-lock.json",
        br#"{"lockfileVersion":3,"packages":{}}"#,
        9,
    );
    world.file(leaf, b"preserve this active output", 0);
    world.learning = true;
    let (first, before) = world.run(ScanMode::Suggestions, &[]);
    assert!(first.complete && !first.cancelled && first.errors == 0);
    assert_eq!(world.learned.get(artifact).map(String::as_str), Some(leaf));
    let (second, after) = world.run(ScanMode::Suggestions, &[]);
    assert!(second.complete && !second.cancelled && second.errors == 0);
    assert!(second.entries < first.entries);
    for rows in [&before, &after] {
        let row = rows.iter().find(|row| row.path == expected.path).unwrap();
        assert!(same_row(row, &expected));
    }
    assert_eq!((first.candidates, second.candidates), (1, 1));
    let row = after.iter().find(|row| row.path == path(artifact)).unwrap();
    assert!(!row.suggestion_eligible);
    assert!(row.fingerprint.is_empty());

    let learned = std::mem::take(&mut world.learned);
    let (ordinary, _) = world.run_scope(active, ScanMode::Suggestions, &[]);
    world.learned = learned;
    let (parent, rows) = world.run_scope(active, ScanMode::Suggestions, &[]);
    assert!(parent.entries < ordinary.entries);
    let row = rows.iter().find(|row| row.path == path(artifact)).unwrap();
    assert_eq!(row.file_count, 0);
}

#[test]
fn unsafe_recent_hints_fall_back_without_learning() {
    for linked in [false, true] {
        let artifact = "/root/project/node_modules";
        let leaf = "/root/project/node_modules/payload";
        let mut world = World::fixture(9, 4096);
        if linked {
            world.file(leaf, b"preserve this active output", 0);
            let mut meta = world.entries[leaf];
            meta.links = 2;
            world.entries.insert(leaf.to_owned(), meta);
        } else {
            world.put(leaf, LINK, 12, 9);
        }
        world.learning = true;
        world.learned.insert(artifact.to_owned(), leaf.to_owned());
        let (stats, rows) = world.run_scope(artifact, ScanMode::Suggestions, &[]);
        assert!(stats.complete && stats.entries > 1);
        assert!(world.learned.is_empty());
        assert!(!rows[0].suggestion_eligible);
    }
}

#[test]
fn keep_excludes_the_whole_artifact_before_measurement() {
    let mut world = World::fixture(0, 4096);
    let (stats, rows) = world.run(ScanMode::Suggestions, &["/root/project/node_modules"]);
    assert!(rows.is_empty());
    assert_eq!(stats.files, 2);
    assert_eq!(stats.skipped, 1);
    assert!(stats.complete);
    assert!(!world.read.iter().any(|location| location.contains("node_modules")));
}

#[test]
fn keeping_anything_around_or_inside_an_artifact_protects_it() {
    for kept in [
        "/root/project",
        "/root/project/node_modules",
        "/root/project/node_modules/payload",
        "/root/project/",
        "/root//project/./node_modules/",
        "/root/project/node_modules/payload/.",
    ] {
        let mut world = World::fixture(9, LARGE);
        let (stats, rows) = world.run(ScanMode::Suggestions, &[kept]);
        assert!(stats.complete);
        assert!(rows.is_empty(), "{kept}");
        assert!(!world.read.iter().any(|location| location.contains("node_modules")));
    }
    let mut world = World::fixture(9, LARGE);
    let (_, rows) = world.run(ScanMode::Suggestions, &["/root/project/node_modules-other"]);
    assert!(rows[0].suggestion_eligible);
}

#[test]
fn metadata_coverage_shows_what_suggestions_offer() {
    let (_, quick) = World::fixture(9, LARGE).run(ScanMode::Suggestions, &[]);
    let (stats, thorough) = World::fixture(9, LARGE).run(ScanMode::MetadataCoverage, &[]);
    assert!(stats.complete);
    let offered: Vec<&Candidate> = quick.iter().filter(|row| row.suggestion_eligible).collect();
    assert_eq!(offered.len(), 1);
    for row in offered {
        let same = thorough.iter().rev().find(|other| other.id == row.id).unwrap();
        assert_eq!(same.path, row.path);
        assert_eq!(same.identity, row.identity);
        assert_eq!(same.evidence, row.evidence);
        assert_eq!(same.fingerprint, row.fingerprint);
        assert_eq!(same.logical_bytes, row.logical_bytes);
        assert_eq!(same.allocated_bytes, row.allocated_bytes);
        assert_eq!(same.file_count, row.file_count);
        assert_eq!(same.eligible_permanent, row.eligible_permanent);
        assert!(same.suggestion_eligible);
    }
}

#[test]
fn newly_recognized_artifacts_containing_keep_are_not_measured() {
    for name in [".venv", ".next"] {
        let mut world = World::new();
        let artifact = format!("/root/container/{name}");
        let nested = format!("{artifact}/nested");
        let sibling = "/root/container/sibling";
        world.folder("/root/container", 9);
        world.folder(&artifact, 9);
        world.project(&nested, 9, 4096);
        world.project(sibling, 9, 4096);
        let (_, before) = world.run(ScanMode::Suggestions, &[]);
        let kept = format!("{nested}/node_modules");
        assert!(
            before.iter().any(|row| row.path == path(&kept)),
            "An unmarked wrapper must expose its nested artifact"
        );
        if name == ".venv" {
            world.file(&format!("{artifact}/pyvenv.cfg"), b"home = /usr/local/bin\n", 9);
        } else {
            world.file("/root/container/package.json", br#"{"name":"fixture"}"#, 9);
        }
        for mode in [ScanMode::Suggestions, ScanMode::MetadataCoverage] {
            world.read.clear();
            let (stats, rows) = world.run(mode, &[&kept]);
            assert!(
                world.read.iter().all(|location| !location.starts_with(&artifact)),
                "An artifact containing Keep must not be traversed"
            );
            assert!(stats.complete, "{name}: {}", stats.message);
            assert_eq!(rows.len(), 1, "Ordinary ancestors must retain their siblings");
            assert_eq!(rows[0].path, path(&format!("{sibling}/node_modules")));
            assert!(stats.excluded_artifacts >= 1);
        }
    }
}

#[test]
fn suggestion_pruning_never_initializes_excluded_directory_readers() {
    let mut world = World::fixture(0, 4096);
    world.kind = "home".to_owned();
    let mut excluded = vec!["/root/project/node_modules".to_owned()];
    for name in [
        "Music",
        "Pictures",
        "Movies",
        "Dropbox",
        "Collection.musiclibrary",
    ] {
        let location = format!("/root/{name}");
        world.folder(&location, 0);
        world.file(&format!("{location}/preserve"), b"personal data", 0);
        excluded.push(location);
    }
    world.excluded = vec![
        "/root/Dropbox".to_owned(),
        "/root/Collection.musiclibrary".to_owned(),
    ];
    let (stats, rows) = world.run(ScanMode::Suggestions, &[]);
    assert!(world
        .read
        .iter()
        .all(|location| excluded.iter().all(|never| !location.starts_with(never.as_str()))));
    assert!(stats.complete, "{}", stats.message);
    assert_eq!(stats.excluded_artifacts, 1);
    assert!(rows.is_empty());
}

#[test]
fn home_lanes_publish_quick_project_before_huge_cache_finishes() {
    let mut world = World::new();
    world.kind = "home".to_owned();
    world.folder("/root/Projects", 31);
    let quick = "/root/Projects/quick/node_modules";
    world.project("/root/Projects/quick", 31, 100 * 1024 * 1024);
    let cache = "/root/Library/Caches/SlowFixture";
    world.folder("/root/Library", 31);
    world.folder("/root/Library/Caches", 31);
    world.folder(cache, 31);
    let slow: usize = 2_048;
    world.quantum = 64;
    for index in 0..slow {
        world.sized(&format!("{cache}/payload-{index:04}"), 64 * 1024, 31);
    }
    let root = world.root();
    let session = world.session(scan(&root, &None, &world.setting(), false));
    let mut terminal: Vec<String> = Vec::new();
    let mut reads: Option<usize> = None;
    let (stats, _) = world.drive_watching(session, calm_tick(), &mut |world, batch| {
        for candidate in &batch.candidates {
            if candidate.provisional {
                continue;
            }
            let location = text(&candidate.path);
            if location == quick {
                reads = Some(
                    world
                        .measured
                        .iter()
                        .filter(|entry| entry.starts_with(cache))
                        .count(),
                );
            }
            terminal.push(location);
        }
    });
    assert!(stats.complete, "{}", stats.message);
    assert_eq!(stats.candidates, 2);
    let place = |wanted: &str| terminal.iter().position(|location| location == wanted);
    assert!(place(quick).unwrap() < place(cache).unwrap(), "{terminal:?}");
    let reads = reads.expect("the quick result must observe the in-progress cache cursor");
    assert!(
        reads > 0 && reads < slow,
        "the quick result arrived after {reads} of {slow} cache reads"
    );
}

#[test]
fn aged_allocated_artifact_is_useful_before_deep_coverage_finishes_and_rechecks_activity() {
    let mut world = World::fixture(9, LARGE);
    // This fresh artifact is one level shallower than the useful project,
    // so eager measurement would consume all its payload metadata first.
    world.folder("/root/node_modules", 0);
    world.file("/root/package.json", br#"{"name":"fresh-fixture"}"#, 0);
    world.file(
        "/root/package-lock.json",
        br#"{"lockfileVersion":3,"packages":{}}"#,
        0,
    );
    let fresh: u64 = 2048;
    for index in 0..fresh {
        world.sized(&format!("/root/node_modules/payload-{index}"), 1024, 0);
    }
    let mut deep = "/root/unrelated".to_owned();
    for _ in 0..40 {
        world.folder(&deep, 0);
        world.file(&format!("{deep}/small"), b"x", 0);
        deep = format!("{deep}/nested");
    }
    let root = world.root();
    let session = world.session(scan(&root, &None, &world.setting(), false));
    let mut first: Option<u64> = None;
    let mut suggestion: Option<Candidate> = None;
    let (stats, _) = world.drive_watching(session, calm_tick(), &mut |_, batch| {
        for candidate in &batch.candidates {
            if candidate.suggestion_eligible {
                assert!(candidate.blocked_reason.is_none());
                assert!(candidate.allocated_bytes >= LARGE);
                assert!(!candidate.fingerprint.is_empty());
                first.get_or_insert(batch.stats.entries);
                suggestion = Some(candidate.copy());
            }
        }
    });
    assert!(stats.complete, "{}", stats.message);
    assert_eq!(stats.candidates, 1);
    assert!(stats.first_finding_ms.is_some());
    assert_eq!(stats.excluded_artifacts, 1);
    assert!(
        stats.entries < fresh,
        "Interactive discovery must not enumerate the excluded fresh artifact"
    );
    assert!(
        first.unwrap() < stats.entries,
        "Shallow recommendations should precede the deep unrelated branch"
    );
    let candidate = suggestion.expect("An old, allocated, idle 100 MB artifact must be suggested");
    assert!(candidate.eligible_permanent);
    assert_eq!(check(&world, &candidate, |_, _| {}), Ok(()));
    let payload = "/root/project/node_modules/payload";
    let mut meta = world.entries[payload];
    meta.identity.modified_ns = NOW;
    world.entries.insert(payload.to_owned(), meta);
    let reason = check(&world, &candidate, |_, _| {}).unwrap_err();
    assert!(reason.contains("quiet"), "{reason}");
}

#[test]
fn a_downloads_child_in_a_generic_folder_keeps_personal_file_rules() {
    let mut world = World::new();
    world.folder("/root/Downloads", 0);
    for (name, size, folder_kind, home_kind) in [
        ("data.bin", 100_000_000, None, "download"),
        ("archive.zip", 50_000_000, None, "archive"),
        ("recording.MOV", 500_000_000, Some("largefile"), "download"),
    ] {
        let location = format!("/root/Downloads/{name}");
        world.sized(&location, size, 0);
        let mut caches = EvidenceCaches::new();
        world.downloads = None;
        let found = world.evidence(&location, &mut caches).unwrap();
        assert_eq!(found.as_ref().map(|found| found.kind.as_str()), folder_kind);
        world.downloads = Some("/root/Downloads".to_owned());
        let found = world.evidence(&location, &mut caches).unwrap().unwrap();
        assert_eq!(found.kind, home_kind);
    }
}

#[test]
fn small_personal_files_and_unfinished_downloads_are_not_suggestions() {
    let mut world = World::fixture(0, 4096);
    world.kind = "home".to_owned();
    world.downloads = Some("/root/Downloads".to_owned());
    world.folder("/root/Documents", 0);
    world.folder("/root/Downloads", 0);
    world.folder("/root/Downloads/unfinished.download", 0);
    for location in [
        "/root/Documents/important.pdf",
        "/root/project/personal.dmg",
        "/root/Downloads/review.dmg",
        "/root/Downloads/incomplete.crdownload",
        "/root/Downloads/unfinished.download/payload.dmg",
    ] {
        world.sparse(location, LARGE, 0);
    }
    world.sparse("/root/Documents/below-floor.pdf", 499_999_999, 0);
    world.sparse("/root/Documents/at-floor.pdf", 500_000_000, 0);
    let (stats, rows) = world.run(ScanMode::Suggestions, &[]);
    let personal: Vec<&Candidate> = rows.iter().filter(|row| row.kind == "largefile").collect();
    assert_eq!(personal.len(), 1);
    assert_eq!(personal[0].path, path("/root/Documents/at-floor.pdf"));
    let downloads: Vec<&Candidate> = rows.iter().filter(|row| row.kind == "installer").collect();
    assert_eq!(downloads.len(), 1);
    assert_eq!(downloads[0].path, path("/root/Downloads/review.dmg"));
    assert!(
        !downloads[0].suggestion_eligible,
        "A sparse fresh image must remain diagnostic"
    );
    assert!(rows.iter().all(|row| !row.suggestion_eligible));
    assert_eq!(stats.candidates, 0);
    assert!(stats.skipped >= 3);
}

#[test]
fn home_discovery_excludes_media_but_retains_projects_and_downloads() {
    let mut world = World::new();
    world.kind = "home".to_owned();
    world.downloads = Some("/root/Downloads".to_owned());
    world.folder("/root/Projects", 0);
    world.project("/root/Projects/Music", 8, 4096);
    for name in ["Music", "Pictures", "Movies"] {
        world.project(&format!("/root/{name}"), 0, 14);
    }
    world.folder("/root/Downloads", 0);
    world.sparse("/root/Downloads/review.dmg", LARGE, 0);
    let (stats, rows) = world.run(ScanMode::Suggestions, &[]);
    assert!(stats.complete, "{}", stats.message);
    assert_eq!(stats.errors, 0);
    assert!(rows.iter().all(|row| !world.facts(&text(&row.path)).media));
    let artifact = rows
        .iter()
        .find(|row| row.path == path("/root/Projects/Music/node_modules"))
        .expect("A project named Music must remain discoverable");
    assert!(rows
        .iter()
        .any(|row| row.path == path("/root/Downloads/review.dmg") && row.kind == "installer"));
    let mut stale = artifact.copy();
    stale.path = path("/root/Music/node_modules");
    let reason = check(&world, &stale, |want, seen| {
        if want == Want::Policy {
            seen.policy = Some(Err("Personal media is never cleaned up".into()));
        }
    })
    .unwrap_err();
    assert!(!reason.is_empty());
}

#[test]
fn fallible_revalidation_observer_propagates_failure_and_keeps_identity_checks() {
    let mut world = World::fixture(9, LARGE);
    let candidate = eligible(&mut world);
    let reason = check(&world, &candidate, |want, seen| {
        if want == Want::Measure {
            seen.measured = Some(Err("Manifest persistence failed".into()));
        }
    })
    .unwrap_err();
    assert_eq!(reason, "Manifest persistence failed");

    world.folder("/root/project/node_modules", 9);
    let visited = std::cell::Cell::new(false);
    let reason = check(&world, &candidate, |want, _| {
        if want == Want::Measure {
            visited.set(true);
        }
    })
    .unwrap_err();
    assert!(reason.contains("changed"), "{reason}");
    assert!(
        !visited.get(),
        "Changed root identity must fail before streaming entries"
    );
}

#[test]
fn revalidation_rejects_changed_contents_and_new_links() {
    let mut world = World::fixture(8, 4096);
    let (_, rows) = world.run(ScanMode::Suggestions, &[]);
    let mut candidate = rows[0].copy();
    candidate.blocked_reason = None;
    world.file("/root/project/node_modules/payload", b"changed", 0);
    assert!(check(&world, &candidate, |_, _| {}).is_err());

    let mut world = World::fixture(9, LARGE);
    let candidate = eligible(&mut world);
    assert_eq!(check(&world, &candidate, |_, _| {}), Ok(()));
    world.sized("/root/project/node_modules/extra", 10, 9);
    assert!(check(&world, &candidate, |_, _| {}).is_err());
}

#[test]
fn revalidation_rejects_ownership_changes_during_the_measurement() {
    let mut world = World::fixture(9, LARGE);
    let candidate = eligible(&mut world);
    let mut changed = World::fixture(9, LARGE);
    changed.file(
        "/root/project/package.json",
        br#"{"name":"changed-project","dependencies":{"x":"2"}}"#,
        9,
    );
    let mut caches = EvidenceCaches::new();
    let other = changed
        .evidence("/root/project/node_modules", &mut caches)
        .unwrap()
        .unwrap();
    let reason = check(&world, &candidate, |want, seen| {
        if want == Want::EvidenceAgain {
            seen.evidence_again = Some(Ok(Some(other.copy())));
        }
    })
    .unwrap_err();
    assert!(
        reason.contains("configuration changed during verification"),
        "{reason}"
    );
}

#[test]
fn revalidation_rejects_new_or_nearer_git_tracking_during_measurement() {
    let mut world = World::fixture(9, LARGE);
    let candidate = eligible(&mut world);
    for existing_outer_repository in [false, true] {
        let reason = check(&world, &candidate, |want, seen| match want {
            Want::Git => {
                seen.git = Some(Ok(if existing_outer_repository {
                    Some(Repository {
                        work_tree: path("/root"),
                    })
                } else {
                    None
                }))
            }
            Want::Nearer => seen.nearer = Some(Ok(true)),
            Want::GitAgain => {
                seen.git_again = Some(Err(
                    "Git tracks content inside this artifact; cleanup is excluded".into(),
                ))
            }
            _ => {}
        })
        .unwrap_err();
        assert!(
            reason.contains("tracks content") || reason.contains("Repository ownership changed"),
            "{reason}"
        );
    }
}

#[test]
fn revalidation_rejects_project_activity_started_during_measurement() {
    let mut world = World::fixture(9, LARGE);
    let candidate = eligible(&mut world);
    let snapshot = ActivitySnapshot {
        working_directories: vec![path("/root/project")],
        executable_paths: vec![],
        running_app_bundle_ids: vec![],
    };
    let reason = check(&world, &candidate, |want, seen| {
        if want == Want::ActivityAgain {
            seen.activity_again = Some(Ok(snapshot.blocked(&path("/root/project"))));
        }
    })
    .unwrap_err();
    assert!(reason.contains("running process"), "{reason}");
}

#[test]
fn newly_tracked_content_is_rechecked_before_mutation() {
    let mut world = World::fixture(9, LARGE);
    let candidate = eligible(&mut world);
    assert!(candidate.blocked_reason.is_none());
    let reason = check(&world, &candidate, |want, seen| {
        if want == Want::Git {
            seen.git = Some(Err(
                "Git tracks content inside this artifact; cleanup is excluded".into(),
            ));
        }
    })
    .unwrap_err();
    assert!(reason.contains("tracks"), "{reason}");
}

#[test]
fn bun_text_lock_is_recognized_and_all_evidence_is_revalidated() {
    let mut world = World::fixture(8, 4096);
    world.entries.remove("/root/project/package-lock.json");
    world.file(
        "/root/project/bun.lock",
        br#"{"lockfileVersion": 1, "workspaces": {"": {"name": "fixture",},},}"#,
        8,
    );
    let first = world.node("/root/project").unwrap().unwrap();
    assert!(first.blocked.is_none());
    assert_eq!(first.activity_root, Some(path("/root/project")));
    let (_, rows) = world.run(ScanMode::Suggestions, &[]);
    assert_eq!(rows.len(), 1);
    assert!(rows[0].blocked_reason.is_none());
    assert!(!rows[0].suggestion_eligible, "Tiny fixtures remain diagnostic");
    world.file(
        "/root/project/bunfig.toml",
        b"[install]\nlinker = 'hoisted'\n",
        0,
    );
    let changed = world.node("/root/project").unwrap().unwrap();
    assert_ne!(first.fingerprint, changed.fingerprint);
    world.file(
        "/root/project/bun.lock",
        b"{\"lockfileVersion\":1,/*unfinished",
        0,
    );
    world.ownership = Err("The Bun lockfile is not valid".into());
    assert!(world.node("/root/project").is_err());
}

#[test]
fn venv_recognition_requires_a_direct_regular_pyvenv_cfg() {
    let mut world = World::environment();
    let venv = "/root/api/.venv";
    // No marker: not an artifact and not a diagnostic.
    assert!(world.venv("/root/api", venv).unwrap().is_none());
    // A marker reachable only through a link is not positive recognition.
    world.put("/root/api/.venv/pyvenv.cfg", LINK, 8, 9);
    assert!(world.venv("/root/api", venv).unwrap().is_none());
    world.file(
        "/root/api/.venv/pyvenv.cfg",
        b"home = /usr/local/bin\nversion = 3.12.1\n",
        9,
    );
    let first = world.venv("/root/api", venv).unwrap().unwrap();
    assert_eq!(first.kind, "venv");
    assert_eq!(first.title, "api Python environment");
    assert_eq!(first.quiet_days, DEVELOPER_QUIET_DAYS);
    assert_eq!(first.activity_root, Some(path("/root/api")));
    assert!(first.blocked.is_none());
    // A changed configuration invalidates the reviewed evidence.
    world.file(
        "/root/api/.venv/pyvenv.cfg",
        b"home = /opt/python/bin\nversion = 3.13.0\n",
        9,
    );
    let changed = world.venv("/root/api", venv).unwrap().unwrap();
    assert_ne!(first.fingerprint, changed.fingerprint);
}

#[test]
fn venv_dispatch_covers_both_spellings_but_not_lookalikes() {
    let mut world = World::environment();
    let mut caches = EvidenceCaches::new();
    for name in ["venv", "virtualenv"] {
        let location = format!("/root/api/{name}");
        world.folder(&location, 0);
        world.file(&format!("{location}/pyvenv.cfg"), b"home = /usr/local/bin\n", 0);
        let found = world.evidence(&location, &mut caches).unwrap();
        if name == "venv" {
            assert_eq!(found.unwrap().kind, "venv");
        } else {
            assert!(found.is_none(), "Lookalike names are never artifacts");
        }
    }
}

#[test]
fn artifact_names_are_exact() {
    for (name, artifact, conditional) in [
        ("venv", true, true),
        (".venv", true, true),
        ("venvs", false, false),
        ("node_modules", true, false),
        ("target", true, false),
        ("Node_Modules", false, false),
        (".next", true, true),
        ("src", false, false),
    ] {
        assert_eq!(artifact_component(name.as_bytes(), false), artifact, "{name}");
        let location = path(&format!("/root/{name}"));
        assert_eq!(is_artifact_name(&location, false), artifact, "{name}");
        assert_eq!(is_conditional_artifact_name(&location, false), conditional, "{name}");
    }
    assert!(artifact_component(b"Pods", true));
    assert!(is_conditional_artifact_name(&path("/root/Pods"), true));
}

#[test]
fn tracked_descendant_disqualifies_a_python_environment() {
    let mut world = World::environment();
    world.file("/root/api/.venv/pyvenv.cfg", b"home = /usr/local/bin\n", 9);
    world.sized("/root/api/.venv/lib/payload", LARGE, 9);
    world.in_git = Some("Git tracks content inside this artifact; cleanup is excluded".into());
    let (_, rows) = world.run(ScanMode::Suggestions, &[]);
    assert!(rows[0].blocked_reason.as_deref().unwrap().contains("tracks"));
    assert!(!rows[0].suggestion_eligible);
}

#[test]
fn unmarked_venv_directory_stays_ordinary_and_traversed() {
    let mut world = World::environment();
    let (stats, rows) = world.run(ScanMode::Suggestions, &[]);
    assert!(stats.complete, "{}", stats.message);
    assert!(rows.is_empty());
    assert_eq!(stats.excluded_artifacts, 0);
    assert_eq!(stats.files, 1, "The unrecognized contents remain covered");
    assert!(stats.entries >= 4);

    // With its marker the same quiet directory becomes a completed
    // diagnostic row; this tiny fixture is still below the size policy.
    world.file("/root/api/.venv/pyvenv.cfg", b"home = /usr/local/bin\n", 8);
    let (marked, rows) = world.run(ScanMode::Suggestions, &[]);
    assert!(marked.complete, "{}", marked.message);
    assert_eq!(rows.len(), 1);
    assert_eq!(rows[0].kind, "venv");
    assert_eq!(rows[0].path, path("/root/api/.venv"));
    assert!(rows[0].blocked_reason.is_none());
    assert!(!rows[0].suggestion_eligible && !rows[0].eligible_permanent);
}

#[test]
fn recent_unmarked_conditional_directories_still_discover_nested_projects() {
    for name in [".venv", "venv", ".next", ".nuxt", ".turbo", ".parcel-cache"] {
        let mut world = World::new();
        let ordinary = format!("/root/{name}");
        world.folder(&ordinary, 0);
        world.project(&format!("{ordinary}/project"), 9, 4096);
        let (stats, rows) = world.run(ScanMode::Suggestions, &[]);
        assert!(stats.complete, "{name}: {}", stats.message);
        assert_eq!(rows.len(), 1, "A fresh unmarked {name} must remain ordinary");
        assert_eq!(rows[0].path, path(&format!("{ordinary}/project/node_modules")));
        assert_eq!(rows[0].kind, "node");
    }
}

#[test]
fn recent_venv_boundary_is_pruned_without_reading_its_contents() {
    let mut world = World::environment();
    world.file("/root/api/.venv/pyvenv.cfg", b"home = /usr/local/bin\n", 8);
    // Only the boundary is fresh; its marker identifies it without a walk.
    world.folder("/root/api/.venv", 0);
    let (stats, rows) = world.run(ScanMode::Suggestions, &[]);
    assert!(!world.read.iter().any(|location| location.contains(".venv")));
    assert!(stats.complete, "{}", stats.message);
    assert_eq!(stats.excluded_artifacts, 1);
    assert!(rows.is_empty());
}

#[test]
fn web_caches_scan_only_beside_their_manifest() {
    let mut world = World::new();
    for project in ["/root/with-manifest", "/root/no-manifest"] {
        world.folder(project, 8);
        world.folder(&format!("{project}/.next"), 8);
        world.folder(&format!("{project}/.next/cache"), 8);
        world.sized(&format!("{project}/.next/cache/payload"), 2048, 8);
    }
    world.file("/root/with-manifest/package.json", br#"{"name":"site"}"#, 8);
    let (stats, rows) = world.run(ScanMode::Suggestions, &[]);
    assert!(stats.complete, "{}", stats.message);
    assert_eq!(rows.len(), 1);
    assert_eq!(rows[0].path, path("/root/with-manifest/.next"));
    assert_eq!(rows[0].kind, "webcache");
    assert_eq!(rows[0].title, "with-manifest build cache");
    assert!(rows[0].blocked_reason.is_none());
    assert!(!rows[0].suggestion_eligible, "Tiny fixtures remain diagnostic");
    // The manifest and both payloads are ordinary coverage; the cache
    // without a manifest was traversed rather than excluded.
    assert!(stats.files >= 2);
    assert!(world.read.contains(&"/root/no-manifest/.next/cache".to_owned()));
}

#[test]
fn aged_allocated_venv_with_internal_symlink_is_suggested_and_revalidates() {
    let mut world = World::environment();
    let venv = "/root/api/.venv";
    world.folder("/root/api", 9);
    world.folder(venv, 9);
    world.folder("/root/api/.venv/lib", 9);
    world.file(
        "/root/api/.venv/pyvenv.cfg",
        b"home = /usr/local/bin\nversion = 3.12.1\n",
        9,
    );
    world.folder("/root/api/.venv/bin", 9);
    world.file("/root/api/interpreter", b"preserve the linked interpreter", 9);
    world.sized("/root/api/.venv/lib/payload", LARGE, 9);
    world.put("/root/api/.venv/bin/python", LINK, 17, 9);
    let (stats, rows) = world.run(ScanMode::Suggestions, &[]);
    assert!(stats.complete, "{}", stats.message);
    let candidate = rows
        .iter()
        .find(|row| row.path == path(venv))
        .expect("The aged, allocated environment must be discovered");
    assert!(candidate.suggestion_eligible);
    assert!(candidate.eligible_permanent);
    assert_eq!(candidate.kind, "venv");
    assert_eq!(candidate.title, "api Python environment");
    assert!(candidate.allocated_bytes >= LARGE);
    assert_eq!(check(&world, candidate, |_, _| {}), Ok(()));
}

#[test]
fn evidence_content_cache_reuses_unchanged_files_and_rereads_changed_identities() {
    let mut world = World::fixture(9, LARGE);
    let location = "/root/project/package-lock.json";
    let fresh = world.node("/root/project").unwrap().unwrap();
    let mut caches = EvidenceCaches::new();
    let reads = world.fill(&mut caches, "/root/project");
    assert!(reads > 0);
    let first = world.node_cached("/root/project", &mut caches).unwrap().unwrap();
    assert_eq!(
        world.fill(&mut caches, "/root/project"),
        0,
        "Unchanged identities are served without rereading"
    );
    let second = world.node_cached("/root/project", &mut caches).unwrap().unwrap();
    for cached in [&first, &second] {
        assert_eq!(cached.fingerprint, fresh.fingerprint);
        assert_eq!(cached.latest_modified_ns, fresh.latest_modified_ns);
        assert_eq!(cached.blocked, fresh.blocked);
        assert_eq!(cached.activity_root, fresh.activity_root);
    }
    // A modified manifest has a new identity and must be reread.
    world.file(
        location,
        br#"{"lockfileVersion":3,"packages":{},"name":"rewritten"}"#,
        9,
    );
    assert_eq!(world.fill(&mut caches, "/root/project"), 1);
    let changed = world.node_cached("/root/project", &mut caches).unwrap().unwrap();
    assert_ne!(changed.fingerprint, fresh.fingerprint);
    assert_eq!(
        changed.fingerprint,
        world.node("/root/project").unwrap().unwrap().fingerprint
    );
}

#[test]
fn cargo_requires_standard_evidence_and_blocks_custom_output_paths() {
    let mut world = World::fixture(0, 4096);
    let artifact = "/root/project/target";
    world.folder(artifact, 0);
    world.file(
        "/root/project/Cargo.toml",
        b"[package]\nname = 'fixture'\nversion = '0.1.0'\n",
        0,
    );
    assert!(world.cargo("/root/project", artifact).unwrap().is_none());
    world.file(
        "/root/project/target/CACHEDIR.TAG",
        b"Signature: 8a477f597d28d172789f06886806bc55\n",
        0,
    );
    assert!(world.cargo("/root/project", artifact).unwrap().is_some());
    world.folder("/root/project/.cargo", 0);
    world.file(
        "/root/project/.cargo/config.toml",
        b"[build]\ntarget-dir = '../shared-output'\n",
        0,
    );
    assert!(world
        .cargo("/root/project", artifact)
        .unwrap()
        .unwrap()
        .blocked
        .is_some());
}

#[test]
fn download_rows_never_offer_permanent_cleanup() {
    let mut world = World::fixture(0, 4096);
    world.kind = "downloads".to_owned();
    world.downloads = Some("/root".to_owned());
    world.sparse("/root/project/review.dmg", LARGE, 0);
    let (_, rows) = world.run(ScanMode::Suggestions, &[]);
    let download = rows.iter().find(|row| row.kind == "installer").unwrap();
    assert!(!download.eligible_permanent);
    assert!(download.consequence.contains("never earn chips"));

    world.sized("/root/setup.dmg", 2 * LARGE, 60);
    world.sized("/root/backup.zip", 2 * LARGE, 60);
    let (_, rows) = world.run(ScanMode::Suggestions, &[]);
    let offered: Vec<&Candidate> = rows.iter().filter(|row| row.suggestion_eligible).collect();
    assert_eq!(offered.len(), 2);
    assert!(offered.iter().all(|row| !row.eligible_permanent));
}

fn same_row(left: &Candidate, right: &Candidate) -> bool {
    left.id == right.id
        && left.path == right.path
        && left.identity == right.identity
        && left.evidence == right.evidence
        && left.fingerprint == right.fingerprint
        && left.logical_bytes == right.logical_bytes
        && left.allocated_bytes == right.allocated_bytes
        && left.file_count == right.file_count
        && left.blocked_reason == right.blocked_reason
        && left.explanation == right.explanation
        && left.suggestion_eligible == right.suggestion_eligible
        && left.eligible_permanent == right.eligible_permanent
        && left.provisional == right.provisional
}

#[test]
fn artifacts_are_asked_about_at_the_project_that_owns_them() {
    let world = World::fixture(9, LARGE);
    let mut caches = EvidenceCaches::new();
    let location = path("/root/project/node_modules");
    let mut found = world
        .evidence("/root/project/node_modules", &mut caches)
        .unwrap()
        .unwrap();
    found.activity_root = Some(path("/root"));
    assert_eq!(owning_project(&found, &location), path("/root"));
    found.activity_root = None;
    assert_eq!(owning_project(&found, &location), path("/root/project"));
    assert_eq!(holding_folder(&location), path("/root/project"));
}
