use chippytea::git::config::validate_git_config;
use chippytea::git::evidence::{
    git_metadata, Captured, FolderFact, GitEvidence, NameFact, Observed, PathFacts,
};
use chippytea::git::index::validate_git_index;
use chippytea::git::inquiry::{Inquiry, Told, Wanted};
use chippytea::git::pointer::git_pointer_path;
use chippytea::git::tracking::{
    find_repository, git_pathspec, read_answer, Answer, ChildEvent, MarkerFact, ReadEvent, Round,
};
use chippytea::model::{EntryMeta, Identity, Root};
use chippytea::paths::{fs_path, FsPath};
use chippytea::probe::{Ask, Step};
use std::collections::BTreeMap;

const USER: u32 = 501;
const FOLDER: u32 = 0o040755;
const FILE: u32 = 0o100644;
const LINK: u32 = 0o120777;

fn path(text: &str) -> FsPath {
    fs_path(text.as_bytes().to_vec())
}

fn text(path: &FsPath) -> String {
    String::from_utf8(path.to_vec()).unwrap()
}

// An index with one tracked name.
fn index(name: &str) -> Vec<u8> {
    let mut bytes = b"DIRC\0\0\0\x02\0\0\0\x01".to_vec();
    let mut entry = vec![0u8; 24];
    entry.extend([0, 0, 0x81, 0xa4]);
    entry.extend([0u8; 32]);
    entry.extend((name.len() as u16).to_be_bytes());
    entry.extend(name.as_bytes());
    entry.push(0);
    while entry.len() % 8 != 0 {
        entry.push(0);
    }
    bytes.extend(entry);
    bytes.extend([7u8; 20]);
    bytes
}

struct Disk {
    entries: BTreeMap<String, EntryMeta>,
    contents: BTreeMap<String, Vec<u8>>,
    inode: u64,
}

impl Disk {
    fn put(&mut self, location: &str, mode: u32, size: u64) {
        self.inode += 1;
        self.entries.insert(
            location.to_owned(),
            EntryMeta {
                identity: Identity {
                    device: 1,
                    inode: self.inode,
                    mode,
                    size,
                    modified_ns: 0,
                    changed_ns: 0,
                },
                allocated: 0,
                links: 1,
                uid: USER,
                flags: 0,
            },
        );
    }

    fn file(&mut self, location: &str, contents: &[u8]) {
        self.put(location, FILE, contents.len() as u64);
        self.contents.insert(location.to_owned(), contents.to_vec());
    }

    fn root(&self, location: &str) -> Root {
        Root {
            id: "root".into(),
            path: path(location),
            kind: "projects".into(),
            identity: self.entries[location].identity,
        }
    }

    fn observe(&self, root: &Root, location: &FsPath) -> PathFacts {
        let base = text(&root.path);
        let mut ancestors = Vec::new();
        let mut above = text(location);
        while above != base && above.starts_with(&base) {
            above.truncate(above.rfind('/').unwrap());
            ancestors.push(FolderFact {
                path: path(&above),
                meta: match self.entries.get(&above) {
                    Some(meta) => Ok(*meta),
                    None => Err("missing".to_owned()),
                },
            });
        }
        let below = text(location);
        let names = below[base.len()..]
            .split('/')
            .skip(1)
            .map(|name| NameFact {
                name: name.as_bytes().to_vec(),
                excluded: name.starts_with('.') || name == "Library",
            })
            .collect();
        PathFacts {
            path: location.clone(),
            names,
            ancestors,
            entry: Ok(self.entries.get(&text(location)).copied()),
            content: None,
        }
    }

    fn read(&self, location: &FsPath) -> Result<Captured, String> {
        let key = text(location);
        let meta = self.entries[&key];
        Ok(Captured {
            bytes: self.contents[&key].clone(),
            identity: meta.identity,
            after: Ok(meta),
        })
    }

    fn answer(&self, root: &Root, seen: &mut Observed, asked: &FsPath, ask: Ask) {
        match ask {
            Ask::Entry => seen.facts.push(self.observe(root, asked)),
            Ask::Content => {
                let fact = seen.facts.iter_mut().find(|fact| &fact.path == asked).unwrap();
                fact.content = Some(self.read(asked));
            }
            _ => unreachable!(),
        }
    }

    fn capture(&self, root: &Root, tree: &str) -> Result<GitEvidence, String> {
        let mut seen = Observed {
            facts: Vec::new(),
            user: USER,
        };
        loop {
            match GitEvidence::read(root, &path(tree), &seen, false) {
                Step::Need(asked, ask) => self.answer(root, &mut seen, &asked, ask),
                Step::Fail(reason) => return Err(reason),
                Step::Have(found) => {
                    self.unchanged(root, &found)?;
                    return Ok(found);
                }
            }
        }
    }

    // Runs an inquiry. Each look at the answer is taken from `rounds`, and each
    // check of the authorized folder from `valid`.
    fn inquire(
        &self,
        root: &Root,
        project: &str,
        artifact: &str,
        rounds: &[Round],
        valid: &[Result<(), String>],
    ) -> (Result<Option<GitEvidence>, String>, Vec<String>) {
        let mut state = Inquiry::new();
        let mut order: Vec<String> = Vec::new();
        let mut looks = rounds.iter();
        let mut checks = valid.iter();
        loop {
            let (next, wanted) = state.step(root, &path(project), &path(artifact), USER, false);
            state = next;
            let told = match wanted {
                Wanted::Marker(marker) => Told::Marker(MarkerFact {
                    exists: Ok(self.entries.contains_key(&text(&marker))),
                    marker,
                }),
                Wanted::Look(at, Ask::Content) => {
                    let content = self.read(&at);
                    Told::Content(at, content)
                }
                Wanted::Look(at, _) => Told::Facts(self.observe(root, &at)),
                Wanted::Root => {
                    order.push("root".into());
                    Told::Root(checks.next().unwrap().clone())
                }
                Wanted::Process => {
                    if let Inquiry::Asking { question, .. } = &state {
                        order.push(String::from_utf8(question.clone()).unwrap());
                    }
                    Told::Process(Ok(()))
                }
                Wanted::Answer => {
                    order.push("answer".into());
                    Told::Answer(*looks.next().unwrap())
                }
                Wanted::Nothing => match state {
                    Inquiry::Refused(reason) => return (Err(reason), order),
                    Inquiry::Untracked(found) => return (Ok(found), order),
                    _ => continue,
                },
            };
            state = state.tell(USER, told);
        }
    }

    fn unchanged(&self, root: &Root, evidence: &GitEvidence) -> Result<(), String> {
        let mut seen = Observed {
            facts: Vec::new(),
            user: USER,
        };
        loop {
            match evidence.unchanged(root, &Ok(()), &seen, false) {
                Step::Need(asked, ask) => self.answer(root, &mut seen, &asked, ask),
                Step::Fail(reason) => return Err(reason),
                Step::Have(_) => return Ok(()),
            }
        }
    }

    fn repository(&self, root: &Root, project: &str) -> Result<Option<FsPath>, String> {
        let mut facts: Vec<MarkerFact> = Vec::new();
        loop {
            match find_repository(root, &path(project), &facts, false) {
                Step::Need(marker, _) => facts.push(MarkerFact {
                    exists: Ok(self.entries.contains_key(&text(&marker))),
                    marker,
                }),
                Step::Fail(reason) => return Err(reason),
                Step::Have(found) => return Ok(found),
            }
        }
    }
}

const META: &str = "/base/main/.git/worktrees/linked";

fn linked_worktree() -> Disk {
    let mut disk = Disk {
        entries: BTreeMap::new(),
        contents: BTreeMap::new(),
        inode: 0,
    };
    for folder in [
        "/base",
        "/base/main",
        "/base/main/.git",
        "/base/main/.git/objects",
        "/base/main/.git/refs",
        "/base/main/.git/worktrees",
        META,
        "/base/linked",
        "/base/linked/target",
    ] {
        disk.put(folder, FOLDER, 96);
    }
    disk.file("/base/main/.git/HEAD", b"ref: refs/heads/main\n");
    disk.file("/base/main/.git/index", &index("source"));
    disk.file(
        "/base/main/.git/config",
        b"[core]\nrepositoryformatversion = 0\n",
    );
    disk.file(
        "/base/linked/.git",
        format!("gitdir: {META}\n").as_bytes(),
    );
    disk.file(&format!("{META}/HEAD"), b"0123456789\n");
    disk.file(&format!("{META}/commondir"), b"../..\n");
    disk.file(&format!("{META}/gitdir"), b"/base/linked/.git\n");
    disk.file(&format!("{META}/index"), &index("source"));
    disk
}

#[test]
fn linked_worktree_tracking_uses_validated_local_evidence() {
    let disk = linked_worktree();
    let root = disk.root("/base");
    assert_eq!(
        disk.repository(&root, "/base/linked"),
        Ok(Some(path("/base/linked")))
    );
    let evidence = disk.capture(&root, "/base/linked").unwrap();
    assert_eq!(text(&evidence.work_tree), "/base/linked");
    assert_eq!(text(&evidence.directory), META);
    assert_eq!(disk.unchanged(&root, &evidence), Ok(()));
    let main = disk.capture(&root, "/base/main").unwrap();
    assert_eq!(text(&main.directory), "/base/main/.git");
}

#[test]
fn linked_worktree_metadata_must_share_the_authorization() {
    let disk = linked_worktree();
    let narrow = disk.root("/base/linked");
    let reason = disk.capture(&narrow, "/base/linked").err().unwrap();
    assert!(
        reason.contains("outside this folder's authorization"),
        "{reason}"
    );
    assert!(git_pointer_path(&narrow, &path("/base/linked"), b"target/../.git").is_err());
}

#[test]
fn linked_worktree_symlinked_metadata_is_rejected() {
    let mut disk = linked_worktree();
    let root = disk.root("/base");
    disk.put(META, LINK, 8);
    assert!(disk.capture(&root, "/base/linked").is_err());
}

#[test]
fn linked_worktree_requires_a_reciprocal_backpointer() {
    let mut disk = linked_worktree();
    let root = disk.root("/base");
    disk.file(&format!("{META}/gitdir"), b"/base/other/.git");
    let reason = disk.capture(&root, "/base/linked").err().unwrap();
    assert!(reason.contains("backpointer"), "{reason}");
}

#[test]
fn linked_worktree_index_changes_and_tracked_artifacts_are_rejected() {
    let mut disk = linked_worktree();
    let root = disk.root("/base");
    let evidence = disk.capture(&root, "/base/linked").unwrap();
    disk.file(&format!("{META}/index"), &index("target/debug/binary"));
    assert!(disk
        .unchanged(&root, &evidence)
        .err()
        .unwrap()
        .contains("changed"));
    let met = read_answer(Round {
        cancel: false,
        read: ReadEvent::Bytes,
        child: ChildEvent::Running,
        rest: ReadEvent::End,
        expired: false,
    });
    assert!(matches!(met, Answer::Refused(reason) if reason.contains("tracks content")));
}

#[test]
fn linked_worktree_split_indexes_and_config_includes_stay_excluded() {
    let mut disk = linked_worktree();
    let root = disk.root("/base");
    let mut split = b"DIRC\0\0\0\x02\0\0\0\0link\0\0\0\0".to_vec();
    split.extend([7u8; 20]);
    disk.file(&format!("{META}/index"), &split);
    assert!(disk.capture(&root, "/base/linked").is_err());
    disk.file(&format!("{META}/index"), &index("source"));
    assert!(disk.capture(&root, "/base/linked").is_ok());
    disk.file(
        &format!("{META}/config.worktree"),
        b"[include]\n path = /outside/authorization\n",
    );
    let reason = disk.capture(&root, "/base/linked").err().unwrap();
    assert!(reason.contains("includes"), "{reason}");
    for config in [
        b"[IncludeIf \"gitdir:/tmp/\"]\npath = /outside\n".as_slice(),
        b"[includeIf.gitdir:/tmp/]\npath = /outside\n",
        b"# a comment ending with \\\n[include]\npath = /outside\n",
    ] {
        assert!(validate_git_config(config).is_err());
    }
    assert!(validate_git_config(b"[core]\nrepositoryformatversion = 0\n[remote \"origin\"]\nurl = https://example.invalid/include\n").is_ok());
}

#[test]
fn git_index_validation_bounds_truncated_and_malformed_evidence() {
    let bytes = index("source");
    validate_git_index(&bytes).unwrap();
    for length in 0..bytes.len() {
        let _ = validate_git_index(&bytes[..length]);
    }
    assert!(validate_git_index(&bytes[..31]).is_err());
    assert!(validate_git_index(&bytes[..bytes.len() - 1]).is_err());
    let mut invalid = bytes.clone();
    invalid[8..12].copy_from_slice(&u32::MAX.to_be_bytes());
    assert!(validate_git_index(&invalid).is_err());
    invalid = bytes;
    invalid[4..8].copy_from_slice(&4u32.to_be_bytes());
    assert!(validate_git_index(&invalid).is_err());
    assert!(validate_git_index(&index("a/../b")).is_err());
    assert!(validate_git_index(&index(".git/config")).is_err());
}

#[test]
fn git_tracking_treats_wildcard_characters_in_artifact_paths_literally() {
    assert_eq!(
        git_pathspec(&path("/base/main"), &path("/base/main/a[b]*/target")).unwrap(),
        b":(literal,icase)a[b]*/target"
    );
    assert_eq!(
        git_pathspec(&path("/base/main"), &path("/base/other/target")),
        Err("Artifact is outside its repository".into())
    );
}

#[test]
fn a_repository_around_the_authorized_location_cannot_be_used() {
    let disk = linked_worktree();
    let narrow = disk.root("/base/linked/target");
    assert_eq!(
        disk.repository(&narrow, "/base/linked/target"),
        Err("Repository ownership lies outside this folder's authorization".into())
    );
    let root = disk.root("/base");
    assert_eq!(disk.repository(&root, "/base"), Ok(None));
}

#[test]
fn metadata_of_another_account_volume_or_file_is_no_evidence() {
    let mut disk = linked_worktree();
    let root = disk.root("/base");
    let location = "/base/main/.git/HEAD";
    let facts = disk.observe(&root, &path(location));
    assert!(git_metadata(&root, &facts, USER).unwrap().is_some());
    assert!(git_metadata(&root, &facts, USER + 1).is_err());
    let mut meta = disk.entries[location];
    meta.links = 2;
    disk.entries.insert(location.into(), meta);
    assert!(git_metadata(&root, &disk.observe(&root, &path(location)), USER).is_err());
    meta.links = 1;
    meta.identity.device = 2;
    disk.entries.insert(location.into(), meta);
    assert!(git_metadata(&root, &disk.observe(&root, &path(location)), USER).is_err());
    let missing = disk.observe(&root, &path("/base/main/.git/nothing"));
    assert_eq!(git_metadata(&root, &missing, USER), Ok(None));
}

#[test]
fn an_answer_is_believed_only_when_it_is_complete() {
    let quiet = Round {
        cancel: false,
        read: ReadEvent::WouldBlock,
        child: ChildEvent::Running,
        rest: ReadEvent::End,
        expired: false,
    };
    assert!(matches!(
        read_answer(quiet),
        Answer::Again {
            output_pending: true
        }
    ));
    assert!(matches!(
        read_answer(Round {
            read: ReadEvent::End,
            ..quiet
        }),
        Answer::Again {
            output_pending: false
        }
    ));
    assert!(matches!(
        read_answer(Round {
            read: ReadEvent::End,
            child: ChildEvent::Succeeded,
            ..quiet
        }),
        Answer::Untracked
    ));
    for (round, reason) in [
        (
            Round {
                cancel: true,
                ..quiet
            },
            "Cancelled",
        ),
        (
            Round {
                read: ReadEvent::Failed,
                ..quiet
            },
            "Git tracking output could not be verified",
        ),
        (
            Round {
                child: ChildEvent::Unsuccessful,
                ..quiet
            },
            "Git tracking check failed; the artifact is excluded",
        ),
        (
            Round {
                child: ChildEvent::Failed,
                ..quiet
            },
            "Git tracking process could not be inspected",
        ),
        (
            Round {
                child: ChildEvent::Succeeded,
                rest: ReadEvent::WouldBlock,
                ..quiet
            },
            "Git tracking output was incomplete",
        ),
        (
            Round {
                expired: true,
                ..quiet
            },
            "Git tracking timed out; the artifact is excluded",
        ),
    ] {
        match read_answer(round) {
            Answer::Refused(text) => assert_eq!(text, reason),
            _ => panic!("{reason}"),
        }
    }
}

const QUIET: Round = Round {
    cancel: false,
    read: ReadEvent::WouldBlock,
    child: ChildEvent::Running,
    rest: ReadEvent::End,
    expired: false,
};

const SILENT: Round = Round {
    cancel: false,
    read: ReadEvent::End,
    child: ChildEvent::Succeeded,
    rest: ReadEvent::End,
    expired: false,
};

#[test]
fn an_inquiry_checks_the_folder_before_the_question_and_after_the_answer() {
    let disk = linked_worktree();
    let root = disk.root("/base");
    let (outcome, order) = disk.inquire(
        &root,
        "/base/linked",
        "/base/linked/target",
        &[QUIET, QUIET, SILENT],
        &[Ok(()), Ok(())],
    );
    assert_eq!(text(&outcome.unwrap().unwrap().directory), META);
    assert_eq!(
        order,
        [
            "root",
            ":(literal,icase)target",
            "answer",
            "answer",
            "answer",
            "root"
        ]
    );
}

#[test]
fn an_inquiry_is_refused_wherever_the_folder_is_no_longer_valid() {
    let disk = linked_worktree();
    let root = disk.root("/base");
    let gone: Result<(), String> = Err("The folder was replaced".into());
    let (outcome, order) = disk.inquire(
        &root,
        "/base/linked",
        "/base/linked/target",
        &[],
        &[gone.clone()],
    );
    assert_eq!(outcome.err(), Some("The folder was replaced".into()));
    assert_eq!(order, ["root"]);
    let (outcome, order) = disk.inquire(
        &root,
        "/base/linked",
        "/base/linked/target",
        &[SILENT],
        &[Ok(()), gone],
    );
    assert_eq!(outcome.err(), Some("The folder was replaced".into()));
    assert_eq!(order.last().unwrap(), "root");
}

#[test]
fn an_inquiry_ends_without_a_repository_and_with_the_first_doubt() {
    let disk = linked_worktree();
    let root = disk.root("/base");
    let (outcome, order) = disk.inquire(&root, "/base", "/base/target", &[], &[]);
    assert!(outcome.unwrap().is_none());
    assert!(order.is_empty());
    let (outcome, _) = disk.inquire(
        &root,
        "/base/linked",
        "/base/linked/target",
        &[Round {
            read: ReadEvent::Bytes,
            ..QUIET
        }],
        &[Ok(())],
    );
    assert_eq!(
        outcome.err(),
        Some("Git tracks content inside this artifact; cleanup is excluded".into())
    );
    let (outcome, _) = disk.inquire(&root, "/base/linked", "/base/main/target", &[], &[Ok(())]);
    assert_eq!(outcome.err(), Some("Artifact is outside its repository".into()));
}

#[test]
fn metadata_needs_a_fact_for_every_name_and_folder() {
    let disk = linked_worktree();
    let root = disk.root("/base");
    let location = path("/base/main/.git/HEAD");
    let incomplete: Result<Option<EntryMeta>, String> =
        Err("Git metadata could not be inspected".into());
    let mut facts = disk.observe(&root, &location);
    facts.ancestors.clear();
    assert_eq!(git_metadata(&root, &facts, USER), incomplete);
    let mut facts = disk.observe(&root, &location);
    facts.ancestors.swap(0, 1);
    assert_eq!(git_metadata(&root, &facts, USER), incomplete);
    let mut facts = disk.observe(&root, &location);
    facts.names.pop();
    assert_eq!(git_metadata(&root, &facts, USER), incomplete);
    // The repository's own folder is no protected place, any other name may be.
    let mut facts = disk.observe(&root, &location);
    assert!(facts.names[1].excluded);
    assert!(git_metadata(&root, &facts, USER).is_ok());
    facts.names[0].excluded = true;
    assert_eq!(
        git_metadata(&root, &facts, USER),
        Err("Git metadata lies in a protected or cloud-managed location".into())
    );
    let itself = disk.observe(&root, &path("/base"));
    assert!(itself.names.is_empty() && itself.ancestors.is_empty());
    assert!(git_metadata(&root, &itself, USER).unwrap().is_some());
}

#[test]
fn what_follows_a_header_on_its_line_belongs_to_the_section() {
    for refused in [
        b"[core] sparseCheckout = true\n".as_slice(),
        b"[core]sparseCheckoutCone=true\n",
        b"[core][include]\npath = /outside\n",
        b"[core] [include] path = /outside\n",
        b"[extensions] objectFormat = sha256\n",
        b"[core\n",
        b"[core] [\n",
    ] {
        assert!(validate_git_config(refused).is_err());
    }
    for accepted in [
        b"[core] ; a comment\n".as_slice(),
        b"[core] # a comment\nbare = false\n",
        b"[core] bare = false\n",
        b"[remote \"a]b\"] url = x\n",
        b"[remote \"a\\\"]b\"] url = x\n",
        b"[core][user] name = sparse\n",
        b"[core \"a]\nbare = false\n",
        b"[core \"a\\\"]\n",
    ] {
        assert!(validate_git_config(accepted).is_ok());
    }
}

#[test]
fn a_cut_index_is_refused_and_the_checksum_decides_nothing() {
    let bytes = index("source");
    for cut in 1..=7 {
        assert!(validate_git_index(&bytes[..bytes.len() - cut]).is_err());
    }
    let mut other = bytes.clone();
    let end = other.len();
    other[end - 20..].fill(0);
    assert_eq!(validate_git_index(&other), validate_git_index(&bytes));
}
