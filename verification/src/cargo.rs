//! Cargo output folders: what proves that they are a project's default output.
use crate::adapters::{fingerprint, fingerprint_text, step_finds};
use crate::document::{json_document, parse_json, parse_toml_text, toml_document, Doc, Document};
use crate::evidence::{show_name, shown_name, text_view, Evidence, Found, DEVELOPER_QUIET_DAYS};
use crate::manifest::document_outcome;
use crate::model::Root;
use crate::paths::{
    fs_path, is_under, join_text, named, parent, parent_holds, parent_of, path_bytes, share, under,
    FsPath,
};
use crate::policy::Rules;
use crate::probe::{step_is, Got, Step};
use crate::sources::{added, Account, EvidenceSource, Sources, Tally};
use crate::text::{begins, bytes_begin, fail, joined, same_bytes, utf8_text};
use vstd::prelude::*;
use vstd::slice::slice_to_vec;
use vstd::utf8::{decode_utf8, encode_utf8, valid_utf8};

verus! {

/// What a Cargo configuration file holds.
pub open spec fn cargo_document(bytes: Seq<u8>) -> Result<Doc, Seq<char>> {
    if !valid_utf8(bytes) {
        Err("Cargo configuration is not UTF-8"@)
    } else {
        match toml_document(decode_utf8(bytes)) {
            None => Err("Cargo configuration is not valid TOML"@),
            Some(document) => Ok(document),
        }
    }
}

/// Reads a Cargo configuration file.
pub fn parse_toml(bytes: &[u8]) -> (r: Result<Document, String>)
    ensures
        document_outcome(r, cargo_document(bytes@)),
{
    match utf8_text(bytes) {
        None => fail("Cargo configuration is not UTF-8"),
        Some(text) => match parse_toml_text(text) {
            None => fail("Cargo configuration is not valid TOML"),
            Some(document) => Ok(document),
        },
    }
}

/// The field of a table within a document, where both are there.
pub open spec fn nested(document: Doc, table: Seq<char>, key: Seq<char>) -> Option<Doc> {
    if document.has_table(table) {
        document.field(table)->Some_0.field(key)
    } else {
        None
    }
}

fn nested_field<'a>(document: &'a Document, table: &str, key: &str) -> (r: Option<&'a Document>)
    ensures
        match nested(document@, table@, key@) {
            Some(found) => r matches Some(got) && got@ == found,
            None => r is None,
        },
{
    match document.field(table) {
        Some(inner) => {
            if inner.is_table() {
                inner.field(key)
            } else {
                None
            }
        },
        None => None,
    }
}

/// Whether a manifest names a package or a workspace.
pub open spec fn identifies_crate(document: Doc) -> bool {
    (nested(document, "package"@, "name"@) matches Some(Doc::Text(name)) && name.len() > 0)
        || document.has_table("workspace"@)
}

fn names_crate(document: &Document) -> (r: bool)
    ensures
        r == identifies_crate(document@),
{
    let package: bool = match nested_field(document, "package", "name") {
        Some(name) => match name.as_text() {
            Some(text) => text.unicode_len() > 0,
            None => false,
        },
        None => false,
    };
    let workspace: bool = match document.field("workspace") {
        Some(inner) => inner.is_table(),
        None => false,
    };
    package || workspace
}

/// Whether configuration moves the output elsewhere.
pub open spec fn redirects_output(document: Doc) -> bool {
    ||| nested(document, "build"@, "target-dir"@) is Some
    ||| nested(document, "build"@, "build-dir"@) is Some
    ||| nested(document, "env"@, "CARGO_TARGET_DIR"@) is Some
    ||| nested(document, "env"@, "CARGO_BUILD_TARGET_DIR"@) is Some
}

fn moves_output(document: &Document) -> (r: bool)
    ensures
        r == redirects_output(document@),
{
    nested_field(document, "build", "target-dir").is_some() || nested_field(
        document,
        "build",
        "build-dir",
    ).is_some() || nested_field(document, "env", "CARGO_TARGET_DIR").is_some() || nested_field(
        document,
        "env",
        "CARGO_BUILD_TARGET_DIR",
    ).is_some()
}

/// What is known so far of an output folder.
pub struct CargoState {
    pub account: Account,
    pub blocked: Option<Seq<char>>,
}

/// The same, while it is collected.
pub struct CargoWalk {
    pub tally: Tally,
    pub blocked: Option<String>,
}

impl View for CargoWalk {
    type V = CargoState;

    open spec fn view(&self) -> CargoState {
        CargoState { account: self.tally.account(), blocked: text_view(self.blocked) }
    }
}

/// A file that may be there, with the configuration that it holds.
pub open spec fn optional_config(seen: Sources, file: Seq<u8>) -> Got<
    Option<(EvidenceSource, Doc)>,
> {
    match seen.presence(file) {
        Got::Need(path, ask) => Got::Need(path, ask),
        Got::Fail(reason) => Got::Fail(reason),
        Got::Have(there) => if !there {
            Got::Have(None)
        } else {
            match seen.capture(file) {
                Got::Need(path, ask) => Got::Need(path, ask),
                Got::Fail(reason) => Got::Fail(reason),
                Got::Have(source) => match cargo_document(source.bytes@) {
                    Err(reason) => Got::Fail(reason),
                    Ok(document) => Got::Have(Some((source, document))),
                },
            }
        },
    }
}

fn read_optional<'a>(seen: &'a Sources, file: &FsPath) -> (r: Step<
    Option<(&'a EvidenceSource, Document)>,
>)
    ensures
        match optional_config(*seen, file@) {
            Got::Need(at, ask) => r matches Step::Need(p, a) && p@ == at && a == ask,
            Got::Fail(reason) => r matches Step::Fail(text) && text@ == reason,
            Got::Have(None) => r matches Step::Have(got) && got is None,
            Got::Have(Some(pair)) => r matches Step::Have(Some(got)) && *got.0 == pair.0 && got.1@
                == pair.1,
        },
{
    match seen.path_exists(file) {
        Step::Need(p, a) => {
            return Step::Need(p, a);
        },
        Step::Fail(reason) => {
            return Step::Fail(reason);
        },
        Step::Have(there) => {
            if !there {
                return Step::Have(None);
            }
        },
    }
    match seen.read_source(file) {
        Step::Need(p, a) => Step::Need(p, a),
        Step::Fail(reason) => Step::Fail(reason),
        Step::Have(source) => match parse_toml(source.bytes.as_slice()) {
            Err(reason) => Step::Fail(reason),
            Ok(document) => Step::Have(Some((source, document))),
        },
    }
}

/// The markers that Cargo leaves in its output.
pub open spec fn cargo_marker(i: int) -> Seq<char> {
    if i == 0 {
        "CACHEDIR.TAG"@
    } else {
        ".rustc_info.json"@
    }
}

fn cargo_marker_text(i: usize) -> (r: &'static str)
    ensures
        r@ == cargo_marker(i as int),
{
    if i == 0 {
        "CACHEDIR.TAG"
    } else {
        ".rustc_info.json"
    }
}

/// Whether a marker is one that Cargo wrote.
pub open spec fn genuine_marker(i: int, bytes: Seq<u8>) -> bool {
    if i == 0 {
        begins(bytes, encode_utf8("Signature: 8a477f597d28d172789f06886806bc55"@))
    } else {
        json_document(bytes) matches Some(document) && document.field("rustc_fingerprint"@) is Some
    }
}

fn is_genuine(i: usize, bytes: &[u8]) -> (r: bool)
    ensures
        r == genuine_marker(i as int, bytes@),
{
    if i == 0 {
        bytes_begin(bytes, "Signature: 8a477f597d28d172789f06886806bc55".as_bytes())
    } else {
        match parse_json(bytes) {
            Some(document) => document.field("rustc_fingerprint").is_some(),
            None => false,
        }
    }
}

/// The first `n` markers: what they add, and whether there was one.
pub open spec fn markers(n: int, artifact: Seq<u8>, seen: Sources, account: Account) -> Got<
    (Account, bool),
>
    decreases n,
{
    if n <= 0 {
        Got::Have((account, false))
    } else {
        match markers(n - 1, artifact, seen, account) {
            Got::Have(before) => {
                let file = named(artifact, cargo_marker(n - 1));
                match seen.presence(file) {
                    Got::Need(path, ask) => Got::Need(path, ask),
                    Got::Fail(reason) => Got::Fail(reason),
                    Got::Have(there) => if !there {
                        Got::Have(before)
                    } else {
                        match seen.capture(file) {
                            Got::Need(path, ask) => Got::Need(path, ask),
                            Got::Fail(reason) => Got::Fail(reason),
                            Got::Have(source) => if !genuine_marker(n - 1, source.bytes@) {
                                Got::Fail("The target directory's Cargo marker is invalid"@)
                            } else {
                                Got::Have((added(before.0, file, source), true))
                            },
                        }
                    },
                }
            },
            other => other,
        }
    }
}

/// One configuration file of a folder.
pub open spec fn config_step(file: Seq<u8>, seen: Sources, state: CargoState) -> Got<CargoState> {
    match optional_config(seen, file) {
        Got::Need(path, ask) => Got::Need(path, ask),
        Got::Fail(reason) => Got::Fail(reason),
        Got::Have(None) => Got::Have(state),
        Got::Have(Some(pair)) => Got::Have(
            CargoState {
                account: added(state.account, file, pair.0),
                blocked: if redirects_output(pair.1) {
                    Some("Cargo config uses a nonstandard output directory"@)
                } else {
                    state.blocked
                },
            },
        ),
    }
}

/// The manifest of a folder above the project.
pub open spec fn outer_step(file: Seq<u8>, seen: Sources, state: CargoState) -> Got<CargoState> {
    match optional_config(seen, file) {
        Got::Need(path, ask) => Got::Need(path, ask),
        Got::Fail(reason) => Got::Fail(reason),
        Got::Have(None) => Got::Have(state),
        Got::Have(Some(pair)) => Got::Have(
            CargoState {
                account: added(state.account, file, pair.0),
                blocked: if pair.1.field("workspace"@) is Some {
                    Some("An ancestor workspace owns the default Cargo output directory"@)
                } else {
                    state.blocked
                },
            },
        ),
    }
}

/// What one folder on the way up adds. A manifest with its own workspace starts
/// a new one: outer manifests neither own its output nor count as its evidence,
/// while configuration above it still applies.
pub open spec fn folder_step(
    project: Seq<u8>,
    folder: Seq<u8>,
    own_workspace: bool,
    seen: Sources,
    state: CargoState,
) -> Got<CargoState> {
    match config_step(named(folder, ".cargo/config"@), seen, state) {
        Got::Have(first) => match config_step(named(folder, ".cargo/config.toml"@), seen, first) {
            Got::Have(second) => if folder != project && !own_workspace {
                outer_step(named(folder, "Cargo.toml"@), seen, second)
            } else {
                Got::Have(second)
            },
            other => other,
        },
        other => other,
    }
}

/// The way up from a folder to the root.
pub open spec fn climb(
    root: Seq<u8>,
    project: Seq<u8>,
    folder: Seq<u8>,
    own_workspace: bool,
    seen: Sources,
    state: CargoState,
) -> Got<CargoState>
    decreases folder.len(),
{
    match folder_step(project, folder, own_workspace, seen, state) {
        Got::Have(after) => if folder == root {
            Got::Have(after)
        } else {
            match parent_of(folder) {
                Some(above) => if under(above, root) && above.len() < folder.len() {
                    climb(root, project, above, own_workspace, seen, after)
                } else {
                    Got::Have(after)
                },
                None => Got::Have(after),
            }
        },
        other => other,
    }
}

/// One global configuration file. It is not read outside the chosen root; that
/// it is there makes the output's place uncertain.
pub open spec fn global_step(
    root: Seq<u8>,
    home: Seq<u8>,
    name: Seq<char>,
    seen: Sources,
    state: CargoState,
) -> Got<CargoState> {
    match seen.presence(named(home, name)) {
        Got::Need(path, ask) => Got::Need(path, ask),
        Got::Fail(reason) => Got::Fail(reason),
        Got::Have(there) => if there && !under(home, root) {
            Got::Have(
                CargoState {
                    blocked: Some(
                        "Global Cargo configuration is outside this folder's authorization; output ownership is uncertain"@,
                    ),
                    ..state
                },
            )
        } else {
            Got::Have(state)
        },
    }
}

/// The global configuration, where Cargo has a home.
pub open spec fn globals(
    root: Seq<u8>,
    home: Option<Seq<u8>>,
    seen: Sources,
    state: CargoState,
) -> Got<CargoState> {
    match home {
        None => Got::Have(state),
        Some(home) => match global_step(root, home, "config"@, seen, state) {
            Got::Have(first) => global_step(root, home, "config.toml"@, seen, first),
            other => other,
        },
    }
}

/// What the environment of the process says of Cargo: whether an output folder
/// is set, and where Cargo has its home.
pub struct CargoEnvironment {
    pub custom_output: bool,
    pub home: Option<FsPath>,
}

/// What stands against an output folder before configuration is looked at.
pub open spec fn first_doubt(manifest: Doc, custom_output: bool) -> Option<Seq<char>> {
    if custom_output {
        Some("A custom Cargo output directory is configured in this process"@)
    } else if nested(manifest, "package"@, "workspace"@) is Some {
        Some("This package delegates target ownership to another workspace"@)
    } else {
        None
    }
}

/// What is said of an output folder.
pub open spec fn cargo_found(project: Seq<u8>, state: CargoState, rules: Rules) -> Found {
    Found {
        kind: "cargo"@,
        title: shown_name(project, "Cargo project"@) + " build artifacts"@,
        explanation:
            "Cargo project evidence and a standard target marker identify this project's default build output."@,
        consequence:
            "The next build must recompile. Compiled applications and binaries inside this target directory are removed too."@,
        fingerprint: fingerprint(state.account),
        blocked: state.blocked,
        latest: state.account.latest,
        quiet_days: DEVELOPER_QUIET_DAYS,
        activity_root: None,
        rules,
    }
}

/// The lockfile, where there is one: it must be readable.
pub open spec fn lock_step(file: Seq<u8>, seen: Sources, account: Account) -> Got<Account> {
    match optional_config(seen, file) {
        Got::Need(path, ask) => Got::Need(path, ask),
        Got::Fail(reason) => Got::Fail(reason),
        Got::Have(None) => Got::Have(account),
        Got::Have(Some(pair)) => Got::Have(added(account, file, pair.0)),
    }
}

/// What an output folder is identified by, once its manifest is read.
pub open spec fn crate_step(
    root: Seq<u8>,
    project: Seq<u8>,
    artifact: Seq<u8>,
    manifest: Doc,
    custom_output: bool,
    home: Option<Seq<u8>>,
    seen: Sources,
    account: Account,
    rules: Rules,
) -> Got<Option<Found>> {
    match lock_step(named(project, "Cargo.lock"@), seen, account) {
        Got::Need(path, ask) => Got::Need(path, ask),
        Got::Fail(reason) => Got::Fail(reason),
        Got::Have(locked) => match markers(2, artifact, seen, locked) {
            Got::Need(path, ask) => Got::Need(path, ask),
            Got::Fail(reason) => Got::Fail(reason),
            Got::Have(pair) => if !pair.1 {
                Got::Have(None)
            } else {
                let start = CargoState {
                    account: pair.0,
                    blocked: first_doubt(manifest, custom_output),
                };
                match climb(
                    root,
                    project,
                    project,
                    manifest.has_table("workspace"@),
                    seen,
                    start,
                ) {
                    Got::Need(path, ask) => Got::Need(path, ask),
                    Got::Fail(reason) => Got::Fail(reason),
                    Got::Have(state) => match globals(root, home, seen, state) {
                        Got::Need(path, ask) => Got::Need(path, ask),
                        Got::Fail(reason) => Got::Fail(reason),
                        Got::Have(last) => Got::Have(Some(cargo_found(project, last, rules))),
                    },
                }
            },
        },
    }
}

/// What an output folder is identified by.
pub open spec fn cargo_step(
    root: Seq<u8>,
    project: Seq<u8>,
    artifact: Seq<u8>,
    custom_output: bool,
    home: Option<Seq<u8>>,
    seen: Sources,
    rules: Rules,
) -> Got<Option<Found>> {
    let manifest = named(project, "Cargo.toml"@);
    match optional_config(seen, manifest) {
        Got::Need(path, ask) => Got::Need(path, ask),
        Got::Fail(reason) => Got::Fail(reason),
        Got::Have(None) => Got::Have(None),
        Got::Have(Some(pair)) => if !identifies_crate(pair.1) {
            Got::Fail("Cargo.toml does not identify a package or workspace"@)
        } else {
            crate_step(
                root,
                project,
                artifact,
                pair.1,
                custom_output,
                home,
                seen,
                added(Account { transcript: seq![], latest: 0 }, manifest, pair.0),
                rules,
            )
        },
    }
}

/// Whether a step is what is expected of it and leaves the walk where it should.
pub open spec fn walked(r: Step<()>, expected: Got<CargoState>, after: CargoWalk) -> bool {
    step_is(r, expected) && (expected matches Got::Have(state) ==> after@ == state)
}

impl CargoWalk {
    fn visit_lock(&mut self, file: &FsPath, seen: &Sources) -> (r: Step<()>)
        ensures
            step_is(r, lock_step(file@, *seen, old(self)@.account)),
            final(self).blocked == old(self).blocked,
            lock_step(file@, *seen, old(self)@.account) matches Got::Have(account) ==> final(self)@.account == account,
    {
        match read_optional(seen, file) {
            Step::Need(p, a) => Step::Need(p, a),
            Step::Fail(reason) => Step::Fail(reason),
            Step::Have(None) => Step::Have(()),
            Step::Have(Some((source, _))) => {
                self.tally.add_evidence(file, source);
                Step::Have(())
            },
        }
    }

    fn visit_markers(&mut self, artifact: &FsPath, seen: &Sources) -> (r: Step<bool>)
        ensures
            step_is(r, markers(2, artifact@, *seen, old(self)@.account)),
            final(self).blocked == old(self).blocked,
            markers(2, artifact@, *seen, old(self)@.account) matches Got::Have(pair) ==> final(self)@.account == pair.0 && r == Step::Have(pair.1),
    {
        let ghost start = self@.account;
        let mut recognized: bool = false;
        let mut i: usize = 0;
        while i < 2
            invariant
                i <= 2,
                start == old(self)@.account,
                self.blocked == old(self).blocked,
                markers(i as int, artifact@, *seen, start) == Got::Have((self@.account, recognized)),
            decreases 2 - i,
        {
            let ghost here = i as int;
            let file: FsPath = join_text(artifact, cargo_marker_text(i));
            match seen.path_exists(&file) {
                Step::Need(p, a) => {
                    proof {
                        markers_stop(here + 1, 2, artifact@, *seen, start);
                    }
                    return Step::Need(p, a);
                },
                Step::Fail(reason) => {
                    proof {
                        markers_stop(here + 1, 2, artifact@, *seen, start);
                    }
                    return Step::Fail(reason);
                },
                Step::Have(there) => {
                    if there {
                        match seen.read_source(&file) {
                            Step::Need(p, a) => {
                                proof {
                                    markers_stop(here + 1, 2, artifact@, *seen, start);
                                }
                                return Step::Need(p, a);
                            },
                            Step::Fail(reason) => {
                                proof {
                                    markers_stop(here + 1, 2, artifact@, *seen, start);
                                }
                                return Step::Fail(reason);
                            },
                            Step::Have(source) => {
                                if !is_genuine(i, source.bytes.as_slice()) {
                                    proof {
                                        markers_stop(here + 1, 2, artifact@, *seen, start);
                                    }
                                    return Step::Fail(
                                        "The target directory's Cargo marker is invalid".to_owned(),
                                    );
                                }
                                // Markers are part of the tree digest too. They establish
                                // ownership; their original absolute path must not be used
                                // during staged measurement.
                                self.tally.add_evidence(&file, source);
                                recognized = true;
                            },
                        }
                    }
                },
            }
            i = i + 1;
        }
        Step::Have(recognized)
    }

    fn visit_config(&mut self, file: &FsPath, seen: &Sources) -> (r: Step<()>)
        ensures
            walked(r, config_step(file@, *seen, old(self)@), *final(self)),
    {
        match read_optional(seen, file) {
            Step::Need(p, a) => Step::Need(p, a),
            Step::Fail(reason) => Step::Fail(reason),
            Step::Have(None) => Step::Have(()),
            Step::Have(Some((source, document))) => {
                self.tally.add_evidence(file, source);
                if moves_output(&document) {
                    self.blocked = Some(
                        "Cargo config uses a nonstandard output directory".to_owned(),
                    );
                }
                Step::Have(())
            },
        }
    }

    fn visit_outer(&mut self, file: &FsPath, seen: &Sources) -> (r: Step<()>)
        ensures
            walked(r, outer_step(file@, *seen, old(self)@), *final(self)),
    {
        match read_optional(seen, file) {
            Step::Need(p, a) => Step::Need(p, a),
            Step::Fail(reason) => Step::Fail(reason),
            Step::Have(None) => Step::Have(()),
            Step::Have(Some((source, document))) => {
                self.tally.add_evidence(file, source);
                if document.field("workspace").is_some() {
                    self.blocked = Some(
                        "An ancestor workspace owns the default Cargo output directory".to_owned(),
                    );
                }
                Step::Have(())
            },
        }
    }

    fn visit_folder(
        &mut self,
        project: &FsPath,
        folder: &FsPath,
        own_workspace: bool,
        seen: &Sources,
    ) -> (r: Step<()>)
        ensures
            walked(
                r,
                folder_step(project@, folder@, own_workspace, *seen, old(self)@),
                *final(self),
            ),
    {
        match self.visit_config(&join_text(folder, ".cargo/config"), seen) {
            Step::Need(p, a) => {
                return Step::Need(p, a);
            },
            Step::Fail(reason) => {
                return Step::Fail(reason);
            },
            Step::Have(_) => {},
        }
        match self.visit_config(&join_text(folder, ".cargo/config.toml"), seen) {
            Step::Need(p, a) => {
                return Step::Need(p, a);
            },
            Step::Fail(reason) => {
                return Step::Fail(reason);
            },
            Step::Have(_) => {},
        }
        if !same_bytes(path_bytes(folder), path_bytes(project)) && !own_workspace {
            return self.visit_outer(&join_text(folder, "Cargo.toml"), seen);
        }
        Step::Have(())
    }

    fn visit_above(
        &mut self,
        root: &FsPath,
        project: &FsPath,
        own_workspace: bool,
        seen: &Sources,
    ) -> (r: Step<()>)
        ensures
            walked(
                r,
                climb(root@, project@, project@, own_workspace, *seen, old(self)@),
                *final(self),
            ),
    {
        let ghost whole = climb(root@, project@, project@, own_workspace, *seen, self@);
        let mut folder: FsPath = share(project);
        let mut going: bool = true;
        while going
            invariant
                whole == climb(root@, project@, project@, own_workspace, *seen, old(self)@),
                going ==> whole == climb(root@, project@, folder@, own_workspace, *seen, self@),
                !going ==> whole == Got::Have(self@),
            decreases folder@.len() + (if going {
                1int
            } else {
                0int
            }),
        {
            match self.visit_folder(project, &folder, own_workspace, seen) {
                Step::Need(p, a) => {
                    return Step::Need(p, a);
                },
                Step::Fail(reason) => {
                    return Step::Fail(reason);
                },
                Step::Have(_) => {},
            }
            if same_bytes(path_bytes(&folder), path_bytes(root)) {
                going = false;
            } else {
                proof {
                    parent_holds(folder@);
                }
                let above: Option<FsPath> = match parent(path_bytes(&folder)) {
                    Some(above) => {
                        if is_under(above, path_bytes(root)) {
                            Some(fs_path(slice_to_vec(above)))
                        } else {
                            None
                        }
                    },
                    None => None,
                };
                match above {
                    Some(above) => {
                        folder = above;
                    },
                    None => {
                        going = false;
                    },
                }
            }
        }
        Step::Have(())
    }

    fn visit_global(&mut self, root: &FsPath, home: &FsPath, name: &str, seen: &Sources) -> (r: Step<
        (),
    >)
        ensures
            walked(r, global_step(root@, home@, name@, *seen, old(self)@), *final(self)),
    {
        match seen.path_exists(&join_text(home, name)) {
            Step::Need(p, a) => Step::Need(p, a),
            Step::Fail(reason) => Step::Fail(reason),
            Step::Have(there) => {
                if there && !is_under(path_bytes(home), path_bytes(root)) {
                    self.blocked = Some(
                        "Global Cargo configuration is outside this folder's authorization; output ownership is uncertain".to_owned(),
                    );
                }
                Step::Have(())
            },
        }
    }

    fn visit_globals(&mut self, root: &FsPath, home: &Option<FsPath>, seen: &Sources) -> (r: Step<
        (),
    >)
        ensures
            walked(
                r,
                globals(root@, crate::evidence::path_view(*home), *seen, old(self)@),
                *final(self),
            ),
    {
        match home {
            None => Step::Have(()),
            Some(home) => {
                match self.visit_global(root, home, "config", seen) {
                    Step::Need(p, a) => {
                        return Step::Need(p, a);
                    },
                    Step::Fail(reason) => {
                        return Step::Fail(reason);
                    },
                    Step::Have(_) => {},
                }
                self.visit_global(root, home, "config.toml", seen)
            },
        }
    }
}

proof fn markers_stop(i: int, n: int, artifact: Seq<u8>, seen: Sources, account: Account)
    requires
        0 <= i <= n,
        !(markers(i, artifact, seen, account) is Have),
    ensures
        markers(n, artifact, seen, account) == markers(i, artifact, seen, account),
    decreases n - i,
{
    if i < n {
        markers_stop(i + 1, n, artifact, seen, account);
    }
}

fn doubt_of(manifest: &Document, custom_output: bool) -> (r: Option<String>)
    ensures
        text_view(r) == first_doubt(manifest@, custom_output),
{
    if custom_output {
        Some("A custom Cargo output directory is configured in this process".to_owned())
    } else if nested_field(manifest, "package", "workspace").is_some() {
        Some("This package delegates target ownership to another workspace".to_owned())
    } else {
        None
    }
}

/// Cargo output is identified by the project's manifest and by a marker that
/// Cargo wrote. Whatever could have moved the output, or given it to another
/// workspace, stands against it.
pub fn cargo_evidence(
    root: &Root,
    project: &FsPath,
    artifact: &FsPath,
    environment: &CargoEnvironment,
    seen: &Sources,
    rules: Rules,
    cancel: bool,
) -> (r: Step<Option<Evidence>>)
    ensures
        if cancel {
            r matches Step::Fail(text) && text@ == "Cancelled"@
        } else {
            step_finds(
                r,
                cargo_step(
                    root.path@,
                    project@,
                    artifact@,
                    environment.custom_output,
                    crate::evidence::path_view(environment.home),
                    *seen,
                    rules,
                ),
            )
        },
{
    if cancel {
        return Step::Fail("Cancelled".to_owned());
    }
    let file: FsPath = join_text(project, "Cargo.toml");
    let (source, manifest): (&EvidenceSource, Document) = match read_optional(seen, &file) {
        Step::Need(p, a) => {
            return Step::Need(p, a);
        },
        Step::Fail(reason) => {
            return Step::Fail(reason);
        },
        Step::Have(None) => {
            return Step::Have(None);
        },
        Step::Have(Some(pair)) => pair,
    };
    if !names_crate(&manifest) {
        return Step::Fail("Cargo.toml does not identify a package or workspace".to_owned());
    }
    let mut walk: CargoWalk = CargoWalk { tally: Tally::new(), blocked: None };
    walk.tally.add_evidence(&file, source);
    match walk.visit_lock(&join_text(project, "Cargo.lock"), seen) {
        Step::Need(p, a) => {
            return Step::Need(p, a);
        },
        Step::Fail(reason) => {
            return Step::Fail(reason);
        },
        Step::Have(_) => {},
    }
    match walk.visit_markers(artifact, seen) {
        Step::Need(p, a) => {
            return Step::Need(p, a);
        },
        Step::Fail(reason) => {
            return Step::Fail(reason);
        },
        Step::Have(recognized) => {
            if !recognized {
                return Step::Have(None);
            }
        },
    }
    walk.blocked = doubt_of(&manifest, environment.custom_output);
    let own_workspace: bool = match manifest.field("workspace") {
        Some(inner) => inner.is_table(),
        None => false,
    };
    match walk.visit_above(&root.path, project, own_workspace, seen) {
        Step::Need(p, a) => {
            return Step::Need(p, a);
        },
        Step::Fail(reason) => {
            return Step::Fail(reason);
        },
        Step::Have(_) => {},
    }
    match walk.visit_globals(&root.path, &environment.home, seen) {
        Step::Need(p, a) => {
            return Step::Need(p, a);
        },
        Step::Fail(reason) => {
            return Step::Fail(reason);
        },
        Step::Have(_) => {},
    }
    let print: String = fingerprint_text(&walk.tally);
    Step::Have(
        Some(
            Evidence {
                kind: "cargo".to_owned(),
                title: joined(show_name(project, "Cargo project").as_str(), " build artifacts"),
                explanation:
                    "Cargo project evidence and a standard target marker identify this project's default build output.".to_owned(),
                consequence:
                    "The next build must recompile. Compiled applications and binaries inside this target directory are removed too.".to_owned(),
                fingerprint: print,
                blocked: walk.blocked,
                latest_modified_ns: walk.tally.latest_modified_ns,
                quiet_days: DEVELOPER_QUIET_DAYS,
                activity_root: None,
                rules,
            },
        ),
    )
}

/// A target folder without a marker that Cargo wrote is never taken for output.
pub proof fn output_needs_a_marker(
    root: Seq<u8>,
    project: Seq<u8>,
    artifact: Seq<u8>,
    custom_output: bool,
    home: Option<Seq<u8>>,
    seen: Sources,
    rules: Rules,
)
    requires
        cargo_step(root, project, artifact, custom_output, home, seen, rules) matches Got::Have(
            Some(_),
        ),
    ensures
        exists|i: int|
            0 <= i < 2 && (seen.capture(named(artifact, #[trigger] cargo_marker(i))) matches Got::Have(
                source,
            ) && genuine_marker(i, source.bytes@)),
{
    let pair = optional_config(seen, named(project, "Cargo.toml"@))->Have_0->Some_0;
    let account = added(
        Account { transcript: seq![], latest: 0 },
        named(project, "Cargo.toml"@),
        pair.0,
    );
    let locked = lock_step(named(project, "Cargo.lock"@), seen, account)->Have_0;
    reveal_with_fuel(markers, 3);
    let both = markers(2, artifact, seen, locked)->Have_0;
    assert(both.1);
    let first = cargo_marker(0);
    let second = cargo_marker(1);
    if seen.presence(named(artifact, second)) == Got::Have(true) {
        assert(genuine_marker(1, seen.capture(named(artifact, cargo_marker(1)))->Have_0.bytes@));
    } else {
        assert(genuine_marker(0, seen.capture(named(artifact, cargo_marker(0)))->Have_0.bytes@));
    }
}

/// Whether two sets of observations say the same of a file.
pub open spec fn agree_on(a: Sources, b: Sources, file: Seq<u8>) -> bool {
    a.presence(file) == b.presence(file) && a.capture(file) == b.capture(file)
}

/// Whether they say the same of a folder's configuration.
pub open spec fn agree_on_config(a: Sources, b: Sources, folder: Seq<u8>) -> bool {
    agree_on(a, b, named(folder, ".cargo/config"@)) && agree_on(
        a,
        b,
        named(folder, ".cargo/config.toml"@),
    )
}

proof fn same_climb(
    root: Seq<u8>,
    project: Seq<u8>,
    folder: Seq<u8>,
    a: Sources,
    b: Sources,
    state: CargoState,
)
    requires
        forall|at: Seq<u8>| #[trigger] agree_on_config(a, b, at),
    ensures
        climb(root, project, folder, true, a, state) == climb(
            root,
            project,
            folder,
            true,
            b,
            state,
        ),
    decreases folder.len(),
{
    assert(agree_on_config(a, b, folder));
    assert(folder_step(project, folder, true, a, state) == folder_step(
        project,
        folder,
        true,
        b,
        state,
    ));
    if let Got::Have(after) = folder_step(project, folder, true, a, state) {
        if let Some(above) = parent_of(folder) {
            if folder != root && under(above, root) && above.len() < folder.len() {
                same_climb(root, project, above, a, b, after);
            }
        }
    }
}

/// Nothing depends on the manifests above a project with a workspace of its own:
/// whatever is found of them, readable or not, its output is identified by the
/// same evidence, as recent, and just as blocked. All that counts is its own
/// manifest, its lockfile, its markers and the configuration.
pub proof fn an_own_workspace_ignores_outer_manifests(
    root: Seq<u8>,
    project: Seq<u8>,
    artifact: Seq<u8>,
    custom_output: bool,
    home: Option<Seq<u8>>,
    a: Sources,
    b: Sources,
    rules: Rules,
)
    requires
        optional_config(a, named(project, "Cargo.toml"@)) matches Got::Have(Some(pair))
            ==> pair.1.has_table("workspace"@),
        agree_on(a, b, named(project, "Cargo.toml"@)),
        agree_on(a, b, named(project, "Cargo.lock"@)),
        agree_on(a, b, named(artifact, cargo_marker(0))),
        agree_on(a, b, named(artifact, cargo_marker(1))),
        forall|folder: Seq<u8>| #[trigger] agree_on_config(a, b, folder),
        home matches Some(at) ==> agree_on(a, b, named(at, "config"@)) && agree_on(
            a,
            b,
            named(at, "config.toml"@),
        ),
    ensures
        cargo_step(root, project, artifact, custom_output, home, a, rules) == cargo_step(
            root,
            project,
            artifact,
            custom_output,
            home,
            b,
            rules,
        ),
{
    if let Got::Have(Some(pair)) = optional_config(a, named(project, "Cargo.toml"@)) {
        let account = added(
            Account { transcript: seq![], latest: 0 },
            named(project, "Cargo.toml"@),
            pair.0,
        );
        let lock = named(project, "Cargo.lock"@);
        assert(lock_step(lock, a, account) == lock_step(lock, b, account));
        if let Got::Have(locked) = lock_step(lock, a, account) {
            reveal_with_fuel(markers, 3);
            assert(markers(2, artifact, a, locked) == markers(2, artifact, b, locked));
            if let Got::Have(both) = markers(2, artifact, a, locked) {
                let start = CargoState {
                    account: both.0,
                    blocked: first_doubt(pair.1, custom_output),
                };
                same_climb(root, project, project, a, b, start);
            }
        }
    }
}

} // verus!
