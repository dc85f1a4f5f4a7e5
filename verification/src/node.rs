//! Installed dependency folders: which lockfile proves that a project owns them.
use crate::adapters::{fingerprint, fingerprint_text, step_finds};
use crate::caches::{ancestor_member, held, EvidenceCaches};
use crate::document::{json_document, parse_toml_text, toml_document};
use crate::evidence::{show_name, shown_name, text_view, Evidence, Found, DEVELOPER_QUIET_DAYS};
use crate::manifest::{manifest_outcome, node_manifest};
use crate::model::Root;
use crate::paths::{
    is_under, join_text, named, parent, parent_holds, parent_of, path_bytes, relative_to, share,
    strip_base, under, under_transitive, FsPath,
};
use crate::pnpm::{lock_owns, membership_outcome, pnpm_workspace_patterns, texts};
use crate::policy::Rules;
use crate::probe::{step_is, Got, Step};
use crate::sources::{added, Account, EvidenceSource, Sources, Tally};
use crate::text::{
    begins, bytes_begin, chars_hold, chars_of, joined, occurs, same_bytes, same_text, utf8_text,
};
use crate::workspace::{includes, includes_is, workspace_includes};
use vstd::bytes::{
    spec_u32_from_le_bytes, spec_u64_from_le_bytes, u32_from_le_bytes, u64_from_le_bytes,
};
use vstd::prelude::*;
use vstd::slice::{slice_subrange, slice_to_vec};
use vstd::utf8::{decode_utf8, encode_utf8, valid_utf8};

verus! {

/// What a binary Bun lockfile begins with.
pub open spec fn bun_header() -> Seq<u8> {
    encode_utf8("#!/usr/bin/env bun\nbun-lockfile-format-v0\n"@)
}

/// Whether a binary Bun lockfile owns a member: only the folder that holds it.
pub open spec fn bun_binary_outcome(bytes: Seq<u8>, relative: Seq<char>) -> Result<
    bool,
    Seq<char>,
> {
    let offset = bun_header().len() as int;
    if !begins(bytes, bun_header()) || bytes.len() < offset + 68 {
        Err("The Bun binary lock header is invalid or incomplete"@)
    } else {
        let version = spec_u32_from_le_bytes(bytes.subrange(offset, offset + 4));
        let end = spec_u64_from_le_bytes(bytes.subrange(offset + 36, offset + 44));
        if (version != 2 && version != 3) || end < offset + 68 || end > bytes.len() {
            Err("The Bun binary lock version or length is unsupported"@)
        } else {
            Ok(relative.len() == 0)
        }
    }
}

/// Whether a classic Yarn lockfile can be relied on.
pub open spec fn yarn_outcome(bytes: Seq<u8>) -> Result<bool, Seq<char>> {
    if !valid_utf8(bytes) {
        Err("The Yarn lockfile is not UTF-8"@)
    } else if !occurs(decode_utf8(bytes), "# yarn lockfile v1"@) {
        Err("This Yarn layout needs manual inspection"@)
    } else {
        Ok(true)
    }
}

/// An outcome as a step.
pub open spec fn settled<T>(outcome: Result<T, Seq<char>>) -> Got<T> {
    match outcome {
        Ok(value) => Got::Have(value),
        Err(reason) => Got::Fail(reason),
    }
}

/// Whether the lockfile of a name owns a member. The members of npm and textual
/// Bun lockfiles are observed; the others are read here.
pub open spec fn owner_step(
    name: Seq<char>,
    path: Seq<u8>,
    bytes: Seq<u8>,
    relative: Seq<char>,
    seen: Sources,
) -> Got<bool> {
    if name == "package-lock.json"@ || name == "npm-shrinkwrap.json"@ || name == "bun.lock"@ {
        seen.ownership(path)
    } else if name == "yarn.lock"@ {
        settled(yarn_outcome(bytes))
    } else if name == "bun.lockb"@ {
        settled(bun_binary_outcome(bytes, relative))
    } else if name == "pnpm-lock.yaml"@ {
        settled(lock_owns(bytes, relative))
    } else {
        Got::Have(false)
    }
}

fn bun_binary_owns(bytes: &[u8], relative: &str) -> (r: Result<bool, String>)
    ensures
        crate::workspace::outcome_is(r, bun_binary_outcome(bytes@, relative@)),
{
    // A bounded binary ownership marker, never executed or used to infer
    // workspace membership. Text locks carry the exact member table.
    let header: &[u8] = "#!/usr/bin/env bun\nbun-lockfile-format-v0\n".as_bytes();
    let offset: usize = header.len();
    if !bytes_begin(bytes, header) || bytes.len() - offset < 68 {
        return crate::text::fail("The Bun binary lock header is invalid or incomplete");
    }
    let version: u32 = u32_from_le_bytes(slice_subrange(bytes, offset, offset + 4));
    let end: u64 = u64_from_le_bytes(slice_subrange(bytes, offset + 36, offset + 44));
    if (version != 2 && version != 3) || end < (offset + 68) as u64 || end > bytes.len() as u64 {
        return crate::text::fail("The Bun binary lock version or length is unsupported");
    }
    Ok(chars_of(relative).len() == 0)
}

fn yarn_owns(bytes: &[u8]) -> (r: Result<bool, String>)
    ensures
        crate::workspace::outcome_is(r, yarn_outcome(bytes@)),
{
    match utf8_text(bytes) {
        None => crate::text::fail("The Yarn lockfile is not UTF-8"),
        Some(text) => {
            if !chars_hold(chars_of(text).as_slice(), "# yarn lockfile v1") {
                return crate::text::fail("This Yarn layout needs manual inspection");
            }
            // Ancestor ownership still requires declared workspace membership.
            Ok(true)
        },
    }
}

fn settle(outcome: Result<bool, String>) -> (r: Step<bool>)
    ensures
        match outcome {
            Ok(value) => r == Step::Have(value),
            Err(reason) => r == Step::<bool>::Fail(reason),
        },
{
    match outcome {
        Ok(value) => Step::Have(value),
        Err(reason) => Step::Fail(reason),
    }
}

/// Whether a step gives the value that is expected.
pub open spec fn step_gives(r: Step<bool>, expected: Got<bool>) -> bool {
    match expected {
        Got::Need(at, ask) => r matches Step::Need(p, a) && p@ == at && a == ask,
        Got::Fail(reason) => r matches Step::Fail(text) && text@ == reason,
        Got::Have(value) => r == Step::Have(value),
    }
}

/// A captured file was seen.
pub proof fn captured_is_held(seen: Sources, path: Seq<u8>)
    ensures
        seen.capture(path) matches Got::Have(source) ==> held(seen, source.bytes@),
{
    if seen.capture(path) is Have {
        let i = choose|i: int| #[trigger] seen.fact_at(path, i);
        assert(seen.facts@[i] == seen.of(path));
    }
}

/// Whether the lockfile of a name owns a member.
pub fn node_lock_owns(
    name: &str,
    path: &FsPath,
    source: &EvidenceSource,
    relative: &str,
    seen: &Sources,
    caches: &mut EvidenceCaches,
) -> (r: Step<bool>)
    requires
        old(caches).wf(),
        held(*seen, source.bytes@),
    ensures
        final(caches).wf(),
        old(caches).trusted(*seen) ==> final(caches).trusted(*seen) && step_gives(
            r,
            owner_step(name@, path@, source.bytes@, relative@, *seen),
        ),
{
    if same_text(name, "package-lock.json") || same_text(name, "npm-shrinkwrap.json") || same_text(
        name,
        "bun.lock",
    ) {
        seen.lock_owns(path)
    } else if same_text(name, "yarn.lock") {
        settle(yarn_owns(source.bytes.as_slice()))
    } else if same_text(name, "bun.lockb") {
        settle(bun_binary_owns(source.bytes.as_slice(), relative))
    } else if same_text(name, "pnpm-lock.yaml") {
        settle(caches.pnpm_owns(source, relative, Ghost(*seen)))
    } else {
        Step::Have(false)
    }
}

/// What is known on the way up from a project.
pub struct WalkState {
    pub account: Account,
    pub blocked: Option<Seq<char>>,
    pub node_member: bool,
    pub pnpm_member: bool,
    pub recognized: bool,
    pub has_lock: bool,
}

/// The same, while it is collected.
pub struct Walk {
    pub tally: Tally,
    pub blocked: Option<String>,
    pub node_member: bool,
    pub pnpm_member: bool,
    pub recognized: bool,
    pub has_lock: bool,
}

impl View for Walk {
    type V = WalkState;

    open spec fn view(&self) -> WalkState {
        WalkState {
            account: self.tally.account(),
            blocked: text_view(self.blocked),
            node_member: self.node_member,
            pnpm_member: self.pnpm_member,
            recognized: self.recognized,
            has_lock: self.has_lock,
        }
    }
}

/// Where the walk stands: the project, the folder reached, and how the project is
/// called from there.
pub struct Place {
    pub project: Seq<u8>,
    pub folder: Seq<u8>,
    pub relative: Seq<char>,
}

/// What the manifest of a folder above the project says of it.
pub open spec fn manifest_step(place: Place, seen: Sources, state: WalkState) -> Got<WalkState> {
    let file = named(place.folder, "package.json"@);
    if place.folder == place.project {
        Got::Have(state)
    } else {
        match seen.presence(file) {
            Got::Need(path, ask) => Got::Need(path, ask),
            Got::Fail(reason) => Got::Fail(reason),
            Got::Have(there) => if !there {
                Got::Have(state)
            } else {
                match seen.capture(file) {
                    Got::Need(path, ask) => Got::Need(path, ask),
                    Got::Fail(reason) => Got::Fail(reason),
                    Got::Have(source) => match ancestor_member(source.bytes@, place.relative) {
                        Err(reason) => Got::Fail(reason),
                        Ok(member) => Got::Have(
                            WalkState {
                                account: added(state.account, file, source),
                                node_member: member,
                                ..state
                            },
                        ),
                    },
                }
            },
        }
    }
}

/// The configuration files that may change an installation.
pub open spec fn config_name(i: int) -> Seq<char> {
    if i == 0 {
        ".npmrc"@
    } else if i == 1 {
        ".yarnrc"@
    } else if i == 2 {
        ".yarnrc.yml"@
    } else if i == 3 {
        "bunfig.toml"@
    } else {
        "pnpm-workspace.yaml"@
    }
}

fn config_text(i: usize) -> (r: &'static str)
    ensures
        r@ == config_name(i as int),
{
    if i == 0 {
        ".npmrc"
    } else if i == 1 {
        ".yarnrc"
    } else if i == 2 {
        ".yarnrc.yml"
    } else if i == 3 {
        "bunfig.toml"
    } else {
        "pnpm-workspace.yaml"
    }
}

/// What is said of a layout that is not understood.
pub open spec fn modern_yarn_reason() -> Seq<char> {
    "Modern Yarn or shared installation layouts need manual inspection"@
}

/// What a captured configuration file changes.
pub open spec fn config_effect(
    name: Seq<char>,
    bytes: Seq<u8>,
    place: Place,
    state: WalkState,
) -> Got<WalkState> {
    if name == "pnpm-workspace.yaml"@ && place.folder != place.project {
        match membership_outcome(bytes) {
            Err(reason) => Got::Fail(reason),
            Ok(list) => match includes(list, place.relative) {
                Err(reason) => Got::Fail(reason),
                Ok(member) => Got::Have(WalkState { pnpm_member: member, ..state }),
            },
        }
    } else if name == ".yarnrc.yml"@ {
        Got::Have(WalkState { blocked: Some(modern_yarn_reason()), ..state })
    } else if name == "bunfig.toml"@ {
        if !valid_utf8(bytes) {
            Got::Fail("Bun configuration is not UTF-8"@)
        } else if toml_document(decode_utf8(bytes)) is None {
            Got::Fail("Bun configuration is invalid TOML"@)
        } else {
            Got::Have(state)
        }
    } else {
        Got::Have(state)
    }
}

/// One configuration file.
pub open spec fn config_step(
    i: int,
    place: Place,
    seen: Sources,
    state: WalkState,
) -> Got<WalkState> {
    let file = named(place.folder, config_name(i));
    match seen.presence(file) {
        Got::Need(path, ask) => Got::Need(path, ask),
        Got::Fail(reason) => Got::Fail(reason),
        Got::Have(there) => if !there {
            Got::Have(state)
        } else {
            match seen.capture(file) {
                Got::Need(path, ask) => Got::Need(path, ask),
                Got::Fail(reason) => Got::Fail(reason),
                Got::Have(source) => config_effect(
                    config_name(i),
                    source.bytes@,
                    place,
                    WalkState { account: added(state.account, file, source), ..state },
                ),
            }
        },
    }
}

/// The first `n` configuration files.
pub open spec fn configs(n: int, place: Place, seen: Sources, state: WalkState) -> Got<WalkState>
    decreases n,
{
    if n <= 0 {
        Got::Have(state)
    } else {
        match configs(n - 1, place, seen, state) {
            Got::Have(reached) => config_step(n - 1, place, seen, reached),
            other => other,
        }
    }
}

/// The lockfiles that are understood.
pub open spec fn lock_name(i: int) -> Seq<char> {
    if i == 0 {
        "npm-shrinkwrap.json"@
    } else if i == 1 {
        "package-lock.json"@
    } else if i == 2 {
        "yarn.lock"@
    } else if i == 3 {
        "bun.lock"@
    } else if i == 4 {
        "bun.lockb"@
    } else {
        "pnpm-lock.yaml"@
    }
}

fn lock_text(i: usize) -> (r: &'static str)
    ensures
        r@ == lock_name(i as int),
{
    if i == 0 {
        "npm-shrinkwrap.json"
    } else if i == 1 {
        "package-lock.json"
    } else if i == 2 {
        "yarn.lock"
    } else if i == 3 {
        "bun.lock"
    } else if i == 4 {
        "bun.lockb"
    } else {
        "pnpm-lock.yaml"
    }
}

/// One lockfile: it must name the project, and the workspace must declare it.
pub open spec fn lock_step(i: int, place: Place, seen: Sources, state: WalkState) -> Got<WalkState> {
    let name = lock_name(i);
    let file = named(place.folder, name);
    match seen.presence(file) {
        Got::Need(path, ask) => Got::Need(path, ask),
        Got::Fail(reason) => Got::Fail(reason),
        Got::Have(there) => if !there {
            Got::Have(state)
        } else {
            match seen.capture(file) {
                Got::Need(path, ask) => Got::Need(path, ask),
                Got::Fail(reason) => Got::Fail(reason),
                Got::Have(source) => match owner_step(
                    name,
                    file,
                    source.bytes@,
                    place.relative,
                    seen,
                ) {
                    Got::Need(path, ask) => Got::Need(path, ask),
                    Got::Fail(reason) => Got::Fail(reason),
                    Got::Have(owns) => {
                        let declared = if name == "pnpm-lock.yaml"@ {
                            state.pnpm_member
                        } else {
                            state.node_member
                        };
                        Got::Have(
                            WalkState {
                                account: added(state.account, file, source),
                                has_lock: true,
                                recognized: state.recognized || (owns && declared),
                                ..state
                            },
                        )
                    },
                },
            }
        },
    }
}

/// The first `n` lockfiles.
pub open spec fn locks(n: int, place: Place, seen: Sources, state: WalkState) -> Got<WalkState>
    decreases n,
{
    if n <= 0 {
        Got::Have(state)
    } else {
        match locks(n - 1, place, seen, state) {
            Got::Have(reached) => lock_step(n - 1, place, seen, reached),
            other => other,
        }
    }
}

/// What one folder on the way up adds.
pub open spec fn folder_step(
    project: Seq<u8>,
    folder: Seq<u8>,
    seen: Sources,
    account: Account,
    blocked: Option<Seq<char>>,
) -> Got<WalkState> {
    let rest = relative_to(project, folder);
    if !valid_utf8(rest) {
        Got::Fail("Workspace paths are not supported UTF-8 names"@)
    } else {
        let place = Place { project, folder, relative: decode_utf8(rest) };
        let start = WalkState {
            account,
            blocked,
            node_member: folder == project,
            pnpm_member: folder == project,
            recognized: false,
            has_lock: false,
        };
        match manifest_step(place, seen, start) {
            Got::Have(after) => match configs(5, place, seen, after) {
                Got::Have(reached) => locks(6, place, seen, reached),
                other => other,
            },
            other => other,
        }
    }
}

/// What the way up comes to: the owning folder, what commits to the evidence,
/// and what stands against it.
pub struct Ownership {
    pub owner: Seq<u8>,
    pub account: Account,
    pub blocked: Option<Seq<char>>,
}

pub open spec fn no_owner_reason() -> Seq<char> {
    "No supported lockfile proves ownership of this project or workspace member"@
}

/// The way up from a folder: at most `n` folders, none outside the root, and
/// never across a separate installation or repository.
pub open spec fn climb(
    root: Seq<u8>,
    project: Seq<u8>,
    folder: Seq<u8>,
    n: nat,
    seen: Sources,
    account: Account,
    blocked: Option<Seq<char>>,
) -> Got<Ownership>
    decreases n,
{
    if n == 0 || !under(folder, root) {
        Got::Fail(no_owner_reason())
    } else {
        match folder_step(project, folder, seen, account, blocked) {
            Got::Need(path, ask) => Got::Need(path, ask),
            Got::Fail(reason) => Got::Fail(reason),
            Got::Have(state) => if state.recognized {
                Got::Have(
                    Ownership { owner: folder, account: state.account, blocked: state.blocked },
                )
            } else if state.has_lock {
                Got::Fail(no_owner_reason())
            } else {
                match seen.presence(named(folder, ".git"@)) {
                    Got::Need(path, ask) => Got::Need(path, ask),
                    Got::Fail(reason) => Got::Fail(reason),
                    Got::Have(there) => if there {
                        Got::Fail(no_owner_reason())
                    } else {
                        match parent_of(folder) {
                            None => Got::Fail(no_owner_reason()),
                            Some(above) => climb(
                                root,
                                project,
                                above,
                                (n - 1) as nat,
                                seen,
                                state.account,
                                state.blocked,
                            ),
                        }
                    },
                }
            },
        }
    }
}

/// What an installed dependency folder is identified by.
pub open spec fn node_step(
    root: Seq<u8>,
    project: Seq<u8>,
    seen: Sources,
    rules: Rules,
) -> Got<Option<Found>> {
    let manifest = named(project, "package.json"@);
    match seen.presence(manifest) {
        Got::Need(path, ask) => Got::Need(path, ask),
        Got::Fail(reason) => Got::Fail(reason),
        Got::Have(there) => if !there {
            Got::Fail(
                "The dependency directory has no project manifest; ownership is unverified"@,
            )
        } else {
            match seen.capture(manifest) {
                Got::Need(path, ask) => Got::Need(path, ask),
                Got::Fail(reason) => Got::Fail(reason),
                Got::Have(source) => match manifest_outcome(json_document(source.bytes@)) {
                    Err(reason) => Got::Fail(reason),
                    Ok(_) => {
                        let account = added(
                            Account { transcript: seq![], latest: 0 },
                            manifest,
                            source,
                        );
                        match climb(root, project, project, 64, seen, account, None) {
                            Got::Need(path, ask) => Got::Need(path, ask),
                            Got::Fail(reason) => Got::Fail(reason),
                            Got::Have(owned) => Got::Have(
                                Some(node_found(project, owned, rules)),
                            ),
                        }
                    },
                },
            }
        },
    }
}

/// What is said of an owned dependency folder.
pub open spec fn node_found(project: Seq<u8>, owned: Ownership, rules: Rules) -> Found {
    Found {
        kind: "node"@,
        title: shown_name(project, "Node project"@) + " dependencies"@,
        explanation:
            "A project manifest and a supported npm, Yarn classic, Bun or pnpm lockfile identify this installed dependency directory. Workspace membership is verified when the lock belongs to an ancestor."@,
        consequence:
            "Dependencies must be reinstalled from the owning project or workspace before it runs. Network access and compatible installation options may be needed. Linked source files outside this directory are preserved."@,
        fingerprint: fingerprint(owned.account),
        blocked: owned.blocked,
        latest: owned.account.latest,
        quiet_days: DEVELOPER_QUIET_DAYS,
        activity_root: Some(owned.owner),
        rules,
    }
}

/// Whether a step is what is expected of it and leaves the walk where it should.
pub open spec fn walked(r: Step<()>, expected: Got<WalkState>, after: Walk) -> bool {
    step_is(r, expected) && (expected matches Got::Have(state) ==> after@ == state)
}

/// Where the walk stands, as values.
pub struct At<'a> {
    pub project: &'a FsPath,
    pub folder: &'a FsPath,
    pub relative: &'a str,
}

impl<'a> View for At<'a> {
    type V = Place;

    open spec fn view(&self) -> Place {
        Place { project: self.project@, folder: self.folder@, relative: self.relative@ }
    }
}

impl Walk {
    fn visit_manifest(&mut self, at: &At, seen: &Sources, caches: &mut EvidenceCaches) -> (r: Step<
        (),
    >)
        requires
            old(caches).wf(),
        ensures
            final(caches).wf(),
            old(caches).trusted(*seen) ==> final(caches).trusted(*seen) && walked(
                r,
                manifest_step(at@, *seen, old(self)@),
                *final(self),
            ),
    {
        if same_bytes(path_bytes(at.folder), path_bytes(at.project)) {
            return Step::Have(());
        }
        let file: FsPath = join_text(at.folder, "package.json");
        match seen.path_exists(&file) {
            Step::Need(p, a) => {
                return Step::Need(p, a);
            },
            Step::Fail(reason) => {
                return Step::Fail(reason);
            },
            Step::Have(there) => {
                if !there {
                    return Step::Have(());
                }
            },
        }
        let source: &EvidenceSource = match seen.read_source(&file) {
            Step::Need(p, a) => {
                return Step::Need(p, a);
            },
            Step::Fail(reason) => {
                return Step::Fail(reason);
            },
            Step::Have(source) => source,
        };
        proof {
            captured_is_held(*seen, file@);
        }
        match caches.manifest_member(source, at.relative, Ghost(*seen)) {
            Err(reason) => {
                return Step::Fail(reason);
            },
            Ok(member) => {
                self.node_member = member;
            },
        }
        self.tally.add_evidence(&file, source);
        Step::Have(())
    }

    fn apply_config(&mut self, name: &str, source: &EvidenceSource, at: &At) -> (r: Step<()>)
        ensures
            walked(r, config_effect(name@, source.bytes@, at@, old(self)@), *final(self)),
    {
        if same_text(name, "pnpm-workspace.yaml") && !same_bytes(
            path_bytes(at.folder),
            path_bytes(at.project),
        ) {
            match pnpm_workspace_patterns(source.bytes.as_slice()) {
                Err(reason) => Step::Fail(reason),
                Ok(patterns) => {
                    let answer: Result<bool, String> = workspace_includes(
                        patterns.as_slice(),
                        at.relative,
                    );
                    proof {
                        includes_is(patterns@, texts(patterns@), at.relative@, answer);
                    }
                    match answer {
                        Err(reason) => Step::Fail(reason),
                        Ok(member) => {
                            self.pnpm_member = member;
                            Step::Have(())
                        },
                    }
                },
            }
        } else if same_text(name, ".yarnrc.yml") {
            self.blocked = Some(
                "Modern Yarn or shared installation layouts need manual inspection".to_owned(),
            );
            Step::Have(())
        } else if same_text(name, "bunfig.toml") {
            match utf8_text(source.bytes.as_slice()) {
                None => Step::Fail("Bun configuration is not UTF-8".to_owned()),
                Some(text) => match parse_toml_text(text) {
                    None => Step::Fail("Bun configuration is invalid TOML".to_owned()),
                    Some(_) => Step::Have(()),
                },
            }
        } else {
            Step::Have(())
        }
    }

    fn visit_config(&mut self, i: usize, at: &At, seen: &Sources) -> (r: Step<()>)
        ensures
            walked(r, config_step(i as int, at@, *seen, old(self)@), *final(self)),
    {
        let name: &'static str = config_text(i);
        let file: FsPath = join_text(at.folder, name);
        match seen.path_exists(&file) {
            Step::Need(p, a) => {
                return Step::Need(p, a);
            },
            Step::Fail(reason) => {
                return Step::Fail(reason);
            },
            Step::Have(there) => {
                if !there {
                    return Step::Have(());
                }
            },
        }
        match seen.read_source(&file) {
            Step::Need(p, a) => Step::Need(p, a),
            Step::Fail(reason) => Step::Fail(reason),
            Step::Have(source) => {
                self.tally.add_evidence(&file, source);
                self.apply_config(name, source, at)
            },
        }
    }

    fn visit_configs(&mut self, at: &At, seen: &Sources) -> (r: Step<()>)
        ensures
            walked(r, configs(5, at@, *seen, old(self)@), *final(self)),
    {
        let ghost start = self@;
        let mut i: usize = 0;
        while i < 5
            invariant
                i <= 5,
                start == old(self)@,
                configs(i as int, at@, *seen, start) == Got::Have(self@),
            decreases 5 - i,
        {
            let ghost here = i as int;
            match self.visit_config(i, at, seen) {
                Step::Need(p, a) => {
                    proof {
                        configs_stop(here + 1, 5, at@, *seen, start);
                    }
                    return Step::Need(p, a);
                },
                Step::Fail(reason) => {
                    proof {
                        configs_stop(here + 1, 5, at@, *seen, start);
                    }
                    return Step::Fail(reason);
                },
                Step::Have(_) => {},
            }
            i = i + 1;
        }
        Step::Have(())
    }

    fn visit_lock(
        &mut self,
        i: usize,
        at: &At,
        seen: &Sources,
        caches: &mut EvidenceCaches,
    ) -> (r: Step<()>)
        requires
            old(caches).wf(),
        ensures
            final(caches).wf(),
            old(caches).trusted(*seen) ==> final(caches).trusted(*seen) && walked(
                r,
                lock_step(i as int, at@, *seen, old(self)@),
                *final(self),
            ),
    {
        let name: &'static str = lock_text(i);
        let file: FsPath = join_text(at.folder, name);
        match seen.path_exists(&file) {
            Step::Need(p, a) => {
                return Step::Need(p, a);
            },
            Step::Fail(reason) => {
                return Step::Fail(reason);
            },
            Step::Have(there) => {
                if !there {
                    return Step::Have(());
                }
            },
        }
        let source: &EvidenceSource = match seen.read_source(&file) {
            Step::Need(p, a) => {
                return Step::Need(p, a);
            },
            Step::Fail(reason) => {
                return Step::Fail(reason);
            },
            Step::Have(source) => source,
        };
        proof {
            captured_is_held(*seen, file@);
        }
        match node_lock_owns(name, &file, source, at.relative, seen, caches) {
            Step::Need(p, a) => Step::Need(p, a),
            Step::Fail(reason) => Step::Fail(reason),
            Step::Have(owns) => {
                let declared: bool = if same_text(name, "pnpm-lock.yaml") {
                    self.pnpm_member
                } else {
                    self.node_member
                };
                self.has_lock = true;
                self.recognized = self.recognized || (owns && declared);
                self.tally.add_evidence(&file, source);
                Step::Have(())
            },
        }
    }

    fn visit_locks(&mut self, at: &At, seen: &Sources, caches: &mut EvidenceCaches) -> (r: Step<()>)
        requires
            old(caches).wf(),
        ensures
            final(caches).wf(),
            old(caches).trusted(*seen) ==> final(caches).trusted(*seen) && walked(
                r,
                locks(6, at@, *seen, old(self)@),
                *final(self),
            ),
    {
        let ghost start = self@;
        let ghost sound = caches.trusted(*seen);
        let mut i: usize = 0;
        while i < 6
            invariant
                i <= 6,
                caches.wf(),
                start == old(self)@,
                sound == old(caches).trusted(*seen),
                sound ==> caches.trusted(*seen),
                sound ==> locks(i as int, at@, *seen, start) == Got::Have(self@),
            decreases 6 - i,
        {
            let ghost here = i as int;
            match self.visit_lock(i, at, seen, caches) {
                Step::Need(p, a) => {
                    proof {
                        if sound {
                            locks_stop(here + 1, 6, at@, *seen, start);
                        }
                    }
                    return Step::Need(p, a);
                },
                Step::Fail(reason) => {
                    proof {
                        if sound {
                            locks_stop(here + 1, 6, at@, *seen, start);
                        }
                    }
                    return Step::Fail(reason);
                },
                Step::Have(_) => {},
            }
            i = i + 1;
        }
        Step::Have(())
    }

    fn visit_folder(
        &mut self,
        project: &FsPath,
        folder: &FsPath,
        seen: &Sources,
        caches: &mut EvidenceCaches,
    ) -> (r: Step<()>)
        requires
            old(caches).wf(),
            under(project@, folder@),
        ensures
            final(caches).wf(),
            old(caches).trusted(*seen) ==> final(caches).trusted(*seen) && walked(
                r,
                folder_step(
                    project@,
                    folder@,
                    *seen,
                    old(self)@.account,
                    old(self)@.blocked,
                ),
                *final(self),
            ),
    {
        let rest: &[u8] = strip_base(path_bytes(project), path_bytes(folder));
        let relative: &str = match utf8_text(rest) {
            None => {
                return Step::Fail("Workspace paths are not supported UTF-8 names".to_owned());
            },
            Some(text) => text,
        };
        let at: At = At { project, folder, relative };
        let own: bool = same_bytes(path_bytes(folder), path_bytes(project));
        self.node_member = own;
        self.pnpm_member = own;
        self.recognized = false;
        self.has_lock = false;
        match self.visit_manifest(&at, seen, caches) {
            Step::Need(p, a) => {
                return Step::Need(p, a);
            },
            Step::Fail(reason) => {
                return Step::Fail(reason);
            },
            Step::Have(_) => {},
        }
        match self.visit_configs(&at, seen) {
            Step::Need(p, a) => {
                return Step::Need(p, a);
            },
            Step::Fail(reason) => {
                return Step::Fail(reason);
            },
            Step::Have(_) => {},
        }
        self.visit_locks(&at, seen, caches)
    }
}

proof fn configs_stop(i: int, n: int, place: Place, seen: Sources, state: WalkState)
    requires
        0 <= i <= n,
        !(configs(i, place, seen, state) is Have),
    ensures
        configs(n, place, seen, state) == configs(i, place, seen, state),
    decreases n - i,
{
    if i < n {
        configs_stop(i + 1, n, place, seen, state);
    }
}

proof fn locks_stop(i: int, n: int, place: Place, seen: Sources, state: WalkState)
    requires
        0 <= i <= n,
        !(locks(i, place, seen, state) is Have),
    ensures
        locks(n, place, seen, state) == locks(i, place, seen, state),
    decreases n - i,
{
    if i < n {
        locks_stop(i + 1, n, place, seen, state);
    }
}

/// Whether the way up comes where it should.
pub open spec fn climbed(r: Step<FsPath>, expected: Got<Ownership>, after: Walk) -> bool {
    &&& step_is(r, expected)
    &&& expected matches Got::Have(owned) ==> {
        &&& r matches Step::Have(owner) && owner@ == owned.owner
        &&& after@.account == owned.account
        &&& after@.blocked == owned.blocked
    }
}

fn find_owner(
    root: &FsPath,
    project: &FsPath,
    walk: &mut Walk,
    seen: &Sources,
    caches: &mut EvidenceCaches,
) -> (r: Step<FsPath>)
    requires
        old(caches).wf(),
    ensures
        final(caches).wf(),
        old(caches).trusted(*seen) ==> final(caches).trusted(*seen) && climbed(
            r,
            climb(
                root@,
                project@,
                project@,
                64,
                *seen,
                old(walk)@.account,
                old(walk)@.blocked,
            ),
            *final(walk),
        ),
{
    let ghost sound = caches.trusted(*seen);
    let ghost whole = climb(
        root@,
        project@,
        project@,
        64,
        *seen,
        walk@.account,
        walk@.blocked,
    );
    let mut folder: FsPath = share(project);
    let mut left: usize = 64;
    proof {
        crate::paths::under_itself(project@, project@);
    }
    while left > 0 && is_under(path_bytes(&folder), path_bytes(root))
        invariant
            left <= 64,
            caches.wf(),
            under(project@, folder@),
            sound == old(caches).trusted(*seen),
            sound ==> caches.trusted(*seen),
            whole == climb(
                root@,
                project@,
                project@,
                64,
                *seen,
                old(walk)@.account,
                old(walk)@.blocked,
            ),
            sound ==> whole == climb(
                root@,
                project@,
                folder@,
                left as nat,
                *seen,
                walk@.account,
                walk@.blocked,
            ),
        decreases left,
    {
        match walk.visit_folder(project, &folder, seen, caches) {
            Step::Need(p, a) => {
                return Step::Need(p, a);
            },
            Step::Fail(reason) => {
                return Step::Fail(reason);
            },
            Step::Have(_) => {},
        }
        if walk.recognized {
            return Step::Have(folder);
        }
        if walk.has_lock {
            return Step::Fail(
                "No supported lockfile proves ownership of this project or workspace member".to_owned(),
            );
        }
        match seen.path_exists(&join_text(&folder, ".git")) {
            Step::Need(p, a) => {
                return Step::Need(p, a);
            },
            Step::Fail(reason) => {
                return Step::Fail(reason);
            },
            Step::Have(there) => {
                if there {
                    // Never borrow ownership across a separate install or repository.
                    return Step::Fail(
                        "No supported lockfile proves ownership of this project or workspace member".to_owned(),
                    );
                }
            },
        }
        let above: FsPath = match parent(path_bytes(&folder)) {
            None => {
                return Step::Fail(
                    "No supported lockfile proves ownership of this project or workspace member".to_owned(),
                );
            },
            Some(above) => crate::paths::fs_path(slice_to_vec(above)),
        };
        proof {
            parent_holds(folder@);
            under_transitive(project@, folder@, above@);
        }
        folder = above;
        left = left - 1;
    }
    Step::Fail(
        "No supported lockfile proves ownership of this project or workspace member".to_owned(),
    )
}

/// Installed dependencies are identified by the project's own manifest and by a
/// lockfile, in the project or above it, that names the project and whose
/// workspace declares it. Ownership is never borrowed across a separate
/// installation or repository.
pub fn node_evidence_cached(
    root: &Root,
    project: &FsPath,
    seen: &Sources,
    caches: &mut EvidenceCaches,
    rules: Rules,
    cancel: bool,
) -> (r: Step<Option<Evidence>>)
    requires
        old(caches).wf(),
    ensures
        final(caches).wf(),
        cancel ==> (r matches Step::Fail(text) && text@ == "Cancelled"@) && *final(caches) == *old(
            caches,
        ),
        !cancel && old(caches).trusted(*seen) ==> final(caches).trusted(*seen) && step_finds(
            r,
            node_step(root.path@, project@, *seen, rules),
        ),
{
    if cancel {
        return Step::Fail("Cancelled".to_owned());
    }
    let manifest: FsPath = join_text(project, "package.json");
    match seen.path_exists(&manifest) {
        Step::Need(p, a) => {
            return Step::Need(p, a);
        },
        Step::Fail(reason) => {
            return Step::Fail(reason);
        },
        Step::Have(there) => {
            if !there {
                return Step::Fail(
                    "The dependency directory has no project manifest; ownership is unverified".to_owned(),
                );
            }
        },
    }
    let source: &EvidenceSource = match seen.read_source(&manifest) {
        Step::Need(p, a) => {
            return Step::Need(p, a);
        },
        Step::Fail(reason) => {
            return Step::Fail(reason);
        },
        Step::Have(source) => source,
    };
    match node_manifest(source.bytes.as_slice()) {
        Err(reason) => {
            return Step::Fail(reason);
        },
        Ok(_) => {},
    }
    let mut walk: Walk = Walk {
        tally: Tally::new(),
        blocked: None,
        node_member: true,
        pnpm_member: true,
        recognized: false,
        has_lock: false,
    };
    walk.tally.add_evidence(&manifest, source);
    let owner: FsPath = match find_owner(&root.path, project, &mut walk, seen, caches) {
        Step::Need(p, a) => {
            return Step::Need(p, a);
        },
        Step::Fail(reason) => {
            return Step::Fail(reason);
        },
        Step::Have(owner) => owner,
    };
    let print: String = fingerprint_text(&walk.tally);
    Step::Have(
        Some(
            Evidence {
                kind: "node".to_owned(),
                title: joined(show_name(project, "Node project").as_str(), " dependencies"),
                explanation:
                    "A project manifest and a supported npm, Yarn classic, Bun or pnpm lockfile identify this installed dependency directory. Workspace membership is verified when the lock belongs to an ancestor.".to_owned(),
                consequence:
                    "Dependencies must be reinstalled from the owning project or workspace before it runs. Network access and compatible installation options may be needed. Linked source files outside this directory are preserved.".to_owned(),
                fingerprint: print,
                blocked: walk.blocked,
                latest_modified_ns: walk.tally.latest_modified_ns,
                quiet_days: DEVELOPER_QUIET_DAYS,
                activity_root: Some(owner),
                rules,
            },
        ),
    )
}

/// The same, without any cache.
pub fn node_evidence(
    root: &Root,
    project: &FsPath,
    seen: &Sources,
    rules: Rules,
    cancel: bool,
) -> (r: Step<Option<Evidence>>)
    ensures
        if cancel {
            r matches Step::Fail(text) && text@ == "Cancelled"@
        } else {
            step_finds(r, node_step(root.path@, project@, *seen, rules))
        },
{
    let mut caches: EvidenceCaches = EvidenceCaches::none();
    node_evidence_cached(root, project, seen, &mut caches, rules, cancel)
}

/// Whoever owns installed dependencies is a folder that holds the project, and
/// lies in the root.
pub proof fn owners_hold_the_project(
    root: Seq<u8>,
    project: Seq<u8>,
    folder: Seq<u8>,
    n: nat,
    seen: Sources,
    account: Account,
    blocked: Option<Seq<char>>,
)
    requires
        under(project, folder),
    ensures
        climb(root, project, folder, n, seen, account, blocked) matches Got::Have(owned) ==> {
            &&& under(project, owned.owner)
            &&& under(owned.owner, root)
        },
    decreases n,
{
    if n > 0 && under(folder, root) {
        match folder_step(project, folder, seen, account, blocked) {
            Got::Have(state) => {
                if !state.recognized && !state.has_lock && parent_of(folder) is Some {
                    let above = parent_of(folder)->Some_0;
                    parent_holds(folder);
                    under_transitive(project, folder, above);
                    owners_hold_the_project(
                        root,
                        project,
                        above,
                        (n - 1) as nat,
                        seen,
                        state.account,
                        state.blocked,
                    );
                }
            },
            _ => {},
        }
    }
}

/// Cached answers never change what is found: with caches that can be relied on
/// and without any, the same observations identify the same evidence.
pub proof fn caches_change_no_answer(
    root: Seq<u8>,
    project: Seq<u8>,
    seen: Sources,
    rules: Rules,
    cached: Step<Option<Evidence>>,
    plain: Step<Option<Evidence>>,
)
    requires
        step_finds(cached, node_step(root, project, seen, rules)),
        step_finds(plain, node_step(root, project, seen, rules)),
    ensures
        cached is Have <==> plain is Have,
        cached matches Step::Fail(a) ==> plain matches Step::Fail(b) && a@ == b@,
        cached matches Step::Need(p, a) ==> plain matches Step::Need(q, b) && p@ == q@ && a == b,
        cached matches Step::Have(Some(a)) ==> plain matches Step::Have(Some(b)) && a@ == b@,
        cached matches Step::Have(None) ==> plain matches Step::Have(None),
{
}

} // verus!
