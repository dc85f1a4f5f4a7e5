//! Which projects own their installed dependencies.
use crate::caches::ancestor_member;
use crate::document::{json_document, toml_document, Doc};
use crate::laws::observing::{holds, lacks};
use crate::node::{
    climb, configs, folder_step, lock_name, lock_step, locks, manifest_step, node_step,
    owner_step, Ownership, Place, WalkState,
};
use crate::manifest::manifest_outcome;
use crate::paths::{components, named, parent_of, relative_to, under, what_is_left_of_a_path};
use crate::pnpm::{lock_owns, membership_outcome};
use crate::policy::Rules;
use crate::probe::Got;
use crate::sources::{added, Account, EvidenceSource, Sources};
use crate::text::{begins, occurs, occurs_at, trim};
use crate::workspace::includes;
use vstd::bytes::{spec_u32_from_le_bytes, spec_u64_from_le_bytes};
use vstd::prelude::*;
use vstd::utf8::{decode_utf8, encode_utf8, valid_utf8};

verus! {

/// The bytes are a text in which these words stand.
pub open spec fn says(bytes: Seq<u8>, words: Seq<char>) -> bool {
    valid_utf8(bytes) && exists|before: Seq<char>, after: Seq<char>|
        decode_utf8(bytes) == #[trigger] (before + words + after)
}

/// A Yarn lockfile of the classic layout, and no other, owns every member it is asked
/// for.
pub proof fn a_classic_yarn_lock_owns_its_members(
    path: Seq<u8>,
    bytes: Seq<u8>,
    relative: Seq<char>,
    seen: Sources,
)
    ensures
        says(bytes, "# yarn lockfile v1"@) ==> owner_step(
            "yarn.lock"@,
            path,
            bytes,
            relative,
            seen,
        ) == Got::<bool>::Have(true),
        !says(bytes, "# yarn lockfile v1"@) ==> owner_step(
            "yarn.lock"@,
            path,
            bytes,
            relative,
            seen,
        ) is Fail,
{
    lock_names_differ();
    let words = "# yarn lockfile v1"@;
    let text = decode_utf8(bytes);
    if says(bytes, words) {
        let (before, after) = choose|before: Seq<char>, after: Seq<char>|
            text == #[trigger] (before + words + after);
        assert((before + words + after).subrange(
            before.len() as int,
            (before.len() + words.len()) as int,
        ) =~= words);
        assert(occurs_at(text, words, before.len() as int));
        assert(occurs(text, words));
    } else if valid_utf8(bytes) && occurs(text, words) {
        let at = choose|at: int| occurs_at(text, words, at);
        let before = text.take(at);
        let after = text.skip(at + words.len());
        assert(before + words + after =~= text);
    }
}

/// A binary Bun lockfile: its header, a known version and a length within the file.
pub open spec fn bun_lockfile(bytes: Seq<u8>) -> bool {
    let head = encode_utf8("#!/usr/bin/env bun\nbun-lockfile-format-v0\n"@);
    exists|version: Seq<u8>, middle: Seq<u8>, end: Seq<u8>, rest: Seq<u8>|
        {
            &&& bytes == #[trigger] (head + version + middle + end + rest)
            &&& version.len() == 4 && middle.len() == 32 && end.len() == 8 && rest.len() >= 24
            &&& spec_u32_from_le_bytes(version) == 2 || spec_u32_from_le_bytes(version) == 3
            &&& head.len() + 68 <= spec_u64_from_le_bytes(end) <= bytes.len()
        }
}

/// A binary Bun lockfile owns the folder that it lies in and no other member.
pub proof fn a_binary_bun_lock_owns_its_folder(
    path: Seq<u8>,
    bytes: Seq<u8>,
    relative: Seq<char>,
    seen: Sources,
)
    ensures
        bun_lockfile(bytes) ==> owner_step("bun.lockb"@, path, bytes, relative, seen) == Got::<
            bool,
        >::Have(relative == ""@),
        !bun_lockfile(bytes) ==> owner_step("bun.lockb"@, path, bytes, relative, seen) is Fail,
{
    lock_names_differ();
    reveal_strlit("");
    assert(relative.len() == 0 ==> relative =~= ""@);
    let head = encode_utf8("#!/usr/bin/env bun\nbun-lockfile-format-v0\n"@);
    let at = head.len() as int;
    if bun_lockfile(bytes) {
        let (version, middle, end, rest) = choose|
            version: Seq<u8>,
            middle: Seq<u8>,
            end: Seq<u8>,
            rest: Seq<u8>,
        |
            {
                &&& bytes == #[trigger] (head + version + middle + end + rest)
                &&& version.len() == 4 && middle.len() == 32 && end.len() == 8 && rest.len() >= 24
                &&& spec_u32_from_le_bytes(version) == 2 || spec_u32_from_le_bytes(version) == 3
                &&& head.len() + 68 <= spec_u64_from_le_bytes(end) <= bytes.len()
            };
        assert(bytes.take(at) =~= head);
        assert(bytes.subrange(at, at + 4) =~= version);
        assert(bytes.subrange(at + 36, at + 44) =~= end);
    } else if begins(bytes, head) && bytes.len() >= at + 68 {
        let version = bytes.subrange(at, at + 4);
        let middle = bytes.subrange(at + 4, at + 36);
        let end = bytes.subrange(at + 36, at + 44);
        let rest = bytes.skip(at + 44);
        assert(head + version + middle + end + rest =~= bytes);
    }
}

/// The lockfiles of npm and the textual ones of Bun own what their entries say.
pub proof fn a_recorded_lock_owns_what_it_records(
    path: Seq<u8>,
    bytes: Seq<u8>,
    relative: Seq<char>,
    seen: Sources,
)
    ensures
        owner_step("package-lock.json"@, path, bytes, relative, seen) == seen.ownership(path),
        owner_step("npm-shrinkwrap.json"@, path, bytes, relative, seen) == seen.ownership(path),
        owner_step("bun.lock"@, path, bytes, relative, seen) == seen.ownership(path),
{
}

proof fn empty_text(bytes: Seq<u8>)
    requires
        bytes.len() == 0,
    ensures
        valid_utf8(bytes),
        decode_utf8(bytes).len() == 0,
{
}

proof fn lock_names_differ()
    ensures
        "npm-shrinkwrap.json"@ != "package-lock.json"@,
        "npm-shrinkwrap.json"@ != "yarn.lock"@,
        "npm-shrinkwrap.json"@ != "bun.lock"@,
        "npm-shrinkwrap.json"@ != "bun.lockb"@,
        "npm-shrinkwrap.json"@ != "pnpm-lock.yaml"@,
        "package-lock.json"@ != "yarn.lock"@,
        "package-lock.json"@ != "bun.lock"@,
        "package-lock.json"@ != "bun.lockb"@,
        "package-lock.json"@ != "pnpm-lock.yaml"@,
        "yarn.lock"@ != "bun.lock"@,
        "yarn.lock"@ != "bun.lockb"@,
        "yarn.lock"@ != "pnpm-lock.yaml"@,
        "bun.lock"@ != "bun.lockb"@,
        "bun.lock"@ != "pnpm-lock.yaml"@,
        "bun.lockb"@ != "pnpm-lock.yaml"@,
{
    reveal_strlit("npm-shrinkwrap.json");
    reveal_strlit("package-lock.json");
    reveal_strlit("yarn.lock");
    reveal_strlit("bun.lock");
    reveal_strlit("bun.lockb");
    reveal_strlit("pnpm-lock.yaml");
    assert("npm-shrinkwrap.json"@.len() == 19);
    assert("package-lock.json"@.len() == 17);
    assert("yarn.lock"@.len() == 9);
    assert("bun.lock"@.len() == 8);
    assert("bun.lockb"@.len() == 9);
    assert("pnpm-lock.yaml"@.len() == 14);
    assert("yarn.lock"@[0] == 'y');
    assert("bun.lockb"@[0] == 'b');
}

/// No package manager is configured in the folder.
pub open spec fn unconfigured(seen: Sources, folder: Seq<u8>) -> bool {
    &&& lacks(seen, folder, ".npmrc"@)
    &&& lacks(seen, folder, ".yarnrc"@)
    &&& lacks(seen, folder, ".yarnrc.yml"@)
    &&& lacks(seen, folder, "bunfig.toml"@)
    &&& lacks(seen, folder, "pnpm-workspace.yaml"@)
}

/// The folder holds no lockfile but perhaps one of this name.
pub open spec fn no_other_lock(seen: Sources, folder: Seq<u8>, name: Seq<char>) -> bool {
    &&& name != "npm-shrinkwrap.json"@ ==> lacks(seen, folder, "npm-shrinkwrap.json"@)
    &&& name != "package-lock.json"@ ==> lacks(seen, folder, "package-lock.json"@)
    &&& name != "yarn.lock"@ ==> lacks(seen, folder, "yarn.lock"@)
    &&& name != "bun.lock"@ ==> lacks(seen, folder, "bun.lock"@)
    &&& name != "bun.lockb"@ ==> lacks(seen, folder, "bun.lockb"@)
    &&& name != "pnpm-lock.yaml"@ ==> lacks(seen, folder, "pnpm-lock.yaml"@)
}

/// The lockfiles that can own a project.
pub open spec fn a_lockfile(name: Seq<char>) -> bool {
    ||| name == "npm-shrinkwrap.json"@
    ||| name == "package-lock.json"@
    ||| name == "yarn.lock"@
    ||| name == "bun.lock"@
    ||| name == "bun.lockb"@
    ||| name == "pnpm-lock.yaml"@
}

proof fn unconfigured_folders_change_nothing(place: Place, seen: Sources, state: WalkState)
    requires
        unconfigured(seen, place.folder),
    ensures
        configs(5, place, seen, state) == Got::<WalkState>::Have(state),
{
    assert(configs(0, place, seen, state) == Got::<WalkState>::Have(state));
    assert(configs(1, place, seen, state) == Got::<WalkState>::Have(state));
    assert(configs(2, place, seen, state) == Got::<WalkState>::Have(state));
    assert(configs(3, place, seen, state) == Got::<WalkState>::Have(state));
    assert(configs(4, place, seen, state) == Got::<WalkState>::Have(state));
}

/// What the locks of a folder come to where it holds exactly the one of this name.
proof fn one_lock_decides(
    place: Place,
    seen: Sources,
    state: WalkState,
    name: Seq<char>,
    source: EvidenceSource,
    owns: bool,
)
    requires
        a_lockfile(name),
        no_other_lock(seen, place.folder, name),
        holds(seen, place.folder, name, source),
        owner_step(name, named(place.folder, name), source.bytes@, place.relative, seen)
            == Got::<bool>::Have(owns),
    ensures
        locks(6, place, seen, state) matches Got::Have(after) && after.blocked == state.blocked
            && after.has_lock && after.recognized == (state.recognized || (owns && if name
            == "pnpm-lock.yaml"@ {
            state.pnpm_member
        } else {
            state.node_member
        })),
{
    lock_names_differ();
    let k = if name == "npm-shrinkwrap.json"@ {
        0int
    } else if name == "package-lock.json"@ {
        1
    } else if name == "yarn.lock"@ {
        2
    } else if name == "bun.lock"@ {
        3
    } else if name == "bun.lockb"@ {
        4
    } else {
        5
    };
    assert(lock_name(k) == name);
    let after = lock_step(k, place, seen, state)->Have_0;
    assert(lock_step(k, place, seen, state) == Got::<WalkState>::Have(after));
    assert forall|i: int, s: WalkState| 0 <= i < 6 && i != k implies #[trigger] lock_step(
        i,
        place,
        seen,
        s,
    ) == Got::<WalkState>::Have(s) by {
        assert(lock_name(i) != name);
        assert(lacks(seen, place.folder, lock_name(i)));
    }
    walk_locks(place, seen, state, k, after, 6);
}

proof fn walk_locks(
    place: Place,
    seen: Sources,
    state: WalkState,
    k: int,
    after: WalkState,
    n: int,
)
    requires
        0 <= k < 6,
        0 <= n <= 6,
        lock_step(k, place, seen, state) == Got::<WalkState>::Have(after),
        forall|i: int, s: WalkState|
            0 <= i < 6 && i != k ==> #[trigger] lock_step(i, place, seen, s) == Got::<
                WalkState,
            >::Have(s),
    ensures
        locks(n, place, seen, state) == Got::<WalkState>::Have(if n <= k {
            state
        } else {
            after
        }),
    decreases n,
{
    if n > 0 {
        walk_locks(place, seen, state, k, after, n - 1);
    }
}

proof fn no_locks_decide_nothing(place: Place, seen: Sources, state: WalkState, n: int)
    requires
        no_other_lock(seen, place.folder, ""@),
        0 <= n <= 6,
    ensures
        locks(n, place, seen, state) == Got::<WalkState>::Have(state),
    decreases n,
{
    if n > 0 {
        no_locks_decide_nothing(place, seen, state, n - 1);
        reveal_strlit("");
        reveal_strlit("npm-shrinkwrap.json");
        reveal_strlit("package-lock.json");
        reveal_strlit("yarn.lock");
        reveal_strlit("bun.lock");
        reveal_strlit("bun.lockb");
        reveal_strlit("pnpm-lock.yaml");
        assert(lacks(seen, place.folder, lock_name(n - 1)));
    }
}

/// What an unconfigured folder with one lockfile comes to.
proof fn folder_with_one_lock(
    project: Seq<u8>,
    folder: Seq<u8>,
    seen: Sources,
    account: Account,
    blocked: Option<Seq<char>>,
    name: Seq<char>,
    lock: EvidenceSource,
    after: WalkState,
    owns: bool,
)
    requires
        valid_utf8(relative_to(project, folder)),
        ({
            let place = Place { project, folder, relative: decode_utf8(relative_to(project, folder)) };
            let start = WalkState {
                account,
                blocked,
                node_member: folder == project,
                pnpm_member: folder == project,
                recognized: false,
                has_lock: false,
            };
            manifest_step(place, seen, start) == Got::<WalkState>::Have(after)
        }),
        unconfigured(seen, folder),
        a_lockfile(name),
        no_other_lock(seen, folder, name),
        holds(seen, folder, name, lock),
        owner_step(
            name,
            named(folder, name),
            lock.bytes@,
            decode_utf8(relative_to(project, folder)),
            seen,
        ) == Got::<bool>::Have(owns),
        !after.recognized,
    ensures
        folder_step(project, folder, seen, account, blocked) matches Got::Have(last)
            && last.blocked == after.blocked && last.has_lock && last.recognized == (owns && if name
            == "pnpm-lock.yaml"@ {
            after.pnpm_member
        } else {
            after.node_member
        }),
{
    let place = Place { project, folder, relative: decode_utf8(relative_to(project, folder)) };
    unconfigured_folders_change_nothing(place, seen, after);
    one_lock_decides(place, seen, after, name, lock, owns);
}

/// The manifest is that of a named project.
pub open spec fn names_a_project(bytes: Seq<u8>) -> bool {
    json_document(bytes) matches Some(Doc::Table(entries)) && (Doc::Table(entries).field("name"@)
        matches Some(Doc::Text(name)) && trim(name).len() > 0)
}

/// This lockfile, by its name and contents or by what was seen of it, owns the folder
/// that it lies in.
pub open spec fn proves_ownership(
    file: Seq<u8>,
    name: Seq<char>,
    bytes: Seq<u8>,
    seen: Sources,
) -> bool {
    ||| name == "yarn.lock"@ && says(bytes, "# yarn lockfile v1"@)
    ||| name == "bun.lockb"@ && bun_lockfile(bytes)
    ||| name == "pnpm-lock.yaml"@ && lock_owns(bytes, ""@) == Ok::<bool, Seq<char>>(true)
    ||| name == "npm-shrinkwrap.json"@ && seen.ownership(file) == Got::<bool>::Have(true)
    ||| name == "package-lock.json"@ && seen.ownership(file) == Got::<bool>::Have(true)
    ||| name == "bun.lock"@ && seen.ownership(file) == Got::<bool>::Have(true)
}

/// Each of these lockfiles is taken as the owner of its folder.
pub proof fn a_proof_of_ownership_owns(
    file: Seq<u8>,
    name: Seq<char>,
    bytes: Seq<u8>,
    seen: Sources,
)
    requires
        proves_ownership(file, name, bytes, seen),
    ensures
        owner_step(name, file, bytes, ""@, seen) == Got::<bool>::Have(true),
        a_lockfile(name),
{
    lock_names_differ();
    a_classic_yarn_lock_owns_its_members(file, bytes, ""@, seen);
    a_binary_bun_lock_owns_its_folder(file, bytes, ""@, seen);
}

/// A project with a manifest that names it, no configuration and a lockfile beside it
/// that owns it has evidence: the project folder itself is the owner, and nothing
/// speaks against it.
pub proof fn a_lockfile_beside_its_project_owns_it(
    root: Seq<u8>,
    project: Seq<u8>,
    seen: Sources,
    rules: Rules,
    manifest: EvidenceSource,
    name: Seq<char>,
    lock: EvidenceSource,
)
    requires
        under(project, root),
        components(project).len() > 0,
        holds(seen, project, "package.json"@, manifest),
        names_a_project(manifest.bytes@),
        unconfigured(seen, project),
        no_other_lock(seen, project, name),
        holds(seen, project, name, lock),
        proves_ownership(named(project, name), name, lock.bytes@, seen),
    ensures
        node_step(root, project, seen, rules) matches Got::Have(Some(found)) && {
            &&& found.kind == "node"@
            &&& found.activity_root == Some(project)
            &&& found.blocked is None
            &&& found.quiet_days == 7
            &&& found.rules == rules
        },
{
    let rest = relative_to(project, project);
    assert(valid_utf8(rest) && decode_utf8(rest) == ""@) by {
        assert(components(project).take(components(project).len() as int) =~= components(project));
        what_is_left_of_a_path(project, project);
        reveal_strlit("");
        empty_text(rest);
    }
    let place = Place { project, folder: project, relative: decode_utf8(rest) };
    a_proof_of_ownership_owns(named(project, name), name, lock.bytes@, seen);
    let account = added(
        Account { transcript: seq![], latest: 0 },
        named(project, "package.json"@),
        manifest,
    );
    let start = WalkState {
        account,
        blocked: None,
        node_member: true,
        pnpm_member: true,
        recognized: false,
        has_lock: false,
    };
    assert(manifest_step(place, seen, start) == Got::<WalkState>::Have(start));
    folder_with_one_lock(project, project, seen, account, None, name, lock, start, true);
    let last = folder_step(project, project, seen, account, None)->Have_0;
    assert(climb(root, project, project, 64, seen, account, None) == Got::<Ownership>::Have(
        Ownership { owner: project, account: last.account, blocked: None },
    ));
    assert(manifest_outcome(json_document(manifest.bytes@)) is Ok);
}

/// Nothing in this folder concerns package managers, and no repository starts in it.
pub open spec fn bare(seen: Sources, project: Seq<u8>, folder: Seq<u8>) -> bool {
    &&& valid_utf8(relative_to(project, folder))
    &&& folder != project ==> lacks(seen, folder, "package.json"@)
    &&& unconfigured(seen, folder)
    &&& no_other_lock(seen, folder, ""@)
    &&& lacks(seen, folder, ".git"@)
}

proof fn bare_folder_step(
    project: Seq<u8>,
    folder: Seq<u8>,
    seen: Sources,
    account: Account,
    blocked: Option<Seq<char>>,
)
    requires
        bare(seen, project, folder),
    ensures
        folder_step(project, folder, seen, account, blocked) matches Got::Have(state)
            && !state.recognized && !state.has_lock && state.account == account && state.blocked
            == blocked,
{
    let place = Place { project, folder, relative: decode_utf8(relative_to(project, folder)) };
    let start = WalkState {
        account,
        blocked,
        node_member: folder == project,
        pnpm_member: folder == project,
        recognized: false,
        has_lock: false,
    };
    unconfigured_folders_change_nothing(place, seen, start);
    no_locks_decide_nothing(place, seen, start, 6);
}

/// The search for the owner passes through a folder with nothing in it, and goes on
/// above with what it knew.
pub proof fn a_bare_folder_is_passed(
    root: Seq<u8>,
    project: Seq<u8>,
    folder: Seq<u8>,
    above: Seq<u8>,
    n: nat,
    seen: Sources,
    account: Account,
    blocked: Option<Seq<char>>,
)
    requires
        n > 0,
        under(folder, root),
        parent_of(folder) == Some(above),
        bare(seen, project, folder),
    ensures
        climb(root, project, folder, n, seen, account, blocked) == climb(
            root,
            project,
            above,
            (n - 1) as nat,
            seen,
            account,
            blocked,
        ),
{
    bare_folder_step(project, folder, seen, account, blocked);
}

/// The search ends with no owner where a repository starts.
pub proof fn no_owner_lies_beyond_a_repository(
    root: Seq<u8>,
    project: Seq<u8>,
    folder: Seq<u8>,
    n: nat,
    seen: Sources,
    account: Account,
    blocked: Option<Seq<char>>,
)
    requires
        n > 0,
        valid_utf8(relative_to(project, folder)),
        folder != project ==> lacks(seen, folder, "package.json"@),
        unconfigured(seen, folder),
        no_other_lock(seen, folder, ""@),
        seen.presence(named(folder, ".git"@)) == Got::<bool>::Have(true),
    ensures
        climb(root, project, folder, n, seen, account, blocked) == Got::<Ownership>::Fail(
            "No supported lockfile proves ownership of this project or workspace member"@,
        ),
{
    let place = Place { project, folder, relative: decode_utf8(relative_to(project, folder)) };
    let start = WalkState {
        account,
        blocked,
        node_member: folder == project,
        pnpm_member: folder == project,
        recognized: false,
        has_lock: false,
    };
    unconfigured_folders_change_nothing(place, seen, start);
    no_locks_decide_nothing(place, seen, start, 6);
}

/// The search ends with no owner at a lockfile that does not own the project, or in a
/// workspace that does not list it: what lies above is not asked.
pub proof fn a_foreign_lock_ends_the_search(
    root: Seq<u8>,
    project: Seq<u8>,
    folder: Seq<u8>,
    n: nat,
    seen: Sources,
    account: Account,
    blocked: Option<Seq<char>>,
    name: Seq<char>,
    lock: EvidenceSource,
    owns: bool,
)
    requires
        n > 0,
        folder != project,
        valid_utf8(relative_to(project, folder)),
        lacks(seen, folder, "package.json"@),
        unconfigured(seen, folder),
        a_lockfile(name),
        no_other_lock(seen, folder, name),
        holds(seen, folder, name, lock),
        owner_step(
            name,
            named(folder, name),
            lock.bytes@,
            decode_utf8(relative_to(project, folder)),
            seen,
        ) == Got::<bool>::Have(owns),
    ensures
        climb(root, project, folder, n, seen, account, blocked) == Got::<Ownership>::Fail(
            "No supported lockfile proves ownership of this project or workspace member"@,
        ),
{
    let start = WalkState {
        account,
        blocked,
        node_member: false,
        pnpm_member: false,
        recognized: false,
        has_lock: false,
    };
    folder_with_one_lock(project, folder, seen, account, blocked, name, lock, start, owns);
}

/// A workspace lists the member: its manifest is that of a project and its list has it.
pub open spec fn lists(manifest: EvidenceSource, member: Seq<char>) -> bool {
    ancestor_member(manifest.bytes@, member) == Ok::<bool, Seq<char>>(true)
}

/// The lockfile of a workspace that lists the project owns it, wherever above the
/// project the workspace lies.
pub proof fn a_workspace_lock_owns_its_members(
    root: Seq<u8>,
    project: Seq<u8>,
    folder: Seq<u8>,
    n: nat,
    seen: Sources,
    account: Account,
    manifest: EvidenceSource,
    name: Seq<char>,
    lock: EvidenceSource,
    owns: bool,
)
    requires
        n > 0,
        under(folder, root),
        folder != project,
        valid_utf8(relative_to(project, folder)),
        holds(seen, folder, "package.json"@, manifest),
        lists(manifest, decode_utf8(relative_to(project, folder))),
        unconfigured(seen, folder),
        a_lockfile(name),
        name != "pnpm-lock.yaml"@,
        no_other_lock(seen, folder, name),
        holds(seen, folder, name, lock),
        owner_step(
            name,
            named(folder, name),
            lock.bytes@,
            decode_utf8(relative_to(project, folder)),
            seen,
        ) == Got::<bool>::Have(owns),
    ensures
        owns ==> (climb(root, project, folder, n, seen, account, None) matches Got::Have(owned)
            && owned.owner == folder && owned.blocked is None),
        !owns ==> climb(root, project, folder, n, seen, account, None) is Fail,
{
    let place = Place { project, folder, relative: decode_utf8(relative_to(project, folder)) };
    let start = WalkState {
        account,
        blocked: None,
        node_member: false,
        pnpm_member: false,
        recognized: false,
        has_lock: false,
    };
    let after = manifest_step(place, seen, start)->Have_0;
    folder_with_one_lock(project, folder, seen, account, None, name, lock, after, owns);
}

/// A file of modern Yarn beside the project leaves its evidence blocked, whichever
/// lockfile owns it.
pub proof fn modern_yarn_blocks(place: Place, seen: Sources, state: WalkState, found: EvidenceSource)
    requires
        holds(seen, place.folder, ".yarnrc.yml"@, found),
        lacks(seen, place.folder, ".npmrc"@),
        lacks(seen, place.folder, ".yarnrc"@),
        lacks(seen, place.folder, "bunfig.toml"@),
        lacks(seen, place.folder, "pnpm-workspace.yaml"@),
    ensures
        configs(5, place, seen, state) matches Got::Have(after) && after.blocked == Some(
            "Modern Yarn or shared installation layouts need manual inspection"@,
        ) && after.node_member == state.node_member && after.recognized == state.recognized,
{
    reveal_strlit(".yarnrc.yml");
    reveal_strlit("pnpm-workspace.yaml");
    assert(".yarnrc.yml"@.len() == 11);
    assert("pnpm-workspace.yaml"@.len() == 19);
    assert(configs(0, place, seen, state) == Got::<WalkState>::Have(state));
    assert(configs(1, place, seen, state) == Got::<WalkState>::Have(state));
    assert(configs(2, place, seen, state) == Got::<WalkState>::Have(state));
    assert(configs(3, place, seen, state) matches Got::Have(_));
    assert(configs(4, place, seen, state) == configs(3, place, seen, state));
}

/// The settings of npm and of classic Yarn stand in no one's way.
pub proof fn classic_settings_block_nothing(
    place: Place,
    seen: Sources,
    state: WalkState,
    npm: EvidenceSource,
    yarn: EvidenceSource,
)
    requires
        holds(seen, place.folder, ".npmrc"@, npm),
        holds(seen, place.folder, ".yarnrc"@, yarn),
        lacks(seen, place.folder, ".yarnrc.yml"@),
        lacks(seen, place.folder, "bunfig.toml"@),
        lacks(seen, place.folder, "pnpm-workspace.yaml"@),
    ensures
        configs(5, place, seen, state) matches Got::Have(after) && after.blocked == state.blocked
            && after.node_member == state.node_member && after.pnpm_member == state.pnpm_member
            && after.recognized == state.recognized && after.has_lock == state.has_lock,
{
    reveal_strlit(".npmrc");
    reveal_strlit(".yarnrc");
    reveal_strlit(".yarnrc.yml");
    reveal_strlit("bunfig.toml");
    reveal_strlit("pnpm-workspace.yaml");
    assert(".npmrc"@.len() == 6);
    assert(".yarnrc"@.len() == 7);
    assert(".yarnrc.yml"@.len() == 11);
    assert("bunfig.toml"@.len() == 11);
    assert("pnpm-workspace.yaml"@.len() == 19);
    assert(configs(0, place, seen, state) == Got::<WalkState>::Have(state));
    assert(configs(1, place, seen, state) matches Got::Have(_));
    assert(configs(2, place, seen, state) matches Got::Have(_));
    assert(configs(3, place, seen, state) == configs(2, place, seen, state));
    assert(configs(4, place, seen, state) == configs(2, place, seen, state));
}

/// A package manifest identifies a project exactly when it is an object with a name
/// that is not blank, with one of the three tables of dependencies, or with a list or
/// a table of workspaces.
pub proof fn manifests_identify_projects(document: Doc)
    ensures
        manifest_outcome(Some(document)) is Ok <==> {
            &&& document is Table
            &&& {
                ||| document.field("name"@) matches Some(Doc::Text(name)) && trim(name).len() > 0
                ||| document.field("dependencies"@) matches Some(Doc::Table(_))
                ||| document.field("devDependencies"@) matches Some(Doc::Table(_))
                ||| document.field("optionalDependencies"@) matches Some(Doc::Table(_))
                ||| document.field("workspaces"@) matches Some(Doc::List(_))
                ||| document.field("workspaces"@) matches Some(Doc::Table(_))
            }
        },
        manifest_outcome(Some(document)) matches Ok(kept) ==> kept == document,
        manifest_outcome(None) is Err,
{
}

/// A folder of dependencies without a project manifest beside it, or with one that
/// identifies no project, has no evidence.
pub proof fn dependencies_need_a_project(
    root: Seq<u8>,
    project: Seq<u8>,
    seen: Sources,
    rules: Rules,
    manifest: EvidenceSource,
)
    ensures
        lacks(seen, project, "package.json"@) ==> node_step(root, project, seen, rules) is Fail,
        holds(seen, project, "package.json"@, manifest) && json_document(manifest.bytes@) is None
            ==> node_step(root, project, seen, rules) is Fail,
        holds(seen, project, "package.json"@, manifest) && (json_document(manifest.bytes@) matches Some(
            document,
        ) && !(document is Table)) ==> node_step(root, project, seen, rules) is Fail,
{
}

/// The lockfile of a pnpm workspace that lists the project owns it, and no other does.
pub proof fn a_pnpm_workspace_lock_owns_its_members(
    root: Seq<u8>,
    project: Seq<u8>,
    folder: Seq<u8>,
    n: nat,
    seen: Sources,
    account: Account,
    workspace: EvidenceSource,
    list: Seq<Seq<char>>,
    lock: EvidenceSource,
    listed: bool,
    owns: bool,
)
    requires
        n > 0,
        under(folder, root),
        folder != project,
        valid_utf8(relative_to(project, folder)),
        lacks(seen, folder, "package.json"@),
        lacks(seen, folder, ".npmrc"@),
        lacks(seen, folder, ".yarnrc"@),
        lacks(seen, folder, ".yarnrc.yml"@),
        lacks(seen, folder, "bunfig.toml"@),
        holds(seen, folder, "pnpm-workspace.yaml"@, workspace),
        membership_outcome(workspace.bytes@) == Ok::<Seq<Seq<char>>, Seq<char>>(list),
        includes(list, decode_utf8(relative_to(project, folder))) == Ok::<bool, Seq<char>>(listed),
        no_other_lock(seen, folder, "pnpm-lock.yaml"@),
        holds(seen, folder, "pnpm-lock.yaml"@, lock),
        lock_owns(lock.bytes@, decode_utf8(relative_to(project, folder))) == Ok::<bool, Seq<char>>(
            owns,
        ),
    ensures
        listed && owns ==> (climb(root, project, folder, n, seen, account, None) matches Got::Have(
            owned,
        ) && owned.owner == folder && owned.blocked is None),
        !listed || !owns ==> climb(root, project, folder, n, seen, account, None) is Fail,
{
    let place = Place { project, folder, relative: decode_utf8(relative_to(project, folder)) };
    let start = WalkState {
        account,
        blocked: None,
        node_member: false,
        pnpm_member: false,
        recognized: false,
        has_lock: false,
    };
    assert(configs(0, place, seen, start) == Got::<WalkState>::Have(start));
    assert(configs(1, place, seen, start) == Got::<WalkState>::Have(start));
    assert(configs(2, place, seen, start) == Got::<WalkState>::Have(start));
    assert(configs(3, place, seen, start) == Got::<WalkState>::Have(start));
    assert(configs(4, place, seen, start) == Got::<WalkState>::Have(start));
    let after = configs(5, place, seen, start)->Have_0;
    assert(configs(5, place, seen, start) == Got::<WalkState>::Have(after));
    assert(after.pnpm_member == listed && after.blocked is None && !after.recognized);
    lock_names_differ();
    assert(owner_step(
        "pnpm-lock.yaml"@,
        named(folder, "pnpm-lock.yaml"@),
        lock.bytes@,
        place.relative,
        seen,
    ) == Got::<bool>::Have(owns));
    one_lock_decides(place, seen, after, "pnpm-lock.yaml"@, lock, owns);
}

/// A Bun configuration that can be read stands in no one's way; one that cannot be read
/// ends the search.
pub proof fn bun_settings_must_be_readable(
    place: Place,
    seen: Sources,
    state: WalkState,
    bun: EvidenceSource,
)
    requires
        holds(seen, place.folder, "bunfig.toml"@, bun),
        lacks(seen, place.folder, ".npmrc"@),
        lacks(seen, place.folder, ".yarnrc"@),
        lacks(seen, place.folder, ".yarnrc.yml"@),
        lacks(seen, place.folder, "pnpm-workspace.yaml"@),
    ensures
        valid_utf8(bun.bytes@) && toml_document(decode_utf8(bun.bytes@)) is Some ==> (configs(
            5,
            place,
            seen,
            state,
        ) matches Got::Have(after) && after.blocked == state.blocked && after.node_member
            == state.node_member && after.recognized == state.recognized),
        !valid_utf8(bun.bytes@) || toml_document(decode_utf8(bun.bytes@)) is None ==> configs(
            5,
            place,
            seen,
            state,
        ) is Fail,
{
    reveal_strlit(".yarnrc.yml");
    reveal_strlit("bunfig.toml");
    reveal_strlit("pnpm-workspace.yaml");
    assert(".yarnrc.yml"@.len() == 11 && ".yarnrc.yml"@[0] == '.');
    assert("bunfig.toml"@.len() == 11 && "bunfig.toml"@[0] == 'b');
    assert("pnpm-workspace.yaml"@.len() == 19);
    assert(configs(0, place, seen, state) == Got::<WalkState>::Have(state));
    assert(configs(1, place, seen, state) == Got::<WalkState>::Have(state));
    assert(configs(2, place, seen, state) == Got::<WalkState>::Have(state));
    assert(configs(3, place, seen, state) == Got::<WalkState>::Have(state));
    assert(configs(5, place, seen, state) == configs(4, place, seen, state));
}

} // verus!
