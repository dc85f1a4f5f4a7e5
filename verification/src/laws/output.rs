//! Which build output is a crate's own.
use crate::cargo::{
    cargo_marker, cargo_step, climb, config_step, folder_step, genuine_marker, globals, markers,
    optional_config, outer_step, CargoState,
};
use crate::document::{entry_of, json_document, toml_document, Doc};
use crate::laws::observing::{holds, lacks};
use crate::paths::{named, parent_holds, parent_of, under, under_transitive};
use crate::policy::Rules;
use crate::probe::Got;
use crate::sources::{added, Account, EvidenceSource, Sources};
use crate::text::begins;
use vstd::prelude::*;
use vstd::utf8::{decode_utf8, encode_utf8, valid_utf8};

verus! {

/// A cache tag that carries the signature.
pub open spec fn signed(bytes: Seq<u8>) -> bool {
    exists|rest: Seq<u8>|
        bytes == #[trigger] (encode_utf8("Signature: 8a477f597d28d172789f06886806bc55"@) + rest)
}

/// A record of the compiler that has its fingerprint.
pub open spec fn fingerprinted(bytes: Seq<u8>) -> bool {
    json_document(bytes) matches Some(Doc::Table(entries)) && exists|i: int|
        0 <= i < entries.len() && (#[trigger] entries[i]).0 == "rustc_fingerprint"@
}

proof fn entries_by_key(entries: Seq<(Seq<char>, Doc)>, key: Seq<char>)
    ensures
        entry_of(entries, key) is Some <==> exists|i: int|
            0 <= i < entries.len() && (#[trigger] entries[i]).0 == key,
    decreases entries.len(),
{
    if entries.len() > 0 {
        let rest = entries.skip(1);
        entries_by_key(rest, key);
        if entries[0].0 != key {
            if exists|i: int| 0 <= i < entries.len() && (#[trigger] entries[i]).0 == key {
                let i = choose|i: int| 0 <= i < entries.len() && (#[trigger] entries[i]).0 == key;
                assert(rest[i - 1] == entries[i]);
            }
            if exists|i: int| 0 <= i < rest.len() && (#[trigger] rest[i]).0 == key {
                let i = choose|i: int| 0 <= i < rest.len() && (#[trigger] rest[i]).0 == key;
                assert(rest[i] == entries[i + 1]);
            }
        }
    }
}

/// The tag is genuine exactly when it carries the signature, and the compiler's record
/// exactly when it is an object with the fingerprint.
pub proof fn markers_are_genuine_by_what_they_hold(bytes: Seq<u8>)
    ensures
        genuine_marker(0, bytes) == signed(bytes),
        genuine_marker(1, bytes) == fingerprinted(bytes),
        cargo_marker(0) == "CACHEDIR.TAG"@,
        cargo_marker(1) == ".rustc_info.json"@,
{
    let signature = encode_utf8("Signature: 8a477f597d28d172789f06886806bc55"@);
    if begins(bytes, signature) {
        assert(signature + bytes.skip(signature.len() as int) =~= bytes);
    }
    if signed(bytes) {
        let rest = choose|rest: Seq<u8>| bytes == #[trigger] (signature + rest);
        assert((signature + rest).take(signature.len() as int) =~= signature);
    }
    match json_document(bytes) {
        Some(Doc::Table(entries)) => {
            entries_by_key(entries, "rustc_fingerprint"@);
        },
        _ => {},
    }
}

/// The output folder's marker of this name is as expected: there with these contents,
/// or not there.
pub open spec fn marked(
    seen: Sources,
    artifact: Seq<u8>,
    name: Seq<char>,
    source: Option<EvidenceSource>,
) -> bool {
    match source {
        Some(source) => holds(seen, artifact, name, source),
        None => lacks(seen, artifact, name),
    }
}

proof fn what_the_markers_say(
    artifact: Seq<u8>,
    seen: Sources,
    account: Account,
    tag: Option<EvidenceSource>,
    info: Option<EvidenceSource>,
)
    requires
        marked(seen, artifact, "CACHEDIR.TAG"@, tag),
        marked(seen, artifact, ".rustc_info.json"@, info),
    ensures
        (tag matches Some(source) && !signed(source.bytes@)) || (info matches Some(source)
            && !fingerprinted(source.bytes@)) ==> markers(2, artifact, seen, account) == Got::<
            (Account, bool),
        >::Fail("The target directory's Cargo marker is invalid"@),
        (tag matches Some(source) ==> signed(source.bytes@)) && (info matches Some(source)
            ==> fingerprinted(source.bytes@)) ==> (markers(2, artifact, seen, account) matches Got::Have(
            pair,
        ) && pair.1 == (tag is Some || info is Some)),
{
    if let Some(source) = tag {
        markers_are_genuine_by_what_they_hold(source.bytes@);
    }
    if let Some(source) = info {
        markers_are_genuine_by_what_they_hold(source.bytes@);
    }
    reveal_with_fuel(markers, 3);
    let first = markers(1, artifact, seen, account);
    assert(tag is None ==> first == Got::<(Account, bool)>::Have((account, false)));
    assert((tag matches Some(source) && signed(source.bytes@)) ==> (first matches Got::Have(pair)
        && pair.1));
    assert((tag matches Some(source) && !signed(source.bytes@)) ==> first is Fail);
}

/// The manifest is that of a named package or of a workspace.
pub open spec fn a_crate(document: Doc) -> bool {
    ||| document.field("package"@) matches Some(Doc::Table(entries)) && (Doc::Table(entries).field(
        "name"@,
    ) matches Some(Doc::Text(name)) && name.len() > 0)
    ||| document.field("workspace"@) matches Some(Doc::Table(_))
}

/// The package hands its output to another workspace.
pub open spec fn delegated(document: Doc) -> bool {
    document.field("package"@) matches Some(Doc::Table(entries)) && Doc::Table(entries).field(
        "workspace"@,
    ) is Some
}

/// The file was read and holds this document.
pub open spec fn documented(source: EvidenceSource, document: Doc) -> bool {
    valid_utf8(source.bytes@) && toml_document(decode_utf8(source.bytes@)) == Some(document)
}

/// Cargo is configured by nothing in this folder, and no other crate starts in it.
pub open spec fn quiet_folder(seen: Sources, project: Seq<u8>, folder: Seq<u8>) -> bool {
    &&& lacks(seen, folder, ".cargo/config"@)
    &&& lacks(seen, folder, ".cargo/config.toml"@)
    &&& folder != project ==> lacks(seen, folder, "Cargo.toml"@)
}

proof fn quiet_folders_change_nothing(
    root: Seq<u8>,
    project: Seq<u8>,
    folder: Seq<u8>,
    own_workspace: bool,
    seen: Sources,
    state: CargoState,
)
    requires
        under(project, folder),
        forall|f: Seq<u8>| under(project, f) && under(f, root) ==> #[trigger] quiet_folder(
            seen,
            project,
            f,
        ),
        under(folder, root),
    ensures
        climb(root, project, folder, own_workspace, seen, state) == Got::<CargoState>::Have(state),
    decreases folder.len(),
{
    assert(quiet_folder(seen, project, folder));
    assert(folder_step(project, folder, own_workspace, seen, state) == Got::<CargoState>::Have(
        state,
    ));
    if folder != root {
        if let Some(above) = parent_of(folder) {
            if under(above, root) && above.len() < folder.len() {
                parent_holds(folder);
                under_transitive(project, folder, above);
                quiet_folders_change_nothing(root, project, above, own_workspace, seen, state);
            }
        }
    }
}

/// The output of a crate is recognized: a manifest that identifies it, at least one
/// genuine marker and none that is not, and no configuration anywhere between the
/// crate and the root. Nothing speaks against it, with a lockfile that can be read or
/// without one.
pub proof fn plain_output_is_recognized(
    root: Seq<u8>,
    project: Seq<u8>,
    artifact: Seq<u8>,
    home: Option<Seq<u8>>,
    seen: Sources,
    rules: Rules,
    manifest: EvidenceSource,
    document: Doc,
    lock: Option<(EvidenceSource, Doc)>,
    tag: Option<EvidenceSource>,
    info: Option<EvidenceSource>,
)
    requires
        under(project, root),
        holds(seen, project, "Cargo.toml"@, manifest),
        documented(manifest, document),
        a_crate(document),
        !delegated(document),
        match lock {
            Some(pair) => holds(seen, project, "Cargo.lock"@, pair.0) && documented(
                pair.0,
                pair.1,
            ),
            None => lacks(seen, project, "Cargo.lock"@),
        },
        marked(seen, artifact, "CACHEDIR.TAG"@, tag),
        marked(seen, artifact, ".rustc_info.json"@, info),
        tag is Some || info is Some,
        tag matches Some(source) ==> signed(source.bytes@),
        info matches Some(source) ==> fingerprinted(source.bytes@),
        forall|f: Seq<u8>| under(project, f) && under(f, root) ==> #[trigger] quiet_folder(
            seen,
            project,
            f,
        ),
        home matches Some(at) ==> lacks(seen, at, "config"@) && lacks(seen, at, "config.toml"@),
    ensures
        cargo_step(root, project, artifact, false, home, seen, rules) matches Got::Have(
            Some(found),
        ) && {
            &&& found.kind == "cargo"@
            &&& found.blocked is None
            &&& found.activity_root is None
            &&& found.quiet_days == 7
            &&& found.rules == rules
        },
{
    let account = added(
        Account { transcript: seq![], latest: 0 },
        named(project, "Cargo.toml"@),
        manifest,
    );
    let locked = match lock {
        Some(pair) => added(account, named(project, "Cargo.lock"@), pair.0),
        None => account,
    };
    what_the_markers_say(artifact, seen, locked, tag, info);
    let pair = markers(2, artifact, seen, locked)->Have_0;
    let start = CargoState { account: pair.0, blocked: None };
    assert(crate::paths::components(project).take(
        crate::paths::components(project).len() as int,
    ) =~= crate::paths::components(project));
    quiet_folders_change_nothing(
        root,
        project,
        project,
        document.has_table("workspace"@),
        seen,
        start,
    );
    assert(globals(root, home, seen, start) == Got::<CargoState>::Have(start));
}

/// A marker that is not genuine makes the output fail, whatever the other one holds.
pub proof fn a_false_marker_fails(
    root: Seq<u8>,
    project: Seq<u8>,
    artifact: Seq<u8>,
    custom_output: bool,
    home: Option<Seq<u8>>,
    seen: Sources,
    rules: Rules,
    manifest: EvidenceSource,
    document: Doc,
    tag: Option<EvidenceSource>,
    info: Option<EvidenceSource>,
)
    requires
        holds(seen, project, "Cargo.toml"@, manifest),
        documented(manifest, document),
        a_crate(document),
        lacks(seen, project, "Cargo.lock"@),
        marked(seen, artifact, "CACHEDIR.TAG"@, tag),
        marked(seen, artifact, ".rustc_info.json"@, info),
        (tag matches Some(source) && !signed(source.bytes@)) || (info matches Some(source)
            && !fingerprinted(source.bytes@)),
    ensures
        cargo_step(root, project, artifact, custom_output, home, seen, rules) == Got::<
            Option<crate::evidence::Found>,
        >::Fail("The target directory's Cargo marker is invalid"@),
{
    let account = added(
        Account { transcript: seq![], latest: 0 },
        named(project, "Cargo.toml"@),
        manifest,
    );
    what_the_markers_say(artifact, seen, account, tag, info);
}

/// A folder named like build output is ordinary without a crate beside it and without
/// a marker in it; a manifest that identifies no crate is an error.
pub proof fn output_without_a_crate_is_ordinary(
    root: Seq<u8>,
    project: Seq<u8>,
    artifact: Seq<u8>,
    custom_output: bool,
    home: Option<Seq<u8>>,
    seen: Sources,
    rules: Rules,
    manifest: EvidenceSource,
    document: Doc,
)
    ensures
        lacks(seen, project, "Cargo.toml"@) ==> cargo_step(
            root,
            project,
            artifact,
            custom_output,
            home,
            seen,
            rules,
        ) == Got::<Option<crate::evidence::Found>>::Have(None),
        holds(seen, project, "Cargo.toml"@, manifest) && documented(manifest, document) && a_crate(
            document,
        ) && lacks(seen, project, "Cargo.lock"@) && lacks(seen, artifact, "CACHEDIR.TAG"@)
            && lacks(seen, artifact, ".rustc_info.json"@) ==> cargo_step(
            root,
            project,
            artifact,
            custom_output,
            home,
            seen,
            rules,
        ) == Got::<Option<crate::evidence::Found>>::Have(None),
        holds(seen, project, "Cargo.toml"@, manifest) && documented(manifest, document) && !a_crate(
            document,
        ) ==> cargo_step(root, project, artifact, custom_output, home, seen, rules) is Fail,
{
    if lacks(seen, artifact, "CACHEDIR.TAG"@) && lacks(seen, artifact, ".rustc_info.json"@) {
        let account = added(
            Account { transcript: seq![], latest: 0 },
            named(project, "Cargo.toml"@),
            manifest,
        );
        what_the_markers_say(artifact, seen, account, None, None);
    }
}

/// A configuration that sends the output elsewhere.
pub open spec fn elsewhere(document: Doc) -> bool {
    ||| document.field("build"@) matches Some(Doc::Table(entries)) && (Doc::Table(entries).field(
        "target-dir"@,
    ) is Some || Doc::Table(entries).field("build-dir"@) is Some)
    ||| document.field("env"@) matches Some(Doc::Table(entries)) && (Doc::Table(entries).field(
        "CARGO_TARGET_DIR"@,
    ) is Some || Doc::Table(entries).field("CARGO_BUILD_TARGET_DIR"@) is Some)
}

/// The folders that a search from here up to the root goes through.
pub open spec fn on_the_way(root: Seq<u8>, folder: Seq<u8>, f: Seq<u8>) -> bool
    decreases folder.len(),
{
    f == folder || (folder != root && (parent_of(folder) matches Some(above) && under(above, root)
        && above.len() < folder.len() && on_the_way(root, above, f)))
}

/// Nothing in this folder sends the output elsewhere or claims it for another crate.
pub open spec fn clear_folder(
    seen: Sources,
    project: Seq<u8>,
    own_workspace: bool,
    folder: Seq<u8>,
) -> bool {
    &&& forall|source: EvidenceSource, document: Doc|
        holds(seen, folder, ".cargo/config"@, source) && #[trigger] documented(source, document)
            ==> !elsewhere(document)
    &&& forall|source: EvidenceSource, document: Doc|
        holds(seen, folder, ".cargo/config.toml"@, source) && #[trigger] documented(
            source,
            document,
        ) ==> !elsewhere(document)
    &&& folder != project && !own_workspace ==> forall|source: EvidenceSource, document: Doc|
        holds(seen, folder, "Cargo.toml"@, source) && #[trigger] documented(source, document)
            ==> document.field("workspace"@) is None
}

proof fn a_clear_step(
    project: Seq<u8>,
    folder: Seq<u8>,
    own_workspace: bool,
    seen: Sources,
    state: CargoState,
)
    ensures
        folder_step(project, folder, own_workspace, seen, state) matches Got::Have(after) ==> {
            &&& after.blocked is None ==> state.blocked is None
            &&& after.blocked is None ==> clear_folder(seen, project, own_workspace, folder)
            &&& state.blocked is None && after.blocked is Some ==> !clear_folder(
                seen,
                project,
                own_workspace,
                folder,
            )
        },
{
    let a = config_step(named(folder, ".cargo/config"@), seen, state);
    if let Got::Have(first) = a {
        a_clear_config(folder, ".cargo/config"@, seen, state);
        let b = config_step(named(folder, ".cargo/config.toml"@), seen, first);
        if let Got::Have(second) = b {
            a_clear_config(folder, ".cargo/config.toml"@, seen, first);
            if folder != project && !own_workspace {
                a_clear_outer(folder, seen, second);
            }
        }
    }
}

proof fn a_clear_config(folder: Seq<u8>, name: Seq<char>, seen: Sources, state: CargoState)
    ensures
        config_step(named(folder, name), seen, state) matches Got::Have(after) ==> {
            let sent = exists|source: EvidenceSource, document: Doc|
                holds(seen, folder, name, source) && #[trigger] documented(source, document)
                    && elsewhere(document);
            &&& after.blocked is None <==> state.blocked is None && !sent
        },
{
    let file = named(folder, name);
    if let Got::Have(after) = config_step(file, seen, state) {
        match optional_config(seen, file) {
            Got::Have(Some(pair)) => {
                assert(holds(seen, folder, name, pair.0));
                assert(documented(pair.0, pair.1));
            },
            _ => {},
        }
    }
}

proof fn a_clear_outer(folder: Seq<u8>, seen: Sources, state: CargoState)
    ensures
        outer_step(named(folder, "Cargo.toml"@), seen, state) matches Got::Have(after) ==> {
            let claimed = exists|source: EvidenceSource, document: Doc|
                holds(seen, folder, "Cargo.toml"@, source) && #[trigger] documented(
                    source,
                    document,
                ) && document.field("workspace"@) is Some;
            &&& after.blocked is None <==> state.blocked is None && !claimed
        },
{
    let file = named(folder, "Cargo.toml"@);
    if let Got::Have(after) = outer_step(file, seen, state) {
        match optional_config(seen, file) {
            Got::Have(Some(pair)) => {
                assert(holds(seen, folder, "Cargo.toml"@, pair.0));
                assert(documented(pair.0, pair.1));
            },
            _ => {},
        }
    }
}

/// The search from the crate up to the root ends without a doubt exactly when it began
/// without one and every folder that it went through is clear.
pub proof fn doubts_come_from_configuration(
    root: Seq<u8>,
    project: Seq<u8>,
    folder: Seq<u8>,
    own_workspace: bool,
    seen: Sources,
    state: CargoState,
)
    ensures
        climb(root, project, folder, own_workspace, seen, state) matches Got::Have(after) ==> (
        after.blocked is None <==> state.blocked is None && forall|f: Seq<u8>| #[trigger]
            on_the_way(root, folder, f) ==> clear_folder(seen, project, own_workspace, f)),
    decreases folder.len(),
{
    if let Got::Have(after) = climb(root, project, folder, own_workspace, seen, state) {
        a_clear_step(project, folder, own_workspace, seen, state);
        let next = folder_step(project, folder, own_workspace, seen, state)->Have_0;
        assert(on_the_way(root, folder, folder));
        if folder != root {
            if let Some(above) = parent_of(folder) {
                if under(above, root) && above.len() < folder.len() {
                    doubts_come_from_configuration(root, project, above, own_workspace, seen, next);
                    assert forall|f: Seq<u8>| #[trigger] on_the_way(root, above, f) implies on_the_way(
                        root,
                        folder,
                        f,
                    ) by {}
                    if after.blocked is None {
                        assert forall|f: Seq<u8>| #[trigger]
                            on_the_way(root, folder, f) implies clear_folder(
                            seen,
                            project,
                            own_workspace,
                            f,
                        ) by {
                            if f != folder {
                                assert(on_the_way(root, above, f));
                            }
                        }
                    } else if state.blocked is None && forall|f: Seq<u8>| #[trigger]
                        on_the_way(root, folder, f) ==> clear_folder(
                            seen,
                            project,
                            own_workspace,
                            f,
                        ) {
                        assert(clear_folder(seen, project, own_workspace, folder));
                        assert forall|f: Seq<u8>| #[trigger]
                            on_the_way(root, above, f) implies clear_folder(
                            seen,
                            project,
                            own_workspace,
                            f,
                        ) by {
                            assert(on_the_way(root, folder, f));
                        }
                    }
                }
            }
        }
    }
}

/// Output is offered without a doubt only where the process names no other output
/// folder, the package delegates to no other workspace, every folder up to the root is
/// clear, and no configuration lies in a home outside the root.
pub proof fn undoubted_output_is_the_default_one(
    root: Seq<u8>,
    project: Seq<u8>,
    artifact: Seq<u8>,
    custom_output: bool,
    home: Option<Seq<u8>>,
    seen: Sources,
    rules: Rules,
    manifest: EvidenceSource,
    document: Doc,
)
    requires
        holds(seen, project, "Cargo.toml"@, manifest),
        documented(manifest, document),
        cargo_step(root, project, artifact, custom_output, home, seen, rules) matches Got::Have(
            Some(_),
        ),
    ensures
        cargo_step(root, project, artifact, custom_output, home, seen, rules)->Have_0->Some_0.blocked
            is None <==> {
            &&& !custom_output
            &&& !delegated(document)
            &&& forall|f: Seq<u8>| #[trigger]
                on_the_way(root, project, f) ==> clear_folder(
                    seen,
                    project,
                    document.field("workspace"@) matches Some(Doc::Table(_)),
                    f,
                )
            &&& home matches Some(at) ==> under(at, root) || (lacks(seen, at, "config"@) && lacks(
                seen,
                at,
                "config.toml"@,
            ))
        },
{
    let own = document.has_table("workspace"@);
    let account = added(
        Account { transcript: seq![], latest: 0 },
        named(project, "Cargo.toml"@),
        manifest,
    );
    assert(optional_config(seen, named(project, "Cargo.toml"@)) == Got::<
        Option<(EvidenceSource, Doc)>,
    >::Have(Some((manifest, document))));
    let locked = crate::cargo::lock_step(named(project, "Cargo.lock"@), seen, account)->Have_0;
    let pair = markers(2, artifact, seen, locked)->Have_0;
    let start = CargoState {
        account: pair.0,
        blocked: crate::cargo::first_doubt(document, custom_output),
    };
    assert(start.blocked is None <==> !custom_output && !delegated(document));
    doubts_come_from_configuration(root, project, project, own, seen, start);
    let after = climb(root, project, project, own, seen, start)->Have_0;
    assert(climb(root, project, project, own, seen, start) == Got::<CargoState>::Have(after));
    global_doubts(root, home, seen, after);
}

proof fn global_doubts(root: Seq<u8>, home: Option<Seq<u8>>, seen: Sources, state: CargoState)
    ensures
        globals(root, home, seen, state) matches Got::Have(after) ==> (after.blocked is None
            <==> state.blocked is None && (home matches Some(at) ==> under(at, root) || (lacks(
            seen,
            at,
            "config"@,
        ) && lacks(seen, at, "config.toml"@)))),
{
}

} // verus!
