//! What is recognized for what it is, and offered.
use crate::activity::{in_use, ActivitySnapshot};
use crate::adapters::{everyday_found, venv_step, webcache_step};
use crate::cargo::cargo_step;
use crate::classify::{class_of, Placing, Surroundings};
use crate::evidence::{
    begins_like, cutoff, ends_like, lossy_text, path_view, small_letters, suggestion_outcome,
    unfinished_below, unfinished_name, unfinished_suffix, Found,
};
use crate::model::EntryMeta;
use crate::node::node_step;
use crate::paths::{components, name_of, named, parent_of, under};
use crate::policy::{Policy, Rules};
use crate::probe::{Ask, Got};
use crate::sources::{EvidenceSource, Sources};
use crate::text::{digits, signed_digits};
use vstd::prelude::*;
use vstd::utf8::{encode_utf8, encode_utf8_decode_utf8};

verus! {

/// The kinds of everyday data.
pub open spec fn everyday(kind: Seq<char>) -> bool {
    ||| kind == "cache"@
    ||| kind == "log"@
    ||| kind == "crashreport"@
    ||| kind == "xcode"@
    ||| kind == "installer"@
    ||| kind == "archive"@
    ||| kind == "largefile"@
    ||| kind == "download"@
}

/// Every folder with a name, and every file with a name that is not smaller than its
/// kind's least size, has evidence of each everyday kind: of that kind, with nothing
/// against it, as old as its last change, and with what the kind's rules ask for.
pub proof fn everyday_data_is_recognized(
    path: Seq<u8>,
    meta: EntryMeta,
    kind: Seq<char>,
    rules: Rules,
    version: u32,
)
    requires
        everyday(kind),
        name_of(path) is Some,
        meta.identity.mode & 0o170000 == 0o100000 ==> meta.identity.size >= rules.minimum_bytes,
    ensures
        everyday_found(path, meta, kind, rules, version) matches Some(found) && {
            &&& found.kind == kind
            &&& found.blocked is None
            &&& found.latest == meta.identity.modified_ns
            &&& found.quiet_days == rules.quiet_days
            &&& found.rules == rules
            &&& rules.checks_activity ==> found.activity_root == Some(path)
            &&& !rules.checks_activity ==> found.activity_root is None
            &&& found.title == lossy_text(name_of(path)->Some_0) + if kind == "cache"@ {
                " cache"@
            } else if kind == "xcode"@ {
                " Xcode data"@
            } else {
                ""@
            }
        },
{
    reveal_strlit("");
    let name = lossy_text(name_of(path)->Some_0);
    assert(name + ""@ =~= name);
}

/// Nothing else is everyday data: not another kind, not what has no name, and not a
/// file below its kind's least size.
pub proof fn nothing_else_is_everyday_data(
    path: Seq<u8>,
    meta: EntryMeta,
    kind: Seq<char>,
    rules: Rules,
    version: u32,
)
    requires
        !everyday(kind) || name_of(path) is None || (meta.identity.mode & 0o170000 == 0o100000
            && meta.identity.size < rules.minimum_bytes),
    ensures
        everyday_found(path, meta, kind, rules, version) is None,
{
}

/// A cleanup unit of the user's library is recognized as the kind of its area, for
/// every kind there is a rule of.
pub proof fn library_units_are_recognized(
    root: Seq<u8>,
    path: Seq<u8>,
    meta: EntryMeta,
    placing: Placing,
    around: Surroundings,
    seen: Sources,
    cancel: bool,
    kind: String,
    i: int,
)
    requires
        placing.library_kind == Some(kind),
        everyday(kind@),
        name_of(path) is Some,
        0 <= i < around.policy.rules@.len(),
        around.policy.rules@[i].kind@ == kind@,
        forall|j: int|
            0 <= j < around.policy.rules@.len() && j != i ==> (#[trigger] around.policy.rules@[j]).kind@
                != kind@,
        meta.dir() || meta.identity.size >= around.policy.rules@[i].rules.minimum_bytes,
    ensures
        class_of(root, path, meta, placing, around, seen, cancel) matches Got::Have(Some(found))
            && found.kind == kind@ && found.rules == around.policy.rules@[i].rules
            && found.blocked is None,
{
    the_rule_of_a_kind(around.policy, kind@, i);
    everyday_data_is_recognized(
        path,
        meta,
        kind@,
        around.policy.rules@[i].rules,
        around.policy.rule_version,
    );
}

/// A policy goes by the first of its rules for a kind, ranks the kind by it, and knows
/// no kind that it has no rule for.
pub proof fn the_rule_of_a_kind(policy: Policy, kind: Seq<char>, i: int)
    requires
        0 <= i <= policy.rules@.len(),
        i < policy.rules@.len() ==> policy.rules@[i].kind@ == kind,
        forall|j: int| 0 <= j < i ==> (#[trigger] policy.rules@[j]).kind@ != kind,
    ensures
        policy.has_rule(kind) == (i < policy.rules@.len()),
        i < policy.rules@.len() ==> policy.rule_of(kind) == policy.rules@[i].rules && policy.rank(
            kind,
        ) == policy.rules@[i].rules.priority,
        i == policy.rules@.len() ==> policy.rank(kind) == u64::MAX,
        forall|bytes: u64| #[trigger]
            policy.large_enough(kind, bytes) == (i < policy.rules@.len() && bytes
                >= policy.rules@[i].rules.minimum_bytes),
{
    if i < policy.rules@.len() {
        assert(policy.rules_at(kind, i));
        let k = choose|k: int| #[trigger] policy.rules_at(kind, k);
        assert(policy.rules_at(kind, k));
        assert(k == i);
    } else if policy.has_rule(kind) {
        let k = choose|k: int| #[trigger] policy.rules_at(kind, k);
        assert(policy.rules@[k].kind@ == kind);
    }
}

/// A virtual environment is recognized by the regular `pyvenv.cfg` in it, whatever
/// stands there, and only by it; the project beside it is whose activity counts.
pub proof fn environments_are_recognized(
    project: Seq<u8>,
    artifact: Seq<u8>,
    seen: Sources,
    rules: Rules,
    version: u32,
    source: EvidenceSource,
)
    requires
        seen.presence(named(artifact, "pyvenv.cfg"@)) == Got::<bool>::Have(true),
        seen.regularity(named(artifact, "pyvenv.cfg"@)) == Got::<bool>::Have(true),
        seen.capture(named(artifact, "pyvenv.cfg"@)) == Got::<EvidenceSource>::Have(source),
    ensures
        venv_step(project, artifact, seen, rules, version) matches Got::Have(Some(found)) && {
            &&& found.kind == "venv"@
            &&& found.activity_root == Some(project)
            &&& found.blocked is None
            &&& found.quiet_days == 7
            &&& found.rules == rules
            &&& found.latest >= source.identity.modified_ns
        },
{
}

/// Without the file, or with something else of that name, there is no environment.
pub proof fn no_file_no_environment(
    project: Seq<u8>,
    artifact: Seq<u8>,
    seen: Sources,
    rules: Rules,
    version: u32,
)
    requires
        seen.presence(named(artifact, "pyvenv.cfg"@)) == Got::<bool>::Have(false) || (
        seen.presence(named(artifact, "pyvenv.cfg"@)) == Got::<bool>::Have(true)
            && seen.regularity(named(artifact, "pyvenv.cfg"@)) == Got::<bool>::Have(false)),
    ensures
        venv_step(project, artifact, seen, rules, version) == Got::<Option<Found>>::Have(None),
{
}

/// The folders that web tools keep their caches in.
pub open spec fn web_cache_name(name: Seq<u8>) -> bool {
    ||| name == encode_utf8(".next"@)
    ||| name == encode_utf8(".nuxt"@)
    ||| name == encode_utf8(".turbo"@)
    ||| name == encode_utf8(".parcel-cache"@)
}

/// Each of the four web caches is recognized beside a regular package manifest, and
/// no folder of another name is.
pub proof fn web_caches_are_recognized(
    project: Seq<u8>,
    artifact: Seq<u8>,
    seen: Sources,
    rules: Rules,
    version: u32,
    name: Seq<u8>,
    source: EvidenceSource,
)
    requires
        name_of(artifact) == Some(name),
        seen.presence(named(project, "package.json"@)) == Got::<bool>::Have(true),
        seen.regularity(named(project, "package.json"@)) == Got::<bool>::Have(true),
        seen.capture(named(project, "package.json"@)) == Got::<EvidenceSource>::Have(source),
    ensures
        web_cache_name(name) ==> (webcache_step(project, artifact, seen, rules, version) matches Got::Have(
            Some(found),
        ) && {
            &&& found.kind == "webcache"@
            &&& found.activity_root == Some(project)
            &&& found.blocked is None
            &&& found.quiet_days == 7
            &&& found.rules == rules
            &&& found.latest >= source.identity.modified_ns
        }),
        !web_cache_name(name) ==> webcache_step(project, artifact, seen, rules, version) == Got::<
            Option<Found>,
        >::Have(None),
{
}

/// Without a regular package manifest beside it no folder is a web cache.
pub proof fn no_manifest_no_web_cache(
    project: Seq<u8>,
    artifact: Seq<u8>,
    seen: Sources,
    rules: Rules,
    version: u32,
)
    requires
        seen.presence(named(project, "package.json"@)) == Got::<bool>::Have(false) || (
        seen.presence(named(project, "package.json"@)) == Got::<bool>::Have(true)
            && seen.regularity(named(project, "package.json"@)) == Got::<bool>::Have(false)),
    ensures
        webcache_step(project, artifact, seen, rules, version) == Got::<Option<Found>>::Have(None),
{
}

/// Folder names that come with a rule of their own.
proof fn folder_names_differ()
    ensures
        encode_utf8("node_modules"@) != encode_utf8("target"@),
        encode_utf8("node_modules"@) != encode_utf8(".venv"@),
        encode_utf8("node_modules"@) != encode_utf8("venv"@),
        encode_utf8("target"@) != encode_utf8(".venv"@),
        encode_utf8("target"@) != encode_utf8("venv"@),
        forall|name: Seq<u8>| #[trigger]
            web_cache_name(name) ==> name != encode_utf8("node_modules"@) && name != encode_utf8(
                "target"@,
            ) && name != encode_utf8(".venv"@) && name != encode_utf8("venv"@),
{
    reveal_strlit("node_modules");
    reveal_strlit("target");
    reveal_strlit(".venv");
    reveal_strlit("venv");
    reveal_strlit(".next");
    reveal_strlit(".nuxt");
    reveal_strlit(".turbo");
    reveal_strlit(".parcel-cache");
    assert("node_modules"@.len() == 12);
    assert("target"@.len() == 6 && "target"@[0] == 't');
    assert(".venv"@.len() == 5 && ".venv"@[1] == 'v');
    assert("venv"@.len() == 4);
    assert(".next"@.len() == 5 && ".next"@[1] == 'n');
    assert(".nuxt"@.len() == 5 && ".nuxt"@[1] == 'n');
    assert(".turbo"@.len() == 6 && ".turbo"@[0] == '.');
    assert(".parcel-cache"@.len() == 13);
    encode_utf8_decode_utf8("node_modules"@);
    encode_utf8_decode_utf8("target"@);
    encode_utf8_decode_utf8(".venv"@);
    encode_utf8_decode_utf8("venv"@);
    encode_utf8_decode_utf8(".next"@);
    encode_utf8_decode_utf8(".nuxt"@);
    encode_utf8_decode_utf8(".turbo"@);
    encode_utf8_decode_utf8(".parcel-cache"@);
}

/// A folder in the root that lies in none of the library's areas.
pub open spec fn ordinary_place(
    root: Seq<u8>,
    path: Seq<u8>,
    meta: EntryMeta,
    placing: Placing,
    parent: Seq<u8>,
) -> bool {
    &&& placing.library_kind is None
    &&& !placing.library_area
    &&& meta.identity.mode & 0o170000 == 0o040000
    &&& parent_of(path) == Some(parent)
    &&& under(parent, root)
}

/// A dependency folder is judged by the project beside it. Where that fails the folder
/// is still shown, as dependencies that the reason given keeps from cleanup.
pub proof fn dependency_folders_are_judged_by_their_project(
    root: Seq<u8>,
    parent: Seq<u8>,
    path: Seq<u8>,
    meta: EntryMeta,
    placing: Placing,
    around: Surroundings,
    seen: Sources,
)
    requires
        ordinary_place(root, path, meta, placing, parent),
        name_of(path) == Some(encode_utf8("node_modules"@)),
        around.policy.has_rule("node"@),
    ensures
        ({
            let class = class_of(root, path, meta, placing, around, seen, false);
            let project = node_step(root, parent, seen, around.policy.rule_of("node"@));
            &&& project is Have || project is Need ==> class == project
            &&& (project matches Got::Fail(reason) ==> (class matches Got::Have(Some(found)) && {
                &&& found.kind == "node"@
                &&& found.blocked == Some(reason)
                &&& found.activity_root is None
                &&& found.latest == meta.identity.modified_ns
            }))
        }),
{
    folder_names_differ();
}

/// Each kind of artifact folder is judged by its own evidence, taken of the folder and
/// of the project beside it; none is once the work was cancelled.
pub proof fn artifact_folders_are_judged_by_their_kind(
    root: Seq<u8>,
    parent: Seq<u8>,
    path: Seq<u8>,
    meta: EntryMeta,
    placing: Placing,
    around: Surroundings,
    seen: Sources,
    name: Seq<u8>,
)
    requires
        ordinary_place(root, path, meta, placing, parent),
        name_of(path) == Some(name),
    ensures
        name == encode_utf8("target"@) && around.policy.has_rule("cargo"@) ==> class_of(
            root,
            path,
            meta,
            placing,
            around,
            seen,
            false,
        ) == cargo_step(
            root,
            parent,
            path,
            around.environment.custom_output,
            path_view(around.environment.home),
            seen,
            around.policy.rule_of("cargo"@),
        ),
        (name == encode_utf8(".venv"@) || name == encode_utf8("venv"@)) && around.policy.has_rule(
            "venv"@,
        ) ==> class_of(root, path, meta, placing, around, seen, false) == venv_step(
            parent,
            path,
            seen,
            around.policy.rule_of("venv"@),
            around.policy.rule_version,
        ),
        web_cache_name(name) && around.policy.has_rule("webcache"@) ==> class_of(
            root,
            path,
            meta,
            placing,
            around,
            seen,
            false,
        ) == webcache_step(
            parent,
            path,
            seen,
            around.policy.rule_of("webcache"@),
            around.policy.rule_version,
        ),
        (name == encode_utf8("target"@) && around.policy.has_rule("cargo"@)) || ((name
            == encode_utf8(".venv"@) || name == encode_utf8("venv"@)) && around.policy.has_rule(
            "venv"@,
        )) || (web_cache_name(name) && around.policy.has_rule("webcache"@)) ==> class_of(
            root,
            path,
            meta,
            placing,
            around,
            seen,
            true,
        ) == Got::<Option<Found>>::Fail("Cancelled"@),
{
    folder_names_differ();
}

/// A kind that the policy has no rule for is never recognized.
pub proof fn a_kind_without_a_rule_is_not_recognized(
    root: Seq<u8>,
    parent: Seq<u8>,
    path: Seq<u8>,
    meta: EntryMeta,
    placing: Placing,
    around: Surroundings,
    seen: Sources,
    cancel: bool,
    name: Seq<u8>,
)
    requires
        ordinary_place(root, path, meta, placing, parent),
        name_of(path) == Some(name),
        (name == encode_utf8("node_modules"@) && !around.policy.has_rule("node"@)) || (name
            == encode_utf8("target"@) && !around.policy.has_rule("cargo"@)) || ((name
            == encode_utf8(".venv"@) || name == encode_utf8("venv"@)) && !around.policy.has_rule(
            "venv"@,
        )) || (web_cache_name(name) && !around.policy.has_rule("webcache"@)),
    ensures
        class_of(root, path, meta, placing, around, seen, cancel) == Got::<Option<Found>>::Have(
            None,
        ),
{
    folder_names_differ();
}

/// What a provider of build artifacts says of a folder stands, under the policy's rule
/// for its kind; it is asked before anything is decided.
pub proof fn provided_folders_stand_as_given(
    root: Seq<u8>,
    parent: Seq<u8>,
    path: Seq<u8>,
    meta: EntryMeta,
    placing: Placing,
    around: Surroundings,
    seen: Sources,
    cancel: bool,
    name: Seq<u8>,
)
    requires
        ordinary_place(root, path, meta, placing, parent),
        name_of(path) == Some(name),
        placing.provider,
        name != encode_utf8("node_modules"@),
        name != encode_utf8("target"@),
        name != encode_utf8(".venv"@),
        name != encode_utf8("venv"@),
        !web_cache_name(name),
    ensures
        placing.provided is None ==> class_of(root, path, meta, placing, around, seen, cancel)
            == Got::<Option<Found>>::Need(path, Ask::Provider),
        placing.provided matches Some(Err(reason)) ==> class_of(
            root,
            path,
            meta,
            placing,
            around,
            seen,
            cancel,
        ) == Got::<Option<Found>>::Fail(reason@),
        placing.provided matches Some(Ok(None)) ==> class_of(
            root,
            path,
            meta,
            placing,
            around,
            seen,
            cancel,
        ) == Got::<Option<Found>>::Have(None),
        placing.provided matches Some(Ok(Some(given))) && around.policy.has_rule(given.kind@) ==> (
        class_of(root, path, meta, placing, around, seen, cancel) matches Got::Have(Some(found))
            && {
            let rules = around.policy.rule_of(placing.provided->Some_0->Ok_0->Some_0.kind@);
            let given = placing.provided->Some_0->Ok_0->Some_0;
            &&& found.kind == given.kind@
            &&& found.title == given.title@
            &&& found.explanation == given.explanation@
            &&& found.consequence == given.consequence@
            &&& found.fingerprint == given.fingerprint@
            &&& (given.blocked is None ==> found.blocked is None)
            &&& (given.blocked matches Some(reason) ==> found.blocked == Some(reason@))
            &&& found.latest == given.latest_modified_ns
            &&& found.quiet_days == rules.quiet_days
            &&& found.activity_root == Some(given.activity_root@)
            &&& found.rules == rules
        }),
{
}

/// What lies in one of the library's areas and is no cleanup unit of it is left alone.
pub proof fn library_areas_are_left_alone(
    root: Seq<u8>,
    path: Seq<u8>,
    meta: EntryMeta,
    placing: Placing,
    around: Surroundings,
    seen: Sources,
    cancel: bool,
)
    requires
        placing.library_kind is None,
        placing.library_area,
    ensures
        class_of(root, path, meta, placing, around, seen, cancel) == Got::<Option<Found>>::Have(
            None,
        ),
{
}

/// A finished file in the downloads is recognized as an installer, as an archive or as
/// a plain download, in this order, once it is large enough for its kind.
pub proof fn finished_downloads_are_recognized(
    root: Seq<u8>,
    parent: Seq<u8>,
    path: Seq<u8>,
    meta: EntryMeta,
    placing: Placing,
    around: Surroundings,
    seen: Sources,
    cancel: bool,
    kind: Seq<char>,
)
    requires
        placing.library_kind is None,
        !placing.library_area,
        meta.identity.mode & 0o170000 == 0o100000,
        name_of(path) is Some,
        parent_of(path) == Some(parent),
        under(parent, root),
        around.downloads matches Some(boundary) && under(path, boundary@) && !unfinished_below(
            path,
            boundary@,
        ),
        kind == (if placing.installer {
            "installer"@
        } else if placing.archive {
            "archive"@
        } else {
            "download"@
        }),
        around.policy.has_rule(kind),
    ensures
        meta.identity.size >= around.policy.rule_of(kind).minimum_bytes ==> (class_of(
            root,
            path,
            meta,
            placing,
            around,
            seen,
            cancel,
        ) matches Got::Have(Some(found)) && found.kind == kind && found.rules
            == around.policy.rule_of(kind) && found.blocked is None),
        meta.identity.size < around.policy.rule_of(kind).minimum_bytes ==> class_of(
            root,
            path,
            meta,
            placing,
            around,
            seen,
            cancel,
        ) == Got::<Option<Found>>::Have(None),
{
    types_exclude_each_other(meta);
    if meta.identity.size >= around.policy.rule_of(kind).minimum_bytes {
        everyday_data_is_recognized(
            path,
            meta,
            kind,
            around.policy.rule_of(kind),
            around.policy.rule_version,
        );
    }
}

proof fn types_exclude_each_other(meta: EntryMeta)
    ensures
        !(meta.dir() && meta.file()),
{
}

/// A large personal file outside the downloads is recognized, unless it or a folder
/// that holds it is named like an unfinished download; a smaller one is not, nor one
/// in another place.
pub proof fn large_personal_files_are_recognized(
    root: Seq<u8>,
    parent: Seq<u8>,
    path: Seq<u8>,
    meta: EntryMeta,
    placing: Placing,
    around: Surroundings,
    seen: Sources,
    cancel: bool,
)
    requires
        placing.library_kind is None,
        !placing.library_area,
        meta.identity.mode & 0o170000 == 0o100000,
        name_of(path) is Some,
        parent_of(path) == Some(parent),
        under(parent, root),
        around.downloads matches Some(boundary) ==> !under(path, boundary@),
        around.policy.has_rule("largefile"@),
    ensures
        placing.personal && meta.identity.size >= around.policy.rule_of("largefile"@).minimum_bytes
            && !unfinished_below(path, root) ==> (class_of(
            root,
            path,
            meta,
            placing,
            around,
            seen,
            cancel,
        ) matches Got::Have(Some(found)) && found.kind == "largefile"@ && found.blocked is None),
        !placing.personal || meta.identity.size < around.policy.rule_of("largefile"@).minimum_bytes
            || unfinished_below(path, root) ==> class_of(
            root,
            path,
            meta,
            placing,
            around,
            seen,
            cancel,
        ) == Got::<Option<Found>>::Have(None),
{
    types_exclude_each_other(meta);
    if meta.identity.size >= around.policy.rule_of("largefile"@).minimum_bytes {
        everyday_data_is_recognized(
            path,
            meta,
            "largefile"@,
            around.policy.rule_of("largefile"@),
            around.policy.rule_version,
        );
    }
}

/// A name with its capital letters made small.
pub open spec fn lowered(name: Seq<u8>) -> Seq<u8> {
    Seq::new(
        name.len(),
        |i: int|
            if 65 <= name[i] <= 90 {
                (name[i] + 32) as u8
            } else {
                name[i]
            },
    )
}

/// Something followed by this ending.
pub open spec fn ended(name: Seq<u8>, ending: Seq<char>) -> bool {
    exists|front: Seq<u8>| name == #[trigger] (front + encode_utf8(ending))
}

/// A name is that of an unfinished download exactly when, in whatever letters, it has
/// one of the endings that browsers and download tools give it, or the beginning of
/// Chrome's hidden files.
pub proof fn unfinished_names_are_known(name: Seq<u8>)
    ensures
        unfinished_name(name) <==> {
            let n = lowered(name);
            ||| ended(n, ".download"@)
            ||| ended(n, ".crdownload"@)
            ||| ended(n, ".partial"@)
            ||| ended(n, ".part"@)
            ||| ended(n, ".filepart"@)
            ||| ended(n, ".aria2"@)
            ||| ended(n, ".tmp"@)
            ||| ended(n, ".temp"@)
            ||| exists|rest: Seq<u8>| n == #[trigger] (encode_utf8(".com.google.chrome."@) + rest)
        },
{
    let n = lowered(name);
    assert(small_letters(name) =~= n);
    ended_like(name, ".download"@);
    ended_like(name, ".crdownload"@);
    ended_like(name, ".partial"@);
    ended_like(name, ".part"@);
    ended_like(name, ".filepart"@);
    ended_like(name, ".aria2"@);
    ended_like(name, ".tmp"@);
    ended_like(name, ".temp"@);
    assert(unfinished_suffix(0) == ".download"@);
    assert(unfinished_suffix(1) == ".crdownload"@);
    assert(unfinished_suffix(2) == ".partial"@);
    assert(unfinished_suffix(3) == ".part"@);
    assert(unfinished_suffix(4) == ".filepart"@);
    assert(unfinished_suffix(5) == ".aria2"@);
    assert(unfinished_suffix(6) == ".tmp"@);
    assert(unfinished_suffix(7) == ".temp"@);
    let head = encode_utf8(".com.google.chrome."@);
    if begins_like(name, head) {
        assert(head + n.skip(head.len() as int) =~= n);
    }
    if exists|rest: Seq<u8>| n == #[trigger] (head + rest) {
        let rest = choose|rest: Seq<u8>| n == #[trigger] (head + rest);
        assert((head + rest).take(head.len() as int) =~= head);
    }
}

proof fn ended_like(name: Seq<u8>, ending: Seq<char>)
    ensures
        ends_like(name, encode_utf8(ending)) == ended(lowered(name), ending),
{
    let n = lowered(name);
    let tail = encode_utf8(ending);
    assert(small_letters(name) =~= n);
    if ends_like(name, tail) {
        assert(n.take(n.len() - tail.len()) + tail =~= n);
    }
    if ended(n, ending) {
        let front = choose|front: Seq<u8>| n == #[trigger] (front + tail);
        assert((front + tail).skip(front.len() as int) =~= tail);
    }
}

/// A path is unfinished below a folder exactly when one of its components beyond those
/// of the folder is so named; the folder's own components do not matter.
pub proof fn unfinished_parts_lie_below(path: Seq<u8>, base: Seq<u8>, i: int)
    requires
        0 <= i < components(path).len(),
    ensures
        i >= components(base).len() && unfinished_name(components(path)[i]) ==> unfinished_below(
            path,
            base,
        ),
        (forall|k: int|
            components(base).len() <= k < components(path).len() ==> !unfinished_name(
                #[trigger] components(path)[k],
            )) ==> !unfinished_below(path, base),
{
}

/// The time before which something must have been left alone lies the given number of
/// days back.
pub proof fn quiet_days_are_whole_days(now_ns: i64, days: i64)
    requires
        i64::MIN <= days * 86_400_000_000_000 <= i64::MAX,
        i64::MIN <= now_ns - days * 86_400_000_000_000 <= i64::MAX,
    ensures
        cutoff(now_ns, days) == now_ns - days * 86_400_000_000_000,
{
}

/// Something is suggested exactly when it takes at least its kind's least size and
/// neither it nor the evidence for it changed within the quiet days: at the limits it
/// is. Too little space is said before too recent a change.
pub proof fn what_is_large_and_quiet_is_suggested(
    rules: Rules,
    quiet_days: i64,
    latest: int,
    allocated: u64,
    modified: int,
    now_ns: i64,
)
    requires
        i64::MIN <= quiet_days * 86_400_000_000_000 <= i64::MAX,
        i64::MIN <= now_ns - quiet_days * 86_400_000_000_000 <= i64::MAX,
    ensures
        suggestion_outcome(rules, quiet_days, latest, allocated, modified, now_ns) is None <==> {
            &&& allocated >= rules.minimum_bytes
            &&& modified <= now_ns - quiet_days * 86_400_000_000_000
            &&& latest <= now_ns - quiet_days * 86_400_000_000_000
        },
        allocated < rules.minimum_bytes ==> suggestion_outcome(
            rules,
            quiet_days,
            latest,
            allocated,
            modified,
            now_ns,
        ) == Some(
            "Less than "@ + digits((rules.minimum_bytes / 1_000_000) as nat)
                + " MB is allocated locally; it does not meet this category's size threshold"@,
        ),
        allocated >= rules.minimum_bytes && (modified > now_ns - quiet_days * 86_400_000_000_000
            || latest > now_ns - quiet_days * 86_400_000_000_000) ==> suggestion_outcome(
            rules,
            quiet_days,
            latest,
            allocated,
            modified,
            now_ns,
        ) == Some(
            "Recently modified; recommendations require "@ + signed_digits(quiet_days as int)
                + " quiet days"@,
        ),
{
}

/// A project is in use exactly when a process works in it or was started from it.
pub proof fn running_processes_keep_projects(snapshot: ActivitySnapshot, project: Seq<u8>)
    ensures
        in_use(snapshot, project) is Some <==> (exists|i: int|
            0 <= i < snapshot.working_directories@.len() && under(
                #[trigger] snapshot.working_directories@[i]@,
                project,
            )) || (exists|i: int|
            0 <= i < snapshot.executable_paths@.len() && under(
                #[trigger] snapshot.executable_paths@[i]@,
                project,
            )),
{
}

} // verus!
