//! Which entries are artifacts, and of what kind.
use crate::adapters::{
    everyday_evidence, everyday_found, step_finds, venv_evidence, venv_step, version_mark,
    version_text, webcache_evidence, webcache_step,
};
use crate::caches::EvidenceCaches;
use crate::cargo::{cargo_evidence, cargo_step, CargoEnvironment};
use crate::evidence::{
    has_unfinished_part, lossy_text, path_view, shown_text, text_view, unfinished_below, Evidence,
    Found, DEVELOPER_QUIET_DAYS,
};
use crate::model::{EntryMeta, Root};
use crate::node::{node_evidence_cached, node_step};
use crate::paths::{
    file_name, fs_path, is_under, name_of, parent, parent_of, path_bytes, same_place, share,
    strictly_under, under, FsPath,
};
use crate::policy::{Policy, Rules};
use crate::probe::{Ask, Got, Step};
use crate::sources::Sources;
use crate::text::{joined, same_bytes};
use vstd::prelude::*;
use vstd::slice::slice_to_vec;
use vstd::utf8::encode_utf8;

verus! {

/// Names that are artifacts only beside their marker or manifest.
pub open spec fn conditional_name(name: Seq<u8>) -> bool {
    ||| name == encode_utf8(".venv"@)
    ||| name == encode_utf8("venv"@)
    ||| name == encode_utf8(".next"@)
    ||| name == encode_utf8(".nuxt"@)
    ||| name == encode_utf8(".turbo"@)
    ||| name == encode_utf8(".parcel-cache"@)
}

/// Names at which a recognized artifact can begin. `provider` tells whether a
/// provider of build artifacts knows the name.
pub open spec fn artifact_name(name: Seq<u8>, provider: bool) -> bool {
    ||| provider
    ||| name == encode_utf8("node_modules"@)
    ||| name == encode_utf8("target"@)
    ||| conditional_name(name)
}

fn has_conditional_name(name: &[u8]) -> (r: bool)
    ensures
        r == conditional_name(name@),
{
    same_bytes(name, ".venv".as_bytes()) || same_bytes(name, "venv".as_bytes()) || same_bytes(
        name,
        ".next".as_bytes(),
    ) || same_bytes(name, ".nuxt".as_bytes()) || same_bytes(name, ".turbo".as_bytes())
        || same_bytes(name, ".parcel-cache".as_bytes())
}

/// Whether a name can begin an artifact, so that an event inside it concerns the
/// whole of it. The conditional names still need their positive evidence.
pub fn artifact_component(name: &[u8], provider: bool) -> (r: bool)
    ensures
        r == artifact_name(name@, provider),
{
    provider || same_bytes(name, "node_modules".as_bytes()) || same_bytes(
        name,
        "target".as_bytes(),
    ) || has_conditional_name(name)
}

/// Whether a path ends in the name of an artifact.
pub open spec fn artifact_path(path: Seq<u8>, provider: bool) -> bool {
    name_of(path) matches Some(name) && artifact_name(name, provider)
}

/// Whether a path ends in a name that needs positive evidence: without it the
/// folder stays ordinary and is traversed.
pub open spec fn conditional_path(path: Seq<u8>, provider: bool) -> bool {
    name_of(path) matches Some(name) && (provider || conditional_name(name))
}

pub fn is_artifact_name(path: &FsPath, provider: bool) -> (r: bool)
    ensures
        r == artifact_path(path@, provider),
{
    match file_name(path_bytes(path)) {
        Some(name) => artifact_component(name, provider),
        None => false,
    }
}

pub fn is_conditional_artifact_name(path: &FsPath, provider: bool) -> (r: bool)
    ensures
        r == conditional_path(path@, provider),
{
    match file_name(path_bytes(path)) {
        Some(name) => provider || has_conditional_name(name),
        None => false,
    }
}

/// What a provider of build artifacts says of a folder.
pub struct ProviderFound {
    pub kind: String,
    pub title: String,
    pub explanation: String,
    pub consequence: String,
    pub fingerprint: String,
    pub blocked: Option<String>,
    pub latest_modified_ns: i64,
    pub activity_root: FsPath,
}

/// What the place and the name of an entry say of it.
pub struct Placing {
    /// The kind of a cleanup unit in one of the library's own areas.
    pub library_kind: Option<String>,
    /// Whether the entry lies in such an area.
    pub library_area: bool,
    /// Whether a provider of build artifacts knows the name.
    pub provider: bool,
    /// What that provider says, once it was asked.
    pub provided: Option<Result<Option<ProviderFound>, String>>,
    pub installer: bool,
    pub archive: bool,
    /// Whether it is a personal file in a place for such files.
    pub personal: bool,
}

/// Everything around an entry that its classification depends on.
pub struct Surroundings {
    pub downloads: Option<FsPath>,
    pub environment: CargoEnvironment,
    pub policy: Policy,
}

/// The evidence of an everyday kind; a kind without rules is none.
pub open spec fn everyday_step(
    path: Seq<u8>,
    meta: EntryMeta,
    kind: Seq<char>,
    policy: Policy,
) -> Got<Option<Found>> {
    if !policy.has_rule(kind) {
        Got::Have(None)
    } else {
        Got::Have(everyday_found(path, meta, kind, policy.rule_of(kind), policy.rule_version))
    }
}

fn classify_everyday(path: &FsPath, meta: &EntryMeta, kind: &str, policy: &Policy) -> (r: Step<
    Option<Evidence>,
>)
    ensures
        step_finds(r, everyday_step(path@, *meta, kind@, *policy)),
{
    match policy.find(kind) {
        None => Step::Have(None),
        Some(rules) => Step::Have(everyday_evidence(path, meta, kind, rules, policy.rule_version)),
    }
}

/// What is said of a dependency folder whose owner is not proved.
pub open spec fn unverified_found(
    parent: Seq<u8>,
    meta: EntryMeta,
    reason: Seq<char>,
    rules: Rules,
    version: u32,
) -> Found {
    Found {
        kind: "node"@,
        title: (match name_of(parent) {
            Some(name) => lossy_text(name),
            None => seq![],
        }) + " dependencies"@,
        explanation:
            "A dependency directory was found, but its installation ownership or layout could not be verified."@,
        consequence:
            "This diagnostic entry is unavailable for cleanup. Inspect the owning project and package-manager configuration first."@,
        fingerprint: version_mark("unverified-node"@, version),
        blocked: Some(reason),
        latest: meta.identity.modified_ns as int,
        quiet_days: DEVELOPER_QUIET_DAYS,
        activity_root: None,
        rules,
    }
}

fn unverified_evidence(
    parent: &FsPath,
    meta: &EntryMeta,
    reason: String,
    rules: Rules,
    version: u32,
) -> (r: Evidence)
    ensures
        r@ == unverified_found(parent@, *meta, reason@, rules, version),
{
    let name: String = match file_name(path_bytes(parent)) {
        Some(name) => shown_text(name),
        None => String::new(),
    };
    assert(name@ =~= match name_of(parent@) {
        Some(name) => lossy_text(name),
        None => seq![],
    });
    Evidence {
        kind: "node".to_owned(),
        title: joined(name.as_str(), " dependencies"),
        explanation:
            "A dependency directory was found, but its installation ownership or layout could not be verified.".to_owned(),
        consequence:
            "This diagnostic entry is unavailable for cleanup. Inspect the owning project and package-manager configuration first.".to_owned(),
        fingerprint: version_text("unverified-node", version),
        blocked: Some(reason),
        latest_modified_ns: meta.identity.modified_ns,
        quiet_days: DEVELOPER_QUIET_DAYS,
        activity_root: None,
        rules,
    }
}

/// A dependency folder is always an artifact: where its owner is not proved, it
/// is shown as one that cannot be cleaned.
pub open spec fn dependencies_step(
    root: Seq<u8>,
    parent: Seq<u8>,
    meta: EntryMeta,
    seen: Sources,
    rules: Rules,
    version: u32,
    cancel: bool,
) -> Got<Option<Found>> {
    if cancel {
        Got::Have(Some(unverified_found(parent, meta, "Cancelled"@, rules, version)))
    } else {
        match node_step(root, parent, seen, rules) {
            Got::Fail(reason) => Got::Have(
                Some(unverified_found(parent, meta, reason, rules, version)),
            ),
            other => other,
        }
    }
}

/// What a provider's answer comes to; a kind without rules is none.
pub open spec fn provided_step(path: Seq<u8>, placing: Placing, policy: Policy) -> Got<
    Option<Found>,
> {
    match placing.provided {
        None => Got::Need(path, Ask::Provider),
        Some(Err(reason)) => Got::Fail(reason@),
        Some(Ok(None)) => Got::Have(None),
        Some(Ok(Some(given))) => if !policy.has_rule(given.kind@) {
            Got::Have(None)
        } else {
            Got::Have(
                Some(
                    Found {
                        kind: given.kind@,
                        title: given.title@,
                        explanation: given.explanation@,
                        consequence: given.consequence@,
                        fingerprint: given.fingerprint@,
                        blocked: text_view(given.blocked),
                        latest: given.latest_modified_ns as int,
                        quiet_days: policy.rule_of(given.kind@).quiet_days,
                        activity_root: Some(given.activity_root@),
                        rules: policy.rule_of(given.kind@),
                    },
                ),
            )
        },
    }
}

fn provided_evidence(path: &FsPath, placing: &Placing, policy: &Policy) -> (r: Step<
    Option<Evidence>,
>)
    ensures
        step_finds(r, provided_step(path@, *placing, *policy)),
{
    match &placing.provided {
        None => Step::Need(share(path), Ask::Provider),
        Some(Err(reason)) => Step::Fail(reason.clone()),
        Some(Ok(None)) => Step::Have(None),
        Some(Ok(Some(given))) => match policy.find(given.kind.as_str()) {
            None => Step::Have(None),
            Some(rules) => Step::Have(
                Some(
                    Evidence {
                        kind: given.kind.clone(),
                        title: given.title.clone(),
                        explanation: given.explanation.clone(),
                        consequence: given.consequence.clone(),
                        fingerprint: given.fingerprint.clone(),
                        blocked: crate::model::copy_text(&given.blocked),
                        latest_modified_ns: given.latest_modified_ns,
                        quiet_days: rules.quiet_days,
                        activity_root: Some(share(&given.activity_root)),
                        rules,
                    },
                ),
            ),
        },
    }
}

/// How a cancelled check ends.
pub open spec fn unless_cancelled(step: Got<Option<Found>>, cancel: bool) -> Got<Option<Found>> {
    if cancel {
        Got::Fail("Cancelled"@)
    } else {
        step
    }
}

/// What a folder with the name of an artifact is.
pub open spec fn folder_kind(
    root: Seq<u8>,
    parent: Seq<u8>,
    path: Seq<u8>,
    name: Seq<u8>,
    meta: EntryMeta,
    placing: Placing,
    around: Surroundings,
    seen: Sources,
    cancel: bool,
) -> Got<Option<Found>> {
    let policy = around.policy;
    if name == encode_utf8("node_modules"@) {
        if !policy.has_rule("node"@) {
            Got::Have(None)
        } else {
            dependencies_step(
                root,
                parent,
                meta,
                seen,
                policy.rule_of("node"@),
                policy.rule_version,
                cancel,
            )
        }
    } else if name == encode_utf8("target"@) {
        if !policy.has_rule("cargo"@) {
            Got::Have(None)
        } else {
            unless_cancelled(
                cargo_step(
                    root,
                    parent,
                    path,
                    around.environment.custom_output,
                    path_view(around.environment.home),
                    seen,
                    policy.rule_of("cargo"@),
                ),
                cancel,
            )
        }
    } else if name == encode_utf8(".venv"@) || name == encode_utf8("venv"@) {
        if !policy.has_rule("venv"@) {
            Got::Have(None)
        } else {
            unless_cancelled(
                venv_step(parent, path, seen, policy.rule_of("venv"@), policy.rule_version),
                cancel,
            )
        }
    } else if conditional_name(name) {
        if !policy.has_rule("webcache"@) {
            Got::Have(None)
        } else {
            unless_cancelled(
                webcache_step(parent, path, seen, policy.rule_of("webcache"@), policy.rule_version),
                cancel,
            )
        }
    } else {
        provided_step(path, placing, policy)
    }
}

fn classify_folder(
    root: &Root,
    parent: &FsPath,
    path: &FsPath,
    name: &[u8],
    meta: &EntryMeta,
    placing: &Placing,
    around: &Surroundings,
    seen: &Sources,
    caches: &mut EvidenceCaches,
    cancel: bool,
) -> (r: Step<Option<Evidence>>)
    requires
        old(caches).wf(),
    ensures
        final(caches).wf(),
        old(caches).trusted(*seen) ==> final(caches).trusted(*seen) && step_finds(
            r,
            folder_kind(
                root.path@,
                parent@,
                path@,
                name@,
                *meta,
                *placing,
                *around,
                *seen,
                cancel,
            ),
        ),
{
    let policy: &Policy = &around.policy;
    if same_bytes(name, "node_modules".as_bytes()) {
        match policy.find("node") {
            None => Step::Have(None),
            Some(rules) => match node_evidence_cached(root, parent, seen, caches, rules, cancel) {
                Step::Fail(reason) => Step::Have(
                    Some(unverified_evidence(parent, meta, reason, rules, policy.rule_version)),
                ),
                other => other,
            },
        }
    } else if same_bytes(name, "target".as_bytes()) {
        match policy.find("cargo") {
            None => Step::Have(None),
            Some(rules) => cargo_evidence(
                root,
                parent,
                path,
                &around.environment,
                seen,
                rules,
                cancel,
            ),
        }
    } else if same_bytes(name, ".venv".as_bytes()) || same_bytes(name, "venv".as_bytes()) {
        match policy.find("venv") {
            None => Step::Have(None),
            Some(rules) => venv_evidence(parent, path, seen, rules, policy.rule_version, cancel),
        }
    } else if has_conditional_name(name) {
        match policy.find("webcache") {
            None => Step::Have(None),
            Some(rules) => webcache_evidence(
                parent,
                path,
                seen,
                rules,
                policy.rule_version,
                cancel,
            ),
        }
    } else {
        provided_evidence(path, placing, policy)
    }
}

/// The kind of a finished download.
pub open spec fn download_kind(placing: Placing) -> Seq<char> {
    if placing.installer {
        "installer"@
    } else if placing.archive {
        "archive"@
    } else {
        "download"@
    }
}

/// Whether a file is a large personal one, and not part of something unfinished.
pub open spec fn large_personal(
    root: Seq<u8>,
    path: Seq<u8>,
    meta: EntryMeta,
    placing: Placing,
    policy: Policy,
) -> bool {
    meta.file() && policy.has_rule("largefile"@) && meta.identity.size >= policy.rule_of(
        "largefile"@,
    ).minimum_bytes && placing.personal && !unfinished_below(path, root)
}

/// What an entry is, if it is an artifact at all.
pub open spec fn class_of(
    root: Seq<u8>,
    path: Seq<u8>,
    meta: EntryMeta,
    placing: Placing,
    around: Surroundings,
    seen: Sources,
    cancel: bool,
) -> Got<Option<Found>> {
    match placing.library_kind {
        Some(kind) => everyday_step(path, meta, kind@, around.policy),
        None => if placing.library_area {
            Got::Have(None)
        } else {
            match (name_of(path), parent_of(path)) {
                (Some(name), Some(parent)) => if meta.dir() {
                    if !artifact_name(name, placing.provider) || !under(parent, root) {
                        Got::Have(None)
                    } else {
                        folder_kind(root, parent, path, name, meta, placing, around, seen, cancel)
                    }
                } else if !under(parent, root) {
                    Got::Have(None)
                } else if meta.file() && (around.downloads matches Some(boundary) && under(
                    path,
                    boundary@,
                ) && !unfinished_below(path, boundary@)) {
                    everyday_step(path, meta, download_kind(placing), around.policy)
                } else if large_personal(root, path, meta, placing, around.policy) {
                    everyday_step(path, meta, "largefile"@, around.policy)
                } else {
                    Got::Have(None)
                },
                _ => Got::Have(None),
            }
        },
    }
}

/// What an entry is, if it is an artifact at all. The library's containers are
/// never developer projects and are not themselves cleanup units; only the kinds
/// of their own places may classify what lies there. Most folders cannot be
/// artifacts, and their final component alone rules them out.
pub fn evidence_with_downloads_cached(
    root: &Root,
    path: &FsPath,
    meta: &EntryMeta,
    placing: &Placing,
    around: &Surroundings,
    seen: &Sources,
    caches: &mut EvidenceCaches,
    cancel: bool,
) -> (r: Step<Option<Evidence>>)
    requires
        old(caches).wf(),
    ensures
        final(caches).wf(),
        old(caches).trusted(*seen) ==> final(caches).trusted(*seen) && step_finds(
            r,
            class_of(root.path@, path@, *meta, *placing, *around, *seen, cancel),
        ),
{
    match &placing.library_kind {
        Some(kind) => {
            return classify_everyday(path, meta, kind.as_str(), &around.policy);
        },
        None => {},
    }
    if placing.library_area {
        return Step::Have(None);
    }
    let name: &[u8] = match file_name(path_bytes(path)) {
        Some(name) => name,
        None => {
            return Step::Have(None);
        },
    };
    let above: &[u8] = match parent(path_bytes(path)) {
        Some(above) => above,
        None => {
            return Step::Have(None);
        },
    };
    let folder: bool = meta.is_dir();
    if folder && !artifact_component(name, placing.provider) {
        return Step::Have(None);
    }
    if !is_under(above, path_bytes(&root.path)) {
        return Step::Have(None);
    }
    if folder {
        let holder: FsPath = fs_path(slice_to_vec(above));
        return classify_folder(
            root,
            &holder,
            path,
            name,
            meta,
            placing,
            around,
            seen,
            caches,
            cancel,
        );
    }
    let download: bool = match &around.downloads {
        Some(boundary) => is_under(path_bytes(path), path_bytes(boundary)) && !has_unfinished_part(
            path,
            boundary,
        ),
        None => false,
    };
    if meta.is_file() && download {
        let kind: &str = if placing.installer {
            "installer"
        } else if placing.archive {
            "archive"
        } else {
            "download"
        };
        return classify_everyday(path, meta, kind, &around.policy);
    }
    proof {
        crate::paths::parent_holds(path@);
        crate::paths::under_transitive(path@, above@, root.path@);
    }
    let large: bool = match around.policy.find("largefile") {
        Some(rules) => meta.is_file() && meta.identity.size >= rules.minimum_bytes
            && placing.personal && !has_unfinished_part(path, &root.path),
        None => false,
    };
    if large {
        return classify_everyday(path, meta, "largefile", &around.policy);
    }
    Step::Have(None)
}

/// The same, without any cache.
pub fn evidence_with_downloads(
    root: &Root,
    path: &FsPath,
    meta: &EntryMeta,
    placing: &Placing,
    around: &Surroundings,
    seen: &Sources,
    cancel: bool,
) -> (r: Step<Option<Evidence>>)
    ensures
        step_finds(r, class_of(root.path@, path@, *meta, *placing, *around, *seen, cancel)),
{
    let mut caches: EvidenceCaches = EvidenceCaches::none();
    evidence_with_downloads_cached(root, path, meta, placing, around, seen, &mut caches, cancel)
}

/// A folder without the name of an artifact, outside the library's own places, is
/// never one.
pub proof fn ordinary_folders_stay_ordinary(
    root: Seq<u8>,
    path: Seq<u8>,
    meta: EntryMeta,
    placing: Placing,
    around: Surroundings,
    seen: Sources,
    cancel: bool,
)
    requires
        meta.dir(),
        placing.library_kind is None,
        !artifact_path(path, placing.provider),
    ensures
        class_of(root, path, meta, placing, around, seen, cancel) == Got::<Option<Found>>::Have(
            None,
        ),
{
}

/// Nothing above or beside the root is an artifact, whatever its name.
pub proof fn artifacts_lie_in_the_root(
    root: Seq<u8>,
    path: Seq<u8>,
    meta: EntryMeta,
    placing: Placing,
    around: Surroundings,
    seen: Sources,
    cancel: bool,
)
    requires
        placing.library_kind is None,
        class_of(root, path, meta, placing, around, seen, cancel) matches Got::Have(Some(_)),
    ensures
        strictly_under(path, root),
{
    let above = parent_of(path)->Some_0;
    crate::paths::parent_holds(path);
    crate::paths::under_transitive(path, above, root);
    if same_place(path, root) {
        crate::paths::under_antisymmetric(above, root);
    }
}

} // verus!
