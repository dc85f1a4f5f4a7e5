//! The kinds of artifacts that one file, or none, identifies.
use crate::digest::{blake3_digest, digest_of, hex, hex_text};
use crate::evidence::{
    lossy_text, show_name, shown_name, shown_text, Evidence, Found, DEVELOPER_QUIET_DAYS,
};
use crate::model::EntryMeta;
use crate::paths::{
    file_name, join_text, name_of, named, path_bytes, share, FsPath,
};
use crate::policy::Rules;
use crate::probe::{Got, Step};
use crate::sources::{added, Account, EvidenceSource, Sources, Tally};
use crate::text::{decimal, digits, joined, joined3, same_bytes, same_text};
use vstd::prelude::*;
use vstd::utf8::encode_utf8;

verus! {

/// What is said of an everyday file or folder: what it is, and what moving it
/// away means.
pub open spec fn everyday_texts(kind: Seq<char>) -> Option<(Seq<char>, Seq<char>)> {
    if kind == "cache"@ {
        Some(
            (
                "An old cache in your authorized user Library/Caches location. Apps may regenerate or download this data again; it is not personal application-support data."@,
                "Close the owning app before moving this cache to Trash. Ownership cannot always be identified; an app can keep writing to files in Trash, and changes there can prevent automatic restore. The app may need network access or start more slowly. Keep offline data you still need. Trash does not free space or earn chips."@,
            ),
        )
    } else if kind == "log"@ {
        Some(
            (
                "An old, sizeable log file in your authorized user Library/Logs location. Logs can help diagnose a problem; age does not establish that they are no longer needed."@,
                "Review this log before moving it to Trash. Keep it if you are troubleshooting or need a diagnostic record. Trash does not free space or earn chips."@,
            ),
        )
    } else if kind == "crashreport"@ {
        Some(
            (
                "An old crash or diagnostic report in your authorized user Library/Logs/DiagnosticReports location. It may still be useful for support or troubleshooting."@,
                "Review the report before moving it to Trash. Keep reports needed by support. Trash does not free space or earn chips."@,
            ),
        )
    } else if kind == "xcode"@ {
        Some(
            (
                "Old Xcode-generated data in your authorized user Library/Developer/Xcode/DerivedData location. Archives, simulators, device support and project source are not included."@,
                "Close Xcode and build tools before moving this folder to Trash. Xcode must rebuild or reindex the affected project, and compiled products in this folder are removed. Trash does not free space or earn chips."@,
            ),
        )
    } else if kind == "installer"@ {
        Some(
            (
                "An old downloaded disk image or installer in your authorized Downloads location. Its age does not prove installation completed or that you no longer need it."@,
                "Review the installer before moving it to Trash. Keep it if you need to reinstall offline. Downloads never earn chips, and Trash does not free space."@,
            ),
        )
    } else if kind == "archive"@ {
        Some(
            (
                "An old downloaded archive or disk image in your authorized Downloads location. This scan does not assume it has been extracted or that another copy exists."@,
                "Check that you no longer need the archive before moving it to Trash. It may be your only copy. Downloads never earn chips, and Trash does not free space."@,
            ),
        )
    } else if kind == "largefile"@ {
        Some(
            (
                "A large, older document, media file or archive in an authorized personal-file scope. Size and modification time make it worth reviewing, not automatically disposable."@,
                "Open or preview this file and decide whether to keep it. Personal files are Trash-only, never earn chips, and are never permanently removed by chippytea."@,
            ),
        )
    } else if kind == "download"@ {
        Some(
            (
                "A large local download in your authorized Downloads location. Review its contents; age and size do not prove it is no longer needed."@,
                "Review the file before moving it to Trash. You can restore it while it remains in Trash. Personal files never earn chips."@,
            ),
        )
    } else {
        None
    }
}

fn everyday_words(kind: &str) -> (r: Option<(&'static str, &'static str)>)
    ensures
        match everyday_texts(kind@) {
            Some(pair) => r matches Some(got) && got.0@ == pair.0 && got.1@ == pair.1,
            None => r is None,
        },
{
    if same_text(kind, "cache") {
        Some(
            (
                "An old cache in your authorized user Library/Caches location. Apps may regenerate or download this data again; it is not personal application-support data.",
                "Close the owning app before moving this cache to Trash. Ownership cannot always be identified; an app can keep writing to files in Trash, and changes there can prevent automatic restore. The app may need network access or start more slowly. Keep offline data you still need. Trash does not free space or earn chips.",
            ),
        )
    } else if same_text(kind, "log") {
        Some(
            (
                "An old, sizeable log file in your authorized user Library/Logs location. Logs can help diagnose a problem; age does not establish that they are no longer needed.",
                "Review this log before moving it to Trash. Keep it if you are troubleshooting or need a diagnostic record. Trash does not free space or earn chips.",
            ),
        )
    } else if same_text(kind, "crashreport") {
        Some(
            (
                "An old crash or diagnostic report in your authorized user Library/Logs/DiagnosticReports location. It may still be useful for support or troubleshooting.",
                "Review the report before moving it to Trash. Keep reports needed by support. Trash does not free space or earn chips.",
            ),
        )
    } else if same_text(kind, "xcode") {
        Some(
            (
                "Old Xcode-generated data in your authorized user Library/Developer/Xcode/DerivedData location. Archives, simulators, device support and project source are not included.",
                "Close Xcode and build tools before moving this folder to Trash. Xcode must rebuild or reindex the affected project, and compiled products in this folder are removed. Trash does not free space or earn chips.",
            ),
        )
    } else if same_text(kind, "installer") {
        Some(
            (
                "An old downloaded disk image or installer in your authorized Downloads location. Its age does not prove installation completed or that you no longer need it.",
                "Review the installer before moving it to Trash. Keep it if you need to reinstall offline. Downloads never earn chips, and Trash does not free space.",
            ),
        )
    } else if same_text(kind, "archive") {
        Some(
            (
                "An old downloaded archive or disk image in your authorized Downloads location. This scan does not assume it has been extracted or that another copy exists.",
                "Check that you no longer need the archive before moving it to Trash. It may be your only copy. Downloads never earn chips, and Trash does not free space.",
            ),
        )
    } else if same_text(kind, "largefile") {
        Some(
            (
                "A large, older document, media file or archive in an authorized personal-file scope. Size and modification time make it worth reviewing, not automatically disposable.",
                "Open or preview this file and decide whether to keep it. Personal files are Trash-only, never earn chips, and are never permanently removed by chippytea.",
            ),
        )
    } else if same_text(kind, "download") {
        Some(
            (
                "A large local download in your authorized Downloads location. Review its contents; age and size do not prove it is no longer needed.",
                "Review the file before moving it to Trash. You can restore it while it remains in Trash. Personal files never earn chips.",
            ),
        )
    } else {
        None
    }
}

/// The version mark of a kind.
pub open spec fn version_mark(kind: Seq<char>, version: u32) -> Seq<char> {
    kind + "-v"@ + digits(version as nat)
}

pub(crate) fn version_text(kind: &str, version: u32) -> (r: String)
    ensures
        r@ == version_mark(kind@, version),
{
    joined3(kind, "-v", decimal(version as u64).as_str())
}

/// The evidence of an everyday file or folder. A file that is too small for its
/// kind is none.
pub open spec fn everyday_found(
    path: Seq<u8>,
    meta: EntryMeta,
    kind: Seq<char>,
    rules: Rules,
    version: u32,
) -> Option<Found> {
    if meta.file() && meta.identity.size < rules.minimum_bytes {
        None
    } else {
        match (everyday_texts(kind), name_of(path)) {
            (Some(texts), Some(name)) => Some(
                Found {
                    kind,
                    title: if kind == "cache"@ {
                        lossy_text(name) + " cache"@
                    } else if kind == "xcode"@ {
                        lossy_text(name) + " Xcode data"@
                    } else {
                        lossy_text(name)
                    },
                    explanation: texts.0,
                    consequence: texts.1,
                    fingerprint: version_mark(kind, version),
                    blocked: None,
                    latest: meta.identity.modified_ns as int,
                    quiet_days: rules.quiet_days,
                    activity_root: if rules.checks_activity {
                        Some(path)
                    } else {
                        None
                    },
                    rules,
                },
            ),
            _ => None,
        }
    }
}

/// Whether evidence, where there is some, is what was expected.
pub open spec fn found_is(r: Option<Evidence>, expected: Option<Found>) -> bool {
    match expected {
        Some(found) => r matches Some(got) && got@ == found,
        None => r is None,
    }
}

/// The evidence of an everyday file or folder.
pub fn everyday_evidence(
    path: &FsPath,
    meta: &EntryMeta,
    kind: &str,
    rules: Rules,
    version: u32,
) -> (r: Option<Evidence>)
    ensures
        found_is(r, everyday_found(path@, *meta, kind@, rules, version)),
{
    if meta.is_file() && meta.identity.size < rules.minimum_bytes {
        return None;
    }
    let words: (&'static str, &'static str) = match everyday_words(kind) {
        Some(words) => words,
        None => {
            return None;
        },
    };
    let name: String = match file_name(path_bytes(path)) {
        Some(name) => shown_text(name),
        None => {
            return None;
        },
    };
    let title: String = if same_text(kind, "cache") {
        joined(name.as_str(), " cache")
    } else if same_text(kind, "xcode") {
        joined(name.as_str(), " Xcode data")
    } else {
        name
    };
    Some(
        Evidence {
            kind: kind.to_owned(),
            title,
            explanation: words.0.to_owned(),
            consequence: words.1.to_owned(),
            fingerprint: version_text(kind, version),
            blocked: None,
            latest_modified_ns: meta.identity.modified_ns,
            quiet_days: rules.quiet_days,
            activity_root: if rules.checks_activity {
                Some(share(path))
            } else {
                None
            },
            rules,
        },
    )
}

/// Whether a step finds what was expected.
pub open spec fn step_finds(r: Step<Option<Evidence>>, expected: Got<Option<Found>>) -> bool {
    match expected {
        Got::Need(at, ask) => r matches Step::Need(p, a) && p@ == at && a == ask,
        Got::Fail(reason) => r matches Step::Fail(text) && text@ == reason,
        Got::Have(found) => r matches Step::Have(got) && found_is(got, found),
    }
}

/// The fingerprint of an account.
pub open spec fn fingerprint(account: Account) -> Seq<char> {
    hex(blake3_digest(account.transcript))
}

pub(crate) fn fingerprint_text(tally: &Tally) -> (r: String)
    ensures
        r@ == fingerprint(tally.account()),
{
    hex_text(&digest_of(tally.transcript.as_slice()))
}

/// The one file that marks an artifact: nothing, where it is missing or a link.
pub open spec fn marker_step(seen: Sources, marker: Seq<u8>) -> Got<Option<EvidenceSource>> {
    match seen.presence(marker) {
        Got::Need(path, ask) => Got::Need(path, ask),
        Got::Fail(reason) => Got::Fail(reason),
        Got::Have(there) => if !there {
            Got::Have(None)
        } else {
            match seen.regularity(marker) {
                Got::Need(path, ask) => Got::Need(path, ask),
                Got::Fail(reason) => Got::Fail(reason),
                Got::Have(regular) => if !regular {
                    Got::Have(None)
                } else {
                    match seen.capture(marker) {
                        Got::Need(path, ask) => Got::Need(path, ask),
                        Got::Fail(reason) => Got::Fail(reason),
                        Got::Have(source) => Got::Have(Some(source)),
                    }
                },
            }
        },
    }
}

fn read_marker<'a>(seen: &'a Sources, marker: &FsPath) -> (r: Step<Option<&'a EvidenceSource>>)
    ensures
        match marker_step(*seen, marker@) {
            Got::Need(at, ask) => r matches Step::Need(p, a) && p@ == at && a == ask,
            Got::Fail(reason) => r matches Step::Fail(text) && text@ == reason,
            Got::Have(None) => r matches Step::Have(got) && got is None,
            Got::Have(Some(source)) => r matches Step::Have(Some(got)) && *got == source,
        },
{
    match seen.path_exists(marker) {
        Step::Need(p, a) => {
            return Step::Need(p, a);
        },
        Step::Fail(reason) => {
            return Step::Fail(reason);
        },
        Step::Have(there) => {
            if !there {
                return Step::Have(None);
            }
        },
    }
    // A linked marker cannot identify a folder.
    match seen.is_regular(marker) {
        Step::Need(p, a) => {
            return Step::Need(p, a);
        },
        Step::Fail(reason) => {
            return Step::Fail(reason);
        },
        Step::Have(regular) => {
            if !regular {
                return Step::Have(None);
            }
        },
    }
    match seen.read_source(marker) {
        Step::Need(p, a) => Step::Need(p, a),
        Step::Fail(reason) => Step::Fail(reason),
        Step::Have(source) => Step::Have(Some(source)),
    }
}

/// The account of a marker file after a mark of the kind.
pub open spec fn marked_account(mark: Seq<u8>, path: Seq<u8>, source: EvidenceSource) -> Account {
    added(Account { transcript: mark, latest: 0 }, path, source)
}

/// What a Python environment is identified by: its own configuration file.
pub open spec fn venv_step(
    project: Seq<u8>,
    artifact: Seq<u8>,
    seen: Sources,
    rules: Rules,
    version: u32,
) -> Got<Option<Found>> {
    let marker = named(artifact, "pyvenv.cfg"@);
    match marker_step(seen, marker) {
        Got::Need(path, ask) => Got::Need(path, ask),
        Got::Fail(reason) => Got::Fail(reason),
        Got::Have(None) => Got::Have(None),
        Got::Have(Some(source)) => {
            let account = marked_account(
                encode_utf8(version_mark("venv"@, version)),
                marker,
                source,
            );
            Got::Have(
                Some(
                    Found {
                        kind: "venv"@,
                        title: shown_name(project, "Python project"@) + " Python environment"@,
                        explanation:
                            "A pyvenv.cfg file identifies this directory as a Python virtual environment created for the neighbouring project."@,
                        consequence:
                            "The environment must be recreated (for example with python -m venv) and its packages reinstalled before the project runs again. Source files outside this directory are preserved."@,
                        fingerprint: fingerprint(account),
                        blocked: None,
                        latest: account.latest,
                        quiet_days: DEVELOPER_QUIET_DAYS,
                        activity_root: Some(project),
                        rules,
                    },
                ),
            )
        },
    }
}

/// A named folder alone is not a Python environment. Only a configuration file
/// directly in it, reached without following any link, identifies one; anything
/// else leaves the folder an ordinary one.
pub fn venv_evidence(
    project: &FsPath,
    artifact: &FsPath,
    seen: &Sources,
    rules: Rules,
    version: u32,
    cancel: bool,
) -> (r: Step<Option<Evidence>>)
    ensures
        if cancel {
            r matches Step::Fail(text) && text@ == "Cancelled"@
        } else {
            step_finds(r, venv_step(project@, artifact@, *seen, rules, version))
        },
{
    if cancel {
        return Step::Fail("Cancelled".to_owned());
    }
    let marker: FsPath = join_text(artifact, "pyvenv.cfg");
    let source: &EvidenceSource = match read_marker(seen, &marker) {
        Step::Need(p, a) => {
            return Step::Need(p, a);
        },
        Step::Fail(reason) => {
            return Step::Fail(reason);
        },
        Step::Have(None) => {
            return Step::Have(None);
        },
        Step::Have(Some(source)) => source,
    };
    let mut tally: Tally = Tally::new();
    tally.add_bytes(version_text("venv", version).as_str().as_bytes());
    assert(tally.account().transcript =~= encode_utf8(version_mark("venv"@, version)));
    tally.add_evidence(&marker, source);
    Step::Have(
        Some(
            Evidence {
                kind: "venv".to_owned(),
                title: joined(
                    show_name(project, "Python project").as_str(),
                    " Python environment",
                ),
                explanation:
                    "A pyvenv.cfg file identifies this directory as a Python virtual environment created for the neighbouring project.".to_owned(),
                consequence:
                    "The environment must be recreated (for example with python -m venv) and its packages reinstalled before the project runs again. Source files outside this directory are preserved.".to_owned(),
                fingerprint: fingerprint_text(&tally),
                blocked: None,
                latest_modified_ns: tally.latest_modified_ns,
                quiet_days: DEVELOPER_QUIET_DAYS,
                activity_root: Some(share(project)),
                rules,
            },
        ),
    )
}

/// What is said of a generated build cache, by its folder's name.
pub open spec fn webcache_text(name: Seq<u8>) -> Option<Seq<char>> {
    if name == encode_utf8(".next"@) {
        Some(
            "The .next directory holds this project's generated build output and cache, identified by the project manifest beside it."@,
        )
    } else if name == encode_utf8(".nuxt"@) {
        Some(
            "The .nuxt directory holds this project's generated build output and cache, identified by the project manifest beside it."@,
        )
    } else if name == encode_utf8(".turbo"@) {
        Some(
            "The .turbo directory holds this project's task cache, identified by the project manifest beside it."@,
        )
    } else if name == encode_utf8(".parcel-cache"@) {
        Some(
            "The .parcel-cache directory holds this project's bundler cache, identified by the project manifest beside it."@,
        )
    } else {
        None
    }
}

fn webcache_words(name: &[u8]) -> (r: Option<&'static str>)
    ensures
        match webcache_text(name@) {
            Some(text) => r matches Some(got) && got@ == text,
            None => r is None,
        },
{
    if same_bytes(name, ".next".as_bytes()) {
        Some(
            "The .next directory holds this project's generated build output and cache, identified by the project manifest beside it.",
        )
    } else if same_bytes(name, ".nuxt".as_bytes()) {
        Some(
            "The .nuxt directory holds this project's generated build output and cache, identified by the project manifest beside it.",
        )
    } else if same_bytes(name, ".turbo".as_bytes()) {
        Some(
            "The .turbo directory holds this project's task cache, identified by the project manifest beside it.",
        )
    } else if same_bytes(name, ".parcel-cache".as_bytes()) {
        Some(
            "The .parcel-cache directory holds this project's bundler cache, identified by the project manifest beside it.",
        )
    } else {
        None
    }
}

/// What a generated build cache is identified by: the manifest beside it.
pub open spec fn webcache_step(
    project: Seq<u8>,
    artifact: Seq<u8>,
    seen: Sources,
    rules: Rules,
    version: u32,
) -> Got<Option<Found>> {
    match name_of(artifact) {
        None => Got::Have(None),
        Some(name) => match webcache_text(name) {
            None => Got::Have(None),
            Some(explanation) => {
                let manifest = named(project, "package.json"@);
                match marker_step(seen, manifest) {
                    Got::Need(path, ask) => Got::Need(path, ask),
                    Got::Fail(reason) => Got::Fail(reason),
                    Got::Have(None) => Got::Have(None),
                    Got::Have(Some(source)) => {
                        // Sibling caches share one manifest; the cache's own
                        // name keeps each folder's evidence distinct.
                        let account = marked_account(
                            encode_utf8(version_mark("webcache"@, version)) + name,
                            manifest,
                            source,
                        );
                        Got::Have(
                            Some(
                                Found {
                                    kind: "webcache"@,
                                    title: shown_name(project, "Web project"@) + " build cache"@,
                                    explanation,
                                    consequence:
                                        "The next build or dev run regenerates it; rebuild before serving this project. Source files outside this directory are preserved."@,
                                    fingerprint: fingerprint(account),
                                    blocked: None,
                                    latest: account.latest,
                                    quiet_days: DEVELOPER_QUIET_DAYS,
                                    activity_root: Some(project),
                                    rules,
                                },
                            ),
                        )
                    },
                }
            },
        },
    }
}

/// Generated web build caches are recognized only beside their project's own
/// manifest. A cache folder without that sibling, or with a linked one, stays an
/// ordinary folder.
pub fn webcache_evidence(
    project: &FsPath,
    artifact: &FsPath,
    seen: &Sources,
    rules: Rules,
    version: u32,
    cancel: bool,
) -> (r: Step<Option<Evidence>>)
    ensures
        if cancel {
            r matches Step::Fail(text) && text@ == "Cancelled"@
        } else {
            step_finds(r, webcache_step(project@, artifact@, *seen, rules, version))
        },
{
    if cancel {
        return Step::Fail("Cancelled".to_owned());
    }
    let name: &[u8] = match file_name(path_bytes(artifact)) {
        Some(name) => name,
        None => {
            return Step::Have(None);
        },
    };
    let explanation: &'static str = match webcache_words(name) {
        Some(explanation) => explanation,
        None => {
            return Step::Have(None);
        },
    };
    let manifest: FsPath = join_text(project, "package.json");
    let source: &EvidenceSource = match read_marker(seen, &manifest) {
        Step::Need(p, a) => {
            return Step::Need(p, a);
        },
        Step::Fail(reason) => {
            return Step::Fail(reason);
        },
        Step::Have(None) => {
            return Step::Have(None);
        },
        Step::Have(Some(source)) => source,
    };
    let mut tally: Tally = Tally::new();
    tally.add_bytes(version_text("webcache", version).as_str().as_bytes());
    tally.add_bytes(name);
    assert(tally.account().transcript =~= encode_utf8(version_mark("webcache"@, version)) + name@);
    tally.add_evidence(&manifest, source);
    Step::Have(
        Some(
            Evidence {
                kind: "webcache".to_owned(),
                title: joined(show_name(project, "Web project").as_str(), " build cache"),
                explanation: explanation.to_owned(),
                consequence:
                    "The next build or dev run regenerates it; rebuild before serving this project. Source files outside this directory are preserved.".to_owned(),
                fingerprint: fingerprint_text(&tally),
                blocked: None,
                latest_modified_ns: tally.latest_modified_ns,
                quiet_days: DEVELOPER_QUIET_DAYS,
                activity_root: Some(share(project)),
                rules,
            },
        ),
    )
}

/// A Python environment is found only by a regular configuration file directly in
/// the folder, which was read.
pub proof fn environments_need_their_file(
    project: Seq<u8>,
    artifact: Seq<u8>,
    seen: Sources,
    rules: Rules,
    version: u32,
)
    requires
        venv_step(project, artifact, seen, rules, version) matches Got::Have(Some(_)),
    ensures
        seen.presence(named(artifact, "pyvenv.cfg"@)) == Got::Have(true),
        seen.regularity(named(artifact, "pyvenv.cfg"@)) == Got::Have(true),
        seen.capture(named(artifact, "pyvenv.cfg"@)) is Have,
{
}

/// A web build cache is found only under one of the names that it has, and only
/// beside a regular manifest, which was read.
pub proof fn web_caches_need_their_manifest(
    project: Seq<u8>,
    artifact: Seq<u8>,
    seen: Sources,
    rules: Rules,
    version: u32,
)
    requires
        webcache_step(project, artifact, seen, rules, version) matches Got::Have(Some(_)),
    ensures
        name_of(artifact) matches Some(name) && webcache_text(name) is Some,
        seen.presence(named(project, "package.json"@)) == Got::Have(true),
        seen.regularity(named(project, "package.json"@)) == Got::Have(true),
        seen.capture(named(project, "package.json"@)) is Have,
{
}

} // verus!
