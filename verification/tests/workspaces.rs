use chippytea::manifest::{
    evaluate, manifest_workspaces, node_manifest, ManifestWorkspaceCache, MANIFEST_ENTRY_BYTES,
    MAX_MANIFEST_CACHE_BYTES, MAX_MANIFEST_CACHE_ENTRIES, MIN_MANIFEST_CACHE_BYTES,
    PATTERN_SLOT_BYTES,
};
use chippytea::pnpm::{pnpm_lock_owns, pnpm_workspace_patterns, visit_pnpm_importers, yaml_scalar};
use chippytea::pnpm_cache::{
    PnpmFacts, PnpmLockCache, MAX_PNPM_CACHE_BYTES, MIN_PNPM_CACHE_BYTES, PNPM_ENTRY_BYTES, PNPM_KEY_BYTES,
};
use chippytea::workspace::{workspace_component, workspace_includes, workspace_pattern};
use serde_json::Value;

type Answer<T> = Result<T, String>;

#[test]
fn workspace_component_globs_keep_literal_order_and_path_boundaries() {
    for (pattern, relative, expected) in [
        ("crates/plugin-*", "crates/plugin-a", true),
        ("crates/plugin-*", "crates/plugin-", true),
        ("crates/plugin-*", "crates/plugin-a/nested", false),
        ("crates/*-plugin", "crates/a-plugin", true),
        ("crates/*-plugin", "crates/plugin-a", false),
        ("crates/ad*pt*r", "crates/adapter", true),
        ("packages/*ab*bc", "packages/abc", false),
        ("packages/pre*mid*suf", "packages/pre-suf-mid-suf", true),
        ("packages/pre*mid*suf", "packages/pre-suf-mid", false),
        ("packages/é*-工具", "packages/éx-工具", true),
        ("packages/*-plugin", "packages/.hidden-plugin", false),
        ("packages/.*-plugin", "packages/.hidden-plugin", true),
        ("packages/*", "packages/.hidden", false),
        ("src/**/plugin-*", "src/deep/nested/plugin-a", true),
        ("src/**/plugin-*", "src/plugin-a", true),
        ("src/**/plugin-*", "src/.hidden/plugin-a", false),
        ("src/.hidden/**/plugin-*", "src/.hidden/plugin-a", true),
        ("src/**/.hidden/plugin-*", "src/outer/.hidden/plugin-a", true),
        ("./packages/*-ui/", "packages/example-ui", true),
    ] {
        assert_eq!(
            workspace_pattern(pattern, relative).unwrap(),
            expected,
            "{pattern:?} against {relative:?}"
        );
    }
}

#[test]
fn workspace_globs_keep_root_only_membership_negations_and_syntax_limits() {
    for pattern in [".", "./"] {
        assert!(workspace_pattern(pattern, "").unwrap());
        for nested in ["apps/member", ".", ".."] {
            assert!(!workspace_pattern(pattern, nested).unwrap());
        }
    }
    let patterns = [
        ".",
        "apps/*",
        "crates/plugin-*",
        "!apps/private-*",
        "!crates/*-internal",
    ]
    .map(str::to_owned);
    for relative in ["", "apps/public", "crates/plugin-browser"] {
        assert!(workspace_includes(&patterns, relative).unwrap());
    }
    for relative in [
        "apps/private-console",
        "crates/plugin-internal",
        "crates/other",
        "apps/public/nested",
        "other/member",
    ] {
        assert!(!workspace_includes(&patterns, relative).unwrap());
    }
    let patterns = ["apps/**".to_owned(), "!apps/*private".to_owned()];
    assert!(workspace_includes(&patterns, "apps/public").unwrap());
    assert!(!workspace_includes(&patterns, "apps/team-private").unwrap());
    assert!(!workspace_includes(&patterns, "apps/.private").unwrap());
    for unsupported in [
        "crates/pre**post",
        "crates/***",
        "crates/plugin-?",
        "crates/plugin-[ab]",
        "crates/{a,b}",
        "crates/plugin-!a",
        "crates/plugin-\\*",
        "crates/@(plugin)*",
        "crates/+(plugin)*",
        "crates/plugin(a)*",
        "crates/a|b*",
        "crates/../*",
        "crates/./*",
    ] {
        let patterns = ["apps/*".to_owned(), unsupported.to_owned()];
        assert!(
            workspace_includes(&patterns, "apps/member").is_err(),
            "An earlier match must not hide unsupported syntax: {unsupported}"
        );
    }
}

#[test]
fn pnpm_workspace_globs_require_quotes_for_yaml_alias_and_tag_prefixes() {
    assert!(pnpm_workspace_patterns(b"packages:\n  - *\n").is_err());
    assert!(pnpm_workspace_patterns(b"packages:\n  - !apps/private\n").is_err());
    let patterns =
        pnpm_workspace_patterns(b"packages:\n  - 'apps/*'\n  - '!apps/private'\n").unwrap();
    assert!(workspace_includes(&patterns, "apps/public").unwrap());
    assert!(!workspace_includes(&patterns, "apps/private").unwrap());
    assert_eq!(yaml_scalar("'*'").unwrap(), "*");
}

#[test]
fn a_component_never_matches_across_its_own_star_order() {
    assert!(workspace_component("a*b*c", "a-b-c"));
    assert!(!workspace_component("a*b*c", "a-c-b"));
    assert!(workspace_component("*", "anything"));
    assert!(!workspace_component("*", ".hidden"));
}

#[test]
fn too_many_patterns_are_refused() {
    let many = vec!["apps/*".to_owned(); 513];
    assert_eq!(
        workspace_includes(&many, "apps/member"),
        Err("Workspace membership exceeds the bounded evidence limit".into())
    );
    assert_eq!(workspace_includes(&many[..512], "apps/member"), Ok(true));
}

fn manifest_cacheable(source: &[u8]) -> Vec<u8> {
    let mut bytes = source.to_vec();
    bytes.resize(bytes.len().max(MIN_MANIFEST_CACHE_BYTES), b' ');
    bytes
}

fn workspaces_json(patterns: Vec<Value>) -> Vec<u8> {
    let mut object = serde_json::Map::new();
    object.insert("workspaces".into(), Value::Array(patterns));
    serde_json::to_vec(&Value::Object(object)).unwrap()
}

fn manifest_cache_document(patterns: &[&str]) -> Vec<u8> {
    manifest_cacheable(&workspaces_json(
        patterns.iter().map(|p| Value::String((*p).into())).collect(),
    ))
}

// The plain steps, instead of another way through a cache.
fn uncached_manifest_patterns(bytes: &[u8], relative: &str) -> Answer<(Vec<String>, bool)> {
    let manifest = node_manifest(bytes)?;
    let patterns = manifest_workspaces(&manifest)?;
    let included = workspace_includes(&patterns, relative)?;
    Ok((patterns, included))
}

fn digest(bytes: &[u8]) -> [u8; 32] {
    *blake3::hash(bytes).as_bytes()
}

fn assert_manifest_budget(cache: &ManifestWorkspaceCache) {
    let pattern_bytes: usize = cache
        .entries
        .iter()
        .map(|entry| {
            entry.patterns.len() * PATTERN_SLOT_BYTES
                + entry.patterns.iter().map(String::len).sum::<usize>()
        })
        .sum();
    assert_eq!(
        cache.retained_bytes,
        cache.entry_limit * MANIFEST_ENTRY_BYTES + pattern_bytes
    );
    assert!(cache.entries.len() <= cache.entry_limit);
    assert!(cache.entry_limit <= MAX_MANIFEST_CACHE_ENTRIES);
    assert!(cache.retained_bytes <= cache.byte_limit);
    assert!(cache.byte_limit <= MAX_MANIFEST_CACHE_BYTES);
}

fn assert_manifest_parity(source: &[u8], expected: Answer<bool>) {
    assert_eq!(
        uncached_manifest_patterns(source, "apps/member").map(|(_, included)| included),
        expected,
        "unexpected uncached result: {source:?}"
    );
    let padded = manifest_cacheable(source);
    for mut cache in [
        ManifestWorkspaceCache::new(),
        ManifestWorkspaceCache::with_limits(0, 0),
    ] {
        for _ in 0..2 {
            assert_eq!(
                cache.includes_captured(digest(&padded), &padded, "apps/member", false),
                expected,
            );
            assert_manifest_budget(&cache);
        }
        assert_eq!(
            cache.entries.len(),
            usize::from(expected.is_ok() && cache.entry_limit > 0)
        );
    }
}

#[test]
fn manifest_workspace_cache_preserves_json_recognition_and_error_priority() {
    let invalid = "package.json is not valid JSON";
    let object = "package.json is not an object";
    let project = "The package manifest does not identify a project";
    let list = "Workspace membership is not a supported list";
    let paths = "Workspace membership is not a list of paths";
    let local = "Workspace paths are not supported local relative patterns";
    let complex = "Complex workspace patterns need manual inspection";
    let limit = "Workspace membership exceeds the bounded evidence limit";
    let cases: &[(&[u8], Result<bool, &str>)] = &[
        (b"{", Err(invalid)),
        (b"[]", Err(object)),
        (b"null", Err(object)),
        (br#""name""#, Err(object)),
        (b"{}", Err(project)),
        (
            br#"{"peerDependencies":{},"scripts":{},"private":true}"#,
            Err(project),
        ),
        (br#"{"name":""}"#, Err(project)),
        (br#"{"name":" \t\u2003"}"#, Err(project)),
        (br#"{"name":"owner"}"#, Ok(false)),
        (br#"{"dependencies":{}}"#, Ok(false)),
        (br#"{"devDependencies":{}}"#, Ok(false)),
        (br#"{"optionalDependencies":{}}"#, Ok(false)),
        (br#"{"dependencies":[]}"#, Err(project)),
        (br#"{"workspaces":[]}"#, Ok(false)),
        (br#"{"workspaces":{}}"#, Err(list)),
        (br#"{"name":"owner","workspaces":null}"#, Err(list)),
        (br#"{"name":42,"workspaces":["apps/*"]}"#, Ok(true)),
        (
            br#"{"workspaces":{"packages":["apps/*"],"nohoist":7}}"#,
            Ok(true),
        ),
        (
            br#"{"workspaces":[false],"work\u0073paces":["apps/*"]}"#,
            Ok(true),
        ),
        (
            br#"{"workspaces":["apps/*"],"workspaces":["other/*"]}"#,
            Ok(false),
        ),
        (
            br#"{"workspaces":{"packages":[false],"pack\u0061ges":["apps/*"]}}"#,
            Ok(true),
        ),
        (
            br#"{"name":"owner","name":"","workspaces":null}"#,
            Err(project),
        ),
        (br#"{"dependencies":{},"dependencies":null}"#, Err(project)),
        (
            br#"{"name":"owner","metadata":[},"metadata":0}"#,
            Err(invalid),
        ),
        (br#"{"name":"owner","metadata":1e999}"#, Err(invalid)),
        (br#"{"name":"owner","metadata":"\ud800"}"#, Err(invalid)),
        (b"{\"name\":\"owner\",\"metadata\":\"\xff\"}", Err(invalid)),
        (br#"{"name":"owner"} trailing"#, Err(invalid)),
        (br#"{"workspaces":["bad?",7]}"#, Err(paths)),
        (br#"{"workspaces":["apps/*","bad?"]}"#, Err(complex)),
        (br#"{"workspaces":["!apps/*","bad?"]}"#, Err(complex)),
        (br#"{"workspaces":["/bad","bad?"]}"#, Err(local)),
        (br#"{"workspaces":["bad?","/bad"]}"#, Err(complex)),
    ];
    for (source, expected) in cases {
        assert_manifest_parity(source, expected.map_err(str::to_owned));
    }
    let mut patterns = vec![Value::String("apps/*".into()); 513];
    patterns[0] = Value::String("bad?".into());
    assert_manifest_parity(&workspaces_json(patterns.clone()), Err(limit.into()));
    patterns[512] = Value::Bool(false);
    assert_manifest_parity(&workspaces_json(patterns), Err(paths.into()));
    let deep = format!(
        "{{\"name\":\"owner\",\"metadata\":{}0{}}}",
        "[".repeat(256),
        "]".repeat(256)
    );
    assert_manifest_parity(deep.as_bytes(), Err(invalid.into()));
}

#[test]
fn manifest_workspace_cache_rechecks_relative_paths_and_changed_digests() {
    let source = manifest_cache_document(&[
        ".",
        "apps/*",
        "!apps/private-*",
        "src/**/plugin-*",
        "packages/é*-工具",
        "visible/.hidden/*",
    ]);
    let mut cache = ManifestWorkspaceCache::new();
    for (relative, expected) in [
        ("unrelated", false), // A list that does not match is still kept.
        ("apps/member", true),
        ("apps/private-tool", false),
        ("apps/.hidden", false),
        ("apps/member/nested", false),
        ("", true),
        (".", false),
        ("src/deep/plugin-example", true),
        ("src/.hidden/plugin-example", false),
        ("packages/éx-工具", true),
        ("packages/e\u{301}x-工具", false),
        ("visible/.hidden/member", true),
    ] {
        assert_eq!(
            cache.includes_captured(digest(&source), &source, relative, false),
            Ok(expected)
        );
        assert_eq!(
            uncached_manifest_patterns(&source, relative).unwrap().1,
            expected
        );
        assert_eq!(cache.entries.len(), 1);
        assert_manifest_budget(&cache);
    }
    assert_eq!(
        cache.entries[0].patterns,
        manifest_workspaces(&node_manifest(&source).unwrap()).unwrap()
    );
    let changed = String::from_utf8(source.clone())
        .unwrap()
        .replace("apps/*", "else/*")
        .into_bytes();
    assert_eq!(source.len(), changed.len());
    assert_eq!(
        cache.includes_captured(digest(&changed), &changed, "apps/member", false),
        Ok(false)
    );
    assert_eq!(
        cache.includes_captured(digest(&source), &source, "apps/member", false),
        Ok(true)
    );
    assert_eq!(cache.entries.len(), 2);
    assert_manifest_budget(&cache);
}

#[test]
fn manifest_workspace_cache_charges_capacities_and_evicts_lru_entries() {
    let [a, b, c] = ["a/*", "b/*", "c/*"].map(|pattern| manifest_cache_document(&[pattern]));
    let mut cache = ManifestWorkspaceCache::with_limits(2, 4096);
    for source in [&a, &b, &a, &c] {
        assert_eq!(
            cache.includes_captured(digest(source), source, "missing", false),
            Ok(false)
        );
        assert_manifest_budget(&cache);
    }
    assert_eq!(cache.entries.len(), 2);
    assert_eq!(cache.entries[0].digest, digest(&a));
    assert_eq!(cache.entries[1].digest, digest(&c));

    let apps = manifest_cache_document(&["apps/*"]);
    let parsed = || evaluate(&apps, "apps/member");
    let (patterns, included) = parsed().unwrap();
    assert!(included);
    let heap_bytes = patterns.len() * PATTERN_SLOT_BYTES + patterns[0].len();
    let budget = MANIFEST_ENTRY_BYTES + heap_bytes;
    let mut exact = ManifestWorkspaceCache::with_limits(1, budget);
    assert_eq!(
        exact.finish_miss(digest(&apps), &apps, parsed(), false),
        Ok(true)
    );
    assert_eq!(exact.retained_bytes, budget);
    assert_manifest_budget(&exact);
    let mut too_small = ManifestWorkspaceCache::with_limits(1, budget - 1);
    assert_eq!(
        too_small.finish_miss(digest(&apps), &apps, parsed(), false),
        Ok(true)
    );
    assert!(too_small.entries.is_empty());
    assert_manifest_budget(&too_small);

    let mut bytes_limited = ManifestWorkspaceCache::with_limits(
        2,
        2 * MANIFEST_ENTRY_BYTES + cache.entries[0].heap_bytes().unwrap(),
    );
    for source in [&a, &b] {
        assert_eq!(
            bytes_limited.includes_captured(digest(source), source, "missing", false),
            Ok(false)
        );
        assert_manifest_budget(&bytes_limited);
    }
    assert_eq!(bytes_limited.entries.len(), 1);
    assert_eq!(bytes_limited.entries[0].digest, digest(&b));
}

#[test]
fn manifest_workspace_cache_oversized_valid_patterns_never_evict() {
    let small = manifest_cache_document(&["apps/*"]);
    let mut cache = ManifestWorkspaceCache::new();
    assert!(cache
        .includes_captured(digest(&small), &small, "apps/member", false)
        .unwrap());
    let retained = cache.retained_bytes;
    // The matcher trims trailing slashes before its length check.
    let long = format!("apps/*{}", "/".repeat(MAX_MANIFEST_CACHE_BYTES + 1));
    let oversized = manifest_cache_document(&[&long]);
    for (relative, expected) in [("apps/member", true), ("other/member", false)] {
        assert_eq!(
            uncached_manifest_patterns(&oversized, relative).unwrap().1,
            expected
        );
        assert_eq!(
            cache.includes_captured(digest(&oversized), &oversized, relative, false),
            Ok(expected)
        );
        assert_eq!(cache.retained_bytes, retained);
        assert_eq!(cache.entries.len(), 1);
        assert_eq!(cache.entries[0].digest, digest(&small));
    }
    let invalid = manifest_cache_document(&[&long, "bad?"]);
    assert_eq!(
        cache.includes_captured(digest(&invalid), &invalid, "apps/member", false),
        Err("Complex workspace patterns need manual inspection".into())
    );
    assert_eq!(cache.retained_bytes, retained);
    assert_eq!(cache.entries[0].digest, digest(&small));
    assert_manifest_budget(&cache);
}

#[test]
fn manifest_workspace_cache_bypasses_small_inputs_and_disabled_budgets() {
    let source = br#"{"workspaces":["apps/*"]}"#;
    for length in [
        MIN_MANIFEST_CACHE_BYTES - 1,
        MIN_MANIFEST_CACHE_BYTES,
        MIN_MANIFEST_CACHE_BYTES + 1,
    ] {
        let mut bytes = source.to_vec();
        bytes.resize(length, b' ');
        let mut cache = ManifestWorkspaceCache::new();
        for _ in 0..2 {
            assert_eq!(
                cache.includes_captured(digest(&bytes), &bytes, "apps/member", false),
                Ok(true)
            );
        }
        assert_eq!(
            cache.entries.len(),
            usize::from(length >= MIN_MANIFEST_CACHE_BYTES)
        );
        assert_manifest_budget(&cache);
    }
    let large = manifest_cacheable(source);
    for (entries, bytes) in [(0, 4096), (8, 0), (8, MANIFEST_ENTRY_BYTES - 1)] {
        let mut cache = ManifestWorkspaceCache::with_limits(entries, bytes);
        assert_eq!(
            cache.includes_captured(digest(&large), &large, "apps/member", false),
            Ok(true)
        );
        assert!(cache.entries.is_empty());
        assert_manifest_budget(&cache);
    }
    assert_manifest_budget(&ManifestWorkspaceCache::with_limits(usize::MAX, usize::MAX));
}

#[test]
fn manifest_workspace_cache_cancellation_preserves_error_priority_and_state() {
    let [a, b, c] = ["a/*", "b/*", "c/*"].map(|pattern| manifest_cache_document(&[pattern]));
    let mut cache = ManifestWorkspaceCache::new();
    for source in [&a, &b] {
        cache
            .includes_captured(digest(source), source, "missing", false)
            .unwrap();
    }
    let digests: Vec<[u8; 32]> = cache.entries.iter().map(|entry| entry.digest).collect();
    let retained = cache.retained_bytes;
    for source in [&a[..], &b[..], &c[..], b"\xff"] {
        assert_eq!(
            cache.includes_captured(digest(source), source, "a/member", true),
            Err("Cancelled".into())
        );
    }
    // A stop that is requested after the evaluation never hides its failure.
    for source in [
        a.as_slice(),
        c.as_slice(),
        b"\xff",
        br#"{"workspaces":{}}"#,
        br#"{"workspaces":["bad?",7]}"#,
        br#"{"workspaces":["a/*","bad?"]}"#,
    ] {
        let parsed = uncached_manifest_patterns(source, "a/member");
        let expected = match &parsed {
            Ok(_) => Err("Cancelled".into()),
            Err(error) => Err(error.clone()),
        };
        assert_eq!(
            cache.finish_miss(digest(source), source, parsed, true),
            expected
        );
    }
    assert_eq!(cache.retained_bytes, retained);
    assert_eq!(
        cache
            .entries
            .iter()
            .map(|entry| entry.digest)
            .collect::<Vec<[u8; 32]>>(),
        digests
    );
    assert_manifest_budget(&cache);
}

#[test]
fn a_cache_that_takes_its_own_digest_answers_alike() {
    let source = manifest_cache_document(&["apps/*"]);
    let mut cache = ManifestWorkspaceCache::new();
    assert_eq!(cache.includes(&source, "apps/member", false), Ok(true));
    assert_eq!(cache.includes(&source, "other/member", false), Ok(false));
    assert_eq!(cache.entries.len(), 1);
    let lock = pnpm_cache_document("a");
    let mut locks = PnpmLockCache::new();
    assert_eq!(locks.owns(&lock, "a", false), Ok(true));
    assert_eq!(locks.owns(&lock, "b", false), Ok(false));
    assert_eq!(locks.entries.len(), 1);
}

// The grammar once more, line by line, apart from the visitor and its facts.
fn line_scalar(value: &str) -> Answer<&str> {
    let value = value.trim();
    let value = if value.len() >= 2
        && ((value.starts_with('\'') && value.ends_with('\''))
            || (value.starts_with('"') && value.ends_with('"')))
    {
        &value[1..value.len() - 1]
    } else {
        if value.starts_with(['*', '!']) {
            return Err("YAML aliases and tags cannot establish workspace ownership".into());
        }
        value
    };
    if value.is_empty()
        || value.contains(['\'', '"', '\\', '#', '&', '|', '>', '{', '}', '[', ']'])
    {
        return Err("Complex pnpm workspace evidence needs manual inspection".into());
    }
    Ok(value)
}

fn line_by_line_owns(bytes: &[u8], relative: &str) -> Answer<bool> {
    let text = std::str::from_utf8(bytes).map_err(|_| "The pnpm lockfile is not UTF-8")?;
    let mut version = false;
    let mut importers = false;
    let mut saw_importers = false;
    let mut owns = false;
    let mut packages = false;
    for line in text.lines() {
        if line.trim().is_empty() || line.trim_start().starts_with('#') {
            continue;
        }
        if let Some(value) = line.strip_prefix("lockfileVersion:") {
            if version {
                return Err("Duplicate pnpm lockfile version is ambiguous".into());
            }
            if !matches!(line_scalar(value)?, "6.0" | "9.0") {
                return Err("This pnpm lockfile version needs manual inspection".into());
            }
            version = true;
        }
        if !line.starts_with(' ') {
            importers = line == "importers:";
            if importers {
                if saw_importers {
                    return Err("Duplicate pnpm importers are ambiguous".into());
                }
                saw_importers = true;
            }
            packages |= line == "packages:" || line == "packages: {}";
        } else if importers && line.starts_with("  ") && !line.starts_with("   ") {
            let key = line
                .trim()
                .strip_suffix(": {}")
                .or_else(|| line.trim().strip_suffix(':'))
                .ok_or("Complex pnpm importer evidence needs manual inspection")?;
            owns |= line_scalar(key)? == if relative.is_empty() { "." } else { relative };
        }
    }
    if !version || !saw_importers || !packages {
        return Err("The pnpm lockfile lacks recognized importer and package evidence".into());
    }
    Ok(owns)
}

fn pnpm_cacheable(source: &[u8]) -> Vec<u8> {
    // Prefix an ignored blank line instead of changing the last line's exact
    // whitespace or turning a final lone CR into a CRLF terminator.
    let mut bytes = Vec::new();
    if source.len() < MIN_PNPM_CACHE_BYTES {
        bytes.resize(MIN_PNPM_CACHE_BYTES - source.len() - 1, b' ');
        bytes.push(b'\n');
    }
    bytes.extend_from_slice(source);
    bytes
}

fn pnpm_cache_document(key: &str) -> Vec<u8> {
    pnpm_cacheable(
        format!("lockfileVersion: '9.0'\nimporters:\n  '{key}': {{}}\npackages: {{}}\n").as_bytes(),
    )
}

fn assert_pnpm_budget(cache: &PnpmLockCache) {
    let actual = cache.entry_limit * PNPM_ENTRY_BYTES
        + cache
            .entries
            .iter()
            .map(|entry| entry.facts.heap_bytes())
            .sum::<usize>();
    assert_eq!(cache.retained_bytes, actual);
    assert!(actual <= cache.byte_limit);
    assert!(cache.entries.len() <= cache.entry_limit);
}

fn assert_pnpm_parity(source: &[u8]) {
    let padded = pnpm_cacheable(source);
    let mut cache = PnpmLockCache::new();
    let mut disabled = PnpmLockCache::with_limits(0, 0);
    for relative in [
        "", ".", "./", "a", "b", "a/b", "a/", "é", "e\u{301}", "a\0b", "missing",
    ] {
        let expected = line_by_line_owns(source, relative);
        assert_eq!(line_by_line_owns(&padded, relative), expected);
        assert_eq!(pnpm_lock_owns(source, relative), expected);
        assert_eq!(
            disabled.owns_captured(digest(&padded), &padded, relative, false),
            expected,
        );
        for _ in 0..2 {
            assert_eq!(
                cache.owns_captured(digest(&padded), &padded, relative, false),
                expected,
                "pnpm cache parity for {relative:?}: {source:?}",
            );
        }
    }
    assert_pnpm_budget(&cache);
    assert_pnpm_budget(&disabled);
    assert!(disabled.entries.is_empty());
    if line_by_line_owns(source, "").is_err() {
        assert!(cache.entries.is_empty());
    } else {
        assert_eq!(cache.entries.len(), 1);
    }
}

#[test]
fn pnpm_fact_cache_preserves_original_grammar_and_error_order() {
    let shape = "The pnpm lockfile lacks recognized importer and package evidence";
    let scalar = "Complex pnpm workspace evidence needs manual inspection";
    let importer = "Complex pnpm importer evidence needs manual inspection";
    let alias = "YAML aliases and tags cannot establish workspace ownership";
    let duplicate_version = "Duplicate pnpm lockfile version is ambiguous";
    let duplicate_importers = "Duplicate pnpm importers are ambiguous";
    let cases: &[(&[u8], Result<bool, &str>)] = &[
        (b"lockfileVersion: '9.0'\nimporters:\n  .: {}\n  a: {}\npackages: {}\n", Ok(true)),
        (b"packages:\nlockfileVersion: \"6.0\"\nimporters:\n  a:\n    dependencies: {}\n", Ok(true)),
        (b"lockfileVersion: 9.0\r\nimporters:\r\n  a: {}\r\npackages: {}\r\n", Ok(true)),
        (b"lockfileVersion: 9.0\nimporters:\n  a: {}\n  a:\npackages: {}\npackages:\n", Ok(true)),
        (b"lockfileVersion: 9.0\nimporters:\n  b: {}\npackages: {}\n", Ok(false)),
        (b"lockfileVersion: 9.0\nimporters:\n  a: {}\n  # preserve section\n\n  b: {}\npackages:\n", Ok(true)),
        (b"lockfileVersion: 9.0\nimporters:\n  \ta: {}\npackages:\n", Ok(true)),
        (b"lockfileVersion: 9.0\nimporters:\n a: {}\n   a: {}\npackages:\n", Ok(false)),
        (b"lockfileVersion: 9.0\nimporters:\n\tother:\n  a: {}\npackages:\n", Ok(false)),
        (b"lockfileVersion: 9.0\nimporters:\n  a: {}\npackages:\nnot generally valid YAML: [\n", Ok(true)),
        (b"lockfileVersion: 9.0\nimporters:\n  a: {}\n   malformed: [\npackages:\n", Ok(true)),
        (b"lockfileVersion: 9.0\nimporters:\n  a: {}\npackages: {}", Ok(true)),
        (b"", Err(shape)),
        (b"lockfileVersion: 9.0\nimporters:\n  a: {}\n", Err(shape)),
        (b"lockfileVersion: 9.0\nimporters: \n  a: {}\npackages:\n", Err(shape)),
        (b"lockfileVersion: 9.0\nimporters:\n  a: {}\npackages: {} \n", Err(shape)),
        (b"lockfileVersion: 8.0\nimporters:\n  a: {}\npackages:\n", Err("This pnpm lockfile version needs manual inspection")),
        (b"lockfileVersion: 9.0\nimporters:\n  a: {}\nlockfileVersion: *broken\npackages:\n", Err(duplicate_version)),
        (b"lockfileVersion: 9.0\nimporters:\n  a: {}\nimporters:\npackages:\n", Err(duplicate_importers)),
        (b"lockfileVersion: 9.0\nimporters:\n  a: {}\n  *alias: {}\npackages:\n", Err(alias)),
        (b"lockfileVersion: 9.0\nimporters:\n  a: {}\n  !tag: {}\npackages:\n", Err(alias)),
        (b"lockfileVersion: 9.0\nimporters:\n  a: {}\n  '': {}\npackages:\n", Err(scalar)),
        (b"lockfileVersion: 9.0\nimporters:\n  a: {}\n  'a\\b': {}\npackages:\n", Err(scalar)),
        (b"lockfileVersion: 9.0\nimporters:\n  a: {}\n  b: null\npackages:\n", Err(importer)),
        (b"lockfileVersion: 9.0\nimporters:\n  a: {}\n  b:{}\npackages:\n", Err(importer)),
        (b"lockfileVersion: 9.0\nimporters:\n  a: {}\n  b: { }\npackages:\n", Err(importer)),
        (b"lockfileVersion: 9.0\nimporters:\n  a: {}\n  b: {} # inline\npackages:\n", Err(importer)),
        (b"lockfileVersion: 8.0\nimporters:\n  a: {}\npackages:\n\xff", Err("The pnpm lockfile is not UTF-8")),
    ];
    for (source, expected) in cases {
        assert_eq!(
            line_by_line_owns(source, "a"),
            expected.map_err(str::to_owned),
            "unexpected result of the plain walk: {source:?}",
        );
        assert_pnpm_parity(source);
    }
    // Adding cache padding must not normalize unsupported final lone CRs.
    assert_pnpm_parity(b"lockfileVersion: 9.0\nimporters:\n  a: {}\npackages:\r");
}

#[test]
fn pnpm_fact_cache_preserves_scalar_bytes_roots_and_duplicate_or_semantics() {
    let source = [
        "lockfileVersion: 9.0\nimporters:\n",
        "  '.': {}\n  './': {}\n  a: {}\n  a:\n",
        "  'a/b': {}\n  'a: b': {}\n  ' padded ': {}\n",
        "  '*literal': {}\n  '!literal': {}\n  'tab\tkey': {}\n",
        "  'é': {}\n  'e\u{301}': {}\n  'a\0b': {}\npackages:\n",
    ]
    .concat();
    let padded = pnpm_cacheable(source.as_bytes());
    let mut cache = PnpmLockCache::new();
    for (relative, expected) in [
        ("", true),
        (".", true),
        ("./", true),
        ("a", true),
        ("a/b", true),
        ("a: b", true),
        (" padded ", true),
        ("padded", false),
        ("*literal", true),
        ("!literal", true),
        ("tab\tkey", true),
        ("é", true),
        ("e\u{301}", true),
        ("a\0b", true),
        ("a\0", false),
        ("a/b/c", false),
        ("missing", false),
    ] {
        assert_eq!(line_by_line_owns(source.as_bytes(), relative), Ok(expected));
        assert_eq!(pnpm_lock_owns(source.as_bytes(), relative), Ok(expected));
        for _ in 0..2 {
            assert_eq!(
                cache.owns_captured(digest(&padded), &padded, relative, false),
                Ok(expected)
            );
        }
    }
    assert_eq!(cache.entries[0].facts.keys.len(), 12);
    assert_pnpm_budget(&cache);
    let without_root = pnpm_cache_document("a");
    assert!(!cache
        .owns_captured(digest(&without_root), &without_root, "", false)
        .unwrap());
}

#[test]
fn pnpm_fact_cache_budgets_lru_and_oversized_evidence() {
    let [a, b, c] = ["a", "b", "c"].map(pnpm_cache_document);
    let mut cache = PnpmLockCache::with_limits(2, 4096);
    for (source, key) in [(&a, "a"), (&b, "b"), (&a, "a"), (&c, "c")] {
        assert!(cache
            .owns_captured(digest(source), source, key, false)
            .unwrap());
        assert_pnpm_budget(&cache);
    }
    assert_eq!(cache.entries.len(), 2);
    assert_eq!(cache.entries[0].digest, digest(&a));
    assert_eq!(cache.entries[1].digest, digest(&c));

    let budget = 2 * PNPM_ENTRY_BYTES + PNPM_KEY_BYTES + 1;
    let mut cache = PnpmLockCache::with_limits(2, budget);
    for (source, key) in [(&a, "a"), (&b, "b")] {
        assert!(cache
            .owns_captured(digest(source), source, key, false)
            .unwrap());
        assert_pnpm_budget(&cache);
    }
    assert_eq!(cache.entries.len(), 1);
    let retained = cache.retained_bytes;
    let long = "x".repeat(2048);
    let oversized = pnpm_cacheable(
        format!("lockfileVersion: 9.0\nimporters:\n  {long}: {{}}\n  later: {{}}\npackages:\n")
            .as_bytes(),
    );
    for relative in [long.as_str(), "later", "", "missing"] {
        assert_eq!(
            cache.owns_captured(digest(&oversized), &oversized, relative, false),
            line_by_line_owns(&oversized, relative),
        );
        assert_eq!(cache.retained_bytes, retained);
        assert_eq!(cache.entries.len(), 1);
        assert_eq!(cache.entries[0].digest, digest(&b));
    }
    let invalid = [oversized.as_slice(), b"importers:\n"].concat();
    assert_eq!(
        cache.owns_captured(digest(&invalid), &invalid, "later", false),
        line_by_line_owns(&invalid, "later"),
    );
    assert!(line_by_line_owns(&invalid, "later").is_err());
    assert_eq!(cache.retained_bytes, retained);
    assert_eq!(cache.entries[0].digest, digest(&b));
    assert_pnpm_budget(&cache);
}

#[test]
fn pnpm_fact_cache_bounded_collection_keeps_late_members_and_errors() {
    let mut source = String::from("lockfileVersion: 9.0\nimporters:\n");
    for _ in 0..=MAX_PNPM_CACHE_BYTES / 16 {
        source.push_str("  a: {}\n");
    }
    source.push_str("  later: {}\npackages:\n");
    let mut cache = PnpmLockCache::new();
    let retained = cache.retained_bytes;
    for relative in ["a", "later", "", "missing"] {
        assert_eq!(
            cache.owns_captured(
                digest(source.as_bytes()),
                source.as_bytes(),
                relative,
                false
            ),
            line_by_line_owns(source.as_bytes(), relative),
        );
        assert!(cache.entries.is_empty());
        assert_eq!(cache.retained_bytes, retained);
    }
    source.push_str("lockfileVersion: broken\n");
    assert_eq!(
        cache.owns_captured(digest(source.as_bytes()), source.as_bytes(), "a", false),
        Err("Duplicate pnpm lockfile version is ambiguous".into()),
    );
    assert!(cache.entries.is_empty());
    assert_pnpm_budget(&cache);
}

#[test]
fn pnpm_fact_cache_small_inputs_disabled_budgets_and_cancellation() {
    let large = pnpm_cache_document("a");
    let small = b"lockfileVersion: 9.0\nimporters:\n  a: {}\npackages:\n";
    let mut cache = PnpmLockCache::new();
    for source in [small.as_slice(), &large[1..]] {
        assert!(cache
            .owns_captured(digest(source), source, "a", false)
            .unwrap());
        assert!(cache.entries.is_empty());
    }
    assert!(cache
        .owns_captured(digest(&large), &large, "a", false)
        .unwrap());
    let b = pnpm_cache_document("b");
    assert!(cache.owns_captured(digest(&b), &b, "b", false).unwrap());
    let digests: Vec<[u8; 32]> = cache.entries.iter().map(|entry| entry.digest).collect();
    let retained = cache.retained_bytes;
    for source in [small.as_slice(), large.as_slice(), b.as_slice(), b"\xff"] {
        assert_eq!(
            cache.owns_captured(digest(source), source, "a", true),
            Err("Cancelled".into()),
        );
    }
    assert_eq!(cache.retained_bytes, retained);
    assert_eq!(
        cache
            .entries
            .iter()
            .map(|entry| entry.digest)
            .collect::<Vec<[u8; 32]>>(),
        digests
    );
    assert!(cache
        .owns_captured(digest(&large), &large, "a", false)
        .unwrap());
    assert_pnpm_budget(&cache);
    for (entries, bytes) in [(0, 4096), (8, 0), (8, PNPM_ENTRY_BYTES - 1)] {
        let mut disabled = PnpmLockCache::with_limits(entries, bytes);
        for source in [small.as_slice(), large.as_slice(), b"\xff"] {
            assert_eq!(
                disabled.owns_captured(digest(source), source, "a", false),
                line_by_line_owns(source, "a"),
            );
        }
        assert!(disabled.entries.is_empty());
        assert_pnpm_budget(&disabled);
    }
}

#[test]
fn pnpm_importer_visitor_finishes_validation_after_cancellation_is_requested() {
    let source = b"lockfileVersion: 9.0\nimporters:\n  a: {}\n  b: {}\n  invalid: null\npackages:\n";
    let visited = visit_pnpm_importers(source);
    assert_eq!(visited.keys, ["a", "b"]);
    assert_eq!(visited.outcome, line_by_line_owns(source, "a").map(|_| ()));
    assert_eq!(
        visited.outcome,
        Err("Complex pnpm importer evidence needs manual inspection".into())
    );
    let mut cache = PnpmLockCache::new();
    assert_eq!(
        cache.owns_captured(digest(source), source, "a", true),
        Err("Cancelled".into()),
    );
    assert!(cache.entries.is_empty());
}

#[test]
fn facts_of_a_lockfile_answer_within_any_limit() {
    let bytes = b"lockfileVersion: 9.0\nimporters:\n  .: {}\n  apps/b: {}\n  apps/a: {}\n  apps/b: {}\npackages:\n";
    // One dot, and three names of six bytes, each with its range.
    let room = 1 + 3 * 6 + 4 * PNPM_KEY_BYTES;
    for (limit, retained) in [(0, false), (room - 1, false), (room, true), (usize::MAX, true)] {
        let (owns, facts) = PnpmFacts::capture(bytes, "apps/a", limit).unwrap();
        assert!(owns);
        assert_eq!(facts.is_some(), retained, "{limit}");
        if let Some(facts) = facts {
            assert!(facts.heap_bytes() <= limit);
            for relative in ["", ".", "apps/a", "apps/b", "apps/c", "apps"] {
                assert_eq!(
                    Ok(facts.owns(relative)),
                    pnpm_lock_owns(bytes, relative),
                    "{relative}"
                );
            }
        }
    }
}
