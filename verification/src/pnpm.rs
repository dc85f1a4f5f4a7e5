//! What pnpm's workspace file and lockfile say, in a deliberately limited grammar.
use crate::text::{
    any_char, begins, byte_len, chars_are, chars_begin, chars_end, chars_of, covers, ends, fail,
    failed, has_any, lines, same_text, split_lines, text_of, trim, trim_start, trimmed,
    trimmed_start, utf8_text, Span,
};
use vstd::prelude::*;
use vstd::slice::slice_subrange;
use vstd::utf8::{decode_utf8, encode_utf8, valid_utf8};

verus! {

pub open spec fn quoted_by(s: Seq<char>, mark: char) -> bool {
    s.len() >= 2 && s[0] == mark && s.last() == mark
}

/// What a simple scalar says: its quotes, if it has any, are dropped, and
/// anything that needs more of YAML is refused.
pub open spec fn scalar_outcome(value: Seq<char>) -> Result<Seq<char>, Seq<char>> {
    let v = trim(value);
    let quoted = quoted_by(v, '\'') || quoted_by(v, '"');
    let inner = if quoted {
        v.subrange(1, v.len() - 1)
    } else {
        v
    };
    if !quoted && v.len() > 0 && (v[0] == '*' || v[0] == '!') {
        Err("YAML aliases and tags cannot establish workspace ownership"@)
    } else if inner.len() == 0 || has_any(inner, "'\"\\#&|>{}[]"@) {
        Err("Complex pnpm workspace evidence needs manual inspection"@)
    } else {
        Ok(inner)
    }
}

/// Whether an outcome is the text, or the failure, that a specification names.
pub open spec fn text_outcome(r: Result<String, String>, expected: Result<Seq<char>, Seq<char>>) -> bool {
    match expected {
        Ok(text) => r matches Ok(got) && got@ == text,
        Err(reason) => failed(r, reason),
    }
}

fn scalar_chars(value: &[char]) -> (r: Result<&[char], String>)
    ensures
        match scalar_outcome(value@) {
            Ok(text) => r matches Ok(got) && got@ == text,
            Err(reason) => failed(r, reason),
        },
{
    let v: &[char] = trimmed(value);
    let n: usize = v.len();
    let quoted: bool = n >= 2 && ((v[0] == '\'' && v[n - 1] == '\'') || (v[0] == '"' && v[n - 1]
        == '"'));
    if !quoted && n > 0 && (v[0] == '*' || v[0] == '!') {
        return fail("YAML aliases and tags cannot establish workspace ownership");
    }
    let inner: &[char] = if quoted {
        slice_subrange(v, 1, n - 1)
    } else {
        v
    };
    if inner.len() == 0 || any_char(inner, "'\"\\#&|>{}[]") {
        return fail("Complex pnpm workspace evidence needs manual inspection");
    }
    Ok(inner)
}

/// Reads one scalar of the limited grammar.
pub fn yaml_scalar(value: &str) -> (r: Result<String, String>)
    ensures
        text_outcome(r, scalar_outcome(value@)),
{
    let chars: Vec<char> = chars_of(value);
    match scalar_chars(chars.as_slice()) {
        Ok(inner) => Ok(text_of(inner)),
        Err(reason) => Err(reason),
    }
}

/// The texts of a list.
pub open spec fn texts(list: Seq<String>) -> Seq<Seq<char>> {
    list.map_values(|s: String| s@)
}

/// A line that says nothing: blank, or a comment.
pub open spec fn idle_line(line: Seq<char>) -> bool {
    trim(line).len() == 0 || begins(trim_start(line), "#"@)
}

fn idle(line: &[char]) -> (r: bool)
    ensures
        r == idle_line(line@),
{
    trimmed(line).len() == 0 || chars_begin(trimmed_start(line), "#")
}

/// The membership read so far from a workspace file.
pub ghost struct MembershipState {
    pub inside: bool,
    pub found: bool,
    pub patterns: Seq<Seq<char>>,
}

/// What one line adds to the membership.
pub open spec fn membership_step(state: MembershipState, line: Seq<char>) -> Result<
    MembershipState,
    Seq<char>,
> {
    if idle_line(line) {
        Ok(state)
    } else if !begins(line, " "@) {
        if line == "packages:"@ {
            if state.found {
                Err("Duplicate pnpm workspace membership is ambiguous"@)
            } else {
                Ok(MembershipState { inside: true, found: true, patterns: state.patterns })
            }
        } else {
            Ok(MembershipState { inside: false, ..state })
        }
    } else if state.inside {
        if begins(line, "  - "@) {
            match scalar_outcome(line.skip(4)) {
                Ok(text) => Ok(MembershipState { patterns: state.patterns.push(text), ..state }),
                Err(reason) => Err(reason),
            }
        } else {
            Err("Complex pnpm workspace membership needs manual inspection"@)
        }
    } else {
        Ok(state)
    }
}

/// What the remaining lines of a workspace file say.
pub open spec fn membership_fold(state: MembershipState, rest: Seq<Seq<char>>) -> Result<
    Seq<Seq<char>>,
    Seq<char>,
>
    decreases rest.len(),
{
    if rest.len() == 0 {
        if state.found {
            Ok(state.patterns)
        } else {
            Err("The pnpm workspace file has no supported package list"@)
        }
    } else {
        match membership_step(state, rest[0]) {
            Ok(next) => membership_fold(next, rest.skip(1)),
            Err(reason) => Err(reason),
        }
    }
}

/// The membership patterns that a workspace file lists.
pub open spec fn membership_outcome(bytes: Seq<u8>) -> Result<Seq<Seq<char>>, Seq<char>> {
    if valid_utf8(bytes) {
        membership_fold(
            MembershipState { inside: false, found: false, patterns: seq![] },
            lines(decode_utf8(bytes)),
        )
    } else {
        Err("The pnpm workspace file is not UTF-8"@)
    }
}

/// Reads the membership patterns of a workspace file.
pub fn pnpm_workspace_patterns(bytes: &[u8]) -> (r: Result<Vec<String>, String>)
    ensures
        match membership_outcome(bytes@) {
            Ok(patterns) => r matches Ok(got) && texts(got@) == patterns,
            Err(reason) => failed(r, reason),
        },
{
    let text: &str = match utf8_text(bytes) {
        Some(text) => text,
        None => {
            return fail("The pnpm workspace file is not UTF-8");
        },
    };
    let chars: Vec<char> = chars_of(text);
    let rows: Vec<Span> = split_lines(chars.as_slice());
    let ghost all = lines(chars@);
    let mut inside: bool = false;
    let mut found: bool = false;
    let mut patterns: Vec<String> = Vec::new();
    let mut i: usize = 0;
    proof {
        assert(all.skip(0) =~= all);
        assert(texts(patterns@) =~= seq![]);
    }
    while i < rows.len()
        invariant
            i <= rows.len(),
            covers(rows@, chars@, all),
            membership_outcome(bytes@) == membership_fold(
                MembershipState { inside, found, patterns: texts(patterns@) },
                all.skip(i as int),
            ),
        decreases rows.len() - i,
    {
        let line: &[char] = slice_subrange(chars.as_slice(), rows[i].start, rows[i].end);
        proof {
            assert(all.skip(i as int)[0] == line@);
            assert(all.skip(i as int).skip(1) =~= all.skip(i + 1));
        }
        i = i + 1;
        if idle(line) {
            continue;
        }
        if !chars_begin(line, " ") {
            if chars_are(line, "packages:") {
                if found {
                    return fail("Duplicate pnpm workspace membership is ambiguous");
                }
                inside = true;
                found = true;
            } else {
                inside = false;
            }
        } else if inside {
            if !chars_begin(line, "  - ") {
                return fail("Complex pnpm workspace membership needs manual inspection");
            }
            proof {
                reveal_strlit("  - ");
                assert(line@.subrange(4, line@.len() as int) =~= line@.skip(4));
            }
            let value: &[char] = slice_subrange(line, 4, line.len());
            match scalar_chars(value) {
                Ok(inner) => {
                    let ghost before = texts(patterns@);
                    patterns.push(text_of(inner));
                    assert(texts(patterns@) =~= before.push(inner@));
                },
                Err(reason) => {
                    return Err(reason);
                },
            }
        }
    }
    if !found {
        return fail("The pnpm workspace file has no supported package list");
    }
    Ok(patterns)
}

/// What has been read so far from a lockfile.
pub ghost struct LockState {
    pub version: bool,
    pub importers: bool,
    pub saw_importers: bool,
    pub packages: bool,
    pub keys: Seq<Seq<char>>,
}

/// Whether the version line, if this is one, can be accepted.
pub open spec fn version_step(state: LockState, line: Seq<char>) -> Result<LockState, Seq<char>> {
    if begins(line, "lockfileVersion:"@) {
        if state.version {
            Err("Duplicate pnpm lockfile version is ambiguous"@)
        } else {
            match scalar_outcome(line.skip(16)) {
                Ok(text) => if text == "6.0"@ || text == "9.0"@ {
                    Ok(LockState { version: true, ..state })
                } else {
                    Err("This pnpm lockfile version needs manual inspection"@)
                },
                Err(reason) => Err(reason),
            }
        }
    } else {
        Ok(state)
    }
}

/// The importer key that a line names.
pub open spec fn importer_key(line: Seq<char>) -> Result<Seq<char>, Seq<char>> {
    let body = trim(line);
    if ends(body, ": {}"@) {
        scalar_outcome(body.take(body.len() - 4))
    } else if ends(body, ":"@) {
        scalar_outcome(body.take(body.len() - 1))
    } else {
        Err("Complex pnpm importer evidence needs manual inspection"@)
    }
}

/// What the section structure of one line adds.
pub open spec fn section_step(state: LockState, line: Seq<char>) -> Result<LockState, Seq<char>> {
    if !begins(line, " "@) {
        let importers = line == "importers:"@;
        if importers && state.saw_importers {
            Err("Duplicate pnpm importers are ambiguous"@)
        } else {
            Ok(
                LockState {
                    importers,
                    saw_importers: state.saw_importers || importers,
                    packages: state.packages || line == "packages:"@ || line == "packages: {}"@,
                    ..state
                },
            )
        }
    } else if state.importers && begins(line, "  "@) && !begins(line, "   "@) {
        match importer_key(line) {
            Ok(key) => Ok(LockState { keys: state.keys.push(key), ..state }),
            Err(reason) => Err(reason),
        }
    } else {
        Ok(state)
    }
}

pub open spec fn lock_step(state: LockState, line: Seq<char>) -> Result<LockState, Seq<char>> {
    if idle_line(line) {
        Ok(state)
    } else {
        match version_step(state, line) {
            Ok(next) => section_step(next, line),
            Err(reason) => Err(reason),
        }
    }
}

/// The importers that the remaining lines name until the end or the first
/// failure, and that failure.
pub open spec fn lock_fold(state: LockState, rest: Seq<Seq<char>>) -> (
    Seq<Seq<char>>,
    Option<Seq<char>>,
)
    decreases rest.len(),
{
    if rest.len() == 0 {
        if state.version && state.saw_importers && state.packages {
            (state.keys, None)
        } else {
            (
                state.keys,
                Some("The pnpm lockfile lacks recognized importer and package evidence"@),
            )
        }
    } else {
        match lock_step(state, rest[0]) {
            Ok(next) => lock_fold(next, rest.skip(1)),
            Err(reason) => (state.keys, Some(reason)),
        }
    }
}

pub open spec fn lock_start() -> LockState {
    LockState {
        version: false,
        importers: false,
        saw_importers: false,
        packages: false,
        keys: seq![],
    }
}

/// The importers of a lockfile, and why it is not supported if it is not.
pub open spec fn lock_importers(bytes: Seq<u8>) -> (Seq<Seq<char>>, Option<Seq<char>>) {
    if valid_utf8(bytes) {
        lock_fold(lock_start(), lines(decode_utf8(bytes)))
    } else {
        (seq![], Some("The pnpm lockfile is not UTF-8"@))
    }
}

/// The importers that were read, and how the reading ended.
pub struct Importers {
    pub keys: Vec<String>,
    pub outcome: Result<(), String>,
}

fn version_line(line: &[char], version: bool) -> (r: Result<bool, String>)
    ensures
        forall|state: LockState|
            state.version == version ==> match #[trigger] version_step(state, line@) {
                Ok(next) => r matches Ok(seen) && next == (LockState { version: seen, ..state }),
                Err(reason) => failed(r, reason),
            },
{
    if !chars_begin(line, "lockfileVersion:") {
        return Ok(version);
    }
    if version {
        return fail("Duplicate pnpm lockfile version is ambiguous");
    }
    proof {
        reveal_strlit("lockfileVersion:");
        assert(line@.subrange(16, line@.len() as int) =~= line@.skip(16));
    }
    match scalar_chars(slice_subrange(line, 16, line.len())) {
        Ok(text) => {
            if chars_are(text, "6.0") || chars_are(text, "9.0") {
                Ok(true)
            } else {
                fail("This pnpm lockfile version needs manual inspection")
            }
        },
        Err(reason) => Err(reason),
    }
}

fn importer_line(line: &[char]) -> (r: Result<String, String>)
    ensures
        text_outcome(r, importer_key(line@)),
{
    let body: &[char] = trimmed(line);
    let cut: usize = if chars_end(body, ": {}") {
        proof {
            reveal_strlit(": {}");
        }
        4
    } else if chars_end(body, ":") {
        proof {
            reveal_strlit(":");
        }
        1
    } else {
        return fail("Complex pnpm importer evidence needs manual inspection");
    };
    assert(body@.subrange(0, body@.len() - cut) =~= body@.take(body@.len() - cut));
    match scalar_chars(slice_subrange(body, 0, body.len() - cut)) {
        Ok(inner) => Ok(text_of(inner)),
        Err(reason) => Err(reason),
    }
}

/// Visit every importer using the deliberately limited lock grammar. A match
/// never skips later validation, including duplicate section errors: what was
/// visited before a failure is handed back together with the failure.
pub fn visit_pnpm_importers(bytes: &[u8]) -> (r: Importers)
    ensures
        texts(r.keys@) == lock_importers(bytes@).0,
        match lock_importers(bytes@).1 {
            None => r.outcome is Ok,
            Some(reason) => failed(r.outcome, reason),
        },
{
    let mut keys: Vec<String> = Vec::new();
    assert(texts(keys@) =~= seq![]);
    let text: &str = match utf8_text(bytes) {
        Some(text) => text,
        None => {
            return Importers { keys, outcome: fail("The pnpm lockfile is not UTF-8") };
        },
    };
    let chars: Vec<char> = chars_of(text);
    let rows: Vec<Span> = split_lines(chars.as_slice());
    let ghost all = lines(chars@);
    let mut version: bool = false;
    let mut importers: bool = false;
    let mut saw_importers: bool = false;
    let mut packages: bool = false;
    let mut i: usize = 0;
    assert(all.skip(0) =~= all);
    while i < rows.len()
        invariant
            i <= rows.len(),
            covers(rows@, chars@, all),
            lock_importers(bytes@) == lock_fold(
                LockState { version, importers, saw_importers, packages, keys: texts(keys@) },
                all.skip(i as int),
            ),
        decreases rows.len() - i,
    {
        let line: &[char] = slice_subrange(chars.as_slice(), rows[i].start, rows[i].end);
        let ghost state = LockState {
            version,
            importers,
            saw_importers,
            packages,
            keys: texts(keys@),
        };
        proof {
            assert(all.skip(i as int)[0] == line@);
            assert(all.skip(i as int).skip(1) =~= all.skip(i + 1));
        }
        i = i + 1;
        if idle(line) {
            continue;
        }
        match version_line(line, version) {
            Ok(seen) => {
                assert(version_step(state, line@) is Ok);
                version = seen;
            },
            Err(reason) => {
                assert(version_step(state, line@) is Err);
                return Importers { keys, outcome: Err(reason) };
            },
        }
        if !chars_begin(line, " ") {
            importers = chars_are(line, "importers:");
            if importers {
                if saw_importers {
                    return Importers {
                        keys,
                        outcome: fail("Duplicate pnpm importers are ambiguous"),
                    };
                }
                saw_importers = true;
            }
            packages = packages || chars_are(line, "packages:") || chars_are(line, "packages: {}");
        } else if importers && chars_begin(line, "  ") && !chars_begin(line, "   ") {
            match importer_line(line) {
                Ok(key) => {
                    let ghost before = texts(keys@);
                    let ghost text = key@;
                    keys.push(key);
                    assert(texts(keys@) =~= before.push(text));
                },
                Err(reason) => {
                    return Importers { keys, outcome: Err(reason) };
                },
            }
        }
    }
    if !version || !saw_importers || !packages {
        return Importers {
            keys,
            outcome: fail("The pnpm lockfile lacks recognized importer and package evidence"),
        };
    }
    Importers { keys, outcome: Ok(()) }
}

/// The importer key that stands for a relative path: the root is written `.`.
pub open spec fn member_key(relative: Seq<char>) -> Seq<char> {
    if relative.len() == 0 {
        "."@
    } else {
        relative
    }
}

/// Whether a lockfile names a relative path among its importers.
pub open spec fn lock_owns(bytes: Seq<u8>, relative: Seq<char>) -> Result<bool, Seq<char>> {
    match lock_importers(bytes).1 {
        None => Ok(lock_importers(bytes).0.contains(member_key(relative))),
        Some(reason) => Err(reason),
    }
}

pub fn member_text(relative: &str) -> (r: &str)
    ensures
        r@ == member_key(relative@),
{
    if byte_len(relative) == 0 {
        proof {
            vstd::utf8::encode_utf8_decode_utf8(relative@);
            assert(encode_utf8(relative@) =~= seq![]);
            assert(relative@.len() == 0);
        }
        "."
    } else {
        assert(relative@.len() > 0) by {
            if relative@.len() == 0 {
                assert(encode_utf8(relative@) =~= seq![]);
            }
        }
        relative
    }
}

pub fn has_text(list: &Vec<String>, text: &str) -> (r: bool)
    ensures
        r == texts(list@).contains(text@),
{
    let mut i: usize = 0;
    while i < list.len()
        invariant
            i <= list.len(),
            forall|j: int| 0 <= j < i ==> (#[trigger] list@[j])@ != text@,
        decreases list.len() - i,
    {
        if same_text(list[i].as_str(), text) {
            assert(texts(list@)[i as int] == text@);
            return true;
        }
        i = i + 1;
    }
    proof {
        if texts(list@).contains(text@) {
            let w = choose|w: int| 0 <= w < list@.len() && texts(list@)[w] == text@;
            assert(list@[w]@ == text@);
        }
    }
    false
}

/// Whether the lockfile names this relative path among its importers.
pub fn pnpm_lock_owns(bytes: &[u8], relative: &str) -> (r: Result<bool, String>)
    ensures
        crate::workspace::outcome_is(r, lock_owns(bytes@, relative@)),
{
    let read: Importers = visit_pnpm_importers(bytes);
    match read.outcome {
        Err(reason) => Err(reason),
        Ok(_) => Ok(has_text(&read.keys, member_text(relative))),
    }
}

/// A match never skips later validation: a lockfile with a fault anywhere names
/// no importer at all.
pub proof fn a_match_skips_no_validation(bytes: Seq<u8>, relative: Seq<char>)
    requires
        lock_importers(bytes).1 is Some,
    ensures
        lock_owns(bytes, relative) == Err::<bool, Seq<char>>(lock_importers(bytes).1->Some_0),
{
}

} // verus!
