//! The configuration of a repository: which sections and keys it holds.
use crate::text::{
    chars_are, chars_of, covers, fail, failed, find_char, index_of, lines, pieces, split_lines,
    trim_start, trimmed_start, utf8_text, Span,
};
use vstd::prelude::*;
use vstd::slice::slice_subrange;
use vstd::utf8::{decode_utf8, valid_utf8};

verus! {

pub open spec fn alphanumeric(c: char) -> bool {
    ('0' <= c <= '9') || ('A' <= c <= 'Z') || ('a' <= c <= 'z')
}

/// Whether a character can be part of a section's name.
pub open spec fn section_char(c: char) -> bool {
    alphanumeric(c) || c == '-' || c == '.'
}

/// Whether a character can be part of a key.
pub open spec fn key_char(c: char) -> bool {
    alphanumeric(c) || c == '-'
}

/// How many characters from the start on belong to a section's name.
pub open spec fn section_run(s: Seq<char>) -> int
    decreases s.len(),
{
    if s.len() > 0 && section_char(s[0]) {
        1 + section_run(s.skip(1))
    } else {
        0
    }
}

/// How many characters from the start on belong to a key.
pub open spec fn key_run(s: Seq<char>) -> int
    decreases s.len(),
{
    if s.len() > 0 && key_char(s[0]) {
        1 + key_run(s.skip(1))
    } else {
        0
    }
}

/// The small letter of a capital one.
pub open spec fn lower(c: char) -> char {
    if 'A' <= c <= 'Z' {
        (c as u32 + 32) as char
    } else {
        c
    }
}

/// A text in small letters.
pub open spec fn lowered(s: Seq<char>) -> Seq<char> {
    s.map_values(|c: char| lower(c))
}

/// How many backslashes end a line.
pub open spec fn trailing_slashes(s: Seq<char>) -> nat
    decreases s.len(),
{
    if s.len() > 0 && s.last() == '\\' {
        1 + trailing_slashes(s.drop_last())
    } else {
        0
    }
}

/// The section that a header names.
pub open spec fn header_section(header: Seq<char>) -> Seq<char> {
    lowered(pieces(header.take(section_run(header)), '.')[0])
}

/// Whether a key of a section asks for a layout that needs more evidence.
pub open spec fn wide_layout(section: Seq<char>, key: Seq<char>) -> bool {
    (section == "core"@ && (key == "sparsecheckout"@ || key == "sparsecheckoutcone"@)) || (section
        == "extensions"@ && (key == "objectformat"@ || key == "sparseindex"@))
}

/// Where the bracket stands that closes a header: the first one outside quotes, if
/// there is one.
/// Within quotes, a backslash takes the next character along.
pub open spec fn closing(s: Seq<char>, quoted: bool) -> Option<int>
    decreases s.len(),
{
    if s.len() == 0 {
        None
    } else if s[0] == ']' && !quoted {
        Some(0)
    } else if s[0] == '\\' && quoted && s.len() > 1 {
        match closing(s.skip(2), quoted) {
            Some(at) => Some(at + 2),
            None => None,
        }
    } else {
        match closing(s.skip(1), if s[0] == '"' {
            !quoted
        } else {
            quoted
        }) {
            Some(at) => Some(at + 1),
            None => None,
        }
    }
}

pub proof fn closing_is_inside(s: Seq<char>, quoted: bool)
    ensures
        closing(s, quoted) matches Some(at) ==> 0 <= at < s.len() && s[at] == ']',
    decreases s.len(),
{
    if s.len() > 0 && !(s[0] == ']' && !quoted) {
        if s[0] == '\\' && quoted && s.len() > 1 {
            closing_is_inside(s.skip(2), quoted);
        } else {
            closing_is_inside(s.skip(1), if s[0] == '"' {
                !quoted
            } else {
                quoted
            });
        }
    }
}

pub proof fn trim_start_shortens(s: Seq<char>)
    ensures
        trim_start(s).len() <= s.len(),
    decreases s.len(),
{
    if s.len() > 0 {
        trim_start_shortens(s.skip(1));
    }
}

/// What one line says: why the configuration cannot be used, or the section that
/// holds from here on. What follows a header on its line is a line of the section
/// that the header opens.
pub open spec fn line_outcome(section: Seq<char>, physical: Seq<char>) -> Result<
    Seq<char>,
    Seq<char>,
>
    decreases physical.len(),
{
    let line = trim_start(physical);
    if line.len() == 0 || line[0] == '#' || line[0] == ';' {
        Ok(section)
    } else if trailing_slashes(physical) % 2 == 1 {
        Err("Continued Git configuration values need manual inspection"@)
    } else if line[0] == '[' {
        let header = trim_start(line.skip(1));
        if section_run(header) == 0 || !header.contains(']') {
            Err("Git configuration sections could not be verified"@)
        } else if header_section(header) == "include"@ || header_section(header) == "includeif"@ {
            Err("Git configuration includes require manual inspection of ownership"@)
        } else {
            match closing(header, false) {
                None => Ok(header_section(header)),
                Some(at) => {
                    proof {
                        trim_start_shortens(physical);
                        trim_start_shortens(line.skip(1));
                        closing_is_inside(header, false);
                    }
                    line_outcome(header_section(header), header.skip(at + 1))
                },
            }
        }
    } else if wide_layout(section, lowered(line.take(key_run(line)))) {
        Err("Sparse or alternate-format Git repositories need manual inspection"@)
    } else {
        Ok(section)
    }
}

/// What lines say, one after the other.
pub open spec fn lines_outcome(section: Seq<char>, rows: Seq<Seq<char>>) -> Result<(), Seq<char>>
    decreases rows.len(),
{
    if rows.len() == 0 {
        Ok(())
    } else {
        match line_outcome(section, rows[0]) {
            Err(reason) => Err(reason),
            Ok(next) => lines_outcome(next, rows.skip(1)),
        }
    }
}

/// The bytes without the mark that may come before the first section.
pub open spec fn unmarked(bytes: Seq<u8>) -> Seq<u8> {
    if bytes.len() >= 3 && bytes[0] == 0xef && bytes[1] == 0xbb && bytes[2] == 0xbf {
        bytes.skip(3)
    } else {
        bytes
    }
}

/// What a configuration says: why it cannot be used, if it cannot.
pub open spec fn config_outcome(bytes: Seq<u8>) -> Result<(), Seq<char>> {
    if !valid_utf8(unmarked(bytes)) {
        Err("Git configuration is not supported UTF-8"@)
    } else {
        lines_outcome(seq![], lines(decode_utf8(unmarked(bytes))))
    }
}

fn is_alphanumeric(c: char) -> (r: bool)
    ensures
        r == alphanumeric(c),
{
    (c >= '0' && c <= '9') || (c >= 'A' && c <= 'Z') || (c >= 'a' && c <= 'z')
}

fn lower_char(c: char) -> (r: char)
    ensures
        r == lower(c),
{
    if c >= 'A' && c <= 'Z' {
        ((c as u8) + 32) as char
    } else {
        c
    }
}

fn lowered_chars(s: &[char]) -> (r: Vec<char>)
    ensures
        r@ == lowered(s@),
{
    let mut out: Vec<char> = Vec::new();
    let mut i: usize = 0;
    while i < s.len()
        invariant
            i <= s.len(),
            out@.len() == i,
            forall|j: int| 0 <= j < i ==> #[trigger] out@[j] == lower(s@[j]),
        decreases s.len() - i,
    {
        out.push(lower_char(s[i]));
        i = i + 1;
    }
    assert(out@ =~= lowered(s@));
    out
}

fn section_length(s: &[char]) -> (r: usize)
    ensures
        r == section_run(s@),
        r <= s@.len(),
{
    let mut i: usize = 0;
    assert(s@.skip(0) =~= s@);
    while i < s.len() && (is_alphanumeric(s[i]) || s[i] == '-' || s[i] == '.')
        invariant
            i <= s.len(),
            section_run(s@) == i + section_run(s@.skip(i as int)),
        decreases s.len() - i,
    {
        assert(s@.skip(i as int).skip(1) =~= s@.skip(i + 1));
        assert(s@.skip(i as int)[0] == s@[i as int]);
        i = i + 1;
    }
    proof {
        if i < s@.len() {
            assert(s@.skip(i as int)[0] == s@[i as int]);
        }
    }
    i
}

fn key_length(s: &[char]) -> (r: usize)
    ensures
        r == key_run(s@),
        r <= s@.len(),
{
    let mut i: usize = 0;
    assert(s@.skip(0) =~= s@);
    while i < s.len() && (is_alphanumeric(s[i]) || s[i] == '-')
        invariant
            i <= s.len(),
            key_run(s@) == i + key_run(s@.skip(i as int)),
        decreases s.len() - i,
    {
        assert(s@.skip(i as int).skip(1) =~= s@.skip(i + 1));
        assert(s@.skip(i as int)[0] == s@[i as int]);
        i = i + 1;
    }
    proof {
        if i < s@.len() {
            assert(s@.skip(i as int)[0] == s@[i as int]);
        }
    }
    i
}

fn slashes_at_end(s: &[char]) -> (r: usize)
    ensures
        r == trailing_slashes(s@),
{
    let mut i: usize = s.len();
    let mut n: usize = 0;
    assert(s@.take(i as int) =~= s@);
    while i > 0 && s[i - 1] == '\\'
        invariant
            i <= s.len(),
            n == s@.len() - i,
            trailing_slashes(s@) == n + trailing_slashes(s@.take(i as int)),
        decreases i,
    {
        assert(s@.take(i as int).drop_last() =~= s@.take(i - 1));
        assert(s@.take(i as int).last() == s@[i - 1]);
        i = i - 1;
        n = n + 1;
    }
    proof {
        if i > 0 {
            assert(s@.take(i as int).last() == s@[i - 1]);
        }
    }
    n
}

fn is_wide_layout(section: &[char], key: &[char]) -> (r: bool)
    ensures
        r == wide_layout(section@, key@),
{
    (chars_are(section, "core") && (chars_are(key, "sparsecheckout") || chars_are(
        key,
        "sparsecheckoutcone",
    ))) || (chars_are(section, "extensions") && (chars_are(key, "objectformat") || chars_are(
        key,
        "sparseindex",
    )))
}

fn closing_at(s: &[char]) -> (r: Option<usize>)
    ensures
        match closing(s@, false) {
            Some(at) => r matches Some(got) && got == at && got < s@.len(),
            None => r is None,
        },
{
    let mut i: usize = 0;
    let mut quoted: bool = false;
    proof {
        assert(s@.skip(0) =~= s@);
        closing_is_inside(s@, false);
    }
    while i < s.len()
        invariant
            i <= s.len(),
            closing(s@, false) == match closing(s@.skip(i as int), quoted) {
                Some(at) => Some(at + i),
                None => None,
            },
        decreases s.len() - i,
    {
        let ghost left = s@.skip(i as int);
        let c: char = s[i];
        assert(left[0] == c);
        if c == ']' && !quoted {
            return Some(i);
        }
        if c == '\\' && quoted && i + 1 < s.len() {
            assert(left.skip(2) =~= s@.skip(i + 2));
            i = i + 2;
        } else {
            assert(left.skip(1) =~= s@.skip(i + 1));
            if c == '"' {
                quoted = !quoted;
            }
            i = i + 1;
        }
    }
    None
}

/// Where the rest of a header's line starts: behind the bracket that closes it. A
/// header whose quotes stay open takes the whole line.
pub open spec fn header_end(header: Seq<char>) -> int {
    match closing(header, false) {
        Some(at) => at + 1,
        None => header.len() as int,
    }
}

fn has_bracket(s: &[char]) -> (r: bool)
    ensures
        r == s@.contains(']'),
{
    let mut i: usize = 0;
    while i < s.len()
        invariant
            i <= s.len(),
            forall|j: int| 0 <= j < i ==> s@[j] != ']',
        decreases s.len() - i,
    {
        if s[i] == ']' {
            assert(s@[i as int] == ']');
            return true;
        }
        i = i + 1;
    }
    false
}

/// What a header says: the section that it opens, and where the rest of its line
/// starts.
fn read_header(header: &[char]) -> (r: Result<(Vec<char>, usize), String>)
    ensures
        if section_run(header@) == 0 || !header@.contains(']') {
            failed(r, "Git configuration sections could not be verified"@)
        } else if header_section(header@) == "include"@ || header_section(header@)
            == "includeif"@ {
            failed(r, "Git configuration includes require manual inspection of ownership"@)
        } else {
            r matches Ok(pair) && pair.0@ == header_section(header@) && pair.1 == header_end(header@)
                && pair.1 <= header@.len()
        },
{
    let n: usize = header.len();
    let end: usize = section_length(header);
    proof {
        closing_is_inside(header@, false);
    }
    let rest: usize = match closing_at(header) {
        Some(close) => close + 1,
        None => n,
    };
    if end == 0 || !has_bracket(header) {
        return fail("Git configuration sections could not be verified");
    }
    let name: &[char] = slice_subrange(header, 0, end);
    assert(name@ =~= header@.take(end as int));
    let dot: usize = find_char(name, '.');
    let first: &[char] = slice_subrange(name, 0, dot);
    proof {
        assert(first@ =~= name@.take(index_of(name@, '.')));
        assert(pieces(name@, '.')[0] =~= first@);
    }
    let found: Vec<char> = lowered_chars(first);
    if chars_are(found.as_slice(), "include") || chars_are(found.as_slice(), "includeif") {
        return fail("Git configuration includes require manual inspection of ownership");
    }
    Ok((found, rest))
}

fn read_line(section: &[char], physical: &[char]) -> (r: Result<Option<Vec<char>>, String>)
    ensures
        match line_outcome(section@, physical@) {
            Err(reason) => failed(r, reason),
            Ok(next) => match r {
                Ok(Some(changed)) => changed@ == next,
                Ok(None) => next == section@,
                Err(_) => false,
            },
        },
    decreases physical@.len(),
{
    let line: &[char] = trimmed_start(physical);
    if line.len() == 0 || line[0] == '#' || line[0] == ';' {
        return Ok(None);
    }
    if slashes_at_end(physical) % 2 == 1 {
        return fail("Continued Git configuration values need manual inspection");
    }
    if line[0] == '[' {
        let inner: &[char] = slice_subrange(line, 1, line.len());
        assert(inner@ =~= line@.skip(1));
        let header: &[char] = trimmed_start(inner);
        let (found, start) = match read_header(header) {
            Ok(pair) => pair,
            Err(reason) => {
                return Err(reason);
            },
        };
        let rest: &[char] = slice_subrange(header, start, header.len());
        proof {
            assert(rest@ =~= header@.skip(start as int));
            trim_start_shortens(physical@);
            trim_start_shortens(inner@);
        }
        return match read_line(found.as_slice(), rest) {
            Ok(None) => Ok(Some(found)),
            other => other,
        };
    }
    let end: usize = key_length(line);
    let key: &[char] = slice_subrange(line, 0, end);
    assert(key@ =~= line@.take(end as int));
    if is_wide_layout(section, lowered_chars(key).as_slice()) {
        return fail("Sparse or alternate-format Git repositories need manual inspection");
    }
    Ok(None)
}

/// Includes can read configuration outside the validated evidence set. Reject
/// them, as well as sparse and alternate-hash layouts that need a wider evidence
/// model. This reads section and key names only.
pub fn validate_git_config(bytes: &[u8]) -> (r: Result<(), String>)
    ensures
        match config_outcome(bytes@) {
            Ok(_) => r is Ok,
            Err(reason) => failed(r, reason),
        },
{
    // A mark before the first section is skipped before includes are looked
    // for, so that it cannot conceal the first section's name.
    let n: usize = bytes.len();
    let body: &[u8] = if n >= 3 && bytes[0] == 0xef && bytes[1] == 0xbb && bytes[2] == 0xbf {
        slice_subrange(bytes, 3, n)
    } else {
        bytes
    };
    assert(body@ =~= unmarked(bytes@));
    let text: &str = match utf8_text(body) {
        Some(text) => text,
        None => {
            return fail("Git configuration is not supported UTF-8");
        },
    };
    let chars: Vec<char> = chars_of(text);
    let rows: Vec<Span> = split_lines(chars.as_slice());
    let ghost all = lines(chars@);
    let mut section: Vec<char> = Vec::new();
    let mut i: usize = 0;
    proof {
        assert(all.skip(0) =~= all);
        assert(section@ =~= seq![]);
    }
    while i < rows.len()
        invariant
            i <= rows.len(),
            covers(rows@, chars@, all),
            config_outcome(bytes@) == lines_outcome(section@, all.skip(i as int)),
        decreases rows.len() - i,
    {
        let line: &[char] = slice_subrange(chars.as_slice(), rows[i].start, rows[i].end);
        proof {
            assert(all.skip(i as int)[0] == line@);
            assert(all.skip(i as int).skip(1) =~= all.skip(i + 1));
        }
        match read_line(section.as_slice(), line) {
            Ok(Some(next)) => {
                section = next;
            },
            Ok(None) => {},
            Err(reason) => {
                return Err(reason);
            },
        }
        i = i + 1;
    }
    Ok(())
}

/// The headers and the keys of a line, in their order: every header, and then the
/// key that the line ends with, if it ends with one.
pub ghost enum Part {
    Header(Seq<char>),
    Key(Seq<char>),
}

/// What a line holds, whatever it means.
pub open spec fn parts(physical: Seq<char>) -> Seq<Part>
    decreases physical.len(),
{
    let line = trim_start(physical);
    if line.len() == 0 || line[0] == '#' || line[0] == ';' {
        seq![]
    } else if line[0] == '[' {
        let header = trim_start(line.skip(1));
        proof {
            trim_start_shortens(physical);
            trim_start_shortens(line.skip(1));
            closing_is_inside(header, false);
        }
        match closing(header, false) {
            Some(at) => seq![Part::Header(header_section(header))] + parts(header.skip(at + 1)),
            None => seq![Part::Header(header_section(header))],
        }
    } else {
        seq![Part::Key(lowered(line.take(key_run(line))))]
    }
}

/// The section that holds before the part at `i` of a line.
pub open spec fn section_before(section: Seq<char>, list: Seq<Part>, i: int) -> Seq<char>
    decreases i,
{
    if i <= 0 {
        section
    } else {
        match list[i - 1] {
            Part::Header(name) => name,
            Part::Key(_) => section_before(section, list, i - 1),
        }
    }
}

/// Whether a part refuses a configuration, in the section that holds before it.
pub open spec fn refused(section: Seq<char>, part: Part) -> bool {
    match part {
        Part::Header(name) => name == "include"@ || name == "includeif"@,
        Part::Key(key) => wide_layout(section, key),
    }
}

/// A header conceals nothing on its own line: no accepted line holds an include,
/// or a key of a layout that needs more evidence, wherever on the line it stands.
pub proof fn headers_conceal_nothing(section: Seq<char>, physical: Seq<char>, i: int)
    requires
        line_outcome(section, physical) is Ok,
        0 <= i < parts(physical).len(),
    ensures
        !refused(section_before(section, parts(physical), i), parts(physical)[i]),
    decreases physical.len(),
{
    let line = trim_start(physical);
    if line[0] == '[' {
        let header = trim_start(line.skip(1));
        let at = closing(header, false)->Some_0;
        let name = header_section(header);
        let rest = header.skip(at + 1);
        trim_start_shortens(physical);
        trim_start_shortens(line.skip(1));
        closing_is_inside(header, false);
        if i > 0 {
            headers_conceal_nothing(name, rest, i - 1);
            sections_agree(section, name, parts(rest), i);
            assert(parts(physical) == seq![Part::Header(name)] + parts(rest));
            assert(parts(physical)[i] == parts(rest)[i - 1]);
        }
    }
}

proof fn sections_agree(section: Seq<char>, name: Seq<char>, list: Seq<Part>, i: int)
    requires
        0 < i <= list.len(),
    ensures
        section_before(section, seq![Part::Header(name)] + list, i) == section_before(
            name,
            list,
            i - 1,
        ),
    decreases i,
{
    let whole = seq![Part::Header(name)] + list;
    if i > 1 {
        sections_agree(section, name, list, i - 1);
        assert(whole[i - 1] == list[i - 2]);
    } else {
        assert(whole[0] == Part::Header(name));
    }
}

/// The section that holds after some lines of an accepted configuration.
pub open spec fn section_after(section: Seq<char>, rows: Seq<Seq<char>>, n: int) -> Seq<char>
    decreases n,
{
    if n <= 0 {
        section
    } else {
        line_outcome(section_after(section, rows, n - 1), rows[n - 1])->Ok_0
    }
}

/// No accepted configuration holds an include, or a key of a sparse or
/// alternate-format layout, on any of its lines and wherever on the line it
/// stands.
pub proof fn accepted_lines_are_plain(section: Seq<char>, rows: Seq<Seq<char>>, i: int, j: int)
    requires
        lines_outcome(section, rows) is Ok,
        0 <= i < rows.len(),
        0 <= j < parts(rows[i]).len(),
    ensures
        !refused(
            section_before(section_after(section, rows, i), parts(rows[i]), j),
            parts(rows[i])[j],
        ),
{
    accepted_line(section, rows, i);
    headers_conceal_nothing(section_after(section, rows, i), rows[i], j);
}

proof fn accepted_line(section: Seq<char>, rows: Seq<Seq<char>>, i: int)
    requires
        lines_outcome(section, rows) is Ok,
        0 <= i < rows.len(),
    ensures
        line_outcome(section_after(section, rows, i), rows[i]) is Ok,
    decreases i,
{
    if i > 0 {
        let next = line_outcome(section, rows[0])->Ok_0;
        accepted_line(next, rows.skip(1), i - 1);
        assert(rows.skip(1)[i - 1] == rows[i]);
        after_skipping(section, rows, i);
    }
}

proof fn after_skipping(section: Seq<char>, rows: Seq<Seq<char>>, n: int)
    requires
        0 < n <= rows.len(),
    ensures
        section_after(section, rows, n) == section_after(
            line_outcome(section, rows[0])->Ok_0,
            rows.skip(1),
            n - 1,
        ),
    decreases n,
{
    reveal_with_fuel(section_after, 2);
    if n > 1 {
        after_skipping(section, rows, n - 1);
        assert(rows.skip(1)[n - 2] == rows[n - 1]);
    }
}

/// A mark before the first section hides nothing: the outcome is the one without
/// it.
pub proof fn mark_conceals_nothing(bytes: Seq<u8>)
    requires
        unmarked(bytes) == bytes,
    ensures
        config_outcome(seq![0xefu8, 0xbbu8, 0xbfu8] + bytes) == config_outcome(bytes),
{
    let marked = seq![0xefu8, 0xbbu8, 0xbfu8] + bytes;
    assert(marked[0] == 0xef && marked[1] == 0xbb && marked[2] == 0xbf);
    assert(marked.skip(3) =~= bytes);
}

} // verus!
