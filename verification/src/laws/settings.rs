//! Which settings and pointers of a Git repository can be relied on.
use crate::git::config::{
    closing, config_outcome, header_section, key_char, key_run, line_outcome, lines_outcome,
    section_char, section_run, trailing_slashes,
};
use crate::git::evidence::all_unchanged;
use crate::git::inquiry::{moves, tells, Inquiry, Told, Wanted};
use crate::git::pointer::{followed, pointer_outcome, pointer_text};
use crate::git::tracking::{refusal, repository_step};
use crate::laws::texts::{
    between, blank, leading_blanks, lines_are_read_as_written, plain_lines,
    splitting_gives_the_parts_back, unmarked, written,
};
use crate::model::Root;
use crate::paths::{child, parent_of, root_path, under};
use crate::probe::Got;
use crate::text::{index_of_is, is_space, pieces};
use vstd::prelude::*;
use vstd::utf8::{decode_utf8, valid_utf8};

verus! {

/// A text with its capital letters made small.
pub open spec fn lowercase(s: Seq<char>) -> Seq<char> {
    Seq::new(
        s.len(),
        |i: int|
            if 'A' <= s[i] <= 'Z' {
                (s[i] as u32 + 32) as char
            } else {
                s[i]
            },
    )
}

/// A letter, a digit or a hyphen.
pub open spec fn name_letter(c: char) -> bool {
    ('0' <= c <= '9') || ('A' <= c <= 'Z') || ('a' <= c <= 'z') || c == '-'
}

/// A name of such.
pub open spec fn plain_name(s: Seq<char>) -> bool {
    s.len() > 0 && forall|i: int| 0 <= i < s.len() ==> name_letter(#[trigger] s[i])
}

proof fn section_run_is(s: Seq<char>, n: int)
    requires
        0 <= n <= s.len(),
        forall|i: int| 0 <= i < n ==> section_char(#[trigger] s[i]),
        n < s.len() ==> !section_char(s[n]),
    ensures
        section_run(s) == n,
    decreases n,
{
    if n > 0 {
        assert(section_char(s[0]));
        let rest = s.skip(1);
        assert forall|i: int| 0 <= i < n - 1 implies section_char(#[trigger] rest[i]) by {
            assert(section_char(s[i + 1]));
        }
        section_run_is(rest, n - 1);
    }
}

proof fn key_run_is(s: Seq<char>, n: int)
    requires
        0 <= n <= s.len(),
        forall|i: int| 0 <= i < n ==> key_char(#[trigger] s[i]),
        n < s.len() ==> !key_char(s[n]),
    ensures
        key_run(s) == n,
    decreases n,
{
    if n > 0 {
        assert(key_char(s[0]));
        let rest = s.skip(1);
        assert forall|i: int| 0 <= i < n - 1 implies key_char(#[trigger] rest[i]) by {
            assert(key_char(s[i + 1]));
        }
        key_run_is(rest, n - 1);
    }
}

/// Text without a quote, a bracket or a backslash.
pub open spec fn unquoted(s: Seq<char>) -> bool {
    forall|i: int| 0 <= i < s.len() ==> #[trigger] s[i] != '"' && s[i] != ']' && s[i] != '\\'
}

/// Text that may stand between quotes as it is.
pub open spec fn quotable(s: Seq<char>) -> bool {
    forall|i: int| 0 <= i < s.len() ==> #[trigger] s[i] != '"' && s[i] != '\\'
}

proof fn closing_after(name: Seq<char>, rest: Seq<char>)
    requires
        unquoted(name),
    ensures
        closing(name + rest, false) == (match closing(rest, false) {
            Some(at) => Some(at + name.len()),
            None => None,
        }),
    decreases name.len(),
{
    if name.len() > 0 {
        let more = name.skip(1);
        assert(name[0] != '"');
        assert((name + rest)[0] == name[0]);
        assert((name + rest).skip(1) =~= more + rest);
        assert forall|i: int| 0 <= i < more.len() implies #[trigger] more[i] != '"' && more[i]
            != ']' && more[i] != '\\' by {
            assert(name[i + 1] != '"');
        }
        closing_after(more, rest);
    } else {
        assert(name + rest =~= rest);
    }
}

proof fn closing_quoted(sub: Seq<char>, rest: Seq<char>)
    requires
        quotable(sub),
    ensures
        closing(sub + seq!['"', ']'] + rest, true) == Some(sub.len() as int + 1),
    decreases sub.len(),
{
    let whole = sub + seq!['"', ']'] + rest;
    if sub.len() > 0 {
        let more = sub.skip(1);
        assert(sub[0] != '"');
        assert(whole[0] == sub[0]);
        assert(whole.skip(1) =~= more + seq!['"', ']'] + rest);
        assert forall|i: int| 0 <= i < more.len() implies #[trigger] more[i] != '"' && more[i]
            != '\\' by {
            assert(sub[i + 1] != '"');
        }
        closing_quoted(more, rest);
    } else {
        assert(whole =~= seq!['"', ']'] + rest);
        assert(whole[0] == '"');
        assert(whole.skip(1) =~= seq![']'] + rest);
        assert(whole.skip(1)[0] == ']');
        assert(closing(whole.skip(1), false) == Some(0int));
    }
}

/// A comment or an empty line changes nothing.
pub proof fn comments_are_passed(section: Seq<char>, before: Seq<char>, rest: Seq<char>)
    requires
        blank(before),
    ensures
        line_outcome(section, before + (seq!['#'] + rest)) == Ok::<Seq<char>, Seq<char>>(section),
        line_outcome(section, before + (seq![';'] + rest)) == Ok::<Seq<char>, Seq<char>>(section),
        line_outcome(section, before) == Ok::<Seq<char>, Seq<char>>(section),
{
    leading_blanks(before, seq!['#'] + rest);
    leading_blanks(before, seq![';'] + rest);
    leading_blanks(before, Seq::empty());
    assert(before + Seq::<char>::empty() =~= before);
}

/// What may follow the name in the head of a section: nothing, or a name of its own in
/// quotes.
pub open spec fn subsection(sub: Option<Seq<char>>) -> Seq<char> {
    match sub {
        None => seq![],
        Some(name) => seq![' ', '"'] + name + seq!['"'],
    }
}

/// The head of a section is read by its name in small letters, whatever the name of
/// its own says, and what stands behind it on the line is read in that section; only
/// heads that would bring in other files are refused.
#[verifier::rlimit(60)]
pub proof fn sections_are_read(
    section: Seq<char>,
    before: Seq<char>,
    name: Seq<char>,
    sub: Option<Seq<char>>,
    rest: Seq<char>,
)
    requires
        blank(before),
        plain_name(name),
        sub matches Some(own) ==> quotable(own),
        rest.len() > 0 ==> rest.last() != '\\',
    ensures
        ({
            let line = before + (seq!['['] + name + subsection(sub) + seq![']'] + rest);
            if lowercase(name) == "include"@ || lowercase(name) == "includeif"@ {
                line_outcome(section, line) is Err
            } else {
                line_outcome(section, line) == line_outcome(lowercase(name), rest)
            }
        }),
{
    let middle = subsection(sub);
    let core = seq!['['] + name + middle + seq![']'] + rest;
    let physical = before + core;
    let header = name + middle + seq![']'] + rest;
    assert(core[0] == '[');
    leading_blanks(before, core);
    assert(core.skip(1) =~= header);
    assert(name_letter(name[0]));
    leading_blanks(Seq::empty(), header);
    assert(Seq::<char>::empty() + header =~= header);
    assert(header[0] == name[0]);
    assert(physical.last() != '\\') by {
        if rest.len() > 0 {
            assert(physical.last() == rest.last());
        } else {
            assert(physical.last() == ']');
        }
    }
    assert(trailing_slashes(physical) == 0);
    let n = name.len() as int;
    assert forall|i: int| 0 <= i < n implies section_char(#[trigger] header[i]) by {
        assert(header[i] == name[i]);
        assert(name_letter(name[i]));
    }
    assert(!section_char(header[n])) by {
        if sub is Some {
            assert(header[n] == ' ');
        } else {
            assert(header[n] == ']');
        }
    }
    section_run_is(header, n);
    assert(header.take(n) =~= name);
    assert forall|i: int| 0 <= i < n implies name[i] != '.' by {
        assert(name_letter(name[i]));
    }
    index_of_is(name, '.', n);
    assert(pieces(name, '.')[0] == name);
    assert(header_section(header) =~= lowercase(name));
    assert(header.contains(']')) by {
        assert(header[n + middle.len()] == ']');
    }
    assert(closing(header, false) == Some(n + middle.len())) by {
        assert forall|i: int| 0 <= i < name.len() implies #[trigger] name[i] != '"' && name[i]
            != ']' && name[i] != '\\' by {
            assert(name_letter(name[i]));
        }
        let tail = middle + seq![']'] + rest;
        assert(header =~= name + tail);
        closing_after(name, tail);
        match sub {
            None => {
                assert(tail[0] == ']');
                assert(closing(tail, false) == Some(0int));
            },
            Some(own) => {
                let inner = own + seq!['"', ']'] + rest;
                assert(tail =~= seq![' ', '"'] + inner);
                closing_quoted(own, rest);
                assert(tail[0] == ' ');
                let second = tail.skip(1);
                assert(second[0] == '"');
                assert(second.skip(1) =~= inner);
                assert(closing(second, false) == Some(own.len() as int + 2));
                assert(closing(tail, false) == Some(own.len() as int + 3));
            },
        }
    }
    assert(header.skip(n + middle.len() + 1) =~= rest);
}

/// The settings of a layout that is not the ordinary one.
pub open spec fn unusual(section: Seq<char>, key: Seq<char>) -> bool {
    ||| section == "core"@ && lowercase(key) == "sparsecheckout"@
    ||| section == "core"@ && lowercase(key) == "sparsecheckoutcone"@
    ||| section == "extensions"@ && lowercase(key) == "objectformat"@
    ||| section == "extensions"@ && lowercase(key) == "sparseindex"@
}

/// A setting is refused exactly where it is one of an unusual layout, in whatever
/// letters and with whatever value; any other one leaves the section as it is.
pub proof fn settings_are_read(
    section: Seq<char>,
    before: Seq<char>,
    key: Seq<char>,
    rest: Seq<char>,
)
    requires
        blank(before),
        plain_name(key),
        rest.len() > 0 ==> !name_letter(rest[0]) && rest.last() != '\\',
    ensures
        unusual(section, key) ==> line_outcome(section, before + (key + rest)) is Err,
        !unusual(section, key) ==> line_outcome(section, before + (key + rest)) == Ok::<
            Seq<char>,
            Seq<char>,
        >(section),
{
    let core = key + rest;
    let physical = before + core;
    let n = key.len() as int;
    assert(core[0] == key[0] && name_letter(key[0]));
    leading_blanks(before, core);
    assert(name_letter(key[n - 1]));
    assert(physical.last() != '\\') by {
        if rest.len() > 0 {
            assert(physical.last() == rest.last());
        } else {
            assert(physical.last() == key.last());
        }
    }
    assert(trailing_slashes(physical) == 0);
    assert forall|i: int| 0 <= i < n implies key_char(#[trigger] core[i]) by {
        assert(core[i] == key[i]);
        assert(name_letter(key[i]));
    }
    if rest.len() > 0 {
        assert(core[n] == rest[0]);
    }
    key_run_is(core, n);
    assert(core.take(n) =~= key);
    assert(crate::git::config::lowered(key) =~= lowercase(key));
}

/// A line that goes on in the next one is refused.
pub proof fn continued_lines_are_refused(section: Seq<char>, before: Seq<char>, s: Seq<char>)
    requires
        blank(before),
        s.len() > 0,
        !is_space(s[0]),
        s[0] != '#',
        s[0] != ';',
        s.last() != '\\',
    ensures
        line_outcome(section, before + (s + seq!['\\'])) is Err,
{
    let core = s + seq!['\\'];
    let physical = before + core;
    assert(core[0] == s[0]);
    leading_blanks(before, core);
    assert(physical.drop_last() =~= before + s);
    assert((before + s).last() == s.last());
    assert(trailing_slashes(physical.drop_last()) == 0);
    assert(trailing_slashes(physical) == 1);
}

/// One line of ordinary settings.
pub ghost enum Row {
    Remark(Seq<char>),
    Section(Seq<char>, Option<Seq<char>>),
    Setting(Seq<char>, Seq<char>),
}

/// The line as it is written.
pub open spec fn row_text(row: Row) -> Seq<char> {
    match row {
        Row::Remark(text) => seq!['\t'] + (seq!['#'] + text),
        Row::Section(name, sub) => seq![] + (seq!['['] + name + subsection(sub) + seq![']'] + seq![]),
        Row::Setting(key, value) => seq!['\t'] + (key + (seq![' ', '=', ' '] + value)),
    }
}

/// Nothing on the line is unusual: no section that brings in other files, and no
/// setting of another layout.
pub open spec fn ordinary_row(row: Row) -> bool {
    match row {
        Row::Remark(text) => forall|i: int|
            0 <= i < text.len() ==> #[trigger] text[i] != '\n' && text[i] != '\r',
        Row::Section(name, sub) => {
            &&& plain_name(name)
            &&& lowercase(name) != "include"@ && lowercase(name) != "includeif"@
            &&& sub matches Some(own) ==> quotable(own) && forall|i: int|
                0 <= i < own.len() ==> #[trigger] own[i] != '\n' && own[i] != '\r'
        },
        Row::Setting(key, value) => {
            &&& plain_name(key)
            &&& lowercase(key) != "sparsecheckout"@
            &&& lowercase(key) != "sparsecheckoutcone"@
            &&& lowercase(key) != "objectformat"@
            &&& lowercase(key) != "sparseindex"@
            &&& value.len() > 0 && value.last() != '\\'
            &&& forall|i: int| 0 <= i < value.len() ==> #[trigger] value[i] != '\n' && value[i]
                != '\r'
        },
    }
}

proof fn ordinary_rows_pass(section: Seq<char>, row: Row)
    requires
        ordinary_row(row),
    ensures
        line_outcome(section, row_text(row)) is Ok,
        forall|j: int|
            0 <= j < row_text(row).len() ==> #[trigger] row_text(row)[j] != '\n' && row_text(row)[j]
                != '\r',
{
    assert(blank(seq!['\t']));
    match row {
        Row::Remark(text) => {
            comments_are_passed(section, seq!['\t'], text);
        },
        Row::Section(name, sub) => {
            sections_are_read(section, Seq::empty(), name, sub, Seq::empty());
            assert forall|j: int| 0 <= j < row_text(row).len() implies #[trigger] row_text(row)[j]
                != '\n' && row_text(row)[j] != '\r' by {
                let n = name.len() as int;
                if 1 <= j < 1 + n {
                    assert(row_text(row)[j] == name[j - 1]);
                    assert(name_letter(name[j - 1]));
                } else if let Some(own) = sub {
                    if 3 + n <= j < 3 + n + own.len() {
                        assert(row_text(row)[j] == own[j - 3 - n]);
                    }
                }
            }
        },
        Row::Setting(key, value) => {
            let rest = seq![' ', '=', ' '] + value;
            settings_are_read(section, seq!['\t'], key, rest);
            assert forall|j: int| 0 <= j < row_text(row).len() implies #[trigger] row_text(row)[j]
                != '\n' && row_text(row)[j] != '\r' by {
                let n = key.len() as int;
                if 1 <= j < 1 + n {
                    assert(row_text(row)[j] == key[j - 1]);
                    assert(name_letter(key[j - 1]));
                } else if j >= 4 + n {
                    assert(row_text(row)[j] == value[j - 4 - n]);
                }
            }
        },
    }
}

proof fn ordinary_lines_pass(section: Seq<char>, rows: Seq<Row>)
    requires
        forall|i: int| 0 <= i < rows.len() ==> ordinary_row(#[trigger] rows[i]),
    ensures
        lines_outcome(section, rows.map_values(|row: Row| row_text(row))) is Ok,
    decreases rows.len(),
{
    let texts = rows.map_values(|row: Row| row_text(row));
    if rows.len() > 0 {
        ordinary_rows_pass(section, rows[0]);
        assert(texts[0] == row_text(rows[0]));
        let next = line_outcome(section, texts[0])->Ok_0;
        assert forall|i: int| 0 <= i < rows.skip(1).len() implies ordinary_row(
            #[trigger] rows.skip(1)[i],
        ) by {
            assert(rows.skip(1)[i] == rows[i + 1]);
        }
        ordinary_lines_pass(next, rows.skip(1));
        assert(texts.skip(1) =~= rows.skip(1).map_values(|row: Row| row_text(row)));
    }
}

/// Ordinary settings are accepted, however many sections and settings there are.
pub proof fn ordinary_settings_are_accepted(bytes: Seq<u8>, rows: Seq<Row>)
    requires
        forall|i: int| 0 <= i < rows.len() ==> ordinary_row(#[trigger] rows[i]),
        bytes.len() < 3 || bytes[0] != 0xef,
        valid_utf8(bytes),
        decode_utf8(bytes) == written(rows.map_values(|row: Row| row_text(row)), seq!['\n']),
    ensures
        config_outcome(bytes) is Ok,
{
    let texts = rows.map_values(|row: Row| row_text(row));
    assert(plain_lines(texts)) by {
        assert forall|i: int, j: int| 0 <= i < texts.len() && 0 <= j < texts[i].len() implies #[trigger] texts[i][j]
            != '\n' && texts[i][j] != '\r' by {
            assert(ordinary_row(rows[i]));
            ordinary_rows_pass(Seq::empty(), rows[i]);
            assert(texts[i] == row_text(rows[i]));
        }
    }
    lines_are_read_as_written(texts, false);
    ordinary_lines_pass(Seq::empty(), rows);
}

/// The folder reached by going down these names, one after the other.
pub open spec fn descended(base: Seq<u8>, parts: Seq<Seq<u8>>) -> Seq<u8>
    decreases parts.len(),
{
    if parts.len() == 0 {
        base
    } else {
        descended(child(base, parts[0]), parts.skip(1))
    }
}

/// A name to go down.
pub open spec fn step_name(part: Seq<u8>) -> bool {
    &&& part.len() > 0
    &&& part != seq![46u8]
    &&& part != seq![46u8, 46u8]
    &&& forall|i: int|
        0 <= i < part.len() ==> #[trigger] part[i] != 47u8 && part[i] != 0u8 && part[i] != 10u8
            && part[i] != 13u8
}

proof fn names_are_followed(base: Seq<u8>, down: bool, parts: Seq<Seq<u8>>)
    requires
        forall|i: int| 0 <= i < parts.len() ==> step_name(#[trigger] parts[i]),
    ensures
        followed(base, down, parts) == Ok::<Seq<u8>, Seq<char>>(descended(base, parts)),
    decreases parts.len(),
{
    if parts.len() > 0 {
        assert(step_name(parts[0]));
        assert forall|i: int| 0 <= i < parts.skip(1).len() implies step_name(
            #[trigger] parts.skip(1)[i],
        ) by {
            assert(parts.skip(1)[i] == parts[i + 1]);
        }
        names_are_followed(child(base, parts[0]), true, parts.skip(1));
    }
}

proof fn joined_names(parts: Seq<Seq<u8>>)
    requires
        parts.len() > 0,
        forall|i: int| 0 <= i < parts.len() ==> step_name(#[trigger] parts[i]),
    ensures
        between(parts, 47u8).len() > 0,
        between(parts, 47u8)[0] != 47u8,
        forall|i: int|
            0 <= i < between(parts, 47u8).len() ==> {
                let b = #[trigger] between(parts, 47u8)[i];
                b != 0u8 && b != 10u8 && b != 13u8
            },
        pieces(between(parts, 47u8), 47u8) == parts,
    decreases parts.len(),
{
    let whole = between(parts, 47u8);
    let first = parts[0];
    assert(step_name(first));
    assert(unmarked(parts, 47u8)) by {
        assert forall|i: int, j: int| 0 <= i < parts.len() && 0 <= j < parts[i].len() implies #[trigger] parts[i][j]
            != 47u8 by {
            assert(step_name(parts[i]));
        }
    }
    splitting_gives_the_parts_back(parts, 47u8);
    assert(whole[0] == first[0]);
    if parts.len() > 1 {
        let rest = parts.skip(1);
        assert forall|i: int| 0 <= i < rest.len() implies step_name(#[trigger] rest[i]) by {
            assert(rest[i] == parts[i + 1]);
        }
        joined_names(rest);
        assert forall|i: int| 0 <= i < whole.len() implies {
            let b = #[trigger] whole[i];
            b != 0u8 && b != 10u8 && b != 13u8
        } by {
            if i < first.len() {
                assert(whole[i] == first[i]);
            } else if i > first.len() {
                assert(whole[i] == between(rest, 47u8)[i - first.len() - 1]);
            }
        }
    }
}

proof fn one_line_text(text: Seq<u8>, end: Seq<u8>)
    requires
        text.len() > 0,
        end == Seq::<u8>::empty() || end == seq![10u8] || end == seq![13u8, 10u8],
        forall|i: int|
            0 <= i < text.len() ==> {
                let b = #[trigger] text[i];
                b != 0u8 && b != 10u8 && b != 13u8
            },
    ensures
        pointer_text(text + end) == text,
        !text.contains(0) && !text.contains(10) && !text.contains(13),
{
    let last = text[text.len() - 1];
    assert(last != 10u8 && last != 13u8);
    if end.len() == 0 {
        assert(text + end =~= text);
    } else if end.len() == 1 {
        assert((text + end).drop_last() =~= text);
    } else {
        assert((text + end).drop_last() =~= text.push(13u8));
        assert(text.push(13u8).drop_last() =~= text);
    }
}

/// A pointer in names alone leads down from its folder, one that begins with a slash
/// down from the root of the file system, whichever line end it has; either only
/// within the authorized folder.
pub proof fn pointers_lead_down(
    root: Seq<u8>,
    base: Seq<u8>,
    parts: Seq<Seq<u8>>,
    end: Seq<u8>,
)
    requires
        parts.len() > 0,
        forall|i: int| 0 <= i < parts.len() ==> step_name(#[trigger] parts[i]),
        end == Seq::<u8>::empty() || end == seq![10u8] || end == seq![13u8, 10u8],
    ensures
        under(descended(base, parts), root) ==> pointer_outcome(
            root,
            base,
            between(parts, 47u8) + end,
        ) == Ok::<Seq<u8>, Seq<char>>(descended(base, parts)),
        !under(descended(base, parts), root) ==> pointer_outcome(
            root,
            base,
            between(parts, 47u8) + end,
        ) is Err,
        under(descended(seq![47u8], parts), root) ==> pointer_outcome(
            root,
            base,
            seq![47u8] + between(parts, 47u8) + end,
        ) == Ok::<Seq<u8>, Seq<char>>(descended(seq![47u8], parts)),
        !under(descended(seq![47u8], parts), root) ==> pointer_outcome(
            root,
            base,
            seq![47u8] + between(parts, 47u8) + end,
        ) is Err,
{
    joined_names(parts);
    let text = between(parts, 47u8);
    one_line_text(text, end);
    names_are_followed(base, false, parts);
    let whole = seq![47u8] + text;
    assert forall|i: int| 0 <= i < whole.len() implies {
        let b = #[trigger] whole[i];
        b != 0u8 && b != 10u8 && b != 13u8
    } by {
        if i > 0 {
            assert(whole[i] == text[i - 1]);
        }
    }
    one_line_text(whole, end);
    index_of_is(whole, 47u8, 0);
    assert(whole.take(0) =~= Seq::<u8>::empty());
    assert(whole.skip(1) =~= text);
    let all = seq![Seq::<u8>::empty()] + parts;
    assert(pieces(whole, 47u8) =~= all);
    assert(all[0].len() == 0);
    assert(all.skip(1) =~= parts);
    names_are_followed(seq![47u8], false, parts);
    assert(root_path() =~= seq![47u8]);
    assert(followed(root_path(), false, all) == followed(root_path(), false, parts));
}

/// Two points at the beginning lead to the folder above, and nowhere behind a name.
pub proof fn two_points_lead_up(base: Seq<u8>, above: Seq<u8>, parts: Seq<Seq<u8>>)
    requires
        parent_of(base) == Some(above),
    ensures
        followed(base, false, seq![seq![46u8, 46u8]] + parts) == followed(above, false, parts),
        followed(base, true, seq![seq![46u8, 46u8]] + parts) is Err,
        followed(base, false, seq![seq![46u8]] + parts) == followed(base, false, parts),
{
    let up = seq![seq![46u8, 46u8]] + parts;
    let stay = seq![seq![46u8]] + parts;
    assert(up[0] =~= seq![46u8, 46u8]);
    assert(up[0].len() == 2);
    assert(up.skip(1) =~= parts);
    assert(stay.skip(1) =~= parts);
    assert(stay[0] =~= seq![46u8]);
    assert(seq![46u8].len() == 1);
}

/// An artifact of a project without a repository is untracked. In a repository it is
/// once the metadata was read, was the same when it was read again, the process was
/// silent, and the metadata was the same once more.
pub proof fn the_untracked_is_found_so(
    root: Root,
    project: Seq<u8>,
    artifact: Seq<u8>,
    user: u32,
    from: Inquiry,
    to: Inquiry,
    wanted: Wanted,
    told: Told,
    after: Inquiry,
)
    requires
        moves(root, project, artifact, user, false, from, to, wanted),
        tells(user, from, told, after),
    ensures
        from matches Inquiry::Finding { markers } ==> (repository_step(root, project, markers@)
            == Got::<Option<Seq<u8>>>::Have(None) ==> to == Inquiry::Untracked(None)),
        from matches Inquiry::Capturing { found, again } ==> ((again.valid matches Some(Ok(_)))
            && (all_unchanged(root, again.now, found.entries@) is Have) && under(
            artifact,
            found.work_tree@,
        ) ==> to is Asking),
        from is Asking && (told matches Told::Process(Ok(_))) ==> after is Answering,
        from is Asking ==> wanted is Process,
        from is Answering ==> wanted is Answer,
        from is Answering && (told matches Told::Answer(round) && refusal(round) is None
            && round.child is Succeeded) ==> after is Confirming,
        from matches Inquiry::Confirming { found, again } ==> ((again.valid matches Some(Ok(_)))
            && (all_unchanged(root, again.now, found.entries@) is Have) ==> to == Inquiry::Untracked(
            Some(found),
        )),
        from is Confirming || from is Capturing ==> !(wanted is Process) && !(wanted is Answer),
{
}

/// A name with a point in it is read by what stands before the first point.
pub proof fn pointed_sections_are_read_by_their_first_name(
    section: Seq<char>,
    before: Seq<char>,
    name: Seq<char>,
    more: Seq<char>,
    rest: Seq<char>,
)
    requires
        blank(before),
        plain_name(name),
        plain_name(more),
        rest.len() > 0 ==> rest.last() != '\\',
    ensures
        ({
            let line = before + (seq!['['] + (name + seq!['.'] + more) + seq![']'] + rest);
            if lowercase(name) == "include"@ || lowercase(name) == "includeif"@ {
                line_outcome(section, line) is Err
            } else {
                line_outcome(section, line) == line_outcome(lowercase(name), rest)
            }
        }),
{
    let whole = name + seq!['.'] + more;
    let core = seq!['['] + whole + seq![']'] + rest;
    let physical = before + core;
    let header = whole + seq![']'] + rest;
    assert(core[0] == '[');
    leading_blanks(before, core);
    assert(core.skip(1) =~= header);
    assert(name_letter(name[0]));
    leading_blanks(Seq::empty(), header);
    assert(Seq::<char>::empty() + header =~= header);
    assert(header[0] == name[0]);
    assert(physical.last() != '\\') by {
        if rest.len() > 0 {
            assert(physical.last() == rest.last());
        } else {
            assert(physical.last() == ']');
        }
    }
    assert(trailing_slashes(physical) == 0);
    let n = whole.len() as int;
    let m = name.len() as int;
    assert forall|i: int| 0 <= i < n implies section_char(#[trigger] header[i]) by {
        assert(header[i] == whole[i]);
        if i < m {
            assert(name_letter(name[i]));
        } else if i > m {
            assert(whole[i] == more[i - m - 1]);
            assert(name_letter(more[i - m - 1]));
        }
    }
    assert(header[n] == ']');
    section_run_is(header, n);
    assert(header.take(n) =~= whole);
    assert forall|i: int| 0 <= i < m implies whole[i] != '.' by {
        assert(whole[i] == name[i]);
        assert(name_letter(name[i]));
    }
    index_of_is(whole, '.', m);
    assert(whole.take(m) =~= name);
    assert(pieces(whole, '.')[0] == name);
    assert(header_section(header) =~= lowercase(name));
    assert(header.contains(']')) by {
        assert(header[n] == ']');
    }
    assert(closing(header, false) == Some(n)) by {
        assert forall|i: int| 0 <= i < whole.len() implies #[trigger] whole[i] != '"' && whole[i]
            != ']' && whole[i] != '\\' by {
            assert(section_char(header[i]));
        }
        let tail = seq![']'] + rest;
        assert(header =~= whole + tail);
        closing_after(whole, tail);
        assert(tail[0] == ']');
        assert(closing(tail, false) == Some(0int));
    }
    assert(header.skip(n + 1) =~= rest);
}

} // verus!
