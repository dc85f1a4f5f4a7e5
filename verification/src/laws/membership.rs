//! Which folders a workspace has for its members.
use crate::laws::texts::{
    between, blank, blanks_are_known, lines_are_read_as_written, plain_lines,
    splitting_gives_the_parts_back, trimming_takes_the_blanks, unmarked, written,
};
use crate::manifest::{all_texts, workspaces_outcome};
use crate::document::Doc;
use crate::pnpm::{
    importer_key, lock_fold, lock_importers, lock_owns, lock_start, lock_step, membership_fold,
    membership_outcome, scalar_outcome, LockState, MembershipState,
};
use crate::text::{begins, ends, has_any, lines, occurs, occurs_at, pieces};
use crate::workspace::{
    entry_outcome, first_failure, glob, includes, matched, negated, path_matches, pattern_outcome,
    plain_pattern, unsupported_part, without_slashes,
};
use vstd::prelude::*;
use vstd::utf8::{decode_utf8, encode_utf8, valid_utf8};

verus! {

/// No star in it.
pub open spec fn starless(s: Seq<char>) -> bool {
    forall|i: int| 0 <= i < s.len() ==> #[trigger] s[i] != '*'
}

/// A pattern without a star matches itself and nothing else.
pub proof fn plain_patterns_match_themselves(p: Seq<char>, s: Seq<char>)
    requires
        starless(p),
    ensures
        glob(p, s) == (p == s),
    decreases p.len(),
{
    if p.len() == 0 {
        assert(s.len() == 0 ==> s =~= p);
    } else {
        assert(p[0] != '*');
        let rest = p.skip(1);
        assert forall|i: int| 0 <= i < rest.len() implies #[trigger] rest[i] != '*' by {
            assert(p[i + 1] != '*');
        }
        if s.len() > 0 {
            plain_patterns_match_themselves(rest, s.skip(1));
            if p == s {
                assert(p.skip(1) == s.skip(1));
            }
            if s[0] == p[0] && rest == s.skip(1) {
                assert(p =~= seq![p[0]] + rest);
                assert(s =~= seq![s[0]] + s.skip(1));
            }
        }
    }
}

proof fn star_before(back: Seq<char>, s: Seq<char>)
    requires
        starless(back),
    ensures
        glob(seq!['*'] + back, s) == (exists|mid: Seq<char>| s == #[trigger] (mid + back)),
    decreases s.len(),
{
    let p = seq!['*'] + back;
    assert(p.skip(1) =~= back);
    assert(p[0] == '*');
    plain_patterns_match_themselves(back, s);
    if s.len() > 0 {
        star_before(back, s.skip(1));
    }
    if glob(p, s) {
        if back == s {
            assert(Seq::<char>::empty() + back =~= s);
        } else {
            let mid = choose|mid: Seq<char>| s.skip(1) == #[trigger] (mid + back);
            assert(s =~= seq![s[0]] + s.skip(1));
            assert(s =~= (seq![s[0]] + mid) + back);
        }
    }
    if exists|mid: Seq<char>| s == #[trigger] (mid + back) {
        let mid = choose|mid: Seq<char>| s == #[trigger] (mid + back);
        if mid.len() == 0 {
            assert(mid + back =~= back);
        } else {
            assert(s.skip(1) =~= mid.skip(1) + back);
        }
    }
}

/// A star stands for anything, also for nothing: what is before it and what is after
/// it must be there.
pub proof fn a_star_stands_for_anything(front: Seq<char>, back: Seq<char>, s: Seq<char>)
    requires
        starless(front),
        starless(back),
    ensures
        glob(front + seq!['*'] + back, s) == (exists|mid: Seq<char>|
            s == #[trigger] (front + mid + back)),
    decreases front.len(),
{
    let p = front + seq!['*'] + back;
    if front.len() == 0 {
        assert(p =~= seq!['*'] + back);
        star_before(back, s);
        if exists|mid: Seq<char>| s == #[trigger] (mid + back) {
            let mid = choose|mid: Seq<char>| s == #[trigger] (mid + back);
            assert(front + mid + back =~= s);
        }
        if exists|mid: Seq<char>| s == #[trigger] (front + mid + back) {
            let mid = choose|mid: Seq<char>| s == #[trigger] (front + mid + back);
            assert(mid + back =~= s);
        }
    } else {
        let rest = front.skip(1);
        assert(front[0] != '*');
        assert(p[0] == front[0]);
        assert(p.skip(1) =~= rest + seq!['*'] + back);
        assert forall|i: int| 0 <= i < rest.len() implies #[trigger] rest[i] != '*' by {
            assert(front[i + 1] != '*');
        }
        if s.len() > 0 {
            a_star_stands_for_anything(rest, back, s.skip(1));
        }
        if glob(p, s) {
            let mid = choose|mid: Seq<char>| s.skip(1) == #[trigger] (rest + mid + back);
            assert(s =~= seq![s[0]] + s.skip(1));
            assert(front =~= seq![front[0]] + rest);
            assert(front + mid + back =~= s);
        }
        if exists|mid: Seq<char>| s == #[trigger] (front + mid + back) {
            let mid = choose|mid: Seq<char>| s == #[trigger] (front + mid + back);
            assert(s[0] == front[0]);
            assert(s.skip(1) =~= rest + mid + back);
        }
    }
}

/// A component that stands for itself in a pattern.
pub open spec fn plain_component(part: Seq<char>) -> bool {
    &&& part.len() > 0
    &&& part != "."@
    &&& part != ".."@
    &&& forall|i: int|
        0 <= i < part.len() ==> {
            let c = #[trigger] part[i];
            c != '/' && c != '*' && c != '?' && c != '[' && c != ']' && c != '{' && c != '}' && c
                != '!' && c != '\\' && c != '(' && c != ')' && c != '|'
        }
}

/// A path of such components.
pub open spec fn plain_path(parts: Seq<Seq<char>>) -> bool {
    &&& 0 < parts.len() <= 64
    &&& forall|i: int| 0 <= i < parts.len() ==> plain_component(#[trigger] parts[i])
    &&& encode_utf8(between(parts, '/')).len() <= 1024
}

proof fn special_marks(c: char)
    requires
        "?[]{}!\\()|"@.contains(c),
    ensures
        c == '?' || c == '[' || c == ']' || c == '{' || c == '}' || c == '!' || c == '\\' || c
            == '(' || c == ')' || c == '|',
{
    reveal_strlit("?[]{}!\\()|");
    let s = "?[]{}!\\()|"@;
    assert(s.len() == 10);
    let i = choose|i: int| 0 <= i < s.len() && s[i] == c;
}

proof fn plain_components_are_supported(part: Seq<char>)
    requires
        plain_component(part),
    ensures
        !unsupported_part(part),
{
    if occurs(part, "**"@) {
        reveal_strlit("**");
        let at = choose|at: int| occurs_at(part, "**"@, at);
        assert(part.subrange(at, at + 2)[0] == '*');
        assert(part[at] != '*');
    }
    if has_any(part, "?[]{}!\\()|"@) {
        let i = choose|i: int| 0 <= i < part.len() && "?[]{}!\\()|"@.contains(#[trigger] part[i]);
        special_marks(part[i]);
    }
}

proof fn between_ends(parts: Seq<Seq<char>>)
    requires
        parts.len() > 0,
        forall|i: int| 0 <= i < parts.len() ==> (#[trigger] parts[i]).len() > 0,
    ensures
        between(parts, '/').len() > 0,
        between(parts, '/')[0] == parts[0][0],
        between(parts, '/').last() == parts.last().last(),
        between(parts, '/').len() >= 2 && between(parts, '/')[1] == '/' ==> parts[0].len() == 1
            || parts[0][1] == '/',
    decreases parts.len(),
{
    let whole = between(parts, '/');
    assert(parts[0].len() > 0);
    if parts.len() > 1 {
        let rest = parts.skip(1);
        assert forall|i: int| 0 <= i < rest.len() implies (#[trigger] rest[i]).len() > 0 by {
            assert(rest[i] == parts[i + 1]);
        }
        between_ends(rest);
        assert(rest.last() == parts.last());
        assert(whole.last() == between(rest, '/').last());
    }
}

/// A plain path is its own pattern: nothing is taken off it.
proof fn plain_paths_are_patterns(parts: Seq<Seq<char>>)
    requires
        plain_path(parts),
    ensures
        plain_pattern(between(parts, '/')) == between(parts, '/'),
        pieces(between(parts, '/'), '/') == parts,
        between(parts, '/') != "."@,
        between(parts, '/').len() > 0,
        between(parts, '/')[0] != '/',
        between(parts, '/')[0] != '!',
        forall|i: int| 0 <= i < parts.len() ==> !unsupported_part(#[trigger] parts[i]),
{
    let whole = between(parts, '/');
    assert forall|i: int| 0 <= i < parts.len() implies (#[trigger] parts[i]).len() > 0 by {
        assert(plain_component(parts[i]));
    }
    between_ends(parts);
    let last = parts.last();
    assert(plain_component(parts[parts.len() - 1]));
    assert(last[last.len() - 1] != '/');
    assert(without_slashes(whole) == whole);
    assert(plain_component(parts[0]));
    assert(parts[0][0] != '/' && parts[0][0] != '!');
    reveal_strlit("./");
    reveal_strlit(".");
    if begins(whole, "./"@) {
        assert(whole.take(2)[0] == '.' && whole.take(2)[1] == '/');
        if parts[0].len() > 1 {
            assert(parts[0][1] != '/');
        } else {
            assert(parts[0] =~= "."@);
        }
    }
    assert(unmarked(parts, '/')) by {
        assert forall|i: int, j: int| 0 <= i < parts.len() && 0 <= j < parts[i].len() implies #[trigger] parts[i][j]
            != '/' by {
            assert(plain_component(parts[i]));
        }
    }
    splitting_gives_the_parts_back(parts, '/');
    if whole == "."@ {
        if parts.len() == 1 {
            assert(parts[0] == "."@);
        } else {
            assert(whole.len() > parts[0].len());
        }
    }
    assert forall|i: int| 0 <= i < parts.len() implies !unsupported_part(#[trigger] parts[i]) by {
        plain_components_are_supported(parts[i]);
    }
}

proof fn same_components_match(parts: Seq<Seq<char>>, others: Seq<Seq<char>>)
    requires
        forall|i: int| 0 <= i < parts.len() ==> plain_component(#[trigger] parts[i]),
    ensures
        path_matches(parts, others) == (parts == others),
    decreases parts.len(),
{
    if parts.len() == 0 {
        assert(others.len() == 0 ==> others =~= parts);
    } else {
        let last = parts.last();
        assert(plain_component(parts[parts.len() - 1]));
        assert(last != "**"@) by {
            reveal_strlit("**");
            assert(last[0] != '*');
        }
        let front = parts.drop_last();
        assert forall|i: int| 0 <= i < front.len() implies plain_component(#[trigger] front[i]) by {
            assert(front[i] == parts[i]);
        }
        if others.len() > 0 {
            same_components_match(front, others.drop_last());
            assert forall|i: int| 0 <= i < last.len() implies #[trigger] last[i] != '*' by {}
            plain_patterns_match_themselves(last, others.last());
            if last == others.last() && front == others.drop_last() {
                assert(parts =~= front.push(last));
                assert(others =~= others.drop_last().push(others.last()));
            }
        }
    }
}

/// A pattern that is a plain path matches this path and no other.
pub proof fn a_plain_pattern_is_its_path(parts: Seq<Seq<char>>, others: Seq<Seq<char>>)
    requires
        plain_path(parts),
        plain_path(others),
    ensures
        pattern_outcome(between(parts, '/'), between(others, '/')) == Ok::<bool, Seq<char>>(
            parts == others,
        ),
        entry_outcome(between(parts, '/'), between(others, '/')) == Ok::<bool, Seq<char>>(
            parts == others,
        ),
        entry_outcome(seq!['!'] + between(parts, '/'), between(others, '/')) == Ok::<
            bool,
            Seq<char>,
        >(parts == others),
{
    plain_paths_are_patterns(parts);
    plain_paths_are_patterns(others);
    same_components_match(parts, others);
    let no = seq!['!'] + between(parts, '/');
    assert(no.skip(1) =~= between(parts, '/'));
}

/// A list has a member exactly when one of its patterns matches it and none that
/// begins with an exclamation mark does, as long as every pattern is supported and
/// there are no more than five hundred and twelve.
pub proof fn lists_have_their_members(list: Seq<Seq<char>>, relative: Seq<char>)
    requires
        list.len() <= 512,
        forall|i: int| 0 <= i < list.len() ==> entry_outcome(#[trigger] list[i], relative) is Ok,
    ensures
        includes(list, relative) == Ok::<bool, Seq<char>>(
            (exists|i: int|
                0 <= i < list.len() && !((#[trigger] list[i]).len() > 0 && list[i][0] == '!')
                    && entry_outcome(list[i], relative) == Ok::<bool, Seq<char>>(true)) && !(
            exists|i: int|
                0 <= i < list.len() && ((#[trigger] list[i]).len() > 0 && list[i][0] == '!')
                    && entry_outcome(list[i], relative) == Ok::<bool, Seq<char>>(true)),
        ),
{
    no_pattern_fails(list, relative);
    if matched(list, relative, false) {
        let i = choose|i: int|
            0 <= i < list.len() && negated(#[trigger] list[i]) == false && entry_outcome(
                list[i],
                relative,
            ) == Ok::<bool, Seq<char>>(true);
        assert(!(list[i].len() > 0 && list[i][0] == '!'));
    }
    if matched(list, relative, true) {
        let i = choose|i: int|
            0 <= i < list.len() && negated(#[trigger] list[i]) == true && entry_outcome(
                list[i],
                relative,
            ) == Ok::<bool, Seq<char>>(true);
        assert(list[i].len() > 0 && list[i][0] == '!');
    }
}

proof fn no_pattern_fails(list: Seq<Seq<char>>, relative: Seq<char>)
    requires
        forall|i: int| 0 <= i < list.len() ==> entry_outcome(#[trigger] list[i], relative) is Ok,
    ensures
        first_failure(list, relative) is None,
    decreases list.len(),
{
    if list.len() > 0 {
        let front = list.drop_last();
        assert forall|i: int| 0 <= i < front.len() implies entry_outcome(
            #[trigger] front[i],
            relative,
        ) is Ok by {
            assert(front[i] == list[i]);
        }
        no_pattern_fails(front, relative);
        assert(entry_outcome(list[list.len() - 1], relative) is Ok);
    }
}

/// A list with more patterns, or with one that is not supported, has no answer.
pub proof fn unsupported_lists_have_no_answer(list: Seq<Seq<char>>, relative: Seq<char>, i: int)
    ensures
        list.len() > 512 ==> includes(list, relative) is Err,
        0 <= i < list.len() && entry_outcome(list[i], relative) is Err ==> includes(
            list,
            relative,
        ) is Err,
    decreases list.len(),
{
    if 0 <= i < list.len() && entry_outcome(list[i], relative) is Err {
        a_failing_pattern(list, relative, i);
    }
}

proof fn a_failing_pattern(list: Seq<Seq<char>>, relative: Seq<char>, i: int)
    requires
        0 <= i < list.len(),
        entry_outcome(list[i], relative) is Err,
    ensures
        first_failure(list, relative) is Some,
    decreases list.len(),
{
    if i < list.len() - 1 {
        assert(list.drop_last()[i] == list[i]);
        a_failing_pattern(list.drop_last(), relative, i);
    }
}

/// A pattern that ends in a star of its own has every child that is not hidden of the
/// folder before it, and nothing else.
pub proof fn a_star_has_the_visible_children(
    parts: Seq<Seq<char>>,
    others: Seq<Seq<char>>,
    name: Seq<char>,
)
    requires
        plain_path(parts),
        plain_path(others.push(name)),
        parts.len() < 64,
        encode_utf8(between(parts.push("*"@), '/')).len() <= 1024,
    ensures
        pattern_outcome(between(parts.push("*"@), '/'), between(others.push(name), '/')) == Ok::<
            bool,
            Seq<char>,
        >(parts == others && name[0] != '.'),
{
    let star = parts.push("*"@);
    let whole = between(star, '/');
    reveal_strlit("*");
    reveal_strlit("**");
    reveal_strlit(".");
    reveal_strlit("..");
    reveal_strlit("./");
    assert("*"@.len() == 1 && "*"@[0] == '*');
    assert forall|i: int| 0 <= i < star.len() implies (#[trigger] star[i]).len() > 0 by {
        if i < parts.len() {
            assert(plain_component(parts[i]));
        }
    }
    between_ends(star);
    assert(star.last().last() == '*');
    assert(without_slashes(whole) == whole);
    assert(plain_component(parts[0]));
    assert(star[0] == parts[0]);
    assert(parts[0][0] != '/');
    if begins(whole, "./"@) {
        assert(whole.take(2)[0] == '.' && whole.take(2)[1] == '/');
        if parts[0].len() > 1 {
            assert(parts[0][1] != '/');
        } else {
            assert(parts[0] =~= "."@);
        }
    }
    assert(unmarked(star, '/')) by {
        assert forall|i: int, j: int| 0 <= i < star.len() && 0 <= j < star[i].len() implies #[trigger] star[i][j]
            != '/' by {
            if i < parts.len() {
                assert(plain_component(parts[i]));
                assert(star[i] == parts[i]);
            }
        }
    }
    splitting_gives_the_parts_back(star, '/');
    plain_paths_are_patterns(others.push(name));
    assert(star.len() >= 2);
    assert(whole.len() > 1) by {
        assert(whole.last() == '*');
        assert(whole[0] == parts[0][0] && parts[0][0] != '*');
    }
    assert forall|i: int| 0 <= i < star.len() implies !unsupported_part(#[trigger] star[i]) by {
        if i < parts.len() {
            plain_components_are_supported(parts[i]);
            assert(star[i] == parts[i]);
        } else {
            if occurs("*"@, "**"@) {
                let at = choose|at: int| occurs_at("*"@, "**"@, at);
            }
            if has_any("*"@, "?[]{}!\\()|"@) {
                special_marks('*');
            }
        }
    }
    let all = others.push(name);
    assert(all.drop_last() =~= others);
    assert(star.drop_last() =~= parts);
    assert(plain_component(all[all.len() - 1]));
    same_components_match(parts, others);
    assert(glob("*"@, name)) by {
        a_star_stands_for_anything(Seq::empty(), Seq::empty(), name);
        assert(Seq::<char>::empty() + name + Seq::<char>::empty() =~= name);
        assert(Seq::<char>::empty() + seq!['*'] + Seq::<char>::empty() =~= "*"@);
    }
    assert("*"@ != "**"@);
}

/// A workspace declares the texts of its list, given directly or under `packages`; a
/// manifest without workspaces declares none.
pub proof fn workspaces_declare_their_list(manifest: Doc, items: Seq<Doc>, list: Seq<Seq<char>>)
    requires
        items.len() == list.len(),
        forall|i: int| 0 <= i < items.len() ==> #[trigger] items[i] == Doc::Text(list[i]),
    ensures
        manifest.field("workspaces"@) is None ==> workspaces_outcome(manifest) == Ok::<
            Seq<Seq<char>>,
            Seq<char>,
        >(seq![]),
        manifest.field("workspaces"@) == Some(Doc::List(items)) ==> workspaces_outcome(manifest)
            == Ok::<Seq<Seq<char>>, Seq<char>>(list),
        manifest.field("workspaces"@) matches Some(Doc::Table(entries)) && Doc::Table(
            entries,
        ).field("packages"@) == Some(Doc::List(items)) ==> workspaces_outcome(manifest) == Ok::<
            Seq<Seq<char>>,
            Seq<char>,
        >(list),
{
    every_text(items, list);
}

proof fn every_text(items: Seq<Doc>, list: Seq<Seq<char>>)
    requires
        items.len() == list.len(),
        forall|i: int| 0 <= i < items.len() ==> #[trigger] items[i] == Doc::Text(list[i]),
    ensures
        all_texts(items) == Some(list),
    decreases items.len(),
{
    if items.len() > 0 {
        assert(items[items.len() - 1] == Doc::Text(list[items.len() - 1]));
        every_text(items.drop_last(), list.drop_last());
        assert(list.drop_last().push(list.last()) =~= list);
    } else {
        assert(list =~= seq![]);
    }
}

/// A text that is no more than itself in such a file.
pub open spec fn simple(s: Seq<char>) -> bool {
    &&& s.len() > 0
    &&& forall|i: int|
        0 <= i < s.len() ==> {
            let c = #[trigger] s[i];
            c != '\'' && c != '"' && c != '\\' && c != '#' && c != '&' && c != '|' && c != '>' && c
                != '{' && c != '}' && c != '[' && c != ']' && c != '\n' && c != '\r'
        }
}

/// It has no blank at either end and does not begin like an alias or a tag.
pub open spec fn bare(s: Seq<char>) -> bool {
    &&& simple(s)
    &&& 0x20 < s[0] as u32 <= 0x7e && 0x20 < s.last() as u32 <= 0x7e
    &&& s[0] != '*'
    &&& s[0] != '!'
}

proof fn simple_texts_have_no_marks(s: Seq<char>)
    requires
        simple(s),
    ensures
        !has_any(s, "'\"\\#&|>{}[]"@),
{
    let marks = "'\"\\#&|>{}[]"@;
    reveal_strlit("'\"\\#&|>{}[]");
    assert(marks.len() == 11);
    if has_any(s, marks) {
        let i = choose|i: int| 0 <= i < s.len() && marks.contains(#[trigger] s[i]);
        let k = choose|k: int| 0 <= k < marks.len() && marks[k] == s[i];
        assert(s[i] == marks[k]);
    }
}

/// A simple text is read as itself, bare or between either kind of quotes, and with
/// whatever blanks around it.
pub proof fn scalars_are_read_as_written(before: Seq<char>, s: Seq<char>, after: Seq<char>)
    requires
        blank(before),
        blank(after),
        simple(s),
    ensures
        bare(s) ==> scalar_outcome(before + s + after) == Ok::<Seq<char>, Seq<char>>(s),
        scalar_outcome(before + (seq!['\''] + s + seq!['\'']) + after) == Ok::<
            Seq<char>,
            Seq<char>,
        >(s),
        scalar_outcome(before + (seq!['"'] + s + seq!['"']) + after) == Ok::<Seq<char>, Seq<char>>(
            s,
        ),
{
    simple_texts_have_no_marks(s);
    let one = seq!['\''] + s + seq!['\''];
    let two = seq!['"'] + s + seq!['"'];
    blanks_are_known('\'');
    blanks_are_known('"');
    assert(one[0] == '\'' && one.last() == '\'');
    assert(two[0] == '"' && two.last() == '"');
    trimming_takes_the_blanks(before, one, after);
    trimming_takes_the_blanks(before, two, after);
    assert(one.subrange(1, one.len() - 1) =~= s);
    assert(two.subrange(1, two.len() - 1) =~= s);
    if bare(s) {
        blanks_are_known(s[0]);
        blanks_are_known(s.last());
        trimming_takes_the_blanks(before, s, after);
        assert(s[0] != '\'' && s[0] != '"');
    }
}

/// A line of a list: the dash and the quoted text.
pub open spec fn item_line(text: Seq<char>) -> Seq<char> {
    "  - "@ + (seq!['\''] + text + seq!['\''])
}

proof fn item_lines_are_read(text: Seq<char>, state: MembershipState)
    requires
        simple(text),
        state.inside,
    ensures
        crate::pnpm::membership_step(state, item_line(text)) == Ok::<MembershipState, Seq<char>>(
            MembershipState { patterns: state.patterns.push(text), ..state },
        ),
{
    let line = item_line(text);
    let quoted = seq!['\''] + text + seq!['\''];
    let core = seq!['-', ' '] + quoted;
    reveal_strlit("  - ");
    reveal_strlit(" ");
    reveal_strlit("#");
    assert("  - "@ =~= seq![' ', ' ', '-', ' ']);
    let none = Seq::<char>::empty();
    assert(line =~= seq![' ', ' '] + core + none);
    blanks_are_known('-');
    blanks_are_known('\'');
    assert(core[0] == '-' && core.last() == '\'');
    trimming_takes_the_blanks(seq![' ', ' '], core, none);
    assert(core + none =~= core);
    if begins(core, "#"@) {
        assert(core.take(1)[0] == '#');
    }
    assert(line.take(1) =~= " "@);
    assert(line.take(4) =~= "  - "@);
    assert(line.skip(4) =~= quoted);
    scalars_are_read_as_written(none, text, none);
    assert(none + quoted + none =~= quoted);
}

/// A workspace file of pnpm with a list of packages.
pub open spec fn package_list(list: Seq<Seq<char>>) -> Seq<Seq<char>> {
    seq!["packages:"@] + list.map_values(|text: Seq<char>| item_line(text))
}

proof fn list_is_folded(list: Seq<Seq<char>>, k: int)
    requires
        forall|i: int| 0 <= i < list.len() ==> simple(#[trigger] list[i]),
        0 <= k <= list.len(),
    ensures
        membership_fold(
            MembershipState { inside: true, found: true, patterns: list.take(k) },
            package_list(list).skip(1 + k),
        ) == Ok::<Seq<Seq<char>>, Seq<char>>(list),
    decreases list.len() - k,
{
    let state = MembershipState { inside: true, found: true, patterns: list.take(k) };
    let rest = package_list(list).skip(1 + k);
    if k < list.len() {
        assert(rest[0] == item_line(list[k]));
        item_lines_are_read(list[k], state);
        assert(list.take(k).push(list[k]) =~= list.take(k + 1));
        assert(rest.skip(1) =~= package_list(list).skip(1 + (k + 1)));
        list_is_folded(list, k + 1);
    } else {
        assert(list.take(k) =~= list);
        assert(rest.len() == 0);
    }
}

/// The list of packages in a workspace file of pnpm is read as it was written.
pub proof fn package_lists_are_read_as_written(bytes: Seq<u8>, list: Seq<Seq<char>>)
    requires
        valid_utf8(bytes),
        forall|i: int| 0 <= i < list.len() ==> simple(#[trigger] list[i]),
        decode_utf8(bytes) == written(package_list(list), seq!['\n']),
    ensures
        membership_outcome(bytes) == Ok::<Seq<Seq<char>>, Seq<char>>(list),
{
    let all = package_list(list);
    reveal_strlit("packages:");
    reveal_strlit("  - ");
    assert(plain_lines(all)) by {
        assert forall|i: int, j: int| 0 <= i < all.len() && 0 <= j < all[i].len() implies #[trigger] all[i][j]
            != '\n' && all[i][j] != '\r' by {
            if i > 0 {
                assert(simple(list[i - 1]));
                assert(all[i] == item_line(list[i - 1]));
            } else {
                assert(all[i] == "packages:"@);
            }
        }
    }
    lines_are_read_as_written(all, false);
    let start = MembershipState { inside: false, found: false, patterns: seq![] };
    let first = "packages:"@;
    assert(all[0] == first);
    top_lines_are_read(first);

    assert(list.take(0) =~= Seq::<Seq<char>>::empty());
    list_is_folded(list, 0);
}

/// A line that begins at the margin, with a letter, and ends with no blank.
proof fn top_lines_are_read(line: Seq<char>)
    requires
        line.len() > 0,
        0x41 <= line[0] as u32 <= 0x7e,
        0x20 < line.last() as u32 <= 0x7e,
    ensures
        !crate::pnpm::idle_line(line),
        !begins(line, " "@),
{
    let none = Seq::<char>::empty();
    assert(none + line + none =~= line);
    blanks_are_known(line[0]);
    blanks_are_known(line.last());
    trimming_takes_the_blanks(none, line, none);
    assert(line + none =~= line);
    reveal_strlit("#");
    reveal_strlit(" ");
    if begins(line, "#"@) {
        assert(line.take(1)[0] == '#');
    }
    if begins(line, " "@) {
        assert(line.take(1)[0] == ' ');
    }
}

/// A line further in than the members of a section.
pub open spec fn inner_line(line: Seq<char>) -> bool {
    line.len() >= 4 && line[0] == ' ' && line[1] == ' ' && line[2] == ' ' && forall|j: int|
        0 <= j < line.len() ==> #[trigger] line[j] != '\n' && line[j] != '\r'
}

/// What a lockfile has of one member: its path and what is known of it.
pub ghost struct Importer {
    pub path: Seq<char>,
    pub known: Seq<Seq<char>>,
}

/// The lines of a section of members.
pub open spec fn importer_lines(members: Seq<Importer>) -> Seq<Seq<char>>
    decreases members.len(),
{
    if members.len() == 0 {
        seq![]
    } else {
        seq![seq![' ', ' '] + members[0].path + seq![':']] + members[0].known + importer_lines(
            members.skip(1),
        )
    }
}

/// The paths of the members.
pub open spec fn importer_paths(members: Seq<Importer>) -> Seq<Seq<char>> {
    members.map_values(|m: Importer| m.path)
}

/// Members that can be read.
pub open spec fn plain_importers(members: Seq<Importer>) -> bool {
    forall|i: int|
        0 <= i < members.len() ==> bare((#[trigger] members[i]).path) && forall|j: int|
            0 <= j < members[i].known.len() ==> inner_line(#[trigger] members[i].known[j])
}

/// A lockfile of pnpm: its version, its members and its packages.
pub open spec fn pnpm_lockfile(
    version: Seq<char>,
    members: Seq<Importer>,
    packages: Seq<Seq<char>>,
) -> Seq<Seq<char>> {
    seq!["lockfileVersion: '"@ + version + seq!['\''], "importers:"@] + importer_lines(members)
        + seq!["packages:"@] + packages
}

proof fn one_line(state: LockState, line: Seq<char>, rest: Seq<Seq<char>>, next: LockState)
    requires
        lock_step(state, line) == Ok::<LockState, Seq<char>>(next),
    ensures
        lock_fold(state, seq![line] + rest) == lock_fold(next, rest),
{
    assert((seq![line] + rest)[0] == line);
    assert((seq![line] + rest).skip(1) =~= rest);
}

proof fn inner_lines_pass(state: LockState, list: Seq<Seq<char>>, rest: Seq<Seq<char>>)
    requires
        forall|j: int| 0 <= j < list.len() ==> inner_line(#[trigger] list[j]),
    ensures
        lock_fold(state, list + rest) == lock_fold(state, rest),
    decreases list.len(),
{
    if list.len() > 0 {
        let line = list[0];
        assert(inner_line(line));
        reveal_strlit("lockfileVersion:");
        reveal_strlit(" ");
        reveal_strlit("   ");
        assert("lockfileVersion:"@.len() == 16);
        if begins(line, "lockfileVersion:"@) {
            assert(line.take(16)[0] == 'l');
        }
        assert(line.take(1) =~= " "@);
        assert(line.take(3) =~= "   "@);
        assert(lock_step(state, line) == Ok::<LockState, Seq<char>>(state));
        assert forall|j: int| 0 <= j < list.skip(1).len() implies inner_line(
            #[trigger] list.skip(1)[j],
        ) by {
            assert(list.skip(1)[j] == list[j + 1]);
        }
        inner_lines_pass(state, list.skip(1), rest);
        assert(list + rest =~= seq![line] + (list.skip(1) + rest));
        one_line(state, line, list.skip(1) + rest, state);
    } else {
        assert(list + rest =~= rest);
    }
}

proof fn member_line(state: LockState, path: Seq<char>)
    requires
        bare(path),
        state.importers,
    ensures
        lock_step(state, seq![' ', ' '] + path + seq![':']) == Ok::<LockState, Seq<char>>(
            LockState { keys: state.keys.push(path), ..state },
        ),
{
    let core = path + seq![':'];
    let line = seq![' ', ' '] + path + seq![':'];
    let none = Seq::<char>::empty();
    assert(line =~= seq![' ', ' '] + core + none);
    blanks_are_known(path[0]);
    blanks_are_known(':');
    assert(core[0] == path[0] && core.last() == ':');
    trimming_takes_the_blanks(seq![' ', ' '], core, none);
    assert(core + none =~= core);
    reveal_strlit("#");
    reveal_strlit(" ");
    reveal_strlit("  ");
    reveal_strlit("   ");
    reveal_strlit(":");
    reveal_strlit(": {}");
    reveal_strlit("lockfileVersion:");
    assert("lockfileVersion:"@.len() == 16);
    if begins(core, "#"@) {
        assert(core.take(1)[0] == '#');
    }
    if begins(line, "lockfileVersion:"@) {
        assert(line.take(16)[0] == 'l');
    }
    assert(line.take(1) =~= " "@);
    assert(line.take(2) =~= "  "@);
    if begins(line, "   "@) {
        assert(line.take(3)[2] == ' ');
        assert(line[2] == path[0]);
    }
    if ends(core, ": {}"@) {
        assert(core.skip(core.len() - 4)[3] == '}');
    }
    assert(core.skip(core.len() - 1) =~= ":"@);
    assert(core.take(core.len() - 1) =~= path);
    scalars_are_read_as_written(none, path, none);
    assert(none + path + none =~= path);
}

proof fn members_are_read(state: LockState, members: Seq<Importer>, rest: Seq<Seq<char>>)
    requires
        plain_importers(members),
        state.importers,
    ensures
        lock_fold(state, importer_lines(members) + rest) == lock_fold(
            LockState { keys: state.keys + importer_paths(members), ..state },
            rest,
        ),
    decreases members.len(),
{
    if members.len() > 0 {
        let one = members[0];
        let more = members.skip(1);
        assert(bare(one.path));
        let line = seq![' ', ' '] + one.path + seq![':'];
        let next = LockState { keys: state.keys.push(one.path), ..state };
        member_line(state, one.path);
        assert forall|i: int| 0 <= i < more.len() implies bare((#[trigger] more[i]).path)
            && forall|j: int| 0 <= j < more[i].known.len() ==> inner_line(
            #[trigger] more[i].known[j],
        ) by {
            assert(more[i] == members[i + 1]);
        }
        let tail = importer_lines(more) + rest;
        assert(importer_lines(members) + rest =~= seq![line] + (one.known + tail));
        one_line(state, line, one.known + tail, next);
        inner_lines_pass(next, one.known, tail);
        members_are_read(next, more, rest);
        assert(next.keys + importer_paths(more) =~= state.keys + importer_paths(members));
    } else {
        assert(importer_lines(members) + rest =~= rest);
        assert(state.keys + importer_paths(members) =~= state.keys);
    }
}

proof fn version_line(version: Seq<char>)
    requires
        version == "6.0"@ || version == "9.0"@,
    ensures
        lock_step(lock_start(), "lockfileVersion: '"@ + version + seq!['\'']) == Ok::<
            LockState,
            Seq<char>,
        >(LockState { version: true, ..lock_start() }),
{
    let line = "lockfileVersion: '"@ + version + seq!['\''];
    reveal_strlit("6.0");
    reveal_strlit("9.0");
    reveal_strlit("lockfileVersion: '");
    reveal_strlit("lockfileVersion:");
    reveal_strlit("importers:");
    reveal_strlit("packages:");
    reveal_strlit("packages: {}");
    assert("lockfileVersion: '"@.len() == 18);
    assert("lockfileVersion:"@.len() == 16);
    assert("importers:"@.len() == 10);
    assert("packages:"@.len() == 9);
    assert("packages: {}"@.len() == 12);
    assert(version.len() == 3);
    assert(line.len() == 22);
    assert(line[0] == 'l' && line.last() == '\'');
    top_lines_are_read(line);
    assert(line.take(16) =~= "lockfileVersion:"@);
    let none = Seq::<char>::empty();
    assert(simple(version));
    scalars_are_read_as_written(seq![' '], version, none);
    assert(line.skip(16) =~= seq![' '] + (seq!['\''] + version + seq!['\'']) + none);
}

proof fn section_lines(state: LockState)
    ensures
        !state.saw_importers ==> lock_step(state, "importers:"@) == Ok::<LockState, Seq<char>>(
            LockState { importers: true, saw_importers: true, ..state },
        ),
        lock_step(state, "packages:"@) == Ok::<LockState, Seq<char>>(
            LockState { importers: false, packages: true, ..state },
        ),
{
    reveal_strlit("lockfileVersion:");
    reveal_strlit("importers:");
    reveal_strlit("packages:");
    reveal_strlit("packages: {}");
    assert("lockfileVersion:"@.len() == 16);
    assert("importers:"@.len() == 10 && "importers:"@[0] == 'i' && "importers:"@.last() == ':');
    assert("packages:"@.len() == 9 && "packages:"@[0] == 'p' && "packages:"@.last() == ':');
    assert("packages: {}"@.len() == 12);
    top_lines_are_read("importers:"@);
    top_lines_are_read("packages:"@);
}

/// A lockfile of pnpm in either known version owns exactly the members that it lists:
/// the folder that it lies in as the point, the others by their path.
pub proof fn a_pnpm_lock_owns_its_members(
    bytes: Seq<u8>,
    version: Seq<char>,
    members: Seq<Importer>,
    packages: Seq<Seq<char>>,
    relative: Seq<char>,
)
    requires
        valid_utf8(bytes),
        version == "6.0"@ || version == "9.0"@,
        plain_importers(members),
        forall|j: int| 0 <= j < packages.len() ==> inner_line(#[trigger] packages[j]),
        lines(decode_utf8(bytes)) == pnpm_lockfile(version, members, packages),
    ensures
        lock_owns(bytes, relative) == Ok::<bool, Seq<char>>(
            exists|i: int|
                0 <= i < members.len() && (#[trigger] members[i]).path == if relative == ""@ {
                    "."@
                } else {
                    relative
                },
        ),
{
    let first = "lockfileVersion: '"@ + version + seq!['\''];
    let inner = importer_lines(members);
    let a = LockState { version: true, ..lock_start() };
    let b = LockState { importers: true, saw_importers: true, ..a };
    let c = LockState { keys: importer_paths(members), ..b };
    let d = LockState { importers: false, packages: true, ..c };
    let end = seq!["packages:"@] + packages;
    let tail = inner + end;
    assert(pnpm_lockfile(version, members, packages) =~= seq![first] + (seq!["importers:"@]
        + tail));
    version_line(version);
    one_line(lock_start(), first, seq!["importers:"@] + tail, a);
    section_lines(a);
    one_line(a, "importers:"@, tail, b);
    members_are_read(b, members, end);
    assert(b.keys + importer_paths(members) =~= importer_paths(members));
    section_lines(c);
    one_line(c, "packages:"@, packages, d);
    inner_lines_pass(d, packages, Seq::empty());
    assert(packages + Seq::<Seq<char>>::empty() =~= packages);
    assert(lock_importers(bytes) == (importer_paths(members), None::<Seq<char>>));
    reveal_strlit("");
    assert(relative.len() == 0 ==> relative =~= ""@);
    let key = if relative == ""@ {
        "."@
    } else {
        relative
    };
    let paths = importer_paths(members);
    if exists|i: int| 0 <= i < members.len() && (#[trigger] members[i]).path == key {
        let i = choose|i: int| 0 <= i < members.len() && (#[trigger] members[i]).path == key;
        assert(paths[i] == key);
    }
    if paths.contains(key) {
        let i = choose|i: int| 0 <= i < paths.len() && paths[i] == key;
        assert(members[i].path == key);
    }
}

/// Two stars of their own behind a folder have everything below it that is not hidden
/// and lies in nothing hidden, the folder itself among it, and nothing else.
pub proof fn two_stars_have_the_visible_descendants(front: Seq<Seq<char>>, others: Seq<Seq<char>>)
    requires
        forall|i: int| 0 <= i < front.len() ==> plain_component(#[trigger] front[i]),
    ensures
        path_matches(front.push("**"@), others) <==> {
            &&& front.len() <= others.len()
            &&& others.take(front.len() as int) == front
            &&& forall|k: int|
                front.len() <= k < others.len() ==> !((#[trigger] others[k]).len() > 0
                    && others[k][0] == '.')
        },
    decreases others.len(),
{
    let parts = front.push("**"@);
    assert(parts.drop_last() =~= front);
    assert(parts.last() == "**"@);
    same_components_match(front, others);
    if front == others {
        assert(others.take(front.len() as int) =~= front);
    }
    if others.len() > 0 {
        let less = others.drop_last();
        two_stars_have_the_visible_descendants(front, less);
        if path_matches(parts, less) && !(others.last().len() > 0 && others.last()[0] == '.') {
            assert(others.take(front.len() as int) =~= less.take(front.len() as int));
            assert forall|k: int| front.len() <= k < others.len() implies !((
            #[trigger] others[k]).len() > 0 && others[k][0] == '.') by {
                if k < less.len() {
                    assert(less[k] == others[k]);
                }
            }
        }
        if front.len() < others.len() && others.take(front.len() as int) == front && (forall|
            k: int,
        |
            front.len() <= k < others.len() ==> !((#[trigger] others[k]).len() > 0 && others[k][0]
                == '.')) {
            assert(less.take(front.len() as int) =~= front);
            assert forall|k: int| front.len() <= k < less.len() implies !((#[trigger] less[k]).len()
                > 0 && less[k][0] == '.') by {
                assert(less[k] == others[k]);
            }
            assert(others[others.len() - 1] == others.last());
        }
        if front.len() == others.len() && others.take(front.len() as int) == front {
            assert(others =~= front);
        }
    }
}

/// A member without anything known of it is read like any other, and the path of one
/// may be quoted.
pub proof fn empty_members_are_read(path: Seq<char>)
    requires
        bare(path),
    ensures
        importer_key(seq![' ', ' '] + path + seq![':', ' ', '{', '}']) == Ok::<
            Seq<char>,
            Seq<char>,
        >(path),
        importer_key(seq![' ', ' '] + (seq!['\''] + path + seq!['\'']) + seq![':']) == Ok::<
            Seq<char>,
            Seq<char>,
        >(path),
{
    let none = Seq::<char>::empty();
    reveal_strlit(": {}");
    reveal_strlit(":");
    let core = path + seq![':', ' ', '{', '}'];
    assert(seq![' ', ' '] + path + seq![':', ' ', '{', '}'] =~= seq![' ', ' '] + core + none);
    blanks_are_known(path[0]);
    blanks_are_known('}');
    blanks_are_known(':');
    blanks_are_known('\'');
    assert(core[0] == path[0] && core.last() == '}');
    trimming_takes_the_blanks(seq![' ', ' '], core, none);
    assert(core.skip(core.len() - 4) =~= ": {}"@);
    assert(core.take(core.len() - 4) =~= path);
    scalars_are_read_as_written(none, path, none);
    assert(none + path + none =~= path);
    let quoted = seq!['\''] + path + seq!['\''];
    let other = quoted + seq![':'];
    assert(seq![' ', ' '] + quoted + seq![':'] =~= seq![' ', ' '] + other + none);
    assert(other[0] == '\'' && other.last() == ':');
    trimming_takes_the_blanks(seq![' ', ' '], other, none);
    if ends(other, ": {}"@) {
        assert(other.skip(other.len() - 4)[3] == '}');
    }
    assert(other.skip(other.len() - 1) =~= ":"@);
    assert(other.take(other.len() - 1) =~= quoted);
    assert(none + quoted + none =~= quoted);
}

/// A lockfile of a version that is not known is refused.
pub proof fn unknown_versions_are_refused(version: Seq<char>, rest: Seq<Seq<char>>)
    requires
        simple(version),
        version != "6.0"@,
        version != "9.0"@,
    ensures
        lock_fold(lock_start(), seq!["lockfileVersion: '"@ + version + seq!['\'']] + rest).1
            is Some,
{
    let line = "lockfileVersion: '"@ + version + seq!['\''];
    reveal_strlit("lockfileVersion: '");
    reveal_strlit("lockfileVersion:");
    assert("lockfileVersion: '"@.len() == 18);
    assert("lockfileVersion:"@.len() == 16);
    assert(line[0] == 'l' && line.last() == '\'');
    top_lines_are_read(line);
    assert(line.take(16) =~= "lockfileVersion:"@);
    let none = Seq::<char>::empty();
    scalars_are_read_as_written(seq![' '], version, none);
    assert(line.skip(16) =~= seq![' '] + (seq!['\''] + version + seq!['\'']) + none);
    assert((seq![line] + rest)[0] == line);
}

} // verus!
