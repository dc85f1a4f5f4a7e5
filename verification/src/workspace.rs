//! Workspace membership: a deliberately small glob language over relative paths.
use crate::text::{
    any_char, begins, byte_len, chars_are, chars_begin, chars_of, covers, ends, fail, failed,
    has_any, index_of, index_of_facts, occurs, occurs_at, pieces, same_chars, split_chars, text_of,
    Span,
};
use vstd::prelude::*;
use vstd::slice::slice_subrange;
use vstd::utf8::encode_utf8;

verus! {

/// Whether a pattern matches a text when `*` stands for any run of characters.
pub open spec fn glob(pattern: Seq<char>, s: Seq<char>) -> bool
    decreases pattern.len() + s.len(),
{
    if pattern.len() == 0 {
        s.len() == 0
    } else if pattern[0] == '*' {
        glob(pattern.skip(1), s) || (s.len() > 0 && glob(pattern, s.skip(1)))
    } else {
        s.len() > 0 && s[0] == pattern[0] && glob(pattern.skip(1), s.skip(1))
    }
}

/// Whether a text begins with a dot.
pub open spec fn hidden(s: Seq<char>) -> bool {
    s.len() > 0 && s[0] == '.'
}

/// Whether a pattern component matches a path component: a wildcard never
/// reaches a hidden name.
pub open spec fn component_matches(pattern: Seq<char>, component: Seq<char>) -> bool {
    (hidden(component) ==> hidden(pattern)) && glob(pattern, component)
}

/// Whether the literals occur in `s` in this order without overlap.
spec fn ordered(literals: Seq<Seq<char>>, s: Seq<char>) -> bool
    decreases literals.len(),
{
    literals.len() == 0 || exists|at: int|
        #[trigger] occurs_at(s, literals[0], at) && ordered(
            literals.skip(1),
            s.skip(at + literals[0].len()),
        )
}

/// As `ordered`, with the last literal at the very end.
spec fn seeks(literals: Seq<Seq<char>>, s: Seq<char>) -> bool
    decreases literals.len(),
{
    if literals.len() == 0 {
        false
    } else if literals.len() == 1 {
        ends(s, literals[0])
    } else {
        exists|at: int| #[trigger]
            occurs_at(s, literals[0], at) && seeks(literals.skip(1), s.skip(at + literals[0].len()))
    }
}

/// A literal at the front of a pattern has to stand at the front of the text.
proof fn glob_literal(literal: Seq<char>, rest: Seq<char>, s: Seq<char>)
    requires
        !literal.contains('*'),
    ensures
        glob(literal + rest, s) == (begins(s, literal) && glob(rest, s.skip(literal.len() as int))),
    decreases literal.len(),
{
    if literal.len() == 0 {
        assert(literal + rest =~= rest);
        assert(s.skip(0) =~= s);
        assert(s.take(0) =~= literal);
    } else {
        let p = literal + rest;
        assert(p[0] == literal[0]);
        assert(literal[0] != '*') by {
            assert(literal.contains(literal[0]));
        }
        let tail = literal.skip(1);
        assert(!tail.contains('*')) by {
            if tail.contains('*') {
                let i = choose|i: int| 0 <= i < tail.len() && tail[i] == '*';
                assert(literal[i + 1] == '*');
            }
        }
        assert(p.skip(1) =~= tail + rest);
        if s.len() > 0 {
            glob_literal(tail, rest, s.skip(1));
            if literal.len() <= s.len() {
                assert(s.skip(1).skip(tail.len() as int) =~= s.skip(literal.len() as int));
            }
            if s[0] == literal[0] && begins(s.skip(1), tail) {
                assert(s.take(literal.len() as int) =~= literal) by {
                    assert forall|i: int| 0 <= i < literal.len() implies s[i] == literal[i] by {
                        if i > 0 {
                            assert(s.skip(1).take(tail.len() as int)[i - 1] == tail[i - 1]);
                        }
                    }
                }
            }
            if begins(s, literal) {
                assert(s[0] == s.take(literal.len() as int)[0]);
                assert(s.skip(1).take(tail.len() as int) =~= tail) by {
                    assert forall|i: int| 0 <= i < tail.len() implies s.skip(1)[i] == tail[i] by {
                        assert(s.take(literal.len() as int)[i + 1] == literal[i + 1]);
                    }
                }
            }
        }
    }
}

/// A leading wildcard skips some run of the text.
proof fn glob_star(q: Seq<char>, s: Seq<char>)
    ensures
        glob(seq!['*'] + q, s) == exists|i: int| 0 <= i <= s.len() && #[trigger] glob(q, s.skip(i)),
    decreases s.len(),
{
    let p = seq!['*'] + q;
    assert(p.skip(1) =~= q);
    assert(s.skip(0) =~= s);
    if glob(q, s) {
        assert(glob(q, s.skip(0)));
    }
    if s.len() > 0 {
        glob_star(q, s.skip(1));
        if glob(p, s.skip(1)) {
            let i = choose|i: int| 0 <= i <= s.len() - 1 && #[trigger] glob(q, s.skip(1).skip(i));
            assert(s.skip(1).skip(i) =~= s.skip(i + 1));
            assert(glob(q, s.skip(i + 1)));
        }
        if exists|i: int| 0 <= i <= s.len() && #[trigger] glob(q, s.skip(i)) {
            let i = choose|i: int| 0 <= i <= s.len() && #[trigger] glob(q, s.skip(i));
            if i > 0 {
                assert(s.skip(1).skip(i - 1) =~= s.skip(i));
                assert(glob(q, s.skip(1).skip(i - 1)));
            }
        }
    }
}

/// After a wildcard, the literals of the pattern are sought one after the other.
#[verifier::spinoff_prover]
proof fn glob_seeks(q: Seq<char>, s: Seq<char>)
    ensures
        glob(seq!['*'] + q, s) == seeks(pieces(q, '*'), s),
    decreases q.len(),
{
    glob_star(q, s);
    index_of_facts(q, '*');
    let at = index_of(q, '*');
    if at < q.len() {
        let literal = q.take(at);
        let rest = q.skip(at + 1);
        assert(!literal.contains('*'));
        assert(q =~= literal + (seq!['*'] + rest));
        let parts = pieces(q, '*');
        assert(parts.skip(1) =~= pieces(rest, '*'));
        pieces_some(rest, '*');
        assert(parts.len() >= 2);
        assert(parts[0] == literal);
        if seeks(parts, s) {
            let i = choose|i: int|
                #[trigger] occurs_at(s, literal, i) && seeks(
                    parts.skip(1),
                    s.skip(i + literal.len()),
                );
            glob_seeks(rest, s.skip(i + literal.len()));
            glob_literal(literal, seq!['*'] + rest, s.skip(i));
            assert(s.skip(i).take(literal.len() as int) =~= s.subrange(i, i + literal.len()));
            assert(s.skip(i).skip(literal.len() as int) =~= s.skip(i + literal.len()));
            assert(0 <= i <= s.len() && glob(q, s.skip(i)));
        }
        if exists|i: int| 0 <= i <= s.len() && #[trigger] glob(q, s.skip(i)) {
            let i = choose|i: int| 0 <= i <= s.len() && #[trigger] glob(q, s.skip(i));
            glob_literal(literal, seq!['*'] + rest, s.skip(i));
            assert(i + literal.len() <= s.len());
            assert(s.skip(i).take(literal.len() as int) =~= s.subrange(i, i + literal.len()));
            assert(s.skip(i).skip(literal.len() as int) =~= s.skip(i + literal.len()));
            glob_seeks(rest, s.skip(i + literal.len()));
            assert(occurs_at(s, literal, i) && seeks(parts.skip(1), s.skip(i + literal.len())));
            assert(seeks(parts, s));
        }
    } else {
        assert(!q.contains('*'));
        assert(pieces(q, '*') =~= seq![q]);
        let none = Seq::<char>::empty();
        assert(q + none =~= q);
        if ends(s, q) {
            let i = s.len() - q.len();
            glob_literal(q, none, s.skip(i));
            assert(s.skip(i).take(q.len() as int) =~= q);
            assert(s.skip(i).skip(q.len() as int) =~= none);
            assert(glob(q, s.skip(i)));
        }
        if exists|i: int| 0 <= i <= s.len() && #[trigger] glob(q, s.skip(i)) {
            let i = choose|i: int| 0 <= i <= s.len() && #[trigger] glob(q, s.skip(i));
            glob_literal(q, none, s.skip(i));
            assert(s.skip(i).skip(q.len() as int).len() == 0);
            assert(s.skip(i).take(q.len() as int) =~= s.skip(i));
            assert(s.skip(s.len() - q.len()) =~= s.skip(i));
        }
    }
}

/// There is always a first piece.
proof fn pieces_some<T>(s: Seq<T>, mark: T)
    ensures
        pieces(s, mark).len() >= 1,
{
    index_of_facts(s, mark);
}

/// No piece holds the mark.
proof fn pieces_plain<T>(s: Seq<T>, mark: T)
    ensures
        forall|i: int| 0 <= i < pieces(s, mark).len() ==> !(#[trigger] pieces(s, mark)[i]).contains(mark),
    decreases s.len(),
{
    index_of_facts(s, mark);
    let at = index_of(s, mark);
    if at < s.len() {
        pieces_plain(s.skip(at + 1), mark);
        let parts = pieces(s, mark);
        assert forall|i: int| 0 <= i < parts.len() implies !(#[trigger] parts[i]).contains(mark) by {
            if i > 0 {
                assert(parts[i] == pieces(s.skip(at + 1), mark)[i - 1]);
            }
        }
    }
}

/// The last literal can be taken off the end before the others are placed.
proof fn seeks_ordered(literals: Seq<Seq<char>>, s: Seq<char>)
    requires
        literals.len() >= 1,
    ensures
        seeks(literals, s) == (ends(s, literals.last()) && ordered(
            literals.drop_last(),
            s.take(s.len() - literals.last().len()),
        )),
    decreases literals.len(),
{
    let last = literals.last();
    if literals.len() > 1 {
        let first = literals[0];
        let rest = literals.skip(1);
        assert(rest.last() == last);
        assert(literals.drop_last().skip(1) =~= rest.drop_last());
        assert(literals.drop_last()[0] == first);
        let front = s.take(s.len() - last.len());
        if seeks(literals, s) {
            let at = choose|at: int|
                #[trigger] occurs_at(s, first, at) && seeks(rest, s.skip(at + first.len()));
            let after = s.skip(at + first.len());
            seeks_ordered(rest, after);
            assert(s.skip(s.len() - last.len()) =~= after.skip(after.len() - last.len()));
            assert(front.subrange(at, at + first.len()) =~= s.subrange(at, at + first.len()));
            assert(front.skip(at + first.len()) =~= after.take(after.len() - last.len()));
            assert(occurs_at(front, first, at));
        }
        if ends(s, last) && ordered(literals.drop_last(), front) {
            let at = choose|at: int|
                #[trigger] occurs_at(front, first, at) && ordered(
                    rest.drop_last(),
                    front.skip(at + first.len()),
                );
            let after = s.skip(at + first.len());
            seeks_ordered(rest, after);
            assert(s.skip(s.len() - last.len()) =~= after.skip(after.len() - last.len()));
            assert(front.subrange(at, at + first.len()) =~= s.subrange(at, at + first.len()));
            assert(front.skip(at + first.len()) =~= after.take(after.len() - last.len()));
            assert(occurs_at(s, first, at));
        }
    }
}

/// What can be placed behind some prefix can be placed in the whole.
proof fn ordered_suffix(literals: Seq<Seq<char>>, s: Seq<char>, j: int)
    requires
        0 <= j <= s.len(),
        ordered(literals, s.skip(j)),
    ensures
        ordered(literals, s),
{
    if literals.len() > 0 {
        let first = literals[0];
        let at = choose|at: int|
            #[trigger] occurs_at(s.skip(j), first, at) && ordered(
                literals.skip(1),
                s.skip(j).skip(at + first.len()),
            );
        assert(s.skip(j).subrange(at, at + first.len()) =~= s.subrange(
            j + at,
            j + at + first.len(),
        ));
        assert(s.skip(j).skip(at + first.len()) =~= s.skip(j + at + first.len()));
        assert(occurs_at(s, first, j + at));
    }
}

/// Placing the first literal as early as possible loses nothing.
proof fn ordered_leftmost(literals: Seq<Seq<char>>, s: Seq<char>, at: int)
    requires
        literals.len() > 0,
        occurs_at(s, literals[0], at),
        forall|i: int| 0 <= i < at ==> !occurs_at(s, literals[0], i),
    ensures
        ordered(literals, s) == ordered(literals.skip(1), s.skip(at + literals[0].len())),
{
    let n = literals[0].len();
    if ordered(literals, s) {
        let other = choose|i: int|
            #[trigger] occurs_at(s, literals[0], i) && ordered(literals.skip(1), s.skip(i + n));
        assert(s.skip(at + n).skip(other - at) =~= s.skip(other + n));
        ordered_suffix(literals.skip(1), s.skip(at + n), other - at);
    }
}

/// The first place at which `part` occurs in `s`.
fn find_chars(s: &[char], part: &[char]) -> (r: Option<usize>)
    ensures
        match r {
            Some(at) => occurs_at(s@, part@, at as int) && forall|i: int|
                0 <= i < at ==> !occurs_at(s@, part@, i),
            None => !occurs(s@, part@),
        },
{
    if part.len() > s.len() {
        return None;
    }
    let mut at: usize = 0;
    while at <= s.len() - part.len()
        invariant
            part.len() <= s.len(),
            at <= s.len() - part.len() + 1,
            forall|i: int| 0 <= i < at ==> !occurs_at(s@, part@, i),
        decreases s.len() - at + 1,
    {
        if same_chars(slice_subrange(s, at, at + part.len()), part) {
            return Some(at);
        }
        if at == s.len() - part.len() {
            return None;
        }
        at = at + 1;
    }
    None
}

/// Match ordinary component globs without crossing a separator. The literals
/// before the first and after the last wildcard are anchored; those between are
/// found in order.
pub fn workspace_component(pattern: &str, component: &str) -> (r: bool)
    ensures
        r == component_matches(pattern@, component@),
{
    component_chars(chars_of(pattern).as_slice(), chars_of(component).as_slice())
}

fn component_chars(pattern: &[char], component: &[char]) -> (r: bool)
    ensures
        r == component_matches(pattern@, component@),
{
    if component.len() > 0 && component[0] == '.' && !(pattern.len() > 0 && pattern[0] == '.') {
        return false;
    }
    let literals: Vec<Span> = split_chars(pattern, '*');
    let ghost parts = pieces(pattern@, '*');
    let first: &[char] = slice_subrange(pattern, literals[0].start, literals[0].end);
    assert(first@ == parts[0]);
    proof {
        pieces_plain(pattern@, '*');
        index_of_facts(pattern@, '*');
    }
    let ghost cut = index_of(pattern@, '*');
    if first.len() > component.len() || !same_chars(
        slice_subrange(component, 0, first.len()),
        first,
    ) {
        proof {
            if component@.len() >= first@.len() {
                assert(component@.subrange(0, first@.len() as int) =~= component@.take(
                    first@.len() as int,
                ));
            }
            assert(!begins(component@, first@));
            glob_literal(first@, pattern@.skip(first@.len() as int), component@);
            assert(pattern@ =~= first@ + pattern@.skip(first@.len() as int));
        }
        return false;
    }
    let remaining: &[char] = slice_subrange(component, first.len(), component.len());
    proof {
        assert(component@.subrange(0, first@.len() as int) =~= component@.take(first@.len() as int));
        assert(remaining@ =~= component@.skip(first@.len() as int));
        glob_literal(first@, pattern@.skip(first@.len() as int), component@);
        assert(pattern@ =~= first@ + pattern@.skip(first@.len() as int));
    }
    if literals.len() == 1 {
        proof {
            if cut < pattern@.len() {
                pieces_some(pattern@.skip(cut + 1), '*');
            }
            assert(pattern@.skip(first@.len() as int).len() == 0);
        }
        return remaining.len() == 0;
    }
    let ghost tail = pattern@.skip(cut + 1);
    proof {
        assert(cut < pattern@.len());
        assert(first@ =~= pattern@.take(cut));
        assert(pattern@.skip(cut) =~= seq!['*'] + tail);
        assert(parts.skip(1) =~= pieces(tail, '*'));
        glob_seeks(tail, remaining@);
        seeks_ordered(parts.skip(1), remaining@);
        assert(parts.skip(1).last() == parts.last());
    }
    let last: Span = literals[literals.len() - 1];
    let suffix: &[char] = slice_subrange(pattern, last.start, last.end);
    assert(suffix@ == parts.last());
    if suffix.len() > remaining.len() || !same_chars(
        slice_subrange(remaining, remaining.len() - suffix.len(), remaining.len()),
        suffix,
    ) {
        proof {
            if suffix@.len() <= remaining@.len() {
                assert(remaining@.subrange(
                    remaining@.len() - suffix@.len(),
                    remaining@.len() as int,
                ) =~= remaining@.skip(remaining@.len() - suffix@.len()));
            }
        }
        return false;
    }
    let mut rest: &[char] = slice_subrange(remaining, 0, remaining.len() - suffix.len());
    let ghost middle = parts.skip(1).drop_last();
    proof {
        assert(remaining@.subrange(remaining@.len() - suffix@.len(), remaining@.len() as int)
            =~= remaining@.skip(remaining@.len() - suffix@.len()));
        assert(rest@ =~= remaining@.take(remaining@.len() - suffix@.len()));
        assert(middle.skip(0) =~= middle);
    }
    let mut i: usize = 1;
    while i < literals.len() - 1
        invariant
            1 <= i <= literals.len() - 1,
            literals.len() >= 2,
            parts == pieces(pattern@, '*'),
            covers(literals@, pattern@, parts),
            middle == parts.skip(1).drop_last(),
            component_matches(pattern@, component@) == ordered(middle.skip(i - 1), rest@),
        decreases literals.len() - i,
    {
        let literal: &[char] = slice_subrange(pattern, literals[i].start, literals[i].end);
        assert(middle.skip(i - 1)[0] == literal@);
        assert(middle.skip(i - 1).skip(1) =~= middle.skip(i as int));
        match find_chars(rest, literal) {
            None => {
                return false;
            },
            Some(at) => {
                let total: usize = rest.len();
                proof {
                    ordered_leftmost(middle.skip(i - 1), rest@, at as int);
                }
                let next: &[char] = slice_subrange(rest, at + literal.len(), total);
                assert(next@ =~= rest@.skip(at + literal@.len()));
                rest = next;
            },
        }
        i = i + 1;
    }
    assert(middle.skip(i - 1).len() == 0);
    true
}

/// Whether pattern components match path components, where `**` stands for any
/// number of components that are not hidden.
pub open spec fn path_matches(parts: Seq<Seq<char>>, components: Seq<Seq<char>>) -> bool
    decreases parts.len() + components.len(),
{
    if parts.len() == 0 {
        components.len() == 0
    } else if parts.last() == "**"@ {
        path_matches(parts.drop_last(), components) || (components.len() > 0 && !hidden(
            components.last(),
        ) && path_matches(parts, components.drop_last()))
    } else {
        components.len() > 0 && component_matches(parts.last(), components.last()) && path_matches(
            parts.drop_last(),
            components.drop_last(),
        )
    }
}

/// `s` without its trailing slashes.
pub open spec fn without_slashes(s: Seq<char>) -> Seq<char>
    decreases s.len(),
{
    if s.len() > 0 && s.last() == '/' {
        without_slashes(s.drop_last())
    } else {
        s
    }
}

/// The pattern that is matched: trailing slashes and one leading `./` do not count.
pub open spec fn plain_pattern(pattern: Seq<char>) -> Seq<char> {
    let s = without_slashes(pattern);
    if begins(s, "./"@) {
        s.skip(2)
    } else {
        s
    }
}

/// Whether a pattern component is outside the supported language.
pub open spec fn unsupported_part(part: Seq<char>) -> bool {
    ||| part.len() == 0
    ||| part == "."@
    ||| part == ".."@
    ||| occurs(part, "**"@) && part != "**"@
    ||| has_any(part, "?[]{}!\\()|"@)
}

pub open spec fn local_pattern_reason() -> Seq<char> {
    "Workspace paths are not supported local relative patterns"@
}

pub open spec fn complex_pattern_reason() -> Seq<char> {
    "Complex workspace patterns need manual inspection"@
}

/// What one pattern says of a relative path: whether it matches, or why the
/// pattern is not supported.
pub open spec fn pattern_outcome(pattern: Seq<char>, relative: Seq<char>) -> Result<
    bool,
    Seq<char>,
> {
    let plain = plain_pattern(pattern);
    let parts = pieces(plain, '/');
    if plain == "."@ {
        Ok(relative.len() == 0)
    } else if plain.len() == 0 || plain[0] == '/' || encode_utf8(plain).len() > 1024 {
        Err(local_pattern_reason())
    } else if parts.len() > 64 || exists|i: int|
        0 <= i < parts.len() && unsupported_part(#[trigger] parts[i]) {
        Err(complex_pattern_reason())
    } else {
        Ok(path_matches(parts, pieces(relative, '/')))
    }
}

/// Whether an outcome is the one that a specification names, text for text.
pub open spec fn outcome_is<T>(r: Result<T, String>, expected: Result<T, Seq<char>>) -> bool {
    match expected {
        Ok(value) => r matches Ok(got) && got == value,
        Err(reason) => failed(r, reason),
    }
}

fn unslashed(s: &[char]) -> (r: &[char])
    ensures
        r@ == without_slashes(s@),
{
    let mut n: usize = s.len();
    assert(s@.take(n as int) =~= s@);
    while n > 0 && s[n - 1] == '/'
        invariant
            n <= s.len(),
            without_slashes(s@.take(n as int)) == without_slashes(s@),
        decreases n,
    {
        assert(s@.take(n as int).drop_last() =~= s@.take(n - 1));
        n = n - 1;
    }
    assert(s@.subrange(0, n as int) =~= s@.take(n as int));
    slice_subrange(s, 0, n)
}

fn unsupported(part: &[char]) -> (r: bool)
    ensures
        r == unsupported_part(part@),
{
    part.len() == 0 || chars_are(part, ".") || chars_are(part, "..") || (find_chars(
        part,
        chars_of("**").as_slice(),
    ).is_some() && !chars_are(part, "**")) || any_char(part, "?[]{}!\\()|")
}

/// Without `**`, parts and components match one by one.
proof fn path_pairs(parts: Seq<Seq<char>>, components: Seq<Seq<char>>)
    requires
        forall|i: int| 0 <= i < parts.len() ==> parts[i] != "**"@,
    ensures
        path_matches(parts, components) == (parts.len() == components.len() && forall|i: int|
            0 <= i < parts.len() ==> component_matches(#[trigger] parts[i], components[i])),
    decreases parts.len(),
{
    if parts.len() > 0 && components.len() > 0 {
        let p = parts.drop_last();
        let c = components.drop_last();
        path_pairs(p, c);
        if path_matches(parts, components) {
            assert forall|i: int| 0 <= i < parts.len() implies component_matches(
                #[trigger] parts[i],
                components[i],
            ) by {
                if i < p.len() {
                    assert(component_matches(p[i], c[i]));
                }
            }
        }
        if parts.len() == components.len() && forall|i: int|
            0 <= i < parts.len() ==> component_matches(#[trigger] parts[i], components[i]) {
            assert forall|i: int| 0 <= i < p.len() implies component_matches(
                #[trigger] p[i],
                c[i],
            ) by {
                assert(component_matches(parts[i], components[i]));
            }
            assert(component_matches(parts[parts.len() - 1], components[parts.len() - 1]));
        }
    }
}

fn match_pairs(
    pattern: &[char],
    parts: &Vec<Span>,
    relative: &[char],
    components: &Vec<Span>,
) -> (r: bool)
    requires
        covers(parts@, pattern@, pieces(pattern@, '/')),
        covers(components@, relative@, pieces(relative@, '/')),
        forall|i: int| 0 <= i < parts@.len() ==> pieces(pattern@, '/')[i] != "**"@,
    ensures
        r == path_matches(pieces(pattern@, '/'), pieces(relative@, '/')),
{
    let ghost p = pieces(pattern@, '/');
    let ghost c = pieces(relative@, '/');
    proof {
        path_pairs(p, c);
    }
    if parts.len() != components.len() {
        return false;
    }
    let mut i: usize = 0;
    while i < parts.len()
        invariant
            i <= parts.len(),
            parts.len() == components.len(),
            p == pieces(pattern@, '/'),
            c == pieces(relative@, '/'),
            covers(parts@, pattern@, p),
            covers(components@, relative@, c),
            path_matches(p, c) == (p.len() == c.len() && forall|j: int|
                0 <= j < p.len() ==> component_matches(#[trigger] p[j], c[j])),
            forall|j: int| 0 <= j < i ==> component_matches(#[trigger] p[j], c[j]),
        decreases parts.len() - i,
    {
        let part: &[char] = slice_subrange(pattern, parts[i].start, parts[i].end);
        let component: &[char] = slice_subrange(relative, components[i].start, components[i].end);
        if !component_chars(part, component) {
            assert(!component_matches(p[i as int], c[i as int]));
            return false;
        }
        i = i + 1;
    }
    true
}

fn match_table(
    pattern: &[char],
    parts: &Vec<Span>,
    relative: &[char],
    components: &Vec<Span>,
) -> (r: bool)
    requires
        covers(parts@, pattern@, pieces(pattern@, '/')),
        covers(components@, relative@, pieces(relative@, '/')),
    ensures
        r == path_matches(pieces(pattern@, '/'), pieces(relative@, '/')),
{
    let ghost p = pieces(pattern@, '/');
    let ghost c = pieces(relative@, '/');
    let n: usize = components.len();
    let mut previous: Vec<bool> = Vec::new();
    previous.push(true);
    let mut k: usize = 0;
    while k < n
        invariant
            k <= n,
            previous@.len() == k + 1,
            previous@[0],
            forall|j: int| 1 <= j <= k ==> !previous@[j],
        decreases n - k,
    {
        previous.push(false);
        k = k + 1;
    }
    assert forall|j: int| 0 <= j <= n implies #[trigger] previous@[j] == path_matches(
        p.take(0),
        c.take(j),
    ) by {}
    let mut i: usize = 0;
    while i < parts.len()
        invariant
            i <= parts.len(),
            n == components.len(),
            covers(parts@, pattern@, p),
            covers(components@, relative@, c),
            previous@.len() == n + 1,
            forall|j: int| 0 <= j <= n ==> #[trigger] previous@[j] == path_matches(
                p.take(i as int),
                c.take(j),
            ),
        decreases parts.len() - i,
    {
        let part: &[char] = slice_subrange(pattern, parts[i].start, parts[i].end);
        let every: bool = chars_are(part, "**");
        let ghost now = p.take(i + 1);
        assert(now.last() == part@);
        assert(now.drop_last() =~= p.take(i as int));
        let mut current: Vec<bool> = Vec::new();
        assert(c.take(0).len() == 0);
        current.push(every && previous[0]);
        let width: usize = previous.len();
        let mut j: usize = 1;
        while j < width
            invariant
                1 <= j <= width,
                width == n + 1,
                n == components.len(),
                covers(components@, relative@, c),
                previous@.len() == n + 1,
                current@.len() == j,
                now.len() > 0,
                now.last() == part@,
                now.drop_last() == p.take(i as int),
                every == (part@ == "**"@),
                forall|m: int| 0 <= m <= n ==> #[trigger] previous@[m] == path_matches(
                    p.take(i as int),
                    c.take(m),
                ),
                forall|m: int| 0 <= m < j ==> #[trigger] current@[m] == path_matches(now, c.take(m)),
            decreases width - j,
        {
            let component: &[char] = slice_subrange(
                relative,
                components[j - 1].start,
                components[j - 1].end,
            );
            assert(c.take(j as int).last() == component@);
            assert(c.take(j as int).drop_last() =~= c.take(j - 1));
            assert(current@[j - 1] == path_matches(now, c.take(j - 1)));
            assert(previous@[j - 1] == path_matches(p.take(i as int), c.take(j - 1)));
            let here: bool = if every {
                previous[j] || (!(component.len() > 0 && component[0] == '.') && current[j - 1])
            } else {
                previous[j - 1] && component_chars(part, component)
            };
            current.push(here);
            j = j + 1;
        }
        previous = current;
        i = i + 1;
    }
    assert(p.take(parts@.len() as int) =~= p);
    assert(c.take(n as int) =~= c);
    previous[n]
}

/// Deliberately small subset: root `.`, component `*`, and whole-component `**`.
/// Unsupported syntax stays diagnostic instead of guessing project ownership.
pub fn workspace_pattern(pattern: &str, relative: &str) -> (r: Result<bool, String>)
    ensures
        outcome_is(r, pattern_outcome(pattern@, relative@)),
{
    let whole: Vec<char> = chars_of(pattern);
    let trimmed: &[char] = unslashed(whole.as_slice());
    let plain: &[char] = if chars_begin(trimmed, "./") {
        proof {
            reveal_strlit("./");
            assert(trimmed@.subrange(2, trimmed@.len() as int) =~= trimmed@.skip(2));
        }
        slice_subrange(trimmed, 2, trimmed.len())
    } else {
        trimmed
    };
    assert(plain@ == plain_pattern(pattern@));
    let path: Vec<char> = chars_of(relative);
    if chars_are(plain, ".") {
        return Ok(path.len() == 0);
    }
    if plain.len() == 0 || plain[0] == '/' || byte_len(text_of(plain).as_str()) > 1024 {
        return fail("Workspace paths are not supported local relative patterns");
    }
    // Validate the entire pattern before a mismatch can return false. Invalid
    // later components must still withhold ownership evidence.
    let parts: Vec<Span> = split_chars(plain, '/');
    let ghost p = pieces(plain@, '/');
    let mut recursive: bool = false;
    let mut i: usize = 0;
    while i < parts.len()
        invariant
            i <= parts.len(),
            covers(parts@, plain@, p),
            p == pieces(plain@, '/'),
            forall|j: int| 0 <= j < i ==> !unsupported_part(#[trigger] p[j]),
            forall|j: int| 0 <= j < i && p[j] == "**"@ ==> recursive,
            i <= 64,
            plain@ == plain_pattern(pattern@),
            plain@ != "."@,
            !(plain@.len() == 0 || plain@[0] == '/' || encode_utf8(plain@).len() > 1024),
        decreases parts.len() - i,
    {
        let part: &[char] = slice_subrange(plain, parts[i].start, parts[i].end);
        if i == 64 || unsupported(part) {
            assert(i < 64 ==> unsupported_part(p[i as int]));
            return fail("Complex workspace patterns need manual inspection");
        }
        recursive = recursive || chars_are(part, "**");
        i = i + 1;
    }
    let components: Vec<Span> = split_chars(path.as_slice(), '/');
    if recursive {
        Ok(match_table(plain, &parts, path.as_slice(), &components))
    } else {
        // Ordinary workspace patterns consume exactly one path component per
        // pattern component.
        Ok(match_pairs(plain, &parts, path.as_slice(), &components))
    }
}

/// The pattern behind a possible leading `!`.
pub open spec fn unnegated(pattern: Seq<char>) -> Seq<char> {
    if negated(pattern) {
        pattern.skip(1)
    } else {
        pattern
    }
}

pub open spec fn negated(pattern: Seq<char>) -> bool {
    pattern.len() > 0 && pattern[0] == '!'
}

/// What the pattern says once a leading `!` is set aside.
pub open spec fn entry_outcome(pattern: Seq<char>, relative: Seq<char>) -> Result<bool, Seq<char>> {
    pattern_outcome(unnegated(pattern), relative)
}

pub open spec fn membership_limit_reason() -> Seq<char> {
    "Workspace membership exceeds the bounded evidence limit"@
}

/// Whether `r` is what the list of patterns says of a relative path: the first
/// unsupported pattern fails the whole list, and otherwise a path belongs if
/// some plain pattern matches it and no negated one does.
pub open spec fn includes_outcome(
    patterns: Seq<String>,
    relative: Seq<char>,
    r: Result<bool, String>,
) -> bool {
    if patterns.len() > 512 {
        failed(r, membership_limit_reason())
    } else {
        match r {
            Ok(included) => {
                &&& forall|i: int|
                    0 <= i < patterns.len() ==> entry_outcome(
                        (#[trigger] patterns[i])@,
                        relative,
                    ) is Ok
                &&& included == (listed(patterns, relative, false) && !listed(
                    patterns,
                    relative,
                    true,
                ))
            },
            Err(reason) => exists|i: int|
                #![trigger patterns[i]]
                0 <= i < patterns.len() && entry_outcome(patterns[i]@, relative) == Err::<
                    bool,
                    Seq<char>,
                >(reason@) && forall|j: int|
                    0 <= j < i ==> entry_outcome((#[trigger] patterns[j])@, relative) is Ok,
        }
    }
}

/// Whether some plain (or some negated) pattern of the list matches.
pub open spec fn listed(patterns: Seq<String>, relative: Seq<char>, negative: bool) -> bool {
    exists|i: int|
        0 <= i < patterns.len() && negated((#[trigger] patterns[i])@) == negative && entry_outcome(
            patterns[i]@,
            relative,
        ) == Ok::<bool, Seq<char>>(true)
}

/// Why a list of patterns cannot be used: the first reason, if there is one.
pub open spec fn first_failure(list: Seq<Seq<char>>, relative: Seq<char>) -> Option<Seq<char>>
    decreases list.len(),
{
    if list.len() == 0 {
        None
    } else {
        match first_failure(list.drop_last(), relative) {
            Some(reason) => Some(reason),
            None => match entry_outcome(list.last(), relative) {
                Err(reason) => Some(reason),
                Ok(_) => None,
            },
        }
    }
}

/// Whether some plain (or some negated) text of the list matches.
pub open spec fn matched(list: Seq<Seq<char>>, relative: Seq<char>, negative: bool) -> bool {
    exists|i: int|
        0 <= i < list.len() && negated(#[trigger] list[i]) == negative && entry_outcome(
            list[i],
            relative,
        ) == Ok::<bool, Seq<char>>(true)
}

/// What a list of patterns says of a relative path.
pub open spec fn includes(list: Seq<Seq<char>>, relative: Seq<char>) -> Result<bool, Seq<char>> {
    if list.len() > 512 {
        Err(membership_limit_reason())
    } else {
        match first_failure(list, relative) {
            Some(reason) => Err(reason),
            None => Ok(matched(list, relative, false) && !matched(list, relative, true)),
        }
    }
}

proof fn failure_at(list: Seq<Seq<char>>, relative: Seq<char>, i: int, reason: Seq<char>)
    requires
        0 <= i < list.len(),
        entry_outcome(list[i], relative) == Err::<bool, Seq<char>>(reason),
        forall|j: int| 0 <= j < i ==> entry_outcome(#[trigger] list[j], relative) is Ok,
    ensures
        first_failure(list, relative) == Some(reason),
    decreases list.len(),
{
    if i < list.len() - 1 {
        failure_at(list.drop_last(), relative, i, reason);
    } else {
        no_failure(list.drop_last(), relative);
    }
}

proof fn no_failure(list: Seq<Seq<char>>, relative: Seq<char>)
    requires
        forall|j: int| 0 <= j < list.len() ==> entry_outcome(#[trigger] list[j], relative) is Ok,
    ensures
        first_failure(list, relative) is None,
    decreases list.len(),
{
    if list.len() > 0 {
        assert forall|j: int| 0 <= j < list.len() - 1 implies entry_outcome(
            #[trigger] list.drop_last()[j],
            relative,
        ) is Ok by {
            assert(list.drop_last()[j] == list[j]);
        }
        no_failure(list.drop_last(), relative);
        assert(entry_outcome(list[list.len() - 1], relative) is Ok);
    }
}

/// The answer for a list of patterns is the one that their texts have.
pub proof fn includes_is(
    patterns: Seq<String>,
    list: Seq<Seq<char>>,
    relative: Seq<char>,
    r: Result<bool, String>,
)
    requires
        list == patterns.map_values(|s: String| s@),
        includes_outcome(patterns, relative, r),
    ensures
        outcome_is(r, includes(list, relative)),
{
    if patterns.len() <= 512 {
        match r {
            Ok(included) => {
                assert forall|j: int| 0 <= j < list.len() implies entry_outcome(
                    #[trigger] list[j],
                    relative,
                ) is Ok by {
                    assert(list[j] == patterns[j]@);
                }
                no_failure(list, relative);
                assert forall|negative: bool|
                    listed(patterns, relative, negative) == matched(list, relative, negative) by {
                    if listed(patterns, relative, negative) {
                        let i = choose|i: int|
                            0 <= i < patterns.len() && negated((#[trigger] patterns[i])@)
                                == negative && entry_outcome(patterns[i]@, relative) == Ok::<
                                bool,
                                Seq<char>,
                            >(true);
                        assert(list[i] == patterns[i]@);
                    }
                    if matched(list, relative, negative) {
                        let i = choose|i: int|
                            0 <= i < list.len() && negated(#[trigger] list[i]) == negative
                                && entry_outcome(list[i], relative) == Ok::<bool, Seq<char>>(true);
                        assert(list[i] == patterns[i]@);
                    }
                }
                assert(listed(patterns, relative, false) == matched(list, relative, false));
                assert(listed(patterns, relative, true) == matched(list, relative, true));
            },
            Err(reason) => {
                let i = choose|i: int|
                    #![trigger patterns[i]]
                    0 <= i < patterns.len() && entry_outcome(patterns[i]@, relative) == Err::<
                        bool,
                        Seq<char>,
                    >(reason@) && forall|j: int|
                        0 <= j < i ==> entry_outcome((#[trigger] patterns[j])@, relative) is Ok;
                assert(list[i] == patterns[i]@);
                assert forall|j: int| 0 <= j < i implies entry_outcome(
                    #[trigger] list[j],
                    relative,
                ) is Ok by {
                    assert(list[j] == patterns[j]@);
                }
                failure_at(list, relative, i, reason@);
            },
        }
    }
}

/// Whether the listed workspace patterns declare this relative path a member.
pub fn workspace_includes(patterns: &[String], relative: &str) -> (r: Result<bool, String>)
    ensures
        includes_outcome(patterns@, relative@, r),
{
    if patterns.len() > 512 {
        return fail("Workspace membership exceeds the bounded evidence limit");
    }
    let mut included: bool = false;
    let mut excluded: bool = false;
    let mut i: usize = 0;
    while i < patterns.len()
        invariant
            i <= patterns.len() <= 512,
            forall|j: int|
                0 <= j < i ==> entry_outcome((#[trigger] patterns@[j])@, relative@) is Ok,
            included == listed(patterns@.take(i as int), relative@, false),
            excluded == listed(patterns@.take(i as int), relative@, true),
        decreases patterns.len() - i,
    {
        let chars: Vec<char> = chars_of(patterns[i].as_str());
        let ghost text = patterns@[i as int]@;
        let negative: bool = chars.len() > 0 && chars[0] == '!';
        let outcome: Result<bool, String> = if negative {
            assert(chars@.subrange(1, chars@.len() as int) =~= chars@.skip(1));
            let rest: String = text_of(slice_subrange(chars.as_slice(), 1, chars.len()));
            workspace_pattern(rest.as_str(), relative)
        } else {
            workspace_pattern(patterns[i].as_str(), relative)
        };
        assert(outcome_is(outcome, entry_outcome(text, relative@)));
        match outcome {
            Err(reason) => {
                assert(entry_outcome(patterns@[i as int]@, relative@) == Err::<bool, Seq<char>>(
                    reason@,
                ));
                return Err(reason);
            },
            Ok(matched) => {
                proof {
                    let before = patterns@.take(i as int);
                    let after = patterns@.take(i + 1);
                    listed_step(before, patterns@[i as int], relative@, true);
                    listed_step(before, patterns@[i as int], relative@, false);
                    assert(after =~= before.push(patterns@[i as int]));
                }
                if negative {
                    excluded = excluded || matched;
                } else {
                    included = included || matched;
                }
            },
        }
        i = i + 1;
    }
    assert(patterns@.take(i as int) =~= patterns@);
    Ok(included && !excluded)
}

proof fn listed_step(before: Seq<String>, next: String, relative: Seq<char>, negative: bool)
    ensures
        listed(before.push(next), relative, negative) == (listed(before, relative, negative) || (
        negated(next@) == negative && entry_outcome(next@, relative) == Ok::<bool, Seq<char>>(
            true,
        ))),
{
    let after = before.push(next);
    if listed(before, relative, negative) {
        let i = choose|i: int|
            0 <= i < before.len() && negated((#[trigger] before[i])@) == negative && entry_outcome(
                before[i]@,
                relative,
            ) == Ok::<bool, Seq<char>>(true);
        assert(after[i] == before[i]);
    }
    if negated(next@) == negative && entry_outcome(next@, relative) == Ok::<bool, Seq<char>>(true) {
        assert(after[before.len() as int] == next);
    }
    if listed(after, relative, negative) {
        let i = choose|i: int|
            0 <= i < after.len() && negated((#[trigger] after[i])@) == negative && entry_outcome(
                after[i]@,
                relative,
            ) == Ok::<bool, Seq<char>>(true);
        if i < before.len() {
            assert(before[i] == after[i]);
        }
    }
}

} // verus!
