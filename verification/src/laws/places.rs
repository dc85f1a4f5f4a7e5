//! How paths are told apart and brought into one spelling.
use crate::adapters::version_mark;
use crate::digest::{hex, hex_digit};
use crate::laws::texts::{
    between, digits_stand_for_their_number, splitting_gives_the_parts_back, unmarked,
};
use crate::paths::{
    components, dot, names, path_of, plain_spelling_keeps_components, root_path, scope_outcome,
    under,
};
use crate::storage_inventory::locate::{location, plain_parts, route_names, ComponentFact, Finding};
use crate::tables::{filter_add, filter_all, filter_holds, filter_push};
use crate::text::{digits, index_of_is, pieces};
use vstd::prelude::*;
use vstd::utf8::valid_utf8;

verus! {

/// A name that a path is made of.
pub open spec fn a_name(part: Seq<u8>) -> bool {
    &&& part.len() > 0
    &&& part != seq![46u8]
    &&& forall|i: int| 0 <= i < part.len() ==> #[trigger] part[i] != 47u8
}

/// The path from the root of the file system through these names.
pub open spec fn absolute(parts: Seq<Seq<u8>>) -> Seq<u8> {
    seq![47u8] + between(parts, 47u8)
}

proof fn absolute_pieces(parts: Seq<Seq<u8>>)
    requires
        parts.len() > 0,
        forall|i: int| 0 <= i < parts.len() ==> a_name(#[trigger] parts[i]),
    ensures
        pieces(absolute(parts), 47u8) == seq![Seq::<u8>::empty()] + parts,
        names(absolute(parts)) == parts,
{
    let whole = absolute(parts);
    assert(unmarked(parts, 47u8)) by {
        assert forall|i: int, j: int| 0 <= i < parts.len() && 0 <= j < parts[i].len() implies #[trigger] parts[i][j]
            != 47u8 by {
            assert(a_name(parts[i]));
        }
    }
    splitting_gives_the_parts_back(parts, 47u8);
    index_of_is(whole, 47u8, 0);
    assert(whole.take(0) =~= Seq::<u8>::empty());
    assert(whole.skip(1) =~= between(parts, 47u8));
    let first = seq![Seq::<u8>::empty()];
    let keep = |part: Seq<u8>| part.len() > 0 && part != dot();
    filter_add(first, parts, keep);
    assert(first.filter(keep) =~= Seq::<Seq<u8>>::empty()) by {
        let none = Seq::<Seq<u8>>::empty();
        filter_push(none, Seq::<u8>::empty(), keep);
        filter_holds(none, keep);
        assert(none.push(Seq::<u8>::empty()) =~= first);
    }
    assert forall|i: int| 0 <= i < parts.len() implies keep(#[trigger] parts[i]) by {
        assert(a_name(parts[i]));
    }
    filter_all(parts, keep);
    assert(Seq::<Seq<u8>>::empty() + parts =~= parts);
}

/// The components of such a path are the root and these names.
pub proof fn paths_have_their_components(parts: Seq<Seq<u8>>)
    requires
        parts.len() > 0,
        forall|i: int| 0 <= i < parts.len() ==> a_name(#[trigger] parts[i]),
    ensures
        components(absolute(parts)) == seq![seq![47u8]] + parts,
{
    absolute_pieces(parts);
    reveal(components);
    assert(root_path() =~= seq![47u8]);
}

/// One path lies in another exactly when its names begin with those of the other.
pub proof fn paths_lie_in_one_another(parts: Seq<Seq<u8>>, others: Seq<Seq<u8>>)
    requires
        parts.len() > 0,
        others.len() > 0,
        forall|i: int| 0 <= i < parts.len() ==> a_name(#[trigger] parts[i]),
        forall|i: int| 0 <= i < others.len() ==> a_name(#[trigger] others[i]),
    ensures
        under(absolute(parts), absolute(others)) <==> others.len() <= parts.len() && parts.take(
            others.len() as int,
        ) == others,
{
    paths_have_their_components(parts);
    paths_have_their_components(others);
    let a = components(absolute(parts));
    let b = components(absolute(others));
    if others.len() <= parts.len() {
        assert(a.take(b.len() as int) =~= seq![seq![47u8]] + parts.take(others.len() as int));
        if a.take(b.len() as int) == b {
            assert(parts.take(others.len() as int) =~= b.skip(1));
            assert(b.skip(1) =~= others);
        }
    }
}

proof fn between_last(parts: Seq<Seq<u8>>)
    requires
        parts.len() > 1,
    ensures
        between(parts, 47u8) == between(parts.drop_last(), 47u8) + seq![47u8] + parts.last(),
    decreases parts.len(),
{
    let rest = parts.skip(1);
    assert(between(parts, 47u8) == parts[0] + seq![47u8] + between(rest, 47u8));
    if parts.len() == 2 {
        assert(rest.len() == 1 && rest[0] == parts[1]);
        assert(between(rest, 47u8) == parts[1]);
        assert(parts.drop_last().len() == 1);
        assert(between(parts.drop_last(), 47u8) == parts[0]);
    } else {
        between_last(rest);
        assert(rest.drop_last() =~= parts.drop_last().skip(1));
        assert(parts.drop_last()[0] == parts[0]);
        let mid = between(rest.drop_last(), 47u8);
        assert(between(parts.drop_last(), 47u8) == parts[0] + seq![47u8] + mid);
        assert(parts[0] + seq![47u8] + (mid + seq![47u8] + parts.last()) =~= (parts[0] + seq![47u8]
            + mid) + seq![47u8] + parts.last());
    }
}

proof fn plain_spelling(parts: Seq<Seq<u8>>)
    requires
        parts.len() > 0,
        forall|i: int| 0 <= i < parts.len() ==> a_name(#[trigger] parts[i]),
    ensures
        path_of(parts) == absolute(parts),
    decreases parts.len(),
{
    let front = parts.drop_last();
    let last = parts.last();
    if parts.len() == 1 {
        assert(path_of(front) =~= seq![47u8]);
        assert(parts[0] == last);
        assert(path_of(parts) =~= absolute(parts));
    } else {
        assert forall|i: int| 0 <= i < front.len() implies a_name(#[trigger] front[i]) by {
            assert(front[i] == parts[i]);
        }
        plain_spelling(front);
        between_last(parts);
        assert(a_name(parts[0]));
        assert(between(front, 47u8).len() > 0) by {
            assert(front[0].len() > 0);
        }
        assert(path_of(parts) =~= absolute(parts));
    }
}

/// One of the names leads up again.
pub open spec fn goes_up(parts: Seq<Seq<u8>>) -> bool {
    exists|i: int| 0 <= i < parts.len() && #[trigger] parts[i] == seq![46u8, 46u8]
}

/// A plainly spelled path is its own scope. One that goes up again is refused, and so
/// is what is not text.
pub proof fn plain_paths_are_scopes(parts: Seq<Seq<u8>>)
    requires
        parts.len() > 0,
        forall|i: int| 0 <= i < parts.len() ==> a_name(#[trigger] parts[i]),
    ensures
        valid_utf8(absolute(parts)) && !goes_up(parts) ==> scope_outcome(absolute(parts)) == Ok::<
            Seq<u8>,
            Seq<char>,
        >(absolute(parts)),
        goes_up(parts) ==> scope_outcome(absolute(parts)) is Err,
        !valid_utf8(absolute(parts)) ==> scope_outcome(absolute(parts)) is Err,
{
    absolute_pieces(parts);
    plain_spelling(parts);
    scope_of(absolute(parts), parts);
}

proof fn scope_of(path: Seq<u8>, parts: Seq<Seq<u8>>)
    requires
        path.len() > 0,
        path[0] == 47u8,
        pieces(path, 47u8) == seq![Seq::<u8>::empty()] + parts,
        names(path) == parts,
        path_of(parts) == path,
    ensures
        valid_utf8(path) && !goes_up(parts) ==> scope_outcome(path) == Ok::<Seq<u8>, Seq<char>>(
            path,
        ),
        goes_up(parts) ==> scope_outcome(path) is Err,
        !valid_utf8(path) ==> scope_outcome(path) is Err,
{
    let all = seq![Seq::<u8>::empty()] + parts;
    let up = goes_up(parts);
    assert(all.contains(crate::paths::parent_part()) == up) by {
        up_among(parts);
    }
    scope_when(path, parts, all, up);
}

proof fn scope_when(path: Seq<u8>, parts: Seq<Seq<u8>>, all: Seq<Seq<u8>>, up: bool)
    requires
        path.len() > 0,
        path[0] == 47u8,
        pieces(path, 47u8) == all,
        names(path) == parts,
        path_of(parts) == path,
        all.contains(crate::paths::parent_part()) == up,
    ensures
        up || !valid_utf8(path) ==> scope_outcome(path) is Err,
        !up && valid_utf8(path) ==> scope_outcome(path) == Ok::<Seq<u8>, Seq<char>>(path),
{
}

/// A relative path is no scope.
pub proof fn relative_paths_are_no_scopes(parts: Seq<Seq<u8>>)
    requires
        parts.len() > 0,
        a_name(parts[0]),
    ensures
        scope_outcome(between(parts, 47u8)) is Err,
{
    assert(between(parts, 47u8)[0] == parts[0][0]);
}

proof fn up_among(parts: Seq<Seq<u8>>)
    ensures
        (seq![Seq::<u8>::empty()] + parts).contains(crate::paths::parent_part()) == goes_up(parts),
{
    let up = crate::paths::parent_part();
    assert(up =~= seq![46u8, 46u8]);
    let all = seq![Seq::<u8>::empty()] + parts;
    if all.contains(up) {
        let k = choose|k: int| 0 <= k < all.len() && all[k] == up;
        assert(all[0].len() == 0 && up.len() == 2);
        assert(parts[k - 1] == all[k]);
    }
    if goes_up(parts) {
        let i = choose|i: int| 0 <= i < parts.len() && #[trigger] parts[i] == seq![46u8, 46u8];
        assert(all[i + 1] == up);
    }
}

/// A scope is the same place as the path that it was made of.
pub proof fn scopes_stay_in_their_place(path: Seq<u8>)
    ensures
        scope_outcome(path) matches Ok(scope) ==> components(scope) == components(path),
{
    if scope_outcome(path) is Ok {
        plain_spelling_keeps_components(path);
    }
}

/// A relative route leads through its names, as long as it is not too long; one that
/// begins at the root, goes up, or names nothing is refused.
pub proof fn routes_lead_through_their_names(parts: Seq<Seq<u8>>)
    requires
        parts.len() > 0,
        forall|i: int|
            0 <= i < parts.len() ==> a_name(#[trigger] parts[i]) && parts[i] != seq![46u8, 46u8]
                && !parts[i].contains(0u8),
        between(parts, 47u8).len() <= 4096,
    ensures
        route_names(between(parts, 47u8)) == Ok::<
            Seq<Seq<u8>>,
            crate::storage_inventory::report::FailureView,
        >(parts),
        route_names(absolute(parts)) is Err,
        route_names(Seq::<u8>::empty()) is Err,
        route_names(seq![47u8]) is Err,
{
    let whole = between(parts, 47u8);
    assert(unmarked(parts, 47u8)) by {
        assert forall|i: int, j: int| 0 <= i < parts.len() && 0 <= j < parts[i].len() implies #[trigger] parts[i][j]
            != 47u8 by {
            assert(a_name(parts[i]));
        }
    }
    splitting_gives_the_parts_back(parts, 47u8);
    assert(a_name(parts[0]));
    assert(whole[0] == parts[0][0]);
    every_part_is_taken(parts, parts.len() as int);
    assert(parts.take(parts.len() as int) =~= parts);
    let none = Seq::<u8>::empty();
    index_of_is(none, 47u8, 0);
    assert(pieces(none, 47u8) =~= seq![none]);
    reveal_with_fuel(plain_parts, 2);
    assert(seq![none][0].len() == 0);
}

proof fn every_part_is_taken(parts: Seq<Seq<u8>>, n: int)
    requires
        0 <= n <= parts.len(),
        forall|i: int|
            0 <= i < parts.len() ==> a_name(#[trigger] parts[i]) && parts[i] != seq![46u8, 46u8]
                && !parts[i].contains(0u8),
    ensures
        plain_parts(parts, n) == Ok::<
            Seq<Seq<u8>>,
            crate::storage_inventory::report::FailureView,
        >(parts.take(n)),
    decreases n,
{
    if n > 0 {
        every_part_is_taken(parts, n - 1);
        let part = parts[n - 1];
        assert(a_name(part));
        assert(crate::storage_inventory::locate::same_part() =~= seq![46u8]);
        assert(crate::paths::parent_part() =~= seq![46u8, 46u8]);
        assert(parts.take(n - 1).push(part) =~= parts.take(n));
    } else {
        assert(parts.take(0) =~= seq![]);
    }
}

/// A location at the end of its route is found where every component before it is a
/// folder that could be opened.
pub proof fn locations_are_found(
    parts: Seq<Seq<u8>>,
    facts: Seq<ComponentFact>,
    device: u64,
    meta: crate::model::EntryMeta,
)
    requires
        parts.len() > 0,
        forall|i: int|
            0 <= i < parts.len() ==> a_name(#[trigger] parts[i]) && parts[i] != seq![46u8, 46u8]
                && !parts[i].contains(0u8),
        between(parts, 47u8).len() <= 4096,
        facts.len() == parts.len(),
        forall|k: int|
            0 <= k < facts.len() - 1 ==> {
                &&& (#[trigger] facts[k]).meta matches Some(Ok(Some(folder)))
                    && crate::laws::overview::local(folder, device) && folder.identity.mode
                    & 0o170000 == 0o040000
                &&& facts[k].opened matches Some(Ok(_))
            },
        facts[facts.len() - 1].meta matches Some(Ok(Some(last))) && last == meta
            && crate::laws::overview::local(meta, device),
    ensures
        location(between(parts, 47u8), facts, Some(device)) == Finding::At(meta),
{
    routes_lead_through_their_names(parts);
    crate::laws::overview::plain_components_lead_to_the_location(
        facts,
        facts.len() as int,
        0,
        device,
        meta,
    );
}

/// The marks of two versions of a kind differ.
pub proof fn versions_are_told_apart(kind: Seq<char>, a: u32, b: u32)
    ensures
        version_mark(kind, a) == version_mark(kind, b) <==> a == b,
        version_mark(kind, a).take(kind.len() as int) == kind,
{
    let front = kind + "-v"@;
    assert(version_mark(kind, a).take(kind.len() as int) =~= kind);
    assert(version_mark(kind, a).skip(front.len() as int) =~= digits(a as nat));
    assert(version_mark(kind, b).skip(front.len() as int) =~= digits(b as nat));
    digits_stand_for_their_number(a as nat);
    digits_stand_for_their_number(b as nat);
}

/// Every byte of a digest is written with two digits, and differently from any other.
pub proof fn digests_are_told_apart(a: Seq<u8>, b: Seq<u8>)
    ensures
        hex(a).len() == 2 * a.len(),
        hex(a) == hex(b) <==> a == b,
{
    assert(hex(a).len() == 2 * a.len() && hex(b).len() == 2 * b.len());
    if hex(a) == hex(b) {
        assert(a.len() == b.len());
        assert forall|i: int| 0 <= i < a.len() implies a[i] == b[i] by {
            assert(hex(a)[2 * i] == hex_digit(a[i] as int / 16));
            assert(hex(b)[2 * i] == hex_digit(b[i] as int / 16));
            assert(hex(a)[2 * i + 1] == hex_digit(a[i] as int % 16));
            assert(hex(b)[2 * i + 1] == hex_digit(b[i] as int % 16));
            digits_differ(a[i] as int / 16, b[i] as int / 16);
            digits_differ(a[i] as int % 16, b[i] as int % 16);
        }
        assert(a =~= b);
    }
}

proof fn digits_differ(m: int, n: int)
    requires
        0 <= m < 16,
        0 <= n < 16,
        hex_digit(m) == hex_digit(n),
    ensures
        m == n,
{
    let x = if m < 10 {
        '0' as u32 + m
    } else {
        'a' as u32 + m - 10
    };
    let y = if n < 10 {
        '0' as u32 + n
    } else {
        'a' as u32 + n - 10
    };
    assert(hex_digit(m) as int == x);
    assert(hex_digit(n) as int == y);
}

} // verus!
