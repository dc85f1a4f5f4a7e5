//! Paths as bytes, in any spelling, and what it means to lie under one.
use crate::order::precedes;
use crate::text::{
    begins, covers, fail, failed, index_of, index_of_facts, index_of_is, pieces, same_bytes,
    split_bytes, utf8_text, Span,
};
use std::sync::Arc;
use vstd::prelude::*;
use vstd::slice::{slice_subrange, slice_to_vec};
use vstd::utf8::{encode_utf8, valid_utf8};

verus! {

/// The bytes of a path, shared between the rows that mention it. Any spelling is
/// admitted: `under` and `same_place` compare by component.
pub type FsPath = Arc<Vec<u8>>;

/// The byte between two components.
pub const SLASH: u8 = 47;

/// The byte right after the separator in byte order.
pub const ZERO: u8 = 48;

/// Another handle on the same path: `Arc::clone` of the standard library points
/// to the same allocation, so the path that it hands back is the one it was given.
#[verifier::external_body]
pub(crate) fn share(path: &FsPath) -> (r: FsPath)
    ensures
        r == *path,
{
    Arc::clone(path)
}

/// A path with these bytes.
pub fn fs_path(bytes: Vec<u8>) -> (r: FsPath)
    ensures
        r@ == bytes@,
{
    Arc::new(bytes)
}

/// The bytes of a path.
pub fn path_bytes(path: &FsPath) -> (r: &[u8])
    ensures
        r@ == path@,
{
    path.as_slice()
}

/// The root of the file system.
pub open spec fn root_path() -> Seq<u8> {
    seq![SLASH]
}

/// What every text in the range below `base` begins with.
pub open spec fn below(base: Seq<u8>) -> Seq<u8> {
    if base == root_path() {
        base
    } else {
        base.push(SLASH)
    }
}

/// Whether a path starts at the root of the file system.
pub open spec fn rooted(path: Seq<u8>) -> bool {
    path.len() > 0 && path[0] == SLASH
}

/// The component `.`, which counts only at the beginning of a relative path.
pub open spec fn dot() -> Seq<u8> {
    seq![46u8]
}

/// The components of a path. The root is one of its own; repeated separators, one
/// at the end and `.` parts add none, but for a `.` at the very beginning.
#[verifier::opaque]
pub open spec fn components(path: Seq<u8>) -> Seq<Seq<u8>> {
    if rooted(path) {
        seq![root_path()] + names(path)
    } else if pieces(path, SLASH)[0] == dot() {
        seq![dot()] + names(path)
    } else {
        names(path)
    }
}

/// Whether two paths are the same, however they are spelled.
pub open spec fn same_place(a: Seq<u8>, b: Seq<u8>) -> bool {
    components(a) == components(b)
}

/// Whether `path` is `base` or lies below it: the components of `base` are the
/// first ones of `path`.
pub open spec fn under(path: Seq<u8>, base: Seq<u8>) -> bool {
    begins(components(path), components(base))
}

/// Whether `path` lies below `base` and is not `base` itself.
pub open spec fn strictly_under(path: Seq<u8>, base: Seq<u8>) -> bool {
    under(path, base) && !same_place(path, base)
}

/// The path of an entry of a directory.
pub open spec fn child(base: Seq<u8>, name: Seq<u8>) -> Seq<u8> {
    if base.len() == 0 || base.last() == SLASH {
        base + name
    } else {
        base.push(SLASH) + name
    }
}

/// Where the components of a path stand in it.
fn component_spans(path: &[u8]) -> (r: Vec<Span>)
    ensures
        covers(r@, path@, components(path@)),
{
    proof {
        reveal(components);
    }
    let parts: Vec<Span> = split_bytes(path, SLASH);
    let ghost all = pieces(path@, SLASH);
    let ghost keep = |part: Seq<u8>| part.len() > 0 && part != dot();
    let mut out: Vec<Span> = Vec::new();
    let ghost mut front: Seq<Seq<u8>> = seq![];
    if path.len() > 0 && path[0] == SLASH {
        out.push(Span { start: 0, end: 1 });
        proof {
            front = seq![root_path()];
            assert(path@.subrange(0, 1) =~= root_path());
        }
    } else {
        let first: &[u8] = slice_subrange(path, parts[0].start, parts[0].end);
        assert(first@ == all[0]);
        if first.len() == 1 && first[0] == 46 {
            out.push(parts[0]);
            proof {
                assert(first@ =~= dot());
                front = seq![dot()];
            }
        } else {
            assert(first@ != dot()) by {
                if first@ == dot() {
                    assert(first@[0] == 46);
                }
            }
        }
    }
    assert(all.take(0).filter(keep) =~= seq![]) by {
        reveal(Seq::filter);
    }
    assert(front + all.take(0).filter(keep) =~= front);
    let mut i: usize = 0;
    while i < parts.len()
        invariant
            i <= parts.len(),
            covers(parts@, path@, all),
            keep == (|part: Seq<u8>| part.len() > 0 && part != dot()),
            covers(out@, path@, front + all.take(i as int).filter(keep)),
        decreases parts.len() - i,
    {
        let part: &[u8] = slice_subrange(path, parts[i].start, parts[i].end);
        let n: usize = part.len();
        let ghost now = all.take(i + 1);
        let ghost before = all.take(i as int).filter(keep);
        proof {
            assert(now.drop_last() =~= all.take(i as int));
            assert(now.last() == part@);
            reveal(Seq::filter);
            if keep(part@) {
                assert(now.filter(keep) == before.push(part@));
                assert(front + before.push(part@) =~= (front + before).push(part@));
            } else {
                assert(now.filter(keep) == before);
            }
            if n == 1 && part@[0] == 46 {
                assert(part@ =~= dot());
            }
            if part@ == dot() {
                assert(part@[0] == 46);
            }
        }
        if n > 0 && !(n == 1 && part[0] == 46) {
            out.push(parts[i]);
        }
        i = i + 1;
    }
    assert(all.take(i as int) =~= all);
    assert(names(path@) == all.filter(keep)) by {
        assert(keep =~= |part: Seq<u8>| part.len() > 0 && part != dot());
    }
    assert(front + names(path@) =~= components(path@));
    out
}

/// Whether the first components of two paths agree, as many as `n`.
fn parts_agree(a: &[u8], x: &Vec<Span>, b: &[u8], y: &Vec<Span>, n: usize) -> (r: bool)
    requires
        covers(x@, a@, components(a@)),
        covers(y@, b@, components(b@)),
        n <= x@.len(),
        n <= y@.len(),
    ensures
        r == (components(a@).take(n as int) == components(b@).take(n as int)),
{
    let ghost p = components(a@);
    let ghost q = components(b@);
    let mut i: usize = 0;
    while i < n
        invariant
            i <= n,
            n <= x@.len(),
            n <= y@.len(),
            p == components(a@),
            q == components(b@),
            covers(x@, a@, p),
            covers(y@, b@, q),
            forall|j: int| 0 <= j < i ==> p[j] == q[j],
        decreases n - i,
    {
        let left: &[u8] = slice_subrange(a, x[i].start, x[i].end);
        let right: &[u8] = slice_subrange(b, y[i].start, y[i].end);
        if !same_bytes(left, right) {
            assert(p.take(n as int)[i as int] != q.take(n as int)[i as int]);
            return false;
        }
        i = i + 1;
    }
    assert(p.take(n as int) =~= q.take(n as int));
    true
}

/// Whether `path` is `base` or lies below it.
pub fn is_under(path: &[u8], base: &[u8]) -> (r: bool)
    ensures
        r == under(path@, base@),
{
    let x: Vec<Span> = component_spans(path);
    let y: Vec<Span> = component_spans(base);
    assert(components(base@).take(y@.len() as int) =~= components(base@));
    y.len() <= x.len() && parts_agree(path, &x, base, &y, y.len())
}

/// Whether two paths are the same, however they are spelled.
pub fn is_same_place(a: &[u8], b: &[u8]) -> (r: bool)
    ensures
        r == same_place(a@, b@),
{
    let x: Vec<Span> = component_spans(a);
    let y: Vec<Span> = component_spans(b);
    assert(components(a@).take(x@.len() as int) =~= components(a@));
    assert(components(b@).take(y@.len() as int) =~= components(b@));
    x.len() == y.len() && parts_agree(a, &x, b, &y, x.len())
}

/// Whether `path` lies below `base` and is not `base` itself.
pub fn is_strictly_under(path: &[u8], base: &[u8]) -> (r: bool)
    ensures
        r == strictly_under(path@, base@),
{
    is_under(path, base) && !is_same_place(path, base)
}

/// The components of a path after those of a base.
pub fn parts_below<'a>(path: &'a [u8], base: &[u8]) -> (r: Vec<&'a [u8]>)
    requires
        under(path@, base@),
    ensures
        r@.len() == components(path@).len() - components(base@).len(),
        forall|i: int|
            0 <= i < r@.len() ==> (#[trigger] r@[i])@ == components(path@)[components(base@).len()
                + i],
{
    let x: Vec<Span> = component_spans(path);
    let n: usize = component_spans(base).len();
    let mut out: Vec<&'a [u8]> = Vec::new();
    let mut i: usize = n;
    while i < x.len()
        invariant
            n <= i <= x@.len(),
            n == components(base@).len(),
            covers(x@, path@, components(path@)),
            out@.len() == i - n,
            forall|j: int| 0 <= j < out@.len() ==> (#[trigger] out@[j])@ == components(path@)[n + j],
        decreases x.len() - i,
    {
        let part: &'a [u8] = slice_subrange(path, x[i].start, x[i].end);
        out.push(part);
        i = i + 1;
    }
    out
}

/// Whether the path stands in the byte range of what lies below `base`.
pub fn begins_below(path: &[u8], base: &[u8]) -> (r: bool)
    ensures
        r == begins(path@, below(base@)),
{
    let top: bool = base.len() == 1 && base[0] == SLASH;
    if top {
        assert(base@ =~= root_path());
        return crate::text::bytes_begin(path, base);
    }
    let mut low: Vec<u8> = slice_to_vec(base);
    low.push(SLASH);
    crate::text::bytes_begin(path, low.as_slice())
}

/// The path of an entry of a directory.
pub fn join(base: &[u8], name: &[u8]) -> (r: FsPath)
    ensures
        r@ == child(base@, name@),
{
    let mut out: Vec<u8> = slice_to_vec(base);
    if base.len() > 0 && base[base.len() - 1] != SLASH {
        out.push(SLASH);
    }
    let mut rest: Vec<u8> = slice_to_vec(name);
    out.append(&mut rest);
    fs_path(out)
}

/// A text in the range below another one.
fn extend(base: &[u8], name: &[u8]) -> (r: FsPath)
    ensures
        r@ == below(base@) + name@,
{
    let mut out: Vec<u8> = slice_to_vec(base);
    if !(base.len() == 1 && base[0] == SLASH) {
        out.push(SLASH);
    } else {
        assert(base@ =~= root_path());
    }
    let mut rest: Vec<u8> = slice_to_vec(name);
    out.append(&mut rest);
    fs_path(out)
}

/// Nothing is lost on the way up: lying under is transitive.
pub proof fn under_transitive(a: Seq<u8>, b: Seq<u8>, c: Seq<u8>)
    requires
        under(a, b),
        under(b, c),
    ensures
        under(a, c),
{
    let x = components(a);
    let y = components(b);
    let z = components(c);
    assert(x.take(z.len() as int) =~= y.take(z.len() as int)) by {
        assert forall|i: int| 0 <= i < z.len() implies x[i] == y[i] by {
            assert(x.take(y.len() as int)[i] == y[i]);
        }
    }
}

/// Two paths that lie under each other are the same.
pub proof fn under_antisymmetric(a: Seq<u8>, b: Seq<u8>)
    requires
        under(a, b),
        under(b, a),
    ensures
        same_place(a, b),
{
    let x = components(a);
    assert(x.take(x.len() as int) =~= x);
}

/// Every path lies under itself, in whatever spelling.
pub proof fn under_itself(a: Seq<u8>, b: Seq<u8>)
    requires
        same_place(a, b),
    ensures
        under(a, b),
{
    let x = components(a);
    assert(x.take(x.len() as int) =~= x);
}

/// Of two paths above the same path one lies under the other.
pub proof fn under_chain(path: Seq<u8>, a: Seq<u8>, b: Seq<u8>)
    requires
        under(path, a),
        under(path, b),
        components(a).len() <= components(b).len(),
    ensures
        under(b, a),
{
    let p = components(path);
    let x = components(a);
    let y = components(b);
    assert(y.take(x.len() as int) =~= x) by {
        assert forall|i: int| 0 <= i < x.len() implies y[i] == x[i] by {
            assert(p.take(x.len() as int)[i] == x[i]);
            assert(p.take(y.len() as int)[i] == y[i]);
        }
    }
}

/// Lying under a path does not depend on how either is spelled.
pub proof fn spelling_does_not_matter(a: Seq<u8>, b: Seq<u8>, base: Seq<u8>, other: Seq<u8>)
    requires
        same_place(a, b),
        same_place(base, other),
    ensures
        under(a, base) == under(b, other),
        strictly_under(a, base) == strictly_under(b, other),
{
}

/// Whether a text is another one or stands in the range below it.
spec fn spelled(path: Seq<u8>, base: Seq<u8>) -> bool {
    path == base || begins(path, below(base))
}

proof fn spelled_transitive(a: Seq<u8>, b: Seq<u8>, c: Seq<u8>)
    requires
        spelled(a, b),
        spelled(b, c),
    ensures
        spelled(a, c),
{
    if a != b && b != c {
        let lb = below(b);
        let lc = below(c);
        assert(b.take(lc.len() as int) == lc);
        if b == root_path() {
            assert(lc.len() <= 1);
            assert(c != root_path());
            assert(lc =~= c.push(SLASH));
            assert(lc.len() >= 1);
            assert(c.len() == 0);
            assert(a.take(lc.len() as int) =~= lc) by {
                assert(a[0] == a.take(1)[0]);
                assert(lc[0] == SLASH);
            }
        } else {
            assert(a.take(lb.len() as int) == lb);
            assert(a.take(lc.len() as int) =~= b.take(lc.len() as int)) by {
                assert forall|i: int| 0 <= i < lc.len() implies a[i] == b[i] by {
                    assert(lb[i] == b[i]);
                    assert(a.take(lb.len() as int)[i] == lb[i]);
                }
            }
        }
    }
}

proof fn spelled_antisymmetric(a: Seq<u8>, b: Seq<u8>)
    requires
        spelled(a, b),
        spelled(b, a),
    ensures
        a == b,
{
    if a != b {
        assert(below(b).len() <= a.len());
        assert(below(a).len() <= b.len());
        if a == root_path() || b == root_path() {
            if a == root_path() {
                assert(b.len() <= 1);
                if b.len() == 1 {
                    assert(b.take(1) =~= b);
                }
                assert(b.take(1) == below(a));
            } else {
                if a.len() == 1 {
                    assert(a.take(1) =~= a);
                }
                assert(a.take(1) == below(b));
            }
        }
    }
}

proof fn spelled_chain(path: Seq<u8>, a: Seq<u8>, b: Seq<u8>)
    requires
        spelled(path, a),
        spelled(path, b),
        a.len() <= b.len(),
    ensures
        spelled(b, a),
{
    if a != b {
        if path == b {
        } else {
            let lb = below(b);
            assert(path.take(lb.len() as int) == lb);
            if path == a {
                assert(lb.len() <= a.len());
                if b == root_path() {
                    assert(a.take(1) =~= a);
                }
            } else {
                let la = below(a);
                assert(path.take(la.len() as int) == la);
                assert(la.len() <= b.len() + 1);
                if la.len() <= b.len() {
                    assert(b.take(la.len() as int) =~= la) by {
                        assert forall|i: int| 0 <= i < la.len() implies b[i] == la[i] by {
                            assert(lb[i] == b[i]);
                            assert(path.take(lb.len() as int)[i] == lb[i]);
                            assert(path.take(la.len() as int)[i] == la[i]);
                        }
                    }
                } else {
                    assert(a.len() == b.len());
                    assert(a =~= b) by {
                        assert forall|i: int| 0 <= i < a.len() implies a[i] == b[i] by {
                            assert(lb[i] == b[i]);
                            assert(la[i] == a[i]);
                            assert(path.take(lb.len() as int)[i] == lb[i]);
                            assert(path.take(la.len() as int)[i] == la[i]);
                        }
                    }
                }
            }
        }
    }
}

/// The paths below `base` are exactly those in the byte range that starts at
/// `base/` and ends before `base0`: a sibling whose name only begins like
/// `base`, or holds a wildcard character, is never among them.
pub proof fn descendants_are_a_range(path: Seq<u8>, base: Seq<u8>)
    ensures
        begins(path, base.push(SLASH)) == (!precedes(path, base.push(SLASH)) && precedes(
            path,
            base.push(ZERO),
        )),
    decreases base.len(),
{
    let low = base.push(SLASH);
    let high = base.push(ZERO);
    if base.len() == 0 {
        if path.len() > 0 {
            assert(path.take(1) =~= seq![path[0]]);
            assert(low =~= seq![SLASH]);
            assert(path.skip(1).len() == path.len() - 1);
            assert(low.skip(1) =~= seq![]);
            assert(high.skip(1) =~= seq![]);
            assert(!precedes(path.skip(1), low.skip(1)));
            assert(!precedes(path.skip(1), high.skip(1)));
        }
    } else if path.len() > 0 {
        let rest = base.skip(1);
        assert(low.skip(1) =~= rest.push(SLASH));
        assert(high.skip(1) =~= rest.push(ZERO));
        descendants_are_a_range(path.skip(1), rest);
        if begins(path, low) {
            assert(path[0] == path.take(low.len() as int)[0]);
            assert(path.skip(1).take((rest.len() + 1) as int) =~= low.skip(1)) by {
                assert forall|i: int| 0 <= i < rest.len() + 1 implies path.skip(1)[i]
                    == low.skip(1)[i] by {
                    assert(path.take(low.len() as int)[i + 1] == low[i + 1]);
                }
            }
        }
        if path[0] == base[0] && begins(path.skip(1), rest.push(SLASH)) {
            assert(path.take(low.len() as int) =~= low) by {
                assert forall|i: int| 0 <= i < low.len() implies path[i] == low[i] by {
                    if i > 0 {
                        assert(path.skip(1).take((rest.len() + 1) as int)[i - 1] == low.skip(1)[i - 1]);
                    }
                }
            }
        }
    }
}

/// Whether `s` holds a slash at `at` and none after it.
pub open spec fn last_slash(s: Seq<u8>) -> int
    decreases s.len(),
{
    if s.len() == 0 {
        -1
    } else if s.last() == SLASH {
        s.len() - 1
    } else {
        last_slash(s.drop_last())
    }
}

/// A path without separators and `.` parts at its end.
pub open spec fn trimmed_path(path: Seq<u8>) -> Seq<u8>
    decreases path.len(),
{
    let n = path.len();
    if n > 1 && (path.last() == SLASH || (path.last() == 46u8 && path[n - 2] == SLASH)) {
        trimmed_path(path.drop_last())
    } else {
        path
    }
}

/// The directory that holds a path; the root of the file system and the empty path
/// have none.
pub open spec fn parent_of(path: Seq<u8>) -> Option<Seq<u8>> {
    let text = trimmed_path(path);
    if text == root_path() || text.len() == 0 {
        None
    } else {
        Some(trimmed_path(text.take(last_slash(text) + 1)))
    }
}

/// The last component of a path, if it is a name: neither the root nor `.` nor `..`
/// is one.
pub open spec fn name_of(path: Seq<u8>) -> Option<Seq<u8>> {
    let text = trimmed_path(path);
    let name = text.skip(last_slash(text) + 1);
    if text == root_path() || text.len() == 0 || name == dot() || name == parent_part() {
        None
    } else {
        Some(name)
    }
}

fn trimmed_length(path: &[u8]) -> (r: usize)
    ensures
        r <= path@.len(),
        path@.take(r as int) == trimmed_path(path@),
{
    let mut n: usize = path.len();
    assert(path@.take(n as int) =~= path@);
    while n > 1 && (path[n - 1] == SLASH || (path[n - 1] == 46 && path[n - 2] == SLASH))
        invariant
            n <= path.len(),
            trimmed_path(path@.take(n as int)) == trimmed_path(path@),
        decreases n,
    {
        assert(path@.take(n as int).last() == path@[n - 1]);
        assert(path@.take(n as int)[n - 2] == path@[n - 2]);
        assert(path@.take(n as int).drop_last() =~= path@.take(n - 1));
        n = n - 1;
    }
    proof {
        if n > 0 {
            assert(path@.take(n as int).last() == path@[n - 1]);
        }
        if n > 1 {
            assert(path@.take(n as int)[n - 2] == path@[n - 2]);
        }
    }
    n
}

proof fn last_slash_bounds(s: Seq<u8>)
    ensures
        -1 <= last_slash(s) < s.len(),
    decreases s.len(),
{
    if s.len() > 0 {
        last_slash_bounds(s.drop_last());
    }
}

fn find_last_slash(s: &[u8]) -> (r: Option<usize>)
    ensures
        match r {
            Some(at) => at == last_slash(s@) && at < s@.len(),
            None => last_slash(s@) == -1,
        },
{
    let mut n: usize = s.len();
    assert(s@.take(n as int) =~= s@);
    while n > 0
        invariant
            n <= s.len(),
            last_slash(s@.take(n as int)) == last_slash(s@),
        decreases n,
    {
        assert(s@.take(n as int).last() == s@[n - 1]);
        assert(s@.take(n as int).drop_last() =~= s@.take(n - 1));
        if s[n - 1] == SLASH {
            return Some(n - 1);
        }
        n = n - 1;
    }
    None
}

/// The directory that holds a path.
pub fn parent(path: &[u8]) -> (r: Option<&[u8]>)
    ensures
        match r {
            Some(found) => parent_of(path@) == Some(found@),
            None => parent_of(path@) is None,
        },
{
    let n: usize = trimmed_length(path);
    let text: &[u8] = slice_subrange(path, 0, n);
    assert(text@ =~= path@.take(n as int));
    if n == 0 || (n == 1 && text[0] == SLASH) {
        if n == 1 {
            assert(text@ =~= root_path());
        }
        return None;
    }
    assert(text@ != root_path()) by {
        if text@ == root_path() {
            assert(text@.len() == 1 && text@[0] == SLASH);
        }
    }
    let end: usize = match find_last_slash(text) {
        Some(at) => at + 1,
        None => 0,
    };
    let front: &[u8] = slice_subrange(text, 0, end);
    assert(front@ =~= text@.take(end as int));
    let m: usize = trimmed_length(front);
    let above: &[u8] = slice_subrange(front, 0, m);
    assert(above@ =~= front@.take(m as int));
    Some(above)
}

proof fn last_slash_holds(s: Seq<u8>)
    ensures
        last_slash(s) >= 0 ==> s[last_slash(s)] == SLASH,
    decreases s.len(),
{
    if s.len() > 0 {
        last_slash_bounds(s.drop_last());
        last_slash_holds(s.drop_last());
    }
}

/// The last component of a path, if it is a name.
pub fn file_name(path: &[u8]) -> (r: Option<&[u8]>)
    ensures
        match r {
            Some(found) => name_of(path@) == Some(found@),
            None => name_of(path@) is None,
        },
{
    let n: usize = trimmed_length(path);
    let text: &[u8] = slice_subrange(path, 0, n);
    assert(text@ =~= path@.take(n as int));
    if n == 0 || (n == 1 && text[0] == SLASH) {
        if n == 1 {
            assert(text@ =~= root_path());
        }
        return None;
    }
    assert(text@ != root_path()) by {
        if text@ == root_path() {
            assert(text@.len() == 1 && text@[0] == SLASH);
        }
    }
    let start: usize = match find_last_slash(text) {
        Some(at) => at + 1,
        None => 0,
    };
    let name: &[u8] = slice_subrange(text, start, n);
    let k: usize = name.len();
    proof {
        assert(name@ =~= text@.skip(start as int));
        if k == 1 && name@[0] == 46 {
            assert(name@ =~= dot());
        }
        if k == 2 && name@[0] == 46 && name@[1] == 46 {
            assert(name@ =~= parent_part());
        }
        if name@ == dot() {
            assert(name@[0] == 46);
        }
        if name@ == parent_part() {
            assert(name@[0] == 46 && name@[1] == 46);
        }
    }
    if (k == 1 && name[0] == 46) || (k == 2 && name[0] == 46 && name[1] == 46) {
        return None;
    }
    Some(name)
}

/// The components that a path names: empty ones and `.` do not count.
pub open spec fn names(path: Seq<u8>) -> Seq<Seq<u8>> {
    pieces(path, SLASH).filter(|part: Seq<u8>| part.len() > 0 && part != dot())
}

/// The path that these components name.
pub open spec fn path_of(parts: Seq<Seq<u8>>) -> Seq<u8>
    decreases parts.len(),
{
    if parts.len() == 0 {
        root_path()
    } else {
        below(path_of(parts.drop_last())) + parts.last()
    }
}

/// The components `..` that cannot stand in a scope.
pub open spec fn parent_part() -> Seq<u8> {
    seq![46u8, 46u8]
}

/// The canonical form of a discovery scope, or why it is refused.
pub open spec fn scope_outcome(path: Seq<u8>) -> Result<Seq<u8>, Seq<char>> {
    if path.len() == 0 || path[0] != SLASH || pieces(path, SLASH).contains(parent_part()) {
        Err("A discovery scope must be an absolute path without parent traversal"@)
    } else if !valid_utf8(path_of(names(path))) {
        Err("This path cannot be represented in the native interface"@)
    } else {
        Ok(path_of(names(path)))
    }
}

/// Whether an outcome is the path, or the failure, that a specification names.
pub open spec fn path_outcome(r: Result<FsPath, String>, expected: Result<Seq<u8>, Seq<char>>) -> bool {
    match expected {
        Ok(path) => r matches Ok(got) && got@ == path,
        Err(reason) => failed(r, reason),
    }
}

/// Brings a discovery scope into its canonical form.
pub fn scope_path(path: &[u8]) -> (r: Result<FsPath, String>)
    ensures
        path_outcome(r, scope_outcome(path@)),
{
    if path.len() == 0 || path[0] != SLASH {
        return fail("A discovery scope must be an absolute path without parent traversal");
    }
    let parts: Vec<Span> = split_bytes(path, SLASH);
    let ghost all = pieces(path@, SLASH);
    let ghost keep = |part: Seq<u8>| part.len() > 0 && part != dot();
    let mut out: FsPath = fs_path(vec![SLASH]);
    let mut i: usize = 0;
    proof {
        assert(out@ =~= root_path());
        assert(all.take(0).filter(keep) =~= seq![]) by {
            reveal(Seq::filter);
        }
    }
    while i < parts.len()
        invariant
            i <= parts.len(),
            covers(parts@, path@, all),
            all == pieces(path@, SLASH),
            keep == (|part: Seq<u8>| part.len() > 0 && part != dot()),
            forall|j: int| 0 <= j < i ==> all[j] != parent_part(),
            out@ == path_of(all.take(i as int).filter(keep)),
            path@.len() > 0 && path@[0] == SLASH,
        decreases parts.len() - i,
    {
        let part: &[u8] = slice_subrange(path, parts[i].start, parts[i].end);
        let n: usize = part.len();
        let ghost now = all.take(i + 1);
        proof {
            assert(now.drop_last() =~= all.take(i as int));
            assert(now.last() == part@);
            reveal(Seq::filter);
            let before = all.take(i as int).filter(keep);
            if keep(part@) {
                assert(now.filter(keep) == before.push(part@));
                assert(before.push(part@).drop_last() =~= before);
            } else {
                assert(now.filter(keep) == before);
            }
        }
        if n == 2 && part[0] == 46 && part[1] == 46 {
            proof {
                assert(part@ =~= parent_part());
                assert(all[i as int] == parent_part());
            }
            return fail("A discovery scope must be an absolute path without parent traversal");
        }
        assert(n == 2 ==> part@ != parent_part()) by {
            if part@ == parent_part() {
                assert(part@[0] == 46 && part@[1] == 46);
            }
        }
        if n > 0 && !(n == 1 && part[0] == 46) {
            assert(part@ != dot()) by {
                if part@ == dot() {
                    assert(part@[0] == 46);
                }
            }
            out = extend(path_bytes(&out), part);
        } else if n == 1 {
            assert(part@ =~= dot());
        }
        i = i + 1;
    }
    proof {
        assert(all.take(i as int) =~= all);
        assert(!all.contains(parent_part()));
    }
    if utf8_text(path_bytes(&out)).is_none() {
        return fail("This path cannot be represented in the native interface");
    }
    Ok(out)
}

/// Whether every component is a proper name: not empty, without a separator.
pub open spec fn plain_names(parts: Seq<Seq<u8>>) -> bool {
    forall|i: int|
        0 <= i < parts.len() ==> (#[trigger] parts[i]).len() > 0 && !parts[i].contains(SLASH)
}

proof fn extends_strictly(base: Seq<u8>, name: Seq<u8>)
    requires
        name.len() > 0,
    ensures
        spelled(below(base) + name, base) && below(base) + name != base,
{
    let path = below(base) + name;
    assert(path.take(below(base).len() as int) =~= below(base));
    assert(path.len() > base.len());
}

proof fn prefix_above(parts: Seq<Seq<u8>>, n: int)
    requires
        plain_names(parts),
        0 <= n <= parts.len(),
    ensures
        spelled(path_of(parts), path_of(parts.take(n))),
        n < parts.len() ==> path_of(parts) != path_of(parts.take(n)),
        path_of(parts).len() > 0,
    decreases parts.len(),
{
    if n == parts.len() {
        assert(parts.take(n) =~= parts);
    } else {
        let front = parts.drop_last();
        assert(plain_names(front)) by {
            assert forall|i: int| 0 <= i < front.len() implies (#[trigger] front[i]).len() > 0
                && !front[i].contains(SLASH) by {
                assert(front[i] == parts[i]);
            }
        }
        prefix_above(front, n);
        assert(front.take(n) =~= parts.take(n));
        assert(parts[parts.len() - 1].len() > 0);
        extends_strictly(path_of(front), parts.last());
        spelled_transitive(path_of(parts), path_of(front), path_of(parts.take(n)));
        if path_of(parts) == path_of(parts.take(n)) {
            spelled_antisymmetric(path_of(parts), path_of(front));
        }
    }
}

/// A name cannot continue another name across a separator.
proof fn names_do_not_nest(base: Seq<u8>, x: Seq<u8>, y: Seq<u8>)
    requires
        x.len() > 0,
        y.len() > 0,
        !x.contains(SLASH),
        !y.contains(SLASH),
        spelled((below(base) + y), (below(base) + x)),
        base.len() > 0,
    ensures
        x == y,
{
    let px = (below(base) + x);
    let py = (below(base) + y);
    let n = below(base).len();
    assert(px.len() > 1 || n == 0);
    assert(px != root_path());
    if px != py {
        let lx = below(px);
        assert(py.take(lx.len() as int) == lx);
        assert(lx[px.len() as int] == SLASH);
        assert(py[px.len() as int] == SLASH) by {
            assert(py.take(lx.len() as int)[px.len() as int] == lx[px.len() as int]);
        }
        assert(py[px.len() as int] == y[px.len() - n]);
        assert(y.contains(SLASH));
    }
    assert(px.skip(n as int) =~= x);
    assert(py.skip(n as int) =~= y);
}

/// For plain spellings, standing in the range below a path is having its names as
/// the first ones.
proof fn spelled_is_name_prefix(a: Seq<Seq<u8>>, b: Seq<Seq<u8>>)
    requires
        plain_names(a),
        plain_names(b),
    ensures
        spelled(path_of(a), path_of(b)) == (b.len() <= a.len() && a.take(b.len() as int) == b),
    decreases b.len(),
{
    if b.len() <= a.len() && a.take(b.len() as int) == b {
        prefix_above(a, b.len() as int);
    }
    if spelled(path_of(a), path_of(b)) && b.len() > 0 {
        let front = b.drop_last();
        let y = b.last();
        assert(y == b[b.len() - 1]);
        assert(plain_names(front)) by {
            assert forall|i: int| 0 <= i < front.len() implies (#[trigger] front[i]).len() > 0
                && !front[i].contains(SLASH) by {
                assert(front[i] == b[i]);
            }
        }
        extends_strictly(path_of(front), y);
        spelled_transitive(path_of(a), path_of(b), path_of(front));
        spelled_is_name_prefix(a, front);
        prefix_above(front, 0);
        let k = front.len() as int;
        if a.len() == front.len() {
            assert(a.take(k) =~= a);
            spelled_antisymmetric(path_of(b), path_of(front));
        }
        let head = a.take(k + 1);
        assert(head.drop_last() =~= front);
        let x = a[k];
        prefix_above(a, k + 1);
        let px = path_of(head);
        let py = path_of(b);
        assert(px == below(path_of(front)) + x);
        if px.len() <= py.len() {
            spelled_chain(path_of(a), px, py);
            names_do_not_nest(path_of(front), x, y);
        } else {
            spelled_chain(path_of(a), py, px);
            names_do_not_nest(path_of(front), y, x);
        }
        assert(a.take(b.len() as int) =~= b) by {
            assert forall|i: int| 0 <= i < b.len() implies a[i] == b[i] by {
                if i < k {
                    assert(a.take(k)[i] == front[i]);
                }
            }
        }
    } else if b.len() == 0 {
        assert(a.take(0) =~= b);
    }
}

/// The entry of a folder with a name that is given as text.
pub open spec fn named(base: Seq<u8>, name: Seq<char>) -> Seq<u8> {
    child(base, encode_utf8(name))
}

/// The entry of a folder with a name that is given as text.
pub fn join_text(base: &FsPath, name: &str) -> (r: FsPath)
    ensures
        r@ == named(base@, name@),
{
    join(path_bytes(base), name.as_bytes())
}

/// A text without separators and `.` parts at its beginning.
pub open spec fn unprefixed(s: Seq<u8>) -> Seq<u8>
    decreases s.len(),
{
    if s.len() > 0 && s[0] == SLASH {
        unprefixed(s.skip(1))
    } else if s.len() > 0 && s[0] == 46u8 && (s.len() == 1 || s[1] == SLASH) {
        unprefixed(s.skip(1))
    } else {
        s
    }
}

/// What is left of a text after its first so many names.
pub open spec fn after_names(s: Seq<u8>, n: int) -> Seq<u8>
    decreases n,
{
    if n <= 0 {
        unprefixed(s)
    } else {
        let rest = unprefixed(s);
        after_names(rest.skip(index_of(rest, SLASH)), n - 1)
    }
}

/// What a path is called below a base: its text after as many components as the
/// base has, without what adds no component at either end.
pub open spec fn relative_to(path: Seq<u8>, base: Seq<u8>) -> Seq<u8> {
    let n = components(base).len() as int;
    if n == 0 {
        trimmed_path(path)
    } else if rooted(path) || pieces(path, SLASH)[0] == dot() {
        trimmed_path(after_names(path.skip(1), n - 1))
    } else {
        trimmed_path(after_names(path, n))
    }
}

fn skip_prefix(s: &[u8], from: usize) -> (r: usize)
    requires
        from <= s@.len(),
    ensures
        from <= r <= s@.len(),
        s@.skip(r as int) == unprefixed(s@.skip(from as int)),
{
    let mut i: usize = from;
    let n: usize = s.len();
    while i < n && (s[i] == SLASH || (s[i] == 46 && (i + 1 == n || s[i + 1] == SLASH)))
        invariant
            from <= i <= n,
            n == s@.len(),
            unprefixed(s@.skip(i as int)) == unprefixed(s@.skip(from as int)),
        decreases n - i,
    {
        proof {
            let rest = s@.skip(i as int);
            assert(rest[0] == s@[i as int]);
            if rest.len() > 1 {
                assert(rest[1] == s@[i + 1]);
            }
            assert(rest.skip(1) =~= s@.skip(i + 1));
        }
        i = i + 1;
    }
    proof {
        let rest = s@.skip(i as int);
        if rest.len() > 0 {
            assert(rest[0] == s@[i as int]);
        }
        if rest.len() > 1 {
            assert(rest[1] == s@[i + 1]);
        }
    }
    i
}

fn skip_names(s: &[u8], from: usize, count: usize) -> (r: usize)
    requires
        from <= s@.len(),
    ensures
        from <= r <= s@.len(),
        s@.skip(r as int) == after_names(s@.skip(from as int), count as int),
{
    let mut i: usize = from;
    let mut left: usize = count;
    let n: usize = s.len();
    while left > 0
        invariant
            from <= i <= n,
            n == s@.len(),
            left <= count,
            after_names(s@.skip(i as int), left as int) == after_names(
                s@.skip(from as int),
                count as int,
            ),
        decreases left,
    {
        let start: usize = skip_prefix(s, i);
        let mut end: usize = start;
        while end < n && s[end] != SLASH
            invariant
                start <= end <= n,
                n == s@.len(),
                forall|j: int| start <= j < end ==> s@[j] != SLASH,
            decreases n - end,
        {
            end = end + 1;
        }
        proof {
            let rest = s@.skip(start as int);
            assert forall|j: int| 0 <= j < end - start implies rest[j] != SLASH by {
                assert(rest[j] == s@[start + j]);
            }
            if end < n {
                assert(rest[end - start] == s@[end as int]);
            }
            index_of_is(rest, SLASH, end - start);
            assert(rest.skip(end - start) =~= s@.skip(end as int));
        }
        i = end;
        left = left - 1;
    }
    skip_prefix(s, i)
}

/// The part of a path below a base that it lies under.
pub(crate) fn strip_base<'a>(path: &'a [u8], base: &[u8]) -> (r: &'a [u8])
    requires
        under(path@, base@),
    ensures
        r@ == relative_to(path@, base@),
{
    let n: usize = component_spans(base).len();
    let total: usize = path.len();
    let first: &[u8] = first_piece(path);
    let leads: bool = (total > 0 && path[0] == SLASH) || (first.len() == 1 && first[0] == 46);
    proof {
        if first@.len() == 1 && first@[0] == 46 {
            assert(first@ =~= dot());
        }
        if first@ == dot() {
            assert(first@[0] == 46);
        }
    }
    let start: usize = if n == 0 {
        0
    } else if leads {
        proof {
            if path@.len() == 0 {
                assert(pieces(path@, SLASH)[0].len() == 0);
            }
        }
        skip_names(path, 1, n - 1)
    } else {
        assert(path@.skip(0) =~= path@);
        skip_names(path, 0, n)
    };
    let rest: &[u8] = slice_subrange(path, start, total);
    assert(rest@ =~= path@.skip(start as int));
    assert(n == 0 ==> rest@ =~= path@);
    let end: usize = trimmed_length(rest);
    let out: &[u8] = slice_subrange(rest, 0, end);
    assert(out@ =~= rest@.take(end as int));
    out
}

fn first_piece(path: &[u8]) -> (r: &[u8])
    ensures
        r@ == pieces(path@, SLASH)[0],
        r@.len() <= path@.len(),
{
    let parts: Vec<Span> = split_bytes(path, SLASH);
    slice_subrange(path, parts[0].start, parts[0].end)
}

/// The pieces of a text with a separator in it are those before and those behind.
proof fn pieces_join(a: Seq<u8>, b: Seq<u8>)
    ensures
        pieces(a.push(SLASH) + b, SLASH) == pieces(a, SLASH) + pieces(b, SLASH),
    decreases a.len(),
{
    let s = a.push(SLASH) + b;
    index_of_facts(a, SLASH);
    let at = index_of(a, SLASH);
    if at < a.len() {
        assert(s[at] == a[at]);
        index_of_is(s, SLASH, at);
        assert(s.take(at) =~= a.take(at));
        assert(s.skip(at + 1) =~= a.skip(at + 1).push(SLASH) + b);
        pieces_join(a.skip(at + 1), b);
        assert(seq![a.take(at)] + (pieces(a.skip(at + 1), SLASH) + pieces(b, SLASH))
            =~= seq![a.take(at)] + pieces(a.skip(at + 1), SLASH) + pieces(b, SLASH));
    } else {
        assert(s[a.len() as int] == SLASH);
        index_of_is(s, SLASH, a.len() as int);
        assert(s.take(a.len() as int) =~= a);
        assert(s.skip(a.len() as int + 1) =~= b);
    }
}

proof fn names_join(a: Seq<u8>, b: Seq<u8>)
    ensures
        names(a.push(SLASH) + b) == names(a) + names(b),
        pieces(a.push(SLASH) + b, SLASH)[0] == pieces(a, SLASH)[0],
{
    pieces_join(a, b);
    crate::tables::filter_add(
        pieces(a, SLASH),
        pieces(b, SLASH),
        |part: Seq<u8>| part.len() > 0 && part != dot(),
    );
}

/// A text without a separator is one piece.
proof fn names_of_one(name: Seq<u8>)
    requires
        !name.contains(SLASH),
    ensures
        pieces(name, SLASH) == seq![name],
        names(name) == if name.len() > 0 && name != dot() {
            seq![name]
        } else {
            seq![]
        },
{
    assert forall|i: int| 0 <= i < name.len() implies name[i] != SLASH by {
        assert(name.contains(name[i]));
    }
    index_of_is(name, SLASH, name.len() as int);
    let keep = |part: Seq<u8>| part.len() > 0 && part != dot();
    reveal(Seq::filter);
    let one = seq![name];
    assert(one.drop_last() =~= seq![]);
    assert(one.last() == name);
    assert(one.drop_last().filter(keep) =~= seq![]);
    assert(Seq::<Seq<u8>>::empty().push(name) =~= seq![name]);
    assert(pieces(name, SLASH) =~= one);
}

/// Components are told by the names, the first piece and the first byte.
proof fn components_told(a: Seq<u8>, b: Seq<u8>, more: Seq<Seq<u8>>)
    requires
        rooted(a) == rooted(b),
        pieces(a, SLASH)[0] == pieces(b, SLASH)[0],
        names(b) == names(a) + more,
    ensures
        components(b) == components(a) + more,
{
    reveal(components);
    assert(components(b) =~= components(a) + more);
}

/// A separator at the end adds no component.
proof fn ending_adds_nothing(a: Seq<u8>)
    requires
        a.len() > 0,
    ensures
        components(a.push(SLASH)) == components(a),
        components(a.push(SLASH).push(46)) == components(a),
{
    let none = Seq::<u8>::empty();
    names_join(a, none);
    names_join(a, dot());
    names_of_one(none);
    dot_is_plain();
    names_of_one(dot());
    assert(a.push(SLASH) + none =~= a.push(SLASH));
    assert(a.push(SLASH) + dot() =~= a.push(SLASH).push(46));
    components_told(a, a.push(SLASH), seq![]);
    components_told(a, a.push(SLASH).push(46), seq![]);
    assert(components(a) + Seq::<Seq<u8>>::empty() =~= components(a));
}

proof fn dot_is_plain()
    ensures
        !dot().contains(SLASH),
{
}

proof fn no_components()
    ensures
        components(Seq::<u8>::empty()) == Seq::<Seq<u8>>::empty(),
        names(Seq::<u8>::empty()) == Seq::<Seq<u8>>::empty(),
{
    let none = Seq::<u8>::empty();
    names_of_one(none);
    assert(pieces(none, SLASH)[0] == none);
    assert(dot().len() == 1);
    reveal(components);
}

proof fn only_root(text: Seq<u8>, rest: Seq<u8>)
    requires
        text == Seq::<u8>::empty().push(SLASH) + rest,
        names(rest) == Seq::<Seq<u8>>::empty(),
    ensures
        components(text) == seq![root_path()],
{
    no_components();
    names_join(Seq::empty(), rest);
    assert(names(text) =~= Seq::<Seq<u8>>::empty());
    assert(rooted(text));
    assert(components(text) == seq![root_path()] + names(text)) by {
        reveal(components);
    }
    assert(seq![root_path()] + names(text) =~= seq![root_path()]);
}

proof fn root_components()
    ensures
        components(root_path()) == seq![root_path()],
        components(seq![SLASH, 46u8]) == seq![root_path()],
        components(Seq::<u8>::empty()) == Seq::<Seq<u8>>::empty(),
{
    let none = Seq::<u8>::empty();
    no_components();
    assert(none.push(SLASH) + none =~= root_path());
    only_root(root_path(), none);
    assert(names(dot()) == Seq::<Seq<u8>>::empty()) by {
        dot_is_plain();
        names_of_one(dot());
    }
    assert(none.push(SLASH) + dot() =~= seq![SLASH, 46u8]);
    only_root(seq![SLASH, 46u8], dot());
}

/// Trimming a path keeps its components.
pub proof fn trimming_keeps_components(path: Seq<u8>)
    ensures
        components(trimmed_path(path)) == components(path),
        trimmed_path(path).len() <= path.len(),
        path.take(trimmed_path(path).len() as int) == trimmed_path(path),
        trimmed_path(trimmed_path(path)) == trimmed_path(path),
        path.len() > 0 ==> trimmed_path(path).len() > 0,
    decreases path.len(),
{
    let n = path.len();
    if n > 1 && (path.last() == SLASH || (path.last() == 46u8 && path[n - 2] == SLASH)) {
        let less = path.drop_last();
        trimming_keeps_components(less);
        if path.last() == SLASH {
            ending_adds_nothing(less);
            assert(less.push(SLASH) =~= path);
        } else {
            let base = less.drop_last();
            assert(base.push(SLASH) =~= less);
            assert(base.push(SLASH).push(46) =~= path);
            if base.len() == 0 {
                assert(path =~= seq![SLASH, 46u8]);
                assert(less =~= root_path());
                root_components();
            } else {
                ending_adds_nothing(base);
            }
        }
        let t = trimmed_path(path);
        assert(path.take(t.len() as int) =~= less.take(t.len() as int));
    } else {
        assert(path.take(n as int) =~= path);
    }
}

proof fn last_slash_separates(s: Seq<u8>)
    ensures
        !s.skip(last_slash(s) + 1).contains(SLASH),
        last_slash(s) >= 0 ==> s == s.take(last_slash(s)).push(SLASH) + s.skip(last_slash(s) + 1),
    decreases s.len(),
{
    last_slash_bounds(s);
    last_slash_holds(s);
    let at = last_slash(s);
    if s.len() > 0 && s.last() != SLASH {
        last_slash_separates(s.drop_last());
        let rest = s.drop_last().skip(at + 1);
        let whole = s.skip(at + 1);
        assert forall|i: int| 0 <= i < whole.len() implies whole[i] != SLASH by {
            if i < rest.len() {
                assert(whole[i] == rest[i]);
                assert(rest.contains(rest[i]));
            } else {
                assert(whole[i] == s.last());
            }
        }
    }
    if at >= 0 {
        assert(s =~= s.take(at).push(SLASH) + s.skip(at + 1));
    }
}

/// The components of a trimmed text are those of its front and its last name.
proof fn last_part(text: Seq<u8>)
    requires
        text == trimmed_path(text),
        text != root_path(),
        text.len() > 0,
    ensures
        components(text) == components(text.take(last_slash(text) + 1)).push(
            text.skip(last_slash(text) + 1),
        ),
        -1 <= last_slash(text) < text.len(),
        text.skip(last_slash(text) + 1).len() > 0,
{
    reveal(components);
    last_slash_bounds(text);
    last_slash_separates(text);
    last_slash_holds(text);
    let at = last_slash(text);
    let name = text.skip(at + 1);
    let front = text.take(at + 1);
    trimming_keeps_components(text.drop_last());
    names_of_one(name);
    root_components();
    if at < 0 {
        assert(name =~= text);
        assert(front =~= seq![]);
        assert(components(text) =~= components(front).push(name));
    } else {
        let base = text.take(at);
        let none = Seq::<u8>::empty();
        assert(front =~= base.push(SLASH));
        assert(text == front + name);
        names_join(base, name);
        names_join(base, none);
        names_of_one(none);
        assert(front + none =~= front);
        if name.len() == 0 {
            assert(text.last() == SLASH);
            if text.len() == 1 {
                assert(text =~= root_path());
            }
            assert(false);
        }
        if name == dot() {
            assert(text.last() == 46u8 && text[text.len() - 2] == SLASH);
            assert(false);
        }
        assert(names(base) + names(none) =~= names(base));
        assert(text[0] == front[0]);
        components_told(front, text, seq![name]);
        assert(components(front) + seq![name] =~= components(front).push(name));
    }
}

/// The folder that holds a path has its components but the last, and its text is
/// the beginning of the path's, up to a separator.
pub proof fn parent_parts(path: Seq<u8>)
    ensures
        parent_of(path) matches Some(above) ==> {
            &&& components(path).len() == components(above).len() + 1
            &&& components(path).drop_last() == components(above)
            &&& above.len() < path.len()
            &&& path.take(above.len() as int) == above
            &&& above.len() > 0 && above != root_path() ==> path[above.len() as int] == SLASH
            &&& above == trimmed_path(above)
            &&& rooted(path) ==> rooted(above)
        },
        parent_of(path) is None ==> components(path).len() <= 1 && (rooted(path) || path.len()
            == 0),
{
    let text = trimmed_path(path);
    trimming_keeps_components(path);
    if path.len() > 0 {
        assert(text[0] == path.take(text.len() as int)[0]);
    }
    if text == root_path() || text.len() == 0 {
        root_components();
        assert(text.len() == 0 ==> text =~= Seq::<u8>::empty());
    } else {
        last_part(text);
        let at = last_slash(text);
        let front = text.take(at + 1);
        let above = trimmed_path(front);
        trimming_keeps_components(front);
        assert(components(text).drop_last() =~= components(front));
        assert(path.take(above.len() as int) =~= above) by {
            assert forall|i: int| 0 <= i < above.len() implies path[i] == above[i] by {
                assert(front.take(above.len() as int)[i] == above[i]);
                assert(path.take(text.len() as int)[i] == text[i]);
            }
        }
        if rooted(path) {
            last_slash_at_least(text, 0);
            assert(front[0] == SLASH);
            assert(above[0] == front.take(above.len() as int)[0]);
        }
        if above.len() > 0 && above != root_path() {
            last_slash_holds(text);
            trimmed_ends_at_separator(front);
            assert(front[above.len() as int] == SLASH);
            assert(path.take(text.len() as int)[above.len() as int] == text[above.len() as int]);
        }
    }
}

proof fn last_slash_at_least(s: Seq<u8>, i: int)
    requires
        0 <= i < s.len(),
        s[i] == SLASH,
    ensures
        last_slash(s) >= i,
    decreases s.len(),
{
    if s.last() != SLASH {
        last_slash_at_least(s.drop_last(), i);
    } else {
        last_slash_bounds(s);
    }
}

/// What was trimmed of a text that ends with a separator begins with one.
proof fn trimmed_ends_at_separator(front: Seq<u8>)
    requires
        front.len() > 0,
        front.last() == SLASH,
    ensures
        trimmed_path(front) == root_path() || (trimmed_path(front).len() < front.len()
            && front[trimmed_path(front).len() as int] == SLASH),
    decreases front.len(),
{
    if front.len() == 1 {
        assert(front =~= root_path());
    } else {
        let less = front.drop_last();
        let n = less.len();
        if n > 1 && less.last() == SLASH {
            trimmed_ends_at_separator(less);
            trimming_keeps_components(less);
            if trimmed_path(less) != root_path() {
                assert(front[trimmed_path(less).len() as int] == less[trimmed_path(less).len() as int]);
            }
        } else if n > 1 && less.last() == 46u8 && less[n - 2] == SLASH {
            let lesser = less.drop_last();
            trimmed_ends_at_separator(lesser);
            trimming_keeps_components(lesser);
            assert(trimmed_path(less) == trimmed_path(lesser));
            if trimmed_path(lesser) != root_path() {
                assert(front[trimmed_path(lesser).len() as int] == lesser[trimmed_path(
                    lesser,
                ).len() as int]);
            }
        } else {
            assert(trimmed_path(less) == less);
            if less.len() == 1 && less[0] == SLASH {
                assert(less =~= root_path());
            }
        }
    }
}

/// A path lies under the folder that holds it, and is longer.
pub proof fn parent_holds(path: Seq<u8>)
    ensures
        parent_of(path) matches Some(above) ==> strictly_under(path, above) && above.len()
            < path.len(),
{
    parent_parts(path);
    if let Some(above) = parent_of(path) {
        assert(components(path).take(components(above).len() as int) =~= components(
            path,
        ).drop_last());
    }
}

/// An entry of a directory lies strictly under it.
pub proof fn child_under(base: Seq<u8>, name: Seq<u8>)
    requires
        base.len() > 0,
    ensures
        components(child(base, name)) == components(base) + names(name),
        under(child(base, name), base),
{
    reveal(components);
    let path = child(base, name);
    if base.last() == SLASH {
        let less = base.drop_last();
        assert(less.push(SLASH) =~= base);
        names_join(less, name);
        names_join(less, seq![]);
        names_of_one(seq![]);
        assert(less.push(SLASH) + Seq::<u8>::empty() =~= base);
        assert(names(less) + Seq::<Seq<u8>>::empty() =~= names(less));
    } else {
        names_join(base, name);
    }
    assert(path[0] == base[0]);
    assert(components(path) =~= components(base) + names(name));
    assert(components(path).take(components(base).len() as int) =~= components(base));
}

/// A path and the folders above it, by their texts, the closest first.
pub open spec fn ancestors(path: Seq<u8>) -> Seq<Seq<u8>>
    decreases path.len(),
{
    match parent_of(path) {
        Some(above) if above.len() < path.len() => seq![path] + ancestors(above),
        _ => seq![path],
    }
}

/// Whether a text is that of a path or of a folder above it.
pub open spec fn above(text: Seq<u8>, path: Seq<u8>) -> bool {
    ancestors(path).contains(text)
}

/// A path is among its own ancestors, and else the text is above its parent.
pub proof fn above_step(text: Seq<u8>, path: Seq<u8>)
    ensures
        above(text, path) == (text == path || (parent_of(path) matches Some(next) && above(
            text,
            next,
        ))),
{
    parent_parts(path);
    match parent_of(path) {
        Some(next) => {
            let rest = ancestors(next);
            let all = ancestors(path);
            assert(all[0] == path);
            if rest.contains(text) {
                let i = choose|i: int| 0 <= i < rest.len() && rest[i] == text;
                assert(all[i + 1] == text);
            }
            if all.contains(text) && text != path {
                let i = choose|i: int| 0 <= i < all.len() && all[i] == text;
                assert(rest[i - 1] == text);
            }
        },
        None => {
            assert(ancestors(path)[0] == path);
        },
    }
}

/// A text above a path is no longer than it, and the path lies under it.
pub proof fn above_holds(text: Seq<u8>, path: Seq<u8>)
    requires
        above(text, path),
    ensures
        under(path, text),
        text.len() <= path.len(),
        text != path ==> text.len() < path.len() && strictly_under(path, text),
        rooted(path) ==> rooted(text),
        rooted(path) && text != path ==> begins(path, below(text)),
    decreases path.len(),
{
    above_step(text, path);
    parent_parts(path);
    parent_holds(path);
    if text == path {
        under_itself(path, path);
    } else {
        let next = parent_of(path)->Some_0;
        above_holds(text, next);
        under_transitive(path, next, text);
        if same_place(path, text) {
            under_antisymmetric(next, text);
        }
        assert(components(text).len() <= components(next).len());
        if rooted(path) {
            if text == next {
                if text == root_path() {
                    assert(path.take(1) =~= below(text));
                } else {
                    assert(path.take(text.len() as int + 1) =~= below(text));
                }
            } else {
                let low = below(text);
                assert(path.take(low.len() as int) =~= next.take(low.len() as int)) by {
                    assert forall|i: int| 0 <= i < low.len() implies path[i] == next[i] by {
                        assert(path.take(next.len() as int)[i] == next[i]);
                    }
                }
            }
        }
    }
}

/// What is above something above is above.
pub proof fn above_transitive(a: Seq<u8>, b: Seq<u8>, c: Seq<u8>)
    requires
        above(a, b),
        above(b, c),
    ensures
        above(a, c),
    decreases c.len(),
{
    above_step(b, c);
    above_step(a, c);
    parent_parts(c);
    if b != c {
        above_transitive(a, b, parent_of(c)->Some_0);
    }
}

/// Of two texts above the same path one is above the other.
pub proof fn above_chain(path: Seq<u8>, a: Seq<u8>, b: Seq<u8>)
    requires
        above(a, path),
        above(b, path),
        a.len() <= b.len(),
    ensures
        above(a, b),
    decreases path.len(),
{
    above_step(a, path);
    above_step(b, path);
    parent_parts(path);
    if b != path {
        if a == path {
            above_holds(b, path);
        } else {
            above_chain(parent_of(path)->Some_0, a, b);
        }
    }
}

/// Whether a text is that of a path or of a folder above it.
pub fn is_above(text: &[u8], path: &[u8]) -> (r: bool)
    ensures
        r == above(text@, path@),
{
    let mut end: usize = path.len();
    assert(path@.take(end as int) =~= path@);
    loop
        invariant
            end <= path@.len(),
            above(text@, path@) == above(text@, path@.take(end as int)),
        decreases end,
    {
        let here: &[u8] = slice_subrange(path, 0, end);
        proof {
            assert(here@ =~= path@.take(end as int));
            above_step(text@, here@);
            parent_parts(here@);
        }
        if same_bytes(here, text) {
            return true;
        }
        match parent(here) {
            None => {
                return false;
            },
            Some(next) => {
                let n: usize = next.len();
                assert(path@.take(n as int) =~= next@) by {
                    assert(here@.take(n as int) =~= path@.take(n as int));
                }
                end = n;
            },
        }
    }
}

/// Whether names are ones that a path is spelled with plainly.
pub open spec fn proper_names(parts: Seq<Seq<u8>>) -> bool {
    plain_names(parts) && forall|i: int| 0 <= i < parts.len() ==> #[trigger] parts[i] != dot()
}

/// Whether a path is spelled plainly: from the root on, with one separator between
/// two names and nothing else.
pub open spec fn plainly_spelled(path: Seq<u8>) -> bool {
    exists|parts: Seq<Seq<u8>>| proper_names(parts) && path == #[trigger] path_of(parts)
}

proof fn pieces_are_plain(s: Seq<u8>)
    ensures
        forall|i: int|
            0 <= i < pieces(s, SLASH).len() ==> !(#[trigger] pieces(s, SLASH)[i]).contains(SLASH),
    decreases s.len(),
{
    index_of_facts(s, SLASH);
    let at = index_of(s, SLASH);
    let all = pieces(s, SLASH);
    if at < s.len() {
        let rest = pieces(s.skip(at + 1), SLASH);
        pieces_are_plain(s.skip(at + 1));
        assert forall|i: int| 0 <= i < all.len() implies !(#[trigger] all[i]).contains(SLASH) by {
            if i > 0 {
                assert(all[i] == rest[i - 1]);
            }
        }
    } else {
        assert(all =~= seq![s]);
    }
}

/// The names of a path are proper ones.
pub proof fn names_are_proper(path: Seq<u8>)
    ensures
        proper_names(names(path)),
{
    let keep = |part: Seq<u8>| part.len() > 0 && part != dot();
    let all = pieces(path, SLASH);
    pieces_are_plain(path);
    crate::tables::filter_rows(all, keep);
    let kept = all.filter(keep);
    assert forall|i: int| 0 <= i < kept.len() implies (#[trigger] kept[i]).len() > 0
        && !kept[i].contains(SLASH) && kept[i] != dot() by {
        assert(keep(kept[i]));
        let w = choose|w: int| 0 <= w < all.len() && all[w] == kept[i];
        assert(!all[w].contains(SLASH));
    }
}

/// A scope is spelled plainly.
pub proof fn scopes_are_plain(path: Seq<u8>)
    requires
        scope_outcome(path) is Ok,
    ensures
        plainly_spelled(scope_outcome(path)->Ok_0),
        rooted(scope_outcome(path)->Ok_0),
{
    names_are_proper(path);
    path_of_is_rooted(names(path));
}

proof fn path_of_is_rooted(parts: Seq<Seq<u8>>)
    ensures
        rooted(path_of(parts)),
    decreases parts.len(),
{
    if parts.len() > 0 {
        path_of_is_rooted(parts.drop_last());
    }
}

/// A plainly spelled path starts at the root.
pub proof fn plain_is_rooted(path: Seq<u8>)
    requires
        plainly_spelled(path),
    ensures
        rooted(path),
{
    let parts = choose|parts: Seq<Seq<u8>>| proper_names(parts) && path == #[trigger] path_of(parts);
    path_of_is_rooted(parts);
}

/// The folder above a plainly spelled path is spelled with its names but the last.
proof fn plain_parent(parts: Seq<Seq<u8>>)
    requires
        proper_names(parts),
    ensures
        trimmed_path(path_of(parts)) == path_of(parts),
        parent_of(path_of(parts)) == if parts.len() == 0 {
            None
        } else {
            Some(path_of(parts.drop_last()))
        },
    decreases parts.len(),
{
    let path = path_of(parts);
    if parts.len() > 0 {
        let front = parts.drop_last();
        let name = parts.last();
        assert(name == parts[parts.len() - 1]);
        assert(proper_names(front)) by {
            assert forall|i: int| 0 <= i < front.len() implies (#[trigger] front[i]).len() > 0
                && !front[i].contains(SLASH) && front[i] != dot() by {
                assert(front[i] == parts[i]);
            }
        }
        plain_parent(front);
        path_of_is_rooted(front);
        let base = path_of(front);
        let low = below(base);
        assert(low.len() > 0 && low.last() == SLASH);
        assert(path == low + name);
        assert(path.last() == name.last());
        assert(name.contains(name.last()));
        assert(path.last() != SLASH);
        if path.last() == 46u8 && path[path.len() - 2] == SLASH {
            if name.len() == 1 {
                assert(name =~= dot());
            } else {
                assert(path[path.len() - 2] == name[name.len() - 2]);
                assert(name.contains(name[name.len() - 2]));
            }
            assert(false);
        }
        assert(trimmed_path(path) == path);
        assert(path.len() > 1);
        last_slash_at(path, low.len() - 1);
        assert(path.take(low.len() as int) =~= low);
        assert(trimmed_path(low) == base) by {
            if base != root_path() {
                assert(low.drop_last() =~= base);
            }
        }
    }
}

proof fn last_slash_at(s: Seq<u8>, at: int)
    requires
        0 <= at < s.len(),
        s[at] == SLASH,
        forall|i: int| at < i < s.len() ==> s[i] != SLASH,
    ensures
        last_slash(s) == at,
    decreases s.len(),
{
    if at < s.len() - 1 {
        last_slash_at(s.drop_last(), at);
    }
}

/// What is above a plainly spelled path is spelled plainly too.
pub proof fn above_plain(text: Seq<u8>, path: Seq<u8>)
    requires
        plainly_spelled(path),
        above(text, path),
    ensures
        plainly_spelled(text),
    decreases path.len(),
{
    let parts = choose|parts: Seq<Seq<u8>>| proper_names(parts) && path == #[trigger] path_of(parts);
    above_step(text, path);
    plain_parent(parts);
    parent_parts(path);
    if text != path {
        let front = parts.drop_last();
        assert(proper_names(front)) by {
            assert forall|i: int| 0 <= i < front.len() implies (#[trigger] front[i]).len() > 0
                && !front[i].contains(SLASH) && front[i] != dot() by {
                assert(front[i] == parts[i]);
            }
        }
        assert(plainly_spelled(path_of(front)));
        above_plain(text, path_of(front));
    }
}

proof fn prefixes_are_above(parts: Seq<Seq<u8>>, n: int)
    requires
        proper_names(parts),
        0 <= n <= parts.len(),
    ensures
        above(path_of(parts.take(n)), path_of(parts)),
    decreases parts.len(),
{
    plain_parent(parts);
    above_step(path_of(parts.take(n)), path_of(parts));
    if n == parts.len() {
        assert(parts.take(n) =~= parts);
    } else {
        let front = parts.drop_last();
        assert(proper_names(front)) by {
            assert forall|i: int| 0 <= i < front.len() implies (#[trigger] front[i]).len() > 0
                && !front[i].contains(SLASH) && front[i] != dot() by {
                assert(front[i] == parts[i]);
            }
        }
        prefixes_are_above(front, n);
        assert(front.take(n) =~= parts.take(n));
    }
}

/// Between plainly spelled paths, standing in the range below one is lying below it.
pub proof fn plain_ranges(path: Seq<u8>, base: Seq<u8>)
    requires
        plainly_spelled(path),
        plainly_spelled(base),
        begins(path, below(base)),
    ensures
        above(base, path),
{
    let a = choose|parts: Seq<Seq<u8>>| proper_names(parts) && path == #[trigger] path_of(parts);
    let b = choose|parts: Seq<Seq<u8>>| proper_names(parts) && base == #[trigger] path_of(parts);
    spelled_is_name_prefix(a, b);
    prefixes_are_above(a, b.len() as int);
}

/// A plainly spelled path has the root and its names as components.
proof fn plain_components(parts: Seq<Seq<u8>>)
    requires
        proper_names(parts),
    ensures
        components(path_of(parts)) == seq![root_path()] + parts,
    decreases parts.len(),
{
    if parts.len() == 0 {
        root_components();
        assert(components(path_of(parts)) =~= seq![root_path()] + parts);
    } else {
        let front = parts.drop_last();
        let name = parts.last();
        assert(name == parts[parts.len() - 1]);
        assert(proper_names(front)) by {
            assert forall|i: int| 0 <= i < front.len() implies (#[trigger] front[i]).len() > 0
                && !front[i].contains(SLASH) && front[i] != dot() by {
                assert(front[i] == parts[i]);
            }
        }
        plain_components(front);
        plain_parent(front);
        path_of_is_rooted(front);
        let base = path_of(front);
        if base.len() > 1 && base.last() == SLASH {
            assert(trimmed_path(base).len() < base.len()) by {
                trimming_keeps_components(base.drop_last());
            }
        }
        if base.len() == 1 {
            assert(base =~= root_path());
        }
        assert(child(base, name) =~= below(base) + name);
        child_under(base, name);
        names_of_one(name);
        assert(components(path_of(parts)) =~= seq![root_path()] + parts);
    }
}

/// Bringing an absolute path into its plain spelling keeps its components.
pub proof fn plain_spelling_keeps_components(path: Seq<u8>)
    requires
        rooted(path),
    ensures
        components(path_of(names(path))) == components(path),
{
    reveal(components);
    names_are_proper(path);
    plain_components(names(path));
}

/// Between plainly spelled paths, lying under one is having its text above.
pub proof fn plain_under(path: Seq<u8>, base: Seq<u8>)
    requires
        plainly_spelled(path),
        plainly_spelled(base),
    ensures
        under(path, base) == above(base, path),
        same_place(path, base) == (path == base),
{
    let a = choose|parts: Seq<Seq<u8>>| proper_names(parts) && path == #[trigger] path_of(parts);
    let b = choose|parts: Seq<Seq<u8>>| proper_names(parts) && base == #[trigger] path_of(parts);
    plain_components(a);
    plain_components(b);
    let top = seq![root_path()];
    if same_place(path, base) {
        assert((top + a).skip(1) =~= a);
        assert((top + b).skip(1) =~= b);
    }
    if under(path, base) {
        let n = b.len() as int;
        assert(a.take(n) =~= b) by {
            assert forall|i: int| 0 <= i < n implies a[i] == b[i] by {
                assert((top + a).take((top + b).len() as int)[i + 1] == (top + b)[i + 1]);
            }
        }
        prefixes_are_above(a, n);
    }
    if above(base, path) {
        above_holds(base, path);
    }
}

proof fn unprefixed_names(s: Seq<u8>)
    ensures
        names(unprefixed(s)) == names(s),
        unprefixed(s).len() > 0 ==> {
            let r = unprefixed(s);
            r[0] != SLASH && !(r[0] == 46u8 && (r.len() == 1 || r[1] == SLASH))
        },
        unprefixed(unprefixed(s)) == unprefixed(s),
    decreases s.len(),
{
    let none = Seq::<u8>::empty();
    no_components();
    if s.len() > 0 && s[0] == SLASH {
        unprefixed_names(s.skip(1));
        names_join(none, s.skip(1));
        assert(none.push(SLASH) + s.skip(1) =~= s);
        assert(names(none) + names(s.skip(1)) =~= names(s.skip(1)));
    } else if s.len() > 0 && s[0] == 46u8 && (s.len() == 1 || s[1] == SLASH) {
        unprefixed_names(s.skip(1));
        dot_is_plain();
        names_of_one(dot());
        if s.len() == 1 {
            assert(s =~= dot());
            assert(s.skip(1) =~= none);
        } else {
            names_join(dot(), s.skip(2));
            assert(dot().push(SLASH) + s.skip(2) =~= s);
            names_join(none, s.skip(2));
            assert(none.push(SLASH) + s.skip(2) =~= s.skip(1));
            assert(names(none) + names(s.skip(2)) =~= names(dot()) + names(s.skip(2)));
        }
    }
}

proof fn first_name(s: Seq<u8>)
    ensures
        ({
            let r = unprefixed(s);
            &&& r.len() == 0 ==> names(s).len() == 0
            &&& r.len() > 0 ==> names(s) == seq![r.take(index_of(r, SLASH))] + names(
                r.skip(index_of(r, SLASH)),
            )
        }),
{
    let r = unprefixed(s);
    let none = Seq::<u8>::empty();
    unprefixed_names(s);
    no_components();
    if r.len() == 0 {
        assert(r =~= none);
    } else {
        index_of_facts(r, SLASH);
        let at = index_of(r, SLASH);
        let name = r.take(at);
        assert(!name.contains(SLASH)) by {
            assert forall|i: int| 0 <= i < name.len() implies name[i] != SLASH by {
                assert(name[i] == r[i]);
            }
        }
        assert(at > 0);
        if name == dot() {
            assert(name.len() == 1 && name[0] == 46u8);
            assert(at == 1 && r[0] == 46u8);
            assert(false);
        }
        names_of_one(name);
        if at < r.len() {
            let rest = r.skip(at + 1);
            names_join(name, rest);
            assert(name.push(SLASH) + rest =~= r);
            names_join(none, rest);
            assert(none.push(SLASH) + rest =~= r.skip(at));
            assert(names(none) + names(rest) =~= names(rest));
        } else {
            assert(name =~= r);
            assert(r.skip(at) =~= none);
            assert(seq![name] + names(none) =~= seq![name]);
        }
    }
}

proof fn names_after(s: Seq<u8>, n: int)
    requires
        0 <= n <= names(s).len(),
    ensures
        names(after_names(s, n)) == names(s).skip(n),
        unprefixed(after_names(s, n)) == after_names(s, n),
    decreases n,
{
    unprefixed_names(s);
    if n > 0 {
        first_name(s);
        let rest = unprefixed(s);
        let more = rest.skip(index_of(rest, SLASH));
        let head = seq![rest.take(index_of(rest, SLASH))];
        assert(names(s).len() == 1 + names(more).len());
        names_after(more, n - 1);
        assert((head + names(more)).skip(n) =~= names(more).skip(n - 1));
    } else {
        assert(names(s).skip(0) =~= names(s));
    }
}

/// What a path is called below a base has exactly the components that the path has
/// beyond those of the base: nothing is lost and nothing added, and of a path below
/// itself nothing is left.
pub proof fn what_is_left_of_a_path(path: Seq<u8>, base: Seq<u8>)
    requires
        under(path, base),
        components(base).len() > 0,
    ensures
        names(relative_to(path, base)) == components(path).skip(components(base).len() as int),
        !rooted(relative_to(path, base)),
        same_place(path, base) ==> relative_to(path, base).len() == 0,
{
    let n = components(base).len() as int;
    let c = components(path);
    assert(n <= c.len());
    let led = rooted(path) || pieces(path, SLASH)[0] == dot();
    let s = if led {
        path.skip(1)
    } else {
        path
    };
    let k = if led {
        n - 1
    } else {
        n
    };
    reveal(components);
    let none = Seq::<u8>::empty();
    if rooted(path) {
        no_components();
        names_join(none, s);
        assert(none.push(SLASH) + s =~= path);
        assert(names(none) + names(s) =~= names(s));
        assert(c =~= seq![root_path()] + names(s));
        assert(c.skip(n) =~= names(s).skip(k));
    } else if led {
        index_of_facts(path, SLASH);
        let at = index_of(path, SLASH);
        assert(pieces(path, SLASH)[0] == if at < path.len() {
            path.take(at)
        } else {
            path
        });
        assert(at == 1);
        assert(path[0] == 46u8) by {
            assert(dot()[0] == 46u8);
            if at < path.len() {
                assert(path.take(at)[0] == path[0]);
            }
        }
        unprefixed_names(path);
        unprefixed_names(s);
        assert(unprefixed(path) == unprefixed(s));
        assert(c =~= seq![dot()] + names(s));
        assert(c.skip(n) =~= names(s).skip(k));
    }
    names_after(s, k);
    let x = after_names(s, k);
    let t = trimmed_path(x);
    unprefixed_names(x);
    first_name(x);
    trimming_keeps_components(x);
    names_are_proper(x);
    if x.len() > 0 {
        index_of_facts(x, SLASH);
        assert(pieces(x, SLASH)[0] == x.take(index_of(x, SLASH)) || pieces(x, SLASH)[0] == x);
        assert(components(x) == names(x)) by {
            if pieces(x, SLASH)[0] == dot() {
                assert(names(x)[0] == dot()) by {
                    if index_of(x, SLASH) >= x.len() {
                        assert(x.take(index_of(x, SLASH)) =~= x);
                    }
                }
                assert(names(x)[0] != dot());
            }
        }
        assert(t.len() > 0 && t[0] == x.take(t.len() as int)[0]);
        assert(components(t) == names(t)) by {
            if pieces(t, SLASH)[0] == dot() && !rooted(t) {
                assert(components(t)[0] == dot());
                assert(names(x)[0] != dot());
            }
        }
    } else {
        assert(x =~= none);
        no_components();
    }
    if same_place(path, base) {
        assert(c.skip(n).len() == 0);
        if x.len() > 0 {
            assert(names(x).len() > 0);
        }
    }
}

/// An entry of a folder has the name that it was given, and the folder for its parent,
/// however the folder is spelled.
pub proof fn an_entry_has_its_name_and_its_folder(base: Seq<u8>, name: Seq<u8>)
    requires
        base.len() > 0,
        name.len() > 0,
        forall|i: int| 0 <= i < name.len() ==> #[trigger] name[i] != 47u8,
        name != seq![46u8],
        name != seq![46u8, 46u8],
    ensures
        name_of(child(base, name)) == Some(name),
        parent_of(child(base, name)) matches Some(above) && components(above) == components(base),
        components(child(base, name)) == components(base).push(name),
{
    let whole = child(base, name);
    let at = whole.len() - name.len() - 1;
    assert(!name.contains(SLASH));
    names_of_one(name);
    child_under(base, name);
    assert(components(base) + seq![name] =~= components(base).push(name));
    assert(whole[at] == SLASH);
    assert forall|i: int| at < i < whole.len() implies whole[i] != SLASH by {
        assert(whole[i] == name[i - at - 1]);
    }
    last_slash_at(whole, at);
    assert(whole.last() == name.last());
    assert(trimmed_path(whole) == whole) by {
        if whole.last() == 46u8 && whole[whole.len() - 2] == SLASH {
            if name.len() == 1 {
                assert(name =~= seq![46u8]);
            } else {
                assert(whole[whole.len() - 2] == name[name.len() - 2]);
            }
        }
    }
    assert(whole.skip(at + 1) =~= name);
    assert(whole != root_path()) by {
        assert(whole.len() > 1);
    }
    parent_parts(whole);
    assert(components(base).push(name).drop_last() =~= components(base));
}

} // verus!
