//! Pointers from one piece of repository metadata to another.
use crate::model::Root;
use crate::paths::{
    fs_path, is_under, join, parent, parent_of, path_bytes, root_path, share, under, FsPath, SLASH,
};
use crate::text::{covers, fail, failed, has_byte, pieces, split_bytes, Span};
use vstd::prelude::*;
use vstd::slice::{slice_subrange, slice_to_vec};

verus! {

/// Bytes without one final mark.
pub open spec fn without_end(bytes: Seq<u8>, mark: u8) -> Seq<u8> {
    if bytes.len() > 0 && bytes.last() == mark {
        bytes.drop_last()
    } else {
        bytes
    }
}

/// The text of a pointer: without the line's end.
pub open spec fn pointer_text(bytes: Seq<u8>) -> Seq<u8> {
    without_end(without_end(bytes, 10), 13)
}

/// Whether a text can be a pointer: one line that says something.
pub open spec fn one_line(text: Seq<u8>) -> bool {
    text.len() > 0 && !text.contains(0) && !text.contains(10) && !text.contains(13)
}

/// Where the components of a pointer lead from a path, given whether one of them
/// was a name already. Leading parent components go up from a validated physical
/// base. Going up from a name could conceal a symbolic link.
pub open spec fn followed(base: Seq<u8>, named: bool, parts: Seq<Seq<u8>>) -> Result<
    Seq<u8>,
    Seq<char>,
>
    decreases parts.len(),
{
    if parts.len() == 0 {
        Ok(base)
    } else if parts[0].len() == 0 || parts[0] == seq![46u8] {
        followed(base, named, parts.skip(1))
    } else if parts[0] == seq![46u8, 46u8] {
        if named {
            Err("Git metadata contains an ambiguous parent path"@)
        } else {
            match parent_of(base) {
                None => Err("Git metadata contains an invalid parent path"@),
                Some(above) => followed(above, named, parts.skip(1)),
            }
        }
    } else {
        followed(crate::paths::child(base, parts[0]), true, parts.skip(1))
    }
}

/// Where a pointer leads: the path, or why it cannot be followed.
pub open spec fn pointer_outcome(root: Seq<u8>, base: Seq<u8>, bytes: Seq<u8>) -> Result<
    Seq<u8>,
    Seq<char>,
> {
    let text = pointer_text(bytes);
    if !one_line(text) {
        Err("Git metadata contains an invalid path pointer"@)
    } else {
        let start = if text[0] == SLASH {
            root_path()
        } else {
            base
        };
        match followed(start, false, pieces(text, SLASH)) {
            Err(reason) => Err(reason),
            Ok(path) => if under(path, root) {
                Ok(path)
            } else {
                Err("Git metadata is outside this folder's authorization"@)
            },
        }
    }
}

/// Bytes without one final mark.
fn strip_end(bytes: &[u8], mark: u8) -> (r: &[u8])
    ensures
        r@ == without_end(bytes@, mark),
{
    let n: usize = bytes.len();
    if n > 0 && bytes[n - 1] == mark {
        assert(bytes@.subrange(0, n - 1) =~= bytes@.drop_last());
        return slice_subrange(bytes, 0, n - 1);
    }
    bytes
}

/// Follows a pointer inside an authorized location.
pub fn git_pointer_path(root: &Root, base: &FsPath, bytes: &[u8]) -> (r: Result<FsPath, String>)
    ensures
        match pointer_outcome(root.path@, base@, bytes@) {
            Ok(path) => r matches Ok(found) && found@ == path,
            Err(reason) => failed(r, reason),
        },
{
    let text: &[u8] = strip_end(strip_end(bytes, 10), 13);
    if text.len() == 0 || has_byte(text, 0) || has_byte(text, 10) || has_byte(text, 13) {
        return fail("Git metadata contains an invalid path pointer");
    }
    let mut at: FsPath = if text[0] == SLASH {
        fs_path(vec![SLASH])
    } else {
        share(base)
    };
    let ghost start = if text@[0] == SLASH {
        root_path()
    } else {
        base@
    };
    assert(at@ =~= start);
    let parts: Vec<Span> = split_bytes(text, SLASH);
    let ghost all = pieces(text@, SLASH);
    let mut named: bool = false;
    let mut i: usize = 0;
    assert(all.skip(0) =~= all);
    while i < parts.len()
        invariant
            i <= parts.len(),
            covers(parts@, text@, all),
            pointer_outcome(root.path@, base@, bytes@) == match followed(start, false, all) {
                Err(reason) => Err(reason),
                Ok(path) => if under(path, root.path@) {
                    Ok(path)
                } else {
                    Err("Git metadata is outside this folder's authorization"@)
                },
            },
            followed(start, false, all) == followed(at@, named, all.skip(i as int)),
        decreases parts.len() - i,
    {
        let part: &[u8] = slice_subrange(text, parts[i].start, parts[i].end);
        let n: usize = part.len();
        let ghost rest = all.skip(i as int);
        proof {
            assert(rest[0] == part@);
            assert(rest.skip(1) =~= all.skip(i + 1));
            assert(part@ == seq![46u8] ==> part@.len() == 1 && part@[0] == 46);
            assert(part@.len() == 1 && part@[0] == 46 ==> part@ =~= seq![46u8]);
            assert(part@ == seq![46u8, 46u8] ==> part@.len() == 2 && part@[0] == 46 && part@[1]
                == 46);
            assert(part@.len() == 2 && part@[0] == 46 && part@[1] == 46 ==> part@ =~= seq![
                46u8,
                46u8,
            ]);
        }
        i = i + 1;
        if n == 0 || (n == 1 && part[0] == 46) {
            continue;
        }
        if n == 2 && part[0] == 46 && part[1] == 46 {
            if named {
                return fail("Git metadata contains an ambiguous parent path");
            }
            let above: FsPath = match parent(path_bytes(&at)) {
                Some(above) => fs_path(slice_to_vec(above)),
                None => {
                    return fail("Git metadata contains an invalid parent path");
                },
            };
            at = above;
        } else {
            named = true;
            at = join(path_bytes(&at), part);
        }
    }
    assert(all.skip(i as int) =~= seq![]);
    if !is_under(path_bytes(&at), path_bytes(&root.path)) {
        return fail("Git metadata is outside this folder's authorization");
    }
    Ok(at)
}

/// A pointer that can be followed never leaves the authorized location.
pub proof fn pointers_stay_inside(root: Seq<u8>, base: Seq<u8>, bytes: Seq<u8>)
    requires
        pointer_outcome(root, base, bytes) is Ok,
    ensures
        under(pointer_outcome(root, base, bytes)->Ok_0, root),
{
}

} // verus!
