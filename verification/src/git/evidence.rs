//! What a repository's metadata must look like before its index is believed.
use crate::digest::{blake3_digest, digest_of, same_digest, Digest};
use crate::git::config::{config_outcome, validate_git_config};
use crate::git::index::{index_outcome, validate_git_index, MAX_GIT_INDEX_BYTES};
use crate::git::pointer::{git_pointer_path, pointer_outcome};
use crate::model::{EntryMeta, Identity, Root};
use crate::paths::{
    components, file_name, fs_path, is_same_place, is_under, join_text, name_of, named, parent,
    parent_holds, parent_of, parts_below, path_bytes, same_place, share, under, FsPath, SLASH,
};
use crate::probe::{step_is, Ask, Got, Step};
use crate::text::{begins, bytes_begin, fail, failed, same_bytes};
use vstd::prelude::*;
use vstd::slice::{slice_subrange, slice_to_vec};
use vstd::utf8::encode_utf8;

verus! {

pub const MAX_GIT_POINTER_BYTES: u64 = 4096;

/// What reading a file gave: its bytes, the identity it had while it was read,
/// and the metadata of its path afterwards.
pub struct Captured {
    pub bytes: Vec<u8>,
    pub identity: Identity,
    pub after: Result<EntryMeta, String>,
}

/// A name on the way to a path, and whether that name is protected or managed
/// elsewhere.
pub struct NameFact {
    pub name: Vec<u8>,
    pub excluded: bool,
}

/// What was observed of a folder on the way to a path.
pub struct FolderFact {
    pub path: FsPath,
    pub meta: Result<EntryMeta, String>,
}

/// What was observed of one path.
pub struct PathFacts {
    pub path: FsPath,
    /// The names below the root, the outermost first.
    pub names: Vec<NameFact>,
    /// The folders from the parent up to the root, the closest first.
    pub ancestors: Vec<FolderFact>,
    /// The entry itself, without following a link; nothing, if it is missing.
    pub entry: Result<Option<EntryMeta>, String>,
    /// The content, once it was asked for.
    pub content: Option<Result<Captured, String>>,
}

/// Everything that was observed, for a user.
pub struct Observed {
    pub facts: Vec<PathFacts>,
    pub user: u32,
}

impl Observed {
    /// Whether the facts at `i` are the first ones of a path.
    pub open spec fn facts_at(self, path: Seq<u8>, i: int) -> bool {
        &&& 0 <= i < self.facts@.len()
        &&& self.facts@[i].path@ == path
        &&& forall|j: int| 0 <= j < i ==> (#[trigger] self.facts@[j]).path@ != path
    }

    /// Whether a path was observed.
    pub open spec fn knows(self, path: Seq<u8>) -> bool {
        exists|i: int| #[trigger] self.facts_at(path, i)
    }

    /// What was observed of a path.
    pub open spec fn of(self, path: Seq<u8>) -> PathFacts {
        self.facts@[choose|i: int| #[trigger] self.facts_at(path, i)]
    }

    pub fn find(&self, path: &[u8]) -> (r: Option<&PathFacts>)
        ensures
            match r {
                Some(facts) => self.knows(path@) && *facts == self.of(path@),
                None => !self.knows(path@),
            },
    {
        let mut i: usize = 0;
        while i < self.facts.len()
            invariant
                i <= self.facts.len(),
                forall|j: int| 0 <= j < i ==> (#[trigger] self.facts@[j]).path@ != path@,
            decreases self.facts.len() - i,
        {
            if same_bytes(path_bytes(&self.facts[i].path), path) {
                proof {
                    assert(self.facts_at(path@, i as int));
                    let c = choose|c: int| #[trigger] self.facts_at(path@, c);
                    if c < i {
                        assert(self.facts@[c].path@ != path@);
                    } else if i < c {
                        assert(self.facts@[i as int].path@ != path@);
                    }
                }
                return Some(&self.facts[i]);
            }
            i = i + 1;
        }
        None
    }
}

/// Whether a folder on the way to metadata is one that can be trusted.
pub open spec fn owned_folder(meta: EntryMeta, root: Root, user: u32) -> bool {
    meta.dir() && !meta.dataless() && meta.uid == user && meta.identity.device
        == root.identity.device
}

/// Whether an entry can be evidence: owned, on the authorized volume, and either
/// a physical folder or a file of its own.
pub open spec fn owned_entry(meta: EntryMeta, root: Root, user: u32) -> bool {
    &&& !meta.symlink()
    &&& !meta.dataless()
    &&& meta.uid == user
    &&& meta.identity.device == root.identity.device
    &&& meta.dir() || meta.file()
    &&& meta.file() ==> meta.links == 1
}

/// What the folders on the way say: the first reason against them.
pub open spec fn ancestors_failure(
    ancestors: Seq<FolderFact>,
    root: Root,
    user: u32,
) -> Option<Seq<char>>
    decreases ancestors.len(),
{
    if ancestors.len() == 0 {
        None
    } else {
        match ancestors_failure(ancestors.drop_last(), root, user) {
            Some(reason) => Some(reason),
            None => match ancestors.last().meta {
                Err(reason) => Some(reason@),
                Ok(meta) => if owned_folder(meta, root, user) {
                    None
                } else {
                    Some("Git metadata requires owned physical folders on the authorized volume"@)
                },
            },
        }
    }
}

/// The names between a root and a path, the outermost first.
pub open spec fn names_below(path: Seq<u8>, root: Seq<u8>) -> Seq<Seq<u8>> {
    components(path).skip(components(root).len() as int)
}

/// The folders from a path's parent up to the root, the closest first.
pub open spec fn folders_above(path: Seq<u8>, root: Seq<u8>) -> Seq<Seq<u8>>
    decreases path.len(),
{
    match parent_of(path) {
        Some(above) if above.len() < path.len() && under(above, root) => seq![above]
            + folders_above(above, root),
        _ => seq![],
    }
}

pub open spec fn name_views(names: Seq<NameFact>) -> Seq<Seq<u8>> {
    names.map_values(|fact: NameFact| fact.name@)
}

pub open spec fn folder_views(folders: Seq<FolderFact>) -> Seq<Seq<u8>> {
    folders.map_values(|fact: FolderFact| fact.path@)
}

impl PathFacts {
    /// Whether there is a fact for every name below the root and for every folder
    /// from the parent up to the root, and no other.
    pub open spec fn whole(self, root: Root) -> bool {
        &&& name_views(self.names@) == names_below(self.path@, root.path@)
        &&& folder_views(self.ancestors@) == folders_above(self.path@, root.path@)
    }

    /// Whether a name below the root is protected or managed elsewhere. A
    /// repository's own folder is no such place, whatever is said of its name.
    pub open spec fn protected(self) -> bool {
        exists|i: int|
            0 <= i < self.names@.len() && (#[trigger] self.names@[i]).excluded
                && self.names@[i].name@ != encode_utf8(".git"@)
    }
}

/// What is to be made of the observation of one path of a repository's metadata.
#[verifier::opaque]
pub open spec fn metadata_outcome(root: Root, facts: PathFacts, user: u32) -> Result<
    Option<EntryMeta>,
    Seq<char>,
> {
    if !under(facts.path@, root.path@) {
        Err("Git metadata is outside this folder's authorization"@)
    } else if !facts.whole(root) {
        Err("Git metadata could not be inspected"@)
    } else if facts.protected() {
        Err("Git metadata lies in a protected or cloud-managed location"@)
    } else if parent_of(facts.path@) is None {
        Err("Git metadata has no parent"@)
    } else {
        match ancestors_failure(facts.ancestors@, root, user) {
            Some(reason) => Err(reason),
            None => match facts.entry {
                Err(reason) => Err(reason@),
                Ok(None) => Ok(None),
                Ok(Some(meta)) => if owned_entry(meta, root, user) {
                    Ok(Some(meta))
                } else {
                    Err(
                        "Git metadata requires owned, independent local files and physical folders"@,
                    )
                },
            },
        }
    }
}

/// Whether the names of a path were observed one by one.
fn names_are(facts: &PathFacts, root: &Root) -> (r: bool)
    requires
        under(facts.path@, root.path@),
    ensures
        r == (name_views(facts.names@) == names_below(facts.path@, root.path@)),
{
    let ghost seen = name_views(facts.names@);
    let ghost due = names_below(facts.path@, root.path@);
    let parts: Vec<&[u8]> = parts_below(path_bytes(&facts.path), path_bytes(&root.path));
    if parts.len() != facts.names.len() {
        assert(seen.len() != due.len());
        return false;
    }
    let mut i: usize = 0;
    while i < parts.len()
        invariant
            i <= parts.len(),
            parts.len() == facts.names@.len(),
            parts@.len() == due.len(),
            seen == name_views(facts.names@),
            due == names_below(facts.path@, root.path@),
            forall|j: int| 0 <= j < parts@.len() ==> (#[trigger] parts@[j])@ == due[j],
            forall|j: int| 0 <= j < i ==> seen[j] == due[j],
        decreases parts.len() - i,
    {
        let name: &[u8] = parts[i];
        assert(seen[i as int] == facts.names@[i as int].name@);
        if !same_bytes(facts.names[i].name.as_slice(), name) {
            return false;
        }
        i = i + 1;
    }
    assert(seen =~= due);
    true
}

/// Whether the folders on the way to a path were observed one by one.
fn folders_are(facts: &PathFacts, root: &Root) -> (r: bool)
    ensures
        r == (folder_views(facts.ancestors@) == folders_above(facts.path@, root.path@)),
{
    let ghost seen = folder_views(facts.ancestors@);
    let ghost due = folders_above(facts.path@, root.path@);
    let mut here: FsPath = share(&facts.path);
    let mut i: usize = 0;
    assert(due =~= seen.take(0) + folders_above(here@, root.path@));
    loop
        invariant
            i <= facts.ancestors@.len(),
            seen == folder_views(facts.ancestors@),
            due == folders_above(facts.path@, root.path@),
            due == seen.take(i as int) + folders_above(here@, root.path@),
        decreases here@.len(),
    {
        proof {
            parent_holds(here@);
        }
        let above: &[u8] = match parent(path_bytes(&here)) {
            None => {
                assert(i == seen.len() ==> due =~= seen);
                return i == facts.ancestors.len();
            },
            Some(above) => above,
        };
        if !is_under(above, path_bytes(&root.path)) {
            assert(i == seen.len() ==> due =~= seen);
            return i == facts.ancestors.len();
        }
        assert(due[i as int] == above@);
        if i == facts.ancestors.len() {
            return false;
        }
        assert(seen[i as int] == facts.ancestors@[i as int].path@);
        if !same_bytes(path_bytes(&facts.ancestors[i].path), above) {
            return false;
        }
        let next: FsPath = fs_path(slice_to_vec(above));
        proof {
            assert(seen.take(i + 1) =~= seen.take(i as int).push(above@));
            assert(due =~= seen.take(i + 1) + folders_above(next@, root.path@));
        }
        here = next;
        i = i + 1;
    }
}

/// Whether a name on the way is protected, the repository's own folder aside.
fn on_protected_way(facts: &PathFacts) -> (r: bool)
    ensures
        r == facts.protected(),
{
    let mut i: usize = 0;
    while i < facts.names.len()
        invariant
            i <= facts.names@.len(),
            forall|j: int|
                0 <= j < i ==> !((#[trigger] facts.names@[j]).excluded && facts.names@[j].name@
                    != encode_utf8(".git"@)),
        decreases facts.names.len() - i,
    {
        if facts.names[i].excluded && !same_bytes(
            facts.names[i].name.as_slice(),
            ".git".as_bytes(),
        ) {
            return true;
        }
        i = i + 1;
    }
    false
}

/// Decides what an observed path of a repository's metadata is worth.
pub fn git_metadata(root: &Root, facts: &PathFacts, user: u32) -> (r: Result<
    Option<EntryMeta>,
    String,
>)
    ensures
        match metadata_outcome(*root, *facts, user) {
            Ok(meta) => r matches Ok(got) && got == meta,
            Err(reason) => failed(r, reason),
        },
{
    proof {
        reveal(metadata_outcome);
    }
    if !is_under(path_bytes(&facts.path), path_bytes(&root.path)) {
        return fail("Git metadata is outside this folder's authorization");
    }
    if !names_are(facts, root) || !folders_are(facts, root) {
        return fail("Git metadata could not be inspected");
    }
    if on_protected_way(facts) {
        return fail("Git metadata lies in a protected or cloud-managed location");
    }
    if parent(path_bytes(&facts.path)).is_none() {
        return fail("Git metadata has no parent");
    }
    // Reject redirection, another account's metadata and nested volumes.
    let ghost all = facts.ancestors@;
    let mut i: usize = 0;
    assert(all.take(0) =~= seq![]);
    while i < facts.ancestors.len()
        invariant
            i <= facts.ancestors.len(),
            all == facts.ancestors@,
            ancestors_failure(all.take(i as int), *root, user) is None,
            under(facts.path@, root.path@),
            facts.whole(*root),
            !facts.protected(),
            parent_of(facts.path@) is Some,
        decreases facts.ancestors.len() - i,
    {
        proof {
            assert(all.take(i + 1).drop_last() =~= all.take(i as int));
            assert(all.take(i + 1).last() == all[i as int]);
        }
        match &facts.ancestors[i].meta {
            Err(reason) => {
                proof {
                    reveal(metadata_outcome);
                    ancestors_fail_first(all, *root, user, i + 1);
                }
                return Err(reason.clone());
            },
            Ok(meta) => {
                if !meta.is_dir() || meta.is_dataless() || meta.uid != user
                    || meta.identity.device != root.identity.device {
                    proof {
                        reveal(metadata_outcome);
                        ancestors_fail_first(all, *root, user, i + 1);
                    }
                    return fail(
                        "Git metadata requires owned physical folders on the authorized volume",
                    );
                }
            },
        }
        i = i + 1;
    }
    assert(all.take(i as int) =~= all);
    match &facts.entry {
        Err(reason) => Err(reason.clone()),
        Ok(None) => Ok(None),
        Ok(Some(meta)) => {
            if meta.is_symlink() || meta.is_dataless() || meta.uid != user || meta.identity.device
                != root.identity.device || (!meta.is_dir() && !meta.is_file()) || (meta.is_file()
                && meta.links != 1) {
                return fail(
                    "Git metadata requires owned, independent local files and physical folders",
                );
            }
            Ok(Some(*meta))
        },
    }
}

proof fn ancestors_fail_first(
    all: Seq<FolderFact>,
    root: Root,
    user: u32,
    n: int,
)
    requires
        0 <= n <= all.len(),
        ancestors_failure(all.take(n), root, user) is Some,
    ensures
        ancestors_failure(all, root, user) == ancestors_failure(all.take(n), root, user),
    decreases all.len(),
{
    if n == all.len() {
        assert(all.take(n) =~= all);
    } else {
        assert(all.drop_last().take(n) =~= all.take(n));
        ancestors_fail_first(all.drop_last(), root, user, n);
    }
}

/// A folder of the metadata.
pub open spec fn folder_step(root: Root, seen: Observed, path: Seq<u8>) -> Got<EntryMeta> {
    if !seen.knows(path) {
        Got::Need(path, Ask::Entry)
    } else {
        match metadata_outcome(root, seen.of(path), seen.user) {
            Err(reason) => Got::Fail(reason),
            Ok(None) => Got::Fail("Git metadata folder is missing"@),
            Ok(Some(meta)) => if meta.dir() {
                Got::Have(meta)
            } else {
                Got::Fail("Git metadata does not identify a physical repository folder"@)
            },
        }
    }
}

/// A file of the metadata: its bytes, or nothing where it may be missing.
pub open spec fn file_step(
    root: Root,
    seen: Observed,
    path: Seq<u8>,
    required: bool,
    limit: u64,
) -> Got<Option<Seq<u8>>> {
    if !seen.knows(path) {
        Got::Need(path, Ask::Entry)
    } else {
        match metadata_outcome(root, seen.of(path), seen.user) {
            Err(reason) => Got::Fail(reason),
            Ok(None) => if required {
                Got::Fail("Required Git evidence is missing"@)
            } else {
                Got::Have(None)
            },
            Ok(Some(meta)) => if !meta.file() || meta.identity.size > limit {
                Got::Fail("Git evidence is not a supported bounded regular file"@)
            } else {
                match seen.of(path).content {
                    None => Got::Need(path, Ask::Content),
                    Some(Err(reason)) => Got::Fail(reason@),
                    Some(Ok(read)) => if read.identity != meta.identity {
                        Got::Fail("Git evidence changed while being captured"@)
                    } else {
                        match read.after {
                            Err(reason) => Got::Fail(reason@),
                            Ok(after) => if after != meta {
                                Got::Fail("Git evidence changed while being captured"@)
                            } else {
                                Got::Have(Some(read.bytes@))
                            },
                        }
                    },
                }
            },
        }
    }
}

/// One captured piece of evidence. The digest commits to the exact bytes.
pub struct GitEvidenceEntry {
    pub path: FsPath,
    pub metadata: Option<EntryMeta>,
    pub digest: Option<Digest>,
}

/// Whether an entry records what was observed of a path: of a file, its bytes
/// too.
pub open spec fn records(
    root: Root,
    seen: Observed,
    entry: GitEvidenceEntry,
    path: Seq<u8>,
    file: bool,
) -> bool {
    &&& entry.path@ == path
    &&& metadata_outcome(root, seen.of(path), seen.user) == Ok::<Option<EntryMeta>, Seq<char>>(
        entry.metadata,
    )
    &&& match entry.digest {
        Some(digest) => file && entry.metadata is Some && (seen.of(path).content matches Some(
            Ok(read),
        ) && digest@ == blake3_digest(read.bytes@)),
        None => !file || entry.metadata is None,
    }
}

/// Collects evidence while it checks it.
struct Collector<'a> {
    root: &'a Root,
    seen: &'a Observed,
    entries: Vec<GitEvidenceEntry>,
}

impl<'a> Collector<'a> {
    fn folder(&mut self, path: &FsPath) -> (r: Step<EntryMeta>)
        ensures
            final(self).root == old(self).root,
            final(self).seen == old(self).seen,
            match folder_step(*old(self).root, *old(self).seen, path@) {
                Got::Need(at, content) => r matches Step::Need(p, c) && p@ == at && c == content
                    && final(self).entries@ == old(self).entries@,
                Got::Fail(reason) => r matches Step::Fail(text) && text@ == reason
                    && final(self).entries@ == old(self).entries@,
                Got::Have(meta) => {
                    &&& r == Step::Have(meta)
                    &&& final(self).entries@.len() == old(self).entries@.len() + 1
                    &&& final(self).entries@.drop_last() == old(self).entries@
                    &&& records(
                        *old(self).root,
                        *old(self).seen,
                        final(self).entries@.last(),
                        path@,
                        false,
                    )
                },
            },
    {
        let facts: &PathFacts = match self.seen.find(path_bytes(path)) {
            Some(facts) => facts,
            None => {
                return Step::Need(share(path), Ask::Entry);
            },
        };
        match git_metadata(self.root, facts, self.seen.user) {
            Err(reason) => Step::Fail(reason),
            Ok(None) => Step::Fail("Git metadata folder is missing".to_owned()),
            Ok(Some(meta)) => {
                if !meta.is_dir() {
                    return Step::Fail(
                        "Git metadata does not identify a physical repository folder".to_owned(),
                    );
                }
                let ghost before = self.entries@;
                self.entries.push(
                    GitEvidenceEntry { path: share(path), metadata: Some(meta), digest: None },
                );
                assert(self.entries@.drop_last() =~= before);
                Step::Have(meta)
            },
        }
    }

    fn file(&mut self, path: &FsPath, required: bool, limit: u64) -> (r: Step<Option<&'a Vec<u8>>>)
        ensures
            final(self).root == old(self).root,
            final(self).seen == old(self).seen,
            match file_step(*old(self).root, *old(self).seen, path@, required, limit) {
                Got::Need(at, content) => r matches Step::Need(p, c) && p@ == at && c == content
                    && final(self).entries@ == old(self).entries@,
                Got::Fail(reason) => r matches Step::Fail(text) && text@ == reason
                    && final(self).entries@ == old(self).entries@,
                Got::Have(bytes) => {
                    &&& r matches Step::Have(got) && (match (got, bytes) {
                        (Some(got), Some(bytes)) => got@ == bytes,
                        (None, None) => true,
                        _ => false,
                    })
                    &&& final(self).entries@.len() == old(self).entries@.len() + 1
                    &&& final(self).entries@.drop_last() == old(self).entries@
                    &&& records(
                        *old(self).root,
                        *old(self).seen,
                        final(self).entries@.last(),
                        path@,
                        true,
                    )
                },
            },
    {
        let facts: &'a PathFacts = match self.seen.find(path_bytes(path)) {
            Some(facts) => facts,
            None => {
                return Step::Need(share(path), Ask::Entry);
            },
        };
        let ghost before = self.entries@;
        match git_metadata(self.root, facts, self.seen.user) {
            Err(reason) => Step::Fail(reason),
            Ok(None) => {
                if required {
                    return Step::Fail("Required Git evidence is missing".to_owned());
                }
                self.entries.push(
                    GitEvidenceEntry { path: share(path), metadata: None, digest: None },
                );
                assert(self.entries@.drop_last() =~= before);
                Step::Have(None)
            },
            Ok(Some(meta)) => {
                if !meta.is_file() || meta.identity.size > limit {
                    return Step::Fail(
                        "Git evidence is not a supported bounded regular file".to_owned(),
                    );
                }
                let read: &'a Captured = match &facts.content {
                    None => {
                        return Step::Need(share(path), Ask::Content);
                    },
                    Some(Err(reason)) => {
                        return Step::Fail(reason.clone());
                    },
                    Some(Ok(read)) => read,
                };
                if read.identity != meta.identity {
                    return Step::Fail("Git evidence changed while being captured".to_owned());
                }
                match &read.after {
                    Err(reason) => {
                        return Step::Fail(reason.clone());
                    },
                    Ok(after) => {
                        if *after != meta {
                            return Step::Fail(
                                "Git evidence changed while being captured".to_owned(),
                            );
                        }
                    },
                }
                let digest: Digest = digest_of(read.bytes.as_slice());
                self.entries.push(
                    GitEvidenceEntry {
                        path: share(path),
                        metadata: Some(meta),
                        digest: Some(digest),
                    },
                );
                assert(self.entries@.drop_last() =~= before);
                Step::Have(Some(&read.bytes))
            },
        }
    }
}


/// Where a repository keeps what it has: the metadata of this work tree, the
/// metadata that all its work trees share, and whether these are two places.
pub struct Layout {
    pub directory: Seq<u8>,
    pub common: Seq<u8>,
    pub linked: bool,
}

/// Folders, one after the other: the first that cannot be evidence decides.
pub open spec fn folders_step(root: Root, seen: Observed, paths: Seq<Seq<u8>>) -> Got<()>
    decreases paths.len(),
{
    if paths.len() == 0 {
        Got::Have(())
    } else {
        match folder_step(root, seen, paths[0]) {
            Got::Need(path, content) => Got::Need(path, content),
            Got::Fail(reason) => Got::Fail(reason),
            Got::Have(_) => folders_step(root, seen, paths.skip(1)),
        }
    }
}

/// The marker of a linked work tree names its metadata; the metadata must lie in
/// the `worktrees` folder of a repository.
pub open spec fn marker_target(root: Root, tree: Seq<u8>, bytes: Seq<u8>) -> Result<
    Layout,
    Seq<char>,
> {
    let head = vstd::utf8::encode_utf8("gitdir: "@);
    if !begins(bytes, head) {
        Err("The Git worktree marker is not a supported gitdir pointer"@)
    } else {
        match pointer_outcome(root.path@, tree, bytes.skip(head.len() as int)) {
            Err(reason) => Err(reason),
            Ok(directory) => match parent_of(directory) {
                None => Err("Git worktree metadata has no parent"@),
                Some(worktrees) => match parent_of(worktrees) {
                    None => Err("Git worktree has no common repository"@),
                    Some(common) => if name_of(worktrees) != Some(
                        vstd::utf8::encode_utf8("worktrees"@),
                    ) || name_of(common) != Some(vstd::utf8::encode_utf8(".git"@)) {
                        Err("Only standard linked Git worktree ownership is supported"@)
                    } else {
                        Ok(Layout { directory, common, linked: true })
                    },
                },
            },
        }
    }
}

/// The metadata of a linked work tree must name the repository that holds it, and
/// must point back at the work tree's own marker.
pub open spec fn linked_pointers(root: Root, seen: Observed, layout: Layout, marker: Seq<u8>) -> Got<
    Layout,
> {
    match file_step(
        root,
        seen,
        named(layout.directory, "commondir"@),
        true,
        MAX_GIT_POINTER_BYTES,
    ) {
        Got::Need(path, content) => Got::Need(path, content),
        Got::Fail(reason) => Got::Fail(reason),
        Got::Have(None) => Got::Fail("Required Git evidence is missing"@),
        Got::Have(Some(bytes)) => match pointer_outcome(root.path@, layout.directory, bytes) {
            Err(reason) => Got::Fail(reason),
            Ok(found) => if !same_place(found, layout.common) {
                Got::Fail("Git worktree common-directory ownership is inconsistent"@)
            } else {
                match file_step(
                    root,
                    seen,
                    named(layout.directory, "gitdir"@),
                    true,
                    MAX_GIT_POINTER_BYTES,
                ) {
                    Got::Need(path, content) => Got::Need(path, content),
                    Got::Fail(reason) => Got::Fail(reason),
                    Got::Have(None) => Got::Fail("Required Git evidence is missing"@),
                    Got::Have(Some(bytes)) => if bytes.len() == 0 || bytes[0] != SLASH {
                        Got::Fail("Git worktree backpointer does not match this project"@)
                    } else {
                        match pointer_outcome(root.path@, layout.directory, bytes) {
                            Err(reason) => Got::Fail(reason),
                            Ok(back) => if !same_place(back, marker) {
                                Got::Fail("Git worktree backpointer does not match this project"@)
                            } else {
                                Got::Have(layout)
                            },
                        }
                    },
                }
            },
        },
    }
}

/// The folders that a linked work tree's metadata lies in.
pub open spec fn linked_folders(layout: Layout) -> Seq<Seq<u8>> {
    seq![layout.common, parent_of(layout.directory)->Some_0, layout.directory]
}

/// Where the repository of a work tree keeps what it has.
pub open spec fn layout_step(root: Root, seen: Observed, tree: Seq<u8>) -> Got<Layout> {
    let marker = named(tree, ".git"@);
    if !seen.knows(marker) {
        Got::Need(marker, Ask::Entry)
    } else {
        match metadata_outcome(root, seen.of(marker), seen.user) {
            Err(reason) => Got::Fail(reason),
            Ok(None) => Got::Fail("Git repository marker disappeared"@),
            Ok(Some(meta)) => if meta.file() {
                match file_step(root, seen, marker, true, MAX_GIT_POINTER_BYTES) {
                    Got::Need(path, content) => Got::Need(path, content),
                    Got::Fail(reason) => Got::Fail(reason),
                    Got::Have(None) => Got::Fail("Required Git evidence is missing"@),
                    Got::Have(Some(bytes)) => match marker_target(root, tree, bytes) {
                        Err(reason) => Got::Fail(reason),
                        Ok(layout) => match folders_step(root, seen, linked_folders(layout)) {
                            Got::Need(path, content) => Got::Need(path, content),
                            Got::Fail(reason) => Got::Fail(reason),
                            Got::Have(_) => linked_pointers(root, seen, layout, marker),
                        },
                    },
                }
            } else {
                match folder_step(root, seen, marker) {
                    Got::Need(path, content) => Got::Need(path, content),
                    Got::Fail(reason) => Got::Fail(reason),
                    Got::Have(_) => match file_step(
                        root,
                        seen,
                        named(marker, "commondir"@),
                        false,
                        MAX_GIT_POINTER_BYTES,
                    ) {
                        Got::Need(path, content) => Got::Need(path, content),
                        Got::Fail(reason) => Got::Fail(reason),
                        Got::Have(Some(_)) => Got::Fail(
                            "Nonstandard Git common-directory ownership needs manual inspection"@,
                        ),
                        Got::Have(None) => Got::Have(
                            Layout { directory: marker, common: marker, linked: false },
                        ),
                    },
                }
            },
        }
    }
}

/// A configuration file, where there is one.
pub open spec fn config_step(root: Root, seen: Observed, path: Seq<u8>) -> Got<()> {
    match file_step(root, seen, path, false, MAX_GIT_INDEX_BYTES) {
        Got::Need(path, content) => Got::Need(path, content),
        Got::Fail(reason) => Got::Fail(reason),
        Got::Have(None) => Got::Have(()),
        Got::Have(Some(bytes)) => match config_outcome(bytes) {
            Err(reason) => Got::Fail(reason),
            Ok(_) => Got::Have(()),
        },
    }
}

/// The index, which only a linked work tree must have.
pub open spec fn index_step(root: Root, seen: Observed, layout: Layout) -> Got<()> {
    match file_step(
        root,
        seen,
        named(layout.directory, "index"@),
        layout.linked,
        MAX_GIT_INDEX_BYTES,
    ) {
        Got::Need(path, content) => Got::Need(path, content),
        Got::Fail(reason) => Got::Fail(reason),
        Got::Have(None) => Got::Have(()),
        Got::Have(Some(bytes)) => match index_outcome(bytes) {
            Err(reason) => Got::Fail(reason),
            Ok(_) => Got::Have(()),
        },
    }
}

/// The rest of the evidence, in its order.
pub open spec fn contents_step(root: Root, seen: Observed, layout: Layout) -> Got<()> {
    match file_step(root, seen, named(layout.directory, "HEAD"@), true, MAX_GIT_POINTER_BYTES) {
        Got::Need(path, content) => Got::Need(path, content),
        Got::Fail(reason) => Got::Fail(reason),
        Got::Have(_) => match index_step(root, seen, layout) {
            Got::Need(path, content) => Got::Need(path, content),
            Got::Fail(reason) => Got::Fail(reason),
            Got::Have(_) => match config_step(root, seen, named(layout.common, "config"@)) {
                Got::Need(path, content) => Got::Need(path, content),
                Got::Fail(reason) => Got::Fail(reason),
                Got::Have(_) => match config_step(
                    root,
                    seen,
                    named(layout.directory, "config.worktree"@),
                ) {
                    Got::Need(path, content) => Got::Need(path, content),
                    Got::Fail(reason) => Got::Fail(reason),
                    Got::Have(_) => folders_step(
                        root,
                        seen,
                        seq![named(layout.common, "objects"@), named(layout.common, "refs"@)],
                    ),
                },
            },
        },
    }
}

/// The paths that tell where a repository keeps what it has, each with whether
/// its content counts.
pub open spec fn layout_paths(marker: Seq<u8>, layout: Layout) -> Seq<(Seq<u8>, bool)> {
    if layout.linked {
        seq![
            (marker, true),
            (layout.common, false),
            (parent_of(layout.directory)->Some_0, false),
            (layout.directory, false),
            (named(layout.directory, "commondir"@), true),
            (named(layout.directory, "gitdir"@), true),
        ]
    } else {
        seq![(marker, false), (named(marker, "commondir"@), true)]
    }
}

/// The paths of the rest of the evidence.
pub open spec fn content_paths(layout: Layout) -> Seq<(Seq<u8>, bool)> {
    seq![
        (named(layout.directory, "HEAD"@), true),
        (named(layout.directory, "index"@), true),
        (named(layout.common, "config"@), true),
        (named(layout.directory, "config.worktree"@), true),
        (named(layout.common, "objects"@), false),
        (named(layout.common, "refs"@), false),
    ]
}

/// The paths that the evidence of a layout holds.
pub open spec fn evidence_paths(marker: Seq<u8>, layout: Layout) -> Seq<(Seq<u8>, bool)> {
    layout_paths(marker, layout) + content_paths(layout)
}

/// Whether entries record what was observed of paths.
pub open spec fn recorded(
    root: Root,
    seen: Observed,
    entries: Seq<GitEvidenceEntry>,
    paths: Seq<(Seq<u8>, bool)>,
) -> bool {
    &&& entries.len() == paths.len()
    &&& forall|i: int|
        0 <= i < paths.len() ==> records(
            root,
            seen,
            #[trigger] entries[i],
            paths[i].0,
            paths[i].1,
        )
}

/// Metadata that was read only as evidence. It never becomes part of an artifact
/// or authorizes traversal beyond the user's existing grant.
pub struct GitEvidence {
    pub work_tree: FsPath,
    pub directory: FsPath,
    pub entries: Vec<GitEvidenceEntry>,
}

/// What reading the evidence of a work tree comes to.
#[verifier::opaque]
pub open spec fn reading_step(root: Root, seen: Observed, tree: Seq<u8>) -> Got<Layout> {
    match layout_step(root, seen, tree) {
        Got::Need(path, content) => Got::Need(path, content),
        Got::Fail(reason) => Got::Fail(reason),
        Got::Have(layout) => match contents_step(root, seen, layout) {
            Got::Need(path, content) => Got::Need(path, content),
            Got::Fail(reason) => Got::Fail(reason),
            Got::Have(_) => Got::Have(layout),
        },
    }
}

/// The layout with its paths.
struct Place {
    directory: FsPath,
    common: FsPath,
    linked: bool,
}

impl Place {
    spec fn layout(self) -> Layout {
        Layout { directory: self.directory@, common: self.common@, linked: self.linked }
    }
}

proof fn recorded_push(
    root: Root,
    seen: Observed,
    before: Seq<GitEvidenceEntry>,
    after: Seq<GitEvidenceEntry>,
    paths: Seq<(Seq<u8>, bool)>,
    path: Seq<u8>,
    file: bool,
)
    requires
        recorded(root, seen, before, paths),
        after.len() == before.len() + 1,
        after.drop_last() == before,
        records(root, seen, after.last(), path, file),
    ensures
        recorded(root, seen, after, paths.push((path, file))),
{
    let more = paths.push((path, file));
    assert forall|i: int| 0 <= i < more.len() implies records(
        root,
        seen,
        #[trigger] after[i],
        more[i].0,
        more[i].1,
    ) by {
        if i < paths.len() {
            assert(after[i] == before[i]);
        }
    }
}

impl<'a> Collector<'a> {
    /// Whether the entries record these paths.
    spec fn holds(self, paths: Seq<(Seq<u8>, bool)>) -> bool {
        recorded(*self.root, *self.seen, self.entries@, paths)
    }

    fn config(&mut self, path: &FsPath, Ghost(paths): Ghost<Seq<(Seq<u8>, bool)>>) -> (r: Step<()>)
        requires
            old(self).holds(paths),
        ensures
            final(self).root == old(self).root,
            final(self).seen == old(self).seen,
            step_is(r, config_step(*old(self).root, *old(self).seen, path@)),
            r is Have ==> final(self).holds(paths.push((path@, true))),
    {
        let ghost before = self.entries@;
        match self.file(path, false, MAX_GIT_INDEX_BYTES) {
            Step::Need(p, c) => Step::Need(p, c),
            Step::Fail(reason) => Step::Fail(reason),
            Step::Have(found) => {
                proof {
                    recorded_push(
                        *self.root,
                        *self.seen,
                        before,
                        self.entries@,
                        paths,
                        path@,
                        true,
                    );
                }
                match found {
                    None => Step::Have(()),
                    Some(bytes) => match validate_git_config(bytes.as_slice()) {
                        Ok(_) => Step::Have(()),
                        Err(reason) => Step::Fail(reason),
                    },
                }
            },
        }
    }

    /// The rest of the evidence, in its order.
    fn contents(&mut self, place: &Place, Ghost(paths): Ghost<Seq<(Seq<u8>, bool)>>) -> (r: Step<
        (),
    >)
        requires
            old(self).holds(paths),
        ensures
            final(self).root == old(self).root,
            final(self).seen == old(self).seen,
            step_is(r, contents_step(*old(self).root, *old(self).seen, place.layout())),
            r is Have ==> final(self).holds(
                paths + content_paths(place.layout()),
            ),
    {
        let ghost root = *self.root;
        let ghost seen = *self.seen;
        let ghost layout = place.layout();
        let ghost e0 = self.entries@;
        let head: FsPath = join_text(&place.directory, "HEAD");
        match self.file(&head, true, MAX_GIT_POINTER_BYTES) {
            Step::Need(p, c) => {
                return Step::Need(p, c);
            },
            Step::Fail(reason) => {
                return Step::Fail(reason);
            },
            Step::Have(_) => {},
        }
        let ghost p1 = paths.push((head@, true));
        let ghost e1 = self.entries@;
        proof {
            recorded_push(root, seen, e0, e1, paths, head@, true);
        }
        let index: FsPath = join_text(&place.directory, "index");
        match self.file(&index, place.linked, MAX_GIT_INDEX_BYTES) {
            Step::Need(p, c) => {
                return Step::Need(p, c);
            },
            Step::Fail(reason) => {
                return Step::Fail(reason);
            },
            Step::Have(found) => {
                match found {
                    None => {},
                    Some(bytes) => {
                        match validate_git_index(bytes.as_slice()) {
                            Ok(_) => {},
                            Err(reason) => {
                                return Step::Fail(reason);
                            },
                        }
                    },
                }
            },
        }
        let ghost p2 = p1.push((index@, true));
        let ghost e2 = self.entries@;
        proof {
            recorded_push(root, seen, e1, e2, p1, index@, true);
            assert(index_step(root, seen, layout) is Have);
        }
        let config: FsPath = join_text(&place.common, "config");
        match self.config(&config, Ghost(p2)) {
            Step::Need(p, c) => {
                return Step::Need(p, c);
            },
            Step::Fail(reason) => {
                return Step::Fail(reason);
            },
            Step::Have(_) => {},
        }
        let ghost p3 = p2.push((config@, true));
        let local: FsPath = join_text(&place.directory, "config.worktree");
        match self.config(&local, Ghost(p3)) {
            Step::Need(p, c) => {
                return Step::Need(p, c);
            },
            Step::Fail(reason) => {
                return Step::Fail(reason);
            },
            Step::Have(_) => {},
        }
        let ghost p4 = p3.push((local@, true));
        let ghost e4 = self.entries@;
        let objects: FsPath = join_text(&place.common, "objects");
        let refs: FsPath = join_text(&place.common, "refs");
        let ghost both = seq![objects@, refs@];
        proof {
            assert(both[0] == objects@);
            assert(both.skip(1) =~= seq![refs@]);
            assert(seq![refs@].skip(1) =~= seq![]);
            reveal_with_fuel(folders_step, 3);
        }
        match self.folder(&objects) {
            Step::Need(p, c) => {
                return Step::Need(p, c);
            },
            Step::Fail(reason) => {
                return Step::Fail(reason);
            },
            Step::Have(_) => {},
        }
        let ghost e5 = self.entries@;
        let ghost p5 = p4.push((objects@, false));
        proof {
            recorded_push(root, seen, e4, e5, p4, objects@, false);
        }
        match self.folder(&refs) {
            Step::Need(p, c) => {
                return Step::Need(p, c);
            },
            Step::Fail(reason) => {
                return Step::Fail(reason);
            },
            Step::Have(_) => {},
        }
        proof {
            recorded_push(root, seen, e5, self.entries@, p5, refs@, false);
            assert(p5.push((refs@, false)) =~= paths + content_paths(place.layout()));
        }
        Step::Have(())
    }
}


/// Reads the marker of a linked work tree.
fn read_marker(root: &Root, tree: &FsPath, bytes: &[u8]) -> (r: Result<Place, String>)
    ensures
        match marker_target(*root, tree@, bytes@) {
            Ok(layout) => r matches Ok(place) && place.layout() == layout,
            Err(reason) => failed(r, reason),
        },
{
    let head: &[u8] = "gitdir: ".as_bytes();
    if !bytes_begin(bytes, head) {
        return fail("The Git worktree marker is not a supported gitdir pointer");
    }
    let rest: &[u8] = slice_subrange(bytes, head.len(), bytes.len());
    assert(rest@ =~= bytes@.skip(head@.len() as int));
    let directory: FsPath = match git_pointer_path(root, tree, rest) {
        Ok(directory) => directory,
        Err(reason) => {
            return Err(reason);
        },
    };
    let worktrees: FsPath = match parent(path_bytes(&directory)) {
        Some(above) => fs_path(slice_to_vec(above)),
        None => {
            return fail("Git worktree metadata has no parent");
        },
    };
    let common: FsPath = match parent(path_bytes(&worktrees)) {
        Some(above) => fs_path(slice_to_vec(above)),
        None => {
            return fail("Git worktree has no common repository");
        },
    };
    let standard: bool = match (file_name(path_bytes(&worktrees)), file_name(path_bytes(&common))) {
        (Some(a), Some(b)) => same_bytes(a, "worktrees".as_bytes()) && same_bytes(
            b,
            ".git".as_bytes(),
        ),
        _ => false,
    };
    if !standard {
        return fail("Only standard linked Git worktree ownership is supported");
    }
    Ok(Place { directory, common, linked: true })
}

/// Whether a step is what its description says, for steps that find a layout.
spec fn place_is(r: Step<Place>, expected: Got<Layout>) -> bool {
    match expected {
        Got::Need(at, content) => r matches Step::Need(p, c) && p@ == at && c == content,
        Got::Fail(reason) => r matches Step::Fail(text) && text@ == reason,
        Got::Have(layout) => r matches Step::Have(place) && place.layout() == layout,
    }
}

impl<'a> Collector<'a> {
    /// The pointers between a linked work tree and its repository.
    fn pointers(
        &mut self,
        place: &Place,
        marker: &FsPath,
        Ghost(paths): Ghost<Seq<(Seq<u8>, bool)>>,
    ) -> (r: Step<()>)
        requires
            old(self).holds(paths),
        ensures
            final(self).root == old(self).root,
            final(self).seen == old(self).seen,
            match linked_pointers(*old(self).root, *old(self).seen, place.layout(), marker@) {
                Got::Need(at, content) => r matches Step::Need(p, c) && p@ == at && c == content,
                Got::Fail(reason) => r matches Step::Fail(text) && text@ == reason,
                Got::Have(layout) => r is Have && layout == place.layout(),
            },
            r is Have ==> final(self).holds(
                paths + seq![
                    (named(place.directory@, "commondir"@), true),
                    (named(place.directory@, "gitdir"@), true),
                ],
            ),
    {
        let ghost root = *self.root;
        let ghost seen = *self.seen;
        let ghost e0 = self.entries@;
        let commondir: FsPath = join_text(&place.directory, "commondir");
        let found: Option<&'a Vec<u8>> = match self.file(&commondir, true, MAX_GIT_POINTER_BYTES) {
            Step::Need(p, c) => {
                return Step::Need(p, c);
            },
            Step::Fail(reason) => {
                return Step::Fail(reason);
            },
            Step::Have(found) => found,
        };
        let ghost e1 = self.entries@;
        let ghost p1 = paths.push((commondir@, true));
        proof {
            recorded_push(root, seen, e0, e1, paths, commondir@, true);
        }
        match found {
            None => {
                return Step::Fail("Required Git evidence is missing".to_owned());
            },
            Some(bytes) => {
                match git_pointer_path(self.root, &place.directory, bytes.as_slice()) {
                    Err(reason) => {
                        return Step::Fail(reason);
                    },
                    Ok(path) => {
                        if !is_same_place(path_bytes(&path), path_bytes(&place.common)) {
                            return Step::Fail(
                                "Git worktree common-directory ownership is inconsistent".to_owned(),
                            );
                        }
                    },
                }
            },
        }
        let gitdir: FsPath = join_text(&place.directory, "gitdir");
        let found: Option<&'a Vec<u8>> = match self.file(&gitdir, true, MAX_GIT_POINTER_BYTES) {
            Step::Need(p, c) => {
                return Step::Need(p, c);
            },
            Step::Fail(reason) => {
                return Step::Fail(reason);
            },
            Step::Have(found) => found,
        };
        proof {
            recorded_push(root, seen, e1, self.entries@, p1, gitdir@, true);
            assert(p1.push((gitdir@, true)) =~= paths + seq![
                (named(place.directory@, "commondir"@), true),
                (named(place.directory@, "gitdir"@), true),
            ]);
        }
        match found {
            None => {
                return Step::Fail("Required Git evidence is missing".to_owned());
            },
            Some(bytes) => {
                if bytes.len() == 0 || bytes[0] != SLASH {
                    return Step::Fail(
                        "Git worktree backpointer does not match this project".to_owned(),
                    );
                }
                match git_pointer_path(self.root, &place.directory, bytes.as_slice()) {
                    Err(reason) => {
                        return Step::Fail(reason);
                    },
                    Ok(path) => {
                        if !is_same_place(path_bytes(&path), path_bytes(marker)) {
                            return Step::Fail(
                                "Git worktree backpointer does not match this project".to_owned(),
                            );
                        }
                    },
                }
            },
        }
        Step::Have(())
    }

    /// Where the repository keeps what it has.
    fn layout(&mut self, tree: &FsPath) -> (r: Step<Place>)
        requires
            old(self).entries@.len() == 0,
        ensures
            final(self).root == old(self).root,
            final(self).seen == old(self).seen,
            place_is(r, layout_step(*old(self).root, *old(self).seen, tree@)),
            r matches Step::Have(place) ==> final(self).holds(
                layout_paths(named(tree@, ".git"@), place.layout()),
            ),
    {
        let ghost root = *self.root;
        let ghost seen = *self.seen;
        let marker: FsPath = join_text(tree, ".git");
        let ghost none = Seq::<(Seq<u8>, bool)>::empty();
        assert(self.holds(none));
        let facts: &PathFacts = match self.seen.find(path_bytes(&marker)) {
            Some(facts) => facts,
            None => {
                return Step::Need(marker, Ask::Entry);
            },
        };
        let meta: EntryMeta = match git_metadata(self.root, facts, self.seen.user) {
            Err(reason) => {
                return Step::Fail(reason);
            },
            Ok(None) => {
                return Step::Fail("Git repository marker disappeared".to_owned());
            },
            Ok(Some(meta)) => meta,
        };
        let ghost e0 = self.entries@;
        if meta.is_file() {
            let found: Option<&'a Vec<u8>> = match self.file(&marker, true, MAX_GIT_POINTER_BYTES) {
                Step::Need(p, c) => {
                    return Step::Need(p, c);
                },
                Step::Fail(reason) => {
                    return Step::Fail(reason);
                },
                Step::Have(found) => found,
            };
            let ghost e1 = self.entries@;
            let ghost p1 = none.push((marker@, true));
            proof {
                recorded_push(root, seen, e0, e1, none, marker@, true);
            }
            let place: Place = match found {
                None => {
                    return Step::Fail("Required Git evidence is missing".to_owned());
                },
                Some(bytes) => match read_marker(self.root, tree, bytes.as_slice()) {
                    Ok(place) => place,
                    Err(reason) => {
                        return Step::Fail(reason);
                    },
                },
            };
            let ghost layout = place.layout();
            let worktrees: FsPath = match parent(path_bytes(&place.directory)) {
                Some(above) => fs_path(slice_to_vec(above)),
                None => {
                    return Step::Fail("Git worktree metadata has no parent".to_owned());
                },
            };
            proof {
                let list = linked_folders(layout);
                assert(list[0] == place.common@);
                assert(list.skip(1)[0] == worktrees@);
                assert(list.skip(1).skip(1)[0] == place.directory@);
                assert(list.skip(1).skip(1).skip(1) =~= seq![]);
                reveal_with_fuel(folders_step, 4);
            }
            match self.folder(&place.common) {
                Step::Need(p, c) => {
                    return Step::Need(p, c);
                },
                Step::Fail(reason) => {
                    return Step::Fail(reason);
                },
                Step::Have(_) => {},
            }
            let ghost e2 = self.entries@;
            let ghost p2 = p1.push((place.common@, false));
            proof {
                recorded_push(root, seen, e1, e2, p1, place.common@, false);
            }
            match self.folder(&worktrees) {
                Step::Need(p, c) => {
                    return Step::Need(p, c);
                },
                Step::Fail(reason) => {
                    return Step::Fail(reason);
                },
                Step::Have(_) => {},
            }
            let ghost e3 = self.entries@;
            let ghost p3 = p2.push((worktrees@, false));
            proof {
                recorded_push(root, seen, e2, e3, p2, worktrees@, false);
            }
            match self.folder(&place.directory) {
                Step::Need(p, c) => {
                    return Step::Need(p, c);
                },
                Step::Fail(reason) => {
                    return Step::Fail(reason);
                },
                Step::Have(_) => {},
            }
            let ghost p4 = p3.push((place.directory@, false));
            proof {
                recorded_push(root, seen, e3, self.entries@, p3, place.directory@, false);
            }
            match self.pointers(&place, &marker, Ghost(p4)) {
                Step::Need(p, c) => {
                    return Step::Need(p, c);
                },
                Step::Fail(reason) => {
                    return Step::Fail(reason);
                },
                Step::Have(_) => {},
            }
            proof {
                assert(layout_paths(marker@, layout) =~= p4
                    + seq![
                    (named(place.directory@, "commondir"@), true),
                    (named(place.directory@, "gitdir"@), true),
                ]);
            }
            return Step::Have(place);
        }
        match self.folder(&marker) {
            Step::Need(p, c) => {
                return Step::Need(p, c);
            },
            Step::Fail(reason) => {
                return Step::Fail(reason);
            },
            Step::Have(_) => {},
        }
        let ghost e1 = self.entries@;
        let ghost p1 = none.push((marker@, false));
        proof {
            recorded_push(root, seen, e0, e1, none, marker@, false);
        }
        // A folder with an extra commondir is a separate unsupported layout; it
        // must not be redirected silently after validation.
        let commondir: FsPath = join_text(&marker, "commondir");
        match self.file(&commondir, false, MAX_GIT_POINTER_BYTES) {
            Step::Need(p, c) => {
                return Step::Need(p, c);
            },
            Step::Fail(reason) => {
                return Step::Fail(reason);
            },
            Step::Have(Some(_)) => {
                return Step::Fail(
                    "Nonstandard Git common-directory ownership needs manual inspection".to_owned(),
                );
            },
            Step::Have(None) => {},
        }
        let place: Place = Place { directory: share(&marker), common: marker, linked: false };
        proof {
            recorded_push(root, seen, e1, self.entries@, p1, commondir@, true);
            assert(layout_paths(place.common@, place.layout()) =~= p1.push(
                (commondir@, true),
            ));
        }
        Step::Have(place)
    }
}

impl GitEvidence {
    /// Reads the evidence of a work tree from what was observed. Where an
    /// observation is missing, it is asked for, and reading starts over with it.
    /// It is captured once it was read again, unchanged.
    pub fn read(root: &Root, work_tree: &FsPath, seen: &Observed, cancel: bool) -> (r: Step<
        GitEvidence,
    >)
        ensures
            if cancel {
                r matches Step::Fail(text) && text@ == "Cancelled"@
            } else {
                match reading_step(*root, *seen, work_tree@) {
                    Got::Need(at, content) => r matches Step::Need(p, c) && p@ == at && c
                        == content,
                    Got::Fail(reason) => r matches Step::Fail(text) && text@ == reason,
                    Got::Have(layout) => r matches Step::Have(found) && found.work_tree@
                        == work_tree@ && found.directory@ == layout.directory && recorded(
                        *root,
                        *seen,
                        found.entries@,
                        evidence_paths(named(work_tree@, ".git"@), layout),
                    ),
                }
            },
    {
        proof {
            reveal(reading_step);
        }
        if cancel {
            return Step::Fail("Cancelled".to_owned());
        }
        let mut collector: Collector = Collector { root, seen, entries: Vec::new() };
        let place: Place = match collector.layout(work_tree) {
            Step::Need(p, c) => {
                return Step::Need(p, c);
            },
            Step::Fail(reason) => {
                return Step::Fail(reason);
            },
            Step::Have(place) => place,
        };
        let ghost first = layout_paths(named(work_tree@, ".git"@), place.layout());
        match collector.contents(&place, Ghost(first)) {
            Step::Need(p, c) => Step::Need(p, c),
            Step::Fail(reason) => Step::Fail(reason),
            Step::Have(_) => {
                Step::Have(
                    GitEvidence {
                        work_tree: share(work_tree),
                        directory: place.directory,
                        entries: collector.entries,
                    },
                )
            },
        }
    }
}

/// Whether saved metadata still holds: a folder keeps its identity, anything else
/// stays exactly as it was.
pub open spec fn same_metadata(before: Option<EntryMeta>, after: Option<EntryMeta>) -> bool {
    match (before, after) {
        (None, None) => true,
        (Some(a), Some(b)) => if a.dir() {
            a.identity.device == b.identity.device && a.identity.inode == b.identity.inode
                && a.identity.mode == b.identity.mode
        } else {
            a == b
        },
        _ => false,
    }
}

/// Whether one saved entry still holds under new observations.
pub open spec fn entry_unchanged(root: Root, now: Observed, saved: GitEvidenceEntry) -> Got<()> {
    let path = saved.path@;
    if !now.knows(path) {
        Got::Need(path, Ask::Entry)
    } else {
        match metadata_outcome(root, now.of(path), now.user) {
            Err(reason) => Got::Fail(reason),
            Ok(current) => if !same_metadata(saved.metadata, current) {
                Got::Fail("Git ownership or index changed during the safety check; review again"@)
            } else {
                match saved.digest {
                    None => Got::Have(()),
                    Some(digest) => match now.of(path).content {
                        None => Got::Need(path, Ask::Content),
                        Some(Err(reason)) => Got::Fail(reason@),
                        Some(Ok(read)) => if blake3_digest(read.bytes@) != digest@
                            || saved.metadata is None || saved.metadata->Some_0.identity
                            != read.identity {
                            Got::Fail("Git evidence changed during the safety check; review again"@)
                        } else {
                            match read.after {
                                Err(reason) => Got::Fail(reason@),
                                Ok(after) => if after != saved.metadata->Some_0 {
                                    Got::Fail(
                                        "Git evidence changed during the safety check; review again"@,
                                    )
                                } else {
                                    Got::Have(())
                                },
                            }
                        },
                    },
                }
            },
        }
    }
}

/// Whether all saved entries still hold: the first that does not decides.
pub open spec fn all_unchanged(
    root: Root,
    now: Observed,
    entries: Seq<GitEvidenceEntry>,
) -> Got<()>
    decreases entries.len(),
{
    if entries.len() == 0 {
        Got::Have(())
    } else {
        match entry_unchanged(root, now, entries[0]) {
            Got::Need(path, content) => Got::Need(path, content),
            Got::Fail(reason) => Got::Fail(reason),
            Got::Have(_) => all_unchanged(root, now, entries.skip(1)),
        }
    }
}

fn is_same_metadata(before: &Option<EntryMeta>, after: &Option<EntryMeta>) -> (r: bool)
    ensures
        r == same_metadata(*before, *after),
{
    match (before, after) {
        (None, None) => true,
        (Some(a), Some(b)) => {
            if a.is_dir() {
                a.identity.device == b.identity.device && a.identity.inode == b.identity.inode
                    && a.identity.mode == b.identity.mode
            } else {
                *a == *b
            }
        },
        _ => false,
    }
}

fn check_entry(root: &Root, now: &Observed, saved: &GitEvidenceEntry) -> (r: Step<()>)
    ensures
        match entry_unchanged(*root, *now, *saved) {
            Got::Need(at, content) => r matches Step::Need(p, c) && p@ == at && c == content,
            Got::Fail(reason) => r matches Step::Fail(text) && text@ == reason,
            Got::Have(_) => r is Have,
        },
{
    let facts: &PathFacts = match now.find(path_bytes(&saved.path)) {
        Some(facts) => facts,
        None => {
            return Step::Need(share(&saved.path), Ask::Entry);
        },
    };
    let current: Option<EntryMeta> = match git_metadata(root, facts, now.user) {
        Ok(current) => current,
        Err(reason) => {
            return Step::Fail(reason);
        },
    };
    if !is_same_metadata(&saved.metadata, &current) {
        return Step::Fail(
            "Git ownership or index changed during the safety check; review again".to_owned(),
        );
    }
    let digest: &Digest = match &saved.digest {
        None => {
            return Step::Have(());
        },
        Some(digest) => digest,
    };
    let read: &Captured = match &facts.content {
        None => {
            return Step::Need(share(&saved.path), Ask::Content);
        },
        Some(Err(reason)) => {
            return Step::Fail(reason.clone());
        },
        Some(Ok(read)) => read,
    };
    let fresh: Digest = digest_of(read.bytes.as_slice());
    let meta: EntryMeta = match &saved.metadata {
        None => {
            return Step::Fail("Git evidence changed during the safety check; review again".to_owned());
        },
        Some(meta) => *meta,
    };
    if !same_digest(&fresh, digest) || meta.identity != read.identity {
        return Step::Fail("Git evidence changed during the safety check; review again".to_owned());
    }
    match &read.after {
        Err(reason) => Step::Fail(reason.clone()),
        Ok(after) => {
            if *after != meta {
                return Step::Fail(
                    "Git evidence changed during the safety check; review again".to_owned(),
                );
            }
            Step::Have(())
        },
    }
}

impl GitEvidence {
    /// Checks the evidence against new observations. What was read before must
    /// still be there, exactly.
    pub fn unchanged(
        &self,
        root: &Root,
        valid: &Result<(), String>,
        now: &Observed,
        cancel: bool,
    ) -> (r: Step<()>)
        ensures
            match *valid {
                Err(reason) => r matches Step::Fail(text) && text@ == reason@,
                Ok(_) => if cancel {
                    r matches Step::Fail(text) && text@ == "Cancelled"@
                } else {
                    match all_unchanged(*root, *now, self.entries@) {
                        Got::Need(at, content) => r matches Step::Need(p, c) && p@ == at && c
                            == content,
                        Got::Fail(reason) => r matches Step::Fail(text) && text@ == reason,
                        Got::Have(_) => r is Have,
                    }
                },
            },
    {
        match valid {
            Err(reason) => {
                return Step::Fail(reason.clone());
            },
            Ok(_) => {},
        }
        if cancel {
            return Step::Fail("Cancelled".to_owned());
        }
        let ghost all = self.entries@;
        let mut i: usize = 0;
        assert(all.skip(0) =~= all);
        while i < self.entries.len()
            invariant
                i <= self.entries.len(),
                all == self.entries@,
                *valid is Ok,
                !cancel,
                all_unchanged(*root, *now, all) == all_unchanged(*root, *now, all.skip(i as int)),
            decreases self.entries.len() - i,
        {
            proof {
                assert(all.skip(i as int)[0] == all[i as int]);
                assert(all.skip(i as int).skip(1) =~= all.skip(i + 1));
            }
            match check_entry(root, now, &self.entries[i]) {
                Step::Need(p, c) => {
                    return Step::Need(p, c);
                },
                Step::Fail(reason) => {
                    return Step::Fail(reason);
                },
                Step::Have(_) => {},
            }
            i = i + 1;
        }
        Step::Have(())
    }
}

} // verus!
