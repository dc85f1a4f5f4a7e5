//! Which Git metadata is the user's own, and what it says.
use crate::digest::blake3_digest;
use crate::git::config::config_outcome;
use crate::git::evidence::{
    all_unchanged, ancestors_failure, contents_step, entry_unchanged, evidence_paths, file_step,
    folder_step, folders_above, folders_step, layout_step, linked_pointers, marker_target,
    metadata_outcome, reading_step, FolderFact, GitEvidenceEntry, Layout, Observed, PathFacts,
};
use crate::git::index::index_outcome;
use crate::git::pointer::pointer_outcome;
use crate::git::tracking::{
    marker_at, pathspec, poll_settled, refusal, repository_step, wait_after, MarkerFact, Round,
};
use crate::model::{EntryMeta, Root};
use crate::paths::{
    components, name_of, named, names, parent_of, parent_parts, relative_to, under,
    what_is_left_of_a_path,
};
use crate::probe::{Ask, Got};
use vstd::prelude::*;
use vstd::utf8::encode_utf8;

verus! {

/// A folder that metadata may lie in: a real one of the user's on the root's volume.
pub open spec fn own_folder(meta: EntryMeta, root: Root, user: u32) -> bool {
    &&& meta.identity.mode & 0o170000 == 0o040000
    &&& meta.flags & 0x4000_0000 == 0
    &&& meta.uid == user
    &&& meta.identity.device == root.identity.device
}

/// A file that metadata may be: a real one of the user's on the root's volume, with no
/// other name.
pub open spec fn own_file(meta: EntryMeta, root: Root, user: u32) -> bool {
    &&& meta.identity.mode & 0o170000 == 0o100000
    &&& meta.flags & 0x4000_0000 == 0
    &&& meta.uid == user
    &&& meta.identity.device == root.identity.device
    &&& meta.links == 1
}

proof fn kinds_of(meta: EntryMeta)
    ensures
        meta.dir() == (meta.identity.mode & 0o170000 == 0o040000),
        meta.file() == (meta.identity.mode & 0o170000 == 0o100000),
        !(meta.dir() && meta.file()),
        !(meta.dir() && meta.symlink()),
        !(meta.file() && meta.symlink()),
{
}

proof fn ancestors_are_own(ancestors: Seq<FolderFact>, root: Root, user: u32)
    ensures
        ancestors_failure(ancestors, root, user) is None <==> forall|i: int|
            0 <= i < ancestors.len() ==> ((#[trigger] ancestors[i]).meta matches Ok(meta)
                && own_folder(meta, root, user)),
    decreases ancestors.len(),
{
    if ancestors.len() > 0 {
        let front = ancestors.drop_last();
        ancestors_are_own(front, root, user);
        assert forall|i: int| 0 <= i < front.len() implies #[trigger] front[i] == ancestors[i] by {}
        if ancestors_failure(ancestors, root, user) is None {
            assert forall|i: int| 0 <= i < ancestors.len() implies ((#[trigger] ancestors[i]).meta
                matches Ok(meta) && own_folder(meta, root, user)) by {
                if i < front.len() {
                    assert(front[i] == ancestors[i]);
                }
            }
        } else if forall|i: int|
            0 <= i < ancestors.len() ==> ((#[trigger] ancestors[i]).meta matches Ok(meta)
                && own_folder(meta, root, user)) {
            assert forall|i: int| 0 <= i < front.len() implies ((#[trigger] front[i]).meta matches Ok(
                meta,
            ) && own_folder(meta, root, user)) by {
                assert(front[i] == ancestors[i]);
            }
            assert(ancestors[ancestors.len() - 1].meta is Ok);
        }
    }
}

/// Metadata is accepted exactly where it lies in the root, everything on the way to it
/// was looked at, none of its names but `.git` is protected, every folder above it is
/// the user's own, and it is missing or the user's own too.
pub proof fn own_metadata_is_accepted(root: Root, facts: PathFacts, user: u32)
    ensures
        metadata_outcome(root, facts, user) is Ok <==> {
            &&& under(facts.path@, root.path@)
            &&& facts.whole(root)
            &&& forall|i: int|
                0 <= i < facts.names@.len() && (#[trigger] facts.names@[i]).excluded
                    ==> facts.names@[i].name@ == encode_utf8(".git"@)
            &&& parent_of(facts.path@) is Some
            &&& forall|i: int|
                0 <= i < facts.ancestors@.len() ==> ((#[trigger] facts.ancestors@[i]).meta matches Ok(
                    meta,
                ) && own_folder(meta, root, user))
            &&& (facts.entry matches Ok(entry) && (entry matches Some(meta) ==> own_folder(
                meta,
                root,
                user,
            ) || own_file(meta, root, user)))
        },
        metadata_outcome(root, facts, user) matches Ok(entry) ==> facts.entry == Ok::<
            Option<EntryMeta>,
            String,
        >(entry),
{
    reveal(metadata_outcome);
    ancestors_are_own(facts.ancestors@, root, user);
    if let Ok(Some(meta)) = facts.entry {
        kinds_of(meta);
    }
}

/// A path was observed, and is accepted as what it is.
pub open spec fn accepted(root: Root, seen: Observed, path: Seq<u8>, entry: Option<EntryMeta>) -> bool {
    seen.knows(path) && metadata_outcome(root, seen.of(path), seen.user) == Ok::<
        Option<EntryMeta>,
        Seq<char>,
    >(entry)
}

/// A folder of the user's own that was observed.
pub open spec fn has_folder(root: Root, seen: Observed, path: Seq<u8>, meta: EntryMeta) -> bool {
    accepted(root, seen, path, Some(meta)) && meta.identity.mode & 0o170000 == 0o040000
}

/// A file of the user's own that was read, and was the same before and after.
pub open spec fn has_file(
    root: Root,
    seen: Observed,
    path: Seq<u8>,
    meta: EntryMeta,
    bytes: Seq<u8>,
) -> bool {
    &&& accepted(root, seen, path, Some(meta))
    &&& meta.identity.mode & 0o170000 == 0o100000
    &&& seen.of(path).content matches Some(Ok(read)) && read.bytes@ == bytes && read.identity
        == meta.identity && read.after == Ok::<EntryMeta, String>(meta)
}

/// Folders are taken as they are, and files as they were read, up to the size allowed.
pub proof fn own_files_and_folders_are_read(
    root: Root,
    seen: Observed,
    path: Seq<u8>,
    meta: EntryMeta,
    bytes: Seq<u8>,
    required: bool,
    limit: u64,
)
    ensures
        has_folder(root, seen, path, meta) ==> folder_step(root, seen, path) == Got::<
            EntryMeta,
        >::Have(meta),
        has_file(root, seen, path, meta, bytes) && meta.identity.size <= limit ==> file_step(
            root,
            seen,
            path,
            required,
            limit,
        ) == Got::<Option<Seq<u8>>>::Have(Some(bytes)),
        has_file(root, seen, path, meta, bytes) && meta.identity.size > limit ==> file_step(
            root,
            seen,
            path,
            required,
            limit,
        ) is Fail,
        accepted(root, seen, path, None) ==> folder_step(root, seen, path) is Fail,
        accepted(root, seen, path, None) && !required ==> file_step(
            root,
            seen,
            path,
            required,
            limit,
        ) == Got::<Option<Seq<u8>>>::Have(None),
        accepted(root, seen, path, None) && required ==> file_step(
            root,
            seen,
            path,
            required,
            limit,
        ) is Fail,
        has_folder(root, seen, path, meta) ==> file_step(root, seen, path, required, limit) is Fail,
        !seen.knows(path) ==> folder_step(root, seen, path) == Got::<EntryMeta>::Need(
            path,
            Ask::Entry,
        ) && file_step(root, seen, path, required, limit) == Got::<Option<Seq<u8>>>::Need(
            path,
            Ask::Entry,
        ),
{
    kinds_of(meta);
}

/// A file that was read as another one, or that changed while it was read, is refused.
pub proof fn changed_files_are_refused(
    root: Root,
    seen: Observed,
    path: Seq<u8>,
    meta: EntryMeta,
    required: bool,
    limit: u64,
)
    requires
        accepted(root, seen, path, Some(meta)),
        seen.of(path).content matches Some(Ok(read)) && (read.identity != meta.identity
            || read.after is Err || read.after->Ok_0 != meta),
    ensures
        file_step(root, seen, path, required, limit) is Fail,
{
}

/// A repository with its metadata in the ordinary place is accepted: a folder `.git`
/// without a common directory of its own, a head, an index and settings that are
/// missing or can be relied on, and folders for objects and references.
pub proof fn ordinary_repositories_are_accepted(
    root: Root,
    seen: Observed,
    tree: Seq<u8>,
    marker: EntryMeta,
    head: EntryMeta,
    head_bytes: Seq<u8>,
    index: Option<(EntryMeta, Seq<u8>)>,
    config: Option<(EntryMeta, Seq<u8>)>,
    objects: EntryMeta,
    refs: EntryMeta,
)
    requires
        has_folder(root, seen, named(tree, ".git"@), marker),
        accepted(root, seen, named(named(tree, ".git"@), "commondir"@), None),
        has_file(root, seen, named(named(tree, ".git"@), "HEAD"@), head, head_bytes),
        head.identity.size <= 4096,
        match index {
            None => accepted(root, seen, named(named(tree, ".git"@), "index"@), None),
            Some(pair) => has_file(
                root,
                seen,
                named(named(tree, ".git"@), "index"@),
                pair.0,
                pair.1,
            ) && pair.0.identity.size <= 4 * 1024 * 1024 && index_outcome(pair.1) is Ok,
        },
        match config {
            None => accepted(root, seen, named(named(tree, ".git"@), "config"@), None),
            Some(pair) => has_file(
                root,
                seen,
                named(named(tree, ".git"@), "config"@),
                pair.0,
                pair.1,
            ) && pair.0.identity.size <= 4 * 1024 * 1024 && config_outcome(pair.1) is Ok,
        },
        accepted(root, seen, named(named(tree, ".git"@), "config.worktree"@), None),
        has_folder(root, seen, named(named(tree, ".git"@), "objects"@), objects),
        has_folder(root, seen, named(named(tree, ".git"@), "refs"@), refs),
    ensures
        reading_step(root, seen, tree) == Got::<Layout>::Have(
            Layout {
                directory: named(tree, ".git"@),
                common: named(tree, ".git"@),
                linked: false,
            },
        ),
{
    reveal(reading_step);
    let at = named(tree, ".git"@);
    kinds_of(marker);
    kinds_of(head);
    kinds_of(objects);
    kinds_of(refs);
    let layout = Layout { directory: at, common: at, linked: false };
    assert(layout_step(root, seen, tree) == Got::<Layout>::Have(layout));
    own_files_and_folders_are_read(root, seen, named(at, "HEAD"@), head, head_bytes, true, 4096);
    if let Some(pair) = index {
        own_files_and_folders_are_read(
            root,
            seen,
            named(at, "index"@),
            pair.0,
            pair.1,
            false,
            4194304,
        );
    }
    if let Some(pair) = config {
        own_files_and_folders_are_read(
            root,
            seen,
            named(at, "config"@),
            pair.0,
            pair.1,
            false,
            4194304,
        );
    }
    two_folders(root, seen, named(at, "objects"@), named(at, "refs"@), objects, refs);
}

proof fn two_folders(
    root: Root,
    seen: Observed,
    a: Seq<u8>,
    b: Seq<u8>,
    first: EntryMeta,
    second: EntryMeta,
)
    requires
        has_folder(root, seen, a, first),
        has_folder(root, seen, b, second),
    ensures
        folders_step(root, seen, seq![a, b]) == Got::<()>::Have(()),
{
    kinds_of(first);
    kinds_of(second);
    reveal_with_fuel(folders_step, 3);
    assert(seq![a, b].skip(1) =~= seq![b]);
    assert(seq![b].skip(1) =~= Seq::<Seq<u8>>::empty());
    assert(folder_step(root, seen, a) == Got::<EntryMeta>::Have(first));
    assert(folder_step(root, seen, b) == Got::<EntryMeta>::Have(second));
}

/// The repository is refused where what the others rely on is missing: no head, no
/// folder for objects or for references; and where the index or the settings cannot be
/// relied on.
pub proof fn unreliable_repositories_are_refused(
    root: Root,
    seen: Observed,
    layout: Layout,
    meta: EntryMeta,
    bytes: Seq<u8>,
)
    ensures
        accepted(root, seen, named(layout.directory, "HEAD"@), None) ==> contents_step(
            root,
            seen,
            layout,
        ) is Fail,
        has_file(root, seen, named(layout.directory, "index"@), meta, bytes) && index_outcome(
            bytes,
        ) is Err ==> !(contents_step(root, seen, layout) is Have),
        has_file(root, seen, named(layout.common, "config"@), meta, bytes) && config_outcome(
            bytes,
        ) is Err ==> !(contents_step(root, seen, layout) is Have),
        has_file(root, seen, named(layout.directory, "config.worktree"@), meta, bytes)
            && config_outcome(bytes) is Err ==> !(contents_step(root, seen, layout) is Have),
        accepted(root, seen, named(layout.common, "objects"@), None) ==> !(contents_step(
            root,
            seen,
            layout,
        ) is Have),
        accepted(root, seen, named(layout.common, "refs"@), None) ==> !(contents_step(
            root,
            seen,
            layout,
        ) is Have),
        layout.linked && accepted(root, seen, named(layout.directory, "index"@), None) ==> !(
        contents_step(root, seen, layout) is Have),
{
    kinds_of(meta);
    let a = named(layout.common, "objects"@);
    let b = named(layout.common, "refs"@);
    reveal_with_fuel(folders_step, 3);
    assert(seq![a, b].skip(1) =~= seq![b]);
    assert(seq![a, b][0] == a && seq![b][0] == b);
}

/// The marker of a linked worktree leads to a folder of the worktrees of a repository:
/// exactly where its pointer says, in a folder `worktrees` of a folder `.git`.
pub proof fn linked_worktrees_are_followed(
    root: Root,
    tree: Seq<u8>,
    pointer: Seq<u8>,
    directory: Seq<u8>,
    worktrees: Seq<u8>,
    common: Seq<u8>,
)
    requires
        pointer_outcome(root.path@, tree, pointer) == Ok::<Seq<u8>, Seq<char>>(directory),
        parent_of(directory) == Some(worktrees),
        parent_of(worktrees) == Some(common),
    ensures
        name_of(worktrees) == Some(encode_utf8("worktrees"@)) && name_of(common) == Some(
            encode_utf8(".git"@),
        ) ==> marker_target(root, tree, encode_utf8("gitdir: "@) + pointer) == Ok::<
            Layout,
            Seq<char>,
        >(Layout { directory, common, linked: true }),
        name_of(worktrees) != Some(encode_utf8("worktrees"@)) || name_of(common) != Some(
            encode_utf8(".git"@),
        ) ==> marker_target(root, tree, encode_utf8("gitdir: "@) + pointer) is Err,
{
    let head = encode_utf8("gitdir: "@);
    assert((head + pointer).take(head.len() as int) =~= head);
    assert((head + pointer).skip(head.len() as int) =~= pointer);
}

/// A linked worktree is accepted where it and its repository point at each other: the
/// worktree's folder names the repository, and the path that it names is the marker.
pub proof fn worktrees_that_agree_are_accepted(
    root: Root,
    seen: Observed,
    layout: Layout,
    marker: Seq<u8>,
    common: EntryMeta,
    common_bytes: Seq<u8>,
    back: EntryMeta,
    back_bytes: Seq<u8>,
    found: Seq<u8>,
    target: Seq<u8>,
)
    requires
        has_file(root, seen, named(layout.directory, "commondir"@), common, common_bytes),
        common.identity.size <= 4096,
        has_file(root, seen, named(layout.directory, "gitdir"@), back, back_bytes),
        back.identity.size <= 4096,
        back_bytes.len() > 0,
        pointer_outcome(root.path@, layout.directory, common_bytes) == Ok::<Seq<u8>, Seq<char>>(
            found,
        ),
        pointer_outcome(root.path@, layout.directory, back_bytes) == Ok::<Seq<u8>, Seq<char>>(
            target,
        ),
    ensures
        components(found) == components(layout.common) && back_bytes[0] == 47u8 && components(
            target,
        ) == components(marker) ==> linked_pointers(root, seen, layout, marker) == Got::<
            Layout,
        >::Have(layout),
        components(found) != components(layout.common) || back_bytes[0] != 47u8 || components(
            target,
        ) != components(marker) ==> linked_pointers(root, seen, layout, marker) is Fail,
{
    kinds_of(common);
    kinds_of(back);
}

/// What was saved is unchanged exactly where it is still missing, or still the same
/// file with the same bytes, or still the same folder.
pub proof fn the_same_metadata_is_unchanged(
    root: Root,
    now: Observed,
    saved: GitEvidenceEntry,
    meta: EntryMeta,
    bytes: Seq<u8>,
)
    ensures
        saved.metadata is None && saved.digest is None && accepted(root, now, saved.path@, None)
            ==> entry_unchanged(root, now, saved) == Got::<()>::Have(()),
        saved.metadata is None && accepted(root, now, saved.path@, Some(meta)) ==> entry_unchanged(
            root,
            now,
            saved,
        ) is Fail,
        saved.metadata is Some && accepted(root, now, saved.path@, None) ==> entry_unchanged(
            root,
            now,
            saved,
        ) is Fail,
        saved.metadata is Some && saved.metadata->Some_0.dir() && saved.digest is None && accepted(
            root,
            now,
            saved.path@,
            Some(meta),
        ) ==> (entry_unchanged(root, now, saved) is Have <==> meta.identity.device
            == saved.metadata->Some_0.identity.device && meta.identity.inode
            == saved.metadata->Some_0.identity.inode && meta.identity.mode
            == saved.metadata->Some_0.identity.mode),
        saved.metadata is Some && saved.metadata->Some_0.file() && saved.digest is Some && has_file(
            root,
            now,
            saved.path@,
            meta,
            bytes,
        ) ==> (entry_unchanged(root, now, saved) is Have <==> meta == saved.metadata->Some_0
            && blake3_digest(bytes) == saved.digest->Some_0@),
{
    kinds_of(meta);
    if let Some(before) = saved.metadata {
        kinds_of(before);
    }
}

/// Nothing changed exactly when no entry did.
pub proof fn nothing_changed_if_no_entry_did(
    root: Root,
    now: Observed,
    entries: Seq<GitEvidenceEntry>,
)
    ensures
        all_unchanged(root, now, entries) is Have <==> forall|i: int|
            0 <= i < entries.len() ==> entry_unchanged(root, now, #[trigger] entries[i]) is Have,
    decreases entries.len(),
{
    if entries.len() > 0 {
        let rest = entries.skip(1);
        nothing_changed_if_no_entry_did(root, now, rest);
        assert forall|i: int| 0 <= i < rest.len() implies #[trigger] rest[i] == entries[i + 1] by {}
        if all_unchanged(root, now, entries) is Have {
            assert forall|i: int| 0 <= i < entries.len() implies entry_unchanged(
                root,
                now,
                #[trigger] entries[i],
            ) is Have by {
                if i > 0 {
                    assert(rest[i - 1] == entries[i]);
                }
            }
        } else if forall|i: int|
            0 <= i < entries.len() ==> entry_unchanged(root, now, #[trigger] entries[i]) is Have {
            assert forall|i: int| 0 <= i < rest.len() implies entry_unchanged(
                root,
                now,
                #[trigger] rest[i],
            ) is Have by {
                assert(rest[i] == entries[i + 1]);
            }
            assert(entry_unchanged(root, now, entries[0]) is Have);
        }
    }
}

/// The repository of a project is the closest folder with a marker: the project's own
/// where it has one, else that of the folder above it.
pub proof fn the_closest_repository_counts(
    root: Root,
    folder: Seq<u8>,
    facts: Seq<MarkerFact>,
    i: int,
)
    requires
        0 <= i < facts.len(),
        facts[i].marker@ == named(folder, ".git"@),
        forall|j: int| 0 <= j < facts.len() && j != i ==> (#[trigger] facts[j]).marker@
            != named(folder, ".git"@),
    ensures
        facts[i].exists == Ok::<bool, String>(true) && under(folder, root.path@)
            ==> repository_step(root, folder, facts) == Got::<Option<Seq<u8>>>::Have(Some(folder)),
        facts[i].exists == Ok::<bool, String>(true) && !under(folder, root.path@)
            ==> repository_step(root, folder, facts) is Fail,
        facts[i].exists == Ok::<bool, String>(false) && parent_of(folder) is Some && parent_of(
            folder,
        )->Some_0.len() < folder.len() ==> repository_step(root, folder, facts)
            == repository_step(root, parent_of(folder)->Some_0, facts),
        facts[i].exists == Ok::<bool, String>(false) && parent_of(folder) is None
            ==> repository_step(root, folder, facts) == Got::<Option<Seq<u8>>>::Have(None),
        facts[i].exists matches Err(reason) ==> repository_step(root, folder, facts) == Got::<
            Option<Seq<u8>>,
        >::Fail(reason@),
{
    let marker = named(folder, ".git"@);
    assert(marker_at(facts, marker, i));
    let k = choose|k: int| #[trigger] marker_at(facts, marker, k);
    assert(marker_at(facts, marker, k));
    assert(k == i);
}

/// A marker that was not looked for is asked about before anything is decided.
pub proof fn unseen_markers_are_asked_for(root: Root, folder: Seq<u8>, facts: Seq<MarkerFact>)
    requires
        forall|j: int| 0 <= j < facts.len() ==> (#[trigger] facts[j]).marker@ != named(
            folder,
            ".git"@,
        ),
    ensures
        repository_step(root, folder, facts) == Got::<Option<Seq<u8>>>::Need(
            named(folder, ".git"@),
            Ask::Presence,
        ),
{
    let marker = named(folder, ".git"@);
    if exists|i: int| #[trigger] marker_at(facts, marker, i) {
        let i = choose|i: int| #[trigger] marker_at(facts, marker, i);
        assert(facts[i].marker@ == marker);
    }
}

/// The question asks for the artifact literally, in whatever letters, by what is left
/// of its path in the repository.
pub proof fn the_question_names_the_artifact(tree: Seq<u8>, artifact: Seq<u8>)
    requires
        under(artifact, tree),
        components(tree).len() > 0,
    ensures
        pathspec(tree, artifact).take(encode_utf8(":(literal,icase)"@).len() as int)
            == encode_utf8(":(literal,icase)"@),
        names(pathspec(tree, artifact).skip(encode_utf8(":(literal,icase)"@).len() as int))
            == components(artifact).skip(components(tree).len() as int),
{
    let head = encode_utf8(":(literal,icase)"@);
    what_is_left_of_a_path(artifact, tree);
    assert(pathspec(tree, artifact).take(head.len() as int) =~= head);
    assert(pathspec(tree, artifact).skip(head.len() as int) =~= relative_to(artifact, tree));
}

/// Nothing is refused exactly where nothing was cancelled, the process said nothing and
/// failed at nothing, and it is either done with an ended output or still within its
/// time.
pub proof fn a_silent_answer_is_taken(round: Round)
    ensures
        refusal(round) is None <==> {
            &&& !round.cancel
            &&& round.read is End || round.read is WouldBlock
            &&& (round.child is Succeeded && round.rest is End) || (round.child is Running
                && !round.expired)
        },
        !round.cancel && round.read is Bytes ==> refusal(round) == Some(
            "Git tracks content inside this artifact; cleanup is excluded"@,
        ),
        !round.cancel && (round.read is End || round.read is WouldBlock) && round.child is Succeeded
            && round.rest is Bytes ==> refusal(round) == Some(
            "Git tracks content inside this artifact; cleanup is excluded"@,
        ),
{
}

/// After a look at the output the rest of fifteen milliseconds is waited for, except
/// where the look already took the time: where nothing or the one output was ready, or
/// it lasted longer.
pub proof fn waits_last_fifteen_milliseconds(count: i32, events: i16, spent: u64)
    ensures
        wait_after((count, events, spent)) == if poll_settled(count, events) || spent > 15_000_000 {
            0
        } else {
            15_000_000 - spent
        },
        poll_settled(0, 0),
        poll_settled(1, 0x0001),
        poll_settled(1, 0x0010),
        poll_settled(1, 0x0011),
        count != 0 && count != 1 ==> !poll_settled(count, events),
        count == 0 && events != 0 ==> !poll_settled(count, events),
        count == 1 && events == 0 ==> !poll_settled(count, events),
{
    assert(1i16 & (1i16 | 16i16) != 0 && 1i16 & !(1i16 | 16i16) == 0) by (bit_vector);
    assert(16i16 & (1i16 | 16i16) != 0 && 16i16 & !(1i16 | 16i16) == 0) by (bit_vector);
    assert(17i16 & (1i16 | 16i16) != 0 && 17i16 & !(1i16 | 16i16) == 0) by (bit_vector);
    assert(0i16 & (1i16 | 16i16) == 0) by (bit_vector);
}

/// Everything that a repository is judged by is recorded, with its contents where it is
/// a file: what leads to it and what it holds.
pub proof fn what_was_relied_on_is_recorded(marker: Seq<u8>, layout: Layout)
    ensures
        evidence_paths(marker, layout).contains((named(layout.directory, "HEAD"@), true)),
        evidence_paths(marker, layout).contains((named(layout.directory, "index"@), true)),
        evidence_paths(marker, layout).contains((named(layout.common, "config"@), true)),
        evidence_paths(marker, layout).contains((named(layout.directory, "config.worktree"@), true)),
        evidence_paths(marker, layout).contains((named(layout.common, "objects"@), false)),
        evidence_paths(marker, layout).contains((named(layout.common, "refs"@), false)),
        layout.linked ==> {
            &&& evidence_paths(marker, layout).contains((marker, true))
            &&& evidence_paths(marker, layout).contains((layout.common, false))
            &&& evidence_paths(marker, layout).contains((layout.directory, false))
            &&& evidence_paths(marker, layout).contains(
                (named(layout.directory, "commondir"@), true),
            )
            &&& evidence_paths(marker, layout).contains((named(layout.directory, "gitdir"@), true))
        },
        !layout.linked ==> evidence_paths(marker, layout).contains((marker, false))
            && evidence_paths(marker, layout).contains((named(marker, "commondir"@), true)),
{
    let all = evidence_paths(marker, layout);
    let n = if layout.linked {
        6int
    } else {
        2int
    };
    assert(all[n] == (named(layout.directory, "HEAD"@), true));
    assert(all[n + 1] == (named(layout.directory, "index"@), true));
    assert(all[n + 2] == (named(layout.common, "config"@), true));
    assert(all[n + 3] == (named(layout.directory, "config.worktree"@), true));
    assert(all[n + 4] == (named(layout.common, "objects"@), false));
    assert(all[n + 5] == (named(layout.common, "refs"@), false));
    if layout.linked {
        assert(all[0] == (marker, true));
        assert(all[1] == (layout.common, false));
        assert(all[3] == (layout.directory, false));
        assert(all[4] == (named(layout.directory, "commondir"@), true));
        assert(all[5] == (named(layout.directory, "gitdir"@), true));
    } else {
        assert(all[0] == (marker, false));
        assert(all[1] == (named(marker, "commondir"@), true));
    }
}

/// Every folder between an entry and the root is one that has to be looked at: its
/// parent first, and then those above the parent.
pub proof fn every_folder_above_is_looked_at(path: Seq<u8>, root: Seq<u8>, above: Seq<u8>)
    requires
        parent_of(path) == Some(above),
    ensures
        under(above, root) ==> folders_above(path, root) == seq![above] + folders_above(
            above,
            root,
        ),
        !under(above, root) ==> folders_above(path, root).len() == 0,
{
    parent_parts(path);
}

/// What is known of a path is what was observed of it first; without an observation
/// nothing is known.
pub proof fn the_first_observation_counts(seen: crate::git::evidence::Observed, i: int)
    requires
        0 <= i < seen.facts@.len(),
        forall|j: int| 0 <= j < i ==> (#[trigger] seen.facts@[j]).path@ != seen.facts@[i].path@,
    ensures
        seen.knows(seen.facts@[i].path@),
        seen.of(seen.facts@[i].path@) == seen.facts@[i],
        forall|path: Seq<u8>|
            (forall|j: int| 0 <= j < seen.facts@.len() ==> (#[trigger] seen.facts@[j]).path@ != path)
                ==> !#[trigger] seen.knows(path),
{
    let path = seen.facts@[i].path@;
    assert(seen.facts_at(path, i));
    let k = choose|k: int| #[trigger] seen.facts_at(path, k);
    assert(seen.facts_at(path, k));
    assert(k == i);
}

} // verus!
