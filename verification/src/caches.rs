//! Read caches for one discovery traversal.
use crate::digest::{blake3_digest, digest_of, Digest};
use crate::document::json_document;
use crate::manifest::{
    manifest_outcome, membership_answer, workspaces_outcome, CachedManifestWorkspaces,
    ManifestWorkspaceCache,
};
use crate::pnpm::{lock_owns, texts};
use crate::pnpm_cache::{CachedPnpm, PnpmLockCache};
use crate::sources::{ContentCache, EvidenceSource, Sources};
use crate::workspace::{includes, includes_is, includes_outcome, outcome_is};
use vstd::prelude::*;

verus! {

/// Ownership facts and captured file contents, disposable together. They never
/// outlive their scan session.
pub struct EvidenceCaches {
    pub pnpm_locks: PnpmLockCache,
    pub manifest_workspaces: ManifestWorkspaceCache,
    pub contents: ContentCache,
}

/// Whether these bytes were captured.
pub open spec fn held(seen: Sources, bytes: Seq<u8>) -> bool {
    exists|i: int|
        0 <= i < seen.facts@.len() && ((#[trigger] seen.facts@[i]).content matches Some(
            Ok(source),
        ) && source.bytes@ == bytes)
}

/// Whether no two captured files share a digest without sharing their bytes.
pub open spec fn distinct(seen: Sources) -> bool {
    forall|a: Seq<u8>, b: Seq<u8>|
        #[trigger] held(seen, a) && #[trigger] held(seen, b) && blake3_digest(a) == blake3_digest(b)
            ==> a == b
}

/// What an ancestor's manifest says of a relative path.
pub open spec fn ancestor_member(bytes: Seq<u8>, relative: Seq<char>) -> Result<bool, Seq<char>> {
    match manifest_outcome(json_document(bytes)) {
        Err(reason) => Err(reason),
        Ok(manifest) => match workspaces_outcome(manifest) {
            Err(reason) => Err(reason),
            Ok(list) => includes(list, relative),
        },
    }
}

proof fn member_answer(bytes: Seq<u8>, relative: Seq<char>, r: Result<bool, String>)
    requires
        membership_answer(json_document(bytes), relative, r),
    ensures
        outcome_is(r, ancestor_member(bytes, relative)),
{
    match manifest_outcome(json_document(bytes)) {
        Err(_) => {},
        Ok(manifest) => match workspaces_outcome(manifest) {
            Err(_) => {},
            Ok(list) => {
                let patterns = choose|patterns: Seq<String>|
                    texts(patterns) == list && #[trigger] includes_outcome(patterns, relative, r);
                includes_is(patterns, list, relative, r);
            },
        },
    }
}

/// Whether entries were read from the captured bytes that share their digests.
pub open spec fn pnpm_agrees(entries: Seq<CachedPnpm>, seen: Sources) -> bool {
    forall|i: int, b: Seq<u8>|
        0 <= i < entries.len() && #[trigger] held(seen, b) && (#[trigger] entries[i]).digest@
            == blake3_digest(b) ==> entries[i].source@ == b
}

pub open spec fn manifests_agree(entries: Seq<CachedManifestWorkspaces>, seen: Sources) -> bool {
    forall|i: int, b: Seq<u8>|
        0 <= i < entries.len() && #[trigger] held(seen, b) && (#[trigger] entries[i]).digest@
            == blake3_digest(b) ==> entries[i].source@ == b
}

impl EvidenceCaches {
    pub open spec fn wf(self) -> bool {
        self.pnpm_locks.wf() && self.manifest_workspaces.wf() && self.contents.wf()
    }

    /// Whether nothing is ever kept.
    pub open spec fn off(self) -> bool {
        self.pnpm_locks.entry_limit == 0 && self.manifest_workspaces.entry_limit == 0
    }

    /// Whether answers from the caches are answers about the captured bytes:
    /// nothing is kept, or digests tell the bytes apart.
    pub open spec fn trusted(self, seen: Sources) -> bool {
        self.off() || (distinct(seen) && pnpm_agrees(self.pnpm_locks.entries@, seen)
            && manifests_agree(self.manifest_workspaces.entries@, seen))
    }

    pub fn new() -> (r: EvidenceCaches)
        ensures
            r.wf(),
            r.pnpm_locks.entries@.len() == 0,
            r.manifest_workspaces.entries@.len() == 0,
            r.contents.entries@.len() == 0,
    {
        EvidenceCaches {
            pnpm_locks: PnpmLockCache::new(),
            manifest_workspaces: ManifestWorkspaceCache::new(),
            contents: ContentCache::new(),
        }
    }

    /// Caches that keep nothing.
    pub fn none() -> (r: EvidenceCaches)
        ensures
            r.wf(),
            r.off(),
            r.contents.entries@.len() == 0,
    {
        EvidenceCaches {
            pnpm_locks: PnpmLockCache::with_limits(0, 0),
            manifest_workspaces: ManifestWorkspaceCache::with_limits(0, 0),
            contents: ContentCache::new(),
        }
    }

    /// Whether a captured lockfile names a relative path.
    pub(crate) fn pnpm_owns(
        &mut self,
        source: &EvidenceSource,
        relative: &str,
        Ghost(seen): Ghost<Sources>,
    ) -> (r: Result<bool, String>)
        requires
            old(self).wf(),
            held(seen, source.bytes@),
        ensures
            final(self).wf(),
            old(self).trusted(seen) ==> final(self).trusted(seen) && outcome_is(
                r,
                lock_owns(source.bytes@, relative@),
            ),
    {
        let digest: Digest = digest_of(source.bytes.as_slice());
        let ghost before = self.pnpm_locks;
        let r: Result<bool, String> = self.pnpm_locks.owns_captured(
            digest,
            source.bytes.as_slice(),
            relative,
            false,
        );
        proof {
            if old(self).trusted(seen) && !old(self).off() {
                let after = self.pnpm_locks;
                assert(before.undisputed(digest, source.bytes@));
                assert(pnpm_agrees(after.entries@, seen)) by {
                    if after == before {
                    } else if before.knows(digest) {
                        let i = choose|i: int|
                            before.entries@[i].digest@ == digest@ && #[trigger] before.refreshes(
                                &after,
                                i,
                            );
                        pnpm_refreshed(before.entries@, after.entries@, i, seen);
                    } else {
                        let dropped = choose|dropped: int| #[trigger]
                            before.admits(&after, digest, source.bytes@, dropped);
                        pnpm_admitted(
                            before.entries@,
                            after.entries@,
                            source.bytes@,
                            dropped,
                            seen,
                        );
                    }
                }
            }
        }
        r
    }

    /// Whether a captured ancestor manifest declares a relative path a member.
    pub(crate) fn manifest_member(
        &mut self,
        source: &EvidenceSource,
        relative: &str,
        Ghost(seen): Ghost<Sources>,
    ) -> (r: Result<bool, String>)
        requires
            old(self).wf(),
            held(seen, source.bytes@),
        ensures
            final(self).wf(),
            old(self).trusted(seen) ==> final(self).trusted(seen) && outcome_is(
                r,
                ancestor_member(source.bytes@, relative@),
            ),
    {
        let digest: Digest = digest_of(source.bytes.as_slice());
        let ghost before = self.manifest_workspaces;
        let r: Result<bool, String> = self.manifest_workspaces.includes_captured(
            digest,
            source.bytes.as_slice(),
            relative,
            false,
        );
        proof {
            if old(self).trusted(seen) {
                let after = self.manifest_workspaces;
                assert(before.undisputed(digest, source.bytes@));
                member_answer(source.bytes@, relative@, r);
                if !old(self).off() {
                    assert(manifests_agree(after.entries@, seen)) by {
                        if after == before {
                        } else if before.knows(digest) {
                            let i = choose|i: int|
                                before.entries@[i].digest@ == digest@
                                    && #[trigger] before.refreshes(&after, i);
                            manifest_refreshed(before.entries@, after.entries@, i, seen);
                        } else {
                            let (patterns, dropped) = choose|
                                patterns: Seq<Seq<char>>,
                                dropped: int,
                            | #[trigger]
                                before.admits(&after, digest, source.bytes@, patterns, dropped);
                            manifest_admitted(
                                before.entries@,
                                after.entries@,
                                source.bytes@,
                                dropped,
                                seen,
                            );
                        }
                    }
                }
            }
        }
        r
    }
}

proof fn pnpm_refreshed(
    before: Seq<CachedPnpm>,
    after: Seq<CachedPnpm>,
    at: int,
    seen: Sources,
)
    requires
        pnpm_agrees(before, seen),
        0 <= at < before.len(),
        after == before.remove(at).push(before[at]),
    ensures
        pnpm_agrees(after, seen),
{
    assert forall|i: int, b: Seq<u8>|
        0 <= i < after.len() && #[trigger] held(seen, b) && (#[trigger] after[i]).digest@
            == blake3_digest(b) implies after[i].source@ == b by {
        if i == after.len() - 1 {
            assert(after[i] == before[at]);
        } else if i < at {
            assert(after[i] == before[i]);
        } else {
            assert(after[i] == before[i + 1]);
        }
    }
}

proof fn pnpm_admitted(
    before: Seq<CachedPnpm>,
    after: Seq<CachedPnpm>,
    source: Seq<u8>,
    dropped: int,
    seen: Sources,
)
    requires
        pnpm_agrees(before, seen),
        distinct(seen),
        held(seen, source),
        0 <= dropped <= before.len(),
        after.len() == before.len() - dropped + 1,
        after.drop_last() == before.skip(dropped),
        after.last().digest@ == blake3_digest(source),
        after.last().source@ == source,
    ensures
        pnpm_agrees(after, seen),
{
    assert forall|i: int, b: Seq<u8>|
        0 <= i < after.len() && #[trigger] held(seen, b) && (#[trigger] after[i]).digest@
            == blake3_digest(b) implies after[i].source@ == b by {
        if i < after.len() - 1 {
            assert(after[i] == after.drop_last()[i]);
            assert(after[i] == before[dropped + i]);
        }
    }
}

proof fn manifest_refreshed(
    before: Seq<CachedManifestWorkspaces>,
    after: Seq<CachedManifestWorkspaces>,
    at: int,
    seen: Sources,
)
    requires
        manifests_agree(before, seen),
        0 <= at < before.len(),
        after == before.remove(at).push(before[at]),
    ensures
        manifests_agree(after, seen),
{
    assert forall|i: int, b: Seq<u8>|
        0 <= i < after.len() && #[trigger] held(seen, b) && (#[trigger] after[i]).digest@
            == blake3_digest(b) implies after[i].source@ == b by {
        if i == after.len() - 1 {
            assert(after[i] == before[at]);
        } else if i < at {
            assert(after[i] == before[i]);
        } else {
            assert(after[i] == before[i + 1]);
        }
    }
}

proof fn manifest_admitted(
    before: Seq<CachedManifestWorkspaces>,
    after: Seq<CachedManifestWorkspaces>,
    source: Seq<u8>,
    dropped: int,
    seen: Sources,
)
    requires
        manifests_agree(before, seen),
        distinct(seen),
        held(seen, source),
        0 <= dropped <= before.len(),
        after.len() == before.len() - dropped + 1,
        after.drop_last() == before.skip(dropped),
        after.last().digest@ == blake3_digest(source),
        after.last().source@ == source,
    ensures
        manifests_agree(after, seen),
{
    assert forall|i: int, b: Seq<u8>|
        0 <= i < after.len() && #[trigger] held(seen, b) && (#[trigger] after[i]).digest@
            == blake3_digest(b) implies after[i].source@ == b by {
        if i < after.len() - 1 {
            assert(after[i] == after.drop_last()[i]);
            assert(after[i] == before[dropped + i]);
        }
    }
}

} // verus!
