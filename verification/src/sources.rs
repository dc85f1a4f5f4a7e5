//! Evidence files: what was observed of them, the transcript that commits to
//! them, and a cache of their contents.
use crate::digest::{blake3_digest, digest_of, Digest};
use crate::model::{EntryMeta, Identity};
use crate::paths::{path_bytes, share, FsPath};
use crate::probe::{Ask, Got, Step};
use crate::tables::remove_unique;
use crate::text::same_bytes;
use std::sync::Arc;
use vstd::bytes::{spec_u64_to_le_bytes, u64_to_le_bytes};
use vstd::prelude::*;

verus! {

/// The bytes of a file, shared between those that look at them.
pub type Content = Arc<Vec<u8>>;

/// One safely captured evidence file.
pub struct EvidenceSource {
    pub bytes: Content,
    pub identity: Identity,
}

impl EvidenceSource {
    pub fn copy(&self) -> (r: EvidenceSource)
        ensures
            r == *self,
    {
        EvidenceSource { bytes: share(&self.bytes), identity: self.identity }
    }
}

/// What was observed of one path, as far as it was asked for.
pub struct SourceFact {
    pub path: FsPath,
    pub present: Option<Result<bool, String>>,
    pub regular: Option<Result<bool, String>>,
    pub content: Option<Result<EvidenceSource, String>>,
    pub owns: Option<Result<bool, String>>,
}

/// Everything that was observed.
pub struct Sources {
    pub facts: Vec<SourceFact>,
}

impl Sources {
    /// Whether the fact at `i` is the first one of a path.
    pub open spec fn fact_at(self, path: Seq<u8>, i: int) -> bool {
        &&& 0 <= i < self.facts@.len()
        &&& self.facts@[i].path@ == path
        &&& forall|j: int| 0 <= j < i ==> (#[trigger] self.facts@[j]).path@ != path
    }

    pub open spec fn knows(self, path: Seq<u8>) -> bool {
        exists|i: int| #[trigger] self.fact_at(path, i)
    }

    /// What was observed of a path.
    pub open spec fn of(self, path: Seq<u8>) -> SourceFact {
        self.facts@[choose|i: int| #[trigger] self.fact_at(path, i)]
    }

    pub fn find(&self, path: &[u8]) -> (r: Option<&SourceFact>)
        ensures
            match r {
                Some(fact) => self.knows(path@) && *fact == self.of(path@),
                None => !self.knows(path@),
            },
    {
        let mut i: usize = 0;
        while i < self.facts.len()
            invariant
                i <= self.facts.len(),
                forall|j: int| 0 <= j < i ==> (#[trigger] self.facts@[j]).path@ != path@,
            decreases self.facts.len() - i,
        {
            if same_bytes(path_bytes(&self.facts[i].path), path) {
                proof {
                    assert(self.fact_at(path@, i as int));
                    let c = choose|c: int| #[trigger] self.fact_at(path@, c);
                    if c < i {
                        assert(self.facts@[c].path@ != path@);
                    } else if i < c {
                        assert(self.facts@[i as int].path@ != path@);
                    }
                }
                return Some(&self.facts[i]);
            }
            i = i + 1;
        }
        None
    }

    /// Whether anything is at a path.
    pub open spec fn presence(self, path: Seq<u8>) -> Got<bool> {
        if !self.knows(path) || self.of(path).present is None {
            Got::Need(path, Ask::Presence)
        } else {
            match self.of(path).present->Some_0 {
                Err(reason) => Got::Fail(reason@),
                Ok(there) => Got::Have(there),
            }
        }
    }

    /// Whether a regular file is at a path, and no link to one.
    pub open spec fn regularity(self, path: Seq<u8>) -> Got<bool> {
        if !self.knows(path) || self.of(path).regular is None {
            Got::Need(path, Ask::Kind)
        } else {
            match self.of(path).regular->Some_0 {
                Err(reason) => Got::Fail(reason@),
                Ok(regular) => Got::Have(regular),
            }
        }
    }

    /// The file at a path.
    pub open spec fn capture(self, path: Seq<u8>) -> Got<EvidenceSource> {
        if !self.knows(path) || self.of(path).content is None {
            Got::Need(path, Ask::Content)
        } else {
            match self.of(path).content->Some_0 {
                Err(reason) => Got::Fail(reason@),
                Ok(source) => Got::Have(source),
            }
        }
    }

    /// Whether the lockfile at a path names the project.
    pub open spec fn ownership(self, path: Seq<u8>) -> Got<bool> {
        if !self.knows(path) || self.of(path).owns is None {
            Got::Need(path, Ask::Ownership)
        } else {
            match self.of(path).owns->Some_0 {
                Err(reason) => Got::Fail(reason@),
                Ok(owns) => Got::Have(owns),
            }
        }
    }

    pub fn path_exists(&self, path: &FsPath) -> (r: Step<bool>)
        ensures
            match self.presence(path@) {
                Got::Need(at, ask) => r matches Step::Need(p, a) && p@ == at && a == ask,
                Got::Fail(reason) => r matches Step::Fail(text) && text@ == reason,
                Got::Have(there) => r == Step::Have(there),
            },
    {
        match self.find(path_bytes(path)) {
            Some(fact) => match &fact.present {
                Some(Ok(there)) => Step::Have(*there),
                Some(Err(reason)) => Step::Fail(reason.clone()),
                None => Step::Need(share(path), Ask::Presence),
            },
            None => Step::Need(share(path), Ask::Presence),
        }
    }

    pub fn is_regular(&self, path: &FsPath) -> (r: Step<bool>)
        ensures
            match self.regularity(path@) {
                Got::Need(at, ask) => r matches Step::Need(p, a) && p@ == at && a == ask,
                Got::Fail(reason) => r matches Step::Fail(text) && text@ == reason,
                Got::Have(regular) => r == Step::Have(regular),
            },
    {
        match self.find(path_bytes(path)) {
            Some(fact) => match &fact.regular {
                Some(Ok(regular)) => Step::Have(*regular),
                Some(Err(reason)) => Step::Fail(reason.clone()),
                None => Step::Need(share(path), Ask::Kind),
            },
            None => Step::Need(share(path), Ask::Kind),
        }
    }

    pub fn read_source(&self, path: &FsPath) -> (r: Step<&EvidenceSource>)
        ensures
            match self.capture(path@) {
                Got::Need(at, ask) => r matches Step::Need(p, a) && p@ == at && a == ask,
                Got::Fail(reason) => r matches Step::Fail(text) && text@ == reason,
                Got::Have(source) => r matches Step::Have(got) && *got == source,
            },
    {
        match self.find(path_bytes(path)) {
            Some(fact) => match &fact.content {
                Some(Ok(source)) => Step::Have(source),
                Some(Err(reason)) => Step::Fail(reason.clone()),
                None => Step::Need(share(path), Ask::Content),
            },
            None => Step::Need(share(path), Ask::Content),
        }
    }

    pub fn lock_owns(&self, path: &FsPath) -> (r: Step<bool>)
        ensures
            match self.ownership(path@) {
                Got::Need(at, ask) => r matches Step::Need(p, a) && p@ == at && a == ask,
                Got::Fail(reason) => r matches Step::Fail(text) && text@ == reason,
                Got::Have(owns) => r == Step::Have(owns),
            },
    {
        match self.find(path_bytes(path)) {
            Some(fact) => match &fact.owns {
                Some(Ok(owns)) => Step::Have(*owns),
                Some(Err(reason)) => Step::Fail(reason.clone()),
                None => Step::Need(share(path), Ask::Ownership),
            },
            None => Step::Need(share(path), Ask::Ownership),
        }
    }
}

/// What evidence commits to so far, and how late the latest of it was changed.
pub struct Account {
    pub transcript: Seq<u8>,
    pub latest: int,
}

pub open spec fn later(a: int, b: int) -> int {
    if a < b {
        b
    } else {
        a
    }
}

/// The account with one more file: its path, the digest of its bytes, and what
/// identifies it.
pub open spec fn added(account: Account, path: Seq<u8>, source: EvidenceSource) -> Account {
    Account {
        transcript: account.transcript + path + blake3_digest(source.bytes@) + spec_u64_to_le_bytes(
            source.identity.device,
        ) + spec_u64_to_le_bytes(source.identity.inode) + spec_u64_to_le_bytes(
            source.identity.modified_ns as u64,
        ) + spec_u64_to_le_bytes(source.identity.changed_ns as u64),
        latest: later(account.latest, source.identity.modified_ns as int),
    }
}

/// The transcript and the latest change, while evidence is collected.
pub struct Tally {
    pub transcript: Vec<u8>,
    pub latest_modified_ns: i64,
}

impl Tally {
    pub open spec fn account(self) -> Account {
        Account { transcript: self.transcript@, latest: self.latest_modified_ns as int }
    }

    pub fn new() -> (r: Tally)
        ensures
            r.account() == (Account { transcript: seq![], latest: 0 }),
    {
        let r: Tally = Tally { transcript: Vec::new(), latest_modified_ns: 0 };
        assert(r.transcript@ =~= seq![]);
        r
    }

    pub fn add_bytes(&mut self, bytes: &[u8])
        ensures
            final(self).account() == (Account {
                transcript: old(self).account().transcript + bytes@,
                latest: old(self).account().latest,
            }),
    {
        let ghost before = self.transcript@;
        let mut more: Vec<u8> = vstd::slice::slice_to_vec(bytes);
        self.transcript.append(&mut more);
        assert(self.transcript@ =~= before + bytes@);
    }

    pub fn add_evidence(&mut self, path: &FsPath, source: &EvidenceSource)
        ensures
            final(self).account() == added(old(self).account(), path@, *source),
    {
        let ghost before = self.account();
        self.add_bytes(path_bytes(path));
        let digest: Digest = digest_of(source.bytes.as_slice());
        self.add_bytes(vstd::array::array_as_slice(&digest));
        let device: Vec<u8> = u64_to_le_bytes(source.identity.device);
        self.add_bytes(device.as_slice());
        let inode: Vec<u8> = u64_to_le_bytes(source.identity.inode);
        self.add_bytes(inode.as_slice());
        let modified: Vec<u8> = u64_to_le_bytes(source.identity.modified_ns as u64);
        self.add_bytes(modified.as_slice());
        let changed: Vec<u8> = u64_to_le_bytes(source.identity.changed_ns as u64);
        self.add_bytes(changed.as_slice());
        if source.identity.modified_ns > self.latest_modified_ns {
            self.latest_modified_ns = source.identity.modified_ns;
        }
        assert(self.account().transcript =~= added(before, path@, *source).transcript);
    }
}


pub const MAX_CONTENT_CACHE_ENTRIES: usize = 64;

pub const MAX_CONTENT_CACHE_BYTES: usize = 16 * 1024 * 1024;

/// A file as it was read, under the metadata that its path had right afterwards.
pub struct CachedContent {
    pub path: FsPath,
    pub meta: EntryMeta,
    pub source: EvidenceSource,
}

/// Session-scoped identity-keyed cache of evidence file contents. A hit requires
/// the complete current metadata of the path to equal the metadata captured
/// directly after the verified read. It never persists, and a cached answer never
/// feeds a mutation.
pub struct ContentCache {
    pub entries: Vec<CachedContent>,
    pub retained_bytes: usize,
}

/// How many bytes entries hold together.
pub open spec fn content_bytes(entries: Seq<CachedContent>) -> int
    decreases entries.len(),
{
    if entries.len() == 0 {
        0
    } else {
        content_bytes(entries.drop_last()) + entries.last().source.bytes@.len()
    }
}

proof fn content_bytes_remove(entries: Seq<CachedContent>, i: int)
    requires
        0 <= i < entries.len(),
    ensures
        content_bytes(entries) == content_bytes(entries.remove(i)) + entries[i].source.bytes@.len(),
        content_bytes(entries.remove(i)) >= 0,
    decreases entries.len(),
{
    if i == entries.len() - 1 {
        assert(entries.remove(i) =~= entries.drop_last());
        content_bytes_positive(entries.drop_last());
    } else {
        content_bytes_remove(entries.drop_last(), i);
        assert(entries.remove(i).drop_last() =~= entries.drop_last().remove(i));
        assert(entries.remove(i).last() == entries.last());
    }
}

proof fn content_bytes_positive(entries: Seq<CachedContent>)
    ensures
        content_bytes(entries) >= 0,
    decreases entries.len(),
{
    if entries.len() > 0 {
        content_bytes_positive(entries.drop_last());
    }
}

/// Where a path is cached.
pub open spec fn cached_at(entries: Seq<CachedContent>, path: Seq<u8>, i: int) -> bool {
    0 <= i < entries.len() && entries[i].path@ == path
}

/// The entries after one more was added: the oldest made room, and no more of
/// them than had to.
pub open spec fn admitted(
    before: Seq<CachedContent>,
    after: Seq<CachedContent>,
    row: CachedContent,
    dropped: int,
) -> bool {
    &&& 0 <= dropped <= before.len()
    &&& after == before.skip(dropped).push(row)
    &&& dropped > 0 ==> !ContentCache::has_room(
        before.skip(dropped - 1),
        row.source.bytes@.len() as int,
    )
}

impl ContentCache {
    pub open spec fn wf(self) -> bool {
        &&& self.entries@.len() <= MAX_CONTENT_CACHE_ENTRIES
        &&& self.retained_bytes == content_bytes(self.entries@)
        &&& self.retained_bytes <= MAX_CONTENT_CACHE_BYTES
        &&& crate::tables::unique(self.entries@, |e: CachedContent| e.path@)
    }

    /// Whether these entries leave room for one more of a size.
    pub open spec fn has_room(entries: Seq<CachedContent>, size: int) -> bool {
        entries.len() < MAX_CONTENT_CACHE_ENTRIES && content_bytes(entries) + size
            <= MAX_CONTENT_CACHE_BYTES
    }

    pub fn new() -> (r: ContentCache)
        ensures
            r.wf(),
            r.entries@.len() == 0,
    {
        ContentCache { entries: Vec::new(), retained_bytes: 0 }
    }

    fn position(&self, path: &[u8]) -> (r: Option<usize>)
        ensures
            match r {
                Some(i) => cached_at(self.entries@, path@, i as int),
                None => forall|i: int| !#[trigger] cached_at(self.entries@, path@, i),
            },
    {
        let mut i: usize = 0;
        while i < self.entries.len()
            invariant
                i <= self.entries.len(),
                forall|j: int| 0 <= j < i ==> !#[trigger] cached_at(self.entries@, path@, j),
            decreases self.entries.len() - i,
        {
            if same_bytes(path_bytes(&self.entries[i].path), path) {
                return Some(i);
            }
            i = i + 1;
        }
        None
    }

    /// The cached content of a path whose metadata is now `current`; `regular`
    /// tells whether such metadata can be evidence. A hit becomes the youngest
    /// entry, and an entry that no longer holds is dropped.
    pub fn lookup(
        &mut self,
        path: &FsPath,
        current: &Result<EntryMeta, String>,
        regular: bool,
    ) -> (r: Option<EvidenceSource>)
        requires
            old(self).wf(),
        ensures
            final(self).wf(),
            match r {
                Some(source) => exists|i: int|
                    {
                        &&& #[trigger] cached_at(old(self).entries@, path@, i)
                        &&& regular
                        &&& *current == Ok::<EntryMeta, String>(old(self).entries@[i].meta)
                        &&& source == old(self).entries@[i].source
                        &&& final(self).entries@ == old(self).entries@.remove(i).push(
                            old(self).entries@[i],
                        )
                    },
                None => {
                    ||| (forall|i: int| !#[trigger] cached_at(old(self).entries@, path@, i))
                        && *final(self) == *old(self)
                    ||| exists|i: int|
                        {
                            &&& #[trigger] cached_at(old(self).entries@, path@, i)
                            &&& !regular || *current != Ok::<EntryMeta, String>(
                                old(self).entries@[i].meta,
                            )
                            &&& final(self).entries@ == old(self).entries@.remove(i)
                        }
                },
            },
    {
        let ghost start = self.entries@;
        match self.position(path_bytes(path)) {
            None => {
                assert(forall|i: int| !#[trigger] cached_at(start, path@, i));
                None
            },
            Some(at) => {
                let holds: bool = regular && match current {
                    Ok(meta) => *meta == self.entries[at].meta,
                    Err(_) => false,
                };
                proof {
                    content_bytes_remove(start, at as int);
                    remove_unique(start, at as int, |e: CachedContent| e.path@);
                }
                let entry: CachedContent = self.entries.remove(at);
                let ghost left = self.entries@;
                assert(cached_at(start, path@, at as int));
                if holds {
                    let source: EvidenceSource = entry.source.copy();
                    let ghost moved = entry;
                    self.entries.push(entry);
                    proof {
                        assert(self.entries@.drop_last() =~= left);
                        assert forall|i: int| 0 <= i < left.len() implies (
                        #[trigger] left[i]).path@ != moved.path@ by {
                            if i < at {
                                assert(left[i] == start[i]);
                                assert(start[i].path@ != start[at as int].path@);
                            } else {
                                assert(left[i] == start[i + 1]);
                                assert(start[at as int].path@ != start[i + 1].path@);
                            }
                        }
                        crate::tables::push_unique(left, moved, |e: CachedContent| e.path@);
                    }
                    Some(source)
                } else {
                    self.retained_bytes = self.retained_bytes - entry.source.bytes.len();
                    None
                }
            },
        }
    }

    /// Remembers a file that was just read, if the metadata of its path after
    /// the read still identifies it. A file already changed again is not
    /// remembered. The oldest entries make room, and no more of them than have to.
    pub fn remember(
        &mut self,
        path: &FsPath,
        after: &Result<EntryMeta, String>,
        regular: bool,
        source: &EvidenceSource,
    )
        requires
            old(self).wf(),
            forall|i: int| !#[trigger] cached_at(old(self).entries@, path@, i),
        ensures
            final(self).wf(),
            if after is Ok && after->Ok_0.identity == source.identity && regular
                && source.bytes@.len() <= MAX_CONTENT_CACHE_BYTES {
                exists|dropped: int| #[trigger]
                    admitted(
                        old(self).entries@,
                        final(self).entries@,
                        CachedContent { path: *path, meta: after->Ok_0, source: *source },
                        dropped,
                    )
            } else {
                *final(self) == *old(self)
            },
    {
        let meta: EntryMeta = match after {
            Ok(meta) => *meta,
            Err(_) => {
                return ;
            },
        };
        let size: usize = source.bytes.len();
        if meta.identity != source.identity || !regular || size > MAX_CONTENT_CACHE_BYTES {
            return ;
        }
        let ghost start = self.entries@;
        let ghost mut dropped: int = 0;
        assert(start.skip(0) =~= start);
        while self.entries.len() > 0 && (self.entries.len() >= MAX_CONTENT_CACHE_ENTRIES
            || self.retained_bytes + size > MAX_CONTENT_CACHE_BYTES)
            invariant
                self.wf(),
                size <= MAX_CONTENT_CACHE_BYTES,
                0 <= dropped <= start.len(),
                self.entries@ == start.skip(dropped),
                dropped > 0 ==> !Self::has_room(start.skip(dropped - 1), size as int),
                size == source.bytes@.len(),
            decreases self.entries.len(),
        {
            let ghost before = self.entries@;
            proof {
                content_bytes_remove(before, 0);
                remove_unique(before, 0, |e: CachedContent| e.path@);
            }
            let evicted: CachedContent = self.entries.remove(0);
            self.retained_bytes = self.retained_bytes - evicted.source.bytes.len();
            proof {
                dropped = dropped + 1;
                assert(self.entries@ =~= start.skip(dropped));
            }
        }
        let ghost left = self.entries@;
        proof {
            if left.len() == 0 {
                assert(content_bytes(left) == 0);
            }
            assert forall|i: int| 0 <= i < left.len() implies (#[trigger] left[i]).path@
                != path@ by {
                assert(left[i] == start[dropped + i]);
                assert(!cached_at(start, path@, dropped + i));
            }
        }
        self.retained_bytes = self.retained_bytes + size;
        let row: CachedContent = CachedContent { path: share(path), meta, source: source.copy() };
        let ghost added = row;
        self.entries.push(row);
        proof {
            crate::tables::push_unique(left, added, |e: CachedContent| e.path@);
            assert(self.entries@.drop_last() =~= left);
            assert(admitted(start, self.entries@, added, dropped));
        }
    }
}

/// A hit gives back exactly what was remembered under the same metadata.
pub proof fn remembered_content_is_found(
    entries: Seq<CachedContent>,
    path: FsPath,
    meta: EntryMeta,
    source: EvidenceSource,
    i: int,
)
    requires
        crate::tables::unique(entries, |e: CachedContent| e.path@),
        entries.contains(CachedContent { path, meta, source }),
        cached_at(entries, path@, i),
    ensures
        entries[i].source == source,
        entries[i].meta == meta,
{
    let k = choose|k: int|
        0 <= k < entries.len() && entries[k] == (CachedContent { path, meta, source });
    if k < i {
        assert(entries[k].path@ != entries[i].path@);
    } else if i < k {
        assert(entries[i].path@ != entries[k].path@);
    }
}

} // verus!
