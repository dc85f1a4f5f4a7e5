//! What a package manifest says of its project and its workspace.
use crate::digest::{blake3_digest, digest_of, same_digest, Digest};
use crate::document::{json_document, parse_json, Doc, Document};
use crate::pnpm::texts;
use crate::text::{byte_len, chars_of, fail, failed, trim, trimmed};
use crate::workspace::{includes_outcome, workspace_includes};
use vstd::prelude::*;
use vstd::utf8::encode_utf8;

verus! {

/// Whether a manifest identifies a project: a name, a dependency table, or a
/// workspace declaration.
pub open spec fn identifies_project(manifest: Doc) -> bool {
    ||| manifest.field("name"@) matches Some(Doc::Text(name)) && trim(name).len() > 0
    ||| manifest.has_table("dependencies"@)
    ||| manifest.has_table("devDependencies"@)
    ||| manifest.has_table("optionalDependencies"@)
    ||| manifest.field("workspaces"@) matches Some(found) && (found is List || found is Table)
}

/// What the bytes of a manifest say.
pub open spec fn manifest_outcome(parsed: Option<Doc>) -> Result<Doc, Seq<char>> {
    match parsed {
        None => Err("package.json is not valid JSON"@),
        Some(manifest) => if !(manifest is Table) {
            Err("package.json is not an object"@)
        } else if !identifies_project(manifest) {
            Err("The package manifest does not identify a project"@)
        } else {
            Ok(manifest)
        },
    }
}

/// Whether an outcome is the document, or the failure, that a specification names.
pub open spec fn document_outcome(r: Result<Document, String>, expected: Result<Doc, Seq<char>>) -> bool {
    match expected {
        Ok(manifest) => r matches Ok(got) && got@ == manifest,
        Err(reason) => failed(r, reason),
    }
}

fn table_at(manifest: &Document, key: &str) -> (r: bool)
    ensures
        r == manifest@.has_table(key@),
{
    match manifest.field(key) {
        Some(found) => found.is_table(),
        None => false,
    }
}

/// Accepts a parsed manifest that identifies a project.
pub fn checked_manifest(parsed: Option<Document>) -> (r: Result<Document, String>)
    ensures
        document_outcome(
            r,
            manifest_outcome(
                match parsed {
                    Some(document) => Some(document@),
                    None => None,
                },
            ),
        ),
{
    let manifest: Document = match parsed {
        Some(manifest) => manifest,
        None => {
            return fail("package.json is not valid JSON");
        },
    };
    if !manifest.is_table() {
        return fail("package.json is not an object");
    }
    let named: bool = match manifest.field("name") {
        Some(found) => match found.as_text() {
            Some(name) => trimmed(chars_of(name).as_slice()).len() > 0,
            None => false,
        },
        None => false,
    };
    let workspace: bool = match manifest.field("workspaces") {
        Some(found) => found.is_list() || found.is_table(),
        None => false,
    };
    if named || table_at(&manifest, "dependencies") || table_at(&manifest, "devDependencies")
        || table_at(&manifest, "optionalDependencies") || workspace {
        Ok(manifest)
    } else {
        fail("The package manifest does not identify a project")
    }
}

/// Reads a package manifest.
pub fn node_manifest(bytes: &[u8]) -> (r: Result<Document, String>)
    ensures
        document_outcome(r, manifest_outcome(json_document(bytes@))),
{
    checked_manifest(parse_json(bytes))
}

/// The texts of a list, if it holds nothing else.
pub open spec fn all_texts(items: Seq<Doc>) -> Option<Seq<Seq<char>>>
    decreases items.len(),
{
    if items.len() == 0 {
        Some(seq![])
    } else {
        match (all_texts(items.drop_last()), items.last()) {
            (Some(front), Doc::Text(text)) => Some(front.push(text)),
            _ => None,
        }
    }
}

/// The list of workspace members: the declaration itself, or its `packages`.
pub open spec fn member_list(workspaces: Doc) -> Option<Seq<Doc>> {
    match workspaces {
        Doc::List(items) => Some(items),
        _ => match workspaces.field("packages"@) {
            Some(Doc::List(items)) => Some(items),
            _ => None,
        },
    }
}

/// The workspace patterns that a manifest declares.
pub open spec fn workspaces_outcome(manifest: Doc) -> Result<Seq<Seq<char>>, Seq<char>> {
    match manifest.field("workspaces"@) {
        None => Ok(seq![]),
        Some(workspaces) => match member_list(workspaces) {
            None => Err("Workspace membership is not a supported list"@),
            Some(items) => match all_texts(items) {
                None => Err("Workspace membership is not a list of paths"@),
                Some(list) => Ok(list),
            },
        },
    }
}

/// Whether an outcome is the list of texts, or the failure, that a specification names.
pub open spec fn list_outcome(
    r: Result<Vec<String>, String>,
    expected: Result<Seq<Seq<char>>, Seq<char>>,
) -> bool {
    match expected {
        Ok(list) => r matches Ok(got) && texts(got@) == list,
        Err(reason) => failed(r, reason),
    }
}

proof fn texts_prefix(items: Seq<Doc>, n: int)
    requires
        0 <= n <= items.len(),
        all_texts(items.take(n)) is None,
    ensures
        all_texts(items) is None,
    decreases items.len(),
{
    if n < items.len() {
        assert(items.drop_last().take(n) =~= items.take(n));
        texts_prefix(items.drop_last(), n);
    } else {
        assert(items.take(n) =~= items);
    }
}

fn list_of_texts(items: &Vec<Document>, Ghost(docs): Ghost<Seq<Doc>>) -> (r: Option<Vec<String>>)
    requires
        docs.len() == items@.len(),
        forall|i: int| 0 <= i < docs.len() ==> #[trigger] docs[i] == items@[i]@,
    ensures
        match r {
            Some(list) => all_texts(docs) == Some(texts(list@)),
            None => all_texts(docs) is None,
        },
{
    let mut out: Vec<String> = Vec::new();
    let mut i: usize = 0;
    proof {
        assert(texts(out@) =~= seq![]);
    }
    while i < items.len()
        invariant
            i <= items.len(),
            docs.len() == items@.len(),
            forall|j: int| 0 <= j < docs.len() ==> #[trigger] docs[j] == items@[j]@,
            all_texts(docs.take(i as int)) == Some(texts(out@)),
        decreases items.len() - i,
    {
        proof {
            assert(docs.take(i + 1).drop_last() =~= docs.take(i as int));
            assert(docs.take(i + 1).last() == docs[i as int]);
        }
        match items[i].as_text() {
            Some(text) => {
                let ghost before = texts(out@);
                out.push(text.to_owned());
                assert(texts(out@) =~= before.push(text@));
            },
            None => {
                proof {
                    assert(all_texts(docs.take(i + 1)) is None);
                    texts_prefix(docs, i + 1);
                }
                return None;
            },
        }
        i = i + 1;
    }
    assert(docs.take(i as int) =~= docs);
    Some(out)
}

/// Reads the workspace patterns that a manifest declares.
pub fn manifest_workspaces(manifest: &Document) -> (r: Result<Vec<String>, String>)
    ensures
        list_outcome(r, workspaces_outcome(manifest@)),
{
    let workspaces: &Document = match manifest.field("workspaces") {
        Some(found) => found,
        None => {
            let none: Vec<String> = Vec::new();
            assert(texts(none@) =~= seq![]);
            return Ok(none);
        },
    };
    let listed: Option<Vec<String>> = match workspaces {
        Document::List(items) => list_of_texts(items, Ghost(workspaces@->List_0)),
        _ => match workspaces.field("packages") {
            Some(packages) => match packages {
                Document::List(items) => list_of_texts(items, Ghost(packages@->List_0)),
                _ => {
                    return fail("Workspace membership is not a supported list");
                },
            },
            None => {
                return fail("Workspace membership is not a supported list");
            },
        },
    };
    match listed {
        Some(list) => Ok(list),
        None => fail("Workspace membership is not a list of paths"),
    }
}

/// Whether `r` is what a manifest says of a relative path: the failure of its
/// reading, of its declaration or of its patterns, in this order, or whether
/// the declared patterns include the path.
pub open spec fn membership_answer(
    parsed: Option<Doc>,
    relative: Seq<char>,
    r: Result<bool, String>,
) -> bool {
    match manifest_outcome(parsed) {
        Err(reason) => failed(r, reason),
        Ok(manifest) => match workspaces_outcome(manifest) {
            Err(reason) => failed(r, reason),
            Ok(list) => exists|patterns: Seq<String>|
                texts(patterns) == list && #[trigger] includes_outcome(patterns, relative, r),
        },
    }
}

/// Whether a manifest declares exactly these workspace patterns.
pub open spec fn declares(parsed: Option<Doc>, patterns: Seq<String>) -> bool {
    manifest_outcome(parsed) matches Ok(manifest) && workspaces_outcome(manifest) == Ok::<
        Seq<Seq<char>>,
        Seq<char>,
    >(texts(patterns))
}

/// Reads a manifest and asks its patterns, without any cache.
pub fn evaluate(bytes: &[u8], relative: &str) -> (r: Result<(Vec<String>, bool), String>)
    ensures
        r matches Ok(pair) ==> declares(json_document(bytes@), pair.0@),
        membership_answer(
            json_document(bytes@),
            relative@,
            match r {
                Ok(pair) => Ok(pair.1),
                Err(reason) => Err(reason),
            },
        ),
{
    let manifest: Document = match node_manifest(bytes) {
        Ok(manifest) => manifest,
        Err(reason) => {
            return Err(reason);
        },
    };
    let patterns: Vec<String> = match manifest_workspaces(&manifest) {
        Ok(patterns) => patterns,
        Err(reason) => {
            return Err(reason);
        },
    };
    let outcome: Result<bool, String> = workspace_includes(patterns.as_slice(), relative);
    assert(includes_outcome(patterns@, relative@, outcome));
    match outcome {
        Ok(included) => Ok((patterns, included)),
        Err(reason) => Err(reason),
    }
}

pub const MAX_MANIFEST_CACHE_ENTRIES: usize = 8;

pub const MAX_MANIFEST_CACHE_BYTES: usize = 1024 * 1024;

pub const MIN_MANIFEST_CACHE_BYTES: usize = 8 * 1024;

/// What one retained entry slot is charged.
pub const MANIFEST_ENTRY_BYTES: usize = 56;

/// What one retained pattern slot is charged.
pub const PATTERN_SLOT_BYTES: usize = 24;

/// The workspace patterns of a manifest, kept under the digest of its bytes.
pub struct CachedManifestWorkspaces {
    pub digest: Digest,
    pub patterns: Vec<String>,
    pub source: Ghost<Seq<u8>>,
}

/// The bytes that the patterns take, with their slots.
pub open spec fn patterns_weight(patterns: Seq<String>) -> int
    decreases patterns.len(),
{
    if patterns.len() == 0 {
        0
    } else {
        patterns_weight(patterns.drop_last()) + PATTERN_SLOT_BYTES + encode_utf8(
            patterns.last()@,
        ).len()
    }
}

proof fn patterns_weight_prefix(patterns: Seq<String>, n: int)
    requires
        0 <= n <= patterns.len(),
    ensures
        0 <= patterns_weight(patterns.take(n)) <= patterns_weight(patterns),
    decreases patterns.len(),
{
    if n == patterns.len() {
        assert(patterns.take(n) =~= patterns);
        if n > 0 {
            patterns_weight_prefix(patterns.drop_last(), n - 1);
        }
    } else {
        patterns_weight_prefix(patterns.drop_last(), n);
        assert(patterns.drop_last().take(n) =~= patterns.take(n));
    }
}

impl CachedManifestWorkspaces {
    pub open spec fn weight(&self) -> int {
        patterns_weight(self.patterns@)
    }

    /// Whether the patterns are those of the bytes that the digest describes.
    pub open spec fn wf(&self) -> bool {
        &&& self.digest@ == blake3_digest(self.source@)
        &&& declares(json_document(self.source@), self.patterns@)
    }

    /// What the patterns are charged, where that fits.
    pub fn heap_bytes(&self) -> (r: Option<usize>)
        ensures
            match r {
                Some(bytes) => bytes == self.weight(),
                None => self.weight() > usize::MAX,
            },
    {
        patterns_bytes(&self.patterns)
    }
}

/// What the patterns are charged, where that fits.
fn patterns_bytes(patterns: &Vec<String>) -> (r: Option<usize>)
    ensures
        match r {
            Some(bytes) => bytes == patterns_weight(patterns@),
            None => patterns_weight(patterns@) > usize::MAX,
        },
{
    let mut total: usize = 0;
    let mut i: usize = 0;
    while i < patterns.len()
        invariant
            i <= patterns.len(),
            total == patterns_weight(patterns@.take(i as int)),
        decreases patterns.len() - i,
    {
        proof {
            assert(patterns@.take(i + 1).drop_last() =~= patterns@.take(i as int));
            assert(patterns@.take(i + 1).last() == patterns@[i as int]);
            patterns_weight_prefix(patterns@, i + 1);
        }
        let length: usize = byte_len(patterns[i].as_str());
        total = match total.checked_add(PATTERN_SLOT_BYTES) {
            Some(sum) => match sum.checked_add(length) {
                Some(sum) => sum,
                None => {
                    return None;
                },
            },
            None => {
                return None;
            },
        };
        i = i + 1;
    }
    assert(patterns@.take(i as int) =~= patterns@);
    Some(total)
}

/// Scan-local ancestor workspace lists, never local manifest names, identities,
/// membership answers or cleanup permission. The budget charges every entry
/// slot and all retained patterns.
pub struct ManifestWorkspaceCache {
    pub entries: Vec<CachedManifestWorkspaces>,
    pub entry_limit: usize,
    pub byte_limit: usize,
    pub retained_bytes: usize,
}

pub open spec fn manifest_weight(entries: Seq<CachedManifestWorkspaces>) -> int
    decreases entries.len(),
{
    if entries.len() == 0 {
        0
    } else {
        manifest_weight(entries.drop_last()) + entries.last().weight()
    }
}

proof fn manifest_weight_remove(entries: Seq<CachedManifestWorkspaces>, i: int)
    requires
        0 <= i < entries.len(),
    ensures
        manifest_weight(entries) == manifest_weight(entries.remove(i)) + entries[i].weight(),
        manifest_weight(entries.remove(i)) >= 0,
        entries[i].weight() >= 0,
    decreases entries.len(),
{
    patterns_weight_prefix(entries[i].patterns@, 0);
    if i == entries.len() - 1 {
        assert(entries.remove(i) =~= entries.drop_last());
        manifest_weight_positive(entries.drop_last());
    } else {
        manifest_weight_remove(entries.drop_last(), i);
        patterns_weight_prefix(entries.last().patterns@, 0);
        assert(entries.remove(i).drop_last() =~= entries.drop_last().remove(i));
        assert(entries.remove(i).last() == entries.last());
    }
}

proof fn manifest_weight_positive(entries: Seq<CachedManifestWorkspaces>)
    ensures
        manifest_weight(entries) >= 0,
    decreases entries.len(),
{
    if entries.len() > 0 {
        patterns_weight_prefix(entries.last().patterns@, 0);
        manifest_weight_positive(entries.drop_last());
    }
}

impl ManifestWorkspaceCache {
    pub open spec fn wf(&self) -> bool {
        &&& self.entries@.len() <= self.entry_limit <= MAX_MANIFEST_CACHE_ENTRIES
        &&& self.byte_limit <= MAX_MANIFEST_CACHE_BYTES
        &&& self.retained_bytes == self.entry_limit * MANIFEST_ENTRY_BYTES + manifest_weight(
            self.entries@,
        )
        &&& self.retained_bytes <= self.byte_limit
        &&& forall|i: int| 0 <= i < self.entries@.len() ==> (#[trigger] self.entries@[i]).wf()
    }

    /// The entry for a digest, if there is one, was read from these bytes.
    pub open spec fn undisputed(&self, digest: Digest, source: Seq<u8>) -> bool {
        forall|i: int|
            0 <= i < self.entries@.len() && (#[trigger] self.entries@[i]).digest@ == digest@
                ==> self.entries@[i].source@ == source
    }

    /// Whether some entry was kept under this digest.
    pub open spec fn knows(&self, digest: Digest) -> bool {
        exists|i: int|
            0 <= i < self.entries@.len() && (#[trigger] self.entries@[i]).digest@ == digest@
    }

    /// The cache after a list was read: it is added, unless it would not fit.
    pub open spec fn keeps(
        &self,
        after: &Self,
        digest: Digest,
        source: Seq<u8>,
        list: Seq<String>,
    ) -> bool {
        if patterns_weight(list) > self.byte_limit - self.entry_limit * MANIFEST_ENTRY_BYTES {
            *after == *self
        } else {
            exists|dropped: int| #[trigger]
                self.admits(after, digest, source, texts(list), dropped)
        }
    }

    /// The cache after a question about `source`: a failure and a small manifest
    /// change nothing, a known list becomes the youngest, and another one is kept
    /// where it fits.
    pub open spec fn served(
        &self,
        after: &Self,
        digest: Digest,
        source: Seq<u8>,
        answered: bool,
    ) -> bool {
        if !answered || source.len() < MIN_MANIFEST_CACHE_BYTES || self.entry_limit == 0 {
            *after == *self
        } else if self.knows(digest) {
            exists|i: int|
                self.entries@[i].digest@ == digest@ && #[trigger] self.refreshes(after, i)
        } else {
            exists|list: Seq<String>| #[trigger]
                declares(json_document(source), list) && self.keeps(after, digest, source, list)
        }
    }

    /// Whether these entries leave room for one more of the given weight.
    pub open spec fn has_room(&self, entries: Seq<CachedManifestWorkspaces>, heap: int) -> bool {
        &&& entries.len() < self.entry_limit
        &&& self.entry_limit * MANIFEST_ENTRY_BYTES + manifest_weight(entries) + heap
            <= self.byte_limit
    }

    /// The cache after one list was added: the oldest entries made room, and no
    /// more of them than had to.
    pub open spec fn admits(
        &self,
        after: &Self,
        digest: Digest,
        source: Seq<u8>,
        patterns: Seq<Seq<char>>,
        dropped: int,
    ) -> bool {
        &&& 0 <= dropped <= self.entries@.len()
        &&& after.entries@.len() == self.entries@.len() - dropped + 1
        &&& after.entries@.drop_last() == self.entries@.skip(dropped)
        &&& after.entries@.last().digest@ == digest@
        &&& after.entries@.last().source@ == source
        &&& texts(after.entries@.last().patterns@) == patterns
        &&& dropped > 0 ==> !self.has_room(
            self.entries@.skip(dropped - 1),
            after.entries@.last().weight(),
        )
    }

    /// The cache after the entry at `i` was used: it is now the youngest.
    pub open spec fn refreshes(&self, after: &Self, i: int) -> bool {
        &&& 0 <= i < self.entries@.len()
        &&& after.entries@ == self.entries@.remove(i).push(self.entries@[i])
    }

    pub fn new() -> (r: Self)
        ensures
            r.wf(),
            r.entries@.len() == 0,
            r.entry_limit == MAX_MANIFEST_CACHE_ENTRIES,
            r.byte_limit == MAX_MANIFEST_CACHE_BYTES,
    {
        Self::with_limits(MAX_MANIFEST_CACHE_ENTRIES, MAX_MANIFEST_CACHE_BYTES)
    }

    /// An empty cache; limits beyond the fixed ones are cut down to them, and
    /// no more slots are kept than the byte limit pays for.
    pub fn with_limits(entry_limit: usize, byte_limit: usize) -> (r: Self)
        ensures
            r.wf(),
            r.entries@.len() == 0,
            r.byte_limit == if byte_limit < MAX_MANIFEST_CACHE_BYTES {
                byte_limit
            } else {
                MAX_MANIFEST_CACHE_BYTES
            },
            r.entry_limit == if entry_limit < MAX_MANIFEST_CACHE_ENTRIES && entry_limit
                <= r.byte_limit as int / MANIFEST_ENTRY_BYTES as int {
                entry_limit as int
            } else if MAX_MANIFEST_CACHE_ENTRIES <= r.byte_limit as int
                / MANIFEST_ENTRY_BYTES as int {
                MAX_MANIFEST_CACHE_ENTRIES as int
            } else {
                r.byte_limit as int / MANIFEST_ENTRY_BYTES as int
            },
    {
        let bytes: usize = if byte_limit < MAX_MANIFEST_CACHE_BYTES {
            byte_limit
        } else {
            MAX_MANIFEST_CACHE_BYTES
        };
        let paid: usize = bytes / MANIFEST_ENTRY_BYTES;
        let wanted: usize = if entry_limit < MAX_MANIFEST_CACHE_ENTRIES {
            entry_limit
        } else {
            MAX_MANIFEST_CACHE_ENTRIES
        };
        let slots: usize = if wanted <= paid {
            wanted
        } else {
            paid
        };
        ManifestWorkspaceCache {
            entries: Vec::new(),
            entry_limit: slots,
            byte_limit: bytes,
            retained_bytes: slots * MANIFEST_ENTRY_BYTES,
        }
    }

    fn position(&self, digest: &Digest) -> (r: Option<usize>)
        ensures
            match r {
                Some(i) => i < self.entries@.len() && self.entries@[i as int].digest@ == digest@,
                None => !self.knows(*digest),
            },
    {
        let mut i: usize = 0;
        while i < self.entries.len()
            invariant
                i <= self.entries.len(),
                forall|j: int|
                    0 <= j < i ==> (#[trigger] self.entries@[j]).digest@ != digest@,
            decreases self.entries.len() - i,
        {
            if same_digest(&self.entries[i].digest, digest) {
                return Some(i);
            }
            i = i + 1;
        }
        None
    }

    /// Whether the captured ancestor manifest declares the relative path. The
    /// digest has to describe exactly these bytes. A stop request answers
    /// nothing; no failure is retained.
    pub fn includes_captured(
        &mut self,
        digest: Digest,
        bytes: &[u8],
        relative: &str,
        cancel: bool,
    ) -> (r: Result<bool, String>)
        requires
            old(self).wf(),
            digest@ == blake3_digest(bytes@),
        ensures
            final(self).wf(),
            final(self).entry_limit == old(self).entry_limit,
            final(self).byte_limit == old(self).byte_limit,
            cancel ==> failed(r, "Cancelled"@) && *final(self) == *old(self),
            !cancel && old(self).undisputed(digest, bytes@) ==> membership_answer(
                json_document(bytes@),
                relative@,
                r,
            ),
            !cancel ==> exists|source: Seq<u8>|
                (#[trigger] blake3_digest(source)) == blake3_digest(bytes@) && membership_answer(
                    json_document(source),
                    relative@,
                    r,
                ),
            old(self).served(final(self), digest, bytes@, r is Ok),
    {
        if cancel {
            return fail("Cancelled");
        }
        if self.entry_limit > 0 && bytes.len() >= MIN_MANIFEST_CACHE_BYTES {
            if let Some(index) = self.position(&digest) {
                assert(self.entries@[index as int].wf());
                let included: bool = match workspace_includes(
                    self.entries[index].patterns.as_slice(),
                    relative,
                ) {
                    Ok(included) => included,
                    Err(reason) => {
                        return Err(reason);
                    },
                };
                proof {
                    manifest_weight_remove(self.entries@, index as int);
                }
                let ghost before = self.entries@;
                let entry: CachedManifestWorkspaces = self.entries.remove(index);
                let ghost kept = self.entries@;
                self.entries.push(entry);
                proof {
                    assert(self.entries@.drop_last() =~= kept);
                    assert forall|i: int| 0 <= i < self.entries@.len() implies (
                    #[trigger] self.entries@[i]).wf() by {
                        if i < index {
                            assert(self.entries@[i] == before[i]);
                        } else if i < kept.len() {
                            assert(self.entries@[i] == before[i + 1]);
                        }
                    }
                    assert(old(self).refreshes(self, index as int));
                }
                return Ok(included);
            }
        }
        let parsed: Result<(Vec<String>, bool), String> = evaluate(bytes, relative);
        let ghost read = parsed;
        let r: Result<bool, String> = self.finish_miss(digest, bytes, parsed, cancel);
        proof {
            if r is Ok {
                assert(declares(json_document(bytes@), read->Ok_0.0@));
            }
        }
        r
    }

    /// As `includes_captured`, with the digest taken from the bytes here.
    pub fn includes(&mut self, bytes: &[u8], relative: &str, cancel: bool) -> (r: Result<
        bool,
        String,
    >)
        requires
            old(self).wf(),
        ensures
            final(self).wf(),
            final(self).entry_limit == old(self).entry_limit,
            final(self).byte_limit == old(self).byte_limit,
            cancel ==> failed(r, "Cancelled"@) && *final(self) == *old(self),
            !cancel ==> forall|digest: Digest|
                digest@ == blake3_digest(bytes@) && #[trigger] old(self).undisputed(digest, bytes@)
                    ==> membership_answer(json_document(bytes@), relative@, r),
            !cancel ==> exists|source: Seq<u8>|
                (#[trigger] blake3_digest(source)) == blake3_digest(bytes@) && membership_answer(
                    json_document(source),
                    relative@,
                    r,
                ),
            forall|digest: Digest|
                digest@ == blake3_digest(bytes@) ==> #[trigger] old(self).served(
                    final(self),
                    digest,
                    bytes@,
                    r is Ok,
                ),
    {
        let digest: Digest = digest_of(bytes);
        let r: Result<bool, String> = self.includes_captured(digest, bytes, relative, cancel);
        proof {
            assert forall|other: Digest| other@ == blake3_digest(bytes@) implies #[trigger] old(
                self,
            ).served(self, other, bytes@, r is Ok) by {
                assert(old(self).knows(other) == old(self).knows(digest));
                if r is Ok && bytes@.len() >= MIN_MANIFEST_CACHE_BYTES && old(self).entry_limit
                    > 0 {
                    if old(self).knows(other) {
                        let i = choose|i: int|
                            old(self).entries@[i].digest@ == digest@ && #[trigger] old(
                                self,
                            ).refreshes(self, i);
                        assert(old(self).refreshes(self, i));
                    } else {
                        let list = choose|list: Seq<String>| #[trigger]
                            declares(json_document(bytes@), list) && old(self).keeps(
                                self,
                                digest,
                                bytes@,
                                list,
                            );
                        assert(declares(json_document(bytes@), list));
                        if exists|dropped: int| #[trigger]
                            old(self).admits(self, digest, bytes@, texts(list), dropped) {
                            let dropped = choose|dropped: int| #[trigger]
                                old(self).admits(self, digest, bytes@, texts(list), dropped);
                            assert(old(self).admits(self, other, bytes@, texts(list), dropped));
                        }
                    }
                }
            }
        }
        r
    }

    /// Answers after an evaluation and keeps its list if it is worth keeping. A
    /// failure of the evaluation wins over a stop that was requested meanwhile;
    /// neither retains anything.
    pub fn finish_miss(
        &mut self,
        digest: Digest,
        bytes: &[u8],
        parsed: Result<(Vec<String>, bool), String>,
        cancel: bool,
    ) -> (r: Result<bool, String>)
        requires
            old(self).wf(),
            digest@ == blake3_digest(bytes@),
            parsed matches Ok(pair) ==> declares(json_document(bytes@), pair.0@),
        ensures
            final(self).wf(),
            final(self).entry_limit == old(self).entry_limit,
            final(self).byte_limit == old(self).byte_limit,
            match parsed {
                Err(reason) => r == Err::<bool, String>(reason),
                Ok(pair) => if cancel {
                    failed(r, "Cancelled"@)
                } else {
                    r == Ok::<bool, String>(pair.1)
                },
            },
            if cancel || parsed is Err || old(self).entry_limit == 0 || bytes@.len()
                < MIN_MANIFEST_CACHE_BYTES || patterns_weight(parsed->Ok_0.0@) > old(
                self,
            ).byte_limit - old(self).entry_limit * MANIFEST_ENTRY_BYTES {
                *final(self) == *old(self)
            } else {
                exists|dropped: int| #[trigger]
                    old(self).admits(final(self), digest, bytes@, texts(parsed->Ok_0.0@), dropped)
            },
    {
        let (patterns, included) = match parsed {
            Ok(pair) => pair,
            Err(reason) => {
                return Err(reason);
            },
        };
        if cancel {
            return fail("Cancelled");
        }
        if self.entry_limit == 0 || bytes.len() < MIN_MANIFEST_CACHE_BYTES {
            return Ok(included);
        }
        proof {
            manifest_weight_positive(self.entries@);
        }
        let slots: usize = self.entry_limit * MANIFEST_ENTRY_BYTES;
        let heap: usize = match patterns_bytes(&patterns) {
            Some(heap) => heap,
            None => {
                return Ok(included);
            },
        };
        if heap > self.byte_limit - slots {
            // Oversized valid lists answer without eviction.
            return Ok(included);
        }
        let ghost mut dropped: int = 0;
        assert(self.entries@.skip(0) =~= self.entries@);
        while self.entries.len() == self.entry_limit || heap > self.byte_limit
            - self.retained_bytes
            invariant
                self.wf(),
                self.entry_limit == old(self).entry_limit,
                self.byte_limit == old(self).byte_limit,
                self.entry_limit > 0,
                heap <= self.byte_limit - self.entry_limit * MANIFEST_ENTRY_BYTES,
                0 <= dropped <= old(self).entries@.len(),
                self.entries@ == old(self).entries@.skip(dropped),
                dropped > 0 ==> !old(self).has_room(
                    old(self).entries@.skip(dropped - 1),
                    heap as int,
                ),
            decreases self.entries.len(),
        {
            let ghost before = self.entries@;
            proof {
                if before.len() == 0 {
                    assert(manifest_weight(before) == 0);
                }
                manifest_weight_remove(before, 0);
                assert(before[0].wf());
            }
            let evicted: CachedManifestWorkspaces = self.entries.remove(0);
            match patterns_bytes(&evicted.patterns) {
                Some(freed) => {
                    self.retained_bytes = self.retained_bytes - freed;
                },
                None => {},
            }
            proof {
                dropped = dropped + 1;
                assert(self.entries@ =~= old(self).entries@.skip(dropped));
                assert forall|i: int| 0 <= i < self.entries@.len() implies (
                #[trigger] self.entries@[i]).wf() by {
                    assert(self.entries@[i] == before[i + 1]);
                }
            }
        }
        let ghost before = self.entries@;
        self.retained_bytes = self.retained_bytes + heap;
        self.entries.push(
            CachedManifestWorkspaces { digest, patterns, source: Ghost(bytes@) },
        );
        proof {
            assert(self.entries@.drop_last() =~= before);
            assert forall|i: int| 0 <= i < self.entries@.len() implies (
            #[trigger] self.entries@[i]).wf() by {
                if i < before.len() {
                    assert(self.entries@[i] == before[i]);
                }
            }
            assert(old(self).admits(self, digest, bytes@, texts(patterns@), dropped));
        }
        Ok(included)
    }
}

} // verus!
