//! Findings while they are made: from the first sight of an artifact to its
//! measurement.
use crate::digest::{blake3_digest, digest_of, hex, hex_text};
use crate::evidence::{text_view, Evidence, Found, Measurement};
use crate::model::{
    capped, count, Candidate, Entry, EntryMeta, Identity, Root, ScanBatch, ScanStats,
};
use crate::paths::{path_bytes, share, FsPath};
use crate::sources::later;
use crate::text::{chars_of, text_of};
use std::collections::HashSet;
use vstd::prelude::*;
use vstd::slice::{slice_subrange, slice_to_vec};
use vstd::utf8::encode_utf8;

verus! {

/// A finding, as a value to reason about.
#[verifier::ext_equal]
pub struct Sighting {
    pub id: Seq<char>,
    pub root_id: Seq<char>,
    pub path: Seq<u8>,
    pub title: Seq<char>,
    pub kind: Seq<char>,
    pub logical_bytes: u64,
    pub allocated_bytes: u64,
    pub file_count: u64,
    pub modified_ns: i64,
    pub explanation: Seq<char>,
    pub consequence: Seq<char>,
    pub eligible_permanent: bool,
    pub suggestion_eligible: bool,
    pub provisional: bool,
    pub blocked_reason: Option<Seq<char>>,
    pub identity: Identity,
    pub fingerprint: Seq<char>,
    pub evidence: Seq<char>,
}

impl View for Candidate {
    type V = Sighting;

    open spec fn view(&self) -> Sighting {
        Sighting {
            id: self.id@,
            root_id: self.root_id@,
            path: self.path@,
            title: self.title@,
            kind: self.kind@,
            logical_bytes: self.logical_bytes,
            allocated_bytes: self.allocated_bytes,
            file_count: self.file_count,
            modified_ns: self.modified_ns,
            explanation: self.explanation@,
            consequence: self.consequence@,
            eligible_permanent: self.eligible_permanent,
            suggestion_eligible: self.suggestion_eligible,
            provisional: self.provisional,
            blocked_reason: text_view(self.blocked_reason),
            identity: self.identity,
            fingerprint: self.fingerprint@,
            evidence: self.evidence@,
        }
    }
}

/// The counters of a scan, as a value to reason about.
#[verifier::ext_equal]
pub struct Counters {
    pub entries: u64,
    pub files: u64,
    pub directories: u64,
    pub skipped: u64,
    pub metadata_skipped: u64,
    pub errors: u64,
    pub excluded_artifacts: u64,
    pub candidates: u64,
    pub logical_bytes: u64,
    pub allocated_bytes: u64,
    pub elapsed_ms: u64,
    pub first_finding_ms: Option<u64>,
    pub complete: bool,
    pub cancelled: bool,
    pub message: Seq<char>,
}

impl View for ScanStats {
    type V = Counters;

    open spec fn view(&self) -> Counters {
        Counters {
            entries: self.entries,
            files: self.files,
            directories: self.directories,
            skipped: self.skipped,
            metadata_skipped: self.metadata_skipped,
            errors: self.errors,
            excluded_artifacts: self.excluded_artifacts,
            candidates: self.candidates,
            logical_bytes: self.logical_bytes,
            allocated_bytes: self.allocated_bytes,
            elapsed_ms: self.elapsed_ms,
            first_finding_ms: self.first_finding_ms,
            complete: self.complete,
            cancelled: self.cancelled,
            message: self.message@,
        }
    }
}

/// Nothing counted yet.
pub open spec fn no_counts() -> Counters {
    Counters {
        entries: 0,
        files: 0,
        directories: 0,
        skipped: 0,
        metadata_skipped: 0,
        errors: 0,
        excluded_artifacts: 0,
        candidates: 0,
        logical_bytes: 0,
        allocated_bytes: 0,
        elapsed_ms: 0,
        first_finding_ms: None,
        complete: false,
        cancelled: false,
        message: seq![],
    }
}

impl Counters {
    pub open spec fn skip(self) -> Counters {
        Counters { skipped: capped(self.skipped + 1), ..self }
    }

    pub open spec fn err(self) -> Counters {
        Counters { errors: capped(self.errors + 1), ..self }
    }

    pub open spec fn exclude(self) -> Counters {
        Counters { excluded_artifacts: capped(self.excluded_artifacts + 1), ..self }
    }

    pub open spec fn at(self, elapsed_ms: u64) -> Counters {
        Counters { elapsed_ms, ..self }
    }

    pub open spec fn cancel(self) -> Counters {
        Counters { cancelled: true, ..self }
    }
}

impl ScanStats {
    pub(crate) fn add_skipped(&mut self)
        ensures
            final(self)@ == old(self)@.skip(),
    {
        count(&mut self.skipped, 1);
    }

    pub(crate) fn add_error(&mut self)
        ensures
            final(self)@ == old(self)@.err(),
    {
        count(&mut self.errors, 1);
    }

    pub(crate) fn add_excluded(&mut self)
        ensures
            final(self)@ == old(self)@.exclude(),
    {
        count(&mut self.excluded_artifacts, 1);
    }
}

/// A batch, as a value to reason about.
#[verifier::ext_equal]
pub struct Bulletin {
    pub candidates: Seq<Sighting>,
    pub stats: Counters,
}

/// Findings, as values to reason about.
pub open spec fn sightings(candidates: Seq<Candidate>) -> Seq<Sighting> {
    candidates.map_values(|c: Candidate| c@)
}

impl View for ScanBatch {
    type V = Bulletin;

    open spec fn view(&self) -> Bulletin {
        Bulletin { candidates: sightings(self.candidates@), stats: self.stats@ }
    }
}

/// An entry, as a value to reason about.
#[verifier::ext_equal]
pub struct Spot {
    pub path: Seq<u8>,
    pub meta: EntryMeta,
}

impl View for Entry {
    type V = Spot;

    open spec fn view(&self) -> Spot {
        Spot { path: self.path@, meta: self.meta }
    }
}

impl Entry {
    pub fn copy(&self) -> (r: Entry)
        ensures
            r == *self,
    {
        Entry { path: share(&self.path), meta: self.meta }
    }
}

/// The name of a finding: it depends on the grant and the path alone.
pub open spec fn finding_id(root_id: Seq<char>, path: Seq<u8>) -> Seq<char> {
    hex(blake3_digest(encode_utf8(root_id) + path)).take(24)
}

fn name_finding(root_id: &str, path: &FsPath) -> (r: String)
    ensures
        r@ == finding_id(root_id@, path@),
{
    let mut bytes: Vec<u8> = slice_to_vec(root_id.as_bytes());
    let mut rest: Vec<u8> = slice_to_vec(path_bytes(path));
    bytes.append(&mut rest);
    assert(bytes@ =~= encode_utf8(root_id@) + path@);
    let whole: String = hex_text(&digest_of(bytes.as_slice()));
    let letters: Vec<char> = chars_of(whole.as_str());
    let front: &[char] = slice_subrange(letters.as_slice(), 0, 24);
    assert(front@ =~= whole@.take(24));
    text_of(front)
}

/// What is said of a finding before it is measured.
pub open spec fn waiting_reason() -> Seq<char> {
    "Measuring and checking this item; cleanup is not yet available"@
}

/// A finding at first sight: nothing of it is measured, and it cannot be cleaned.
pub open spec fn first_sight(root_id: Seq<char>, path: Seq<u8>, meta: EntryMeta, found: Found) -> Sighting {
    Sighting {
        id: finding_id(root_id, path),
        root_id,
        path,
        title: found.title,
        kind: found.kind,
        logical_bytes: 0,
        allocated_bytes: 0,
        file_count: 0,
        modified_ns: later(meta.identity.modified_ns as int, found.latest) as i64,
        explanation: found.explanation,
        consequence: found.consequence,
        eligible_permanent: false,
        suggestion_eligible: false,
        provisional: true,
        blocked_reason: Some(waiting_reason()),
        identity: meta.identity,
        fingerprint: seq![],
        evidence: found.fingerprint,
    }
}

/// The later of two moments.
pub fn later_of(a: i64, b: i64) -> (r: i64)
    ensures
        r == later(a as int, b as int),
{
    if a < b {
        b
    } else {
        a
    }
}

/// A finding at first sight.
pub fn make_candidate(root: &Root, path: &FsPath, meta: &EntryMeta, found: &Evidence) -> (r: Candidate)
    ensures
        r@ == first_sight(root.id@, path@, *meta, found@),
{
    let blank: String = String::new();
    assert(blank@ =~= seq![]);
    Candidate {
        id: name_finding(root.id.as_str(), path),
        root_id: root.id.clone(),
        path: share(path),
        title: found.title.clone(),
        kind: found.kind.clone(),
        logical_bytes: 0,
        allocated_bytes: 0,
        file_count: 0,
        modified_ns: later_of(meta.identity.modified_ns, found.latest_modified_ns),
        explanation: found.explanation.clone(),
        consequence: found.consequence.clone(),
        eligible_permanent: false,
        suggestion_eligible: false,
        provisional: true,
        blocked_reason: Some(
            "Measuring and checking this item; cleanup is not yet available".to_owned(),
        ),
        identity: meta.identity,
        fingerprint: blank,
        evidence: found.fingerprint.clone(),
    }
}

/// A finding with what was measured of it.
pub open spec fn measured_sight(candidate: Sighting, measured: Measurement) -> Sighting {
    Sighting {
        logical_bytes: measured.logical_bytes,
        allocated_bytes: measured.allocated_bytes,
        file_count: measured.files,
        modified_ns: later(
            candidate.modified_ns as int,
            measured.latest_modified_ns as int,
        ) as i64,
        fingerprint: measured.fingerprint@,
        ..candidate
    }
}

/// Enters what was measured.
pub fn apply_measurement(candidate: &mut Candidate, measured: &Measurement)
    ensures
        final(candidate)@ == measured_sight(old(candidate)@, *measured),
{
    candidate.logical_bytes = measured.logical_bytes;
    candidate.allocated_bytes = measured.allocated_bytes;
    candidate.file_count = measured.files;
    candidate.modified_ns = later_of(candidate.modified_ns, measured.latest_modified_ns);
    candidate.fingerprint = measured.fingerprint.clone();
}

/// A finding keeps its name: it depends on the grant and the path alone.
pub proof fn ids_depend_on_grant_and_path(
    root_id: Seq<char>,
    path: Seq<u8>,
    meta: EntryMeta,
    other: EntryMeta,
    found: Found,
    again: Found,
)
    ensures
        first_sight(root_id, path, meta, found).id == first_sight(root_id, path, other, again).id,
{
}

/// Which files with several names were counted already. Only so many are told
/// apart; a file beyond that gets no credit for its size.
pub struct Hardlinks {
    pub seen: HashSet<u128>,
    pub limit: usize,
    pub full: bool,
}

/// The same, as a value to reason about.
#[verifier::ext_equal]
pub struct LinkState {
    pub seen: Set<u128>,
    pub limit: usize,
    pub full: bool,
}

impl View for Hardlinks {
    type V = LinkState;

    open spec fn view(&self) -> LinkState {
        LinkState { seen: self.seen@, limit: self.limit, full: self.full }
    }
}

/// A file by its device and its number there.
pub open spec fn link_key(identity: Identity) -> u128 {
    (identity.device * 0x1_0000_0000_0000_0000 + identity.inode) as u128
}

impl LinkState {
    /// Whether a file is counted now: it has no other name, or none of its names
    /// came before and there is room to remember it.
    pub open spec fn counts(self, meta: EntryMeta) -> bool {
        meta.links <= 1 || (!self.seen.contains(link_key(meta.identity)) && self.seen.len()
            < self.limit)
    }

    pub open spec fn after(self, meta: EntryMeta) -> LinkState {
        if meta.links <= 1 || self.seen.contains(link_key(meta.identity)) {
            self
        } else if self.seen.len() < self.limit {
            LinkState { seen: self.seen.insert(link_key(meta.identity)), ..self }
        } else {
            LinkState { full: true, ..self }
        }
    }
}

impl Hardlinks {
    pub fn new(limit: usize) -> (r: Hardlinks)
        ensures
            r@ == (LinkState { seen: Set::empty(), limit, full: false }),
    {
        let r: Hardlinks = Hardlinks { seen: HashSet::new(), limit, full: false };
        assert(r@.seen =~= Set::empty());
        r
    }

    /// Whether a file is counted now.
    pub fn first(&mut self, meta: &EntryMeta) -> (r: bool)
        ensures
            r == old(self)@.counts(*meta),
            final(self)@ == old(self)@.after(*meta),
    {
        broadcast use vstd::std_specs::hash::group_hash_axioms;

        if meta.links <= 1 {
            return true;
        }
        let key: u128 = meta.identity.device as u128 * 0x1_0000_0000_0000_0000
            + meta.identity.inode as u128;
        if self.seen.contains(&key) {
            return false;
        }
        if self.seen.len() < self.limit {
            let ghost before = self@;
            self.seen.insert(key);
            assert(self@ =~= before.after(*meta));
            true
        } else {
            self.full = true;
            false
        }
    }

    /// Whether some file could not be told apart.
    pub fn saturated(&self) -> (r: bool)
        ensures
            r == self@.full,
    {
        self.full
    }
}

/// Different files have different keys.
pub proof fn link_keys_differ(a: Identity, b: Identity)
    ensures
        link_key(a) == link_key(b) ==> a.device == b.device && a.inode == b.inode,
{
}

/// The counters after an entry was met.
pub open spec fn tallied(stats: Counters, links: LinkState, meta: EntryMeta, device: u64) -> Counters {
    let met = Counters { entries: capped(stats.entries + 1), ..stats };
    if meta.identity.device != device || meta.dataless() {
        met
    } else if meta.dir() {
        Counters { directories: capped(met.directories + 1), ..met }
    } else if meta.file() {
        if links.counts(meta) {
            Counters {
                files: capped(met.files + 1),
                logical_bytes: capped(met.logical_bytes + meta.identity.size),
                allocated_bytes: capped(met.allocated_bytes + meta.allocated),
                ..met
            }
        } else {
            Counters { files: capped(met.files + 1), ..met }
        }
    } else {
        met
    }
}

/// The files that were counted, after an entry was met.
pub open spec fn linked(links: LinkState, meta: EntryMeta, device: u64) -> LinkState {
    if meta.identity.device == device && !meta.dataless() && meta.file() {
        links.after(meta)
    } else {
        links
    }
}

/// Counts an entry. A file with several names is counted once; what lies on
/// another device, or is not stored locally, adds nothing to the sizes.
pub fn tally(stats: &mut ScanStats, links: &mut Hardlinks, meta: &EntryMeta, device: u64)
    ensures
        final(stats)@ == tallied(old(stats)@, old(links)@, *meta, device),
        final(links)@ == linked(old(links)@, *meta, device),
{
    count(&mut stats.entries, 1);
    if meta.identity.device != device || meta.is_dataless() {
        return ;
    }
    if meta.is_dir() {
        count(&mut stats.directories, 1);
        return ;
    }
    if meta.is_file() {
        count(&mut stats.files, 1);
        if links.first(meta) {
            count(&mut stats.logical_bytes, meta.identity.size);
            count(&mut stats.allocated_bytes, meta.allocated);
        }
    }
}

/// Meeting the same file again under another name adds nothing to the sizes.
pub proof fn a_file_counts_once(
    stats: Counters,
    links: LinkState,
    first: EntryMeta,
    again: EntryMeta,
    device: u64,
)
    requires
        first.file() && first.links > 1 && first.identity.device == device && !first.dataless(),
        again.links > 1,
        again.identity.device == first.identity.device,
        again.identity.inode == first.identity.inode,
    ensures
        tallied(stats, linked(links, first, device), again, device).logical_bytes
            == stats.logical_bytes,
        tallied(stats, linked(links, first, device), again, device).allocated_bytes
            == stats.allocated_bytes,
{
    let after = linked(links, first, device);
    if !links.seen.contains(link_key(first.identity)) && links.seen.len() >= links.limit {
        assert(after.seen == links.seen);
    }
    assert(!after.counts(again));
}

} // verus!
