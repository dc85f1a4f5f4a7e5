//! The review of one artifact: what is held of it while it is measured, and what
//! comes of it.
use crate::evidence::{cutoff, path_view, text_view, Evidence, Found};
use crate::model::{Candidate, Entry, EntryMeta};
use crate::paths::{fs_path, parent, parent_of, path_bytes, same_place, share, FsPath};
use crate::sightings::{Sighting, Spot};
use crate::text::byte_len;
use vstd::prelude::*;
use vstd::slice::slice_to_vec;
use vstd::utf8::encode_utf8;

verus! {

/// How many bytes of scheduling data one measurement may hold.
pub const MAX_MEASUREMENT_JOB_BYTES: usize = 1024 * 1024;

/// How many entries a measurement meets before the next one has its turn.
pub const MEASUREMENT_QUANTUM_ENTRIES: usize = 256;

/// How long a measurement goes on before the next one has its turn.
pub const MEASUREMENT_QUANTUM_MS: u64 = 5;

/// Whether a measurement has had its share of a turn.
pub fn share_is_spent(entries: usize, elapsed_ms: u64) -> (r: bool)
    ensures
        r == (entries >= MEASUREMENT_QUANTUM_ENTRIES || elapsed_ms >= MEASUREMENT_QUANTUM_MS),
{
    entries >= MEASUREMENT_QUANTUM_ENTRIES || elapsed_ms >= MEASUREMENT_QUANTUM_MS
}

/// What is held of an artifact while it is measured.
pub struct ArtifactReview {
    pub entry: Entry,
    pub found: Evidence,
    pub candidate: Candidate,
    pub blocked: Option<String>,
    pub is_dir: bool,
    pub cutoff: i64,
    pub can_learn: bool,
    pub recent_leaf: Option<FsPath>,
}

/// The same, as a value to reason about.
#[verifier::ext_equal]
pub struct Review {
    pub entry: Spot,
    pub found: Found,
    pub candidate: Sighting,
    pub blocked: Option<Seq<char>>,
    pub is_dir: bool,
    pub cutoff: i64,
    pub can_learn: bool,
    pub recent_leaf: Option<Seq<u8>>,
}

impl View for ArtifactReview {
    type V = Review;

    open spec fn view(&self) -> Review {
        Review {
            entry: self.entry@,
            found: self.found@,
            candidate: self.candidate@,
            blocked: text_view(self.blocked),
            is_dir: self.is_dir,
            cutoff: self.cutoff,
            can_learn: self.can_learn,
            recent_leaf: path_view(self.recent_leaf),
        }
    }
}

/// How many bytes a text takes.
pub open spec fn text_bytes(text: Seq<char>) -> int {
    encode_utf8(text).len() as int
}

pub open spec fn optional_bytes(text: Option<Seq<char>>) -> int {
    match text {
        Some(text) => text_bytes(text),
        None => 0,
    }
}

pub open spec fn path_length(path: Option<Seq<u8>>) -> int {
    match path {
        Some(path) => path.len() as int,
        None => 0,
    }
}

impl Review {
    /// How many bytes of text and paths a review holds.
    pub open spec fn weight(self) -> int {
        self.entry.path.len() + text_bytes(self.candidate.id) + text_bytes(self.candidate.root_id)
            + self.candidate.path.len() + text_bytes(self.candidate.title) + text_bytes(
            self.candidate.kind,
        ) + text_bytes(self.candidate.explanation) + text_bytes(self.candidate.consequence)
            + text_bytes(self.candidate.fingerprint) + text_bytes(self.candidate.evidence)
            + optional_bytes(self.candidate.blocked_reason) + text_bytes(self.found.title)
            + text_bytes(self.found.fingerprint) + optional_bytes(self.blocked) + path_length(
            self.found.activity_root,
        ) + path_length(self.recent_leaf)
    }
}

/// The closest size that fits in a word.
pub open spec fn held_at_most(n: int) -> usize {
    if n > usize::MAX {
        usize::MAX
    } else {
        n as usize
    }
}

fn grow(total: usize, by: usize) -> (r: usize)
    ensures
        r == held_at_most(total + by),
{
    total.saturating_add(by)
}

fn text_size(text: &Option<String>) -> (r: usize)
    ensures
        r == optional_bytes(text_view(*text)),
{
    match text {
        Some(text) => byte_len(text.as_str()),
        None => 0,
    }
}

fn path_size(path: &Option<FsPath>) -> (r: usize)
    ensures
        r == path_length(path_view(*path)),
{
    match path {
        Some(path) => path.len(),
        None => 0,
    }
}

impl ArtifactReview {
    /// How many bytes of text and paths a review holds.
    pub fn retained_bytes(&self) -> (r: usize)
        ensures
            r == held_at_most(self@.weight()),
    {
        let candidate: &Candidate = &self.candidate;
        let mut total: usize = self.entry.path.len();
        total = grow(total, byte_len(candidate.id.as_str()));
        total = grow(total, byte_len(candidate.root_id.as_str()));
        total = grow(total, candidate.path.len());
        total = grow(total, byte_len(candidate.title.as_str()));
        total = grow(total, byte_len(candidate.kind.as_str()));
        total = grow(total, byte_len(candidate.explanation.as_str()));
        total = grow(total, byte_len(candidate.consequence.as_str()));
        total = grow(total, byte_len(candidate.fingerprint.as_str()));
        total = grow(total, byte_len(candidate.evidence.as_str()));
        total = grow(total, text_size(&candidate.blocked_reason));
        total = grow(total, byte_len(self.found.title.as_str()));
        total = grow(total, byte_len(self.found.fingerprint.as_str()));
        total = grow(total, text_size(&self.blocked));
        total = grow(total, path_size(&self.found.activity_root));
        grow(total, path_size(&self.recent_leaf))
    }
}

/// Whether metadata is that of a local file of the user, with one name, that was
/// changed after a moment.
pub open spec fn recent_local(meta: EntryMeta, device: u64, cutoff: int, user: u32) -> bool {
    meta.identity.modified_ns > cutoff && meta.file() && !meta.dataless() && meta.identity.device
        == device && meta.links == 1 && meta.uid == user
}

pub fn is_recent_local_file(meta: &EntryMeta, device: u64, cutoff: i64, user: u32) -> (r: bool)
    ensures
        r == recent_local(*meta, device, cutoff as int, user),
{
    meta.identity.modified_ns > cutoff && meta.is_file() && !meta.is_dataless()
        && meta.identity.device == device && meta.links == 1 && meta.uid == user
}

/// What the observation of a remembered file shows: when it was changed, if it is
/// recent. A failed or stale hint is only a miss.
pub fn recent_file_modified(
    observed: &Option<EntryMeta>,
    device: u64,
    cutoff: i64,
    user: u32,
) -> (r: Option<i64>)
    ensures
        r == match *observed {
            Some(meta) => if recent_local(meta, device, cutoff as int, user) {
                Some(meta.identity.modified_ns)
            } else {
                None
            },
            None => None,
        },
{
    match observed {
        Some(meta) => {
            if is_recent_local_file(meta, device, cutoff, user) {
                Some(meta.identity.modified_ns)
            } else {
                None
            }
        },
        None => None,
    }
}

/// Why an artifact that waited for its measurement can no longer be measured as
/// it was found.
pub open spec fn deferred_failure(
    expected: EntryMeta,
    found: Found,
    meta: Result<EntryMeta, Seq<char>>,
    current: Result<Option<Found>, Seq<char>>,
) -> Option<Seq<char>> {
    match meta {
        Err(reason) => Some(reason),
        Ok(meta) => if meta != expected {
            Some(
                "The artifact changed while waiting for metadata coverage; refresh this location"@,
            )
        } else {
            match current {
                Err(reason) => Some(reason),
                Ok(None) => Some(
                    "Project ownership changed while waiting for metadata coverage"@,
                ),
                Ok(Some(now)) => if now.fingerprint != found.fingerprint || now.blocked
                    != found.blocked || now.latest != found.latest || !same_way(
                    now.activity_root,
                    found.activity_root,
                ) {
                    Some(
                        "Project evidence changed while waiting for metadata coverage; refresh this location"@,
                    )
                } else {
                    None
                },
            }
        },
    }
}

/// An outcome with evidence, as a value to reason about.
pub open spec fn outcome_view(outcome: Result<Option<Evidence>, String>) -> Result<
    Option<Found>,
    Seq<char>,
> {
    match outcome {
        Err(reason) => Err(reason@),
        Ok(None) => Ok(None),
        Ok(Some(found)) => Ok(Some(found@)),
    }
}

pub open spec fn meta_view(outcome: Result<EntryMeta, String>) -> Result<EntryMeta, Seq<char>> {
    match outcome {
        Err(reason) => Err(reason@),
        Ok(meta) => Ok(meta),
    }
}

/// Whether two optional texts are the same.
pub fn same_reason(a: &Option<String>, b: &Option<String>) -> (r: bool)
    ensures
        r == (text_view(*a) == text_view(*b)),
{
    match (a, b) {
        (Some(a), Some(b)) => crate::text::same_text(a.as_str(), b.as_str()),
        (None, None) => true,
        _ => false,
    }
}

/// Whether two optional paths are the same, however they are spelled.
pub open spec fn same_way(a: Option<Seq<u8>>, b: Option<Seq<u8>>) -> bool {
    match (a, b) {
        (Some(a), Some(b)) => same_place(a, b),
        (None, None) => true,
        _ => false,
    }
}

/// Whether two optional paths are the same, however they are spelled.
pub fn is_same_way(a: &Option<FsPath>, b: &Option<FsPath>) -> (r: bool)
    ensures
        r == same_way(path_view(*a), path_view(*b)),
{
    match (a, b) {
        (Some(a), Some(b)) => crate::paths::is_same_place(
            crate::paths::path_bytes(a),
            crate::paths::path_bytes(b),
        ),
        (None, None) => true,
        _ => false,
    }
}

/// Whether an artifact that waited is still what it was.
pub fn verify_deferred_artifact(
    entry: &Entry,
    found: &Evidence,
    meta: &Result<EntryMeta, String>,
    current: &Result<Option<Evidence>, String>,
) -> (r: Result<(), String>)
    ensures
        match deferred_failure(entry.meta, found@, meta_view(*meta), outcome_view(*current)) {
            Some(reason) => crate::text::failed(r, reason),
            None => r is Ok,
        },
{
    match meta {
        Err(reason) => {
            return Err(reason.clone());
        },
        Ok(meta) => {
            if *meta != entry.meta {
                return crate::text::fail(
                    "The artifact changed while waiting for metadata coverage; refresh this location",
                );
            }
        },
    }
    match current {
        Err(reason) => Err(reason.clone()),
        Ok(None) => crate::text::fail(
            "Project ownership changed while waiting for metadata coverage",
        ),
        Ok(Some(now)) => {
            let same: bool = crate::text::same_text(
                now.fingerprint.as_str(),
                found.fingerprint.as_str(),
            ) && same_reason(&now.blocked, &found.blocked) && now.latest_modified_ns
                == found.latest_modified_ns && is_same_way(
                &now.activity_root,
                &found.activity_root,
            );
            if !same {
                return crate::text::fail(
                    "Project evidence changed while waiting for metadata coverage; refresh this location",
                );
            }
            Ok(())
        },
    }
}

/// The folder that holds an artifact.
pub open spec fn holder_of(path: Seq<u8>) -> Seq<u8> {
    match parent_of(path) {
        Some(above) => above,
        None => path,
    }
}

/// The project whose use stands against an artifact: the one that its evidence
/// names, and otherwise the folder that holds it.
pub open spec fn project_of(found: Found, path: Seq<u8>) -> Seq<u8> {
    match found.activity_root {
        Some(project) => project,
        None => holder_of(path),
    }
}

/// The folder whose repository is asked about an artifact.
pub fn holding_folder(path: &FsPath) -> (r: FsPath)
    ensures
        r@ == holder_of(path@),
{
    match parent(path_bytes(path)) {
        Some(above) => fs_path(slice_to_vec(above)),
        None => share(path),
    }
}

/// The project that the user's processes are asked about.
pub fn owning_project(found: &Evidence, path: &FsPath) -> (r: FsPath)
    ensures
        r@ == project_of(found@, path@),
{
    match &found.activity_root {
        Some(project) => share(project),
        None => holding_folder(path),
    }
}

} // verus!
