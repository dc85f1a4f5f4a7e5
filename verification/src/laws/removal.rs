//! When a finding may be removed.
use crate::evidence::{Evidence, Found};
use crate::model::{EntryMeta, Root};
use crate::paths::{components, parent_of, under};
use crate::scanner::review::{deferred_failure, recent_local};
use crate::scanner::validate::{
    evidence_objection, first_nearer, later_objection, measurement_objection, nearer_so_far,
    ruling, Observations, Repository, Ruling,
};
use crate::sightings::Sighting;
use vstd::prelude::*;

verus! {

/// Two optional folders are the same place, or neither is there.
pub open spec fn same_project(a: Option<Seq<u8>>, b: Option<Seq<u8>>) -> bool {
    match (a, b) {
        (Some(a), Some(b)) => components(a) == components(b),
        (None, None) => true,
        _ => false,
    }
}

/// The evidence is what it was when the finding was reviewed, and allows what was
/// decided.
pub open spec fn evidence_stands(c: Sighting, found: Found) -> bool {
    &&& found.kind == c.kind
    &&& found.fingerprint == c.evidence
    &&& found.blocked is None
    &&& c.eligible_permanent ==> found.rules.permanent
}

/// The measurement is what it was, and still qualifies.
pub open spec fn measurement_stands(
    c: Sighting,
    found: Found,
    m: crate::evidence::Measurement,
    now_ns: i64,
) -> bool {
    &&& m.unsafe_reason is None
    &&& m.allocated_bytes >= found.rules.minimum_bytes
    &&& m.latest_modified_ns <= now_ns - found.quiet_days * 86_400_000_000_000
    &&& found.latest <= now_ns - found.quiet_days * 86_400_000_000_000
    &&& c.suggestion_eligible
    &&& m.fingerprint@ == c.fingerprint
    &&& m.logical_bytes == c.logical_bytes
    &&& m.allocated_bytes == c.allocated_bytes
    &&& m.files == c.file_count
}

/// The evidence that was taken again is what it was.
pub open spec fn evidence_repeats(found: Found, again: Found) -> bool {
    &&& again.kind == found.kind
    &&& again.fingerprint == found.fingerprint
    &&& again.blocked == found.blocked
    &&& same_project(again.activity_root, found.activity_root)
}

/// The repository is what it was: none is nearer and the known one is unchanged, or
/// there is still none.
pub open spec fn repository_stands(
    seen: Observations,
    known: Option<Repository>,
    checks_git: bool,
) -> bool {
    match known {
        Some(_) => seen.nearer == Some(Ok::<bool, String>(false)) && seen.unchanged == Some(
            Ok::<(), String>(()),
        ),
        None => checks_git ==> seen.git_again == Some(Ok::<bool, String>(false)),
    }
}

proof fn objections_are_exact(
    c: Sighting,
    found: Found,
    again: Found,
    m: crate::evidence::Measurement,
    now_ns: i64,
)
    requires
        i64::MIN <= found.quiet_days * 86_400_000_000_000 <= i64::MAX,
        i64::MIN <= now_ns - found.quiet_days * 86_400_000_000_000 <= i64::MAX,
    ensures
        evidence_objection(c, Some(found)) is None <==> evidence_stands(c, found),
        measurement_objection(c, found, m, now_ns) is None <==> measurement_stands(
            c,
            found,
            m,
            now_ns,
        ),
        later_objection(found, Some(again)) is None <==> evidence_repeats(found, again),
        evidence_objection(c, None) is Some,
        later_objection(found, None) is Some,
{
}

/// A finding may be removed exactly when everything that was looked at says so, before
/// it was measured and after: the location and its policy are valid, the finding lies
/// in it and nothing blocks it, the entry is the one that was found on the location's
/// volume, the evidence and the measurement stand, no process uses the project, and the
/// repository is as it was.
pub proof fn findings_are_removed_when_everything_stands(
    root: Root,
    c: Sighting,
    seen: Observations,
    now_ns: i64,
    found: Evidence,
    meta: EntryMeta,
    known: Option<Repository>,
    measured: crate::evidence::Measurement,
    meta_again: EntryMeta,
    again: Evidence,
)
    requires
        seen.root == Some(Ok::<(), String>(())),
        seen.policy == Some(Ok::<(), String>(())),
        seen.meta == Some(Ok::<EntryMeta, String>(meta)),
        seen.ancestors == Some(Ok::<(), String>(())),
        seen.evidence == Some(Ok::<Option<Evidence>, String>(Some(found))),
        found.rules.checks_git ==> seen.git == Some(Ok::<Option<Repository>, String>(known)),
        !found.rules.checks_git ==> known is None,
        seen.measured == Some(Ok::<crate::evidence::Measurement, String>(measured)),
        seen.root_again == Some(Ok::<(), String>(())),
        seen.meta_again == Some(Ok::<EntryMeta, String>(meta_again)),
        seen.ancestors_again == Some(Ok::<(), String>(())),
        seen.evidence_again == Some(Ok::<Option<Evidence>, String>(Some(again))),
        i64::MIN <= found.quiet_days * 86_400_000_000_000 <= i64::MAX,
        i64::MIN <= now_ns - found.quiet_days * 86_400_000_000_000 <= i64::MAX,
    ensures
        ruling(root, c, seen, now_ns, false) is Valid <==> {
            &&& c.root_id == root.id@
            &&& under(c.path, root.path@) && components(c.path) != components(root.path@)
            &&& c.blocked_reason is None
            &&& meta.identity == c.identity
            &&& meta.identity.device == root.identity.device
            &&& parent_of(c.path) is Some
            &&& evidence_stands(c, found@)
            &&& found.rules.checks_activity ==> seen.activity == Some(None::<String>)
            &&& measurement_stands(c, found@, measured, now_ns)
            &&& meta_again.identity == c.identity
            &&& meta_again.identity.device == root.identity.device
            &&& meta_again.flags & 0x4000_0000 == 0
            &&& evidence_repeats(found@, again@)
            &&& found.rules.checks_activity ==> seen.activity_again == Some(
                Ok::<Option<String>, String>(None),
            )
            &&& repository_stands(seen, known, found.rules.checks_git)
        },
        ruling(root, c, seen, now_ns, true) == Ruling::Refused("Cancelled"@),
{
    objections_are_exact(c, found@, again@, measured, now_ns);
}

/// A nearer repository was found exactly where one of the folders has a marker before
/// any could not be looked at; none is once every folder was looked at.
pub proof fn nearer_repositories_are_found(looked: Seq<Result<bool, String>>, folders: int, i: int)
    ensures
        looked.len() == folders && (forall|k: int|
            0 <= k < looked.len() ==> #[trigger] looked[k] == Ok::<bool, String>(false))
            ==> nearer_so_far(looked, folders, false) == Some(Ok::<bool, Seq<char>>(false)),
        looked.len() < folders && (forall|k: int|
            0 <= k < looked.len() ==> #[trigger] looked[k] == Ok::<bool, String>(false))
            ==> nearer_so_far(looked, folders, false) is None,
        0 <= i < looked.len() && looked[i] == Ok::<bool, String>(true) && (forall|k: int|
            0 <= k < i ==> #[trigger] looked[k] == Ok::<bool, String>(false)) ==> nearer_so_far(
            looked,
            folders,
            false,
        ) == Some(Ok::<bool, Seq<char>>(true)),
{
    if forall|k: int|
        0 <= k < looked.len() ==> #[trigger] looked[k] == Ok::<bool, String>(false) {
        none_nearer(looked);
    }
    if 0 <= i < looked.len() && looked[i] == Ok::<bool, String>(true) && (forall|k: int|
        0 <= k < i ==> #[trigger] looked[k] == Ok::<bool, String>(false)) {
        one_nearer(looked, i);
    }
}

proof fn none_nearer(looked: Seq<Result<bool, String>>)
    requires
        forall|k: int|
            0 <= k < looked.len() ==> #[trigger] looked[k] == Ok::<bool, String>(false),
    ensures
        first_nearer(looked) is None,
    decreases looked.len(),
{
    if looked.len() > 0 {
        let front = looked.drop_last();
        assert forall|k: int| 0 <= k < front.len() implies #[trigger] front[k] == Ok::<
            bool,
            String,
        >(false) by {
            assert(front[k] == looked[k]);
        }
        none_nearer(front);
        assert(looked[looked.len() - 1] == Ok::<bool, String>(false));
    }
}

proof fn one_nearer(looked: Seq<Result<bool, String>>, i: int)
    requires
        0 <= i < looked.len(),
        looked[i] == Ok::<bool, String>(true),
        forall|k: int| 0 <= k < i ==> #[trigger] looked[k] == Ok::<bool, String>(false),
    ensures
        first_nearer(looked) == Some(Ok::<bool, Seq<char>>(true)),
    decreases looked.len(),
{
    let front = looked.drop_last();
    if i < front.len() {
        assert(front[i] == looked[i]);
        assert forall|k: int| 0 <= k < i implies #[trigger] front[k] == Ok::<bool, String>(
            false,
        ) by {
            assert(front[k] == looked[k]);
        }
        one_nearer(front, i);
    } else {
        assert forall|k: int| 0 <= k < front.len() implies #[trigger] front[k] == Ok::<
            bool,
            String,
        >(false) by {
            assert(front[k] == looked[k]);
        }
        none_nearer(front);
    }
}

/// An artifact that waited goes on exactly where its entry and its evidence are what
/// they were.
pub proof fn unchanged_artifacts_go_on(
    expected: EntryMeta,
    found: Found,
    meta: Result<EntryMeta, Seq<char>>,
    current: Result<Option<Found>, Seq<char>>,
)
    ensures
        deferred_failure(expected, found, meta, current) is None <==> {
            &&& meta == Ok::<EntryMeta, Seq<char>>(expected)
            &&& (current matches Ok(Some(now)) && now.fingerprint == found.fingerprint
                && now.blocked == found.blocked && now.latest == found.latest && same_project(
                now.activity_root,
                found.activity_root,
            ))
        },
{
}

/// A file shows that an artifact is in use exactly when it changed after the cutoff and
/// is a real file of the user's on the volume with no other name.
pub proof fn recent_files_are_known(meta: EntryMeta, device: u64, cutoff: int, user: u32)
    ensures
        recent_local(meta, device, cutoff, user) <==> {
            &&& meta.identity.modified_ns > cutoff
            &&& meta.identity.mode & 0o170000 == 0o100000
            &&& meta.flags & 0x4000_0000 == 0
            &&& meta.identity.device == device
            &&& meta.links == 1
            &&& meta.uid == user
        },
{
}

} // verus!
