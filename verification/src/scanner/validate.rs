//! The last check of a finding before anything is done with it.
use super::review::{is_same_way, same_reason, same_way};
use crate::evidence::{
    suggestion_outcome, suggestion_reason, text_view, Evidence, Found, Measurement,
};
use crate::model::{Candidate, EntryMeta, Root};
use crate::paths::{
    fs_path, is_same_place, is_strictly_under, parent, parent_holds, parent_of, path_bytes,
    same_place, share, strictly_under, FsPath,
};
use crate::policy::Policy;
use crate::sightings::Sighting;
use crate::text::{joined, joined3, same_text};
use vstd::prelude::*;
use vstd::slice::slice_to_vec;

verus! {

/// What a repository was found to be, around a finding: none, or one that tracks
/// nothing of it.
pub struct Repository {
    pub work_tree: FsPath,
}

/// What was observed for a check, as far as it was asked for. The second half is
/// observed again after the measurement.
pub struct Observations {
    pub root: Option<Result<(), String>>,
    pub policy: Option<Result<(), String>>,
    pub meta: Option<Result<EntryMeta, String>>,
    pub ancestors: Option<Result<(), String>>,
    pub evidence: Option<Result<Option<Evidence>, String>>,
    pub git: Option<Result<Option<Repository>, String>>,
    pub activity: Option<Option<String>>,
    pub measured: Option<Result<Measurement, String>>,
    pub root_again: Option<Result<(), String>>,
    pub meta_again: Option<Result<EntryMeta, String>>,
    pub ancestors_again: Option<Result<(), String>>,
    pub evidence_again: Option<Result<Option<Evidence>, String>>,
    pub activity_again: Option<Result<Option<String>, String>>,
    /// Whether a nearer repository was found below the known one.
    pub nearer: Option<Result<bool, String>>,
    /// Whether the known repository is unchanged.
    pub unchanged: Option<Result<(), String>>,
    /// Whether a repository was found where there was none.
    pub git_again: Option<Result<bool, String>>,
}

/// What a check asks for next.
#[derive(Clone, Copy, Debug, PartialEq, Eq, Structural)]
pub enum Want {
    Root,
    Policy,
    Meta,
    Ancestors,
    Evidence,
    Git,
    Activity,
    Measure,
    RootAgain,
    MetaAgain,
    AncestorsAgain,
    EvidenceAgain,
    ActivityAgain,
    Nearer,
    Unchanged,
    GitAgain,
}

/// How far a check has come.
pub enum Verdict {
    Need(Want),
    Refused(String),
    Valid,
}

/// The same, as a value to reason about.
pub enum Ruling {
    Need(Want),
    Refused(Seq<char>),
    Valid,
}

pub open spec fn verdict_is(r: Verdict, expected: Ruling) -> bool {
    match expected {
        Ruling::Need(want) => r == Verdict::Need(want),
        Ruling::Refused(reason) => r matches Verdict::Refused(text) && text@ == reason,
        Ruling::Valid => r is Valid,
    }
}

/// An observation that must be there and must not have failed.
pub open spec fn observed<T>(fact: Option<Result<T, String>>, want: Want) -> Result<T, Ruling> {
    match fact {
        None => Err(Ruling::Need(want)),
        Some(Err(reason)) => Err(Ruling::Refused(reason@)),
        Some(Ok(value)) => Ok(value),
    }
}

fn take<'a, T>(fact: &'a Option<Result<T, String>>, want: Want) -> (r: Result<&'a T, Verdict>)
    ensures
        match observed(*fact, want) {
            Ok(value) => r matches Ok(got) && *got == value,
            Err(ruling) => r matches Err(verdict) && verdict_is(verdict, ruling),
        },
{
    match fact {
        None => Err(Verdict::Need(want)),
        Some(Err(reason)) => Err(Verdict::Refused(reason.clone())),
        Some(Ok(value)) => Ok(value),
    }
}

/// Whether a finding lies in the location that it names.
pub open spec fn placed(root: Root, candidate: Sighting) -> bool {
    candidate.root_id == root.id@ && strictly_under(candidate.path, root.path@)
}

/// What the first evidence says against a finding.
pub open spec fn evidence_objection(candidate: Sighting, current: Option<Found>) -> Option<
    Seq<char>,
> {
    match current {
        None => Some("The item's project evidence is no longer recognized"@),
        Some(found) => if found.kind != candidate.kind || found.fingerprint != candidate.evidence {
            Some("Project configuration changed since review"@)
        } else if found.blocked is Some {
            found.blocked
        } else if candidate.eligible_permanent && !found.rules.permanent {
            Some("This category is review and Trash-only; permanent cleanup is not allowed"@)
        } else {
            None
        },
    }
}

/// What the measurement says against a finding.
pub open spec fn measurement_objection(
    candidate: Sighting,
    found: Found,
    measured: Measurement,
    now_ns: i64,
) -> Option<Seq<char>> {
    let unfit = suggestion_outcome(
        found.rules,
        found.quiet_days,
        found.latest,
        measured.allocated_bytes,
        measured.latest_modified_ns as int,
        now_ns,
    );
    if measured.unsafe_reason is Some {
        text_view(measured.unsafe_reason)
    } else if unfit is Some {
        Some(
            "This item no longer meets the recommendation policy: "@ + unfit->Some_0 + "."@,
        )
    } else if !candidate.suggestion_eligible {
        Some(
            "This diagnostic item was not offered as a cleanup suggestion; scan again to review current recommendations"@,
        )
    } else if measured.fingerprint@ != candidate.fingerprint || measured.logical_bytes
        != candidate.logical_bytes || measured.allocated_bytes != candidate.allocated_bytes
        || measured.files != candidate.file_count {
        Some("The item's contents changed since review; scan it again"@)
    } else {
        None
    }
}

/// What the evidence says after the measurement.
pub open spec fn later_objection(found: Found, latest: Option<Found>) -> Option<Seq<char>> {
    match latest {
        None => Some("Project ownership disappeared during verification"@),
        Some(now) => if now.kind != found.kind || now.fingerprint != found.fingerprint
            || now.blocked != found.blocked || !same_way(
            now.activity_root,
            found.activity_root,
        ) {
            Some("Project configuration changed during verification; review again"@)
        } else {
            None
        },
    }
}

/// Optional evidence, as a value to reason about.
pub open spec fn found_view(found: Option<Evidence>) -> Option<Found> {
    match found {
        Some(found) => Some(found@),
        None => None,
    }
}

/// The last look at the repository. An unchanged outer one does not prove that no
/// nearer one has begun to track the contents.
pub open spec fn repository_ruling(seen: Observations, known: Option<Repository>, checks_git: bool) -> Ruling {
    match known {
        Some(_) => match observed(seen.nearer, Want::Nearer) {
            Err(ruling) => ruling,
            Ok(nearer) => if nearer {
                Ruling::Refused("Repository ownership changed during verification; review again"@)
            } else {
                match observed(seen.unchanged, Want::Unchanged) {
                    Err(ruling) => ruling,
                    Ok(_) => Ruling::Valid,
                }
            },
        },
        None => if checks_git {
            match observed(seen.git_again, Want::GitAgain) {
                Err(ruling) => ruling,
                Ok(appeared) => if appeared {
                    Ruling::Refused(
                        "Repository ownership appeared during verification; review again"@,
                    )
                } else {
                    Ruling::Valid
                },
            }
        } else {
            Ruling::Valid
        },
    }
}

/// The second half: everything outside the measured contents, after the
/// measurement.
pub open spec fn second_ruling(
    root: Root,
    candidate: Sighting,
    seen: Observations,
    found: Found,
    known: Option<Repository>,
) -> Ruling {
    match observed(seen.root_again, Want::RootAgain) {
        Err(ruling) => ruling,
        Ok(_) => match observed(seen.meta_again, Want::MetaAgain) {
            Err(ruling) => ruling,
            Ok(meta) => if meta.identity != candidate.identity || meta.identity.device
                != root.identity.device || meta.dataless() {
                Ruling::Refused("The item changed during verification; scan it again"@)
            } else {
                match observed(seen.ancestors_again, Want::AncestorsAgain) {
                    Err(ruling) => ruling,
                    Ok(_) => match observed(seen.evidence_again, Want::EvidenceAgain) {
                        Err(ruling) => ruling,
                        Ok(latest) => match later_objection(found, found_view(latest)) {
                            Some(reason) => Ruling::Refused(reason),
                            None => if found.rules.checks_activity {
                                match observed(seen.activity_again, Want::ActivityAgain) {
                                    Err(ruling) => ruling,
                                    Ok(Some(reason)) => Ruling::Refused(reason@),
                                    Ok(None) => repository_ruling(
                                        seen,
                                        known,
                                        found.rules.checks_git,
                                    ),
                                }
                            } else {
                                repository_ruling(seen, known, found.rules.checks_git)
                            },
                        },
                    },
                }
            },
        },
    }
}

/// The measurement, and what follows it.
pub open spec fn measured_ruling(
    root: Root,
    candidate: Sighting,
    seen: Observations,
    found: Found,
    known: Option<Repository>,
    now_ns: i64,
) -> Ruling {
    match observed(seen.measured, Want::Measure) {
        Err(ruling) => ruling,
        Ok(measured) => match measurement_objection(candidate, found, measured, now_ns) {
            Some(reason) => Ruling::Refused(reason),
            None => second_ruling(root, candidate, seen, found, known),
        },
    }
}

/// Whether the project is in use before the measurement.
pub open spec fn activity_ruling(
    root: Root,
    candidate: Sighting,
    seen: Observations,
    found: Found,
    known: Option<Repository>,
    now_ns: i64,
) -> Ruling {
    if found.rules.checks_activity {
        match seen.activity {
            None => Ruling::Need(Want::Activity),
            Some(Some(reason)) => Ruling::Refused(reason@),
            Some(None) => measured_ruling(root, candidate, seen, found, known, now_ns),
        }
    } else {
        measured_ruling(root, candidate, seen, found, known, now_ns)
    }
}

/// The first half, once the finding itself was looked at.
pub open spec fn first_ruling(
    root: Root,
    candidate: Sighting,
    seen: Observations,
    now_ns: i64,
) -> Ruling {
    match observed(seen.meta, Want::Meta) {
        Err(ruling) => ruling,
        Ok(meta) => if meta.identity != candidate.identity || meta.identity.device
            != root.identity.device {
            Ruling::Refused("The item changed since review; scan it again"@)
        } else if parent_of(candidate.path) is None {
            Ruling::Refused("No item parent"@)
        } else {
            match observed(seen.ancestors, Want::Ancestors) {
                Err(ruling) => ruling,
                Ok(_) => match observed(seen.evidence, Want::Evidence) {
                    Err(ruling) => ruling,
                    Ok(current) => match evidence_objection(candidate, found_view(current)) {
                        Some(reason) => Ruling::Refused(reason),
                        None => {
                            let found = current->Some_0@;
                            if found.rules.checks_git {
                                match observed(seen.git, Want::Git) {
                                    Err(ruling) => ruling,
                                    Ok(known) => activity_ruling(
                                        root,
                                        candidate,
                                        seen,
                                        found,
                                        known,
                                        now_ns,
                                    ),
                                }
                            } else {
                                activity_ruling(root, candidate, seen, found, None, now_ns)
                            }
                        },
                    },
                },
            }
        },
    }
}

/// Whether a finding may be acted on.
pub open spec fn ruling(
    root: Root,
    candidate: Sighting,
    seen: Observations,
    now_ns: i64,
    cancel: bool,
) -> Ruling {
    if cancel {
        Ruling::Refused("Cancelled"@)
    } else {
        match observed(seen.root, Want::Root) {
            Err(ruling) => ruling,
            Ok(_) => if !placed(root, candidate) {
                Ruling::Refused("The item is outside its authorized location"@)
            } else {
                match observed(seen.policy, Want::Policy) {
                    Err(ruling) => ruling,
                    Ok(_) => match candidate.blocked_reason {
                        Some(reason) => Ruling::Refused(
                            "This item is not available for cleanup: "@ + reason,
                        ),
                        None => first_ruling(root, candidate, seen, now_ns),
                    },
                }
            },
        }
    }
}

fn object_evidence(candidate: &Candidate, current: &Option<Evidence>) -> (r: Option<String>)
    ensures
        text_view(r) == evidence_objection(candidate@, found_view(*current)),
{
    match current {
        None => Some("The item's project evidence is no longer recognized".to_owned()),
        Some(found) => {
            if !same_text(found.kind.as_str(), candidate.kind.as_str()) || !same_text(
                found.fingerprint.as_str(),
                candidate.evidence.as_str(),
            ) {
                Some("Project configuration changed since review".to_owned())
            } else if found.blocked.is_some() {
                crate::model::copy_text(&found.blocked)
            } else if candidate.eligible_permanent && !found.rules.permanent {
                Some(
                    "This category is review and Trash-only; permanent cleanup is not allowed".to_owned(),
                )
            } else {
                None
            }
        },
    }
}

fn object_measurement(
    candidate: &Candidate,
    found: &Evidence,
    measured: &Measurement,
    now_ns: i64,
) -> (r: Option<String>)
    ensures
        text_view(r) == measurement_objection(candidate@, found@, *measured, now_ns),
{
    if measured.unsafe_reason.is_some() {
        return crate::model::copy_text(&measured.unsafe_reason);
    }
    match suggestion_reason(found, measured, now_ns) {
        Some(reason) => {
            return Some(
                joined3(
                    "This item no longer meets the recommendation policy: ",
                    reason.as_str(),
                    ".",
                ),
            );
        },
        None => {},
    }
    if !candidate.suggestion_eligible {
        return Some(
            "This diagnostic item was not offered as a cleanup suggestion; scan again to review current recommendations".to_owned(),
        );
    }
    if !same_text(measured.fingerprint.as_str(), candidate.fingerprint.as_str())
        || measured.logical_bytes != candidate.logical_bytes || measured.allocated_bytes
        != candidate.allocated_bytes || measured.files != candidate.file_count {
        return Some("The item's contents changed since review; scan it again".to_owned());
    }
    None
}

fn object_later(found: &Evidence, latest: &Option<Evidence>) -> (r: Option<String>)
    ensures
        text_view(r) == later_objection(found@, found_view(*latest)),
{
    match latest {
        None => Some("Project ownership disappeared during verification".to_owned()),
        Some(now) => {
            if !same_text(now.kind.as_str(), found.kind.as_str()) || !same_text(
                now.fingerprint.as_str(),
                found.fingerprint.as_str(),
            ) || !same_reason(&now.blocked, &found.blocked) || !is_same_way(
                &now.activity_root,
                &found.activity_root,
            ) {
                Some(
                    "Project configuration changed during verification; review again".to_owned(),
                )
            } else {
                None
            }
        },
    }
}

fn check_repository(seen: &Observations, known: &Option<Repository>, checks_git: bool) -> (r: Verdict)
    ensures
        verdict_is(r, repository_ruling(*seen, *known, checks_git)),
{
    if known.is_some() {
        match take(&seen.nearer, Want::Nearer) {
            Err(verdict) => {
                return verdict;
            },
            Ok(nearer) => {
                if *nearer {
                    return Verdict::Refused(
                        "Repository ownership changed during verification; review again".to_owned(),
                    );
                }
            },
        }
        match take(&seen.unchanged, Want::Unchanged) {
            Err(verdict) => verdict,
            Ok(_) => Verdict::Valid,
        }
    } else if checks_git {
        match take(&seen.git_again, Want::GitAgain) {
            Err(verdict) => verdict,
            Ok(appeared) => {
                if *appeared {
                    Verdict::Refused(
                        "Repository ownership appeared during verification; review again".to_owned(),
                    )
                } else {
                    Verdict::Valid
                }
            },
        }
    } else {
        Verdict::Valid
    }
}

fn check_again(
    root: &Root,
    candidate: &Candidate,
    seen: &Observations,
    found: &Evidence,
    known: &Option<Repository>,
) -> (r: Verdict)
    ensures
        verdict_is(r, second_ruling(*root, candidate@, *seen, found@, *known)),
{
    match take(&seen.root_again, Want::RootAgain) {
        Err(verdict) => {
            return verdict;
        },
        Ok(_) => {},
    }
    match take(&seen.meta_again, Want::MetaAgain) {
        Err(verdict) => {
            return verdict;
        },
        Ok(meta) => {
            if meta.identity != candidate.identity || meta.identity.device != root.identity.device
                || meta.is_dataless() {
                return Verdict::Refused(
                    "The item changed during verification; scan it again".to_owned(),
                );
            }
        },
    }
    match take(&seen.ancestors_again, Want::AncestorsAgain) {
        Err(verdict) => {
            return verdict;
        },
        Ok(_) => {},
    }
    match take(&seen.evidence_again, Want::EvidenceAgain) {
        Err(verdict) => {
            return verdict;
        },
        Ok(latest) => match object_later(found, latest) {
            Some(reason) => {
                return Verdict::Refused(reason);
            },
            None => {},
        },
    }
    // A process that was started during the measurement must be seen: the last
    // look never reuses an older one.
    if found.rules.checks_activity {
        match take(&seen.activity_again, Want::ActivityAgain) {
            Err(verdict) => {
                return verdict;
            },
            Ok(Some(reason)) => {
                return Verdict::Refused(reason.clone());
            },
            Ok(None) => {},
        }
    }
    check_repository(seen, known, found.rules.checks_git)
}

fn check_measured(
    root: &Root,
    candidate: &Candidate,
    seen: &Observations,
    found: &Evidence,
    known: &Option<Repository>,
    now_ns: i64,
) -> (r: Verdict)
    ensures
        verdict_is(r, activity_ruling(*root, candidate@, *seen, found@, *known, now_ns)),
{
    if found.rules.checks_activity {
        match &seen.activity {
            None => {
                return Verdict::Need(Want::Activity);
            },
            Some(Some(reason)) => {
                return Verdict::Refused(reason.clone());
            },
            Some(None) => {},
        }
    }
    match take(&seen.measured, Want::Measure) {
        Err(verdict) => verdict,
        Ok(measured) => match object_measurement(candidate, found, measured, now_ns) {
            Some(reason) => Verdict::Refused(reason),
            None => check_again(root, candidate, seen, found, known),
        },
    }
}

fn check_first(root: &Root, candidate: &Candidate, seen: &Observations, now_ns: i64) -> (r: Verdict)
    ensures
        verdict_is(r, first_ruling(*root, candidate@, *seen, now_ns)),
{
    match take(&seen.meta, Want::Meta) {
        Err(verdict) => {
            return verdict;
        },
        Ok(meta) => {
            if meta.identity != candidate.identity || meta.identity.device
                != root.identity.device {
                return Verdict::Refused("The item changed since review; scan it again".to_owned());
            }
        },
    }
    if parent(path_bytes(&candidate.path)).is_none() {
        return Verdict::Refused("No item parent".to_owned());
    }
    match take(&seen.ancestors, Want::Ancestors) {
        Err(verdict) => {
            return verdict;
        },
        Ok(_) => {},
    }
    let current: &Option<Evidence> = match take(&seen.evidence, Want::Evidence) {
        Err(verdict) => {
            return verdict;
        },
        Ok(current) => current,
    };
    match object_evidence(candidate, current) {
        Some(reason) => {
            return Verdict::Refused(reason);
        },
        None => {},
    }
    match current {
        None => Verdict::Refused(
            "The item's project evidence is no longer recognized".to_owned(),
        ),
        Some(found) => {
            if found.rules.checks_git {
                match take(&seen.git, Want::Git) {
                    Err(verdict) => verdict,
                    Ok(known) => check_measured(root, candidate, seen, found, known, now_ns),
                }
            } else {
                let none: Option<Repository> = None;
                check_measured(root, candidate, seen, found, &none, now_ns)
            }
        },
    }
}

/// Checks a finding in full before anything is done with it: its place, its
/// identity, its evidence, its repository, whether it is in use, and its
/// contents; and once more, after the measurement, everything that lies outside
/// the measured contents.
pub fn revalidate(
    root: &Root,
    candidate: &Candidate,
    seen: &Observations,
    now_ns: i64,
    cancel: bool,
) -> (r: Verdict)
    ensures
        verdict_is(r, ruling(*root, candidate@, *seen, now_ns, cancel)),
{
    if cancel {
        return Verdict::Refused("Cancelled".to_owned());
    }
    match take(&seen.root, Want::Root) {
        Err(verdict) => {
            return verdict;
        },
        Ok(_) => {},
    }
    if !same_text(candidate.root_id.as_str(), root.id.as_str()) || !is_strictly_under(
        path_bytes(&candidate.path),
        path_bytes(&root.path),
    ) {
        return Verdict::Refused("The item is outside its authorized location".to_owned());
    }
    match take(&seen.policy, Want::Policy) {
        Err(verdict) => {
            return verdict;
        },
        Ok(_) => {},
    }
    match &candidate.blocked_reason {
        Some(reason) => {
            return Verdict::Refused(
                joined("This item is not available for cleanup: ", reason.as_str()),
            );
        },
        None => {},
    }
    check_first(root, candidate, seen, now_ns)
}

/// Where a nearer repository is looked for: the folders around a finding, up to
/// the known repository.
pub open spec fn folders_below(path: Seq<u8>, work_tree: Seq<u8>) -> Seq<Seq<u8>>
    decreases path.len(),
{
    match parent_of(path) {
        None => seq![],
        Some(above) => if same_place(above, work_tree) || above.len() >= path.len() {
            seq![]
        } else {
            seq![above] + folders_below(above, work_tree)
        },
    }
}

/// The folders around a finding, up to the known repository.
pub fn nearer_folders(path: &FsPath, work_tree: &FsPath) -> (r: Vec<FsPath>)
    ensures
        super::start::path_views(r@) == folders_below(path@, work_tree@),
{
    let mut out: Vec<FsPath> = Vec::new();
    let mut here: FsPath = share(path);
    let ghost whole = folders_below(path@, work_tree@);
    let mut going: bool = true;
    assert(super::start::path_views(out@) =~= seq![]);
    assert(whole =~= seq![] + folders_below(here@, work_tree@));
    while going
        invariant
            going ==> whole == super::start::path_views(out@) + folders_below(
                here@,
                work_tree@,
            ),
            !going ==> whole == super::start::path_views(out@),
        decreases here@.len() + (if going {
            1int
        } else {
            0int
        }),
    {
        proof {
            parent_holds(here@);
        }
        let above: Option<FsPath> = match parent(path_bytes(&here)) {
            Some(above) => {
                if is_same_place(above, path_bytes(work_tree)) {
                    None
                } else {
                    Some(fs_path(slice_to_vec(above)))
                }
            },
            None => None,
        };
        match above {
            None => {
                going = false;
                assert(folders_below(here@, work_tree@) =~= seq![]);
                assert(whole =~= super::start::path_views(out@));
            },
            Some(above) => {
                let ghost before = out@;
                out.push(share(&above));
                proof {
                    assert(super::start::path_views(out@) =~= super::start::path_views(
                        before,
                    ).push(above@));
                    assert(whole =~= super::start::path_views(out@) + folders_below(
                        above@,
                        work_tree@,
                    ));
                }
                here = above;
            },
        }
    }
    out
}

/// A finding is valid only if it was offered, lies in its own location, is not
/// blocked, and both times was the object that was reviewed.
pub proof fn valid_findings_were_offered(
    root: Root,
    candidate: Sighting,
    seen: Observations,
    now_ns: i64,
    cancel: bool,
)
    requires
        ruling(root, candidate, seen, now_ns, cancel) is Valid,
    ensures
        !cancel,
        candidate.suggestion_eligible,
        candidate.blocked_reason is None,
        placed(root, candidate),
        seen.meta matches Some(Ok(meta)) && meta.identity == candidate.identity,
        seen.meta_again matches Some(Ok(meta)) && meta.identity == candidate.identity
            && !meta.dataless(),
        seen.measured matches Some(Ok(measured)) && measured.fingerprint@ == candidate.fingerprint
            && measured.unsafe_reason is None,
        seen.evidence matches Some(Ok(Some(found))) && found@.fingerprint == candidate.evidence
            && found@.blocked is None,
        seen.evidence_again matches Some(Ok(Some(found))) && found@.fingerprint
            == candidate.evidence && found@.blocked is None,
{
}

/// A permanent removal is valid only for a kind that allows it.
pub proof fn permanent_removal_needs_its_kind(
    root: Root,
    candidate: Sighting,
    seen: Observations,
    now_ns: i64,
    cancel: bool,
)
    requires
        ruling(root, candidate, seen, now_ns, cancel) is Valid,
        candidate.eligible_permanent,
    ensures
        seen.evidence matches Some(Ok(Some(found))) && found.rules.permanent,
{
}

/// The first look for a nearer repository that failed or found one.
pub open spec fn first_nearer(looked: Seq<Result<bool, String>>) -> Option<Result<bool, Seq<char>>>
    decreases looked.len(),
{
    if looked.len() == 0 {
        None
    } else {
        match first_nearer(looked.drop_last()) {
            Some(found) => Some(found),
            None => match looked.last() {
                Err(reason) => Some(Err(reason@)),
                Ok(true) => Some(Ok(true)),
                Ok(false) => None,
            },
        }
    }
}

/// What looking for a nearer repository comes to: the first look that failed or
/// found one decides, and where all folders show none, there is none. Before each
/// look, a cancellation ends it.
pub open spec fn nearer_so_far(
    looked: Seq<Result<bool, String>>,
    folders: int,
    cancel: bool,
) -> Option<Result<bool, Seq<char>>> {
    match first_nearer(looked) {
        Some(found) => Some(found),
        None => if looked.len() >= folders {
            Some(Ok(false))
        } else if cancel {
            Some(Err("Cancelled"@))
        } else {
            None
        },
    }
}

proof fn first_nearer_stays(looked: Seq<Result<bool, String>>, n: int)
    requires
        0 <= n <= looked.len(),
        first_nearer(looked.take(n)) is Some,
    ensures
        first_nearer(looked) == first_nearer(looked.take(n)),
    decreases looked.len(),
{
    if n < looked.len() {
        assert(looked.drop_last().take(n) =~= looked.take(n));
        first_nearer_stays(looked.drop_last(), n);
    } else {
        assert(looked.take(n) =~= looked);
    }
}

/// What looking for a nearer repository comes to, after a look at some of the
/// folders around a finding, the closest first. Nothing, where the next folder is
/// to be looked at.
pub fn nearer_repository(
    looked: &Vec<Result<bool, String>>,
    folders: usize,
    cancel: bool,
) -> (r: Option<Result<bool, String>>)
    ensures
        match nearer_so_far(looked@, folders as int, cancel) {
            None => r is None,
            Some(Ok(found)) => r matches Some(Ok(got)) && got == found,
            Some(Err(reason)) => r matches Some(Err(got)) && got@ == reason,
        },
{
    let n: usize = looked.len();
    let ghost all = looked@;
    let mut i: usize = 0;
    while i < n
        invariant
            i <= n,
            n == looked@.len(),
            all == looked@,
            first_nearer(all.take(i as int)) is None,
        decreases n - i,
    {
        proof {
            assert(all.take(i + 1).drop_last() =~= all.take(i as int));
            assert(all.take(i + 1).last() == all[i as int]);
        }
        match &looked[i] {
            Err(reason) => {
                proof {
                    first_nearer_stays(all, i + 1);
                }
                return Some(Err(reason.clone()));
            },
            Ok(found) => {
                if *found {
                    proof {
                        first_nearer_stays(all, i + 1);
                    }
                    return Some(Ok(true));
                }
            },
        }
        i = i + 1;
    }
    assert(all.take(i as int) =~= all);
    if n >= folders {
        return Some(Ok(false));
    }
    if cancel {
        return Some(Err("Cancelled".to_owned()));
    }
    None
}

} // verus!
