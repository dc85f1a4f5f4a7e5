//! The inquiry into what a repository tracks: find it, read its metadata, read
//! that again, ask, take the answer, and read the metadata once more.
use crate::git::evidence::{
    all_unchanged, evidence_paths, reading_step, recorded, Captured, GitEvidence, Observed,
    PathFacts,
};
use crate::git::tracking::{
    find_repository, git_pathspec, pathspec, read_answer, refusal, repository_step, Answer,
    MarkerFact, Round,
};
use crate::model::Root;
use crate::paths::{named, path_bytes, under, FsPath};
use crate::probe::{Ask, Got, Step};
use crate::text::same_bytes;
use vstd::prelude::*;

verus! {

/// A second look at captured metadata: whether the authorized folder is still
/// valid, once that was checked, and what was observed since.
pub struct Recheck {
    pub valid: Option<Result<(), String>>,
    pub now: Observed,
}

/// How far the inquiry has come.
pub enum Inquiry {
    /// The repository is looked for.
    Finding { markers: Vec<MarkerFact> },
    /// Its metadata is read.
    Reading { tree: FsPath, seen: Observed },
    /// What was read is read again.
    Capturing { found: GitEvidence, again: Recheck },
    /// The question can be asked.
    Asking { found: GitEvidence, question: Vec<u8> },
    /// The answer is awaited. Once it was looked at, it is known whether the
    /// output had not ended.
    Answering { found: GitEvidence, output_pending: Option<bool> },
    /// Nothing is tracked, if the metadata stayed as it was.
    Confirming { found: GitEvidence, again: Recheck },
    /// The artifact is not to be touched.
    Refused(String),
    /// Nothing inside the artifact is tracked, by this repository or at all.
    Untracked(Option<GitEvidence>),
}

/// What the inquiry waits for.
pub enum Wanted {
    /// Whether a marker exists.
    Marker(FsPath),
    /// An observation of a path, or its content.
    Look(FsPath, Ask),
    /// Whether the authorized folder is still valid.
    Root,
    /// A process that answers the question.
    Process,
    /// A look at the answer.
    Answer,
    /// Nothing.
    Nothing,
}

/// What is told to the inquiry.
pub enum Told {
    Marker(MarkerFact),
    Facts(PathFacts),
    Content(FsPath, Result<Captured, String>),
    Root(Result<(), String>),
    Process(Result<(), String>),
    Answer(Round),
}

/// Whether nothing was observed yet, for a user.
pub open spec fn unseen(seen: Observed, user: u32) -> bool {
    seen.facts@.len() == 0 && seen.user == user
}

/// Whether a second look has not begun, for a user.
pub open spec fn unlooked(again: Recheck, user: u32) -> bool {
    again.valid is None && unseen(again.now, user)
}

/// What a second look at captured metadata comes to. `None` means that the
/// authorized folder is to be checked first.
pub open spec fn recheck_step(root: Root, found: GitEvidence, again: Recheck, cancel: bool) -> Option<
    Got<()>,
> {
    match again.valid {
        None => None,
        Some(Err(reason)) => Some(Got::Fail(reason@)),
        Some(Ok(_)) => if cancel {
            Some(Got::Fail("Cancelled"@))
        } else {
            Some(all_unchanged(root, again.now, found.entries@))
        },
    }
}

/// Whether the inquiry was refused for a reason.
pub open spec fn refused(state: Inquiry, reason: Seq<char>) -> bool {
    state matches Inquiry::Refused(text) && text@ == reason
}

/// Whether captured metadata is what was read of a work tree.
pub open spec fn captured(
    root: Root,
    tree: Seq<u8>,
    seen: Observed,
    found: GitEvidence,
) -> bool {
    &&& reading_step(root, seen, tree) matches Got::Have(layout)
    &&& found.work_tree@ == tree
    &&& found.directory@ == layout.directory
    &&& recorded(root, seen, found.entries@, evidence_paths(named(tree, ".git"@), layout))
}

/// One move of the inquiry about an artifact of a project: from a state to the
/// next one, and to what it then waits for. Where something is missing the state
/// stays as it is; every doubt refuses.
pub open spec fn moves(
    root: Root,
    project: Seq<u8>,
    artifact: Seq<u8>,
    user: u32,
    cancel: bool,
    from: Inquiry,
    to: Inquiry,
    wanted: Wanted,
) -> bool {
    match from {
        Inquiry::Finding { markers } => if cancel {
            refused(to, "Cancelled"@) && wanted is Nothing
        } else {
            match repository_step(root, project, markers@) {
                Got::Need(at, _) => to == from && (wanted matches Wanted::Marker(p) && p@ == at),
                Got::Fail(reason) => refused(to, reason) && wanted is Nothing,
                Got::Have(None) => to == Inquiry::Untracked(None) && wanted is Nothing,
                Got::Have(Some(at)) => wanted is Nothing && (to matches Inquiry::Reading {
                    tree,
                    seen,
                } && tree@ == at && unseen(seen, user)),
            }
        },
        Inquiry::Reading { tree, seen } => if cancel {
            refused(to, "Cancelled"@) && wanted is Nothing
        } else {
            match reading_step(root, seen, tree@) {
                Got::Need(at, ask) => to == from && (wanted matches Wanted::Look(p, a) && p@ == at
                    && a == ask),
                Got::Fail(reason) => refused(to, reason) && wanted is Nothing,
                Got::Have(_) => wanted is Nothing && (to matches Inquiry::Capturing { found, again }
                    && captured(root, tree@, seen, found) && unlooked(again, user)),
            }
        },
        Inquiry::Capturing { found, again } => match recheck_step(root, found, again, cancel) {
            None => to == from && wanted is Root,
            Some(Got::Need(at, ask)) => to == from && (wanted matches Wanted::Look(p, a) && p@ == at
                && a == ask),
            Some(Got::Fail(reason)) => refused(to, reason) && wanted is Nothing,
            Some(Got::Have(_)) => wanted is Nothing && if under(artifact, found.work_tree@) {
                to matches Inquiry::Asking { found: kept, question } && kept == found && question@
                    == pathspec(found.work_tree@, artifact)
            } else {
                refused(to, "Artifact is outside its repository"@)
            },
        },
        Inquiry::Asking { .. } => to == from && wanted is Process,
        Inquiry::Answering { .. } => to == from && wanted is Answer,
        Inquiry::Confirming { found, again } => match recheck_step(root, found, again, cancel) {
            None => to == from && wanted is Root,
            Some(Got::Need(at, ask)) => to == from && (wanted matches Wanted::Look(p, a) && p@ == at
                && a == ask),
            Some(Got::Fail(reason)) => refused(to, reason) && wanted is Nothing,
            Some(Got::Have(_)) => to == Inquiry::Untracked(Some(found)) && wanted is Nothing,
        },
        Inquiry::Refused(_) => to == from && wanted is Nothing,
        Inquiry::Untracked(_) => to == from && wanted is Nothing,
    }
}

/// Whether observations grew by what was told: new facts of a path come last,
/// a content joins the first facts of its path.
pub open spec fn noticed(before: Observed, told: Told, after: Observed) -> bool {
    &&& after.user == before.user
    &&& match told {
        Told::Facts(facts) => after.facts@ == before.facts@.push(facts),
        Told::Content(path, content) => if before.knows(path@) {
            exists|i: int| #[trigger]
                before.facts_at(path@, i) && after.facts@ == before.facts@.update(
                    i,
                    PathFacts { content: Some(content), ..before.facts@[i] },
                )
        } else {
            after.facts@ == before.facts@
        },
        _ => after.facts@ == before.facts@,
    }
}

/// Whether a second look took in what was told.
pub open spec fn relooked(before: Recheck, told: Told, after: Recheck) -> bool {
    &&& noticed(before.now, told, after.now)
    &&& after.valid == match told {
        Told::Root(valid) => Some(valid),
        _ => before.valid,
    }
}

/// What being told something makes of the inquiry. What was not waited for changes
/// nothing.
pub open spec fn tells(user: u32, from: Inquiry, told: Told, to: Inquiry) -> bool {
    match from {
        Inquiry::Finding { markers } => to matches Inquiry::Finding { markers: now } && now@
            == match told {
            Told::Marker(fact) => markers@.push(fact),
            _ => markers@,
        },
        Inquiry::Reading { tree, seen } => to matches Inquiry::Reading { tree: kept, seen: now }
            && kept == tree && noticed(seen, told, now),
        Inquiry::Capturing { found, again } => to matches Inquiry::Capturing {
            found: kept,
            again: now,
        } && kept == found && relooked(again, told, now),
        Inquiry::Asking { found, .. } => match told {
            Told::Process(Ok(_)) => to == (Inquiry::Answering { found, output_pending: None }),
            Told::Process(Err(reason)) => refused(to, reason@),
            _ => to == from,
        },
        Inquiry::Answering { found, .. } => match told {
            Told::Answer(round) => match refusal(round) {
                Some(reason) => refused(to, reason),
                None => if round.child is Succeeded {
                    to matches Inquiry::Confirming { found: kept, again } && kept == found
                        && unlooked(again, user)
                } else {
                    to == (Inquiry::Answering {
                        found,
                        output_pending: Some(round.read is WouldBlock),
                    })
                },
            },
            _ => to == from,
        },
        Inquiry::Confirming { found, again } => to matches Inquiry::Confirming {
            found: kept,
            again: now,
        } && kept == found && relooked(again, told, now),
        Inquiry::Refused(_) => to == from,
        Inquiry::Untracked(_) => to == from,
    }
}

fn nothing_seen(user: u32) -> (r: Observed)
    ensures
        unseen(r, user),
{
    Observed { facts: Vec::new(), user }
}

fn first_of(seen: &Observed, path: &FsPath) -> (r: Option<usize>)
    ensures
        match r {
            Some(i) => seen.facts_at(path@, i as int),
            None => !seen.knows(path@),
        },
{
    let mut i: usize = 0;
    while i < seen.facts.len()
        invariant
            i <= seen.facts.len(),
            forall|j: int| 0 <= j < i ==> (#[trigger] seen.facts@[j]).path@ != path@,
        decreases seen.facts.len() - i,
    {
        if same_bytes(path_bytes(&seen.facts[i].path), path_bytes(path)) {
            return Some(i);
        }
        i = i + 1;
    }
    None
}

fn notice(seen: Observed, told: Told) -> (r: Observed)
    ensures
        noticed(seen, told, r),
{
    let mut seen: Observed = seen;
    match told {
        Told::Facts(facts) => {
            seen.facts.push(facts);
        },
        Told::Content(path, content) => {
            let ghost before = seen;
            match first_of(&seen, &path) {
                None => {},
                Some(i) => {
                    let earlier: PathFacts = seen.facts.remove(i);
                    let fuller: PathFacts = PathFacts {
                        path: earlier.path,
                        names: earlier.names,
                        ancestors: earlier.ancestors,
                        entry: earlier.entry,
                        content: Some(content),
                    };
                    seen.facts.insert(i, fuller);
                    proof {
                        assert(before.facts_at(path@, i as int));
                        assert(seen.facts@ =~= before.facts@.update(i as int, fuller));
                    }
                },
            }
        },
        _ => {},
    }
    seen
}

fn relook(again: Recheck, told: Told) -> (r: Recheck)
    ensures
        relooked(again, told, r),
{
    match told {
        Told::Root(valid) => Recheck { valid: Some(valid), now: again.now },
        other => Recheck { valid: again.valid, now: notice(again.now, other) },
    }
}

fn recheck(root: &Root, found: &GitEvidence, again: &Recheck, cancel: bool) -> (r: Option<Step<()>>)
    ensures
        match recheck_step(*root, *found, *again, cancel) {
            None => r is None,
            Some(got) => r matches Some(step) && crate::probe::step_is(step, got),
        },
{
    match &again.valid {
        None => None,
        Some(valid) => Some(found.unchanged(root, valid, &again.now, cancel)),
    }
}

impl Inquiry {
    /// An inquiry that has not looked anywhere yet.
    pub fn new() -> (r: Inquiry)
        ensures
            r matches Inquiry::Finding { markers } && markers@.len() == 0,
    {
        Inquiry::Finding { markers: Vec::new() }
    }

    /// Tells the inquiry something.
    pub fn tell(self, user: u32, told: Told) -> (r: Inquiry)
        ensures
            tells(user, self, told, r),
    {
        match self {
            Inquiry::Finding { markers } => {
                let mut markers: Vec<MarkerFact> = markers;
                match told {
                    Told::Marker(fact) => {
                        markers.push(fact);
                    },
                    _ => {},
                }
                Inquiry::Finding { markers }
            },
            Inquiry::Reading { tree, seen } => Inquiry::Reading { tree, seen: notice(seen, told) },
            Inquiry::Capturing { found, again } => Inquiry::Capturing {
                found,
                again: relook(again, told),
            },
            Inquiry::Asking { found, question } => match told {
                Told::Process(Ok(_)) => Inquiry::Answering { found, output_pending: None },
                Told::Process(Err(reason)) => Inquiry::Refused(reason),
                _ => Inquiry::Asking { found, question },
            },
            Inquiry::Answering { found, output_pending } => match told {
                Told::Answer(round) => match read_answer(round) {
                    Answer::Refused(reason) => Inquiry::Refused(reason),
                    Answer::Untracked => Inquiry::Confirming {
                        found,
                        again: Recheck { valid: None, now: nothing_seen(user) },
                    },
                    Answer::Again { output_pending } => Inquiry::Answering {
                        found,
                        output_pending: Some(output_pending),
                    },
                },
                _ => Inquiry::Answering { found, output_pending },
            },
            Inquiry::Confirming { found, again } => Inquiry::Confirming {
                found,
                again: relook(again, told),
            },
            Inquiry::Refused(reason) => Inquiry::Refused(reason),
            Inquiry::Untracked(found) => Inquiry::Untracked(found),
        }
    }

    /// Makes one move. Unless something is wanted, the next move can be made at
    /// once, until the inquiry is refused or has found nothing tracked.
    pub fn step(
        self,
        root: &Root,
        project: &FsPath,
        artifact: &FsPath,
        user: u32,
        cancel: bool,
    ) -> (r: (Inquiry, Wanted))
        ensures
            moves(*root, project@, artifact@, user, cancel, self, r.0, r.1),
    {
        match self {
            Inquiry::Finding { markers } => match find_repository(root, project, &markers, cancel) {
                Step::Need(at, _) => (Inquiry::Finding { markers }, Wanted::Marker(at)),
                Step::Fail(reason) => (Inquiry::Refused(reason), Wanted::Nothing),
                Step::Have(None) => (Inquiry::Untracked(None), Wanted::Nothing),
                Step::Have(Some(tree)) => (
                    Inquiry::Reading { tree, seen: nothing_seen(user) },
                    Wanted::Nothing,
                ),
            },
            Inquiry::Reading { tree, seen } => match GitEvidence::read(root, &tree, &seen, cancel) {
                Step::Need(at, ask) => (Inquiry::Reading { tree, seen }, Wanted::Look(at, ask)),
                Step::Fail(reason) => (Inquiry::Refused(reason), Wanted::Nothing),
                Step::Have(found) => (
                    Inquiry::Capturing {
                        found,
                        again: Recheck { valid: None, now: nothing_seen(user) },
                    },
                    Wanted::Nothing,
                ),
            },
            Inquiry::Capturing { found, again } => match recheck(root, &found, &again, cancel) {
                None => (Inquiry::Capturing { found, again }, Wanted::Root),
                Some(Step::Need(at, ask)) => (
                    Inquiry::Capturing { found, again },
                    Wanted::Look(at, ask),
                ),
                Some(Step::Fail(reason)) => (Inquiry::Refused(reason), Wanted::Nothing),
                Some(Step::Have(_)) => match git_pathspec(&found.work_tree, artifact) {
                    Ok(question) => (Inquiry::Asking { found, question }, Wanted::Nothing),
                    Err(reason) => (Inquiry::Refused(reason), Wanted::Nothing),
                },
            },
            Inquiry::Asking { found, question } => (
                Inquiry::Asking { found, question },
                Wanted::Process,
            ),
            Inquiry::Answering { found, output_pending } => (
                Inquiry::Answering { found, output_pending },
                Wanted::Answer,
            ),
            Inquiry::Confirming { found, again } => match recheck(root, &found, &again, cancel) {
                None => (Inquiry::Confirming { found, again }, Wanted::Root),
                Some(Step::Need(at, ask)) => (
                    Inquiry::Confirming { found, again },
                    Wanted::Look(at, ask),
                ),
                Some(Step::Fail(reason)) => (Inquiry::Refused(reason), Wanted::Nothing),
                Some(Step::Have(_)) => (Inquiry::Untracked(Some(found)), Wanted::Nothing),
            },
            Inquiry::Refused(reason) => (Inquiry::Refused(reason), Wanted::Nothing),
            Inquiry::Untracked(found) => (Inquiry::Untracked(found), Wanted::Nothing),
        }
    }
}

/// The metadata that an inquiry goes by.
pub open spec fn relied_on(state: Inquiry) -> Option<GitEvidence> {
    match state {
        Inquiry::Capturing { found, .. } => Some(found),
        Inquiry::Asking { found, .. } => Some(found),
        Inquiry::Answering { found, .. } => Some(found),
        Inquiry::Confirming { found, .. } => Some(found),
        Inquiry::Untracked(Some(found)) => Some(found),
        _ => None,
    }
}

/// A repository vouches for an artifact only from an inquiry that was confirming:
/// the authorized folder was valid, and the metadata was as captured.
pub proof fn a_repository_vouches_only_when_confirmed(
    root: Root,
    project: Seq<u8>,
    artifact: Seq<u8>,
    user: u32,
    cancel: bool,
    from: Inquiry,
    to: Inquiry,
    wanted: Wanted,
)
    requires
        moves(root, project, artifact, user, cancel, from, to, wanted),
        !(from is Untracked),
        to matches Inquiry::Untracked(Some(_)),
    ensures
        !cancel,
        from matches Inquiry::Confirming { found, again } && again.valid is Some
            && again.valid->Some_0 is Ok && all_unchanged(root, again.now, found.entries@) is Have && to == Inquiry::Untracked(
            Some(found),
        ),
{
}

/// It is confirming only after an answer that ended well and was silent.
pub proof fn confirming_follows_a_silent_answer(user: u32, from: Inquiry, told: Told, to: Inquiry)
    requires
        tells(user, from, told, to),
        !(from is Confirming),
        to is Confirming,
    ensures
        from is Answering,
        relied_on(to) == relied_on(from),
        told matches Told::Answer(round) && refusal(round) is None && round.child is Succeeded,
{
}

/// The question is asked only of metadata that was read twice with the same
/// result, in a folder that was still valid.
pub proof fn the_question_follows_a_second_look(
    root: Root,
    project: Seq<u8>,
    artifact: Seq<u8>,
    user: u32,
    cancel: bool,
    from: Inquiry,
    to: Inquiry,
    wanted: Wanted,
)
    requires
        moves(root, project, artifact, user, cancel, from, to, wanted),
        !(from is Asking),
        to is Asking,
    ensures
        !cancel,
        under(artifact, relied_on(to)->Some_0.work_tree@),
        from matches Inquiry::Capturing { found, again } && again.valid is Some
            && again.valid->Some_0 is Ok && all_unchanged(root, again.now, found.entries@) is Have && relied_on(to) == Some(found),
{
}

/// No move and nothing told exchanges the metadata that an inquiry goes by.
pub proof fn the_metadata_is_never_exchanged(
    root: Root,
    project: Seq<u8>,
    artifact: Seq<u8>,
    user: u32,
    cancel: bool,
    from: Inquiry,
    told: Told,
    to: Inquiry,
    wanted: Wanted,
)
    requires
        relied_on(from) is Some,
        tells(user, from, told, to) || moves(
            root,
            project,
            artifact,
            user,
            cancel,
            from,
            to,
            wanted,
        ),
    ensures
        relied_on(to) == relied_on(from) || to is Refused,
{
}

/// What a move or a telling can lead to: the states follow one another in one
/// order, and none is left out.
pub open spec fn stage(state: Inquiry) -> int {
    match state {
        Inquiry::Finding { .. } => 0,
        Inquiry::Reading { .. } => 1,
        Inquiry::Capturing { .. } => 2,
        Inquiry::Asking { .. } => 3,
        Inquiry::Answering { .. } => 4,
        Inquiry::Confirming { .. } => 5,
        Inquiry::Untracked(_) => 6,
        Inquiry::Refused(_) => 7,
    }
}

/// No stage is skipped, and none comes back: an inquiry that ends without a
/// refusal went through all of them, or found no repository.
pub proof fn no_stage_is_skipped(
    root: Root,
    project: Seq<u8>,
    artifact: Seq<u8>,
    user: u32,
    cancel: bool,
    from: Inquiry,
    told: Told,
    to: Inquiry,
    wanted: Wanted,
)
    requires
        tells(user, from, told, to) || moves(
            root,
            project,
            artifact,
            user,
            cancel,
            from,
            to,
            wanted,
        ),
    ensures
        stage(to) == stage(from) || stage(to) == stage(from) + 1 || to is Refused || (from
            is Finding && to == Inquiry::Untracked(None)),
{
}

} // verus!
