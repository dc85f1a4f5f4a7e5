//! How a discovery session moves on.
use super::laws::step_keeps_wf;
use super::press::{Notice, Press};
use super::review::{
    is_recent_local_file, outcome_view, recent_file_modified, ArtifactReview,
    MAX_MEASUREMENT_JOB_BYTES,
};
use super::state::{
    closing_message, first_of_lane, frames, kept_below, kept_over, lane_pick, offer_note,
    unsupported, ArtifactMeasurement, Case, Checks, DeferredArtifact, Effort, EntryFacts, Event,
    Frame, FrameMark, Item, Listed, Listing, Phase, Plan, ScanMode, ScanSession, ScanState, Stage,
    Start, Tick, MAX_ACTIVE_MEASUREMENTS, MAX_DEFERRED_ARTIFACTS, MAX_SCAN_LANES,
    MAX_SHALLOW_FRONTIER,
};
use crate::classify::{is_artifact_name, is_conditional_artifact_name};
use crate::evidence::{
    path_view, quiet_cutoff, quiet_for, recent_text, suggestion_reason, text_view,
    unfinished_download, Evidence, Measurement, DEVELOPER_QUIET_DAYS,
};
use crate::model::{copy_text, count, Candidate, Entry, EntryMeta, ScanStats};
use crate::paths::{
    is_same_place, is_strictly_under, is_under, path_bytes, same_place, share, FsPath,
};
use crate::sightings::{apply_measurement, later_of, make_candidate, tally};
use crate::text::{decimal, joined, joined3, same_text, signed_decimal};
use vstd::prelude::*;

verus! {

/// Whether a path is kept.
pub fn is_kept_over(kept: &Vec<FsPath>, path: &FsPath) -> (r: bool)
    ensures
        r == kept_over(kept@, path@),
{
    let mut i: usize = 0;
    while i < kept.len()
        invariant
            i <= kept.len(),
            forall|j: int| 0 <= j < i ==> !crate::paths::under(path@, #[trigger] kept@[j]@),
        decreases kept.len() - i,
    {
        if is_under(path_bytes(path), path_bytes(&kept[i])) {
            return true;
        }
        i = i + 1;
    }
    false
}

/// Whether something that the user keeps lies under a path.
pub fn is_kept_below(kept: &Vec<FsPath>, path: &FsPath) -> (r: bool)
    ensures
        r == kept_below(kept@, path@),
{
    let mut i: usize = 0;
    while i < kept.len()
        invariant
            i <= kept.len(),
            forall|j: int| 0 <= j < i ==> !crate::paths::under(#[trigger] kept@[j]@, path@),
        decreases kept.len() - i,
    {
        if is_under(path_bytes(&kept[i]), path_bytes(path)) {
            return true;
        }
        i = i + 1;
    }
    false
}

impl Checks {
    pub fn copy(&self) -> (r: Checks)
        ensures
            r@ == self@,
    {
        Checks {
            found: self.found.copy(),
            quiet: self.quiet,
            blocked: copy_text(&self.blocked),
        }
    }
}

fn closing_text(plan: &Plan, full: bool, stats: &ScanStats) -> (r: String)
    ensures
        r@ == closing_message(*plan, full, stats@),
{
    if plan.logical && stats.cancelled {
        "Scan cancelled; completed findings remain available.".to_owned()
    } else if plan.logical && stats.errors > 0 {
        "Scan finished with inaccessible locations; completed findings are ready to review.".to_owned()
    } else if plan.logical {
        "Scan complete. Targeted cleanup and personal-file findings are ready to review.".to_owned()
    } else if stats.cancelled {
        "Scan cancelled; the displayed coverage is partial".to_owned()
    } else if full {
        "Partial accounting: the bounded hard-link identity limit was reached; additional shared files received zero size credit".to_owned()
    } else if stats.errors > 0 {
        let front: String = joined3(
            "Partial coverage: ",
            decimal(stats.errors).as_str(),
            " inaccessible or changed portions; ",
        );
        joined3(front.as_str(), decimal(stats.skipped).as_str(), " excluded boundaries")
    } else if plan.mode == ScanMode::Suggestions {
        let front: String = joined3(
            "Suggestion discovery complete; ",
            decimal(stats.entries).as_str(),
            " entries examined and ",
        );
        joined3(
            front.as_str(),
            decimal(stats.excluded_artifacts).as_str(),
            " ineligible artifact contents excluded from traversal",
        )
    } else {
        joined3(
            "Scan complete within the selected scope; ",
            decimal(stats.skipped).as_str(),
            " protected, unsupported, kept, or unqualified opportunities excluded",
        )
    }
}

fn offer_text(found: &Evidence, is_dir: bool) -> (r: String)
    ensures
        r@ == offer_note(found@, is_dir),
{
    let front: String = joined3(
        " At least ",
        decimal(found.rules.minimum_bytes / 1_000_000).as_str(),
        " MB is allocated locally. The ",
    );
    let what: &str = if is_dir {
        "contents and identification files"
    } else {
        "file contents"
    };
    let middle: String = joined3(front.as_str(), what, " have been unmodified for at least ");
    joined3(middle.as_str(), signed_decimal(found.quiet_days).as_str(), " days.")
}

impl Plan {
    fn excludes(&self, meta: &EntryMeta, facts: &EntryFacts) -> (r: bool)
        ensures
            r == unsupported(*self, *meta, *facts),
    {
        meta.identity.device != self.root.identity.device || meta.is_symlink()
            || meta.is_dataless() || facts.media || facts.excluded || (facts.library
            && !facts.route_allowed) || (!meta.is_dir() && !meta.is_file())
    }

    fn is_root(&self, path: &FsPath) -> (r: bool)
        ensures
            r == same_place(path@, self.root.path@),
    {
        is_same_place(path_bytes(path), path_bytes(&self.root.path))
    }
}

/// The first folder of a lane.
fn find_lane(frontier: &Vec<Frame>, lane: usize) -> (r: Option<usize>)
    ensures
        match r {
            Some(at) => first_of_lane(frames(frontier@), lane as int, 0) == Some(at as int) && at
                < frontier.len(),
            None => first_of_lane(frames(frontier@), lane as int, 0) is None,
        },
{
    let ghost all = frames(frontier@);
    let mut i: usize = 0;
    while i < frontier.len()
        invariant
            i <= frontier.len(),
            all == frames(frontier@),
            first_of_lane(all, lane as int, 0) == first_of_lane(all, lane as int, i as int),
        decreases frontier.len() - i,
    {
        assert(all[i as int] == frontier@[i as int]@);
        if frontier[i].mark.lane == lane {
            return Some(i);
        }
        i = i + 1;
    }
    None
}

impl ScanSession {
    fn wait(&mut self)
        ensures
            final(self)@ == old(self)@.idle(),
    {
        self.phase = Phase::Idle;
    }

    fn publish(&mut self, candidate: Candidate, force: bool)
        ensures
            final(self)@ == old(self)@.publish(candidate@, force),
    {
        self.press.queue(candidate, &self.stats, force);
    }

    fn pulse(&mut self, t: Tick)
        ensures
            final(self)@ == old(self)@.pulse(t),
    {
        if self.press.due {
            self.stats.elapsed_ms = t.elapsed_ms;
            self.press.flush(&self.stats);
        }
    }

    fn finish(&mut self, t: Tick)
        ensures
            final(self)@ == old(self)@.finish(t),
    {
        proof {
            reveal(ScanState::finish);
        }
        self.stats.elapsed_ms = t.elapsed_ms;
        if self.links.saturated() {
            self.stats.add_error();
        }
        self.stats.complete = !self.stats.cancelled && self.stats.errors == 0;
        let message: String = closing_text(&self.plan, self.links.saturated(), &self.stats);
        self.stats.message = message;
        self.press.flush(&self.stats);
        self.phase = Phase::Done;
    }

    fn stop(&mut self, t: Tick)
        ensures
            final(self)@ == old(self)@.with(old(self)@.stats.cancel()).finish(t),
    {
        self.stats.cancelled = true;
        self.finish(t);
    }

    fn rotate(&mut self)
        requires
            old(self)@.wf(),
        ensures
            final(self)@ == old(self)@.rotate(),
    {
        proof {
            reveal(ScanState::rotate);
        }
        if !self.plan.logical {
            return ;
        }
        let ghost start = self@;
        let lanes: usize = self.plan.lanes;
        let turn: usize = self.lane_turn;
        let mut offset: usize = 0;
        while offset < lanes
            invariant
                offset <= lanes,
                lanes <= MAX_SCAN_LANES,
                0 < lanes ==> turn < lanes,
                lanes == start.plan.lanes,
                turn == start.lane_turn,
                start.plan.logical,
                self@ == start,
                start == old(self)@,
                lane_pick(start.frontier, lanes as int, turn as int, 0) == lane_pick(
                    start.frontier,
                    lanes as int,
                    turn as int,
                    offset as int,
                ),
            decreases lanes - offset,
        {
            let lane: usize = (turn + offset) % lanes;
            match find_lane(&self.frontier, lane) {
                Some(at) => {
                    proof {
                        reveal(ScanState::rotate);
                    }
                    let mut rest: Vec<Frame> = self.frontier.split_off(at);
                    rest.append(&mut self.frontier);
                    self.frontier = rest;
                    self.lane_turn = (lane + 1) % lanes;
                    assert(self@.frontier =~= start.frontier.skip(at as int)
                        + start.frontier.take(at as int));
                    return ;
                },
                None => {},
            }
            offset = offset + 1;
        }
    }

    fn explore(&mut self, t: Tick)
        requires
            old(self)@.wf(),
        ensures
            final(self)@ == old(self)@.explore(t),
    {
        proof {
            reveal(ScanState::explore);
        }
        let ghost start = self@;
        if self.deferred.len() > 0 && (self.deferred.len() == MAX_DEFERRED_ARTIFACTS || (
        self.next.len() == 0 && self.frontier.len() == 0)) {
            let job: DeferredArtifact = self.deferred.remove(0);
            assert(start.deferred[0] == job@);
            assert(self@.deferred =~= start.deferred.skip(1));
            self.phase = Phase::Looking(
                Item {
                    entry: job.entry,
                    depth: 0,
                    classify: false,
                    lane: 0,
                    opened: None,
                    provider: false,
                    previous: Some(job.checks),
                },
            );
        } else if self.next.len() > 0 {
            let place: Start = self.next.remove(0);
            assert(start.next[0] == place@);
            assert(self@.next =~= start.next.skip(1));
            self.phase = Phase::Looking(
                Item {
                    entry: place.entry,
                    depth: 0,
                    classify: true,
                    lane: place.lane,
                    opened: None,
                    provider: false,
                    previous: None,
                },
            );
        } else if self.frontier.len() > 0 {
            self.rotate();
            self.phase = Phase::Reading;
        } else {
            self.finish(t);
        }
    }

    fn turn(&mut self, t: Tick)
        requires
            old(self)@.wf(),
        ensures
            final(self)@ == old(self)@.turn(t),
    {
        proof {
            reveal(ScanState::turn);
        }
        if t.cancel || self.stats.cancelled {
            self.stop(t);
            return ;
        }
        self.pulse(t);
        let ghost start = self@;
        let explored: bool = self.next.len() == 0 && self.frontier.len() == 0
            && self.deferred.len() == 0;
        if self.measurements.len() > 0 && (self.measurement_turn || self.measurements.len()
            >= MAX_ACTIVE_MEASUREMENTS || explored) {
            self.measurement_turn = false;
            let job: ArtifactMeasurement = self.measurements.remove(0);
            assert(start.measurements[0] == job@);
            assert(self@.measurements =~= start.measurements.skip(1));
            self.phase = Phase::Measuring(job);
        } else {
            self.measurement_turn = true;
            self.explore(t);
        }
    }

    fn leave(&mut self)
        requires
            old(self)@.frontier.len() > 0,
        ensures
            final(self)@ == old(self)@.leave(),
    {
        let ghost start = self@;
        let _ = self.frontier.remove(0);
        assert(self@.frontier =~= start.frontier.skip(1));
        self.phase = Phase::Idle;
    }

    fn meet(&mut self, entry: Entry, opened: Option<u64>)
        requires
            old(self)@.wf(),
            old(self)@.frontier.len() > 0,
        ensures
            final(self)@ == old(self)@.meet(entry@, opened),
    {
        assert(self@.frontier[0] == self.frontier@[0]@);
        let mark: FrameMark = self.frontier[0].mark;
        self.phase = Phase::Looking(
            Item {
                entry,
                depth: mark.depth + 1,
                classify: mark.classify,
                lane: mark.lane,
                opened,
                provider: false,
                previous: None,
            },
        );
    }

    fn listed(&mut self, outcome: Result<Listing, String>, t: Tick)
        requires
            old(self)@.wf(),
            old(self)@.frontier.len() > 0,
        ensures
            final(self)@ == old(self)@.listed(outcome, t),
    {
        proof {
            reveal(ScanState::listed);
        }
        match outcome {
            Err(_) => {
                if t.cancel {
                    self.stop(t);
                } else {
                    self.stats.add_error();
                    self.leave();
                }
            },
            Ok(listing) => {
                count(&mut self.stats.entries, listing.files);
                count(&mut self.stats.entries, listing.skipped);
                count(&mut self.stats.files, listing.files);
                count(&mut self.stats.skipped, listing.skipped);
                count(&mut self.stats.metadata_skipped, listing.metadata_skipped);
                match listing.found {
                    Listed::Nothing => {
                        if !listing.finished {
                            self.wait();
                        } else {
                            if listing.changed {
                                self.stats.add_error();
                            }
                            self.leave();
                        }
                    },
                    Listed::Directory(path) => {
                        if is_kept_over(&self.plan.kept, &path) {
                            count(&mut self.stats.entries, 1);
                            count(&mut self.stats.directories, 1);
                            count(&mut self.stats.skipped, 1);
                            count(&mut self.stats.metadata_skipped, 1);
                            self.wait();
                        } else {
                            self.phase = Phase::Opening(path);
                        }
                    },
                    Listed::Entry(entry) => {
                        self.meet(entry, None);
                    },
                }
            },
        }
    }

    fn entered(&mut self, outcome: Result<(Entry, Option<u64>), String>, t: Tick)
        requires
            old(self)@.wf(),
            old(self)@.frontier.len() > 0,
        ensures
            final(self)@ == old(self)@.entered(outcome, t),
    {
        proof {
            reveal(ScanState::entered);
        }
        match outcome {
            Ok((entry, opened)) => {
                self.meet(entry, opened);
            },
            Err(_) => {
                if t.cancel {
                    self.stop(t);
                } else {
                    count(&mut self.stats.entries, 1);
                    count(&mut self.stats.directories, 1);
                    count(&mut self.stats.errors, 1);
                    count(&mut self.stats.skipped, 1);
                    self.wait();
                }
            },
        }
    }

    fn enter(&mut self, item: Item, classify: bool, id: u64)
        ensures
            final(self)@ == old(self)@.enter(item@, classify, id),
    {
        let ghost start = self@;
        let frame: Frame = Frame {
            path: item.entry.path,
            mark: FrameMark { id, depth: item.depth, classify, lane: item.lane },
        };
        let ghost added = frame@;
        if self.frontier.len() < MAX_SHALLOW_FRONTIER {
            self.frontier.push(frame);
            assert(self@.frontier =~= start.frontier.push(added));
        } else {
            self.frontier.insert(0, frame);
            assert(self@.frontier =~= seq![added] + start.frontier);
        }
    }

    fn descend(&mut self, item: Item, classify: bool, t: Tick)
        ensures
            final(self)@ == old(self)@.descend(item@, classify, t),
    {
        proof {
            reveal(ScanState::descend);
        }
        if !item.entry.meta.is_dir() {
            self.pulse(t);
            self.wait();
        } else if item.depth >= self.plan.max_depth {
            self.stats.add_skipped();
            self.stats.add_error();
            self.wait();
        } else {
            match item.opened {
                Some(id) => {
                    self.enter(item, classify, id);
                    self.pulse(t);
                    self.wait();
                },
                None => {
                    let from: Option<u64> = if item.depth > 0 && self.frontier.len() > 0 {
                        assert(self@.frontier[0] == self.frontier@[0]@);
                        Some(self.frontier[0].mark.id)
                    } else {
                        None
                    };
                    self.phase = Phase::Entering(item, classify, from);
                },
            }
        }
    }

    fn opened(&mut self, item: Item, classify: bool, outcome: Result<u64, String>, t: Tick)
        ensures
            final(self)@ == old(self)@.opened(item@, classify, outcome, t),
    {
        proof {
            reveal(ScanState::opened);
        }
        match outcome {
            Ok(id) => {
                self.enter(item, classify, id);
            },
            Err(_) => {
                self.stats.add_error();
                self.stats.add_skipped();
            },
        }
        self.pulse(t);
        self.wait();
    }

    fn looked(&mut self, seen: Item, facts: EntryFacts, t: Tick)
        ensures
            final(self)@ == old(self)@.looked(seen@, facts, t),
    {
        proof {
            reveal(ScanState::looked);
        }
        let mut item: Item = seen;
        item.provider = facts.provider;
        if item.previous.is_none() {
            tally(
                &mut self.stats,
                &mut self.links,
                &item.entry.meta,
                self.plan.root.identity.device,
            );
        }
        if is_kept_over(&self.plan.kept, &item.entry.path) || unfinished_download(
            &self.plan.downloads,
            &item.entry.path,
        ) {
            self.stats.add_skipped();
            self.wait();
            return ;
        }
        if self.plan.excludes(&item.entry.meta, &facts) {
            self.stats.add_skipped();
            self.wait();
            return ;
        }
        if self.plan.mode == ScanMode::Suggestions && item.classify && item.entry.meta.is_dir()
            && !self.plan.is_root(&item.entry.path) && is_artifact_name(
            &item.entry.path,
            item.provider,
        ) && !is_conditional_artifact_name(&item.entry.path, item.provider) && !quiet_for(
            item.entry.meta.identity.modified_ns,
            t.now_ns,
            DEVELOPER_QUIET_DAYS,
        ) {
            self.stats.add_skipped();
            self.stats.add_excluded();
            self.wait();
            return ;
        }
        let known: Option<Evidence> = match &item.previous {
            Some(checks) => Some(checks.found.copy()),
            None => None,
        };
        match known {
            Some(found) => {
                self.recognized(item, found, t);
            },
            None => {
                if item.classify && !self.plan.is_root(&item.entry.path) {
                    self.phase = Phase::Judging(item);
                } else {
                    let classify: bool = item.classify;
                    self.descend(item, classify, t);
                }
            },
        }
    }

    fn judged(&mut self, item: Item, outcome: Result<Option<Evidence>, String>, t: Tick)
        ensures
            final(self)@ == old(self)@.judged(item@, outcome_view(outcome), t),
    {
        proof {
            reveal(ScanState::judged);
        }
        match outcome {
            Ok(Some(found)) => {
                self.recognized(item, found, t);
            },
            Err(_) => {
                self.stats.add_skipped();
                if self.plan.mode == ScanMode::Suggestions && is_artifact_name(
                    &item.entry.path,
                    item.provider,
                ) {
                    self.stats.add_excluded();
                    self.wait();
                } else {
                    self.descend(item, false, t);
                }
            },
            Ok(None) => {
                if is_artifact_name(&item.entry.path, item.provider)
                    && !is_conditional_artifact_name(&item.entry.path, item.provider) {
                    self.stats.add_skipped();
                    if self.plan.mode == ScanMode::Suggestions {
                        self.stats.add_excluded();
                        self.wait();
                    } else {
                        self.descend(item, false, t);
                    }
                } else {
                    let classify: bool = item.classify;
                    self.descend(item, classify, t);
                }
            },
        }
    }

    fn recognized(&mut self, item: Item, found: Evidence, t: Tick)
        ensures
            final(self)@ == old(self)@.recognized(item@, found@, t),
    {
        proof {
            reveal(ScanState::recognized);
        }
        let meta: EntryMeta = item.entry.meta;
        let changed: i64 = meta.identity.modified_ns;
        if is_kept_below(&self.plan.kept, &item.entry.path) {
            self.stats.add_skipped();
            if meta.is_dir() {
                self.stats.add_excluded();
            }
            self.wait();
            return ;
        }
        if self.plan.mode == ScanMode::Suggestions && meta.is_dir()
            && is_conditional_artifact_name(&item.entry.path, item.provider) && !quiet_for(
            changed,
            t.now_ns,
            found.quiet_days,
        ) {
            self.stats.add_skipped();
            self.stats.add_excluded();
            self.wait();
            return ;
        }
        self.stats.elapsed_ms = t.elapsed_ms;
        let candidate: Candidate = make_candidate(
            &self.plan.root,
            &item.entry.path,
            &meta,
            &found,
        );
        if self.plan.mode == ScanMode::Suggestions && !meta.is_dir() {
            let mut sample: Measurement = Measurement::blank();
            sample.allocated_bytes = meta.allocated;
            sample.latest_modified_ns = changed;
            match suggestion_reason(&found, &sample, t.now_ns) {
                Some(reason) => {
                    self.declined(candidate, reason);
                    return ;
                },
                None => {},
            }
        }
        self.weighed(item, found, candidate, t);
    }

    fn declined(&mut self, candidate: Candidate, reason: String)
        ensures
            final(self)@ == old(self)@.declined(candidate@, reason@),
    {
        proof {
            reveal(ScanState::declined);
        }
        let mut candidate: Candidate = candidate;
        self.stats.add_skipped();
        candidate.provisional = false;
        let note: String = joined3(
            " Not suggested: ",
            reason.as_str(),
            ". Discovery metadata already excludes this file; it was not reopened or measured.",
        );
        candidate.explanation = joined(candidate.explanation.as_str(), note.as_str());
        candidate.blocked_reason = Some(reason);
        self.publish(candidate, false);
        self.wait();
    }

    fn weighed(&mut self, item: Item, found: Evidence, candidate: Candidate, t: Tick)
        ensures
            final(self)@ == old(self)@.weighed(item@, found@, candidate@, t),
    {
        proof {
            reveal(ScanState::weighed);
        }
        let known: Option<Checks> = match &item.previous {
            Some(checks) => Some(checks.copy()),
            None => None,
        };
        match known {
            Some(checks) => {
                self.checked(Case { item, candidate, checks }, t);
            },
            None => {
                let quiet: bool = quiet_for(
                    later_of(item.entry.meta.identity.modified_ns, found.latest_modified_ns),
                    t.now_ns,
                    found.quiet_days,
                );
                let asks: bool = found.rules.checks_activity && found.blocked.is_none() && quiet;
                let blocked: Option<String> = copy_text(&found.blocked);
                let case: Case = Case { item, candidate, checks: Checks { found, quiet, blocked } };
                if asks {
                    self.phase = Phase::Checking(case);
                } else {
                    self.checked(case, t);
                }
            },
        }
    }

    fn checked(&mut self, case: Case, t: Tick)
        ensures
            final(self)@ == old(self)@.checked(case@, t),
    {
        proof {
            reveal(ScanState::checked);
        }
        if case.item.previous.is_some() {
            self.phase = Phase::Verifying(case);
            return ;
        }
        let folder: bool = case.item.entry.meta.is_dir();
        if folder && (!case.checks.quiet || case.checks.blocked.is_some()) {
            if self.plan.mode == ScanMode::Suggestions {
                self.stats.add_skipped();
                self.stats.add_excluded();
                let mut candidate: Candidate = case.candidate;
                candidate.blocked_reason = match case.checks.blocked {
                    Some(reason) => Some(reason),
                    None => Some(recent_text(case.checks.found.quiet_days)),
                };
                candidate.provisional = false;
                candidate.explanation = joined(
                    candidate.explanation.as_str(),
                    " Not suggested: this artifact is already excluded by its ownership, modification time or current activity. Its contents were not traversed or measured.",
                );
                self.publish(candidate, false);
                self.wait();
            } else {
                self.publish(case.candidate, false);
                let ghost start = self@;
                let row: DeferredArtifact = DeferredArtifact {
                    entry: case.item.entry,
                    checks: case.checks,
                };
                let ghost added = row@;
                self.deferred.push(row);
                assert(self@.deferred =~= start.deferred.push(added));
                self.wait();
            }
            return ;
        }
        if self.plan.mode == ScanMode::Suggestions && folder && self.plan.hints {
            self.phase = Phase::Hinting(case);
            return ;
        }
        self.begin(case, t);
    }

    fn verified(&mut self, case: Case, outcome: Result<(), String>, t: Tick)
        ensures
            final(self)@ == old(self)@.verified(
                case@,
                match outcome {
                    Ok(_) => None,
                    Err(reason) => Some(reason@),
                },
                t,
            ),
    {
        proof {
            reveal(ScanState::verified);
        }
        match outcome {
            Ok(_) => {
                self.begin(case, t);
            },
            Err(reason) => {
                if t.cancel {
                    self.stats.cancelled = true;
                } else {
                    self.stats.add_error();
                }
                self.stats.add_skipped();
                let mut candidate: Candidate = case.candidate;
                candidate.blocked_reason = Some(reason);
                candidate.provisional = false;
                self.publish(candidate, false);
                self.wait();
            },
        }
    }

    fn hinted(&mut self, case: Case, hint: Option<FsPath>, t: Tick)
        ensures
            final(self)@ == old(self)@.hinted(case@, path_view(hint), t),
    {
        proof {
            reveal(ScanState::hinted);
        }
        match hint {
            None => {
                self.begin(case, t);
            },
            Some(path) => {
                if is_kept_over(&self.plan.kept, &path) || !is_strictly_under(
                    path_bytes(&path),
                    path_bytes(&case.item.entry.path),
                ) {
                    self.press.tell(Notice::Forget(share(&case.item.entry.path)));
                    self.begin(case, t);
                } else {
                    self.phase = Phase::Observing(case, path);
                }
            },
        }
    }

    fn observed(&mut self, case: Case, meta: Option<EntryMeta>, t: Tick)
        ensures
            final(self)@ == old(self)@.observed(case@, meta, t),
    {
        proof {
            reveal(ScanState::observed);
        }
        if t.cancel {
            self.stop(t);
            return ;
        }
        let days: i64 = case.checks.found.quiet_days;
        match recent_file_modified(
            &meta,
            self.plan.root.identity.device,
            quiet_cutoff(t.now_ns, days),
            self.plan.user,
        ) {
            Some(modified_ns) => {
                self.stats.add_skipped();
                self.stats.add_excluded();
                let mut candidate: Candidate = case.candidate;
                candidate.modified_ns = later_of(candidate.modified_ns, modified_ns);
                candidate.provisional = false;
                candidate.blocked_reason = Some(
                    joined3(
                        "Artifact contents changed within the required ",
                        signed_decimal(days).as_str(),
                        " quiet days",
                    ),
                );
                candidate.explanation = joined(
                    candidate.explanation.as_str(),
                    " A recently modified local file was verified inside this artifact. Its contents were not traversed or measured.",
                );
                self.publish(candidate, false);
                self.wait();
            },
            None => {
                self.press.tell(Notice::Forget(share(&case.item.entry.path)));
                self.begin(case, t);
            },
        }
    }

    fn begin(&mut self, case: Case, t: Tick)
        ensures
            final(self)@ == old(self)@.begin(case@, t),
    {
        proof {
            reveal(ScanState::begin);
        }
        let fresh: bool = case.item.previous.is_none() && case.checks.quiet
            && case.checks.blocked.is_none();
        let is_dir: bool = case.item.entry.meta.is_dir();
        let suggests: bool = self.plan.mode == ScanMode::Suggestions;
        self.publish(case.candidate.copy(), false);
        let review: ArtifactReview = ArtifactReview {
            cutoff: quiet_cutoff(t.now_ns, case.checks.found.quiet_days),
            can_learn: suggests && fresh && is_dir && self.plan.hints,
            recent_leaf: None,
            is_dir,
            entry: case.item.entry,
            found: case.checks.found,
            candidate: case.candidate,
            blocked: case.checks.blocked,
        };
        let effort: Effort = if !fresh {
            Effort::Metadata
        } else if suggests {
            Effort::Suggestion
        } else {
            Effort::Full
        };
        self.phase = Phase::Starting(review, effort);
    }

    fn started(&mut self, review: ArtifactReview, outcome: Result<u64, String>, t: Tick)
        ensures
            final(self)@ == old(self)@.started(review@, outcome, t),
    {
        proof {
            reveal(ScanState::started);
        }
        self.stats.elapsed_ms = t.elapsed_ms;
        if review.retained_bytes() > MAX_MEASUREMENT_JOB_BYTES {
            self.failed(
                review,
                "Artifact scheduling metadata exceeds the bounded queue limit".to_owned(),
                t,
            );
            return ;
        }
        match outcome {
            Ok(cursor) => {
                let ghost start = self@;
                let job: ArtifactMeasurement = ArtifactMeasurement { review, cursor };
                let ghost added = job@;
                self.measurements.push(job);
                assert(self@.measurements =~= start.measurements.push(added));
                self.wait();
            },
            Err(reason) => {
                self.failed(review, reason, t);
            },
        }
    }

    fn seen(&mut self, job: ArtifactMeasurement, entry: Entry, partial: Measurement, t: Tick)
        ensures
            final(self)@ == old(self)@.seen(job@, entry@, partial, t),
    {
        proof {
            reveal(ScanState::seen);
        }
        let mut job: ArtifactMeasurement = job;
        let device: u64 = self.plan.root.identity.device;
        if !is_same_place(path_bytes(&entry.path), path_bytes(&job.review.entry.path)) {
            tally(&mut self.stats, &mut self.links, &entry.meta, device);
            if job.review.can_learn && job.review.recent_leaf.is_none() && partial.errors == 0
                && partial.unsafe_reason.is_none() && is_recent_local_file(
                &entry.meta,
                device,
                job.review.cutoff,
                self.plan.user,
            ) && !is_kept_over(&self.plan.kept, &entry.path) {
                job.review.recent_leaf = Some(share(&entry.path));
            }
        }
        if self.press.due {
            self.stats.elapsed_ms = t.elapsed_ms;
            apply_measurement(&mut job.review.candidate, &partial);
            self.publish(job.review.candidate.copy(), true);
        }
        self.phase = Phase::Measuring(job);
    }

    fn yielded(&mut self, job: ArtifactMeasurement)
        ensures
            final(self)@ == old(self)@.yielded(job@),
    {
        let ghost start = self@;
        let ghost added = job@;
        self.measurements.push(job);
        assert(self@.measurements =~= start.measurements.push(added));
        self.wait();
    }

    fn measured(&mut self, job: ArtifactMeasurement, outcome: Result<Measurement, String>, t: Tick)
        ensures
            final(self)@ == old(self)@.measured(job@, outcome, t),
    {
        proof {
            reveal(ScanState::measured);
        }
        self.stats.elapsed_ms = t.elapsed_ms;
        match outcome {
            Err(reason) => {
                self.failed(job.review, reason, t);
            },
            Ok(measured) => {
                self.reviewed(job.review, measured, t);
            },
        }
    }

    fn failed(&mut self, review: ArtifactReview, reason: String, t: Tick)
        ensures
            final(self)@ == old(self)@.failed(review@, reason@, t),
    {
        proof {
            reveal(ScanState::failed);
        }
        let mut review: ArtifactReview = review;
        if t.cancel {
            self.stats.cancelled = true;
        } else {
            self.stats.add_error();
        }
        review.blocked = Some(reason);
        self.conclude(review, Some("Measurement is incomplete".to_owned()));
    }

    fn reviewed(&mut self, review: ArtifactReview, measured: Measurement, t: Tick)
        ensures
            final(self)@ == old(self)@.reviewed(review@, measured, t),
    {
        proof {
            reveal(ScanState::reviewed);
        }
        let mut review: ArtifactReview = review;
        count(&mut self.stats.skipped, measured.skipped);
        count(&mut self.stats.errors, measured.errors);
        if measured.pruned {
            self.stats.add_excluded();
            if measured.errors == 0 && self.plan.hints {
                match &review.recent_leaf {
                    Some(leaf) => {
                        self.press.tell(Notice::Remember(share(&review.entry.path), share(leaf)));
                    },
                    None => {},
                }
            }
        }
        let quality: Option<String> = if measured.pruned {
            Some(
                "Measurement stopped when this artifact became ineligible; remaining contents were not traversed".to_owned(),
            )
        } else {
            suggestion_reason(&review.found, &measured, t.now_ns)
        };
        apply_measurement(&mut review.candidate, &measured);
        if review.blocked.is_none() {
            review.blocked = measured.unsafe_reason;
        }
        if review.blocked.is_none() && quality.is_none() && review.found.rules.checks_git {
            self.phase = Phase::Tracking(review);
        } else {
            self.untracked(review, quality);
        }
    }

    fn untracked(&mut self, review: ArtifactReview, quality: Option<String>)
        ensures
            final(self)@ == old(self)@.untracked(review@, text_view(quality)),
    {
        proof {
            reveal(ScanState::untracked);
        }
        if review.blocked.is_none() && quality.is_none() && review.found.rules.checks_activity {
            self.phase = Phase::Using(review);
        } else {
            self.unused(review, quality);
        }
    }

    fn unused(&mut self, review: ArtifactReview, quality: Option<String>)
        ensures
            final(self)@ == old(self)@.unused(review@, text_view(quality)),
    {
        proof {
            reveal(ScanState::unused);
        }
        if review.blocked.is_none() && quality.is_none() {
            self.phase = Phase::Recalling(review);
        } else {
            self.conclude(review, quality);
        }
    }

    fn recalled(&mut self, review: ArtifactReview, outcome: Result<Option<Evidence>, String>)
        ensures
            final(self)@ == old(self)@.recalled(review@, outcome_view(outcome)),
    {
        proof {
            reveal(ScanState::recalled);
        }
        let mut review: ArtifactReview = review;
        let same: bool = match &outcome {
            Ok(Some(current)) => same_text(
                current.fingerprint.as_str(),
                review.found.fingerprint.as_str(),
            ) && current.blocked.is_none(),
            _ => false,
        };
        if !same {
            review.blocked = Some(
                "Project evidence changed during the scan; refresh this review".to_owned(),
            );
        }
        self.conclude(review, None);
    }

    fn conclude(&mut self, review: ArtifactReview, quality: Option<String>)
        ensures
            final(self)@ == old(self)@.conclude(review@, text_view(quality)),
    {
        proof {
            reveal(ScanState::conclude);
        }
        let mut candidate: Candidate = review.candidate;
        let doubt: Option<String> = match quality {
            Some(reason) => Some(reason),
            None => {
                if candidate.fingerprint.as_str().unicode_len() == 0 {
                    Some(
                        "This was a diagnostic-only measurement; refresh to review current eligibility".to_owned(),
                    )
                } else {
                    None
                }
            },
        };
        let offered: bool = review.blocked.is_none() && doubt.is_none() && !self.stats.cancelled;
        let first: bool = offered && self.stats.first_finding_ms.is_none();
        candidate.blocked_reason = review.blocked;
        candidate.provisional = false;
        candidate.suggestion_eligible = offered;
        candidate.eligible_permanent = review.found.rules.permanent && offered;
        if offered {
            count(&mut self.stats.candidates, 1);
            if first {
                self.stats.first_finding_ms = Some(self.stats.elapsed_ms);
            }
            let note: String = offer_text(&review.found, review.is_dir);
            candidate.explanation = joined(candidate.explanation.as_str(), note.as_str());
        } else {
            self.stats.add_skipped();
            match doubt {
                Some(reason) => {
                    let note: String = joined3(" Not suggested: ", reason.as_str(), ".");
                    candidate.explanation = joined(candidate.explanation.as_str(), note.as_str());
                },
                None => {},
            }
        }
        self.publish(candidate, first);
        self.wait();
    }

    fn answer_reading(&mut self, phase: Phase, event: Event, t: Tick)
        requires
            old(self)@.wf(),
            old(self)@.phase is Idle,
            phase@ is Idle || phase@ is Reading || phase@ is Opening || phase@ is Entering
                || phase@ is Done,
            phase@ is Reading || phase@ is Opening ==> old(self)@.frontier.len() > 0,
        ensures
            final(self)@ == old(self)@.answered(phase@, event, t),
    {
        proof {
            reveal(ScanState::answered);
        }
        match phase {
            Phase::Idle => match event {
                Event::Proceed => {
                    self.turn(t);
                },
                _ => {},
            },
            Phase::Reading => match event {
                Event::Listed(outcome) => {
                    self.listed(outcome, t);
                },
                _ => {
                    self.phase = Phase::Reading;
                },
            },
            Phase::Opening(path) => match event {
                Event::Entered(outcome) => {
                    self.entered(outcome, t);
                },
                _ => {
                    self.phase = Phase::Opening(path);
                },
            },
            Phase::Entering(item, classify, from) => match event {
                Event::Opened(outcome) => {
                    self.opened(item, classify, outcome, t);
                },
                _ => {
                    self.phase = Phase::Entering(item, classify, from);
                },
            },
            other => {
                self.phase = other;
            },
        }
    }

    fn answer_judging(&mut self, phase: Phase, event: Event, t: Tick)
        requires
            old(self)@.phase is Idle,
            phase@ is Looking || phase@ is Judging || phase@ is Checking || phase@ is Verifying,
        ensures
            final(self)@ == old(self)@.answered(phase@, event, t),
    {
        proof {
            reveal(ScanState::answered);
        }
        match phase {
            Phase::Looking(item) => match event {
                Event::Facts(facts) => {
                    self.looked(item, facts, t);
                },
                _ => {
                    self.phase = Phase::Looking(item);
                },
            },
            Phase::Judging(item) => match event {
                Event::Evidence(outcome) => {
                    self.judged(item, outcome, t);
                },
                _ => {
                    self.phase = Phase::Judging(item);
                },
            },
            Phase::Checking(case) => match event {
                Event::Activity(reason) => {
                    let mut case: Case = case;
                    case.checks.blocked = reason;
                    self.checked(case, t);
                },
                _ => {
                    self.phase = Phase::Checking(case);
                },
            },
            Phase::Verifying(case) => match event {
                Event::Verified(outcome) => {
                    self.verified(case, outcome, t);
                },
                _ => {
                    self.phase = Phase::Verifying(case);
                },
            },
            other => {
                self.phase = other;
            },
        }
    }

    fn answer_starting(&mut self, phase: Phase, event: Event, t: Tick)
        requires
            old(self)@.phase is Idle,
            phase@ is Hinting || phase@ is Observing || phase@ is Starting,
        ensures
            final(self)@ == old(self)@.answered(phase@, event, t),
    {
        proof {
            reveal(ScanState::answered);
        }
        match phase {
            Phase::Hinting(case) => match event {
                Event::Hint(hint) => {
                    self.hinted(case, hint, t);
                },
                _ => {
                    self.phase = Phase::Hinting(case);
                },
            },
            Phase::Observing(case, path) => match event {
                Event::Observed(meta) => {
                    self.observed(case, meta, t);
                },
                _ => {
                    self.phase = Phase::Observing(case, path);
                },
            },
            Phase::Starting(review, effort) => match event {
                Event::Cursor(outcome) => {
                    self.started(review, outcome, t);
                },
                _ => {
                    self.phase = Phase::Starting(review, effort);
                },
            },
            other => {
                self.phase = other;
            },
        }
    }

    fn answer_measuring(&mut self, phase: Phase, event: Event, t: Tick)
        requires
            old(self)@.phase is Idle,
            phase@ is Measuring || phase@ is Tracking || phase@ is Using || phase@ is Recalling,
        ensures
            final(self)@ == old(self)@.answered(phase@, event, t),
    {
        proof {
            reveal(ScanState::answered);
        }
        match phase {
            Phase::Measuring(job) => match event {
                Event::Seen(entry, partial) => {
                    self.seen(job, entry, partial, t);
                },
                Event::Pending => {
                    self.yielded(job);
                },
                Event::Measured(outcome) => {
                    self.measured(job, outcome, t);
                },
                _ => {
                    self.phase = Phase::Measuring(job);
                },
            },
            Phase::Tracking(review) => match event {
                Event::Git(reason) => {
                    let mut review: ArtifactReview = review;
                    review.blocked = reason;
                    self.untracked(review, None);
                },
                _ => {
                    self.phase = Phase::Tracking(review);
                },
            },
            Phase::Using(review) => match event {
                Event::Activity(reason) => {
                    let mut review: ArtifactReview = review;
                    review.blocked = reason;
                    self.unused(review, None);
                },
                _ => {
                    self.phase = Phase::Using(review);
                },
            },
            Phase::Recalling(review) => match event {
                Event::Evidence(outcome) => {
                    self.recalled(review, outcome);
                },
                _ => {
                    self.phase = Phase::Recalling(review);
                },
            },
            other => {
                self.phase = other;
            },
        }
    }

    /// Moves a session on with an answer to what it waits for. An answer to
    /// something else is ignored.
    pub fn step(&mut self, event: Event, t: Tick)
        requires
            old(self)@.wf(),
        ensures
            final(self)@ == old(self)@.step(event, t),
            final(self)@.wf(),
    {
        proof {
            step_keeps_wf(self@, event, t);
        }
        let ghost start = self@;
        self.press.due = t.due;
        let mut phase: Phase = Phase::Idle;
        std::mem::swap(&mut phase, &mut self.phase);
        assert(self@ =~= (ScanState {
            press: Press { due: t.due, ..start.press },
            phase: Stage::Idle,
            ..start
        }));
        assert(phase@ == start.phase);
        match &phase {
            Phase::Looking(_) | Phase::Judging(_) | Phase::Checking(_) | Phase::Verifying(_) => {
                self.answer_judging(phase, event, t);
            },
            Phase::Hinting(_) | Phase::Observing(_, _) | Phase::Starting(_, _) => {
                self.answer_starting(phase, event, t);
            },
            Phase::Measuring(_) | Phase::Tracking(_) | Phase::Using(_) | Phase::Recalling(_) => {
                self.answer_measuring(phase, event, t);
            },
            _ => {
                self.answer_reading(phase, event, t);
            },
        }
    }
}

} // verus!
