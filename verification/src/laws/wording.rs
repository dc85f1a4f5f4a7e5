//! What is told to the one who reads it.
use crate::activity::in_use_reason;
use crate::document::Doc;
use crate::evidence::Found;
use crate::git::index::malformed;
use crate::manifest::manifest_outcome;
use crate::model::{EntryMeta, ForegroundScan};
use crate::node::{modern_yarn_reason, no_owner_reason};
use crate::scanner::review::deferred_failure;
use crate::scanner::start::scanning_message;
use crate::scanner::state::{
    closing_message, diagnostic_reason, excluded_note, hinted_note, offer_note, pruned_reason,
    plain_file_note, refusal_note, Plan, ScanMode,
};
use crate::sightings::{no_counts, waiting_reason, Counters};
use crate::storage_inventory::locate::{exact_path_failure, moved_failure};
use crate::storage_inventory::report::{link_detail, IssueKind};
use crate::store::foreground::summary_failure;
use crate::store::no_row;
use crate::store::retention::retention_reason;
use crate::text::{digits, signed_digits};
use crate::workspace::{complex_pattern_reason, local_pattern_reason, membership_limit_reason};
use vstd::prelude::*;

verus! {

/// Why something is not offered is said in these words.
pub proof fn reasons_are_worded()
    ensures
        in_use_reason() == "A running process is using this project; close it and scan again"@,
        malformed() == "The Git index format could not be safely verified"@,
        modern_yarn_reason()
            == "Modern Yarn or shared installation layouts need manual inspection"@,
        no_owner_reason()
            == "No supported lockfile proves ownership of this project or workspace member"@,
        pruned_reason()
            == "Measurement stopped when this artifact became ineligible; remaining contents were not traversed"@,
        diagnostic_reason()
            == "This was a diagnostic-only measurement; refresh to review current eligibility"@,
        waiting_reason() == "Measuring and checking this item; cleanup is not yet available"@,
        retention_reason() == "derived retention protected or evicted observations"@,
        no_row() == "Query returned no rows"@,
        local_pattern_reason() == "Workspace paths are not supported local relative patterns"@,
        complex_pattern_reason() == "Complex workspace patterns need manual inspection"@,
        membership_limit_reason() == "Workspace membership exceeds the bounded evidence limit"@,
        link_detail() == "Symbolic links are not followed by the overview."@,
        exact_path_failure().kind == IssueKind::Unavailable,
        exact_path_failure().detail == "The overview requires an exact local path."@,
        moved_failure().kind == IssueKind::Changed,
        moved_failure().detail
            == "This storage location moved or changed. Its previous measurement is no longer associated with this path."@,
{
}

/// An explanation is continued with what was found out: the least size in megabytes and
/// the days without a change, or why the artifact is not suggested.
pub proof fn notes_tell_what_was_found(found: Found, reason: Seq<char>)
    ensures
        offer_note(found, true) == " At least "@ + digits(
            (found.rules.minimum_bytes / 1_000_000) as nat,
        )
            + " MB is allocated locally. The "@ + "contents and identification files"@
            + " have been unmodified for at least "@ + signed_digits(found.quiet_days as int)
            + " days."@,
        offer_note(found, false) == " At least "@ + digits(
            (found.rules.minimum_bytes / 1_000_000) as nat,
        ) + " MB is allocated locally. The "@ + "file contents"@
            + " have been unmodified for at least "@ + signed_digits(found.quiet_days as int)
            + " days."@,
        refusal_note(reason) == " Not suggested: "@ + reason + "."@,
        excluded_note()
            == " Not suggested: this artifact is already excluded by its ownership, modification time or current activity. Its contents were not traversed or measured."@,
        hinted_note()
            == " A recently modified local file was verified inside this artifact. Its contents were not traversed or measured."@,
{
}

/// A scan begins with nothing counted, and is neither complete nor cancelled.
pub proof fn nothing_is_counted_at_first()
    ensures
        no_counts().entries == 0,
        no_counts().files == 0,
        no_counts().directories == 0,
        no_counts().skipped == 0,
        no_counts().metadata_skipped == 0,
        no_counts().errors == 0,
        no_counts().excluded_artifacts == 0,
        no_counts().candidates == 0,
        no_counts().logical_bytes == 0,
        no_counts().allocated_bytes == 0,
        no_counts().elapsed_ms == 0,
        no_counts().first_finding_ms is None,
        !no_counts().complete,
        !no_counts().cancelled,
        no_counts().message.len() == 0,
        scanning_message() == "Scanning authorized local files…"@,
{
}

/// A scan of the home ends by saying whether it was cancelled, or could not look
/// everywhere, or found all there was.
pub proof fn scans_of_the_home_say_how_they_ended(plan: Plan, full: bool, stats: Counters)
    requires
        plan.logical,
    ensures
        stats.cancelled ==> closing_message(plan, full, stats)
            == "Scan cancelled; completed findings remain available."@,
        !stats.cancelled && stats.errors > 0 ==> closing_message(plan, full, stats)
            == "Scan finished with inaccessible locations; completed findings are ready to review."@,
        !stats.cancelled && stats.errors == 0 ==> closing_message(plan, full, stats)
            == "Scan complete. Targeted cleanup and personal-file findings are ready to review."@,
{
}

/// Another scan ends by saying what was left out.
pub proof fn other_scans_say_how_they_ended(plan: Plan, stats: Counters)
    requires
        !plan.logical,
    ensures
        stats.cancelled ==> closing_message(plan, false, stats)
            == "Scan cancelled; the displayed coverage is partial"@,
        !stats.cancelled ==> closing_message(plan, true, stats)
            == "Partial accounting: the bounded hard-link identity limit was reached; additional shared files received zero size credit"@,
        !stats.cancelled && stats.errors > 0 ==> closing_message(plan, false, stats)
            == "Partial coverage: "@ + digits(stats.errors as nat)
            + " inaccessible or changed portions; "@ + digits(stats.skipped as nat)
            + " excluded boundaries"@,
        !stats.cancelled && stats.errors == 0 && plan.mode == ScanMode::Suggestions
            ==> closing_message(plan, false, stats) == "Suggestion discovery complete; "@ + digits(
            stats.entries as nat,
        ) + " entries examined and "@ + digits(stats.excluded_artifacts as nat)
            + " ineligible artifact contents excluded from traversal"@,
        !stats.cancelled && stats.errors == 0 && plan.mode != ScanMode::Suggestions
            ==> closing_message(plan, false, stats) == "Scan complete within the selected scope; "@
            + digits(stats.skipped as nat)
            + " protected, unsupported, kept, or unqualified opportunities excluded"@,
{
}

/// Of a file that its metadata alone rules out it is said that it was not opened.
pub proof fn plain_files_are_not_opened(reason: Seq<char>)
    ensures
        plain_file_note(reason) == " Not suggested: "@ + reason
            + ". Discovery metadata already excludes this file; it was not reopened or measured."@,
{
}

/// Why an artifact that waited cannot be measured is said by what changed: the entry,
/// its owner or what is known of the project.
pub proof fn waiting_artifacts_say_what_changed(
    expected: EntryMeta,
    meta: EntryMeta,
    found: Found,
    now: Found,
    reason: Seq<char>,
)
    ensures
        meta != expected ==> deferred_failure(expected, found, Ok(meta), Ok(Some(now))) == Some(
            "The artifact changed while waiting for metadata coverage; refresh this location"@,
        ),
        deferred_failure(expected, found, Err(reason), Ok(Some(now))) == Some(reason),
        deferred_failure(expected, found, Ok(expected), Err(reason)) == Some(reason),
        deferred_failure(expected, found, Ok(expected), Ok(None)) == Some(
            "Project ownership changed while waiting for metadata coverage"@,
        ),
        now.fingerprint != found.fingerprint || now.blocked != found.blocked || now.latest
            != found.latest ==> deferred_failure(expected, found, Ok(expected), Ok(Some(now)))
            == Some(
            "Project evidence changed while waiting for metadata coverage; refresh this location"@,
        ),
        deferred_failure(expected, found, Ok(expected), Ok(Some(found))) is None,
{
}

/// What cannot be a summary is refused by saying why.
pub proof fn summaries_are_refused_with_a_reason(scan: ForegroundScan)
    ensures
        scan.active ==> summary_failure(scan) == Some(
            "An active foreground scan cannot be a saved summary"@,
        ),
        !scan.active && scan.stats.complete && (scan.stats.cancelled || scan.stats.errors > 0)
            ==> summary_failure(scan) == Some(
            "The foreground summary has inconsistent completion status"@,
        ),
{
}

/// What is no manifest of a project is refused by saying why.
pub proof fn manifests_are_refused_with_a_reason(document: Doc)
    ensures
        manifest_outcome(None) == Err::<Doc, Seq<char>>("package.json is not valid JSON"@),
        !(document is Table) ==> manifest_outcome(Some(document)) == Err::<Doc, Seq<char>>(
            "package.json is not an object"@,
        ),
        manifest_outcome(Some(document)) is Err && document is Table ==> manifest_outcome(
            Some(document),
        ) == Err::<Doc, Seq<char>>("The package manifest does not identify a project"@),
{
}

} // verus!
