//! What was earned, done and shown.
use crate::model::ForegroundScan;
use crate::store::foreground::{save_failure, shown_summary};
use crate::store::ledger::{
    all_collected, interruption, newest, older, reconciled, window_reconciled,
};
use crate::store::{pending_coins, Earning, Foreground, Operation, SavedSummary, Window};
use crate::tables::filter_holds;
use vstd::prelude::*;
use vstd::utf8::encode_utf8;

verus! {

/// What an earning adds to what is pending: its coins until they are collected, and
/// nothing after.
pub proof fn uncollected_coins_are_pending(earnings: Seq<Earning>, earning: Earning)
    ensures
        pending_coins(earnings.push(earning)) == pending_coins(earnings) + if earning.collected {
            0
        } else {
            earning.coins as int
        },
        pending_coins(Seq::<Earning>::empty()) == 0,
        pending_coins(earnings) >= 0,
    decreases earnings.len(),
{
    assert(earnings.push(earning).drop_last() =~= earnings);
    if earnings.len() > 0 {
        uncollected_coins_are_pending(earnings.drop_last(), earnings.last());
        assert(earnings.drop_last().push(earnings.last()) =~= earnings);
    }
}

/// Collecting keeps every earning and its coins.
pub proof fn collecting_keeps_the_earnings(before: Seq<Earning>, after: Seq<Earning>, i: int)
    requires
        all_collected(before, after),
        0 <= i < before.len(),
    ensures
        after.len() == before.len(),
        after[i].collected,
        after[i].coins == before[i].coins,
        after[i].operation_id == before[i].operation_id,
{
}

/// The history begins with what was done last and goes back from there, as far as
/// there is room: a page is full unless nothing older is left.
pub proof fn history_goes_back_from_the_last(rows: Seq<Operation>, limit: int, i: int)
    requires
        limit >= 0,
    ensures
        newest(rows, limit).len() == if rows.len() < limit {
            rows.len() as int
        } else {
            limit
        },
        0 <= i < newest(rows, limit).len() ==> newest(rows, limit)[i] == rows[rows.len() - 1 - i],
{
}

/// A page holds only what is older than its cursor, and without a cursor everything.
pub proof fn pages_lie_before_their_cursor(
    rows: Seq<Operation>,
    before: Option<i64>,
    operation: Operation,
)
    ensures
        rows.filter(older(before)).contains(operation) <==> rows.contains(operation) && (
        before is None || operation.seq < before->Some_0),
{
    filter_holds(rows, older(before));
}

/// What was under way is interrupted: it cannot be restored, its size is not credited
/// anew, and a staged item is named. What was finished stays as it is.
pub proof fn what_was_under_way_is_interrupted(before: Operation, after: Operation)
    requires
        reconciled(before, after),
    ensures
        before.state@ == "prepared"@ || before.state@ == "mutating"@ || before.state@
            == "restoring"@ ==> {
            &&& after.state@ == "interrupted"@
            &&& after.receipt.outcome@ == "interrupted"@
            &&& !after.receipt.can_restore
            &&& after.receipt.credited_bytes == before.receipt.credited_bytes
            &&& after.receipt.coins == before.receipt.coins
            &&& after.receipt.id == before.receipt.id
            &&& after.seq == before.seq && after.id == before.id
        },
        before.state@ != "prepared"@ && before.state@ != "mutating"@ && before.state@
            != "restoring"@ ==> after == before,
{
}

/// What an interrupted operation says ends with where a staged item may remain, and
/// keeps what was said before.
pub proof fn interruptions_tell_what_was_said(detail: Seq<char>, stage: String)
    ensures
        interruption(detail, None).len() <= interruption(detail, Some(stage)).len(),
        exists|front: Seq<char>|
            interruption(detail, Some(stage)) == #[trigger] (front
                + " A staged item may remain at "@ + stage@ + "."@),
        detail.len() > 0 ==> exists|front: Seq<char>|
            interruption(detail, None) == #[trigger] (front + " "@ + detail),
{
    let base =
        "Interrupted before a durable result. No deletion was replayed and no space was credited. Inspect the original location before trying again."@;
    let told = interruption(detail, None);
    assert(interruption(detail, Some(stage)) =~= told + " A staged item may remain at "@ + stage@
        + "."@);
    if detail.len() > 0 {
        assert(told == base + " "@ + detail);
    }
}

/// Open windows are interrupted, all others stay.
pub proof fn open_windows_are_interrupted(before: Window, after: Window)
    requires
        window_reconciled(before, after),
    ensures
        before.state@ == "open"@ ==> after.state@ == "interrupted"@ && after.id == before.id
            && after.domain == before.domain,
        before.state@ != "open"@ ==> after == before,
{
}

/// A summary can be saved exactly when its scan has ended, calls itself complete only
/// without a cancellation and without errors, belongs to a context, and fits.
pub proof fn finished_summaries_can_be_saved(
    foreground: Foreground,
    expected: i64,
    scan: ForegroundScan,
    json: Seq<u8>,
)
    requires
        foreground.revision >= 0,
    ensures
        save_failure(foreground, expected, scan, json) is None <==> {
            &&& !scan.active
            &&& scan.stats.complete ==> !scan.stats.cancelled && scan.stats.errors == 0
            &&& expected >= 0
            &&& encode_utf8(scan.stats.message@).len() <= 65536
            &&& json.len() <= 65536
        },
{
}

/// A saved summary is shown exactly when it could be read, fits, and can be relied on.
pub proof fn readable_summaries_are_shown(foreground: Foreground, saved: SavedSummary, scan: ForegroundScan)
    requires
        foreground.summary == Some(saved),
    ensures
        saved.scan == Some(scan) && saved.json@.len() <= 65536 && !scan.active && (
        scan.stats.complete ==> !scan.stats.cancelled && scan.stats.errors == 0) ==> shown_summary(
            foreground,
        ) == Some(scan),
        saved.scan is None || saved.json@.len() > 65536 ==> shown_summary(foreground) is None,
        saved.scan == Some(scan) && (scan.active || (scan.stats.complete && (scan.stats.cancelled
            || scan.stats.errors != 0))) ==> shown_summary(foreground) is None,
{
}

} // verus!
