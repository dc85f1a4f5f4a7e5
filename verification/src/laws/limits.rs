//! The numbers and the order that everything goes by.
use crate::activity::{ACTIVITY_MAX_AGE_MS, SCAN_ACTIVITY_MAX_AGE_MS};
use crate::evidence::{DAY_NS, DEVELOPER_QUIET_DAYS};
use crate::git::config::unmarked;
use crate::git::evidence::MAX_GIT_POINTER_BYTES;
use crate::git::index::{CHECKSUM_BYTES, ENTRY_BYTES, LONG_NAME, MAX_GIT_INDEX_BYTES};
use crate::git::tracking::{GIT_OUTPUT_WAIT_NS, POLLHUP, POLLIN};
use crate::manifest::{
    MANIFEST_ENTRY_BYTES, MAX_MANIFEST_CACHE_BYTES, MAX_MANIFEST_CACHE_ENTRIES,
    MIN_MANIFEST_CACHE_BYTES, PATTERN_SLOT_BYTES,
};
use crate::model::{FLAG_DATALESS, TYPE_DIRECTORY, TYPE_LINK, TYPE_MASK, TYPE_REGULAR};
use crate::order::precedes;
use crate::paths::{SLASH, ZERO};
use crate::pnpm_cache::{
    MAX_PNPM_CACHE_BYTES, MAX_PNPM_CACHE_ENTRIES, MAX_PNPM_KEYS, MIN_PNPM_CACHE_BYTES,
    PNPM_ENTRY_BYTES, PNPM_KEY_BYTES,
};
use crate::scanner::press::MAX_BATCH;
use crate::scanner::review::{
    MAX_MEASUREMENT_JOB_BYTES, MEASUREMENT_QUANTUM_ENTRIES, MEASUREMENT_QUANTUM_MS,
};
use crate::scanner::state::{
    MAX_ACTIVE_MEASUREMENTS, MAX_DEFERRED_ARTIFACTS, MAX_SCAN_LANES, MAX_SHALLOW_FRONTIER,
};
use crate::sources::{MAX_CONTENT_CACHE_BYTES, MAX_CONTENT_CACHE_ENTRIES};
use crate::storage_inventory::report::{MAX_ISSUES, MAX_PATH_BYTES};
use crate::storage_inventory::routes::{SYSTEM_ROUTES, USER_ROUTES};
use crate::store::batch::{buried, shortfall, unchanged};
use crate::store::duplicates::{MAX_BUCKETS, MAX_DUPLICATE_FILES, MAX_INPUT_JSON_BYTES};
use crate::store::findings::MAX_VISIBLE;
use crate::store::foreground::MAX_FOREGROUND_SUMMARY_BYTES;
use crate::store::ledger::HISTORY_ROWS;
use crate::store::recover::DERIVED_USAGE_VERSION;
use crate::store::{
    Index, IndexRow, CANDIDATE_PAYLOAD_OVERHEAD, DEFAULT_MAX_CANDIDATE_JSON_BYTES,
    DEFAULT_MAX_CANDIDATE_PAYLOAD_BYTES, DEFAULT_MAX_CANDIDATE_ROWS, DERIVED_MAINTENANCE_ROWS,
};
use vstd::prelude::*;

verus! {

/// How long things count: a day, the quiet of a project, the processes that were seen,
/// and a wait for an answer.
pub proof fn times_are_fixed()
    ensures
        DAY_NS == 24 * 60 * 60 * 1_000_000_000,
        DEVELOPER_QUIET_DAYS == 7,
        ACTIVITY_MAX_AGE_MS == 1000,
        SCAN_ACTIVITY_MAX_AGE_MS == 5000,
        GIT_OUTPUT_WAIT_NS == 15_000_000,
        MEASUREMENT_QUANTUM_MS == 5,
{
}

/// How much is read and remembered.
pub proof fn sizes_are_fixed()
    ensures
        MAX_GIT_INDEX_BYTES == 4 * 1024 * 1024,
        MAX_GIT_POINTER_BYTES == 4096,
        MAX_PATH_BYTES == 4096,
        MAX_PNPM_CACHE_ENTRIES == 8,
        MAX_PNPM_CACHE_BYTES == 1024 * 1024,
        MIN_PNPM_CACHE_BYTES == 32 * 1024,
        PNPM_ENTRY_BYTES == 80,
        PNPM_KEY_BYTES == 8,
        MAX_PNPM_KEYS == 65536,
        MAX_MANIFEST_CACHE_ENTRIES == 8,
        MAX_MANIFEST_CACHE_BYTES == 1024 * 1024,
        MIN_MANIFEST_CACHE_BYTES == 8 * 1024,
        MANIFEST_ENTRY_BYTES == 56,
        PATTERN_SLOT_BYTES == 24,
        MAX_CONTENT_CACHE_ENTRIES == 64,
        MAX_CONTENT_CACHE_BYTES == 16 * 1024 * 1024,
        MAX_FOREGROUND_SUMMARY_BYTES == 64 * 1024,
        MAX_INPUT_JSON_BYTES == 16 * 1024,
        MAX_MEASUREMENT_JOB_BYTES == 1024 * 1024,
{
}

/// How many findings are kept, shown, compared and listed.
pub proof fn counts_are_fixed()
    ensures
        DEFAULT_MAX_CANDIDATE_ROWS == 50_000,
        DEFAULT_MAX_CANDIDATE_PAYLOAD_BYTES == 32 * 1024 * 1024,
        DEFAULT_MAX_CANDIDATE_JSON_BYTES == 16 * 1024,
        CANDIDATE_PAYLOAD_OVERHEAD == 64,
        DERIVED_MAINTENANCE_ROWS == 256,
        DERIVED_USAGE_VERSION == 1,
        MAX_VISIBLE == 500,
        MAX_DUPLICATE_FILES == 500,
        MAX_BUCKETS == 1024,
        HISTORY_ROWS == 100,
        MAX_ISSUES == 64,
        USER_ROUTES == 11,
        SYSTEM_ROUTES == 9,
        MAX_BATCH == 64,
        MAX_SHALLOW_FRONTIER == 32,
        MAX_DEFERRED_ARTIFACTS == 256,
        MAX_SCAN_LANES == 4,
        MAX_ACTIVE_MEASUREMENTS == 2,
        MEASUREMENT_QUANTUM_ENTRIES == 256,
{
}

/// What the system and the index of a repository write down.
pub proof fn marks_are_fixed()
    ensures
        TYPE_MASK == 0o170000,
        TYPE_DIRECTORY == 0o040000,
        TYPE_REGULAR == 0o100000,
        TYPE_LINK == 0o120000,
        FLAG_DATALESS == 0x4000_0000,
        POLLIN == 1,
        POLLHUP == 16,
        SLASH == 47,
        ZERO == 48,
        CHECKSUM_BYTES == 20,
        ENTRY_BYTES == 62,
        LONG_NAME == 4095,
{
}

/// Paths are ordered by the first byte in which they differ, and a path comes before
/// those that go on from it.
pub proof fn paths_are_ordered_by_their_bytes(
    common: Seq<u8>,
    a: u8,
    b: u8,
    first: Seq<u8>,
    second: Seq<u8>,
)
    ensures
        a != b ==> (precedes(common + seq![a] + first, common + seq![b] + second) <==> a < b),
        precedes(common, common + first) <==> first.len() > 0,
        !precedes(common + first, common),
    decreases common.len(),
{
    let x = common + seq![a] + first;
    let y = common + seq![b] + second;
    let z = common + first;
    if common.len() > 0 {
        let rest = common.skip(1);
        paths_are_ordered_by_their_bytes(rest, a, b, first, second);
        assert(x.skip(1) =~= rest + seq![a] + first);
        assert(y.skip(1) =~= rest + seq![b] + second);
        assert(z.skip(1) =~= rest + first);
        assert(x[0] == common[0] && y[0] == common[0] && z[0] == common[0]);
    } else {
        assert(x[0] == a && y[0] == b);
        assert(z =~= first);
    }
}

/// A configuration may begin with the mark of its encoding, which says nothing.
pub proof fn the_mark_of_an_encoding_is_passed(rest: Seq<u8>, c: u8)
    ensures
        unmarked(seq![0xefu8, 0xbbu8, 0xbfu8] + rest) == rest,
        c != 0xef ==> unmarked(seq![c] + rest) == seq![c] + rest,
        unmarked(Seq::<u8>::empty()).len() == 0,
{
    assert((seq![0xefu8, 0xbbu8, 0xbfu8] + rest).skip(3) =~= rest);
}

/// A finding is known already where a row of its path has its record, and is put aside
/// where it has a mark.
pub proof fn known_findings_are_found(
    rows: Seq<IndexRow>,
    path: Seq<u8>,
    json: Seq<u8>,
    index: Index,
    id: Seq<char>,
    i: int,
)
    ensures
        0 <= i < rows.len() && rows[i].path@ == path && rows[i].json@ == json ==> unchanged(
            rows,
            path,
            json,
        ),
        (forall|j: int|
            0 <= j < rows.len() ==> (#[trigger] rows[j]).path@ != path || rows[j].json@ != json)
            ==> !unchanged(rows, path, json),
        0 <= i < index.tombstones@.len() && index.tombstones@[i].id@ == id ==> buried(index, id),
        (forall|j: int|
            0 <= j < index.tombstones@.len() ==> (#[trigger] index.tombstones@[j]).id@ != id)
            ==> !buried(index, id),
{
}

/// What is missing is what would be over what there is now, where it is over the limit.
pub proof fn what_is_missing(projected: int, limit: int, now: int)
    ensures
        projected <= limit ==> shortfall(projected, limit, now) == 0,
        projected <= now ==> shortfall(projected, limit, now) == 0,
        projected > limit && projected > now ==> now + shortfall(projected, limit, now)
            == projected,
{
}

} // verus!
