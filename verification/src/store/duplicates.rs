//! Files that could be copies of each other: whole buckets of one device and
//! size, never a part of one.
use crate::model::{Candidate, Root};
use crate::order::{
    arranges, arranges_all, compare_bytes, orders, precedes, precedes_irreflexive, precedes_total,
    precedes_transitive, sorted_range, Order,
};
use crate::paths::path_bytes;
use crate::policy::Policy;
use crate::store::findings::rows_at;
use crate::store::retention::{is_kept_near, kept_near};
use crate::store::{IndexRow, Store};
use crate::tables::{filter_push, filter_rows, unique};
use crate::text::{fail, failed, same_text};
use vstd::prelude::*;

verus! {

/// How many files one selection holds.
pub const MAX_DUPLICATE_FILES: usize = 500;

/// How many buckets one selection looks at.
pub const MAX_BUCKETS: usize = 1024;

/// The longest stored text of a file that is compared.
pub const MAX_INPUT_JSON_BYTES: usize = 16384;

/// A file whose content is to be compared. A kept one can only be the copy that
/// stays.
pub struct Input {
    pub root: Root,
    pub candidate: Candidate,
    pub keeper_only: bool,
}

/// The files to compare, and what was left out.
pub struct DuplicateInputs {
    pub files: Vec<Input>,
    pub indexed_files: u64,
    pub skipped_buckets: u64,
    pub skipped_bucket_files: u64,
    pub bucket_limit_reached: bool,
}

/// Whether a kind is one of personal files.
pub open spec fn personal(kind: Seq<char>) -> bool {
    kind == "download"@ || kind == "installer"@ || kind == "archive"@ || kind == "largefile"@
}

fn is_personal(kind: &str) -> (r: bool)
    ensures
        r == personal(kind@),
{
    same_text(kind, "download") || same_text(kind, "installer") || same_text(kind, "archive")
        || same_text(kind, "largefile")
}

/// Whether a finding can be compared with others.
pub open spec fn comparable(store: Store, policy: Policy) -> spec_fn(IndexRow) -> bool {
    |row: IndexRow|
        {
            &&& personal(row.candidate.kind@)
            &&& row.candidate.suggestion_eligible
            &&& row.candidate.blocked_reason is None
            &&& !row.candidate.provisional
            &&& !row.candidate.eligible_permanent
            &&& policy.large_enough(row.candidate.kind@, row.candidate.allocated_bytes)
            &&& 0 < row.candidate.identity.size <= i64::MAX
            &&& row.json@.len() <= MAX_INPUT_JSON_BYTES
            &&& store.has_root(row.root_id@)
        }
}

/// A bucket: the device and the size that its files share.
pub type BucketKey = (u64, u64);

pub open spec fn bucket_of(row: IndexRow) -> BucketKey {
    (row.candidate.identity.device, row.candidate.identity.size)
}

pub open spec fn in_bucket(key: BucketKey) -> spec_fn(IndexRow) -> bool {
    |row: IndexRow| bucket_of(row) == key
}

/// The files of a bucket.
pub open spec fn members(rows: Seq<IndexRow>, key: BucketKey) -> Seq<IndexRow> {
    rows.filter(in_bucket(key))
}

/// What files take together.
pub open spec fn allocation(rows: Seq<IndexRow>) -> int
    decreases rows.len(),
{
    if rows.len() == 0 {
        0
    } else {
        allocation(rows.drop_last()) + rows.last().candidate.allocated_bytes
    }
}

/// Whether a bucket comes before another: the one that takes more, then by
/// device, then the one with the larger files.
pub open spec fn bucket_first(rows: Seq<IndexRow>, a: BucketKey, b: BucketKey) -> bool {
    let x = allocation(members(rows, a));
    let y = allocation(members(rows, b));
    if x != y {
        x > y
    } else if a.0 != b.0 {
        a.0 < b.0
    } else {
        a.1 > b.1
    }
}

/// Whether a list holds every bucket with more than one file, in order.
pub open spec fn bucket_list(rows: Seq<IndexRow>, list: Seq<BucketKey>) -> bool {
    &&& forall|key: BucketKey| #[trigger] list.contains(key) <==> members(rows, key).len() > 1
    &&& forall|i: int, j: int|
        0 <= i < j < list.len() ==> bucket_first(rows, #[trigger] list[i], #[trigger] list[j])
}

/// What was selected so far.
pub struct Selection {
    pub files: Seq<IndexRow>,
    pub skipped: int,
    pub skipped_files: int,
}

/// The selection from a list of buckets: each one whole, or not at all.
pub open spec fn select(rows: Seq<IndexRow>, list: Seq<BucketKey>) -> Selection
    decreases list.len(),
{
    if list.len() == 0 {
        Selection { files: seq![], skipped: 0, skipped_files: 0 }
    } else {
        let before = select(rows, list.drop_last());
        let more = members(rows, list.last());
        if more.len() > MAX_DUPLICATE_FILES - before.files.len() {
            Selection {
                skipped: before.skipped + 1,
                skipped_files: before.skipped_files + more.len(),
                ..before
            }
        } else {
            Selection { files: before.files + more, ..before }
        }
    }
}

/// Whether rows stand by path.
pub open spec fn path_sorted(rows: Seq<IndexRow>) -> bool {
    forall|i: int, j: int|
        0 <= i < j < rows.len() ==> precedes((#[trigger] rows[i]).path@, (#[trigger] rows[j]).path@)
}

/// The buckets that are looked at.
pub open spec fn first_buckets(list: Seq<BucketKey>) -> Seq<BucketKey> {
    if list.len() > MAX_BUCKETS {
        list.take(MAX_BUCKETS as int)
    } else {
        list
    }
}

/// Whether an input stands for a row.
pub open spec fn input_is(store: Store, input: Input, row: IndexRow) -> bool {
    &&& input.root == store.root_of(row.root_id@)
    &&& input.candidate == row.candidate
    &&& input.keeper_only == kept_near(store.kept@, row.path@)
}

/// Whether a result is the selection over these buckets of these rows.
pub open spec fn selected(
    store: Store,
    rows: Seq<IndexRow>,
    list: Seq<BucketKey>,
    out: DuplicateInputs,
) -> bool {
    let selection = select(rows, first_buckets(list));
    &&& out.indexed_files == rows.len()
    &&& out.bucket_limit_reached == (list.len() > MAX_BUCKETS)
    &&& out.skipped_buckets == selection.skipped
    &&& out.skipped_bucket_files == crate::model::capped(selection.skipped_files)
    &&& out.files@.len() == selection.files.len()
    &&& forall|i: int|
        0 <= i < out.files@.len() ==> input_is(
            store,
            #[trigger] out.files@[i],
            selection.files[i],
        )
}

/// The files that can be compared, in an order.
pub open spec fn ordered_pool(store: Store, policy: Policy, order: Seq<usize>) -> Seq<IndexRow> {
    rows_at(store.index.rows@.filter(comparable(store, policy)), order)
}

/// Whether the order is the one by path, and the buckets are those of the files
/// that can be compared.
pub open spec fn pool_order(
    store: Store,
    policy: Policy,
    order: Seq<usize>,
    list: Seq<BucketKey>,
) -> bool {
    let pool = store.index.rows@.filter(comparable(store, policy));
    &&& arranges(order, 0, pool.len() as int)
    &&& path_sorted(ordered_pool(store, policy, order))
    &&& bucket_list(ordered_pool(store, policy, order), list)
}

/// A bucket with its totals.
struct Bucket {
    device: u64,
    size: u64,
    count: u64,
    bytes: u128,
}

/// Whether a bucket has the totals of the rows.
spec fn totals(rows: Seq<IndexRow>, bucket: Bucket) -> bool {
    let list = members(rows, (bucket.device, bucket.size));
    bucket.count == list.len() && bucket.bytes == allocation(list)
}

spec fn bucket_keys(buckets: Seq<Bucket>) -> Seq<BucketKey> {
    buckets.map_values(|b: Bucket| (b.device, b.size))
}

spec fn bucket_before(rows: Seq<IndexRow>, buckets: Seq<Bucket>) -> spec_fn(int, int) -> bool {
    |a: int, b: int|
        bucket_first(
            rows,
            (buckets[a].device, buckets[a].size),
            (buckets[b].device, buckets[b].size),
        )
}

/// Whether a bucket comes before another, by their totals.
spec fn heavier(a: Bucket, b: Bucket) -> bool {
    if a.bytes != b.bytes {
        a.bytes > b.bytes
    } else if a.device != b.device {
        a.device < b.device
    } else {
        a.size > b.size
    }
}

spec fn path_before(rows: Seq<IndexRow>) -> spec_fn(int, int) -> bool {
    |a: int, b: int| precedes(rows[a].path@, rows[b].path@)
}

proof fn path_orders(rows: Seq<IndexRow>)
    ensures
        orders(path_before(rows), rows.len() as int),
{
    let before = path_before(rows);
    let n = rows.len() as int;
    assert forall|a: int, b: int| 0 <= a < n && 0 <= b < n && #[trigger] before(a, b) implies !before(
        b,
        a,
    ) by {
        if before(b, a) {
            precedes_transitive(rows[a].path@, rows[b].path@, rows[a].path@);
            precedes_irreflexive(rows[a].path@);
        }
    }
    assert forall|a: int, b: int, c: int|
        0 <= a < n && 0 <= b < n && 0 <= c < n && !#[trigger] before(b, a) && !#[trigger] before(
            c,
            b,
        ) implies !before(c, a) by {
        if before(c, a) {
            let (x, y, z) = (rows[a].path@, rows[b].path@, rows[c].path@);
            precedes_total(x, y);
            precedes_total(y, z);
            precedes_irreflexive(x);
            if precedes(x, y) && precedes(y, z) {
                precedes_transitive(x, y, z);
            }
            if precedes(x, z) {
                precedes_transitive(x, z, x);
            }
        }
    }
}

impl Store {
    /// The positions of the files that can be compared, by path.
    fn comparable_rows(&self, policy: &Policy) -> (r: Vec<usize>)
        requires
            self.wf(),
        ensures
            forall|k: int| 0 <= k < r@.len() ==> (#[trigger] r@[k]) < self.index.rows@.len(),
            path_sorted(rows_at(self.index.rows@, r@)),
            forall|k: int|
                0 <= k < r@.len() ==> self.has_root(
                    (#[trigger] rows_at(self.index.rows@, r@)[k]).root_id@,
                ),
            exists|order: Seq<usize>| #[trigger]
                arranges(
                    order,
                    0,
                    self.index.rows@.filter(comparable(*self, *policy)).len() as int,
                ) && rows_at(self.index.rows@, r@) == rows_at(
                    self.index.rows@.filter(comparable(*self, *policy)),
                    order,
                ),
    {
        let all: &Vec<IndexRow> = &self.index.rows;
        let ghost test = comparable(*self, *policy);
        let mut list: Vec<usize> = Vec::new();
        let mut i: usize = 0;
        proof {
            assert(all@.take(0).filter(test) =~= seq![]) by {
                reveal(Seq::filter);
            }
            assert(rows_at(all@, list@) =~= seq![]);
        }
        while i < all.len()
            invariant
                i <= all.len(),
                all@ == self.index.rows@,
                test == comparable(*self, *policy),
                rows_at(all@, list@) == all@.take(i as int).filter(test),
                forall|k: int| 0 <= k < list@.len() ==> (#[trigger] list@[k]) < i,
            decreases all.len() - i,
        {
            let row: &IndexRow = &all[i];
            let c: &Candidate = &row.candidate;
            let ghost now = list@;
            proof {
                assert(all@.take(i + 1) =~= all@.take(i as int).push(all@[i as int]));
                filter_push(all@.take(i as int), all@[i as int], test);
            }
            if is_personal(c.kind.as_str()) && c.suggestion_eligible && c.blocked_reason.is_none()
                && !c.provisional && !c.eligible_permanent && policy.is_large_enough(
                c.kind.as_str(),
                c.allocated_bytes,
            ) && c.identity.size > 0 && c.identity.size <= i64::MAX as u64 && row.json.len()
                <= MAX_INPUT_JSON_BYTES && self.knows_root(row.root_id.as_str()) {
                list.push(i);
                assert(rows_at(all@, list@) =~= rows_at(all@, now).push(all@[i as int]));
            }
            i = i + 1;
        }
        assert(all@.take(i as int) =~= all@);
        let ghost pool = all@.filter(test);
        let n: usize = list.len();
        assert(pool.len() == n);
        let picks: &Vec<usize> = &list;
        let less = |a: usize, b: usize| -> (x: bool)
            requires
                a < n,
                b < n,
                n == picks@.len(),
                forall|k: int| 0 <= k < picks@.len() ==> (#[trigger] picks@[k]) < all@.len(),
            ensures
                x == precedes(
                    all@[picks@[a as int] as int].path@,
                    all@[picks@[b as int] as int].path@,
                ),
        {
            match compare_bytes(path_bytes(&all[picks[a]].path), path_bytes(&all[picks[b]].path)) {
                Order::Less => true,
                _ => false,
            }
        };
        proof {
            path_orders(pool);
            assert forall|a: int| 0 <= a < n implies pool[a] == all@[#[trigger] list@[a] as int] by {
                assert(rows_at(all@, list@)[a] == all@[list@[a] as int]);
            }
        }
        let order: Vec<usize> = sorted_range(0, n, n, &less, Ghost(path_before(pool)));
        let mut out: Vec<usize> = Vec::new();
        let mut k: usize = 0;
        while k < order.len()
            invariant
                k <= order.len(),
                n == list@.len(),
                n == pool.len(),
                all@ == self.index.rows@,
                arranges(order@, 0, n as int),
                forall|a: int| 0 <= a < n ==> (#[trigger] list@[a]) < all@.len(),
                out@.len() == k,
                forall|j: int| 0 <= j < k ==> #[trigger] out@[j] == list@[order@[j] as int],
                forall|j: int| 0 <= j < k ==> (#[trigger] out@[j]) < all@.len(),
            decreases order.len() - k,
        {
            assert(order@[k as int] < n);
            out.push(list[order[k]]);
            k = k + 1;
        }
        proof {
            let got = rows_at(all@, out@);
            assert(got =~= rows_at(pool, order@)) by {
                assert forall|j: int| 0 <= j < got.len() implies got[j] == rows_at(
                    pool,
                    order@,
                )[j] by {
                    assert(out@[j] == list@[order@[j] as int]);
                    assert(order@[j] < n);
                    assert(pool[order@[j] as int] == all@[list@[order@[j] as int] as int]);
                }
            }
            filter_unique_paths(self.index.rows@, test);
            filter_rows(self.index.rows@, test);
            assert forall|k: int| 0 <= k < out@.len() implies self.has_root(
                (#[trigger] got[k]).root_id@,
            ) by {
                assert(got[k] == rows_at(pool, order@)[k]);
                assert(test(pool[order@[k] as int]));
            }
            assert forall|x: int, y: int| 0 <= x < y < got.len() implies precedes(
                (#[trigger] got[x]).path@,
                (#[trigger] got[y]).path@,
            ) by {
                let a = order@[x] as int;
                let b = order@[y] as int;
                assert(order@[x] != order@[y]);
                assert(got[x] == rows_at(pool, order@)[x]);
                assert(got[y] == rows_at(pool, order@)[y]);
                assert(!path_before(pool)(b, a));
                precedes_total(pool[a].path@, pool[b].path@);
                if a < b {
                    assert(pool[a].path@ != pool[b].path@);
                } else {
                    assert(pool[b].path@ != pool[a].path@);
                }
            }
        }
        out
    }

    /// The totals of the bucket that a row lies in.
    fn bucket_totals(&self, rows: &Vec<usize>, device: u64, size: u64) -> (r: Bucket)
        requires
            forall|k: int| 0 <= k < rows@.len() ==> (#[trigger] rows@[k]) < self.index.rows@.len(),
        ensures
            r.device == device,
            r.size == size,
            totals(rows_at(self.index.rows@, rows@), r),
    {
        let ghost list = rows_at(self.index.rows@, rows@);
        let ghost test = in_bucket((device, size));
        let mut count: u64 = 0;
        let mut bytes: u128 = 0;
        let mut i: usize = 0;
        assert(list.take(0).filter(test) =~= seq![]) by {
            reveal(Seq::filter);
        }
        while i < rows.len()
            invariant
                i <= rows.len(),
                forall|k: int|
                    0 <= k < rows@.len() ==> (#[trigger] rows@[k]) < self.index.rows@.len(),
                list == rows_at(self.index.rows@, rows@),
                test == in_bucket((device, size)),
                count == list.take(i as int).filter(test).len(),
                count <= i,
                bytes == allocation(list.take(i as int).filter(test)),
                bytes <= i * 0xffff_ffff_ffff_ffff,
            decreases rows.len() - i,
        {
            let row: &IndexRow = &self.index.rows[rows[i]];
            proof {
                assert(list[i as int] == *row);
                assert(list.take(i + 1) =~= list.take(i as int).push(list[i as int]));
                filter_push(list.take(i as int), list[i as int], test);
                if test(list[i as int]) {
                    assert(list.take(i + 1).filter(test).drop_last() =~= list.take(
                        i as int,
                    ).filter(test));
                }
            }
            if row.candidate.identity.device == device && row.candidate.identity.size == size {
                count = count + 1;
                bytes = bytes + row.candidate.allocated_bytes as u128;
            }
            i = i + 1;
        }
        assert(list.take(i as int) =~= list);
        Bucket { device, size, count, bytes }
    }

    /// Every bucket with more than one file.
    fn buckets(&self, rows: &Vec<usize>) -> (r: Vec<Bucket>)
        requires
            forall|k: int| 0 <= k < rows@.len() ==> (#[trigger] rows@[k]) < self.index.rows@.len(),
        ensures
            forall|i: int|
                0 <= i < r@.len() ==> totals(
                    rows_at(self.index.rows@, rows@),
                    #[trigger] r@[i],
                ),
            bucket_keys(r@).no_duplicates(),
            forall|key: BucketKey| #[trigger]
                bucket_keys(r@).contains(key) <==> members(
                    rows_at(self.index.rows@, rows@),
                    key,
                ).len() > 1,
    {
        let ghost list = rows_at(self.index.rows@, rows@);
        let mut out: Vec<Bucket> = Vec::new();
        let mut i: usize = 0;
        while i < rows.len()
            invariant
                i <= rows.len(),
                forall|k: int|
                    0 <= k < rows@.len() ==> (#[trigger] rows@[k]) < self.index.rows@.len(),
                list == rows_at(self.index.rows@, rows@),
                forall|k: int| 0 <= k < out@.len() ==> totals(list, #[trigger] out@[k]),
                bucket_keys(out@).no_duplicates(),
                forall|key: BucketKey| #[trigger]
                    bucket_keys(out@).contains(key) <==> members(list, key).len() > 1 && exists|
                        j: int,
                    |
                        0 <= j < i && bucket_of(#[trigger] list[j]) == key,
            decreases rows.len() - i,
        {
            let row: &IndexRow = &self.index.rows[rows[i]];
            let device: u64 = row.candidate.identity.device;
            let size: u64 = row.candidate.identity.size;
            let ghost key = (device, size);
            let ghost before = out@;
            assert(list[i as int] == *row);
            let mut earlier: bool = false;
            let mut j: usize = 0;
            while j < i
                invariant
                    j <= i < rows.len(),
                    forall|k: int|
                        0 <= k < rows@.len() ==> (#[trigger] rows@[k]) < self.index.rows@.len(),
                    list == rows_at(self.index.rows@, rows@),
                    earlier == exists|m: int|
                        0 <= m < j && bucket_of(#[trigger] list[m]) == (device, size),
                decreases i - j,
            {
                let other: &IndexRow = &self.index.rows[rows[j]];
                assert(list[j as int] == *other);
                if other.candidate.identity.device == device && other.candidate.identity.size
                    == size {
                    assert(bucket_of(list[j as int]) == (device, size));
                    earlier = true;
                }
                j = j + 1;
            }
            if !earlier {
                let bucket: Bucket = self.bucket_totals(rows, device, size);
                if bucket.count > 1 {
                    proof {
                        if bucket_keys(before).contains(key) {
                            assert(exists|j: int| 0 <= j < i && bucket_of(#[trigger] list[j]) == key);
                            assert(false);
                        }
                    }
                    out.push(bucket);
                    proof {
                        assert(bucket_keys(out@) =~= bucket_keys(before).push(key));
                    }
                }
            }
            proof {
                assert forall|k: BucketKey| #[trigger] bucket_keys(out@).contains(k) <==> members(
                    list,
                    k,
                ).len() > 1 && exists|j: int| 0 <= j < i + 1 && bucket_of(#[trigger] list[j])
                    == k by {
                    let keys = bucket_keys(out@);
                    let old_keys = bucket_keys(before);
                    if keys.contains(k) {
                        let w = choose|w: int| 0 <= w < keys.len() && keys[w] == k;
                        if w < old_keys.len() {
                            assert(old_keys[w] == k);
                            assert(old_keys.contains(k));
                        } else {
                            assert(bucket_of(list[i as int]) == k);
                        }
                    }
                    if members(list, k).len() > 1 && exists|j: int|
                        0 <= j < i + 1 && bucket_of(#[trigger] list[j]) == k {
                        let j = choose|j: int| 0 <= j < i + 1 && bucket_of(#[trigger] list[j]) == k;
                        if j < i || earlier {
                            if j == i {
                                let m = choose|m: int|
                                    0 <= m < i && bucket_of(#[trigger] list[m]) == key;
                                assert(bucket_of(list[m]) == k);
                            }
                            assert(old_keys.contains(k));
                            let w = choose|w: int| 0 <= w < old_keys.len() && old_keys[w] == k;
                            assert(keys[w] == k);
                        } else {
                            assert(k == key);
                            assert(keys[keys.len() - 1] == k);
                        }
                    }
                }
            }
            i = i + 1;
        }
        proof {
            assert forall|key: BucketKey| members(list, key).len() > 1 implies exists|j: int|
                0 <= j < list.len() && bucket_of(#[trigger] list[j]) == key by {
                filter_rows(list, in_bucket(key));
                let first = members(list, key)[0];
                let w = choose|w: int| 0 <= w < list.len() && list[w] == first;
                assert(bucket_of(list[w]) == key);
            }
        }
        out
    }
}

proof fn filter_unique_paths(rows: Seq<IndexRow>, test: spec_fn(IndexRow) -> bool)
    requires
        unique(rows, |r: IndexRow| r.path@),
    ensures
        unique(rows.filter(test), |r: IndexRow| r.path@),
{
    crate::tables::filter_unique(rows, test, |r: IndexRow| r.path@);
}


proof fn bucket_orders(rows: Seq<IndexRow>, buckets: Seq<Bucket>)
    ensures
        orders(bucket_before(rows, buckets), buckets.len() as int),
{
}

proof fn select_bounds(rows: Seq<IndexRow>, list: Seq<BucketKey>)
    ensures
        select(rows, list).files.len() <= MAX_DUPLICATE_FILES,
        0 <= select(rows, list).skipped <= list.len(),
        0 <= select(rows, list).skipped_files,
    decreases list.len(),
{
    if list.len() > 0 {
        select_bounds(rows, list.drop_last());
    }
}

impl Store {
    /// Explicit content checks use their own bounded selection, never the
    /// visible page. A size bucket is either selected whole or reported as
    /// skipped; a truncated bucket must not look like a complete duplicate set.
    pub fn duplicate_inputs(&self, policy: &Policy, cancel: bool) -> (r: Result<
        DuplicateInputs,
        String,
    >)
        requires
            self.wf(),
        ensures
            if cancel {
                failed(r, "Cancelled"@)
            } else {
                r matches Ok(out) && exists|order: Seq<usize>, list: Seq<BucketKey>| #[trigger]
                    pool_order(*self, *policy, order, list) && selected(
                        *self,
                        ordered_pool(*self, *policy, order),
                        list,
                        out,
                    )
            },
    {
        if cancel {
            return fail("Cancelled");
        }
        Ok(self.select_inputs(policy))
    }

    fn select_inputs(&self, policy: &Policy) -> (out: DuplicateInputs)
        requires
            self.wf(),
        ensures
            exists|order: Seq<usize>, list: Seq<BucketKey>| #[trigger]
                pool_order(*self, *policy, order, list) && selected(
                    *self,
                    ordered_pool(*self, *policy, order),
                    list,
                    out,
                ),
    {
        let picks: Vec<usize> = self.comparable_rows(policy);
        let ghost rows = rows_at(self.index.rows@, picks@);
        let found: Vec<Bucket> = self.buckets(&picks);
        let n: usize = found.len();
        let buckets: &Vec<Bucket> = &found;
        let less = |a: usize, b: usize| -> (x: bool)
            requires
                a < buckets@.len(),
                b < buckets@.len(),
            ensures
                x == heavier(buckets@[a as int], buckets@[b as int]),
        {
            let p: &Bucket = &buckets[a];
            let q: &Bucket = &buckets[b];
            if p.bytes != q.bytes {
                p.bytes > q.bytes
            } else if p.device != q.device {
                p.device < q.device
            } else {
                p.size > q.size
            }
        };
        proof {
            bucket_orders(rows, buckets@);
            assert forall|a: int, b: int| 0 <= a < n && 0 <= b < n implies heavier(
                #[trigger] buckets@[a],
                #[trigger] buckets@[b],
            ) == bucket_before(rows, buckets@)(a, b) by {
                assert(totals(rows, buckets@[a]) && totals(rows, buckets@[b]));
            }
        }
        let order: Vec<usize> = sorted_range(0, n, n, &less, Ghost(bucket_before(rows, buckets@)));
        let ghost list = order@.map_values(
            |i: usize| (buckets@[i as int].device, buckets@[i as int].size),
        );
        proof {
            let keys = bucket_keys(buckets@);
            assert forall|key: BucketKey| #[trigger] list.contains(key) <==> members(
                rows,
                key,
            ).len() > 1 by {
                if list.contains(key) {
                    let i = choose|i: int| 0 <= i < list.len() && list[i] == key;
                    assert(order@[i] < n);
                    assert(keys[order@[i] as int] == key);
                    assert(keys.contains(key));
                }
                if members(rows, key).len() > 1 {
                    assert(keys.contains(key));
                    let w = choose|w: int| 0 <= w < keys.len() && keys[w] == key;
                    arranges_all(order@, 0, n as int, w as usize);
                    let i = choose|i: int| 0 <= i < order@.len() && order@[i] == w as usize;
                    assert(list[i] == key);
                }
            }
            assert forall|i: int, j: int| 0 <= i < j < list.len() implies bucket_first(
                rows,
                #[trigger] list[i],
                #[trigger] list[j],
            ) by {
                let a = order@[i] as int;
                let b = order@[j] as int;
                assert(order@[i] != order@[j]);
                assert(order@[i] < n && order@[j] < n);
                assert(!bucket_before(rows, buckets@)(b, a));
                assert(keys[a] != keys[b]);
            }
            assert(bucket_list(rows, list));
        }
        let ghost looked = first_buckets(list);
        let mut files: Vec<Input> = Vec::new();
        let mut skipped_buckets: u64 = 0;
        let mut skipped_bucket_files: u64 = 0;
        let mut i: usize = 0;
        assert(looked.take(0) =~= seq![]);
        while i < order.len() && i < MAX_BUCKETS
            invariant
                i <= order.len(),
                i <= MAX_BUCKETS,
                self.wf(),
                n == buckets@.len(),
                arranges(order@, 0, n as int),
                rows == rows_at(self.index.rows@, picks@),
                forall|k: int|
                    0 <= k < picks@.len() ==> (#[trigger] picks@[k]) < self.index.rows@.len(),
                forall|k: int|
                    0 <= k < rows.len() ==> self.has_root((#[trigger] rows[k]).root_id@),
                forall|k: int| 0 <= k < buckets@.len() ==> totals(rows, #[trigger] buckets@[k]),
                list == order@.map_values(
                    |i: usize| (buckets@[i as int].device, buckets@[i as int].size),
                ),
                looked == first_buckets(list),
                skipped_buckets == select(rows, looked.take(i as int)).skipped,
                skipped_buckets <= i,
                skipped_bucket_files == crate::model::capped(
                    select(rows, looked.take(i as int)).skipped_files,
                ),
                files@.len() == select(rows, looked.take(i as int)).files.len(),
                files@.len() <= MAX_DUPLICATE_FILES,
                forall|k: int|
                    0 <= k < files@.len() ==> input_is(
                        *self,
                        #[trigger] files@[k],
                        select(rows, looked.take(i as int)).files[k],
                    ),
            decreases order.len() - i,
        {
            assert(order@[i as int] < n);
            let bucket: &Bucket = &buckets[order[i]];
            let ghost key = (bucket.device, bucket.size);
            let ghost before = select(rows, looked.take(i as int));
            proof {
                assert(list[i as int] == key);
                assert(looked[i as int] == key);
                assert(looked.take(i + 1).drop_last() =~= looked.take(i as int));
                assert(looked.take(i + 1).last() == key);
                select_bounds(rows, looked.take(i as int));
                select_bounds(rows, looked.take(i + 1));
                assert(totals(rows, buckets@[order@[i as int] as int]));
            }
            if bucket.count > (MAX_DUPLICATE_FILES - files.len()) as u64 {
                skipped_buckets = skipped_buckets + 1;
                skipped_bucket_files = skipped_bucket_files.saturating_add(bucket.count);
            } else {
                let ghost held = files@;
                self.add_members(&mut files, &picks, bucket.device, bucket.size);
                proof {
                    let after = select(rows, looked.take(i + 1));
                    let more = members(rows, key);
                    assert(after.files == before.files + more);
                    assert forall|k: int| 0 <= k < files@.len() implies input_is(
                        *self,
                        #[trigger] files@[k],
                        after.files[k],
                    ) by {
                        if k < held.len() {
                            assert(files@.take(held.len() as int)[k] == held[k]);
                        } else {
                            let m = k - held.len();
                            assert(input_is(*self, files@[held.len() + m], more[m]));
                        }
                    }
                }
            }
            i = i + 1;
        }
        assert(looked.take(i as int) =~= looked);
        let out: DuplicateInputs = DuplicateInputs {
            files,
            indexed_files: picks.len() as u64,
            skipped_buckets,
            skipped_bucket_files,
            bucket_limit_reached: order.len() > MAX_BUCKETS,
        };
        proof {
            let pool = self.index.rows@.filter(comparable(*self, *policy));
            let chosen = choose|chosen: Seq<usize>| #[trigger]
                arranges(chosen, 0, pool.len() as int) && rows_at(self.index.rows@, picks@)
                    == rows_at(pool, chosen);
            assert(pool_order(*self, *policy, chosen, list));
        }
        out
    }

    /// Adds the files of a bucket to a selection.
    fn add_members(&self, files: &mut Vec<Input>, picks: &Vec<usize>, device: u64, size: u64)
        requires
            self.wf(),
            forall|k: int|
                0 <= k < picks@.len() ==> (#[trigger] picks@[k]) < self.index.rows@.len(),
            forall|k: int|
                0 <= k < picks@.len() ==> self.has_root(
                    (#[trigger] rows_at(self.index.rows@, picks@)[k]).root_id@,
                ),
        ensures
            ({
                let more = members(rows_at(self.index.rows@, picks@), (device, size));
                &&& final(files)@.len() == old(files)@.len() + more.len()
                &&& final(files)@.take(old(files)@.len() as int) == old(files)@
                &&& forall|k: int|
                    0 <= k < more.len() ==> input_is(
                        *self,
                        #[trigger] final(files)@[old(files)@.len() + k],
                        more[k],
                    )
            }),
    {
        let ghost rows = rows_at(self.index.rows@, picks@);
        let ghost test = in_bucket((device, size));
        let ghost start = files@;
        let mut i: usize = 0;
        assert(rows.take(0).filter(test) =~= seq![]) by {
            reveal(Seq::filter);
        }
        while i < picks.len()
            invariant
                i <= picks.len(),
                self.wf(),
                rows == rows_at(self.index.rows@, picks@),
                test == in_bucket((device, size)),
                start == old(files)@,
                forall|k: int|
                    0 <= k < picks@.len() ==> (#[trigger] picks@[k]) < self.index.rows@.len(),
                forall|k: int|
                    0 <= k < picks@.len() ==> self.has_root((#[trigger] rows[k]).root_id@),
                files@.len() == start.len() + rows.take(i as int).filter(test).len(),
                files@.take(start.len() as int) == start,
                forall|k: int|
                    0 <= k < rows.take(i as int).filter(test).len() ==> input_is(
                        *self,
                        #[trigger] files@[start.len() + k],
                        rows.take(i as int).filter(test)[k],
                    ),
            decreases picks.len() - i,
        {
            let row: &IndexRow = &self.index.rows[picks[i]];
            let ghost now = rows.take(i as int).filter(test);
            let ghost held = files@;
            proof {
                assert(rows[i as int] == *row);
                assert(rows.take(i + 1) =~= rows.take(i as int).push(rows[i as int]));
                filter_push(rows.take(i as int), rows[i as int], test);
            }
            if row.candidate.identity.device == device && row.candidate.identity.size == size {
                match self.find_root(row.root_id.as_str()) {
                    Some(at) => {
                        proof {
                            self.root_unique(row.root_id@, at as int);
                        }
                        files.push(
                            Input {
                                root: self.roots[at].copy(),
                                candidate: row.candidate.copy(),
                                keeper_only: is_kept_near(&self.kept, path_bytes(&row.path)),
                            },
                        );
                        proof {
                            assert(files@.take(start.len() as int) =~= start);
                            assert forall|k: int| 0 <= k < now.len() + 1 implies input_is(
                                *self,
                                #[trigger] files@[start.len() + k],
                                rows.take(i + 1).filter(test)[k],
                            ) by {
                                if k < now.len() {
                                    assert(files@[start.len() + k] == held[start.len() + k]);
                                }
                            }
                        }
                    },
                    None => {
                        assert(self.has_root(rows[i as int].root_id@));
                        assert(false);
                    },
                }
            }
            i = i + 1;
        }
        assert(rows.take(i as int) =~= rows);
    }
}

/// A selection never holds more files than it may, and a bucket is in it whole
/// or not at all.
pub proof fn selection_is_bounded(rows: Seq<IndexRow>, list: Seq<BucketKey>, i: int)
    requires
        0 <= i < select(rows, list).files.len(),
    ensures
        select(rows, list).files.len() <= MAX_DUPLICATE_FILES,
        forall|k: int|
            0 <= k < members(rows, bucket_of(select(rows, list).files[i])).len() ==> select(
                rows,
                list,
            ).files.contains(
                #[trigger] members(rows, bucket_of(select(rows, list).files[i]))[k],
            ),
    decreases list.len(),
{
    select_bounds(rows, list);
    if list.len() > 0 {
        let before = select(rows, list.drop_last());
        let after = select(rows, list);
        let key = list.last();
        let more = members(rows, key);
        let row = after.files[i];
        let wanted = members(rows, bucket_of(row));
        filter_rows(rows, in_bucket(key));
        if i < before.files.len() {
            selection_is_bounded(rows, list.drop_last(), i);
            assert(before.files[i] == row);
            assert forall|k: int| 0 <= k < wanted.len() implies after.files.contains(
                #[trigger] wanted[k],
            ) by {
                assert(before.files.contains(wanted[k]));
                let w = choose|w: int| 0 <= w < before.files.len() && before.files[w] == wanted[k];
                assert(after.files[w] == wanted[k]);
            }
        } else {
            assert(row == more[i - before.files.len()]);
            assert(bucket_of(row) == key);
            assert forall|k: int| 0 <= k < wanted.len() implies after.files.contains(
                #[trigger] wanted[k],
            ) by {
                assert(after.files[before.files.len() + k] == wanted[k]);
            }
        }
    }
}

} // verus!
