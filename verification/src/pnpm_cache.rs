//! Bounded reuse of what a pnpm lockfile says, keyed by the digest of its bytes.
use crate::digest::{blake3_digest, digest_of, same_digest, Digest};
use crate::order::{
    byte_rows, compare_bytes, precedes, precedes_irreflexive, precedes_transitive, sorted_unique,
    strictly_sorted, Order,
};
use crate::pnpm::{
    lock_importers, lock_owns, member_key, member_text, pnpm_lock_owns, texts,
    visit_pnpm_importers, Importers,
};
use crate::text::{fail, failed};
use crate::workspace::outcome_is;
use vstd::prelude::*;
use vstd::slice::{slice_subrange, slice_to_vec};
use vstd::utf8::encode_utf8;

verus! {

pub const MAX_PNPM_CACHE_ENTRIES: usize = 8;

pub const MAX_PNPM_CACHE_BYTES: usize = 1024 * 1024;

pub const MIN_PNPM_CACHE_BYTES: usize = 32 * 1024;

/// What one retained entry slot is charged.
pub const PNPM_ENTRY_BYTES: usize = 80;

/// What one retained key range is charged.
pub const PNPM_KEY_BYTES: usize = 8;

/// How many keys are gathered at most before a lockfile is answered unretained.
pub const MAX_PNPM_KEYS: usize = 65536;

/// Where one key lies among the retained bytes.
pub struct PnpmKeyRange {
    pub offset: u32,
    pub length: u32,
}

/// The importers of one lockfile, sorted and without repetition.
pub struct PnpmFacts {
    pub bytes: Vec<u8>,
    pub keys: Vec<PnpmKeyRange>,
}

impl PnpmFacts {
    /// The key at a position.
    pub open spec fn key(&self, i: int) -> Seq<u8> {
        self.bytes@.subrange(
            self.keys@[i].offset as int,
            self.keys@[i].offset + self.keys@[i].length,
        )
    }

    /// All keys, in their order.
    pub open spec fn rows(&self) -> Seq<Seq<u8>> {
        Seq::new(self.keys@.len(), |i: int| self.key(i))
    }

    pub open spec fn wf(&self) -> bool {
        &&& forall|i: int|
            0 <= i < self.keys@.len() ==> (#[trigger] self.keys@[i]).offset
                + self.keys@[i].length <= self.bytes@.len()
        &&& strictly_sorted(self.rows())
    }

    /// What the facts are charged.
    pub open spec fn weight(&self) -> int {
        self.bytes@.len() + self.keys@.len() * PNPM_KEY_BYTES
    }

    /// Whether the facts answer for the given lockfile bytes.
    pub open spec fn describes(&self, source: Seq<u8>) -> bool {
        &&& lock_importers(source).1 is None
        &&& forall|relative: Seq<char>|
            self.rows().contains(encode_utf8(#[trigger] member_key(relative)))
                <==> lock_importers(source).0.contains(member_key(relative))
    }

    /// Whether the facts name a relative path.
    pub fn owns(&self, relative: &str) -> (r: bool)
        requires
            self.wf(),
        ensures
            r == self.rows().contains(encode_utf8(member_key(relative@))),
    {
        let wanted: &[u8] = member_text(relative).as_bytes();
        let mut low: usize = 0;
        let mut high: usize = self.keys.len();
        while low < high
            invariant
                low <= high <= self.keys.len(),
                self.wf(),
                forall|j: int| 0 <= j < low ==> precedes(#[trigger] self.rows()[j], wanted@),
                forall|j: int|
                    high <= j < self.keys.len() ==> precedes(wanted@, #[trigger] self.rows()[j]),
                wanted@ == encode_utf8(member_key(relative@)),
            decreases high - low,
        {
            let middle: usize = low + (high - low) / 2;
            assert(self.keys@[middle as int].offset + self.keys@[middle as int].length
                <= self.bytes@.len());
            let total: usize = self.bytes.len();
            let start: usize = self.keys[middle].offset as usize;
            let end: usize = start + self.keys[middle].length as usize;
            let found: &[u8] = slice_subrange(self.bytes.as_slice(), start, end);
            assert(found@ == self.rows()[middle as int]);
            match compare_bytes(found, wanted) {
                Order::Equal => {
                    return true;
                },
                Order::Less => {
                    proof {
                        assert forall|j: int| 0 <= j < middle + 1 implies precedes(
                            #[trigger] self.rows()[j],
                            wanted@,
                        ) by {
                            if j < middle {
                                precedes_transitive(
                                    self.rows()[j],
                                    self.rows()[middle as int],
                                    wanted@,
                                );
                            }
                        }
                    }
                    low = middle + 1;
                },
                Order::Greater => {
                    proof {
                        assert forall|j: int| middle <= j < self.keys.len() implies precedes(
                            wanted@,
                            #[trigger] self.rows()[j],
                        ) by {
                            if j > middle {
                                precedes_transitive(
                                    wanted@,
                                    self.rows()[middle as int],
                                    self.rows()[j],
                                );
                            }
                        }
                    }
                    high = middle;
                },
            }
        }
        proof {
            if self.rows().contains(wanted@) {
                let w = choose|w: int| 0 <= w < self.rows().len() && self.rows()[w] == wanted@;
                precedes_irreflexive(wanted@);
                if w < low {
                    assert(precedes(self.rows()[w], wanted@));
                } else {
                    assert(precedes(wanted@, self.rows()[w]));
                }
            }
        }
        false
    }

    /// What the facts are charged.
    pub fn heap_bytes(&self) -> (r: usize)
        requires
            self.weight() <= usize::MAX,
        ensures
            r == self.weight(),
    {
        self.bytes.len() + self.keys.len() * PNPM_KEY_BYTES
    }
}

/// The bytes that the keys take together.
pub open spec fn key_bytes(keys: Seq<Seq<char>>) -> int
    decreases keys.len(),
{
    if keys.len() == 0 {
        0
    } else {
        key_bytes(keys.drop_last()) + encode_utf8(keys.last()).len()
    }
}

/// Whether keys that were gathered in this order stay within the limits.
pub open spec fn retainable(keys: Seq<Seq<char>>, heap_limit: int) -> bool {
    &&& keys.len() <= MAX_PNPM_KEYS
    &&& key_bytes(keys) + keys.len() * PNPM_KEY_BYTES <= heap_limit
}

proof fn key_bytes_grow(keys: Seq<Seq<char>>, n: int)
    requires
        0 <= n <= keys.len(),
    ensures
        0 <= key_bytes(keys.take(n)) <= key_bytes(keys),
    decreases keys.len(),
{
    if n == keys.len() {
        assert(keys.take(n) =~= keys);
        if keys.len() > 0 {
            key_bytes_grow(keys.drop_last(), n - 1);
        }
    } else {
        key_bytes_grow(keys.drop_last(), n);
        assert(keys.drop_last().take(n) =~= keys.take(n));
    }
}

/// The UTF-8 bytes of every text.
pub open spec fn encoded(keys: Seq<Seq<char>>) -> Seq<Seq<u8>> {
    keys.map_values(|k: Seq<char>| encode_utf8(k))
}

fn gather(keys: &Vec<String>, heap_limit: usize) -> (r: Option<Vec<Vec<u8>>>)
    ensures
        r is Some == retainable(texts(keys@), heap_limit as int),
        r matches Some(rows) ==> byte_rows(rows@) == encoded(texts(keys@)),
{
    let ghost all = texts(keys@);
    let mut rows: Vec<Vec<u8>> = Vec::new();
    let mut count: usize = 0;
    let mut i: usize = 0;
    while i < keys.len()
        invariant
            i <= keys.len(),
            i <= MAX_PNPM_KEYS,
            all == texts(keys@),
            count == key_bytes(all.take(i as int)),
            count + i * PNPM_KEY_BYTES <= heap_limit,
            rows@.len() == i,
            forall|j: int| 0 <= j < i ==> (#[trigger] rows@[j])@ == encode_utf8(all[j]),
        decreases keys.len() - i,
    {
        let key: &[u8] = keys[i].as_str().as_bytes();
        proof {
            assert(all.take(i + 1).drop_last() =~= all.take(i as int));
            assert(all.take(i + 1).last() == all[i as int]);
            key_bytes_grow(all, i + 1);
        }
        let room: usize = heap_limit - count - i * PNPM_KEY_BYTES;
        if i == MAX_PNPM_KEYS || room < PNPM_KEY_BYTES || room - PNPM_KEY_BYTES < key.len() {
            return None;
        }
        count = count + key.len();
        rows.push(slice_to_vec(key));
        i = i + 1;
    }
    proof {
        assert(all.take(i as int) =~= all);
        assert(byte_rows(rows@) =~= encoded(all));
    }
    Some(rows)
}

/// How many bytes rows take together.
pub open spec fn row_bytes(rows: Seq<Seq<u8>>) -> int
    decreases rows.len(),
{
    if rows.len() == 0 {
        0
    } else {
        row_bytes(rows.drop_last()) + rows.last().len()
    }
}

/// Whether every row, laid out one after the other, starts and ends where a range
/// can say it.
pub open spec fn addressable(rows: Seq<Seq<u8>>) -> bool {
    forall|i: int| 0 <= i < rows.len() ==> #[trigger] range_fits(rows, i)
}

/// Whether a range can say where a row starts, and how long it is.
pub open spec fn range_fits(rows: Seq<Seq<u8>>, i: int) -> bool {
    rows[i].len() <= u32::MAX && row_bytes(rows.take(i)) <= u32::MAX
}

/// Packs sorted rows; `None` where a position does not fit its range.
fn pack(rows: &Vec<Vec<u8>>, heap_limit: usize) -> (r: Option<PnpmFacts>)
    requires
        strictly_sorted(byte_rows(rows@)),
        row_bytes(byte_rows(rows@)) + rows@.len() * PNPM_KEY_BYTES <= heap_limit,
    ensures
        r matches Some(facts) ==> facts.wf() && facts.rows() == byte_rows(rows@) && facts.weight()
            <= heap_limit,
        r is Some == addressable(byte_rows(rows@)),
{
    let ghost all = byte_rows(rows@);
    let mut facts: PnpmFacts = PnpmFacts { bytes: Vec::new(), keys: Vec::new() };
    let mut i: usize = 0;
    while i < rows.len()
        invariant
            i <= rows.len(),
            row_bytes(all) + all.len() * PNPM_KEY_BYTES <= heap_limit,
            all == byte_rows(rows@),
            strictly_sorted(all),
            forall|j: int| 0 <= j < i ==> #[trigger] range_fits(all, j),
            facts.keys@.len() == i,
            facts.bytes@.len() + i * PNPM_KEY_BYTES <= heap_limit,
            facts.bytes@.len() == row_bytes(all.take(i as int)),
            forall|j: int|
                0 <= j < i ==> (#[trigger] facts.keys@[j]).offset + facts.keys@[j].length
                    <= facts.bytes@.len(),
            forall|j: int| 0 <= j < i ==> #[trigger] facts.key(j) == all[j],
        decreases rows.len() - i,
    {
        let row: &Vec<u8> = &rows[i];
        let used: usize = facts.bytes.len();
        proof {
            assert(all.take(i + 1).drop_last() =~= all.take(i as int));
            assert(all.take(i + 1).last() == row@);
            row_bytes_grow(all, i + 1);
        }
        if used > 0xffff_ffffusize || row.len() > 0xffff_ffffusize {
            assert(!range_fits(all, i as int));
            return None;
        }
        assert(range_fits(all, i as int));
        let ghost before = facts;
        facts.keys.push(PnpmKeyRange { offset: used as u32, length: row.len() as u32 });
        let mut copy: Vec<u8> = slice_to_vec(row.as_slice());
        facts.bytes.append(&mut copy);
        proof {
            assert forall|j: int| 0 <= j < i + 1 implies #[trigger] facts.key(j) == all[j] by {
                if j < i {
                    assert(facts.keys@[j] == before.keys@[j]);
                    assert(before.key(j) == all[j]);
                    assert(facts.key(j) =~= before.key(j));
                } else {
                    assert(facts.key(j) =~= row@);
                }
            }
            assert forall|j: int| 0 <= j < i + 1 implies (#[trigger] facts.keys@[j]).offset
                + facts.keys@[j].length <= facts.bytes@.len() by {
                if j < i {
                    assert(facts.keys@[j] == before.keys@[j]);
                }
            }
        }
        i = i + 1;
    }
    proof {
        assert(facts.rows() =~= all);
        assert(all.take(i as int) =~= all);
    }
    Some(facts)
}

proof fn row_bytes_grow(rows: Seq<Seq<u8>>, n: int)
    requires
        0 <= n <= rows.len(),
    ensures
        0 <= row_bytes(rows.take(n)) + n * PNPM_KEY_BYTES <= row_bytes(rows) + rows.len()
            * PNPM_KEY_BYTES,
    decreases rows.len(),
{
    if n == rows.len() {
        assert(rows.take(n) =~= rows);
        if rows.len() > 0 {
            row_bytes_grow(rows.drop_last(), n - 1);
        }
    } else {
        row_bytes_grow(rows.drop_last(), n);
        assert(rows.drop_last().take(n) =~= rows.take(n));
    }
}

/// Whether rows are the keys, each of them once and in order.
pub open spec fn distinct_keys(rows: Seq<Seq<u8>>, keys: Seq<Seq<char>>) -> bool {
    &&& strictly_sorted(rows)
    &&& forall|k: Seq<u8>| #[trigger] rows.contains(k) <==> encoded(keys).contains(k)
}

/// What a capture says of a lockfile: its failure, or whether it names the
/// relative path together with the facts, if they are worth retaining.
pub open spec fn capture_outcome(
    source: Seq<u8>,
    relative: Seq<char>,
    heap_limit: int,
    r: Result<(bool, Option<PnpmFacts>), String>,
) -> bool {
    match lock_owns(source, relative) {
        Err(reason) => failed(r, reason),
        Ok(owns) => {
            &&& r matches Ok(pair) && pair.0 == owns
            &&& r->Ok_0.1 matches Some(facts) ==> facts.wf() && facts.describes(source)
                && facts.weight() <= heap_limit
            &&& if retainable(lock_importers(source).0, heap_limit) {
                exists|rows: Seq<Seq<u8>>| #[trigger]
                    distinct_keys(rows, lock_importers(source).0) && r->Ok_0.1 is Some
                        == addressable(rows)
            } else {
                r->Ok_0.1 is None
            }
        },
    }
}

/// Distinct texts have distinct bytes.
proof fn encoded_contains(keys: Seq<Seq<char>>, k: Seq<char>)
    ensures
        encoded(keys).contains(encode_utf8(k)) == keys.contains(k),
{
    if keys.contains(k) {
        let w = choose|w: int| 0 <= w < keys.len() && keys[w] == k;
        assert(encoded(keys)[w] == encode_utf8(k));
    }
    if encoded(keys).contains(encode_utf8(k)) {
        let w = choose|w: int| 0 <= w < keys.len() && encoded(keys)[w] == encode_utf8(k);
        vstd::utf8::encode_utf8_decode_utf8(keys[w]);
        vstd::utf8::encode_utf8_decode_utf8(k);
        assert(keys[w] == k);
    }
}

/// Sorting and dropping repetition never takes more room.
proof fn sorted_fits(rows: Seq<Seq<u8>>, keys: Seq<Seq<char>>)
    requires
        strictly_sorted(rows),
        forall|k: Seq<u8>| #[trigger] rows.contains(k) ==> encoded(keys).contains(k),
    ensures
        row_bytes(rows) + rows.len() * PNPM_KEY_BYTES <= key_bytes(keys) + keys.len()
            * PNPM_KEY_BYTES,
    decreases rows.len(),
{
    if rows.len() == 0 {
        key_bytes_grow(keys, 0);
    } else {
        let last = rows.last();
        let rest = rows.drop_last();
        assert(rows.contains(last)) by {
            assert(rows[rows.len() - 1] == last);
        }
        let w = choose|w: int| 0 <= w < keys.len() && encoded(keys)[w] == last;
        let others = keys.remove(w);
        assert forall|k: Seq<u8>| #[trigger] rest.contains(k) implies encoded(others).contains(k) by {
            let m = choose|m: int| 0 <= m < rest.len() && rest[m] == k;
            assert(rows[m] == k);
            assert(rows.contains(k));
            precedes_irreflexive(k);
            assert(precedes(rows[m], rows[rows.len() - 1]));
            let v = choose|v: int| 0 <= v < keys.len() && encoded(keys)[v] == k;
            if v < w {
                assert(encoded(others)[v] == k);
            } else {
                assert(encoded(others)[v - 1] == k);
            }
        }
        sorted_fits(rest, others);
        key_bytes_remove(keys, w);
    }
}

/// Under a limit that ranges can count up to, all that is within the limit is
/// kept.
pub proof fn what_fits_is_addressable(
    rows: Seq<Seq<u8>>,
    keys: Seq<Seq<char>>,
    heap_limit: int,
)
    requires
        distinct_keys(rows, keys),
        retainable(keys, heap_limit),
        heap_limit <= u32::MAX,
    ensures
        addressable(rows),
{
    sorted_fits(rows, keys);
    assert forall|i: int| 0 <= i < rows.len() implies #[trigger] range_fits(rows, i) by {
        row_bytes_grow(rows, i);
        row_bytes_grow(rows, i + 1);
        assert(rows.take(i + 1).drop_last() =~= rows.take(i));
        row_bytes_positive(rows.take(i));
    }
}

proof fn row_bytes_positive(rows: Seq<Seq<u8>>)
    ensures
        row_bytes(rows) >= 0,
    decreases rows.len(),
{
    if rows.len() > 0 {
        row_bytes_positive(rows.drop_last());
    }
}

/// Facts answer for every path as the lockfile does, within their limit and in
/// order.
pub proof fn facts_answer_for_every_path(
    source: Seq<u8>,
    relative: Seq<char>,
    heap_limit: int,
    r: Result<(bool, Option<PnpmFacts>), String>,
    other: Seq<char>,
)
    requires
        capture_outcome(source, relative, heap_limit, r),
        r is Ok,
        r->Ok_0.1 is Some,
    ensures
        r->Ok_0.1->Some_0.weight() <= heap_limit,
        strictly_sorted(r->Ok_0.1->Some_0.rows()),
        lock_owns(source, other) == Ok::<bool, Seq<char>>(
            r->Ok_0.1->Some_0.rows().contains(encode_utf8(member_key(other))),
        ),
{
}

proof fn key_bytes_remove(keys: Seq<Seq<char>>, w: int)
    requires
        0 <= w < keys.len(),
    ensures
        key_bytes(keys) == key_bytes(keys.remove(w)) + encode_utf8(keys[w]).len(),
    decreases keys.len(),
{
    if w == keys.len() - 1 {
        assert(keys.remove(w) =~= keys.drop_last());
    } else {
        key_bytes_remove(keys.drop_last(), w);
        assert(keys.remove(w).drop_last() =~= keys.drop_last().remove(w));
        assert(keys.remove(w).last() == keys.last());
    }
}

impl PnpmFacts {
    /// Reads a lockfile once: whether it names the relative path, and its facts
    /// where they are within the limit.
    pub fn capture(bytes: &[u8], relative: &str, heap_limit: usize) -> (r: Result<
        (bool, Option<PnpmFacts>),
        String,
    >)
        ensures
            capture_outcome(bytes@, relative@, heap_limit as int, r),
    {
        let read: Importers = visit_pnpm_importers(bytes);
        if let Err(reason) = read.outcome {
            return Err(reason);
        }
        let owns: bool = crate::pnpm::has_text(&read.keys, member_text(relative));
        match gather(&read.keys, heap_limit) {
            None => Ok((owns, None)),
            Some(rows) => {
                let sorted: Vec<Vec<u8>> = sorted_unique(rows.as_slice());
                proof {
                    assert(distinct_keys(byte_rows(sorted@), texts(read.keys@)));
                    sorted_fits(byte_rows(sorted@), texts(read.keys@));
                }
                let packed: Option<PnpmFacts> = pack(&sorted, heap_limit);
                let ghost seen = packed;
                proof {
                    if seen is Some {
                        let facts = seen->Some_0;
                        assert forall|other: Seq<char>|
                            facts.rows().contains(encode_utf8(#[trigger] member_key(other)))
                                <==> lock_importers(bytes@).0.contains(member_key(other)) by {
                            encoded_contains(texts(read.keys@), member_key(other));
                            assert(byte_rows(sorted@).contains(encode_utf8(member_key(other)))
                                <==> byte_rows(rows@).contains(encode_utf8(member_key(other))));
                        }
                    }
                }
                Ok((owns, packed))
            },
        }
    }
}

/// Facts that are kept under the digest of the bytes they were read from.
pub struct CachedPnpm {
    pub digest: Digest,
    pub facts: PnpmFacts,
    pub source: Ghost<Seq<u8>>,
}

impl CachedPnpm {
    pub open spec fn wf(&self) -> bool {
        &&& self.facts.wf()
        &&& self.facts.describes(self.source@)
        &&& self.digest@ == blake3_digest(self.source@)
    }
}

/// Scan-local pure importer facts, never file identities or deletion permission.
/// The budget charges every entry slot and all retained keys.
pub struct PnpmLockCache {
    pub entries: Vec<CachedPnpm>,
    pub entry_limit: usize,
    pub byte_limit: usize,
    pub retained_bytes: usize,
}

/// What the entries are charged together.
pub open spec fn pnpm_weight(entries: Seq<CachedPnpm>) -> int
    decreases entries.len(),
{
    if entries.len() == 0 {
        0
    } else {
        pnpm_weight(entries.drop_last()) + entries.last().facts.weight()
    }
}

proof fn pnpm_weight_remove(entries: Seq<CachedPnpm>, i: int)
    requires
        0 <= i < entries.len(),
    ensures
        pnpm_weight(entries) == pnpm_weight(entries.remove(i)) + entries[i].facts.weight(),
        pnpm_weight(entries.remove(i)) >= 0,
        entries[i].facts.weight() >= 0,
    decreases entries.len(),
{
    if i == entries.len() - 1 {
        assert(entries.remove(i) =~= entries.drop_last());
        pnpm_weight_positive(entries.drop_last());
    } else {
        pnpm_weight_remove(entries.drop_last(), i);
        assert(entries.remove(i).drop_last() =~= entries.drop_last().remove(i));
        assert(entries.remove(i).last() == entries.last());
    }
}

proof fn pnpm_weight_positive(entries: Seq<CachedPnpm>)
    ensures
        pnpm_weight(entries) >= 0,
    decreases entries.len(),
{
    if entries.len() > 0 {
        pnpm_weight_positive(entries.drop_last());
    }
}

impl PnpmLockCache {
    pub open spec fn wf(&self) -> bool {
        &&& self.entries@.len() <= self.entry_limit <= MAX_PNPM_CACHE_ENTRIES
        &&& self.byte_limit <= MAX_PNPM_CACHE_BYTES
        &&& self.retained_bytes == self.entry_limit * PNPM_ENTRY_BYTES + pnpm_weight(self.entries@)
        &&& self.retained_bytes <= self.byte_limit
        &&& forall|i: int| 0 <= i < self.entries@.len() ==> (#[trigger] self.entries@[i]).wf()
    }

    /// The entry for a digest, if there is one, was read from these bytes.
    pub open spec fn undisputed(&self, digest: Digest, source: Seq<u8>) -> bool {
        forall|i: int|
            0 <= i < self.entries@.len() && (#[trigger] self.entries@[i]).digest@ == digest@
                ==> self.entries@[i].source@ == source
    }

    /// Whether these entries leave room for one more of the given weight.
    pub open spec fn has_room(&self, entries: Seq<CachedPnpm>, heap: int) -> bool {
        &&& entries.len() < self.entry_limit
        &&& self.entry_limit * PNPM_ENTRY_BYTES + pnpm_weight(entries) + heap <= self.byte_limit
    }

    /// The cache after the facts of `source` were added: the oldest entries made
    /// room, and no more of them than had to.
    pub open spec fn admits(&self, after: &Self, digest: Digest, source: Seq<u8>, dropped: int) -> bool {
        &&& 0 <= dropped <= self.entries@.len()
        &&& after.entries@.len() == self.entries@.len() - dropped + 1
        &&& after.entries@.drop_last() == self.entries@.skip(dropped)
        &&& after.entries@.last().digest@ == digest@
        &&& after.entries@.last().source@ == source
        &&& dropped > 0 ==> !self.has_room(
            self.entries@.skip(dropped - 1),
            after.entries@.last().facts.weight(),
        )
    }

    /// The cache after the entry at `i` was used: it is now the youngest.
    pub open spec fn refreshes(&self, after: &Self, i: int) -> bool {
        &&& 0 <= i < self.entries@.len()
        &&& after.entries@ == self.entries@.remove(i).push(self.entries@[i])
    }

    /// Whether some entry was kept under this digest.
    pub open spec fn knows(&self, digest: Digest) -> bool {
        exists|i: int|
            0 <= i < self.entries@.len() && (#[trigger] self.entries@[i]).digest@ == digest@
    }

    /// The cache after a question about `source`: a failure, a small lockfile and
    /// facts that would not fit change nothing, known facts become the youngest,
    /// and others are added.
    pub open spec fn served(
        &self,
        after: &Self,
        digest: Digest,
        source: Seq<u8>,
        answered: bool,
    ) -> bool {
        if !answered || source.len() < MIN_PNPM_CACHE_BYTES || self.entry_limit == 0 {
            *after == *self
        } else if self.knows(digest) {
            exists|i: int|
                self.entries@[i].digest@ == digest@ && #[trigger] self.refreshes(after, i)
        } else if retainable(
            lock_importers(source).0,
            self.byte_limit - self.entry_limit * PNPM_ENTRY_BYTES,
        ) {
            exists|dropped: int| #[trigger] self.admits(after, digest, source, dropped)
        } else {
            *after == *self
        }
    }

    pub fn new() -> (r: Self)
        ensures
            r.wf(),
            r.entries@.len() == 0,
            r.entry_limit == MAX_PNPM_CACHE_ENTRIES,
            r.byte_limit == MAX_PNPM_CACHE_BYTES,
    {
        Self::with_limits(MAX_PNPM_CACHE_ENTRIES, MAX_PNPM_CACHE_BYTES)
    }

    /// An empty cache; limits beyond the fixed ones are cut down to them, and
    /// no more slots are kept than the byte limit pays for.
    pub fn with_limits(entry_limit: usize, byte_limit: usize) -> (r: Self)
        ensures
            r.wf(),
            r.entries@.len() == 0,
            r.byte_limit == if byte_limit < MAX_PNPM_CACHE_BYTES {
                byte_limit
            } else {
                MAX_PNPM_CACHE_BYTES
            },
            r.entry_limit == if entry_limit < MAX_PNPM_CACHE_ENTRIES && entry_limit
                <= r.byte_limit as int / PNPM_ENTRY_BYTES as int {
                entry_limit as int
            } else if MAX_PNPM_CACHE_ENTRIES <= r.byte_limit as int / PNPM_ENTRY_BYTES as int {
                MAX_PNPM_CACHE_ENTRIES as int
            } else {
                r.byte_limit as int / PNPM_ENTRY_BYTES as int
            },
    {
        let bytes: usize = if byte_limit < MAX_PNPM_CACHE_BYTES {
            byte_limit
        } else {
            MAX_PNPM_CACHE_BYTES
        };
        let paid: usize = bytes / PNPM_ENTRY_BYTES;
        let wanted: usize = if entry_limit < MAX_PNPM_CACHE_ENTRIES {
            entry_limit
        } else {
            MAX_PNPM_CACHE_ENTRIES
        };
        let slots: usize = if wanted <= paid {
            wanted
        } else {
            paid
        };
        PnpmLockCache {
            entries: Vec::new(),
            entry_limit: slots,
            byte_limit: bytes,
            retained_bytes: slots * PNPM_ENTRY_BYTES,
        }
    }

    fn position(&self, digest: &Digest) -> (r: Option<usize>)
        ensures
            match r {
                Some(i) => i < self.entries@.len() && self.entries@[i as int].digest@ == digest@,
                None => forall|i: int|
                    0 <= i < self.entries@.len() ==> (#[trigger] self.entries@[i]).digest@
                        != digest@,
            },
    {
        let mut i: usize = 0;
        while i < self.entries.len()
            invariant
                i <= self.entries.len(),
                forall|j: int|
                    0 <= j < i ==> (#[trigger] self.entries@[j]).digest@ != digest@,
            decreases self.entries.len() - i,
        {
            if same_digest(&self.entries[i].digest, digest) {
                return Some(i);
            }
            i = i + 1;
        }
        None
    }

    /// Whether the captured lockfile names the relative path. The digest has to
    /// describe exactly these bytes. A stop request answers nothing and changes
    /// nothing; a failure is never retained; facts that would not fit displace
    /// nothing; otherwise the least recently used facts make room.
    pub fn owns_captured(
        &mut self,
        digest: Digest,
        bytes: &[u8],
        relative: &str,
        cancel: bool,
    ) -> (r: Result<bool, String>)
        requires
            old(self).wf(),
            digest@ == blake3_digest(bytes@),
        ensures
            final(self).wf(),
            final(self).entry_limit == old(self).entry_limit,
            final(self).byte_limit == old(self).byte_limit,
            cancel ==> failed(r, "Cancelled"@) && *final(self) == *old(self),
            !cancel && (old(self).undisputed(digest, bytes@) || old(self).entry_limit == 0
                || bytes@.len() < MIN_PNPM_CACHE_BYTES) ==> outcome_is(
                r,
                lock_owns(bytes@, relative@),
            ),
            !cancel ==> exists|source: Seq<u8>|
                (#[trigger] blake3_digest(source)) == blake3_digest(bytes@) && outcome_is(
                    r,
                    lock_owns(source, relative@),
                ),
            old(self).served(final(self), digest, bytes@, r is Ok),
    {
        if cancel {
            return fail("Cancelled");
        }
        if self.entry_limit == 0 || bytes.len() < MIN_PNPM_CACHE_BYTES {
            return pnpm_lock_owns(bytes, relative);
        }
        if let Some(index) = self.position(&digest) {
            assert(self.entries@[index as int].wf());
            let owns: bool = self.entries[index].facts.owns(relative);
            proof {
                if self.undisputed(digest, bytes@) {
                    assert(self.entries@[index as int].source@ == bytes@);
                    let k = member_key(relative@);
                    assert(lock_importers(bytes@).0.contains(k) == owns);
                }
                pnpm_weight_remove(self.entries@, index as int);
            }
            let ghost before = self.entries@;
            let entry: CachedPnpm = self.entries.remove(index);
            let ghost kept = self.entries@;
            self.entries.push(entry);
            proof {
                assert(self.entries@.drop_last() =~= kept);
                assert(kept == before.remove(index as int));
                assert forall|i: int| 0 <= i < self.entries@.len() implies (
                #[trigger] self.entries@[i]).wf() by {
                    if i < index {
                        assert(self.entries@[i] == before[i]);
                    } else if i < kept.len() {
                        assert(self.entries@[i] == before[i + 1]);
                    }
                }
                assert(old(self).refreshes(self, index as int));
            }
            return Ok(owns);
        }
        let slots: usize = self.entry_limit * PNPM_ENTRY_BYTES;
        proof {
            pnpm_weight_positive(self.entries@);
        }
        let (owns, facts) = match PnpmFacts::capture(bytes, relative, self.byte_limit - slots) {
            Ok(pair) => pair,
            Err(reason) => {
                return Err(reason);
            },
        };
        let facts: PnpmFacts = match facts {
            Some(facts) => facts,
            // Oversized valid evidence answers normally and displaces nothing.
            None => {
                proof {
                    let keys = lock_importers(bytes@).0;
                    let room = self.byte_limit - slots;
                    if retainable(keys, room) {
                        let rows = choose|rows: Seq<Seq<u8>>| #[trigger]
                            distinct_keys(rows, keys) && !addressable(rows);
                        what_fits_is_addressable(rows, keys, room);
                    }
                }
                return Ok(owns);
            },
        };
        let heap: usize = facts.heap_bytes();
        let ghost mut dropped: int = 0;
        assert(self.entries@.skip(0) =~= self.entries@);
        while self.entries.len() == self.entry_limit || heap > self.byte_limit
            - self.retained_bytes
            invariant
                self.wf(),
                self.entry_limit == old(self).entry_limit,
                self.byte_limit == old(self).byte_limit,
                self.entry_limit > 0,
                heap <= self.byte_limit - self.entry_limit * PNPM_ENTRY_BYTES,
                0 <= dropped <= old(self).entries@.len(),
                self.entries@ == old(self).entries@.skip(dropped),
                dropped > 0 ==> !old(self).has_room(
                    old(self).entries@.skip(dropped - 1),
                    heap as int,
                ),
            decreases self.entries.len(),
        {
            let ghost before = self.entries@;
            proof {
                if before.len() == 0 {
                    assert(pnpm_weight(before) == 0);
                }
                pnpm_weight_remove(before, 0);
                assert(before[0].wf());
            }
            let evicted: CachedPnpm = self.entries.remove(0);
            self.retained_bytes = self.retained_bytes - evicted.facts.heap_bytes();
            proof {
                dropped = dropped + 1;
                assert(self.entries@ =~= old(self).entries@.skip(dropped));
                assert forall|i: int| 0 <= i < self.entries@.len() implies (
                #[trigger] self.entries@[i]).wf() by {
                    assert(self.entries@[i] == before[i + 1]);
                }
            }
        }
        let ghost before = self.entries@;
        self.retained_bytes = self.retained_bytes + heap;
        self.entries.push(CachedPnpm { digest, facts, source: Ghost(bytes@) });
        proof {
            assert(self.entries@.drop_last() =~= before);
            assert(old(self).admits(self, digest, bytes@, dropped));
            assert forall|i: int| 0 <= i < self.entries@.len() implies (
            #[trigger] self.entries@[i]).wf() by {
                if i < before.len() {
                    assert(self.entries@[i] == before[i]);
                }
            }
        }
        Ok(owns)
    }

    /// As `owns_captured`, with the digest taken from the bytes here.
    pub fn owns(&mut self, bytes: &[u8], relative: &str, cancel: bool) -> (r: Result<bool, String>)
        requires
            old(self).wf(),
        ensures
            final(self).wf(),
            final(self).entry_limit == old(self).entry_limit,
            final(self).byte_limit == old(self).byte_limit,
            cancel ==> failed(r, "Cancelled"@) && *final(self) == *old(self),
            !cancel ==> exists|source: Seq<u8>|
                (#[trigger] blake3_digest(source)) == blake3_digest(bytes@) && outcome_is(
                    r,
                    lock_owns(source, relative@),
                ),
            forall|digest: Digest|
                digest@ == blake3_digest(bytes@) ==> #[trigger] old(self).served(
                    final(self),
                    digest,
                    bytes@,
                    r is Ok,
                ),
            !cancel && (old(self).entry_limit == 0 || bytes@.len() < MIN_PNPM_CACHE_BYTES)
                ==> outcome_is(r, lock_owns(bytes@, relative@)),
            !cancel ==> forall|digest: Digest|
                digest@ == blake3_digest(bytes@) && #[trigger] old(self).undisputed(digest, bytes@)
                    ==> outcome_is(r, lock_owns(bytes@, relative@)),
    {
        let digest: Digest = digest_of(bytes);
        let r: Result<bool, String> = self.owns_captured(digest, bytes, relative, cancel);
        proof {
            assert forall|other: Digest| other@ == blake3_digest(bytes@) implies #[trigger] old(
                self,
            ).served(self, other, bytes@, r is Ok) by {
                assert(old(self).knows(other) == old(self).knows(digest));
                if old(self).knows(other) && r is Ok && bytes@.len() >= MIN_PNPM_CACHE_BYTES
                    && old(self).entry_limit > 0 {
                    let i = choose|i: int|
                        old(self).entries@[i].digest@ == digest@ && #[trigger] old(
                            self,
                        ).refreshes(self, i);
                    assert(old(self).refreshes(self, i));
                } else if exists|dropped: int| #[trigger]
                    old(self).admits(self, digest, bytes@, dropped) {
                    let dropped = choose|dropped: int| #[trigger]
                        old(self).admits(self, digest, bytes@, dropped);
                    assert(old(self).admits(self, other, bytes@, dropped));
                }
            }
        }
        r
    }
}

} // verus!
