//! The index of a repository: the layout that lists every tracked name locally.
use crate::text::{
    fail, failed, has_byte, index_of, index_of_facts, pieces, split_bytes, Span,
};
use vstd::prelude::*;
use vstd::slice::slice_subrange;

verus! {

pub const MAX_GIT_INDEX_BYTES: u64 = 4 * 1024 * 1024;

/// The checksum at the end of the file.
pub const CHECKSUM_BYTES: usize = 20;

/// The fixed part of an entry, up to its name.
pub const ENTRY_BYTES: usize = 62;

/// The length from which a name's end has to be looked for.
pub const LONG_NAME: usize = 0x0fff;

/// Four bytes as a number, the most significant one first.
pub open spec fn word(bytes: Seq<u8>, at: int) -> int {
    bytes[at] * 0x100_0000 + bytes[at + 1] * 0x1_0000 + bytes[at + 2] * 0x100 + bytes[at + 3]
}

/// Two bytes as a number, the most significant one first.
pub open spec fn half(bytes: Seq<u8>, at: int) -> int {
    bytes[at] * 0x100 + bytes[at + 1]
}

pub open spec fn malformed() -> Seq<char> {
    "The Git index format could not be safely verified"@
}

/// Whether a component of a tracked name is one that no checkout has.
pub open spec fn bad_part(part: Seq<u8>) -> bool {
    part.len() == 0 || part == seq![46u8] || part == seq![46u8, 46u8] || part == seq![
        46u8,
        103u8,
        105u8,
        116u8,
    ]
}

/// Whether a tracked name can be one: neither empty nor interrupted, and of
/// proper components.
pub open spec fn good_name(name: Seq<u8>) -> bool {
    &&& name.len() > 0
    &&& !name.contains(0)
    &&& forall|i: int|
        0 <= i < pieces(name, 47u8).len() ==> !bad_part(#[trigger] pieces(name, 47u8)[i])
}

/// The next multiple of eight.
pub open spec fn padded(n: int) -> int {
    (n + 7) / 8 * 8
}

/// Where the name of an entry starts: two more bytes come before it where the
/// flags announce them.
pub open spec fn name_start(bytes: Seq<u8>, at: int) -> int {
    at + ENTRY_BYTES + if half(bytes, at + 60) / 0x4000 % 2 == 1 {
        2int
    } else {
        0
    }
}

/// Where the name of an entry ends; nowhere, if a long name is never closed.
pub open spec fn name_end(bytes: Seq<u8>, at: int, end: int) -> Option<int> {
    let start = name_start(bytes, at);
    let length = half(bytes, at + 60) % 0x1000;
    if length < LONG_NAME {
        Some(start + length)
    } else if start > end || !bytes.subrange(start, end).contains(0) {
        None
    } else {
        Some(start + index_of(bytes.subrange(start, end), 0))
    }
}

/// What an entry at a place says: why the index cannot be used, or where the
/// next entry is.
pub open spec fn entry_outcome(bytes: Seq<u8>, version: int, at: int, end: int) -> Result<
    int,
    Seq<char>,
> {
    if at + ENTRY_BYTES > end {
        Err(malformed())
    } else if word(bytes, at + 24) / 0x1000 % 16 == 4 {
        Err("Sparse Git indexes need manual inspection"@)
    } else if half(bytes, at + 60) / 0x4000 % 2 == 1 && version == 2 {
        Err(malformed())
    } else {
        match name_end(bytes, at, end) {
            None => Err(malformed()),
            Some(stop) => {
                let start = name_start(bytes, at);
                let next = at + padded(stop + 1 - at);
                if stop >= end || !good_name(bytes.subrange(start, stop)) || bytes[stop] != 0 {
                    Err(malformed())
                } else if next > end || exists|i: int| stop <= i < next && #[trigger] bytes[i] != 0 {
                    Err(malformed())
                } else {
                    Ok(next)
                }
            },
        }
    }
}

/// What a number of entries from a place on say.
pub open spec fn entries_outcome(
    bytes: Seq<u8>,
    version: int,
    at: int,
    end: int,
    count: int,
) -> Result<int, Seq<char>>
    decreases count,
{
    if count <= 0 {
        Ok(at)
    } else {
        match entry_outcome(bytes, version, at, end) {
            Err(reason) => Err(reason),
            Ok(next) => entries_outcome(bytes, version, next, end, count - 1),
        }
    }
}

/// What the extensions from a place on say: only optional ones, which have a
/// capital first, are understood.
pub open spec fn extensions_outcome(bytes: Seq<u8>, at: int, end: int) -> Result<(), Seq<char>>
    decreases end - at,
{
    if at >= end {
        Ok(())
    } else if at + 8 > end {
        Err(malformed())
    } else if !(65 <= bytes[at] <= 90) {
        Err("Split, sparse or unfamiliar Git index extensions need manual inspection"@)
    } else if word(bytes, at + 4) < 0 || at + 8 + word(bytes, at + 4) > end {
        Err(malformed())
    } else {
        extensions_outcome(bytes, at + 8 + word(bytes, at + 4), end)
    }
}

/// What an index says: why it cannot be used, if it cannot.
pub open spec fn index_outcome(bytes: Seq<u8>) -> Result<(), Seq<char>> {
    if bytes.len() < 32 || bytes.len() > MAX_GIT_INDEX_BYTES || bytes.take(4) != seq![
        68u8,
        73u8,
        82u8,
        67u8,
    ] {
        Err(malformed())
    } else if word(bytes, 4) != 2 && word(bytes, 4) != 3 {
        Err("Compressed or unfamiliar Git indexes need manual inspection"@)
    } else if word(bytes, 8) > bytes.len() / 64 {
        Err(malformed())
    } else {
        let end = bytes.len() - CHECKSUM_BYTES;
        match entries_outcome(bytes, word(bytes, 4), 12, end, word(bytes, 8)) {
            Err(reason) => Err(reason),
            Ok(at) => extensions_outcome(bytes, at, end),
        }
    }
}

fn word_at(bytes: &[u8], at: usize) -> (r: u32)
    requires
        at + 4 <= bytes@.len(),
    ensures
        r == word(bytes@, at as int),
{
    bytes[at] as u32 * 0x100_0000 + bytes[at + 1] as u32 * 0x1_0000 + bytes[at + 2] as u32 * 0x100
        + bytes[at + 3] as u32
}

fn half_at(bytes: &[u8], at: usize) -> (r: u32)
    requires
        at + 2 <= bytes@.len(),
    ensures
        r == half(bytes@, at as int),
{
    bytes[at] as u32 * 0x100 + bytes[at + 1] as u32
}

fn is_bad_part(part: &[u8]) -> (r: bool)
    ensures
        r == bad_part(part@),
{
    let n: usize = part.len();
    if n == 0 {
        return true;
    }
    if n == 1 {
        assert(part@ =~= seq![part@[0]]);
        assert(part[0] == 46 ==> part@ =~= seq![46u8]);
        assert(part@ == seq![46u8] ==> part@[0] == 46);
        return part[0] == 46;
    }
    if n == 2 {
        let dots: bool = part[0] == 46 && part[1] == 46;
        assert(dots ==> part@ =~= seq![46u8, 46u8]);
        assert(part@ == seq![46u8, 46u8] ==> part@[0] == 46 && part@[1] == 46);
        return dots;
    }
    if n == 4 {
        let git: bool = part[0] == 46 && part[1] == 103 && part[2] == 105 && part[3] == 116;
        assert(git ==> part@ =~= seq![46u8, 103u8, 105u8, 116u8]);
        assert(part@ == seq![46u8, 103u8, 105u8, 116u8] ==> part@[0] == 46 && part@[1] == 103
            && part@[2] == 105 && part@[3] == 116);
        return git;
    }
    false
}

fn is_good_name(name: &[u8]) -> (r: bool)
    ensures
        r == good_name(name@),
{
    if name.len() == 0 || has_byte(name, 0) {
        return false;
    }
    let parts: Vec<Span> = split_bytes(name, 47);
    let ghost all = pieces(name@, 47u8);
    let mut i: usize = 0;
    while i < parts.len()
        invariant
            i <= parts.len(),
            all == pieces(name@, 47u8),
            crate::text::covers(parts@, name@, all),
            forall|j: int| 0 <= j < i ==> !bad_part(#[trigger] all[j]),
        decreases parts.len() - i,
    {
        let part: &[u8] = slice_subrange(name, parts[i].start, parts[i].end);
        assert(part@ == all[i as int]);
        if is_bad_part(part) {
            return false;
        }
        i = i + 1;
    }
    true
}

/// Reads one entry and hands back where the next one starts.
#[verifier::rlimit(40)]
fn read_entry(bytes: &[u8], version: u32, at: usize, end: usize) -> (r: Result<usize, String>)
    requires
        at <= end,
        end + CHECKSUM_BYTES == bytes@.len(),
        bytes@.len() <= MAX_GIT_INDEX_BYTES,
    ensures
        match entry_outcome(bytes@, version as int, at as int, end as int) {
            Ok(next) => r matches Ok(got) && got == next && at < got <= end,
            Err(reason) => failed(r, reason),
        },
{
    if at + ENTRY_BYTES > end {
        return fail("The Git index format could not be safely verified");
    }
    let flags: u32 = half_at(bytes, at + 60);
    if word_at(bytes, at + 24) / 0x1000 % 16 == 4 {
        return fail("Sparse Git indexes need manual inspection");
    }
    let extended: bool = flags / 0x4000 % 2 == 1;
    if extended && version == 2 {
        return fail("The Git index format could not be safely verified");
    }
    let start: usize = if extended {
        at + ENTRY_BYTES + 2
    } else {
        at + ENTRY_BYTES
    };
    let length: usize = (flags % 0x1000) as usize;
    let mut stop: usize = start + length;
    if length >= LONG_NAME {
        if start > end {
            return fail("The Git index format could not be safely verified");
        }
        let rest: &[u8] = slice_subrange(bytes, start, end);
        if !has_byte(rest, 0) {
            return fail("The Git index format could not be safely verified");
        }
        let mut k: usize = 0;
        while k < rest.len() && rest[k] != 0
            invariant
                k <= rest.len(),
                rest@.contains(0),
                forall|j: int| 0 <= j < k ==> rest@[j] != 0,
            decreases rest.len() - k,
        {
            k = k + 1;
        }
        proof {
            let w = choose|w: int| 0 <= w < rest@.len() && rest@[w] == 0;
            if k == rest@.len() {
                assert(rest@[w] != 0);
            }
            crate::text::index_of_is(rest@, 0, k as int);
        }
        stop = start + k;
    }
    if stop >= end {
        return fail("The Git index format could not be safely verified");
    }
    let name: &[u8] = slice_subrange(bytes, start, stop);
    if !is_good_name(name) || bytes[stop] != 0 {
        return fail("The Git index format could not be safely verified");
    }
    let next: usize = at + (stop + 1 - at + 7) / 8 * 8;
    if next > end {
        return fail("The Git index format could not be safely verified");
    }
    let mut clean: bool = true;
    let mut i: usize = stop;
    while i < next
        invariant
            stop <= i <= next <= end,
            end + CHECKSUM_BYTES == bytes@.len(),
            clean == !exists|j: int| stop <= j < i && #[trigger] bytes@[j] != 0,
        decreases next - i,
    {
        if bytes[i] != 0 {
            assert(bytes@[i as int] != 0);
            clean = false;
        }
        i = i + 1;
    }
    if !clean {
        return fail("The Git index format could not be safely verified");
    }
    Ok(next)
}

/// An ordinary index contains all tracked names locally. Split and sparse
/// indexes can consult additional files or object stores, so they are
/// deliberately excluded. The index checksum is left to the reader of the index.
pub fn validate_git_index(bytes: &[u8]) -> (r: Result<(), String>)
    ensures
        match index_outcome(bytes@) {
            Ok(_) => r is Ok,
            Err(reason) => failed(r, reason),
        },
{
    let n: usize = bytes.len();
    if n < 32 || n as u64 > MAX_GIT_INDEX_BYTES {
        return fail("The Git index format could not be safely verified");
    }
    if !(bytes[0] == 68 && bytes[1] == 73 && bytes[2] == 82 && bytes[3] == 67) {
        proof {
            let head = bytes@.take(4);
            assert(head == seq![68u8, 73u8, 82u8, 67u8] ==> head[0] == 68 && head[1] == 73
                && head[2] == 82 && head[3] == 67);
        }
        return fail("The Git index format could not be safely verified");
    }
    assert(bytes@.take(4) =~= seq![68u8, 73u8, 82u8, 67u8]);
    let version: u32 = word_at(bytes, 4);
    if version != 2 && version != 3 {
        return fail("Compressed or unfamiliar Git indexes need manual inspection");
    }
    let count: u32 = word_at(bytes, 8);
    if count as u64 > n as u64 / 64 {
        return fail("The Git index format could not be safely verified");
    }
    let end: usize = n - CHECKSUM_BYTES;
    let mut at: usize = 12;
    let mut left: u32 = count;
    while left > 0
        invariant
            n == bytes@.len(),
            end + CHECKSUM_BYTES == n,
            n <= MAX_GIT_INDEX_BYTES,
            at <= end,
            entries_outcome(bytes@, version as int, 12, end as int, count as int)
                == entries_outcome(bytes@, version as int, at as int, end as int, left as int),
            index_outcome(bytes@) == match entries_outcome(
                bytes@,
                version as int,
                12,
                end as int,
                count as int,
            ) {
                Err(reason) => Err::<(), Seq<char>>(reason),
                Ok(at) => extensions_outcome(bytes@, at, end as int),
            },
        decreases left,
    {
        match read_entry(bytes, version, at, end) {
            Ok(next) => {
                at = next;
            },
            Err(reason) => {
                return Err(reason);
            },
        }
        left = left - 1;
    }
    while at < end
        invariant
            n == bytes@.len(),
            end + CHECKSUM_BYTES == n,
            n <= MAX_GIT_INDEX_BYTES,
            at <= end,
            index_outcome(bytes@) == extensions_outcome(bytes@, at as int, end as int),
        decreases end - at,
    {
        if at + 8 > end {
            return fail("The Git index format could not be safely verified");
        }
        if !(bytes[at] >= 65 && bytes[at] <= 90) {
            return fail("Split, sparse or unfamiliar Git index extensions need manual inspection");
        }
        let size: u32 = word_at(bytes, at + 4);
        if size as u64 > (end - at - 8) as u64 {
            return fail("The Git index format could not be safely verified");
        }
        at = at + 8 + size as usize;
    }
    Ok(())
}

/// Where the entries of an index start.
pub open spec fn entry_places(bytes: Seq<u8>, version: int, at: int, end: int, count: int) -> Seq<
    int,
>
    decreases count,
{
    if count <= 0 {
        seq![]
    } else {
        match entry_outcome(bytes, version, at, end) {
            Err(_) => seq![],
            Ok(next) => seq![at] + entry_places(bytes, version, next, end, count - 1),
        }
    }
}

/// Where the extensions of an index start.
pub open spec fn extension_places(bytes: Seq<u8>, at: int, end: int) -> Seq<int>
    decreases end - at,
{
    if at >= end {
        seq![]
    } else if word(bytes, at + 4) < 0 || at + 8 + word(bytes, at + 4) > end {
        seq![at]
    } else {
        seq![at] + extension_places(bytes, at + 8 + word(bytes, at + 4), end)
    }
}

proof fn entries_are_files(bytes: Seq<u8>, version: int, at: int, end: int, count: int)
    requires
        entries_outcome(bytes, version, at, end, count) is Ok,
    ensures
        count >= 0 ==> entry_places(bytes, version, at, end, count).len() == count,
        forall|i: int|
            0 <= i < entry_places(bytes, version, at, end, count).len() ==> {
                let place = #[trigger] entry_places(bytes, version, at, end, count)[i];
                &&& word(bytes, place + 24) / 0x1000 % 16 != 4
                &&& name_end(bytes, place, end) matches Some(stop) && good_name(
                    bytes.subrange(name_start(bytes, place), stop),
                )
            },
    decreases count,
{
    if count > 0 {
        let next = entry_outcome(bytes, version, at, end)->Ok_0;
        entries_are_files(bytes, version, next, end, count - 1);
        let rest = entry_places(bytes, version, next, end, count - 1);
        assert forall|i: int| 0 <= i < entry_places(bytes, version, at, end, count).len() implies {
            let place = #[trigger] entry_places(bytes, version, at, end, count)[i];
            &&& word(bytes, place + 24) / 0x1000 % 16 != 4
            &&& name_end(bytes, place, end) matches Some(stop) && good_name(
                bytes.subrange(name_start(bytes, place), stop),
            )
        } by {
            if i > 0 {
                assert(entry_places(bytes, version, at, end, count)[i] == rest[i - 1]);
            }
        }
    }
}

proof fn extensions_are_optional(bytes: Seq<u8>, at: int, end: int)
    requires
        extensions_outcome(bytes, at, end) is Ok,
    ensures
        forall|i: int|
            0 <= i < extension_places(bytes, at, end).len() ==> 65 <= bytes[#[trigger] extension_places(
                bytes,
                at,
                end,
            )[i]] <= 90,
    decreases end - at,
{
    if at < end {
        let next = at + 8 + word(bytes, at + 4);
        extensions_are_optional(bytes, next, end);
        let rest = extension_places(bytes, next, end);
        assert forall|i: int| 0 <= i < extension_places(bytes, at, end).len() implies 65
            <= bytes[#[trigger] extension_places(bytes, at, end)[i]] <= 90 by {
            if i > 0 {
                assert(extension_places(bytes, at, end)[i] == rest[i - 1]);
            }
        }
    }
}

/// An accepted index holds every tracked name itself: it announces as many
/// entries as it has, none of them stands for a whole folder, and no extension
/// can refer to another file.
pub proof fn accepted_indexes_are_whole(bytes: Seq<u8>)
    requires
        index_outcome(bytes) is Ok,
    ensures
        ({
            let end = bytes.len() - CHECKSUM_BYTES;
            let entries = entry_places(bytes, word(bytes, 4), 12, end, word(bytes, 8));
            let after = entries_outcome(bytes, word(bytes, 4), 12, end, word(bytes, 8));
            &&& entries.len() == word(bytes, 8)
            &&& forall|i: int|
                0 <= i < entries.len() ==> {
                    &&& word(bytes, #[trigger] entries[i] + 24) / 0x1000 % 16 != 4
                    &&& name_end(bytes, entries[i], end) matches Some(stop) && good_name(
                        bytes.subrange(name_start(bytes, entries[i]), stop),
                    )
                }
            &&& after is Ok
            &&& forall|i: int|
                0 <= i < extension_places(bytes, after->Ok_0, end).len() ==> 65
                    <= bytes[#[trigger] extension_places(bytes, after->Ok_0, end)[i]] <= 90
        }),
{
    let end = bytes.len() - CHECKSUM_BYTES;
    assert(word(bytes, 8) >= 0);
    entries_are_files(bytes, word(bytes, 4), 12, end, word(bytes, 8));
    let after = entries_outcome(bytes, word(bytes, 4), 12, end, word(bytes, 8));
    extensions_are_optional(bytes, after->Ok_0, end);
}

/// Whether two indexes hold the same bytes up to a place.
pub open spec fn same_until(a: Seq<u8>, b: Seq<u8>, end: int) -> bool {
    &&& end <= a.len()
    &&& end <= b.len()
    &&& forall|i: int| 0 <= i < end ==> a[i] == b[i]
}

proof fn same_entry(a: Seq<u8>, b: Seq<u8>, version: int, at: int, end: int)
    requires
        same_until(a, b, end),
        0 <= at,
    ensures
        entry_outcome(a, version, at, end) == entry_outcome(b, version, at, end),
        entry_outcome(a, version, at, end) matches Ok(next) ==> at < next <= end,
{
    if at + ENTRY_BYTES <= end {
        let start = name_start(a, at);
        assert(half(a, at + 60) == half(b, at + 60));
        assert(word(a, at + 24) == word(b, at + 24));
        if start <= end {
            assert(a.subrange(start, end) =~= b.subrange(start, end));
        }
        assert(name_end(a, at, end) == name_end(b, at, end));
        if let Some(stop) = name_end(a, at, end) {
            if start <= end && a.subrange(start, end).contains(0) {
                index_of_facts(a.subrange(start, end), 0u8);
            }
            if stop < end {
                assert(a.subrange(start, stop) =~= b.subrange(start, stop));
                let next = at + padded(stop + 1 - at);
                if next <= end {
                    if exists|i: int| stop <= i < next && #[trigger] a[i] != 0 {
                        let i = choose|i: int| stop <= i < next && #[trigger] a[i] != 0;
                        assert(b[i] != 0);
                    }
                    if exists|i: int| stop <= i < next && #[trigger] b[i] != 0 {
                        let i = choose|i: int| stop <= i < next && #[trigger] b[i] != 0;
                        assert(a[i] != 0);
                    }
                }
            }
        }
    }
}

proof fn same_entries(a: Seq<u8>, b: Seq<u8>, version: int, at: int, end: int, count: int)
    requires
        same_until(a, b, end),
        0 <= at,
    ensures
        entries_outcome(a, version, at, end, count) == entries_outcome(
            b,
            version,
            at,
            end,
            count,
        ),
        entries_outcome(a, version, at, end, count) matches Ok(next) ==> at <= next && (at <= end
            ==> next <= end),
    decreases count,
{
    if count > 0 {
        same_entry(a, b, version, at, end);
        if let Ok(next) = entry_outcome(a, version, at, end) {
            same_entries(a, b, version, next, end, count - 1);
        }
    }
}

proof fn same_extensions(a: Seq<u8>, b: Seq<u8>, at: int, end: int)
    requires
        same_until(a, b, end),
        0 <= at,
    ensures
        extensions_outcome(a, at, end) == extensions_outcome(b, at, end),
    decreases end - at,
{
    if at + 8 <= end {
        assert(word(a, at + 4) == word(b, at + 4));
        let next = at + 8 + word(a, at + 4);
        if word(a, at + 4) >= 0 && next <= end {
            same_extensions(a, b, next, end);
        }
    }
}

/// The checksum is no evidence: the last bytes of an index decide nothing.
pub proof fn the_checksum_decides_nothing(a: Seq<u8>, b: Seq<u8>)
    requires
        a.len() == b.len(),
        a.len() >= 32,
        a.take(a.len() - CHECKSUM_BYTES) == b.take(b.len() - CHECKSUM_BYTES),
    ensures
        index_outcome(a) == index_outcome(b),
{
    let end = a.len() - CHECKSUM_BYTES;
    assert forall|i: int| 0 <= i < end implies a[i] == b[i] by {
        assert(a.take(end)[i] == b.take(end)[i]);
    }
    assert(a.take(4) =~= b.take(4));
    assert(word(a, 4) == word(b, 4));
    assert(word(a, 8) == word(b, 8));
    same_entries(a, b, word(a, 4), 12, end, word(a, 8));
    if let Ok(at) = entries_outcome(a, word(a, 4), 12, end, word(a, 8)) {
        same_extensions(a, b, at, end);
    }
}

/// What an entry says does not depend on what comes behind its end.
proof fn shorter_entry(bytes: Seq<u8>, version: int, at: int, less: int, end: int)
    requires
        0 <= at,
        less <= end <= bytes.len(),
        entry_outcome(bytes, version, at, less) is Ok,
    ensures
        entry_outcome(bytes, version, at, end) == entry_outcome(bytes, version, at, less),
{
    let start = name_start(bytes, at);
    let length = half(bytes, at + 60) % 0x1000;
    if length >= LONG_NAME {
        let short = bytes.subrange(start, less);
        let long = bytes.subrange(start, end);
        index_of_facts(short, 0u8);
        assert(long.take(short.len() as int) =~= short);
        first_in_a_longer_text(short, long);
    }
}

proof fn first_in_a_longer_text(short: Seq<u8>, long: Seq<u8>)
    requires
        short.len() <= long.len(),
        long.take(short.len() as int) == short,
        short.contains(0),
    ensures
        long.contains(0),
        index_of(long, 0u8) == index_of(short, 0u8),
    decreases short.len(),
{
    let w = choose|w: int| 0 <= w < short.len() && short[w] == 0;
    assert(long[w] == long.take(short.len() as int)[w]);
    assert(long[0] == long.take(short.len() as int)[0]);
    if short[0] != 0 {
        assert(short.skip(1)[w - 1] == 0);
        assert(long.skip(1).take(short.len() - 1) =~= short.skip(1));
        first_in_a_longer_text(short.skip(1), long.skip(1));
    }
}

proof fn shorter_entries(bytes: Seq<u8>, version: int, at: int, less: int, end: int, count: int)
    requires
        0 <= at <= less,
        less <= end <= bytes.len(),
        entries_outcome(bytes, version, at, less, count) is Ok,
    ensures
        entries_outcome(bytes, version, at, end, count) == entries_outcome(
            bytes,
            version,
            at,
            less,
            count,
        ),
        0 <= entries_outcome(bytes, version, at, less, count)->Ok_0 <= less,
    decreases count,
{
    if count > 0 {
        same_entry(bytes, bytes, version, at, less);
        shorter_entry(bytes, version, at, less, end);
        let next = entry_outcome(bytes, version, at, less)->Ok_0;
        shorter_entries(bytes, version, next, less, end, count - 1);
    }
}

/// Extensions that fill an index do not fill a slightly shorter one.
proof fn shorter_extensions(bytes: Seq<u8>, at: int, less: int, end: int)
    requires
        0 <= at <= less,
        less < end < less + 8,
        extensions_outcome(bytes, at, end) is Ok,
    ensures
        extensions_outcome(bytes, at, less) is Err,
    decreases end - at,
{
    if at + 8 <= less {
        let next = at + 8 + word(bytes, at + 4);
        if next <= less {
            shorter_extensions(bytes, next, less, end);
        }
    }
}

/// An accepted index that lost its last byte, or up to seven of them, is refused.
pub proof fn a_cut_index_is_refused(bytes: Seq<u8>, cut: int)
    requires
        index_outcome(bytes) is Ok,
        1 <= cut <= 7,
    ensures
        index_outcome(bytes.take(bytes.len() - cut)) is Err,
{
    let less = bytes.take(bytes.len() - cut);
    if index_outcome(less) is Ok {
        let end = bytes.len() - CHECKSUM_BYTES;
        let short = less.len() - CHECKSUM_BYTES;
        assert(word(less, 4) == word(bytes, 4));
        assert(word(less, 8) == word(bytes, 8));
        let version = word(bytes, 4);
        let count = word(bytes, 8);
        same_entries(less, bytes, version, 12, short, count);
        shorter_entries(bytes, version, 12, short, end, count);
        let at = entries_outcome(bytes, version, 12, end, count)->Ok_0;
        same_extensions(less, bytes, at, short);
        shorter_extensions(bytes, at, short, end);
    }
}

} // verus!
