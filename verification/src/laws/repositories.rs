//! Which Git repositories can be read without running Git.
use crate::git::index::{
    entries_outcome, entry_outcome, extensions_outcome, good_name, half, index_outcome, name_end,
    name_start, padded, word,
};
use crate::text::{index_of_is, pieces};
use vstd::prelude::*;

verus! {

/// A number as four bytes, the largest first.
pub open spec fn big_endian(n: int) -> Seq<u8> {
    seq![
        (n / 0x100_0000 % 256) as u8,
        (n / 0x1_0000 % 256) as u8,
        (n / 0x100 % 256) as u8,
        (n % 256) as u8,
    ]
}

proof fn word_at(bytes: Seq<u8>, at: int, n: int)
    requires
        0 <= at,
        at + 4 <= bytes.len(),
        bytes.subrange(at, at + 4) == big_endian(n),
        0 <= n < 0x1_0000_0000,
    ensures
        word(bytes, at) == n,
{
    let part = bytes.subrange(at, at + 4);
    assert(bytes[at] == part[0]);
    assert(bytes[at + 1] == part[1]);
    assert(bytes[at + 2] == part[2]);
    assert(bytes[at + 3] == part[3]);
    assert(n / 0x100_0000 % 256 == n / 0x100_0000);
    assert(n / 0x1_0000 % 256 == n / 0x1_0000 - n / 0x100_0000 * 256);
    assert(n / 0x100 % 256 == n / 0x100 - n / 0x1_0000 * 256);
}

/// The parts of a name with a slash between each two.
pub open spec fn slashed(parts: Seq<Seq<u8>>) -> Seq<u8>
    decreases parts.len(),
{
    if parts.len() == 0 {
        seq![]
    } else if parts.len() == 1 {
        parts[0]
    } else {
        parts[0] + seq![47u8] + slashed(parts.skip(1))
    }
}

/// A component that a tracked name may have.
pub open spec fn tracked_part(part: Seq<u8>) -> bool {
    &&& part.len() > 0
    &&& forall|i: int| 0 <= i < part.len() ==> #[trigger] part[i] != 47u8 && part[i] != 0u8
    &&& part != seq![46u8]
    &&& part != seq![46u8, 46u8]
    &&& part != seq![46u8, 103u8, 105u8, 116u8]
}

proof fn slashed_pieces(parts: Seq<Seq<u8>>)
    requires
        parts.len() > 0,
        forall|i: int| 0 <= i < parts.len() ==> tracked_part(#[trigger] parts[i]),
    ensures
        pieces(slashed(parts), 47u8) == parts,
        slashed(parts).len() > 0,
        !slashed(parts).contains(0),
    decreases parts.len(),
{
    let first = parts[0];
    let whole = slashed(parts);
    assert(tracked_part(first));
    if parts.len() == 1 {
        index_of_is(whole, 47u8, first.len() as int);
        assert(pieces(whole, 47u8) =~= parts);
    } else {
        let rest = parts.skip(1);
        assert forall|i: int| 0 <= i < rest.len() implies tracked_part(#[trigger] rest[i]) by {
            assert(rest[i] == parts[i + 1]);
        }
        slashed_pieces(rest);
        assert forall|i: int| 0 <= i < first.len() implies whole[i] != 47u8 by {
            assert(whole[i] == first[i]);
        }
        assert(whole[first.len() as int] == 47u8);
        index_of_is(whole, 47u8, first.len() as int);
        assert(whole.take(first.len() as int) =~= first);
        assert(whole.skip(first.len() as int + 1) =~= slashed(rest));
        assert(pieces(whole, 47u8) =~= seq![first] + pieces(slashed(rest), 47u8));
        assert(seq![first] + rest =~= parts);
        if whole.contains(0) {
            let i = choose|i: int| 0 <= i < whole.len() && whole[i] == 0;
            if i < first.len() {
                assert(whole[i] == first[i]);
            } else if i > first.len() {
                assert(slashed(rest)[i - first.len() - 1] == 0);
            }
        }
    }
}

/// The bytes of one entry for a name of these parts: its type is not that of a
/// directory, its flags give the length of the name as far as they can, and zeros fill
/// it up to a multiple of eight. An extended one has two more bytes before the name.
pub open spec fn tracked_entry(e: Seq<u8>, parts: Seq<Seq<u8>>, extended: bool) -> bool {
    let name = slashed(parts);
    let start = if extended {
        64int
    } else {
        62int
    };
    &&& parts.len() > 0
    &&& forall|i: int| 0 <= i < parts.len() ==> tracked_part(#[trigger] parts[i])
    &&& e.len() % 8 == 0
    &&& e.len() - 8 <= start + name.len() < e.len()
    &&& e[26] / 16 != 4
    &&& (e[60] / 64) % 2 == (if extended {
        1int
    } else {
        0int
    })
    &&& (e[60] % 16) * 256 + e[61] == (if name.len() < 0xfff {
        name.len() as int
    } else {
        0xfff
    })
    &&& e.subrange(start, start + name.len()) == name
    &&& forall|i: int| start + name.len() <= i < e.len() ==> #[trigger] e[i] == 0
}

proof fn fields_of(e: Seq<u8>, bytes: Seq<u8>, at: int)
    requires
        0 <= at,
        e.len() >= 64,
        at + e.len() <= bytes.len(),
        bytes.subrange(at, at + e.len()) == e,
    ensures
        word(bytes, at + 24) / 0x1000 % 16 == e[26] / 16,
        half(bytes, at + 60) / 0x4000 % 2 == (e[60] / 64) % 2,
        half(bytes, at + 60) % 0x1000 == (e[60] % 16) * 256 + e[61],
{
    let part = bytes.subrange(at, at + e.len());
    assert(bytes[at + 24] == part[24]);
    assert(bytes[at + 25] == part[25]);
    assert(bytes[at + 26] == part[26]);
    assert(bytes[at + 27] == part[27]);
    assert(bytes[at + 60] == part[60]);
    assert(bytes[at + 61] == part[61]);
    let a = e[24] as int;
    let b = e[25] as int;
    let c = e[26] as int;
    let d = e[27] as int;
    let w = word(bytes, at + 24);
    assert(w == a * 0x100_0000 + b * 0x1_0000 + c * 0x100 + d);
    assert(w / 0x1000 == a * 0x1000 + b * 16 + c / 16);
    assert((a * 0x1000 + b * 16 + c / 16) % 16 == c / 16);
    let p = e[60] as int;
    let q = e[61] as int;
    let h = half(bytes, at + 60);
    assert(h == p * 256 + q);
    assert(h / 0x4000 == p / 64);
    assert(h % 0x1000 == (p % 16) * 256 + q);
}

/// An entry of a tracked file is accepted, wherever it stands, and the next one begins
/// where it ends.
pub proof fn tracked_entries_are_accepted(
    bytes: Seq<u8>,
    version: int,
    at: int,
    end: int,
    e: Seq<u8>,
    parts: Seq<Seq<u8>>,
    extended: bool,
)
    requires
        tracked_entry(e, parts, extended),
        extended ==> version != 2,
        0 <= at,
        at + e.len() <= end <= bytes.len(),
        bytes.subrange(at, at + e.len()) == e,
    ensures
        entry_outcome(bytes, version, at, end) == Ok::<int, Seq<char>>(at + e.len()),
{
    let name = slashed(parts);
    let start = if extended {
        64int
    } else {
        62int
    };
    slashed_pieces(parts);
    let part = bytes.subrange(at, at + e.len());
    fields_of(e, bytes, at);
    assert(name_start(bytes, at) == at + start);
    let stop = at + start + name.len();
    assert(bytes.subrange(at + start, stop) =~= name) by {
        assert(bytes.subrange(at + start, stop) =~= e.subrange(
            start,
            start + name.len(),
        ));
    }
    assert forall|i: int| stop <= i < at + e.len() implies #[trigger] bytes[i] == 0 by {
        assert(bytes[i] == part[i - at]);
    }
    assert(name_end(bytes, at, end) == Some(stop)) by {
        if name.len() >= 0xfff {
            let rest = bytes.subrange(at + start, end);
            assert(rest[name.len() as int] == 0);
            assert forall|i: int| 0 <= i < name.len() implies rest[i] != 0 by {
                assert(rest[i] == bytes.subrange(at + start, stop)[i]);
                assert(name.contains(name[i]));
            }
            index_of_is(rest, 0u8, name.len() as int);
            assert(rest.contains(rest[name.len() as int]));
        }
    }
    assert(padded(stop + 1 - at) == e.len()) by {
        let k = e.len() / 8;
        assert(e.len() == k * 8);
    }
    assert(good_name(name)) by {
        assert forall|i: int| 0 <= i < parts.len() implies !crate::git::index::bad_part(
            #[trigger] parts[i],
        ) by {
            assert(tracked_part(parts[i]));
        }
    }
}

/// One extension: its four letters, its length and its contents.
pub open spec fn extension(letters: Seq<u8>, contents: Seq<u8>) -> Seq<u8> {
    letters + big_endian(contents.len() as int) + contents
}

/// Extensions one after the other.
pub open spec fn extensions(list: Seq<(Seq<u8>, Seq<u8>)>) -> Seq<u8>
    decreases list.len(),
{
    if list.len() == 0 {
        seq![]
    } else {
        extension(list[0].0, list[0].1) + extensions(list.skip(1))
    }
}

/// Every extension has four letters, of which the first is a capital one.
pub open spec fn optional_extensions(list: Seq<(Seq<u8>, Seq<u8>)>) -> bool {
    forall|i: int|
        0 <= i < list.len() ==> (#[trigger] list[i]).0.len() == 4 && 'A' as int <= list[i].0[0]
            <= 'Z' as int && list[i].1.len() < 0x1_0000_0000
}

/// Whole extensions are accepted whichever capital letter they begin with, and where
/// one begins with anything else they are not.
pub proof fn optional_extensions_are_accepted(
    bytes: Seq<u8>,
    at: int,
    end: int,
    list: Seq<(Seq<u8>, Seq<u8>)>,
)
    requires
        optional_extensions(list),
        0 <= at,
        end == at + extensions(list).len(),
        end <= bytes.len(),
        bytes.subrange(at, end) == extensions(list),
    ensures
        extensions_outcome(bytes, at, end) is Ok,
    decreases list.len(),
{
    if list.len() > 0 {
        let letters = list[0].0;
        let contents = list[0].1;
        let rest = list.skip(1);
        let all = bytes.subrange(at, end);
        let n = contents.len() as int;
        assert(letters.len() == 4);
        assert(bytes[at] == all[0] && all[0] == letters[0]);
        assert(bytes.subrange(at + 4, at + 8) =~= big_endian(n)) by {
            assert(bytes.subrange(at + 4, at + 8) =~= all.subrange(4, 8));
            assert(all.subrange(4, 8) =~= big_endian(n));
        }
        word_at(bytes, at + 4, n);
        assert(bytes.subrange(at + 8 + n, end) =~= extensions(rest)) by {
            assert(bytes.subrange(at + 8 + n, end) =~= all.skip(8 + n));
            assert(all.skip(8 + n) =~= extensions(rest));
        }
        assert forall|i: int| 0 <= i < rest.len() implies (#[trigger] rest[i]).0.len() == 4
            && 'A' as int <= rest[i].0[0] <= 'Z' as int && rest[i].1.len() < 0x1_0000_0000 by {
            assert(rest[i] == list[i + 1]);
        }
        optional_extensions_are_accepted(bytes, at + 8 + n, end, rest);
    }
}

/// An extension that does not begin with a capital letter is refused.
pub proof fn required_extensions_are_refused(bytes: Seq<u8>, at: int, end: int)
    requires
        0 <= at < end <= bytes.len(),
        bytes[at] < 'A' as int || bytes[at] > 'Z' as int,
    ensures
        extensions_outcome(bytes, at, end) is Err,
{
}

/// The bytes of one entry, the parts of its name, and whether it is an extended one.
pub ghost struct IndexEntry {
    pub bytes: Seq<u8>,
    pub parts: Seq<Seq<u8>>,
    pub extended: bool,
}

/// Entries one after the other.
pub open spec fn entries(list: Seq<IndexEntry>) -> Seq<u8>
    decreases list.len(),
{
    if list.len() == 0 {
        seq![]
    } else {
        list[0].bytes + entries(list.skip(1))
    }
}

/// Every entry is one of a tracked file, extended only where the version has that.
pub open spec fn tracked_entries(list: Seq<IndexEntry>, version: int) -> bool {
    forall|i: int|
        0 <= i < list.len() ==> tracked_entry(
            (#[trigger] list[i]).bytes,
            list[i].parts,
            list[i].extended,
        ) && (list[i].extended ==> version == 3)
}

proof fn entries_accepted(bytes: Seq<u8>, version: int, at: int, end: int, list: Seq<IndexEntry>)
    requires
        tracked_entries(list, version),
        0 <= at,
        at + entries(list).len() <= end <= bytes.len(),
        bytes.subrange(at, at + entries(list).len()) == entries(list),
    ensures
        entries_outcome(bytes, version, at, end, list.len() as int) == Ok::<int, Seq<char>>(
            at + entries(list).len(),
        ),
        entries(list).len() >= 64 * list.len(),
    decreases list.len(),
{
    if list.len() > 0 {
        let one = list[0];
        let rest = list.skip(1);
        let all = bytes.subrange(at, at + entries(list).len());
        assert(tracked_entry(one.bytes, one.parts, one.extended));
        slashed_pieces(one.parts);
        assert(bytes.subrange(at, at + one.bytes.len()) =~= one.bytes) by {
            assert(bytes.subrange(at, at + one.bytes.len()) =~= all.take(one.bytes.len() as int));
        }
        tracked_entries_are_accepted(
            bytes,
            version,
            at,
            end,
            one.bytes,
            one.parts,
            one.extended,
        );
        let next = at + one.bytes.len();
        assert(bytes.subrange(next, next + entries(rest).len()) =~= entries(rest)) by {
            assert(bytes.subrange(next, next + entries(rest).len()) =~= all.skip(
                one.bytes.len() as int,
            ));
        }
        assert forall|i: int| 0 <= i < rest.len() implies tracked_entry(
            (#[trigger] rest[i]).bytes,
            rest[i].parts,
            rest[i].extended,
        ) && (rest[i].extended ==> version == 3) by {
            assert(rest[i] == list[i + 1]);
        }
        entries_accepted(bytes, version, next, end, rest);
    }
}

/// A whole index of tracked files: what Git writes in versions two and three.
pub open spec fn an_index(
    version: int,
    files: Seq<IndexEntry>,
    more: Seq<(Seq<u8>, Seq<u8>)>,
    checksum: Seq<u8>,
) -> Seq<u8> {
    seq![68u8, 73u8, 82u8, 67u8] + big_endian(version) + big_endian(files.len() as int) + entries(
        files,
    ) + extensions(more) + checksum
}

/// An index of version two or three is accepted, of whatever files and with whatever
/// extensions of a capital letter, as long as it is not larger than four mebibytes.
pub proof fn whole_indexes_are_accepted(
    version: int,
    files: Seq<IndexEntry>,
    more: Seq<(Seq<u8>, Seq<u8>)>,
    checksum: Seq<u8>,
)
    requires
        version == 2 || version == 3,
        tracked_entries(files, version),
        optional_extensions(more),
        checksum.len() == 20,
        an_index(version, files, more, checksum).len() <= 4 * 1024 * 1024,
    ensures
        index_outcome(an_index(version, files, more, checksum)) is Ok,
{
    let bytes = an_index(version, files, more, checksum);
    let count = files.len() as int;
    let body = entries(files);
    let tail = extensions(more);
    let after = 12 + body.len() as int;
    let end = after + tail.len() as int;
    assert(bytes.len() == end + 20);
    assert(bytes.take(4) =~= seq![68u8, 73u8, 82u8, 67u8]);
    assert(bytes.subrange(4, 8) =~= big_endian(version));
    assert(bytes.subrange(8, 12) =~= big_endian(count));
    assert(bytes.subrange(12, after) =~= body);
    assert(bytes.subrange(after, end) =~= tail);
    entries_accepted(bytes, version, 12, end, files);
    assert(count < 0x1_0000_0000);
    word_at(bytes, 4, version);
    word_at(bytes, 8, count);
    assert(count <= bytes.len() as int / 64);
    optional_extensions_are_accepted(bytes, after, end, more);
}

} // verus!
