//! How texts are taken apart.
use crate::text::{
    digits, index_of_is, is_space, lines, pieces, signed_digits, strip_return, trim, trim_end,
    trim_start,
};
use vstd::prelude::*;

verus! {

/// Parts with a mark between each two.
pub open spec fn between<T>(parts: Seq<Seq<T>>, mark: T) -> Seq<T>
    decreases parts.len(),
{
    if parts.len() == 0 {
        seq![]
    } else if parts.len() == 1 {
        parts[0]
    } else {
        parts[0] + seq![mark] + between(parts.skip(1), mark)
    }
}

/// No part holds the mark.
pub open spec fn unmarked<T>(parts: Seq<Seq<T>>, mark: T) -> bool {
    forall|i: int, j: int|
        0 <= i < parts.len() && 0 <= j < parts[i].len() ==> #[trigger] parts[i][j] != mark
}

/// Splitting at a mark gives back exactly the parts that the mark was put between.
pub proof fn splitting_gives_the_parts_back<T>(parts: Seq<Seq<T>>, mark: T)
    requires
        parts.len() > 0,
        unmarked(parts, mark),
    ensures
        pieces(between(parts, mark), mark) == parts,
    decreases parts.len(),
{
    let first = parts[0];
    let whole = between(parts, mark);
    if parts.len() == 1 {
        assert forall|i: int| 0 <= i < whole.len() implies whole[i] != mark by {
            assert(parts[0][i] != mark);
        }
        index_of_is(whole, mark, first.len() as int);
        assert(pieces(whole, mark) =~= parts);
    } else {
        let rest = parts.skip(1);
        assert forall|i: int, j: int|
            0 <= i < rest.len() && 0 <= j < rest[i].len() implies #[trigger] rest[i][j] != mark by {
            assert(parts[i + 1][j] != mark);
        }
        splitting_gives_the_parts_back(rest, mark);
        assert forall|i: int| 0 <= i < first.len() implies whole[i] != mark by {
            assert(parts[0][i] != mark);
            assert(whole[i] == first[i]);
        }
        assert(whole[first.len() as int] == mark);
        index_of_is(whole, mark, first.len() as int);
        assert(whole.take(first.len() as int) =~= first);
        assert(whole.skip(first.len() as int + 1) =~= between(rest, mark));
        assert(seq![first] + rest =~= parts);
    }
}

/// Lines, each with the end that it was written with.
pub open spec fn written(list: Seq<Seq<char>>, end: Seq<char>) -> Seq<char>
    decreases list.len(),
{
    if list.len() == 0 {
        seq![]
    } else {
        list[0] + end + written(list.skip(1), end)
    }
}

/// Lines that hold no line end themselves.
pub open spec fn plain_lines(list: Seq<Seq<char>>) -> bool {
    forall|i: int, j: int|
        0 <= i < list.len() && 0 <= j < list[i].len() ==> #[trigger] list[i][j] != '\n'
            && list[i][j] != '\r'
}

/// Reading the lines of a text gives back the lines that were written, whichever of
/// the two line ends they were written with.
pub proof fn lines_are_read_as_written(list: Seq<Seq<char>>, carriage: bool)
    requires
        plain_lines(list),
    ensures
        lines(
            written(
                list,
                if carriage {
                    seq!['\r', '\n']
                } else {
                    seq!['\n']
                },
            ),
        ) == list,
    decreases list.len(),
{
    let end = if carriage {
        seq!['\r', '\n']
    } else {
        seq!['\n']
    };
    let whole = written(list, end);
    if list.len() > 0 {
        let first = list[0];
        let rest = list.skip(1);
        assert forall|i: int, j: int|
            0 <= i < rest.len() && 0 <= j < rest[i].len() implies #[trigger] rest[i][j] != '\n'
            && rest[i][j] != '\r' by {
            assert(list[i + 1][j] != '\n');
        }
        lines_are_read_as_written(rest, carriage);
        let at = first.len() + end.len() - 1;
        assert forall|i: int| 0 <= i < at implies whole[i] != '\n' by {
            if i < first.len() {
                assert(list[0][i] != '\n');
                assert(whole[i] == first[i]);
            } else {
                assert(whole[i] == '\r');
            }
        }
        assert(whole[at] == '\n');
        index_of_is(whole, '\n', at);
        let head = whole.take(at);
        assert(whole.skip(at + 1) =~= written(rest, end));
        if carriage {
            assert(head.last() == '\r');
            assert(head.drop_last() =~= first);
        } else {
            assert(head =~= first);
            if first.len() > 0 {
                assert(list[0][first.len() - 1] != '\r');
            }
        }
        assert(strip_return(head) == first);
        assert(seq![first] + rest =~= list);
    }
}

/// Only blanks.
pub open spec fn blank(s: Seq<char>) -> bool {
    forall|i: int| 0 <= i < s.len() ==> is_space(#[trigger] s[i])
}

/// Blanks before a text are passed.
pub proof fn leading_blanks(before: Seq<char>, s: Seq<char>)
    requires
        blank(before),
        s.len() > 0 ==> !is_space(s[0]),
    ensures
        trim_start(before + s) == s,
    decreases before.len(),
{
    if before.len() > 0 {
        assert(is_space(before[0]));
        assert((before + s).skip(1) =~= before.skip(1) + s);
        let rest = before.skip(1);
        assert forall|i: int| 0 <= i < rest.len() implies is_space(#[trigger] rest[i]) by {
            assert(is_space(before[i + 1]));
        }
        leading_blanks(rest, s);
    } else {
        assert(before + s =~= s);
    }
}

proof fn trailing_blanks(s: Seq<char>, after: Seq<char>)
    requires
        blank(after),
        s.len() > 0 ==> !is_space(s.last()),
    ensures
        trim_end(s + after) == s,
    decreases after.len(),
{
    if after.len() > 0 {
        assert(is_space(after[after.len() - 1]));
        assert((s + after).last() == after.last());
        assert((s + after).drop_last() =~= s + after.drop_last());
        let rest = after.drop_last();
        assert forall|i: int| 0 <= i < rest.len() implies is_space(#[trigger] rest[i]) by {
            assert(is_space(after[i]));
        }
        trailing_blanks(s, rest);
    } else {
        assert(s + after =~= s);
    }
}

/// Trimming takes the blanks on both sides, and nothing between them.
pub proof fn trimming_takes_the_blanks(before: Seq<char>, s: Seq<char>, after: Seq<char>)
    requires
        blank(before),
        blank(after),
        s.len() > 0,
        !is_space(s[0]),
        !is_space(s.last()),
    ensures
        trim(before + s + after) == s,
        trim_start(before + s + after) == s + after,
        trim_end(before + s + after) == before + s,
{
    assert(before + s + after =~= before + (s + after));
    assert((s + after)[0] == s[0]);
    leading_blanks(before, s + after);
    trailing_blanks(s, after);
    assert((before + s).last() == s.last());
    trailing_blanks(before + s, after);
}

/// Of blanks alone trimming leaves nothing.
pub proof fn blanks_are_trimmed_away(s: Seq<char>)
    requires
        blank(s),
    ensures
        trim(s).len() == 0,
{
    assert(s + Seq::<char>::empty() =~= s);
    leading_blanks(s, Seq::<char>::empty());
}

/// The blanks are those of Unicode: among them the space, the tabulator and both line
/// ends, and no letter, digit or sign of ASCII.
pub proof fn blanks_are_known(c: char)
    ensures
        is_space(' '),
        is_space('\t'),
        is_space('\n'),
        is_space('\r'),
        0x20 < c as u32 <= 0x7e ==> !is_space(c),
        (c as u32) < 0x9 ==> !is_space(c),
        0xa1 <= c as u32 <= 0x167f ==> !is_space(c),
        is_space(c) <==> 0x9 <= c as u32 <= 0xd || c as u32 == 0x20 || c as u32 == 0x85 || c as u32
            == 0xa0 || c as u32 == 0x1680 || 0x2000 <= c as u32 <= 0x200a || c as u32 == 0x2028
            || c as u32 == 0x2029 || c as u32 == 0x202f || c as u32 == 0x205f || c as u32 == 0x3000,
{
}

/// The number that a decimal text stands for.
pub open spec fn number(s: Seq<char>) -> int
    decreases s.len(),
{
    if s.len() == 0 {
        0
    } else {
        number(s.drop_last()) * 10 + (s.last() as int - '0' as int)
    }
}

/// The digits of a number stand for it, are digits, and begin with no zero that could
/// be left out.
pub proof fn digits_stand_for_their_number(n: nat)
    ensures
        number(digits(n)) == n,
        digits(n).len() > 0,
        forall|i: int| 0 <= i < digits(n).len() ==> '0' <= #[trigger] digits(n)[i] <= '9',
        n > 0 ==> digits(n)[0] != '0',
    decreases n,
{
    let digit = ('0' as u32 + n % 10) as char;
    assert('0' as u32 + n % 10 <= '9' as u32);
    assert(digit as int == '0' as int + n % 10);
    if n < 10 {
        assert(digits(n) =~= seq![digit]);
        assert(digits(n).drop_last() =~= Seq::<char>::empty());
        assert(number(Seq::<char>::empty()) == 0);
    } else {
        let front = digits(n / 10);
        digits_stand_for_their_number(n / 10);
        assert(digits(n) == front.push(digit));
        assert(digits(n).drop_last() =~= front);
        assert(digits(n).last() == digit);
    }
}

/// A negative number is written with a sign before its digits.
pub proof fn negative_numbers_have_a_sign(n: int)
    ensures
        n >= 0 ==> signed_digits(n) == digits(n as nat),
        n < 0 ==> signed_digits(n)[0] == '-' && number(signed_digits(n).skip(1)) == -n,
{
    if n < 0 {
        digits_stand_for_their_number((-n) as nat);
        assert(signed_digits(n).skip(1) =~= digits((-n) as nat));
    }
}

} // verus!
