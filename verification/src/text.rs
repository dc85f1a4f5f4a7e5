//! Characters, lines and bytes: the small text vocabulary that the parsers share.
use vstd::prelude::*;
use vstd::slice::slice_subrange;
use vstd::utf8::{decode_utf8, encode_utf8, valid_utf8};

verus! {

/// The characters that Unicode lists with the `White_Space` property.
pub open spec fn is_space(c: char) -> bool {
    let n = c as u32;
    ||| 0x9 <= n <= 0xd
    ||| n == 0x20
    ||| n == 0x85
    ||| n == 0xa0
    ||| n == 0x1680
    ||| 0x2000 <= n <= 0x200a
    ||| n == 0x2028
    ||| n == 0x2029
    ||| n == 0x202f
    ||| n == 0x205f
    ||| n == 0x3000
}

/// Whether `c` is white space.
pub fn space(c: char) -> (r: bool)
    ensures
        r == is_space(c),
{
    let n: u32 = c as u32;
    (0x9 <= n && n <= 0xd) || n == 0x20 || n == 0x85 || n == 0xa0 || n == 0x1680 || (0x2000 <= n
        && n <= 0x200a) || n == 0x2028 || n == 0x2029 || n == 0x202f || n == 0x205f || n == 0x3000
}

/// `s` without its leading white space.
pub open spec fn trim_start(s: Seq<char>) -> Seq<char>
    decreases s.len(),
{
    if s.len() > 0 && is_space(s[0]) {
        trim_start(s.skip(1))
    } else {
        s
    }
}

/// `s` without its trailing white space.
pub open spec fn trim_end(s: Seq<char>) -> Seq<char>
    decreases s.len(),
{
    if s.len() > 0 && is_space(s.last()) {
        trim_end(s.drop_last())
    } else {
        s
    }
}

/// `s` without the white space at either end.
pub open spec fn trim(s: Seq<char>) -> Seq<char> {
    trim_end(trim_start(s))
}

/// The first position at which `s` holds `mark`, or its length.
pub open spec fn index_of<T>(s: Seq<T>, mark: T) -> int
    decreases s.len(),
{
    if s.len() == 0 || s[0] == mark {
        0
    } else {
        1 + index_of(s.skip(1), mark)
    }
}

/// The parts of `s` between the occurrences of `mark`; there is always one.
pub open spec fn pieces<T>(s: Seq<T>, mark: T) -> Seq<Seq<T>>
    decreases s.len(),
{
    let at = index_of(s, mark);
    if 0 <= at < s.len() {
        seq![s.take(at)] + pieces(s.skip(at + 1), mark)
    } else {
        seq![s]
    }
}

/// `s` without one final carriage return.
pub open spec fn strip_return(s: Seq<char>) -> Seq<char> {
    if s.len() > 0 && s.last() == '\r' {
        s.drop_last()
    } else {
        s
    }
}

/// The lines of `s`: a line ends at a line feed, together with a carriage return
/// right before it, and an empty rest after the last line feed is no line.
pub open spec fn lines(s: Seq<char>) -> Seq<Seq<char>>
    decreases s.len(),
{
    let at = index_of(s, '\n');
    if s.len() == 0 {
        seq![]
    } else if 0 <= at < s.len() {
        seq![strip_return(s.take(at))] + lines(s.skip(at + 1))
    } else {
        seq![s]
    }
}

/// Whether `s` begins with `head`.
pub open spec fn begins<T>(s: Seq<T>, head: Seq<T>) -> bool {
    head.len() <= s.len() && s.take(head.len() as int) == head
}

/// Whether `s` ends with `tail`.
pub open spec fn ends<T>(s: Seq<T>, tail: Seq<T>) -> bool {
    tail.len() <= s.len() && s.skip(s.len() - tail.len()) == tail
}

/// Whether `part` occurs in `s` at position `at`.
pub open spec fn occurs_at<T>(s: Seq<T>, part: Seq<T>, at: int) -> bool {
    0 <= at && at + part.len() <= s.len() && s.subrange(at, at + part.len()) == part
}

/// Whether `part` occurs in `s` anywhere.
pub open spec fn occurs<T>(s: Seq<T>, part: Seq<T>) -> bool {
    exists|at: int| occurs_at(s, part, at)
}

/// The position of the first occurrence is at most the length, the mark stands
/// there if it is less, and nowhere before it.
pub proof fn index_of_facts<T>(s: Seq<T>, mark: T)
    ensures
        0 <= index_of(s, mark) <= s.len(),
        index_of(s, mark) < s.len() ==> s[index_of(s, mark)] == mark,
        forall|i: int| 0 <= i < index_of(s, mark) ==> s[i] != mark,
    decreases s.len(),
{
    if s.len() > 0 && s[0] != mark {
        index_of_facts(s.skip(1), mark);
        assert forall|i: int| 0 <= i < index_of(s, mark) implies s[i] != mark by {
            if i > 0 {
                assert(s[i] == s.skip(1)[i - 1]);
            }
        }
    }
}

/// A position with the mark, and none before it, is the first occurrence.
pub proof fn index_of_is<T>(s: Seq<T>, mark: T, at: int)
    requires
        0 <= at <= s.len(),
        at < s.len() ==> s[at] == mark,
        forall|i: int| 0 <= i < at ==> s[i] != mark,
    ensures
        index_of(s, mark) == at,
{
    index_of_facts(s, mark);
}

/// The characters of a text.
pub fn chars_of(s: &str) -> (r: Vec<char>)
    ensures
        r@ == s@,
{
    let mut out: Vec<char> = Vec::new();
    for c in it: s.chars()
        invariant
            it.seq() == s@,
            out@ == s@.take(it.index() as int),
    {
        out.push(c);
        assert(s@.take(it.index() as int + 1) =~= s@.take(it.index() as int).push(c));
    }
    assert(s@.take(s@.len() as int) =~= s@);
    out
}

/// Collects characters into a text: `String`'s `FromIterator<&char>` of the
/// standard library puts exactly the characters that it is given into the
/// string, in their order.
#[verifier::external_body]
pub(crate) fn text_of(chars: &[char]) -> (r: String)
    ensures
        r@ == chars@,
{
    chars.iter().collect()
}

/// Reads bytes as UTF-8: `std::str::from_utf8` succeeds on valid UTF-8 and on
/// nothing else, and hands back a text with exactly these bytes.
#[verifier::external_body]
pub(crate) fn utf8_text(bytes: &[u8]) -> (r: Option<&str>)
    ensures
        r is Some <==> valid_utf8(bytes@),
        r matches Some(text) ==> text@ == decode_utf8(bytes@),
{
    std::str::from_utf8(bytes).ok()
}

/// Whether two texts are the same.
pub fn same_text(a: &str, b: &str) -> (r: bool)
    ensures
        r == (a@ == b@),
{
    proof {
        vstd::utf8::encode_utf8_decode_utf8(a@);
        vstd::utf8::encode_utf8_decode_utf8(b@);
    }
    same_bytes(a.as_bytes(), b.as_bytes())
}

/// Whether two byte strings are the same.
pub fn same_bytes(a: &[u8], b: &[u8]) -> (r: bool)
    ensures
        r == (a@ == b@),
{
    if a.len() != b.len() {
        return false;
    }
    let mut i: usize = 0;
    while i < a.len()
        invariant
            i <= a.len(),
            a.len() == b.len(),
            a@.take(i as int) =~= b@.take(i as int),
        decreases a.len() - i,
    {
        if a[i] != b[i] {
            assert(a@[i as int] != b@[i as int]);
            return false;
        }
        assert(a@.take(i + 1) =~= a@.take(i as int).push(a@[i as int]));
        assert(b@.take(i + 1) =~= b@.take(i as int).push(b@[i as int]));
        i = i + 1;
    }
    assert(a@.take(a@.len() as int) =~= a@);
    assert(b@.take(b@.len() as int) =~= b@);
    true
}

/// Whether two runs of characters are the same.
pub fn same_chars(a: &[char], b: &[char]) -> (r: bool)
    ensures
        r == (a@ == b@),
{
    if a.len() != b.len() {
        return false;
    }
    let mut i: usize = 0;
    while i < a.len()
        invariant
            i <= a.len(),
            a.len() == b.len(),
            a@.take(i as int) =~= b@.take(i as int),
        decreases a.len() - i,
    {
        if a[i] != b[i] {
            assert(a@[i as int] != b@[i as int]);
            return false;
        }
        assert(a@.take(i + 1) =~= a@.take(i as int).push(a@[i as int]));
        assert(b@.take(i + 1) =~= b@.take(i as int).push(b@[i as int]));
        i = i + 1;
    }
    assert(a@.take(a@.len() as int) =~= a@);
    assert(b@.take(b@.len() as int) =~= b@);
    true
}

/// Whether a run of characters reads as the given text.
pub fn chars_are(a: &[char], text: &str) -> (r: bool)
    ensures
        r == (a@ == text@),
{
    same_chars(a, chars_of(text).as_slice())
}

/// Whether `s` begins with the text `head`.
pub fn chars_begin(s: &[char], head: &str) -> (r: bool)
    ensures
        r == begins(s@, head@),
{
    let head: Vec<char> = chars_of(head);
    if head.len() > s.len() {
        return false;
    }
    let front: &[char] = slice_subrange(s, 0, head.len());
    assert(front@ =~= s@.take(head@.len() as int));
    same_chars(front, head.as_slice())
}

/// Whether `s` ends with the text `tail`.
pub fn chars_end(s: &[char], tail: &str) -> (r: bool)
    ensures
        r == ends(s@, tail@),
{
    let tail: Vec<char> = chars_of(tail);
    if tail.len() > s.len() {
        return false;
    }
    let back: &[char] = slice_subrange(s, s.len() - tail.len(), s.len());
    assert(back@ =~= s@.skip(s@.len() - tail@.len()));
    same_chars(back, tail.as_slice())
}

/// Whether the bytes begin with `head`.
pub fn bytes_begin(s: &[u8], head: &[u8]) -> (r: bool)
    ensures
        r == begins(s@, head@),
{
    if head.len() > s.len() {
        return false;
    }
    let front: &[u8] = slice_subrange(s, 0, head.len());
    assert(front@ =~= s@.take(head@.len() as int));
    same_bytes(front, head)
}

/// Whether `s` holds the character `mark`.
pub fn has_char(s: &[char], mark: char) -> (r: bool)
    ensures
        r == s@.contains(mark),
{
    let mut i: usize = 0;
    while i < s.len()
        invariant
            i <= s.len(),
            forall|j: int| 0 <= j < i ==> s@[j] != mark,
        decreases s.len() - i,
    {
        if s[i] == mark {
            assert(s@[i as int] == mark);
            return true;
        }
        i = i + 1;
    }
    false
}

/// Whether `s` holds the byte `mark`.
pub fn has_byte(s: &[u8], mark: u8) -> (r: bool)
    ensures
        r == s@.contains(mark),
{
    let mut i: usize = 0;
    while i < s.len()
        invariant
            i <= s.len(),
            forall|j: int| 0 <= j < i ==> s@[j] != mark,
        decreases s.len() - i,
    {
        if s[i] == mark {
            assert(s@[i as int] == mark);
            return true;
        }
        i = i + 1;
    }
    false
}

/// Whether some character of `s` is one of `marks`.
pub open spec fn has_any(s: Seq<char>, marks: Seq<char>) -> bool {
    exists|i: int| 0 <= i < s.len() && marks.contains(#[trigger] s[i])
}

/// Whether some character of `s` is one of `marks`.
pub fn any_char(s: &[char], marks: &str) -> (r: bool)
    ensures
        r == has_any(s@, marks@),
{
    let listed: Vec<char> = chars_of(marks);
    let mut i: usize = 0;
    while i < s.len()
        invariant
            i <= s.len(),
            listed@ == marks@,
            forall|j: int| 0 <= j < i ==> !marks@.contains(#[trigger] s@[j]),
        decreases s.len() - i,
    {
        if has_char(listed.as_slice(), s[i]) {
            assert(marks@.contains(s@[i as int]));
            return true;
        }
        i = i + 1;
    }
    false
}

/// The position of the first `mark` in `s`, or its length.
pub fn find_char(s: &[char], mark: char) -> (r: usize)
    ensures
        r == index_of(s@, mark),
        r <= s.len(),
{
    let mut i: usize = 0;
    while i < s.len()
        invariant
            i <= s.len(),
            forall|j: int| 0 <= j < i ==> s@[j] != mark,
        decreases s.len() - i,
    {
        if s[i] == mark {
            proof {
                index_of_is(s@, mark, i as int);
            }
            return i;
        }
        i = i + 1;
    }
    proof {
        index_of_is(s@, mark, i as int);
    }
    i
}

/// `s` without its leading white space.
pub fn trimmed_start(s: &[char]) -> (r: &[char])
    ensures
        r@ == trim_start(s@),
{
    let mut i: usize = 0;
    assert(s@.skip(0) =~= s@);
    while i < s.len() && space(s[i])
        invariant
            i <= s.len(),
            trim_start(s@.skip(i as int)) == trim_start(s@),
        decreases s.len() - i,
    {
        assert(s@.skip(i as int).skip(1) =~= s@.skip(i + 1));
        i = i + 1;
    }
    assert(s@.subrange(i as int, s@.len() as int) =~= s@.skip(i as int));
    slice_subrange(s, i, s.len())
}

/// `s` without its trailing white space.
pub fn trimmed_end(s: &[char]) -> (r: &[char])
    ensures
        r@ == trim_end(s@),
{
    let mut n: usize = s.len();
    assert(s@.take(n as int) =~= s@);
    while n > 0 && space(s[n - 1])
        invariant
            n <= s.len(),
            trim_end(s@.take(n as int)) == trim_end(s@),
        decreases n,
    {
        assert(s@.take(n as int).drop_last() =~= s@.take(n - 1));
        n = n - 1;
    }
    assert(s@.subrange(0, n as int) =~= s@.take(n as int));
    slice_subrange(s, 0, n)
}

/// `s` without the white space at either end.
pub fn trimmed(s: &[char]) -> (r: &[char])
    ensures
        r@ == trim(s@),
{
    trimmed_end(trimmed_start(s))
}

/// A run of positions in a text, from its start up to its end.
#[derive(Clone, Copy)]
pub struct Span {
    pub start: usize,
    pub end: usize,
}

impl Span {
    /// Whether the span lies inside a text of this length.
    pub open spec fn within(self, len: nat) -> bool {
        self.start <= self.end <= len
    }

    /// What the span covers in `s`.
    pub open spec fn of<T>(self, s: Seq<T>) -> Seq<T> {
        s.subrange(self.start as int, self.end as int)
    }
}

/// Whether the spans cut exactly these parts out of `s`.
pub open spec fn covers<T>(spans: Seq<Span>, s: Seq<T>, parts: Seq<Seq<T>>) -> bool {
    &&& spans.len() == parts.len()
    &&& forall|i: int|
        0 <= i < spans.len() ==> (#[trigger] spans[i]).within(s.len()) && spans[i].of(s) == parts[i]
}

/// Where the parts of `s` between the marks lie.
pub fn split_chars(s: &[char], mark: char) -> (r: Vec<Span>)
    ensures
        covers(r@, s@, pieces(s@, mark)),
        r@.len() >= 1,
{
    let mut out: Vec<Span> = Vec::new();
    let mut start: usize = 0;
    let mut i: usize = 0;
    let ghost all = pieces(s@, mark);
    assert(s@.skip(0) =~= s@);
    assert(seq![] + all =~= all);
    let ghost mut done: Seq<Seq<char>> = seq![];
    while i < s.len()
        invariant
            start <= i <= s.len(),
            forall|j: int| start <= j < i ==> s@[j] != mark,
            all == pieces(s@, mark),
            all =~= done + pieces(s@.skip(start as int), mark),
            covers(out@, s@, done),
        decreases s.len() - i,
    {
        if s[i] == mark {
            proof {
                let rest = s@.skip(start as int);
                index_of_is(rest, mark, i - start);
                assert(rest.take(i - start) =~= s@.subrange(start as int, i as int));
                assert(rest.skip(i - start + 1) =~= s@.skip(i + 1));
                done = done.push(s@.subrange(start as int, i as int));
            }
            out.push(Span { start, end: i });
            start = i + 1;
        }
        i = i + 1;
    }
    proof {
        let rest = s@.skip(start as int);
        index_of_is(rest, mark, i - start);
        assert(rest =~= s@.subrange(start as int, i as int));
        assert(pieces(rest, mark) =~= seq![rest]);
    }
    out.push(Span { start, end: i });
    out
}

/// Where the parts of `s` between the marks lie.
pub fn split_bytes(s: &[u8], mark: u8) -> (r: Vec<Span>)
    ensures
        covers(r@, s@, pieces(s@, mark)),
        r@.len() >= 1,
{
    let mut out: Vec<Span> = Vec::new();
    let mut start: usize = 0;
    let mut i: usize = 0;
    let ghost all = pieces(s@, mark);
    assert(s@.skip(0) =~= s@);
    assert(seq![] + all =~= all);
    let ghost mut done: Seq<Seq<u8>> = seq![];
    while i < s.len()
        invariant
            start <= i <= s.len(),
            forall|j: int| start <= j < i ==> s@[j] != mark,
            all == pieces(s@, mark),
            all =~= done + pieces(s@.skip(start as int), mark),
            covers(out@, s@, done),
        decreases s.len() - i,
    {
        if s[i] == mark {
            proof {
                let rest = s@.skip(start as int);
                index_of_is(rest, mark, i - start);
                assert(rest.take(i - start) =~= s@.subrange(start as int, i as int));
                assert(rest.skip(i - start + 1) =~= s@.skip(i + 1));
                done = done.push(s@.subrange(start as int, i as int));
            }
            out.push(Span { start, end: i });
            start = i + 1;
        }
        i = i + 1;
    }
    proof {
        let rest = s@.skip(start as int);
        index_of_is(rest, mark, i - start);
        assert(rest =~= s@.subrange(start as int, i as int));
        assert(pieces(rest, mark) =~= seq![rest]);
    }
    out.push(Span { start, end: i });
    out
}

/// Where the lines of `s` lie.
pub fn split_lines(s: &[char]) -> (r: Vec<Span>)
    ensures
        covers(r@, s@, lines(s@)),
{
    let mut out: Vec<Span> = Vec::new();
    let mut start: usize = 0;
    let mut i: usize = 0;
    let ghost all = lines(s@);
    assert(s@.skip(0) =~= s@);
    assert(seq![] + all =~= all);
    let ghost mut done: Seq<Seq<char>> = seq![];
    while i < s.len()
        invariant
            start <= i <= s.len(),
            forall|j: int| start <= j < i ==> s@[j] != '\n',
            all == lines(s@),
            all =~= done + lines(s@.skip(start as int)),
            covers(out@, s@, done),
        decreases s.len() - i,
    {
        if s[i] == '\n' {
            let end: usize = if i > start && s[i - 1] == '\r' { i - 1 } else { i };
            proof {
                let rest = s@.skip(start as int);
                index_of_is(rest, '\n', i - start);
                assert(strip_return(rest.take(i - start)) =~= s@.subrange(start as int, end as int));
                assert(rest.skip(i - start + 1) =~= s@.skip(i + 1));
                done = done.push(s@.subrange(start as int, end as int));
            }
            out.push(Span { start, end });
            start = i + 1;
        }
        i = i + 1;
    }
    proof {
        let rest = s@.skip(start as int);
        index_of_is(rest, '\n', i - start);
        assert(rest =~= s@.subrange(start as int, i as int));
    }
    if start < i {
        out.push(Span { start, end: i });
    } else {
        assert(lines(s@.skip(start as int)) =~= seq![]);
    }
    out
}

/// The decimal digits of a number, without leading zeros.
pub open spec fn digits(n: nat) -> Seq<char>
    decreases n,
{
    let digit = ('0' as u32 + n % 10) as char;
    if n < 10 {
        seq![digit]
    } else {
        digits(n / 10).push(digit)
    }
}

/// Writes a number in decimal.
pub fn decimal(n: u64) -> (r: String)
    ensures
        r@ == digits(n as nat),
{
    text_of(decimal_chars(n).as_slice())
}

fn decimal_chars(n: u64) -> (r: Vec<char>)
    ensures
        r@ == digits(n as nat),
    decreases n,
{
    let mut out: Vec<char> = Vec::new();
    if n >= 10 {
        out = decimal_chars(n / 10);
    }
    out.push(digit_char((n % 10) as u8));
    assert(out@ =~= digits(n as nat));
    out
}

fn digit_char(d: u8) -> (r: char)
    requires
        d < 10,
    ensures
        r == ('0' as u32 + d) as char,
{
    ((48 + d) as u8) as char
}

/// The text of a signed number: a minus sign before the digits of a negative one.
pub open spec fn signed_digits(n: int) -> Seq<char> {
    if n < 0 {
        seq!['-'] + digits((-n) as nat)
    } else {
        digits(n as nat)
    }
}

/// Writes a signed number in decimal.
pub fn signed_decimal(n: i64) -> (r: String)
    ensures
        r@ == signed_digits(n as int),
{
    if n >= 0 {
        return decimal(n as u64);
    }
    let magnitude: u64 = (-(n as i128)) as u64;
    let mut out: Vec<char> = vec!['-'];
    let mut rest: Vec<char> = decimal_chars(magnitude);
    out.append(&mut rest);
    assert(out@ =~= signed_digits(n as int));
    text_of(out.as_slice())
}

/// Two texts, one after the other.
pub fn joined(a: &str, b: &str) -> (r: String)
    ensures
        r@ == a@ + b@,
{
    let mut out: String = a.to_owned();
    out.append(b);
    out
}

/// Three texts, one after the other.
pub fn joined3(a: &str, b: &str, c: &str) -> (r: String)
    ensures
        r@ == a@ + b@ + c@,
{
    let mut out: String = a.to_owned();
    out.append(b);
    out.append(c);
    out
}

/// Whether the outcome is the failure with this text.
pub open spec fn failed<T>(r: Result<T, String>, text: Seq<char>) -> bool {
    r matches Err(reason) && reason@ == text
}

/// The failure with this text.
pub fn fail<T>(text: &str) -> (r: Result<T, String>)
    ensures
        failed(r, text@),
{
    Err(text.to_owned())
}

/// How many bytes the text takes.
pub fn byte_len(text: &str) -> (r: usize)
    ensures
        r == encode_utf8(text@).len(),
{
    text.as_bytes().len()
}

/// Whether a text occurs among characters.
pub fn chars_hold(s: &[char], part: &str) -> (r: bool)
    ensures
        r == occurs(s@, part@),
{
    let piece: Vec<char> = chars_of(part);
    let n: usize = piece.len();
    if n > s.len() {
        return false;
    }
    let mut at: usize = s.len() - n;
    if same_chars(vstd::slice::slice_subrange(s, at, at + n), piece.as_slice()) {
        assert(occurs_at(s@, part@, at as int));
        return true;
    }
    while at > 0
        invariant
            piece@ == part@,
            n == piece.len(),
            at <= s.len() - n,
            forall|i: int| at <= i ==> !#[trigger] occurs_at(s@, part@, i),
        decreases at,
    {
        at = at - 1;
        if same_chars(vstd::slice::slice_subrange(s, at, at + n), piece.as_slice()) {
            assert(occurs_at(s@, part@, at as int));
            return true;
        }
    }
    false
}

} // verus!
