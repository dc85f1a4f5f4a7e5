//! What identifies an artifact, and what must hold before it is recommended.
use crate::paths::{
    components, file_name, is_under, name_of, parts_below, path_bytes, under, FsPath,
};
use crate::policy::Rules;
use crate::sources::later;
use crate::text::{decimal, digits, ends, joined3, same_bytes, signed_decimal, signed_digits};
use vstd::prelude::*;
use vstd::slice::slice_subrange;
use vstd::utf8::{decode_utf8, encode_utf8, valid_utf8};

verus! {

/// Nanoseconds of a day.
pub const DAY_NS: i64 = 86_400_000_000_000;

/// How long build output must have been quiet.
pub const DEVELOPER_QUIET_DAYS: i64 = 7;

/// The text that `String::from_utf8_lossy` makes of bytes.
pub uninterp spec fn lossy_text(bytes: Seq<u8>) -> Seq<char>;

/// Bytes as text, with a mark in place of what is no text. This is
/// `String::from_utf8_lossy` of the standard library: its result depends on the
/// bytes alone, and bytes that are text come back as that text.
#[verifier::external_body]
pub(crate) fn shown_text(bytes: &[u8]) -> (r: String)
    ensures
        r@ == lossy_text(bytes@),
        valid_utf8(bytes@) ==> r@ == decode_utf8(bytes@),
{
    String::from_utf8_lossy(bytes).into_owned()
}

/// The name under which a project is shown.
pub open spec fn shown_name(path: Seq<u8>, otherwise: Seq<char>) -> Seq<char> {
    match name_of(path) {
        Some(name) => lossy_text(name),
        None => otherwise,
    }
}

pub(crate) fn show_name(path: &FsPath, otherwise: &str) -> (r: String)
    ensures
        r@ == shown_name(path@, otherwise@),
{
    match file_name(path_bytes(path)) {
        Some(name) => shown_text(name),
        None => otherwise.to_owned(),
    }
}

/// What identifies an artifact.
pub struct Evidence {
    pub kind: String,
    pub title: String,
    pub explanation: String,
    pub consequence: String,
    pub fingerprint: String,
    pub blocked: Option<String>,
    pub latest_modified_ns: i64,
    pub quiet_days: i64,
    pub activity_root: Option<FsPath>,
    pub rules: Rules,
}

/// The same, as a value to reason about.
pub struct Found {
    pub kind: Seq<char>,
    pub title: Seq<char>,
    pub explanation: Seq<char>,
    pub consequence: Seq<char>,
    pub fingerprint: Seq<char>,
    pub blocked: Option<Seq<char>>,
    pub latest: int,
    pub quiet_days: i64,
    pub activity_root: Option<Seq<u8>>,
    pub rules: Rules,
}

/// An optional text, as a value to reason about.
pub open spec fn text_view(text: Option<String>) -> Option<Seq<char>> {
    match text {
        Some(text) => Some(text@),
        None => None,
    }
}

/// An optional path, as a value to reason about.
pub open spec fn path_view(path: Option<FsPath>) -> Option<Seq<u8>> {
    match path {
        Some(path) => Some(path@),
        None => None,
    }
}

impl View for Evidence {
    type V = Found;

    open spec fn view(&self) -> Found {
        Found {
            kind: self.kind@,
            title: self.title@,
            explanation: self.explanation@,
            consequence: self.consequence@,
            fingerprint: self.fingerprint@,
            blocked: text_view(self.blocked),
            latest: self.latest_modified_ns as int,
            quiet_days: self.quiet_days,
            activity_root: path_view(self.activity_root),
            rules: self.rules,
        }
    }
}

impl Evidence {
    pub fn copy(&self) -> (r: Evidence)
        ensures
            r == *self,
    {
        Evidence {
            kind: self.kind.clone(),
            title: self.title.clone(),
            explanation: self.explanation.clone(),
            consequence: self.consequence.clone(),
            fingerprint: self.fingerprint.clone(),
            blocked: crate::model::copy_text(&self.blocked),
            latest_modified_ns: self.latest_modified_ns,
            quiet_days: self.quiet_days,
            activity_root: crate::model::copy_path(&self.activity_root),
            rules: self.rules,
        }
    }
}

/// What was measured of an artifact.
pub struct Measurement {
    pub logical_bytes: u64,
    pub allocated_bytes: u64,
    pub files: u64,
    pub latest_modified_ns: i64,
    pub fingerprint: String,
    pub skipped: u64,
    pub errors: u64,
    /// Whether the measurement stopped because nothing could come of it.
    pub pruned: bool,
    pub unsafe_reason: Option<String>,
}

impl Measurement {
    /// Nothing measured yet.
    pub fn blank() -> (r: Measurement)
        ensures
            r.logical_bytes == 0,
            r.allocated_bytes == 0,
            r.files == 0,
            r.latest_modified_ns == 0,
            r.fingerprint@ == Seq::<char>::empty(),
            r.skipped == 0,
            r.errors == 0,
            !r.pruned,
            r.unsafe_reason is None,
    {
        Measurement {
            logical_bytes: 0,
            allocated_bytes: 0,
            files: 0,
            latest_modified_ns: 0,
            fingerprint: String::new(),
            skipped: 0,
            errors: 0,
            pruned: false,
            unsafe_reason: None,
        }
    }
}

/// The closest number that fits in a signed word.
pub open spec fn clamped(n: int) -> int {
    if n < i64::MIN {
        i64::MIN as int
    } else if n > i64::MAX {
        i64::MAX as int
    } else {
        n
    }
}

fn clamp(n: i128) -> (r: i64)
    ensures
        r == clamped(n as int),
{
    if n < i64::MIN as i128 {
        i64::MIN
    } else if n > i64::MAX as i128 {
        i64::MAX
    } else {
        n as i64
    }
}

/// The latest moment that counts as quiet for a number of days.
pub open spec fn cutoff(now_ns: i64, days: i64) -> int {
    clamped(now_ns - clamped(days * DAY_NS))
}

pub fn quiet_cutoff(now_ns: i64, days: i64) -> (r: i64)
    ensures
        r == cutoff(now_ns, days),
{
    let span: i128 = days as i128 * 86_400_000_000_000;
    clamp(now_ns as i128 - clamp(span) as i128)
}

/// Whether nothing was changed for a number of days.
pub fn quiet_for(latest_modified_ns: i64, now_ns: i64, days: i64) -> (r: bool)
    ensures
        r == (latest_modified_ns <= cutoff(now_ns, days)),
{
    latest_modified_ns <= quiet_cutoff(now_ns, days)
}

/// A byte as a small letter.
pub open spec fn small(b: u8) -> u8 {
    if 65 <= b <= 90 {
        (b + 32) as u8
    } else {
        b
    }
}

pub open spec fn small_letters(s: Seq<u8>) -> Seq<u8> {
    s.map_values(|b: u8| small(b))
}

/// Whether a name ends, or begins, with a text, whatever its capitals.
pub open spec fn ends_like(name: Seq<u8>, tail: Seq<u8>) -> bool {
    ends(small_letters(name), tail)
}

pub open spec fn begins_like(name: Seq<u8>, head: Seq<u8>) -> bool {
    crate::text::begins(small_letters(name), head)
}

/// The endings that browsers and download tools give unfinished files.
pub open spec fn unfinished_suffix(i: int) -> Seq<char> {
    if i == 0 {
        ".download"@
    } else if i == 1 {
        ".crdownload"@
    } else if i == 2 {
        ".partial"@
    } else if i == 3 {
        ".part"@
    } else if i == 4 {
        ".filepart"@
    } else if i == 5 {
        ".aria2"@
    } else if i == 6 {
        ".tmp"@
    } else {
        ".temp"@
    }
}

/// Whether a name is one of something unfinished.
pub open spec fn unfinished_name(name: Seq<u8>) -> bool {
    (exists|i: int| 0 <= i < 8 && ends_like(name, encode_utf8(#[trigger] unfinished_suffix(i))))
        || begins_like(name, encode_utf8(".com.google.chrome."@))
}

fn suffix_text(i: usize) -> (r: &'static str)
    requires
        i < 8,
    ensures
        r@ == unfinished_suffix(i as int),
{
    if i == 0 {
        ".download"
    } else if i == 1 {
        ".crdownload"
    } else if i == 2 {
        ".partial"
    } else if i == 3 {
        ".part"
    } else if i == 4 {
        ".filepart"
    } else if i == 5 {
        ".aria2"
    } else if i == 6 {
        ".tmp"
    } else {
        ".temp"
    }
}

fn small_bytes(s: &[u8]) -> (r: Vec<u8>)
    ensures
        r@ == small_letters(s@),
{
    let mut out: Vec<u8> = Vec::new();
    let mut i: usize = 0;
    while i < s.len()
        invariant
            i <= s.len(),
            out@.len() == i,
            forall|j: int| 0 <= j < i ==> #[trigger] out@[j] == small(s@[j]),
        decreases s.len() - i,
    {
        let b: u8 = s[i];
        out.push(
            if b >= 65 && b <= 90 {
                b + 32
            } else {
                b
            },
        );
        i = i + 1;
    }
    assert(out@ =~= small_letters(s@));
    out
}

fn bytes_end(s: &[u8], tail: &[u8]) -> (r: bool)
    ensures
        r == ends(s@, tail@),
{
    if tail.len() > s.len() {
        return false;
    }
    let back: &[u8] = slice_subrange(s, s.len() - tail.len(), s.len());
    assert(back@ =~= s@.skip(s@.len() - tail@.len()));
    same_bytes(back, tail)
}

/// Whether a name is one of something unfinished.
pub fn unfinished_component(name: &[u8]) -> (r: bool)
    ensures
        r == unfinished_name(name@),
{
    let plain: Vec<u8> = small_bytes(name);
    let mut i: usize = 0;
    while i < 8
        invariant
            i <= 8,
            plain@ == small_letters(name@),
            forall|j: int|
                0 <= j < i ==> !ends_like(name@, encode_utf8(#[trigger] unfinished_suffix(j))),
        decreases 8 - i,
    {
        if bytes_end(plain.as_slice(), suffix_text(i).as_bytes()) {
            assert(ends_like(name@, encode_utf8(unfinished_suffix(i as int))));
            return true;
        }
        i = i + 1;
    }
    crate::text::bytes_begin(plain.as_slice(), ".com.google.chrome.".as_bytes())
}

/// Whether a component of a path below a base is one of something unfinished.
pub open spec fn unfinished_below(path: Seq<u8>, base: Seq<u8>) -> bool {
    exists|i: int|
        components(base).len() <= i < components(path).len() && unfinished_name(
            #[trigger] components(path)[i],
        )
}

pub fn has_unfinished_part(path: &FsPath, base: &FsPath) -> (r: bool)
    requires
        under(path@, base@),
    ensures
        r == unfinished_below(path@, base@),
{
    let parts: Vec<&[u8]> = parts_below(path_bytes(path), path_bytes(base));
    let ghost all = components(path@);
    let ghost n = components(base@).len() as int;
    let mut i: usize = 0;
    while i < parts.len()
        invariant
            i <= parts.len(),
            all == components(path@),
            n == components(base@).len(),
            parts@.len() == all.len() - n,
            forall|j: int| 0 <= j < parts@.len() ==> (#[trigger] parts@[j])@ == all[n + j],
            forall|j: int| n <= j < n + i ==> !unfinished_name(#[trigger] all[j]),
        decreases parts.len() - i,
    {
        let part: &[u8] = parts[i];
        assert(part@ == all[n + i]);
        if unfinished_component(part) {
            return true;
        }
        i = i + 1;
    }
    false
}

/// Whether a path lies in the downloads and is part of something unfinished.
pub fn unfinished_download(boundary: &Option<FsPath>, path: &FsPath) -> (r: bool)
    ensures
        r == (boundary matches Some(base) && under(path@, base@) && unfinished_below(
            path@,
            base@,
        )),
{
    match boundary {
        Some(base) => is_under(path_bytes(path), path_bytes(base)) && has_unfinished_part(
            path,
            base,
        ),
        None => false,
    }
}

/// What is said of something too small.
pub open spec fn small_reason(minimum: u64) -> Seq<char> {
    "Less than "@ + digits((minimum / 1_000_000) as nat)
        + " MB is allocated locally; it does not meet this category's size threshold"@
}

/// What is said of something that was changed lately.
pub open spec fn recent_reason(days: i64) -> Seq<char> {
    "Recently modified; recommendations require "@ + signed_digits(days as int) + " quiet days"@
}

pub(crate) fn recent_text(days: i64) -> (r: String)
    ensures
        r@ == recent_reason(days),
{
    joined3(
        "Recently modified; recommendations require ",
        signed_decimal(days).as_str(),
        " quiet days",
    )
}

/// Why a measured artifact is not recommended, if it is not: it is too small, or
/// it was changed too lately.
pub open spec fn suggestion_outcome(
    rules: Rules,
    quiet_days: i64,
    latest: int,
    allocated: u64,
    modified: int,
    now_ns: i64,
) -> Option<Seq<char>> {
    if allocated < rules.minimum_bytes {
        Some(small_reason(rules.minimum_bytes))
    } else if later(modified, latest) > cutoff(now_ns, quiet_days) {
        Some(recent_reason(quiet_days))
    } else {
        None
    }
}

/// Why a measured artifact is not recommended, if it is not.
pub fn suggestion_reason(found: &Evidence, measured: &Measurement, now_ns: i64) -> (r: Option<
    String,
>)
    ensures
        text_view(r) == suggestion_outcome(
            found.rules,
            found.quiet_days,
            found.latest_modified_ns as int,
            measured.allocated_bytes,
            measured.latest_modified_ns as int,
            now_ns,
        ),
{
    let minimum: u64 = found.rules.minimum_bytes;
    if measured.allocated_bytes < minimum {
        return Some(
            joined3(
                "Less than ",
                decimal(minimum / 1_000_000).as_str(),
                " MB is allocated locally; it does not meet this category's size threshold",
            ),
        );
    }
    let latest: i64 = if measured.latest_modified_ns < found.latest_modified_ns {
        found.latest_modified_ns
    } else {
        measured.latest_modified_ns
    };
    if !quiet_for(latest, now_ns, found.quiet_days) {
        return Some(recent_text(found.quiet_days));
    }
    None
}

/// More bytes or an earlier change never take a recommendation away.
pub proof fn suggestions_are_monotone(
    rules: Rules,
    quiet_days: i64,
    latest: int,
    allocated: u64,
    modified: int,
    more: u64,
    earlier: int,
    now_ns: i64,
)
    requires
        suggestion_outcome(rules, quiet_days, latest, allocated, modified, now_ns) is None,
        more >= allocated,
        earlier <= modified,
    ensures
        suggestion_outcome(rules, quiet_days, latest, more, earlier, now_ns) is None,
{
}

} // verus!
