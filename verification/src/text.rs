//! Character-level helpers on strings, with their models over `Seq<char>`.

use vstd::prelude::*;

verus! {

/// `suffix` ends `text`.
pub open spec fn is_suffix_of(suffix: Seq<char>, text: Seq<char>) -> bool {
    suffix.len() <= text.len() && text.subrange(text.len() - suffix.len(), text.len() as int) == suffix
}

/// `needle` occurs somewhere in `text` as a contiguous run.
pub open spec fn occurs_in(needle: Seq<char>, text: Seq<char>) -> bool {
    exists|i: int| 0 <= i <= text.len() - needle.len() && #[trigger] text.subrange(i, i + needle.len()) == needle
}

/// The ASCII lower-case form of a character; other characters are unchanged.
pub open spec fn ascii_lower(c: char) -> char {
    if 'A' <= c <= 'Z' {
        (((c as u8) + 32) as u8) as char
    } else {
        c
    }
}

/// Equal up to ASCII case.
pub open spec fn eq_ascii_ci(a: Seq<char>, b: Seq<char>) -> bool {
    a.len() == b.len() && forall|i: int| 0 <= i < a.len() ==> ascii_lower(#[trigger] a[i]) == ascii_lower(b[i])
}

/// The lower-case form of a string as std's `str::to_lowercase` computes it (Unicode's
/// `Lowercase` mapping, with the context rules std applies).
pub uninterp spec fn lowercase(s: Seq<char>) -> Seq<char>;

/// Every character is ASCII.
pub open spec fn all_ascii(s: Seq<char>) -> bool {
    forall|i: int| 0 <= i < s.len() ==> (#[trigger] s[i] as u32) < 128
}

/// Lower-cases a string with std's `str::to_lowercase`.
/// Claimed: the result is `lowercase` of the input; for an all-ASCII input it is
/// the input with each of `A`-`Z` turned into its lower-case letter (the Unicode
/// lower-case mapping of ASCII). Nothing more is stated of other inputs.
#[verifier::external_body]
pub fn to_lowercase(s: &str) -> (r: String)
    ensures
        r@ == lowercase(s@),
        all_ascii(s@) ==> r@ == s@.map_values(|c: char| ascii_lower(c)),
{
    s.to_lowercase()
}

/// Builds a `String` from characters with std's `FromIterator<char>`.
/// Claimed: the string holds exactly those characters, in order.
#[verifier::external_body]
pub fn string_from_chars(chars: &[char]) -> (r: String)
    ensures
        r@ == chars@,
{
    chars.iter().collect()
}

/// The path that std's `Path::join` forms from `base` and `child`, as text.
pub uninterp spec fn joined_path(base: Seq<char>, child: Seq<char>) -> Seq<char>;

/// Joins two path parts with std's `Path::join`.
/// Claimed: the result's text is `joined_path` of the parts. Both parts are UTF-8,
/// so the joined path is too and rendering it as text loses nothing.
#[verifier::external_body]
pub fn join_path(base: &str, child: &str) -> (r: String)
    ensures
        r@ == joined_path(base@, child@),
{
    std::path::Path::new(base).join(child).to_string_lossy().into_owned()
}

/// The characters of `s`, in order.
pub fn chars_of(s: &str) -> (r: Vec<char>)
    ensures
        r@ == s@,
{
    broadcast use vstd::string::axiom_spec_iter;

    let mut out: Vec<char> = Vec::new();
    for c in it: s.chars()
        invariant
            out@ == it.seq().take(it.index() as int),
            it.seq() == s@,
    {
        out.push(c);
    }
    assert(out@ =~= s@);
    out
}

/// A copy of a string slice as an owned `String`.
pub fn owned(s: &str) -> (r: String)
    ensures
        r@ == s@,
{
    broadcast use vstd::string::to_string_from_display_ensures_for_str;

    s.to_string()
}

/// Whether two character runs are equal.
pub fn chars_equal(a: &[char], b: &[char]) -> (r: bool)
    ensures
        r == (a@ == b@),
{
    if a.len() != b.len() {
        return false;
    }
    let mut i: usize = 0;
    while i < a.len()
        invariant
            a.len() == b.len(),
            i <= a.len(),
            forall|j: int| 0 <= j < i ==> a@[j] == b@[j],
        decreases a.len() - i,
    {
        if a[i] != b[i] {
            return false;
        }
        i += 1;
    }
    assert(a@ =~= b@);
    true
}

/// Whether two string slices hold the same characters.
pub fn str_equal(a: &str, b: &str) -> (r: bool)
    ensures
        r == (a@ == b@),
{
    let x = chars_of(a);
    let y = chars_of(b);
    chars_equal(x.as_slice(), y.as_slice())
}

/// Whether `suffix` ends `text`.
pub fn ends_with(text: &[char], suffix: &[char]) -> (r: bool)
    ensures
        r == is_suffix_of(suffix@, text@),
{
    if suffix.len() > text.len() {
        return false;
    }
    let start = text.len() - suffix.len();
    let mut i: usize = 0;
    while i < suffix.len()
        invariant
            start + suffix.len() == text.len(),
            i <= suffix.len(),
            forall|j: int| 0 <= j < i ==> text@[start + j] == suffix@[j],
        decreases suffix.len() - i,
    {
        if text[start + i] != suffix[i] {
            assert(text@.subrange(start as int, text.len() as int)[i as int] != suffix@[i as int]);
            return false;
        }
        i += 1;
    }
    assert(text@.subrange(start as int, text.len() as int) =~= suffix@);
    true
}

/// Whether `needle` matches `text` at position `at`.
fn matches_at(text: &[char], needle: &[char], at: usize) -> (r: bool)
    requires
        at + needle.len() <= text.len(),
    ensures
        r == (text@.subrange(at as int, at + needle.len()) == needle@),
{
    let mut i: usize = 0;
    while i < needle.len()
        invariant
            at + needle.len() <= text.len(),
            i <= needle.len(),
            forall|j: int| 0 <= j < i ==> text@[at + j] == needle@[j],
        decreases needle.len() - i,
    {
        if text[at + i] != needle[i] {
            assert(text@.subrange(at as int, at + needle.len())[i as int] != needle@[i as int]);
            return false;
        }
        i += 1;
    }
    assert(text@.subrange(at as int, at + needle.len()) =~= needle@);
    true
}

/// Whether `needle` occurs in `text`.
pub fn contains(text: &[char], needle: &[char]) -> (r: bool)
    ensures
        r == occurs_in(needle@, text@),
{
    if needle.len() > text.len() {
        return false;
    }
    let last = text.len() - needle.len();
    let mut at: usize = 0;
    loop
        invariant
            last + needle.len() == text.len(),
            at <= last,
            forall|i: int| 0 <= i < at ==> #[trigger] text@.subrange(i, i + needle.len()) != needle@,
        ensures
            forall|i: int| 0 <= i <= last ==> #[trigger] text@.subrange(i, i + needle.len()) != needle@,
        decreases last - at,
    {
        if matches_at(text, needle, at) {
            return true;
        }
        if at == last {
            break;
        }
        at += 1;
    }
    false
}

/// The ASCII lower-case form of one character.
pub fn ascii_lower_char(c: char) -> (r: char)
    ensures
        r == ascii_lower(c),
{
    if 'A' <= c && c <= 'Z' {
        let code: u8 = (c as u8) + 32;
        code as char
    } else {
        c
    }
}

/// Whether two strings are equal up to ASCII case (std's `eq_ignore_ascii_case`).
pub fn eq_ignore_ascii_case(a: &str, b: &str) -> (r: bool)
    ensures
        r == eq_ascii_ci(a@, b@),
{
    let x = chars_of(a);
    let y = chars_of(b);
    chars_eq_ignore_ascii_case(x.as_slice(), y.as_slice())
}

/// Whether two character runs are equal up to ASCII case.
pub fn chars_eq_ignore_ascii_case(x: &[char], y: &[char]) -> (r: bool)
    ensures
        r == eq_ascii_ci(x@, y@),
{
    if x.len() != y.len() {
        return false;
    }
    let mut i: usize = 0;
    while i < x.len()
        invariant
            x.len() == y.len(),
            i <= x.len(),
            forall|j: int| 0 <= j < i ==> ascii_lower(x@[j]) == ascii_lower(y@[j]),
        decreases x.len() - i,
    {
        if ascii_lower_char(x[i]) != ascii_lower_char(y[i]) {
            return false;
        }
        i += 1;
    }
    true
}

/// The characters `v[from..to]`.
pub fn sub_chars(v: &[char], from: usize, to: usize) -> (r: Vec<char>)
    requires
        from <= to <= v.len(),
    ensures
        r@ == v@.subrange(from as int, to as int),
{
    let mut out: Vec<char> = Vec::new();
    let mut i = from;
    while i < to
        invariant
            from <= i <= to <= v.len(),
            out@ == v@.subrange(from as int, i as int),
        decreases to - i,
    {
        out.push(v[i]);
        assert(v@.subrange(from as int, i + 1) =~= v@.subrange(from as int, i as int).push(v@[i as int]));
        i += 1;
    }
    out
}

/// The characters of `a` followed by those of `b`.
pub fn concat_chars(a: &[char], b: &[char]) -> (r: Vec<char>)
    ensures
        r@ == a@ + b@,
{
    let mut out = sub_chars(a, 0, a.len());
    let mut i: usize = 0;
    while i < b.len()
        invariant
            i <= b.len(),
            out@ == a@.subrange(0, a.len() as int) + b@.subrange(0, i as int),
        decreases b.len() - i,
    {
        out.push(b[i]);
        assert(b@.subrange(0, i + 1) =~= b@.subrange(0, i as int).push(b@[i as int]));
        i += 1;
    }
    assert(a@.subrange(0, a.len() as int) =~= a@);
    assert(b@.subrange(0, b.len() as int) =~= b@);
    out
}

} // verus!
