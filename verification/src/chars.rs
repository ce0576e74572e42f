//! Character classification and small string helpers.
//!
//! The normalizer and the reference grammar are Unicode-aware: they keep any
//! alphanumeric character, and trimming follows the White_Space property.
//! Those two character properties are supplied by std; everything built on
//! top of them is verified here.

use vstd::prelude::*;

verus! {

/// Whether a character above ASCII is alphanumeric. Tied to
/// `char::is_alphanumeric` by `char_is_alphanumeric` below.
pub uninterp spec fn wide_alphanumeric(c: char) -> bool;

/// Whether a character above ASCII has the White_Space property. Tied to
/// `char::is_whitespace` by `char_is_whitespace` below.
pub uninterp spec fn wide_whitespace(c: char) -> bool;

/// What `char::is_alphanumeric` returns: below ASCII 128 exactly the digits
/// and letters, above it a fixed property of the character.
pub open spec fn is_alnum_char(c: char) -> bool {
    if (c as u32) < 128 {
        (48 <= c as u32 && c as u32 <= 57)  // '0' ..= '9'
        || (97 <= c as u32 && c as u32 <= 122)  // 'a' ..= 'z'
        || (65 <= c as u32 && c as u32 <= 90)  // 'A' ..= 'Z'

    } else {
        wide_alphanumeric(c)
    }
}

/// What `char::is_whitespace` returns: below ASCII 128 exactly the six
/// classic whitespace characters; above it a fixed property of the
/// character, never one of an alphanumeric character.
pub open spec fn is_space_char(c: char) -> bool {
    if (c as u32) < 128 {
        c == ' ' || c == '\t' || c == '\n' || c == '\r' || c == '\u{b}' || c == '\u{c}'
    } else {
        wide_whitespace(c) && !wide_alphanumeric(c)
    }
}

/// Relies on `char::is_alphanumeric`: a character is alphanumeric when it is
/// in the Unicode Alphabetic or Number categories; on ASCII input that is
/// exactly the digits and letters.
#[verifier::external_body]
pub(crate) fn char_is_alphanumeric(c: char) -> (r: bool)
    ensures
        r == is_alnum_char(c),
        (c as u32) >= 128 ==> r == wide_alphanumeric(c),
{
    c.is_alphanumeric()
}

/// Relies on `char::is_whitespace`: a character is whitespace when it has the
/// Unicode White_Space property; on ASCII input that is exactly space, tab,
/// line feed, vertical tab, form feed and carriage return. No character has
/// both the White_Space property and an alphanumeric category.
#[verifier::external_body]
pub(crate) fn char_is_whitespace(c: char) -> (r: bool)
    ensures
        r == is_space_char(c),
        (c as u32) >= 128 ==> r == (wide_whitespace(c) && !wide_alphanumeric(c)),
{
    c.is_whitespace()
}

/// Relies on `String::push`: appends the one character to the end.
pub assume_specification [ std::string::String::push ](s: &mut std::string::String, c: char)
    ensures
        final (s)@ == old(s)@.push(c),
;

/// Index of the first occurrence of `c` in `s` at or after position `i`.
pub open spec fn find_from(s: Seq<char>, c: char, i: int) -> Option<int>
    decreases s.len() - i,
{
    if i < 0 || i >= s.len() {
        None
    } else if s[i] == c {
        Some(i)
    } else {
        find_from(s, c, i + 1)
    }
}

/// Index of the first occurrence of `c` in `s`.
pub open spec fn find_char_spec(s: Seq<char>, c: char) -> Option<int> {
    find_from(s, c, 0)
}

/// Index of the last occurrence of `c` in `s` at or before position `i`.
pub open spec fn rfind_from(s: Seq<char>, c: char, i: int) -> Option<int>
    decreases i + 1,
{
    if i < 0 || i >= s.len() {
        None
    } else if s[i] == c {
        Some(i)
    } else {
        rfind_from(s, c, i - 1)
    }
}

/// Index of the last occurrence of `c` in `s`.
pub open spec fn rfind_char_spec(s: Seq<char>, c: char) -> Option<int> {
    rfind_from(s, c, s.len() - 1)
}

/// A scan that saw no `c` in `s[k..i]` and stops on `s[i] == c` has found the
/// first occurrence at or after `k`.
proof fn lemma_find_from_hit(s: Seq<char>, c: char, k: int, i: int)
    requires
        0 <= k <= i < s.len(),
        s[i] == c,
        forall|j: int| k <= j < i ==> s[j] != c,
    ensures
        find_from(s, c, k) == Some(i),
    decreases i - k,
{
    if k < i {
        lemma_find_from_hit(s, c, k + 1, i);
    }
}

/// A scan that saw no `c` anywhere in `s[k..]` reports no occurrence.
proof fn lemma_find_from_miss(s: Seq<char>, c: char, k: int)
    requires
        0 <= k <= s.len(),
        forall|j: int| k <= j < s.len() ==> s[j] != c,
    ensures
        find_from(s, c, k) is None,
    decreases s.len() - k,
{
    if k < s.len() {
        lemma_find_from_miss(s, c, k + 1);
    }
}

/// A backward scan that saw no `c` in `s[i+1..=k]` and stops on `s[i] == c`
/// has found the last occurrence at or before `k`.
proof fn lemma_rfind_from_hit(s: Seq<char>, c: char, k: int, i: int)
    requires
        0 <= i <= k < s.len(),
        s[i] == c,
        forall|j: int| i < j <= k ==> s[j] != c,
    ensures
        rfind_from(s, c, k) == Some(i),
    decreases k - i,
{
    if i < k {
        lemma_rfind_from_hit(s, c, k - 1, i);
    }
}

/// A backward scan that saw no `c` anywhere in `s[0..=k]` reports no
/// occurrence.
proof fn lemma_rfind_from_miss(s: Seq<char>, c: char, k: int)
    requires
        k < s.len(),
        forall|j: int| 0 <= j <= k ==> s[j] != c,
    ensures
        rfind_from(s, c, k) is None,
    decreases k + 1,
{
    if k >= 0 {
        lemma_rfind_from_miss(s, c, k - 1);
    }
}

/// Position of the first `c` in `s`, if any.
pub fn find_char(s: &str, c: char) -> (r: Option<usize>)
    ensures
        match r {
            Some(i) => find_char_spec(s@, c) == Some(i as int),
            None => find_char_spec(s@, c) is None,
        },
{
    let n = s.unicode_len();
    let mut i: usize = 0;
    while i < n
        invariant
            0 <= i <= n == s@.len(),
            forall|j: int| 0 <= j < i ==> s@[j] != c,
        decreases n - i,
    {
        if s.get_char(i) == c {
            proof {
                lemma_find_from_hit(s@, c, 0, i as int);
            }
            return Some(i);
        }
        i += 1;
    }
    proof {
        lemma_find_from_miss(s@, c, 0);
    }
    None
}

/// Position of the last `c` in `s`, if any.
pub fn rfind_char(s: &str, c: char) -> (r: Option<usize>)
    ensures
        match r {
            Some(i) => rfind_char_spec(s@, c) == Some(i as int),
            None => rfind_char_spec(s@, c) is None,
        },
{
    let n = s.unicode_len();
    let mut i: usize = n;
    while i > 0
        invariant
            0 <= i <= n == s@.len(),
            forall|j: int| i <= j < n ==> s@[j] != c,
        decreases i,
    {
        i -= 1;
        if s.get_char(i) == c {
            proof {
                lemma_rfind_from_hit(s@, c, n - 1, i as int);
            }
            return Some(i);
        }
    }
    proof {
        if n > 0 {
            lemma_rfind_from_miss(s@, c, n - 1);
        }
    }
    None
}

/// Where the first occurrence of `c` sits in `s`, what stands there, and
/// that nothing before it is `c`; or that `s` holds no `c` at all.
pub proof fn lemma_find_char_props(s: Seq<char>, c: char)
    ensures
        match find_char_spec(s, c) {
            Some(i) => 0 <= i < s.len() && s[i] == c && (forall|j: int|
                0 <= j < i ==> s[j] != c),
            None => forall|j: int| 0 <= j < s.len() ==> s[j] != c,
        },
{
    lemma_find_from_props(s, c, 0);
}

proof fn lemma_find_from_props(s: Seq<char>, c: char, k: int)
    requires
        0 <= k <= s.len(),
    ensures
        match find_from(s, c, k) {
            Some(i) => k <= i < s.len() && s[i] == c && (forall|j: int|
                k <= j < i ==> s[j] != c),
            None => forall|j: int| k <= j < s.len() ==> s[j] != c,
        },
    decreases s.len() - k,
{
    if k < s.len() && s[k] != c {
        lemma_find_from_props(s, c, k + 1);
    }
}

/// Where the last occurrence of `c` sits in `s`, what stands there, and that
/// nothing after it is `c`; or that `s` holds no `c` at all.
pub proof fn lemma_rfind_char_props(s: Seq<char>, c: char)
    ensures
        match rfind_char_spec(s, c) {
            Some(i) => 0 <= i < s.len() && s[i] == c && (forall|j: int|
                i < j < s.len() ==> s[j] != c),
            None => forall|j: int| 0 <= j < s.len() ==> s[j] != c,
        },
{
    lemma_rfind_from_props(s, c, s.len() - 1);
}

proof fn lemma_rfind_from_props(s: Seq<char>, c: char, k: int)
    requires
        k < s.len(),
    ensures
        match rfind_from(s, c, k) {
            Some(i) => 0 <= i <= k && s[i] == c && (forall|j: int| i < j <= k ==> s[j] != c),
            None => forall|j: int| 0 <= j <= k ==> s[j] != c,
        },
    decreases k + 1,
{
    if k >= 0 && s[k] != c {
        lemma_rfind_from_props(s, c, k - 1);
    }
}

/// `s` split around the first occurrence of `sep`, if there is one.
pub open spec fn split_once_spec(s: Seq<char>, sep: char) -> Option<(Seq<char>, Seq<char>)> {
    match find_char_spec(s, sep) {
        Some(i) => Some((s.subrange(0, i), s.subrange(i + 1, s.len() as int))),
        None => None,
    }
}

/// `s` split around the last occurrence of `sep`, if there is one.
pub open spec fn rsplit_once_spec(s: Seq<char>, sep: char) -> Option<(Seq<char>, Seq<char>)> {
    match rfind_char_spec(s, sep) {
        Some(i) => Some((s.subrange(0, i), s.subrange(i + 1, s.len() as int))),
        None => None,
    }
}

/// Split `s` at the first `sep`, excluding the separator itself.
pub fn split_once_str<'a>(s: &'a str, sep: char) -> (r: Option<(&'a str, &'a str)>)
    ensures
        match r {
            Some(p) => split_once_spec(s@, sep) == Some((p.0@, p.1@)),
            None => split_once_spec(s@, sep) is None,
        },
{
    proof {
        lemma_find_char_props(s@, sep);
    }
    let n = s.unicode_len();
    match find_char(s, sep) {
        Some(i) => {
            let head = s.substring_char(0, i);
            let tail = s.substring_char(i + 1, n);
            Some((head, tail))
        },
        None => None,
    }
}

/// Split `s` at the last `sep`, excluding the separator itself.
pub fn rsplit_once_str<'a>(s: &'a str, sep: char) -> (r: Option<(&'a str, &'a str)>)
    ensures
        match r {
            Some(p) => rsplit_once_spec(s@, sep) == Some((p.0@, p.1@)),
            None => rsplit_once_spec(s@, sep) is None,
        },
{
    proof {
        lemma_rfind_char_props(s@, sep);
    }
    let n = s.unicode_len();
    match rfind_char(s, sep) {
        Some(i) => {
            let head = s.substring_char(0, i);
            let tail = s.substring_char(i + 1, n);
            Some((head, tail))
        },
        None => None,
    }
}

/// Character-wise string equality.
pub fn str_eq(a: &str, b: &str) -> (r: bool)
    ensures
        r == (a@ == b@),
{
    let na = a.unicode_len();
    let nb = b.unicode_len();
    if na != nb {
        return false;
    }
    let mut i: usize = 0;
    while i < na
        invariant
            0 <= i <= na == a@.len(),
            na == b@.len(),
            forall|j: int| 0 <= j < i ==> a@[j] == b@[j],
        decreases na - i,
    {
        if a.get_char(i) != b.get_char(i) {
            return false;
        }
        i += 1;
    }
    proof {
        assert(a@ =~= b@);
    }
    true
}

} // verus!
