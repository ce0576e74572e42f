//! The name normalizer: symbol display name to URI-path-safe slug.
//!
//! A slug keeps alphanumeric characters and a small fixed set of punctuation;
//! every other character becomes `+`, with runs of replacements collapsed so
//! that no two `+` stand next to each other. Leading and trailing whitespace
//! is dropped first.

use vstd::prelude::*;

use crate::chars::{char_is_alphanumeric, char_is_whitespace, is_alnum_char, is_space_char};
use vstd::string::StrSliceExecFns;

verus! {

/// Punctuation that passes through the normalizer unchanged.
pub open spec fn allowed_punct(c: char) -> bool {
    c == '?' || c == '@' || c == ':' || c == '!' || c == '$' || c == '&' || c == '(' || c == ')'
        || c == '*' || c == '-' || c == '+' || c == '=' || c == '~' || c == '.' || c == '_'
}

/// Characters the normalizer keeps as they are.
pub open spec fn keeps_char(c: char) -> bool {
    allowed_punct(c) || is_alnum_char(c)
}

/// What a single character becomes in a slug.
pub open spec fn slug_char(c: char) -> char {
    if keeps_char(c) {
        c
    } else {
        '+'
    }
}

/// `s` with leading whitespace dropped.
pub open spec fn trim_start_spec(s: Seq<char>) -> Seq<char>
    decreases s.len(),
{
    if s.len() == 0 {
        s
    } else if is_space_char(s[0]) {
        trim_start_spec(s.drop_first())
    } else {
        s
    }
}

/// `s` with trailing whitespace dropped.
pub open spec fn trim_end_spec(s: Seq<char>) -> Seq<char>
    decreases s.len(),
{
    if s.len() == 0 {
        s
    } else if is_space_char(s.last()) {
        trim_end_spec(s.drop_last())
    } else {
        s
    }
}

/// `s` with leading and trailing whitespace dropped.
pub open spec fn trim_spec(s: Seq<char>) -> Seq<char> {
    trim_end_spec(trim_start_spec(s))
}

/// The character-mapping and collapsing pass of the normalizer: each
/// character of `s` becomes `slug_char` of it, and a replacement `+` is
/// dropped when the previous mapped character (`last`) was already `+`.
pub open spec fn slug_body(s: Seq<char>, last: char) -> Seq<char>
    decreases s.len(),
{
    if s.len() == 0 {
        Seq::empty()
    } else {
        let c = slug_char(s[0]);
        if c == '+' && last == '+' {
            slug_body(s.drop_first(), c)
        } else {
            seq![c] + slug_body(s.drop_first(), c)
        }
    }
}

/// The mapped character that a left-to-right pass over `s` ends on, starting
/// from `last`.
pub open spec fn last_after(s: Seq<char>, last: char) -> char {
    if s.len() == 0 {
        last
    } else {
        slug_char(s.last())
    }
}

/// The whole normalizer: trim, then map and collapse. The initial `last` is
/// no `+`, so a slug may begin with one.
pub open spec fn normalize_spec(s: Seq<char>) -> Seq<char> {
    slug_body(trim_spec(s), '-')
}

/// When the first `a` characters of `s` are whitespace and the one at `a` is
/// not, trimming the start drops exactly those `a` characters.
proof fn lemma_trim_start_at(s: Seq<char>, a: int)
    requires
        0 <= a <= s.len(),
        forall|j: int| 0 <= j < a ==> is_space_char(#[trigger] s[j]),
        a == s.len() || !is_space_char(s[a]),
    ensures
        trim_start_spec(s) == s.subrange(a, s.len() as int),
    decreases a,
{
    if a == 0 {
        assert(trim_start_spec(s) =~= s.subrange(0, s.len() as int));
    } else {
        lemma_trim_start_at(s.drop_first(), a - 1);
        assert(s.drop_first().subrange(a - 1, s.drop_first().len() as int) =~= s.subrange(
            a,
            s.len() as int,
        ));
    }
}

/// When the characters of `s` from `b` on are whitespace and the one before
/// `b` is not, trimming the end keeps exactly the first `b` characters.
proof fn lemma_trim_end_at(s: Seq<char>, b: int)
    requires
        0 <= b <= s.len(),
        forall|j: int| b <= j < s.len() ==> is_space_char(#[trigger] s[j]),
        b == 0 || !is_space_char(s[b - 1]),
    ensures
        trim_end_spec(s) == s.subrange(0, b),
    decreases s.len(),
{
    if b == s.len() {
        if s.len() == 0 || !is_space_char(s.last()) {
            assert(trim_end_spec(s) =~= s.subrange(0, b));
        } else {
            assert(false);
        }
    } else {
        assert(is_space_char(s.last()));
        lemma_trim_end_at(s.drop_last(), b);
        assert(s.drop_last().subrange(0, b) =~= s.subrange(0, b));
    }
}

/// Processing one more character on the right extends the mapped output by
/// that character's slug, unless it is a collapsed `+`.
proof fn lemma_slug_body_snoc(s: Seq<char>, x: char, last: char)
    ensures
        slug_body(s.push(x), last) == if slug_char(x) == '+' && last_after(s, last) == '+' {
            slug_body(s, last)
        } else {
            slug_body(s, last).push(slug_char(x))
        },
    decreases s.len(),
{
    let t = s.push(x);
    if s.len() == 0 {
        assert(t.drop_first() =~= Seq::<char>::empty());
        assert(t[0] == x);
        assert(s =~= Seq::<char>::empty());
        assert(slug_body(t.drop_first(), slug_char(x)) =~= Seq::<char>::empty());
        assert(slug_body(s, last) =~= Seq::<char>::empty());
        if slug_char(x) == '+' && last == '+' {
            assert(slug_body(t, last) =~= slug_body(s, last));
        } else {
            assert(slug_body(t, last) =~= seq![slug_char(x)] + Seq::<char>::empty());
            assert(slug_body(t, last) =~= slug_body(s, last).push(slug_char(x)));
        }
    } else {
        assert(t[0] == s[0]);
        assert(t.drop_first() =~= s.drop_first().push(x));
        lemma_slug_body_snoc(s.drop_first(), x, slug_char(s[0]));
        assert(last_after(s.drop_first(), slug_char(s[0])) == last_after(s, last));
        let c = slug_char(s[0]);
        if c == '+' && last == '+' {
            assert(slug_body(t, last) == slug_body(t.drop_first(), c));
        } else {
            assert(slug_body(t, last) == seq![c] + slug_body(t.drop_first(), c));
            if slug_char(x) == '+' && last_after(s, last) == '+' {
            } else {
                assert(seq![c] + slug_body(s.drop_first(), c).push(slug_char(x)) =~= (seq![c]
                    + slug_body(s.drop_first(), c)).push(slug_char(x)));
            }
        }
    }
}

/// Every character of a mapped slug is a kept character; no two `+` are
/// adjacent in it; and when the pass starts right after a `+`, it never
/// begins with another `+`.
pub proof fn lemma_slug_body_shape(s: Seq<char>, last: char)
    ensures
        forall|i: int|
            0 <= i < slug_body(s, last).len() ==> keeps_char(#[trigger] slug_body(s, last)[i]),
        forall|i: int|
            0 <= i < slug_body(s, last).len() - 1 ==> !(#[trigger] slug_body(s, last)[i] == '+'
                && slug_body(s, last)[i + 1] == '+'),
        last == '+' && slug_body(s, last).len() > 0 ==> slug_body(s, last)[0] != '+',
    decreases s.len(),
{
    if s.len() > 0 {
        let c = slug_char(s[0]);
        lemma_slug_body_shape(s.drop_first(), c);
        if c == '+' && last == '+' {
        } else {
            let rest = slug_body(s.drop_first(), c);
            let out = slug_body(s, last);
            assert(out == seq![c] + rest);
            assert(out[0] == c);
            assert(forall|i: int| 1 <= i < out.len() ==> out[i] == rest[i - 1]);
            assert(keeps_char(c));
        }
    }
}

/// A sequence of kept characters without adjacent `+`, not starting with `+`
/// right after one, passes through the mapping pass unchanged.
proof fn lemma_slug_body_identity(s: Seq<char>, last: char)
    requires
        forall|i: int| 0 <= i < s.len() ==> keeps_char(#[trigger] s[i]),
        forall|i: int| 0 <= i < s.len() - 1 ==> !(#[trigger] s[i] == '+' && s[i + 1] == '+'),
        !(last == '+' && s.len() > 0 && s[0] == '+'),
    ensures
        slug_body(s, last) == s,
    decreases s.len(),
{
    if s.len() > 0 {
        let c = slug_char(s[0]);
        assert(keeps_char(s[0]));
        assert(c == s[0]);
        let rest = s.drop_first();
        assert(forall|i: int| 0 <= i < rest.len() - 1 ==> !(#[trigger] rest[i] == '+' && rest[i + 1] == '+'));
        lemma_slug_body_identity(rest, c);
        assert(slug_body(s, last) =~= s);
    }
}

/// A kept character is never whitespace.
proof fn lemma_keeps_not_space(c: char)
    ensures
        keeps_char(c) ==> !is_space_char(c),
{
}

/// Trimming a sequence without whitespace at either end changes nothing.
proof fn lemma_trim_id(s: Seq<char>)
    requires
        s.len() > 0 ==> !is_space_char(s[0]) && !is_space_char(s.last()),
    ensures
        trim_spec(s) == s,
{
}

/// The normalizer is idempotent: normalizing an already-normalized string
/// returns it unchanged.
pub proof fn lemma_normalize_idempotent(s: Seq<char>)
    ensures
        normalize_spec(normalize_spec(s)) == normalize_spec(s),
{
    let t = normalize_spec(s);
    lemma_slug_body_shape(trim_spec(s), '-');
    if t.len() > 0 {
        lemma_keeps_not_space(t[0]);
        lemma_keeps_not_space(t.last());
    }
    lemma_trim_id(t);
    lemma_slug_body_identity(t, '-');
}

/// Drop leading and trailing whitespace.
pub fn trim_str(s: &str) -> (r: &str)
    ensures
        r@ == trim_spec(s@),
{
    let n = s.unicode_len();
    let mut a: usize = 0;
    while a < n && char_is_whitespace(s.get_char(a))
        invariant
            0 <= a <= n == s@.len(),
            forall|j: int| 0 <= j < a ==> is_space_char(#[trigger] s@[j]),
        decreases n - a,
    {
        a += 1;
    }
    let mut b: usize = n;
    while b > a && char_is_whitespace(s.get_char(b - 1))
        invariant
            a <= b <= n == s@.len(),
            forall|j: int| b <= j < n ==> is_space_char(#[trigger] s@[j]),
        decreases b,
    {
        b -= 1;
    }
    proof {
        lemma_trim_start_at(s@, a as int);
        let mid = s@.subrange(a as int, n as int);
        lemma_trim_end_at(mid, b - a);
        assert(mid.subrange(0, b - a) =~= s@.subrange(a as int, b as int));
        assert(trim_spec(s@) == s@.subrange(a as int, b as int));
    }
    s.substring_char(a, b)
}

/// Remove extra characters from a symbol name: trim whitespace, keep
/// alphanumerics and a fixed set of punctuation, and replace every other
/// character by `+`, collapsing runs of replacements.
pub fn convert_name(name: &str) -> (r: String)
    ensures
        r@ == normalize_spec(name@),
{
    let t = trim_str(name);
    let n = t.unicode_len();
    let mut out = String::new();
    let mut last: char = '-';
    let mut i: usize = 0;
    while i < n
        invariant
            0 <= i <= n == t@.len(),
            t@ == trim_spec(name@),
            out@ == slug_body(t@.subrange(0, i as int), '-'),
            last == last_after(t@.subrange(0, i as int), '-'),
        decreases n - i,
    {
        let c0 = t.get_char(i);
        let keep = match c0 {
            '?' | '@' | ':' | '!' | '$' | '&' | '(' | ')' | '*' | '-' | '+' | '=' | '~' | '.'
            | '_' => true,
            _ => char_is_alphanumeric(c0),
        };
        proof {
            assert(keep == keeps_char(t@[i as int]));
        }
        let c = if keep {
            c0
        } else {
            '+'
        };
        if !(c == '+' && last == '+') {
            out.push(c);
        }
        proof {
            lemma_slug_body_snoc(t@.subrange(0, i as int), t@[i as int], '-');
            assert(t@.subrange(0, i as int).push(t@[i as int]) =~= t@.subrange(0, i + 1));
        }
        last = c;
        i += 1;
    }
    proof {
        assert(t@.subrange(0, n as int) =~= t@);
    }
    out
}

} // verus!
