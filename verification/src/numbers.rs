//! Decimal reading and writing of small numbers.

use vstd::prelude::*;

use vstd::string::StrSliceExecFns;

verus! {

/// Whether `c` is a decimal digit.
pub open spec fn is_digit_char(c: char) -> bool {
    48 <= c as u32 && c as u32 <= 57
}

/// The value of a decimal digit character.
pub open spec fn digit_value(c: char) -> nat {
    (c as u32 - 48) as nat
}

/// The digit character for a value below ten.
pub open spec fn digit_char(d: nat) -> char {
    if d == 0 {
        '0'
    } else if d == 1 {
        '1'
    } else if d == 2 {
        '2'
    } else if d == 3 {
        '3'
    } else if d == 4 {
        '4'
    } else if d == 5 {
        '5'
    } else if d == 6 {
        '6'
    } else if d == 7 {
        '7'
    } else if d == 8 {
        '8'
    } else {
        '9'
    }
}

/// The number a sequence of digit characters denotes.
pub open spec fn dec_value(s: Seq<char>) -> nat
    decreases s.len(),
{
    if s.len() == 0 {
        0
    } else {
        dec_value(s.drop_last()) * 10 + digit_value(s.last())
    }
}

/// Whether every character of `s` is a decimal digit.
pub open spec fn all_digits(s: Seq<char>) -> bool {
    forall|i: int| 0 <= i < s.len() ==> is_digit_char(#[trigger] s[i])
}

/// What parsing `s` as an unsigned 32-bit number yields: the denoted value
/// when `s` is one or more digits and the value fits, nothing otherwise.
pub open spec fn parse_u32_spec(s: Seq<char>) -> Option<u32> {
    if s.len() > 0 && all_digits(s) && dec_value(s) <= u32::MAX {
        Some(dec_value(s) as u32)
    } else {
        None
    }
}

/// The decimal rendering of `n`, most significant digit first.
pub open spec fn dec_digits(n: nat) -> Seq<char>
    decreases n,
{
    if n < 10 {
        seq![digit_char(n)]
    } else {
        dec_digits(n / 10).push(digit_char(n % 10))
    }
}

/// A longer prefix of a digit string never denotes a smaller number.
proof fn lemma_dec_value_prefix(s: Seq<char>, k: int)
    requires
        0 <= k <= s.len(),
    ensures
        dec_value(s.subrange(0, k)) <= dec_value(s),
    decreases s.len() - k,
{
    if k < s.len() {
        let a = s.subrange(0, k);
        let b = s.subrange(0, k + 1);
        assert(b.drop_last() =~= a);
        assert(dec_value(b) == dec_value(a) * 10 + digit_value(b.last()));
        lemma_dec_value_prefix(s, k + 1);
    } else {
        assert(s.subrange(0, k) =~= s);
    }
}

/// Parse a string of decimal digits into an unsigned 32-bit number. Fails
/// on an empty string, any non-digit character (a sign too), and overflow.
pub fn parse_u32(s: &str) -> (r: Option<u32>)
    ensures
        r == parse_u32_spec(s@),
{
    let n = s.unicode_len();
    if n == 0 {
        return None;
    }
    let mut acc: u32 = 0;
    let mut i: usize = 0;
    proof {
        assert(s@.subrange(0, 0) =~= Seq::<char>::empty());
    }
    while i < n
        invariant
            0 <= i <= n == s@.len(),
            all_digits(s@.subrange(0, i as int)),
            acc as nat == dec_value(s@.subrange(0, i as int)),
        decreases n - i,
    {
        let c = s.get_char(i);
        let cu = c as u32;
        if cu < 48 || cu > 57 {
            proof {
                assert(!is_digit_char(s@[i as int]));
            }
            return None;
        }
        let d = cu - 48;
        proof {
            assert(s@.subrange(0, i + 1).drop_last() =~= s@.subrange(0, i as int));
            assert(s@.subrange(0, i + 1).last() == s@[i as int]);
            assert(dec_value(s@.subrange(0, i + 1)) == acc as nat * 10 + d as nat);
            lemma_dec_value_prefix(s@, i + 1);
        }
        let acc10 = match acc.checked_mul(10) {
            Some(v) => v,
            None => {
                return None;
            },
        };
        let acc2 = match acc10.checked_add(d) {
            Some(v) => v,
            None => {
                return None;
            },
        };
        proof {
            assert(all_digits(s@.subrange(0, i + 1)));
        }
        acc = acc2;
        i += 1;
    }
    proof {
        assert(s@.subrange(0, n as int) =~= s@);
    }
    Some(acc)
}

/// The digit character for a value below ten.
fn digit_to_char(d: u32) -> (c: char)
    requires
        d < 10,
    ensures
        c == digit_char(d as nat),
{
    match d {
        0 => '0',
        1 => '1',
        2 => '2',
        3 => '3',
        4 => '4',
        5 => '5',
        6 => '6',
        7 => '7',
        8 => '8',
        _ => '9',
    }
}

/// Render `n` in decimal.
pub fn u32_to_string(n: u32) -> (r: String)
    ensures
        r@ == dec_digits(n as nat),
{
    let mut digits: Vec<char> = Vec::new();
    let mut x: u32 = n;
    proof {
        assert(Seq::<char>::empty().reverse() =~= Seq::<char>::empty());
        assert(dec_digits(n as nat) =~= dec_digits(n as nat) + Seq::<char>::empty());
    }
    loop
        invariant_except_break
            dec_digits(n as nat) == dec_digits(x as nat) + digits@.reverse(),
        ensures
            dec_digits(n as nat) == digits@.reverse(),
        decreases x,
    {
        let d = x % 10;
        digits.push(digit_to_char(d));
        proof {
            let before = digits@.drop_last();
            assert(before.push(digit_char(d as nat)) =~= digits@);
            assert(digits@.reverse() =~= seq![digit_char(d as nat)] + before.reverse());
        }
        if x < 10 {
            proof {
                assert(dec_digits(x as nat) == seq![digit_char(x as nat)]);
                assert(dec_digits(n as nat) =~= digits@.reverse());
            }
            break;
        }
        proof {
            assert(dec_digits(x as nat) == dec_digits((x / 10) as nat).push(
                digit_char((x % 10) as nat),
            ));
            assert(dec_digits((x / 10) as nat).push(digit_char(d as nat)) + digits@.drop_last().reverse()
                =~= dec_digits((x / 10) as nat) + digits@.reverse());
        }
        x = x / 10;
    }
    let m = digits.len();
    let mut out = String::new();
    let mut i: usize = 0;
    proof {
        assert(digits@.reverse().subrange(0, 0) =~= Seq::<char>::empty());
    }
    while i < m
        invariant
            0 <= i <= m == digits@.len(),
            dec_digits(n as nat) == digits@.reverse(),
            out@ == digits@.reverse().subrange(0, i as int),
        decreases m - i,
    {
        out.push(digits[m - 1 - i]);
        proof {
            assert(digits@.reverse().subrange(0, i + 1) =~= digits@.reverse().subrange(
                0,
                i as int,
            ).push(digits@[m - 1 - i]));
        }
        i += 1;
    }
    proof {
        assert(digits@.reverse().subrange(0, m as int) =~= digits@.reverse());
    }
    out
}

} // verus!
