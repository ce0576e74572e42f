//! Reading a `<path>:<line>:<char>` position argument.

use vstd::prelude::*;

use crate::chars::{rsplit_once_spec, rsplit_once_str};
use crate::numbers::{parse_u32, parse_u32_spec};

verus! {

/// `x` less one, stopping at zero.
pub open spec fn sat_dec(x: u32) -> u32 {
    if x > 0 {
        (x - 1) as u32
    } else {
        0
    }
}

/// What extracting a position yields: the text left of the last two `:`,
/// and the two numbers after them, made zero-based. Anything without two
/// `:`-separated numbers at its end yields nothing.
pub open spec fn extract_path_spec(s: Seq<char>) -> Option<(Seq<char>, u32, u32)> {
    match rsplit_once_spec(s, ':') {
        None => None,
        Some((rem, char_part)) => match rsplit_once_spec(rem, ':') {
            None => None,
            Some((path, line_part)) => match (parse_u32_spec(line_part), parse_u32_spec(
                char_part,
            )) {
                (Some(l), Some(c)) => Some((path, sat_dec(l), sat_dec(c))),
                _ => None,
            },
        },
    }
}

/// Extract path, line number and character number from an argument of the
/// form `<path>:<line>:<char>`. The one-based numbers are converted to
/// zero-based; a missing part or a non-number (a sign too) yields nothing.
pub fn extract_path<'a>(full_path: &'a str) -> (r: Option<(&'a str, u32, u32)>)
    ensures
        match r {
            Some(t) => extract_path_spec(full_path@) == Some((t.0@, t.1, t.2)),
            None => extract_path_spec(full_path@) is None,
        },
{
    let (remainder, char_no) = match rsplit_once_str(full_path, ':') {
        Some(p) => p,
        None => {
            return None;
        },
    };
    let (path, line_no) = match rsplit_once_str(remainder, ':') {
        Some(p) => p,
        None => {
            return None;
        },
    };
    let line = match parse_u32(line_no) {
        Some(v) => v,
        None => {
            return None;
        },
    };
    let character = match parse_u32(char_no) {
        Some(v) => v,
        None => {
            return None;
        },
    };
    Some(
        (
            path,
            if line > 0 {
                line - 1
            } else {
                0
            },
            if character > 0 {
                character - 1
            } else {
                0
            },
        ),
    )
}

} // verus!
