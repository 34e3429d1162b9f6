//! Escape-aware scanners: substring matching, splitting on an unescaped
//! separator, finding an unescaped link opener, and extracting a balanced
//! delimited block.

use vstd::prelude::*;

use crate::error::ParsingError;

verus! {

/// `p` occurs in `s` at position `i`.
pub open spec fn match_at(s: Seq<char>, p: Seq<char>, i: int) -> bool {
    0 <= i && i + p.len() <= s.len() && s.subrange(i, i + p.len() as int) == p
}

/// The first position at or after `from` where `p` occurs and is not escaped,
/// that is, not immediately preceded by a backslash. The very start of the
/// span has nothing before it and so never counts as escaped.
pub open spec fn find_unescaped(s: Seq<char>, p: Seq<char>, from: int) -> Option<int>
    decreases s.len() - from + 1,
{
    if from < 0 || from + p.len() > s.len() {
        None
    } else if match_at(s, p, from) && (from == 0 || s[from - 1] != '\\') {
        Some(from)
    } else {
        find_unescaped(s, p, from + 1)
    }
}

/// Whether `p` occurs in `s` at position `i`, by characters.
pub(crate) fn is_match_at(s: &str, p: &str, i: usize) -> (b: bool)
    ensures
        b == match_at(s@, p@, i as int),
{
    let slen = s.unicode_len();
    let plen = p.unicode_len();
    if i > slen || plen > slen - i {
        return false;
    }
    let mut j: usize = 0;
    while j < plen
        invariant
            slen == s@.len(),
            plen == p@.len(),
            i + plen <= slen,
            0 <= j <= plen,
            forall|k: int| 0 <= k < j ==> s@[i + k] == p@[k],
        decreases plen - j,
    {
        if s.get_char(i + j) != p.get_char(j) {
            proof {
                if match_at(s@, p@, i as int) {
                    assert(s@.subrange(i as int, i + plen)[j as int] == s@[i + j]);
                }
            }
            return false;
        }
        j = j + 1;
    }
    proof {
        assert(s@.subrange(i as int, i + plen) =~= p@);
    }
    true
}

/// The first unescaped occurrence of `p` in `s` at or after `from`.
pub(crate) fn find_unescaped_str(s: &str, p: &str, from: usize) -> (r: Option<usize>)
    requires
        p@.len() >= 1,
    ensures
        match r {
            Some(m) => find_unescaped(s@, p@, from as int) == Some(m as int) && from <= m && m
                + p@.len() <= s@.len() && match_at(s@, p@, m as int),
            None => find_unescaped(s@, p@, from as int) is None,
        },
{
    let slen = s.unicode_len();
    let plen = p.unicode_len();
    let mut m = from;
    while m <= slen && plen <= slen - m
        invariant
            slen == s@.len(),
            plen == p@.len(),
            plen >= 1,
            from <= m,
            find_unescaped(s@, p@, from as int) == find_unescaped(s@, p@, m as int),
        decreases slen - m,
    {
        if is_match_at(s, p, m) && (m == 0 || s.get_char(m - 1) != '\\') {
            return Some(m);
        }
        proof {
            assert(find_unescaped(s@, p@, m as int) == find_unescaped(s@, p@, m + 1));
        }
        m = m + 1;
    }
    proof {
        assert(find_unescaped(s@, p@, m as int) is None);
    }
    None
}

/// Split a span on the first unescaped occurrence of the literal separator
/// `pat`: a backslash immediately before the separator escapes it and the
/// scan resumes past it. Returns the text before and after the separator, or
/// `None` when no unescaped occurrence exists.
pub fn split_escaped<'a>(input: &'a str, pat: &str) -> (r: Option<(&'a str, &'a str)>)
    ensures
        match find_unescaped(input@, pat@, 0) {
            Some(i) => r matches Some(parts) && parts.0@ == input@.subrange(0, i) && parts.1@
                == input@.subrange(i + pat@.len(), input@.len() as int),
            None => r is None,
        },
{
    let slen = input.unicode_len();
    let plen = pat.unicode_len();
    if plen == 0 {
        let empty_part = input.substring_char(0, 0);
        proof {
            assert(pat@ =~= input@.subrange(0, 0));
            assert(match_at(input@, pat@, 0));
            assert(find_unescaped(input@, pat@, 0) == Some(0int));
            assert(input@.subrange(0, input@.len() as int) =~= input@);
        }
        return Some((empty_part, input));
    }
    match find_unescaped_str(input, pat, 0) {
        Some(i) => {
            let before = input.substring_char(0, i);
            let after = input.substring_char(i + plen, slen);
            Some((before, after))
        },
        None => None,
    }
}

/// The two-character link opener `[[` as a character sequence.
pub open spec fn link_open() -> Seq<char> {
    seq!['[', '[']
}

/// Take everything before the first unescaped `[[`. Fails when the span
/// starts with an unescaped `[[` (the text would be empty); when no unescaped
/// `[[` exists the whole span is taken and the remainder is empty.
pub fn until_link1(input: &str) -> (r: Result<(&str, &str), ParsingError<&str>>)
    ensures
        match find_unescaped(input@, link_open(), 0) {
            Some(i) => if i == 0 {
                r matches Err(ParsingError::Parsing(rem)) && rem@ == input@
            } else {
                r matches Ok(parts) && parts.0@ == input@.subrange(i, input@.len() as int)
                    && parts.1@ == input@.subrange(0, i)
            },
            None => r matches Ok(parts) && parts.0@.len() == 0 && parts.1@ == input@,
        },
{
    proof {
        reveal_strlit("[[");
        assert("[["@ =~= link_open());
    }
    let slen = input.unicode_len();
    match find_unescaped_str(input, "[[", 0) {
        Some(i) => {
            if i == 0 {
                Err(ParsingError::Parsing(input))
            } else {
                let rest = input.substring_char(i, slen);
                let text = input.substring_char(0, i);
                Ok((rest, text))
            }
        },
        None => {
            let rest = input.substring_char(slen, slen);
            Ok((rest, input))
        },
    }
}

/// Where a balanced block that opened just before position `i` with nesting
/// depth `depth` closes: the position right after the closing character that
/// brings the depth to zero. A backslash and the character after it form an
/// atomic unit that never affects the depth. `None` when the input ends
/// before the depth returns to zero, including when a trailing backslash has
/// no character after it.
pub open spec fn delim_end(s: Seq<char>, open: char, close: char, i: int, depth: int) -> Option<
    int,
>
    decreases s.len() - i,
{
    if i < 0 || i >= s.len() {
        None
    } else if s[i] == '\\' {
        if i + 1 < s.len() {
            delim_end(s, open, close, i + 2, depth)
        } else {
            None
        }
    } else if s[i] == open {
        delim_end(s, open, close, i + 1, depth + 1)
    } else if s[i] == close {
        if depth == 1 {
            Some(i + 1)
        } else {
            delim_end(s, open, close, i + 1, depth - 1)
        }
    } else {
        delim_end(s, open, close, i + 1, depth)
    }
}

/// What `take_delimited_greedy` consumes: the block must begin with the
/// opening character, and ends right after the closing character that
/// balances it.
pub open spec fn spec_take_delimited(s: Seq<char>, open: char, close: char) -> Option<int> {
    if s.len() >= 1 && s[0] == open {
        delim_end(s, open, close, 1, 1)
    } else {
        None
    }
}

pub(crate) fn delim_scan(s: &str, open: char, close: char, i: usize, depth: usize) -> (r: Option<
    usize,
>)
    requires
        1 <= depth <= i <= s@.len(),
    ensures
        match r {
            Some(e) => delim_end(s@, open, close, i as int, depth as int) == Some(e as int) && i
                < e <= s@.len(),
            None => delim_end(s@, open, close, i as int, depth as int) is None,
        },
    decreases s@.len() - i,
{
    let len = s.unicode_len();
    if i >= len {
        return None;
    }
    let c = s.get_char(i);
    if c == '\\' {
        if i + 1 < len {
            delim_scan(s, open, close, i + 2, depth)
        } else {
            None
        }
    } else if c == open {
        delim_scan(s, open, close, i + 1, depth + 1)
    } else if c == close {
        if depth == 1 {
            Some(i + 1)
        } else {
            delim_scan(s, open, close, i + 1, depth - 1)
        }
    } else {
        delim_scan(s, open, close, i + 1, depth)
    }
}

/// Extract a block delimited by `opening_char` and `closing_char`, honoring
/// nested and backslash-escaped delimiters. The input must begin with the
/// opening character. Returns the remainder and the consumed block, both
/// delimiters included; fails when the block never closes.
pub fn take_delimited_greedy<'a>(
    opening_char: char,
    closing_char: char,
    input: &'a str,
) -> (r: Result<(&'a str, &'a str), ParsingError<&'a str>>)
    ensures
        match spec_take_delimited(input@, opening_char, closing_char) {
            Some(e) => r matches Ok(parts) && parts.0@ == input@.subrange(
                e,
                input@.len() as int,
            ) && parts.1@ == input@.subrange(0, e),
            None => r matches Err(ParsingError::Parsing(rem)) && rem@ == input@,
        },
{
    let len = input.unicode_len();
    if len == 0 || input.get_char(0) != opening_char {
        return Err(ParsingError::Parsing(input));
    }
    match delim_scan(input, opening_char, closing_char, 1, 1) {
        Some(e) => {
            let rest = input.substring_char(e, len);
            let taken = input.substring_char(0, e);
            Ok((rest, taken))
        },
        None => Err(ParsingError::Parsing(input)),
    }
}

/// Whether two spans hold the same characters.
pub(crate) fn str_eq(a: &str, b: &str) -> (r: bool)
    ensures
        r == (a@ == b@),
{
    let al = a.unicode_len();
    let bl = b.unicode_len();
    if al != bl {
        return false;
    }
    let mut j: usize = 0;
    while j < al
        invariant
            al == a@.len(),
            bl == b@.len(),
            al == bl,
            0 <= j <= al,
            forall|k: int| 0 <= k < j ==> a@[k] == b@[k],
        decreases al - j,
    {
        if a.get_char(j) != b.get_char(j) {
            return false;
        }
        j = j + 1;
    }
    proof {
        assert(a@ =~= b@);
    }
    true
}

} // verus!
