//! The `{…}` metadata block of a passage header or a `StoryData` body.

use vstd::prelude::*;

use crate::error::ParsingError;
use crate::utils::{delim_end, spec_take_delimited, take_delimited_greedy};
use crate::Metadata;

verus! {

/// Where a balanced `{…}` block starting at `i` ends (the position right
/// after its closing brace), if one starts there and closes.
pub open spec fn metadata_end(s: Seq<char>, i: int) -> Option<int> {
    if 0 <= i < s.len() && s[i] == '{' {
        delim_end(s, '{', '}', i + 1, 1)
    } else {
        None
    }
}

/// Find the end of a `{…}` block starting at `i`, by characters.
pub(crate) fn metadata_end_at(s: &str, i: usize) -> (r: Option<usize>)
    requires
        i <= s@.len(),
    ensures
        match r {
            Some(e) => metadata_end(s@, i as int) == Some(e as int) && i < e <= s@.len(),
            None => metadata_end(s@, i as int) is None,
        },
{
    let len = s.unicode_len();
    if i >= len || s.get_char(i) != '{' {
        return None;
    }
    crate::utils::delim_scan(s, '{', '}', i + 1, 1)
}

/// Parse a leading metadata block, returning the remainder and the raw block,
/// braces included.
pub fn parse_metadata(input: &str) -> (r: Result<(&str, Metadata<&str>), ParsingError<&str>>)
    ensures
        match spec_take_delimited(input@, '{', '}') {
            Some(e) => r matches Ok(p) && p.0@ == input@.subrange(e, input@.len() as int)
                && p.1.content@ == input@.subrange(0, e),
            None => r matches Err(ParsingError::Parsing(rem)) && rem@ == input@,
        },
{
    match take_delimited_greedy('{', '}', input) {
        Ok((rest, content)) => Ok((rest, Metadata::new(content))),
        Err(e) => Err(e),
    }
}

} // verus!
