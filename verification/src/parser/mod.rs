//! Parsers for headers, metadata, passages, and whole documents.

use vstd::prelude::*;

use crate::error::ParsingError;
use crate::Story;

pub mod metadata;
pub mod passage;
pub mod story;

verus! {

impl Story {
    /// Parse a document into a story: the entry point for callers. Fails on
    /// any grammar violation, carrying the remaining input.
    pub fn try_from(value: &str) -> (r: Result<Story, ParsingError<&str>>)
        ensures
            match crate::parser::story::spec_parse_story(value@) {
                Some(model) => r matches Ok(st) && crate::story_wf(st) && st.content@ == value@
                    && crate::story_model(st) == model,
                None => r matches Err(ParsingError::Parsing(rem)) && rem@ == value@.subrange(
                    crate::parser::story::story_fail_pos(value@, 0),
                    value@.len() as int,
                ),
            },
    {
        match crate::parser::story::parse_story(value) {
            Ok((_, st)) => Ok(st),
            Err(e) => Err(e),
        }
    }
}

} // verus!
