//! Parsing entry point for callers that process a whole source unit.

use crate::lang::{error_matches, parse_source, tree_matches, ParseNode, SyntaxError};
use vstd::prelude::*;

verus! {

/// Parses one source unit with the whole-file rule and hands the parse
/// tree on for further processing.
pub fn parse_and_process(source: &str) -> (r: Result<ParseNode, SyntaxError>)
    ensures
        match r {
            Ok(tree) => tree_matches(tree, source@),
            Err(e) => error_matches(e, source@),
        },
{
    let pairs = match parse_source(source) {
        Ok(pairs) => pairs,
        Err(e) => {
            return Err(e);
        },
    };
    Ok(pairs)
}

} // verus!
