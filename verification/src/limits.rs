//! Limits that bound the work the front end does on one source file.

use vstd::prelude::*;

verus! {

/// Limits applied by the lexer and the parser
#[derive(Debug, Clone, Copy, PartialEq, Eq, Structural)]
pub struct CompilerLimits {
    /// Largest number of tokens a source file may produce
    pub max_tokens: usize,
    /// Deepest nesting of expressions and blocks the parser accepts
    pub max_nesting_depth: usize,
}

impl CompilerLimits {
    /// The limits used when none are given
    pub fn default_limits() -> (r: Self)
        ensures
            r.max_tokens == 1_000_000,
            r.max_nesting_depth == 256,
    {
        CompilerLimits { max_tokens: 1_000_000, max_nesting_depth: 256 }
    }
}

impl Default for CompilerLimits {
    fn default() -> (r: Self)
        ensures
            r.max_tokens == 1_000_000,
            r.max_nesting_depth == 256,
    {
        Self::default_limits()
    }
}

} // verus!
