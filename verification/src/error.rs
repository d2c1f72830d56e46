use vstd::prelude::*;

verus! {

/// Why a grammar value could not be built or analysed.
#[derive(Debug, Clone, Copy, PartialEq, Eq, Structural)]
pub enum GrammarError {
    /// A symbol was given an empty text.
    InvalidSymbol,
    /// An alternative was given no symbols.
    InvalidProduction,
    /// A rule was given a terminal left-hand side, or no alternatives.
    InvalidRule,
    /// A non-terminal is used but no rule defines it.
    UndefinedNonTerminal,
}

} // verus!
