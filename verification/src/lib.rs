//! Context-free grammars and the detection of left recursion in them.
//!
//! A grammar is a list of rules; a rule pairs a non-terminal with one or
//! more alternatives; an alternative is a non-empty list of symbols. The
//! analysis follows the first symbol of every alternative and reports
//! whether some non-terminal can come back to itself that way.

pub mod error;
pub mod symbol;
pub mod production;
pub mod rule;
pub mod model;
pub mod search;
pub mod grammar;
pub mod laws;
pub mod render;
