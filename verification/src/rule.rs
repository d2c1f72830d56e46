use vstd::prelude::*;
use crate::error::GrammarError;
use crate::model::{RuleView, begins_with, directly_recursive, is_nonterminal};
use crate::production::Production;
use crate::symbol::Symbol;

verus! {

/// A non-terminal together with its alternatives, of which there is at
/// least one.
#[derive(Debug)]
pub struct Rule {
    symbol: Symbol,
    derivations: Vec<Production>,
}

/// The values of a list of alternatives, in order.
pub open spec fn production_views(productions: Seq<Production>) -> Seq<Seq<Seq<char>>> {
    Seq::new(productions.len(), |k: int| productions[k]@)
}

impl View for Rule {
    type V = RuleView;

    closed spec fn view(&self) -> RuleView {
        RuleView { symbol: self.symbol@, derivations: production_views(self.derivations@) }
    }
}

impl Rule {
    #[verifier::type_invariant]
    spec fn well_formed(&self) -> bool {
        is_nonterminal(self.symbol@) && self.derivations@.len() > 0
    }

    /// Builds a rule for the non-terminal `symbol`. A left-hand side that is
    /// empty is refused as a symbol; one that is terminal, or an empty list
    /// of alternatives, is refused as a rule.
    pub fn new(symbol: &str, productions: Vec<Production>) -> (res: Result<Rule, GrammarError>)
        ensures
            symbol@.len() == 0 ==> res == Err::<Rule, GrammarError>(GrammarError::InvalidSymbol),
            symbol@.len() > 0 && (!is_nonterminal(symbol@) || productions@.len() == 0) ==> res
                == Err::<Rule, GrammarError>(GrammarError::InvalidRule),
            is_nonterminal(symbol@) && productions@.len() > 0 ==> res is Ok && res->Ok_0@ == (
            RuleView { symbol: symbol@, derivations: production_views(productions@) }),
    {
        let lhs_symbol = match Symbol::new(symbol) {
            Ok(s) => s,
            Err(e) => {
                return Err(e);
            },
        };
        if lhs_symbol.is_terminal() {
            return Err(GrammarError::InvalidRule);
        }
        if productions.len() == 0 {
            return Err(GrammarError::InvalidRule);
        }
        Ok(Rule { symbol: lhs_symbol, derivations: productions })
    }

    /// The left-hand side.
    pub fn symbol(&self) -> (res: &Symbol)
        ensures
            res@ == self@.symbol,
            is_nonterminal(res@),
    {
        proof {
            use_type_invariant(self);
        }
        &self.symbol
    }

    /// The alternatives, in order.
    pub fn derivations(&self) -> (res: &Vec<Production>)
        ensures
            production_views(res@) == self@.derivations,
            res@.len() > 0,
    {
        proof {
            use_type_invariant(self);
        }
        &self.derivations
    }

    /// Whether some alternative begins with the rule's own left-hand side.
    pub fn has_direct_left_recursion(&self) -> (res: bool)
        ensures
            res == directly_recursive(self@),
    {
        let mut k: usize = 0;
        while k < self.derivations.len()
            invariant
                k <= self.derivations@.len(),
                forall|j: int| 0 <= j < k ==> !begins_with(self@, j, self@.symbol),
            decreases self.derivations@.len() - k,
        {
            let first = self.derivations[k].first_symbol();
            if first.same_text(&self.symbol) {
                assert(begins_with(self@, k as int, self@.symbol));
                return true;
            }
            k += 1;
        }
        false
    }
}

} // verus!
