use vstd::prelude::*;
use crate::error::GrammarError;
use crate::symbol::Symbol;

verus! {

/// One alternative of a rule: a non-empty list of symbols.
#[derive(Debug)]
pub struct Production {
    symbols: Vec<Symbol>,
}

/// The texts of a list of symbols, in order.
pub open spec fn symbol_texts(symbols: Seq<Symbol>) -> Seq<Seq<char>> {
    Seq::new(symbols.len(), |i: int| symbols[i]@)
}

impl View for Production {
    type V = Seq<Seq<char>>;

    closed spec fn view(&self) -> Seq<Seq<char>> {
        symbol_texts(self.symbols@)
    }
}

impl Production {
    #[verifier::type_invariant]
    spec fn nonempty(&self) -> bool {
        self.symbols@.len() > 0
    }

    /// Builds an alternative; an empty list of symbols is refused.
    pub fn new(symbols: Vec<Symbol>) -> (res: Result<Production, GrammarError>)
        ensures
            symbols@.len() == 0 ==> res == Err::<Production, GrammarError>(
                GrammarError::InvalidProduction,
            ),
            symbols@.len() > 0 ==> res is Ok && res->Ok_0@ == symbol_texts(symbols@),
    {
        if symbols.len() == 0 {
            return Err(GrammarError::InvalidProduction);
        }
        Ok(Production { symbols })
    }

    /// The symbols, in order.
    pub fn symbols(&self) -> (res: &Vec<Symbol>)
        ensures
            symbol_texts(res@) == self@,
            res@.len() > 0,
    {
        proof {
            use_type_invariant(self);
        }
        &self.symbols
    }

    /// The symbol that the alternative begins with.
    pub fn first_symbol(&self) -> (res: &Symbol)
        ensures
            self@.len() > 0,
            res@ == self@[0],
    {
        proof {
            use_type_invariant(self);
        }
        &self.symbols[0]
    }
}

} // verus!
