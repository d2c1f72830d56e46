use vstd::prelude::*;
use vstd::string::*;
use crate::error::GrammarError;
use crate::model::is_nonterminal;

verus! {

/// One element of a grammar's vocabulary. Its text is never empty, and two
/// symbols with the same text are the same symbol.
#[derive(Debug)]
pub struct Symbol {
    text: String,
}

impl View for Symbol {
    type V = Seq<char>;

    closed spec fn view(&self) -> Seq<char> {
        self.text@
    }
}

impl Symbol {
    #[verifier::type_invariant]
    spec fn nonempty(&self) -> bool {
        self.text@.len() > 0
    }

    /// Builds a symbol; an empty text is refused.
    pub fn new(text: &str) -> (res: Result<Symbol, GrammarError>)
        ensures
            text@.len() == 0 ==> res == Err::<Symbol, GrammarError>(GrammarError::InvalidSymbol),
            text@.len() > 0 ==> res is Ok && res->Ok_0@ == text@,
    {
        if text.is_empty() {
            return Err(GrammarError::InvalidSymbol);
        }
        Ok(Symbol { text: String::from_str(text) })
    }

    /// The symbol's text.
    pub fn text(&self) -> (res: &str)
        ensures
            res@ == self@,
            res@.len() > 0,
    {
        proof {
            use_type_invariant(self);
        }
        self.text.as_str()
    }

    /// A symbol is terminal unless its text starts with `<`.
    pub fn is_terminal(&self) -> (res: bool)
        ensures
            self@.len() > 0,
            res == (self@[0] != '<'),
            res == !is_nonterminal(self@),
    {
        proof {
            use_type_invariant(self);
        }
        self.text.as_str().get_char(0) != '<'
    }

    /// Whether two symbols have the same text.
    pub fn same_text(&self, other: &Symbol) -> (res: bool)
        ensures
            res == (self@ == other@),
    {
        self.text == other.text
    }
}

} // verus!
