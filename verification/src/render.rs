use vstd::prelude::*;
use vstd::string::*;
use vstd::utf8::encode_utf8;
use crate::grammar::{Grammar, rule_views};
use crate::model::RuleView;
use crate::production::{Production, symbol_texts};
use crate::rule::{Rule, production_views};

verus! {

/// The texts of the first `upto` symbols, one after the other.
pub open spec fn production_text(symbols: Seq<Seq<char>>, upto: nat) -> Seq<char>
    decreases upto,
{
    if upto == 0 {
        Seq::empty()
    } else {
        production_text(symbols, (upto - 1) as nat) + symbols[upto - 1]
    }
}

/// What follows alternative `k` of `count`: the word that joins it to the
/// next one, and nothing after the last.
pub open spec fn joiner(k: int, count: int) -> Seq<char> {
    if k + 1 < count {
        " or "@
    } else {
        Seq::empty()
    }
}

/// The first `upto` alternatives, joined by ` or `.
pub open spec fn alternatives_text(alternatives: Seq<Seq<Seq<char>>>, upto: nat) -> Seq<char>
    decreases upto,
{
    if upto == 0 {
        Seq::empty()
    } else {
        alternatives_text(alternatives, (upto - 1) as nat) + production_text(
            alternatives[upto - 1],
            alternatives[upto - 1].len(),
        ) + joiner(upto - 1, alternatives.len() as int)
    }
}

/// The width of a text: the number of bytes of its UTF-8 form, as a
/// machine word holds it.
pub open spec fn text_width(text: Seq<char>) -> nat {
    (encode_utf8(text).len() as usize) as nat
}

/// The greatest width among the left-hand sides of the first `upto` rules.
pub open spec fn widest_head(rules: Seq<RuleView>, upto: nat) -> nat
    decreases upto,
{
    if upto == 0 {
        0
    } else {
        let rest = widest_head(rules, (upto - 1) as nat);
        let this = text_width(rules[upto - 1].symbol);
        if this > rest {
            this
        } else {
            rest
        }
    }
}

/// `count` spaces.
pub open spec fn spaces(count: nat) -> Seq<char> {
    Seq::new(count, |i: int| ' ')
}

/// One line for a rule: its left-hand side, padded to `width` and by one
/// space more, then `:= `, its alternatives and a newline.
pub open spec fn rule_line(rule: RuleView, width: nat) -> Seq<char> {
    rule.symbol + spaces((width - text_width(rule.symbol) + 1) as nat) + ":= "@
        + alternatives_text(rule.derivations, rule.derivations.len()) + "\n"@
}

/// The lines of the first `upto` rules, each padded to `width`.
pub open spec fn grammar_text(rules: Seq<RuleView>, width: nat, upto: nat) -> Seq<char>
    decreases upto,
{
    if upto == 0 {
        Seq::empty()
    } else {
        grammar_text(rules, width, (upto - 1) as nat) + rule_line(rules[upto - 1], width)
    }
}

/// No left-hand side among the first `upto` rules is wider than the widest.
pub proof fn lemma_widest_bounds(rules: Seq<RuleView>, upto: nat, j: int)
    requires
        0 <= j < upto,
    ensures
        text_width(rules[j].symbol) <= widest_head(rules, upto),
    decreases upto,
{
    if j < upto - 1 {
        lemma_widest_bounds(rules, (upto - 1) as nat, j);
    }
}

impl Production {
    /// The alternative as text: its symbols, one after the other.
    pub fn display(&self) -> (res: String)
        ensures
            res@ == production_text(self@, self@.len()),
    {
        let symbols = self.symbols();
        let mut result = String::new();
        let mut i: usize = 0;
        while i < symbols.len()
            invariant
                i <= symbols@.len(),
                symbol_texts(symbols@) == self@,
                result@ == production_text(self@, i as nat),
            decreases symbols@.len() - i,
        {
            result.append(symbols[i].text());
            i += 1;
        }
        result
    }
}

impl Rule {
    /// The alternatives as text, joined by ` or `.
    pub fn display_derivations(&self) -> (res: String)
        ensures
            res@ == alternatives_text(self@.derivations, self@.derivations.len()),
    {
        let alternatives = self.derivations();
        let count: usize = alternatives.len();
        let mut result = String::new();
        let mut k: usize = 0;
        while k < count
            invariant
                k <= count,
                count == alternatives@.len(),
                production_views(alternatives@) == self@.derivations,
                result@ == alternatives_text(self@.derivations, k as nat),
            decreases count - k,
        {
            let part = alternatives[k].display();
            result.append(part.as_str());
            if k < count - 1 {
                result.append(" or ");
            }
            assert(result@ =~= alternatives_text(self@.derivations, k as nat) + production_text(
                self@.derivations[k as int],
                self@.derivations[k as int].len(),
            ) + joiner(k as int, count as int));
            k += 1;
        }
        result
    }
}

impl Grammar {
    /// The greatest width among the left-hand sides, 0 for no rules.
    pub fn widest_symbol(&self) -> (res: usize)
        ensures
            res == widest_head(self@, self@.len()),
    {
        let rules = self.rules();
        let mut widest: usize = 0;
        let mut i: usize = 0;
        while i < rules.len()
            invariant
                i <= rules@.len(),
                rule_views(rules@) == self@,
                widest == widest_head(self@, i as nat),
            decreases rules@.len() - i,
        {
            let width: usize = rules[i].symbol().text().len();
            if width > widest {
                widest = width;
            }
            i += 1;
        }
        widest
    }

    /// The grammar as text, one line for each rule, with the `:=` of all
    /// lines in one column.
    pub fn display(&self) -> (res: String)
        ensures
            res@ == grammar_text(self@, widest_head(self@, self@.len()), self@.len()),
    {
        let rules = self.rules();
        let widest: usize = self.widest_symbol();
        let mut result = String::new();
        let mut i: usize = 0;
        while i < rules.len()
            invariant
                i <= rules@.len(),
                rule_views(rules@) == self@,
                widest == widest_head(self@, self@.len()),
                result@ == grammar_text(self@, widest as nat, i as nat),
            decreases rules@.len() - i,
        {
            let rule = &rules[i];
            let head = rule.symbol().text();
            let width: usize = head.len();
            let ghost before = result@;
            result.append(head);
            result.append(" ");
            let mut pad: usize = 0;
            proof {
                reveal_strlit(" ");
                assert(result@ =~= before + self@[i as int].symbol + spaces(1));
                lemma_widest_bounds(self@, self@.len(), i as int);
            }
            while pad < widest - width
                invariant
                    i < self@.len(),
                    width <= widest,
                    pad <= widest - width,
                    result@ == before + self@[i as int].symbol + spaces((pad + 1) as nat),
                decreases widest - pad,
            {
                result.append(" ");
                proof {
                    reveal_strlit(" ");
                    assert(spaces((pad + 1) as nat) + " "@ =~= spaces((pad + 2) as nat));
                }
                pad += 1;
            }
            result.append(":= ");
            let tail = rule.display_derivations();
            result.append(tail.as_str());
            result.append("\n");
            assert(result@ =~= before + rule_line(self@[i as int], widest as nat));
            i += 1;
        }
        result
    }
}

} // verus!
