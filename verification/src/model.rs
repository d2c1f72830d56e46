use vstd::prelude::*;
use crate::error::GrammarError;

verus! {

/// The mathematical value of a rule: the text of its left-hand side and,
/// for each alternative, the texts of its symbols in order.
pub struct RuleView {
    pub symbol: Seq<char>,
    pub derivations: Seq<Seq<Seq<char>>>,
}

/// A text names a non-terminal when it starts with `<`.
pub open spec fn is_nonterminal(text: Seq<char>) -> bool {
    text.len() > 0 && text[0] == '<'
}

/// Rule `i` is the first rule whose left-hand side is `text`: the one that a
/// lookup of `text` finds.
pub open spec fn defines(rules: Seq<RuleView>, i: int, text: Seq<char>) -> bool {
    &&& 0 <= i < rules.len()
    &&& rules[i].symbol == text
    &&& forall|j: int| 0 <= j < i ==> (#[trigger] rules[j]).symbol != text
}

/// `text` names a non-terminal that no rule defines.
pub open spec fn is_undefined(rules: Seq<RuleView>, text: Seq<char>) -> bool {
    &&& is_nonterminal(text)
    &&& forall|i: int| 0 <= i < rules.len() ==> (#[trigger] rules[i]).symbol != text
}

/// Alternative `k` of the rule begins with `text`.
pub open spec fn begins_with(rule: RuleView, k: int, text: Seq<char>) -> bool {
    &&& 0 <= k < rule.derivations.len()
    &&& rule.derivations[k].len() > 0
    &&& rule.derivations[k][0] == text
}

/// Some alternative of the rule begins with `text`.
pub open spec fn leads_with(rule: RuleView, text: Seq<char>) -> bool {
    exists|k: int| #[trigger] begins_with(rule, k, text)
}

/// One leftmost expansion: `from` is a defined non-terminal and one of the
/// alternatives of its rule begins with `to`.
pub open spec fn leftmost_step(rules: Seq<RuleView>, from: Seq<char>, to: Seq<char>) -> bool {
    is_nonterminal(from) && exists|i: int| #[trigger]
        defines(rules, i, from) && leads_with(rules[i], to)
}

/// `path` is a sequence of one or more leftmost expansions.
pub open spec fn is_chain(rules: Seq<RuleView>, path: Seq<Seq<char>>) -> bool {
    &&& path.len() >= 2
    &&& forall|n: int|
        0 <= n < path.len() - 1 ==> leftmost_step(rules, #[trigger] path[n], path[n + 1])
}

/// `target` is reached from `start` by one or more leftmost expansions.
pub open spec fn derives(rules: Seq<RuleView>, start: Seq<char>, target: Seq<char>) -> bool {
    exists|path: Seq<Seq<char>>|
        #[trigger] is_chain(rules, path) && path[0] == start && path[path.len() - 1] == target
}

/// `text` is an undefined non-terminal that is `start` itself or is reached
/// from `start`.
pub open spec fn dangles_at(rules: Seq<RuleView>, start: Seq<char>, text: Seq<char>) -> bool {
    is_undefined(rules, text) && (text == start || derives(rules, start, text))
}

/// Expanding from `start` runs into a non-terminal that no rule defines.
pub open spec fn reaches_undefined(rules: Seq<RuleView>, start: Seq<char>) -> bool {
    exists|text: Seq<char>| #[trigger] dangles_at(rules, start, text)
}

/// The answer to "does `start` derive `target`": yes wherever a chain of
/// leftmost expansions leads there; otherwise an error where the search
/// meets an undefined non-terminal; otherwise no.
pub open spec fn derivation_outcome(
    rules: Seq<RuleView>,
    start: Seq<char>,
    target: Seq<char>,
) -> Result<bool, GrammarError> {
    if derives(rules, start, target) {
        Ok(true)
    } else if reaches_undefined(rules, start) {
        Err(GrammarError::UndefinedNonTerminal)
    } else {
        Ok(false)
    }
}

/// Some alternative of the rule begins with the rule's own left-hand side.
pub open spec fn directly_recursive(rule: RuleView) -> bool {
    leads_with(rule, rule.symbol)
}

/// Rule `i` can come back to its own left-hand side by leftmost expansions.
pub open spec fn rule_cycles(rules: Seq<RuleView>, i: int) -> bool {
    0 <= i < rules.len() && derives(rules, rules[i].symbol, rules[i].symbol)
}

/// Expanding from the left-hand side of rule `i` meets an undefined
/// non-terminal.
pub open spec fn rule_dangles(rules: Seq<RuleView>, i: int) -> bool {
    0 <= i < rules.len() && reaches_undefined(rules, rules[i].symbol)
}

/// Rule `i` is directly left-recursive.
pub open spec fn rule_recurs(rules: Seq<RuleView>, i: int) -> bool {
    0 <= i < rules.len() && directly_recursive(rules[i])
}

/// The answer to "is the grammar indirectly left-recursive": yes wherever a
/// rule cycles; otherwise an error where the search from some rule meets an
/// undefined non-terminal; otherwise no.
pub open spec fn indirect_outcome(rules: Seq<RuleView>) -> Result<bool, GrammarError> {
    if exists|i: int| #[trigger] rule_cycles(rules, i) {
        Ok(true)
    } else if exists|i: int| #[trigger] rule_dangles(rules, i) {
        Err(GrammarError::UndefinedNonTerminal)
    } else {
        Ok(false)
    }
}

/// The answer to "is the grammar left-recursive": yes wherever a rule is
/// directly left-recursive, and otherwise the answer for indirect recursion.
pub open spec fn recursion_outcome(rules: Seq<RuleView>) -> Result<bool, GrammarError> {
    if exists|i: int| #[trigger] rule_recurs(rules, i) {
        Ok(true)
    } else {
        indirect_outcome(rules)
    }
}

} // verus!
