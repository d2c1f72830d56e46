use vstd::prelude::*;
use crate::error::GrammarError;
use crate::model::{
    RuleView, begins_with, dangles_at, defines, derivation_outcome, derives, directly_recursive,
    indirect_outcome, is_chain, is_nonterminal, is_undefined, leads_with, leftmost_step,
    reaches_undefined, recursion_outcome, rule_cycles, rule_recurs,
};
use crate::search::{lemma_step_extends, lemma_stuck};

verus! {

/// Every left-hand side names a non-terminal.
pub open spec fn heads_are_nonterminal(rules: Seq<RuleView>) -> bool {
    forall|i: int| 0 <= i < rules.len() ==> is_nonterminal((#[trigger] rules[i]).symbol)
}

/// No two rules share a left-hand side.
pub open spec fn heads_are_distinct(rules: Seq<RuleView>) -> bool {
    forall|i: int, j: int|
        0 <= i < j < rules.len() ==> (#[trigger] rules[i]).symbol != (#[trigger] rules[j]).symbol
}

/// A terminal derives nothing: asked from a terminal, the answer is no,
/// whatever the grammar and the target.
pub proof fn terminal_derives_nothing(rules: Seq<RuleView>, start: Seq<char>, target: Seq<char>)
    requires
        !is_nonterminal(start),
    ensures
        derivation_outcome(rules, start, target) == Ok::<bool, GrammarError>(false),
{
    lemma_stuck(rules, start, target);
    assert forall|text: Seq<char>| !#[trigger] dangles_at(rules, start, text) by {
        lemma_stuck(rules, start, text);
    }
}

/// Asked from a non-terminal that no rule defines, the answer is the error
/// for an undefined non-terminal, whatever the target.
pub proof fn undefined_start_is_reported(
    rules: Seq<RuleView>,
    start: Seq<char>,
    target: Seq<char>,
)
    requires
        is_undefined(rules, start),
    ensures
        derivation_outcome(rules, start, target) == Err::<bool, GrammarError>(
            GrammarError::UndefinedNonTerminal,
        ),
{
    lemma_stuck(rules, start, target);
    assert(dangles_at(rules, start, start));
}

/// Where the first symbol of an alternative of a defined non-terminal has no
/// rule and the target is not derived, the answer is the error for an
/// undefined non-terminal.
pub proof fn undefined_leftmost_symbol_is_reported(
    rules: Seq<RuleView>,
    start: Seq<char>,
    target: Seq<char>,
    text: Seq<char>,
)
    requires
        leftmost_step(rules, start, text),
        is_undefined(rules, text),
        !derives(rules, start, target),
    ensures
        derivation_outcome(rules, start, target) == Err::<bool, GrammarError>(
            GrammarError::UndefinedNonTerminal,
        ),
{
    lemma_step_extends(rules, start, start, text);
    assert(dangles_at(rules, start, text));
}

/// Derivation is transitive: what is derived from something derived from
/// `a` is derived from `a`.
pub proof fn derivation_is_transitive(
    rules: Seq<RuleView>,
    a: Seq<char>,
    b: Seq<char>,
    c: Seq<char>,
)
    requires
        derives(rules, a, b),
        derives(rules, b, c),
    ensures
        derives(rules, a, c),
{
    let p = choose|p: Seq<Seq<char>>|
        #[trigger] is_chain(rules, p) && p[0] == a && p[p.len() - 1] == b;
    let q = choose|q: Seq<Seq<char>>|
        #[trigger] is_chain(rules, q) && q[0] == b && q[q.len() - 1] == c;
    let path = p + q.subrange(1, q.len() as int);
    assert forall|n: int| 0 <= n < path.len() - 1 implies leftmost_step(
        rules,
        #[trigger] path[n],
        path[n + 1],
    ) by {
        if n < p.len() - 1 {
            assert(leftmost_step(rules, p[n], p[n + 1]));
        } else {
            let m = n - p.len() + 1;
            assert(leftmost_step(rules, q[m], q[m + 1]));
        }
    }
    assert(is_chain(rules, path));
    assert(path[0] == a && path[path.len() - 1] == c);
}

/// One leftmost expansion from `from` leads to `mid`, which is `target` or
/// derives it.
pub open spec fn steps_towards(
    rules: Seq<RuleView>,
    from: Seq<char>,
    mid: Seq<char>,
    target: Seq<char>,
) -> bool {
    leftmost_step(rules, from, mid) && (mid == target || derives(rules, mid, target))
}

/// `start` derives `target` exactly when some alternative of its rule
/// begins with `target` or with something that derives `target`.
pub proof fn derivation_unfolds(rules: Seq<RuleView>, start: Seq<char>, target: Seq<char>)
    ensures
        derives(rules, start, target) <==> exists|mid: Seq<char>| #[trigger]
            steps_towards(rules, start, mid, target),
{
    if derives(rules, start, target) {
        let p = choose|p: Seq<Seq<char>>|
            #[trigger] is_chain(rules, p) && p[0] == start && p[p.len() - 1] == target;
        assert(leftmost_step(rules, p[0], p[0int + 1]));
        if p.len() > 2 {
            let q = p.subrange(1, p.len() as int);
            assert forall|n: int| 0 <= n < q.len() - 1 implies leftmost_step(
                rules,
                #[trigger] q[n],
                q[n + 1],
            ) by {
                assert(leftmost_step(rules, p[n + 1], p[n + 1 + 1]));
            }
            assert(is_chain(rules, q));
            assert(q[0] == p[1] && q[q.len() - 1] == target);
        }
        assert(steps_towards(rules, start, p[1], target));
    }
    if exists|mid: Seq<char>| #[trigger] steps_towards(rules, start, mid, target) {
        let mid = choose|mid: Seq<char>| #[trigger] steps_towards(rules, start, mid, target);
        lemma_step_extends(rules, start, start, mid);
        if mid != target {
            derivation_is_transitive(rules, start, mid, target);
        }
    }
}

/// A directly left-recursive rule, where it is the rule that a lookup of
/// its left-hand side finds, derives its own left-hand side in one step.
pub proof fn direct_recursion_is_a_cycle(rules: Seq<RuleView>, i: int)
    requires
        defines(rules, i, rules[i].symbol),
        is_nonterminal(rules[i].symbol),
        directly_recursive(rules[i]),
    ensures
        derives(rules, rules[i].symbol, rules[i].symbol),
        derivation_outcome(rules, rules[i].symbol, rules[i].symbol) == Ok::<bool, GrammarError>(
            true,
        ),
{
    let head = rules[i].symbol;
    assert(leftmost_step(rules, head, head));
    lemma_step_extends(rules, head, head, head);
}

/// In a grammar whose left-hand sides are distinct non-terminals the search
/// for cycles alone gives the answer on left recursion: a directly recursive
/// rule is a cycle of one step.
pub proof fn cycles_subsume_direct_recursion(rules: Seq<RuleView>)
    requires
        heads_are_nonterminal(rules),
        heads_are_distinct(rules),
    ensures
        recursion_outcome(rules) == indirect_outcome(rules),
{
    if exists|i: int| #[trigger] rule_recurs(rules, i) {
        let i = choose|i: int| #[trigger] rule_recurs(rules, i);
        assert(defines(rules, i, rules[i].symbol));
        direct_recursion_is_a_cycle(rules, i);
        assert(rule_cycles(rules, i));
    }
}

/// A grammar in which no alternative begins with a non-terminal has no left
/// recursion, and the analysis says so without an error.
pub proof fn terminal_leading_grammar_is_free(rules: Seq<RuleView>)
    requires
        forall|i: int, k: int, text: Seq<char>|
            0 <= i < rules.len() && #[trigger] begins_with(rules[i], k, text) ==> !is_nonterminal(
                text,
            ),
        heads_are_nonterminal(rules),
    ensures
        recursion_outcome(rules) == Ok::<bool, GrammarError>(false),
{
    assert forall|i: int| !#[trigger] rule_recurs(rules, i) by {
        if rule_recurs(rules, i) {
            let k = choose|k: int| #[trigger] begins_with(rules[i], k, rules[i].symbol);
        }
    }
    assert forall|a: Seq<char>, b: Seq<char>| is_nonterminal(b) implies !#[trigger] derives(
        rules,
        a,
        b,
    ) by {
        if derives(rules, a, b) {
            let p = choose|p: Seq<Seq<char>>|
                #[trigger] is_chain(rules, p) && p[0] == a && p[p.len() - 1] == b;
            let n = p.len() - 2;
            assert(leftmost_step(rules, p[n], p[n + 1]));
            let i = choose|i: int| #[trigger]
                defines(rules, i, p[n]) && leads_with(rules[i], p[n + 1]);
            let k = choose|k: int| #[trigger] begins_with(rules[i], k, p[n + 1]);
        }
    }
    assert forall|i: int| 0 <= i < rules.len() implies !reaches_undefined(
        rules,
        (#[trigger] rules[i]).symbol,
    ) by {
        assert forall|text: Seq<char>| !#[trigger] dangles_at(rules, rules[i].symbol, text) by {}
    }
}

} // verus!
