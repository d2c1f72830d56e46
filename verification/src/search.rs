use vstd::prelude::*;
use crate::model::{
    RuleView, begins_with, defines, derives, is_chain, is_nonterminal, is_undefined, leads_with,
    leftmost_step,
};

verus! {

/// How many entries of `flags` are false.
pub(crate) open spec fn unset_count(flags: Seq<bool>) -> nat
    decreases flags.len(),
{
    if flags.len() == 0 {
        0
    } else {
        unset_count(flags.drop_last()) + if flags.last() {
            0nat
        } else {
            1nat
        }
    }
}

/// Setting a false entry lowers the count of false entries by one.
pub(crate) proof fn lemma_set_lowers_count(flags: Seq<bool>, i: int)
    requires
        0 <= i < flags.len(),
        !flags[i],
    ensures
        unset_count(flags.update(i, true)) + 1 == unset_count(flags),
    decreases flags.len(),
{
    if i == flags.len() - 1 {
        assert(flags.update(i, true).drop_last() =~= flags.drop_last());
    } else {
        lemma_set_lowers_count(flags.drop_last(), i);
        assert(flags.update(i, true).drop_last() =~= flags.drop_last().update(i, true));
    }
}

/// Every entry set in `before` is set in `after`.
pub(crate) open spec fn grows(before: Seq<bool>, after: Seq<bool>) -> bool {
    before.len() == after.len() && forall|i: int|
        0 <= i < before.len() && before[i] ==> #[trigger] after[i]
}

/// The search has dealt with `text`: it is not the target, the rule that
/// defines it (if it names a non-terminal) is marked, and if nothing defines
/// it this has been noted.
pub(crate) open spec fn settled(
    rules: Seq<RuleView>,
    marked: Seq<bool>,
    dangling: bool,
    target: Seq<char>,
    text: Seq<char>,
) -> bool {
    &&& text != target
    &&& is_nonterminal(text) ==> forall|j: int| #[trigger] defines(rules, j, text) ==> marked[j]
    &&& is_undefined(rules, text) ==> dangling
}

/// The first symbol of alternative `k` of rule `i`, where there is one, is
/// settled.
pub(crate) open spec fn alternative_settled(
    rules: Seq<RuleView>,
    marked: Seq<bool>,
    dangling: bool,
    target: Seq<char>,
    i: int,
    k: int,
) -> bool {
    forall|text: Seq<char>| #[trigger]
        begins_with(rules[i], k, text) ==> settled(rules, marked, dangling, target, text)
}

/// Every alternative of rule `i` is settled.
pub(crate) open spec fn rule_settled(
    rules: Seq<RuleView>,
    marked: Seq<bool>,
    dangling: bool,
    target: Seq<char>,
    i: int,
) -> bool {
    forall|k: int| #[trigger] alternative_settled(rules, marked, dangling, target, i, k)
}

/// What one expansion may newly mark: rules that a lookup of their own
/// left-hand side finds, where that left-hand side is a non-terminal that an
/// alternative of rule `i` begins with.
pub(crate) open spec fn marks_lead_from(
    rules: Seq<RuleView>,
    before: Seq<bool>,
    after: Seq<bool>,
    i: int,
) -> bool {
    forall|j: int|
        0 <= j < rules.len() && #[trigger] after[j] && !before[j] ==> {
            &&& is_nonterminal(rules[j].symbol)
            &&& defines(rules, j, rules[j].symbol)
            &&& leads_with(rules[i], rules[j].symbol)
        }
}

/// An alternative of rule `i` begins with a non-terminal that no rule
/// defines.
pub(crate) open spec fn leads_astray(rules: Seq<RuleView>, i: int) -> bool {
    exists|text: Seq<char>| #[trigger] is_undefined(rules, text) && leads_with(rules[i], text)
}

/// Every alternative of every finished rule is settled.
pub(crate) open spec fn closed(
    rules: Seq<RuleView>,
    marked: Seq<bool>,
    done: Seq<bool>,
    dangling: bool,
    target: Seq<char>,
) -> bool {
    forall|i: int|
        0 <= i < rules.len() && #[trigger] done[i] ==> rule_settled(
            rules,
            marked,
            dangling,
            target,
            i,
        )
}

/// Every marked rule is the one that a lookup of its left-hand side finds,
/// and that left-hand side is a non-terminal: `start`, or one derived from
/// `start`.
pub(crate) open spec fn marks_sound(
    rules: Seq<RuleView>,
    marked: Seq<bool>,
    start: Seq<char>,
) -> bool {
    forall|i: int|
        0 <= i < rules.len() && #[trigger] marked[i] ==> {
            &&& is_nonterminal(rules[i].symbol)
            &&& defines(rules, i, rules[i].symbol)
            &&& (rules[i].symbol == start || derives(rules, start, rules[i].symbol))
        }
}

/// A chain that ends in `mid`, or `mid` being the start itself, extends by
/// one expansion.
pub(crate) proof fn lemma_step_extends(
    rules: Seq<RuleView>,
    start: Seq<char>,
    mid: Seq<char>,
    to: Seq<char>,
)
    requires
        mid == start || derives(rules, start, mid),
        leftmost_step(rules, mid, to),
    ensures
        derives(rules, start, to),
{
    if mid == start {
        let path = seq![start, to];
        assert(is_chain(rules, path));
        assert(path[0] == start && path[path.len() - 1] == to);
    } else {
        let p = choose|p: Seq<Seq<char>>|
            #[trigger] is_chain(rules, p) && p[0] == start && p[p.len() - 1] == mid;
        let path = p.push(to);
        assert forall|n: int| 0 <= n < path.len() - 1 implies leftmost_step(
            rules,
            #[trigger] path[n],
            path[n + 1],
        ) by {
            if n < p.len() - 1 {
                assert(leftmost_step(rules, p[n], p[n + 1]));
            }
        }
        assert(is_chain(rules, path));
        assert(path[0] == start && path[path.len() - 1] == to);
    }
}

/// A settled rule stays settled when more rules are marked.
pub(crate) proof fn lemma_settled_grows(
    rules: Seq<RuleView>,
    marked: Seq<bool>,
    after: Seq<bool>,
    dangling: bool,
    later: bool,
    target: Seq<char>,
    i: int,
)
    requires
        rule_settled(rules, marked, dangling, target, i),
        marked.len() == rules.len(),
        grows(marked, after),
        dangling ==> later,
    ensures
        rule_settled(rules, after, later, target, i),
{
    assert forall|k: int| #[trigger]
        alternative_settled(rules, after, later, target, i, k) by {
        assert(alternative_settled(rules, marked, dangling, target, i, k));
    }
}

/// What is closed stays closed when more rules are marked.
pub(crate) proof fn lemma_closed_grows(
    rules: Seq<RuleView>,
    marked: Seq<bool>,
    after: Seq<bool>,
    done: Seq<bool>,
    dangling: bool,
    later: bool,
    target: Seq<char>,
)
    requires
        closed(rules, marked, done, dangling, target),
        marked.len() == rules.len(),
        grows(marked, after),
        dangling ==> later,
    ensures
        closed(rules, after, done, later, target),
{
    assert forall|i: int| 0 <= i < rules.len() && #[trigger] done[i] implies rule_settled(
        rules,
        after,
        later,
        target,
        i,
    ) by {
        lemma_settled_grows(rules, marked, after, dangling, later, target, i);
    }
}

/// Marks stay sound when one expansion of a marked rule adds to them.
pub(crate) proof fn lemma_marks_stay_sound(
    rules: Seq<RuleView>,
    before: Seq<bool>,
    after: Seq<bool>,
    start: Seq<char>,
    i: int,
)
    requires
        marks_sound(rules, before, start),
        0 <= i < rules.len(),
        before[i],
        grows(before, after),
        marks_lead_from(rules, before, after, i),
    ensures
        marks_sound(rules, after, start),
{
    assert forall|j: int| 0 <= j < rules.len() && #[trigger] after[j] implies rules[j].symbol
        == start || derives(rules, start, rules[j].symbol) by {
        if !before[j] {
            lemma_step_extends(rules, start, rules[i].symbol, rules[j].symbol);
        }
    }
}

/// Once every marked rule is finished, every text on a chain from `start`
/// is settled.
pub(crate) proof fn lemma_chain_settled(
    rules: Seq<RuleView>,
    marked: Seq<bool>,
    dangling: bool,
    target: Seq<char>,
    first: int,
    path: Seq<Seq<char>>,
    m: int,
)
    requires
        marked.len() == rules.len(),
        closed(rules, marked, marked, dangling, target),
        is_chain(rules, path),
        defines(rules, first, path[0]),
        marked[first],
        1 <= m < path.len(),
    ensures
        settled(rules, marked, dangling, target, path[m]),
    decreases m,
{
    assert(leftmost_step(rules, path[m - 1], path[m - 1 + 1]));
    let i = choose|i: int| #[trigger]
        defines(rules, i, path[m - 1]) && leads_with(rules[i], path[m]);
    let k = choose|k: int| #[trigger] begins_with(rules[i], k, path[m]);
    if m == 1 {
        assert(i == first);
    } else {
        lemma_chain_settled(rules, marked, dangling, target, first, path, m - 1);
    }
    assert(marked[i]);
    assert(rule_settled(rules, marked, dangling, target, i));
    assert(alternative_settled(rules, marked, dangling, target, i, k));
}

/// A text that is terminal, or that no rule defines, derives nothing.
pub(crate) proof fn lemma_stuck(rules: Seq<RuleView>, start: Seq<char>, target: Seq<char>)
    requires
        !is_nonterminal(start) || is_undefined(rules, start),
    ensures
        !derives(rules, start, target),
{
    if derives(rules, start, target) {
        let p = choose|p: Seq<Seq<char>>|
            #[trigger] is_chain(rules, p) && p[0] == start && p[p.len() - 1] == target;
        assert(leftmost_step(rules, p[0], p[0int + 1]));
        let i = choose|i: int| #[trigger] defines(rules, i, p[0]) && leads_with(rules[i], p[1]);
        assert(rules[i].symbol == start);
    }
}

} // verus!
