use vstd::prelude::*;
use crate::error::GrammarError;
use crate::model::{
    RuleView, begins_with, dangles_at, defines, derivation_outcome, derives, indirect_outcome,
    is_chain, is_undefined, leads_with, leftmost_step, reaches_undefined, recursion_outcome,
    rule_cycles, rule_dangles, rule_recurs,
};
use crate::rule::{Rule, production_views};
use crate::search::{
    alternative_settled, closed, grows, leads_astray, lemma_chain_settled, lemma_closed_grows,
    lemma_marks_stay_sound, lemma_set_lowers_count, lemma_step_extends, lemma_stuck,
    marks_lead_from, marks_sound, rule_settled, settled, unset_count,
};
use crate::symbol::Symbol;

verus! {

/// An ordered list of rules.
pub struct Grammar {
    rules: Vec<Rule>,
}

/// The values of a list of rules, in order.
pub open spec fn rule_views(rules: Seq<Rule>) -> Seq<RuleView> {
    Seq::new(rules.len(), |i: int| rules[i]@)
}

impl View for Grammar {
    type V = Seq<RuleView>;

    closed spec fn view(&self) -> Seq<RuleView> {
        rule_views(self.rules@)
    }
}

/// A list of `n` flags, none of them set.
fn cleared(n: usize) -> (res: Vec<bool>)
    ensures
        res@.len() == n,
        forall|i: int| 0 <= i < n ==> !res@[i],
{
    let mut flags: Vec<bool> = Vec::new();
    while flags.len() < n
        invariant
            flags@.len() <= n,
            forall|i: int| 0 <= i < flags@.len() ==> !flags@[i],
        decreases n - flags@.len(),
    {
        flags.push(false);
    }
    flags
}

/// The first index that is marked and not yet done, if there is one.
fn next_pending(marked: &Vec<bool>, done: &Vec<bool>) -> (res: Option<usize>)
    requires
        marked@.len() == done@.len(),
    ensures
        match res {
            Some(i) => i < marked@.len() && marked@[i as int] && !done@[i as int],
            None => forall|i: int| 0 <= i < marked@.len() && marked@[i] ==> done@[i],
        },
{
    let mut i: usize = 0;
    while i < marked.len()
        invariant
            marked@.len() == done@.len(),
            i <= marked@.len(),
            forall|j: int| 0 <= j < i && marked@[j] ==> done@[j],
        decreases marked@.len() - i,
    {
        if marked[i] && !done[i] {
            return Some(i);
        }
        i += 1;
    }
    None
}

impl Grammar {
    /// Builds a grammar from its rules, in the order given.
    pub fn new(rules: Vec<Rule>) -> (res: Grammar)
        ensures
            res@ == rule_views(rules@),
    {
        Grammar { rules }
    }

    /// The rules, in order.
    pub fn rules(&self) -> (res: &Vec<Rule>)
        ensures
            rule_views(res@) == self@,
    {
        &self.rules
    }

    /// The position of the first rule whose left-hand side has the text of
    /// `symbol`, or `None` where no rule has it.
    pub fn find_rule_index(&self, symbol: &Symbol) -> (res: Option<usize>)
        ensures
            match res {
                Some(i) => defines(self@, i as int, symbol@),
                None => forall|i: int| 0 <= i < self@.len() ==> (#[trigger] self@[i]).symbol != symbol@,
            },
    {
        let mut i: usize = 0;
        while i < self.rules.len()
            invariant
                i <= self.rules@.len(),
                forall|j: int| 0 <= j < i ==> (#[trigger] self@[j]).symbol != symbol@,
            decreases self.rules@.len() - i,
        {
            if self.rules[i].symbol().same_text(symbol) {
                return Some(i);
            }
            i += 1;
        }
        None
    }

    /// The first rule whose left-hand side has the text of `symbol`, or
    /// `None` where no rule has it.
    pub fn find_rule(&self, symbol: &Symbol) -> (res: Option<&Rule>)
        ensures
            match res {
                Some(rule) => exists|i: int| #[trigger]
                    defines(self@, i, symbol@) && rule@ == self@[i],
                None => forall|i: int| 0 <= i < self@.len() ==> (#[trigger] self@[i]).symbol != symbol@,
            },
    {
        match self.find_rule_index(symbol) {
            Some(i) => Some(&self.rules[i]),
            None => None,
        }
    }

    /// The rule that a use of `symbol` needs, or the error for a
    /// non-terminal without one.
    pub fn require_rule(&self, symbol: &Symbol) -> (res: Result<&Rule, GrammarError>)
        ensures
            match res {
                Ok(rule) => exists|i: int| #[trigger]
                    defines(self@, i, symbol@) && rule@ == self@[i],
                Err(e) => e == GrammarError::UndefinedNonTerminal && forall|i: int|
                    0 <= i < self@.len() ==> (#[trigger] self@[i]).symbol != symbol@,
            },
    {
        match self.find_rule(symbol) {
            Some(rule) => Ok(rule),
            None => Err(GrammarError::UndefinedNonTerminal),
        }
    }

    /// Whether `target` is `start` itself or is reached from it by leftmost
    /// expansions.
    pub fn derives_to_symbol_helper(&self, start: &Symbol, target: &Symbol) -> (res: Result<
        bool,
        GrammarError,
    >)
        ensures
            start@ == target@ ==> res == Ok::<bool, GrammarError>(true),
            start@ != target@ ==> res == derivation_outcome(self@, start@, target@),
    {
        if start.same_text(target) {
            return Ok(true);
        }
        self.derives_to_symbol(start, target)
    }

    /// Looks at the first symbol of every alternative of rule `i`, up to one
    /// that is `target`: marks the rule of each non-terminal among them and
    /// notes one that no rule defines. Says whether `target` was met.
    fn expand_rule(
        &self,
        i: usize,
        target: &Symbol,
        marked: &mut Vec<bool>,
        dangling: &mut bool,
    ) -> (found: bool)
        requires
            i < self@.len(),
            old(marked)@.len() == self@.len(),
        ensures
            grows(old(marked)@, final(marked)@),
            marks_lead_from(self@, old(marked)@, final(marked)@, i as int),
            *old(dangling) ==> *final(dangling),
            *final(dangling) && !*old(dangling) ==> leads_astray(self@, i as int),
            found ==> leads_with(self@[i as int], target@),
            !found ==> rule_settled(self@, final(marked)@, *final(dangling), target@, i as int),
    {
        let ghost rules = self@;
        let alternatives = self.rules[i].derivations();
        let mut k: usize = 0;
        while k < alternatives.len()
            invariant
                rules == self@,
                i < rules.len(),
                marked@.len() == rules.len(),
                production_views(alternatives@) == rules[i as int].derivations,
                k <= alternatives@.len(),
                grows(old(marked)@, marked@),
                marks_lead_from(rules, old(marked)@, marked@, i as int),
                *old(dangling) ==> *dangling,
                *dangling && !*old(dangling) ==> leads_astray(rules, i as int),
                forall|m: int|
                    0 <= m < k ==> alternative_settled(
                        rules,
                        marked@,
                        *dangling,
                        target@,
                        i as int,
                        m,
                    ),
            decreases alternatives@.len() - k,
        {
            let symbol = alternatives[k].first_symbol();
            assert(begins_with(rules[i as int], k as int, symbol@));
            if symbol.same_text(target) {
                return true;
            }
            let ghost before = marked@;
            let ghost noted = *dangling;
            if !symbol.is_terminal() {
                match self.find_rule_index(symbol) {
                    Some(j) => {
                        marked.set(j, true);
                    },
                    None => {
                        *dangling = true;
                        assert(is_undefined(rules, symbol@));
                    },
                }
            }
            proof {
                assert(settled(rules, marked@, *dangling, target@, symbol@));
                assert forall|m: int| 0 <= m < k + 1 implies alternative_settled(
                    rules,
                    marked@,
                    *dangling,
                    target@,
                    i as int,
                    m,
                ) by {
                    if m < k {
                        assert(alternative_settled(rules, before, noted, target@, i as int, m));
                    }
                }
            }
            k += 1;
        }
        false
    }

    /// Whether `target` is reached from `start` by one or more leftmost
    /// expansions. Every rule is expanded at most once, so the search ends
    /// on every grammar.
    pub fn derives_to_symbol(&self, start: &Symbol, target: &Symbol) -> (res: Result<
        bool,
        GrammarError,
    >)
        ensures
            res == derivation_outcome(self@, start@, target@),
    {
        let ghost rules = self@;
        if start.is_terminal() {
            proof {
                lemma_stuck(rules, start@, target@);
                assert forall|text: Seq<char>| !#[trigger] dangles_at(rules, start@, text) by {
                    lemma_stuck(rules, start@, text);
                }
            }
            return Ok(false);
        }
        let first: usize = match self.find_rule_index(start) {
            Some(i) => i,
            None => {
                proof {
                    lemma_stuck(rules, start@, target@);
                    assert(dangles_at(rules, start@, start@));
                }
                return Err(GrammarError::UndefinedNonTerminal);
            },
        };
        let n: usize = self.rules.len();
        let mut marked = cleared(n);
        let mut done = cleared(n);
        marked.set(first, true);
        let mut dangling = false;
        loop
            invariant
                rules == self@,
                n == rules.len(),
                marked@.len() == n,
                done@.len() == n,
                defines(rules, first as int, start@),
                marked@[first as int],
                marks_sound(rules, marked@, start@),
                grows(done@, marked@),
                dangling ==> reaches_undefined(rules, start@),
                closed(rules, marked@, done@, dangling, target@),
            ensures
                grows(marked@, done@),
            decreases unset_count(done@),
        {
            let i: usize = match next_pending(&marked, &done) {
                Some(i) => i,
                None => {
                    break ;
                },
            };
            let ghost head = rules[i as int].symbol;
            let ghost before = marked@;
            let ghost noted = dangling;
            let found = self.expand_rule(i, target, &mut marked, &mut dangling);
            proof {
                if found {
                    assert(leftmost_step(rules, head, target@));
                    lemma_step_extends(rules, start@, head, target@);
                }
                if dangling && !noted {
                    let text = choose|text: Seq<char>| #[trigger]
                        is_undefined(rules, text) && leads_with(rules[i as int], text);
                    assert(leftmost_step(rules, head, text));
                    lemma_step_extends(rules, start@, head, text);
                    assert(dangles_at(rules, start@, text));
                }
                lemma_marks_stay_sound(rules, before, marked@, start@, i as int);
                lemma_closed_grows(rules, before, marked@, done@, noted, dangling, target@);
                lemma_set_lowers_count(done@, i as int);
            }
            if found {
                return Ok(true);
            }
            done.set(i, true);
        }
        proof {
            assert(marked@ =~= done@);
            if derives(rules, start@, target@) {
                let p = choose|p: Seq<Seq<char>>|
                    #[trigger] is_chain(rules, p) && p[0] == start@ && p[p.len() - 1] == target@;
                lemma_chain_settled(rules, marked@, dangling, target@, first as int, p, p.len() - 1);
            }
            if !dangling {
                assert forall|text: Seq<char>| !#[trigger] dangles_at(rules, start@, text) by {
                    if dangles_at(rules, start@, text) {
                        let p = choose|p: Seq<Seq<char>>|
                            #[trigger] is_chain(rules, p) && p[0] == start@ && p[p.len() - 1]
                                == text;
                        lemma_chain_settled(
                            rules,
                            marked@,
                            dangling,
                            target@,
                            first as int,
                            p,
                            p.len() - 1,
                        );
                    }
                }
            }
        }
        if dangling {
            Err(GrammarError::UndefinedNonTerminal)
        } else {
            Ok(false)
        }
    }

    /// Whether some rule comes back to its own left-hand side by one or more
    /// leftmost expansions.
    pub fn has_indirect_left_recursion(&self) -> (res: Result<bool, GrammarError>)
        ensures
            res == indirect_outcome(self@),
    {
        let mut dangling = false;
        let mut i: usize = 0;
        while i < self.rules.len()
            invariant
                i <= self.rules@.len(),
                forall|j: int| 0 <= j < i ==> !rule_cycles(self@, j),
                dangling ==> exists|j: int| #[trigger] rule_dangles(self@, j),
                !dangling ==> forall|j: int| 0 <= j < i ==> !rule_dangles(self@, j),
            decreases self.rules@.len() - i,
        {
            let symbol = self.rules[i].symbol();
            match self.derives_to_symbol(symbol, symbol) {
                Ok(true) => {
                    assert(rule_cycles(self@, i as int));
                    return Ok(true);
                },
                Ok(false) => {},
                Err(_) => {
                    assert(rule_dangles(self@, i as int));
                    dangling = true;
                },
            }
            i += 1;
        }
        if dangling {
            Err(GrammarError::UndefinedNonTerminal)
        } else {
            Ok(false)
        }
    }

    /// Whether the grammar is left-recursive, directly or indirectly. A
    /// directly recursive rule settles it without any further search.
    pub fn has_left_recursion(&self) -> (res: Result<bool, GrammarError>)
        ensures
            res == recursion_outcome(self@),
    {
        let mut i: usize = 0;
        while i < self.rules.len()
            invariant
                i <= self.rules@.len(),
                forall|j: int| 0 <= j < i ==> !rule_recurs(self@, j),
            decreases self.rules@.len() - i,
        {
            if self.rules[i].has_direct_left_recursion() {
                assert(rule_recurs(self@, i as int));
                return Ok(true);
            }
            i += 1;
        }
        self.has_indirect_left_recursion()
    }
}

} // verus!
