use vstd::prelude::*;

use crate::design_view::DesignView;
use crate::finite_automaton_rule::FiniteAutomatonRule;
use crate::nondeterministic_finite_automaton::{
    holds_accept_state, nfa_run, NondeterministicFiniteAutomaton, NondeterministicView,
};
use crate::nondeterministic_finite_automaton_rule_book::{
    free_move_closure, NondeterministicFiniteAutomatonRuleBook,
};

verus! {

/// Whether the non-deterministic automaton that `design` describes accepts `input`: it starts in
/// the closure of the start state, reads `input`, and then may be in an accept state.
pub open spec fn nfa_accepts(design: DesignView, input: Seq<char>) -> bool {
    holds_accept_state(
        nfa_run(design.rules, free_move_closure(design.rules, set![design.start]), input),
        design.accepts.to_set(),
    )
}

/// The blueprint of a non-deterministic automaton; each match runs a fresh automaton made from it.
#[derive(Debug)]
pub struct NondeterministicFiniteAutomatonDesign {
    start_state: usize,
    accept_states: Vec<usize>,
    rule_book: NondeterministicFiniteAutomatonRuleBook,
}

impl View for NondeterministicFiniteAutomatonDesign {
    type V = DesignView;

    closed spec fn view(&self) -> DesignView {
        DesignView {
            start: self.start_state,
            accepts: self.accept_states@,
            rules: self.rule_book@,
        }
    }
}

impl NondeterministicFiniteAutomatonDesign {
    pub fn new(
        start_state: usize,
        accept_states: Vec<usize>,
        rule_book: NondeterministicFiniteAutomatonRuleBook,
    ) -> (design: Self)
        ensures
            design@ == (DesignView {
                start: start_state,
                accepts: accept_states@,
                rules: rule_book@,
            }),
    {
        NondeterministicFiniteAutomatonDesign { start_state, accept_states, rule_book }
    }

    /// A design with no rules yet.
    pub fn without_rule_book(start_state: usize, accept_states: Vec<usize>) -> (design: Self)
        ensures
            design@ == (DesignView {
                start: start_state,
                accepts: accept_states@,
                rules: Seq::empty(),
            }),
    {
        NondeterministicFiniteAutomatonDesign {
            start_state,
            accept_states,
            rule_book: NondeterministicFiniteAutomatonRuleBook::default(),
        }
    }

    pub fn add_rule(&mut self, rule: FiniteAutomatonRule)
        ensures
            final(self)@ == (DesignView { rules: old(self)@.rules.push(rule), ..old(self)@ }),
    {
        self.rule_book.add_rule(rule);
    }

    pub fn start_state(&self) -> (state: usize)
        ensures
            state == self@.start,
    {
        self.start_state
    }

    pub fn accept_states(&self) -> (states: Vec<usize>)
        ensures
            states@ == self@.accepts,
    {
        self.accept_states.clone()
    }

    pub fn rule_book(&self) -> (book: NondeterministicFiniteAutomatonRuleBook)
        ensures
            book@ == self@.rules,
    {
        NondeterministicFiniteAutomatonRuleBook::new(self.rule_book.rules())
    }

    /// Adds every rule of `rule_book` after the design's own rules.
    pub fn merge_rule_book(&mut self, rule_book: NondeterministicFiniteAutomatonRuleBook)
        ensures
            final(self)@ == (DesignView { rules: old(self)@.rules + rule_book@, ..old(self)@ }),
    {
        let rules = rule_book.rules();
        let ghost initial = self@;
        let mut i: usize = 0;
        while i < rules.len()
            invariant
                i <= rules.len(),
                rules@ == rule_book@,
                self@ == (DesignView {
                    rules: initial.rules + rules@.subrange(0, i as int),
                    ..initial
                }),
            decreases rules.len() - i,
        {
            self.add_rule(rules[i]);
            assert(initial.rules + rules@.subrange(0, i + 1) =~= (initial.rules + rules@.subrange(
                0,
                i as int,
            )).push(rules@[i as int]));
            i += 1;
        }
        assert(rules@.subrange(0, i as int) =~= rules@);
    }

    /// A fresh automaton in the closure of the start state.
    pub fn to_automaton(&self) -> (automaton: NondeterministicFiniteAutomaton)
        ensures
            automaton@ == (NondeterministicView {
                current: free_move_closure(self@.rules, set![self@.start]),
                accepts: self@.accepts.to_set(),
                rules: self@.rules,
            }),
    {
        let start = vec![self.start_state];
        assert(start@.to_set() =~= set![self.start_state]);
        let current = self.rule_book.follow_free_move(start);
        NondeterministicFiniteAutomaton::new(current, self.accept_states(), self.rule_book())
    }

    /// Whether the automaton accepts `string`, run on a fresh automaton.
    pub fn accepts(&self, string: &str) -> (r: bool)
        ensures
            r == nfa_accepts(self@, string@),
    {
        let mut automaton = self.to_automaton();
        automaton.read_string(string);
        automaton.accepting()
    }
}

} // verus!
