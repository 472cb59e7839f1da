use vstd::prelude::*;

use crate::deterministic_finite_automaton::{
    dfa_run, DeterministicFiniteAutomaton, DeterministicView,
};
use crate::deterministic_finite_automaton_rule_book::DeterministicFiniteAutomatonRuleBook;
use crate::design_view::DesignView;

verus! {

/// Whether the deterministic automaton that `design` describes ends in an accept state after
/// reading `input` from its start state.
pub open spec fn dfa_accepts(design: DesignView, input: Seq<char>) -> bool {
    design.accepts.contains(dfa_run(design.rules, design.start, input))
}

/// The blueprint of a deterministic automaton; each match runs a fresh automaton made from it.
#[derive(Debug, Clone)]
pub struct DeterministicFiniteAutomatonDesign {
    start_state: usize,
    accept_states: Vec<usize>,
    rule_book: DeterministicFiniteAutomatonRuleBook,
}

impl View for DeterministicFiniteAutomatonDesign {
    type V = DesignView;

    closed spec fn view(&self) -> DesignView {
        DesignView {
            start: self.start_state,
            accepts: self.accept_states@,
            rules: self.rule_book@,
        }
    }
}

impl DeterministicFiniteAutomatonDesign {
    pub fn new(
        start_state: usize,
        accept_states: Vec<usize>,
        rule_book: DeterministicFiniteAutomatonRuleBook,
    ) -> (design: Self)
        ensures
            design@ == (DesignView {
                start: start_state,
                accepts: accept_states@,
                rules: rule_book@,
            }),
    {
        DeterministicFiniteAutomatonDesign { start_state, accept_states, rule_book }
    }

    /// A fresh automaton in the start state.
    pub fn to_automaton(&self) -> (automaton: DeterministicFiniteAutomaton)
        ensures
            automaton@ == (DeterministicView {
                current: self@.start,
                accepts: self@.accepts.to_set(),
                rules: self@.rules,
            }),
    {
        DeterministicFiniteAutomaton::new(
            self.start_state,
            self.accept_states.clone(),
            self.rule_book.duplicate(),
        )
    }

    /// Whether the automaton accepts `string`, run on a fresh automaton.
    pub fn accepts(&self, string: &str) -> (r: bool)
        ensures
            r == dfa_accepts(self@, string@),
    {
        let mut automaton = self.to_automaton();
        automaton.read_string(string);
        automaton.accepting()
    }
}

} // verus!
