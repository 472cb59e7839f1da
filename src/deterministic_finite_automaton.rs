use vstd::prelude::*;

use crate::deterministic_finite_automaton_rule_book::{
    first_rule_for, DeterministicFiniteAutomatonRuleBook,
};
use crate::finite_automaton_rule::FiniteAutomatonRule;
use crate::nondeterministic_finite_automaton_rule_book::has_state;

verus! {

/// The state after reading `character` in `state`: where its rule leads, or `state` itself where
/// no rule applies.
pub open spec fn dfa_step(rules: Seq<FiniteAutomatonRule>, state: usize, character: char) -> usize {
    match first_rule_for(rules, state, character) {
        Some(rule) => rule.next_state,
        None => state,
    }
}

/// The state after reading `input` in `state`, one character after the other.
pub open spec fn dfa_run(rules: Seq<FiniteAutomatonRule>, state: usize, input: Seq<char>) -> usize
    decreases input.len(),
{
    if input.len() == 0 {
        state
    } else {
        dfa_step(rules, dfa_run(rules, state, input.drop_last()), input.last())
    }
}

/// What a running deterministic automaton is: its state, its accept states and its rules.
pub struct DeterministicView {
    pub current: usize,
    pub accepts: Set<usize>,
    pub rules: Seq<FiniteAutomatonRule>,
}

/// A deterministic automaton as it runs: it is in one state at a time.
#[derive(Debug, Clone)]
pub struct DeterministicFiniteAutomaton {
    current_state: usize,
    accept_states: Vec<usize>,
    rule_book: DeterministicFiniteAutomatonRuleBook,
}

impl View for DeterministicFiniteAutomaton {
    type V = DeterministicView;

    closed spec fn view(&self) -> DeterministicView {
        DeterministicView {
            current: self.current_state,
            accepts: self.accept_states@.to_set(),
            rules: self.rule_book@,
        }
    }
}

impl DeterministicFiniteAutomaton {
    pub fn new(
        current_state: usize,
        accept_states: Vec<usize>,
        rule_book: DeterministicFiniteAutomatonRuleBook,
    ) -> (automaton: Self)
        ensures
            automaton@ == (DeterministicView {
                current: current_state,
                accepts: accept_states@.to_set(),
                rules: rule_book@,
            }),
    {
        DeterministicFiniteAutomaton { current_state, accept_states, rule_book }
    }

    /// Whether the automaton is in an accept state.
    pub fn accepting(&self) -> (r: bool)
        ensures
            r == self@.accepts.contains(self@.current),
    {
        has_state(&self.accept_states, self.current_state)
    }

    /// Follows the rule for the current state and `character`; without one, the state stays.
    pub fn read_character(&mut self, character: char)
        ensures
            final(self)@ == (DeterministicView {
                current: dfa_step(old(self)@.rules, old(self)@.current, character),
                ..old(self)@
            }),
    {
        if let Some(state) = self.rule_book.next_state(self.current_state, character) {
            self.current_state = state;
        }
    }

    pub fn read_string(&mut self, string: &str)
        ensures
            final(self)@ == (DeterministicView {
                current: dfa_run(old(self)@.rules, old(self)@.current, string@),
                ..old(self)@
            }),
    {
        let ghost initial = self@;
        let length = string.unicode_len();
        let mut i: usize = 0;
        while i < length
            invariant
                i <= length,
                length == string@.len(),
                self@ == (DeterministicView {
                    current: dfa_run(initial.rules, initial.current, string@.subrange(0, i as int)),
                    ..initial
                }),
            decreases length - i,
        {
            let character = string.get_char(i);
            self.read_character(character);
            proof {
                let read = string@.subrange(0, i + 1);
                assert(read.drop_last() =~= string@.subrange(0, i as int));
                assert(read.last() == character);
            }
            i += 1;
        }
        assert(string@.subrange(0, i as int) =~= string@);
    }
}

} // verus!
