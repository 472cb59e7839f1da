use vstd::prelude::*;

use crate::finite_automaton_rule::FiniteAutomatonRule;
use crate::nondeterministic_finite_automaton_rule_book::{
    free_move_closure, has_state, rule_moves, NondeterministicFiniteAutomatonRuleBook,
};

verus! {

/// The states after reading `character` in `states`: where its rules lead, closed under free
/// moves.
pub open spec fn nfa_step(
    rules: Seq<FiniteAutomatonRule>,
    states: Set<usize>,
    character: char,
) -> Set<usize> {
    free_move_closure(rules, rule_moves(rules, states, Some(character)))
}

/// The states after reading `input` in `states`, one character after the other.
pub open spec fn nfa_run(
    rules: Seq<FiniteAutomatonRule>,
    states: Set<usize>,
    input: Seq<char>,
) -> Set<usize>
    decreases input.len(),
{
    if input.len() == 0 {
        states
    } else {
        nfa_step(rules, nfa_run(rules, states, input.drop_last()), input.last())
    }
}

/// Whether `states` holds an accept state.
pub open spec fn holds_accept_state(states: Set<usize>, accepts: Set<usize>) -> bool {
    exists|state: usize| states.contains(state) && accepts.contains(state)
}

/// What a running non-deterministic automaton is: the states it may be in, its accept states and
/// its rules.
pub struct NondeterministicView {
    pub current: Set<usize>,
    pub accepts: Set<usize>,
    pub rules: Seq<FiniteAutomatonRule>,
}

/// A non-deterministic automaton as it runs: it may be in any of a set of states at once.
#[derive(Debug)]
pub struct NondeterministicFiniteAutomaton {
    current_states: Vec<usize>,
    accept_states: Vec<usize>,
    rule_book: NondeterministicFiniteAutomatonRuleBook,
}

impl View for NondeterministicFiniteAutomaton {
    type V = NondeterministicView;

    closed spec fn view(&self) -> NondeterministicView {
        NondeterministicView {
            current: self.current_states@.to_set(),
            accepts: self.accept_states@.to_set(),
            rules: self.rule_book@,
        }
    }
}

impl NondeterministicFiniteAutomaton {
    pub fn new(
        current_states: Vec<usize>,
        accept_states: Vec<usize>,
        rule_book: NondeterministicFiniteAutomatonRuleBook,
    ) -> (automaton: Self)
        ensures
            automaton@ == (NondeterministicView {
                current: current_states@.to_set(),
                accepts: accept_states@.to_set(),
                rules: rule_book@,
            }),
    {
        NondeterministicFiniteAutomaton { current_states, accept_states, rule_book }
    }

    /// Whether one of the states the automaton may be in is an accept state.
    pub fn accepting(&self) -> (r: bool)
        ensures
            r == holds_accept_state(self@.current, self@.accepts),
    {
        let mut i: usize = 0;
        while i < self.current_states.len()
            invariant
                i <= self.current_states.len(),
                forall|j: int|
                    0 <= j < i ==> !self.accept_states@.contains(#[trigger] self.current_states@[j]),
            decreases self.current_states.len() - i,
        {
            if has_state(&self.accept_states, self.current_states[i]) {
                assert(self@.current.contains(self.current_states@[i as int]));
                return true;
            }
            i += 1;
        }
        assert forall|state: usize| self@.current.contains(state) implies !self@.accepts.contains(
            state,
        ) by {
            let j = choose|j: int|
                0 <= j < self.current_states@.len() && self.current_states@[j] == state;
        }
        false
    }

    pub fn read_character(&mut self, character: char)
        ensures
            final(self)@ == (NondeterministicView {
                current: nfa_step(old(self)@.rules, old(self)@.current, character),
                ..old(self)@
            }),
    {
        let moved = self.rule_book.next_state(self.current_states.clone(), Some(character));
        self.current_states = self.rule_book.follow_free_move(moved);
    }

    pub fn read_string(&mut self, string: &str)
        ensures
            final(self)@ == (NondeterministicView {
                current: nfa_run(old(self)@.rules, old(self)@.current, string@),
                ..old(self)@
            }),
    {
        let ghost initial = self@;
        let length = string.unicode_len();
        let mut i: usize = 0;
        while i < length
            invariant
                i <= length,
                length == string@.len(),
                self@ == (NondeterministicView {
                    current: nfa_run(initial.rules, initial.current, string@.subrange(0, i as int)),
                    ..initial
                }),
            decreases length - i,
        {
            let character = string.get_char(i);
            self.read_character(character);
            proof {
                let read = string@.subrange(0, i + 1);
                assert(read.drop_last() =~= string@.subrange(0, i as int));
                assert(read.last() == character);
            }
            i += 1;
        }
        assert(string@.subrange(0, i as int) =~= string@);
    }
}

} // verus!
