use vstd::prelude::*;

use crate::finite_automaton_rule::FiniteAutomatonRule;

verus! {

/// What an automaton design is: its start state, its accept states and its rules.
pub struct DesignView {
    pub start: usize,
    pub accepts: Seq<usize>,
    pub rules: Seq<FiniteAutomatonRule>,
}

} // verus!
