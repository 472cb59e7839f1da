use vstd::prelude::*;

use crate::finite_automaton_rule::FiniteAutomatonRule;

verus! {

/// The first rule of `rules` that leaves `state` on `character`, if any.
pub open spec fn first_rule_for(
    rules: Seq<FiniteAutomatonRule>,
    state: usize,
    character: char,
) -> Option<FiniteAutomatonRule>
    decreases rules.len(),
{
    if rules.len() == 0 {
        None
    } else if rules[0].state == state && rules[0].character == Some(character) {
        Some(rules[0])
    } else {
        first_rule_for(rules.drop_first(), state, character)
    }
}

/// Rules of a deterministic automaton. At most one rule should apply to a state and a character;
/// where several do, the first one counts.
#[derive(Debug, Clone)]
pub struct DeterministicFiniteAutomatonRuleBook {
    rules: Vec<FiniteAutomatonRule>,
}

impl View for DeterministicFiniteAutomatonRuleBook {
    type V = Seq<FiniteAutomatonRule>;

    closed spec fn view(&self) -> Seq<FiniteAutomatonRule> {
        self.rules@
    }
}

impl DeterministicFiniteAutomatonRuleBook {
    pub fn new(rules: Vec<FiniteAutomatonRule>) -> (book: Self)
        ensures
            book@ == rules@,
    {
        DeterministicFiniteAutomatonRuleBook { rules }
    }

    /// A copy of the book.
    pub fn duplicate(&self) -> (book: Self)
        ensures
            book@ == self@,
    {
        DeterministicFiniteAutomatonRuleBook { rules: self.rules.clone() }
    }

    /// The state that the rule for `state` and `character` leads to, if there is one.
    pub fn next_state(&self, state: usize, character: char) -> (next: Option<usize>)
        ensures
            next == match first_rule_for(self@, state, character) {
                Some(rule) => Some(rule.next_state),
                None => None,
            },
    {
        match self.rule_for(state, character) {
            Some(rule) => Some(rule.follow()),
            None => None,
        }
    }

    /// The first rule that leaves `state` on `character`.
    pub fn rule_for(&self, state: usize, character: char) -> (rule: Option<FiniteAutomatonRule>)
        ensures
            rule == first_rule_for(self@, state, character),
    {
        let mut i: usize = 0;
        assert(self.rules@.subrange(0, self.rules@.len() as int) =~= self.rules@);
        while i < self.rules.len()
            invariant
                i <= self.rules.len(),
                first_rule_for(self.rules@, state, character) == first_rule_for(
                    self.rules@.subrange(i as int, self.rules@.len() as int),
                    state,
                    character,
                ),
            decreases self.rules.len() - i,
        {
            let rest = Ghost(self.rules@.subrange(i as int, self.rules@.len() as int));
            assert(rest@[0] == self.rules@[i as int]);
            if self.rules[i].applies_to(state, Some(character)) {
                return Some(self.rules[i]);
            }
            assert(rest@.drop_first() =~= self.rules@.subrange(i + 1, self.rules@.len() as int));
            i += 1;
        }
        None
    }
}

} // verus!
