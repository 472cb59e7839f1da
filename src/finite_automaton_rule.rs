use vstd::prelude::*;

verus! {

/// A transition `state --character--> next_state`; a rule without a character is a free move,
/// taken without reading input.
#[derive(Clone, Copy, Debug, PartialEq, Eq, Hash)]
pub struct FiniteAutomatonRule {
    pub state: usize,
    pub character: Option<char>,
    pub next_state: usize,
}

impl FiniteAutomatonRule {
    pub fn new(state: usize, character: Option<char>, next_state: usize) -> (rule: Self)
        ensures
            rule == (FiniteAutomatonRule { state, character, next_state }),
    {
        FiniteAutomatonRule { state, character, next_state }
    }

    /// Whether this rule leaves `state` on `character` (`None`: a free move).
    pub fn applies_to(&self, state: usize, character: Option<char>) -> (r: bool)
        ensures
            r == (self.state == state && self.character == character),
    {
        let same_character = match (self.character, character) {
            (Some(a), Some(b)) => a == b,
            (None, None) => true,
            _ => false,
        };
        self.state == state && same_character
    }

    pub fn follow(&self) -> (r: usize)
        ensures
            r == self.next_state,
    {
        self.next_state
    }
}

} // verus!
