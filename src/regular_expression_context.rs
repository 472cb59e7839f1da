use vstd::prelude::*;

verus! {

/// Hands out the states of one compilation, each a number not handed out before.
#[derive(Debug, Clone)]
pub struct RegularExpressionContext {
    current_state: usize,
}

impl View for RegularExpressionContext {
    type V = usize;

    /// The next state to be handed out.
    closed spec fn view(&self) -> usize {
        self.current_state
    }
}

impl Default for RegularExpressionContext {
    fn default() -> (context: Self)
        ensures
            context@ == 0,
    {
        RegularExpressionContext { current_state: 0 }
    }
}

impl RegularExpressionContext {
    pub fn next_state(&mut self) -> (state: usize)
        requires
            old(self)@ < usize::MAX,
        ensures
            state == old(self)@,
            final(self)@ == old(self)@ + 1,
    {
        let state = self.current_state;
        self.current_state = self.current_state + 1;
        state
    }
}

} // verus!
