use vstd::prelude::*;
use vstd::set_lib::lemma_len_subset;

use crate::finite_automaton_rule::FiniteAutomatonRule;

verus! {

broadcast use vstd::seq_lib::seq_to_set_is_finite;

/// The states that a rule of `rules` leads to from a state of `states` on `character`
/// (`None`: by a free move).
pub open spec fn rule_moves(
    rules: Seq<FiniteAutomatonRule>,
    states: Set<usize>,
    character: Option<char>,
) -> Set<usize> {
    Set::new(
        |t: usize|
            exists|i: int|
                #![trigger rules[i]]
                0 <= i < rules.len() && states.contains(rules[i].state) && rules[i].character
                    == character && rules[i].next_state == t,
    )
}

/// The states reachable from `states` by at most `steps` free moves.
pub open spec fn free_moves_within(
    rules: Seq<FiniteAutomatonRule>,
    states: Set<usize>,
    steps: nat,
) -> Set<usize>
    decreases steps,
{
    if steps == 0 {
        states
    } else {
        let before = free_moves_within(rules, states, (steps - 1) as nat);
        before.union(rule_moves(rules, before, None))
    }
}

/// The epsilon-closure of `states`: every state reachable from one of them by free moves alone.
pub open spec fn free_move_closure(rules: Seq<FiniteAutomatonRule>, states: Set<usize>) -> Set<
    usize,
> {
    Set::new(
        |t: usize| exists|steps: nat| #[trigger] free_moves_within(rules, states, steps).contains(t),
    )
}

/// No free move leads out of `states`.
pub open spec fn closed_under_free_moves(
    rules: Seq<FiniteAutomatonRule>,
    states: Set<usize>,
) -> bool {
    rule_moves(rules, states, None).subset_of(states)
}

/// Whether a rule leaves `state` on `character`.
pub open spec fn rule_applies(state: usize, character: Option<char>) -> spec_fn(
    FiniteAutomatonRule,
) -> bool {
    |rule: FiniteAutomatonRule| rule.state == state && rule.character == character
}

/// Every state that some rule of `rules` leads to.
pub open spec fn rule_targets(rules: Seq<FiniteAutomatonRule>) -> Set<usize> {
    rules.map_values(|rule: FiniteAutomatonRule| rule.next_state).to_set()
}

pub proof fn lemma_rule_moves_monotone(
    rules: Seq<FiniteAutomatonRule>,
    smaller: Set<usize>,
    larger: Set<usize>,
    character: Option<char>,
)
    requires
        smaller.subset_of(larger),
    ensures
        rule_moves(rules, smaller, character).subset_of(rule_moves(rules, larger, character)),
{
}

pub proof fn lemma_rule_moves_in_targets(
    rules: Seq<FiniteAutomatonRule>,
    states: Set<usize>,
    character: Option<char>,
)
    ensures
        rule_moves(rules, states, character).subset_of(rule_targets(rules)),
{
    assert forall|t: usize| rule_moves(rules, states, character).contains(t) implies rule_targets(
        rules,
    ).contains(t) by {
        let i = choose|i: int|
            #![trigger rules[i]]
            0 <= i < rules.len() && states.contains(rules[i].state) && rules[i].character
                == character && rules[i].next_state == t;
        let targets = rules.map_values(|rule: FiniteAutomatonRule| rule.next_state);
        assert(targets[i] == t);
    }
}

/// A set of states that holds `states` and no free move leaves holds their whole closure.
pub proof fn lemma_closure_least(
    rules: Seq<FiniteAutomatonRule>,
    states: Set<usize>,
    holder: Set<usize>,
)
    requires
        states.subset_of(holder),
        closed_under_free_moves(rules, holder),
    ensures
        free_move_closure(rules, states).subset_of(holder),
{
    assert forall|t: usize| free_move_closure(rules, states).contains(t) implies holder.contains(
        t,
    ) by {
        let steps = choose|steps: nat| #[trigger] free_moves_within(rules, states, steps).contains(t);
        lemma_within_held(rules, states, holder, steps);
    }
}

proof fn lemma_within_held(
    rules: Seq<FiniteAutomatonRule>,
    states: Set<usize>,
    holder: Set<usize>,
    steps: nat,
)
    requires
        states.subset_of(holder),
        closed_under_free_moves(rules, holder),
    ensures
        free_moves_within(rules, states, steps).subset_of(holder),
    decreases steps,
{
    if steps > 0 {
        let before = free_moves_within(rules, states, (steps - 1) as nat);
        lemma_within_held(rules, states, holder, (steps - 1) as nat);
        lemma_rule_moves_monotone(rules, before, holder, None);
    }
}

/// The closure holds the states it starts from, and no free move leaves it.
pub proof fn lemma_closure_extends(rules: Seq<FiniteAutomatonRule>, states: Set<usize>)
    ensures
        states.subset_of(free_move_closure(rules, states)),
        closed_under_free_moves(rules, free_move_closure(rules, states)),
{
    let closure = free_move_closure(rules, states);
    assert forall|t: usize| states.contains(t) implies closure.contains(t) by {
        assert(free_moves_within(rules, states, 0).contains(t));
    }
    assert forall|t: usize| rule_moves(rules, closure, None).contains(t) implies closure.contains(
        t,
    ) by {
        let i = choose|i: int|
            #![trigger rules[i]]
            0 <= i < rules.len() && closure.contains(rules[i].state) && rules[i].character
                == None::<char> && rules[i].next_state == t;
        let steps = choose|steps: nat|
            #[trigger] free_moves_within(rules, states, steps).contains(rules[i].state);
        let before = free_moves_within(rules, states, steps);
        assert(rule_moves(rules, before, None).contains(t));
        assert(free_moves_within(rules, states, steps + 1).contains(t));
    }
}

/// Epsilon-closure is idempotent: closing a closed set again adds nothing.
pub proof fn lemma_closure_idempotent(rules: Seq<FiniteAutomatonRule>, states: Set<usize>)
    ensures
        free_move_closure(rules, free_move_closure(rules, states)) == free_move_closure(
            rules,
            states,
        ),
{
    let closure = free_move_closure(rules, states);
    lemma_closure_extends(rules, states);
    lemma_closure_extends(rules, closure);
    lemma_closure_least(rules, closure, closure);
    assert(free_move_closure(rules, closure) =~= closure);
}

/// Whether `states` holds `state`.
pub(crate) fn has_state(states: &Vec<usize>, state: usize) -> (r: bool)
    ensures
        r == states@.contains(state),
{
    let mut i: usize = 0;
    while i < states.len()
        invariant
            i <= states.len(),
            forall|j: int| 0 <= j < i ==> states@[j] != state,
        decreases states.len() - i,
    {
        if states[i] == state {
            return true;
        }
        i += 1;
    }
    false
}

/// Rules of a non-deterministic automaton: any number of them may apply to a state and a
/// character, and a rule without a character is a free move.
#[derive(Debug, Clone)]
pub struct NondeterministicFiniteAutomatonRuleBook {
    rules: Vec<FiniteAutomatonRule>,
}

impl View for NondeterministicFiniteAutomatonRuleBook {
    type V = Seq<FiniteAutomatonRule>;

    closed spec fn view(&self) -> Seq<FiniteAutomatonRule> {
        self.rules@
    }
}

impl Default for NondeterministicFiniteAutomatonRuleBook {
    fn default() -> (book: Self)
        ensures
            book@ == Seq::<FiniteAutomatonRule>::empty(),
    {
        NondeterministicFiniteAutomatonRuleBook { rules: Vec::new() }
    }
}

impl NondeterministicFiniteAutomatonRuleBook {
    pub fn new(rules: Vec<FiniteAutomatonRule>) -> (book: Self)
        ensures
            book@ == rules@,
    {
        NondeterministicFiniteAutomatonRuleBook { rules }
    }

    pub fn add_rule(&mut self, rule: FiniteAutomatonRule)
        ensures
            final(self)@ == old(self)@.push(rule),
    {
        self.rules.push(rule);
    }

    pub fn rules(&self) -> (rules: Vec<FiniteAutomatonRule>)
        ensures
            rules@ == self@,
    {
        self.rules.clone()
    }

    /// The rules that leave `state` on `character`, in the order of the book.
    pub fn rule_for(&self, state: usize, character: Option<char>) -> (found: Vec<
        FiniteAutomatonRule,
    >)
        ensures
            found@ == self@.filter(rule_applies(state, character)),
    {
        let mut found: Vec<FiniteAutomatonRule> = Vec::new();
        let mut i: usize = 0;
        while i < self.rules.len()
            invariant
                i <= self.rules.len(),
                found@ == self.rules@.subrange(0, i as int).filter(rule_applies(state, character)),
            decreases self.rules.len() - i,
        {
            let rule = self.rules[i];
            proof {
                assert(self.rules@.subrange(0, i + 1) =~= self.rules@.subrange(0, i as int).push(
                    rule,
                ));
                self.rules@.subrange(0, i as int).lemma_filter_push(rule, rule_applies(state, character));
            }
            if rule.applies_to(state, character) {
                found.push(rule);
            }
            i += 1;
        }
        assert(self.rules@.subrange(0, i as int) == self.rules@);
        found
    }

    /// The states that rules lead to from `state` on `character`, each once.
    pub fn follow_rules_for(&self, state: usize, character: Option<char>) -> (targets: Vec<usize>)
        ensures
            targets@.to_set() == rule_moves(self@, set![state], character),
            targets@.no_duplicates(),
    {
        let mut targets: Vec<usize> = Vec::new();
        let mut i: usize = 0;
        while i < self.rules.len()
            invariant
                i <= self.rules.len(),
                targets@.to_set() == rule_moves(
                    self.rules@.subrange(0, i as int),
                    set![state],
                    character,
                ),
                targets@.no_duplicates(),
            decreases self.rules.len() - i,
        {
            let rule = self.rules[i];
            let ghost before = self.rules@.subrange(0, i as int);
            let ghost after = self.rules@.subrange(0, i + 1);
            let ghost old_targets = targets@;
            if rule.applies_to(state, character) && !has_state(&targets, rule.next_state) {
                targets.push(rule.next_state);
            }
            proof {
                assert forall|t: usize| old_targets.contains(t) implies targets@.contains(t) by {
                    let j = choose|j: int| 0 <= j < old_targets.len() && old_targets[j] == t;
                    assert(targets@[j] == t);
                }
                if rule.state == state && rule.character == character && !old_targets.contains(
                    rule.next_state,
                ) {
                    assert(targets@[targets@.len() - 1] == rule.next_state);
                }
                assert(after =~= before.push(rule));
                let moves = rule_moves(after, set![state], character);
                let applies = rule.state == state && rule.character == character;
                assert forall|t: usize| moves.contains(t) implies targets@.to_set().contains(t) by {
                    let k = choose|k: int|
                        #![trigger after[k]]
                        0 <= k < after.len() && set![state].contains(after[k].state)
                            && after[k].character == character && after[k].next_state == t;
                    if k < before.len() {
                        assert(before[k] == after[k]);
                        assert(rule_moves(before, set![state], character).contains(t));
                        assert(old_targets.contains(t));
                        assert(targets@.contains(t));
                    } else {
                        assert(targets@.contains(t));
                    }
                }
                assert forall|t: usize| targets@.to_set().contains(t) implies moves.contains(t) by {
                    if old_targets.contains(t) {
                        assert(rule_moves(before, set![state], character).contains(t));
                        let k = choose|k: int|
                            #![trigger before[k]]
                            0 <= k < before.len() && set![state].contains(before[k].state)
                                && before[k].character == character && before[k].next_state == t;
                        assert(after[k] == before[k]);
                    } else {
                        assert(applies && rule.next_state == t);
                        assert(after[i as int] == rule);
                    }
                }
                assert(targets@.to_set() =~= moves);
            }
            i += 1;
        }
        assert(self.rules@.subrange(0, i as int) == self.rules@);
        targets
    }

    /// The states that rules lead to from any of `states` on `character`, each once.
    pub fn next_state(&self, states: Vec<usize>, character: Option<char>) -> (next: Vec<usize>)
        ensures
            next@.to_set() == rule_moves(self@, states@.to_set(), character),
            next@.no_duplicates(),
    {
        let mut next: Vec<usize> = Vec::new();
        let mut i: usize = 0;
        while i < states.len()
            invariant
                i <= states.len(),
                next@.to_set() == rule_moves(self@, states@.subrange(0, i as int).to_set(), character),
                next@.no_duplicates(),
            decreases states.len() - i,
        {
            let targets = self.follow_rules_for(states[i], character);
            let ghost done = rule_moves(self@, states@.subrange(0, i as int).to_set(), character);
            let mut j: usize = 0;
            while j < targets.len()
                invariant
                    j <= targets.len(),
                    next@.to_set() == done.union(targets@.subrange(0, j as int).to_set()),
                    next@.no_duplicates(),
                decreases targets.len() - j,
            {
                let ghost old_next = next@;
                if !has_state(&next, targets[j]) {
                    next.push(targets[j]);
                    proof {
                        lemma_to_set_push(old_next, targets@[j as int]);
                    }
                } else {
                    assert(old_next.to_set() =~= old_next.to_set().insert(targets@[j as int]));
                }
                proof {
                    assert(targets@.subrange(0, j + 1) =~= targets@.subrange(0, j as int).push(
                        targets@[j as int],
                    ));
                    lemma_to_set_push(targets@.subrange(0, j as int), targets@[j as int]);
                    assert(next@.to_set() =~= done.union(targets@.subrange(0, j + 1).to_set()));
                }
                j += 1;
            }
            proof {
                assert(targets@.subrange(0, j as int) =~= targets@);
                assert(states@.subrange(0, i + 1) =~= states@.subrange(0, i as int).push(
                    states@[i as int],
                ));
                lemma_to_set_push(states@.subrange(0, i as int), states@[i as int]);
                lemma_rule_moves_insert(
                    self@,
                    states@.subrange(0, i as int).to_set(),
                    states@[i as int],
                    character,
                );
            }
            i += 1;
        }
        assert(states@.subrange(0, i as int) =~= states@);
        next
    }

    /// The epsilon-closure of `states`: they and every state that free moves reach from them,
    /// each once.
    pub fn follow_free_move(&self, states: Vec<usize>) -> (closure: Vec<usize>)
        ensures
            closure@.to_set() == free_move_closure(self@, states@.to_set()),
    {
        let ghost start = states@.to_set();
        let ghost universe = start.union(rule_targets(self@));
        proof {
            lemma_closure_extends(self@, start);
        }
        let mut current = states;
        loop
            invariant
                start.subset_of(current@.to_set()),
                current@.to_set().subset_of(free_move_closure(self@, start)),
                current@.to_set().subset_of(universe),
                universe == start.union(rule_targets(self@)),
                start == states@.to_set(),
                start.subset_of(free_move_closure(self@, start)),
                closed_under_free_moves(self@, free_move_closure(self@, start)),
            decreases universe.len() - current@.to_set().len(),
        {
            let ghost before = current@.to_set();
            let more = self.next_state(current.clone(), None);
            proof {
                lemma_rule_moves_monotone(self@, before, free_move_closure(self@, start), None);
                lemma_rule_moves_in_targets(self@, before, None);
            }
            let mut grew = false;
            let mut j: usize = 0;
            while j < more.len()
                invariant
                    j <= more.len(),
                    current@.to_set() == before.union(more@.subrange(0, j as int).to_set()),
                    grew ==> exists|t: usize| current@.contains(t) && !before.contains(t),
                    !grew ==> current@.to_set() == before,
                decreases more.len() - j,
            {
                let ghost old_current = current@;
                if !has_state(&current, more[j]) {
                    current.push(more[j]);
                    grew = true;
                    proof {
                        lemma_to_set_push(old_current, more@[j as int]);
                        assert(current@[current@.len() - 1] == more@[j as int]);
                        assert(current@.contains(more@[j as int]));
                        assert(!old_current.to_set().contains(more@[j as int]));
                        assert(!before.contains(more@[j as int]));
                    }
                } else {
                    assert(old_current.to_set() =~= old_current.to_set().insert(more@[j as int]));
                }
                proof {
                    assert(more@.subrange(0, j + 1) =~= more@.subrange(0, j as int).push(
                        more@[j as int],
                    ));
                    lemma_to_set_push(more@.subrange(0, j as int), more@[j as int]);
                    assert(current@.to_set() =~= before.union(more@.subrange(0, j + 1).to_set()));
                }
                j += 1;
            }
            assert(more@.subrange(0, j as int) =~= more@);
            if !grew {
                proof {
                    assert(rule_moves(self@, before, None).subset_of(before)) by {
                        assert forall|t: usize| rule_moves(self@, before, None).contains(t) implies before.contains(t) by {
                            assert(more@.to_set().contains(t));
                            assert(current@.to_set().contains(t));
                        }
                    }
                    lemma_closure_least(self@, start, before);
                    assert(current@.to_set() =~= free_move_closure(self@, start));
                }
                return current;
            }
            proof {
                let t = choose|t: usize| current@.contains(t) && !before.contains(t);
                lemma_len_subset(before.insert(t), current@.to_set());
                lemma_len_subset(current@.to_set(), universe);
            }
        }
    }
}

pub proof fn lemma_to_set_push(states: Seq<usize>, state: usize)
    ensures
        states.push(state).to_set() == states.to_set().insert(state),
{
    assert forall|t: usize| states.push(state).contains(t) implies states.to_set().insert(
        state,
    ).contains(t) by {
        let k = choose|k: int| 0 <= k < states.push(state).len() && states.push(state)[k] == t;
        if k < states.len() {
            assert(states[k] == t);
        }
    }
    assert forall|t: usize| states.to_set().insert(state).contains(t) implies states.push(
        state,
    ).contains(t) by {
        if t == state {
            assert(states.push(state)[states.len() as int] == t);
        } else {
            let k = choose|k: int| 0 <= k < states.len() && states[k] == t;
            assert(states.push(state)[k] == t);
        }
    }
    assert(states.push(state).to_set() =~= states.to_set().insert(state));
}

/// Following rules from one more state adds exactly that state's moves.
pub proof fn lemma_rule_moves_insert(
    rules: Seq<FiniteAutomatonRule>,
    states: Set<usize>,
    state: usize,
    character: Option<char>,
)
    ensures
        rule_moves(rules, states.insert(state), character) == rule_moves(
            rules,
            states,
            character,
        ).union(rule_moves(rules, set![state], character)),
{
    assert(rule_moves(rules, states.insert(state), character) =~= rule_moves(
        rules,
        states,
        character,
    ).union(rule_moves(rules, set![state], character)));
}


} // verus!
