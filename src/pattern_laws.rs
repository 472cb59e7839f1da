use vstd::prelude::*;

use crate::design_view::DesignView;
use crate::finite_automaton_rule::FiniteAutomatonRule;
use crate::nondeterministic_finite_automaton::{holds_accept_state, nfa_run};
use crate::nondeterministic_finite_automaton_design::nfa_accepts;
use crate::nondeterministic_finite_automaton_rule_book::{
    free_move_closure, free_moves_within, lemma_closure_extends, lemma_closure_least,
    lemma_rule_moves_in_targets, rule_moves, rule_targets,
};
use crate::regular_expression_pattern::{
    compile, free_moves_to, lemma_compile_uses_state_count, pattern_matches, single_rule_design,
    state_count, RegularExpressionPattern,
};

verus! {

/// Every state of `design`, its rules' included, lies in `[low, high)`.
pub open spec fn design_within(design: DesignView, low: nat, high: nat) -> bool {
    &&& low <= design.start < high
    &&& forall|i: int| 0 <= i < design.accepts.len() ==> low <= #[trigger] design.accepts[i] < high
    &&& forall|i: int|
        #![trigger design.rules[i]]
        0 <= i < design.rules.len() ==> low <= design.rules[i].state < high && low
            <= design.rules[i].next_state < high
}

/// Compiling from `next` on uses the states from `next` to the number it returns.
pub proof fn lemma_compile_within(pattern: RegularExpressionPattern, next: nat)
    requires
        next + state_count(pattern) <= usize::MAX,
    ensures
        design_within(compile(pattern, next).0, next, compile(pattern, next).1),
    decreases pattern,
{
    lemma_compile_uses_state_count(pattern, next);
    match pattern {
        RegularExpressionPattern::Concatenate(first, second) => {
            lemma_compile_uses_state_count(*first, next);
            let (a, after_first) = compile(*first, next);
            lemma_compile_within(*first, next);
            lemma_compile_within(*second, after_first);
            let (b, after_second) = compile(*second, after_first);
            let moves = free_moves_to(a.accepts, b.start);
            assert forall|i: int| 0 <= i < moves.len() implies moves[i].state == a.accepts[i]
                && moves[i].next_state == b.start by {}
        },
        RegularExpressionPattern::Choose(first, second) => {
            lemma_compile_uses_state_count(*first, next);
            let (a, after_first) = compile(*first, next);
            lemma_compile_within(*first, next);
            lemma_compile_within(*second, after_first);
            let (b, after_second) = compile(*second, after_first);
            let accept = (after_second + 1) as usize;
            let from_first = free_moves_to(a.accepts, accept);
            let from_second = free_moves_to(b.accepts, accept);
            assert forall|i: int| 0 <= i < from_first.len() implies from_first[i].state
                == a.accepts[i] by {}
            assert forall|i: int| 0 <= i < from_second.len() implies from_second[i].state
                == b.accepts[i] by {}
        },
        RegularExpressionPattern::Repeat(inner) => {
            lemma_compile_within(*inner, next);
            let (a, after_inner) = compile(*inner, next);
            let loops = free_moves_to(a.accepts, a.start);
            assert forall|i: int| 0 <= i < loops.len() implies loops[i].state == a.accepts[i] by {}
            let accepts = a.accepts.push(after_inner as usize);
            assert forall|i: int| 0 <= i < accepts.len() implies next <= #[trigger] accepts[i] < after_inner
                + 1 by {
                if i < a.accepts.len() {
                    assert(accepts[i] == a.accepts[i]);
                }
            }
        },
        _ => {},
    }
}

/// `state` renumbered `offset` higher.
pub open spec fn shift_state(state: usize, offset: nat) -> usize {
    (state + offset) as usize
}

pub open spec fn shift_rule(rule: FiniteAutomatonRule, offset: nat) -> FiniteAutomatonRule {
    FiniteAutomatonRule {
        state: shift_state(rule.state, offset),
        character: rule.character,
        next_state: shift_state(rule.next_state, offset),
    }
}

pub open spec fn shift_rules(rules: Seq<FiniteAutomatonRule>, offset: nat) -> Seq<
    FiniteAutomatonRule,
> {
    rules.map_values(|rule: FiniteAutomatonRule| shift_rule(rule, offset))
}

/// `design` with every state renumbered `offset` higher.
pub open spec fn shift_design(design: DesignView, offset: nat) -> DesignView {
    DesignView {
        start: shift_state(design.start, offset),
        accepts: design.accepts.map_values(|state: usize| shift_state(state, offset)),
        rules: shift_rules(design.rules, offset),
    }
}

/// Compiling from a higher number renumbers the states and changes nothing else.
pub proof fn lemma_compile_shift(pattern: RegularExpressionPattern, next: nat, offset: nat)
    requires
        next + offset + state_count(pattern) <= usize::MAX,
    ensures
        compile(pattern, next + offset).0 == shift_design(compile(pattern, next).0, offset),
        compile(pattern, next + offset).1 == compile(pattern, next).1 + offset,
    decreases pattern,
{
    lemma_compile_uses_state_count(pattern, next);
    lemma_compile_uses_state_count(pattern, next + offset);
    let moved = compile(pattern, next + offset).0;
    let shifted = shift_design(compile(pattern, next).0, offset);
    match pattern {
        RegularExpressionPattern::Empty => {
            assert(moved.accepts =~= shifted.accepts);
            assert(moved.rules =~= shifted.rules);
        },
        RegularExpressionPattern::Literal(_) => {
            assert(moved.accepts =~= shifted.accepts);
            assert(moved.rules =~= shifted.rules);
        },
        RegularExpressionPattern::Concatenate(first, second) => {
            lemma_compile_uses_state_count(*first, next);
            let (a, after_first) = compile(*first, next);
            lemma_compile_shift(*first, next, offset);
            lemma_compile_shift(*second, after_first, offset);
            let (b, _) = compile(*second, after_first);
            assert(moved.accepts =~= shifted.accepts);
            assert(shift_rules(a.rules + b.rules + free_moves_to(a.accepts, b.start), offset)
                =~= shift_rules(a.rules, offset) + shift_rules(b.rules, offset) + free_moves_to(
                shift_design(a, offset).accepts,
                shift_state(b.start, offset),
            ));
            assert(moved.rules =~= shifted.rules);
        },
        RegularExpressionPattern::Choose(first, second) => {
            lemma_compile_uses_state_count(*first, next);
            let (a, after_first) = compile(*first, next);
            lemma_compile_shift(*first, next, offset);
            lemma_compile_shift(*second, after_first, offset);
            let (b, after_second) = compile(*second, after_first);
            let start = after_second as usize;
            let accept = (after_second + 1) as usize;
            assert(moved.accepts =~= shifted.accepts);
            assert(shift_rules(
                a.rules + b.rules + seq![
                    FiniteAutomatonRule { state: start, character: None, next_state: a.start },
                    FiniteAutomatonRule { state: start, character: None, next_state: b.start },
                ] + free_moves_to(a.accepts, accept) + free_moves_to(b.accepts, accept),
                offset,
            ) =~= shift_rules(a.rules, offset) + shift_rules(b.rules, offset) + seq![
                FiniteAutomatonRule {
                    state: shift_state(start, offset),
                    character: None,
                    next_state: shift_state(a.start, offset),
                },
                FiniteAutomatonRule {
                    state: shift_state(start, offset),
                    character: None,
                    next_state: shift_state(b.start, offset),
                },
            ] + free_moves_to(shift_design(a, offset).accepts, shift_state(accept, offset))
                + free_moves_to(shift_design(b, offset).accepts, shift_state(accept, offset)));
            assert(moved.rules =~= shifted.rules);
        },
        RegularExpressionPattern::Repeat(inner) => {
            let (a, after_inner) = compile(*inner, next);
            lemma_compile_shift(*inner, next, offset);
            let start = after_inner as usize;
            assert(moved.accepts =~= shifted.accepts);
            assert(shift_rules(
                a.rules + seq![
                    FiniteAutomatonRule { state: start, character: None, next_state: a.start },
                ] + free_moves_to(a.accepts, a.start),
                offset,
            ) =~= shift_rules(a.rules, offset) + seq![
                FiniteAutomatonRule {
                    state: shift_state(start, offset),
                    character: None,
                    next_state: shift_state(a.start, offset),
                },
            ] + free_moves_to(shift_design(a, offset).accepts, shift_state(a.start, offset)));
            assert(moved.rules =~= shifted.rules);
        },
    }
}

/// `states` renumbered `offset` higher.
pub open spec fn shift_states(states: Set<usize>, offset: nat) -> Set<usize> {
    Set::new(|t: usize| t >= offset && states.contains((t - offset) as usize))
}

pub open spec fn all_below(states: Set<usize>, bound: nat) -> bool {
    forall|state: usize| states.contains(state) ==> state < bound
}

pub open spec fn rules_below(rules: Seq<FiniteAutomatonRule>, bound: nat) -> bool {
    forall|i: int|
        #![trigger rules[i]]
        0 <= i < rules.len() ==> rules[i].state < bound && rules[i].next_state < bound
}

proof fn lemma_shift_moves(
    rules: Seq<FiniteAutomatonRule>,
    states: Set<usize>,
    character: Option<char>,
    bound: nat,
    offset: nat,
)
    requires
        rules_below(rules, bound),
        all_below(states, bound),
        bound + offset <= usize::MAX + 1,
    ensures
        rule_moves(shift_rules(rules, offset), shift_states(states, offset), character)
            == shift_states(rule_moves(rules, states, character), offset),
        all_below(rule_moves(rules, states, character), bound),
{
    let shifted = shift_rules(rules, offset);
    let moved = rule_moves(shifted, shift_states(states, offset), character);
    let before = rule_moves(rules, states, character);
    assert forall|t: usize| moved.contains(t) implies shift_states(before, offset).contains(t) by {
        let i = choose|i: int|
            #![trigger shifted[i]]
            0 <= i < shifted.len() && shift_states(states, offset).contains(shifted[i].state)
                && shifted[i].character == character && shifted[i].next_state == t;
        assert(shifted[i] == shift_rule(rules[i], offset));
        assert(rules[i].state < bound);
        assert(before.contains(rules[i].next_state));
    }
    assert forall|t: usize| shift_states(before, offset).contains(t) implies moved.contains(t) by {
        let u = (t - offset) as usize;
        let i = choose|i: int|
            #![trigger rules[i]]
            0 <= i < rules.len() && states.contains(rules[i].state) && rules[i].character
                == character && rules[i].next_state == u;
        assert(shifted[i] == shift_rule(rules[i], offset));
        assert(shift_states(states, offset).contains(shifted[i].state));
    }
    assert(moved =~= shift_states(before, offset));
    assert forall|t: usize| before.contains(t) implies t < bound by {
        let i = choose|i: int|
            #![trigger rules[i]]
            0 <= i < rules.len() && states.contains(rules[i].state) && rules[i].character
                == character && rules[i].next_state == t;
    }
}

proof fn lemma_shift_within(
    rules: Seq<FiniteAutomatonRule>,
    states: Set<usize>,
    steps: nat,
    bound: nat,
    offset: nat,
)
    requires
        rules_below(rules, bound),
        all_below(states, bound),
        bound + offset <= usize::MAX + 1,
    ensures
        free_moves_within(shift_rules(rules, offset), shift_states(states, offset), steps)
            == shift_states(free_moves_within(rules, states, steps), offset),
        all_below(free_moves_within(rules, states, steps), bound),
    decreases steps,
{
    if steps > 0 {
        let before = free_moves_within(rules, states, (steps - 1) as nat);
        lemma_shift_within(rules, states, (steps - 1) as nat, bound, offset);
        lemma_shift_moves(rules, before, None, bound, offset);
        assert(shift_states(before, offset).union(shift_states(rule_moves(rules, before, None), offset))
            =~= shift_states(before.union(rule_moves(rules, before, None)), offset));
    }
}

proof fn lemma_shift_closure(
    rules: Seq<FiniteAutomatonRule>,
    states: Set<usize>,
    bound: nat,
    offset: nat,
)
    requires
        rules_below(rules, bound),
        all_below(states, bound),
        bound + offset <= usize::MAX + 1,
    ensures
        free_move_closure(shift_rules(rules, offset), shift_states(states, offset))
            == shift_states(free_move_closure(rules, states), offset),
        all_below(free_move_closure(rules, states), bound),
{
    let shifted = shift_rules(rules, offset);
    let closure = free_move_closure(rules, states);
    let moved = free_move_closure(shifted, shift_states(states, offset));
    assert forall|t: usize| moved.contains(t) implies shift_states(closure, offset).contains(t) by {
        let steps = choose|steps: nat| #[trigger]
            free_moves_within(shifted, shift_states(states, offset), steps).contains(t);
        lemma_shift_within(rules, states, steps, bound, offset);
        assert(free_moves_within(rules, states, steps).contains((t - offset) as usize));
    }
    assert forall|t: usize| shift_states(closure, offset).contains(t) implies moved.contains(t) by {
        let steps = choose|steps: nat| #[trigger]
            free_moves_within(rules, states, steps).contains((t - offset) as usize);
        lemma_shift_within(rules, states, steps, bound, offset);
        assert(shift_states(free_moves_within(rules, states, steps), offset).contains(t));
        assert(free_moves_within(shifted, shift_states(states, offset), steps).contains(t));
    }
    assert(moved =~= shift_states(closure, offset));
    assert forall|t: usize| closure.contains(t) implies t < bound by {
        let steps = choose|steps: nat| #[trigger] free_moves_within(rules, states, steps).contains(t);
        lemma_shift_within(rules, states, steps, bound, offset);
    }
}

proof fn lemma_shift_run(
    rules: Seq<FiniteAutomatonRule>,
    states: Set<usize>,
    input: Seq<char>,
    bound: nat,
    offset: nat,
)
    requires
        rules_below(rules, bound),
        all_below(states, bound),
        bound + offset <= usize::MAX + 1,
    ensures
        nfa_run(shift_rules(rules, offset), shift_states(states, offset), input) == shift_states(
            nfa_run(rules, states, input),
            offset,
        ),
        all_below(nfa_run(rules, states, input), bound),
    decreases input.len(),
{
    if input.len() > 0 {
        let before = nfa_run(rules, states, input.drop_last());
        lemma_shift_run(rules, states, input.drop_last(), bound, offset);
        lemma_shift_moves(rules, before, Some(input.last()), bound, offset);
        lemma_shift_closure(rules, rule_moves(rules, before, Some(input.last())), bound, offset);
    }
}

/// Renumbering the states of a design changes nothing it accepts.
pub proof fn lemma_shift_accepts(design: DesignView, bound: nat, offset: nat, input: Seq<char>)
    requires
        design_within(design, 0, bound),
        bound + offset <= usize::MAX + 1,
    ensures
        nfa_accepts(shift_design(design, offset), input) == nfa_accepts(design, input),
{
    let shifted = shift_design(design, offset);
    let start = set![design.start];
    assert(shift_states(start, offset) =~= set![shifted.start]);
    assert(rules_below(design.rules, bound));
    lemma_shift_closure(design.rules, start, bound, offset);
    let initial = free_move_closure(design.rules, start);
    lemma_shift_run(design.rules, initial, input, bound, offset);
    let run = nfa_run(design.rules, initial, input);
    assert(shifted.accepts.to_set() =~= shift_states(design.accepts.to_set(), offset)) by {
        assert forall|t: usize| shifted.accepts.to_set().contains(t) implies shift_states(
            design.accepts.to_set(),
            offset,
        ).contains(t) by {
            let i = choose|i: int| 0 <= i < shifted.accepts.len() && shifted.accepts[i] == t;
            assert(design.accepts[i] < bound);
            assert(design.accepts.contains(design.accepts[i]));
        }
        assert forall|t: usize| shift_states(design.accepts.to_set(), offset).contains(t) implies shifted.accepts.to_set().contains(t) by {
            let i = choose|i: int|
                0 <= i < design.accepts.len() && design.accepts[i] == (t - offset) as usize;
            assert(shifted.accepts[i] == t);
        }
    }
    if holds_accept_state(run, design.accepts.to_set()) {
        let state = choose|state: usize|
            run.contains(state) && design.accepts.to_set().contains(state);
        assert(shift_states(run, offset).contains(shift_state(state, offset)));
    }
    if holds_accept_state(shift_states(run, offset), shifted.accepts.to_set()) {
        let state = choose|state: usize|
            shift_states(run, offset).contains(state) && shifted.accepts.to_set().contains(state);
        assert(run.contains((state - offset) as usize));
    }
}

/// `inner` stands in `outer` from index `at` on.
pub open spec fn rules_embedded(
    inner: Seq<FiniteAutomatonRule>,
    outer: Seq<FiniteAutomatonRule>,
    at: int,
) -> bool {
    0 <= at && at + inner.len() <= outer.len() && forall|i: int|
        0 <= i < inner.len() ==> #[trigger] outer[at + i] == inner[i]
}

proof fn lemma_closure_of_embedded(
    inner: Seq<FiniteAutomatonRule>,
    outer: Seq<FiniteAutomatonRule>,
    at: int,
    states: Set<usize>,
)
    requires
        rules_embedded(inner, outer, at),
    ensures
        free_move_closure(inner, states).subset_of(free_move_closure(outer, states)),
{
    let closure = free_move_closure(outer, states);
    lemma_closure_extends(outer, states);
    assert forall|t: usize| rule_moves(inner, closure, None).contains(t) implies closure.contains(
        t,
    ) by {
        let i = choose|i: int|
            #![trigger inner[i]]
            0 <= i < inner.len() && closure.contains(inner[i].state) && inner[i].character
                == None::<char> && inner[i].next_state == t;
        assert(outer[at + i] == inner[i]);
        assert(rule_moves(outer, closure, None).contains(t));
    }
    lemma_closure_least(inner, states, closure);
}

proof fn lemma_closure_in_targets(rules: Seq<FiniteAutomatonRule>, states: Set<usize>)
    ensures
        free_move_closure(rules, states).subset_of(states.union(rule_targets(rules))),
{
    let holder = states.union(rule_targets(rules));
    lemma_rule_moves_in_targets(rules, holder, None);
    lemma_closure_least(rules, states, holder);
}

/// The states after `input` in the automaton of `x` followed by the empty pattern: those of
/// the automaton of `x`, and the empty pattern's two states once `x` has accepted.
pub open spec fn with_exit(
    states: Set<usize>,
    accepts: Set<usize>,
    exit: usize,
    end: usize,
) -> Set<usize> {
    if holds_accept_state(states, accepts) {
        states.union(set![exit, end])
    } else {
        states
    }
}

proof fn lemma_exit_closure(
    x: DesignView,
    bound: nat,
    rules: Seq<FiniteAutomatonRule>,
    states: Set<usize>,
)
    requires
        design_within(x, 0, bound),
        bound + 2 <= usize::MAX,
        rules == x.rules + seq![
            FiniteAutomatonRule { state: bound as usize, character: None, next_state: (bound + 1) as usize },
        ] + free_moves_to(x.accepts, bound as usize),
        all_below(states, bound),
    ensures
        free_move_closure(rules, states) == with_exit(
            free_move_closure(x.rules, states),
            x.accepts.to_set(),
            bound as usize,
            (bound + 1) as usize,
        ),
        all_below(free_move_closure(x.rules, states), bound),
{
    let exit = bound as usize;
    let end = (bound + 1) as usize;
    let inner = free_move_closure(x.rules, states);
    let outer = free_move_closure(rules, states);
    let accepts = x.accepts.to_set();
    let holder = with_exit(inner, accepts, exit, end);
    let n = x.rules.len() as int;
    assert(rules_below(x.rules, bound));
    lemma_shift_closure(x.rules, states, bound, 0);
    lemma_closure_extends(x.rules, states);
    lemma_closure_extends(rules, states);
    assert(rules_embedded(x.rules, rules, 0)) by {
        assert forall|i: int| 0 <= i < x.rules.len() implies #[trigger] rules[0 + i]
            == x.rules[i] by {}
    }
    lemma_closure_of_embedded(x.rules, rules, 0, states);
    assert(rules[n] == FiniteAutomatonRule { state: exit, character: None, next_state: end });
    if holds_accept_state(inner, accepts) {
        let a = choose|a: usize| inner.contains(a) && accepts.contains(a);
        let j = choose|j: int| 0 <= j < x.accepts.len() && x.accepts[j] == a;
        assert(rules[n + 1 + j] == FiniteAutomatonRule { state: a, character: None, next_state: exit });
        assert(rule_moves(rules, outer, None).contains(exit));
        assert(rule_moves(rules, outer, None).contains(end));
    }
    assert forall|t: usize| rule_moves(rules, holder, None).contains(t) implies holder.contains(t) by {
        let i = choose|i: int|
            #![trigger rules[i]]
            0 <= i < rules.len() && holder.contains(rules[i].state) && rules[i].character
                == None::<char> && rules[i].next_state == t;
        if i < n {
            assert(rules[i] == x.rules[i]);
            assert(inner.contains(rules[i].state));
            assert(rule_moves(x.rules, inner, None).contains(t));
        } else if i > n {
            let j = i - n - 1;
            assert(rules[i] == FiniteAutomatonRule { state: x.accepts[j], character: None, next_state: exit });
            assert(inner.contains(x.accepts[j]));
            assert(accepts.contains(x.accepts[j]));
        }
    }
    lemma_closure_least(rules, states, holder);
    assert(outer =~= holder);
}

proof fn lemma_exit_run(
    x: DesignView,
    bound: nat,
    rules: Seq<FiniteAutomatonRule>,
    input: Seq<char>,
)
    requires
        design_within(x, 0, bound),
        bound + 2 <= usize::MAX,
        rules == x.rules + seq![
            FiniteAutomatonRule { state: bound as usize, character: None, next_state: (bound + 1) as usize },
        ] + free_moves_to(x.accepts, bound as usize),
    ensures
        nfa_run(rules, free_move_closure(rules, set![x.start]), input) == with_exit(
            nfa_run(x.rules, free_move_closure(x.rules, set![x.start]), input),
            x.accepts.to_set(),
            bound as usize,
            (bound + 1) as usize,
        ),
        all_below(nfa_run(x.rules, free_move_closure(x.rules, set![x.start]), input), bound),
    decreases input.len(),
{
    let exit = bound as usize;
    let end = (bound + 1) as usize;
    if input.len() == 0 {
        lemma_exit_closure(x, bound, rules, set![x.start]);
    } else {
        let c = Some(input.last());
        lemma_exit_run(x, bound, rules, input.drop_last());
        let before = nfa_run(x.rules, free_move_closure(x.rules, set![x.start]), input.drop_last());
        let outer_before = with_exit(before, x.accepts.to_set(), exit, end);
        assert(rules_below(x.rules, bound));
        lemma_shift_moves(x.rules, before, c, bound, 0);
        let moved = rule_moves(x.rules, before, c);
        assert forall|t: usize| rule_moves(rules, outer_before, c).contains(t) <==> moved.contains(
            t,
        ) by {
            if rule_moves(rules, outer_before, c).contains(t) {
                let i = choose|i: int|
                    #![trigger rules[i]]
                    0 <= i < rules.len() && outer_before.contains(rules[i].state)
                        && rules[i].character == c && rules[i].next_state == t;
                assert(i < x.rules.len());
                assert(rules[i] == x.rules[i]);
            }
            if moved.contains(t) {
                let i = choose|i: int|
                    #![trigger x.rules[i]]
                    0 <= i < x.rules.len() && before.contains(x.rules[i].state)
                        && x.rules[i].character == c && x.rules[i].next_state == t;
                assert(rules[i] == x.rules[i]);
            }
        }
        assert(rule_moves(rules, outer_before, c) =~= moved);
        lemma_exit_closure(x, bound, rules, moved);
    }
}

/// The states after `input` in the automaton of the empty pattern followed by `x`: those of the
/// automaton of `x`, and the empty pattern's two states before any input.
proof fn lemma_entry_closure(
    x: DesignView,
    rules: Seq<FiniteAutomatonRule>,
    states: Set<usize>,
)
    requires
        forall|i: int| 0 <= i < x.rules.len() ==> 2 <= #[trigger] x.rules[i].next_state,
        rules == seq![FiniteAutomatonRule { state: 0, character: None, next_state: 1 }] + x.rules
            + free_moves_to(seq![1usize], x.start),
        forall|t: usize| states.contains(t) ==> 2 <= t,
    ensures
        free_move_closure(rules, states) == free_move_closure(x.rules, states),
        forall|t: usize| free_move_closure(x.rules, states).contains(t) ==> 2 <= t,
{
    let inner = free_move_closure(x.rules, states);
    let n = x.rules.len() as int;
    assert(rules_embedded(x.rules, rules, 1)) by {
        assert forall|i: int| 0 <= i < x.rules.len() implies #[trigger] rules[1 + i]
            == x.rules[i] by {}
    }
    lemma_closure_of_embedded(x.rules, rules, 1, states);
    lemma_closure_in_targets(x.rules, states);
    assert forall|t: usize| inner.contains(t) implies 2 <= t by {
        if !states.contains(t) {
            let targets = x.rules.map_values(|rule: FiniteAutomatonRule| rule.next_state);
            let i = choose|i: int| 0 <= i < targets.len() && targets[i] == t;
            assert(x.rules[i].next_state == t);
        }
    }
    lemma_closure_extends(x.rules, states);
    assert forall|t: usize| rule_moves(rules, inner, None).contains(t) implies inner.contains(t) by {
        let i = choose|i: int|
            #![trigger rules[i]]
            0 <= i < rules.len() && inner.contains(rules[i].state) && rules[i].character
                == None::<char> && rules[i].next_state == t;
        if 1 <= i <= n {
            assert(rules[i] == x.rules[i - 1]);
            assert(rule_moves(x.rules, inner, None).contains(t));
        } else if i == 0 {
            assert(rules[i].state == 0);
        } else {
            assert(rules[i].state == 1);
        }
    }
    lemma_closure_least(rules, states, inner);
    assert(free_move_closure(rules, states) =~= inner);
}

proof fn lemma_entry_run(x: DesignView, rules: Seq<FiniteAutomatonRule>, input: Seq<char>)
    requires
        2 <= x.start,
        forall|i: int|
            #![trigger x.rules[i]]
            0 <= i < x.rules.len() ==> 2 <= x.rules[i].state && 2 <= x.rules[i].next_state,
        rules == seq![FiniteAutomatonRule { state: 0, character: None, next_state: 1 }] + x.rules
            + free_moves_to(seq![1usize], x.start),
    ensures
        nfa_run(rules, free_move_closure(rules, set![0usize]), input) == if input.len() == 0 {
            nfa_run(x.rules, free_move_closure(x.rules, set![x.start]), input).union(
                set![0usize, 1usize],
            )
        } else {
            nfa_run(x.rules, free_move_closure(x.rules, set![x.start]), input)
        },
        forall|t: usize| #[trigger]
            nfa_run(x.rules, free_move_closure(x.rules, set![x.start]), input).contains(t) ==> 2
                <= t,
    decreases input.len(),
{
    let n = x.rules.len() as int;
    let first = free_move_closure(x.rules, set![x.start]);
    lemma_entry_closure(x, rules, set![x.start]);
    if input.len() == 0 {
        let outer = free_move_closure(rules, set![0usize]);
        let holder = first.union(set![0usize, 1usize]);
        lemma_closure_extends(rules, set![0usize]);
        lemma_closure_extends(x.rules, set![x.start]);
        assert(rules[0] == FiniteAutomatonRule { state: 0, character: None, next_state: 1 });
        assert(rules[n + 1] == FiniteAutomatonRule { state: 1, character: None, next_state: x.start });
        assert(rule_moves(rules, outer, None).contains(1));
        assert(rule_moves(rules, outer, None).contains(x.start));
        lemma_closure_least(rules, set![x.start], outer);
        assert forall|t: usize| rule_moves(rules, holder, None).contains(t) implies holder.contains(
            t,
        ) by {
            let i = choose|i: int|
                #![trigger rules[i]]
                0 <= i < rules.len() && holder.contains(rules[i].state) && rules[i].character
                    == None::<char> && rules[i].next_state == t;
            if 1 <= i <= n {
                assert(rules[i] == x.rules[i - 1]);
                assert(first.contains(rules[i].state));
                assert(rule_moves(x.rules, first, None).contains(t));
            }
        }
        lemma_closure_least(rules, set![0usize], holder);
        assert(outer =~= holder);
    } else {
        let c = Some(input.last());
        lemma_entry_run(x, rules, input.drop_last());
        let before = nfa_run(x.rules, first, input.drop_last());
        let outer_before = nfa_run(rules, free_move_closure(rules, set![0usize]), input.drop_last());
        let moved = rule_moves(x.rules, before, c);
        assert forall|t: usize| rule_moves(rules, outer_before, c).contains(t) <==> moved.contains(
            t,
        ) by {
            if rule_moves(rules, outer_before, c).contains(t) {
                let i = choose|i: int|
                    #![trigger rules[i]]
                    0 <= i < rules.len() && outer_before.contains(rules[i].state)
                        && rules[i].character == c && rules[i].next_state == t;
                assert(1 <= i <= n);
                assert(rules[i] == x.rules[i - 1]);
            }
            if moved.contains(t) {
                let i = choose|i: int|
                    #![trigger x.rules[i]]
                    0 <= i < x.rules.len() && before.contains(x.rules[i].state)
                        && x.rules[i].character == c && x.rules[i].next_state == t;
                assert(rules[i + 1] == x.rules[i]);
            }
        }
        assert(rule_moves(rules, outer_before, c) =~= moved);
        assert forall|t: usize| moved.contains(t) implies 2 <= t by {
            let i = choose|i: int|
                #![trigger x.rules[i]]
                0 <= i < x.rules.len() && before.contains(x.rules[i].state)
                    && x.rules[i].character == c && x.rules[i].next_state == t;
        }
        lemma_entry_closure(x, rules, moved);
    }
}

/// Following a pattern by the empty pattern changes nothing it matches.
pub proof fn lemma_concatenate_empty_after(pattern: RegularExpressionPattern, input: Seq<char>)
    requires
        state_count(
            RegularExpressionPattern::Concatenate(
                Box::new(pattern),
                Box::new(RegularExpressionPattern::Empty),
            ),
        ) <= usize::MAX,
    ensures
        pattern_matches(
            RegularExpressionPattern::Concatenate(
                Box::new(pattern),
                Box::new(RegularExpressionPattern::Empty),
            ),
            input,
        ) == pattern_matches(pattern, input),
{
    let whole = RegularExpressionPattern::Concatenate(
        Box::new(pattern),
        Box::new(RegularExpressionPattern::Empty),
    );
    assert(state_count(RegularExpressionPattern::Empty) == 2);
    assert(state_count(whole) == state_count(pattern) + 2);
    let (x, bound) = compile(pattern, 0);
    let exit = bound as usize;
    let end = (bound + 1) as usize;
    lemma_compile_uses_state_count(pattern, 0);
    lemma_compile_within(pattern, 0);
    let tail = compile(RegularExpressionPattern::Empty, bound).0;
    assert(tail == single_rule_design(exit, None, end));
    let design = compile(whole, 0).0;
    assert(design.accepts == tail.accepts);
    assert(design.rules == x.rules + seq![
        FiniteAutomatonRule { state: exit, character: None, next_state: end },
    ] + free_moves_to(x.accepts, exit));
    lemma_exit_run(x, bound, design.rules, input);
    let run = nfa_run(x.rules, free_move_closure(x.rules, set![x.start]), input);
    let accepts = x.accepts.to_set();
    assert(design.accepts[0] == end);
    assert(design.accepts.to_set() =~= set![end]);
    if holds_accept_state(run, accepts) {
        assert(with_exit(run, accepts, exit, end).contains(end));
    }
    if holds_accept_state(with_exit(run, accepts, exit, end), set![end]) {
        assert(!run.contains(end));
        assert(holds_accept_state(run, accepts));
    }
}

/// Putting the empty pattern before a pattern changes nothing it matches.
pub proof fn lemma_concatenate_empty_before(pattern: RegularExpressionPattern, input: Seq<char>)
    requires
        state_count(
            RegularExpressionPattern::Concatenate(
                Box::new(RegularExpressionPattern::Empty),
                Box::new(pattern),
            ),
        ) <= usize::MAX,
    ensures
        pattern_matches(
            RegularExpressionPattern::Concatenate(
                Box::new(RegularExpressionPattern::Empty),
                Box::new(pattern),
            ),
            input,
        ) == pattern_matches(pattern, input),
{
    let whole = RegularExpressionPattern::Concatenate(
        Box::new(RegularExpressionPattern::Empty),
        Box::new(pattern),
    );
    assert(state_count(RegularExpressionPattern::Empty) == 2);
    assert(state_count(whole) == state_count(pattern) + 2);
    let head = compile(RegularExpressionPattern::Empty, 0);
    assert(head == (single_rule_design(0, None, 1), 2nat));
    let (x, bound) = compile(pattern, 2);
    lemma_compile_uses_state_count(pattern, 2);
    lemma_compile_within(pattern, 2);
    let design = compile(whole, 0).0;
    assert(head.0.accepts =~= seq![1usize]);
    assert(design.rules =~= seq![FiniteAutomatonRule { state: 0, character: None, next_state: 1 }]
        + x.rules + free_moves_to(seq![1usize], x.start));
    lemma_entry_run(x, design.rules, input);
    let run = nfa_run(x.rules, free_move_closure(x.rules, set![x.start]), input);
    let accepts = x.accepts.to_set();
    assert(design.accepts == x.accepts);
    if input.len() == 0 && holds_accept_state(run.union(set![0usize, 1usize]), accepts) {
        let a = choose|a: usize| run.union(set![0usize, 1usize]).contains(a) && accepts.contains(a);
        let j = choose|j: int| 0 <= j < x.accepts.len() && x.accepts[j] == a;
        assert(run.contains(a));
    }
    assert(nfa_accepts(design, input) == nfa_accepts(x, input));
    let (first, first_bound) = compile(pattern, 0);
    lemma_compile_uses_state_count(pattern, 0);
    lemma_compile_within(pattern, 0);
    lemma_compile_shift(pattern, 0, 2);
    lemma_shift_accepts(first, first_bound, 2, input);
}

} // verus!
