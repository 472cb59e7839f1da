use vstd::prelude::*;

use crate::design_view::DesignView;
use crate::finite_automaton_rule::FiniteAutomatonRule;
use crate::nondeterministic_finite_automaton_design::{
    nfa_accepts, NondeterministicFiniteAutomatonDesign,
};
use crate::nondeterministic_finite_automaton::nfa_run;
use crate::nondeterministic_finite_automaton_rule_book::{free_move_closure, lemma_closure_extends};
use crate::regular_expression_context::RegularExpressionContext;

verus! {

/// A regular expression: the empty string, one character, two patterns one after the other,
/// either of two patterns, or a pattern repeated any number of times.
#[derive(Debug, PartialEq, Eq)]
pub enum RegularExpressionPattern {
    Empty,
    Literal(char),
    Concatenate(Box<RegularExpressionPattern>, Box<RegularExpressionPattern>),
    Choose(Box<RegularExpressionPattern>, Box<RegularExpressionPattern>),
    Repeat(Box<RegularExpressionPattern>),
}

/// How many states compiling `pattern` takes.
pub open spec fn state_count(pattern: RegularExpressionPattern) -> nat
    decreases pattern,
{
    match pattern {
        RegularExpressionPattern::Empty => 2,
        RegularExpressionPattern::Literal(_) => 2,
        RegularExpressionPattern::Concatenate(first, second) => state_count(*first) + state_count(
            *second,
        ),
        RegularExpressionPattern::Choose(first, second) => state_count(*first) + state_count(
            *second,
        ) + 2,
        RegularExpressionPattern::Repeat(inner) => state_count(*inner) + 1,
    }
}

/// A free move from each of `sources` to `target`, in order.
pub open spec fn free_moves_to(sources: Seq<usize>, target: usize) -> Seq<FiniteAutomatonRule> {
    sources.map_values(
        |source: usize| FiniteAutomatonRule { state: source, character: None, next_state: target },
    )
}

/// The one-rule design `start --character--> accept`.
pub open spec fn single_rule_design(
    start: usize,
    character: Option<char>,
    accept: usize,
) -> DesignView {
    DesignView {
        start,
        accepts: seq![accept],
        rules: seq![FiniteAutomatonRule { state: start, character, next_state: accept }],
    }
}

/// The Thompson construction: the design that `pattern` compiles to when its states are numbered
/// from `next` on, and the first number left unused.
pub open spec fn compile(pattern: RegularExpressionPattern, next: nat) -> (DesignView, nat)
    decreases pattern,
{
    match pattern {
        RegularExpressionPattern::Empty => (
            single_rule_design(next as usize, None, (next + 1) as usize),
            next + 2,
        ),
        RegularExpressionPattern::Literal(character) => (
            single_rule_design(next as usize, Some(character), (next + 1) as usize),
            next + 2,
        ),
        RegularExpressionPattern::Concatenate(first, second) => {
            let (first, after_first) = compile(*first, next);
            let (second, after_second) = compile(*second, after_first);
            (
                DesignView {
                    start: first.start,
                    accepts: second.accepts,
                    rules: first.rules + second.rules + free_moves_to(first.accepts, second.start),
                },
                after_second,
            )
        },
        RegularExpressionPattern::Choose(first, second) => {
            let (first, after_first) = compile(*first, next);
            let (second, after_second) = compile(*second, after_first);
            let start = after_second as usize;
            let accept = (after_second + 1) as usize;
            (
                DesignView {
                    start,
                    accepts: seq![accept],
                    rules: first.rules + second.rules + seq![
                        FiniteAutomatonRule { state: start, character: None, next_state: first.start },
                        FiniteAutomatonRule { state: start, character: None, next_state: second.start },
                    ] + free_moves_to(first.accepts, accept) + free_moves_to(second.accepts, accept),
                },
                after_second + 2,
            )
        },
        RegularExpressionPattern::Repeat(inner) => {
            let (inner, after_inner) = compile(*inner, next);
            let start = after_inner as usize;
            (
                DesignView {
                    start,
                    accepts: inner.accepts.push(start),
                    rules: inner.rules + seq![
                        FiniteAutomatonRule { state: start, character: None, next_state: inner.start },
                    ] + free_moves_to(inner.accepts, inner.start),
                },
                after_inner + 1,
            )
        },
    }
}

/// Whether `pattern` matches `input`: whether the automaton it compiles to accepts `input`.
pub open spec fn pattern_matches(pattern: RegularExpressionPattern, input: Seq<char>) -> bool {
    nfa_accepts(compile(pattern, 0).0, input)
}

pub proof fn lemma_compile_uses_state_count(pattern: RegularExpressionPattern, next: nat)
    ensures
        compile(pattern, next).1 == next + state_count(pattern),
    decreases pattern,
{
    match pattern {
        RegularExpressionPattern::Concatenate(first, second) => {
            lemma_compile_uses_state_count(*first, next);
            lemma_compile_uses_state_count(*second, next + state_count(*first));
        },
        RegularExpressionPattern::Choose(first, second) => {
            lemma_compile_uses_state_count(*first, next);
            lemma_compile_uses_state_count(*second, next + state_count(*first));
        },
        RegularExpressionPattern::Repeat(inner) => {
            lemma_compile_uses_state_count(*inner, next);
        },
        _ => {},
    }
}

/// A repeated pattern matches the empty string, whatever it repeats.
pub proof fn lemma_repeat_matches_empty(inner: RegularExpressionPattern)
    ensures
        pattern_matches(RegularExpressionPattern::Repeat(Box::new(inner)), Seq::empty()),
{
    let design = compile(RegularExpressionPattern::Repeat(Box::new(inner)), 0).0;
    let start_states = free_move_closure(design.rules, set![design.start]);
    lemma_closure_extends(design.rules, set![design.start]);
    assert(design.accepts[design.accepts.len() - 1] == design.start);
    assert(design.accepts.to_set().contains(design.start));
    assert(start_states.contains(design.start));
    assert(nfa_run(design.rules, start_states, Seq::empty()) == start_states);
}

/// Adds a free move from each of `sources` to `target`, in order.
fn add_free_moves(
    design: &mut NondeterministicFiniteAutomatonDesign,
    sources: &Vec<usize>,
    target: usize,
)
    ensures
        final(design)@ == (DesignView {
            rules: old(design)@.rules + free_moves_to(sources@, target),
            ..old(design)@
        }),
{
    let ghost initial = design@;
    let mut i: usize = 0;
    while i < sources.len()
        invariant
            i <= sources.len(),
            design@ == (DesignView {
                rules: initial.rules + free_moves_to(sources@.subrange(0, i as int), target),
                ..initial
            }),
        decreases sources.len() - i,
    {
        design.add_rule(FiniteAutomatonRule::new(sources[i], None, target));
        assert(free_moves_to(sources@.subrange(0, i + 1), target) =~= free_moves_to(
            sources@.subrange(0, i as int),
            target,
        ).push(FiniteAutomatonRule { state: sources@[i as int], character: None, next_state: target }));
        i += 1;
    }
    assert(sources@.subrange(0, i as int) =~= sources@);
}

impl RegularExpressionPattern {
    /// How many states compiling the pattern takes, or `None` where that does not fit in `usize`.
    pub fn state_count(&self) -> (count: Option<usize>)
        ensures
            count == if state_count(*self) <= usize::MAX {
                Some(state_count(*self) as usize)
            } else {
                None::<usize>
            },
        decreases self,
    {
        match self {
            RegularExpressionPattern::Empty => Some(2),
            RegularExpressionPattern::Literal(_) => Some(2),
            RegularExpressionPattern::Concatenate(first, second) => {
                match (first.state_count(), second.state_count()) {
                    (Some(a), Some(b)) => a.checked_add(b),
                    _ => None,
                }
            },
            RegularExpressionPattern::Choose(first, second) => {
                match (first.state_count(), second.state_count()) {
                    (Some(a), Some(b)) => match a.checked_add(b) {
                        Some(c) => c.checked_add(2),
                        None => None,
                    },
                    _ => None,
                }
            },
            RegularExpressionPattern::Repeat(inner) => match inner.state_count() {
                Some(a) => a.checked_add(1),
                None => None,
            },
        }
    }

    /// Compiles the pattern and runs the automaton on `string`.
    pub fn matches(&self, string: &str) -> (r: bool)
        requires
            state_count(*self) <= usize::MAX,
        ensures
            r == pattern_matches(*self, string@),
    {
        let mut context = RegularExpressionContext::default();
        let design = self.to_design(&mut context);
        design.accepts(string)
    }

    /// Compiles the pattern with states from `context` (the Thompson construction).
    pub fn to_design(&self, context: &mut RegularExpressionContext) -> (design:
        NondeterministicFiniteAutomatonDesign)
        requires
            old(context)@ + state_count(*self) <= usize::MAX,
        ensures
            (design@, final(context)@ as nat) == compile(*self, old(context)@ as nat),
        decreases self,
    {
        proof {
            lemma_compile_uses_state_count(*self, context@ as nat);
        }
        match self {
            RegularExpressionPattern::Empty => {
                let start_state = context.next_state();
                let accept_state = context.next_state();
                let mut design = NondeterministicFiniteAutomatonDesign::without_rule_book(
                    start_state,
                    vec![accept_state],
                );
                design.add_rule(FiniteAutomatonRule::new(start_state, None, accept_state));
                assert(design@.accepts =~= seq![accept_state]);
                assert(design@.rules =~= seq![
                    FiniteAutomatonRule { state: start_state, character: None, next_state: accept_state },
                ]);
                design
            },
            RegularExpressionPattern::Literal(character) => {
                let start_state = context.next_state();
                let accept_state = context.next_state();
                let mut design = NondeterministicFiniteAutomatonDesign::without_rule_book(
                    start_state,
                    vec![accept_state],
                );
                design.add_rule(FiniteAutomatonRule::new(start_state, Some(*character), accept_state));
                assert(design@.accepts =~= seq![accept_state]);
                assert(design@.rules =~= seq![
                    FiniteAutomatonRule { state: start_state, character: Some(*character), next_state: accept_state },
                ]);
                design
            },
            RegularExpressionPattern::Concatenate(first, second) => {
                proof {
                    lemma_compile_uses_state_count(**first, context@ as nat);
                }
                let first = first.to_design(context);
                let second = second.to_design(context);
                let mut design = NondeterministicFiniteAutomatonDesign::without_rule_book(
                    first.start_state(),
                    second.accept_states(),
                );
                design.merge_rule_book(first.rule_book());
                design.merge_rule_book(second.rule_book());
                add_free_moves(&mut design, &first.accept_states(), second.start_state());
                assert(design@.rules =~= first@.rules + second@.rules + free_moves_to(
                    first@.accepts,
                    second@.start,
                ));
                design
            },
            RegularExpressionPattern::Choose(first, second) => {
                proof {
                    lemma_compile_uses_state_count(**first, context@ as nat);
                    lemma_compile_uses_state_count(
                        **second,
                        (context@ + state_count(**first)) as nat,
                    );
                }
                let first = first.to_design(context);
                let second = second.to_design(context);
                let start_state = context.next_state();
                let accept_state = context.next_state();
                let mut design = NondeterministicFiniteAutomatonDesign::without_rule_book(
                    start_state,
                    vec![accept_state],
                );
                design.merge_rule_book(first.rule_book());
                design.merge_rule_book(second.rule_book());
                design.add_rule(FiniteAutomatonRule::new(start_state, None, first.start_state()));
                design.add_rule(FiniteAutomatonRule::new(start_state, None, second.start_state()));
                add_free_moves(&mut design, &first.accept_states(), accept_state);
                add_free_moves(&mut design, &second.accept_states(), accept_state);
                assert(design@.rules =~= first@.rules + second@.rules + seq![
                    FiniteAutomatonRule { state: start_state, character: None, next_state: first@.start },
                    FiniteAutomatonRule { state: start_state, character: None, next_state: second@.start },
                ] + free_moves_to(first@.accepts, accept_state) + free_moves_to(
                    second@.accepts,
                    accept_state,
                ));
                assert(design@.accepts =~= seq![accept_state]);
                design
            },
            RegularExpressionPattern::Repeat(inner) => {
                proof {
                    lemma_compile_uses_state_count(**inner, context@ as nat);
                }
                let inner = inner.to_design(context);
                let start_state = context.next_state();
                let mut accept_states = inner.accept_states();
                accept_states.push(start_state);
                let mut design = NondeterministicFiniteAutomatonDesign::without_rule_book(
                    start_state,
                    accept_states,
                );
                design.merge_rule_book(inner.rule_book());
                design.add_rule(FiniteAutomatonRule::new(start_state, None, inner.start_state()));
                add_free_moves(&mut design, &inner.accept_states(), inner.start_state());
                assert(design@.rules =~= inner@.rules + seq![
                    FiniteAutomatonRule { state: start_state, character: None, next_state: inner@.start },
                ] + free_moves_to(inner@.accepts, inner@.start));
                design
            },
        }
    }
}

} // verus!
