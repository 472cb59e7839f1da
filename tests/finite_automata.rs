use automata::deterministic_finite_automaton::DeterministicFiniteAutomaton;
use automata::deterministic_finite_automaton_design::DeterministicFiniteAutomatonDesign;
use automata::deterministic_finite_automaton_rule_book::DeterministicFiniteAutomatonRuleBook;
use automata::finite_automaton_rule::FiniteAutomatonRule;
use automata::nondeterministic_finite_automaton::NondeterministicFiniteAutomaton;
use automata::nondeterministic_finite_automaton_design::NondeterministicFiniteAutomatonDesign;
use automata::nondeterministic_finite_automaton_rule_book::NondeterministicFiniteAutomatonRuleBook;

fn rule(state: usize, character: char, next_state: usize) -> FiniteAutomatonRule {
    FiniteAutomatonRule::new(state, Some(character), next_state)
}

fn free_move(state: usize, next_state: usize) -> FiniteAutomatonRule {
    FiniteAutomatonRule::new(state, None, next_state)
}

fn sorted(mut states: Vec<usize>) -> Vec<usize> {
    states.sort();
    states
}

fn deterministic_rule_book() -> DeterministicFiniteAutomatonRuleBook {
    DeterministicFiniteAutomatonRuleBook::new(vec![
        rule(1, 'a', 2),
        rule(1, 'b', 1),
        rule(2, 'a', 2),
        rule(2, 'b', 3),
        rule(3, 'a', 3),
        rule(3, 'b', 3),
    ])
}

fn nondeterministic_rule_book() -> NondeterministicFiniteAutomatonRuleBook {
    NondeterministicFiniteAutomatonRuleBook::new(vec![
        rule(1, 'a', 1),
        rule(1, 'b', 1),
        rule(1, 'b', 2),
        rule(2, 'a', 3),
        rule(2, 'b', 3),
        rule(3, 'a', 4),
        rule(3, 'b', 4),
    ])
}

fn free_move_rule_book() -> NondeterministicFiniteAutomatonRuleBook {
    NondeterministicFiniteAutomatonRuleBook::new(vec![
        free_move(1, 2),
        free_move(1, 4),
        rule(2, 'a', 3),
        rule(3, 'a', 2),
        rule(4, 'a', 5),
        rule(5, 'a', 6),
        rule(6, 'a', 4),
    ])
}

#[test]
fn rule_applies_to_its_state_and_character_only() {
    let r = rule(1, 'a', 2);
    assert!(r.applies_to(1, Some('a')));
    assert!(!r.applies_to(1, Some('b')));
    assert!(!r.applies_to(2, Some('a')));
    assert!(!r.applies_to(1, None));
    assert_eq!(r.follow(), 2);
    assert!(free_move(1, 2).applies_to(1, None));
}

#[test]
fn deterministic_rule_book_finds_next_state() {
    let book = deterministic_rule_book();
    assert_eq!(book.next_state(1, 'a'), Some(2));
    assert_eq!(book.next_state(1, 'b'), Some(1));
    assert_eq!(book.next_state(2, 'b'), Some(3));
    assert_eq!(book.next_state(4, 'a'), None);
    assert_eq!(book.rule_for(2, 'a'), Some(rule(2, 'a', 2)));
}

#[test]
fn deterministic_rule_book_takes_first_applicable_rule() {
    let book = DeterministicFiniteAutomatonRuleBook::new(vec![rule(1, 'a', 2), rule(1, 'a', 3)]);
    assert_eq!(book.next_state(1, 'a'), Some(2));
}

#[test]
fn deterministic_automaton_reads_characters() {
    let mut automaton = DeterministicFiniteAutomaton::new(1, vec![3], deterministic_rule_book());
    assert!(!automaton.accepting());
    automaton.read_character('b');
    assert!(!automaton.accepting());
    automaton.read_character('a');
    automaton.read_character('b');
    assert!(automaton.accepting());
}

#[test]
fn deterministic_automaton_ignores_unmatched_character() {
    let mut automaton = DeterministicFiniteAutomaton::new(3, vec![3], deterministic_rule_book());
    automaton.read_character('z');
    assert!(automaton.accepting());
    let mut automaton = DeterministicFiniteAutomaton::new(1, vec![3], deterministic_rule_book());
    automaton.read_string("zab");
    assert!(automaton.accepting());
}

#[test]
fn deterministic_design_scenarios() {
    let design = DeterministicFiniteAutomatonDesign::new(1, vec![3], deterministic_rule_book());
    assert!(!design.accepts("a"));
    assert!(!design.accepts("baa"));
    assert!(design.accepts("baba"));
    assert!(!design.accepts(""));
    // a design can be used again: each match starts afresh
    assert!(design.accepts("baba"));
    assert!(!design.accepts("a"));
}

#[test]
fn nondeterministic_design_scenarios() {
    let design = NondeterministicFiniteAutomatonDesign::new(1, vec![4], nondeterministic_rule_book());
    // accepted: the third character from the end is `b`
    assert!(design.accepts("bab"));
    assert!(design.accepts("bbbbb"));
    assert!(!design.accepts("bbabb"));
    assert!(!design.accepts(""));
}

#[test]
fn nondeterministic_automaton_tracks_all_states() {
    let mut automaton =
        NondeterministicFiniteAutomaton::new(vec![1], vec![4], nondeterministic_rule_book());
    assert!(!automaton.accepting());
    automaton.read_character('b');
    automaton.read_character('a');
    assert!(!automaton.accepting());
    automaton.read_character('b');
    assert!(automaton.accepting());
    let mut automaton =
        NondeterministicFiniteAutomaton::new(vec![1], vec![4], nondeterministic_rule_book());
    automaton.read_string("bbabb");
    assert!(!automaton.accepting());
}

#[test]
fn nondeterministic_automaton_without_states_rejects() {
    let mut automaton =
        NondeterministicFiniteAutomaton::new(vec![4], vec![4], nondeterministic_rule_book());
    assert!(automaton.accepting());
    automaton.read_character('a');
    assert!(!automaton.accepting());
    automaton.read_string("ab");
    assert!(!automaton.accepting());
}

#[test]
fn free_move_design_accepts_multiples_of_two_or_three() {
    let design = NondeterministicFiniteAutomatonDesign::new(1, vec![2, 4], free_move_rule_book());
    assert!(design.accepts("aa"));
    assert!(design.accepts("aaa"));
    assert!(!design.accepts("aaaaa"));
    assert!(design.accepts("aaaaaa"));
    assert!(!design.accepts("a"));
    assert!(design.accepts(""));
}

#[test]
fn next_state_collects_every_applicable_rule() {
    let book = nondeterministic_rule_book();
    assert_eq!(sorted(book.next_state(vec![1], Some('b'))), vec![1, 2]);
    assert_eq!(sorted(book.next_state(vec![1, 2], Some('a'))), vec![1, 3]);
    assert_eq!(sorted(book.next_state(vec![1, 2, 3], Some('b'))), vec![1, 2, 3, 4]);
    assert_eq!(book.next_state(vec![4], Some('a')), Vec::<usize>::new());
    assert_eq!(book.next_state(vec![1], None), Vec::<usize>::new());
}

#[test]
fn follow_rules_for_and_rule_for() {
    let book = nondeterministic_rule_book();
    assert_eq!(sorted(book.follow_rules_for(1, Some('b'))), vec![1, 2]);
    assert_eq!(book.rule_for(1, Some('b')), vec![rule(1, 'b', 1), rule(1, 'b', 2)]);
    assert_eq!(book.rule_for(4, Some('b')), Vec::<FiniteAutomatonRule>::new());
}

#[test]
fn follow_free_move_reaches_fixpoint() {
    let book = NondeterministicFiniteAutomatonRuleBook::new(vec![
        free_move(1, 2),
        free_move(2, 3),
        free_move(3, 1),
        free_move(3, 4),
        rule(4, 'a', 5),
        free_move(5, 6),
    ]);
    assert_eq!(sorted(book.follow_free_move(vec![1])), vec![1, 2, 3, 4]);
    assert_eq!(sorted(book.follow_free_move(vec![5])), vec![5, 6]);
    assert_eq!(sorted(book.follow_free_move(vec![7])), vec![7]);
    assert_eq!(book.follow_free_move(vec![]), Vec::<usize>::new());
}

#[test]
fn follow_free_move_is_idempotent() {
    let book = free_move_rule_book();
    let once = book.follow_free_move(vec![1]);
    let twice = book.follow_free_move(once.clone());
    assert_eq!(sorted(once.clone()), vec![1, 2, 4]);
    assert_eq!(sorted(twice), sorted(once));
}

#[test]
fn design_under_construction() {
    let mut design = NondeterministicFiniteAutomatonDesign::without_rule_book(1, vec![3]);
    assert!(!design.accepts("ab"));
    design.add_rule(rule(1, 'a', 2));
    design.merge_rule_book(NondeterministicFiniteAutomatonRuleBook::new(vec![rule(2, 'b', 3)]));
    assert_eq!(design.start_state(), 1);
    assert_eq!(design.accept_states(), vec![3]);
    assert_eq!(design.rule_book().rules(), vec![rule(1, 'a', 2), rule(2, 'b', 3)]);
    assert!(design.accepts("ab"));
    assert!(!design.accepts("a"));
    let mut automaton = design.to_automaton();
    automaton.read_string("ab");
    assert!(automaton.accepting());
}

#[test]
fn empty_rule_book_by_default() {
    let mut book = NondeterministicFiniteAutomatonRuleBook::default();
    assert_eq!(book.rules(), Vec::<FiniteAutomatonRule>::new());
    book.add_rule(free_move(1, 2));
    assert_eq!(book.rules(), vec![free_move(1, 2)]);
}
