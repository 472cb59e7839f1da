use automata::parser::{parse_pattern, ParseError};
use automata::regular_expression_context::RegularExpressionContext;
use automata::regular_expression_pattern::RegularExpressionPattern as Pattern;

fn literal(c: char) -> Pattern {
    Pattern::Literal(c)
}

fn concatenate(first: Pattern, second: Pattern) -> Pattern {
    Pattern::Concatenate(Box::new(first), Box::new(second))
}

fn either(first: Pattern, second: Pattern) -> Pattern {
    Pattern::Choose(Box::new(first), Box::new(second))
}

fn repeat(inner: Pattern) -> Pattern {
    Pattern::Repeat(Box::new(inner))
}

fn a_then_optional_b_repeated() -> Pattern {
    repeat(concatenate(literal('a'), either(Pattern::Empty, literal('b'))))
}

#[test]
fn repeated_a_then_optional_b() {
    let pattern = a_then_optional_b_repeated();
    assert!(pattern.matches(""));
    assert!(pattern.matches("a"));
    assert!(pattern.matches("ab"));
    assert!(pattern.matches("aba"));
    assert!(pattern.matches("abab"));
    assert!(pattern.matches("abaab"));
    assert!(!pattern.matches("abba"));
    assert!(!pattern.matches("b"));
}

#[test]
fn single_patterns() {
    assert!(Pattern::Empty.matches(""));
    assert!(!Pattern::Empty.matches("a"));
    assert!(literal('a').matches("a"));
    assert!(!literal('a').matches("b"));
    assert!(!literal('a').matches(""));
    assert!(!literal('a').matches("aa"));
}

#[test]
fn concatenation_and_choice() {
    let ab = concatenate(literal('a'), literal('b'));
    assert!(ab.matches("ab"));
    assert!(!ab.matches("a"));
    assert!(!ab.matches("ba"));
    let a_or_b = either(literal('a'), literal('b'));
    assert!(a_or_b.matches("a"));
    assert!(a_or_b.matches("b"));
    assert!(!a_or_b.matches("ab"));
    assert!(!a_or_b.matches(""));
}

#[test]
fn repetition_matches_empty_whatever_it_repeats() {
    assert!(repeat(literal('a')).matches(""));
    assert!(repeat(Pattern::Empty).matches(""));
    assert!(repeat(concatenate(literal('x'), literal('y'))).matches(""));
    assert!(repeat(literal('a')).matches("aaaa"));
    assert!(!repeat(literal('a')).matches("aab"));
}

#[test]
fn empty_on_either_side_of_concatenation_changes_nothing() {
    let x = either(literal('a'), repeat(literal('b')));
    for input in ["", "a", "b", "bbb", "ab", "ba", "aa"] {
        let expected = x.matches(input);
        assert_eq!(concatenate(Pattern::Empty, x_copy()).matches(input), expected);
        assert_eq!(concatenate(x_copy(), Pattern::Empty).matches(input), expected);
    }
}

fn x_copy() -> Pattern {
    either(literal('a'), repeat(literal('b')))
}

#[test]
fn parse_builds_trees_by_precedence() {
    assert_eq!(parse_pattern(""), Ok(Pattern::Empty));
    assert_eq!(parse_pattern("a"), Ok(literal('a')));
    assert_eq!(parse_pattern("ab"), Ok(concatenate(literal('a'), literal('b'))));
    assert_eq!(
        parse_pattern("a|b"),
        Ok(either(literal('a'), literal('b')))
    );
    assert_eq!(parse_pattern("ab*"), Ok(concatenate(literal('a'), repeat(literal('b')))));
    assert_eq!(parse_pattern("(a(|b))*"), Ok(a_then_optional_b_repeated()));
    assert_eq!(
        parse_pattern("a|b|c"),
        Ok(either(literal('a'), either(literal('b'), literal('c'))))
    );
    assert_eq!(parse_pattern("|"), Ok(either(Pattern::Empty, Pattern::Empty)));
    assert_eq!(parse_pattern("()"), Ok(Pattern::Empty));
}

#[test]
fn parse_rejects_malformed_patterns() {
    assert_eq!(parse_pattern(")"), Err(ParseError { position: 0 }));
    assert_eq!(parse_pattern("a**"), Err(ParseError { position: 2 }));
    assert_eq!(parse_pattern("(a"), Err(ParseError { position: 0 }));
    assert_eq!(parse_pattern("a)"), Err(ParseError { position: 1 }));
    assert_eq!(parse_pattern("*"), Err(ParseError { position: 0 }));
    assert_eq!(parse_pattern("a\\b"), Err(ParseError { position: 1 }));
}

#[test]
fn parsed_pattern_matches() {
    let pattern = parse_pattern("(a(|b))*").unwrap();
    assert!(pattern.matches("abaab"));
    assert!(!pattern.matches("abba"));
    let pattern = parse_pattern("a(|b)*").unwrap();
    assert!(pattern.matches("abbb"));
    assert!(!pattern.matches("abaab"));
}

#[test]
fn rendering_uses_brackets_only_where_needed() {
    assert_eq!(literal('a').to_string(), "a");
    assert_eq!(Pattern::Empty.to_string(), "()");
    assert_eq!(repeat(literal('a')).to_string(), "a*");
    assert_eq!(concatenate(literal('a'), literal('b')).to_string(), "ab");
    assert_eq!(either(literal('a'), literal('b')).to_string(), "a|b");
    assert_eq!(a_then_optional_b_repeated().to_string(), "(a(()|b))*");
    assert_eq!(
        concatenate(either(literal('a'), literal('b')), literal('c')).to_string(),
        "(a|b)c"
    );
    assert_eq!(repeat(repeat(literal('a'))).to_string(), "(a*)*");
}

#[test]
fn parse_render_parse_gives_same_pattern() {
    for text in ["", "a", "ab*", "(a(|b))*", "a|b|c", "(a|b)*c", "||", "((a))", "a*b*|c()"] {
        let pattern = parse_pattern(text).unwrap();
        let again = parse_pattern(&pattern.to_string()).unwrap();
        assert_eq!(again, pattern);
        for input in ["", "a", "b", "ab", "abc", "c", "aab"] {
            assert_eq!(again.matches(input), pattern.matches(input));
        }
    }
}

#[test]
fn context_hands_out_fresh_states() {
    let mut context = RegularExpressionContext::default();
    assert_eq!(context.next_state(), 0);
    assert_eq!(context.next_state(), 1);
    assert_eq!(context.next_state(), 2);
}

#[test]
fn thompson_construction_numbers_states() {
    let mut context = RegularExpressionContext::default();
    let design = literal('a').to_design(&mut context);
    assert_eq!(design.start_state(), 0);
    assert_eq!(design.accept_states(), vec![1]);
    assert_eq!(context.next_state(), 2);

    let mut context = RegularExpressionContext::default();
    let design = repeat(literal('a')).to_design(&mut context);
    assert_eq!(design.start_state(), 2);
    assert_eq!(design.accept_states(), vec![1, 2]);
    assert!(design.accepts(""));
    assert!(design.accepts("aaa"));

    let mut context = RegularExpressionContext::default();
    let design = either(literal('a'), literal('b')).to_design(&mut context);
    assert_eq!(design.start_state(), 4);
    assert_eq!(design.accept_states(), vec![5]);
    assert_eq!(design.rule_book().rules().len(), 2 + 2 + 2);
}

#[test]
fn state_count_of_patterns() {
    assert_eq!(Pattern::Empty.state_count(), Some(2));
    assert_eq!(a_then_optional_b_repeated().state_count(), Some(2 + 2 + 2 + 2 + 1));
}
