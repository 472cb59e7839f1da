pub mod design_view;
pub mod deterministic_finite_automaton;
pub mod deterministic_finite_automaton_design;
pub mod deterministic_finite_automaton_rule_book;
pub mod environment;
pub mod expression;
pub mod finite_automaton_rule;
pub mod machine;
pub mod nondeterministic_finite_automaton;
pub mod nondeterministic_finite_automaton_design;
pub mod nondeterministic_finite_automaton_rule_book;
pub mod parser;
pub mod pattern_laws;
pub mod pattern_rendering;
pub mod regular_expression_context;
pub mod regular_expression_pattern;
pub mod statement;
pub mod text;
