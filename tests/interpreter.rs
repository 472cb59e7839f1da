use automata::environment::Environment;
use automata::expression::Expression;
use automata::machine::Machine;
use automata::statement::Statement;

fn number(value: usize) -> Expression {
    Expression::Number(value)
}

fn variable(name: &str) -> Expression {
    Expression::Variable(name.to_string())
}

fn boxed(e: Expression) -> Box<Expression> {
    Box::new(e)
}

fn x_below_five_times_three() -> Statement {
    Statement::While(
        Expression::LessThan(boxed(variable("x")), boxed(number(5))),
        Box::new(Statement::Assign(
            "x".to_string(),
            Expression::Multiply(boxed(variable("x")), boxed(number(3))),
        )),
    )
}

fn environment_with_x(value: usize) -> Environment {
    let mut environment = Environment::new();
    environment.insert("x", number(value));
    environment
}

#[test]
fn environment_binds_and_rebinds() {
    let mut environment = Environment::new();
    assert_eq!(environment.to_string(), "{  }");
    environment.insert("x", number(1));
    environment.insert("y", Expression::Boolean(true));
    assert!(environment.get("x").same_as(&number(1)));
    environment.insert("x", number(2));
    assert!(environment.get("x").same_as(&number(2)));
    assert!(environment.contains_key("y"));
    assert!(!environment.contains_key("z"));
    assert_eq!(environment.to_string(), "{ x = 2, y = true }");
}

#[test]
fn expression_text() {
    let e = Expression::Add(
        boxed(Expression::Multiply(boxed(number(1)), boxed(number(2)))),
        boxed(Expression::Not(boxed(variable("done")))),
    );
    assert_eq!(e.to_string(), "1 * 2 + !done");
    assert_eq!(number(1234).to_string(), "1234");
    assert_eq!(number(0).to_string(), "0");
    assert_eq!(
        Expression::GreaterThanOrEqual(boxed(variable("a")), boxed(Expression::Boolean(false)))
            .to_string(),
        "a >= false"
    );
}

#[test]
fn unwrap_values() {
    assert_eq!(number(7).unwrap_number(), 7);
    assert!(Expression::Boolean(true).unwrap_boolean());
    assert!(!number(7).is_reducible());
    assert!(variable("x").is_reducible());
}

#[test]
fn expression_reduces_leftmost_first() {
    let environment = environment_with_x(4);
    let e = Expression::Add(boxed(variable("x")), boxed(variable("x")));
    let once = e.reduce(&environment);
    assert_eq!(once.to_string(), "4 + x");
    let twice = once.reduce(&environment);
    assert_eq!(twice.to_string(), "4 + 4");
    let done = twice.reduce(&environment);
    assert!(done.same_as(&number(8)));
    assert!(!done.is_reducible());
}

#[test]
fn expression_evaluates() {
    let environment = environment_with_x(6);
    let e = Expression::And(
        boxed(Expression::LessThan(boxed(variable("x")), boxed(number(7)))),
        boxed(Expression::Equal(
            boxed(Expression::Divide(boxed(variable("x")), boxed(number(4)))),
            boxed(Expression::Subtract(boxed(number(3)), boxed(number(2)))),
        )),
    );
    assert!(e.evaluate(&environment).same_as(&Expression::Boolean(true)));
    let ne = Expression::NotEqual(boxed(number(1)), boxed(Expression::Boolean(true)));
    assert!(ne.evaluate(&environment).same_as(&Expression::Boolean(true)));
}

#[test]
fn failing_steps_are_detected() {
    let environment = Environment::new();
    assert!(!variable("x").can_reduce(&environment));
    assert!(!Expression::Subtract(boxed(number(1)), boxed(number(2))).can_reduce(&environment));
    assert!(!Expression::Divide(boxed(number(1)), boxed(number(0))).can_reduce(&environment));
    assert!(!Expression::Add(boxed(number(usize::MAX)), boxed(number(1))).can_reduce(&environment));
    assert!(!Expression::And(boxed(number(1)), boxed(number(1))).can_reduce(&environment));
    assert!(Expression::Add(boxed(number(1)), boxed(number(1))).can_reduce(&environment));
    assert!(!Statement::If(number(1), Box::new(Statement::Nothing), Box::new(Statement::Nothing))
        .can_reduce(&environment));
}

#[test]
fn statement_text() {
    assert_eq!(
        x_below_five_times_three().to_string(),
        "while ( x < 5 ) { x = x * 3 }"
    );
    let s = Statement::Sequence(
        Box::new(Statement::Assign("y".to_string(), number(1))),
        Box::new(Statement::If(
            Expression::Boolean(true),
            Box::new(Statement::Nothing),
            Box::new(Statement::Expression(number(2))),
        )),
    );
    assert_eq!(s.to_string(), "y = 1; if ( true ) { nothing } else { 2 }");
}

#[test]
fn machine_runs_while_loop() {
    let mut machine = Machine::new(x_below_five_times_three(), environment_with_x(1));
    let mut steps: usize = 0;
    while machine.statement().is_reducible() {
        assert!(machine.step());
        steps += 1;
    }
    assert!(machine.environment().get("x").same_as(&number(9)));
    assert_eq!(machine.statement().to_string(), "nothing");
    assert_eq!(steps, 20);
}

#[test]
fn machine_step_that_fails_changes_nothing() {
    let mut machine = Machine::new(
        Statement::Assign("y".to_string(), variable("undefined")),
        Environment::new(),
    );
    assert!(!machine.step());
    assert_eq!(machine.statement().to_string(), "y = undefined");
    assert_eq!(machine.environment().to_string(), "{  }");
}

#[test]
fn statement_evaluates_while_loop() {
    let mut environment = environment_with_x(1);
    let result = x_below_five_times_three().evaluate(&mut environment);
    assert_eq!(result.to_string(), "nothing");
    assert_eq!(environment.to_string(), "{ x = 9 }");
}

#[test]
fn statement_evaluates_if_and_expression() {
    let mut environment = environment_with_x(2);
    let s = Statement::If(
        Expression::GreaterThan(boxed(variable("x")), boxed(number(1))),
        Box::new(Statement::Expression(Expression::Add(boxed(variable("x")), boxed(number(40))))),
        Box::new(Statement::Nothing),
    );
    assert_eq!(s.evaluate(&mut environment).to_string(), "42");
}

#[test]
fn statement_reduces_step_by_step() {
    let mut environment = environment_with_x(1);
    let s = Statement::Assign("x".to_string(), Expression::Add(boxed(variable("x")), boxed(number(1))));
    let s = s.reduce(&mut environment);
    assert_eq!(s.to_string(), "x = 1 + 1");
    let s = s.reduce(&mut environment);
    assert_eq!(s.to_string(), "x = 2");
    let s = s.reduce(&mut environment);
    assert_eq!(s.to_string(), "nothing");
    assert_eq!(environment.to_string(), "{ x = 2 }");
    let unfolded = x_below_five_times_three().reduce(&mut environment);
    assert_eq!(
        unfolded.to_string(),
        "if ( x < 5 ) { x = x * 3; while ( x < 5 ) { x = x * 3 } } else { nothing }"
    );
}

#[test]
fn transpile_expressions_and_statements() {
    assert_eq!(number(5).transpile(), "-> e { 5 }");
    assert_eq!(variable("x").transpile(), "-> e { e[:x] }");
    assert_eq!(
        Expression::Add(boxed(variable("x")), boxed(number(1))).transpile(),
        "-> e { (-> e { e[:x] }).call(e) + (-> e { 1 }).call(e) }"
    );
    assert_eq!(
        Expression::Not(boxed(Expression::Boolean(true))).transpile(),
        "-> e { !(true).call(e) }"
    );
    assert_eq!(
        Statement::Assign("y".to_string(), number(3)).transpile(),
        "-> e { e.merge({ :y => (-> e { 3 }).call(e) }) }"
    );
    assert_eq!(Statement::Nothing.transpile(), "-> e {{ e }}");
    assert_eq!(
        x_below_five_times_three().transpile(),
        "-> e { while (-> e { (-> e { e[:x] }).call(e) < (-> e { 5 }).call(e) }).call(e); e = (-> e { e.merge({ :x => (-> e { (-> e { e[:x] }).call(e) * (-> e { 3 }).call(e) }).call(e) }) }).call(e); end; e; }"
    );
}
