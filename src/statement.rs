use vstd::prelude::*;

use crate::environment::Environment;
use crate::expression::{
    evaluate_in, expression_text, expression_transpiled, is_value, reduce_step, Bindings, Expression,
};

verus! {

/// A statement of the small imperative language.
#[derive(Debug)]
pub enum Statement {
    Expression(Expression),
    Assign(String, Expression),
    If(Expression, Box<Statement>, Box<Statement>),
    Sequence(Box<Statement>, Box<Statement>),
    While(Expression, Box<Statement>),
    Nothing,
}

/// Whether a step can still be taken: `Nothing` and an expression that is a value are done.
pub open spec fn statement_reducible(s: Statement) -> bool {
    match s {
        Statement::Expression(e) => !is_value(e),
        Statement::Nothing => false,
        _ => true,
    }
}

/// One small step of `s` in `bindings`, with the bindings after it; `None` where the step fails.
/// An assignment of a value binds it and leaves `Nothing`; `if` on a boolean picks a branch; a
/// sequence drops a finished first part or steps it; `while` unfolds into an `if`.
pub open spec fn statement_step(s: Statement, bindings: Bindings) -> Option<(Statement, Bindings)>
    decreases s,
{
    match s {
        Statement::Expression(e) => if !is_value(e) {
            match reduce_step(e, bindings) {
                Some(next) => Some((Statement::Expression(next), bindings)),
                None => None,
            }
        } else {
            Some((s, bindings))
        },
        Statement::Assign(name, e) => if !is_value(e) {
            match reduce_step(e, bindings) {
                Some(next) => Some((Statement::Assign(name, next), bindings)),
                None => None,
            }
        } else {
            Some((Statement::Nothing, bindings.insert(name@, e)))
        },
        Statement::If(condition, consequence, alternative) => if !is_value(condition) {
            match reduce_step(condition, bindings) {
                Some(next) => Some((Statement::If(next, consequence, alternative), bindings)),
                None => None,
            }
        } else {
            match condition {
                Expression::Boolean(true) => Some((*consequence, bindings)),
                Expression::Boolean(false) => Some((*alternative, bindings)),
                _ => None,
            }
        },
        Statement::Sequence(first, second) => match *first {
            Statement::Nothing => Some((*second, bindings)),
            _ => match statement_step(*first, bindings) {
                Some((next, after)) => Some((Statement::Sequence(Box::new(next), second), after)),
                None => None,
            },
        },
        Statement::While(condition, body) => Some(
            (
                Statement::If(
                    condition,
                    Box::new(Statement::Sequence(body, Box::new(s))),
                    Box::new(Statement::Nothing),
                ),
                bindings,
            ),
        ),
        Statement::Nothing => Some((Statement::Nothing, bindings)),
    }
}

/// The text of `s`: `name = value`, `if ( c ) { a } else { b }`, `first; second`,
/// `while ( c ) { body }` and `nothing`.
pub open spec fn statement_text(s: Statement) -> Seq<char>
    decreases s,
{
    match s {
        Statement::Expression(e) => expression_text(e),
        Statement::Assign(name, e) => name@ + " = "@ + expression_text(e),
        Statement::If(condition, consequence, alternative) => "if ( "@ + expression_text(condition)
            + " ) { "@ + statement_text(*consequence) + " } else { "@ + statement_text(*alternative)
            + " }"@,
        Statement::Sequence(first, second) => statement_text(*first) + "; "@ + statement_text(
            *second,
        ),
        Statement::While(condition, body) => "while ( "@ + expression_text(condition) + " ) { "@
            + statement_text(*body) + " }"@,
        Statement::Nothing => "nothing"@,
    }
}

/// `s` written as a closure that takes the environment `e` and gives the environment after it.
pub open spec fn statement_transpiled(s: Statement) -> Seq<char>
    decreases s,
{
    match s {
        Statement::Expression(e) => expression_transpiled(e),
        Statement::Assign(name, e) => "-> e { e.merge({ :"@ + name@ + " => ("@
            + expression_transpiled(e) + ").call(e) }) }"@,
        Statement::If(condition, consequence, alternative) => "-> e { if ("@
            + expression_transpiled(condition) + ").call(e) then ("@ + statement_transpiled(
            *consequence,
        ) + ").call(e) else ("@ + statement_transpiled(*alternative) + ").call(e) end }"@,
        Statement::Sequence(first, second) => "-> e { ("@ + statement_transpiled(*second)
            + ").call(("@ + statement_transpiled(*first) + ").call(e)) }"@,
        Statement::While(condition, body) => "-> e { while ("@ + expression_transpiled(condition)
            + ").call(e); e = ("@ + statement_transpiled(*body) + ").call(e); end; e; }"@,
        Statement::Nothing => "-> e {{ e }}"@,
    }
}

/// Runs `s` to its end in `bindings`, allowing `fuel` rounds of each loop: an expression gives its
/// value, an assignment binds the value and gives `Nothing`, `if` runs the branch its condition
/// picks, a sequence runs both parts and gives `Nothing`, and `while` runs its body and then
/// itself again (one round of fuel less) as long as its condition holds. `None` where an
/// expression fails, a condition is no boolean, or a loop needs more rounds than `fuel`.
pub open spec fn run_with_fuel(s: Statement, bindings: Bindings, fuel: nat) -> Option<
    (Statement, Bindings),
>
    decreases fuel, s,
{
    match s {
        Statement::Expression(e) => match evaluate_in(e, bindings) {
            Some(value) => Some((Statement::Expression(value), bindings)),
            None => None,
        },
        Statement::Assign(name, e) => match evaluate_in(e, bindings) {
            Some(value) => Some((Statement::Nothing, bindings.insert(name@, value))),
            None => None,
        },
        Statement::If(condition, consequence, alternative) => match evaluate_in(
            condition,
            bindings,
        ) {
            Some(Expression::Boolean(true)) => run_with_fuel(*consequence, bindings, fuel),
            Some(Expression::Boolean(false)) => run_with_fuel(*alternative, bindings, fuel),
            _ => None,
        },
        Statement::Sequence(first, second) => match run_with_fuel(*first, bindings, fuel) {
            Some((_, after_first)) => match run_with_fuel(*second, after_first, fuel) {
                Some((_, after_second)) => Some((Statement::Nothing, after_second)),
                None => None,
            },
            None => None,
        },
        Statement::While(condition, body) => match evaluate_in(condition, bindings) {
            Some(Expression::Boolean(true)) => if fuel == 0 {
                None
            } else {
                match run_with_fuel(*body, bindings, fuel) {
                    Some((_, after_body)) => run_with_fuel(s, after_body, (fuel - 1) as nat),
                    None => None,
                }
            },
            Some(Expression::Boolean(false)) => Some((Statement::Nothing, bindings)),
            _ => None,
        },
        Statement::Nothing => Some((Statement::Nothing, bindings)),
    }
}

/// Whether running `s` in `bindings` ends, and without failing.
pub open spec fn runs_to_end(s: Statement, bindings: Bindings) -> bool {
    exists|fuel: nat| #[trigger] run_with_fuel(s, bindings, fuel) is Some
}

/// The least fuel with which `s` runs to its end in `bindings`.
#[verifier::opaque]
pub open spec fn fuel_needed(s: Statement, bindings: Bindings) -> nat {
    choose|fuel: nat|
        run_with_fuel(s, bindings, fuel) is Some && forall|less: nat|
            less < fuel ==> #[trigger] run_with_fuel(s, bindings, less) is None
}

/// What running `s` to its end in `bindings` gives: the final statement and bindings.
pub open spec fn run_to_end(s: Statement, bindings: Bindings) -> Option<(Statement, Bindings)> {
    run_with_fuel(s, bindings, fuel_needed(s, bindings))
}

/// More fuel than a run needs changes nothing.
pub proof fn lemma_more_fuel(s: Statement, bindings: Bindings, fuel: nat, more: nat)
    requires
        fuel <= more,
        run_with_fuel(s, bindings, fuel) is Some,
    ensures
        run_with_fuel(s, bindings, more) == run_with_fuel(s, bindings, fuel),
    decreases fuel, s,
{
    match s {
        Statement::If(condition, consequence, alternative) => {
            if evaluate_in(condition, bindings) == Some(Expression::Boolean(true)) {
                lemma_more_fuel(*consequence, bindings, fuel, more);
            } else {
                lemma_more_fuel(*alternative, bindings, fuel, more);
            }
        },
        Statement::Sequence(first, second) => {
            lemma_more_fuel(*first, bindings, fuel, more);
            let (_, after_first) = run_with_fuel(*first, bindings, fuel)->Some_0;
            lemma_more_fuel(*second, after_first, fuel, more);
        },
        Statement::While(condition, body) => {
            if evaluate_in(condition, bindings) == Some(Expression::Boolean(true)) {
                lemma_more_fuel(*body, bindings, fuel, more);
                let (_, after_body) = run_with_fuel(*body, bindings, fuel)->Some_0;
                lemma_more_fuel(s, after_body, (fuel - 1) as nat, (more - 1) as nat);
            }
        },
        _ => {},
    }
}

proof fn lemma_least_fuel(s: Statement, bindings: Bindings, fuel: nat)
    requires
        run_with_fuel(s, bindings, fuel) is Some,
    ensures
        run_with_fuel(s, bindings, fuel_needed(s, bindings)) is Some,
        fuel_needed(s, bindings) <= fuel,
        forall|less: nat|
            less < fuel_needed(s, bindings) ==> #[trigger] run_with_fuel(s, bindings, less) is None,
    decreases fuel,
{
    reveal(fuel_needed);
    if exists|less: nat| less < fuel && #[trigger] run_with_fuel(s, bindings, less) is Some {
        let less = choose|less: nat| less < fuel && #[trigger] run_with_fuel(s, bindings, less) is Some;
        lemma_least_fuel(s, bindings, less);
    } else {
        assert(run_with_fuel(s, bindings, fuel) is Some && forall|less: nat|
            less < fuel ==> #[trigger] run_with_fuel(s, bindings, less) is None);
    }
}

/// A run that ends gives the same result with any fuel that suffices.
pub proof fn lemma_run_to_end(s: Statement, bindings: Bindings, fuel: nat)
    requires
        run_with_fuel(s, bindings, fuel) is Some,
    ensures
        fuel_needed(s, bindings) <= fuel,
        run_to_end(s, bindings) == run_with_fuel(s, bindings, fuel),
{
    lemma_least_fuel(s, bindings, fuel);
    lemma_more_fuel(s, bindings, fuel_needed(s, bindings), fuel);
}

impl Statement {
    pub(crate) fn write(&self, text: &mut String)
        ensures
            final(text)@ == old(text)@ + statement_text(*self),
        decreases self,
    {
        match self {
            Statement::Expression(e) => e.write(text),
            Statement::Assign(name, e) => {
                text.append(name.as_str());
                text.append(" = ");
                e.write(text);
            },
            Statement::If(condition, consequence, alternative) => {
                text.append("if ( ");
                condition.write(text);
                text.append(" ) { ");
                consequence.write(text);
                text.append(" } else { ");
                alternative.write(text);
                text.append(" }");
            },
            Statement::Sequence(first, second) => {
                first.write(text);
                text.append("; ");
                second.write(text);
            },
            Statement::While(condition, body) => {
                text.append("while ( ");
                condition.write(text);
                text.append(" ) { ");
                body.write(text);
                text.append(" }");
            },
            Statement::Nothing => text.append("nothing"),
        }
        assert(text@ =~= old(text)@ + statement_text(*self));
    }

    /// The text of the statement (see `statement_text`).
    pub fn to_string(&self) -> (text: String)
        ensures
            text@ == statement_text(*self),
    {
        let mut text = String::new();
        self.write(&mut text);
        assert(text@ =~= statement_text(*self));
        text
    }

    fn write_transpiled(&self, text: &mut String)
        ensures
            final(text)@ == old(text)@ + statement_transpiled(*self),
        decreases self,
    {
        match self {
            Statement::Expression(e) => e.write_transpiled(text),
            Statement::Assign(name, e) => {
                text.append("-> e { e.merge({ :");
                text.append(name.as_str());
                text.append(" => (");
                e.write_transpiled(text);
                text.append(").call(e) }) }");
            },
            Statement::If(condition, consequence, alternative) => {
                text.append("-> e { if (");
                condition.write_transpiled(text);
                text.append(").call(e) then (");
                consequence.write_transpiled(text);
                text.append(").call(e) else (");
                alternative.write_transpiled(text);
                text.append(").call(e) end }");
            },
            Statement::Sequence(first, second) => {
                text.append("-> e { (");
                second.write_transpiled(text);
                text.append(").call((");
                first.write_transpiled(text);
                text.append(").call(e)) }");
            },
            Statement::While(condition, body) => {
                text.append("-> e { while (");
                condition.write_transpiled(text);
                text.append(").call(e); e = (");
                body.write_transpiled(text);
                text.append(").call(e); end; e; }");
            },
            Statement::Nothing => text.append("-> e {{ e }}"),
        }
        assert(text@ =~= old(text)@ + statement_transpiled(*self));
    }

    /// The statement written as a closure (see `statement_transpiled`).
    pub fn transpile(&self) -> (text: String)
        ensures
            text@ == statement_transpiled(*self),
    {
        let mut text = String::new();
        self.write_transpiled(&mut text);
        assert(text@ =~= statement_transpiled(*self));
        text
    }

    /// Runs the statement to its end (see `run_with_fuel`) and gives its final statement; the
    /// environment holds the bindings after it.
    pub fn evaluate(&self, environment: &mut Environment) -> (result: Statement)
        requires
            old(environment).well_formed(),
            runs_to_end(*self, old(environment)@),
        ensures
            final(environment).well_formed(),
            run_to_end(*self, old(environment)@) == Some((result, final(environment)@)),
        decreases fuel_needed(*self, old(environment)@), *self,
    {
        let ghost bindings = environment@;
        let ghost fuel = fuel_needed(*self, bindings);
        proof {
            let some_fuel = choose|f: nat| #[trigger] run_with_fuel(*self, bindings, f) is Some;
            lemma_run_to_end(*self, bindings, some_fuel);
        }
        match self {
            Statement::Expression(e) => Statement::Expression(e.evaluate(environment)),
            Statement::Assign(name, e) => {
                let value = e.evaluate(environment);
                environment.insert(name.as_str(), value);
                Statement::Nothing
            },
            Statement::If(condition, consequence, alternative) => {
                if condition.evaluate(environment).unwrap_boolean() {
                    proof {
                        lemma_run_to_end(**consequence, bindings, fuel);
                    }
                    consequence.evaluate(environment)
                } else {
                    proof {
                        lemma_run_to_end(**alternative, bindings, fuel);
                    }
                    alternative.evaluate(environment)
                }
            },
            Statement::Sequence(first, second) => {
                proof {
                    lemma_run_to_end(**first, bindings, fuel);
                }
                first.evaluate(environment);
                proof {
                    lemma_run_to_end(**second, environment@, fuel);
                }
                second.evaluate(environment);
                Statement::Nothing
            },
            Statement::While(condition, body) => {
                if condition.evaluate(environment).unwrap_boolean() {
                    proof {
                        lemma_run_to_end(**body, bindings, fuel);
                    }
                    body.evaluate(environment);
                    proof {
                        lemma_run_to_end(*self, environment@, (fuel - 1) as nat);
                    }
                    self.evaluate(environment)
                } else {
                    Statement::Nothing
                }
            },
            Statement::Nothing => Statement::Nothing,
        }
    }

    /// A copy of the statement.
    pub fn duplicate(&self) -> (copy: Statement)
        ensures
            copy == *self,
        decreases self,
    {
        match self {
            Statement::Expression(e) => Statement::Expression(e.duplicate()),
            Statement::Assign(name, e) => Statement::Assign(name.clone(), e.duplicate()),
            Statement::If(condition, consequence, alternative) => Statement::If(
                condition.duplicate(),
                Box::new(consequence.duplicate()),
                Box::new(alternative.duplicate()),
            ),
            Statement::Sequence(first, second) => Statement::Sequence(
                Box::new(first.duplicate()),
                Box::new(second.duplicate()),
            ),
            Statement::While(condition, body) => Statement::While(
                condition.duplicate(),
                Box::new(body.duplicate()),
            ),
            Statement::Nothing => Statement::Nothing,
        }
    }

    pub fn is_reducible(&self) -> (reducible: bool)
        ensures
            reducible == statement_reducible(*self),
    {
        match self {
            Statement::Expression(e) => e.is_reducible(),
            Statement::Nothing => false,
            _ => true,
        }
    }

    /// Whether one small step succeeds in `environment` (see `statement_step`).
    pub fn can_reduce(&self, environment: &Environment) -> (succeeds: bool)
        ensures
            succeeds == statement_step(*self, environment@) is Some,
        decreases self,
    {
        match self {
            Statement::Expression(e) | Statement::Assign(_, e) => e.can_reduce(environment),
            Statement::If(condition, _, _) => {
                if condition.is_reducible() {
                    condition.can_reduce(environment)
                } else {
                    matches!(condition, Expression::Boolean(_))
                }
            },
            Statement::Sequence(first, _) => match &**first {
                Statement::Nothing => true,
                _ => first.can_reduce(environment),
            },
            Statement::While(_, _) | Statement::Nothing => true,
        }
    }

    /// One small step in `environment`, which an assignment changes (see `statement_step`).
    pub fn reduce(&self, environment: &mut Environment) -> (next: Statement)
        requires
            old(environment).well_formed(),
            statement_step(*self, old(environment)@) is Some,
        ensures
            final(environment).well_formed(),
            Some((next, final(environment)@)) == statement_step(*self, old(environment)@),
        decreases self,
    {
        match self {
            Statement::Expression(e) => {
                if e.is_reducible() {
                    Statement::Expression(e.reduce(environment))
                } else {
                    Statement::Expression(e.duplicate())
                }
            },
            Statement::Assign(name, e) => {
                if e.is_reducible() {
                    Statement::Assign(name.clone(), e.reduce(environment))
                } else {
                    environment.insert(name.as_str(), e.duplicate());
                    Statement::Nothing
                }
            },
            Statement::If(condition, consequence, alternative) => {
                if condition.is_reducible() {
                    Statement::If(
                        condition.reduce(environment),
                        Box::new(consequence.duplicate()),
                        Box::new(alternative.duplicate()),
                    )
                } else if condition.unwrap_boolean() {
                    consequence.duplicate()
                } else {
                    alternative.duplicate()
                }
            },
            Statement::Sequence(first, second) => match &**first {
                Statement::Nothing => second.duplicate(),
                _ => {
                    let next = first.reduce(environment);
                    Statement::Sequence(Box::new(next), Box::new(second.duplicate()))
                },
            },
            Statement::While(condition, body) => Statement::If(
                condition.duplicate(),
                Box::new(Statement::Sequence(Box::new(body.duplicate()), Box::new(self.duplicate()))),
                Box::new(Statement::Nothing),
            ),
            Statement::Nothing => Statement::Nothing,
        }
    }
}

} // verus!
