use vstd::prelude::*;

use crate::environment::Environment;
use crate::text::{decimal, push_char, push_decimal};

verus! {

/// An expression of the small imperative language: numbers, booleans, variables, arithmetic,
/// logic and comparisons.
#[derive(Debug)]
pub enum Expression {
    Number(usize),
    Boolean(bool),
    Variable(String),
    Add(Box<Expression>, Box<Expression>),
    Subtract(Box<Expression>, Box<Expression>),
    Multiply(Box<Expression>, Box<Expression>),
    Divide(Box<Expression>, Box<Expression>),
    Not(Box<Expression>),
    And(Box<Expression>, Box<Expression>),
    Or(Box<Expression>, Box<Expression>),
    Equal(Box<Expression>, Box<Expression>),
    NotEqual(Box<Expression>, Box<Expression>),
    LessThan(Box<Expression>, Box<Expression>),
    LessThanOrEqual(Box<Expression>, Box<Expression>),
    GreaterThan(Box<Expression>, Box<Expression>),
    GreaterThanOrEqual(Box<Expression>, Box<Expression>),
}

/// Values of variables, by name.
pub type Bindings = Map<Seq<char>, Expression>;

/// Whether `e` is a value: a number or a boolean.
pub open spec fn is_value(e: Expression) -> bool {
    e is Number || e is Boolean
}

/// Whether `a` and `b` are the same expression, names compared by their characters.
pub open spec fn same_expression(a: Expression, b: Expression) -> bool
    decreases a,
{
    match (a, b) {
        (Expression::Number(x), Expression::Number(y)) => x == y,
        (Expression::Boolean(x), Expression::Boolean(y)) => x == y,
        (Expression::Variable(x), Expression::Variable(y)) => x@ == y@,
        (Expression::Not(x), Expression::Not(y)) => same_expression(*x, *y),
        (Expression::Add(a1, a2), Expression::Add(b1, b2)) => same_expression(*a1, *b1)
            && same_expression(*a2, *b2),
        (Expression::Subtract(a1, a2), Expression::Subtract(b1, b2)) => same_expression(*a1, *b1)
            && same_expression(*a2, *b2),
        (Expression::Multiply(a1, a2), Expression::Multiply(b1, b2)) => same_expression(*a1, *b1)
            && same_expression(*a2, *b2),
        (Expression::Divide(a1, a2), Expression::Divide(b1, b2)) => same_expression(*a1, *b1)
            && same_expression(*a2, *b2),
        (Expression::And(a1, a2), Expression::And(b1, b2)) => same_expression(*a1, *b1)
            && same_expression(*a2, *b2),
        (Expression::Or(a1, a2), Expression::Or(b1, b2)) => same_expression(*a1, *b1)
            && same_expression(*a2, *b2),
        (Expression::Equal(a1, a2), Expression::Equal(b1, b2)) => same_expression(*a1, *b1)
            && same_expression(*a2, *b2),
        (Expression::NotEqual(a1, a2), Expression::NotEqual(b1, b2)) => same_expression(*a1, *b1)
            && same_expression(*a2, *b2),
        (Expression::LessThan(a1, a2), Expression::LessThan(b1, b2)) => same_expression(*a1, *b1)
            && same_expression(*a2, *b2),
        (Expression::LessThanOrEqual(a1, a2), Expression::LessThanOrEqual(b1, b2)) =>
            same_expression(*a1, *b1) && same_expression(*a2, *b2),
        (Expression::GreaterThan(a1, a2), Expression::GreaterThan(b1, b2)) => same_expression(
            *a1,
            *b1,
        ) && same_expression(*a2, *b2),
        (Expression::GreaterThanOrEqual(a1, a2), Expression::GreaterThanOrEqual(b1, b2)) =>
            same_expression(*a1, *b1) && same_expression(*a2, *b2),
        _ => false,
    }
}

/// What the binary operator of `e` makes of the values `left` and `right`: `==` and `!=` compare
/// any two expressions; the others give `None` where the operands have the wrong type, the result
/// does not fit in `usize`, or a division is by zero.
pub open spec fn apply_operator(e: Expression, left: Expression, right: Expression) -> Option<
    Expression,
> {
    match e {
        Expression::Equal(_, _) => Some(Expression::Boolean(same_expression(left, right))),
        Expression::NotEqual(_, _) => Some(Expression::Boolean(!same_expression(left, right))),
        Expression::And(_, _) | Expression::Or(_, _) => match (left, right) {
            (Expression::Boolean(a), Expression::Boolean(b)) => Some(
                Expression::Boolean(
                    if e is And {
                        a && b
                    } else {
                        a || b
                    },
                ),
            ),
            _ => None,
        },
        _ => match (left, right) {
            (Expression::Number(a), Expression::Number(b)) => match e {
                Expression::Add(_, _) => if a + b <= usize::MAX {
                    Some(Expression::Number((a + b) as usize))
                } else {
                    None
                },
                Expression::Subtract(_, _) => if a >= b {
                    Some(Expression::Number((a - b) as usize))
                } else {
                    None
                },
                Expression::Multiply(_, _) => if a * b <= usize::MAX {
                    Some(Expression::Number((a * b) as usize))
                } else {
                    None
                },
                Expression::Divide(_, _) => if b != 0 {
                    Some(Expression::Number(a / b))
                } else {
                    None
                },
                Expression::LessThan(_, _) => Some(Expression::Boolean(a < b)),
                Expression::LessThanOrEqual(_, _) => Some(Expression::Boolean(a <= b)),
                Expression::GreaterThan(_, _) => Some(Expression::Boolean(a > b)),
                Expression::GreaterThanOrEqual(_, _) => Some(Expression::Boolean(a >= b)),
                _ => None,
            },
            _ => None,
        },
    }
}

/// `e`'s binary operator applied to new operands.
pub open spec fn with_operands(e: Expression, left: Expression, right: Expression) -> Expression {
    let (l, r) = (Box::new(left), Box::new(right));
    match e {
        Expression::Add(_, _) => Expression::Add(l, r),
        Expression::Subtract(_, _) => Expression::Subtract(l, r),
        Expression::Multiply(_, _) => Expression::Multiply(l, r),
        Expression::Divide(_, _) => Expression::Divide(l, r),
        Expression::And(_, _) => Expression::And(l, r),
        Expression::Or(_, _) => Expression::Or(l, r),
        Expression::Equal(_, _) => Expression::Equal(l, r),
        Expression::NotEqual(_, _) => Expression::NotEqual(l, r),
        Expression::LessThan(_, _) => Expression::LessThan(l, r),
        Expression::LessThanOrEqual(_, _) => Expression::LessThanOrEqual(l, r),
        Expression::GreaterThan(_, _) => Expression::GreaterThan(l, r),
        _ => Expression::GreaterThanOrEqual(l, r),
    }
}

/// One small step of `e` in `bindings`: a variable becomes its value, the leftmost operand that
/// is not a value takes a step, and an operator on values gives its result. A value stays as it
/// is. `None` where the step fails: an unbound variable or an operator that cannot apply.
pub open spec fn reduce_step(e: Expression, bindings: Bindings) -> Option<Expression>
    decreases e,
{
    match e {
        Expression::Number(_) => Some(e),
        Expression::Boolean(_) => Some(e),
        Expression::Variable(name) => if bindings.contains_key(name@) {
            Some(bindings[name@])
        } else {
            None
        },
        Expression::Not(inner) => if !is_value(*inner) {
            match reduce_step(*inner, bindings) {
                Some(next) => Some(Expression::Not(Box::new(next))),
                None => None,
            }
        } else {
            match *inner {
                Expression::Boolean(b) => Some(Expression::Boolean(!b)),
                _ => None,
            }
        },
        Expression::Add(l, r) | Expression::Subtract(l, r) | Expression::Multiply(l, r)
        | Expression::Divide(l, r) | Expression::And(l, r) | Expression::Or(l, r)
        | Expression::Equal(l, r) | Expression::NotEqual(l, r) | Expression::LessThan(l, r)
        | Expression::LessThanOrEqual(l, r) | Expression::GreaterThan(l, r)
        | Expression::GreaterThanOrEqual(l, r) => if !is_value(*l) {
            match reduce_step(*l, bindings) {
                Some(next) => Some(with_operands(e, next, *r)),
                None => None,
            }
        } else if !is_value(*r) {
            match reduce_step(*r, bindings) {
                Some(next) => Some(with_operands(e, *l, next)),
                None => None,
            }
        } else {
            apply_operator(e, *l, *r)
        },
    }
}

/// The value of `e` in `bindings`, operands from left to right; a variable gives its bound
/// expression as it is. `None` where evaluation fails.
pub open spec fn evaluate_in(e: Expression, bindings: Bindings) -> Option<Expression>
    decreases e,
{
    match e {
        Expression::Number(_) => Some(e),
        Expression::Boolean(_) => Some(e),
        Expression::Variable(name) => if bindings.contains_key(name@) {
            Some(bindings[name@])
        } else {
            None
        },
        Expression::Not(inner) => match evaluate_in(*inner, bindings) {
            Some(Expression::Boolean(b)) => Some(Expression::Boolean(!b)),
            _ => None,
        },
        Expression::Add(l, r) | Expression::Subtract(l, r) | Expression::Multiply(l, r)
        | Expression::Divide(l, r) | Expression::And(l, r) | Expression::Or(l, r)
        | Expression::Equal(l, r) | Expression::NotEqual(l, r) | Expression::LessThan(l, r)
        | Expression::LessThanOrEqual(l, r) | Expression::GreaterThan(l, r)
        | Expression::GreaterThanOrEqual(l, r) => match (
            evaluate_in(*l, bindings),
            evaluate_in(*r, bindings),
        ) {
            (Some(a), Some(b)) => apply_operator(e, a, b),
            _ => None,
        },
    }
}

/// How a binary operator is written, spaces around it included.
pub open spec fn operator_text(e: Expression) -> Seq<char> {
    match e {
        Expression::Add(_, _) => " + "@,
        Expression::Subtract(_, _) => " - "@,
        Expression::Multiply(_, _) => " * "@,
        Expression::Divide(_, _) => " / "@,
        Expression::And(_, _) => " && "@,
        Expression::Or(_, _) => " || "@,
        Expression::Equal(_, _) => " == "@,
        Expression::NotEqual(_, _) => " != "@,
        Expression::LessThan(_, _) => " < "@,
        Expression::LessThanOrEqual(_, _) => " <= "@,
        Expression::GreaterThan(_, _) => " > "@,
        _ => " >= "@,
    }
}

/// The text of `e`: numbers in decimal, `true` and `false`, names as they are, `!` before a
/// negated expression, and operands around their infix operator, without brackets.
pub open spec fn expression_text(e: Expression) -> Seq<char>
    decreases e,
{
    match e {
        Expression::Number(value) => decimal(value as nat),
        Expression::Boolean(value) => if value {
            "true"@
        } else {
            "false"@
        },
        Expression::Variable(name) => name@,
        Expression::Not(inner) => seq!['!'] + expression_text(*inner),
        Expression::Add(l, r) | Expression::Subtract(l, r) | Expression::Multiply(l, r)
        | Expression::Divide(l, r) | Expression::And(l, r) | Expression::Or(l, r)
        | Expression::Equal(l, r) | Expression::NotEqual(l, r) | Expression::LessThan(l, r)
        | Expression::LessThanOrEqual(l, r) | Expression::GreaterThan(l, r)
        | Expression::GreaterThanOrEqual(l, r) => expression_text(*l) + operator_text(e)
            + expression_text(*r),
    }
}

/// `e` written as a closure of a language with `-> e { ... }` lambdas, which takes the
/// environment `e` and gives the value: a value as it is, a variable looked up by its symbol, an
/// operator applied to its operands' closures called on `e`. A negation takes the text of its
/// operand, not its closure.
pub open spec fn expression_transpiled(e: Expression) -> Seq<char>
    decreases e,
{
    match e {
        Expression::Number(value) => "-> e { "@ + decimal(value as nat) + " }"@,
        Expression::Boolean(value) => "-> e { "@ + (if value {
            "true"@
        } else {
            "false"@
        }) + " }"@,
        Expression::Variable(name) => "-> e { e[:"@ + name@ + "] }"@,
        Expression::Not(inner) => "-> e { !("@ + expression_text(*inner) + ").call(e) }"@,
        Expression::Add(l, r) | Expression::Subtract(l, r) | Expression::Multiply(l, r)
        | Expression::Divide(l, r) | Expression::And(l, r) | Expression::Or(l, r)
        | Expression::Equal(l, r) | Expression::NotEqual(l, r) | Expression::LessThan(l, r)
        | Expression::LessThanOrEqual(l, r) | Expression::GreaterThan(l, r)
        | Expression::GreaterThanOrEqual(l, r) => "-> e { ("@ + expression_transpiled(*l)
            + ").call(e)"@ + operator_text(e) + "("@ + expression_transpiled(*r)
            + ").call(e) }"@,
    }
}

impl Expression {
    fn operator_text(&self) -> (text: &'static str)
        requires
            !(self is Number || self is Boolean || self is Variable || self is Not),
        ensures
            text@ == operator_text(*self),
    {
        match self {
            Expression::Add(_, _) => " + ",
            Expression::Subtract(_, _) => " - ",
            Expression::Multiply(_, _) => " * ",
            Expression::Divide(_, _) => " / ",
            Expression::And(_, _) => " && ",
            Expression::Or(_, _) => " || ",
            Expression::Equal(_, _) => " == ",
            Expression::NotEqual(_, _) => " != ",
            Expression::LessThan(_, _) => " < ",
            Expression::LessThanOrEqual(_, _) => " <= ",
            Expression::GreaterThan(_, _) => " > ",
            _ => " >= ",
        }
    }

    /// Appends the text of the expression (see `expression_text`).
    pub(crate) fn write(&self, text: &mut String)
        ensures
            final(text)@ == old(text)@ + expression_text(*self),
        decreases self,
    {
        match self {
            Expression::Number(value) => push_decimal(text, *value),
            Expression::Boolean(value) => {
                if *value {
                    text.append("true");
                } else {
                    text.append("false");
                }
            },
            Expression::Variable(name) => text.append(name.as_str()),
            Expression::Not(inner) => {
                push_char(text, '!');
                inner.write(text);
            },
            Expression::Add(l, r) | Expression::Subtract(l, r) | Expression::Multiply(l, r)
            | Expression::Divide(l, r) | Expression::And(l, r) | Expression::Or(l, r)
            | Expression::Equal(l, r) | Expression::NotEqual(l, r) | Expression::LessThan(l, r)
            | Expression::LessThanOrEqual(l, r) | Expression::GreaterThan(l, r)
            | Expression::GreaterThanOrEqual(l, r) => {
                l.write(text);
                text.append(self.operator_text());
                r.write(text);
            },
        }
        assert(text@ =~= old(text)@ + expression_text(*self));
    }

    /// The text of the expression (see `expression_text`).
    pub fn to_string(&self) -> (text: String)
        ensures
            text@ == expression_text(*self),
    {
        let mut text = String::new();
        self.write(&mut text);
        assert(text@ =~= expression_text(*self));
        text
    }

    /// Appends the expression written as a closure (see `expression_transpiled`).
    pub(crate) fn write_transpiled(&self, text: &mut String)
        ensures
            final(text)@ == old(text)@ + expression_transpiled(*self),
        decreases self,
    {
        match self {
            Expression::Number(value) => {
                text.append("-> e { ");
                push_decimal(text, *value);
                text.append(" }");
            },
            Expression::Boolean(value) => {
                text.append("-> e { ");
                if *value {
                    text.append("true");
                } else {
                    text.append("false");
                }
                text.append(" }");
            },
            Expression::Variable(name) => {
                text.append("-> e { e[:");
                text.append(name.as_str());
                text.append("] }");
            },
            Expression::Not(inner) => {
                text.append("-> e { !(");
                inner.write(text);
                text.append(").call(e) }");
            },
            Expression::Add(l, r) | Expression::Subtract(l, r) | Expression::Multiply(l, r)
            | Expression::Divide(l, r) | Expression::And(l, r) | Expression::Or(l, r)
            | Expression::Equal(l, r) | Expression::NotEqual(l, r) | Expression::LessThan(l, r)
            | Expression::LessThanOrEqual(l, r) | Expression::GreaterThan(l, r)
            | Expression::GreaterThanOrEqual(l, r) => {
                text.append("-> e { (");
                l.write_transpiled(text);
                text.append(").call(e)");
                text.append(self.operator_text());
                text.append("(");
                r.write_transpiled(text);
                text.append(").call(e) }");
            },
        }
        assert(text@ =~= old(text)@ + expression_transpiled(*self));
    }

    /// The expression written as a closure (see `expression_transpiled`).
    pub fn transpile(&self) -> (text: String)
        ensures
            text@ == expression_transpiled(*self),
    {
        let mut text = String::new();
        self.write_transpiled(&mut text);
        assert(text@ =~= expression_transpiled(*self));
        text
    }

    /// A copy of the expression.
    pub fn duplicate(&self) -> (copy: Expression)
        ensures
            copy == *self,
        decreases self,
    {
        match self {
            Expression::Number(value) => Expression::Number(*value),
            Expression::Boolean(value) => Expression::Boolean(*value),
            Expression::Variable(name) => Expression::Variable(name.clone()),
            Expression::Not(inner) => Expression::Not(Box::new(inner.duplicate())),
            Expression::Add(l, r) | Expression::Subtract(l, r) | Expression::Multiply(l, r)
            | Expression::Divide(l, r) | Expression::And(l, r) | Expression::Or(l, r)
            | Expression::Equal(l, r) | Expression::NotEqual(l, r) | Expression::LessThan(l, r)
            | Expression::LessThanOrEqual(l, r) | Expression::GreaterThan(l, r)
            | Expression::GreaterThanOrEqual(l, r) => self.with_operands(
                l.duplicate(),
                r.duplicate(),
            ),
        }
    }

    /// Whether the two are the same expression, names compared by their characters.
    pub fn same_as(&self, other: &Expression) -> (same: bool)
        ensures
            same == same_expression(*self, *other),
        decreases self,
    {
        match (self, other) {
            (Expression::Number(x), Expression::Number(y)) => *x == *y,
            (Expression::Boolean(x), Expression::Boolean(y)) => *x == *y,
            (Expression::Variable(x), Expression::Variable(y)) => *x == *y,
            (Expression::Not(x), Expression::Not(y)) => x.same_as(y),
            (Expression::Add(a1, a2), Expression::Add(b1, b2))
            | (Expression::Subtract(a1, a2), Expression::Subtract(b1, b2))
            | (Expression::Multiply(a1, a2), Expression::Multiply(b1, b2))
            | (Expression::Divide(a1, a2), Expression::Divide(b1, b2))
            | (Expression::And(a1, a2), Expression::And(b1, b2))
            | (Expression::Or(a1, a2), Expression::Or(b1, b2))
            | (Expression::Equal(a1, a2), Expression::Equal(b1, b2))
            | (Expression::NotEqual(a1, a2), Expression::NotEqual(b1, b2))
            | (Expression::LessThan(a1, a2), Expression::LessThan(b1, b2))
            | (Expression::LessThanOrEqual(a1, a2), Expression::LessThanOrEqual(b1, b2))
            | (Expression::GreaterThan(a1, a2), Expression::GreaterThan(b1, b2))
            | (Expression::GreaterThanOrEqual(a1, a2), Expression::GreaterThanOrEqual(b1, b2)) => {
                a1.same_as(b1) && a2.same_as(b2)
            },
            _ => false,
        }
    }

    /// The number that the expression is.
    pub fn unwrap_number(&self) -> (value: usize)
        requires
            self is Number,
        ensures
            value == self->Number_0,
    {
        match self {
            Expression::Number(value) => *value,
            _ => 0,
        }
    }

    /// The boolean that the expression is.
    pub fn unwrap_boolean(&self) -> (value: bool)
        requires
            self is Boolean,
        ensures
            value == self->Boolean_0,
    {
        match self {
            Expression::Boolean(value) => *value,
            _ => false,
        }
    }

    /// Whether a step can still be taken: the expression is not a value.
    pub fn is_reducible(&self) -> (reducible: bool)
        ensures
            reducible == !is_value(*self),
    {
        !matches!(self, Expression::Number(_) | Expression::Boolean(_))
    }

    /// This binary operator applied to new operands.
    fn with_operands(&self, left: Expression, right: Expression) -> (e: Expression)
        requires
            !(self is Number || self is Boolean || self is Variable || self is Not),
        ensures
            e == with_operands(*self, left, right),
    {
        let (l, r) = (Box::new(left), Box::new(right));
        match self {
            Expression::Add(_, _) => Expression::Add(l, r),
            Expression::Subtract(_, _) => Expression::Subtract(l, r),
            Expression::Multiply(_, _) => Expression::Multiply(l, r),
            Expression::Divide(_, _) => Expression::Divide(l, r),
            Expression::And(_, _) => Expression::And(l, r),
            Expression::Or(_, _) => Expression::Or(l, r),
            Expression::Equal(_, _) => Expression::Equal(l, r),
            Expression::NotEqual(_, _) => Expression::NotEqual(l, r),
            Expression::LessThan(_, _) => Expression::LessThan(l, r),
            Expression::LessThanOrEqual(_, _) => Expression::LessThanOrEqual(l, r),
            Expression::GreaterThan(_, _) => Expression::GreaterThan(l, r),
            _ => Expression::GreaterThanOrEqual(l, r),
        }
    }

    /// This binary operator applied to two operands.
    fn apply_operator(&self, left: &Expression, right: &Expression) -> (e: Expression)
        requires
            apply_operator(*self, *left, *right) is Some,
        ensures
            Some(e) == apply_operator(*self, *left, *right),
    {
        match self {
            Expression::Equal(_, _) => Expression::Boolean(left.same_as(right)),
            Expression::NotEqual(_, _) => Expression::Boolean(!left.same_as(right)),
            Expression::And(_, _) => Expression::Boolean(
                left.unwrap_boolean() && right.unwrap_boolean(),
            ),
            Expression::Or(_, _) => Expression::Boolean(
                left.unwrap_boolean() || right.unwrap_boolean(),
            ),
            Expression::Add(_, _) => Expression::Number(left.unwrap_number() + right.unwrap_number()),
            Expression::Subtract(_, _) => Expression::Number(
                left.unwrap_number() - right.unwrap_number(),
            ),
            Expression::Multiply(_, _) => Expression::Number(
                left.unwrap_number() * right.unwrap_number(),
            ),
            Expression::Divide(_, _) => Expression::Number(
                left.unwrap_number() / right.unwrap_number(),
            ),
            Expression::LessThan(_, _) => Expression::Boolean(
                left.unwrap_number() < right.unwrap_number(),
            ),
            Expression::LessThanOrEqual(_, _) => Expression::Boolean(
                left.unwrap_number() <= right.unwrap_number(),
            ),
            Expression::GreaterThan(_, _) => Expression::Boolean(
                left.unwrap_number() > right.unwrap_number(),
            ),
            _ => Expression::Boolean(left.unwrap_number() >= right.unwrap_number()),
        }
    }

    /// Whether the operator can apply to the two values (see `apply_operator`).
    fn can_apply(&self, left: &Expression, right: &Expression) -> (applies: bool)
        requires
            !(self is Number || self is Boolean || self is Variable || self is Not),
        ensures
            applies == apply_operator(*self, *left, *right) is Some,
    {
        match self {
            Expression::Equal(_, _) | Expression::NotEqual(_, _) => true,
            Expression::And(_, _) | Expression::Or(_, _) => matches!(
                (left, right),
                (Expression::Boolean(_), Expression::Boolean(_))
            ),
            _ => match (left, right) {
                (Expression::Number(a), Expression::Number(b)) => match self {
                    Expression::Add(_, _) => a.checked_add(*b).is_some(),
                    Expression::Subtract(_, _) => *a >= *b,
                    Expression::Multiply(_, _) => a.checked_mul(*b).is_some(),
                    Expression::Divide(_, _) => *b != 0,
                    _ => true,
                },
                _ => false,
            },
        }
    }

    /// Whether one small step succeeds in `environment` (see `reduce_step`).
    pub fn can_reduce(&self, environment: &Environment) -> (succeeds: bool)
        ensures
            succeeds == reduce_step(*self, environment@) is Some,
        decreases self,
    {
        match self {
            Expression::Number(_) | Expression::Boolean(_) => true,
            Expression::Variable(name) => environment.contains_key(name.as_str()),
            Expression::Not(inner) => {
                if inner.is_reducible() {
                    inner.can_reduce(environment)
                } else {
                    matches!(**inner, Expression::Boolean(_))
                }
            },
            Expression::Add(l, r) | Expression::Subtract(l, r) | Expression::Multiply(l, r)
            | Expression::Divide(l, r) | Expression::And(l, r) | Expression::Or(l, r)
            | Expression::Equal(l, r) | Expression::NotEqual(l, r) | Expression::LessThan(l, r)
            | Expression::LessThanOrEqual(l, r) | Expression::GreaterThan(l, r)
            | Expression::GreaterThanOrEqual(l, r) => {
                if l.is_reducible() {
                    l.can_reduce(environment)
                } else if r.is_reducible() {
                    r.can_reduce(environment)
                } else {
                    self.can_apply(l, r)
                }
            },
        }
    }

    /// One small step in `environment` (see `reduce_step`).
    pub fn reduce(&self, environment: &Environment) -> (next: Expression)
        requires
            environment.well_formed(),
            reduce_step(*self, environment@) is Some,
        ensures
            Some(next) == reduce_step(*self, environment@),
        decreases self,
    {
        match self {
            Expression::Number(_) | Expression::Boolean(_) => self.duplicate(),
            Expression::Variable(name) => environment.get(name.as_str()),
            Expression::Not(inner) => {
                if inner.is_reducible() {
                    Expression::Not(Box::new(inner.reduce(environment)))
                } else {
                    Expression::Boolean(!inner.unwrap_boolean())
                }
            },
            Expression::Add(l, r) | Expression::Subtract(l, r) | Expression::Multiply(l, r)
            | Expression::Divide(l, r) | Expression::And(l, r) | Expression::Or(l, r)
            | Expression::Equal(l, r) | Expression::NotEqual(l, r) | Expression::LessThan(l, r)
            | Expression::LessThanOrEqual(l, r) | Expression::GreaterThan(l, r)
            | Expression::GreaterThanOrEqual(l, r) => {
                if l.is_reducible() {
                    self.with_operands(l.reduce(environment), r.duplicate())
                } else if r.is_reducible() {
                    self.with_operands(l.duplicate(), r.reduce(environment))
                } else {
                    self.apply_operator(l, r)
                }
            },
        }
    }

    /// The value of the expression in `environment` (see `evaluate_in`).
    pub fn evaluate(&self, environment: &Environment) -> (value: Expression)
        requires
            environment.well_formed(),
            evaluate_in(*self, environment@) is Some,
        ensures
            Some(value) == evaluate_in(*self, environment@),
        decreases self,
    {
        match self {
            Expression::Number(_) | Expression::Boolean(_) => self.duplicate(),
            Expression::Variable(name) => environment.get(name.as_str()),
            Expression::Not(inner) => Expression::Boolean(!inner.evaluate(environment).unwrap_boolean()),
            Expression::Add(l, r) | Expression::Subtract(l, r) | Expression::Multiply(l, r)
            | Expression::Divide(l, r) | Expression::And(l, r) | Expression::Or(l, r)
            | Expression::Equal(l, r) | Expression::NotEqual(l, r) | Expression::LessThan(l, r)
            | Expression::LessThanOrEqual(l, r) | Expression::GreaterThan(l, r)
            | Expression::GreaterThanOrEqual(l, r) => {
                let left = l.evaluate(environment);
                let right = r.evaluate(environment);
                self.apply_operator(&left, &right)
            },
        }
    }
}

} // verus!
