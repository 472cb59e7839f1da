use vstd::prelude::*;

use crate::environment::Environment;
use crate::expression::Bindings;
use crate::statement::{statement_step, Statement};

verus! {

/// A statement being run step by step in an environment.
#[derive(Debug)]
pub struct Machine {
    statement: Statement,
    environment: Environment,
}

impl Machine {
    /// What is left to run.
    pub closed spec fn program(&self) -> Statement {
        self.statement
    }

    /// The bindings so far.
    pub closed spec fn bindings(&self) -> Bindings {
        self.environment@
    }

    pub closed spec fn well_formed(&self) -> bool {
        self.environment.well_formed()
    }

    pub fn new(statement: Statement, environment: Environment) -> (machine: Self)
        requires
            environment.well_formed(),
        ensures
            machine.well_formed(),
            machine.program() == statement,
            machine.bindings() == environment@,
    {
        Machine { statement, environment }
    }

    pub fn statement(&self) -> (statement: &Statement)
        ensures
            *statement == self.program(),
    {
        &self.statement
    }

    pub fn environment(&self) -> (environment: &Environment)
        ensures
            environment@ == self.bindings(),
            self.well_formed() ==> environment.well_formed(),
    {
        &self.environment
    }

    /// Takes one small step; where the step fails, nothing changes and the result is `false`.
    pub fn step(&mut self) -> (stepped: bool)
        requires
            old(self).well_formed(),
        ensures
            final(self).well_formed(),
            stepped == statement_step(old(self).program(), old(self).bindings()) is Some,
            stepped ==> Some((final(self).program(), final(self).bindings())) == statement_step(
                old(self).program(),
                old(self).bindings(),
            ),
            !stepped ==> final(self).program() == old(self).program() && final(self).bindings()
                == old(self).bindings(),
    {
        if !self.statement.can_reduce(&self.environment) {
            return false;
        }
        let next = self.statement.reduce(&mut self.environment);
        self.statement = next;
        true
    }
}

} // verus!
