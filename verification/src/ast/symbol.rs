use vstd::prelude::*;

use crate::ast::ast::FunctionExpression;
use std::rc::Rc;

verus! {

/// A runtime value: the result of evaluating an expression. `Variable` exists
/// only transiently inside call-argument lists before resolution; it is never
/// a final evaluation result.
#[derive(Debug)]
pub enum Symbol {
    Number(i64),
    Boolean(bool),
    /// A handle to the shared function definition.
    Function(Rc<FunctionExpression>),
    /// An unresolved variable reference inside a call-argument list.
    Variable(String),
}

impl Symbol {
    /// An exact copy: numbers and booleans are copied, names are cloned, and
    /// a function value is a new handle to the same shared definition.
    pub fn duplicate(&self) -> (r: Symbol)
        ensures
            r == *self,
    {
        match self {
            Symbol::Number(n) => Symbol::Number(*n),
            Symbol::Boolean(b) => Symbol::Boolean(*b),
            Symbol::Function(f) => Symbol::Function(f.clone()),
            Symbol::Variable(s) => Symbol::Variable(s.clone()),
        }
    }
}

} // verus!
