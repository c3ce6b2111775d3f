use vstd::prelude::*;

use crate::ast::ast::{
    ASTNode, BinaryExpression, BinaryOperator, FunctionCall, FunctionExpression, IfStatement,
    VariableExpression,
};
use crate::ast::symbol::Symbol;
use crate::ast::symbol_table::{env_get, env_insert, SymbolTable};

verus! {

/// The scope stack as the contracts see it: innermost scope last.
pub type Env = Seq<Seq<(String, Symbol)>>;

/// The depth budget of one evaluation pass. Every step into a subexpression,
/// statement or function body consumes one unit, so the budget bounds the
/// recursion depth; a program that exceeds it fails with `DepthLimit` instead
/// of exhausting the call stack.
pub const EVAL_FUEL: u64 = 4096;

/// Everything that can abort an evaluation pass. An error aborts the whole
/// pass: there is no statement-level isolation.
#[derive(Debug, PartialEq, Eq)]
pub enum EvalError {
    /// A variable or function name with no binding in any reachable scope.
    UnboundName(String),
    /// A call-site name that resolves to a binding that is not a function.
    NotCallable(String),
    /// A call supplying fewer arguments than declared parameters: the
    /// declared and the supplied count.
    ArityMismatch(usize, usize),
    /// An arithmetic or comparison operator applied to operand kinds it does
    /// not support.
    TypeMismatch,
    DivisionByZero,
    /// An arithmetic result outside the range of a number.
    Overflow,
    /// `^` with an exponent below zero.
    NegativeExponent,
    /// The recursion depth budget ran out.
    DepthLimit,
}

pub open spec fn abs_of(x: int) -> int {
    if x < 0 {
        -x
    } else {
        x
    }
}

pub open spec fn in_i64(x: int) -> bool {
    i64::MIN <= x <= i64::MAX
}

/// Mathematical exponentiation with a nonnegative integer exponent.
pub open spec fn s_pow(b: int, e: nat) -> int
    decreases e,
{
    if e == 0 {
        1
    } else {
        b * s_pow(b, (e - 1) as nat)
    }
}

/// Division truncating toward zero, as the evaluator computes it.
pub open spec fn trunc_div(l: int, r: int) -> int {
    if (l < 0) != (r < 0) {
        -(abs_of(l) / abs_of(r))
    } else {
        abs_of(l) / abs_of(r)
    }
}

/// What `^` returns: the power when the exponent is nonnegative and the
/// result fits a number, an error otherwise.
pub open spec fn s_caret(b: i64, e: i64) -> Result<i64, EvalError> {
    if e < 0 {
        Err(EvalError::NegativeExponent)
    } else if in_i64(s_pow(b as int, e as nat)) {
        Ok(s_pow(b as int, e as nat) as i64)
    } else {
        Err(EvalError::Overflow)
    }
}

pub open spec fn s_is_comparison(op: BinaryOperator) -> bool {
    match op {
        BinaryOperator::DoubleEquals => true,
        BinaryOperator::GreaterThan => true,
        BinaryOperator::LessThan => true,
        BinaryOperator::GreaterThanOrEqualTo => true,
        BinaryOperator::LessThanOrEqualTo => true,
        _ => false,
    }
}

/// What arithmetic on two numbers returns, operator by operator.
pub open spec fn s_math(op: BinaryOperator, l: i64, r: i64) -> Result<Symbol, EvalError> {
    match op {
        BinaryOperator::Plus => if in_i64(l + r) {
            Ok(Symbol::Number((l + r) as i64))
        } else {
            Err(EvalError::Overflow)
        },
        BinaryOperator::Minus => if in_i64(l - r) {
            Ok(Symbol::Number((l - r) as i64))
        } else {
            Err(EvalError::Overflow)
        },
        BinaryOperator::Asterisk => if in_i64(l * r) {
            Ok(Symbol::Number((l * r) as i64))
        } else {
            Err(EvalError::Overflow)
        },
        BinaryOperator::ForwardSlash => if r == 0 {
            Err(EvalError::DivisionByZero)
        } else if l == i64::MIN && r == -1 {
            Err(EvalError::Overflow)
        } else {
            Ok(Symbol::Number(trunc_div(l as int, r as int) as i64))
        },
        BinaryOperator::Carat => match s_caret(l, r) {
            Ok(v) => Ok(Symbol::Number(v)),
            Err(e) => Err(e),
        },
        // a comparison operator handed to the arithmetic evaluator
        _ => Err(EvalError::TypeMismatch),
    }
}

/// Arithmetic requires both operands to be numbers; any other combination is
/// a type error.
pub open spec fn s_math_sym(op: BinaryOperator, l: Symbol, r: Symbol) -> Result<Symbol, EvalError> {
    match (l, r) {
        (Symbol::Number(ln), Symbol::Number(rn)) => s_math(op, ln, rn),
        _ => Err(EvalError::TypeMismatch),
    }
}

/// Comparison: numbers support all five operators; booleans only `==`; any
/// other combination of operand kinds is a type error, never a coercion.
pub open spec fn s_compare(op: BinaryOperator, l: Symbol, r: Symbol) -> Result<Symbol, EvalError> {
    match (l, r) {
        (Symbol::Number(ln), Symbol::Number(rn)) => match op {
            BinaryOperator::DoubleEquals => Ok(Symbol::Boolean(ln == rn)),
            BinaryOperator::GreaterThan => Ok(Symbol::Boolean(ln > rn)),
            BinaryOperator::LessThan => Ok(Symbol::Boolean(ln < rn)),
            BinaryOperator::GreaterThanOrEqualTo => Ok(Symbol::Boolean(ln >= rn)),
            BinaryOperator::LessThanOrEqualTo => Ok(Symbol::Boolean(ln <= rn)),
            _ => Err(EvalError::TypeMismatch),
        },
        (Symbol::Boolean(lb), Symbol::Boolean(rb)) => match op {
            BinaryOperator::DoubleEquals => Ok(Symbol::Boolean(lb == rb)),
            _ => Err(EvalError::TypeMismatch),
        },
        _ => Err(EvalError::TypeMismatch),
    }
}

/// Truthiness, used only for `if` conditions: a number is truthy iff nonzero,
/// a boolean iff true, and anything else - including no value - is falsy.
pub open spec fn s_truthy(v: Option<Symbol>) -> bool {
    match v {
        Some(Symbol::Number(n)) => n != 0,
        Some(Symbol::Boolean(b)) => b,
        _ => false,
    }
}

/// The scope a call binds: each declared parameter paired with its resolved
/// argument. A bare variable reference among the arguments is looked up in
/// the caller's environment; extra arguments beyond the declared parameters
/// are ignored.
pub open spec fn s_resolve_scope(
    env: Env,
    params: Seq<String>,
    args: Seq<Symbol>,
    i: nat,
) -> Result<Seq<(String, Symbol)>, EvalError>
    decreases params.len() - i,
{
    if i >= params.len() {
        Ok(Seq::empty())
    } else {
        let resolved = match args[i as int] {
            Symbol::Variable(vn) => match env_get(env, vn@) {
                Some(v) => Ok(v),
                None => Err(EvalError::UnboundName(vn)),
            },
            other => Ok(other),
        };
        match resolved {
            Err(e) => Err(e),
            Ok(v) => match s_resolve_scope(env, params, args, i + 1) {
                Err(e) => Err(e),
                Ok(rest) => Ok(rest.insert(0, (params[i as int], v))),
            },
        }
    }
}

/// One statement of a program, statement list or function body: what it
/// evaluates to and how it changes the environment. `fuel` is the remaining
/// depth budget.
pub open spec fn s_eval_node(env: Env, node: ASTNode, fuel: nat) -> Result<
    (Env, Option<Symbol>),
    EvalError,
>
    decreases fuel,
{
    if fuel == 0 {
        Err(EvalError::DepthLimit)
    } else {
        let f = (fuel - 1) as nat;
        match node {
            ASTNode::Number(n) => Ok((env, Some(Symbol::Number(n)))),
            ASTNode::BinaryExpression(be) => s_eval_binary(env, be, f),
            ASTNode::UnaryExpression(operand) => s_eval_unary(env, *operand, f),
            ASTNode::VariableExpression(ve) => s_eval_assign(env, ve, f),
            ASTNode::Variable(name) => match env_get(env, name@) {
                Some(v) => Ok((env, Some(v))),
                None => Err(EvalError::UnboundName(name)),
            },
            ASTNode::FunctionExpression(fe) => Ok(
                (env_insert(env, fe.name, Symbol::Function(fe)), None),
            ),
            ASTNode::FunctionCall(fc) => s_eval_call(env, fc, f),
            ASTNode::IfStatement(is) => match s_eval_if(env, is, f) {
                Ok(env1) => Ok((env1, None)),
                Err(e) => Err(e),
            },
            // a top-level return, the program node itself, and the reserved
            // node kinds evaluate to no value
            _ => Ok((env, None)),
        }
    }
}

/// An assignment: evaluate the right-hand side; a value is bound in the
/// innermost scope, no value is silently ignored. Produces no value itself.
pub open spec fn s_eval_assign(env: Env, ve: VariableExpression, fuel: nat) -> Result<
    (Env, Option<Symbol>),
    EvalError,
>
    decreases fuel,
{
    if fuel == 0 {
        Err(EvalError::DepthLimit)
    } else {
        match s_eval_node(env, *ve.value, (fuel - 1) as nat) {
            Err(e) => Err(e),
            Ok((env1, opt)) => match opt {
                Some(v) => Ok((env_insert(env1, ve.name, v), None)),
                None => Ok((env1, None)),
            },
        }
    }
}

/// Negation: a number negates; any other operand kind yields no value.
pub open spec fn s_eval_unary(env: Env, operand: ASTNode, fuel: nat) -> Result<
    (Env, Option<Symbol>),
    EvalError,
>
    decreases fuel,
{
    if fuel == 0 {
        Err(EvalError::DepthLimit)
    } else {
        match s_eval_node(env, operand, (fuel - 1) as nat) {
            Err(e) => Err(e),
            Ok((env1, opt)) => match opt {
                Some(Symbol::Number(n)) => if n == i64::MIN {
                    Err(EvalError::Overflow)
                } else {
                    Ok((env1, Some(Symbol::Number((-n) as i64))))
                },
                _ => Ok((env1, None)),
            },
        }
    }
}

/// A binary expression: both operands are evaluated left to right; either
/// producing no value short-circuits the whole expression to no value;
/// comparison operators dispatch to comparison, the rest to arithmetic.
pub open spec fn s_eval_binary(env: Env, be: BinaryExpression, fuel: nat) -> Result<
    (Env, Option<Symbol>),
    EvalError,
>
    decreases fuel,
{
    if fuel == 0 {
        Err(EvalError::DepthLimit)
    } else {
        let f = (fuel - 1) as nat;
        match s_eval_node(env, *be.left, f) {
            Err(e) => Err(e),
            Ok((env1, lopt)) => match lopt {
                None => Ok((env1, None)),
                Some(ls) => match s_eval_node(env1, *be.right, f) {
                    Err(e) => Err(e),
                    Ok((env2, ropt)) => match ropt {
                        None => Ok((env2, None)),
                        Some(rs) => {
                            let res = if s_is_comparison(be.operator) {
                                s_compare(be.operator, ls, rs)
                            } else {
                                s_math_sym(be.operator, ls, rs)
                            };
                            match res {
                                Ok(sym) => Ok((env2, Some(sym))),
                                Err(e) => Err(e),
                            }
                        },
                    },
                },
            },
        }
    }
}

/// An `if`: a truthy condition runs the consequence in a freshly pushed
/// scope, discarded on exit; a falsy one runs nothing - the alternative
/// branch is never evaluated. Yields no value either way.
pub open spec fn s_eval_if(env: Env, is: IfStatement, fuel: nat) -> Result<Env, EvalError>
    decreases fuel,
{
    if fuel == 0 {
        Err(EvalError::DepthLimit)
    } else {
        let f = (fuel - 1) as nat;
        match s_eval_node(env, *is.condition, f) {
            Err(e) => Err(e),
            Ok((env1, copt)) => if s_truthy(copt) {
                match s_eval_stmts(env1.push(Seq::empty()), is.consequence@, 0, f) {
                    Err(e) => Err(e),
                    Ok(env2) => Ok(env2.drop_last()),
                }
            } else {
                Ok(env1)
            },
        }
    }
}

/// A statement list run for side effects only: the statements' own values
/// are dropped.
pub open spec fn s_eval_stmts(env: Env, stmts: Seq<ASTNode>, i: nat, fuel: nat) -> Result<
    Env,
    EvalError,
>
    decreases fuel,
{
    if fuel == 0 {
        Err(EvalError::DepthLimit)
    } else if i >= stmts.len() {
        Ok(env)
    } else {
        match s_eval_node(env, stmts[i as int], (fuel - 1) as nat) {
            Err(e) => Err(e),
            Ok((env1, _)) => s_eval_stmts(env1, stmts, i + 1, (fuel - 1) as nat),
        }
    }
}

/// A function body: statements run in order until a top-level return, whose
/// expression's value the call yields; a body that exhausts its statements
/// without one yields no value. A return nested deeper than the top level
/// does not end the call.
pub open spec fn s_eval_body(env: Env, stmts: Seq<ASTNode>, i: nat, fuel: nat) -> Result<
    (Env, Option<Symbol>),
    EvalError,
>
    decreases fuel,
{
    if fuel == 0 {
        Err(EvalError::DepthLimit)
    } else if i >= stmts.len() {
        Ok((env, None))
    } else {
        match stmts[i as int] {
            ASTNode::ReturnExpression(expr) => s_eval_node(env, *expr, (fuel - 1) as nat),
            _ => match s_eval_node(env, stmts[i as int], (fuel - 1) as nat) {
                Err(e) => Err(e),
                Ok((env1, _)) => s_eval_body(env1, stmts, i + 1, (fuel - 1) as nat),
            },
        }
    }
}

/// A call: the name must resolve to a function; the call must supply at
/// least as many arguments as declared parameters (extras are ignored);
/// arguments are resolved in the caller's environment; the body runs in a
/// freshly pushed scope binding the parameters, popped exactly once before
/// returning.
pub open spec fn s_eval_call(env: Env, fc: FunctionCall, fuel: nat) -> Result<
    (Env, Option<Symbol>),
    EvalError,
>
    decreases fuel,
{
    if fuel == 0 {
        Err(EvalError::DepthLimit)
    } else {
        match env_get(env, fc.name@) {
            None => Err(EvalError::UnboundName(fc.name)),
            Some(Symbol::Function(fe)) => if fc.args.len() < fe.args.len() {
                Err(EvalError::ArityMismatch(fe.args.len(), fc.args.len()))
            } else {
                match s_resolve_scope(env, fe.args@, fc.args@, 0) {
                    Err(e) => Err(e),
                    Ok(scope) => match s_eval_body(env.push(scope), fe.body@, 0, (fuel - 1) as nat) {
                        Err(e) => Err(e),
                        Ok((env2, ret)) => Ok((env2.drop_last(), ret)),
                    },
                }
            },
            Some(_) => Err(EvalError::NotCallable(fc.name)),
        }
    }
}

/// One top-level statement after another, collecting each one's optional
/// value; any error aborts the whole pass.
pub open spec fn s_eval_lines(env: Env, stmts: Seq<ASTNode>, i: nat, fuel: nat) -> Result<
    (Env, Seq<Option<Symbol>>),
    EvalError,
>
    decreases fuel,
{
    if fuel == 0 {
        Err(EvalError::DepthLimit)
    } else if i >= stmts.len() {
        Ok((env, Seq::empty()))
    } else {
        match s_eval_node(env, stmts[i as int], (fuel - 1) as nat) {
            Err(e) => Err(e),
            Ok((env1, v)) => match s_eval_lines(env1, stmts, i + 1, (fuel - 1) as nat) {
                Err(e) => Err(e),
                Ok((env2, rest)) => Ok((env2, rest.insert(0, v))),
            },
        }
    }
}

/// A whole evaluation pass: a program node yields one optional value per
/// top-level statement; any other node yields an empty sequence.
pub open spec fn s_eval(env: Env, program: ASTNode, fuel: nat) -> Result<
    (Env, Seq<Option<Symbol>>),
    EvalError,
> {
    match program {
        ASTNode::Program(stmts) => s_eval_lines(env, stmts@, 0, fuel),
        _ => Ok((env, Seq::empty())),
    }
}

pub open spec fn eval_outcome(r: Result<Option<Symbol>, EvalError>, env: Env) -> Result<
    (Env, Option<Symbol>),
    EvalError,
> {
    match r {
        Ok(v) => Ok((env, v)),
        Err(e) => Err(e),
    }
}

pub open spec fn stmts_outcome(r: Result<(), EvalError>, env: Env) -> Result<Env, EvalError> {
    match r {
        Ok(_) => Ok(env),
        Err(e) => Err(e),
    }
}

pub open spec fn lines_outcome(r: Result<Vec<Option<Symbol>>, EvalError>, env: Env) -> Result<
    (Env, Seq<Option<Symbol>>),
    EvalError,
> {
    match r {
        Ok(v) => Ok((env, v@)),
        Err(e) => Err(e),
    }
}

/// The tree-walking evaluator. One evaluator owns one environment for the
/// duration of one evaluation pass.
pub struct ASTEvaluator {
    pub symbol_table: SymbolTable,
}

impl ASTEvaluator {
    /// The scope stack as the contracts see it.
    pub open spec fn env(&self) -> Env {
        self.symbol_table@
    }

    /// The stack always holds at least the global scope.
    pub open spec fn wf(&self) -> bool {
        self.env().len() >= 1
    }

    /// A fresh evaluator whose environment holds only the empty global scope.
    pub fn new() -> (t: ASTEvaluator)
        ensures
            t.wf(),
            t.env() == seq![Seq::<(String, Symbol)>::empty()],
    {
        ASTEvaluator { symbol_table: SymbolTable::new() }
    }

    /// Evaluates a program: one optional value per top-level statement, or
    /// the first error. The environment keeps whatever global bindings the
    /// statements made.
    pub fn eval(&mut self, program: ASTNode) -> (r: Result<Vec<Option<Symbol>>, EvalError>)
        requires
            old(self).wf(),
        ensures
            final(self).wf(),
            s_eval(old(self).env(), program, EVAL_FUEL as nat) == lines_outcome(
                r,
                final(self).env(),
            ),
    {
        match program {
            ASTNode::Program(stmts) => self.eval_lines(&stmts, 0, EVAL_FUEL),
            _ => Ok(Vec::new()),
        }
    }

    fn eval_lines(&mut self, stmts: &Vec<ASTNode>, i: usize, fuel: u64) -> (r: Result<
        Vec<Option<Symbol>>,
        EvalError,
    >)
        requires
            old(self).wf(),
            i <= stmts.len(),
        ensures
            final(self).wf(),
            final(self).env().len() == old(self).env().len(),
            s_eval_lines(old(self).env(), stmts@, i as nat, fuel as nat) == lines_outcome(
                r,
                final(self).env(),
            ),
        decreases fuel,
    {
        if fuel == 0 {
            return Err(EvalError::DepthLimit);
        }
        if i >= stmts.len() {
            return Ok(Vec::new());
        }
        let v = match self.eval_node(&stmts[i], fuel - 1) {
            Ok(v) => v,
            Err(e) => return Err(e),
        };
        let mut rest = match self.eval_lines(stmts, i + 1, fuel - 1) {
            Ok(rest) => rest,
            Err(e) => return Err(e),
        };
        rest.insert(0, v);
        Ok(rest)
    }

    /// One node. `fuel` is the remaining depth budget.
    fn eval_node(&mut self, node: &ASTNode, fuel: u64) -> (r: Result<Option<Symbol>, EvalError>)
        requires
            old(self).wf(),
        ensures
            final(self).wf(),
            final(self).env().len() == old(self).env().len(),
            s_eval_node(old(self).env(), *node, fuel as nat) == eval_outcome(
                r,
                final(self).env(),
            ),
        decreases fuel,
    {
        if fuel == 0 {
            return Err(EvalError::DepthLimit);
        }
        match node {
            ASTNode::Number(n) => Ok(Some(Symbol::Number(*n))),
            ASTNode::BinaryExpression(be) => self.eval_binary_expression(be, fuel - 1),
            ASTNode::UnaryExpression(operand) => self.eval_unary_expression(operand, fuel - 1),
            ASTNode::VariableExpression(ve) => self.eval_variable_statement(ve, fuel - 1),
            ASTNode::Variable(name) => match self.symbol_table.get(name) {
                Some(v) => Ok(Some(v)),
                None => Err(EvalError::UnboundName(name.clone())),
            },
            ASTNode::FunctionExpression(fe) => {
                self.symbol_table.insert(fe.name.clone(), Symbol::Function(fe.clone()));
                Ok(None)
            },
            ASTNode::FunctionCall(fc) => self.eval_function_call(fc, fuel - 1),
            ASTNode::IfStatement(is) => match self.eval_if_statement(is, fuel - 1) {
                Ok(_) => Ok(None),
                Err(e) => Err(e),
            },
            _ => Ok(None),
        }
    }

    /// An assignment statement: a valueless right-hand side binds nothing.
    fn eval_variable_statement(&mut self, ve: &VariableExpression, fuel: u64) -> (r: Result<
        Option<Symbol>,
        EvalError,
    >)
        requires
            old(self).wf(),
        ensures
            final(self).wf(),
            final(self).env().len() == old(self).env().len(),
            s_eval_assign(old(self).env(), *ve, fuel as nat) == eval_outcome(
                r,
                final(self).env(),
            ),
        decreases fuel,
    {
        if fuel == 0 {
            return Err(EvalError::DepthLimit);
        }
        match self.eval_node(&ve.value, fuel - 1) {
            Err(e) => Err(e),
            Ok(Some(v)) => {
                self.symbol_table.insert(ve.name.clone(), v);
                Ok(None)
            },
            Ok(None) => Ok(None),
        }
    }

    fn eval_unary_expression(&mut self, operand: &ASTNode, fuel: u64) -> (r: Result<
        Option<Symbol>,
        EvalError,
    >)
        requires
            old(self).wf(),
        ensures
            final(self).wf(),
            final(self).env().len() == old(self).env().len(),
            s_eval_unary(old(self).env(), *operand, fuel as nat) == eval_outcome(
                r,
                final(self).env(),
            ),
        decreases fuel,
    {
        if fuel == 0 {
            return Err(EvalError::DepthLimit);
        }
        match self.eval_node(operand, fuel - 1) {
            Err(e) => Err(e),
            Ok(Some(Symbol::Number(n))) => if n == i64::MIN {
                Err(EvalError::Overflow)
            } else {
                Ok(Some(Symbol::Number(-n)))
            },
            Ok(_) => Ok(None),
        }
    }

    fn eval_binary_expression(&mut self, be: &BinaryExpression, fuel: u64) -> (r: Result<
        Option<Symbol>,
        EvalError,
    >)
        requires
            old(self).wf(),
        ensures
            final(self).wf(),
            final(self).env().len() == old(self).env().len(),
            s_eval_binary(old(self).env(), *be, fuel as nat) == eval_outcome(
                r,
                final(self).env(),
            ),
        decreases fuel,
    {
        if fuel == 0 {
            return Err(EvalError::DepthLimit);
        }
        let ls = match self.eval_node(&be.left, fuel - 1) {
            Err(e) => return Err(e),
            Ok(None) => return Ok(None),
            Ok(Some(s)) => s,
        };
        let rs = match self.eval_node(&be.right, fuel - 1) {
            Err(e) => return Err(e),
            Ok(None) => return Ok(None),
            Ok(Some(s)) => s,
        };
        let res = if Self::is_comparison(&be.operator) {
            self.compare(&ls, &be.operator, &rs)
        } else {
            self.eval_math_expression(&ls, &be.operator, &rs)
        };
        match res {
            Ok(sym) => Ok(Some(sym)),
            Err(e) => Err(e),
        }
    }

    fn is_comparison(op: &BinaryOperator) -> (r: bool)
        ensures
            r == s_is_comparison(*op),
    {
        match op {
            BinaryOperator::DoubleEquals => true,
            BinaryOperator::GreaterThan => true,
            BinaryOperator::LessThan => true,
            BinaryOperator::GreaterThanOrEqualTo => true,
            BinaryOperator::LessThanOrEqualTo => true,
            _ => false,
        }
    }

    /// An `if` statement never yields a value to its enclosing context.
    fn eval_if_statement(&mut self, is: &IfStatement, fuel: u64) -> (r: Result<(), EvalError>)
        requires
            old(self).wf(),
        ensures
            final(self).wf(),
            final(self).env().len() == old(self).env().len(),
            s_eval_if(old(self).env(), *is, fuel as nat) == stmts_outcome(r, final(self).env()),
        decreases fuel,
    {
        if fuel == 0 {
            return Err(EvalError::DepthLimit);
        }
        let cond = match self.eval_node(&is.condition, fuel - 1) {
            Err(e) => return Err(e),
            Ok(c) => c,
        };
        let passed = match cond {
            Some(Symbol::Number(n)) => n != 0,
            Some(Symbol::Boolean(b)) => b,
            _ => false,
        };
        if passed {
            self.symbol_table.push_scope("if");
            let res = self.eval_statement_list(&is.consequence, 0, fuel - 1);
            self.symbol_table.pop_scope();
            res
        } else {
            Ok(())
        }
    }

    fn eval_statement_list(&mut self, stmts: &Vec<ASTNode>, i: usize, fuel: u64) -> (r: Result<
        (),
        EvalError,
    >)
        requires
            old(self).wf(),
            i <= stmts.len(),
        ensures
            final(self).wf(),
            final(self).env().len() == old(self).env().len(),
            s_eval_stmts(old(self).env(), stmts@, i as nat, fuel as nat) == stmts_outcome(
                r,
                final(self).env(),
            ),
        decreases fuel,
    {
        if fuel == 0 {
            return Err(EvalError::DepthLimit);
        }
        if i >= stmts.len() {
            return Ok(());
        }
        match self.eval_node(&stmts[i], fuel - 1) {
            Err(e) => return Err(e),
            Ok(_) => (),
        }
        self.eval_statement_list(stmts, i + 1, fuel - 1)
    }

    fn eval_body(&mut self, stmts: &Vec<ASTNode>, i: usize, fuel: u64) -> (r: Result<
        Option<Symbol>,
        EvalError,
    >)
        requires
            old(self).wf(),
            i <= stmts.len(),
        ensures
            final(self).wf(),
            final(self).env().len() == old(self).env().len(),
            s_eval_body(old(self).env(), stmts@, i as nat, fuel as nat) == eval_outcome(
                r,
                final(self).env(),
            ),
        decreases fuel,
    {
        if fuel == 0 {
            return Err(EvalError::DepthLimit);
        }
        if i >= stmts.len() {
            return Ok(None);
        }
        match &stmts[i] {
            ASTNode::ReturnExpression(expr) => self.eval_node(expr, fuel - 1),
            _ => {
                match self.eval_node(&stmts[i], fuel - 1) {
                    Err(e) => return Err(e),
                    Ok(_) => (),
                }
                self.eval_body(stmts, i + 1, fuel - 1)
            },
        }
    }

    /// A call fails when it supplies fewer arguments than the function
    /// declares parameters; extra arguments are accepted and ignored.
    pub fn validate_function_call(&self, func_call: &FunctionCall, func_expr: &FunctionExpression)
        -> (r: Result<(), EvalError>)
        ensures
            r == (if func_call.args.len() < func_expr.args.len() {
                Err::<(), EvalError>(
                    EvalError::ArityMismatch(func_expr.args.len(), func_call.args.len()),
                )
            } else {
                Ok::<(), EvalError>(())
            }),
    {
        if func_call.args.len() < func_expr.args.len() {
            Err(EvalError::ArityMismatch(func_expr.args.len(), func_call.args.len()))
        } else {
            Ok(())
        }
    }

    fn resolve_args(&self, params: &Vec<String>, args: &Vec<Symbol>, i: usize) -> (r: Result<
        Vec<(String, Symbol)>,
        EvalError,
    >)
        requires
            i <= params.len(),
            params.len() <= args.len(),
        ensures
            s_resolve_scope(self.env(), params@, args@, i as nat) == (match r {
                Ok(v) => Ok::<Seq<(String, Symbol)>, EvalError>(v@),
                Err(e) => Err::<Seq<(String, Symbol)>, EvalError>(e),
            }),
        decreases params.len() - i,
    {
        if i >= params.len() {
            return Ok(Vec::new());
        }
        let resolved = match &args[i] {
            Symbol::Variable(vn) => match self.symbol_table.get(vn) {
                Some(v) => v,
                None => return Err(EvalError::UnboundName(vn.clone())),
            },
            other => other.duplicate(),
        };
        let mut rest = match self.resolve_args(params, args, i + 1) {
            Ok(rest) => rest,
            Err(e) => return Err(e),
        };
        rest.insert(0, (params[i].clone(), resolved));
        Ok(rest)
    }

    /// Resolves the call's arguments in the caller's environment, then
    /// pushes the function's scope with each declared parameter bound to its
    /// resolved argument.
    pub fn push_function(&mut self, func_call: &FunctionCall, func_expr: &FunctionExpression)
        -> (r: Result<(), EvalError>)
        requires
            old(self).wf(),
            func_expr.args.len() <= func_call.args.len(),
        ensures
            final(self).wf(),
            match s_resolve_scope(old(self).env(), func_expr.args@, func_call.args@, 0) {
                Ok(scope) => r == Ok::<(), EvalError>(()) && final(self).env() == old(
                    self,
                ).env().push(scope),
                Err(e) => r == Err::<(), EvalError>(e) && final(self).env() == old(self).env(),
            },
    {
        let scope = match self.resolve_args(&func_expr.args, &func_call.args, 0) {
            Ok(scope) => scope,
            Err(e) => return Err(e),
        };
        self.symbol_table.push_scope(func_expr.name.as_str());
        proof {
            assert(scope@.take(0) =~= Seq::<(String, Symbol)>::empty());
        }
        let mut k: usize = 0;
        while k < scope.len()
            invariant
                k <= scope.len(),
                self.env().len() == old(self).env().len() + 1,
                self.env() == old(self).env().push(scope@.take(k as int)),
            decreases scope.len() - k,
        {
            proof {
                assert(self.env().last() == scope@.take(k as int));
            }
            self.symbol_table.insert(scope[k].0.clone(), scope[k].1.duplicate());
            proof {
                assert(scope@.take(k as int).push(scope@[k as int]) =~= scope@.take(k as int + 1));
                assert(self.env() =~= old(self).env().push(scope@.take(k as int + 1)));
            }
            k = k + 1;
        }
        proof {
            assert(scope@.take(scope.len() as int) =~= scope@);
            assert(self.env() =~= old(self).env().push(scope@));
        }
        Ok(())
    }

    fn eval_function_call(&mut self, fc: &FunctionCall, fuel: u64) -> (r: Result<
        Option<Symbol>,
        EvalError,
    >)
        requires
            old(self).wf(),
        ensures
            final(self).wf(),
            final(self).env().len() == old(self).env().len(),
            s_eval_call(old(self).env(), *fc, fuel as nat) == eval_outcome(
                r,
                final(self).env(),
            ),
        decreases fuel,
    {
        if fuel == 0 {
            return Err(EvalError::DepthLimit);
        }
        let func_expr = match self.symbol_table.get(&fc.name) {
            None => return Err(EvalError::UnboundName(fc.name.clone())),
            Some(Symbol::Function(fe)) => fe,
            Some(_) => return Err(EvalError::NotCallable(fc.name.clone())),
        };
        match self.validate_function_call(fc, &func_expr) {
            Err(e) => return Err(e),
            Ok(_) => (),
        }
        match self.push_function(fc, &func_expr) {
            Err(e) => return Err(e),
            Ok(_) => (),
        }
        let ret = self.eval_body(&func_expr.body, 0, fuel - 1);
        self.symbol_table.pop_scope();
        ret
    }

    /// Arithmetic on two runtime values: both must be numbers.
    pub fn eval_math_expression(&self, left: &Symbol, operator: &BinaryOperator, right: &Symbol)
        -> (r: Result<Symbol, EvalError>)
        ensures
            r == s_math_sym(*operator, *left, *right),
    {
        let (l, r) = match (left, right) {
            (Symbol::Number(ln), Symbol::Number(rn)) => (*ln, *rn),
            _ => return Err(EvalError::TypeMismatch),
        };
        match operator {
            BinaryOperator::Plus => Self::add_i64(l, r),
            BinaryOperator::Minus => Self::sub_i64(l, r),
            BinaryOperator::Asterisk => Self::mul_i64(l, r),
            BinaryOperator::ForwardSlash => Self::div_i64(l, r),
            BinaryOperator::Carat => match Self::pow_i64(l, r) {
                Ok(v) => Ok(Symbol::Number(v)),
                Err(e) => Err(e),
            },
            _ => Err(EvalError::TypeMismatch),
        }
    }

    fn add_i64(l: i64, r: i64) -> (res: Result<Symbol, EvalError>)
        ensures
            res == s_math(BinaryOperator::Plus, l, r),
    {
        let w: i128 = l as i128 + r as i128;
        if w < i64::MIN as i128 || w > i64::MAX as i128 {
            Err(EvalError::Overflow)
        } else {
            Ok(Symbol::Number(w as i64))
        }
    }

    fn sub_i64(l: i64, r: i64) -> (res: Result<Symbol, EvalError>)
        ensures
            res == s_math(BinaryOperator::Minus, l, r),
    {
        let w: i128 = l as i128 - r as i128;
        if w < i64::MIN as i128 || w > i64::MAX as i128 {
            Err(EvalError::Overflow)
        } else {
            Ok(Symbol::Number(w as i64))
        }
    }

    fn mul_i64(l: i64, r: i64) -> (res: Result<Symbol, EvalError>)
        ensures
            res == s_math(BinaryOperator::Asterisk, l, r),
    {
        proof {
            assert((l as int) * (r as int) <= 0x40000000000000000000000000000000
                && (l as int) * (r as int) >= -0x40000000000000000000000000000000)
                by (nonlinear_arith)
                requires
                    i64::MIN <= l <= i64::MAX,
                    i64::MIN <= r <= i64::MAX,
            ;
        }
        let w: i128 = l as i128 * r as i128;
        if w < i64::MIN as i128 || w > i64::MAX as i128 {
            Err(EvalError::Overflow)
        } else {
            Ok(Symbol::Number(w as i64))
        }
    }

    fn div_i64(l: i64, r: i64) -> (res: Result<Symbol, EvalError>)
        ensures
            res == s_math(BinaryOperator::ForwardSlash, l, r),
    {
        if r == 0 {
            return Err(EvalError::DivisionByZero);
        }
        if l == i64::MIN && r == -1 {
            return Err(EvalError::Overflow);
        }
        let neg: bool = (l < 0) != (r < 0);
        let la: u64 = if l >= 0 {
            l as u64
        } else if l == i64::MIN {
            9223372036854775808u64
        } else {
            (-l) as u64
        };
        let ra: u64 = if r >= 0 {
            r as u64
        } else if r == i64::MIN {
            9223372036854775808u64
        } else {
            (-r) as u64
        };
        let q: u64 = la / ra;
        proof {
            assert(la == abs_of(l as int));
            assert(ra == abs_of(r as int));
            assert(q <= la) by (nonlinear_arith)
                requires
                    q == la as int / ra as int,
                    ra >= 1,
                    la >= 0,
            ;
        }
        if neg {
            if q >= 9223372036854775808u64 {
                proof {
                    assert(q == 9223372036854775808);
                    assert(la == 9223372036854775808 && ra == 1) by (nonlinear_arith)
                        requires
                            q == la as int / ra as int,
                            q == 9223372036854775808,
                            1 <= ra,
                            la <= 9223372036854775808,
                    ;
                }
                Ok(Symbol::Number(i64::MIN))
            } else {
                Ok(Symbol::Number(-(q as i64)))
            }
        } else {
            proof {
                // a nonnegative quotient fits: the one overflowing case,
                // i64::MIN / -1, was already rejected
                if q > i64::MAX as u64 {
                    assert(la == 9223372036854775808 && ra == 1) by (nonlinear_arith)
                        requires
                            q == la as int / ra as int,
                            q > 9223372036854775807,
                            1 <= ra,
                            la <= 9223372036854775808,
                    ;
                    assert(false);
                }
            }
            Ok(Symbol::Number(q as i64))
        }
    }

    fn pow_i64(base: i64, exp: i64) -> (res: Result<i64, EvalError>)
        ensures
            (match res {
                Ok(v) => s_caret(base, exp) == Ok::<i64, EvalError>(v),
                Err(e) => s_caret(base, exp) == Err::<i64, EvalError>(e),
            }),
    {
        if exp < 0 {
            return Err(EvalError::NegativeExponent);
        }
        if base == 0 {
            if exp == 0 {
                return Ok(1);
            }
            proof {
                lemma_pow_zero(exp as nat);
            }
            return Ok(0);
        }
        if base == 1 {
            proof {
                lemma_pow_one(exp as nat);
            }
            return Ok(1);
        }
        if base == -1 {
            proof {
                lemma_pow_minus_one(exp as nat);
            }
            if exp % 2 == 0 {
                return Ok(1);
            } else {
                return Ok(-1);
            }
        }
        let n: u64 = exp as u64;
        let mut result: i64 = 1;
        let mut i: u64 = 0;
        while i < n
            invariant
                i <= n,
                base < -1 || base > 1,
                n == exp,
                exp >= 0,
                result == s_pow(base as int, i as nat),
            decreases n - i,
        {
            proof {
                assert((result as int) * (base as int) <= 0x40000000000000000000000000000000
                    && (result as int) * (base as int) >= -0x40000000000000000000000000000000)
                    by (nonlinear_arith)
                    requires
                        i64::MIN <= result <= i64::MAX,
                        i64::MIN <= base <= i64::MAX,
                ;
            }
            let w: i128 = result as i128 * base as i128;
            if w < i64::MIN as i128 || w > i64::MAX as i128 {
                proof {
                    assert(w == (base as int) * s_pow(base as int, i as nat)) by (nonlinear_arith)
                        requires
                            w == (result as int) * (base as int),
                            result == s_pow(base as int, i as nat),
                    ;
                    assert(w == s_pow(base as int, (i + 1) as nat));
                    lemma_pow_grows(base as int, (i + 1) as nat, n as nat);
                    if i + 1 < n {
                        assert(abs_of(s_pow(base as int, n as nat)) >= 2 * abs_of(w as int));
                    }
                    assert(!in_i64(s_pow(base as int, exp as nat)));
                }
                return Err(EvalError::Overflow);
            }
            proof {
                assert((w as int) == (base as int) * s_pow(base as int, i as nat))
                    by (nonlinear_arith)
                    requires
                        w == (result as int) * (base as int),
                        result == s_pow(base as int, i as nat),
                ;
                assert(w == s_pow(base as int, (i + 1) as nat));
            }
            result = w as i64;
            i = i + 1;
        }
        Ok(result)
    }

    /// Comparison of two runtime values. Two values of different kinds never
    /// compare: that is a type error, not a coercion.
    pub fn compare(&self, left: &Symbol, operator: &BinaryOperator, right: &Symbol) -> (r: Result<
        Symbol,
        EvalError,
    >)
        ensures
            r == s_compare(*operator, *left, *right),
    {
        match (left, right) {
            (Symbol::Number(ln), Symbol::Number(rn)) => self.compare_number(*ln, operator, *rn),
            (Symbol::Boolean(lb), Symbol::Boolean(rb)) => match operator {
                BinaryOperator::DoubleEquals => Ok(Symbol::Boolean(lb == rb)),
                _ => Err(EvalError::TypeMismatch),
            },
            _ => Err(EvalError::TypeMismatch),
        }
    }

    fn compare_number(&self, left: i64, operator: &BinaryOperator, right: i64) -> (r: Result<
        Symbol,
        EvalError,
    >)
        ensures
            r == s_compare(*operator, Symbol::Number(left), Symbol::Number(right)),
    {
        match operator {
            BinaryOperator::DoubleEquals => Ok(Symbol::Boolean(left == right)),
            BinaryOperator::GreaterThan => Ok(Symbol::Boolean(left > right)),
            BinaryOperator::LessThan => Ok(Symbol::Boolean(left < right)),
            BinaryOperator::GreaterThanOrEqualTo => Ok(Symbol::Boolean(left >= right)),
            BinaryOperator::LessThanOrEqualTo => Ok(Symbol::Boolean(left <= right)),
            _ => Err(EvalError::TypeMismatch),
        }
    }
}

/// The scopes below the innermost one are untouched by an evaluation step,
/// and the stack keeps its depth.
pub open spec fn frames(env: Env, env2: Env) -> bool {
    &&& env2.len() == env.len()
    &&& env.len() > 0 ==> env2.take(env.len() - 1) == env.take(env.len() - 1)
}

proof fn frames_insert(env: Env, name: String, value: Symbol)
    ensures
        frames(env, env_insert(env, name, value)),
{
    if env.len() > 0 {
        assert(env_insert(env, name, value).take(env.len() - 1) =~= env.take(env.len() - 1));
    }
}

proof fn frame_node(env: Env, node: ASTNode, fuel: nat)
    ensures
        s_eval_node(env, node, fuel) matches Ok((e2, v)) ==> frames(env, e2),
    decreases fuel,
{
    if fuel > 0 {
        let f = (fuel - 1) as nat;
        match node {
            ASTNode::BinaryExpression(be) => frame_binary(env, be, f),
            ASTNode::UnaryExpression(operand) => frame_unary(env, *operand, f),
            ASTNode::VariableExpression(ve) => frame_assign(env, ve, f),
            ASTNode::FunctionExpression(fe) => {
                if env.len() > 0 {
                    assert(env_insert(env, fe.name, Symbol::Function(fe)).take(env.len() - 1)
                        =~= env.take(env.len() - 1));
                }
            },
            ASTNode::FunctionCall(fc) => frame_call(env, fc, f),
            ASTNode::IfStatement(is) => frame_if(env, is, f),
            _ => (),
        }
    }
}

proof fn frame_assign(env: Env, ve: VariableExpression, fuel: nat)
    ensures
        s_eval_assign(env, ve, fuel) matches Ok((e2, v)) ==> frames(env, e2),
    decreases fuel,
{
    if fuel > 0 {
        let f = (fuel - 1) as nat;
        frame_node(env, *ve.value, f);
        match s_eval_node(env, *ve.value, f) {
            Ok((env1, Some(v))) => frames_insert(env1, ve.name, v),
            _ => (),
        }
    }
}

proof fn frame_unary(env: Env, operand: ASTNode, fuel: nat)
    ensures
        s_eval_unary(env, operand, fuel) matches Ok((e2, v)) ==> frames(env, e2),
    decreases fuel,
{
    if fuel > 0 {
        frame_node(env, operand, (fuel - 1) as nat);
    }
}

proof fn frame_binary(env: Env, be: BinaryExpression, fuel: nat)
    ensures
        s_eval_binary(env, be, fuel) matches Ok((e2, v)) ==> frames(env, e2),
    decreases fuel,
{
    if fuel > 0 {
        let f = (fuel - 1) as nat;
        frame_node(env, *be.left, f);
        match s_eval_node(env, *be.left, f) {
            Ok((env1, Some(_))) => frame_node(env1, *be.right, f),
            _ => (),
        }
    }
}

proof fn frame_stmts(env: Env, stmts: Seq<ASTNode>, i: nat, fuel: nat)
    ensures
        s_eval_stmts(env, stmts, i, fuel) matches Ok(e2) ==> frames(env, e2),
    decreases fuel,
{
    if fuel > 0 && i < stmts.len() {
        let f = (fuel - 1) as nat;
        frame_node(env, stmts[i as int], f);
        match s_eval_node(env, stmts[i as int], f) {
            Ok((env1, _)) => frame_stmts(env1, stmts, i + 1, f),
            _ => (),
        }
    }
}

proof fn frame_body(env: Env, stmts: Seq<ASTNode>, i: nat, fuel: nat)
    ensures
        s_eval_body(env, stmts, i, fuel) matches Ok((e2, v)) ==> frames(env, e2),
    decreases fuel,
{
    if fuel > 0 && i < stmts.len() {
        let f = (fuel - 1) as nat;
        match stmts[i as int] {
            ASTNode::ReturnExpression(expr) => frame_node(env, *expr, f),
            _ => {
                frame_node(env, stmts[i as int], f);
                match s_eval_node(env, stmts[i as int], f) {
                    Ok((env1, _)) => frame_body(env1, stmts, i + 1, f),
                    _ => (),
                }
            },
        }
    }
}

/// An `if` pushes one scope for its consequence and discards it on exit:
/// whatever bindings the consequence made, the environment after the `if` is
/// exactly the one the condition left behind.
proof fn frame_if(env: Env, is: IfStatement, fuel: nat)
    ensures
        s_eval_if(env, is, fuel) matches Ok(envr) ==> (s_eval_node(
            env,
            *is.condition,
            (fuel - 1) as nat,
        ) matches Ok((env1, c)) && envr == env1),
        s_eval_if(env, is, fuel) matches Ok(envr) ==> frames(env, envr),
    decreases fuel,
{
    if fuel > 0 {
        let f = (fuel - 1) as nat;
        frame_node(env, *is.condition, f);
        match s_eval_node(env, *is.condition, f) {
            Ok((env1, copt)) => {
                if s_truthy(copt) {
                    let env2 = env1.push(Seq::empty());
                    frame_stmts(env2, is.consequence@, 0, f);
                    match s_eval_stmts(env2, is.consequence@, 0, f) {
                        Ok(env3) => {
                            assert(env2.take(env1.len() as int) =~= env1);
                            assert(env3.drop_last() =~= env3.take(env1.len() as int));
                            assert(env3.drop_last() == env1);
                        },
                        _ => (),
                    }
                }
            },
            _ => (),
        }
    }
}

/// A call pushes one scope for the body and pops it exactly once: the
/// caller's environment comes back exactly as it was.
proof fn frame_call(env: Env, fc: FunctionCall, fuel: nat)
    ensures
        s_eval_call(env, fc, fuel) matches Ok((envr, v)) ==> envr == env,
    decreases fuel,
{
    if fuel > 0 {
        let f = (fuel - 1) as nat;
        match env_get(env, fc.name@) {
            Some(Symbol::Function(fe)) => {
                if fc.args.len() >= fe.args.len() {
                    match s_resolve_scope(env, fe.args@, fc.args@, 0) {
                        Ok(scope) => {
                            let env1 = env.push(scope);
                            frame_body(env1, fe.body@, 0, f);
                            match s_eval_body(env1, fe.body@, 0, f) {
                                Ok((env2, _)) => {
                                    assert(env1.take(env.len() as int) =~= env);
                                    assert(env2.drop_last() =~= env2.take(env.len() as int));
                                    assert(env2.drop_last() == env);
                                },
                                _ => (),
                            }
                        },
                        _ => (),
                    }
                }
            },
            _ => (),
        }
    }
}

/// A truthy `if` runs its consequence in a freshly pushed scope that is
/// discarded on exit: bindings made inside do not leak, and the `if` yields
/// the environment its condition left behind - unchanged, whenever the
/// condition itself leaves the environment alone.
pub proof fn lemma_if_discards_scope(env: Env, is: IfStatement, fuel: nat)
    ensures
        s_eval_if(env, is, fuel) matches Ok(envr) ==> (s_eval_node(
            env,
            *is.condition,
            (fuel - 1) as nat,
        ) matches Ok((env1, c)) && envr == env1),
{
    frame_if(env, is, fuel);
}

/// A function call leaves the caller's environment exactly as it found it.
pub proof fn lemma_call_leaves_env(env: Env, fc: FunctionCall, fuel: nat)
    ensures
        s_eval_call(env, fc, fuel) matches Ok((envr, v)) ==> envr == env,
{
    frame_call(env, fc, fuel);
}

/// A call that supplies fewer arguments than the function declares
/// parameters fails with the arity error, and with nothing else.
pub proof fn lemma_call_arity_error(
    env: Env,
    fc: FunctionCall,
    fe: std::rc::Rc<FunctionExpression>,
    fuel: nat,
)
    requires
        fuel >= 1,
        env_get(env, fc.name@) == Some(Symbol::Function(fe)),
        fc.args@.len() < fe.args@.len(),
    ensures
        s_eval_call(env, fc, fuel) == Result::<(Env, Option<Symbol>), EvalError>::Err(
            EvalError::ArityMismatch(fe.args.len(), fc.args.len()),
        ),
{
}

proof fn lemma_body_no_return(env: Env, stmts: Seq<ASTNode>, i: nat, fuel: nat)
    requires
        forall|j: int|
            0 <= j < stmts.len() ==> !((#[trigger] stmts[j]) matches ASTNode::ReturnExpression(_)),
    ensures
        s_eval_body(env, stmts, i, fuel) matches Ok((e2, v)) ==> v is None,
    decreases fuel,
{
    if fuel > 0 && i < stmts.len() {
        let f = (fuel - 1) as nat;
        match s_eval_node(env, stmts[i as int], f) {
            Ok((env1, _)) => lemma_body_no_return(env1, stmts, i + 1, f),
            _ => (),
        }
    }
}

/// A call of a function whose body holds no top-level return statement
/// produces no value, whatever else the body does.
pub proof fn lemma_call_without_return(
    env: Env,
    fc: FunctionCall,
    fe: std::rc::Rc<FunctionExpression>,
    fuel: nat,
)
    requires
        env_get(env, fc.name@) == Some(Symbol::Function(fe)),
        forall|j: int|
            0 <= j < fe.body@.len() ==> !((#[trigger] fe.body@[j]) matches ASTNode::ReturnExpression(
                _,
            )),
    ensures
        s_eval_call(env, fc, fuel) matches Ok((e2, v)) ==> v is None,
{
    if fuel > 0 {
        let f = (fuel - 1) as nat;
        if fc.args.len() >= fe.args.len() {
            match s_resolve_scope(env, fe.args@, fc.args@, 0) {
                Ok(scope) => lemma_body_no_return(env.push(scope), fe.body@, 0, f),
                _ => (),
            }
        }
    }
}

/// Comparing two values of different runtime kinds always fails with a type
/// error, whatever the operator: there is no silent coercion.
pub proof fn lemma_compare_kind_mismatch(op: BinaryOperator, l: Symbol, r: Symbol)
    requires
        !(l matches Symbol::Number(_) && r matches Symbol::Number(_)),
        !(l matches Symbol::Boolean(_) && r matches Symbol::Boolean(_)),
    ensures
        s_compare(op, l, r) == Result::<Symbol, EvalError>::Err(EvalError::TypeMismatch),
{
}

proof fn lemma_pow_zero(e: nat)
    requires
        e >= 1,
    ensures
        s_pow(0, e) == 0,
{
}

proof fn lemma_pow_one(e: nat)
    ensures
        s_pow(1, e) == 1,
    decreases e,
{
    if e > 0 {
        lemma_pow_one((e - 1) as nat);
    }
}

proof fn lemma_pow_minus_one(e: nat)
    ensures
        s_pow(-1, e) == if e % 2 == 0 {
            1int
        } else {
            -1int
        },
    decreases e,
{
    if e > 0 {
        lemma_pow_minus_one((e - 1) as nat);
    }
}

/// With a base of magnitude at least two, the magnitude of a power at least
/// doubles with each further step of the exponent.
proof fn lemma_pow_grows(b: int, e1: nat, e2: nat)
    requires
        b < -1 || b > 1,
        e1 <= e2,
    ensures
        abs_of(s_pow(b, e2)) >= abs_of(s_pow(b, e1)),
        e1 < e2 ==> abs_of(s_pow(b, e2)) >= 2 * abs_of(s_pow(b, e1)),
        abs_of(s_pow(b, e1)) >= 1,
    decreases e2 - e1,
{
    if e1 == e2 {
        lemma_pow_positive(b, e1);
    } else {
        lemma_pow_grows(b, e1, (e2 - 1) as nat);
        let prev = s_pow(b, (e2 - 1) as nat);
        assert(s_pow(b, e2) == b * prev);
        assert(abs_of(b * prev) == abs_of(b) * abs_of(prev)) by (nonlinear_arith);
        assert(abs_of(b) * abs_of(prev) >= 2 * abs_of(prev)) by (nonlinear_arith)
            requires
                abs_of(b) >= 2,
                abs_of(prev) >= 0,
        ;
    }
}

proof fn lemma_pow_positive(b: int, e: nat)
    requires
        b < -1 || b > 1,
    ensures
        abs_of(s_pow(b, e)) >= 1,
    decreases e,
{
    if e > 0 {
        lemma_pow_positive(b, (e - 1) as nat);
        let prev = s_pow(b, (e - 1) as nat);
        assert(abs_of(b * prev) == abs_of(b) * abs_of(prev)) by (nonlinear_arith);
        assert(abs_of(b) * abs_of(prev) >= 1) by (nonlinear_arith)
            requires
                abs_of(b) >= 2,
                abs_of(prev) >= 1,
        ;
    }
}

} // verus!
