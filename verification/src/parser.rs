use vstd::prelude::*;

use crate::ast::ast::{
    ASTNode, BinaryExpression, BinaryOperator, FunctionCall, FunctionExpression, VariableExpression,
};
use crate::ast::symbol::Symbol;
use crate::token::TokenType;
use std::rc::Rc;

verus! {

/// A parse failure: the index of the token at which the grammar could not
/// continue. Parsing halts immediately; no partial tree is returned.
#[derive(Debug, Clone, Copy, PartialEq, Eq, Structural)]
pub struct SyntaxError {
    pub at: usize,
}

/// The outcome of one grammar rule: the node built and the position after
/// it, or the position of the offending token.
pub type NodeOut = Result<(ASTNode, nat), nat>;

/// The outcome of a statement list.
pub type ListOut = Result<(Seq<ASTNode>, nat), nat>;

/// The outcome of a parameter-name list.
pub type ParamsOut = Result<(Seq<String>, nat), nat>;

/// The outcome of a call-argument list.
pub type ArgsOut = Result<(Seq<Symbol>, nat), nat>;

/// The token at a position; past the end of the stream every position reads
/// as end-of-input.
pub open spec fn tok_at(toks: Seq<TokenType>, pos: nat) -> TokenType {
    if pos < toks.len() {
        toks[pos as int]
    } else {
        TokenType::EOF
    }
}

/// The binding strength of an operator token: `^` 5, `*` and `/` 3, `+` and
/// `-` 2, everything else 0. Comparison operators never climb.
pub open spec fn prec_of(t: TokenType) -> nat {
    match t {
        TokenType::Carat => 5,
        TokenType::Asterisk => 3,
        TokenType::ForwardSlash => 3,
        TokenType::Plus => 2,
        TokenType::Minus => 2,
        _ => 0,
    }
}

/// The operator a token stands for in a binary expression.
pub open spec fn op_of(t: TokenType) -> BinaryOperator {
    match t {
        TokenType::Minus => BinaryOperator::Minus,
        TokenType::Asterisk => BinaryOperator::Asterisk,
        TokenType::ForwardSlash => BinaryOperator::ForwardSlash,
        TokenType::Carat => BinaryOperator::Carat,
        TokenType::DoubleEquals => BinaryOperator::DoubleEquals,
        TokenType::GreaterThan => BinaryOperator::GreaterThan,
        TokenType::LessThan => BinaryOperator::LessThan,
        TokenType::GreaterThanOrEqualTo => BinaryOperator::GreaterThanOrEqualTo,
        TokenType::LessThanOrEqualTo => BinaryOperator::LessThanOrEqualTo,
        _ => BinaryOperator::Plus,
    }
}

/// Whether a token is the identifier spelled `kw`.
pub open spec fn is_ident(t: TokenType, kw: Seq<char>) -> bool {
    t matches TokenType::Identifier(s) && s@ == kw
}

/// How the descent spends fuel: one unit per rule entered, so a budget of a
/// few units per token always suffices.
pub open spec fn parse_fuel(len: nat) -> nat {
    if 4 * len + 16 <= u64::MAX {
        4 * len + 16
    } else {
        u64::MAX as nat
    }
}

pub open spec fn node_out(r: Result<ASTNode, SyntaxError>, pos: nat) -> NodeOut {
    match r {
        Ok(n) => Ok((n, pos)),
        Err(e) => Err(e.at as nat),
    }
}

pub open spec fn list_out(r: Result<Vec<ASTNode>, SyntaxError>, pos: nat) -> ListOut {
    match r {
        Ok(v) => Ok((v@, pos)),
        Err(e) => Err(e.at as nat),
    }
}

pub open spec fn params_out(r: Result<Vec<String>, SyntaxError>, pos: nat) -> ParamsOut {
    match r {
        Ok(v) => Ok((v@, pos)),
        Err(e) => Err(e.at as nat),
    }
}

pub open spec fn args_out(r: Result<Vec<Symbol>, SyntaxError>, pos: nat) -> ArgsOut {
    match r {
        Ok(v) => Ok((v@, pos)),
        Err(e) => Err(e.at as nat),
    }
}

/// Always true. Each derivation that rests on a sub-derivation names its
/// outcome through this marker, so that a proof can point at the witness.
pub open spec fn witnessed<T>(o: T) -> bool {
    true
}

/// Program = statement list; whatever follows the list's natural end is left
/// unread.
pub open spec fn s_program(toks: Seq<TokenType>, pos: nat, fuel: nat, out: NodeOut) -> bool
    decreases fuel,
{
    if fuel == 0 {
        out == NodeOut::Err(pos)
    } else {
        exists|ol: ListOut|
            #[trigger] witnessed(ol) && s_statement_list(toks, pos, (fuel - 1) as nat, ol)
                && match ol {
                Err(e) => out == NodeOut::Err(e),
                Ok((sts, p)) => {
                    &&& out matches Ok((n, p2))
                    &&& p2 == p
                    &&& n matches ASTNode::Program(v)
                    &&& v@ == sts
                },
            }
    }
}

/// Statements separated by single newlines; the list ends at end-of-input or
/// a closing brace, and no separator is needed before either.
pub open spec fn s_statement_list(toks: Seq<TokenType>, pos: nat, fuel: nat, out: ListOut) -> bool
    decreases fuel,
{
    if fuel == 0 {
        out == ListOut::Err(pos)
    } else if tok_at(toks, pos) == TokenType::EOF || tok_at(toks, pos) == TokenType::CloseBraces {
        out == ListOut::Ok((Seq::<ASTNode>::empty(), pos))
    } else {
        exists|o1: NodeOut|
            #[trigger] witnessed(o1) && s_statement(toks, pos, (fuel - 1) as nat, o1) && match o1 {
                Err(e) => out == ListOut::Err(e),
                Ok((st, p1)) => {
                    let sep = tok_at(toks, p1);
                    if sep == TokenType::Newline || sep == TokenType::EOF || sep
                        == TokenType::CloseBraces {
                        let p = if sep == TokenType::Newline {
                            p1 + 1
                        } else {
                            p1
                        };
                        exists|o2: ListOut|
                            #[trigger] witnessed(o2) && s_statement_list(
                                toks,
                                p,
                                (fuel - 1) as nat,
                                o2,
                            ) && match o2 {
                                Err(e) => out == ListOut::Err(e),
                                Ok((sts, p2)) => out == ListOut::Ok((sts.insert(0, st), p2)),
                            }
                    } else {
                        out == ListOut::Err(p1)
                    }
                },
            }
    }
}

/// Statement = assignment (when the next token is `=`), function definition
/// (when the statement opens with the `func` keyword), or expression.
pub open spec fn s_statement(toks: Seq<TokenType>, pos: nat, fuel: nat, out: NodeOut) -> bool
    decreases fuel,
{
    if fuel == 0 {
        out == NodeOut::Err(pos)
    } else if tok_at(toks, pos + 1) == TokenType::Equals {
        s_variable_expression(toks, pos, (fuel - 1) as nat, out)
    } else if is_ident(tok_at(toks, pos), "func"@) {
        s_function_expression(toks, pos, (fuel - 1) as nat, out)
    } else {
        s_expression(toks, pos, 0, (fuel - 1) as nat, out)
    }
}

/// Assignment = IDENTIFIER "=" expression.
pub open spec fn s_variable_expression(
    toks: Seq<TokenType>,
    pos: nat,
    fuel: nat,
    out: NodeOut,
) -> bool
    decreases fuel,
{
    if fuel == 0 {
        out == NodeOut::Err(pos)
    } else {
        match tok_at(toks, pos) {
            TokenType::Identifier(name) => if tok_at(toks, pos + 1) != TokenType::Equals {
                out == NodeOut::Err(pos + 1)
            } else {
                exists|o: NodeOut|
                    #[trigger] witnessed(o) && s_expression(toks, pos + 2, 0, (fuel - 1) as nat, o)
                        && match o {
                        Err(e) => out == NodeOut::Err(e),
                        Ok((rhs, p1)) => {
                            &&& out matches Ok((n, p2))
                            &&& p2 == p1
                            &&& n matches ASTNode::VariableExpression(ve)
                            &&& ve.name == name
                            &&& *ve.value == rhs
                        },
                    }
            },
            _ => out == NodeOut::Err(pos),
        }
    }
}

/// Expression = prefix, then the precedence-climbing loop over infix
/// operators stronger than the floor.
pub open spec fn s_expression(
    toks: Seq<TokenType>,
    pos: nat,
    minprec: nat,
    fuel: nat,
    out: NodeOut,
) -> bool
    decreases fuel,
{
    if fuel == 0 {
        out == NodeOut::Err(pos)
    } else {
        exists|o1: NodeOut|
            #[trigger] witnessed(o1) && s_prefix(toks, pos, (fuel - 1) as nat, o1) && match o1 {
                Err(e) => out == NodeOut::Err(e),
                Ok((left, p1)) => s_infix_chain(toks, left, p1, minprec, (fuel - 1) as nat, out),
            }
    }
}

/// The climbing loop: while the current token binds tighter than the floor,
/// take it, parse its right operand - with the operator's own strength as
/// the new floor, one less for the right-associative `^` - and fold the two
/// sides into a binary node that becomes the new left side.
pub open spec fn s_infix_chain(
    toks: Seq<TokenType>,
    left: ASTNode,
    pos: nat,
    minprec: nat,
    fuel: nat,
    out: NodeOut,
) -> bool
    decreases fuel,
{
    if fuel == 0 {
        out == NodeOut::Err(pos)
    } else {
        let t = tok_at(toks, pos);
        if prec_of(t) <= minprec {
            out == NodeOut::Ok((left, pos))
        } else {
            let rprec = if t == TokenType::Carat {
                (prec_of(t) - 1) as nat
            } else {
                prec_of(t)
            };
            exists|o2: NodeOut|
                #[trigger] witnessed(o2) && s_expression(toks, pos + 1, rprec, (fuel - 1) as nat, o2)
                    && match o2 {
                    Err(e) => out == NodeOut::Err(e),
                    Ok((right, p2)) => exists|folded: ASTNode|
                        {
                            &&& #[trigger] witnessed(folded)
                            &&& s_infix_chain(
                                toks,
                                folded,
                                p2,
                                minprec,
                                (fuel - 1) as nat,
                                out,
                            )
                            &&& folded matches ASTNode::BinaryExpression(be)
                            &&& *be.left == left
                            &&& be.operator == op_of(t)
                            &&& *be.right == right
                        },
                }
        }
    }
}

/// Prefix = parenthesized expression, unary minus, `return` expression,
/// function call, variable reference, or number literal.
pub open spec fn s_prefix(toks: Seq<TokenType>, pos: nat, fuel: nat, out: NodeOut) -> bool
    decreases fuel,
{
    if fuel == 0 {
        out == NodeOut::Err(pos)
    } else {
        match tok_at(toks, pos) {
            TokenType::OpenParenthesis => s_parenthesized(toks, pos, (fuel - 1) as nat, out),
            TokenType::Minus => s_unary(toks, pos, (fuel - 1) as nat, out),
            TokenType::Identifier(id) => if id@ == "return"@ {
                s_return(toks, pos, (fuel - 1) as nat, out)
            } else if tok_at(toks, pos + 1) == TokenType::OpenParenthesis {
                s_call(toks, pos, (fuel - 1) as nat, out)
            } else {
                out == NodeOut::Ok((ASTNode::Variable(id), pos + 1))
            },
            TokenType::Number(x) => out == NodeOut::Ok((ASTNode::Number(x), pos + 1)),
            _ => out == NodeOut::Err(pos),
        }
    }
}

/// "(" expression ")" - the inner node is handed through unchanged.
pub open spec fn s_parenthesized(toks: Seq<TokenType>, pos: nat, fuel: nat, out: NodeOut) -> bool
    decreases fuel,
{
    if fuel == 0 {
        out == NodeOut::Err(pos)
    } else if tok_at(toks, pos) != TokenType::OpenParenthesis {
        out == NodeOut::Err(pos)
    } else {
        exists|o: NodeOut|
            #[trigger] witnessed(o) && s_expression(toks, pos + 1, 0, (fuel - 1) as nat, o)
                && match o {
                Err(e) => out == NodeOut::Err(e),
                Ok((inner, p1)) => if tok_at(toks, p1) == TokenType::CloseParenthesis {
                    out == NodeOut::Ok((inner, p1 + 1))
                } else {
                    out == NodeOut::Err(p1)
                },
            }
    }
}

/// Unary minus: "-" expression, the operand parsed with floor 4, between
/// `*` and `/` (3) and `^` (5).
pub open spec fn s_unary(toks: Seq<TokenType>, pos: nat, fuel: nat, out: NodeOut) -> bool
    decreases fuel,
{
    if fuel == 0 {
        out == NodeOut::Err(pos)
    } else if tok_at(toks, pos) != TokenType::Minus {
        out == NodeOut::Err(pos)
    } else {
        exists|o: NodeOut|
            #[trigger] witnessed(o) && s_expression(toks, pos + 1, 4, (fuel - 1) as nat, o)
                && match o {
                Err(e) => out == NodeOut::Err(e),
                Ok((operand, p1)) => {
                    &&& out matches Ok((n, p2))
                    &&& p2 == p1
                    &&& n matches ASTNode::UnaryExpression(inner)
                    &&& *inner == operand
                },
            }
    }
}

/// "return" expression.
pub open spec fn s_return(toks: Seq<TokenType>, pos: nat, fuel: nat, out: NodeOut) -> bool
    decreases fuel,
{
    if fuel == 0 {
        out == NodeOut::Err(pos)
    } else if !is_ident(tok_at(toks, pos), "return"@) {
        out == NodeOut::Err(pos)
    } else {
        exists|o: NodeOut|
            #[trigger] witnessed(o) && s_expression(toks, pos + 1, 0, (fuel - 1) as nat, o)
                && match o {
                Err(e) => out == NodeOut::Err(e),
                Ok((inner, p1)) => {
                    &&& out matches Ok((n, p2))
                    &&& p2 == p1
                    &&& n matches ASTNode::ReturnExpression(b)
                    &&& *b == inner
                },
            }
    }
}

/// A call site: IDENTIFIER "(" argument list ")".
pub open spec fn s_call(toks: Seq<TokenType>, pos: nat, fuel: nat, out: NodeOut) -> bool
    decreases fuel,
{
    if fuel == 0 {
        out == NodeOut::Err(pos)
    } else {
        match tok_at(toks, pos) {
            TokenType::Identifier(name) => if tok_at(toks, pos + 1) != TokenType::OpenParenthesis {
                out == NodeOut::Err(pos + 1)
            } else {
                exists|oa: ArgsOut|
                    #[trigger] witnessed(oa) && s_call_args(toks, pos + 2, (fuel - 1) as nat, oa)
                        && match oa {
                        Err(e) => out == NodeOut::Err(e),
                        Ok((args, p1)) => if tok_at(toks, p1) == TokenType::CloseParenthesis {
                            &&& out matches Ok((n, p2))
                            &&& p2 == p1 + 1
                            &&& n matches ASTNode::FunctionCall(fc)
                            &&& fc.name == name
                            &&& fc.args@ == args
                        } else {
                            out == NodeOut::Err(p1)
                        },
                    }
            },
            _ => out == NodeOut::Err(pos),
        }
    }
}

/// A possibly empty argument list: each argument a bare identifier or a
/// number, separated by commas.
pub open spec fn s_call_args(toks: Seq<TokenType>, pos: nat, fuel: nat, out: ArgsOut) -> bool
    decreases fuel,
{
    if fuel == 0 {
        out == ArgsOut::Err(pos)
    } else if tok_at(toks, pos) == TokenType::CloseParenthesis {
        out == ArgsOut::Ok((Seq::<Symbol>::empty(), pos))
    } else {
        s_call_args_more(toks, pos, (fuel - 1) as nat, out)
    }
}

/// At least one argument; a comma must be followed by another argument.
pub open spec fn s_call_args_more(toks: Seq<TokenType>, pos: nat, fuel: nat, out: ArgsOut) -> bool
    decreases fuel,
{
    if fuel == 0 {
        out == ArgsOut::Err(pos)
    } else {
        let arg = match tok_at(toks, pos) {
            TokenType::Identifier(id) => Some(Symbol::Variable(id)),
            TokenType::Number(x) => Some(Symbol::Number(x)),
            _ => None,
        };
        match arg {
            None => out == ArgsOut::Err(pos),
            Some(a) => if tok_at(toks, pos + 1) == TokenType::CloseParenthesis {
                out == ArgsOut::Ok((Seq::<Symbol>::empty().insert(0, a), pos + 1))
            } else if tok_at(toks, pos + 1) == TokenType::Comma {
                exists|rest: ArgsOut|
                    #[trigger] witnessed(rest) && s_call_args_more(
                        toks,
                        pos + 2,
                        (fuel - 1) as nat,
                        rest,
                    ) && match rest {
                        Err(e) => out == ArgsOut::Err(e),
                        Ok((args, p2)) => out == ArgsOut::Ok((args.insert(0, a), p2)),
                    }
            } else {
                out == ArgsOut::Err(pos + 1)
            },
        }
    }
}

/// A possibly empty parameter-name list.
pub open spec fn s_params(toks: Seq<TokenType>, pos: nat, fuel: nat, out: ParamsOut) -> bool
    decreases fuel,
{
    if fuel == 0 {
        out == ParamsOut::Err(pos)
    } else if tok_at(toks, pos) == TokenType::CloseParenthesis {
        out == ParamsOut::Ok((Seq::<String>::empty(), pos))
    } else {
        s_params_more(toks, pos, (fuel - 1) as nat, out)
    }
}

/// At least one parameter name; a comma must be followed by another name.
pub open spec fn s_params_more(toks: Seq<TokenType>, pos: nat, fuel: nat, out: ParamsOut) -> bool
    decreases fuel,
{
    if fuel == 0 {
        out == ParamsOut::Err(pos)
    } else {
        match tok_at(toks, pos) {
            TokenType::Identifier(id) => if tok_at(toks, pos + 1) == TokenType::CloseParenthesis {
                out == ParamsOut::Ok((Seq::<String>::empty().insert(0, id), pos + 1))
            } else if tok_at(toks, pos + 1) == TokenType::Comma {
                exists|rest: ParamsOut|
                    #[trigger] witnessed(rest) && s_params_more(
                        toks,
                        pos + 2,
                        (fuel - 1) as nat,
                        rest,
                    ) && match rest {
                        Err(e) => out == ParamsOut::Err(e),
                        Ok((params, p2)) => out == ParamsOut::Ok((params.insert(0, id), p2)),
                    }
            } else {
                out == ParamsOut::Err(pos + 1)
            },
            _ => out == ParamsOut::Err(pos),
        }
    }
}

/// "func" IDENTIFIER "(" parameters ")" "{" NEWLINE statement list "}".
pub open spec fn s_function_expression(
    toks: Seq<TokenType>,
    pos: nat,
    fuel: nat,
    out: NodeOut,
) -> bool
    decreases fuel,
{
    if fuel == 0 {
        out == NodeOut::Err(pos)
    } else if !is_ident(tok_at(toks, pos), "func"@) {
        out == NodeOut::Err(pos)
    } else {
        match tok_at(toks, pos + 1) {
            TokenType::Identifier(name) => if tok_at(toks, pos + 2) != TokenType::OpenParenthesis {
                out == NodeOut::Err(pos + 2)
            } else {
                exists|op: ParamsOut|
                    #[trigger] witnessed(op) && s_params(toks, pos + 3, (fuel - 1) as nat, op)
                        && match op {
                        Err(e) => out == NodeOut::Err(e),
                        Ok((params, q)) => if tok_at(toks, q) != TokenType::CloseParenthesis {
                            out == NodeOut::Err(q)
                        } else if tok_at(toks, q + 1) != TokenType::OpenBraces {
                            out == NodeOut::Err(q + 1)
                        } else if tok_at(toks, q + 2) != TokenType::Newline {
                            out == NodeOut::Err(q + 2)
                        } else {
                            exists|ol: ListOut|
                                #[trigger] witnessed(ol) && s_statement_list(
                                    toks,
                                    q + 3,
                                    (fuel - 1) as nat,
                                    ol,
                                ) && match ol {
                                    Err(e) => out == NodeOut::Err(e),
                                    Ok((body, q2)) => if tok_at(toks, q2)
                                        == TokenType::CloseBraces {
                                        &&& out matches Ok((n, p2))
                                        &&& p2 == q2 + 1
                                        &&& n matches ASTNode::FunctionExpression(fe)
                                        &&& fe.name == name
                                        &&& fe.args@ == params
                                        &&& fe.body@ == body
                                    } else {
                                        out == NodeOut::Err(q2)
                                    },
                                }
                        },
                    }
            },
            _ => out == NodeOut::Err(pos + 1),
        }
    }
}


/// The shape of a binary node: its two children and its operator.
pub open spec fn binexp_shape(n: ASTNode, l: ASTNode, op: BinaryOperator, r: ASTNode) -> bool {
    &&& n matches ASTNode::BinaryExpression(be)
    &&& *be.left == l
    &&& be.operator == op
    &&& *be.right == r
}

/// An additive or multiplicative operator token: `+ - * /`.
pub open spec fn is_add_mul(t: TokenType) -> bool {
    t == TokenType::Plus || t == TokenType::Minus || t == TokenType::Asterisk || t
        == TokenType::ForwardSlash
}

/// Left-associativity: over `+ - * /`, when the first operator binds at
/// least as tightly as the second, `a op1 b op2 c` parses as
/// `(a op1 b) op2 c`.
pub proof fn lemma_left_associativity(
    toks: Seq<TokenType>,
    a: i64,
    b: i64,
    c: i64,
    op1: TokenType,
    op2: TokenType,
    fuel: nat,
    node: ASTNode,
    pend: nat,
)
    requires
        is_add_mul(op1),
        is_add_mul(op2),
        prec_of(op2) <= prec_of(op1),
        toks == seq![
            TokenType::Number(a),
            op1,
            TokenType::Number(b),
            op2,
            TokenType::Number(c),
        ],
        s_program(toks, 0, fuel, NodeOut::Ok((node, pend))),
    ensures
        ({
            &&& node matches ASTNode::Program(v)
            &&& v@.len() == 1
            &&& v@[0] matches ASTNode::BinaryExpression(be)
            &&& be.operator == op_of(op2)
            &&& *be.right == ASTNode::Number(c)
            &&& binexp_shape(*be.left, ASTNode::Number(a), op_of(op1), ASTNode::Number(b))
        }),
{
    let na = ASTNode::Number(a);
    let nb = ASTNode::Number(b);
    let nc = ASTNode::Number(c);
    assert(tok_at(toks, 0) == TokenType::Number(a));
    assert(tok_at(toks, 1) == op1);
    assert(tok_at(toks, 2) == TokenType::Number(b));
    assert(tok_at(toks, 3) == op2);
    assert(tok_at(toks, 4) == TokenType::Number(c));
    assert(tok_at(toks, 5) == TokenType::EOF);
    // leaves
    assert forall|fz: nat, o: NodeOut|
        o matches Ok(_) && s_prefix(toks, 0, fz, o) implies o == NodeOut::Ok((na, 1)) by {}
    assert forall|fz: nat, o: NodeOut|
        o matches Ok(_) && s_prefix(toks, 2, fz, o) implies o == NodeOut::Ok((nb, 3)) by {}
    assert forall|fz: nat, o: NodeOut|
        o matches Ok(_) && s_prefix(toks, 4, fz, o) implies o == NodeOut::Ok((nc, 5)) by {}
    // at the end of input the climbing loop stops
    assert forall|fz: nat, mp: nat, lf: ASTNode, o: NodeOut|
        o matches Ok(_) && s_infix_chain(toks, lf, 5, mp, fz, o) implies o == NodeOut::Ok(
        (lf, 5),
    ) by {}
    // before the second operator, a floor at least as high stops the climb
    assert forall|fz: nat, mp: nat, lf: ASTNode, o: NodeOut|
        o matches Ok(_) && s_infix_chain(toks, lf, 3, mp, fz, o) && mp >= prec_of(op2) implies o
        == NodeOut::Ok((lf, 3)) by {}
    assert forall|fz: nat, mp: nat, o: NodeOut|
        o matches Ok(_) && s_expression(toks, 2, mp, fz, o) && mp >= prec_of(op2) implies o
        == NodeOut::Ok((nb, 3)) by {
        if fz > 0 {
            let o1 = choose|o1: NodeOut|
                witnessed(o1) && s_prefix(toks, 2, (fz - 1) as nat, o1) && match o1 {
                    Err(e) => o == NodeOut::Err(e),
                    Ok((left, p1)) => s_infix_chain(toks, left, p1, mp, (fz - 1) as nat, o),
                };
            assert(o1 == NodeOut::Ok((nb, 3)) || o matches Err(_));
        }
    }
    assert forall|fz: nat, mp: nat, o: NodeOut|
        o matches Ok(_) && s_expression(toks, 4, mp, fz, o) implies o == NodeOut::Ok(
        (nc, 5),
    ) by {
        if fz > 0 {
            let o1 = choose|o1: NodeOut|
                witnessed(o1) && s_prefix(toks, 4, (fz - 1) as nat, o1) && match o1 {
                    Err(e) => o == NodeOut::Err(e),
                    Ok((left, p1)) => s_infix_chain(toks, left, p1, mp, (fz - 1) as nat, o),
                };
            assert(o1 == NodeOut::Ok((nc, 5)) || o matches Err(_));
        }
    }
    // the climb from the second operator folds the right operand in
    assert forall|fz: nat, lf: ASTNode, o: NodeOut|
        o matches Ok(_) && s_infix_chain(toks, lf, 3, 0, fz, o) implies ({
            &&& o matches Ok((n, p))
            &&& p == 5
            &&& binexp_shape(n, lf, op_of(op2), nc)
        }) by {
        if fz > 0 {
            let o2 = choose|o2: NodeOut|
                witnessed(o2) && s_expression(toks, 4, prec_of(op2), (fz - 1) as nat, o2)
                    && match o2 {
                    Err(e) => o == NodeOut::Err(e),
                    Ok((right, p2)) => exists|folded: ASTNode|
                        {
                            &&& #[trigger] witnessed(folded)
                            &&& s_infix_chain(toks, folded, p2, 0, (fz - 1) as nat, o)
                            &&& folded matches ASTNode::BinaryExpression(be)
                            &&& *be.left == lf
                            &&& be.operator == op_of(op2)
                            &&& *be.right == right
                        },
                };
            match o2 {
                Ok((right, p2)) => {
                    assert(o2 == NodeOut::Ok((nc, 5)));
                    let folded = choose|folded: ASTNode|
                        {
                            &&& witnessed(folded)
                            &&& s_infix_chain(toks, folded, p2, 0, (fz - 1) as nat, o)
                            &&& folded matches ASTNode::BinaryExpression(be)
                            &&& *be.left == lf
                            &&& be.operator == op_of(op2)
                            &&& *be.right == right
                        };
                    assert(o == NodeOut::Ok((folded, 5)));
                },
                Err(_) => {
                    assert(false);
                },
            }
        }
    }
    // the climb from the first operator builds the left-leaning tree
    assert forall|fz: nat, lf: ASTNode, o: NodeOut|
        o matches Ok(_) && s_infix_chain(toks, lf, 1, 0, fz, o) implies ({
            &&& o matches Ok((n, p))
            &&& p == 5
            &&& n matches ASTNode::BinaryExpression(be)
            &&& be.operator == op_of(op2)
            &&& *be.right == nc
            &&& binexp_shape(*be.left, lf, op_of(op1), nb)
        }) by {
        if fz > 0 {
            let o2 = choose|o2: NodeOut|
                witnessed(o2) && s_expression(toks, 2, prec_of(op1), (fz - 1) as nat, o2)
                    && match o2 {
                    Err(e) => o == NodeOut::Err(e),
                    Ok((right, p2)) => exists|folded: ASTNode|
                        {
                            &&& #[trigger] witnessed(folded)
                            &&& s_infix_chain(toks, folded, p2, 0, (fz - 1) as nat, o)
                            &&& folded matches ASTNode::BinaryExpression(be)
                            &&& *be.left == lf
                            &&& be.operator == op_of(op1)
                            &&& *be.right == right
                        },
                };
            match o2 {
                Ok((right, p2)) => {
                    assert(o2 == NodeOut::Ok((nb, 3)));
                    let folded = choose|folded: ASTNode|
                        {
                            &&& witnessed(folded)
                            &&& s_infix_chain(toks, folded, p2, 0, (fz - 1) as nat, o)
                            &&& folded matches ASTNode::BinaryExpression(be)
                            &&& *be.left == lf
                            &&& be.operator == op_of(op1)
                            &&& *be.right == right
                        };
                    assert(binexp_shape(folded, lf, op_of(op1), nb));
                },
                Err(_) => {
                    assert(false);
                },
            }
        }
    }
    assert forall|fz: nat, o: NodeOut|
        o matches Ok(_) && s_expression(toks, 0, 0, fz, o) implies ({
            &&& o matches Ok((n, p))
            &&& p == 5
            &&& n matches ASTNode::BinaryExpression(be)
            &&& be.operator == op_of(op2)
            &&& *be.right == nc
            &&& binexp_shape(*be.left, na, op_of(op1), nb)
        }) by {
        if fz > 0 {
            let o1 = choose|o1: NodeOut|
                witnessed(o1) && s_prefix(toks, 0, (fz - 1) as nat, o1) && match o1 {
                    Err(e) => o == NodeOut::Err(e),
                    Ok((left, p1)) => s_infix_chain(toks, left, p1, 0, (fz - 1) as nat, o),
                };
            assert(o1 == NodeOut::Ok((na, 1)) || o matches Err(_));
        }
    }
    assert forall|fz: nat, o: NodeOut|
        o matches Ok(_) && s_statement(toks, 0, fz, o) implies ({
            &&& o matches Ok((n, p))
            &&& p == 5
            &&& n matches ASTNode::BinaryExpression(be)
            &&& be.operator == op_of(op2)
            &&& *be.right == nc
            &&& binexp_shape(*be.left, na, op_of(op1), nb)
        }) by {
        assert(tok_at(toks, 1) != TokenType::Equals);
        assert(!is_ident(tok_at(toks, 0), "func"@));
        if fz > 0 {
            assert(s_expression(toks, 0, 0, (fz - 1) as nat, o));
        }
    }
    assert forall|fz: nat, o: ListOut|
        o matches Ok(_) && s_statement_list(toks, 5, fz, o) implies o == ListOut::Ok(
        (Seq::<ASTNode>::empty(), 5),
    ) by {}
    assert forall|fz: nat, o: ListOut|
        o matches Ok(_) && s_statement_list(toks, 0, fz, o) implies ({
            &&& o matches Ok((sts, p))
            &&& p == 5
            &&& sts.len() == 1
            &&& sts[0] matches ASTNode::BinaryExpression(be)
            &&& be.operator == op_of(op2)
            &&& *be.right == nc
            &&& binexp_shape(*be.left, na, op_of(op1), nb)
        }) by {
        if fz > 0 {
            let o1 = choose|o1: NodeOut|
                witnessed(o1) && s_statement(toks, 0, (fz - 1) as nat, o1) && match o1 {
                    Err(e) => o == ListOut::Err(e),
                    Ok((st, p1)) => {
                        let sep = tok_at(toks, p1);
                        if sep == TokenType::Newline || sep == TokenType::EOF || sep
                            == TokenType::CloseBraces {
                            let p = if sep == TokenType::Newline {
                                p1 + 1
                            } else {
                                p1
                            };
                            exists|o2: ListOut|
                                #[trigger] witnessed(o2) && s_statement_list(
                                    toks,
                                    p,
                                    (fz - 1) as nat,
                                    o2,
                                ) && match o2 {
                                    Err(e) => o == ListOut::Err(e),
                                    Ok((sts, p2)) => o == ListOut::Ok((sts.insert(0, st), p2)),
                                }
                        } else {
                            o == ListOut::Err(p1)
                        }
                    },
                };
            match o1 {
                Ok((st, p1)) => {
                    assert(p1 == 5);
                    let o2 = choose|o2: ListOut|
                        witnessed(o2) && s_statement_list(toks, 5, (fz - 1) as nat, o2) && match o2 {
                            Err(e) => o == ListOut::Err(e),
                            Ok((sts, p2)) => o == ListOut::Ok((sts.insert(0, st), p2)),
                        };
                    match o2 {
                        Ok((sts, p2)) => {
                            assert(o2 == ListOut::Ok((Seq::<ASTNode>::empty(), 5)));
                            assert(Seq::<ASTNode>::empty().insert(0, st) =~= seq![st]);
                        },
                        Err(_) => {
                            assert(false);
                        },
                    }
                },
                Err(_) => {
                    assert(false);
                },
            }
        }
    }
}


/// `^` is right-associative: `a ^ b ^ c` parses as `a ^ (b ^ c)`.
pub proof fn lemma_caret_right_associativity(
    toks: Seq<TokenType>,
    a: i64,
    b: i64,
    c: i64,
    fuel: nat,
    node: ASTNode,
    pend: nat,
)
    requires
        toks == seq![
            TokenType::Number(a),
            TokenType::Carat,
            TokenType::Number(b),
            TokenType::Carat,
            TokenType::Number(c),
        ],
        s_program(toks, 0, fuel, NodeOut::Ok((node, pend))),
    ensures
        ({
            &&& node matches ASTNode::Program(v)
            &&& v@.len() == 1
            &&& v@[0] matches ASTNode::BinaryExpression(be)
            &&& be.operator == BinaryOperator::Carat
            &&& *be.left == ASTNode::Number(a)
            &&& binexp_shape(
                *be.right,
                ASTNode::Number(b),
                BinaryOperator::Carat,
                ASTNode::Number(c),
            )
        }),
{
    let na = ASTNode::Number(a);
    let nb = ASTNode::Number(b);
    let nc = ASTNode::Number(c);
    assert(tok_at(toks, 5) == TokenType::EOF);
    assert forall|fz: nat, o: NodeOut|
        o matches Ok(_) && s_prefix(toks, 0, fz, o) implies o == NodeOut::Ok((na, 1)) by {}
    assert forall|fz: nat, o: NodeOut|
        o matches Ok(_) && s_prefix(toks, 2, fz, o) implies o == NodeOut::Ok((nb, 3)) by {}
    assert forall|fz: nat, o: NodeOut|
        o matches Ok(_) && s_prefix(toks, 4, fz, o) implies o == NodeOut::Ok((nc, 5)) by {}
    assert forall|fz: nat, mp: nat, lf: ASTNode, o: NodeOut|
        o matches Ok(_) && s_infix_chain(toks, lf, 5, mp, fz, o) implies o == NodeOut::Ok(
        (lf, 5),
    ) by {}
    assert forall|fz: nat, mp: nat, o: NodeOut|
        o matches Ok(_) && s_expression(toks, 4, mp, fz, o) implies o == NodeOut::Ok(
        (nc, 5),
    ) by {
        if fz > 0 {
            let o1 = choose|o1: NodeOut|
                witnessed(o1) && s_prefix(toks, 4, (fz - 1) as nat, o1) && match o1 {
                    Err(e) => o == NodeOut::Err(e),
                    Ok((left, p1)) => s_infix_chain(toks, left, p1, mp, (fz - 1) as nat, o),
                };
            assert(o1 == NodeOut::Ok((nc, 5)) || o matches Err(_));
        }
    }
    assert forall|fz: nat, lf: ASTNode, o: NodeOut|
        o matches Ok(_) && s_infix_chain(toks, lf, 3, 4, fz, o) implies ({
            &&& o matches Ok((n, p))
            &&& p == 5
            &&& binexp_shape(n, lf, BinaryOperator::Carat, nc)
        }) by {
        if fz > 0 {
            let o2 = choose|o2: NodeOut|
                witnessed(o2) && s_expression(toks, 4, 4, (fz - 1) as nat, o2) && match o2 {
                    Err(e) => o == NodeOut::Err(e),
                    Ok((right, p2)) => exists|folded: ASTNode|
                        {
                            &&& #[trigger] witnessed(folded)
                            &&& s_infix_chain(toks, folded, p2, 4, (fz - 1) as nat, o)
                            &&& folded matches ASTNode::BinaryExpression(be)
                            &&& *be.left == lf
                            &&& be.operator == BinaryOperator::Carat
                            &&& *be.right == right
                        },
                };
            match o2 {
                Ok((right, p2)) => {
                    assert(o2 == NodeOut::Ok((nc, 5)));
                    let folded = choose|folded: ASTNode|
                        {
                            &&& witnessed(folded)
                            &&& s_infix_chain(toks, folded, p2, 4, (fz - 1) as nat, o)
                            &&& folded matches ASTNode::BinaryExpression(be)
                            &&& *be.left == lf
                            &&& be.operator == BinaryOperator::Carat
                            &&& *be.right == right
                        };
                    assert(o == NodeOut::Ok((folded, 5)));
                },
                Err(_) => {
                    assert(false);
                },
            }
        }
    }
    assert forall|fz: nat, o: NodeOut|
        o matches Ok(_) && s_expression(toks, 2, 4, fz, o) implies ({
            &&& o matches Ok((n, p))
            &&& p == 5
            &&& binexp_shape(n, nb, BinaryOperator::Carat, nc)
        }) by {
        if fz > 0 {
            let o1 = choose|o1: NodeOut|
                witnessed(o1) && s_prefix(toks, 2, (fz - 1) as nat, o1) && match o1 {
                    Err(e) => o == NodeOut::Err(e),
                    Ok((left, p1)) => s_infix_chain(toks, left, p1, 4, (fz - 1) as nat, o),
                };
            assert(o1 == NodeOut::Ok((nb, 3)) || o matches Err(_));
        }
    }
    assert forall|fz: nat, lf: ASTNode, o: NodeOut|
        o matches Ok(_) && s_infix_chain(toks, lf, 1, 0, fz, o) implies ({
            &&& o matches Ok((n, p))
            &&& p == 5
            &&& n matches ASTNode::BinaryExpression(be)
            &&& *be.left == lf
            &&& be.operator == BinaryOperator::Carat
            &&& binexp_shape(*be.right, nb, BinaryOperator::Carat, nc)
        }) by {
        if fz > 0 {
            let o2 = choose|o2: NodeOut|
                witnessed(o2) && s_expression(toks, 2, 4, (fz - 1) as nat, o2) && match o2 {
                    Err(e) => o == NodeOut::Err(e),
                    Ok((right, p2)) => exists|folded: ASTNode|
                        {
                            &&& #[trigger] witnessed(folded)
                            &&& s_infix_chain(toks, folded, p2, 0, (fz - 1) as nat, o)
                            &&& folded matches ASTNode::BinaryExpression(be)
                            &&& *be.left == lf
                            &&& be.operator == BinaryOperator::Carat
                            &&& *be.right == right
                        },
                };
            match o2 {
                Ok((right, p2)) => {
                    assert(p2 == 5 && binexp_shape(right, nb, BinaryOperator::Carat, nc));
                    let folded = choose|folded: ASTNode|
                        {
                            &&& witnessed(folded)
                            &&& s_infix_chain(toks, folded, p2, 0, (fz - 1) as nat, o)
                            &&& folded matches ASTNode::BinaryExpression(be)
                            &&& *be.left == lf
                            &&& be.operator == BinaryOperator::Carat
                            &&& *be.right == right
                        };
                    assert(o == NodeOut::Ok((folded, 5)));
                },
                Err(_) => {
                    assert(false);
                },
            }
        }
    }
    assert forall|fz: nat, o: NodeOut|
        o matches Ok(_) && s_expression(toks, 0, 0, fz, o) implies ({
            &&& o matches Ok((n, p))
            &&& p == 5
            &&& n matches ASTNode::BinaryExpression(be)
            &&& *be.left == na
            &&& be.operator == BinaryOperator::Carat
            &&& binexp_shape(*be.right, nb, BinaryOperator::Carat, nc)
        }) by {
        if fz > 0 {
            let o1 = choose|o1: NodeOut|
                witnessed(o1) && s_prefix(toks, 0, (fz - 1) as nat, o1) && match o1 {
                    Err(e) => o == NodeOut::Err(e),
                    Ok((left, p1)) => s_infix_chain(toks, left, p1, 0, (fz - 1) as nat, o),
                };
            assert(o1 == NodeOut::Ok((na, 1)) || o matches Err(_));
        }
    }
    assert forall|fz: nat, o: NodeOut|
        o matches Ok(_) && s_statement(toks, 0, fz, o) implies ({
            &&& o matches Ok((n, p))
            &&& p == 5
            &&& n matches ASTNode::BinaryExpression(be)
            &&& *be.left == na
            &&& be.operator == BinaryOperator::Carat
            &&& binexp_shape(*be.right, nb, BinaryOperator::Carat, nc)
        }) by {
        assert(tok_at(toks, 1) != TokenType::Equals);
        assert(!is_ident(tok_at(toks, 0), "func"@));
        if fz > 0 {
            assert(s_expression(toks, 0, 0, (fz - 1) as nat, o));
        }
    }
    assert forall|fz: nat, o: ListOut|
        o matches Ok(_) && s_statement_list(toks, 5, fz, o) implies o == ListOut::Ok(
        (Seq::<ASTNode>::empty(), 5),
    ) by {}
    assert forall|fz: nat, o: ListOut|
        o matches Ok(_) && s_statement_list(toks, 0, fz, o) implies ({
            &&& o matches Ok((sts, p))
            &&& p == 5
            &&& sts.len() == 1
            &&& sts[0] matches ASTNode::BinaryExpression(be)
            &&& *be.left == na
            &&& be.operator == BinaryOperator::Carat
            &&& binexp_shape(*be.right, nb, BinaryOperator::Carat, nc)
        }) by {
        if fz > 0 {
            let o1 = choose|o1: NodeOut|
                witnessed(o1) && s_statement(toks, 0, (fz - 1) as nat, o1) && match o1 {
                    Err(e) => o == ListOut::Err(e),
                    Ok((st, p1)) => {
                        let sep = tok_at(toks, p1);
                        if sep == TokenType::Newline || sep == TokenType::EOF || sep
                            == TokenType::CloseBraces {
                            let p = if sep == TokenType::Newline {
                                p1 + 1
                            } else {
                                p1
                            };
                            exists|o2: ListOut|
                                #[trigger] witnessed(o2) && s_statement_list(
                                    toks,
                                    p,
                                    (fz - 1) as nat,
                                    o2,
                                ) && match o2 {
                                    Err(e) => o == ListOut::Err(e),
                                    Ok((sts, p2)) => o == ListOut::Ok((sts.insert(0, st), p2)),
                                }
                        } else {
                            o == ListOut::Err(p1)
                        }
                    },
                };
            match o1 {
                Ok((st, p1)) => {
                    assert(p1 == 5);
                    let o2 = choose|o2: ListOut|
                        witnessed(o2) && s_statement_list(toks, 5, (fz - 1) as nat, o2) && match o2 {
                            Err(e) => o == ListOut::Err(e),
                            Ok((sts, p2)) => o == ListOut::Ok((sts.insert(0, st), p2)),
                        };
                    match o2 {
                        Ok((sts, p2)) => {
                            assert(o2 == ListOut::Ok((Seq::<ASTNode>::empty(), 5)));
                            assert(Seq::<ASTNode>::empty().insert(0, st) =~= seq![st]);
                        },
                        Err(_) => {
                            assert(false);
                        },
                    }
                },
                Err(_) => {
                    assert(false);
                },
            }
        }
    }
}


/// The shape of a unary negation node and its operand.
pub open spec fn unary_shape(n: ASTNode, operand: ASTNode) -> bool {
    &&& n matches ASTNode::UnaryExpression(inner)
    &&& *inner == operand
}

/// Unary minus binds looser than `^`: `- a ^ b` parses as `- (a ^ b)`.
pub proof fn lemma_unary_minus_below_caret(
    toks: Seq<TokenType>,
    a: i64,
    b: i64,
    fuel: nat,
    node: ASTNode,
    pend: nat,
)
    requires
        toks == seq![
            TokenType::Minus,
            TokenType::Number(a),
            TokenType::Carat,
            TokenType::Number(b),
        ],
        s_program(toks, 0, fuel, NodeOut::Ok((node, pend))),
    ensures
        ({
            &&& node matches ASTNode::Program(v)
            &&& v@.len() == 1
            &&& v@[0] matches ASTNode::UnaryExpression(inner)
            &&& binexp_shape(*inner, ASTNode::Number(a), BinaryOperator::Carat, ASTNode::Number(b))
        }),
{
    let na = ASTNode::Number(a);
    let nb = ASTNode::Number(b);
    assert(tok_at(toks, 4) == TokenType::EOF);
    assert forall|fz: nat, o: NodeOut|
        o matches Ok(_) && s_prefix(toks, 1, fz, o) implies o == NodeOut::Ok((na, 2)) by {}
    assert forall|fz: nat, o: NodeOut|
        o matches Ok(_) && s_prefix(toks, 3, fz, o) implies o == NodeOut::Ok((nb, 4)) by {}
    assert forall|fz: nat, mp: nat, lf: ASTNode, o: NodeOut|
        o matches Ok(_) && s_infix_chain(toks, lf, 4, mp, fz, o) implies o == NodeOut::Ok(
        (lf, 4),
    ) by {}
    assert forall|fz: nat, mp: nat, o: NodeOut|
        o matches Ok(_) && s_expression(toks, 3, mp, fz, o) implies o == NodeOut::Ok(
        (nb, 4),
    ) by {
        if fz > 0 {
            let o1 = choose|o1: NodeOut|
                witnessed(o1) && s_prefix(toks, 3, (fz - 1) as nat, o1) && match o1 {
                    Err(e) => o == NodeOut::Err(e),
                    Ok((left, p1)) => s_infix_chain(toks, left, p1, mp, (fz - 1) as nat, o),
                };
            assert(o1 == NodeOut::Ok((nb, 4)) || o matches Err(_));
        }
    }
    assert forall|fz: nat, lf: ASTNode, o: NodeOut|
        o matches Ok(_) && s_infix_chain(toks, lf, 2, 4, fz, o) implies ({
            &&& o matches Ok((n, p))
            &&& p == 4
            &&& binexp_shape(n, lf, BinaryOperator::Carat, nb)
        }) by {
        if fz > 0 {
            let o2 = choose|o2: NodeOut|
                witnessed(o2) && s_expression(toks, 3, 4, (fz - 1) as nat, o2) && match o2 {
                    Err(e) => o == NodeOut::Err(e),
                    Ok((right, p2)) => exists|folded: ASTNode|
                        {
                            &&& #[trigger] witnessed(folded)
                            &&& s_infix_chain(toks, folded, p2, 4, (fz - 1) as nat, o)
                            &&& folded matches ASTNode::BinaryExpression(be)
                            &&& *be.left == lf
                            &&& be.operator == BinaryOperator::Carat
                            &&& *be.right == right
                        },
                };
            match o2 {
                Ok((right, p2)) => {
                    assert(o2 == NodeOut::Ok((nb, 4)));
                    let folded = choose|folded: ASTNode|
                        {
                            &&& witnessed(folded)
                            &&& s_infix_chain(toks, folded, p2, 4, (fz - 1) as nat, o)
                            &&& folded matches ASTNode::BinaryExpression(be)
                            &&& *be.left == lf
                            &&& be.operator == BinaryOperator::Carat
                            &&& *be.right == right
                        };
                    assert(o == NodeOut::Ok((folded, 4)));
                },
                Err(_) => {
                    assert(false);
                },
            }
        }
    }
    assert forall|fz: nat, o: NodeOut|
        o matches Ok(_) && s_expression(toks, 1, 4, fz, o) implies ({
            &&& o matches Ok((n, p))
            &&& p == 4
            &&& binexp_shape(n, na, BinaryOperator::Carat, nb)
        }) by {
        if fz > 0 {
            let o1 = choose|o1: NodeOut|
                witnessed(o1) && s_prefix(toks, 1, (fz - 1) as nat, o1) && match o1 {
                    Err(e) => o == NodeOut::Err(e),
                    Ok((left, p1)) => s_infix_chain(toks, left, p1, 4, (fz - 1) as nat, o),
                };
            assert(o1 == NodeOut::Ok((na, 2)) || o matches Err(_));
        }
    }
    assert forall|fz: nat, o: NodeOut|
        o matches Ok(_) && s_unary(toks, 0, fz, o) implies ({
            &&& o matches Ok((n, p))
            &&& p == 4
            &&& n matches ASTNode::UnaryExpression(inner)
            &&& binexp_shape(*inner, na, BinaryOperator::Carat, nb)
        }) by {
        if fz > 0 {
            let o1 = choose|o1: NodeOut|
                witnessed(o1) && s_expression(toks, 1, 4, (fz - 1) as nat, o1) && match o1 {
                    Err(e) => o == NodeOut::Err(e),
                    Ok((operand, p1)) => {
                        &&& o matches Ok((n, p2))
                        &&& p2 == p1
                        &&& n matches ASTNode::UnaryExpression(inner)
                        &&& *inner == operand
                    },
                };
            assert(o1 matches Ok(_) || o matches Err(_));
        }
    }
    assert forall|fz: nat, o: NodeOut|
        o matches Ok(_) && s_prefix(toks, 0, fz, o) implies ({
            &&& o matches Ok((n, p))
            &&& p == 4
            &&& n matches ASTNode::UnaryExpression(inner)
            &&& binexp_shape(*inner, na, BinaryOperator::Carat, nb)
        }) by {
        if fz > 0 {
            assert(s_unary(toks, 0, (fz - 1) as nat, o));
        }
    }
    assert forall|fz: nat, o: NodeOut|
        o matches Ok(_) && s_expression(toks, 0, 0, fz, o) implies ({
            &&& o matches Ok((n, p))
            &&& p == 4
            &&& n matches ASTNode::UnaryExpression(inner)
            &&& binexp_shape(*inner, na, BinaryOperator::Carat, nb)
        }) by {
        if fz > 0 {
            let o1 = choose|o1: NodeOut|
                witnessed(o1) && s_prefix(toks, 0, (fz - 1) as nat, o1) && match o1 {
                    Err(e) => o == NodeOut::Err(e),
                    Ok((left, p1)) => s_infix_chain(toks, left, p1, 0, (fz - 1) as nat, o),
                };
            assert(o1 matches Ok(_) || o matches Err(_));
        }
    }
    assert forall|fz: nat, o: NodeOut|
        o matches Ok(_) && s_statement(toks, 0, fz, o) implies ({
            &&& o matches Ok((n, p))
            &&& p == 4
            &&& n matches ASTNode::UnaryExpression(inner)
            &&& binexp_shape(*inner, na, BinaryOperator::Carat, nb)
        }) by {
        assert(tok_at(toks, 1) != TokenType::Equals);
        assert(!is_ident(tok_at(toks, 0), "func"@));
        if fz > 0 {
            assert(s_expression(toks, 0, 0, (fz - 1) as nat, o));
        }
    }
    assert forall|fz: nat, o: ListOut|
        o matches Ok(_) && s_statement_list(toks, 4, fz, o) implies o == ListOut::Ok(
        (Seq::<ASTNode>::empty(), 4),
    ) by {}
    assert forall|fz: nat, o: ListOut|
        o matches Ok(_) && s_statement_list(toks, 0, fz, o) implies ({
            &&& o matches Ok((sts, p))
            &&& p == 4
            &&& sts.len() == 1
            &&& sts[0] matches ASTNode::UnaryExpression(inner)
            &&& binexp_shape(*inner, na, BinaryOperator::Carat, nb)
        }) by {
        if fz > 0 {
            let o1 = choose|o1: NodeOut|
                witnessed(o1) && s_statement(toks, 0, (fz - 1) as nat, o1) && match o1 {
                    Err(e) => o == ListOut::Err(e),
                    Ok((st, p1)) => {
                        let sep = tok_at(toks, p1);
                        if sep == TokenType::Newline || sep == TokenType::EOF || sep
                            == TokenType::CloseBraces {
                            let p = if sep == TokenType::Newline {
                                p1 + 1
                            } else {
                                p1
                            };
                            exists|o2: ListOut|
                                #[trigger] witnessed(o2) && s_statement_list(
                                    toks,
                                    p,
                                    (fz - 1) as nat,
                                    o2,
                                ) && match o2 {
                                    Err(e) => o == ListOut::Err(e),
                                    Ok((sts, p2)) => o == ListOut::Ok((sts.insert(0, st), p2)),
                                }
                        } else {
                            o == ListOut::Err(p1)
                        }
                    },
                };
            match o1 {
                Ok((st, p1)) => {
                    assert(p1 == 4);
                    let o2 = choose|o2: ListOut|
                        witnessed(o2) && s_statement_list(toks, 4, (fz - 1) as nat, o2) && match o2 {
                            Err(e) => o == ListOut::Err(e),
                            Ok((sts, p2)) => o == ListOut::Ok((sts.insert(0, st), p2)),
                        };
                    match o2 {
                        Ok((sts, p2)) => {
                            assert(o2 == ListOut::Ok((Seq::<ASTNode>::empty(), 4)));
                            assert(Seq::<ASTNode>::empty().insert(0, st) =~= seq![st]);
                        },
                        Err(_) => {
                            assert(false);
                        },
                    }
                },
                Err(_) => {
                    assert(false);
                },
            }
        }
    }
}

/// Unary minus binds tighter than `+ - * /`: `- a op b` parses as
/// `(- a) op b`.
pub proof fn lemma_unary_minus_above_additive(
    toks: Seq<TokenType>,
    a: i64,
    b: i64,
    op: TokenType,
    fuel: nat,
    node: ASTNode,
    pend: nat,
)
    requires
        is_add_mul(op),
        toks == seq![TokenType::Minus, TokenType::Number(a), op, TokenType::Number(b)],
        s_program(toks, 0, fuel, NodeOut::Ok((node, pend))),
    ensures
        ({
            &&& node matches ASTNode::Program(v)
            &&& v@.len() == 1
            &&& v@[0] matches ASTNode::BinaryExpression(be)
            &&& be.operator == op_of(op)
            &&& *be.right == ASTNode::Number(b)
            &&& unary_shape(*be.left, ASTNode::Number(a))
        }),
{
    let na = ASTNode::Number(a);
    let nb = ASTNode::Number(b);
    assert(tok_at(toks, 4) == TokenType::EOF);
    assert forall|fz: nat, o: NodeOut|
        o matches Ok(_) && s_prefix(toks, 1, fz, o) implies o == NodeOut::Ok((na, 2)) by {}
    assert forall|fz: nat, o: NodeOut|
        o matches Ok(_) && s_prefix(toks, 3, fz, o) implies o == NodeOut::Ok((nb, 4)) by {}
    assert forall|fz: nat, mp: nat, lf: ASTNode, o: NodeOut|
        o matches Ok(_) && s_infix_chain(toks, lf, 4, mp, fz, o) implies o == NodeOut::Ok(
        (lf, 4),
    ) by {}
    // the operator binds no tighter than the unary floor, so the climb below
    // the minus stops before it
    assert forall|fz: nat, lf: ASTNode, o: NodeOut|
        o matches Ok(_) && s_infix_chain(toks, lf, 2, 4, fz, o) implies o == NodeOut::Ok(
        (lf, 2),
    ) by {}
    assert forall|fz: nat, o: NodeOut|
        o matches Ok(_) && s_expression(toks, 1, 4, fz, o) implies o == NodeOut::Ok(
        (na, 2),
    ) by {
        if fz > 0 {
            let o1 = choose|o1: NodeOut|
                witnessed(o1) && s_prefix(toks, 1, (fz - 1) as nat, o1) && match o1 {
                    Err(e) => o == NodeOut::Err(e),
                    Ok((left, p1)) => s_infix_chain(toks, left, p1, 4, (fz - 1) as nat, o),
                };
            assert(o1 == NodeOut::Ok((na, 2)) || o matches Err(_));
        }
    }
    assert forall|fz: nat, o: NodeOut|
        o matches Ok(_) && s_unary(toks, 0, fz, o) implies ({
            &&& o matches Ok((n, p))
            &&& p == 2
            &&& unary_shape(n, na)
        }) by {
        if fz > 0 {
            let o1 = choose|o1: NodeOut|
                witnessed(o1) && s_expression(toks, 1, 4, (fz - 1) as nat, o1) && match o1 {
                    Err(e) => o == NodeOut::Err(e),
                    Ok((operand, p1)) => {
                        &&& o matches Ok((n, p2))
                        &&& p2 == p1
                        &&& n matches ASTNode::UnaryExpression(inner)
                        &&& *inner == operand
                    },
                };
            assert(o1 matches Ok(_) || o matches Err(_));
        }
    }
    assert forall|fz: nat, o: NodeOut|
        o matches Ok(_) && s_prefix(toks, 0, fz, o) implies ({
            &&& o matches Ok((n, p))
            &&& p == 2
            &&& unary_shape(n, na)
        }) by {
        if fz > 0 {
            assert(s_unary(toks, 0, (fz - 1) as nat, o));
        }
    }
    assert forall|fz: nat, mp: nat, o: NodeOut|
        o matches Ok(_) && s_expression(toks, 3, mp, fz, o) implies o == NodeOut::Ok(
        (nb, 4),
    ) by {
        if fz > 0 {
            let o1 = choose|o1: NodeOut|
                witnessed(o1) && s_prefix(toks, 3, (fz - 1) as nat, o1) && match o1 {
                    Err(e) => o == NodeOut::Err(e),
                    Ok((left, p1)) => s_infix_chain(toks, left, p1, mp, (fz - 1) as nat, o),
                };
            assert(o1 == NodeOut::Ok((nb, 4)) || o matches Err(_));
        }
    }
    assert forall|fz: nat, lf: ASTNode, o: NodeOut|
        o matches Ok(_) && s_infix_chain(toks, lf, 2, 0, fz, o) implies ({
            &&& o matches Ok((n, p))
            &&& p == 4
            &&& binexp_shape(n, lf, op_of(op), nb)
        }) by {
        if fz > 0 {
            let o2 = choose|o2: NodeOut|
                witnessed(o2) && s_expression(toks, 3, prec_of(op), (fz - 1) as nat, o2)
                    && match o2 {
                    Err(e) => o == NodeOut::Err(e),
                    Ok((right, p2)) => exists|folded: ASTNode|
                        {
                            &&& #[trigger] witnessed(folded)
                            &&& s_infix_chain(toks, folded, p2, 0, (fz - 1) as nat, o)
                            &&& folded matches ASTNode::BinaryExpression(be)
                            &&& *be.left == lf
                            &&& be.operator == op_of(op)
                            &&& *be.right == right
                        },
                };
            match o2 {
                Ok((right, p2)) => {
                    assert(o2 == NodeOut::Ok((nb, 4)));
                    let folded = choose|folded: ASTNode|
                        {
                            &&& witnessed(folded)
                            &&& s_infix_chain(toks, folded, p2, 0, (fz - 1) as nat, o)
                            &&& folded matches ASTNode::BinaryExpression(be)
                            &&& *be.left == lf
                            &&& be.operator == op_of(op)
                            &&& *be.right == right
                        };
                    assert(o == NodeOut::Ok((folded, 4)));
                },
                Err(_) => {
                    assert(false);
                },
            }
        }
    }
    assert forall|fz: nat, o: NodeOut|
        o matches Ok(_) && s_expression(toks, 0, 0, fz, o) implies ({
            &&& o matches Ok((n, p))
            &&& p == 4
            &&& n matches ASTNode::BinaryExpression(be)
            &&& be.operator == op_of(op)
            &&& *be.right == nb
            &&& unary_shape(*be.left, na)
        }) by {
        if fz > 0 {
            let o1 = choose|o1: NodeOut|
                witnessed(o1) && s_prefix(toks, 0, (fz - 1) as nat, o1) && match o1 {
                    Err(e) => o == NodeOut::Err(e),
                    Ok((left, p1)) => s_infix_chain(toks, left, p1, 0, (fz - 1) as nat, o),
                };
            assert(o1 matches Ok(_) || o matches Err(_));
        }
    }
    assert forall|fz: nat, o: NodeOut|
        o matches Ok(_) && s_statement(toks, 0, fz, o) implies ({
            &&& o matches Ok((n, p))
            &&& p == 4
            &&& n matches ASTNode::BinaryExpression(be)
            &&& be.operator == op_of(op)
            &&& *be.right == nb
            &&& unary_shape(*be.left, na)
        }) by {
        assert(tok_at(toks, 1) != TokenType::Equals);
        assert(!is_ident(tok_at(toks, 0), "func"@));
        if fz > 0 {
            assert(s_expression(toks, 0, 0, (fz - 1) as nat, o));
        }
    }
    assert forall|fz: nat, o: ListOut|
        o matches Ok(_) && s_statement_list(toks, 4, fz, o) implies o == ListOut::Ok(
        (Seq::<ASTNode>::empty(), 4),
    ) by {}
    assert forall|fz: nat, o: ListOut|
        o matches Ok(_) && s_statement_list(toks, 0, fz, o) implies ({
            &&& o matches Ok((sts, p))
            &&& p == 4
            &&& sts.len() == 1
            &&& sts[0] matches ASTNode::BinaryExpression(be)
            &&& be.operator == op_of(op)
            &&& *be.right == nb
            &&& unary_shape(*be.left, na)
        }) by {
        if fz > 0 {
            let o1 = choose|o1: NodeOut|
                witnessed(o1) && s_statement(toks, 0, (fz - 1) as nat, o1) && match o1 {
                    Err(e) => o == ListOut::Err(e),
                    Ok((st, p1)) => {
                        let sep = tok_at(toks, p1);
                        if sep == TokenType::Newline || sep == TokenType::EOF || sep
                            == TokenType::CloseBraces {
                            let p = if sep == TokenType::Newline {
                                p1 + 1
                            } else {
                                p1
                            };
                            exists|o2: ListOut|
                                #[trigger] witnessed(o2) && s_statement_list(
                                    toks,
                                    p,
                                    (fz - 1) as nat,
                                    o2,
                                ) && match o2 {
                                    Err(e) => o == ListOut::Err(e),
                                    Ok((sts, p2)) => o == ListOut::Ok((sts.insert(0, st), p2)),
                                }
                        } else {
                            o == ListOut::Err(p1)
                        }
                    },
                };
            match o1 {
                Ok((st, p1)) => {
                    assert(p1 == 4);
                    let o2 = choose|o2: ListOut|
                        witnessed(o2) && s_statement_list(toks, 4, (fz - 1) as nat, o2) && match o2 {
                            Err(e) => o == ListOut::Err(e),
                            Ok((sts, p2)) => o == ListOut::Ok((sts.insert(0, st), p2)),
                        };
                    match o2 {
                        Ok((sts, p2)) => {
                            assert(o2 == ListOut::Ok((Seq::<ASTNode>::empty(), 4)));
                            assert(Seq::<ASTNode>::empty().insert(0, st) =~= seq![st]);
                        },
                        Err(_) => {
                            assert(false);
                        },
                    }
                },
                Err(_) => {
                    assert(false);
                },
            }
        }
    }
}


/// Parenthesization overrides precedence: `( a op1 b ) op2 c` parses as
/// `(a op1 b) op2 c`, whatever the two operators' strengths.
pub proof fn lemma_parentheses_override_precedence(
    toks: Seq<TokenType>,
    a: i64,
    b: i64,
    c: i64,
    op1: TokenType,
    op2: TokenType,
    fuel: nat,
    node: ASTNode,
    pend: nat,
)
    requires
        is_add_mul(op1),
        is_add_mul(op2),
        toks == seq![
            TokenType::OpenParenthesis,
            TokenType::Number(a),
            op1,
            TokenType::Number(b),
            TokenType::CloseParenthesis,
            op2,
            TokenType::Number(c),
        ],
        s_program(toks, 0, fuel, NodeOut::Ok((node, pend))),
    ensures
        ({
            &&& node matches ASTNode::Program(v)
            &&& v@.len() == 1
            &&& v@[0] matches ASTNode::BinaryExpression(be)
            &&& be.operator == op_of(op2)
            &&& *be.right == ASTNode::Number(c)
            &&& binexp_shape(*be.left, ASTNode::Number(a), op_of(op1), ASTNode::Number(b))
        }),
{
    let na = ASTNode::Number(a);
    let nb = ASTNode::Number(b);
    let nc = ASTNode::Number(c);
    assert(tok_at(toks, 7) == TokenType::EOF);
    assert forall|fz: nat, o: NodeOut|
        o matches Ok(_) && s_prefix(toks, 1, fz, o) implies o == NodeOut::Ok((na, 2)) by {}
    assert forall|fz: nat, o: NodeOut|
        o matches Ok(_) && s_prefix(toks, 3, fz, o) implies o == NodeOut::Ok((nb, 4)) by {}
    assert forall|fz: nat, o: NodeOut|
        o matches Ok(_) && s_prefix(toks, 6, fz, o) implies o == NodeOut::Ok((nc, 7)) by {}
    assert forall|fz: nat, mp: nat, lf: ASTNode, o: NodeOut|
        o matches Ok(_) && s_infix_chain(toks, lf, 4, mp, fz, o) implies o == NodeOut::Ok(
        (lf, 4),
    ) by {}
    assert forall|fz: nat, mp: nat, lf: ASTNode, o: NodeOut|
        o matches Ok(_) && s_infix_chain(toks, lf, 7, mp, fz, o) implies o == NodeOut::Ok(
        (lf, 7),
    ) by {}
    assert forall|fz: nat, mp: nat, o: NodeOut|
        o matches Ok(_) && s_expression(toks, 3, mp, fz, o) implies o == NodeOut::Ok(
        (nb, 4),
    ) by {
        if fz > 0 {
            let o1 = choose|o1: NodeOut|
                witnessed(o1) && s_prefix(toks, 3, (fz - 1) as nat, o1) && match o1 {
                    Err(e) => o == NodeOut::Err(e),
                    Ok((left, p1)) => s_infix_chain(toks, left, p1, mp, (fz - 1) as nat, o),
                };
            assert(o1 == NodeOut::Ok((nb, 4)) || o matches Err(_));
        }
    }
    assert forall|fz: nat, mp: nat, o: NodeOut|
        o matches Ok(_) && s_expression(toks, 6, mp, fz, o) implies o == NodeOut::Ok(
        (nc, 7),
    ) by {
        if fz > 0 {
            let o1 = choose|o1: NodeOut|
                witnessed(o1) && s_prefix(toks, 6, (fz - 1) as nat, o1) && match o1 {
                    Err(e) => o == NodeOut::Err(e),
                    Ok((left, p1)) => s_infix_chain(toks, left, p1, mp, (fz - 1) as nat, o),
                };
            assert(o1 == NodeOut::Ok((nc, 7)) || o matches Err(_));
        }
    }
    assert forall|fz: nat, lf: ASTNode, o: NodeOut|
        o matches Ok(_) && s_infix_chain(toks, lf, 2, 0, fz, o) implies ({
            &&& o matches Ok((n, p))
            &&& p == 4
            &&& binexp_shape(n, lf, op_of(op1), nb)
        }) by {
        if fz > 0 {
            let o2 = choose|o2: NodeOut|
                witnessed(o2) && s_expression(toks, 3, prec_of(op1), (fz - 1) as nat, o2)
                    && match o2 {
                    Err(e) => o == NodeOut::Err(e),
                    Ok((right, p2)) => exists|folded: ASTNode|
                        {
                            &&& #[trigger] witnessed(folded)
                            &&& s_infix_chain(toks, folded, p2, 0, (fz - 1) as nat, o)
                            &&& folded matches ASTNode::BinaryExpression(be)
                            &&& *be.left == lf
                            &&& be.operator == op_of(op1)
                            &&& *be.right == right
                        },
                };
            match o2 {
                Ok((right, p2)) => {
                    assert(o2 == NodeOut::Ok((nb, 4)));
                    let folded = choose|folded: ASTNode|
                        {
                            &&& witnessed(folded)
                            &&& s_infix_chain(toks, folded, p2, 0, (fz - 1) as nat, o)
                            &&& folded matches ASTNode::BinaryExpression(be)
                            &&& *be.left == lf
                            &&& be.operator == op_of(op1)
                            &&& *be.right == right
                        };
                    assert(o == NodeOut::Ok((folded, 4)));
                },
                Err(_) => {
                    assert(false);
                },
            }
        }
    }
    assert forall|fz: nat, o: NodeOut|
        o matches Ok(_) && s_expression(toks, 1, 0, fz, o) implies ({
            &&& o matches Ok((n, p))
            &&& p == 4
            &&& binexp_shape(n, na, op_of(op1), nb)
        }) by {
        if fz > 0 {
            let o1 = choose|o1: NodeOut|
                witnessed(o1) && s_prefix(toks, 1, (fz - 1) as nat, o1) && match o1 {
                    Err(e) => o == NodeOut::Err(e),
                    Ok((left, p1)) => s_infix_chain(toks, left, p1, 0, (fz - 1) as nat, o),
                };
            assert(o1 == NodeOut::Ok((na, 2)) || o matches Err(_));
        }
    }
    assert forall|fz: nat, o: NodeOut|
        o matches Ok(_) && s_parenthesized(toks, 0, fz, o) implies ({
            &&& o matches Ok((n, p))
            &&& p == 5
            &&& binexp_shape(n, na, op_of(op1), nb)
        }) by {
        if fz > 0 {
            let o1 = choose|o1: NodeOut|
                witnessed(o1) && s_expression(toks, 1, 0, (fz - 1) as nat, o1) && match o1 {
                    Err(e) => o == NodeOut::Err(e),
                    Ok((inner, p1)) => if tok_at(toks, p1) == TokenType::CloseParenthesis {
                        o == NodeOut::Ok((inner, p1 + 1))
                    } else {
                        o == NodeOut::Err(p1)
                    },
                };
            assert(o1 matches Ok(_) || o matches Err(_));
        }
    }
    assert forall|fz: nat, o: NodeOut|
        o matches Ok(_) && s_prefix(toks, 0, fz, o) implies ({
            &&& o matches Ok((n, p))
            &&& p == 5
            &&& binexp_shape(n, na, op_of(op1), nb)
        }) by {
        if fz > 0 {
            assert(s_parenthesized(toks, 0, (fz - 1) as nat, o));
        }
    }
    assert forall|fz: nat, lf: ASTNode, o: NodeOut|
        o matches Ok(_) && s_infix_chain(toks, lf, 5, 0, fz, o) implies ({
            &&& o matches Ok((n, p))
            &&& p == 7
            &&& binexp_shape(n, lf, op_of(op2), nc)
        }) by {
        if fz > 0 {
            let o2 = choose|o2: NodeOut|
                witnessed(o2) && s_expression(toks, 6, prec_of(op2), (fz - 1) as nat, o2)
                    && match o2 {
                    Err(e) => o == NodeOut::Err(e),
                    Ok((right, p2)) => exists|folded: ASTNode|
                        {
                            &&& #[trigger] witnessed(folded)
                            &&& s_infix_chain(toks, folded, p2, 0, (fz - 1) as nat, o)
                            &&& folded matches ASTNode::BinaryExpression(be)
                            &&& *be.left == lf
                            &&& be.operator == op_of(op2)
                            &&& *be.right == right
                        },
                };
            match o2 {
                Ok((right, p2)) => {
                    assert(o2 == NodeOut::Ok((nc, 7)));
                    let folded = choose|folded: ASTNode|
                        {
                            &&& witnessed(folded)
                            &&& s_infix_chain(toks, folded, p2, 0, (fz - 1) as nat, o)
                            &&& folded matches ASTNode::BinaryExpression(be)
                            &&& *be.left == lf
                            &&& be.operator == op_of(op2)
                            &&& *be.right == right
                        };
                    assert(o == NodeOut::Ok((folded, 7)));
                },
                Err(_) => {
                    assert(false);
                },
            }
        }
    }
    assert forall|fz: nat, o: NodeOut|
        o matches Ok(_) && s_expression(toks, 0, 0, fz, o) implies ({
            &&& o matches Ok((n, p))
            &&& p == 7
            &&& n matches ASTNode::BinaryExpression(be)
            &&& be.operator == op_of(op2)
            &&& *be.right == nc
            &&& binexp_shape(*be.left, na, op_of(op1), nb)
        }) by {
        if fz > 0 {
            let o1 = choose|o1: NodeOut|
                witnessed(o1) && s_prefix(toks, 0, (fz - 1) as nat, o1) && match o1 {
                    Err(e) => o == NodeOut::Err(e),
                    Ok((left, p1)) => s_infix_chain(toks, left, p1, 0, (fz - 1) as nat, o),
                };
            assert(o1 matches Ok(_) || o matches Err(_));
        }
    }
    assert forall|fz: nat, o: NodeOut|
        o matches Ok(_) && s_statement(toks, 0, fz, o) implies ({
            &&& o matches Ok((n, p))
            &&& p == 7
            &&& n matches ASTNode::BinaryExpression(be)
            &&& be.operator == op_of(op2)
            &&& *be.right == nc
            &&& binexp_shape(*be.left, na, op_of(op1), nb)
        }) by {
        assert(tok_at(toks, 1) != TokenType::Equals);
        assert(!is_ident(tok_at(toks, 0), "func"@));
        if fz > 0 {
            assert(s_expression(toks, 0, 0, (fz - 1) as nat, o));
        }
    }
    assert forall|fz: nat, o: ListOut|
        o matches Ok(_) && s_statement_list(toks, 7, fz, o) implies o == ListOut::Ok(
        (Seq::<ASTNode>::empty(), 7),
    ) by {}
    assert forall|fz: nat, o: ListOut|
        o matches Ok(_) && s_statement_list(toks, 0, fz, o) implies ({
            &&& o matches Ok((sts, p))
            &&& p == 7
            &&& sts.len() == 1
            &&& sts[0] matches ASTNode::BinaryExpression(be)
            &&& be.operator == op_of(op2)
            &&& *be.right == nc
            &&& binexp_shape(*be.left, na, op_of(op1), nb)
        }) by {
        if fz > 0 {
            let o1 = choose|o1: NodeOut|
                witnessed(o1) && s_statement(toks, 0, (fz - 1) as nat, o1) && match o1 {
                    Err(e) => o == ListOut::Err(e),
                    Ok((st, p1)) => {
                        let sep = tok_at(toks, p1);
                        if sep == TokenType::Newline || sep == TokenType::EOF || sep
                            == TokenType::CloseBraces {
                            let p = if sep == TokenType::Newline {
                                p1 + 1
                            } else {
                                p1
                            };
                            exists|o2: ListOut|
                                #[trigger] witnessed(o2) && s_statement_list(
                                    toks,
                                    p,
                                    (fz - 1) as nat,
                                    o2,
                                ) && match o2 {
                                    Err(e) => o == ListOut::Err(e),
                                    Ok((sts, p2)) => o == ListOut::Ok((sts.insert(0, st), p2)),
                                }
                        } else {
                            o == ListOut::Err(p1)
                        }
                    },
                };
            match o1 {
                Ok((st, p1)) => {
                    assert(p1 == 7);
                    let o2 = choose|o2: ListOut|
                        witnessed(o2) && s_statement_list(toks, 7, (fz - 1) as nat, o2) && match o2 {
                            Err(e) => o == ListOut::Err(e),
                            Ok((sts, p2)) => o == ListOut::Ok((sts.insert(0, st), p2)),
                        };
                    match o2 {
                        Ok((sts, p2)) => {
                            assert(o2 == ListOut::Ok((Seq::<ASTNode>::empty(), 7)));
                            assert(Seq::<ASTNode>::empty().insert(0, st) =~= seq![st]);
                        },
                        Err(_) => {
                            assert(false);
                        },
                    }
                },
                Err(_) => {
                    assert(false);
                },
            }
        }
    }
}

/// The recursive-descent parser over a fixed token stream. `pos` is the
/// index of the current token.
pub struct Parser {
    pub tokens: Vec<TokenType>,
    pub pos: usize,
}

impl Parser {
    /// A parser positioned at the start of the given token stream.
    pub fn new(tokens: Vec<TokenType>) -> (p: Parser)
        ensures
            p.tokens@ == tokens@,
            p.pos == 0,
    {
        Parser { tokens, pos: 0 }
    }

    /// The token at an index, reading end-of-input past the end.
    fn token_at(&self, i: usize) -> (t: TokenType)
        ensures
            t == tok_at(self.tokens@, i as nat),
    {
        if i < self.tokens.len() {
            self.tokens[i].duplicate()
        } else {
            TokenType::EOF
        }
    }

    /// The token one past the current one, for the grammar's one-token
    /// lookahead.
    fn lookahead(&self) -> (t: TokenType)
        requires
            self.pos <= self.tokens.len(),
        ensures
            t == tok_at(self.tokens@, (self.pos + 1) as nat),
    {
        if self.pos < self.tokens.len() {
            self.token_at(self.pos + 1)
        } else {
            TokenType::EOF
        }
    }

    /// The binding strength the climbing loop uses for a token.
    pub fn get_precedence(&self, operator: &TokenType) -> (r: usize)
        ensures
            r == prec_of(*operator),
    {
        match operator {
            TokenType::Carat => 5,
            TokenType::Asterisk => 3,
            TokenType::ForwardSlash => 3,
            TokenType::Plus => 2,
            TokenType::Minus => 2,
            _ => 0,
        }
    }

    /// Parses the whole stream into a program node, or fails at the first
    /// malformed construct.
    pub fn parse(&mut self) -> (r: Result<ASTNode, SyntaxError>)
        requires
            old(self).pos <= old(self).tokens.len(),
        ensures
            final(self).tokens@ == old(self).tokens@,
            final(self).pos <= final(self).tokens@.len(),
            s_program(
                old(self).tokens@,
                old(self).pos as nat,
                parse_fuel(old(self).tokens@.len()),
                node_out(r, final(self).pos as nat),
            ),
    {
        let len = self.tokens.len();
        let fuel: u64 = if (len as u64) <= (u64::MAX - 16) / 4 {
            4 * (len as u64) + 16
        } else {
            u64::MAX
        };
        proof {
            assert(fuel as nat == parse_fuel(self.tokens@.len()));
        }
        self.program(fuel)
    }

    fn program(&mut self, fuel: u64) -> (r: Result<ASTNode, SyntaxError>)
        requires
            old(self).pos <= old(self).tokens.len(),
        ensures
            final(self).tokens@ == old(self).tokens@,
            final(self).pos <= final(self).tokens@.len(),
            s_program(
                old(self).tokens@,
                old(self).pos as nat,
                fuel as nat,
                node_out(r, final(self).pos as nat),
            ),
        decreases fuel,
    {
        if fuel == 0 {
            return Err(SyntaxError { at: self.pos });
        }
        let slres = self.statement_list(fuel - 1);
        proof {
            assert(witnessed(list_out(slres, self.pos as nat)));
        }
        let stmts = match slres {
            Ok(v) => v,
            Err(e) => return Err(e),
        };
        Ok(ASTNode::Program(stmts))
    }

    fn statement_list(&mut self, fuel: u64) -> (r: Result<Vec<ASTNode>, SyntaxError>)
        requires
            old(self).pos <= old(self).tokens.len(),
        ensures
            final(self).tokens@ == old(self).tokens@,
            final(self).pos <= final(self).tokens@.len(),
            s_statement_list(
                old(self).tokens@,
                old(self).pos as nat,
                fuel as nat,
                list_out(r, final(self).pos as nat),
            ),
        decreases fuel,
    {
        if fuel == 0 {
            return Err(SyntaxError { at: self.pos });
        }
        match self.token_at(self.pos) {
            TokenType::EOF | TokenType::CloseBraces => {
                return Ok(Vec::new());
            },
            _ => (),
        }
        let stres = self.statement(fuel - 1);
        proof {
            assert(witnessed(node_out(stres, self.pos as nat)));
        }
        let st = match stres {
            Ok(n) => n,
            Err(e) => return Err(e),
        };
        match self.token_at(self.pos) {
            TokenType::EOF | TokenType::CloseBraces => (),
            TokenType::Newline => {
                self.pos = self.pos + 1;
            },
            _ => {
                return Err(SyntaxError { at: self.pos });
            },
        }
        let slres = self.statement_list(fuel - 1);
        proof {
            assert(witnessed(list_out(slres, self.pos as nat)));
        }
        let mut rest = match slres {
            Ok(v) => v,
            Err(e) => return Err(e),
        };
        rest.insert(0, st);
        Ok(rest)
    }

    fn statement(&mut self, fuel: u64) -> (r: Result<ASTNode, SyntaxError>)
        requires
            old(self).pos <= old(self).tokens.len(),
        ensures
            final(self).tokens@ == old(self).tokens@,
            final(self).pos <= final(self).tokens@.len(),
            s_statement(
                old(self).tokens@,
                old(self).pos as nat,
                fuel as nat,
                node_out(r, final(self).pos as nat),
            ),
        decreases fuel,
    {
        if fuel == 0 {
            return Err(SyntaxError { at: self.pos });
        }
        match self.lookahead() {
            TokenType::Equals => {
                return self.variable_expression(fuel - 1);
            },
            _ => (),
        }
        match self.token_at(self.pos) {
            TokenType::Identifier(s) => {
                if s.eq(&("func".to_owned())) {
                    return self.function_expression(fuel - 1);
                }
            },
            _ => (),
        }
        self.expression(0, fuel - 1)
    }

    fn variable_expression(&mut self, fuel: u64) -> (r: Result<ASTNode, SyntaxError>)
        requires
            old(self).pos <= old(self).tokens.len(),
        ensures
            final(self).tokens@ == old(self).tokens@,
            final(self).pos <= final(self).tokens@.len(),
            s_variable_expression(
                old(self).tokens@,
                old(self).pos as nat,
                fuel as nat,
                node_out(r, final(self).pos as nat),
            ),
        decreases fuel,
    {
        if fuel == 0 {
            return Err(SyntaxError { at: self.pos });
        }
        let name = match self.token_at(self.pos) {
            TokenType::Identifier(s) => s,
            _ => return Err(SyntaxError { at: self.pos }),
        };
        match self.lookahead() {
            TokenType::Equals => (),
            _ => return Err(SyntaxError { at: self.pos + 1 }),
        }
        self.pos = self.pos + 2;
        let vres = self.expression(0, fuel - 1);
        proof {
            assert(witnessed(node_out(vres, self.pos as nat)));
        }
        let value = match vres {
            Ok(n) => n,
            Err(e) => return Err(e),
        };
        let node = ASTNode::VariableExpression(
            VariableExpression { name, value: Box::new(value) },
        );
        Ok(node)
    }

    fn expression(&mut self, precedence: usize, fuel: u64) -> (r: Result<ASTNode, SyntaxError>)
        requires
            old(self).pos <= old(self).tokens.len(),
        ensures
            final(self).tokens@ == old(self).tokens@,
            final(self).pos <= final(self).tokens@.len(),
            s_expression(
                old(self).tokens@,
                old(self).pos as nat,
                precedence as nat,
                fuel as nat,
                node_out(r, final(self).pos as nat),
            ),
        decreases fuel,
    {
        if fuel == 0 {
            return Err(SyntaxError { at: self.pos });
        }
        let pres = self.prefix(fuel - 1);
        proof {
            assert(witnessed(node_out(pres, self.pos as nat)));
        }
        let left = match pres {
            Ok(n) => n,
            Err(e) => return Err(e),
        };
        self.infix_chain(left, precedence, fuel - 1)
    }

    fn infix_chain(&mut self, left: ASTNode, precedence: usize, fuel: u64) -> (r: Result<
        ASTNode,
        SyntaxError,
    >)
        requires
            old(self).pos <= old(self).tokens.len(),
        ensures
            final(self).tokens@ == old(self).tokens@,
            final(self).pos <= final(self).tokens@.len(),
            s_infix_chain(
                old(self).tokens@,
                left,
                old(self).pos as nat,
                precedence as nat,
                fuel as nat,
                node_out(r, final(self).pos as nat),
            ),
        decreases fuel,
    {
        if fuel == 0 {
            return Err(SyntaxError { at: self.pos });
        }
        let t = self.token_at(self.pos);
        let (op, oprec): (BinaryOperator, usize) = match t {
            TokenType::Plus => (BinaryOperator::Plus, 2),
            TokenType::Minus => (BinaryOperator::Minus, 2),
            TokenType::Asterisk => (BinaryOperator::Asterisk, 3),
            TokenType::ForwardSlash => (BinaryOperator::ForwardSlash, 3),
            TokenType::Carat => (BinaryOperator::Carat, 5),
            _ => {
                return Ok(left);
            },
        };
        if oprec <= precedence {
            return Ok(left);
        }
        let rprec: usize = if oprec == 5 {
            4
        } else {
            oprec
        };
        self.pos = self.pos + 1;
        let rres = self.expression(rprec, fuel - 1);
        proof {
            assert(witnessed(node_out(rres, self.pos as nat)));
        }
        let right = match rres {
            Ok(n) => n,
            Err(e) => return Err(e),
        };
        let folded = ASTNode::BinaryExpression(
            BinaryExpression { left: Box::new(left), operator: op, right: Box::new(right) },
        );
        proof {
            assert(witnessed(folded));
        }
        self.infix_chain(folded, precedence, fuel - 1)
    }

    fn prefix(&mut self, fuel: u64) -> (r: Result<ASTNode, SyntaxError>)
        requires
            old(self).pos <= old(self).tokens.len(),
        ensures
            final(self).tokens@ == old(self).tokens@,
            final(self).pos <= final(self).tokens@.len(),
            s_prefix(
                old(self).tokens@,
                old(self).pos as nat,
                fuel as nat,
                node_out(r, final(self).pos as nat),
            ),
        decreases fuel,
    {
        if fuel == 0 {
            return Err(SyntaxError { at: self.pos });
        }
        match self.token_at(self.pos) {
            TokenType::OpenParenthesis => self.parenthesized_expression(fuel - 1),
            TokenType::Minus => self.unary_expression(fuel - 1),
            TokenType::Identifier(s) => {
                if s.eq(&("return".to_owned())) {
                    return self.return_expression(fuel - 1);
                }
                match self.lookahead() {
                    TokenType::OpenParenthesis => self.function_call(fuel - 1),
                    _ => {
                        self.pos = self.pos + 1;
                        Ok(ASTNode::Variable(s))
                    },
                }
            },
            TokenType::Number(x) => {
                self.pos = self.pos + 1;
                Ok(ASTNode::Number(x))
            },
            _ => Err(SyntaxError { at: self.pos }),
        }
    }

    fn parenthesized_expression(&mut self, fuel: u64) -> (r: Result<ASTNode, SyntaxError>)
        requires
            old(self).pos <= old(self).tokens.len(),
        ensures
            final(self).tokens@ == old(self).tokens@,
            final(self).pos <= final(self).tokens@.len(),
            s_parenthesized(
                old(self).tokens@,
                old(self).pos as nat,
                fuel as nat,
                node_out(r, final(self).pos as nat),
            ),
        decreases fuel,
    {
        if fuel == 0 {
            return Err(SyntaxError { at: self.pos });
        }
        match self.token_at(self.pos) {
            TokenType::OpenParenthesis => (),
            _ => return Err(SyntaxError { at: self.pos }),
        }
        self.pos = self.pos + 1;
        let ires = self.expression(0, fuel - 1);
        proof {
            assert(witnessed(node_out(ires, self.pos as nat)));
        }
        let inner = match ires {
            Ok(n) => n,
            Err(e) => return Err(e),
        };
        match self.token_at(self.pos) {
            TokenType::CloseParenthesis => (),
            _ => return Err(SyntaxError { at: self.pos }),
        }
        self.pos = self.pos + 1;
        Ok(inner)
    }

    fn unary_expression(&mut self, fuel: u64) -> (r: Result<ASTNode, SyntaxError>)
        requires
            old(self).pos <= old(self).tokens.len(),
        ensures
            final(self).tokens@ == old(self).tokens@,
            final(self).pos <= final(self).tokens@.len(),
            s_unary(
                old(self).tokens@,
                old(self).pos as nat,
                fuel as nat,
                node_out(r, final(self).pos as nat),
            ),
        decreases fuel,
    {
        if fuel == 0 {
            return Err(SyntaxError { at: self.pos });
        }
        match self.token_at(self.pos) {
            TokenType::Minus => (),
            _ => return Err(SyntaxError { at: self.pos }),
        }
        self.pos = self.pos + 1;
        let ores = self.expression(4, fuel - 1);
        proof {
            assert(witnessed(node_out(ores, self.pos as nat)));
        }
        let operand = match ores {
            Ok(n) => n,
            Err(e) => return Err(e),
        };
        Ok(ASTNode::UnaryExpression(Box::new(operand)))
    }

    fn return_expression(&mut self, fuel: u64) -> (r: Result<ASTNode, SyntaxError>)
        requires
            old(self).pos <= old(self).tokens.len(),
        ensures
            final(self).tokens@ == old(self).tokens@,
            final(self).pos <= final(self).tokens@.len(),
            s_return(
                old(self).tokens@,
                old(self).pos as nat,
                fuel as nat,
                node_out(r, final(self).pos as nat),
            ),
        decreases fuel,
    {
        if fuel == 0 {
            return Err(SyntaxError { at: self.pos });
        }
        match self.token_at(self.pos) {
            TokenType::Identifier(s) => {
                if !s.eq(&("return".to_owned())) {
                    return Err(SyntaxError { at: self.pos });
                }
            },
            _ => return Err(SyntaxError { at: self.pos }),
        }
        self.pos = self.pos + 1;
        let eres = self.expression(0, fuel - 1);
        proof {
            assert(witnessed(node_out(eres, self.pos as nat)));
        }
        let inner = match eres {
            Ok(n) => n,
            Err(e) => return Err(e),
        };
        Ok(ASTNode::ReturnExpression(Box::new(inner)))
    }

    fn function_call(&mut self, fuel: u64) -> (r: Result<ASTNode, SyntaxError>)
        requires
            old(self).pos <= old(self).tokens.len(),
        ensures
            final(self).tokens@ == old(self).tokens@,
            final(self).pos <= final(self).tokens@.len(),
            s_call(
                old(self).tokens@,
                old(self).pos as nat,
                fuel as nat,
                node_out(r, final(self).pos as nat),
            ),
        decreases fuel,
    {
        if fuel == 0 {
            return Err(SyntaxError { at: self.pos });
        }
        let name = match self.token_at(self.pos) {
            TokenType::Identifier(s) => s,
            _ => return Err(SyntaxError { at: self.pos }),
        };
        match self.lookahead() {
            TokenType::OpenParenthesis => (),
            _ => return Err(SyntaxError { at: self.pos + 1 }),
        }
        self.pos = self.pos + 2;
        let ares = self.function_call_args(fuel - 1);
        proof {
            assert(witnessed(args_out(ares, self.pos as nat)));
        }
        let args = match ares {
            Ok(v) => v,
            Err(e) => return Err(e),
        };
        match self.token_at(self.pos) {
            TokenType::CloseParenthesis => (),
            _ => return Err(SyntaxError { at: self.pos }),
        }
        self.pos = self.pos + 1;
        Ok(ASTNode::FunctionCall(FunctionCall { name, args }))
    }

    fn function_call_args(&mut self, fuel: u64) -> (r: Result<Vec<Symbol>, SyntaxError>)
        requires
            old(self).pos <= old(self).tokens.len(),
        ensures
            final(self).tokens@ == old(self).tokens@,
            final(self).pos <= final(self).tokens@.len(),
            s_call_args(
                old(self).tokens@,
                old(self).pos as nat,
                fuel as nat,
                args_out(r, final(self).pos as nat),
            ),
        decreases fuel,
    {
        if fuel == 0 {
            return Err(SyntaxError { at: self.pos });
        }
        match self.token_at(self.pos) {
            TokenType::CloseParenthesis => Ok(Vec::new()),
            _ => self.function_call_args_more(fuel - 1),
        }
    }

    fn function_call_args_more(&mut self, fuel: u64) -> (r: Result<Vec<Symbol>, SyntaxError>)
        requires
            old(self).pos <= old(self).tokens.len(),
        ensures
            final(self).tokens@ == old(self).tokens@,
            final(self).pos <= final(self).tokens@.len(),
            s_call_args_more(
                old(self).tokens@,
                old(self).pos as nat,
                fuel as nat,
                args_out(r, final(self).pos as nat),
            ),
        decreases fuel,
    {
        if fuel == 0 {
            return Err(SyntaxError { at: self.pos });
        }
        let arg = match self.token_at(self.pos) {
            TokenType::Identifier(id) => Symbol::Variable(id),
            TokenType::Number(x) => Symbol::Number(x),
            _ => return Err(SyntaxError { at: self.pos }),
        };
        match self.lookahead() {
            TokenType::CloseParenthesis => {
                self.pos = self.pos + 1;
                let mut v: Vec<Symbol> = Vec::new();
                v.insert(0, arg);
                Ok(v)
            },
            TokenType::Comma => {
                self.pos = self.pos + 2;
                let rres = self.function_call_args_more(fuel - 1);
                proof {
                    assert(witnessed(args_out(rres, self.pos as nat)));
                }
                let mut rest = match rres {
                    Ok(v) => v,
                    Err(e) => return Err(e),
                };
                rest.insert(0, arg);
                Ok(rest)
            },
            _ => Err(SyntaxError { at: self.pos + 1 }),
        }
    }

    /// The declared parameter names of a function definition.
    pub fn function_expression_args(&mut self, fuel: u64) -> (r: Result<Vec<String>, SyntaxError>)
        requires
            old(self).pos <= old(self).tokens.len(),
        ensures
            final(self).tokens@ == old(self).tokens@,
            final(self).pos <= final(self).tokens@.len(),
            s_params(
                old(self).tokens@,
                old(self).pos as nat,
                fuel as nat,
                params_out(r, final(self).pos as nat),
            ),
        decreases fuel,
    {
        if fuel == 0 {
            return Err(SyntaxError { at: self.pos });
        }
        match self.token_at(self.pos) {
            TokenType::CloseParenthesis => Ok(Vec::new()),
            _ => self.function_expression_args_more(fuel - 1),
        }
    }

    fn function_expression_args_more(&mut self, fuel: u64) -> (r: Result<Vec<String>, SyntaxError>)
        requires
            old(self).pos <= old(self).tokens.len(),
        ensures
            final(self).tokens@ == old(self).tokens@,
            final(self).pos <= final(self).tokens@.len(),
            s_params_more(
                old(self).tokens@,
                old(self).pos as nat,
                fuel as nat,
                params_out(r, final(self).pos as nat),
            ),
        decreases fuel,
    {
        if fuel == 0 {
            return Err(SyntaxError { at: self.pos });
        }
        let id = match self.token_at(self.pos) {
            TokenType::Identifier(s) => s,
            _ => return Err(SyntaxError { at: self.pos }),
        };
        match self.lookahead() {
            TokenType::CloseParenthesis => {
                self.pos = self.pos + 1;
                let mut v: Vec<String> = Vec::new();
                v.insert(0, id);
                Ok(v)
            },
            TokenType::Comma => {
                self.pos = self.pos + 2;
                let rres = self.function_expression_args_more(fuel - 1);
                proof {
                    assert(witnessed(params_out(rres, self.pos as nat)));
                }
                let mut rest = match rres {
                    Ok(v) => v,
                    Err(e) => return Err(e),
                };
                rest.insert(0, id);
                Ok(rest)
            },
            _ => Err(SyntaxError { at: self.pos + 1 }),
        }
    }

    fn function_expression(&mut self, fuel: u64) -> (r: Result<ASTNode, SyntaxError>)
        requires
            old(self).pos <= old(self).tokens.len(),
        ensures
            final(self).tokens@ == old(self).tokens@,
            final(self).pos <= final(self).tokens@.len(),
            s_function_expression(
                old(self).tokens@,
                old(self).pos as nat,
                fuel as nat,
                node_out(r, final(self).pos as nat),
            ),
        decreases fuel,
    {
        if fuel == 0 {
            return Err(SyntaxError { at: self.pos });
        }
        match self.token_at(self.pos) {
            TokenType::Identifier(s) => {
                if !s.eq(&("func".to_owned())) {
                    return Err(SyntaxError { at: self.pos });
                }
            },
            _ => return Err(SyntaxError { at: self.pos }),
        }
        let name = match self.lookahead() {
            TokenType::Identifier(s) => s,
            _ => return Err(SyntaxError { at: self.pos + 1 }),
        };
        self.pos = self.pos + 2;
        match self.token_at(self.pos) {
            TokenType::OpenParenthesis => (),
            _ => return Err(SyntaxError { at: self.pos }),
        }
        self.pos = self.pos + 1;
        let pres = self.function_expression_args(fuel - 1);
        proof {
            assert(witnessed(params_out(pres, self.pos as nat)));
        }
        let args = match pres {
            Ok(v) => v,
            Err(e) => return Err(e),
        };
        match self.token_at(self.pos) {
            TokenType::CloseParenthesis => (),
            _ => return Err(SyntaxError { at: self.pos }),
        }
        match self.lookahead() {
            TokenType::OpenBraces => (),
            _ => return Err(SyntaxError { at: self.pos + 1 }),
        }
        self.pos = self.pos + 2;
        match self.token_at(self.pos) {
            TokenType::Newline => (),
            _ => return Err(SyntaxError { at: self.pos }),
        }
        self.pos = self.pos + 1;
        let bres = self.statement_list(fuel - 1);
        proof {
            assert(witnessed(list_out(bres, self.pos as nat)));
        }
        let body = match bres {
            Ok(v) => v,
            Err(e) => return Err(e),
        };
        match self.token_at(self.pos) {
            TokenType::CloseBraces => (),
            _ => return Err(SyntaxError { at: self.pos }),
        }
        self.pos = self.pos + 1;
        Ok(ASTNode::FunctionExpression(Rc::new(FunctionExpression { name, body, args })))
    }
}

} // verus!
