//! The grammar moves forward: a rule that yields a node has consumed at
//! least one token and has not read behind the end of the stream. So the
//! internal failure that each rule keeps for a step that stands still, or
//! for an entry that its callers exclude, is never the outcome: no rule
//! entered as the grammar enters it fails with an internal failure.

use crate::ast::Ast;
use crate::error::ErrorKind;
use crate::grammar::{
    arguments, assign, assigned, block, block_items, else_branches, expression, fun_call,
    if_expression, initializer, operand, operation, operators, precedence, primary, return_expression,
    variable, with_precedence, Parsed, ParsedMany, BASE,
};
use crate::token::{Class, Input, Kind, Lexeme, Operator};
use vstd::prelude::*;

verus! {

/// The position behind a node lies behind `pos` and within the stream, and
/// a failure is no internal one.
pub open spec fn forward(inp: Input, pos: nat, r: Parsed) -> bool {
    match r {
        Ok((_, q)) => pos < q <= inp.tokens.len(),
        Err(s) => s.fault.kind != ErrorKind::Internal,
    }
}

/// The position behind a sequence of nodes lies at or behind `pos` and
/// within the stream, and a failure is no internal one.
pub open spec fn not_back(inp: Input, pos: nat, r: ParsedMany) -> bool {
    match r {
        Ok((_, q)) => pos <= q <= inp.tokens.len(),
        Err(s) => s.fault.kind != ErrorKind::Internal,
    }
}

/// An expression, entered where a token is left, takes at least one
/// token, and does not fail with an internal failure.
pub proof fn lemma_expression_moves(inp: Input, pos: nat)
    requires
        pos < inp.tokens.len(),
    ensures
        forward(inp, pos, expression(inp, pos)),
    decreases inp.remaining(pos), 6nat,
{
    match inp.peek_class(pos) {
        Ok(Some(c)) => {
            if c == Class::Var || c == Class::Const {
                lemma_variable_moves(inp, pos);
            } else {
                lemma_with_precedence_moves(inp, pos, BASE);
            }
        },
        _ => {},
    }
}

/// A declaration takes at least one token.
pub proof fn lemma_variable_moves(inp: Input, pos: nat)
    ensures
        forward(inp, pos, variable(inp, pos)),
    decreases inp.remaining(pos), 1nat,
{
    if pos < inp.tokens.len() {
        match (inp.peek(pos), crate::grammar::identifier(inp, pos + 1)) {
            (Ok(Some(keyword)), Ok((name, _))) => {
                let mutable = keyword.kind.class() == Class::Var;
                lemma_initializer_moves(inp, pos, pos + 2, mutable, crate::grammar::name_of(name), None);
                match crate::grammar::identifier(inp, pos + 3) {
                    Ok((typ, _)) => {
                        lemma_initializer_moves(
                            inp,
                            pos,
                            pos + 4,
                            mutable,
                            crate::grammar::name_of(name),
                            Some(Box::new(typ)),
                        );
                    },
                    Err(_) => {},
                }
            },
            _ => {},
        }
    }
}

/// The rest of a declaration ends behind the declaration's start.
pub proof fn lemma_initializer_moves(
    inp: Input,
    pos: nat,
    at: nat,
    mutable: bool,
    name: Seq<char>,
    typ: Option<Box<Ast>>,
)
    requires
        pos < at,
        pos < inp.tokens.len(),
    ensures
        forward(inp, pos, initializer(inp, pos, at, mutable, name, typ)),
    decreases inp.remaining(pos), 0nat,
{
    if pos < at && pos < inp.tokens.len() && inp.expect(at, Class::Op(Operator::Equal)) is Ok {
        lemma_assigned_moves(inp, at + 1);
    }
}

/// A required expression takes at least one token.
pub proof fn lemma_operand_moves(inp: Input, pos: nat)
    ensures
        forward(inp, pos, operand(inp, pos)),
    decreases inp.remaining(pos), 7nat,
{
    match inp.peek_class(pos) {
        Ok(Some(_)) => {
            lemma_expression_moves(inp, pos);
        },
        _ => {},
    }
}

/// What stands behind a `=` takes at least one token.
pub proof fn lemma_assigned_moves(inp: Input, pos: nat)
    ensures
        forward(inp, pos, assigned(inp, pos)),
    decreases inp.remaining(pos), 7nat,
{
    match inp.peek_class(pos) {
        Ok(Some(Class::Op(Operator::LeftBrace))) => {
            lemma_block_moves(inp, pos);
        },
        Ok(Some(_)) => {
            lemma_expression_moves(inp, pos);
        },
        _ => {},
    }
}

/// A block takes at least one token.
pub proof fn lemma_block_moves(inp: Input, pos: nat)
    ensures
        forward(inp, pos, block(inp, pos)),
    decreases inp.remaining(pos), 1nat,
{
    if inp.expect(pos, Class::Op(Operator::LeftBrace)) is Ok {
        lemma_block_items_move(inp, pos + 1, Seq::empty());
    }
}

/// The expressions of a block do not end before their start.
pub proof fn lemma_block_items_move(inp: Input, pos: nat, done: Seq<Ast>)
    requires
        pos <= inp.tokens.len(),
    ensures
        not_back(inp, pos, block_items(inp, pos, done)),
    decreases inp.remaining(pos), 7nat,
{
    match inp.peek_class(pos) {
        Ok(Some(Class::Op(Operator::RightBrace))) => {},
        Ok(Some(_)) => {
            lemma_expression_moves(inp, pos);
            match expression(inp, pos) {
                Ok((e, q)) => {
                    lemma_block_items_move(inp, q, done.push(e));
                },
                Err(_) => {},
            }
        },
        _ => {},
    }
}

/// A conditional takes at least one token.
pub proof fn lemma_if_moves(inp: Input, pos: nat)
    ensures
        forward(inp, pos, if_expression(inp, pos)),
    decreases inp.remaining(pos), 1nat,
{
    if inp.expect(pos, Class::If) is Ok {
        lemma_operand_moves(inp, pos + 1);
        match operand(inp, pos + 1) {
            Ok((_, p)) => {
                lemma_block_moves(inp, p);
                match block(inp, p) {
                    Ok((_, q)) => {
                        lemma_else_branches_move(inp, q, Seq::empty());
                    },
                    Err(_) => {},
                }
            },
            Err(_) => {},
        }
    }
}

/// The `else` branches do not end before their start.
pub proof fn lemma_else_branches_move(inp: Input, pos: nat, done: Seq<Ast>)
    requires
        pos <= inp.tokens.len(),
    ensures
        not_back(inp, pos, else_branches(inp, pos, done)),
    decreases inp.remaining(pos), 0nat,
{
    match inp.peek_class(pos) {
        Ok(Some(Class::Else)) => match inp.peek_class(pos + 1) {
            Err(_) => {},
            Ok(Some(Class::If)) => {
                lemma_if_moves(inp, pos + 1);
                match if_expression(inp, pos + 1) {
                    Ok((branch, q)) => {
                        lemma_else_branches_move(inp, q, done.push(branch));
                    },
                    Err(_) => {},
                }
            },
            _ => {
                lemma_block_moves(inp, pos + 1);
            },
        },
        _ => {},
    }
}

/// A parenthesized group takes at least one token.
pub proof fn lemma_operation_moves(inp: Input, pos: nat)
    requires
        inp.peek_class(pos) matches Ok(Some(Class::Op(_))),
    ensures
        forward(inp, pos, operation(inp, pos)),
    decreases inp.remaining(pos), 3nat,
{
    match inp.peek_class(pos) {
        Ok(Some(Class::Op(Operator::LeftParen))) => {
            lemma_with_precedence_moves(inp, pos + 1, BASE);
        },
        _ => {},
    }
}

/// A call takes at least one token behind its callee.
pub proof fn lemma_fun_call_moves(inp: Input, pos: nat, callee: Ast)
    ensures
        forward(inp, pos, fun_call(inp, pos, callee)),
    decreases inp.remaining(pos), 1nat,
{
    if inp.expect(pos, Class::Op(Operator::LeftParen)) is Ok {
        lemma_arguments_move(inp, pos + 1, Seq::empty());
    }
}

/// The arguments of a call do not end before their start.
pub proof fn lemma_arguments_move(inp: Input, pos: nat, done: Seq<Ast>)
    requires
        pos <= inp.tokens.len(),
    ensures
        not_back(inp, pos, arguments(inp, pos, done)),
    decreases inp.remaining(pos), 7nat,
{
    match inp.peek_class(pos) {
        Ok(Some(Class::Op(Operator::RightParen))) => {},
        Ok(Some(Class::Op(Operator::Comma))) => {
            lemma_arguments_move(inp, pos + 1, done);
        },
        Ok(Some(_)) => {
            lemma_expression_moves(inp, pos);
            match expression(inp, pos) {
                Ok((e, q)) => {
                    lemma_arguments_move(inp, q, done.push(e));
                },
                Err(_) => {},
            }
        },
        _ => {},
    }
}

/// An assignment takes at least one token behind its target.
pub proof fn lemma_assign_moves(inp: Input, pos: nat, target: Ast)
    ensures
        forward(inp, pos, assign(inp, pos, target)),
    decreases inp.remaining(pos), 1nat,
{
    if inp.expect(pos, Class::Op(Operator::Equal)) is Ok {
        lemma_assigned_moves(inp, pos + 1);
    }
}

/// A `return` takes at least one token.
pub proof fn lemma_return_moves(inp: Input, pos: nat)
    ensures
        forward(inp, pos, return_expression(inp, pos)),
    decreases inp.remaining(pos), 1nat,
{
    if inp.expect(pos, Class::Return) is Ok {
        lemma_operand_moves(inp, pos + 1);
    }
}

/// A primary expression takes at least one token.
pub proof fn lemma_primary_moves(inp: Input, pos: nat)
    ensures
        forward(inp, pos, primary(inp, pos)),
    decreases inp.remaining(pos), 4nat,
{
    match inp.peek_class(pos) {
        Ok(Some(Class::Op(_))) => {
            lemma_operation_moves(inp, pos);
        },
        Ok(Some(Class::Return)) => {
            lemma_return_moves(inp, pos);
        },
        Ok(Some(Class::If)) => {
            lemma_if_moves(inp, pos);
        },
        _ => {},
    }
}

/// Precedence climbing takes at least one token.
pub proof fn lemma_with_precedence_moves(inp: Input, pos: nat, min: u8)
    ensures
        forward(inp, pos, with_precedence(inp, pos, min)),
    decreases inp.remaining(pos), 5nat,
{
    lemma_primary_moves(inp, pos);
    match primary(inp, pos) {
        Ok((left, p)) => {
            if pos < inp.tokens.len() {
                lemma_fun_call_moves(inp, p, left);
                lemma_assign_moves(inp, p, left);
                lemma_operators_move(inp, p, left, min);
            }
        },
        Err(_) => {},
    }
}

/// The operator loop does not end before its start.
pub proof fn lemma_operators_move(inp: Input, pos: nat, left: Ast, min: u8)
    requires
        pos <= inp.tokens.len(),
    ensures
        match operators(inp, pos, left, min) {
            Ok((_, q)) => pos <= q <= inp.tokens.len(),
            Err(s) => s.fault.kind != ErrorKind::Internal,
        },
    decreases inp.remaining(pos), 0nat,
{
    if pos < inp.tokens.len() {
        match inp.tokens[pos as int] {
            Lexeme::Token(t) => match t.kind {
                Kind::Op(operator) => {
                    lemma_with_precedence_moves(inp, pos + 1, precedence(operator));
                    match with_precedence(inp, pos + 1, precedence(operator)) {
                        Ok((right, q)) => {
                            lemma_operators_move(
                                inp,
                                q,
                                Ast::BinaryOp {
                                    lhs: Box::new(left),
                                    operator,
                                    rhs: Box::new(right),
                                    location: crate::token::Location {
                                        start: left.location().start,
                                        end: right.location().end,
                                    },
                                },
                                min,
                            );
                        },
                        Err(_) => {},
                    }
                },
                _ => {},
            },
            Lexeme::Malformed(_) => {},
        }
    }
}

} // verus!
