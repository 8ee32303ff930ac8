//! The grammar as a function: what each rule yields on a token stream from a
//! position on, a node and the position behind it or a failure and the
//! position at which the cursor is left. The parser is proved to compute
//! exactly this.
//!
//! A rule that continues behind a part it has parsed asks that the part has
//! moved forward, and yields an internal failure otherwise. No part ever
//! stands still: module `progress` proves it.

use crate::ast::Ast;
use crate::error::{ErrorKind, Fault};
use crate::token::{Class, Input, Kind, Location, Operator, Primitive, Token, Value};
use vstd::prelude::*;

verus! {

/// Binding strength of what is no operator of the table.
pub const BASE: u8 = 0;

/// Binding strength of `+` and `-`.
pub const SUM: u8 = 3;

/// Binding strength of `*` and `/`.
pub const MUL: u8 = 4;

/// Binding strength of `&&`.
pub const ASSOC: u8 = 5;

/// Binding strength of `==`, `!=` and the opening parenthesis.
pub const APPLY: u8 = 6;

/// The binding strength of an operator.
pub open spec fn precedence(operator: Operator) -> u8 {
    match operator {
        Operator::Plus | Operator::Minus => SUM,
        Operator::Star | Operator::Slash => MUL,
        Operator::And => ASSOC,
        Operator::LeftParen | Operator::EqualEqual | Operator::NotEqual => APPLY,
        _ => BASE,
    }
}

/// A failure and the position at which the cursor is left.
pub struct Stop {
    pub fault: Fault,
    pub at: nat,
}

/// A node and the position behind it, or the failure.
pub type Parsed = Result<(Ast, nat), Stop>;

/// A sequence of nodes and the position behind it, or the failure.
pub type ParsedMany = Result<(Seq<Ast>, nat), Stop>;

/// The failure that a missing token gives, with the cursor left at `at`.
pub open spec fn end_of_input(inp: Input, at: nat) -> Stop {
    Stop { fault: inp.eof_fault(), at }
}

/// The failure of a rule entered at `pos` where its callers must not enter
/// it, with the cursor left there.
pub open spec fn stuck(inp: Input, pos: nat) -> Stop {
    Stop { fault: inp.internal(pos), at: pos }
}

/// The failure of a lookahead at `pos` that starts no production, with the
/// cursor left there.
pub open spec fn unsupported(inp: Input, pos: nat) -> Stop {
    Stop { fault: inp.unimplemented(pos), at: pos }
}

/// What is at `pos`; a lexical failure leaves the cursor there.
pub open spec fn glance(inp: Input, pos: nat) -> Result<Option<Token>, Stop> {
    match inp.peek(pos) {
        Ok(t) => Ok(t),
        Err(fault) => Err(Stop { fault, at: pos }),
    }
}

/// The class of what is at `pos`; a lexical failure leaves the cursor there.
pub open spec fn look(inp: Input, pos: nat) -> Result<Option<Class>, Stop> {
    match inp.peek_class(pos) {
        Ok(c) => Ok(c),
        Err(fault) => Err(Stop { fault, at: pos }),
    }
}

/// The token at `pos` if its class is `class`; else the failure, which
/// leaves the cursor there.
pub open spec fn take(inp: Input, pos: nat, class: Class) -> Result<Token, Stop> {
    match inp.expect(pos, class) {
        Ok(t) => Ok(t),
        Err(fault) => Err(Stop { fault, at: pos }),
    }
}

/// The token at `pos` if its class is among `classes`; else the failure,
/// which leaves the cursor there.
pub open spec fn take_one_of(inp: Input, pos: nat, classes: Seq<Class>) -> Result<Token, Stop> {
    match inp.expect_one_of(pos, classes) {
        Ok(t) => Ok(t),
        Err(fault) => Err(Stop { fault, at: pos }),
    }
}

/// The node is well formed and lies within the tokens from `from` up to,
/// not including, `to`.
pub open spec fn spans(inp: Input, from: nat, to: nat, node: Ast) -> bool {
    &&& from < to <= inp.tokens.len()
    &&& node.well_formed()
    &&& inp.tokens[from as int].span().start <= node.location().start
    &&& node.location().end <= inp.tokens[to - 1].span().end
}

/// The node starts where the token at `from` starts, unless that token is
/// an opening parenthesis: a group yields the node inside it.
pub open spec fn anchored(inp: Input, from: nat, node: Ast) -> bool {
    inp.peek_class(from) != Ok::<_, Fault>(Some(Class::Op(Operator::LeftParen)))
        ==> node.location().start == inp.span_at(from).start
}

/// The node ends where the last token before `to` ends, unless the node is
/// a declaration, which ends with its initializer, or that token is a
/// closing parenthesis.
pub open spec fn closed(inp: Input, to: nat, node: Ast) -> bool {
    to > 0 && !(node is Var) && inp.peek_class((to - 1) as nat) != Ok::<_, Fault>(
        Some(Class::Op(Operator::RightParen)),
    ) ==> node.location().end == inp.span_at((to - 1) as nat).end
}

/// Each of the nodes is well formed and lies within the tokens from `from`
/// up to, not including, `to`.
pub open spec fn all_span(inp: Input, from: nat, to: nat, nodes: Seq<Ast>) -> bool {
    forall|i: int| 0 <= i < nodes.len() ==> spans(inp, from, to, #[trigger] nodes[i])
}

/// The literal node of a primitive.
pub open spec fn literal(primitive: Primitive, location: Location) -> Ast {
    match primitive {
        Primitive::Int { value, size } => Ast::IntLiteral { value, size, location },
        Primitive::UInt { value, size } => Ast::UintLiteral { value, size, location },
        Primitive::Float { bits, size } => Ast::FloatLiteral { bits, size, location },
        Primitive::Bool(value) => Ast::Bool { value, location },
    }
}

/// The name of an identifier node.
pub open spec fn name_of(node: Ast) -> Seq<char> {
    match node {
        Ast::Ident { name, .. } => name,
        _ => Seq::empty(),
    }
}

/// An identifier: a value token that holds a name which is not empty.
pub open spec fn identifier(inp: Input, pos: nat) -> Parsed {
    match glance(inp, pos) {
        Err(f) => Err(f),
        Ok(None) => Err(end_of_input(inp, pos)),
        Ok(Some(t)) => match t.kind {
            Kind::Value(Value::Ident(name)) if name@.len() > 0 => Ok(
                (Ast::Ident { name: name@, location: t.location }, pos + 1),
            ),
            _ => Err(
                Stop { fault: Fault { kind: ErrorKind::MalformedIdentifier, span: t.location }, at: pos + 1 },
            ),
        },
    }
}

/// A typed literal.
pub open spec fn primitive(inp: Input, pos: nat) -> Parsed {
    match glance(inp, pos) {
        Err(f) => Err(f),
        Ok(Some(t)) => match t.kind {
            Kind::Value(Value::Primitive(p)) => Ok((literal(p, t.location), pos + 1)),
            _ => Err(Stop { fault: inp.internal(pos), at: pos + 1 }),
        },
        Ok(None) => Err(stuck(inp, pos)),
    }
}

/// A value token: a literal or an identifier.
pub open spec fn value(inp: Input, pos: nat) -> Parsed {
    match look(inp, pos) {
        Err(f) => Err(f),
        Ok(Some(Class::Literal)) => primitive(inp, pos),
        Ok(Some(Class::Ident)) => identifier(inp, pos),
        _ => Err(stuck(inp, pos)),
    }
}

/// The entry rule: a declaration where the lookahead is `var` or `const`,
/// else an expression of operators from the lowest strength on. It is
/// entered only where a token is left.
pub open spec fn expression(inp: Input, pos: nat) -> Parsed
    decreases inp.remaining(pos), 6nat,
{
    match look(inp, pos) {
        Err(f) => Err(f),
        Ok(None) => Err(stuck(inp, pos)),
        Ok(Some(c)) => if c == Class::Var || c == Class::Const {
            variable(inp, pos)
        } else {
            with_precedence(inp, pos, BASE)
        },
    }
}

/// `('var'|'const') IDENT (':' IDENT)? '=' (BLOCK | EXPR) ';'`, ranging
/// from the keyword to the end of the initializer.
pub open spec fn variable(inp: Input, pos: nat) -> Parsed
    decreases inp.remaining(pos), 1nat,
{
    match take_one_of(inp, pos, seq![Class::Var, Class::Const]) {
        Err(f) => Err(f),
        Ok(keyword) => match identifier(inp, pos + 1) {
            Err(f) => Err(f),
            Ok((name, _)) => match look(inp, pos + 2) {
                Err(f) => Err(f),
                Ok(Some(Class::Op(Operator::Colon))) => match identifier(inp, pos + 3) {
                    Err(f) => Err(f),
                    Ok((typ, _)) => initializer(
                        inp,
                        pos,
                        pos + 4,
                        keyword.kind.class() == Class::Var,
                        name_of(name),
                        Some(Box::new(typ)),
                    ),
                },
                _ => initializer(
                    inp,
                    pos,
                    pos + 2,
                    keyword.kind.class() == Class::Var,
                    name_of(name),
                    None,
                ),
            },
        },
    }
}

/// The rest of the declaration that starts at `pos`, from its `=` on,
/// which stands at `at`.
pub open spec fn initializer(
    inp: Input,
    pos: nat,
    at: nat,
    mutable: bool,
    name: Seq<char>,
    typ: Option<Box<Ast>>,
) -> Parsed
    decreases inp.remaining(pos), 0nat,
{
    if pos < at && pos < inp.tokens.len() {
        match take(inp, at, Class::Op(Operator::Equal)) {
            Err(f) => Err(f),
            Ok(_) => match assigned(inp, at + 1) {
                Err(f) => Err(f),
                Ok((value, q)) => match take(inp, q, Class::Op(Operator::SemiColon)) {
                    Err(f) => Err(f),
                    Ok(_) => Ok(
                        (
                            Ast::Var {
                                mutable,
                                typ,
                                name,
                                value: Box::new(value),
                                location: Location {
                                    start: inp.span_at(pos).start,
                                    end: value.location().end,
                                },
                            },
                            q + 1,
                        ),
                    ),
                },
            },
        }
    } else {
        Err(stuck(inp, pos))
    }
}

/// An expression where one is required: at the end of input an
/// end-of-input failure.
pub open spec fn operand(inp: Input, pos: nat) -> Parsed
    decreases inp.remaining(pos), 7nat,
{
    match look(inp, pos) {
        Err(f) => Err(f),
        Ok(None) => Err(end_of_input(inp, pos)),
        Ok(Some(_)) => expression(inp, pos),
    }
}

/// What stands behind a `=`: a block where the lookahead is an opening
/// brace, else an expression; at the end of input an end-of-input failure.
pub open spec fn assigned(inp: Input, pos: nat) -> Parsed
    decreases inp.remaining(pos), 7nat,
{
    match look(inp, pos) {
        Err(f) => Err(f),
        Ok(None) => Err(end_of_input(inp, pos)),
        Ok(Some(Class::Op(Operator::LeftBrace))) => block(inp, pos),
        Ok(Some(_)) => expression(inp, pos),
    }
}

/// `'{' EXPR* '}'`, ranging over both braces.
pub open spec fn block(inp: Input, pos: nat) -> Parsed
    decreases inp.remaining(pos), 1nat,
{
    match take(inp, pos, Class::Op(Operator::LeftBrace)) {
        Err(f) => Err(f),
        Ok(open) => match block_items(inp, pos + 1, Seq::empty()) {
            Err(f) => Err(f),
            Ok((expressions, q)) => match take(inp, q, Class::Op(Operator::RightBrace)) {
                Err(f) => Err(f),
                Ok(close) => Ok(
                    (
                        Ast::Block {
                            expressions,
                            location: Location { start: open.location.start, end: close.location.end },
                        },
                        q + 1,
                    ),
                ),
            },
        },
    }
}

/// The expressions of a block from `pos` on, behind those of `done`, up to
/// a closing brace or the end of input.
pub open spec fn block_items(inp: Input, pos: nat, done: Seq<Ast>) -> ParsedMany
    decreases inp.remaining(pos), 7nat,
{
    match look(inp, pos) {
        Err(f) => Err(f),
        Ok(None) => Ok((done, pos)),
        Ok(Some(Class::Op(Operator::RightBrace))) => Ok((done, pos)),
        Ok(Some(_)) => match expression(inp, pos) {
            Err(f) => Err(f),
            Ok((e, q)) => if q > pos {
                block_items(inp, q, done.push(e))
            } else {
                Err(stuck(inp, pos))
            },
        },
    }
}

/// Where the last of `nodes` ends, or `otherwise` where there is none.
pub open spec fn last_end(nodes: Seq<Ast>, otherwise: usize) -> usize {
    if nodes.len() > 0 {
        nodes.last().location().end
    } else {
        otherwise
    }
}

/// No node ends behind the last of them.
pub open spec fn ends_last(nodes: Seq<Ast>) -> bool {
    forall|i: int| 0 <= i < nodes.len() ==> (#[trigger] nodes[i]).location().end <= nodes.last().location().end
}

/// `'if' EXPR BLOCK ('else' ('if' EXPR BLOCK | BLOCK))*`, ranging from the
/// keyword to the end of the last branch.
pub open spec fn if_expression(inp: Input, pos: nat) -> Parsed
    decreases inp.remaining(pos), 1nat,
{
    match take(inp, pos, Class::If) {
        Err(f) => Err(f),
        Ok(keyword) => match operand(inp, pos + 1) {
            Err(f) => Err(f),
            Ok((condition, p)) => if p > pos {
                match block(inp, p) {
                    Err(f) => Err(f),
                    Ok((truthy, q)) => if q > p {
                        match else_branches(inp, q, Seq::empty()) {
                            Err(f) => Err(f),
                            Ok((falsy, r)) => Ok(
                                (
                                    Ast::If {
                                        condition: Box::new(condition),
                                        truthy: Box::new(truthy),
                                        falsy,
                                        location: Location {
                                            start: keyword.location.start,
                                            end: last_end(falsy, truthy.location().end),
                                        },
                                    },
                                    r,
                                ),
                            ),
                        }
                    } else {
                        Err(stuck(inp, pos))
                    },
                }
            } else {
                Err(stuck(inp, pos))
            },
        },
    }
}

/// The `else` branches from `pos` on, behind those of `done`: each
/// `else if` is one branch and the chain goes on; an `else` with a block is
/// the last.
pub open spec fn else_branches(inp: Input, pos: nat, done: Seq<Ast>) -> ParsedMany
    decreases inp.remaining(pos), 0nat,
{
    match look(inp, pos) {
        Err(f) => Err(f),
        Ok(Some(Class::Else)) => match look(inp, pos + 1) {
            Err(f) => Err(f),
            Ok(Some(Class::If)) => match if_expression(inp, pos + 1) {
                Err(f) => Err(f),
                Ok((branch, q)) => if q > pos {
                    else_branches(inp, q, done.push(branch))
                } else {
                    Err(stuck(inp, pos))
                },
            },
            _ => match block(inp, pos + 1) {
                Err(f) => Err(f),
                Ok((branch, q)) => Ok((done.push(branch), q)),
            },
        },
        _ => Ok((done, pos)),
    }
}

/// A parenthesized group `'(' EXPR ')'`, which yields the node inside.
pub open spec fn operation(inp: Input, pos: nat) -> Parsed
    decreases inp.remaining(pos), 3nat,
{
    match look(inp, pos) {
        Err(f) => Err(f),
        Ok(Some(Class::Op(Operator::LeftParen))) => match with_precedence(inp, pos + 1, BASE) {
            Err(f) => Err(f),
            Ok((inner, q)) => match take(inp, q, Class::Op(Operator::RightParen)) {
                Err(f) => Err(f),
                Ok(_) => Ok((inner, q + 1)),
            },
        },
        Ok(Some(Class::Op(_))) => Err(unsupported(inp, pos)),
        _ => Err(stuck(inp, pos)),
    }
}

/// `CALLEE '(' (EXPR (',' EXPR)*)? ')'` from the parenthesis on, ranging
/// from the callee to the closing parenthesis.
pub open spec fn fun_call(inp: Input, pos: nat, callee: Ast) -> Parsed
    decreases inp.remaining(pos), 1nat,
{
    match take(inp, pos, Class::Op(Operator::LeftParen)) {
        Err(f) => Err(f),
        Ok(_) => match arguments(inp, pos + 1, Seq::empty()) {
            Err(f) => Err(f),
            Ok((arguments, q)) => match take(inp, q, Class::Op(Operator::RightParen)) {
                Err(f) => Err(f),
                Ok(close) => Ok(
                    (
                        Ast::FunCall {
                            ident: Box::new(callee),
                            arguments,
                            location: Location {
                                start: callee.location().start,
                                end: close.location.end,
                            },
                        },
                        q + 1,
                    ),
                ),
            },
        },
    }
}

/// The arguments of a call from `pos` on, behind those of `done`, up to a
/// closing parenthesis or the end of input. Every comma is skipped.
pub open spec fn arguments(inp: Input, pos: nat, done: Seq<Ast>) -> ParsedMany
    decreases inp.remaining(pos), 7nat,
{
    match look(inp, pos) {
        Err(f) => Err(f),
        Ok(None) => Ok((done, pos)),
        Ok(Some(Class::Op(Operator::RightParen))) => Ok((done, pos)),
        Ok(Some(Class::Op(Operator::Comma))) => arguments(inp, pos + 1, done),
        Ok(Some(_)) => match expression(inp, pos) {
            Err(f) => Err(f),
            Ok((e, q)) => if q > pos {
                arguments(inp, q, done.push(e))
            } else {
                Err(stuck(inp, pos))
            },
        },
    }
}

/// `TARGET '=' (BLOCK | EXPR) ';'` from the `=` on, ranging from the target
/// to the semicolon.
pub open spec fn assign(inp: Input, pos: nat, target: Ast) -> Parsed
    decreases inp.remaining(pos), 1nat,
{
    match take(inp, pos, Class::Op(Operator::Equal)) {
        Err(f) => Err(f),
        Ok(_) => match assigned(inp, pos + 1) {
            Err(f) => Err(f),
            Ok((value, q)) => match take(inp, q, Class::Op(Operator::SemiColon)) {
                Err(f) => Err(f),
                Ok(closing) => Ok(
                    (
                        Ast::Assign {
                            ident: Box::new(target),
                            value: Box::new(value),
                            location: Location {
                                start: target.location().start,
                                end: closing.location.end,
                            },
                        },
                        q + 1,
                    ),
                ),
            },
        },
    }
}

/// `'return' EXPR ';'`, ranging from the keyword to the semicolon.
pub open spec fn return_expression(inp: Input, pos: nat) -> Parsed
    decreases inp.remaining(pos), 1nat,
{
    match take(inp, pos, Class::Return) {
        Err(f) => Err(f),
        Ok(keyword) => match operand(inp, pos + 1) {
            Err(f) => Err(f),
            Ok((value, q)) => match take(inp, q, Class::Op(Operator::SemiColon)) {
                Err(f) => Err(f),
                Ok(semi) => Ok(
                    (
                        Ast::Return {
                            value: Box::new(value),
                            location: Location { start: keyword.location.start, end: semi.location.end },
                        },
                        q + 1,
                    ),
                ),
            },
        },
    }
}

/// A primary expression: a literal, an identifier, a parenthesized group,
/// an `if` or a `return`, by the lookahead.
pub open spec fn primary(inp: Input, pos: nat) -> Parsed
    decreases inp.remaining(pos), 4nat,
{
    match look(inp, pos) {
        Err(f) => Err(f),
        Ok(None) => Err(end_of_input(inp, pos)),
        Ok(Some(Class::Ident)) => value(inp, pos),
        Ok(Some(Class::Literal)) => value(inp, pos),
        Ok(Some(Class::Op(_))) => operation(inp, pos),
        Ok(Some(Class::Return)) => return_expression(inp, pos),
        Ok(Some(Class::If)) => if_expression(inp, pos),
        Ok(Some(_)) => Err(unsupported(inp, pos)),
    }
}

/// Precedence climbing: a primary; behind an identifier a call or an
/// assignment, if `(` or `=` follows; else the operators that bind more
/// strongly than `min`, each with its right operand.
pub open spec fn with_precedence(inp: Input, pos: nat, min: u8) -> Parsed
    decreases inp.remaining(pos), 5nat,
{
    match primary(inp, pos) {
        Err(f) => Err(f),
        Ok((left, p)) => if p > pos && pos < inp.tokens.len() {
            if left is Ident {
                match look(inp, p) {
                    Err(f) => Err(f),
                    Ok(Some(Class::Op(Operator::LeftParen))) => fun_call(inp, p, left),
                    Ok(Some(Class::Op(Operator::Equal))) => assign(inp, p, left),
                    _ => operators(inp, p, left, min),
                }
            } else {
                operators(inp, p, left, min)
            }
        } else {
            Err(stuck(inp, pos))
        },
    }
}

/// Whether the token of kind `kind` goes on an expression at strength `min`.
pub open spec fn binds(kind: Kind, min: u8) -> bool {
    kind.binary_op() && match kind {
        Kind::Op(op) => precedence(op) > min,
        _ => false,
    }
}

/// The operator loop from `pos` on, with `left` parsed so far: while a
/// binary operator stronger than `min` follows, it takes the operator and a
/// right operand parsed at the operator's own strength, and folds both
/// operands into one node that ranges over them.
pub open spec fn operators(inp: Input, pos: nat, left: Ast, min: u8) -> Parsed
    decreases inp.remaining(pos), 0nat,
{
    match glance(inp, pos) {
        Err(f) => Err(f),
        Ok(None) => Ok((left, pos)),
        Ok(Some(t)) => match t.kind {
            Kind::Op(operator) if binds(t.kind, min) => match with_precedence(
                inp,
                pos + 1,
                precedence(operator),
            ) {
                Err(f) => Err(f),
                Ok((right, q)) => if q > pos {
                    operators(
                        inp,
                        q,
                        Ast::BinaryOp {
                            lhs: Box::new(left),
                            operator,
                            rhs: Box::new(right),
                            location: Location {
                                start: left.location().start,
                                end: right.location().end,
                            },
                        },
                        min,
                    )
                } else {
                    Err(stuck(inp, pos))
                },
            },
            _ => Ok((left, pos)),
        },
    }
}

} // verus!
