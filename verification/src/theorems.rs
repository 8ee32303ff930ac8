//! What holds of every tree and every failure that the grammar yields.

use crate::ast::Ast;
use crate::error::Fault;
use crate::grammar::{
    arguments, binds, else_branches, end_of_input, expression, operators, precedence, variable,
    with_precedence, Stop, BASE,
};
use crate::token::{Class, Input, Kind, Lexeme, Operator, Value};
use vstd::prelude::*;

verus! {

/// The stream holds nothing but literals and the operators `+ - * /`.
pub open spec fn arithmetic(inp: Input) -> bool {
    forall|i: int|
        0 <= i < inp.tokens.len() ==> match #[trigger] inp.tokens[i] {
            Lexeme::Token(t) => match t.kind {
                Kind::Value(Value::Primitive(_)) => true,
                Kind::Op(op) => op == Operator::Plus || op == Operator::Minus || op == Operator::Star
                    || op == Operator::Slash,
                _ => false,
            },
            Lexeme::Malformed(_) => false,
        }
}

/// How strongly a node holds together: a binary operation as strongly as
/// its operator binds, every other node more strongly than any operator.
pub open spec fn strength(node: Ast) -> int {
    match node {
        Ast::BinaryOp { operator, .. } => precedence(operator) as int,
        _ => 256,
    }
}

/// In every binary operation of the tree the right operand holds together
/// more strongly than the operator binds, and the left operand at least as
/// strongly.
pub open spec fn graded(node: Ast) -> bool
    decreases node,
{
    match node {
        Ast::BinaryOp { lhs, operator, rhs, .. } => {
            &&& graded(*lhs)
            &&& graded(*rhs)
            &&& strength(*lhs) >= precedence(operator)
            &&& strength(*rhs) > precedence(operator)
        },
        _ => true,
    }
}

/// No operator that binds more strongly than `level` stands at `pos`.
pub open spec fn quiet(inp: Input, pos: nat, level: int) -> bool {
    pos < inp.tokens.len() ==> match inp.tokens[pos as int] {
        Lexeme::Token(t) => match t.kind {
            Kind::Op(op) => precedence(op) <= level,
            _ => true,
        },
        Lexeme::Malformed(_) => true,
    }
}

/// On a stream of literals and `+ - * /`, precedence climbing from strength
/// `min` yields a graded tree that holds together more strongly than `min`,
/// and stops before an operator that binds no more strongly than `min`.
pub proof fn lemma_climbing_is_graded(inp: Input, pos: nat, min: u8)
    requires
        arithmetic(inp),
    ensures
        with_precedence(inp, pos, min) matches Ok((a, q)) ==> graded(a) && strength(a) > min && quiet(
            inp,
            q,
            min as int,
        ),
    decreases inp.remaining(pos), 1nat,
{
    if pos < inp.tokens.len() {
        let t = inp.tokens[pos as int];
        match crate::grammar::primary(inp, pos) {
            Ok((left, p)) => {
                assert(p == pos + 1);
                assert(!(left is Ident) && !(left is BinaryOp));
                lemma_operators_are_graded(inp, p, left, min);
            },
            Err(_) => {},
        }
    }
}

/// On a stream of literals and `+ - * /`, the operator loop keeps a graded
/// tree graded.
pub proof fn lemma_operators_are_graded(inp: Input, pos: nat, left: Ast, min: u8)
    requires
        arithmetic(inp),
        graded(left),
        strength(left) > min,
        quiet(inp, pos, strength(left)),
    ensures
        operators(inp, pos, left, min) matches Ok((a, q)) ==> graded(a) && strength(a) > min && quiet(
            inp,
            q,
            min as int,
        ),
    decreases inp.remaining(pos), 0nat,
{
    if pos < inp.tokens.len() {
        let t = inp.tokens[pos as int];
        match t {
            Lexeme::Token(t) => match t.kind {
                Kind::Op(operator) => {
                    if binds(t.kind, min) {
                        lemma_climbing_is_graded(inp, pos + 1, precedence(operator));
                        match with_precedence(inp, pos + 1, precedence(operator)) {
                            Ok((right, q)) => {
                                if q > pos {
                                    let folded = Ast::BinaryOp {
                                        lhs: Box::new(left),
                                        operator,
                                        rhs: Box::new(right),
                                        location: crate::token::Location {
                                            start: left.location().start,
                                            end: right.location().end,
                                        },
                                    };
                                    assert(graded(folded));
                                    lemma_operators_are_graded(inp, q, folded, min);
                                }
                            },
                            Err(_) => {},
                        }
                    }
                },
                _ => {},
            },
            Lexeme::Malformed(_) => {},
        }
    }
}

/// The tree of an input that holds nothing but literals and `+ - * /`
/// follows the precedence table: in each of its binary operations the right
/// operand is a literal or an operation of a strictly stronger operator,
/// and the left operand a literal or an operation of an operator at least
/// as strong.
pub proof fn lemma_precedence_is_respected(inp: Input, pos: nat)
    requires
        arithmetic(inp),
    ensures
        expression(inp, pos) matches Ok((a, _)) ==> graded(a),
{
    if pos < inp.tokens.len() {
        let t = inp.tokens[pos as int];
        lemma_climbing_is_graded(inp, pos, BASE);
    }
}

/// No operation of `*` or `/` has an operation of `+` or `-` as a direct
/// operand, anywhere in the tree.
pub open spec fn products_hold_no_sums(node: Ast) -> bool
    decreases node,
{
    match node {
        Ast::BinaryOp { lhs, operator, rhs, .. } => {
            &&& products_hold_no_sums(*lhs)
            &&& products_hold_no_sums(*rhs)
            &&& (operator == Operator::Star || operator == Operator::Slash) ==> !is_sum(*lhs) && !is_sum(
                *rhs,
            )
        },
        _ => true,
    }
}

/// The node is an operation of `+` or `-`.
pub open spec fn is_sum(node: Ast) -> bool {
    match node {
        Ast::BinaryOp { operator, .. } => operator == Operator::Plus || operator == Operator::Minus,
        _ => false,
    }
}

/// In a graded tree no product holds a sum as a direct operand.
pub proof fn lemma_graded_products(node: Ast)
    requires
        graded(node),
    ensures
        products_hold_no_sums(node),
    decreases node,
{
    match node {
        Ast::BinaryOp { lhs, rhs, .. } => {
            lemma_graded_products(*lhs);
            lemma_graded_products(*rhs);
        },
        _ => {},
    }
}

/// The nodes of the tree that are no binary operations, from left to right.
pub open spec fn leaves(node: Ast) -> Seq<Ast>
    decreases node,
{
    match node {
        Ast::BinaryOp { lhs, rhs, .. } => leaves(*lhs) + leaves(*rhs),
        _ => seq![node],
    }
}

/// The literal nodes of the literal tokens from `from` up to, not
/// including, `to`, in their order.
pub open spec fn literals(inp: Input, from: nat, to: nat) -> Seq<Ast>
    decreases to,
{
    if from >= to || to > inp.tokens.len() {
        Seq::empty()
    } else {
        let before = literals(inp, from, (to - 1) as nat);
        match inp.tokens[to - 1] {
            Lexeme::Token(t) => match t.kind {
                Kind::Value(Value::Primitive(p)) => before.push(crate::grammar::literal(p, t.location)),
                _ => before,
            },
            Lexeme::Malformed(_) => before,
        }
    }
}

/// The literals of a range are those of its first part, then those of the
/// rest.
pub proof fn lemma_literals_split(inp: Input, from: nat, mid: nat, to: nat)
    requires
        from <= mid <= to <= inp.tokens.len(),
    ensures
        literals(inp, from, to) == literals(inp, from, mid) + literals(inp, mid, to),
    decreases to,
{
    if mid == to {
        assert(literals(inp, from, to) =~= literals(inp, from, mid) + literals(inp, mid, to));
    } else {
        lemma_literals_split(inp, from, mid, (to - 1) as nat);
        assert(literals(inp, from, to) =~= literals(inp, from, mid) + literals(inp, mid, to));
    }
}

/// On a stream of literals and `+ - * /`, the tree that precedence
/// climbing yields holds the literals of the tokens it has read, in their
/// order.
pub proof fn lemma_climbing_keeps_order(inp: Input, pos: nat, min: u8)
    requires
        arithmetic(inp),
    ensures
        with_precedence(inp, pos, min) matches Ok((a, q)) ==> pos < q <= inp.tokens.len() && leaves(a)
            == literals(inp, pos, q),
    decreases inp.remaining(pos), 1nat,
{
    if pos < inp.tokens.len() {
        let t = inp.tokens[pos as int];
        match crate::grammar::primary(inp, pos) {
            Ok((left, p)) => {
                assert(p == pos + 1);
                assert(!(left is Ident) && !(left is BinaryOp));
                assert(literals(inp, pos, pos) =~= Seq::empty());
                assert(leaves(left) =~= literals(inp, pos, p));
                lemma_operators_keep_order(inp, pos, p, left, min);
            },
            Err(_) => {},
        }
    }
}

/// On a stream of literals and `+ - * /`, the operator loop keeps the
/// literals in their order.
pub proof fn lemma_operators_keep_order(inp: Input, start: nat, pos: nat, left: Ast, min: u8)
    requires
        arithmetic(inp),
        start <= pos <= inp.tokens.len(),
        leaves(left) == literals(inp, start, pos),
    ensures
        operators(inp, pos, left, min) matches Ok((a, q)) ==> pos <= q <= inp.tokens.len() && leaves(a)
            == literals(inp, start, q),
    decreases inp.remaining(pos), 0nat,
{
    if pos < inp.tokens.len() {
        let t = inp.tokens[pos as int];
        match t {
            Lexeme::Token(t) => match t.kind {
                Kind::Op(operator) => {
                    if binds(t.kind, min) {
                        lemma_climbing_keeps_order(inp, pos + 1, precedence(operator));
                        match with_precedence(inp, pos + 1, precedence(operator)) {
                            Ok((right, q)) => {
                                let folded = Ast::BinaryOp {
                                    lhs: Box::new(left),
                                    operator,
                                    rhs: Box::new(right),
                                    location: crate::token::Location {
                                        start: left.location().start,
                                        end: right.location().end,
                                    },
                                };
                                lemma_literals_split(inp, start, pos + 1, q);
                                assert(literals(inp, start, pos + 1) == literals(inp, start, pos));
                                assert(leaves(folded) == literals(inp, start, q));
                                lemma_operators_keep_order(inp, start, q, folded, min);
                            },
                            Err(_) => {},
                        }
                    }
                },
                _ => {},
            },
            Lexeme::Malformed(_) => {},
        }
    }
}

/// The tree of an input that holds nothing but literals and `+ - * /`
/// holds the literals of the tokens read, from left to right in their
/// order, and no product in it holds a sum as a direct operand.
pub proof fn lemma_arithmetic_tree(inp: Input, pos: nat)
    requires
        arithmetic(inp),
    ensures
        expression(inp, pos) matches Ok((a, q)) ==> leaves(a) == literals(inp, pos, q)
            && products_hold_no_sums(a),
{
    if pos < inp.tokens.len() {
        let t = inp.tokens[pos as int];
        lemma_climbing_keeps_order(inp, pos, BASE);
        lemma_precedence_is_respected(inp, pos);
        match expression(inp, pos) {
            Ok((a, _)) => {
                lemma_graded_products(a);
            },
            Err(_) => {},
        }
    }
}

/// An operand that is missing because the input has ended is an
/// end-of-input failure: where nothing is left, precedence climbing fails
/// so, and so does the operator loop at an operator that is the last token.
pub proof fn lemma_missing_operand(inp: Input, pos: nat, left: Ast, min: u8)
    ensures
        pos >= inp.tokens.len() ==> with_precedence(inp, pos, min) == Err::<(Ast, nat), Stop>(
            end_of_input(inp, pos),
        ),
        pos + 1 == inp.tokens.len() && (inp.tokens[pos as int] matches Lexeme::Token(t) && binds(
            t.kind,
            min,
        )) ==> operators(inp, pos, left, min) == Err::<(Ast, nat), Stop>(end_of_input(inp, pos + 1)),
{
    if pos + 1 == inp.tokens.len() {
        let missing = Err::<(Ast, nat), Stop>(end_of_input(inp, pos + 1));
        assert(crate::grammar::primary(inp, pos + 1) == missing);
        match inp.tokens[pos as int] {
            Lexeme::Token(t) => match t.kind {
                Kind::Op(operator) => {
                    assert(with_precedence(inp, pos + 1, precedence(operator)) == missing);
                },
                _ => {},
            },
            Lexeme::Malformed(_) => {},
        }
    }
}

/// A token that was expected and found has the expected class.
pub proof fn lemma_expected(inp: Input, pos: nat, class: Class)
    ensures
        inp.expect(pos, class) is Ok ==> pos < inp.tokens.len() && inp.peek_class(pos) == Ok::<_, Fault>(
            Some(class),
        ),
{
    let classes = seq![class];
    assert(classes.len() == 1 && classes[0] == class);
}

/// The rest of a declaration, where it parses, ends with a semicolon and
/// yields a declaration of the mutability that the keyword gave.
pub proof fn lemma_initializer(
    inp: Input,
    pos: nat,
    at: nat,
    mutable: bool,
    name: Seq<char>,
    typ: Option<Box<Ast>>,
)
    ensures
        crate::grammar::initializer(inp, pos, at, mutable, name, typ) matches Ok((a, q)) ==> {
            &&& a matches Ast::Var { mutable: m, .. } && m == mutable
            &&& q > 0
            &&& inp.peek_class((q - 1) as nat) == Ok::<_, Fault>(Some(Class::Op(Operator::SemiColon)))
        },
{
    match crate::grammar::assigned(inp, at + 1) {
        Ok((_, p)) => {
            lemma_expected(inp, p, Class::Op(Operator::SemiColon));
        },
        Err(_) => {},
    }
}

/// A declaration that parses is mutable exactly where its keyword is `var`,
/// and its last token is a semicolon.
pub proof fn lemma_declaration(inp: Input, pos: nat)
    ensures
        variable(inp, pos) matches Ok((a, q)) ==> {
            &&& a matches Ast::Var { mutable, .. } && (mutable <==> inp.peek_class(pos) == Ok::<_, Fault>(
                Some(Class::Var),
            ))
            &&& q > 0
            &&& inp.peek_class((q - 1) as nat) == Ok::<_, Fault>(Some(Class::Op(Operator::SemiColon)))
        },
{
    match (inp.peek(pos), crate::grammar::identifier(inp, pos + 1)) {
        (Ok(Some(keyword)), Ok((name, _))) => {
            let mutable = keyword.kind.class() == Class::Var;
            lemma_initializer(inp, pos, pos + 2, mutable, crate::grammar::name_of(name), None);
            match crate::grammar::identifier(inp, pos + 3) {
                Ok((typ, _)) => {
                    lemma_initializer(
                        inp,
                        pos,
                        pos + 4,
                        mutable,
                        crate::grammar::name_of(name),
                        Some(Box::new(typ)),
                    );
                },
                Err(_) => {},
            }
        },
        _ => {},
    }
}

/// The operator loop yields the node it was given or a binary operation:
/// no declaration, unless it was given one.
pub proof fn lemma_operators_yield_no_declaration(inp: Input, pos: nat, left: Ast, min: u8)
    requires
        !(left is Var),
    ensures
        operators(inp, pos, left, min) matches Ok((a, _)) ==> !(a is Var),
    decreases inp.remaining(pos),
{
    if pos < inp.tokens.len() {
        match inp.tokens[pos as int] {
            Lexeme::Token(t) => match t.kind {
                Kind::Op(operator) => {
                    match with_precedence(inp, pos + 1, precedence(operator)) {
                        Ok((right, q)) => {
                            if q > pos {
                                lemma_operators_yield_no_declaration(
                                    inp,
                                    q,
                                    Ast::BinaryOp {
                                        lhs: Box::new(left),
                                        operator,
                                        rhs: Box::new(right),
                                        location: crate::token::Location {
                                            start: left.location().start,
                                            end: right.location().end,
                                        },
                                    },
                                    min,
                                );
                            }
                        },
                        Err(_) => {},
                    }
                },
                _ => {},
            },
            Lexeme::Malformed(_) => {},
        }
    }
}

/// A primary expression is no declaration.
pub proof fn lemma_primary_yields_no_declaration(inp: Input, pos: nat)
    ensures
        crate::grammar::primary(inp, pos) matches Ok((a, _)) ==> !(a is Var),
    decreases inp.remaining(pos), 0nat,
{
    if inp.peek_class(pos) == Ok::<_, Fault>(Some(Class::Op(Operator::LeftParen))) {
        lemma_climbing_yields_no_declaration(inp, pos + 1, BASE);
    }
}

/// Precedence climbing yields no declaration.
pub proof fn lemma_climbing_yields_no_declaration(inp: Input, pos: nat, min: u8)
    ensures
        with_precedence(inp, pos, min) matches Ok((a, _)) ==> !(a is Var),
    decreases inp.remaining(pos), 1nat,
{
    lemma_primary_yields_no_declaration(inp, pos);
    match crate::grammar::primary(inp, pos) {
        Ok((left, p)) => {
            lemma_operators_yield_no_declaration(inp, p, left, min);
        },
        Err(_) => {},
    }
}

/// An expression that parses is a declaration exactly where its first
/// token is `var` or `const`.
pub proof fn lemma_declaration_by_keyword(inp: Input, pos: nat)
    ensures
        expression(inp, pos) matches Ok((a, _)) ==> (a is Var <==> inp.peek_class(pos) == Ok::<_, Fault>(
            Some(Class::Var),
        ) || inp.peek_class(pos) == Ok::<_, Fault>(Some(Class::Const))),
{
    lemma_declaration(inp, pos);
    lemma_climbing_yields_no_declaration(inp, pos, BASE);
}

/// A comma among the arguments of a call is skipped, wherever it stands:
/// also before the closing parenthesis.
pub proof fn lemma_comma_is_skipped(inp: Input, pos: nat, done: Seq<Ast>)
    requires
        inp.peek_class(pos) == Ok::<_, Fault>(Some(Class::Op(Operator::Comma))),
    ensures
        arguments(inp, pos, done) == arguments(inp, pos + 1, done),
{
}

/// Where no `else` follows, there is no falsy branch.
pub proof fn lemma_no_else(inp: Input, pos: nat)
    requires
        inp.peek_class(pos) is Ok,
        inp.peek_class(pos) != Ok::<_, Fault>(Some(Class::Else)),
    ensures
        else_branches(inp, pos, Seq::empty()) == Ok::<(Seq<Ast>, nat), Stop>((Seq::empty(), pos)),
{
}

} // verus!
