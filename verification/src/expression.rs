//! The recursive-descent parser: one routine per production, and the
//! precedence-climbing loop for binary operators.

use crate::ast::{lemma_models_push, lemma_within, models, Ast, Expression};
use crate::error::{ErrorKind, Fault, ParseError};
use crate::grammar::{
    all_span, anchored, assign, assigned, block, block_items, closed, else_branches, ends_last,
    expression, fun_call, identifier, if_expression, initializer, name_of, operand, operation,
    operators,
    precedence, primary, primitive, return_expression, spans, value, variable, with_precedence,
    Parsed, Stop, APPLY, ASSOC, BASE, MUL, SUM,
};
use crate::progress::lemma_expression_moves;
use crate::theorems::lemma_declaration_by_keyword;
use crate::token::{
    in_source_order, lemma_order, Class, Input, Kind, Location, Operator, Primitive, TokenStream, Value,
};
use vstd::prelude::*;

verus! {

/// What a parse routine owes: the stream is the same and the cursor has not
/// gone back. On success the node is the one that the grammar yields and the
/// cursor stands behind it; the node is well formed and lies within the
/// tokens from `from` to the cursor; it starts with the first of them
/// unless that is an opening parenthesis, and ends with the last of them
/// unless that is a closing parenthesis or the node is a declaration. On
/// failure the diagnostic is the one that the grammar yields, with the
/// stream's source text, and the cursor is left where the grammar says.
pub open spec fn agrees(
    before: TokenStream,
    after: TokenStream,
    from: nat,
    r: Result<Expression, ParseError>,
    m: Parsed,
) -> bool {
    &&& after.wf()
    &&& after.same_input(&before)
    &&& before.pos <= after.pos
    &&& match (r, m) {
        (Ok(e), Ok((a, q))) => e@ == a && after.pos == q && before.pos < q && spans(
            before.input(),
            from,
            q,
            a,
        ) && anchored(before.input(), from, a) && closed(before.input(), q, a),
        (Err(e), Err(s)) => e.fault() == s.fault && after.pos == s.at && e.source == before.source,
        _ => false,
    }
}

/// A node that lies within a range of tokens lies within every wider one.
pub proof fn lemma_spans_widen(inp: Input, from: nat, to: nat, from2: nat, to2: nat, node: Ast)
    requires
        in_source_order(inp.tokens),
        spans(inp, from, to, node),
        from2 <= from,
        to <= to2 <= inp.tokens.len(),
    ensures
        spans(inp, from2, to2, node),
{
    lemma_order(inp.tokens, from2 as int, from as int);
    lemma_order(inp.tokens, to - 1, to2 - 1);
}

/// The models of a declared type, if there is one.
pub open spec fn type_model(typ: Option<Box<Expression>>) -> Option<Box<Ast>> {
    match typ {
        Some(t) => Some(Box::new(t@)),
        None => None,
    }
}

/// Behind nodes of which none ends behind the last, a node that starts
/// behind the token that follows them ends behind them all.
pub proof fn lemma_ends_last_push(inp: Input, from: nat, mid: nat, to: nat, done: Seq<Ast>, node: Ast)
    requires
        in_source_order(inp.tokens),
        all_span(inp, from, mid, done),
        spans(inp, mid + 1, to, node),
    ensures
        ends_last(done.push(node)),
{
    assert forall|i: int| 0 <= i < done.push(node).len() implies (#[trigger] done.push(node)[i]).location().end
        <= done.push(node).last().location().end by {
        if i < done.len() {
            assert(spans(inp, from, mid, done[i]));
            lemma_order(inp.tokens, mid - 1, mid + 1 as int);
        }
    }
}

/// Nodes within a range of tokens, and one more within a range behind
/// their start, lie together within the range that holds both.
pub proof fn lemma_all_span_push(inp: Input, from: nat, mid: nat, at: nat, to: nat, done: Seq<Ast>, node: Ast)
    requires
        in_source_order(inp.tokens),
        from < mid <= to,
        from <= at,
        all_span(inp, from, mid, done),
        spans(inp, at, to, node),
    ensures
        all_span(inp, from, to, done.push(node)),
{
    assert forall|i: int| 0 <= i < done.push(node).len() implies spans(
        inp,
        from,
        to,
        #[trigger] done.push(node)[i],
    ) by {
        if i < done.len() {
            assert(spans(inp, from, mid, done[i]));
            lemma_spans_widen(inp, from, mid, from, to, done[i]);
        } else {
            lemma_spans_widen(inp, at, to, from, to, node);
        }
    }
}

/// Nodes within a range of tokens lie within every wider one.
pub proof fn lemma_all_span_widen(inp: Input, from: nat, to: nat, to2: nat, done: Seq<Ast>)
    requires
        in_source_order(inp.tokens),
        from < to <= to2 <= inp.tokens.len(),
        all_span(inp, from, to, done),
    ensures
        all_span(inp, from, to2, done),
{
    assert forall|i: int| 0 <= i < done.len() implies spans(inp, from, to2, #[trigger] done[i]) by {
        lemma_spans_widen(inp, from, to, from, to2, done[i]);
    }
}

/// The binding strength of an operator.
pub fn get_precedence(operator: Operator) -> (p: u8)
    ensures
        p == precedence(operator),
{
    match operator {
        Operator::Plus | Operator::Minus => SUM,
        Operator::Star | Operator::Slash => MUL,
        Operator::And => ASSOC,
        Operator::LeftParen | Operator::EqualEqual | Operator::NotEqual => APPLY,
        _ => BASE,
    }
}

/// Parses one expression: a declaration where the next token is `var` or
/// `const`, else an expression of operators from the lowest binding
/// strength on. A token must be left to read. The tree lies within the
/// source text, and it is a declaration exactly behind `var` or `const`.
/// No failure is an internal one.
pub fn parse_expression(lexer: &mut TokenStream) -> (r: Result<Expression, ParseError>)
    requires
        old(lexer).wf(),
        old(lexer).pos < old(lexer).tokens.len(),
    ensures
        agrees(
            *old(lexer),
            *final(lexer),
            old(lexer).pos as nat,
            r,
            expression(old(lexer).input(), old(lexer).pos as nat),
        ),
        r matches Ok(e) ==> e@.within(old(lexer).source_len()),
        r matches Err(e) ==> e.kind != ErrorKind::Internal,
        r matches Ok(e) ==> (e@ is Var <==> old(lexer).input().peek_class(old(lexer).pos as nat) == Ok::<
            _,
            Fault,
        >(Some(Class::Var)) || old(lexer).input().peek_class(old(lexer).pos as nat) == Ok::<_, Fault>(
            Some(Class::Const),
        )),
    decreases old(lexer).remaining(), 6nat,
{
    proof {
        lemma_declaration_by_keyword(lexer.input(), lexer.pos as nat);
        lemma_expression_moves(lexer.input(), lexer.pos as nat);
    }
    let r = match lexer.peek_class()? {
        Some(Class::Var) | Some(Class::Const) => parse_variable(lexer),
        Some(_) => parse_with_precedence(lexer, BASE),
        None => Err(lexer.error(ErrorKind::Internal, lexer.here())),
    };
    proof {
        if r is Ok {
            assert(lexer.tokens@[lexer.pos - 1].span().end <= lexer.source_len());
            lemma_within(r->Ok_0@, lexer.source_len());
        }
    }
    r
}

/// Consumes an identifier and returns its node and its name. A token that
/// is no identifier, or one with an empty name, is a malformed identifier;
/// the end of input is an end-of-input failure.
pub fn parse_identifier(lexer: &mut TokenStream) -> (r: Result<(Expression, String), ParseError>)
    requires
        old(lexer).wf(),
    ensures
        final(lexer).wf(),
        final(lexer).same_input(old(lexer)),
        old(lexer).pos <= final(lexer).pos,
        match (r, identifier(old(lexer).input(), old(lexer).pos as nat)) {
            (Ok((e, name)), Ok((a, q))) => e@ == a && name@ == name_of(a) && final(lexer).pos == q
                && q == old(lexer).pos + 1 && spans(old(lexer).input(), old(lexer).pos as nat, q, a),
            (Err(e), Err(s)) => e.fault() == s.fault && final(lexer).pos == s.at && e.source == old(
                lexer,
            ).source,
            _ => false,
        },
{
    let token = match lexer.next()? {
        Some(t) => t,
        None => {
            return Err(lexer.error(ErrorKind::UnexpectedEof, lexer.eof_span()));
        },
    };
    proof {
        lemma_order(lexer.tokens@, lexer.pos - 1, lexer.pos - 1);
    }
    match token.kind {
        Kind::Value(Value::Ident(name)) => {
            if name.as_str().is_empty() {
                Err(lexer.error(ErrorKind::MalformedIdentifier, token.location))
            } else {
                Ok((Expression::Ident { name: name.clone(), location: token.location }, name))
            }
        },
        _ => Err(lexer.error(ErrorKind::MalformedIdentifier, token.location)),
    }
}

/// Consumes a literal token and returns its node, with the value and the
/// width that the token holds.
fn parse_primitive(lexer: &mut TokenStream) -> (r: Result<Expression, ParseError>)
    requires
        old(lexer).wf(),
    ensures
        agrees(
            *old(lexer),
            *final(lexer),
            old(lexer).pos as nat,
            r,
            primitive(old(lexer).input(), old(lexer).pos as nat),
        ),
        r matches Ok(e) ==> !(e@ is Var),
{
    let span = lexer.here();
    let token = match lexer.next()? {
        Some(t) => t,
        None => {
            return Err(lexer.error(ErrorKind::Internal, span));
        },
    };
    let location = token.location;
    proof {
        lemma_order(lexer.tokens@, lexer.pos - 1, lexer.pos - 1);
    }
    match token.kind {
        Kind::Value(Value::Primitive(p)) => Ok(
            match p {
                Primitive::Int { value, size } => Expression::IntLiteral { value, size, location },
                Primitive::UInt { value, size } => Expression::UintLiteral { value, size, location },
                Primitive::Float { bits, size } => Expression::FloatLiteral { bits, size, location },
                Primitive::Bool(value) => Expression::Bool { value, location },
            },
        ),
        _ => Err(lexer.error(ErrorKind::Internal, span)),
    }
}

/// Parses a value token: a literal or an identifier.
fn parse_value(lexer: &mut TokenStream) -> (r: Result<Expression, ParseError>)
    requires
        old(lexer).wf(),
    ensures
        agrees(
            *old(lexer),
            *final(lexer),
            old(lexer).pos as nat,
            r,
            value(old(lexer).input(), old(lexer).pos as nat),
        ),
        r matches Ok(e) ==> !(e@ is Var),
{
    match lexer.peek_class()? {
        Some(Class::Literal) => parse_primitive(lexer),
        Some(Class::Ident) => match parse_identifier(lexer) {
            Ok((e, _)) => Ok(e),
            Err(e) => Err(e),
        },
        _ => Err(lexer.error(ErrorKind::Internal, lexer.here())),
    }
}

/// Parses `'{' EXPR* '}'`.
fn parse_expr_block(lexer: &mut TokenStream) -> (r: Result<Expression, ParseError>)
    requires
        old(lexer).wf(),
    ensures
        agrees(
            *old(lexer),
            *final(lexer),
            old(lexer).pos as nat,
            r,
            block(old(lexer).input(), old(lexer).pos as nat),
        ),
        r matches Ok(e) ==> !(e@ is Var),
    decreases old(lexer).remaining(), 1nat,
{
    let ghost before = *lexer;
    let ghost inp = lexer.input();
    let ghost start = lexer.pos as nat;
    let mut expressions: Vec<Expression> = Vec::new();
    let block_start = lexer.expect(Class::Op(Operator::LeftBrace))?;
    proof {
        assert(models(expressions@) =~= Seq::empty());
    }
    loop
        invariant
            before == *old(lexer),
            before.wf(),
            lexer.wf(),
            lexer.same_input(&before),
            inp == before.input(),
            start == before.pos,
            start < lexer.pos,
            inp.expect(start, Class::Op(Operator::LeftBrace)) == Ok::<_, Fault>(block_start),
            all_span(inp, start, lexer.pos as nat, models(expressions@)),
            block_items(inp, start + 1, Seq::empty()) == block_items(
                inp,
                lexer.pos as nat,
                models(expressions@),
            ),
        ensures
            lexer.wf(),
            lexer.same_input(&before),
            start < lexer.pos,
            all_span(inp, start, lexer.pos as nat, models(expressions@)),
            block_items(inp, start + 1, Seq::empty()) == Ok::<_, Stop>(
                (models(expressions@), lexer.pos as nat),
            ),
        decreases lexer.remaining(),
    {
        match lexer.peek_class()? {
            Some(Class::Op(Operator::RightBrace)) | None => {
                break ;
            },
            Some(_) => {},
        }
        let ghost p = lexer.pos as nat;
        let expr = parse_expression(lexer)?;
        proof {
            lemma_models_push(expressions@, expr);
            lemma_all_span_push(inp, start, p, p, lexer.pos as nat, models(expressions@), expr@);
        }
        expressions.push(expr);
    }
    let ghost q = lexer.pos as nat;
    let block_end = lexer.expect(Class::Op(Operator::RightBrace))?;
    let location = Location::new(block_start.location.start, block_end.location.end);
    proof {
        lemma_all_span_widen(inp, start, q, q + 1, models(expressions@));
        lemma_order(inp.tokens, start as int, q as int);
        assert forall|i: int| 0 <= i < expressions.len() implies location.contains(
            (#[trigger] models(expressions@)[i]).location(),
        ) && models(expressions@)[i].well_formed() by {
            assert(spans(inp, start, q + 1, models(expressions@)[i]));
        }
    }
    Ok(Expression::Block { expressions, location })
}

/// Parses what stands behind a `=`: a block where the next token is an
/// opening brace, else an expression. At the end of input it fails with an
/// end-of-input diagnostic.
fn parse_assigned(lexer: &mut TokenStream) -> (r: Result<Expression, ParseError>)
    requires
        old(lexer).wf(),
    ensures
        agrees(
            *old(lexer),
            *final(lexer),
            old(lexer).pos as nat,
            r,
            assigned(old(lexer).input(), old(lexer).pos as nat),
        ),
    decreases old(lexer).remaining(), 7nat,
{
    match lexer.peek_class()? {
        Some(Class::Op(Operator::LeftBrace)) => parse_expr_block(lexer),
        Some(_) => parse_expression(lexer),
        None => Err(lexer.error(ErrorKind::UnexpectedEof, lexer.eof_span())),
    }
}

/// Parses an expression where one is required: at the end of input it
/// fails with an end-of-input diagnostic.
fn parse_operand(lexer: &mut TokenStream) -> (r: Result<Expression, ParseError>)
    requires
        old(lexer).wf(),
    ensures
        agrees(
            *old(lexer),
            *final(lexer),
            old(lexer).pos as nat,
            r,
            operand(old(lexer).input(), old(lexer).pos as nat),
        ),
    decreases old(lexer).remaining(), 7nat,
{
    match lexer.peek_class()? {
        Some(_) => parse_expression(lexer),
        None => Err(lexer.error(ErrorKind::UnexpectedEof, lexer.eof_span())),
    }
}

/// Parses `('var'|'const') IDENT (':' IDENT)? '=' (BLOCK | EXPR) ';'`.
fn parse_variable(lexer: &mut TokenStream) -> (r: Result<Expression, ParseError>)
    requires
        old(lexer).wf(),
    ensures
        agrees(
            *old(lexer),
            *final(lexer),
            old(lexer).pos as nat,
            r,
            variable(old(lexer).input(), old(lexer).pos as nat),
        ),
    decreases old(lexer).remaining(), 1nat,
{
    let ghost inp = lexer.input();
    let ghost start = lexer.pos as nat;
    let classes = vec![Class::Var, Class::Const];
    proof {
        assert(classes@ =~= seq![Class::Var, Class::Const]);
    }
    let keyword = lexer.expect_one_of(&classes)?;
    let mutable = matches!(keyword.kind, Kind::Var);
    let (_, name) = parse_identifier(lexer)?;
    let typ = match lexer.peek_class()? {
        Some(Class::Op(Operator::Colon)) => {
            lexer.next()?;
            let (typ, _) = parse_identifier(lexer)?;
            proof {
                lemma_spans_widen(inp, start + 3, start + 4, start, start + 4, typ@);
            }
            Some(Box::new(typ))
        },
        _ => None,
    };
    parse_initializer(lexer, Ghost(start), keyword.location.start, mutable, name, typ)
}

/// Parses the rest of the declaration that starts at `start`, from its `=`
/// on.
fn parse_initializer(
    lexer: &mut TokenStream,
    Ghost(start): Ghost<nat>,
    keyword_start: usize,
    mutable: bool,
    name: String,
    typ: Option<Box<Expression>>,
) -> (r: Result<Expression, ParseError>)
    requires
        old(lexer).wf(),
        start < old(lexer).pos,
        keyword_start == old(lexer).input().span_at(start).start,
        typ matches Some(t) ==> spans(old(lexer).input(), start, old(lexer).pos as nat, t@),
    ensures
        agrees(
            *old(lexer),
            *final(lexer),
            start,
            r,
            initializer(
                old(lexer).input(),
                start,
                old(lexer).pos as nat,
                mutable,
                name@,
                type_model(typ),
            ),
        ),
    decreases old(lexer).remaining(), 8nat,
{
    let ghost inp = lexer.input();
    let ghost at = lexer.pos as nat;
    lexer.expect(Class::Op(Operator::Equal))?;
    let value = parse_assigned(lexer)?;
    let ghost q = lexer.pos as nat;
    lexer.expect(Class::Op(Operator::SemiColon))?;
    let location = Location::new(keyword_start, value.location().end);
    proof {
        lemma_spans_widen(inp, at + 1, q, start, q + 1, value@);
        lemma_order(inp.tokens, at - 1, at + 1 as int);
        lemma_order(inp.tokens, start as int, at + 1 as int);
    }
    Ok(Expression::Var { mutable, typ, name, value: Box::new(value), location })
}

/// Parses `'if' EXPR BLOCK ('else' ('if' EXPR BLOCK | BLOCK))*`.
fn parse_if_expression(lexer: &mut TokenStream) -> (r: Result<Expression, ParseError>)
    requires
        old(lexer).wf(),
    ensures
        agrees(
            *old(lexer),
            *final(lexer),
            old(lexer).pos as nat,
            r,
            if_expression(old(lexer).input(), old(lexer).pos as nat),
        ),
        r matches Ok(e) ==> !(e@ is Var),
    decreases old(lexer).remaining(), 1nat,
{
    let ghost inp = lexer.input();
    let ghost start = lexer.pos as nat;
    let keyword = lexer.expect(Class::If)?;
    let condition = parse_operand(lexer)?;
    let ghost after_condition = lexer.pos as nat;
    let body = parse_expr_block(lexer)?;
    let ghost after_body = lexer.pos as nat;
    let falsy_branches = parse_else_branches(lexer)?;
    let end = if falsy_branches.len() > 0 {
        falsy_branches[falsy_branches.len() - 1].location().end
    } else {
        body.location().end
    };
    let location = Location::new(keyword.location.start, end);
    proof {
        let q = lexer.pos as nat;
        let falsy = models(falsy_branches@);
        lemma_spans_widen(inp, start + 1, after_condition, start, q, condition@);
        lemma_spans_widen(inp, after_condition, after_body, start, q, body@);
        lemma_order(inp.tokens, after_condition - 1, after_condition as int);
        if falsy.len() > 0 {
            assert(spans(inp, after_body, q, falsy.last()));
            lemma_order(inp.tokens, after_body - 1, after_body as int);
            assert forall|i: int| 0 <= i < falsy.len() implies location.contains(
                (#[trigger] falsy[i]).location(),
            ) && falsy[i].well_formed() by {
                assert(spans(inp, after_body, q, falsy[i]));
                lemma_order(inp.tokens, start as int, after_body as int);
            }
        }
    }
    Ok(
        Expression::If {
            condition: Box::new(condition),
            truthy: Box::new(body),
            falsy: falsy_branches,
            location,
        },
    )
}

/// Parses the `else` branches of a conditional: each `else if` is one
/// branch and the chain goes on; an `else` with a block is the last.
fn parse_else_branches(lexer: &mut TokenStream) -> (r: Result<Vec<Expression>, ParseError>)
    requires
        old(lexer).wf(),
    ensures
        final(lexer).wf(),
        final(lexer).same_input(old(lexer)),
        old(lexer).pos <= final(lexer).pos,
        match (r, else_branches(old(lexer).input(), old(lexer).pos as nat, Seq::empty())) {
            (Ok(v), Ok((m, q))) => models(v@) == m && final(lexer).pos == q && all_span(
                old(lexer).input(),
                old(lexer).pos as nat,
                q,
                m,
            ) && ends_last(m) && if m.len() > 0 {
                !(m.last() is Var) && closed(old(lexer).input(), q, m.last())
            } else {
                q == old(lexer).pos
            },
            (Err(e), Err(s)) => e.fault() == s.fault && final(lexer).pos == s.at && e.source == old(
                lexer,
            ).source,
            _ => false,
        },
    decreases old(lexer).remaining(), 0nat,
{
    let ghost before = *lexer;
    let ghost inp = lexer.input();
    let ghost start = lexer.pos as nat;
    let mut falsy_branches: Vec<Expression> = Vec::new();
    proof {
        assert(models(falsy_branches@) =~= Seq::empty());
    }
    loop
        invariant_except_break
            else_branches(inp, start, Seq::empty()) == else_branches(
                inp,
                lexer.pos as nat,
                models(falsy_branches@),
            ),
        invariant
            before == *old(lexer),
            before.wf(),
            lexer.wf(),
            lexer.same_input(&before),
            inp == before.input(),
            start == before.pos,
            start <= lexer.pos,
            all_span(inp, start, lexer.pos as nat, models(falsy_branches@)),
            ends_last(models(falsy_branches@)),
            falsy_branches.len() > 0 ==> !(models(falsy_branches@).last() is Var) && closed(
                inp,
                lexer.pos as nat,
                models(falsy_branches@).last(),
            ),
            falsy_branches.len() == 0 ==> lexer.pos == start,
        ensures
            lexer.wf(),
            lexer.same_input(&before),
            start <= lexer.pos,
            all_span(inp, start, lexer.pos as nat, models(falsy_branches@)),
            ends_last(models(falsy_branches@)),
            falsy_branches.len() > 0 ==> !(models(falsy_branches@).last() is Var) && closed(
                inp,
                lexer.pos as nat,
                models(falsy_branches@).last(),
            ),
            falsy_branches.len() == 0 ==> lexer.pos == start,
            else_branches(inp, start, Seq::empty()) == Ok::<_, Stop>(
                (models(falsy_branches@), lexer.pos as nat),
            ),
        decreases lexer.remaining(),
    {
        let ghost p = lexer.pos as nat;
        match lexer.peek_class()? {
            Some(Class::Else) => {},
            _ => {
                break ;
            },
        }
        lexer.next()?;
        let nested = match lexer.peek_class()? {
            Some(Class::If) => true,
            _ => false,
        };
        let branch = if nested {
            parse_if_expression(lexer)?
        } else {
            parse_expr_block(lexer)?
        };
        proof {
            lemma_models_push(falsy_branches@, branch);
            lemma_ends_last_push(inp, start, p, lexer.pos as nat, models(falsy_branches@), branch@);
            if falsy_branches.len() > 0 {
                assert(spans(inp, start, p, models(falsy_branches@)[0]));
                lemma_all_span_push(inp, start, p, p + 1, lexer.pos as nat, models(falsy_branches@), branch@);
            } else {
                lemma_spans_widen(inp, p + 1, lexer.pos as nat, start, lexer.pos as nat, branch@);
                assert(models(falsy_branches@).push(branch@)[0] == branch@);
            }
        }
        falsy_branches.push(branch);
        if !nested {
            break ;
        }
    }
    Ok(falsy_branches)
}

/// Parses a parenthesized group and returns the node inside it.
fn parse_operation(lexer: &mut TokenStream) -> (r: Result<Expression, ParseError>)
    requires
        old(lexer).wf(),
    ensures
        agrees(
            *old(lexer),
            *final(lexer),
            old(lexer).pos as nat,
            r,
            operation(old(lexer).input(), old(lexer).pos as nat),
        ),
        r matches Ok(e) ==> !(e@ is Var),
    decreases old(lexer).remaining(), 3nat,
{
    let ghost inp = lexer.input();
    let ghost start = lexer.pos as nat;
    match lexer.peek_class()? {
        Some(Class::Op(Operator::LeftParen)) => {
            lexer.next()?;
            let inner = parse_with_precedence(lexer, BASE)?;
            let ghost q = lexer.pos as nat;
            lexer.expect(Class::Op(Operator::RightParen))?;
            proof {
                lemma_spans_widen(inp, start + 1, q, start, q + 1, inner@);
            }
            Ok(inner)
        },
        Some(Class::Op(_)) => Err(lexer.error(ErrorKind::Unimplemented, lexer.here())),
        _ => Err(lexer.error(ErrorKind::Internal, lexer.here())),
    }
}

/// Parses the call of `ident` from its opening parenthesis on.
fn parse_fun_call(lexer: &mut TokenStream, ident: Expression, Ghost(from): Ghost<nat>) -> (r: Result<
    Expression,
    ParseError,
>)
    requires
        old(lexer).wf(),
        spans(old(lexer).input(), from, old(lexer).pos as nat, ident@),
        anchored(old(lexer).input(), from, ident@),
    ensures
        agrees(
            *old(lexer),
            *final(lexer),
            from,
            r,
            fun_call(old(lexer).input(), old(lexer).pos as nat, ident@),
        ),
        r matches Ok(e) ==> !(e@ is Var),
    decreases old(lexer).remaining(), 1nat,
{
    let ghost before = *lexer;
    let ghost inp = lexer.input();
    let ghost start = lexer.pos as nat;
    let open = lexer.expect(Class::Op(Operator::LeftParen))?;
    let mut arguments: Vec<Expression> = Vec::new();
    proof {
        assert(models(arguments@) =~= Seq::empty());
    }
    loop
        invariant
            before == *old(lexer),
            before.wf(),
            lexer.wf(),
            lexer.same_input(&before),
            inp == before.input(),
            start == before.pos,
            start < lexer.pos,
            inp.expect(start, Class::Op(Operator::LeftParen)) == Ok::<_, Fault>(open),
            all_span(inp, start, lexer.pos as nat, models(arguments@)),
            crate::grammar::arguments(inp, start + 1, Seq::empty()) == crate::grammar::arguments(
                inp,
                lexer.pos as nat,
                models(arguments@),
            ),
        ensures
            lexer.wf(),
            lexer.same_input(&before),
            start < lexer.pos,
            all_span(inp, start, lexer.pos as nat, models(arguments@)),
            crate::grammar::arguments(inp, start + 1, Seq::empty()) == Ok::<_, Stop>(
                (models(arguments@), lexer.pos as nat),
            ),
        decreases lexer.remaining(),
    {
        let ghost p = lexer.pos as nat;
        match lexer.peek_class()? {
            Some(Class::Op(Operator::RightParen)) | None => {
                break ;
            },
            Some(Class::Op(Operator::Comma)) => {
                lexer.next()?;
                proof {
                    lemma_all_span_widen(inp, start, p, p + 1, models(arguments@));
                }
            },
            Some(_) => {
                let arg = parse_expression(lexer)?;
                proof {
                    lemma_models_push(arguments@, arg);
                    lemma_all_span_push(inp, start, p, p, lexer.pos as nat, models(arguments@), arg@);
                }
                arguments.push(arg);
            },
        }
    }
    let ghost q = lexer.pos as nat;
    let close_paren = lexer.expect(Class::Op(Operator::RightParen))?;
    let location = Location::new(ident.location().start, close_paren.location.end);
    proof {
        lemma_all_span_widen(inp, start, q, q + 1, models(arguments@));
        lemma_spans_widen(inp, from, start, from, q + 1, ident@);
        lemma_order(inp.tokens, start - 1, start as int);
        lemma_order(inp.tokens, start as int, q as int);
        assert(ident@.location().valid());
        assert forall|i: int| 0 <= i < arguments.len() implies location.contains(
            (#[trigger] models(arguments@)[i]).location(),
        ) && models(arguments@)[i].well_formed() by {
            assert(spans(inp, start, q + 1, models(arguments@)[i]));
        }
    }
    Ok(Expression::FunCall { ident: Box::new(ident), arguments, location })
}

/// Parses the assignment to `left` from its `=` on.
fn parse_assign(lexer: &mut TokenStream, left: Expression, Ghost(from): Ghost<nat>) -> (r: Result<
    Expression,
    ParseError,
>)
    requires
        old(lexer).wf(),
        spans(old(lexer).input(), from, old(lexer).pos as nat, left@),
        anchored(old(lexer).input(), from, left@),
    ensures
        agrees(
            *old(lexer),
            *final(lexer),
            from,
            r,
            assign(old(lexer).input(), old(lexer).pos as nat, left@),
        ),
        r matches Ok(e) ==> !(e@ is Var),
    decreases old(lexer).remaining(), 1nat,
{
    let ghost inp = lexer.input();
    let ghost start = lexer.pos as nat;
    lexer.expect(Class::Op(Operator::Equal))?;
    let value = parse_assigned(lexer)?;
    let ghost q = lexer.pos as nat;
    let closing = lexer.expect(Class::Op(Operator::SemiColon))?;
    let location = Location::new(left.location().start, closing.location.end);
    proof {
        lemma_spans_widen(inp, start + 1, q, from, q + 1, value@);
        lemma_spans_widen(inp, from, start, from, q + 1, left@);
        lemma_order(inp.tokens, start - 1, start + 1 as int);
        lemma_order(inp.tokens, start as int, q as int);
        assert(left@.location().valid());
    }
    Ok(Expression::Assign { ident: Box::new(left), value: Box::new(value), location })
}

/// Parses `'return' EXPR ';'`.
fn parse_return_expression(lexer: &mut TokenStream) -> (r: Result<Expression, ParseError>)
    requires
        old(lexer).wf(),
    ensures
        agrees(
            *old(lexer),
            *final(lexer),
            old(lexer).pos as nat,
            r,
            return_expression(old(lexer).input(), old(lexer).pos as nat),
        ),
        r matches Ok(e) ==> !(e@ is Var),
    decreases old(lexer).remaining(), 1nat,
{
    let ghost inp = lexer.input();
    let ghost start = lexer.pos as nat;
    let keyword = lexer.expect(Class::Return)?;
    let value = parse_operand(lexer)?;
    let ghost q = lexer.pos as nat;
    let ending_semi = lexer.expect(Class::Op(Operator::SemiColon))?;
    let location = Location::new(keyword.location.start, ending_semi.location.end);
    proof {
        lemma_spans_widen(inp, start + 1, q, start, q + 1, value@);
        lemma_order(inp.tokens, start as int, q as int);
    }
    Ok(Expression::Return { value: Box::new(value), location })
}

/// Parses a primary expression, chosen by the next token.
fn parse_primary(lexer: &mut TokenStream) -> (r: Result<Expression, ParseError>)
    requires
        old(lexer).wf(),
    ensures
        agrees(
            *old(lexer),
            *final(lexer),
            old(lexer).pos as nat,
            r,
            primary(old(lexer).input(), old(lexer).pos as nat),
        ),
        r matches Ok(e) ==> !(e@ is Var),
    decreases old(lexer).remaining(), 4nat,
{
    match lexer.peek_class()? {
        None => Err(lexer.error(ErrorKind::UnexpectedEof, lexer.eof_span())),
        Some(Class::Ident) | Some(Class::Literal) => parse_value(lexer),
        Some(Class::Op(_)) => parse_operation(lexer),
        Some(Class::Return) => parse_return_expression(lexer),
        Some(Class::If) => parse_if_expression(lexer),
        Some(_) => Err(lexer.error(ErrorKind::Unimplemented, lexer.here())),
    }
}

/// Precedence climbing: parses a primary; behind an identifier a call or an
/// assignment, if `(` or `=` follows; else every binary operator that binds
/// more strongly than `min_precedence`, each with a right operand parsed at
/// the operator's own strength.
fn parse_with_precedence(lexer: &mut TokenStream, min_precedence: u8) -> (r: Result<
    Expression,
    ParseError,
>)
    requires
        old(lexer).wf(),
    ensures
        agrees(
            *old(lexer),
            *final(lexer),
            old(lexer).pos as nat,
            r,
            with_precedence(old(lexer).input(), old(lexer).pos as nat, min_precedence),
        ),
        r matches Ok(e) ==> !(e@ is Var),
    decreases old(lexer).remaining(), 5nat,
{
    let ghost before = *lexer;
    let ghost inp = lexer.input();
    let ghost start = lexer.pos as nat;
    let mut left = parse_primary(lexer)?;
    if matches!(left, Expression::Ident { .. }) {
        match lexer.peek_class()? {
            Some(Class::Op(Operator::LeftParen)) => {
                return parse_fun_call(lexer, left, Ghost(start));
            },
            Some(Class::Op(Operator::Equal)) => {
                return parse_assign(lexer, left, Ghost(start));
            },
            _ => {},
        }
    }
    loop
        invariant
            before == *old(lexer),
            before.wf(),
            lexer.wf(),
            lexer.same_input(&before),
            inp == before.input(),
            start == before.pos,
            start < lexer.pos,
            spans(inp, start, lexer.pos as nat, left@),
            anchored(inp, start, left@),
            closed(inp, lexer.pos as nat, left@),
            !(left@ is Var),
            with_precedence(inp, start, min_precedence) == operators(
                inp,
                lexer.pos as nat,
                left@,
                min_precedence,
            ),
        decreases lexer.remaining(),
    {
        let ghost p = lexer.pos as nat;
        let operator = match lexer.peek()? {
            None => {
                return Ok(left);
            },
            Some(next) => {
                let operator = match next.kind {
                    Kind::Op(operator) => operator,
                    _ => {
                        return Ok(left);
                    },
                };
                if !next.kind.is_binary_op() {
                    return Ok(left);
                }
                operator
            },
        };
        let precedence = get_precedence(operator);
        if precedence <= min_precedence {
            return Ok(left);
        }
        lexer.next()?;
        let right = parse_with_precedence(lexer, precedence)?;
        let location = Location::new(left.location().start, right.location().end);
        proof {
            lemma_spans_widen(inp, start, p, start, lexer.pos as nat, left@);
            lemma_spans_widen(inp, p + 1, lexer.pos as nat, start, lexer.pos as nat, right@);
            lemma_order(inp.tokens, p - 1, p + 1 as int);
        }
        left = Expression::BinaryOp { lhs: Box::new(left), operator, rhs: Box::new(right), location };
    }
}

} // verus!
