use rmb_parser::ast::Expression;
use rmb_parser::error::{ErrorKind, ParseError};
use rmb_parser::expression::{get_precedence, parse_expression, parse_identifier};
use rmb_parser::token::{Class, Kind, Lexeme, Location, Operator, Primitive, Token, TokenStream, Value};

fn operator_at(bytes: &[u8], i: usize) -> Option<(Operator, usize)> {
    let two = if i + 1 < bytes.len() { Some((bytes[i], bytes[i + 1])) } else { None };
    match two {
        Some((b'=', b'=')) => return Some((Operator::EqualEqual, 2)),
        Some((b'!', b'=')) => return Some((Operator::NotEqual, 2)),
        Some((b'&', b'&')) => return Some((Operator::And, 2)),
        Some((b'|', b'|')) => return Some((Operator::Or, 2)),
        _ => {}
    }
    let op = match bytes[i] {
        b'+' => Operator::Plus,
        b'-' => Operator::Minus,
        b'*' => Operator::Star,
        b'/' => Operator::Slash,
        b'!' => Operator::Not,
        b'<' => Operator::Less,
        b'>' => Operator::Greater,
        b'=' => Operator::Equal,
        b'(' => Operator::LeftParen,
        b')' => Operator::RightParen,
        b'{' => Operator::LeftBrace,
        b'}' => Operator::RightBrace,
        b':' => Operator::Colon,
        b';' => Operator::SemiColon,
        b',' => Operator::Comma,
        _ => return None,
    };
    Some((op, 1))
}

fn lex(source: &str) -> Vec<Lexeme> {
    let bytes = source.as_bytes();
    let mut out = Vec::new();
    let mut i = 0;
    while i < bytes.len() {
        let c = bytes[i];
        if c.is_ascii_whitespace() {
            i += 1;
            continue;
        }
        let start = i;
        if c.is_ascii_alphabetic() || c == b'_' {
            while i < bytes.len() && (bytes[i].is_ascii_alphanumeric() || bytes[i] == b'_') {
                i += 1;
            }
            let word = &source[start..i];
            let kind = match word {
                "var" => Kind::Var,
                "const" => Kind::Const,
                "if" => Kind::If,
                "else" => Kind::Else,
                "return" => Kind::Return,
                "true" => Kind::Value(Value::Primitive(Primitive::Bool(true))),
                "false" => Kind::Value(Value::Primitive(Primitive::Bool(false))),
                _ => Kind::Value(Value::Ident(word.to_string())),
            };
            out.push(Lexeme::Token(Token { kind, location: Location { start, end: i } }));
        } else if c.is_ascii_digit() {
            while i < bytes.len() && bytes[i].is_ascii_digit() {
                i += 1;
            }
            let value: i64 = source[start..i].parse().unwrap();
            let kind = Kind::Value(Value::Primitive(Primitive::Int { value, size: 32 }));
            out.push(Lexeme::Token(Token { kind, location: Location { start, end: i } }));
        } else if let Some((op, len)) = operator_at(bytes, i) {
            i += len;
            out.push(Lexeme::Token(Token { kind: Kind::Op(op), location: Location { start, end: i } }));
        } else {
            i += 1;
            out.push(Lexeme::Malformed(Location { start, end: i }));
        }
    }
    out
}

fn stream(source: &str) -> TokenStream {
    TokenStream::new(source.to_string(), lex(source)).unwrap()
}

fn parse(source: &str) -> Result<Expression, ParseError> {
    let mut lexer = stream(source);
    assert!(lexer.pos < lexer.tokens.len());
    parse_expression(&mut lexer)
}

fn parsed(source: &str) -> Expression {
    match parse(source) {
        Ok(expr) => expr,
        Err(e) => panic!("{e:?}"),
    }
}

/// The range of the `nth` occurrence (from 0) of `needle` in `source`.
fn at(source: &str, needle: &str, nth: usize) -> Location {
    let (start, _) = source.match_indices(needle).nth(nth).unwrap();
    Location { start, end: start + needle.len() }
}

fn join(a: Location, b: Location) -> Location {
    Location { start: a.start, end: b.end }
}

fn lit(value: i64, location: Location) -> Expression {
    Expression::IntLiteral { value, size: 32, location }
}

fn ident(name: &str, location: Location) -> Expression {
    Expression::Ident { name: name.to_string(), location }
}

fn binary(lhs: Expression, operator: Operator, rhs: Expression) -> Expression {
    let location = join(lhs.location(), rhs.location());
    Expression::BinaryOp { lhs: Box::new(lhs), operator, rhs: Box::new(rhs), location }
}

fn constant(name: &str, value: Expression, start: usize) -> Expression {
    let location = Location { start, end: value.location().end };
    Expression::Var { mutable: false, typ: None, name: name.to_string(), value: Box::new(value), location }
}

fn well_formed(e: &Expression) -> bool {
    let l = e.location();
    let holds = |c: &Expression| {
        let k = c.location();
        l.start <= k.start && k.end <= l.end && well_formed(c)
    };
    l.start <= l.end
        && match e {
            Expression::Block { expressions, .. } => expressions.iter().all(holds),
            Expression::Var { typ, value, .. } => holds(value) && typ.iter().all(|t| holds(t)),
            Expression::Assign { ident, value, .. } => holds(ident) && holds(value),
            Expression::If { condition, truthy, falsy, .. } => {
                holds(condition) && holds(truthy) && falsy.iter().all(holds)
            }
            Expression::BinaryOp { lhs, rhs, .. } => holds(lhs) && holds(rhs),
            Expression::FunCall { ident, arguments, .. } => holds(ident) && arguments.iter().all(holds),
            Expression::Return { value, .. } => holds(value),
            _ => true,
        }
}

#[test]
fn simple_math() {
    let simple_math_expr = "1 + 2 * 3 - 4";

    let math_expr_ast = parsed(simple_math_expr);

    let one = lit(1, Location { start: 0, end: 1 });
    let two = lit(2, Location { start: 4, end: 5 });
    let three = lit(3, Location { start: 8, end: 9 });
    let four = lit(4, Location { start: 12, end: 13 });
    let expected =
        binary(binary(one, Operator::Plus, binary(two, Operator::Star, three)), Operator::Minus, four);
    assert_eq!(math_expr_ast, expected);
    assert_eq!(math_expr_ast.location(), Location { start: 0, end: 13 });
}

#[test]
fn mutable_variable() {
    let variables = "var hello = 1 + 2 * 3;";

    let variables_ast = parsed(variables);

    let value = binary(
        lit(1, at(variables, "1", 0)),
        Operator::Plus,
        binary(lit(2, at(variables, "2", 0)), Operator::Star, lit(3, at(variables, "3", 0))),
    );
    let expected = Expression::Var {
        mutable: true,
        typ: None,
        name: "hello".to_string(),
        value: Box::new(value),
        location: Location { start: 0, end: 21 },
    };
    assert_eq!(variables_ast, expected);
}

#[test]
fn immutable_constant() {
    let variables = "const hello = 1 + 2 * 3;";

    let variables_ast = parsed(variables);

    let value = binary(
        lit(1, at(variables, "1", 0)),
        Operator::Plus,
        binary(lit(2, at(variables, "2", 0)), Operator::Star, lit(3, at(variables, "3", 0))),
    );
    let expected = Expression::Var {
        mutable: false,
        typ: None,
        name: "hello".to_string(),
        value: Box::new(value),
        location: Location { start: 0, end: 23 },
    };
    assert_eq!(variables_ast, expected);
}

#[test]
fn if_statement() {
    let source = r#"
            if something == another_thing && 1 != 2 {
                const this_is_a_var = 10 + 3;
            } else if something == 10 {
                const this_is_another = 10 + 10;
            } else {
                const omg = 1 + 1;
            }
        "#;

    let if_ast = parsed(source);

    let condition = binary(
        binary(
            ident("something", at(source, "something", 0)),
            Operator::EqualEqual,
            ident("another_thing", at(source, "another_thing", 0)),
        ),
        Operator::And,
        binary(lit(1, at(source, "1 !=", 0).start_only()), Operator::NotEqual, lit(2, at(source, "2 {", 0).start_only())),
    );
    let first = constant(
        "this_is_a_var",
        binary(lit(10, at(source, "10 + 3", 0).first(2)), Operator::Plus, lit(3, at(source, "3;", 0).start_only())),
        at(source, "const", 0).start,
    );
    let truthy = Expression::Block {
        expressions: vec![first],
        location: join(at(source, "{", 0), at(source, "}", 0)),
    };
    let second = constant(
        "this_is_another",
        binary(
            lit(10, at(source, "10 + 10", 0).first(2)),
            Operator::Plus,
            lit(10, at(source, "10;", 0).first(2)),
        ),
        at(source, "const", 1).start,
    );
    let third = constant(
        "omg",
        binary(lit(1, at(source, "1 + 1", 0).start_only()), Operator::Plus, lit(1, at(source, "1;", 0).start_only())),
        at(source, "const", 2).start,
    );
    let last = Expression::Block {
        expressions: vec![third],
        location: join(at(source, "{", 2), at(source, "}", 2)),
    };
    let nested = Expression::If {
        condition: Box::new(binary(
            ident("something", at(source, "something", 1)),
            Operator::EqualEqual,
            lit(10, at(source, "10 {", 0).first(2)),
        )),
        truthy: Box::new(Expression::Block {
            expressions: vec![second],
            location: join(at(source, "{", 1), at(source, "}", 1)),
        }),
        falsy: vec![last],
        location: join(at(source, "if", 1), at(source, "}", 2)),
    };
    let expected = Expression::If {
        condition: Box::new(condition),
        truthy: Box::new(truthy),
        falsy: vec![nested],
        location: join(at(source, "if", 0), at(source, "}", 2)),
    };
    assert_eq!(if_ast, expected);
    assert!(well_formed(&if_ast));
}

trait Narrow {
    fn start_only(self) -> Location;
    fn first(self, n: usize) -> Location;
}

impl Narrow for Location {
    fn start_only(self) -> Location {
        self.first(1)
    }

    fn first(self, n: usize) -> Location {
        Location { start: self.start, end: self.start + n }
    }
}

#[test]
fn if_as_variable_value() {
    let source = r#"
            const my_var = if something == another_thing {
                return 10 + 10;
            } else {
                return 20 + 20;
            };
        "#;

    let let_if_ast = parsed(source);

    let first_return = Expression::Return {
        value: Box::new(binary(
            lit(10, at(source, "10", 0)),
            Operator::Plus,
            lit(10, at(source, "10", 1)),
        )),
        location: join(at(source, "return", 0), at(source, ";", 0)),
    };
    let second_return = Expression::Return {
        value: Box::new(binary(
            lit(20, at(source, "20", 0)),
            Operator::Plus,
            lit(20, at(source, "20", 1)),
        )),
        location: join(at(source, "return", 1), at(source, ";", 1)),
    };
    let conditional = Expression::If {
        condition: Box::new(binary(
            ident("something", at(source, "something", 0)),
            Operator::EqualEqual,
            ident("another_thing", at(source, "another_thing", 0)),
        )),
        truthy: Box::new(Expression::Block {
            expressions: vec![first_return],
            location: join(at(source, "{", 0), at(source, "}", 0)),
        }),
        falsy: vec![Expression::Block {
            expressions: vec![second_return],
            location: join(at(source, "{", 1), at(source, "}", 1)),
        }],
        location: join(at(source, "if", 0), at(source, "}", 1)),
    };
    let expected = constant("my_var", conditional, at(source, "const", 0).start);
    assert_eq!(let_if_ast, expected);
    assert!(well_formed(&let_if_ast));
}

#[test]
fn multiplication_binds_tighter_than_addition() {
    let source = "1 + 2 * 3";
    let expected = binary(
        lit(1, at(source, "1", 0)),
        Operator::Plus,
        binary(lit(2, at(source, "2", 0)), Operator::Star, lit(3, at(source, "3", 0))),
    );
    assert_eq!(parsed(source), expected);

    let source = "1 * 2 + 3";
    let expected = binary(
        binary(lit(1, at(source, "1", 0)), Operator::Star, lit(2, at(source, "2", 0))),
        Operator::Plus,
        lit(3, at(source, "3", 0)),
    );
    assert_eq!(parsed(source), expected);

    let source = "8 / 2 - 3";
    let expected = binary(
        binary(lit(8, at(source, "8", 0)), Operator::Slash, lit(2, at(source, "2", 0))),
        Operator::Minus,
        lit(3, at(source, "3", 0)),
    );
    assert_eq!(parsed(source), expected);
}

#[test]
fn equal_strength_grouping() {
    // An operator of the same strength as the one just taken ends the right
    // operand, so the left side accumulates.
    let source = "1 - 2 - 3";
    let expected = binary(
        binary(lit(1, at(source, "1", 0)), Operator::Minus, lit(2, at(source, "2", 0))),
        Operator::Minus,
        lit(3, at(source, "3", 0)),
    );
    assert_eq!(parsed(source), expected);
}

#[test]
fn precedence_table() {
    assert_eq!(get_precedence(Operator::Plus), 3);
    assert_eq!(get_precedence(Operator::Minus), 3);
    assert_eq!(get_precedence(Operator::Star), 4);
    assert_eq!(get_precedence(Operator::Slash), 4);
    assert_eq!(get_precedence(Operator::And), 5);
    assert_eq!(get_precedence(Operator::EqualEqual), 6);
    assert_eq!(get_precedence(Operator::NotEqual), 6);
    assert_eq!(get_precedence(Operator::LeftParen), 6);
    assert_eq!(get_precedence(Operator::Or), 0);
    assert_eq!(get_precedence(Operator::Comma), 0);
    assert!(get_precedence(Operator::Plus) < get_precedence(Operator::Star));
    assert!(get_precedence(Operator::Star) < get_precedence(Operator::And));
    assert!(get_precedence(Operator::And) < get_precedence(Operator::EqualEqual));
}

#[test]
fn declaration_mutability_and_semicolon() {
    match parsed("var x = 1;") {
        Expression::Var { mutable, name, typ, location, .. } => {
            assert!(mutable);
            assert_eq!(name, "x");
            assert!(typ.is_none());
            assert_eq!(location, Location { start: 0, end: 9 });
        }
        other => panic!("{other:?}"),
    }
    match parsed("const x = 1;") {
        Expression::Var { mutable, .. } => assert!(!mutable),
        other => panic!("{other:?}"),
    }
    let missing = parse("var x = 1").unwrap_err();
    assert_eq!(missing.kind, ErrorKind::UnexpectedEof);
    assert_eq!(missing.span, Location { start: 8, end: 9 });
    let wrong = parse("const x = 1 }").unwrap_err();
    assert_eq!(wrong.kind, ErrorKind::UnexpectedToken);
    assert_eq!(wrong.span, Location { start: 12, end: 13 });
}

#[test]
fn declaration_with_type_and_block() {
    let source = "var total: u32 = { 1 };";
    match parsed(source) {
        Expression::Var { mutable, typ, name, value, location } => {
            assert!(mutable);
            assert_eq!(name, "total");
            assert_eq!(typ, Some(Box::new(ident("u32", at(source, "u32", 0)))));
            assert_eq!(
                *value,
                Expression::Block {
                    expressions: vec![lit(1, at(source, "1", 0))],
                    location: join(at(source, "{", 0), at(source, "}", 0)),
                }
            );
            assert_eq!(location, join(at(source, "var", 0), at(source, "}", 0)));
        }
        other => panic!("{other:?}"),
    }
}

#[test]
fn if_without_else_has_no_falsy_branch() {
    let source = "if a {}";
    match parsed(source) {
        Expression::If { falsy, truthy, location, .. } => {
            assert!(falsy.is_empty());
            assert_eq!(*truthy, Expression::Block { expressions: vec![], location: Location { start: 5, end: 7 } });
            assert_eq!(location, Location { start: 0, end: 7 });
        }
        other => panic!("{other:?}"),
    }
}

#[test]
fn else_if_chain() {
    // The `else if` is parsed by the rule for `if` itself, which takes the
    // `else` that follows as its own branch.
    let source = "if a {} else if b {} else {}";
    match parsed(source) {
        Expression::If { falsy, location, .. } => {
            assert_eq!(location, Location { start: 0, end: source.len() });
            assert_eq!(falsy.len(), 1);
            match &falsy[0] {
                Expression::If { falsy: inner, location, .. } => {
                    assert_eq!(*location, Location { start: 13, end: source.len() });
                    assert_eq!(inner.len(), 1);
                    assert!(matches!(inner[0], Expression::Block { .. }));
                }
                other => panic!("{other:?}"),
            }
        }
        other => panic!("{other:?}"),
    }
}

#[test]
fn call_with_trailing_comma() {
    let source = "f(1, 2,)";
    let expected = Expression::FunCall {
        ident: Box::new(ident("f", at(source, "f", 0))),
        arguments: vec![lit(1, at(source, "1", 0)), lit(2, at(source, "2", 0))],
        location: Location { start: 0, end: 8 },
    };
    assert_eq!(parsed(source), expected);
    assert_eq!(parsed("f(1, 2)"), Expression::FunCall {
        ident: Box::new(ident("f", Location { start: 0, end: 1 })),
        arguments: vec![lit(1, Location { start: 2, end: 3 }), lit(2, Location { start: 5, end: 6 })],
        location: Location { start: 0, end: 7 },
    });
}

#[test]
fn call_without_arguments_and_unclosed_call() {
    assert_eq!(parsed("f()"), Expression::FunCall {
        ident: Box::new(ident("f", Location { start: 0, end: 1 })),
        arguments: vec![],
        location: Location { start: 0, end: 3 },
    });
    let e = parse("f(1").unwrap_err();
    assert_eq!(e.kind, ErrorKind::UnexpectedEof);
    assert_eq!(e.span, Location { start: 2, end: 3 });
    assert_eq!(e.source, "f(1");
}

#[test]
fn assignment() {
    let source = "x = 1 + 2;";
    let expected = Expression::Assign {
        ident: Box::new(ident("x", at(source, "x", 0))),
        value: Box::new(binary(lit(1, at(source, "1", 0)), Operator::Plus, lit(2, at(source, "2", 0)))),
        location: Location { start: 0, end: 10 },
    };
    assert_eq!(parsed(source), expected);
    assert_eq!(parse("x = 1").unwrap_err().kind, ErrorKind::UnexpectedEof);
    assert_eq!(parse("x =").unwrap_err().kind, ErrorKind::UnexpectedEof);
}

#[test]
fn return_expression() {
    let source = "return a;";
    let expected = Expression::Return {
        value: Box::new(ident("a", at(source, "a", 0))),
        location: Location { start: 0, end: 9 },
    };
    assert_eq!(parsed(source), expected);
}

#[test]
fn parenthesized_group() {
    let source = "(1 + 2) * 3";
    let expected = Expression::BinaryOp {
        lhs: Box::new(binary(lit(1, at(source, "1", 0)), Operator::Plus, lit(2, at(source, "2", 0)))),
        operator: Operator::Star,
        rhs: Box::new(lit(3, at(source, "3", 0))),
        location: Location { start: 1, end: 11 },
    };
    assert_eq!(parsed(source), expected);
    assert_eq!(parse("(1 + 2").unwrap_err().kind, ErrorKind::UnexpectedEof);
    assert_eq!(parse("(1 + 2 }").unwrap_err().kind, ErrorKind::UnexpectedToken);
}

#[test]
fn literals() {
    assert_eq!(parsed("true"), Expression::Bool { value: true, location: Location { start: 0, end: 4 } });
    let tokens = vec![
        Lexeme::Token(Token {
            kind: Kind::Value(Value::Primitive(Primitive::UInt { value: 7, size: 8 })),
            location: Location { start: 0, end: 3 },
        }),
        Lexeme::Token(Token { kind: Kind::Op(Operator::Plus), location: Location { start: 4, end: 5 } }),
        Lexeme::Token(Token {
            kind: Kind::Value(Value::Primitive(Primitive::Float { bits: 1.5f64.to_bits(), size: 64 })),
            location: Location { start: 6, end: 9 },
        }),
    ];
    let mut lexer = TokenStream::new("7u8 + 1.5".to_string(), tokens).unwrap();
    let expected = binary(
        Expression::UintLiteral { value: 7, size: 8, location: Location { start: 0, end: 3 } },
        Operator::Plus,
        Expression::FloatLiteral { bits: 1.5f64.to_bits(), size: 64, location: Location { start: 6, end: 9 } },
    );
    assert_eq!(parse_expression(&mut lexer), Ok(expected));
    assert_eq!(lexer.pos, 3);
}

#[test]
fn end_of_input_after_operator() {
    let e = parse("1 +").unwrap_err();
    assert_eq!(e.kind, ErrorKind::UnexpectedEof);
    assert_eq!(e.span, Location { start: 2, end: 3 });
    assert_eq!(e.source, "1 +");
    assert_eq!(e.message(), "unexpected end of file");
    assert_eq!(e.label(), "at this location");
}

#[test]
fn cursor_after_failure() {
    let mut lexer = stream("1 + (2 * ;");
    let e = parse_expression(&mut lexer).unwrap_err();
    assert_eq!(e.kind, ErrorKind::Unimplemented);
    assert_eq!(e.span, Location { start: 9, end: 10 });
    assert_eq!(lexer.pos, 5);
    assert_eq!(lexer.tokens, lex("1 + (2 * ;"));
    assert_eq!(lexer.source, "1 + (2 * ;");

    let mut lexer = stream("var x = 1 }");
    let e = parse_expression(&mut lexer).unwrap_err();
    assert_eq!(e.kind, ErrorKind::UnexpectedToken);
    assert_eq!(lexer.pos, 4);

    let mut lexer = stream("if a { 1 ");
    let e = parse_expression(&mut lexer).unwrap_err();
    assert_eq!(e.kind, ErrorKind::UnexpectedEof);
    assert_eq!(lexer.pos, 4);
}

#[test]
fn end_of_input_where_an_expression_is_required() {
    for (source, tokens) in [("var x =", 3), ("x =", 2), ("return", 1), ("if", 1), ("const y: t =", 5)] {
        let mut lexer = stream(source);
        let e = parse_expression(&mut lexer).unwrap_err();
        assert_eq!(e.kind, ErrorKind::UnexpectedEof, "{source}");
        assert_eq!(e.span, Location { start: source.len() - 1, end: source.len() }, "{source}");
        assert_eq!(e.message(), "unexpected end of file");
        assert_eq!(e.source, source);
        assert_eq!(lexer.pos, tokens);
    }
    let e = parse("var x =").unwrap_err();
    assert_eq!(e.span, Location { start: 6, end: 7 });
}

fn leaves(e: &Expression, out: &mut Vec<i64>) {
    match e {
        Expression::BinaryOp { lhs, rhs, .. } => {
            leaves(lhs, out);
            leaves(rhs, out);
        }
        Expression::IntLiteral { value, .. } => out.push(*value),
        other => panic!("{other:?}"),
    }
}

fn product_holds_sum(e: &Expression) -> bool {
    let sum = |c: &Expression| {
        matches!(c, Expression::BinaryOp { operator: Operator::Plus | Operator::Minus, .. })
    };
    match e {
        Expression::BinaryOp { lhs, operator, rhs, .. } => {
            (matches!(operator, Operator::Star | Operator::Slash) && (sum(lhs) || sum(rhs)))
                || product_holds_sum(lhs)
                || product_holds_sum(rhs)
        }
        _ => false,
    }
}

#[test]
fn literals_keep_their_order() {
    for (source, expected) in [
        ("1 + 2 * 3 - 4", vec![1, 2, 3, 4]),
        ("9 * 8 / 7 + 6 - 5 * 4", vec![9, 8, 7, 6, 5, 4]),
        ("3", vec![3]),
        ("1 - 2 - 3 * 4 * 5 + 6", vec![1, 2, 3, 4, 5, 6]),
    ] {
        let tree = parsed(source);
        let mut found = Vec::new();
        leaves(&tree, &mut found);
        assert_eq!(found, expected, "{source}");
        assert!(!product_holds_sum(&tree), "{source}");
    }
}

#[test]
fn no_internal_failure() {
    for source in ["var", "var x", "x =", "(", "f(", "if a", "if a {} else", "return 1", "1 +", "{", ";", "1 + )"] {
        let e = parse(source).unwrap_err();
        assert_ne!(e.kind, ErrorKind::Internal, "{source}");
    }
}

#[test]
fn declaration_exactly_behind_its_keyword() {
    assert!(matches!(parsed("var x = 1;"), Expression::Var { .. }));
    assert!(matches!(parsed("const x = 1;"), Expression::Var { .. }));
    for source in ["x = 1;", "1 + 2", "(a)", "if a {}", "return a;", "f()"] {
        assert!(!matches!(parsed(source), Expression::Var { .. }), "{source}");
    }
}

#[test]
fn token_stream_rejects_tokens_behind_the_source() {
    let token = |start: usize, end: usize| {
        Lexeme::Token(Token { kind: Kind::Op(Operator::Plus), location: Location { start, end } })
    };
    assert!(TokenStream::new("+".to_string(), vec![token(0, 1)]).is_some());
    assert!(TokenStream::new("+".to_string(), vec![token(0, 2)]).is_none());
    assert!(TokenStream::new("++".to_string(), vec![token(0, 1), token(2, 3)]).is_none());
    assert!(TokenStream::new(String::new(), vec![token(0, 1)]).is_none());
    assert!(TokenStream::new(String::new(), vec![Lexeme::Malformed(Location { start: 0, end: 0 })]).is_some());
    // The length counts bytes, not characters.
    assert!(TokenStream::new("é".to_string(), vec![token(0, 2)]).is_some());
}

#[test]
fn unimplemented_constructs() {
    let e = parse("- 1").unwrap_err();
    assert_eq!(e.kind, ErrorKind::Unimplemented);
    assert_eq!(e.span, Location { start: 0, end: 1 });
    let e = parse("1 + var").unwrap_err();
    assert_eq!(e.kind, ErrorKind::Unimplemented);
    assert_eq!(e.span, Location { start: 4, end: 7 });
    assert_eq!(parse("else").unwrap_err().kind, ErrorKind::Unimplemented);
}

#[test]
fn lexical_failure_passes_through() {
    let e = parse("1 + #").unwrap_err();
    assert_eq!(e.kind, ErrorKind::Lexical);
    assert_eq!(e.span, Location { start: 4, end: 5 });
    let e = parse("f(1 # 2)").unwrap_err();
    assert_eq!(e.kind, ErrorKind::Lexical);
    assert_eq!(e.span, Location { start: 4, end: 5 });
}

#[test]
fn operators_outside_the_table_end_the_expression() {
    let mut lexer = stream("1 || 2");
    assert_eq!(parse_expression(&mut lexer), Ok(lit(1, Location { start: 0, end: 1 })));
    assert_eq!(lexer.pos, 1);
    let mut lexer = stream("a b");
    assert_eq!(parse_expression(&mut lexer), Ok(ident("a", Location { start: 0, end: 1 })));
    assert_eq!(lexer.pos, 1);
}

#[test]
fn identifier() {
    let mut lexer = stream("hello world");
    let (node, name) = parse_identifier(&mut lexer).unwrap();
    assert_eq!(name, "hello");
    assert_eq!(node, ident("hello", Location { start: 0, end: 5 }));
    assert_eq!(lexer.pos, 1);

    let mut lexer = stream("12");
    let e = parse_identifier(&mut lexer).unwrap_err();
    assert_eq!(lexer.pos, 1);
    assert_eq!(e.kind, ErrorKind::MalformedIdentifier);
    assert_eq!(e.span, Location { start: 0, end: 2 });
    assert_eq!(e.label(), "this identifier");
    assert_eq!(e.message(), "");

    let e = parse_identifier(&mut stream("+")).unwrap_err();
    assert_eq!(e.kind, ErrorKind::MalformedIdentifier);

    let e = parse_identifier(&mut stream("  ")).unwrap_err();
    assert_eq!(e.kind, ErrorKind::UnexpectedEof);
    assert_eq!(e.span, Location { start: 1, end: 2 });
    assert_eq!(e.source, "  ");

    let e = parse("var 1 = 2;").unwrap_err();
    assert_eq!(e.kind, ErrorKind::MalformedIdentifier);
    assert_eq!(e.span, Location { start: 4, end: 5 });
}

#[test]
fn ranges_are_nested() {
    for source in [
        "1 + 2 * 3 - 4",
        "var x: t = (a + b) * f(c, d == e);",
        "if a == b { x = 1; return f(); } else if c { } else { const y = { 2 }; }",
        "f((1), if a { 1 } else { 2 }, g())",
        "(f)(1)",
    ] {
        let tree = parsed(source);
        assert!(well_formed(&tree), "{source}");
        assert!(tree.location().end <= source.len());
    }
}

#[test]
fn range_covers_the_expression_text() {
    for source in ["1 + 2 * 3 - 4", "f(1, 2)", "x = 1;", "return a + b;", "if a { 1 } else { 2 }"] {
        let l = parsed(source).location();
        assert_eq!(&source[l.start..l.end], source);
    }
    let l = parsed("  1 + 2  ").location();
    assert_eq!(&"  1 + 2  "[l.start..l.end], "1 + 2");
    // A declaration ranges up to its initializer, and a group yields the node inside it.
    let l = parsed("var x = 1;").location();
    assert_eq!(&"var x = 1;"[l.start..l.end], "var x = 1");
    let l = parsed("(1)").location();
    assert_eq!(&"(1)"[l.start..l.end], "1");
}

#[test]
fn token_stream_cursor() {
    let mut lexer = stream("var x");
    assert_eq!(lexer.peek_class().unwrap(), Some(Class::Var));
    assert_eq!(lexer.peek().unwrap().map(|t| t.location), Some(Location { start: 0, end: 3 }));
    let none = lexer.expect(Class::If).unwrap_err();
    assert_eq!(none.kind, ErrorKind::UnexpectedToken);
    assert_eq!(none.span, Location { start: 0, end: 3 });
    assert_eq!(lexer.pos, 0);
    let keyword = lexer.expect_one_of(&vec![Class::Const, Class::Var]).unwrap();
    assert_eq!(keyword.kind, Kind::Var);
    assert_eq!(lexer.pos, 1);
    let name = lexer.next().unwrap().unwrap();
    assert_eq!(name.kind, Kind::Value(Value::Ident("x".to_string())));
    assert_eq!(lexer.next().unwrap(), None);
    assert_eq!(lexer.peek_class().unwrap(), None);
    assert_eq!(lexer.expect(Class::Ident).unwrap_err().kind, ErrorKind::UnexpectedEof);
    assert_eq!(lexer.eof_span(), Location { start: 4, end: 5 });
}

#[test]
fn token_stream_rejects_tokens_out_of_order() {
    let token = |start: usize, end: usize| {
        Lexeme::Token(Token { kind: Kind::Op(Operator::Plus), location: Location { start, end } })
    };
    assert!(TokenStream::new("++".to_string(), vec![token(0, 1), token(1, 2)]).is_some());
    assert!(TokenStream::new("++".to_string(), vec![token(1, 2), token(0, 1)]).is_none());
    assert!(TokenStream::new("++".to_string(), vec![token(0, 2), token(1, 2)]).is_none());
    assert!(TokenStream::new("++".to_string(), vec![token(1, 0)]).is_none());
    assert!(TokenStream::new(String::new(), vec![]).is_some());
}

#[test]
fn kinds_and_classes() {
    assert_eq!(Kind::Op(Operator::Comma).classify(), Class::Op(Operator::Comma));
    assert_eq!(Kind::Value(Value::Ident("a".to_string())).classify(), Class::Ident);
    assert_eq!(Kind::Value(Value::Primitive(Primitive::Bool(true))).classify(), Class::Literal);
    assert!(Kind::Op(Operator::Plus).is_binary_op());
    assert!(!Kind::Op(Operator::LeftParen).is_binary_op());
    assert!(!Kind::If.is_binary_op());
    let kind = Kind::Value(Value::Ident("abc".to_string()));
    assert_eq!(kind.duplicate(), kind);
}
