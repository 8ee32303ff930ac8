//! Tokens and the cursor over a token stream that the parser reads from.

use crate::error::{ErrorKind, Fault, ParseError};
use vstd::prelude::*;

verus! {

/// A half-open byte range `[start, end)` into the source text.
#[derive(Clone, Copy, Debug, PartialEq, Eq, Structural)]
pub struct Location {
    pub start: usize,
    pub end: usize,
}

impl Location {
    /// `start <= end`.
    pub open spec fn valid(self) -> bool {
        self.start <= self.end
    }

    /// `inner` lies within `self`.
    pub open spec fn contains(self, inner: Location) -> bool {
        self.start <= inner.start && inner.end <= self.end
    }

    /// The range from `start` up to, not including, `end`.
    pub fn new(start: usize, end: usize) -> (l: Location)
        ensures
            l == (Location { start, end }),
    {
        Location { start, end }
    }
}

/// Operator and punctuation tokens.
#[derive(Clone, Copy, Debug, PartialEq, Eq, Structural)]
pub enum Operator {
    Plus,
    Minus,
    Star,
    Slash,
    And,
    Or,
    Not,
    EqualEqual,
    NotEqual,
    Less,
    Greater,
    Equal,
    LeftParen,
    RightParen,
    LeftBrace,
    RightBrace,
    Colon,
    SemiColon,
    Comma,
}

/// A typed literal. A floating-point literal is held by its IEEE-754 bits.
#[derive(Clone, Copy, Debug, PartialEq, Eq, Structural)]
pub enum Primitive {
    Int { value: i64, size: u8 },
    UInt { value: u64, size: u8 },
    Float { bits: u64, size: u8 },
    Bool(bool),
}

/// The payload of a value token.
#[derive(Clone, Debug, PartialEq, Eq)]
pub enum Value {
    Ident(String),
    Primitive(Primitive),
}

/// The classification of a token.
#[derive(Clone, Debug, PartialEq, Eq)]
pub enum Kind {
    Value(Value),
    Op(Operator),
    Var,
    Const,
    If,
    Else,
    Return,
}

/// A token's classification without its payload: what `expect` matches on.
#[derive(Clone, Copy, Debug, PartialEq, Eq, Structural)]
pub enum Class {
    Ident,
    Literal,
    Op(Operator),
    Var,
    Const,
    If,
    Else,
    Return,
}

impl Kind {
    /// The classification of this kind.
    pub open spec fn class(&self) -> Class {
        match self {
            Kind::Value(Value::Ident(_)) => Class::Ident,
            Kind::Value(Value::Primitive(_)) => Class::Literal,
            Kind::Op(op) => Class::Op(*op),
            Kind::Var => Class::Var,
            Kind::Const => Class::Const,
            Kind::If => Class::If,
            Kind::Else => Class::Else,
            Kind::Return => Class::Return,
        }
    }

    /// The classification of this kind.
    pub fn classify(&self) -> (c: Class)
        ensures
            c == self.class(),
    {
        match self {
            Kind::Value(Value::Ident(_)) => Class::Ident,
            Kind::Value(Value::Primitive(_)) => Class::Literal,
            Kind::Op(op) => Class::Op(*op),
            Kind::Var => Class::Var,
            Kind::Const => Class::Const,
            Kind::If => Class::If,
            Kind::Else => Class::Else,
            Kind::Return => Class::Return,
        }
    }

    /// Whether this is one of the operators that join two operands: the
    /// arithmetic, comparison and logical ones. The set is this library's
    /// own convention; a token source that classifies operators otherwise
    /// is not reflected here. Of these only the operators of the
    /// precedence table go on an expression.
    pub open spec fn binary_op(&self) -> bool {
        match self {
            Kind::Op(op) => matches!(
                op,
                Operator::Plus | Operator::Minus | Operator::Star | Operator::Slash | Operator::And
                    | Operator::Or | Operator::EqualEqual | Operator::NotEqual | Operator::Less
                    | Operator::Greater
            ),
            _ => false,
        }
    }

    /// Whether this is one of the operators that join two operands, by this
    /// library's own convention: `+ - * / && || == != < >`.
    pub fn is_binary_op(&self) -> (b: bool)
        ensures
            b == self.binary_op(),
    {
        match self {
            Kind::Op(op) => matches!(
                op,
                Operator::Plus | Operator::Minus | Operator::Star | Operator::Slash | Operator::And
                    | Operator::Or | Operator::EqualEqual | Operator::NotEqual | Operator::Less
                    | Operator::Greater
            ),
            _ => false,
        }
    }

    /// A copy of this kind.
    pub fn duplicate(&self) -> (k: Kind)
        ensures
            k == *self,
    {
        match self {
            Kind::Value(Value::Ident(name)) => Kind::Value(Value::Ident(name.clone())),
            Kind::Value(Value::Primitive(p)) => Kind::Value(Value::Primitive(*p)),
            Kind::Op(op) => Kind::Op(*op),
            Kind::Var => Kind::Var,
            Kind::Const => Kind::Const,
            Kind::If => Kind::If,
            Kind::Else => Kind::Else,
            Kind::Return => Kind::Return,
        }
    }
}

/// A classified lexical unit with its byte range.
#[derive(Clone, Debug, PartialEq, Eq)]
pub struct Token {
    pub kind: Kind,
    pub location: Location,
}

impl Token {
    /// A copy of this token.
    pub fn duplicate(&self) -> (t: Token)
        ensures
            t == *self,
    {
        Token { kind: self.kind.duplicate(), location: self.location }
    }
}

/// One element of the token stream: a token, or the place where the lexical
/// layer found malformed input.
#[derive(Clone, Debug, PartialEq, Eq)]
pub enum Lexeme {
    Token(Token),
    Malformed(Location),
}

impl Lexeme {
    /// The byte range of this element.
    pub open spec fn span(&self) -> Location {
        match self {
            Lexeme::Token(t) => t.location,
            Lexeme::Malformed(l) => *l,
        }
    }

    /// The byte range of this element.
    pub fn location(&self) -> (l: Location)
        ensures
            l == self.span(),
    {
        match self {
            Lexeme::Token(t) => t.location,
            Lexeme::Malformed(l) => *l,
        }
    }
}

/// Every range is valid, and the elements follow each other in the source
/// without overlap.
#[verifier::opaque]
pub open spec fn in_source_order(tokens: Seq<Lexeme>) -> bool {
    &&& forall|i: int| 0 <= i < tokens.len() ==> (#[trigger] tokens[i]).span().valid()
    &&& forall|i: int, j: int|
        0 <= i < j < tokens.len() ==> (#[trigger] tokens[i]).span().end <= (
        #[trigger] tokens[j]).span().start
}

/// No element ends behind a source text of `len` bytes.
pub open spec fn within_source(tokens: Seq<Lexeme>, len: usize) -> bool {
    forall|i: int| 0 <= i < tokens.len() ==> (#[trigger] tokens[i]).span().end <= len
}

/// In a stream in source order, an element neither starts nor ends behind
/// a later one, and ends before a later one starts.
pub proof fn lemma_order(tokens: Seq<Lexeme>, i: int, j: int)
    requires
        in_source_order(tokens),
        0 <= i <= j < tokens.len(),
    ensures
        tokens[i].span().valid(),
        tokens[j].span().valid(),
        tokens[i].span().start <= tokens[j].span().start,
        tokens[i].span().end <= tokens[j].span().end,
        i < j ==> tokens[i].span().end <= tokens[j].span().start,
{
    reveal(in_source_order);
}

/// What the parser reads: the whole token stream and the span that an
/// end-of-input diagnostic points at.
pub struct Input {
    pub tokens: Seq<Lexeme>,
    pub eof: Location,
}

impl Input {
    /// What is at position `pos`: a token, nothing, or a lexical failure.
    pub open spec fn peek(self, pos: nat) -> Result<Option<Token>, Fault> {
        if pos >= self.tokens.len() {
            Ok(None)
        } else {
            match self.tokens[pos as int] {
                Lexeme::Token(t) => Ok(Some(t)),
                Lexeme::Malformed(l) => Err(Fault { kind: ErrorKind::Lexical, span: l }),
            }
        }
    }

    /// The token at `pos` if its class is `class`, else the failure.
    pub open spec fn expect(self, pos: nat, class: Class) -> Result<Token, Fault> {
        self.expect_one_of(pos, seq![class])
    }

    /// The token at `pos` if its class is among `classes`, else the failure.
    pub open spec fn expect_one_of(self, pos: nat, classes: Seq<Class>) -> Result<Token, Fault> {
        match self.peek(pos) {
            Err(f) => Err(f),
            Ok(None) => Err(Fault { kind: ErrorKind::UnexpectedEof, span: self.eof }),
            Ok(Some(t)) => if classes.contains(t.kind.class()) {
                Ok(t)
            } else {
                Err(Fault { kind: ErrorKind::UnexpectedToken, span: t.location })
            },
        }
    }

    /// The failure that end of input gives.
    pub open spec fn eof_fault(self) -> Fault {
        Fault { kind: ErrorKind::UnexpectedEof, span: self.eof }
    }

    /// The class of what is at position `pos`.
    pub open spec fn peek_class(self, pos: nat) -> Result<Option<Class>, Fault> {
        match self.peek(pos) {
            Err(f) => Err(f),
            Ok(None) => Ok(None),
            Ok(Some(t)) => Ok(Some(t.kind.class())),
        }
    }

    /// The span of the element at `pos`, or of the end of input.
    pub open spec fn span_at(self, pos: nat) -> Location {
        if pos < self.tokens.len() {
            self.tokens[pos as int].span()
        } else {
            self.eof
        }
    }

    /// The failure of a rule entered where its callers must not enter it.
    pub open spec fn internal(self, pos: nat) -> Fault {
        Fault { kind: ErrorKind::Internal, span: self.span_at(pos) }
    }

    /// The failure of a lookahead that starts no production.
    pub open spec fn unimplemented(self, pos: nat) -> Fault {
        Fault { kind: ErrorKind::Unimplemented, span: self.span_at(pos) }
    }

    /// How many elements are left from `pos` on.
    pub open spec fn remaining(self, pos: nat) -> nat {
        if pos <= self.tokens.len() {
            (self.tokens.len() - pos) as nat
        } else {
            0
        }
    }
}

/// The last byte of a source of `len` bytes.
pub open spec fn last_byte(len: usize) -> Location {
    Location { start: if len > 0 { (len - 1) as usize } else { 0 }, end: len }
}

/// A peekable cursor over a token stream, which keeps the complete source
/// text for diagnostics.
#[derive(Clone, Debug)]
pub struct TokenStream {
    pub tokens: Vec<Lexeme>,
    pub pos: usize,
    pub source: String,
}

impl TokenStream {
    /// The cursor is within the stream, the stream is in source order, and
    /// every range lies within the source text.
    pub open spec fn wf(&self) -> bool {
        &&& self.pos <= self.tokens.len()
        &&& in_source_order(self.tokens@)
        &&& within_source(self.tokens@, self.source_len())
    }

    /// The length of the source text in bytes.
    pub open spec fn source_len(&self) -> usize {
        vstd::utf8::encode_utf8(self.source@).len() as usize
    }

    /// The stream as the parser's rules see it.
    pub open spec fn input(&self) -> Input {
        Input { tokens: self.tokens@, eof: last_byte(self.source_len()) }
    }

    /// The same stream and source as `other`, at whatever position.
    pub open spec fn same_input(&self, other: &TokenStream) -> bool {
        self.tokens == other.tokens && self.source == other.source
    }

    /// How many tokens are left to read.
    pub open spec fn remaining(&self) -> nat {
        (self.tokens.len() - self.pos) as nat
    }

    /// A cursor at the start of `tokens`, or `None` where the tokens are not
    /// in source order or one of them ends behind the source text.
    pub fn new(source: String, tokens: Vec<Lexeme>) -> (r: Option<TokenStream>)
        ensures
            r is Some <==> in_source_order(tokens@) && within_source(
                tokens@,
                vstd::utf8::encode_utf8(source@).len() as usize,
            ),
            r matches Some(s) ==> s.wf() && s.pos == 0 && s.tokens == tokens && s.source == source,
    {
        let mut i: usize = 0;
        let mut last_end: usize = 0;
        proof {
            reveal(in_source_order);
        }
        while i < tokens.len()
            invariant
                i <= tokens.len(),
                in_source_order(tokens@.take(i as int)),
                i == 0 ==> last_end == 0,
                i > 0 ==> last_end == tokens[i - 1].span().end,
            decreases tokens.len() - i,
        {
            let l = tokens[i].location();
            proof {
                reveal(in_source_order);
            }
            if l.start > l.end || l.start < last_end {
                return None;
            }
            proof {
                let before = tokens@.take(i as int);
                let after = tokens@.take(i as int + 1);
                assert forall|a: int, b: int| 0 <= a < b < after.len() implies (#[trigger] after[a]).span().end
                    <= (#[trigger] after[b]).span().start by {
                    if b < i {
                        assert(before[a].span().end <= before[b].span().start);
                    } else if a < i - 1 {
                        assert(before[a].span().end <= before[i - 1].span().start);
                        assert(before[i - 1].span().valid());
                    }
                }
                assert forall|a: int| 0 <= a < after.len() implies (#[trigger] after[a]).span().valid() by {
                    if a < i {
                        assert(before[a].span().valid());
                    }
                }
            }
            last_end = l.end;
            i = i + 1;
        }
        proof {
            reveal(in_source_order);
            assert(tokens@.take(i as int) =~= tokens@);
        }
        if tokens.len() > 0 && last_end > source.as_str().len() {
            return None;
        }
        proof {
            assert forall|k: int| 0 <= k < tokens.len() implies (#[trigger] tokens@[k]).span().end
                <= last_end by {
                lemma_order(tokens@, k, tokens.len() - 1);
            }
        }
        Some(TokenStream { tokens, pos: 0, source })
    }

    /// The span that an end-of-input diagnostic points at: the last byte of
    /// the source.
    pub fn eof_span(&self) -> (l: Location)
        ensures
            l == self.input().eof,
    {
        let len = self.source.as_str().len();
        Location { start: if len > 0 { len - 1 } else { 0 }, end: len }
    }

    /// The span of the element under the cursor, or of the end of input.
    pub fn here(&self) -> (l: Location)
        requires
            self.wf(),
        ensures
            l == self.input().span_at(self.pos as nat),
    {
        if self.pos < self.tokens.len() {
            self.tokens[self.pos].location()
        } else {
            self.eof_span()
        }
    }

    /// A diagnostic of this stream's source.
    pub fn error(&self, kind: ErrorKind, span: Location) -> (e: ParseError)
        ensures
            e.fault() == (Fault { kind, span }),
            e.source == self.source,
    {
        ParseError { kind, span, source: self.source.clone() }
    }

    /// The next token, without consuming it.
    pub fn peek(&self) -> (r: Result<Option<&Token>, ParseError>)
        requires
            self.wf(),
        ensures
            match (r, self.input().peek(self.pos as nat)) {
                (Ok(Some(t)), Ok(Some(m))) => *t == m,
                (Ok(None), Ok(None)) => true,
                (Err(e), Err(f)) => e.fault() == f && e.source == self.source,
                _ => false,
            },
    {
        if self.pos >= self.tokens.len() {
            return Ok(None);
        }
        match &self.tokens[self.pos] {
            Lexeme::Token(t) => Ok(Some(t)),
            Lexeme::Malformed(l) => Err(self.error(ErrorKind::Lexical, *l)),
        }
    }

    /// The class of the next token, without consuming it.
    pub fn peek_class(&self) -> (r: Result<Option<Class>, ParseError>)
        requires
            self.wf(),
        ensures
            match (r, self.input().peek(self.pos as nat)) {
                (Ok(Some(c)), Ok(Some(m))) => c == m.kind.class(),
                (Ok(None), Ok(None)) => true,
                (Err(e), Err(f)) => e.fault() == f && e.source == self.source,
                _ => false,
            },
    {
        match self.peek() {
            Ok(Some(t)) => Ok(Some(t.kind.classify())),
            Ok(None) => Ok(None),
            Err(e) => Err(e),
        }
    }

    /// The next token, consumed. At the end of input, and on a lexical
    /// failure, the cursor stays.
    pub fn next(&mut self) -> (r: Result<Option<Token>, ParseError>)
        requires
            old(self).wf(),
        ensures
            final(self).wf(),
            final(self).same_input(old(self)),
            match (r, old(self).input().peek(old(self).pos as nat)) {
                (Ok(Some(t)), Ok(Some(m))) => t == m && final(self).pos == old(self).pos + 1,
                (Ok(None), Ok(None)) => final(self).pos == old(self).pos,
                (Err(e), Err(f)) => e.fault() == f && e.source == old(self).source && final(self).pos
                    == old(self).pos,
                _ => false,
            },
    {
        if self.pos >= self.tokens.len() {
            return Ok(None);
        }
        match &self.tokens[self.pos] {
            Lexeme::Token(t) => {
                let t = t.duplicate();
                self.pos = self.pos + 1;
                Ok(Some(t))
            },
            Lexeme::Malformed(l) => Err(self.error(ErrorKind::Lexical, *l)),
        }
    }

    /// Consumes the next token if its class is `class`; else fails, and the
    /// cursor stays.
    pub fn expect(&mut self, class: Class) -> (r: Result<Token, ParseError>)
        requires
            old(self).wf(),
        ensures
            final(self).wf(),
            final(self).same_input(old(self)),
            match (r, old(self).input().expect(old(self).pos as nat, class)) {
                (Ok(t), Ok(m)) => t == m && final(self).pos == old(self).pos + 1,
                (Err(e), Err(f)) => e.fault() == f && e.source == old(self).source && final(self).pos
                    == old(self).pos,
                _ => false,
            },
    {
        let classes = vec![class];
        proof {
            assert(classes@ =~= seq![class]);
        }
        self.expect_one_of(&classes)
    }

    /// Consumes the next token if its class is among `classes`; else fails,
    /// and the cursor stays.
    pub fn expect_one_of(&mut self, classes: &Vec<Class>) -> (r: Result<Token, ParseError>)
        requires
            old(self).wf(),
        ensures
            final(self).wf(),
            final(self).same_input(old(self)),
            match (r, old(self).input().expect_one_of(old(self).pos as nat, classes@)) {
                (Ok(t), Ok(m)) => t == m && final(self).pos == old(self).pos + 1,
                (Err(e), Err(f)) => e.fault() == f && e.source == old(self).source && final(self).pos
                    == old(self).pos,
                _ => false,
            },
    {
        let class = match self.peek() {
            Err(e) => { return Err(e); },
            Ok(None) => { return Err(self.error(ErrorKind::UnexpectedEof, self.eof_span())); },
            Ok(Some(t)) => t.kind.classify(),
        };
        let mut i: usize = 0;
        let mut found = false;
        while i < classes.len()
            invariant
                i <= classes.len(),
                found <==> exists|k: int| 0 <= k < i && #[trigger] classes@[k] == class,
            decreases classes.len() - i,
        {
            if classes[i] == class {
                found = true;
            }
            i = i + 1;
        }
        if found {
            match self.next() {
                Ok(Some(t)) => Ok(t),
                Ok(None) => Err(self.error(ErrorKind::UnexpectedEof, self.eof_span())),
                Err(e) => Err(e),
            }
        } else {
            let span = self.tokens[self.pos].location();
            Err(self.error(ErrorKind::UnexpectedToken, span))
        }
    }
}

} // verus!
