//! Parser: primitive combinators over one [`Lexer`] plus the top-level
//! grammar rules.  Every combinator follows the no-consume-on-failure
//! discipline: on a mismatch the lexer is rolled back to where the call
//! started, which is what lets composed rules backtrack.
//!
//! Each rule has a spec twin (`spec_parse`, the `spec_*` functions below):
//! a pure function from the lexer model to either the parsed node's model
//! and the lexer afterwards, or the diagnostic and the lexer afterwards.
//! The exec functions are proved to compute exactly those twins.

use vstd::prelude::*;

use crate::lexer::{
    lemma_lex_next, lex_next, line_chars, KindModel, Lexer, LexerModel, LocModel, Location,
    Position, Token, TokenKind, TokenModel,
};
use crate::statement::{lemma_compound_frame, spec_compound, CompoundModel, CompoundStatement};
use crate::text::{dec_text, dec_to_string, eco_chars, eco_to_string, i64_to_string, int_text,
    space_text, spaces};
use ecow::EcoString;
use vstd::string::*;

verus! {

// ---------------------------------------------------------------------------
// Result-of-a-rule model
// ---------------------------------------------------------------------------

/// Model of a diagnostic: location, offending source line, and message, all
/// as plain mathematical values.
#[verifier::ext_equal]
pub struct ErrModel {
    pub location: LocModel,
    pub line: Seq<char>,
    pub message: Seq<char>,
}

/// What a grammar rule does to the lexer, in the model: the parsed value and
/// the lexer on success, or the diagnostic and the lexer on failure.
pub type PRes<V> = Result<(V, LexerModel), (ErrModel, LexerModel)>;

// ---------------------------------------------------------------------------
// Token-kind shapes and diagnostic text
// ---------------------------------------------------------------------------

/// Two kinds have the same shape when they are the same variant; payloads of
/// identifiers, integers and unknown bytes are not compared.  `expect` works
/// on shapes: the grammar only ever asks for payload-free kinds.
pub open spec fn kind_shape_eq(a: KindModel, b: KindModel) -> bool {
    match (a, b) {
        (KindModel::Int, KindModel::Int) => true,
        (KindModel::Return, KindModel::Return) => true,
        (KindModel::Identifier(_), KindModel::Identifier(_)) => true,
        (KindModel::Integer(_), KindModel::Integer(_)) => true,
        (KindModel::LParen, KindModel::LParen) => true,
        (KindModel::RParen, KindModel::RParen) => true,
        (KindModel::LBrace, KindModel::LBrace) => true,
        (KindModel::RBrace, KindModel::RBrace) => true,
        (KindModel::Plus, KindModel::Plus) => true,
        (KindModel::Minus, KindModel::Minus) => true,
        (KindModel::Asterisk, KindModel::Asterisk) => true,
        (KindModel::Slash, KindModel::Slash) => true,
        (KindModel::Percent, KindModel::Percent) => true,
        (KindModel::SemiColon, KindModel::SemiColon) => true,
        (KindModel::Unknown(_), KindModel::Unknown(_)) => true,
        _ => false,
    }
}

/// The debug-style name of a token kind, as diagnostics print it.
pub open spec fn kind_text(k: KindModel) -> Seq<char> {
    match k {
        KindModel::Int => "Int"@,
        KindModel::Return => "Return"@,
        KindModel::Identifier(s) => "Identifier(\""@ + s + "\")"@,
        KindModel::Integer(v) => "Integer("@ + int_text(v as int) + ")"@,
        KindModel::LParen => "LParen"@,
        KindModel::RParen => "RParen"@,
        KindModel::LBrace => "LBrace"@,
        KindModel::RBrace => "RBrace"@,
        KindModel::Plus => "Plus"@,
        KindModel::Minus => "Minus"@,
        KindModel::Asterisk => "Asterisk"@,
        KindModel::Slash => "Slash"@,
        KindModel::Percent => "Percent"@,
        KindModel::SemiColon => "SemiColon"@,
        KindModel::Unknown(b) => "Unknown("@ + dec_text(b as nat) + ")"@,
    }
}

/// The message every combinator produces: what it expected and what it found.
pub open spec fn expected_found_text(what: Seq<char>, found: Option<KindModel>) -> Seq<char> {
    "expected "@ + what + ", found "@ + (match found {
        Some(k) => kind_text(k),
        None => "EOF"@,
    })
}

// ---------------------------------------------------------------------------
// Combinator models
// ---------------------------------------------------------------------------

/// What `Parser::expect` does: consume the next token if its shape matches,
/// else report it and roll back (or report end of input without rolling
/// back, as nothing was consumed but trailing whitespace).
#[verifier::opaque]
pub open spec fn spec_expect(m: LexerModel, k: KindModel) -> PRes<TokenModel> {
    let (t, m2) = lex_next(m);
    match t {
        Some(tok) => if kind_shape_eq(tok.kind, k) {
            Ok((tok, m2))
        } else {
            Err(
                (
                    ErrModel {
                        location: tok.location,
                        line: line_chars(m.source, m.pos.index),
                        message: expected_found_text(kind_text(k), Some(tok.kind)),
                    },
                    m,
                ),
            )
        },
        None => Err(
            (
                ErrModel {
                    location: m2.loc(),
                    line: line_chars(m.source, m2.pos.index),
                    message: expected_found_text(kind_text(k), None),
                },
                m2,
            ),
        ),
    }
}

/// What `Parser::expect_integer` does.
#[verifier::opaque]
pub open spec fn spec_expect_integer(m: LexerModel) -> PRes<(LocModel, i64)> {
    let (t, m2) = lex_next(m);
    match t {
        Some(tok) => match tok.kind {
            KindModel::Integer(v) => Ok(((tok.location, v), m2)),
            _ => Err(
                (
                    ErrModel {
                        location: tok.location,
                        line: line_chars(m.source, m.pos.index),
                        message: expected_found_text("integer"@, Some(tok.kind)),
                    },
                    m,
                ),
            ),
        },
        None => Err(
            (
                ErrModel {
                    location: m2.loc(),
                    line: line_chars(m.source, m2.pos.index),
                    message: expected_found_text("integer"@, None),
                },
                m2,
            ),
        ),
    }
}

/// What `Parser::expect_identifier` does; the payload is the identifier's
/// characters.
#[verifier::opaque]
pub open spec fn spec_expect_identifier(m: LexerModel) -> PRes<Seq<char>> {
    let (t, m2) = lex_next(m);
    match t {
        Some(tok) => match tok.kind {
            KindModel::Identifier(s) => Ok((s, m2)),
            _ => Err(
                (
                    ErrModel {
                        location: tok.location,
                        line: line_chars(m.source, m.pos.index),
                        message: expected_found_text("identifier"@, Some(tok.kind)),
                    },
                    m,
                ),
            ),
        },
        None => Err(
            (
                ErrModel {
                    location: m2.loc(),
                    line: line_chars(m.source, m2.pos.index),
                    message: expected_found_text("identifier"@, None),
                },
                m2,
            ),
        ),
    }
}

/// What `Parser::expect_eof` does: succeeds only at the end of input; an
/// unexpected token is reported (and stays consumed, as the caller is done).
#[verifier::opaque]
pub open spec fn spec_expect_eof(m: LexerModel) -> Result<LexerModel, (ErrModel, LexerModel)> {
    let (t, m2) = lex_next(m);
    match t {
        None => Ok(m2),
        Some(tok) => Err(
            (
                ErrModel {
                    location: tok.location,
                    line: line_chars(m.source, m2.pos.index),
                    message: expected_found_text("EOF"@, Some(tok.kind)),
                },
                m2,
            ),
        ),
    }
}

pub proof fn lemma_expect_frame(m: LexerModel, k: KindModel)
    requires
        m.wf(),
    ensures
        match spec_expect(m, k) {
            Ok((t, m2)) => m2.source == m.source && m2.file == m.file && m2.wf()
                && m.pos.index < m2.pos.index,
            Err((e, m2)) => m2.source == m.source && m2.file == m.file && m2.wf()
                && m.pos.index <= m2.pos.index,
        },
{
    reveal(spec_expect);
    reveal(spec_expect_integer);
    reveal(spec_expect_identifier);
    reveal(spec_expect_eof);
    lemma_lex_next(m);
}

pub proof fn lemma_expect_integer_frame(m: LexerModel)
    requires
        m.wf(),
    ensures
        match spec_expect_integer(m) {
            Ok((v, m2)) => m2.source == m.source && m2.file == m.file && m2.wf()
                && m.pos.index < m2.pos.index,
            Err((e, m2)) => m2.source == m.source && m2.file == m.file && m2.wf()
                && m.pos.index <= m2.pos.index,
        },
{
    reveal(spec_expect);
    reveal(spec_expect_integer);
    reveal(spec_expect_identifier);
    reveal(spec_expect_eof);
    lemma_lex_next(m);
}

pub proof fn lemma_expect_identifier_frame(m: LexerModel)
    requires
        m.wf(),
    ensures
        match spec_expect_identifier(m) {
            Ok((v, m2)) => m2.source == m.source && m2.file == m.file && m2.wf()
                && m.pos.index < m2.pos.index,
            Err((e, m2)) => m2.source == m.source && m2.file == m.file && m2.wf()
                && m.pos.index <= m2.pos.index,
        },
{
    reveal(spec_expect);
    reveal(spec_expect_integer);
    reveal(spec_expect_identifier);
    reveal(spec_expect_eof);
    lemma_lex_next(m);
}

pub proof fn lemma_expect_eof_frame(m: LexerModel)
    requires
        m.wf(),
    ensures
        match spec_expect_eof(m) {
            Ok(m2) => m2.source == m.source && m2.file == m.file && m2.wf()
                && m.pos.index <= m2.pos.index,
            Err((e, m2)) => m2.source == m.source && m2.file == m.file && m2.wf()
                && m.pos.index <= m2.pos.index,
        },
{
    reveal(spec_expect);
    reveal(spec_expect_integer);
    reveal(spec_expect_identifier);
    reveal(spec_expect_eof);
    lemma_lex_next(m);
}

// ---------------------------------------------------------------------------
// Integer constants (the one literal kind of the grammar)
// ---------------------------------------------------------------------------

#[derive(Debug)]
pub enum Constant {
    Integer(i64),
}

/// Model of a constant.
#[verifier::ext_equal]
pub enum ConstantModel {
    Integer(i64),
}

impl DeepView for Constant {
    type V = ConstantModel;

    open spec fn deep_view(&self) -> ConstantModel {
        match self {
            Constant::Integer(v) => ConstantModel::Integer(*v),
        }
    }
}

// ---------------------------------------------------------------------------
// ParseError
// ---------------------------------------------------------------------------

/// A structured diagnostic: where, the offending source line, and a message.
#[derive(Debug)]
pub struct ParseError {
    pub location: Location,
    pub line: String,
    pub message: String,
}

impl View for ParseError {
    type V = ErrModel;

    open spec fn view(&self) -> ErrModel {
        ErrModel { location: self.location@, line: self.line@, message: self.message@ }
    }
}

/// The fixed four-line, caret-pointing rendering of a diagnostic:
/// `file:line:column:` (1-indexed), the source line, a caret under the
/// offending column, and the message.
pub open spec fn error_text(e: ErrModel) -> Seq<char> {
    e.location.file + ":"@ + dec_text(e.location.line + 1) + ":"@ + dec_text(
        e.location.column + 1,
    ) + ":\n"@ + e.line + "\n"@ + space_text(e.location.column) + "^\n"@ + e.message + "\n"@
}

impl ParseError {
    pub fn new(location: Location, line: String, message: String) -> (e: ParseError)
        ensures
            e@ == (ErrModel { location: location@, line: line@, message: message@ }),
    {
        ParseError { location, line, message }
    }

    /// The rendered diagnostic, exactly [`error_text`] of the model.
    pub fn render(&self) -> (s: String)
        requires
            self.location.line < usize::MAX,
            self.location.column < usize::MAX,
        ensures
            s@ == error_text(self@),
    {
        let mut s = eco_to_string(&self.location.filename);
        s.append(":");
        let ln = dec_to_string((self.location.line as u64) + 1);
        s.append(ln.as_str());
        s.append(":");
        let col = dec_to_string((self.location.column as u64) + 1);
        s.append(col.as_str());
        s.append(":\n");
        s.append(self.line.as_str());
        s.append("\n");
        let pad = spaces(self.location.column);
        s.append(pad.as_str());
        s.append("^\n");
        s.append(self.message.as_str());
        s.append("\n");
        proof {
            assert(s@ =~= error_text(self@));
        }
        s
    }
}

// ---------------------------------------------------------------------------
// The Parse capability
// ---------------------------------------------------------------------------

/// The uniform capability of a grammar rule: a deterministic function from a
/// mutable parser to a node or a diagnostic, specified by its pure twin
/// `spec_parse` on the lexer model.
pub trait Parse: Sized + DeepView {
    /// The rule as a pure function of the lexer model.
    spec fn spec_parse(m: LexerModel) -> PRes<<Self as DeepView>::V>;

    /// Framing: a rule never touches the source or the file name, keeps the
    /// lexer well formed, and consumes at least one token when it succeeds.
    proof fn lemma_frame(m: LexerModel)
        requires
            m.wf(),
        ensures
            match Self::spec_parse(m) {
                Ok((v, m2)) => m2.source == m.source && m2.file == m.file && m2.wf()
                    && m.pos.index < m2.pos.index,
                Err((e, m2)) => m2.source == m.source && m2.file == m.file && m2.wf(),
            };

    /// Runs the rule on the parser: exactly `spec_parse` on its model.
    fn parse(parser: &mut Parser) -> (r: Result<Self, ParseError>)
        requires
            old(parser)@.wf(),
        ensures
            final(parser)@.wf(),
            match Self::spec_parse(old(parser)@) {
                Ok((v, m2)) => (r matches Ok(node) && node.deep_view() == v) && final(parser)@
                    == m2,
                Err((em, m2)) => (r matches Err(pe) && pe@ == em) && final(parser)@ == m2,
            };
}

/// The zero-or-more continuation of `many1`: keeps applying `P`, appending to
/// `acc`; the first failure ends the repetition with the lexer restored to
/// the snapshot taken before the failed attempt.
pub open spec fn spec_many_tail<P: Parse>(m: LexerModel, acc: Seq<<P as DeepView>::V>) -> (
    Seq<<P as DeepView>::V>,
    LexerModel,
)
    decreases m.source.len() - m.pos.index,
{
    if !m.wf() {
        (acc, m)
    } else {
        match P::spec_parse(m) {
            Ok((v, m2)) => {
                proof {
                    P::lemma_frame(m);
                }
                spec_many_tail::<P>(m2, acc.push(v))
            },
            Err(e) => (acc, m),
        }
    }
}

/// What `Parser::many1` does: one or more `P`s; the first application's
/// error propagates, later failures end the repetition silently.
pub open spec fn spec_many1<P: Parse>(m: LexerModel) -> PRes<Seq<<P as DeepView>::V>> {
    match P::spec_parse(m) {
        Err(e) => Err(e),
        Ok((v, m2)) => {
            let (vs, m3) = spec_many_tail::<P>(m2, seq![v]);
            Ok((vs, m3))
        },
    }
}

pub proof fn lemma_many_tail_frame<P: Parse>(m: LexerModel, acc: Seq<<P as DeepView>::V>)
    requires
        m.wf(),
    ensures
        ({
            let (vs, m2) = spec_many_tail::<P>(m, acc);
            m2.source == m.source && m2.file == m.file && m2.wf() && m.pos.index <= m2.pos.index
                && vs.len() >= acc.len()
        }),
    decreases m.source.len() - m.pos.index,
{
    match P::spec_parse(m) {
        Ok((v, m2)) => {
            P::lemma_frame(m);
            lemma_many_tail_frame::<P>(m2, acc.push(v));
        },
        Err(e) => {},
    }
}

/// `many1` frames the lexer like any rule and returns at least one item.
pub proof fn lemma_many1_frame<P: Parse>(m: LexerModel)
    requires
        m.wf(),
    ensures
        match spec_many1::<P>(m) {
            Ok((vs, m2)) => m2.source == m.source && m2.file == m.file && m2.wf()
                && m.pos.index < m2.pos.index && vs.len() >= 1,
            Err((e, m2)) => m2.source == m.source && m2.file == m.file && m2.wf(),
        },
{
    P::lemma_frame(m);
    match P::spec_parse(m) {
        Ok((v, m2)) => {
            lemma_many_tail_frame::<P>(m2, seq![v]);
        },
        Err(e) => {},
    }
}

// ---------------------------------------------------------------------------
// The parser and its combinators
// ---------------------------------------------------------------------------

/// Wraps one lexer; grammar rules compose the combinators below.
pub struct Parser {
    pub(crate) lexer: Lexer,
}

impl View for Parser {
    type V = LexerModel;

    closed spec fn view(&self) -> LexerModel {
        self.lexer@
    }
}

/// The debug-style name of a token kind (for diagnostics).
fn kind_to_string(k: &TokenKind) -> (s: String)
    ensures
        s@ == kind_text(k@),
{
    match k {
        TokenKind::Int => String::from_str("Int"),
        TokenKind::Return => String::from_str("Return"),
        TokenKind::Identifier(e) => {
            let mut s = String::from_str("Identifier(\"");
            let inner = eco_to_string(e);
            s.append(inner.as_str());
            s.append("\")");
            proof {
                assert(s@ =~= kind_text(k@));
            }
            s
        },
        TokenKind::Integer(v) => {
            let mut s = String::from_str("Integer(");
            let inner = i64_to_string(*v);
            s.append(inner.as_str());
            s.append(")");
            proof {
                assert(s@ =~= kind_text(k@));
            }
            s
        },
        TokenKind::LParen => String::from_str("LParen"),
        TokenKind::RParen => String::from_str("RParen"),
        TokenKind::LBrace => String::from_str("LBrace"),
        TokenKind::RBrace => String::from_str("RBrace"),
        TokenKind::Plus => String::from_str("Plus"),
        TokenKind::Minus => String::from_str("Minus"),
        TokenKind::Asterisk => String::from_str("Asterisk"),
        TokenKind::Slash => String::from_str("Slash"),
        TokenKind::Percent => String::from_str("Percent"),
        TokenKind::SemiColon => String::from_str("SemiColon"),
        TokenKind::Unknown(b) => {
            let mut s = String::from_str("Unknown(");
            let inner = dec_to_string(*b as u64);
            s.append(inner.as_str());
            s.append(")");
            proof {
                assert(s@ =~= kind_text(k@));
            }
            s
        },
    }
}

/// `expected {what}, found {actual-or-EOF}`.
fn expected_found(what: &str, found: Option<&TokenKind>) -> (s: String)
    ensures
        s@ == expected_found_text(
            what@,
            match found {
                Some(k) => Some(k@),
                None => None,
            },
        ),
{
    let mut s = String::from_str("expected ");
    s.append(what);
    s.append(", found ");
    match found {
        Some(k) => {
            let t = kind_to_string(k);
            s.append(t.as_str());
        },
        None => {
            s.append("EOF");
        },
    }
    proof {
        assert(s@ =~= expected_found_text(
            what@,
            match found {
                Some(k) => Some(k@),
                None => None,
            },
        ));
    }
    s
}

/// Shape comparison of two kinds (payloads ignored), the exec twin of
/// [`kind_shape_eq`].
fn shape_matches(a: &TokenKind, b: &TokenKind) -> (r: bool)
    ensures
        r == kind_shape_eq(a@, b@),
{
    match (a, b) {
        (TokenKind::Int, TokenKind::Int) => true,
        (TokenKind::Return, TokenKind::Return) => true,
        (TokenKind::Identifier(_), TokenKind::Identifier(_)) => true,
        (TokenKind::Integer(_), TokenKind::Integer(_)) => true,
        (TokenKind::LParen, TokenKind::LParen) => true,
        (TokenKind::RParen, TokenKind::RParen) => true,
        (TokenKind::LBrace, TokenKind::LBrace) => true,
        (TokenKind::RBrace, TokenKind::RBrace) => true,
        (TokenKind::Plus, TokenKind::Plus) => true,
        (TokenKind::Minus, TokenKind::Minus) => true,
        (TokenKind::Asterisk, TokenKind::Asterisk) => true,
        (TokenKind::Slash, TokenKind::Slash) => true,
        (TokenKind::Percent, TokenKind::Percent) => true,
        (TokenKind::SemiColon, TokenKind::SemiColon) => true,
        (TokenKind::Unknown(_), TokenKind::Unknown(_)) => true,
        _ => false,
    }
}

impl Parser {
    pub fn new(lexer: Lexer) -> (p: Parser)
        ensures
            p@ == lexer@,
    {
        Parser { lexer }
    }

    /// A checkpoint of the wrapped lexer, for rules that backtrack.
    pub(crate) fn current_position(&self) -> (p: Position)
        ensures
            p@ == self@.pos,
    {
        self.lexer.current_position()
    }

    /// Rewinds the wrapped lexer to a previously taken checkpoint.
    pub(crate) fn set_position(&mut self, position: Position)
        requires
            position@.wf(old(self)@.source),
        ensures
            final(self)@ == old(self)@.with_pos(position@),
    {
        self.lexer.set_position(position)
    }

    /// Consumes the next token if its shape matches `token_kind`; on a
    /// mismatch rolls the lexer back and reports the unexpected token.
    pub fn expect(&mut self, token_kind: TokenKind) -> (r: Result<Token, ParseError>)
        requires
            old(self)@.wf(),
        ensures
            final(self)@.wf(),
            match spec_expect(old(self)@, token_kind@) {
                Ok((tm, m2)) => (r matches Ok(tok) && tok@ == tm) && final(self)@ == m2,
                Err((em, m2)) => (r matches Err(pe) && pe@ == em) && final(self)@ == m2,
            },
    {
        proof {
            reveal(spec_expect);
            reveal(spec_expect_integer);
            reveal(spec_expect_identifier);
            reveal(spec_expect_eof);
            lemma_lex_next(old(self)@);
        }
        let pos = self.lexer.current_position();
        match self.lexer.next() {
            Some(token) => {
                if shape_matches(&token.kind, &token_kind) {
                    Ok(token)
                } else {
                    self.lexer.set_position(pos);
                    let line = self.lexer.current_line();
                    let what = kind_to_string(&token_kind);
                    let message = expected_found(what.as_str(), Some(&token.kind));
                    Err(ParseError::new(token.location, line, message))
                }
            },
            None => {
                let location = self.lexer.current_location();
                let line = self.lexer.current_line();
                let what = kind_to_string(&token_kind);
                let message = expected_found(what.as_str(), None);
                Err(ParseError::new(location, line, message))
            },
        }
    }

    /// Consumes the next token if it is an integer constant and returns its
    /// location and value; rolls back on anything else.
    pub fn expect_integer(&mut self) -> (r: Result<(Location, i64), ParseError>)
        requires
            old(self)@.wf(),
        ensures
            final(self)@.wf(),
            match spec_expect_integer(old(self)@) {
                Ok(((lm, v), m2)) => (r matches Ok(p) && p.0@ == lm && p.1 == v) && final(self)@
                    == m2,
                Err((em, m2)) => (r matches Err(pe) && pe@ == em) && final(self)@ == m2,
            },
    {
        proof {
            reveal(spec_expect);
            reveal(spec_expect_integer);
            reveal(spec_expect_identifier);
            reveal(spec_expect_eof);
            lemma_lex_next(old(self)@);
        }
        let pos = self.lexer.current_position();
        match self.lexer.next() {
            Some(token) => match token.kind {
                TokenKind::Integer(value) => Ok((token.location, value)),
                _ => {
                    self.lexer.set_position(pos);
                    let line = self.lexer.current_line();
                    let message = expected_found("integer", Some(&token.kind));
                    Err(ParseError::new(token.location, line, message))
                },
            },
            None => {
                let location = self.lexer.current_location();
                let line = self.lexer.current_line();
                let message = expected_found("integer", None);
                Err(ParseError::new(location, line, message))
            },
        }
    }

    /// Consumes the next token if it is an identifier and returns its name;
    /// rolls back on anything else.
    pub fn expect_identifier(&mut self) -> (r: Result<EcoString, ParseError>)
        requires
            old(self)@.wf(),
        ensures
            final(self)@.wf(),
            match spec_expect_identifier(old(self)@) {
                Ok((s, m2)) => (r matches Ok(name) && eco_chars(name) == s) && final(self)@ == m2,
                Err((em, m2)) => (r matches Err(pe) && pe@ == em) && final(self)@ == m2,
            },
    {
        proof {
            reveal(spec_expect);
            reveal(spec_expect_integer);
            reveal(spec_expect_identifier);
            reveal(spec_expect_eof);
            lemma_lex_next(old(self)@);
        }
        let pos = self.lexer.current_position();
        match self.lexer.next() {
            Some(token) => match token.kind {
                TokenKind::Identifier(identifier) => Ok(identifier),
                _ => {
                    self.lexer.set_position(pos);
                    let line = self.lexer.current_line();
                    let message = expected_found("identifier", Some(&token.kind));
                    Err(ParseError::new(token.location, line, message))
                },
            },
            None => {
                let location = self.lexer.current_location();
                let line = self.lexer.current_line();
                let message = expected_found("identifier", None);
                Err(ParseError::new(location, line, message))
            },
        }
    }

    /// Parses one-or-more `P`s.  The first application must succeed (its
    /// error propagates); afterwards the position is snapshotted before each
    /// further attempt, and the first failure restores it and ends the
    /// repetition silently.
    pub fn many1<P: Parse>(&mut self) -> (r: Result<Vec<P>, ParseError>)
        requires
            old(self)@.wf(),
        ensures
            final(self)@.wf(),
            match spec_many1::<P>(old(self)@) {
                Ok((vs, m2)) => (r matches Ok(items) && items.deep_view() == vs) && final(self)@
                    == m2,
                Err((em, m2)) => (r matches Err(pe) && pe@ == em) && final(self)@ == m2,
            },
    {
        let ghost m0 = old(self)@;
        let mut items: Vec<P> = Vec::new();
        match P::parse(self) {
            Err(e) => {
                return Err(e);
            },
            Ok(item) => {
                items.push(item);
            },
        }
        proof {
            P::lemma_frame(m0);
            assert(items.deep_view() =~= seq![P::spec_parse(m0)->Ok_0.0]);
        }
        loop
            invariant
                self@.wf(),
                self@.source == m0.source,
                self@.file == m0.file,
                spec_many1::<P>(m0) == ({
                    let (vs, mf) = spec_many_tail::<P>(self@, items.deep_view());
                    Ok::<(Seq<<P as DeepView>::V>, LexerModel), (ErrModel, LexerModel)>((vs, mf))
                }),
            ensures
                self@.wf(),
                spec_many1::<P>(m0) == Ok::<
                    (Seq<<P as DeepView>::V>, LexerModel),
                    (ErrModel, LexerModel),
                >((items.deep_view(), self@)),
            decreases self@.source.len() - self@.pos.index,
        {
            let pos = self.lexer.current_position();
            let ghost cur = self@;
            let ghost acc = items.deep_view();
            match P::parse(self) {
                Ok(item) => {
                    proof {
                        P::lemma_frame(cur);
                    }
                    items.push(item);
                    proof {
                        assert(items.deep_view() =~= acc.push(item.deep_view()));
                    }
                },
                Err(_) => {
                    proof {
                        P::lemma_frame(cur);
                    }
                    self.lexer.set_position(pos);
                    proof {
                        assert(self@ =~= cur);
                    }
                    break;
                },
            }
        }
        Ok(items)
    }

    /// Succeeds only if no token remains.
    pub fn expect_eof(&mut self) -> (r: Result<(), ParseError>)
        requires
            old(self)@.wf(),
        ensures
            final(self)@.wf(),
            match spec_expect_eof(old(self)@) {
                Ok(m2) => r is Ok && final(self)@ == m2,
                Err((em, m2)) => (r matches Err(pe) && pe@ == em) && final(self)@ == m2,
            },
    {
        proof {
            reveal(spec_expect);
            reveal(spec_expect_integer);
            reveal(spec_expect_identifier);
            reveal(spec_expect_eof);
            lemma_lex_next(old(self)@);
        }
        match self.lexer.next() {
            Some(token) => {
                let line = self.lexer.current_line();
                let message = expected_found("EOF", Some(&token.kind));
                Err(ParseError::new(token.location, line, message))
            },
            None => Ok(()),
        }
    }
}


// ---------------------------------------------------------------------------
// Top-level grammar
// ---------------------------------------------------------------------------

/// Model of a function definition, located at its `int` keyword.
#[verifier::ext_equal]
pub struct FuncDefModel {
    pub location: LocModel,
    pub identifier: Seq<char>,
    pub body: CompoundModel,
}

/// Model of an external declaration.
#[verifier::ext_equal]
pub enum ExtDeclModel {
    FunctionDefinition(FuncDefModel),
}

#[derive(Debug)]
pub struct FunctionDefinition {
    pub location: Location,
    pub identifier: EcoString,
    pub body: CompoundStatement,
}

impl DeepView for FunctionDefinition {
    type V = FuncDefModel;

    open spec fn deep_view(&self) -> FuncDefModel {
        FuncDefModel {
            location: self.location.deep_view(),
            identifier: eco_chars(self.identifier),
            body: self.body.deep_view(),
        }
    }
}

#[derive(Debug)]
pub enum ExternalDeclaration {
    FunctionDefinition(FunctionDefinition),
}

impl DeepView for ExternalDeclaration {
    type V = ExtDeclModel;

    open spec fn deep_view(&self) -> ExtDeclModel {
        match self {
            ExternalDeclaration::FunctionDefinition(f) => ExtDeclModel::FunctionDefinition(
                f.deep_view(),
            ),
        }
    }
}

/// A whole source file: one or more external declarations and nothing after
/// them.
#[derive(Debug)]
pub struct TranslationUnit(pub Vec<ExternalDeclaration>);

impl DeepView for TranslationUnit {
    type V = Seq<ExtDeclModel>;

    open spec fn deep_view(&self) -> Seq<ExtDeclModel> {
        self.0.deep_view()
    }
}

/// `int <identifier> ( ) <compound-statement>`, located at the `int` keyword.
pub open spec fn spec_function_definition(m: LexerModel) -> PRes<FuncDefModel> {
    match spec_expect(m, KindModel::Int) {
        Err(e) => Err(e),
        Ok((t, m1)) => match spec_expect_identifier(m1) {
            Err(e) => Err(e),
            Ok((identifier, m2)) => match spec_expect(m2, KindModel::LParen) {
                Err(e) => Err(e),
                Ok((t1, m3)) => match spec_expect(m3, KindModel::RParen) {
                    Err(e) => Err(e),
                    Ok((t2, m4)) => match spec_compound(m4) {
                        Err(e) => Err(e),
                        Ok((body, m5)) => Ok(
                            (FuncDefModel { location: t.location, identifier, body }, m5),
                        ),
                    },
                },
            },
        },
    }
}

pub proof fn lemma_function_definition_frame(m: LexerModel)
    requires
        m.wf(),
    ensures
        match spec_function_definition(m) {
            Ok((v, m2)) => m2.source == m.source && m2.file == m.file && m2.wf()
                && m.pos.index < m2.pos.index,
            Err((e, m2)) => m2.source == m.source && m2.file == m.file && m2.wf(),
        },
{
    lemma_expect_frame(m, KindModel::Int);
    match spec_expect(m, KindModel::Int) {
        Ok((t, m1)) => {
            lemma_expect_identifier_frame(m1);
            match spec_expect_identifier(m1) {
                Ok((identifier, m2)) => {
                    lemma_expect_frame(m2, KindModel::LParen);
                    match spec_expect(m2, KindModel::LParen) {
                        Ok((t1, m3)) => {
                            lemma_expect_frame(m3, KindModel::RParen);
                            match spec_expect(m3, KindModel::RParen) {
                                Ok((t2, m4)) => {
                                    lemma_compound_frame(m4);
                                },
                                Err(e) => {},
                            }
                        },
                        Err(e) => {},
                    }
                },
                Err(e) => {},
            }
        },
        Err(e) => {},
    }
}

/// An external declaration is a function definition.
pub open spec fn spec_external_declaration(m: LexerModel) -> PRes<ExtDeclModel> {
    match spec_function_definition(m) {
        Err(e) => Err(e),
        Ok((f, m2)) => Ok((ExtDeclModel::FunctionDefinition(f), m2)),
    }
}

pub proof fn lemma_external_declaration_frame(m: LexerModel)
    requires
        m.wf(),
    ensures
        match spec_external_declaration(m) {
            Ok((v, m2)) => m2.source == m.source && m2.file == m.file && m2.wf()
                && m.pos.index < m2.pos.index,
            Err((e, m2)) => m2.source == m.source && m2.file == m.file && m2.wf(),
        },
{
    lemma_function_definition_frame(m);
}

/// One or more external declarations, then the end of input.
pub open spec fn spec_translation_unit(m: LexerModel) -> PRes<Seq<ExtDeclModel>> {
    match spec_many1::<ExternalDeclaration>(m) {
        Err(e) => Err(e),
        Ok((decls, m2)) => match spec_expect_eof(m2) {
            Err(e) => Err(e),
            Ok(m3) => Ok((decls, m3)),
        },
    }
}

/// A parsed translation unit holds at least one external declaration, and
/// frames the lexer like any rule.
pub proof fn lemma_translation_unit_frame(m: LexerModel)
    requires
        m.wf(),
    ensures
        match spec_translation_unit(m) {
            Ok((vs, m2)) => m2.source == m.source && m2.file == m.file && m2.wf()
                && m.pos.index < m2.pos.index && vs.len() >= 1,
            Err((e, m2)) => m2.source == m.source && m2.file == m.file && m2.wf(),
        },
{
    lemma_many1_frame::<ExternalDeclaration>(m);
    match spec_many1::<ExternalDeclaration>(m) {
        Ok((decls, m2)) => {
            lemma_expect_eof_frame(m2);
        },
        Err(e) => {},
    }
}

impl Parse for FunctionDefinition {
    open spec fn spec_parse(m: LexerModel) -> PRes<FuncDefModel> {
        spec_function_definition(m)
    }

    proof fn lemma_frame(m: LexerModel) {
        lemma_function_definition_frame(m);
    }

    fn parse(parser: &mut Parser) -> (r: Result<Self, ParseError>) {
        let ghost m0 = old(parser)@;
        proof {
            assert(<FunctionDefinition as Parse>::spec_parse(m0) == spec_function_definition(
                m0,
            ));
            assert(<CompoundStatement as Parse>::spec_parse(m0) == spec_compound(m0));
        }
        let int_token = match parser.expect(TokenKind::Int) {
            Err(e) => {
                return Err(e);
            },
            Ok(t) => t,
        };
        let identifier = match parser.expect_identifier() {
            Err(e) => {
                return Err(e);
            },
            Ok(name) => name,
        };
        match parser.expect(TokenKind::LParen) {
            Err(e) => {
                return Err(e);
            },
            Ok(_) => {},
        }
        match parser.expect(TokenKind::RParen) {
            Err(e) => {
                return Err(e);
            },
            Ok(_) => {},
        }
        let body = match CompoundStatement::parse(parser) {
            Err(e) => {
                return Err(e);
            },
            Ok(b) => b,
        };
        Ok(FunctionDefinition { location: int_token.location, identifier, body })
    }
}

impl Parse for ExternalDeclaration {
    open spec fn spec_parse(m: LexerModel) -> PRes<ExtDeclModel> {
        spec_external_declaration(m)
    }

    proof fn lemma_frame(m: LexerModel) {
        lemma_external_declaration_frame(m);
    }

    fn parse(parser: &mut Parser) -> (r: Result<Self, ParseError>) {
        let ghost m0 = old(parser)@;
        proof {
            assert(<FunctionDefinition as Parse>::spec_parse(m0) == spec_function_definition(
                m0,
            ));
            assert(<ExternalDeclaration as Parse>::spec_parse(m0) == spec_external_declaration(
                m0,
            ));
        }
        match FunctionDefinition::parse(parser) {
            Err(e) => Err(e),
            Ok(function_definition) => Ok(
                ExternalDeclaration::FunctionDefinition(function_definition),
            ),
        }
    }
}

impl Parse for TranslationUnit {
    open spec fn spec_parse(m: LexerModel) -> PRes<Seq<ExtDeclModel>> {
        spec_translation_unit(m)
    }

    proof fn lemma_frame(m: LexerModel) {
        lemma_translation_unit_frame(m);
    }

    fn parse(parser: &mut Parser) -> (r: Result<Self, ParseError>) {
        let ghost m0 = old(parser)@;
        proof {
            assert(<TranslationUnit as Parse>::spec_parse(m0) == spec_translation_unit(m0));
        }
        let external_declarations = match parser.many1::<ExternalDeclaration>() {
            Err(e) => {
                return Err(e);
            },
            Ok(decls) => decls,
        };
        match parser.expect_eof() {
            Err(e) => {
                return Err(e);
            },
            Ok(_) => {},
        }
        Ok(TranslationUnit(external_declarations))
    }
}



} // verus!
