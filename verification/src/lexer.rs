//! Lexer: a stateful scanner over a byte buffer that hands out one token at a
//! time and can be rewound to any previously saved position, which is how the
//! parser backtracks.
//!
//! The mathematical model: a lexer is a file name, an immutable byte
//! sequence, and a cursor (`PosModel`).  `lex_next` says exactly which token
//! the next call to [`Lexer::next`] returns and where the cursor lands, as a
//! pure function of that model, so rescanning after a rewind is inherently
//! deterministic.

use vstd::prelude::*;

use crate::text::{eco_chars, eco_clone, eco_from_str, lossy_text, push_char, utf8_lossy};
use ecow::EcoString;
use vstd::utf8::{decode_utf8, valid_utf8};

verus! {

// ---------------------------------------------------------------------------
// Models
// ---------------------------------------------------------------------------

/// Model of a source location: file name characters and 0-indexed line and
/// column.
#[verifier::ext_equal]
pub struct LocModel {
    pub file: Seq<char>,
    pub line: nat,
    pub column: nat,
}

/// Model of a token kind; identifier payloads are plain character sequences.
#[verifier::ext_equal]
pub enum KindModel {
    Int,
    Return,
    Identifier(Seq<char>),
    Integer(i64),
    LParen,
    RParen,
    LBrace,
    RBrace,
    Plus,
    Minus,
    Asterisk,
    Slash,
    Percent,
    SemiColon,
    Unknown(u8),
}

/// Model of a token: its location and kind.
#[verifier::ext_equal]
pub struct TokenModel {
    pub location: LocModel,
    pub kind: KindModel,
}

/// Model of a scanner cursor: 0-indexed line and column plus the byte index.
#[verifier::ext_equal]
pub struct PosModel {
    pub line: nat,
    pub column: nat,
    pub index: nat,
}

impl PosModel {
    /// A cursor is well formed for a buffer when it lies inside the buffer;
    /// line and column never exceed the number of bytes consumed.
    pub open spec fn wf(self, src: Seq<u8>) -> bool {
        self.index <= src.len() && self.column <= self.index && self.line <= self.index
    }
}

/// Model of a whole lexer.
#[verifier::ext_equal]
pub struct LexerModel {
    pub file: Seq<char>,
    pub source: Seq<u8>,
    pub pos: PosModel,
}

impl LexerModel {
    pub open spec fn wf(self) -> bool {
        self.pos.wf(self.source)
    }

    /// The location the next token would start at.
    pub open spec fn loc(self) -> LocModel {
        LocModel { file: self.file, line: self.pos.line, column: self.pos.column }
    }

    /// The same lexer with the cursor moved.
    pub open spec fn with_pos(self, p: PosModel) -> LexerModel {
        LexerModel { file: self.file, source: self.source, pos: p }
    }
}

// ---------------------------------------------------------------------------
// Byte classes
// ---------------------------------------------------------------------------

/// ASCII whitespace, as `u8::is_ascii_whitespace` defines it.
pub open spec fn is_space(b: u8) -> bool {
    b == 32 || b == 9 || b == 10 || b == 12 || b == 13
}

pub open spec fn is_digit(b: u8) -> bool {
    48 <= b && b <= 57
}

pub open spec fn is_word_start(b: u8) -> bool {
    (97 <= b && b <= 122) || (65 <= b && b <= 90) || b == 95
}

pub open spec fn is_word_byte(b: u8) -> bool {
    is_word_start(b) || is_digit(b)
}

// ---------------------------------------------------------------------------
// Cursor movement
// ---------------------------------------------------------------------------

/// One byte consumed: a newline starts the next line, anything else moves one
/// column to the right.
pub open spec fn advance_pos(p: PosModel, b: u8) -> PosModel {
    if b == 10 {
        PosModel { line: p.line + 1, column: 0, index: p.index + 1 }
    } else {
        PosModel { line: p.line, column: p.column + 1, index: p.index + 1 }
    }
}

/// `n` newline-free bytes consumed.
pub open spec fn advance_by(p: PosModel, n: nat) -> PosModel {
    PosModel { line: p.line, column: p.column + n, index: p.index + n }
}

/// The cursor after skipping the whitespace run that starts at `p`.
pub open spec fn skip_spaces(src: Seq<u8>, p: PosModel) -> PosModel
    decreases src.len() - p.index,
{
    if p.index < src.len() && is_space(src[p.index as int]) {
        skip_spaces(src, advance_pos(p, src[p.index as int]))
    } else {
        p
    }
}

/// End of the maximal digit run starting at `i`.
pub open spec fn digits_end(src: Seq<u8>, i: nat) -> nat
    decreases src.len() - i,
{
    if i < src.len() && is_digit(src[i as int]) {
        digits_end(src, i + 1)
    } else {
        i
    }
}

/// End of the maximal identifier run starting at `i`.
pub open spec fn word_end(src: Seq<u8>, i: nat) -> nat
    decreases src.len() - i,
{
    if i < src.len() && is_word_byte(src[i as int]) {
        word_end(src, i + 1)
    } else {
        i
    }
}

// ---------------------------------------------------------------------------
// Token contents
// ---------------------------------------------------------------------------

/// The mathematical value of a run of ASCII digits.
pub open spec fn digits_val(s: Seq<u8>) -> int
    decreases s.len(),
{
    if s.len() == 0 {
        0
    } else {
        digits_val(s.drop_last()) * 10 + (s.last() - 48)
    }
}

/// Integer literals saturate at `i64::MAX` instead of overflowing.
pub open spec fn sat_i64(v: int) -> i64 {
    if v > i64::MAX {
        i64::MAX
    } else {
        v as i64
    }
}

/// ASCII bytes read as characters, one character per byte.
pub open spec fn ascii_chars(s: Seq<u8>) -> Seq<char> {
    s.map_values(|b: u8| b as char)
}

/// An identifier run classified against the keyword table.
pub open spec fn word_kind(w: Seq<u8>) -> KindModel {
    if w == seq![105u8, 110u8, 116u8] {
        KindModel::Int
    } else if w == seq![114u8, 101u8, 116u8, 117u8, 114u8, 110u8] {
        KindModel::Return
    } else {
        KindModel::Identifier(ascii_chars(w))
    }
}

/// The kind and end index of the token that starts at the non-space byte `i`.
pub open spec fn token_kind_from(src: Seq<u8>, i: nat) -> (KindModel, nat) {
    let b = src[i as int];
    if is_digit(b) {
        (
            KindModel::Integer(
                sat_i64(digits_val(src.subrange(i as int, digits_end(src, i) as int))),
            ),
            digits_end(src, i),
        )
    } else if is_word_start(b) {
        (word_kind(src.subrange(i as int, word_end(src, i) as int)), word_end(src, i))
    } else if b == 40 {
        (KindModel::LParen, i + 1)
    } else if b == 41 {
        (KindModel::RParen, i + 1)
    } else if b == 123 {
        (KindModel::LBrace, i + 1)
    } else if b == 125 {
        (KindModel::RBrace, i + 1)
    } else if b == 43 {
        (KindModel::Plus, i + 1)
    } else if b == 45 {
        (KindModel::Minus, i + 1)
    } else if b == 42 {
        (KindModel::Asterisk, i + 1)
    } else if b == 47 {
        (KindModel::Slash, i + 1)
    } else if b == 37 {
        (KindModel::Percent, i + 1)
    } else if b == 59 {
        (KindModel::SemiColon, i + 1)
    } else {
        (KindModel::Unknown(b), i + 1)
    }
}

/// What one call to [`Lexer::next`] does: the token produced (if any) and the
/// lexer afterwards, as a pure function of the lexer before.
pub open spec fn lex_next(m: LexerModel) -> (Option<TokenModel>, LexerModel) {
    let p = skip_spaces(m.source, m.pos);
    if p.index >= m.source.len() {
        (None, m.with_pos(p))
    } else {
        let (k, e) = token_kind_from(m.source, p.index);
        (
            Some(
                TokenModel {
                    location: LocModel { file: m.file, line: p.line, column: p.column },
                    kind: k,
                },
            ),
            m.with_pos(advance_by(p, (e - p.index) as nat)),
        )
    }
}

// ---------------------------------------------------------------------------
// Bounds and progress lemmas
// ---------------------------------------------------------------------------

pub proof fn lemma_skip_spaces(src: Seq<u8>, p: PosModel)
    requires
        p.wf(src),
    ensures
        skip_spaces(src, p).wf(src),
        p.index <= skip_spaces(src, p).index,
    decreases src.len() - p.index,
{
    if p.index < src.len() && is_space(src[p.index as int]) {
        lemma_skip_spaces(src, advance_pos(p, src[p.index as int]));
    }
}

/// Skipping whitespace stops at the end of input or at a non-space byte.
pub proof fn lemma_skip_spaces_stops(src: Seq<u8>, p: PosModel)
    ensures
        ({
            let q = skip_spaces(src, p);
            q.index >= src.len() || !is_space(src[q.index as int])
        }),
    decreases src.len() - p.index,
{
    if p.index < src.len() && is_space(src[p.index as int]) {
        lemma_skip_spaces_stops(src, advance_pos(p, src[p.index as int]));
    }
}

pub proof fn lemma_digits_end(src: Seq<u8>, i: nat)
    requires
        i <= src.len(),
    ensures
        i <= digits_end(src, i) <= src.len(),
    decreases src.len() - i,
{
    if i < src.len() && is_digit(src[i as int]) {
        lemma_digits_end(src, i + 1);
    }
}

pub proof fn lemma_word_end(src: Seq<u8>, i: nat)
    requires
        i <= src.len(),
    ensures
        i <= word_end(src, i) <= src.len(),
    decreases src.len() - i,
{
    if i < src.len() && is_word_byte(src[i as int]) {
        lemma_word_end(src, i + 1);
    }
}

/// A produced token always consumes at least one byte, and the cursor stays
/// inside the buffer; at the end of input the cursor lands exactly on the
/// buffer's end.
pub proof fn lemma_lex_next(m: LexerModel)
    requires
        m.wf(),
    ensures
        ({
            let (t, m2) = lex_next(m);
            &&& m2.file == m.file
            &&& m2.source == m.source
            &&& m2.wf()
            &&& (t is Some ==> m.pos.index < m2.pos.index)
            &&& (t is None ==> m2.pos.index == m.source.len())
        }),
{
    lemma_skip_spaces(m.source, m.pos);
    let p = skip_spaces(m.source, m.pos);
    if p.index < m.source.len() {
        let b = m.source[p.index as int];
        if is_digit(b) {
            lemma_digits_end(m.source, p.index + 1);
            assert(digits_end(m.source, p.index) == digits_end(m.source, p.index + 1));
        } else if is_word_start(b) {
            lemma_word_end(m.source, p.index + 1);
            assert(word_end(m.source, p.index) == word_end(m.source, p.index + 1));
        }
    }
}

// ---------------------------------------------------------------------------
// Lines (for diagnostics)
// ---------------------------------------------------------------------------

/// Start index of the line containing byte index `i`.
pub open spec fn line_start(src: Seq<u8>, i: nat) -> nat
    decreases i,
{
    if i > 0 && src[i - 1] != 10 {
        line_start(src, (i - 1) as nat)
    } else {
        i
    }
}

/// End index (exclusive) of the line containing byte index `i`.
pub open spec fn line_end(src: Seq<u8>, i: nat) -> nat
    decreases src.len() - i,
{
    if i < src.len() && src[i as int] != 10 {
        line_end(src, i + 1)
    } else {
        i
    }
}

/// The text of the line containing byte index `i`: the decoded UTF-8 text
/// of its bytes; where they are not valid UTF-8, the lossy decoding (invalid
/// sequences replaced, never a panic).
pub open spec fn line_chars(src: Seq<u8>, i: nat) -> Seq<char> {
    let bytes = src.subrange(line_start(src, i) as int, line_end(src, i) as int);
    if valid_utf8(bytes) {
        decode_utf8(bytes)
    } else {
        lossy_text(bytes)
    }
}

/// All tokens still to come: the whole remaining scan as a pure function of
/// the lexer model.
pub open spec fn tokens_from(m: LexerModel) -> Seq<TokenModel>
    decreases m.source.len() - m.pos.index,
{
    if !m.wf() {
        seq![]
    } else {
        let (t, m2) = lex_next(m);
        match t {
            None => seq![],
            Some(tok) => {
                proof {
                    lemma_lex_next(m);
                }
                seq![tok] + tokens_from(m2)
            },
        }
    }
}

// ---------------------------------------------------------------------------
// Exec types
// ---------------------------------------------------------------------------

/// A source position attached to tokens and AST nodes; 0-indexed internally,
/// rendered 1-indexed by diagnostics.
#[derive(Debug, PartialEq)]
pub struct Location {
    pub filename: EcoString,
    /// 0-indexed
    pub line: usize,
    /// 0-indexed
    pub column: usize,
}

impl View for Location {
    type V = LocModel;

    open spec fn view(&self) -> LocModel {
        LocModel {
            file: eco_chars(self.filename),
            line: self.line as nat,
            column: self.column as nat,
        }
    }
}

impl DeepView for Location {
    type V = LocModel;

    open spec fn deep_view(&self) -> LocModel {
        self.view()
    }
}

impl Location {
    /// A copy of this location; the interned file name is shared cheaply.
    pub fn duplicate(&self) -> (l: Location)
        ensures
            l@ == self@,
    {
        Location {
            filename: eco_clone(&self.filename),
            line: self.line,
            column: self.column,
        }
    }
}

/// The closed set of lexical categories.
#[derive(Debug, PartialEq)]
pub enum TokenKind {
    // keywords
    Int,
    Return,
    // identifier
    Identifier(EcoString),
    // constant
    Integer(i64),
    // punctuators
    LParen,
    RParen,
    LBrace,
    RBrace,
    Plus,
    Minus,
    Asterisk,
    Slash,
    Percent,
    SemiColon,
    // error catch-all
    Unknown(u8),
}

impl View for TokenKind {
    type V = KindModel;

    open spec fn view(&self) -> KindModel {
        match self {
            TokenKind::Int => KindModel::Int,
            TokenKind::Return => KindModel::Return,
            TokenKind::Identifier(s) => KindModel::Identifier(eco_chars(*s)),
            TokenKind::Integer(v) => KindModel::Integer(*v),
            TokenKind::LParen => KindModel::LParen,
            TokenKind::RParen => KindModel::RParen,
            TokenKind::LBrace => KindModel::LBrace,
            TokenKind::RBrace => KindModel::RBrace,
            TokenKind::Plus => KindModel::Plus,
            TokenKind::Minus => KindModel::Minus,
            TokenKind::Asterisk => KindModel::Asterisk,
            TokenKind::Slash => KindModel::Slash,
            TokenKind::Percent => KindModel::Percent,
            TokenKind::SemiColon => KindModel::SemiColon,
            TokenKind::Unknown(b) => KindModel::Unknown(*b),
        }
    }
}

impl DeepView for TokenKind {
    type V = KindModel;

    open spec fn deep_view(&self) -> KindModel {
        self.view()
    }
}

/// One token: where it starts and what it is.
#[derive(Debug)]
pub struct Token {
    pub location: Location,
    pub kind: TokenKind,
}

impl View for Token {
    type V = TokenModel;

    open spec fn view(&self) -> TokenModel {
        TokenModel { location: self.location@, kind: self.kind@ }
    }
}

/// An opaque scanner checkpoint; restoring it rewinds the lexer exactly.
#[derive(Debug, Clone, Copy)]
pub struct Position {
    line: usize,
    column: usize,
    index: usize,
}

impl View for Position {
    type V = PosModel;

    closed spec fn view(&self) -> PosModel {
        PosModel { line: self.line as nat, column: self.column as nat, index: self.index as nat }
    }
}

/// The scanner itself.
pub struct Lexer {
    filename: EcoString,
    current_line: usize,
    current_column: usize,
    source: Vec<u8>,
    index: usize,
}

impl View for Lexer {
    type V = LexerModel;

    closed spec fn view(&self) -> LexerModel {
        LexerModel {
            file: eco_chars(self.filename),
            source: self.source@,
            pos: PosModel {
                line: self.current_line as nat,
                column: self.current_column as nat,
                index: self.index as nat,
            },
        }
    }
}

impl Lexer {
    pub fn new(filename: EcoString, source: Vec<u8>) -> (l: Lexer)
        ensures
            l@.file == eco_chars(filename),
            l@.source == source@,
            l@.pos == (PosModel { line: 0, column: 0, index: 0 }),
            l@.wf(),
    {
        Lexer { filename, current_line: 0, current_column: 0, source, index: 0 }
    }

    /// An O(1) checkpoint of the cursor, for later [`Lexer::set_position`].
    pub fn current_position(&self) -> (p: Position)
        ensures
            p@ == self@.pos,
    {
        Position { line: self.current_line, column: self.current_column, index: self.index }
    }

    /// Rewinds (or forwards) the cursor to a previously taken checkpoint;
    /// scanning resumes exactly as if the lexer had never moved past it.
    pub fn set_position(&mut self, position: Position)
        requires
            position@.wf(old(self)@.source),
        ensures
            final(self)@ == old(self)@.with_pos(position@),
    {
        self.current_line = position.line;
        self.current_column = position.column;
        self.index = position.index;
        proof {
            assert(self@ =~= old(self)@.with_pos(position@));
        }
    }

    /// The location the next token would start at (used by diagnostics at end
    /// of input).
    pub fn current_location(&self) -> (loc: Location)
        ensures
            loc@ == self@.loc(),
    {
        Location {
            filename: eco_clone(&self.filename),
            line: self.current_line,
            column: self.current_column,
        }
    }

    /// The full text of the line the cursor stands in, found by scanning back
    /// to the previous newline and forward to the next one, decoded as
    /// UTF-8; invalid sequences are replaced rather than panicking.
    pub fn current_line(&self) -> (s: String)
        requires
            self@.wf(),
        ensures
            s@ == line_chars(self@.source, self@.pos.index),
    {
        let ghost src = self@.source;
        let ghost i0 = self@.pos.index;
        let mut start: usize = self.index;
        while start > 0 && self.source[start - 1] != 10
            invariant
                self@.wf(),
                src == self@.source,
                i0 == self@.pos.index,
                start as nat <= i0,
                line_start(src, i0) == line_start(src, start as nat),
            decreases start,
        {
            start = start - 1;
        }
        let mut end: usize = self.index;
        while end < self.source.len() && self.source[end] != 10
            invariant
                self@.wf(),
                src == self@.source,
                i0 == self@.pos.index,
                i0 <= end as nat <= src.len(),
                line_end(src, i0) == line_end(src, end as nat),
            decreases src.len() - end,
        {
            end = end + 1;
        }
        assert(start as nat == line_start(src, i0));
        assert(end as nat == line_end(src, i0));
        let mut bytes: Vec<u8> = Vec::new();
        let mut k: usize = start;
        while k < end
            invariant
                self@.wf(),
                src == self@.source,
                start <= k <= end,
                end as nat <= src.len(),
                bytes@ == src.subrange(start as int, k as int),
            decreases end - k,
        {
            bytes.push(self.source[k]);
            k = k + 1;
            proof {
                assert(bytes@ =~= src.subrange(start as int, k as int));
            }
        }
        let s = utf8_lossy(&bytes);
        assert(s@ == line_chars(src, i0));
        s
    }

    fn current_char(&self) -> (r: Option<u8>)
        requires
            self@.wf(),
        ensures
            r == (if self@.pos.index < self@.source.len() {
                Some(self@.source[self@.pos.index as int])
            } else {
                None::<u8>
            }),
    {
        if self.index < self.source.len() {
            Some(self.source[self.index])
        } else {
            None
        }
    }

    /// Consumes exactly one byte, keeping line and column in step.
    fn skip1(&mut self)
        requires
            old(self)@.wf(),
            old(self)@.pos.index < old(self)@.source.len(),
        ensures
            final(self)@ == old(self)@.with_pos(
                advance_pos(old(self)@.pos, old(self)@.source[old(self)@.pos.index as int]),
            ),
            final(self)@.wf(),
    {
        let n: usize = self.source.len();
        let c = self.source[self.index];
        self.index = self.index + 1;
        if c == 10 {
            self.current_line = self.current_line + 1;
            self.current_column = 0;
        } else {
            self.current_column = self.current_column + 1;
        }
        proof {
            assert(self@ =~= old(self)@.with_pos(
                advance_pos(old(self)@.pos, old(self)@.source[old(self)@.pos.index as int]),
            ));
        }
    }

    /// Skips the run of ASCII whitespace under the cursor.
    fn skip_whitespace(&mut self)
        requires
            old(self)@.wf(),
        ensures
            final(self)@ == old(self)@.with_pos(
                skip_spaces(old(self)@.source, old(self)@.pos),
            ),
            final(self)@.wf(),
    {
        let ghost m0 = old(self)@;
        loop
            invariant
                self@.wf(),
                self@.file == m0.file,
                self@.source == m0.source,
                skip_spaces(self@.source, self@.pos) == skip_spaces(m0.source, m0.pos),
            ensures
                self@.wf(),
                self@.file == m0.file,
                self@.source == m0.source,
                skip_spaces(self@.source, self@.pos) == skip_spaces(m0.source, m0.pos),
                self@.pos.index >= self@.source.len() || !is_space(
                    self@.source[self@.pos.index as int],
                ),
            decreases self@.source.len() - self@.pos.index,
        {
            if self.index >= self.source.len() {
                break;
            }
            let c = self.source[self.index];
            if c == 32 || c == 9 || c == 10 || c == 12 || c == 13 {
                self.skip1();
            } else {
                break;
            }
        }
        proof {
            assert(self@ =~= m0.with_pos(skip_spaces(m0.source, m0.pos)));
        }
    }

    /// Greedily consumes a maximal digit run and returns its value, saturating
    /// at `i64::MAX`.
    fn scan_int(&mut self) -> (v: i64)
        requires
            old(self)@.wf(),
            old(self)@.pos.index < old(self)@.source.len(),
            is_digit(old(self)@.source[old(self)@.pos.index as int]),
        ensures
            final(self)@ == old(self)@.with_pos(
                advance_by(
                    old(self)@.pos,
                    (digits_end(old(self)@.source, old(self)@.pos.index)
                        - old(self)@.pos.index) as nat,
                ),
            ),
            final(self)@.wf(),
            v == sat_i64(
                digits_val(
                    old(self)@.source.subrange(
                        old(self)@.pos.index as int,
                        digits_end(old(self)@.source, old(self)@.pos.index) as int,
                    ),
                ),
            ),
    {
        let ghost src = old(self)@.source;
        let ghost p0 = old(self)@.pos;
        proof {
            lemma_digits_end(src, p0.index);
        }
        let mut acc: i64 = 0;
        loop
            invariant
                self@.wf(),
                self@.file == old(self)@.file,
                self@.source == src,
                self@.pos == advance_by(p0, (self@.pos.index - p0.index) as nat),
                p0.index <= self@.pos.index <= digits_end(src, p0.index) <= src.len(),
                digits_end(src, self@.pos.index) == digits_end(src, p0.index),
                forall|j: int|
                    p0.index <= j < self@.pos.index ==> is_digit(#[trigger] src[j]),
                acc == sat_i64(
                    digits_val(src.subrange(p0.index as int, self@.pos.index as int)),
                ),
            ensures
                self@.wf(),
                self@.file == old(self)@.file,
                self@.source == src,
                self@.pos == advance_by(p0, (self@.pos.index - p0.index) as nat),
                self@.pos.index == digits_end(src, p0.index),
                acc == sat_i64(
                    digits_val(src.subrange(p0.index as int, self@.pos.index as int)),
                ),
            decreases src.len() - self@.pos.index,
        {
            if self.index >= self.source.len() {
                break;
            }
            let c = self.source[self.index];
            if !(48 <= c && c <= 57) {
                break;
            }
            let ghost i = self@.pos.index;
            let ghost run = src.subrange(p0.index as int, i as int);
            let ghost run2 = src.subrange(p0.index as int, i as int + 1);
            proof {
                assert(run2.drop_last() =~= run);
                lemma_digits_val_nonneg(run);
            }
            proof {
                lemma_digits_end(src, i + 1);
            }
            let d: i64 = (c - 48) as i64;
            if acc < i64::MAX / 10 || (acc == i64::MAX / 10 && d <= i64::MAX % 10) {
                acc = acc * 10 + d;
            } else {
                proof {
                    assert(digits_val(run2) > i64::MAX);
                }
                acc = i64::MAX;
            }
            self.index = self.index + 1;
            self.current_column = self.current_column + 1;
            proof {
                assert(self@.pos =~= advance_by(p0, (self@.pos.index - p0.index) as nat));
            }
        }
        acc
    }

    /// Greedily consumes a maximal identifier run and classifies it against
    /// the keyword table.
    fn scan_word(&mut self) -> (k: TokenKind)
        requires
            old(self)@.wf(),
            old(self)@.pos.index < old(self)@.source.len(),
            is_word_start(old(self)@.source[old(self)@.pos.index as int]),
        ensures
            final(self)@ == old(self)@.with_pos(
                advance_by(
                    old(self)@.pos,
                    (word_end(old(self)@.source, old(self)@.pos.index)
                        - old(self)@.pos.index) as nat,
                ),
            ),
            final(self)@.wf(),
            k@ == word_kind(
                old(self)@.source.subrange(
                    old(self)@.pos.index as int,
                    word_end(old(self)@.source, old(self)@.pos.index) as int,
                ),
            ),
    {
        let ghost src = old(self)@.source;
        let ghost p0 = old(self)@.pos;
        proof {
            lemma_word_end(src, p0.index);
        }
        let start: usize = self.index;
        let mut w = String::new();
        loop
            invariant
                self@.wf(),
                self@.file == old(self)@.file,
                self@.source == src,
                start as nat == p0.index,
                self@.pos == advance_by(p0, (self@.pos.index - p0.index) as nat),
                p0.index <= self@.pos.index <= word_end(src, p0.index) <= src.len(),
                word_end(src, self@.pos.index) == word_end(src, p0.index),
                w@ == ascii_chars(src.subrange(p0.index as int, self@.pos.index as int)),
            ensures
                self@.wf(),
                self@.file == old(self)@.file,
                self@.source == src,
                self@.pos == advance_by(p0, (self@.pos.index - p0.index) as nat),
                self@.pos.index == word_end(src, p0.index),
                w@ == ascii_chars(src.subrange(p0.index as int, self@.pos.index as int)),
            decreases src.len() - self@.pos.index,
        {
            if self.index >= self.source.len() {
                break;
            }
            let c = self.source[self.index];
            if !((97 <= c && c <= 122) || (65 <= c && c <= 90) || c == 95 || (48 <= c && c
                <= 57)) {
                break;
            }
            proof {
                lemma_word_end(src, self@.pos.index + 1);
            }
            push_char(&mut w, c as char);
            self.index = self.index + 1;
            self.current_column = self.current_column + 1;
            proof {
                assert(self@.pos =~= advance_by(p0, (self@.pos.index - p0.index) as nat));
                assert(w@ =~= ascii_chars(src.subrange(p0.index as int, self@.pos.index as int)));
            }
        }
        let end: usize = self.index;
        let ghost run = src.subrange(p0.index as int, word_end(src, p0.index) as int);
        let n: usize = end - start;
        if n == 3 && self.source[start] == 105 && self.source[start + 1] == 110
            && self.source[start + 2] == 116 {
            proof {
                assert(run =~= seq![105u8, 110u8, 116u8]);
            }
            TokenKind::Int
        } else if n == 6 && self.source[start] == 114 && self.source[start + 1] == 101
            && self.source[start + 2] == 116 && self.source[start + 3] == 117
            && self.source[start + 4] == 114 && self.source[start + 5] == 110 {
            proof {
                assert(run =~= seq![114u8, 101u8, 116u8, 117u8, 114u8, 110u8]);
            }
            TokenKind::Return
        } else {
            proof {
                if run == seq![105u8, 110u8, 116u8] {
                    assert(run[0] == 105 && run[1] == 110 && run[2] == 116);
                    assert(false);
                }
                if run == seq![114u8, 101u8, 116u8, 117u8, 114u8, 110u8] {
                    assert(run[0] == 114 && run[1] == 101 && run[2] == 116 && run[3] == 117
                        && run[4] == 114 && run[5] == 110);
                    assert(false);
                }
            }
            TokenKind::Identifier(eco_from_str(w.as_str()))
        }
    }

    /// Produces the next token, or `None` at the end of input.  Exactly
    /// [`lex_next`] on the lexer's model.
    pub fn next(&mut self) -> (r: Option<Token>)
        requires
            old(self)@.wf(),
        ensures
            final(self)@ == lex_next(old(self)@).1,
            final(self)@.wf(),
            match lex_next(old(self)@).0 {
                Option::None => r is None,
                Option::Some(tm) => r is Some && r->Some_0@ == tm,
            },
    {
        proof {
            lemma_lex_next(old(self)@);
            lemma_skip_spaces_stops(old(self)@.source, old(self)@.pos);
        }
        self.skip_whitespace();
        let location = self.current_location();
        let copt = self.current_char();
        match copt {
            None => {
                proof {
                    assert(self@ =~= lex_next(old(self)@).1);
                }
                None
            },
            Some(c) => {
                let kind: TokenKind;
                if 48 <= c && c <= 57 {
                    let v = self.scan_int();
                    kind = TokenKind::Integer(v);
                } else if (97 <= c && c <= 122) || (65 <= c && c <= 90) || c == 95 {
                    kind = self.scan_word();
                } else {
                    self.skip1();
                    kind = if c == 40 {
                        TokenKind::LParen
                    } else if c == 41 {
                        TokenKind::RParen
                    } else if c == 123 {
                        TokenKind::LBrace
                    } else if c == 125 {
                        TokenKind::RBrace
                    } else if c == 43 {
                        TokenKind::Plus
                    } else if c == 45 {
                        TokenKind::Minus
                    } else if c == 42 {
                        TokenKind::Asterisk
                    } else if c == 47 {
                        TokenKind::Slash
                    } else if c == 37 {
                        TokenKind::Percent
                    } else if c == 59 {
                        TokenKind::SemiColon
                    } else {
                        TokenKind::Unknown(c)
                    };
                }
                proof {
                    assert(self@ =~= lex_next(old(self)@).1);
                }
                Some(Token { location, kind })
            },
        }
    }
}

// ---------------------------------------------------------------------------
// Laws
// ---------------------------------------------------------------------------

/// Newlines among the first `i` bytes.
pub open spec fn nl_count(src: Seq<u8>, i: nat) -> nat
    decreases i,
{
    if i == 0 {
        0
    } else {
        nl_count(src, (i - 1) as nat) + (if src[i - 1] == 10 {
            1nat
        } else {
            0nat
        })
    }
}

/// A cursor is accurate when its line is the number of newlines before it and
/// its column the number of bytes consumed since the last newline.
pub open spec fn accurate(src: Seq<u8>, p: PosModel) -> bool {
    &&& p.index <= src.len()
    &&& p.line == nl_count(src, p.index)
    &&& p.column == p.index - line_start(src, p.index)
}

/// A fresh lexer's cursor is accurate, so location tracking holds of every
/// token a scan from the start produces.
pub proof fn lemma_start_accurate(src: Seq<u8>)
    ensures
        accurate(src, PosModel { line: 0, column: 0, index: 0 }),
{
}

pub proof fn lemma_line_start_le(src: Seq<u8>, i: nat)
    ensures
        line_start(src, i) <= i,
    decreases i,
{
    if i > 0 && src[i - 1] != 10 {
        lemma_line_start_le(src, (i - 1) as nat);
    }
}

proof fn lemma_advance_accurate(src: Seq<u8>, p: PosModel)
    requires
        accurate(src, p),
        p.index < src.len(),
    ensures
        accurate(src, advance_pos(p, src[p.index as int])),
{
    lemma_line_start_le(src, p.index);
}

proof fn lemma_skip_spaces_accurate(src: Seq<u8>, p: PosModel)
    requires
        accurate(src, p),
    ensures
        accurate(src, skip_spaces(src, p)),
    decreases src.len() - p.index,
{
    if p.index < src.len() && is_space(src[p.index as int]) {
        lemma_advance_accurate(src, p);
        lemma_skip_spaces_accurate(src, advance_pos(p, src[p.index as int]));
    }
}

proof fn lemma_advance_by_accurate(src: Seq<u8>, p: PosModel, n: nat)
    requires
        accurate(src, p),
        p.index + n <= src.len(),
        forall|j: int| p.index <= j < p.index + n ==> #[trigger] src[j] != 10,
    ensures
        accurate(src, advance_by(p, n)),
    decreases n,
{
    if n > 0 {
        lemma_advance_by_accurate(src, p, (n - 1) as nat);
        lemma_advance_accurate(src, advance_by(p, (n - 1) as nat));
        assert(advance_by(p, n) =~= advance_pos(
            advance_by(p, (n - 1) as nat),
            src[p.index + n - 1],
        ));
    }
}

proof fn lemma_digits_end_all(src: Seq<u8>, i: nat)
    ensures
        forall|j: int| i <= j < digits_end(src, i) ==> is_digit(#[trigger] src[j]),
    decreases src.len() - i,
{
    if i < src.len() && is_digit(src[i as int]) {
        lemma_digits_end_all(src, i + 1);
    }
}

proof fn lemma_word_end_all(src: Seq<u8>, i: nat)
    ensures
        forall|j: int| i <= j < word_end(src, i) ==> is_word_byte(#[trigger] src[j]),
    decreases src.len() - i,
{
    if i < src.len() && is_word_byte(src[i as int]) {
        lemma_word_end_all(src, i + 1);
    }
}

/// Location tracking: starting from an accurate cursor, every token the lexer
/// produces is located at the true line and column of its first byte — its
/// line is the number of newlines before that byte and its column the number
/// of bytes since the last newline — and the cursor stays accurate, so the
/// same holds of every later token.
pub proof fn lemma_location_tracking(m: LexerModel)
    requires
        m.wf(),
        accurate(m.source, m.pos),
    ensures
        ({
            let (t, m2) = lex_next(m);
            &&& accurate(m.source, m2.pos)
            &&& (t matches Some(tok) ==> {
                let s = skip_spaces(m.source, m.pos);
                &&& tok.location.line == nl_count(m.source, s.index)
                &&& tok.location.column == s.index - line_start(m.source, s.index)
            })
        }),
{
    lemma_skip_spaces(m.source, m.pos);
    lemma_skip_spaces_accurate(m.source, m.pos);
    lemma_skip_spaces_stops(m.source, m.pos);
    let p = skip_spaces(m.source, m.pos);
    if p.index < m.source.len() {
        let b = m.source[p.index as int];
        let (k, e) = token_kind_from(m.source, p.index);
        if is_digit(b) {
            lemma_digits_end(m.source, p.index);
            lemma_digits_end_all(m.source, p.index);
        } else if is_word_start(b) {
            lemma_word_end(m.source, p.index);
            lemma_word_end_all(m.source, p.index);
        }
        assert(forall|j: int| p.index <= j < e ==> #[trigger] m.source[j] != 10);
        lemma_advance_by_accurate(m.source, p, (e - p.index) as nat);
    }
}

/// Consuming one token and scanning on yields exactly the remaining suffix of
/// the token sequence.
pub proof fn lemma_tokens_from_step(m: LexerModel)
    requires
        m.wf(),
    ensures
        ({
            let (t, m2) = lex_next(m);
            match t {
                None => tokens_from(m) == Seq::<TokenModel>::empty(),
                Some(tok) => tokens_from(m) == seq![tok] + tokens_from(m2),
            }
        }),
{
    let (t, m2) = lex_next(m);
    if t is None {
        assert(tokens_from(m) =~= Seq::<TokenModel>::empty());
    }
}

/// Backtracking idempotence: the tokens still to come depend only on the
/// source text and the cursor, so after restoring a saved position a rescan
/// reproduces the original token sequence exactly.
pub proof fn lemma_backtracking_idempotence(a: LexerModel, b: LexerModel)
    requires
        a.source == b.source,
        a.file == b.file,
        a.pos == b.pos,
    ensures
        tokens_from(a) == tokens_from(b),
{
    assert(a =~= b);
}

/// A digit run's value is never negative.
proof fn lemma_digits_val_nonneg(s: Seq<u8>)
    requires
        forall|j: int| 0 <= j < s.len() ==> is_digit(#[trigger] s[j]),
    ensures
        digits_val(s) >= 0,
    decreases s.len(),
{
    if s.len() > 0 {
        lemma_digits_val_nonneg(s.drop_last());
    }
}

} // verus!
