//! Statements: compound statements, block items and the `return` jump
//! statement.  A block item tries the statement rule first and, because no
//! combinator consumes on failure, can rewind and try the declaration rule.

use vstd::prelude::*;

use crate::declaration::{lemma_declaration_frame, spec_declaration, DeclModel, Declaration};
use crate::expression::{lemma_expression_frame, spec_expression, ExprModel, Expression};
use crate::lexer::{KindModel, LexerModel, LocModel, Location, TokenKind};
use crate::parser::{
    lemma_expect_frame, lemma_many1_frame, spec_expect, spec_many1, PRes, Parse, ParseError,
    Parser,
};

verus! {

// ---------------------------------------------------------------------------
// Models
// ---------------------------------------------------------------------------

/// Model of a jump statement.
#[verifier::ext_equal]
pub enum JumpModel {
    Return { location: LocModel, expression: ExprModel },
}

/// Model of an unlabeled statement.
#[verifier::ext_equal]
pub enum StmtModel {
    JumpStatement(JumpModel),
}

/// Model of a block item.
#[verifier::ext_equal]
pub enum BlockItemModel {
    Declaration(DeclModel),
    UnlabeledStatement(StmtModel),
}

/// Model of a compound statement: its block items, at least one.
#[verifier::ext_equal]
pub struct CompoundModel {
    pub block_items: Seq<BlockItemModel>,
}

// ---------------------------------------------------------------------------
// Exec types
// ---------------------------------------------------------------------------

#[derive(Debug)]
pub enum JumpStatement {
    Return { location: Location, expression: Expression },
}

impl DeepView for JumpStatement {
    type V = JumpModel;

    open spec fn deep_view(&self) -> JumpModel {
        match self {
            JumpStatement::Return { location, expression } => JumpModel::Return {
                location: location.deep_view(),
                expression: expression.deep_view(),
            },
        }
    }
}

#[derive(Debug)]
pub enum UnlabeledStatement {
    JumpStatement(JumpStatement),
}

impl DeepView for UnlabeledStatement {
    type V = StmtModel;

    open spec fn deep_view(&self) -> StmtModel {
        match self {
            UnlabeledStatement::JumpStatement(j) => StmtModel::JumpStatement(j.deep_view()),
        }
    }
}

#[derive(Debug)]
pub enum BlockItem {
    Declaration(Declaration),
    UnlabeledStatement(UnlabeledStatement),
}

impl DeepView for BlockItem {
    type V = BlockItemModel;

    open spec fn deep_view(&self) -> BlockItemModel {
        match self {
            BlockItem::Declaration(d) => BlockItemModel::Declaration(d.deep_view()),
            BlockItem::UnlabeledStatement(s) => BlockItemModel::UnlabeledStatement(s.deep_view()),
        }
    }
}

#[derive(Debug)]
pub struct CompoundStatement {
    pub block_items: Vec<BlockItem>,
}

impl DeepView for CompoundStatement {
    type V = CompoundModel;

    open spec fn deep_view(&self) -> CompoundModel {
        CompoundModel { block_items: self.block_items.deep_view() }
    }
}

// ---------------------------------------------------------------------------
// Spec parsers
// ---------------------------------------------------------------------------

/// `return <expression> ;`, located at the `return` keyword.
pub open spec fn spec_jump(m: LexerModel) -> PRes<JumpModel> {
    match spec_expect(m, KindModel::Return) {
        Err(e) => Err(e),
        Ok((t, m1)) => match spec_expression(m1) {
            Err(e) => Err(e),
            Ok((expression, m2)) => match spec_expect(m2, KindModel::SemiColon) {
                Err(e) => Err(e),
                Ok((t1, m3)) => Ok(
                    (JumpModel::Return { location: t.location, expression }, m3),
                ),
            },
        },
    }
}

pub proof fn lemma_jump_frame(m: LexerModel)
    requires
        m.wf(),
    ensures
        match spec_jump(m) {
            Ok((v, m2)) => m2.source == m.source && m2.file == m.file && m2.wf()
                && m.pos.index < m2.pos.index,
            Err((e, m2)) => m2.source == m.source && m2.file == m.file && m2.wf(),
        },
{
    lemma_expect_frame(m, KindModel::Return);
    match spec_expect(m, KindModel::Return) {
        Ok((t, m1)) => {
            lemma_expression_frame(m1);
            match spec_expression(m1) {
                Ok((expression, m2)) => {
                    lemma_expect_frame(m2, KindModel::SemiColon);
                },
                Err(e) => {},
            }
        },
        Err(e) => {},
    }
}

/// An unlabeled statement is a jump statement.
pub open spec fn spec_unlabeled(m: LexerModel) -> PRes<StmtModel> {
    match spec_jump(m) {
        Err(e) => Err(e),
        Ok((j, m2)) => Ok((StmtModel::JumpStatement(j), m2)),
    }
}

pub proof fn lemma_unlabeled_frame(m: LexerModel)
    requires
        m.wf(),
    ensures
        match spec_unlabeled(m) {
            Ok((v, m2)) => m2.source == m.source && m2.file == m.file && m2.wf()
                && m.pos.index < m2.pos.index,
            Err((e, m2)) => m2.source == m.source && m2.file == m.file && m2.wf(),
        },
{
    lemma_jump_frame(m);
}

/// A block item: the statement rule first; if it cannot be driven to
/// completion, rewind and try the declaration rule; if that fails too, its
/// error is the one surfaced.
pub open spec fn spec_block_item(m: LexerModel) -> PRes<BlockItemModel> {
    match spec_unlabeled(m) {
        Ok((s, m2)) => Ok((BlockItemModel::UnlabeledStatement(s), m2)),
        Err(e1) => match spec_declaration(m) {
            Ok((d, m2)) => Ok((BlockItemModel::Declaration(d), m2)),
            Err(e) => Err(e),
        },
    }
}

pub proof fn lemma_block_item_frame(m: LexerModel)
    requires
        m.wf(),
    ensures
        match spec_block_item(m) {
            Ok((v, m2)) => m2.source == m.source && m2.file == m.file && m2.wf()
                && m.pos.index < m2.pos.index,
            Err((e, m2)) => m2.source == m.source && m2.file == m.file && m2.wf(),
        },
{
    lemma_unlabeled_frame(m);
    lemma_declaration_frame(m);
}

/// `{ <block-item>+ }`.
pub open spec fn spec_compound(m: LexerModel) -> PRes<CompoundModel> {
    match spec_expect(m, KindModel::LBrace) {
        Err(e) => Err(e),
        Ok((t, m1)) => match spec_many1::<BlockItem>(m1) {
            Err(e) => Err(e),
            Ok((items, m2)) => match spec_expect(m2, KindModel::RBrace) {
                Err(e) => Err(e),
                Ok((t1, m3)) => Ok((CompoundModel { block_items: items }, m3)),
            },
        },
    }
}

pub proof fn lemma_compound_frame(m: LexerModel)
    requires
        m.wf(),
    ensures
        match spec_compound(m) {
            Ok((v, m2)) => m2.source == m.source && m2.file == m.file && m2.wf()
                && m.pos.index < m2.pos.index && v.block_items.len() >= 1,
            Err((e, m2)) => m2.source == m.source && m2.file == m.file && m2.wf(),
        },
{
    lemma_expect_frame(m, KindModel::LBrace);
    match spec_expect(m, KindModel::LBrace) {
        Ok((t, m1)) => {
            lemma_many1_frame::<BlockItem>(m1);
            match spec_many1::<BlockItem>(m1) {
                Ok((items, m2)) => {
                    lemma_expect_frame(m2, KindModel::RBrace);
                },
                Err(e) => {},
            }
        },
        Err(e) => {},
    }
}

// ---------------------------------------------------------------------------
// Exec rules
// ---------------------------------------------------------------------------

impl Parse for JumpStatement {
    open spec fn spec_parse(m: LexerModel) -> PRes<JumpModel> {
        spec_jump(m)
    }

    proof fn lemma_frame(m: LexerModel) {
        lemma_jump_frame(m);
    }

    fn parse(parser: &mut Parser) -> (r: Result<Self, ParseError>) {
        let ghost m0 = old(parser)@;
        proof {
            assert(<JumpStatement as Parse>::spec_parse(m0) == spec_jump(m0));
            assert(<Expression as Parse>::spec_parse(m0) == spec_expression(m0));
        }
        let location = match parser.expect(TokenKind::Return) {
            Err(e) => {
                return Err(e);
            },
            Ok(t) => t.location,
        };
        let expression = match Expression::parse(parser) {
            Err(e) => {
                return Err(e);
            },
            Ok(x) => x,
        };
        match parser.expect(TokenKind::SemiColon) {
            Err(e) => {
                return Err(e);
            },
            Ok(_) => {},
        }
        Ok(JumpStatement::Return { location, expression })
    }
}

impl Parse for UnlabeledStatement {
    open spec fn spec_parse(m: LexerModel) -> PRes<StmtModel> {
        spec_unlabeled(m)
    }

    proof fn lemma_frame(m: LexerModel) {
        lemma_unlabeled_frame(m);
    }

    fn parse(parser: &mut Parser) -> (r: Result<Self, ParseError>) {
        let ghost m0 = old(parser)@;
        proof {
            assert(<JumpStatement as Parse>::spec_parse(m0) == spec_jump(m0));
            assert(<UnlabeledStatement as Parse>::spec_parse(m0) == spec_unlabeled(m0));
        }
        match JumpStatement::parse(parser) {
            Err(e) => Err(e),
            Ok(jump_statement) => Ok(UnlabeledStatement::JumpStatement(jump_statement)),
        }
    }
}

impl Parse for BlockItem {
    open spec fn spec_parse(m: LexerModel) -> PRes<BlockItemModel> {
        spec_block_item(m)
    }

    proof fn lemma_frame(m: LexerModel) {
        lemma_block_item_frame(m);
    }

    fn parse(parser: &mut Parser) -> (r: Result<Self, ParseError>) {
        let ghost m0 = old(parser)@;
        proof {
            assert(<UnlabeledStatement as Parse>::spec_parse(m0) == spec_unlabeled(m0));
            assert(<Declaration as Parse>::spec_parse(m0) == spec_declaration(m0));
        }
        let pos = parser.current_position();
        match UnlabeledStatement::parse(parser) {
            Ok(unlabeled_statement) => {
                return Ok(BlockItem::UnlabeledStatement(unlabeled_statement));
            },
            Err(_) => {},
        }
        proof {
            lemma_unlabeled_frame(m0);
        }
        parser.set_position(pos);
        proof {
            assert(parser@ =~= m0);
        }
        match Declaration::parse(parser) {
            Err(e) => Err(e),
            Ok(declaration) => Ok(BlockItem::Declaration(declaration)),
        }
    }
}

impl Parse for CompoundStatement {
    open spec fn spec_parse(m: LexerModel) -> PRes<CompoundModel> {
        spec_compound(m)
    }

    proof fn lemma_frame(m: LexerModel) {
        lemma_compound_frame(m);
    }

    fn parse(parser: &mut Parser) -> (r: Result<Self, ParseError>) {
        let ghost m0 = old(parser)@;
        proof {
            assert(<CompoundStatement as Parse>::spec_parse(m0) == spec_compound(m0));
        }
        match parser.expect(TokenKind::LBrace) {
            Err(e) => {
                return Err(e);
            },
            Ok(_) => {},
        }
        let block_items = match parser.many1::<BlockItem>() {
            Err(e) => {
                return Err(e);
            },
            Ok(items) => items,
        };
        match parser.expect(TokenKind::RBrace) {
            Err(e) => {
                return Err(e);
            },
            Ok(_) => {},
        }
        Ok(CompoundStatement { block_items })
    }
}

} // verus!
