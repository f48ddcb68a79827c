//! Declarations: the bare `int x;` form, with no initializer and no other
//! specifiers.

use vstd::prelude::*;

use crate::lexer::{KindModel, LexerModel, TokenKind};
use crate::parser::{
    lemma_expect_frame, lemma_expect_identifier_frame, spec_expect, spec_expect_identifier, PRes,
    Parse, ParseError, Parser,
};
use crate::text::eco_chars;
use ecow::EcoString;

verus! {

/// Model of a declaration; the declared name is its characters.
#[verifier::ext_equal]
pub enum DeclModel {
    NoAttr { init_declarator: Seq<char> },
}

#[derive(Debug)]
pub enum Declaration {
    NoAttr { init_declarator: EcoString },
}

impl DeepView for Declaration {
    type V = DeclModel;

    open spec fn deep_view(&self) -> DeclModel {
        match self {
            Declaration::NoAttr { init_declarator } => DeclModel::NoAttr {
                init_declarator: eco_chars(*init_declarator),
            },
        }
    }
}

/// `int <identifier> ;`
pub open spec fn spec_declaration(m: LexerModel) -> PRes<DeclModel> {
    match spec_expect(m, KindModel::Int) {
        Err(e) => Err(e),
        Ok((t0, m1)) => match spec_expect_identifier(m1) {
            Err(e) => Err(e),
            Ok((name, m2)) => match spec_expect(m2, KindModel::SemiColon) {
                Err(e) => Err(e),
                Ok((t1, m3)) => Ok((DeclModel::NoAttr { init_declarator: name }, m3)),
            },
        },
    }
}

pub proof fn lemma_declaration_frame(m: LexerModel)
    requires
        m.wf(),
    ensures
        match spec_declaration(m) {
            Ok((v, m2)) => m2.source == m.source && m2.file == m.file && m2.wf()
                && m.pos.index < m2.pos.index,
            Err((e, m2)) => m2.source == m.source && m2.file == m.file && m2.wf(),
        },
{
    lemma_expect_frame(m, KindModel::Int);
    match spec_expect(m, KindModel::Int) {
        Ok((t0, m1)) => {
            lemma_expect_identifier_frame(m1);
            match spec_expect_identifier(m1) {
                Ok((name, m2)) => {
                    lemma_expect_frame(m2, KindModel::SemiColon);
                },
                Err(e) => {},
            }
        },
        Err(e) => {},
    }
}

impl Parse for Declaration {
    open spec fn spec_parse(m: LexerModel) -> PRes<DeclModel> {
        spec_declaration(m)
    }

    proof fn lemma_frame(m: LexerModel) {
        lemma_declaration_frame(m);
    }

    fn parse(parser: &mut Parser) -> (r: Result<Self, ParseError>) {
        match parser.expect(TokenKind::Int) {
            Err(e) => {
                return Err(e);
            },
            Ok(_) => {},
        }
        let init_declarator = match parser.expect_identifier() {
            Err(e) => {
                return Err(e);
            },
            Ok(n) => n,
        };
        match parser.expect(TokenKind::SemiColon) {
            Err(e) => {
                return Err(e);
            },
            Ok(_) => {},
        }
        Ok(Declaration::NoAttr { init_declarator })
    }
}

} // verus!
