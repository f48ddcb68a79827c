//! Expressions: two precedence levels, each parsed by precedence climbing —
//! one operand at the next-higher level, then a loop that folds further
//! operands into a left-leaning tree.  Left-associativity is structural: an
//! operator node's right child sits one precedence level higher, so it can
//! never hold an operator of the same level.  Every node is located at the
//! leftmost token that started its construct, so an operator node shares its
//! location with its leftmost operand.

use vstd::prelude::*;

use crate::lexer::{KindModel, LexerModel, LocModel, Location, TokenKind};
use crate::parser::{
    lemma_expect_frame, lemma_expect_integer_frame, spec_expect, spec_expect_integer, Constant,
    ConstantModel, ErrModel, PRes, Parse, ParseError, Parser,
};

verus! {

// ---------------------------------------------------------------------------
// Models
// ---------------------------------------------------------------------------

/// Model of a primary expression.
#[verifier::ext_equal]
pub enum PrimaryModel {
    Constant { value: ConstantModel, location: LocModel },
}

/// Model of a multiplicative expression; the left-leaning tree is explicit.
#[verifier::ext_equal]
pub enum MultModel {
    PrimaryExpression(PrimaryModel),
    Mul { lhs: Box<MultModel>, rhs: PrimaryModel, location: LocModel },
    Div { lhs: Box<MultModel>, rhs: PrimaryModel, location: LocModel },
    Rem { lhs: Box<MultModel>, rhs: PrimaryModel, location: LocModel },
}

/// Model of an additive expression.
#[verifier::ext_equal]
pub enum AddModel {
    PrimaryExpression(MultModel),
    Add { lhs: Box<AddModel>, rhs: MultModel, location: LocModel },
    Minus { lhs: Box<AddModel>, rhs: MultModel, location: LocModel },
}

/// Model of an expression.
#[verifier::ext_equal]
pub enum ExprModel {
    AdditiveExpression(AddModel),
}

// ---------------------------------------------------------------------------
// Exec types
// ---------------------------------------------------------------------------

#[derive(Debug)]
pub enum PrimaryExpression {
    Constant { value: Constant, location: Location },
}

impl DeepView for PrimaryExpression {
    type V = PrimaryModel;

    open spec fn deep_view(&self) -> PrimaryModel {
        match self {
            PrimaryExpression::Constant { value, location } => PrimaryModel::Constant {
                value: value.deep_view(),
                location: location.deep_view(),
            },
        }
    }
}

#[derive(Debug)]
pub enum MultiplicativeExpression {
    PrimaryExpression(PrimaryExpression),
    Mul { lhs: Box<MultiplicativeExpression>, rhs: Box<PrimaryExpression>, location: Location },
    Div { lhs: Box<MultiplicativeExpression>, rhs: Box<PrimaryExpression>, location: Location },
    Rem { lhs: Box<MultiplicativeExpression>, rhs: Box<PrimaryExpression>, location: Location },
}

/// The model of a multiplicative tree, by structural recursion.
pub open spec fn mult_model(e: MultiplicativeExpression) -> MultModel
    decreases e,
{
    match e {
        MultiplicativeExpression::PrimaryExpression(p) => MultModel::PrimaryExpression(
            p.deep_view(),
        ),
        MultiplicativeExpression::Mul { lhs, rhs, location } => MultModel::Mul {
            lhs: Box::new(mult_model(*lhs)),
            rhs: rhs.deep_view(),
            location: location.deep_view(),
        },
        MultiplicativeExpression::Div { lhs, rhs, location } => MultModel::Div {
            lhs: Box::new(mult_model(*lhs)),
            rhs: rhs.deep_view(),
            location: location.deep_view(),
        },
        MultiplicativeExpression::Rem { lhs, rhs, location } => MultModel::Rem {
            lhs: Box::new(mult_model(*lhs)),
            rhs: rhs.deep_view(),
            location: location.deep_view(),
        },
    }
}

impl DeepView for MultiplicativeExpression {
    type V = MultModel;

    open spec fn deep_view(&self) -> MultModel {
        mult_model(*self)
    }
}

#[derive(Debug)]
pub enum AdditiveExpression {
    PrimaryExpression(MultiplicativeExpression),
    Add { lhs: Box<AdditiveExpression>, rhs: Box<MultiplicativeExpression>, location: Location },
    Minus { lhs: Box<AdditiveExpression>, rhs: Box<MultiplicativeExpression>, location: Location },
}

/// The model of an additive tree, by structural recursion.
pub open spec fn add_model(e: AdditiveExpression) -> AddModel
    decreases e,
{
    match e {
        AdditiveExpression::PrimaryExpression(p) => AddModel::PrimaryExpression(p.deep_view()),
        AdditiveExpression::Add { lhs, rhs, location } => AddModel::Add {
            lhs: Box::new(add_model(*lhs)),
            rhs: rhs.deep_view(),
            location: location.deep_view(),
        },
        AdditiveExpression::Minus { lhs, rhs, location } => AddModel::Minus {
            lhs: Box::new(add_model(*lhs)),
            rhs: rhs.deep_view(),
            location: location.deep_view(),
        },
    }
}

impl DeepView for AdditiveExpression {
    type V = AddModel;

    open spec fn deep_view(&self) -> AddModel {
        add_model(*self)
    }
}

#[derive(Debug)]
pub enum Expression {
    AdditiveExpression(Box<AdditiveExpression>),
}

impl DeepView for Expression {
    type V = ExprModel;

    open spec fn deep_view(&self) -> ExprModel {
        match self {
            Expression::AdditiveExpression(a) => ExprModel::AdditiveExpression(a.deep_view()),
        }
    }
}

// ---------------------------------------------------------------------------
// Spec parsers
// ---------------------------------------------------------------------------

/// The location of a primary expression: its constant's token.
pub open spec fn prim_loc(p: PrimaryModel) -> LocModel {
    match p {
        PrimaryModel::Constant { location, .. } => location,
    }
}

/// The location of a multiplicative tree: the leftmost token that started
/// it.
pub open spec fn mult_loc(e: MultModel) -> LocModel {
    match e {
        MultModel::PrimaryExpression(p) => prim_loc(p),
        MultModel::Mul { location, .. } => location,
        MultModel::Div { location, .. } => location,
        MultModel::Rem { location, .. } => location,
    }
}

/// The location of an additive tree: the leftmost token that started it.
pub open spec fn add_loc(e: AddModel) -> LocModel {
    match e {
        AddModel::PrimaryExpression(mm) => mult_loc(mm),
        AddModel::Add { location, .. } => location,
        AddModel::Minus { location, .. } => location,
    }
}

/// A primary expression is a single integer constant.
pub open spec fn spec_primary(m: LexerModel) -> PRes<PrimaryModel> {
    match spec_expect_integer(m) {
        Err(e) => Err(e),
        Ok(((loc, v), m2)) => Ok(
            (PrimaryModel::Constant { value: ConstantModel::Integer(v), location: loc }, m2),
        ),
    }
}

pub proof fn lemma_primary_frame(m: LexerModel)
    requires
        m.wf(),
    ensures
        match spec_primary(m) {
            Ok((v, m2)) => m2.source == m.source && m2.file == m.file && m2.wf()
                && m.pos.index < m2.pos.index,
            Err((e, m2)) => m2.source == m.source && m2.file == m.file && m2.wf()
                && m.pos.index <= m2.pos.index,
        },
{
    lemma_expect_integer_frame(m);
}

/// The multiplicative fold: try `*`, `/`, `%` in turn; on a hit parse the
/// next primary and fold left, the new node located at its left operand's
/// leftmost token; when no operator matches, the accumulated tree stands.
pub open spec fn spec_mult_tail(m: LexerModel, acc: MultModel) -> PRes<MultModel>
    decreases m.source.len() - m.pos.index,
{
    if !m.wf() {
        Ok((acc, m))
    } else {
        match spec_expect(m, KindModel::Asterisk) {
            Ok((t, m1)) => match spec_primary(m1) {
                Err(e) => Err(e),
                Ok((rhs, m2)) => {
                    proof {
                        lemma_expect_frame(m, KindModel::Asterisk);
                        lemma_primary_frame(m1);
                    }
                    spec_mult_tail(
                        m2,
                        MultModel::Mul { lhs: Box::new(acc), rhs, location: mult_loc(acc) },
                    )
                },
            },
            Err((e1, ma)) => match spec_expect(ma, KindModel::Slash) {
                Ok((t, m1)) => match spec_primary(m1) {
                    Err(e) => Err(e),
                    Ok((rhs, m2)) => {
                        proof {
                            lemma_expect_frame(m, KindModel::Asterisk);
                            lemma_expect_frame(ma, KindModel::Slash);
                            lemma_primary_frame(m1);
                        }
                        spec_mult_tail(
                            m2,
                            MultModel::Div { lhs: Box::new(acc), rhs, location: mult_loc(acc) },
                        )
                    },
                },
                Err((e2, mb)) => match spec_expect(mb, KindModel::Percent) {
                    Ok((t, m1)) => match spec_primary(m1) {
                        Err(e) => Err(e),
                        Ok((rhs, m2)) => {
                            proof {
                                lemma_expect_frame(m, KindModel::Asterisk);
                                lemma_expect_frame(ma, KindModel::Slash);
                                lemma_expect_frame(mb, KindModel::Percent);
                                lemma_primary_frame(m1);
                            }
                            spec_mult_tail(
                                m2,
                                MultModel::Rem { lhs: Box::new(acc), rhs, location: mult_loc(acc) },
                            )
                        },
                    },
                    Err((e3, mc)) => Ok((acc, mc)),
                },
            },
        }
    }
}

/// A multiplicative expression: one primary, then the fold.
pub open spec fn spec_mult(m: LexerModel) -> PRes<MultModel> {
    match spec_primary(m) {
        Err(e) => Err(e),
        Ok((p, m1)) => spec_mult_tail(m1, MultModel::PrimaryExpression(p)),
    }
}

pub proof fn lemma_mult_tail_frame(m: LexerModel, acc: MultModel)
    requires
        m.wf(),
    ensures
        match spec_mult_tail(m, acc) {
            Ok((v, m2)) => m2.source == m.source && m2.file == m.file && m2.wf()
                && m.pos.index <= m2.pos.index,
            Err((e, m2)) => m2.source == m.source && m2.file == m.file && m2.wf(),
        },
    decreases m.source.len() - m.pos.index,
{
    lemma_expect_frame(m, KindModel::Asterisk);
    match spec_expect(m, KindModel::Asterisk) {
        Ok((t, m1)) => {
            lemma_primary_frame(m1);
            match spec_primary(m1) {
                Ok((rhs, m2)) => {
                    lemma_mult_tail_frame(
                        m2,
                        MultModel::Mul { lhs: Box::new(acc), rhs, location: mult_loc(acc) },
                    );
                },
                Err(e) => {},
            }
        },
        Err((e1, ma)) => {
            lemma_expect_frame(ma, KindModel::Slash);
            match spec_expect(ma, KindModel::Slash) {
                Ok((t, m1)) => {
                    lemma_primary_frame(m1);
                    match spec_primary(m1) {
                        Ok((rhs, m2)) => {
                            lemma_mult_tail_frame(
                                m2,
                                MultModel::Div { lhs: Box::new(acc), rhs, location: mult_loc(acc) },
                            );
                        },
                        Err(e) => {},
                    }
                },
                Err((e2, mb)) => {
                    lemma_expect_frame(mb, KindModel::Percent);
                    match spec_expect(mb, KindModel::Percent) {
                        Ok((t, m1)) => {
                            lemma_primary_frame(m1);
                            match spec_primary(m1) {
                                Ok((rhs, m2)) => {
                                    lemma_mult_tail_frame(
                                        m2,
                                        MultModel::Rem {
                                            lhs: Box::new(acc),
                                            rhs,
                                            location: mult_loc(acc),
                                        },
                                    );
                                },
                                Err(e) => {},
                            }
                        },
                        Err(e3) => {},
                    }
                },
            }
        },
    }
}

pub proof fn lemma_mult_frame(m: LexerModel)
    requires
        m.wf(),
    ensures
        match spec_mult(m) {
            Ok((v, m2)) => m2.source == m.source && m2.file == m.file && m2.wf()
                && m.pos.index < m2.pos.index,
            Err((e, m2)) => m2.source == m.source && m2.file == m.file && m2.wf(),
        },
{
    lemma_primary_frame(m);
    match spec_primary(m) {
        Ok((p, m1)) => {
            lemma_mult_tail_frame(m1, MultModel::PrimaryExpression(p));
        },
        Err(e) => {},
    }
}

/// The additive fold, one precedence level up: `+` and `-` over
/// multiplicative operands.
pub open spec fn spec_add_tail(m: LexerModel, acc: AddModel) -> PRes<AddModel>
    decreases m.source.len() - m.pos.index,
{
    if !m.wf() {
        Ok((acc, m))
    } else {
        match spec_expect(m, KindModel::Plus) {
            Ok((t, m1)) => match spec_mult(m1) {
                Err(e) => Err(e),
                Ok((rhs, m2)) => {
                    proof {
                        lemma_expect_frame(m, KindModel::Plus);
                        lemma_mult_frame(m1);
                    }
                    spec_add_tail(
                        m2,
                        AddModel::Add { lhs: Box::new(acc), rhs, location: add_loc(acc) },
                    )
                },
            },
            Err((e1, ma)) => match spec_expect(ma, KindModel::Minus) {
                Ok((t, m1)) => match spec_mult(m1) {
                    Err(e) => Err(e),
                    Ok((rhs, m2)) => {
                        proof {
                            lemma_expect_frame(m, KindModel::Plus);
                            lemma_expect_frame(ma, KindModel::Minus);
                            lemma_mult_frame(m1);
                        }
                        spec_add_tail(
                            m2,
                            AddModel::Minus { lhs: Box::new(acc), rhs, location: add_loc(acc) },
                        )
                    },
                },
                Err((e2, mb)) => Ok((acc, mb)),
            },
        }
    }
}

/// An additive expression: one multiplicative expression, then the fold.
pub open spec fn spec_add(m: LexerModel) -> PRes<AddModel> {
    match spec_mult(m) {
        Err(e) => Err(e),
        Ok((p, m1)) => spec_add_tail(m1, AddModel::PrimaryExpression(p)),
    }
}

pub proof fn lemma_add_tail_frame(m: LexerModel, acc: AddModel)
    requires
        m.wf(),
    ensures
        match spec_add_tail(m, acc) {
            Ok((v, m2)) => m2.source == m.source && m2.file == m.file && m2.wf()
                && m.pos.index <= m2.pos.index,
            Err((e, m2)) => m2.source == m.source && m2.file == m.file && m2.wf(),
        },
    decreases m.source.len() - m.pos.index,
{
    lemma_expect_frame(m, KindModel::Plus);
    match spec_expect(m, KindModel::Plus) {
        Ok((t, m1)) => {
            lemma_mult_frame(m1);
            match spec_mult(m1) {
                Ok((rhs, m2)) => {
                    lemma_add_tail_frame(
                        m2,
                        AddModel::Add { lhs: Box::new(acc), rhs, location: add_loc(acc) },
                    );
                },
                Err(e) => {},
            }
        },
        Err((e1, ma)) => {
            lemma_expect_frame(ma, KindModel::Minus);
            match spec_expect(ma, KindModel::Minus) {
                Ok((t, m1)) => {
                    lemma_mult_frame(m1);
                    match spec_mult(m1) {
                        Ok((rhs, m2)) => {
                            lemma_add_tail_frame(
                                m2,
                                AddModel::Minus { lhs: Box::new(acc), rhs, location: add_loc(acc) },
                            );
                        },
                        Err(e) => {},
                    }
                },
                Err(e2) => {},
            }
        },
    }
}

pub proof fn lemma_add_frame(m: LexerModel)
    requires
        m.wf(),
    ensures
        match spec_add(m) {
            Ok((v, m2)) => m2.source == m.source && m2.file == m.file && m2.wf()
                && m.pos.index < m2.pos.index,
            Err((e, m2)) => m2.source == m.source && m2.file == m.file && m2.wf(),
        },
{
    lemma_mult_frame(m);
    match spec_mult(m) {
        Ok((p, m1)) => {
            lemma_add_tail_frame(m1, AddModel::PrimaryExpression(p));
        },
        Err(e) => {},
    }
}

/// An expression is an additive expression.
pub open spec fn spec_expression(m: LexerModel) -> PRes<ExprModel> {
    match spec_add(m) {
        Err(e) => Err(e),
        Ok((a, m2)) => Ok((ExprModel::AdditiveExpression(a), m2)),
    }
}

pub proof fn lemma_expression_frame(m: LexerModel)
    requires
        m.wf(),
    ensures
        match spec_expression(m) {
            Ok((v, m2)) => m2.source == m.source && m2.file == m.file && m2.wf()
                && m.pos.index < m2.pos.index,
            Err((e, m2)) => m2.source == m.source && m2.file == m.file && m2.wf(),
        },
{
    lemma_add_frame(m);
}

// ---------------------------------------------------------------------------
// Exec rules
// ---------------------------------------------------------------------------

impl PrimaryExpression {
    /// The location of this expression's token.
    fn location(&self) -> (l: &Location)
        ensures
            l@ == prim_loc(self.deep_view()),
    {
        match self {
            PrimaryExpression::Constant { location, .. } => location,
        }
    }
}

impl MultiplicativeExpression {
    /// The location of the leftmost token of this tree.
    fn location(&self) -> (l: &Location)
        ensures
            l@ == mult_loc(self.deep_view()),
    {
        match self {
            MultiplicativeExpression::PrimaryExpression(p) => p.location(),
            MultiplicativeExpression::Mul { location, .. } => location,
            MultiplicativeExpression::Div { location, .. } => location,
            MultiplicativeExpression::Rem { location, .. } => location,
        }
    }
}

impl AdditiveExpression {
    /// The location of the leftmost token of this tree.
    fn location(&self) -> (l: &Location)
        ensures
            l@ == add_loc(self.deep_view()),
    {
        match self {
            AdditiveExpression::PrimaryExpression(mm) => mm.location(),
            AdditiveExpression::Add { location, .. } => location,
            AdditiveExpression::Minus { location, .. } => location,
        }
    }
}

impl Parse for PrimaryExpression {
    open spec fn spec_parse(m: LexerModel) -> PRes<PrimaryModel> {
        spec_primary(m)
    }

    proof fn lemma_frame(m: LexerModel) {
        lemma_primary_frame(m);
    }

    fn parse(parser: &mut Parser) -> (r: Result<Self, ParseError>) {
        match parser.expect_integer() {
            Err(e) => Err(e),
            Ok((location, value)) => Ok(
                PrimaryExpression::Constant { value: Constant::Integer(value), location },
            ),
        }
    }
}

impl Parse for MultiplicativeExpression {
    open spec fn spec_parse(m: LexerModel) -> PRes<MultModel> {
        spec_mult(m)
    }

    proof fn lemma_frame(m: LexerModel) {
        lemma_mult_frame(m);
    }

    #[verifier::rlimit(60)]
    fn parse(parser: &mut Parser) -> (r: Result<Self, ParseError>) {
        let ghost m0 = old(parser)@;
        let first = match PrimaryExpression::parse(parser) {
            Err(e) => {
                return Err(e);
            },
            Ok(p) => p,
        };
        let mut lhs = MultiplicativeExpression::PrimaryExpression(first);
        proof {
            lemma_primary_frame(m0);
        }
        loop
            invariant_except_break
                spec_mult(m0) == spec_mult_tail(parser@, lhs.deep_view()),
            invariant
                m0 == old(parser)@,
                parser@.wf(),
                parser@.source == m0.source,
                parser@.file == m0.file,
            ensures
                parser@.wf(),
                spec_mult(m0) == Ok::<(MultModel, LexerModel), (ErrModel, LexerModel)>(
                    (lhs.deep_view(), parser@),
                ),
            decreases parser@.source.len() - parser@.pos.index,
        {
            let ghost cur = parser@;
            let ghost acc0 = lhs.deep_view();
            match parser.expect(TokenKind::Asterisk) {
                Ok(_) => {
                    proof {
                        lemma_expect_frame(cur, KindModel::Asterisk);
                    }
                    let ghost m1 = parser@;
                    let rhs = match PrimaryExpression::parse(parser) {
                        Err(e) => {
                            proof {
                                assert(spec_mult_tail(cur, acc0) == Err::<
                                    (MultModel, LexerModel),
                                    (ErrModel, LexerModel),
                                >((e@, parser@)));
                            }
                            return Err(e);
                        },
                        Ok(p) => p,
                    };
                    proof {
                        lemma_primary_frame(m1);
                        assert(spec_mult_tail(cur, acc0) == spec_mult_tail(
                            parser@,
                            MultModel::Mul {
                                lhs: Box::new(acc0),
                                rhs: rhs.deep_view(),
                                location: mult_loc(acc0),
                            },
                        ));
                    }
                    let location = lhs.location().duplicate();
                    lhs = MultiplicativeExpression::Mul {
                        lhs: Box::new(lhs),
                        rhs: Box::new(rhs),
                        location,
                    };
                },
                Err(_) => {
                    proof {
                        lemma_expect_frame(cur, KindModel::Asterisk);
                    }
                    let ghost ma = parser@;
                    match parser.expect(TokenKind::Slash) {
                        Ok(_) => {
                            proof {
                                lemma_expect_frame(ma, KindModel::Slash);
                            }
                            let ghost m1 = parser@;
                            let rhs = match PrimaryExpression::parse(parser) {
                                Err(e) => {
                                    proof {
                                        assert(spec_mult_tail(cur, acc0) == Err::<
                                            (MultModel, LexerModel),
                                            (ErrModel, LexerModel),
                                        >((e@, parser@)));
                                    }
                                    return Err(e);
                                },
                                Ok(p) => p,
                            };
                            proof {
                                lemma_primary_frame(m1);
                                assert(spec_mult_tail(cur, acc0) == spec_mult_tail(
                                    parser@,
                                    MultModel::Div {
                                        lhs: Box::new(acc0),
                                        rhs: rhs.deep_view(),
                                        location: mult_loc(acc0),
                                    },
                                ));
                            }
                            let location = lhs.location().duplicate();
                            lhs = MultiplicativeExpression::Div {
                                lhs: Box::new(lhs),
                                rhs: Box::new(rhs),
                                location,
                            };
                        },
                        Err(_) => {
                            proof {
                                lemma_expect_frame(ma, KindModel::Slash);
                            }
                            let ghost mb = parser@;
                            match parser.expect(TokenKind::Percent) {
                                Ok(_) => {
                                    proof {
                                        lemma_expect_frame(mb, KindModel::Percent);
                                    }
                                    let ghost m1 = parser@;
                                    let rhs = match PrimaryExpression::parse(parser) {
                                        Err(e) => {
                                            proof {
                                                assert(spec_mult_tail(cur, acc0) == Err::<
                                                    (MultModel, LexerModel),
                                                    (ErrModel, LexerModel),
                                                >((e@, parser@)));
                                            }
                                            return Err(e);
                                        },
                                        Ok(p) => p,
                                    };
                                    proof {
                                        lemma_primary_frame(m1);
                                        assert(spec_mult_tail(cur, acc0) == spec_mult_tail(
                                            parser@,
                                            MultModel::Rem {
                                                lhs: Box::new(acc0),
                                                rhs: rhs.deep_view(),
                                                location: mult_loc(acc0),
                                            },
                                        ));
                                    }
                                    let location = lhs.location().duplicate();
                                    lhs = MultiplicativeExpression::Rem {
                                        lhs: Box::new(lhs),
                                        rhs: Box::new(rhs),
                                        location,
                                    };
                                },
                                Err(_) => {
                                    proof {
                                        lemma_expect_frame(mb, KindModel::Percent);
                                        assert(spec_mult_tail(cur, acc0) == Ok::<
                                            (MultModel, LexerModel),
                                            (ErrModel, LexerModel),
                                        >((acc0, parser@)));
                                    }
                                    break;
                                },
                            }
                        },
                    }
                },
            }
        }
        Ok(lhs)
    }
}

impl Parse for AdditiveExpression {
    open spec fn spec_parse(m: LexerModel) -> PRes<AddModel> {
        spec_add(m)
    }

    proof fn lemma_frame(m: LexerModel) {
        lemma_add_frame(m);
    }

    #[verifier::rlimit(60)]
    fn parse(parser: &mut Parser) -> (r: Result<Self, ParseError>) {
        let ghost m0 = old(parser)@;
        let first = match MultiplicativeExpression::parse(parser) {
            Err(e) => {
                return Err(e);
            },
            Ok(p) => p,
        };
        let mut lhs = AdditiveExpression::PrimaryExpression(first);
        proof {
            lemma_mult_frame(m0);
        }
        loop
            invariant_except_break
                spec_add(m0) == spec_add_tail(parser@, lhs.deep_view()),
            invariant
                m0 == old(parser)@,
                parser@.wf(),
                parser@.source == m0.source,
                parser@.file == m0.file,
            ensures
                parser@.wf(),
                spec_add(m0) == Ok::<(AddModel, LexerModel), (ErrModel, LexerModel)>(
                    (lhs.deep_view(), parser@),
                ),
            decreases parser@.source.len() - parser@.pos.index,
        {
            let ghost cur = parser@;
            let ghost acc0 = lhs.deep_view();
            match parser.expect(TokenKind::Plus) {
                Ok(_) => {
                    proof {
                        lemma_expect_frame(cur, KindModel::Plus);
                    }
                    let ghost m1 = parser@;
                    let rhs = match MultiplicativeExpression::parse(parser) {
                        Err(e) => {
                            proof {
                                assert(spec_add_tail(cur, acc0) == Err::<
                                    (AddModel, LexerModel),
                                    (ErrModel, LexerModel),
                                >((e@, parser@)));
                            }
                            return Err(e);
                        },
                        Ok(p) => p,
                    };
                    proof {
                        lemma_mult_frame(m1);
                        assert(spec_add_tail(cur, acc0) == spec_add_tail(
                            parser@,
                            AddModel::Add {
                                lhs: Box::new(acc0),
                                rhs: rhs.deep_view(),
                                location: add_loc(acc0),
                            },
                        ));
                    }
                    let location = lhs.location().duplicate();
                    lhs = AdditiveExpression::Add {
                        lhs: Box::new(lhs),
                        rhs: Box::new(rhs),
                        location,
                    };
                },
                Err(_) => {
                    proof {
                        lemma_expect_frame(cur, KindModel::Plus);
                    }
                    let ghost ma = parser@;
                    match parser.expect(TokenKind::Minus) {
                        Ok(_) => {
                            proof {
                                lemma_expect_frame(ma, KindModel::Minus);
                            }
                            let ghost m1 = parser@;
                            let rhs = match MultiplicativeExpression::parse(parser) {
                                Err(e) => {
                                    proof {
                                        assert(spec_add_tail(cur, acc0) == Err::<
                                            (AddModel, LexerModel),
                                            (ErrModel, LexerModel),
                                        >((e@, parser@)));
                                    }
                                    return Err(e);
                                },
                                Ok(p) => p,
                            };
                            proof {
                                lemma_mult_frame(m1);
                                assert(spec_add_tail(cur, acc0) == spec_add_tail(
                                    parser@,
                                    AddModel::Minus {
                                        lhs: Box::new(acc0),
                                        rhs: rhs.deep_view(),
                                        location: add_loc(acc0),
                                    },
                                ));
                            }
                            let location = lhs.location().duplicate();
                            lhs = AdditiveExpression::Minus {
                                lhs: Box::new(lhs),
                                rhs: Box::new(rhs),
                                location,
                            };
                        },
                        Err(_) => {
                            proof {
                                lemma_expect_frame(ma, KindModel::Minus);
                                assert(spec_add_tail(cur, acc0) == Ok::<
                                    (AddModel, LexerModel),
                                    (ErrModel, LexerModel),
                                >((acc0, parser@)));
                            }
                            break;
                        },
                    }
                },
            }
        }
        Ok(lhs)
    }
}

impl Parse for Expression {
    open spec fn spec_parse(m: LexerModel) -> PRes<ExprModel> {
        spec_expression(m)
    }

    proof fn lemma_frame(m: LexerModel) {
        lemma_expression_frame(m);
    }

    fn parse(parser: &mut Parser) -> (r: Result<Self, ParseError>) {
        match AdditiveExpression::parse(parser) {
            Err(e) => Err(e),
            Ok(additive_expression) => Ok(
                Expression::AdditiveExpression(Box::new(additive_expression)),
            ),
        }
    }
}

} // verus!
