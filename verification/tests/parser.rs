use c2mlir::expression::{AdditiveExpression, Expression, MultiplicativeExpression,
    PrimaryExpression};
use c2mlir::lexer::{Lexer, TokenKind};
use c2mlir::parser::{Constant, ExternalDeclaration, Parse, Parser, TranslationUnit};
use c2mlir::statement::{BlockItem, JumpStatement, UnlabeledStatement};

fn parser_for(source: &str) -> Parser {
    Parser::new(Lexer::new("test.c".into(), source.as_bytes().to_vec()))
}

fn constant_of_primary(p: &PrimaryExpression) -> i64 {
    match p {
        PrimaryExpression::Constant { value: Constant::Integer(v), .. } => *v,
    }
}

fn eval_mult(e: &MultiplicativeExpression) -> i64 {
    match e {
        MultiplicativeExpression::PrimaryExpression(p) => constant_of_primary(p),
        MultiplicativeExpression::Mul { lhs, rhs, .. } => {
            eval_mult(lhs) * constant_of_primary(rhs)
        }
        MultiplicativeExpression::Div { lhs, rhs, .. } => {
            eval_mult(lhs) / constant_of_primary(rhs)
        }
        MultiplicativeExpression::Rem { lhs, rhs, .. } => {
            eval_mult(lhs) % constant_of_primary(rhs)
        }
    }
}

fn eval_add(e: &AdditiveExpression) -> i64 {
    match e {
        AdditiveExpression::PrimaryExpression(m) => eval_mult(m),
        AdditiveExpression::Add { lhs, rhs, .. } => eval_add(lhs) + eval_mult(rhs),
        AdditiveExpression::Minus { lhs, rhs, .. } => eval_add(lhs) - eval_mult(rhs),
    }
}

fn eval_expression(e: &Expression) -> i64 {
    match e {
        Expression::AdditiveExpression(a) => eval_add(a),
    }
}

#[test]
fn precedence_multiplication_binds_tighter() {
    // "1+2*3" must parse as Add(1, Mul(2, 3)), not Mul(Add(1, 2), 3).
    let mut parser = parser_for("1+2*3");
    let expr = AdditiveExpression::parse(&mut parser).unwrap();
    match &expr {
        AdditiveExpression::Add { lhs, rhs, .. } => {
            match lhs.as_ref() {
                AdditiveExpression::PrimaryExpression(
                    MultiplicativeExpression::PrimaryExpression(p),
                ) => assert_eq!(constant_of_primary(p), 1),
                other => panic!("left operand has the wrong shape: {:?}", other),
            }
            match rhs.as_ref() {
                MultiplicativeExpression::Mul { lhs: ml, rhs: mr, .. } => {
                    match ml.as_ref() {
                        MultiplicativeExpression::PrimaryExpression(p) => {
                            assert_eq!(constant_of_primary(p), 2)
                        }
                        other => panic!("inner left operand is not primary: {:?}", other),
                    }
                    assert_eq!(constant_of_primary(mr), 3);
                }
                other => panic!("right operand is not a multiplication: {:?}", other),
            }
        }
        other => panic!("expression is not an addition: {:?}", other),
    }
    assert_eq!(eval_add(&expr), 7);
}

#[test]
fn subtraction_is_left_associative() {
    // "1-2-3" must parse as Minus(Minus(1, 2), 3).
    let mut parser = parser_for("1-2-3");
    let expr = AdditiveExpression::parse(&mut parser).unwrap();
    match &expr {
        AdditiveExpression::Minus { lhs, rhs, .. } => {
            match lhs.as_ref() {
                AdditiveExpression::Minus { lhs: il, rhs: ir, .. } => {
                    match il.as_ref() {
                        AdditiveExpression::PrimaryExpression(
                            MultiplicativeExpression::PrimaryExpression(p),
                        ) => assert_eq!(constant_of_primary(p), 1),
                        other => panic!("innermost operand has the wrong shape: {:?}", other),
                    }
                    match ir.as_ref() {
                        MultiplicativeExpression::PrimaryExpression(p) => {
                            assert_eq!(constant_of_primary(p), 2)
                        }
                        other => panic!("middle operand is not primary: {:?}", other),
                    }
                }
                other => panic!("left operand is not the nested subtraction: {:?}", other),
            }
            match rhs.as_ref() {
                MultiplicativeExpression::PrimaryExpression(p) => {
                    assert_eq!(constant_of_primary(p), 3)
                }
                other => panic!("right operand is not primary: {:?}", other),
            }
        }
        other => panic!("expression is not a subtraction: {:?}", other),
    }
    assert_eq!(eval_add(&expr), -4);
}

#[test]
fn division_and_remainder_fold_left() {
    let mut parser = parser_for("10/2%3");
    let expr = MultiplicativeExpression::parse(&mut parser).unwrap();
    match &expr {
        MultiplicativeExpression::Rem { lhs, .. } => match lhs.as_ref() {
            MultiplicativeExpression::Div { .. } => {}
            other => panic!("inner node is not the division: {:?}", other),
        },
        other => panic!("outer node is not the remainder: {:?}", other),
    }
    assert_eq!(eval_mult(&expr), 2);
}

#[test]
fn full_program_parses_to_one_function() {
    let mut parser = parser_for("int main() { return 1+2*3; }");
    let unit = TranslationUnit::parse(&mut parser).unwrap();
    assert_eq!(unit.0.len(), 1);
    let ExternalDeclaration::FunctionDefinition(f) = &unit.0[0];
    assert_eq!(f.identifier.as_str(), "main");
    assert_eq!(f.location.line, 0);
    assert_eq!(f.location.column, 0);
    assert_eq!(f.body.block_items.len(), 1);
    match &f.body.block_items[0] {
        BlockItem::UnlabeledStatement(UnlabeledStatement::JumpStatement(
            JumpStatement::Return { location, expression },
        )) => {
            assert_eq!(location.column, 13);
            assert_eq!(eval_expression(expression), 7);
        }
        other => panic!("block item is not the return statement: {:?}", other),
    }
}

#[test]
fn empty_compound_statement_is_rejected() {
    // A compound statement needs at least one block item; the error points
    // at the closing brace that stands where a block item should start.
    let mut parser = parser_for("int main(){}");
    let err = TranslationUnit::parse(&mut parser).unwrap_err();
    assert_eq!(err.location.line, 0);
    assert_eq!(err.location.column, 11);
}

#[test]
fn declarations_and_statements_mix_in_a_body() {
    let mut parser = parser_for("int main() { int x; return 1; }");
    let unit = TranslationUnit::parse(&mut parser).unwrap();
    let ExternalDeclaration::FunctionDefinition(f) = &unit.0[0];
    assert_eq!(f.body.block_items.len(), 2);
    match &f.body.block_items[0] {
        BlockItem::Declaration(c2mlir::declaration::Declaration::NoAttr { init_declarator }) => {
            assert_eq!(init_declarator.as_str(), "x");
        }
        other => panic!("first block item is not the declaration: {:?}", other),
    }
    assert!(matches!(&f.body.block_items[1], BlockItem::UnlabeledStatement(_)));
}

#[test]
fn two_function_definitions() {
    let mut parser = parser_for("int main() { return 1; } int foo() { return 2; }");
    let unit = TranslationUnit::parse(&mut parser).unwrap();
    assert_eq!(unit.0.len(), 2);
    let ExternalDeclaration::FunctionDefinition(f1) = &unit.0[1];
    assert_eq!(f1.identifier.as_str(), "foo");
}

#[test]
fn trailing_input_is_rejected() {
    let mut parser = parser_for("int main() { return 1; } x");
    let err = TranslationUnit::parse(&mut parser).unwrap_err();
    assert_eq!(err.message, "expected EOF, found Identifier(\"x\")");
}

#[test]
fn missing_identifier_reports_eof() {
    let mut parser = parser_for("int");
    let err = TranslationUnit::parse(&mut parser).unwrap_err();
    assert_eq!(err.message, "expected identifier, found EOF");
}

#[test]
fn wrong_leading_token_names_both_kinds() {
    let mut parser = parser_for("42");
    let err = TranslationUnit::parse(&mut parser).unwrap_err();
    assert_eq!(err.message, "expected Int, found Integer(42)");
}

#[test]
fn failed_statement_falls_back_to_the_declaration_error() {
    // Inside a block item the statement rule is tried first; when it fails
    // the parser rewinds and tries the declaration rule, and it is the
    // declaration's error that is surfaced.
    let mut parser = parser_for("int main() { return ; }");
    let err = TranslationUnit::parse(&mut parser).unwrap_err();
    assert_eq!(err.message, "expected Int, found Return");
    assert_eq!(err.location.column, 13);
}

#[test]
fn expect_does_not_consume_on_mismatch() {
    let mut parser = parser_for("foo");
    let err = parser.expect(TokenKind::Int).unwrap_err();
    assert_eq!(err.message, "expected Int, found Identifier(\"foo\")");
    // The mismatched token was rolled back and is still available.
    let name = parser.expect_identifier().unwrap();
    assert_eq!(name.as_str(), "foo");
}

#[test]
fn expect_matches_on_shape() {
    let mut parser = parser_for("x 1");
    // Payloads do not take part in the comparison; any identifier payload
    // matches an identifier in the input.
    let tok = parser.expect(TokenKind::Identifier("y".into())).unwrap();
    assert_eq!(tok.kind, TokenKind::Identifier("x".into()));
    assert!(parser.expect(TokenKind::Integer(0)).is_ok());
}

#[test]
fn expect_integer_returns_location_and_value() {
    let mut parser = parser_for("  42");
    let (location, value) = parser.expect_integer().unwrap();
    assert_eq!(value, 42);
    assert_eq!(location.line, 0);
    assert_eq!(location.column, 2);
}

#[test]
fn expect_eof_sees_through_trailing_whitespace() {
    let mut parser = parser_for("x  \n ");
    parser.expect_identifier().unwrap();
    assert!(parser.expect_eof().is_ok());
}

#[test]
fn many1_stops_at_the_first_failure_and_restores() {
    let mut parser = parser_for("return 1; return 2; }");
    let items: Vec<BlockItem> = parser.many1().unwrap();
    assert_eq!(items.len(), 2);
    // The token that ended the repetition was not consumed.
    assert!(parser.expect(TokenKind::RBrace).is_ok());
}

#[test]
fn many1_requires_at_least_one_item() {
    let mut parser = parser_for("}");
    let r: Result<Vec<BlockItem>, _> = parser.many1();
    assert!(r.is_err());
}

#[test]
fn operator_nodes_share_their_leftmost_operand_location() {
    // Every AST node is located at the leftmost token that started its
    // construct, so an operator node's location is its left operand's, not
    // the operator's.
    let mut parser = parser_for("  1+2*3");
    let expr = AdditiveExpression::parse(&mut parser).unwrap();
    match &expr {
        AdditiveExpression::Add { rhs, location, .. } => {
            // The addition starts at the `1` (column 2), not at the `+`.
            assert_eq!(location.line, 0);
            assert_eq!(location.column, 2);
            match rhs.as_ref() {
                MultiplicativeExpression::Mul { location, .. } => {
                    // The multiplication starts at the `2` (column 4).
                    assert_eq!(location.column, 4);
                }
                other => panic!("right operand is not a multiplication: {:?}", other),
            }
        }
        other => panic!("expression is not an addition: {:?}", other),
    }
}
