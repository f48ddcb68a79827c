use c2mlir::lexer::{Lexer, Position, Token, TokenKind};

fn lex(source: &str) -> Vec<Token> {
    let mut lexer = Lexer::new("test.c".into(), source.as_bytes().to_vec());
    let mut tokens = Vec::new();
    while let Some(token) = lexer.next() {
        tokens.push(token);
    }
    tokens
}

#[test]
fn test_lexer() {
    let src = "int main() { return 42; }".as_bytes().to_vec();
    let mut lexer = Lexer::new("test.c".into(), src);

    let mut tokens: Vec<Token> = Vec::new();
    while let Some(token) = lexer.next() {
        tokens.push(token);
    }

    assert_eq!(tokens.len(), 9);
    assert_eq!(tokens[0].kind, TokenKind::Int);
    assert_eq!(tokens[1].kind, TokenKind::Identifier("main".into()));
    assert_eq!(tokens[2].kind, TokenKind::LParen);
    assert_eq!(tokens[3].kind, TokenKind::RParen);
    assert_eq!(tokens[4].kind, TokenKind::LBrace);
    assert_eq!(tokens[5].kind, TokenKind::Return);
    assert_eq!(tokens[6].kind, TokenKind::Integer(42));
    assert_eq!(tokens[7].kind, TokenKind::SemiColon);
    assert_eq!(tokens[8].kind, TokenKind::RBrace);
}

#[test]
fn all_punctuators() {
    let tokens = lex("( ) { } + - * / % ;");
    let kinds: Vec<&TokenKind> = tokens.iter().map(|t| &t.kind).collect();
    assert_eq!(
        kinds,
        vec![
            &TokenKind::LParen,
            &TokenKind::RParen,
            &TokenKind::LBrace,
            &TokenKind::RBrace,
            &TokenKind::Plus,
            &TokenKind::Minus,
            &TokenKind::Asterisk,
            &TokenKind::Slash,
            &TokenKind::Percent,
            &TokenKind::SemiColon,
        ]
    );
}

#[test]
fn unknown_bytes_consume_one_byte_each() {
    let tokens = lex("@#");
    assert_eq!(tokens.len(), 2);
    assert_eq!(tokens[0].kind, TokenKind::Unknown(b'@'));
    assert_eq!(tokens[1].kind, TokenKind::Unknown(b'#'));
    assert_eq!(tokens[0].location.column, 0);
    assert_eq!(tokens[1].location.column, 1);
}

#[test]
fn keywords_and_identifiers() {
    let tokens = lex("int integer return return_ _x x9");
    assert_eq!(tokens[0].kind, TokenKind::Int);
    assert_eq!(tokens[1].kind, TokenKind::Identifier("integer".into()));
    assert_eq!(tokens[2].kind, TokenKind::Return);
    assert_eq!(tokens[3].kind, TokenKind::Identifier("return_".into()));
    assert_eq!(tokens[4].kind, TokenKind::Identifier("_x".into()));
    assert_eq!(tokens[5].kind, TokenKind::Identifier("x9".into()));
}

#[test]
fn location_tracking_across_lines() {
    // After each newline the line count rises by one and the column counts
    // the bytes consumed since that newline.
    let tokens = lex("int\nmain\n  42");
    assert_eq!(tokens[0].location.line, 0);
    assert_eq!(tokens[0].location.column, 0);
    assert_eq!(tokens[1].location.line, 1);
    assert_eq!(tokens[1].location.column, 0);
    assert_eq!(tokens[2].location.line, 2);
    assert_eq!(tokens[2].location.column, 2);
}

#[test]
fn backtracking_reproduces_the_token_sequence() {
    let source = "int main() { return 1+2; }";
    let mut lexer = Lexer::new("test.c".into(), source.as_bytes().to_vec());
    // Consume two tokens, then save.
    lexer.next().unwrap();
    lexer.next().unwrap();
    let saved: Position = lexer.current_position();
    // First scan from the saved position.
    let mut first: Vec<Token> = Vec::new();
    while let Some(token) = lexer.next() {
        first.push(token);
    }
    // Rewind and rescan.
    lexer.set_position(saved);
    let mut second: Vec<Token> = Vec::new();
    while let Some(token) = lexer.next() {
        second.push(token);
    }
    assert_eq!(first.len(), second.len());
    for (a, b) in first.iter().zip(second.iter()) {
        assert_eq!(a.kind, b.kind);
        assert_eq!(a.location.line, b.location.line);
        assert_eq!(a.location.column, b.location.column);
    }
}

#[test]
fn integer_literals_saturate_at_i64_max() {
    let tokens = lex("9223372036854775807 99999999999999999999");
    assert_eq!(tokens[0].kind, TokenKind::Integer(i64::MAX));
    assert_eq!(tokens[1].kind, TokenKind::Integer(i64::MAX));
}

#[test]
fn current_line_is_the_line_under_the_cursor() {
    let mut lexer = Lexer::new("test.c".into(), "ab\ncd ef\ngh".as_bytes().to_vec());
    for _ in 0..2 {
        lexer.next().unwrap();
    }
    // The cursor now stands inside the second line.
    assert_eq!(lexer.current_line(), "cd ef");
}

#[test]
fn current_location_reports_where_the_next_token_starts() {
    let mut lexer = Lexer::new("test.c".into(), "a\nb".as_bytes().to_vec());
    lexer.next().unwrap();
    lexer.next().unwrap();
    let loc = lexer.current_location();
    assert_eq!(loc.line, 1);
    assert_eq!(loc.column, 1);
}
