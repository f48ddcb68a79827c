use c2mlir::lexer::{Lexer, Location};
use c2mlir::parser::{Parse, ParseError, Parser, TranslationUnit};

fn parse_error(source: &str) -> ParseError {
    let mut parser = Parser::new(Lexer::new("test.c".into(), source.as_bytes().to_vec()));
    TranslationUnit::parse(&mut parser).unwrap_err()
}

#[test]
fn misspelled_keyword_gets_a_caret_diagnostic() {
    // The identifier `retrun` starts at 0-indexed column 13 of line 0, so
    // the rendered header points at line 1, column 14, and the caret stands
    // under 13 spaces.
    let err = parse_error("int main() { retrun 1; }");
    assert_eq!(err.location.line, 0);
    assert_eq!(err.location.column, 13);
    let rendered = err.render();
    let lines: Vec<&str> = rendered.split('\n').collect();
    assert_eq!(lines[0], "test.c:1:14:");
    assert_eq!(lines[1], "int main() { retrun 1; }");
    assert_eq!(lines[2], format!("{}^", " ".repeat(13)));
    assert_eq!(lines[3], "expected Int, found Identifier(\"retrun\")");
}

#[test]
fn rendering_is_the_fixed_four_line_format() {
    // The statement rule fails on the missing semicolon, the parser rewinds
    // and tries the declaration rule, and the declaration's error at the
    // `return` keyword is the one surfaced.
    let err = parse_error("int main() { return 1 }");
    let rendered = err.render();
    assert_eq!(
        rendered,
        "test.c:1:14:\nint main() { return 1 }\n             ^\nexpected Int, found Return\n"
    );
}

#[test]
fn errors_on_later_lines_render_one_indexed() {
    let err = parse_error("int main()\n{\n  retrun 1;\n}\n");
    assert_eq!(err.location.line, 2);
    assert_eq!(err.location.column, 2);
    let rendered = err.render();
    let lines: Vec<&str> = rendered.split('\n').collect();
    assert_eq!(lines[0], "test.c:3:3:");
    // The quoted line is the one the parser rolled back to before reporting,
    // the line of the `{` that opened the body.
    assert_eq!(lines[1], "{");
    assert_eq!(lines[2], "  ^");
}

#[test]
fn end_of_input_error_points_past_the_last_token() {
    let err = parse_error("int main() { return 1;");
    assert_eq!(err.message, "expected RBrace, found EOF");
    // All input was consumed; the location is where the next token would
    // start.
    assert_eq!(err.location.line, 0);
    assert_eq!(err.location.column, 22);
}

#[test]
fn parse_error_new_keeps_its_parts() {
    let location = Location { filename: "f.c".into(), line: 4, column: 2 };
    let err = ParseError::new(location, "line text".to_string(), "message".to_string());
    assert_eq!(err.line, "line text");
    assert_eq!(err.message, "message");
    assert_eq!(err.location.line, 4);
    assert_eq!(err.render(), "f.c:5:3:\nline text\n  ^\nmessage\n");
}

#[test]
fn negative_and_large_integers_render_in_messages() {
    // The offending token is printed with its value, exercising decimal
    // rendering through the public path.
    let err = parse_error("9223372036854775807");
    assert_eq!(err.message, "expected Int, found Integer(9223372036854775807)");
    let err2 = parse_error("@");
    assert_eq!(err2.message, "expected Int, found Unknown(64)");
}

#[test]
fn non_ascii_lines_are_quoted_decoded() {
    // A non-ASCII byte lexes as `Unknown` and fails the parse; the quoted
    // line must be the decoded UTF-8 text, not one character per byte.
    let err = parse_error("\u{e9}x");
    assert_eq!(err.message, "expected Int, found Unknown(195)");
    assert_eq!(err.line, "\u{e9}x");
    assert_eq!(err.line.chars().count(), 2);
}

#[test]
fn invalid_utf8_lines_are_quoted_lossily() {
    // A lone continuation byte is not valid UTF-8; the quoted line replaces
    // it instead of panicking.
    let mut parser = Parser::new(Lexer::new("test.c".into(), vec![0xBF, b'x']));
    let err = TranslationUnit::parse(&mut parser).unwrap_err();
    assert_eq!(err.line, "\u{fffd}x");
}
