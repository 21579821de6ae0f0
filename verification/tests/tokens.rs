use minilisp::lexer::{tokenize, TokenKind};
use minilisp::parse_error::ParseError;
use minilisp::parser::Parser;

#[test]
fn simple_addition_tokens() {
    let toks = tokenize("(+ 1 2)");
    let kinds: Vec<TokenKind> = toks.iter().map(|t| t.kind).collect();
    assert_eq!(
        kinds,
        vec![
            TokenKind::OpenParen,
            TokenKind::Plus,
            TokenKind::Num,
            TokenKind::Num,
            TokenKind::CloseParen,
            TokenKind::EOF,
        ]
    );
    assert_eq!(toks[2].value, "1");
    assert_eq!(toks[3].value, "2");
}

#[test]
fn unterminated_string_consumes_to_end() {
    let toks = tokenize("\"abc");
    assert_eq!(toks.len(), 2);
    assert_eq!(toks[0].kind, TokenKind::String);
    assert_eq!(toks[0].value, "abc");
    assert_eq!(toks[1].kind, TokenKind::EOF);
}

#[test]
fn terminated_string_excludes_quotes() {
    let toks = tokenize("\"hi there\"");
    assert_eq!(toks[0].kind, TokenKind::String);
    assert_eq!(toks[0].value, "hi there");
    assert_eq!(toks[1].kind, TokenKind::EOF);
}

#[test]
fn keywords_and_identifiers() {
    let toks = tokenize("if def fn foo if2");
    let kinds: Vec<TokenKind> = toks.iter().map(|t| t.kind).collect();
    assert_eq!(
        kinds,
        vec![
            TokenKind::If,
            TokenKind::Def,
            TokenKind::Fn,
            TokenKind::Ident,
            TokenKind::Ident,
            TokenKind::EOF,
        ]
    );
}

#[test]
fn comparison_lookahead() {
    let toks = tokenize(">= <= > < =");
    let kinds: Vec<TokenKind> = toks.iter().map(|t| t.kind).collect();
    assert_eq!(
        kinds,
        vec![
            TokenKind::GreaterThanEq,
            TokenKind::LessThanEq,
            TokenKind::GreaterThan,
            TokenKind::LessThan,
            TokenKind::Eq,
            TokenKind::EOF,
        ]
    );
    assert_eq!(toks[0].value, ">=");
    assert_eq!(toks[2].value, ">");
}

#[test]
fn unknown_characters_are_discarded() {
    let toks = tokenize("1 @ # 2");
    let kinds: Vec<TokenKind> = toks.iter().map(|t| t.kind).collect();
    assert_eq!(kinds, vec![TokenKind::Num, TokenKind::Num, TokenKind::EOF]);
}

#[test]
fn newline_advances_line_and_resets_column() {
    let toks = tokenize("x\n yy");
    assert_eq!(toks[0].line, 0);
    assert_eq!(toks[0].col, 0);
    assert_eq!(toks[1].line, 1);
    assert_eq!(toks[1].col, 1);
    assert_eq!(toks[1].value, "yy");
}

#[test]
fn digit_run_forms_one_number() {
    let toks = tokenize("1234x");
    assert_eq!(toks[0].kind, TokenKind::Num);
    assert_eq!(toks[0].value, "1234");
    assert_eq!(toks[1].kind, TokenKind::Ident);
    assert_eq!(toks[1].value, "x");
}

#[test]
fn stray_close_paren_is_a_parse_error() {
    let mut parser = Parser::new();
    let r = parser.parse(tokenize(")"));
    assert!(matches!(
        r,
        Err(ParseError::UnexpectedSymbol(TokenKind::OpenParen, TokenKind::CloseParen))
    ));
}

#[test]
fn unclosed_paren_reports_end_of_input() {
    let mut parser = Parser::new();
    let r = parser.parse(tokenize("("));
    assert!(matches!(
        r,
        Err(ParseError::UnexpectedSymbol(TokenKind::OpenParen, TokenKind::EOF))
    ));
}

#[test]
fn oversized_literal_is_refused() {
    let mut parser = Parser::new();
    let r = parser.parse(tokenize("99999999999999999999999"));
    assert!(matches!(
        r,
        Err(ParseError::UnexpectedSymbol(TokenKind::OpenParen, TokenKind::Num))
    ));
}

#[test]
fn parse_error_render_names_both_kinds() {
    let e = ParseError::UnexpectedSymbol(TokenKind::OpenParen, TokenKind::CloseParen);
    assert_eq!(e.render(), "Expected OpenParen but found CloseParen");
    assert_eq!(ParseError::Unknown.render(), "unknown parse error");
}

#[test]
fn parser_is_reusable_after_an_error() {
    let mut parser = Parser::new();
    assert!(parser.parse(tokenize(")")).is_err());
    let ok = parser.parse(tokenize("42"));
    assert!(ok.is_ok());
}
