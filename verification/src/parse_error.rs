use vstd::prelude::*;
use crate::lexer::TokenKind;

verus! {

/// A parse-time error. `UnexpectedSymbol(expected, actual)` reports a token
/// kind that was required but not found (`EOF` is a possible actual kind);
/// the generic `Unknown` arises only when a candidate set of token kinds is
/// empty, which no grammar rule of this crate produces, or for a numeric
/// literal that does not fit the integer type.
#[derive(Debug, Copy, Clone, PartialEq, Eq, Structural)]
pub enum ParseError {
    Unknown,
    UnexpectedSymbol(TokenKind, TokenKind),
}

pub open spec fn spec_kind_name(k: TokenKind) -> Seq<char> {
    match k {
        TokenKind::OpenParen => "OpenParen"@,
        TokenKind::CloseParen => "CloseParen"@,
        TokenKind::Plus => "Plus"@,
        TokenKind::Minus => "Minus"@,
        TokenKind::Star => "Star"@,
        TokenKind::Div => "Div"@,
        TokenKind::Eq => "Eq"@,
        TokenKind::GreaterThan => "GreaterThan"@,
        TokenKind::LessThan => "LessThan"@,
        TokenKind::GreaterThanEq => "GreaterThanEq"@,
        TokenKind::LessThanEq => "LessThanEq"@,
        TokenKind::Num => "Num"@,
        TokenKind::Def => "Def"@,
        TokenKind::Fn => "Fn"@,
        TokenKind::If => "If"@,
        TokenKind::Ident => "Ident"@,
        TokenKind::String => "String"@,
        TokenKind::EOF => "EOF"@,
    }
}

/// The name of a token kind, for diagnostics.
pub fn kind_name(k: TokenKind) -> (r: &'static str)
    ensures
        r@ == spec_kind_name(k),
{
    match k {
        TokenKind::OpenParen => "OpenParen",
        TokenKind::CloseParen => "CloseParen",
        TokenKind::Plus => "Plus",
        TokenKind::Minus => "Minus",
        TokenKind::Star => "Star",
        TokenKind::Div => "Div",
        TokenKind::Eq => "Eq",
        TokenKind::GreaterThan => "GreaterThan",
        TokenKind::LessThan => "LessThan",
        TokenKind::GreaterThanEq => "GreaterThanEq",
        TokenKind::LessThanEq => "LessThanEq",
        TokenKind::Num => "Num",
        TokenKind::Def => "Def",
        TokenKind::Fn => "Fn",
        TokenKind::If => "If",
        TokenKind::Ident => "Ident",
        TokenKind::String => "String",
        TokenKind::EOF => "EOF",
    }
}

pub open spec fn spec_render_parse_error(e: ParseError) -> Seq<char> {
    match e {
        ParseError::Unknown => "unknown parse error"@,
        ParseError::UnexpectedSymbol(expected, actual) => "Expected "@ + spec_kind_name(expected)
            + " but found "@ + spec_kind_name(actual),
    }
}

impl ParseError {
    /// The display form of the error.
    pub fn render(&self) -> (r: String)
        ensures
            r@ == spec_render_parse_error(*self),
    {
        match *self {
            ParseError::Unknown => String::from_str("unknown parse error"),
            ParseError::UnexpectedSymbol(expected, actual) => String::from_str("Expected ")
                .concat(kind_name(expected))
                .concat(" but found ")
                .concat(kind_name(actual)),
        }
    }
}

} // verus!
