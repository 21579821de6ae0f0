use vstd::prelude::*;

verus! {

/// The kinds of token the tokenizer can produce. `EOF` closes every token
/// sequence.
#[derive(Debug, Eq, PartialEq, Copy, Clone, Structural)]
pub enum TokenKind {
    OpenParen,
    CloseParen,
    Plus,
    Minus,
    Star,
    Div,
    Eq,
    GreaterThan,
    LessThan,
    GreaterThanEq,
    LessThanEq,
    Num,
    Def,
    Fn,
    If,
    Ident,
    String,
    EOF,
}

/// A token: its kind, its text, and the line and column where it began
/// (diagnostics only; parsing never reads them).
#[derive(Debug, Clone)]
pub struct Token {
    pub kind: TokenKind,
    pub value: String,
    pub line: usize,
    pub col: usize,
}

/// Mathematical model of a token.
pub struct TokM {
    pub kind: TokenKind,
    pub text: Seq<char>,
    pub line: int,
    pub col: int,
}

impl View for Token {
    type V = TokM;

    open spec fn view(&self) -> TokM {
        TokM { kind: self.kind, text: self.value@, line: self.line as int, col: self.col as int }
    }
}

pub open spec fn view_tokens(ts: Seq<Token>) -> Seq<TokM> {
    Seq::new(ts.len(), |i: int| ts[i]@)
}

pub open spec fn is_space_char(c: char) -> bool {
    c == ' ' || c == '\t' || c == '\n' || c == '\r' || c == '\u{000C}'
}

pub open spec fn is_newline_char(c: char) -> bool {
    c == '\n' || c == '\r'
}

pub open spec fn is_digit_char(c: char) -> bool {
    48 <= c as u32 <= 57
}

pub open spec fn is_alpha_char(c: char) -> bool {
    (65 <= c as u32 <= 90) || (97 <= c as u32 <= 122)
}

pub open spec fn is_alnum_char(c: char) -> bool {
    is_alpha_char(c) || is_digit_char(c)
}

/// First index at or after `i` whose character is not an ASCII digit
/// (or the end of the text).
pub open spec fn scan_digits(s: Seq<char>, i: int) -> int
    decreases s.len() - i,
{
    if 0 <= i < s.len() && is_digit_char(s[i]) {
        scan_digits(s, i + 1)
    } else {
        i
    }
}

/// First index at or after `i` whose character is not ASCII alphanumeric.
pub open spec fn scan_alnum(s: Seq<char>, i: int) -> int
    decreases s.len() - i,
{
    if 0 <= i < s.len() && is_alnum_char(s[i]) {
        scan_alnum(s, i + 1)
    } else {
        i
    }
}

/// First index at or after `i` holding a double quote (or the end of the
/// text, when the string literal is unterminated).
pub open spec fn scan_to_quote(s: Seq<char>, i: int) -> int
    decreases s.len() - i,
{
    if 0 <= i < s.len() && s[i] != '"' {
        scan_to_quote(s, i + 1)
    } else {
        i
    }
}

/// An alphanumeric word is a keyword token when it is exactly `if`, `def`
/// or `fn`, and an identifier otherwise.
pub open spec fn ident_kind(text: Seq<char>) -> TokenKind {
    if text =~= seq!['i', 'f'] {
        TokenKind::If
    } else if text =~= seq!['d', 'e', 'f'] {
        TokenKind::Def
    } else if text =~= seq!['f', 'n'] {
        TokenKind::Fn
    } else {
        TokenKind::Ident
    }
}

pub open spec fn single_punct_kind(c: char) -> Option<TokenKind> {
    if c == '(' {
        Some(TokenKind::OpenParen)
    } else if c == ')' {
        Some(TokenKind::CloseParen)
    } else if c == '+' {
        Some(TokenKind::Plus)
    } else if c == '-' {
        Some(TokenKind::Minus)
    } else if c == '*' {
        Some(TokenKind::Star)
    } else if c == '/' {
        Some(TokenKind::Div)
    } else if c == '=' {
        Some(TokenKind::Eq)
    } else {
        None
    }
}

pub open spec fn eof_tok(line: int, col: int) -> TokM {
    TokM { kind: TokenKind::EOF, text: seq!['E', 'O', 'F'], line: line, col: col }
}

/// The token sequence produced from position `i` of the source onwards,
/// with the current line and column counters. Mirrors the tokenizing rules:
/// whitespace is skipped (newlines advance the line counter), digit runs
/// become numbers, alphanumeric words become keywords or identifiers,
/// punctuation maps to its kind (`>` and `<` look one character ahead for
/// `=`), a double quote opens a string literal that runs to the next quote
/// or to the end of the input, and any other character is discarded.
pub open spec fn spec_lex(s: Seq<char>, i: int, line: int, col: int) -> Seq<TokM>
    decreases s.len() - i,
{
    if !(0 <= i < s.len()) {
        seq![eof_tok(line, col)]
    } else {
        let c = s[i];
        if is_space_char(c) {
            if is_newline_char(c) {
                spec_lex(s, i + 1, line + 1, 0)
            } else {
                spec_lex(s, i + 1, line, col + 1)
            }
        } else if is_digit_char(c) {
            let j0 = scan_digits(s, i + 1);
            let j = if i + 1 <= j0 <= s.len() { j0 } else { i + 1 };
            seq![TokM { kind: TokenKind::Num, text: s.subrange(i, j), line, col }]
                + spec_lex(s, j, line, col + (j - i))
        } else if is_alpha_char(c) {
            let j0 = scan_alnum(s, i + 1);
            let j = if i + 1 <= j0 <= s.len() { j0 } else { i + 1 };
            let text = s.subrange(i, j);
            seq![TokM { kind: ident_kind(text), text, line, col }]
                + spec_lex(s, j, line, col + (j - i))
        } else if c == '>' || c == '<' {
            if i + 1 < s.len() && s[i + 1] == '=' {
                let k = if c == '>' { TokenKind::GreaterThanEq } else { TokenKind::LessThanEq };
                seq![TokM { kind: k, text: s.subrange(i, i + 2), line, col }]
                    + spec_lex(s, i + 2, line, col + 2)
            } else {
                let k = if c == '>' { TokenKind::GreaterThan } else { TokenKind::LessThan };
                seq![TokM { kind: k, text: seq![c], line, col }]
                    + spec_lex(s, i + 1, line, col + 1)
            }
        } else if c == '"' {
            let j0 = scan_to_quote(s, i + 1);
            let j = if i + 1 <= j0 <= s.len() { j0 } else { i + 1 };
            let text = s.subrange(i + 1, j);
            let next = if j < s.len() { j + 1 } else { j };
            seq![TokM { kind: TokenKind::String, text, line, col }]
                + spec_lex(s, next, line, col + (j - (i + 1)))
        } else if single_punct_kind(c) is Some {
            seq![TokM { kind: single_punct_kind(c)->0, text: seq![c], line, col }]
                + spec_lex(s, i + 1, line, col + 1)
        } else {
            spec_lex(s, i + 1, line, col)
        }
    }
}

/// The model of `tokenize`: the whole token sequence of a source text,
/// ending in an `EOF` token.
pub open spec fn spec_tokenize(s: Seq<char>) -> Seq<TokM> {
    spec_lex(s, 0, 0, 0)
}

proof fn lemma_scan_digits_char(s: Seq<char>, i: int, j: int)
    requires
        0 <= i <= j <= s.len(),
        forall|k: int| i <= k < j ==> is_digit_char(#[trigger] s[k]),
        j == s.len() || !is_digit_char(s[j]),
    ensures
        scan_digits(s, i) == j,
    decreases j - i,
{
    if i < j {
        lemma_scan_digits_char(s, i + 1, j);
    }
}

proof fn lemma_scan_alnum_char(s: Seq<char>, i: int, j: int)
    requires
        0 <= i <= j <= s.len(),
        forall|k: int| i <= k < j ==> is_alnum_char(#[trigger] s[k]),
        j == s.len() || !is_alnum_char(s[j]),
    ensures
        scan_alnum(s, i) == j,
    decreases j - i,
{
    if i < j {
        lemma_scan_alnum_char(s, i + 1, j);
    }
}

proof fn lemma_scan_to_quote_char(s: Seq<char>, i: int, j: int)
    requires
        0 <= i <= j <= s.len(),
        forall|k: int| i <= k < j ==> #[trigger] s[k] != '"',
        j == s.len() || s[j] == '"',
    ensures
        scan_to_quote(s, i) == j,
    decreases j - i,
{
    if i < j {
        lemma_scan_to_quote_char(s, i + 1, j);
    }
}

proof fn lemma_view_tokens_push(ts: Seq<Token>, t: Token)
    ensures
        view_tokens(ts.push(t)) =~= view_tokens(ts) + seq![t@],
{
}

fn is_space(c: char) -> (b: bool)
    ensures
        b == is_space_char(c),
{
    c == ' ' || c == '\t' || c == '\n' || c == '\r' || c == '\u{000C}'
}

fn is_digit(c: char) -> (b: bool)
    ensures
        b == is_digit_char(c),
{
    let u = c as u32;
    48 <= u && u <= 57
}

fn is_alpha(c: char) -> (b: bool)
    ensures
        b == is_alpha_char(c),
{
    let u = c as u32;
    (65 <= u && u <= 90) || (97 <= u && u <= 122)
}

fn is_alnum(c: char) -> (b: bool)
    ensures
        b == is_alnum_char(c),
{
    is_alpha(c) || is_digit(c)
}

fn keyword_or_ident(value: &String) -> (k: TokenKind)
    ensures
        k == ident_kind(value@),
{
    let s = value.as_str();
    let n = s.unicode_len();
    if n == 2 {
        let c0 = s.get_char(0);
        let c1 = s.get_char(1);
        if c0 == 'i' && c1 == 'f' {
            proof {
                assert(value@ =~= seq!['i', 'f']);
            }
            TokenKind::If
        } else if c0 == 'f' && c1 == 'n' {
            proof {
                assert(!(value@ =~= seq!['i', 'f']));
                assert(value@ =~= seq!['f', 'n']);
            }
            TokenKind::Fn
        } else {
            proof {
                assert(!(value@ =~= seq!['i', 'f']));
                assert(!(value@ =~= seq!['f', 'n']));
            }
            TokenKind::Ident
        }
    } else if n == 3 {
        let c0 = s.get_char(0);
        let c1 = s.get_char(1);
        let c2 = s.get_char(2);
        if c0 == 'd' && c1 == 'e' && c2 == 'f' {
            proof {
                assert(value@ =~= seq!['d', 'e', 'f']);
            }
            TokenKind::Def
        } else {
            proof {
                assert(!(value@ =~= seq!['d', 'e', 'f']));
            }
            TokenKind::Ident
        }
    } else {
        TokenKind::Ident
    }
}

/// Turns source text into tokens. Total: every input yields a sequence that
/// ends in an `EOF` token, exactly as `spec_tokenize` describes.
pub fn tokenize(input: &str) -> (r: Vec<Token>)
    ensures
        view_tokens(r@) == spec_tokenize(input@),
        r@.len() >= 1,
        r@.last().kind == TokenKind::EOF,
{
    proof {
        lemma_lex_ends_with_eof(input@, 0, 0, 0);
    }
    let ghost s = input@;
    let n = input.unicode_len();
    let mut tokens: Vec<Token> = Vec::new();
    let mut i: usize = 0;
    let mut line: usize = 0;
    let mut col: usize = 0;
    while i < n
        invariant
            n == s.len(),
            s == input@,
            i <= n,
            line <= i,
            col <= i,
            spec_tokenize(s) =~= view_tokens(tokens@) + spec_lex(s, i as int, line as int, col as int),
        decreases n - i,
    {
        let ghost tokens_in = tokens@;
        let c = input.get_char(i);
        if is_space(c) {
            if c == '\n' || c == '\r' {
                line = line + 1;
                col = 0;
            } else {
                col = col + 1;
            }
            i = i + 1;
        } else if is_digit(c) {
            let mut j = i + 1;
            while j < n && is_digit(input.get_char(j))
                invariant
                    n == s.len(),
                    s == input@,
                    i + 1 <= j <= n,
                    forall|k: int| i + 1 <= k < j ==> is_digit_char(#[trigger] s[k]),
                decreases n - j,
            {
                j = j + 1;
            }
            proof {
                lemma_scan_digits_char(s, i + 1, j as int);
            }
            let value = input.substring_char(i, j).to_owned();
            let tok = Token { kind: TokenKind::Num, value, line, col };
            tokens.push(tok);
            proof {
                lemma_view_tokens_push(tokens_in, tok);
            }
            col = col + (j - i);
            i = j;
        } else if is_alpha(c) {
            let mut j = i + 1;
            while j < n && is_alnum(input.get_char(j))
                invariant
                    n == s.len(),
                    s == input@,
                    i + 1 <= j <= n,
                    forall|k: int| i + 1 <= k < j ==> is_alnum_char(#[trigger] s[k]),
                decreases n - j,
            {
                j = j + 1;
            }
            proof {
                lemma_scan_alnum_char(s, i + 1, j as int);
            }
            let value = input.substring_char(i, j).to_owned();
            let kind = keyword_or_ident(&value);
            let tok = Token { kind, value, line, col };
            tokens.push(tok);
            proof {
                lemma_view_tokens_push(tokens_in, tok);
            }
            col = col + (j - i);
            i = j;
        } else if c == '>' || c == '<' {
            let two = i + 1 < n && input.get_char(i + 1) == '=';
            if two {
                let kind = if c == '>' {
                    TokenKind::GreaterThanEq
                } else {
                    TokenKind::LessThanEq
                };
                let value = input.substring_char(i, i + 2).to_owned();
                let tok = Token { kind, value, line, col };
                tokens.push(tok);
                proof {
                    lemma_view_tokens_push(tokens_in, tok);
                }
                col = col + 2;
                i = i + 2;
            } else {
                let kind = if c == '>' {
                    TokenKind::GreaterThan
                } else {
                    TokenKind::LessThan
                };
                let value = input.substring_char(i, i + 1).to_owned();
                let tok = Token { kind, value, line, col };
                tokens.push(tok);
                proof {
                    assert(value@ =~= seq![c]);
                    lemma_view_tokens_push(tokens_in, tok);
                }
                col = col + 1;
                i = i + 1;
            }
        } else if c == '"' {
            let mut j = i + 1;
            while j < n && input.get_char(j) != '"'
                invariant
                    n == s.len(),
                    s == input@,
                    i + 1 <= j <= n,
                    forall|k: int| i + 1 <= k < j ==> #[trigger] s[k] != '"',
                decreases n - j,
            {
                j = j + 1;
            }
            proof {
                lemma_scan_to_quote_char(s, i + 1, j as int);
            }
            let value = input.substring_char(i + 1, j).to_owned();
            let len = j - (i + 1);
            let tok = Token { kind: TokenKind::String, value, line, col };
            tokens.push(tok);
            proof {
                lemma_view_tokens_push(tokens_in, tok);
            }
            col = col + len;
            i = if j < n {
                j + 1
            } else {
                j
            };
        } else {
            let kind_opt = match c {
                '(' => Some(TokenKind::OpenParen),
                ')' => Some(TokenKind::CloseParen),
                '+' => Some(TokenKind::Plus),
                '-' => Some(TokenKind::Minus),
                '*' => Some(TokenKind::Star),
                '/' => Some(TokenKind::Div),
                '=' => Some(TokenKind::Eq),
                _ => None,
            };
            match kind_opt {
                Some(kind) => {
                    let value = input.substring_char(i, i + 1).to_owned();
                    let tok = Token { kind, value, line, col };
                    tokens.push(tok);
                    proof {
                        assert(value@ =~= seq![c]);
                        lemma_view_tokens_push(tokens_in, tok);
                    }
                    col = col + 1;
                    i = i + 1;
                }
                None => {
                    i = i + 1;
                }
            }
        }
    }
    let value = String::from_str("EOF");
    proof {
        reveal_strlit("EOF");
        assert(value@ =~= seq!['E', 'O', 'F']);
    }
    let tok = Token { kind: TokenKind::EOF, value, line, col };
    let ghost tokens_in = tokens@;
    tokens.push(tok);
    proof {
        lemma_view_tokens_push(tokens_in, tok);
        assert(view_tokens(tokens@) =~= spec_tokenize(s));
        assert(tokens@.last() == tok);
    }
    tokens
}

/// An unterminated string literal never stops the tokenizer: a quote that
/// no later quote closes yields a `String` token holding every trailing
/// character, and then the `EOF` token.
pub proof fn lemma_unterminated_string(s: Seq<char>, i: int, line: int, col: int)
    requires
        0 <= i < s.len(),
        s[i] == '"',
        forall|k: int| i < k < s.len() ==> #[trigger] s[k] != '"',
    ensures
        spec_lex(s, i, line, col) == seq![
            TokM { kind: TokenKind::String, text: s.subrange(i + 1, s.len() as int), line, col },
        ] + seq![eof_tok(line, col + (s.len() - (i + 1)))],
{
    lemma_scan_to_quote_char(s, i + 1, s.len() as int);
    reveal_with_fuel(spec_lex, 2);
}

proof fn lemma_concat_last(a: Seq<TokM>, b: Seq<TokM>)
    requires
        b.len() >= 1,
    ensures
        (a + b).last() == b.last(),
{
}

/// Tokenizing is total: from any position the token sequence is non-empty
/// and its last token is the `EOF` marker.
pub proof fn lemma_lex_ends_with_eof(s: Seq<char>, i: int, line: int, col: int)
    ensures
        spec_lex(s, i, line, col).len() >= 1,
        spec_lex(s, i, line, col).last().kind == TokenKind::EOF,
    decreases s.len() - i,
{
    if 0 <= i < s.len() {
        let c = s[i];
        if is_space_char(c) {
            if is_newline_char(c) {
                lemma_lex_ends_with_eof(s, i + 1, line + 1, 0);
            } else {
                lemma_lex_ends_with_eof(s, i + 1, line, col + 1);
            }
        } else if is_digit_char(c) {
            let j0 = scan_digits(s, i + 1);
            let j = if i + 1 <= j0 <= s.len() { j0 } else { i + 1 };
            lemma_lex_ends_with_eof(s, j, line, col + (j - i));
            lemma_concat_last(
                seq![TokM { kind: TokenKind::Num, text: s.subrange(i, j), line, col }],
                spec_lex(s, j, line, col + (j - i)),
            );
        } else if is_alpha_char(c) {
            let j0 = scan_alnum(s, i + 1);
            let j = if i + 1 <= j0 <= s.len() { j0 } else { i + 1 };
            let text = s.subrange(i, j);
            lemma_lex_ends_with_eof(s, j, line, col + (j - i));
            lemma_concat_last(
                seq![TokM { kind: ident_kind(text), text, line, col }],
                spec_lex(s, j, line, col + (j - i)),
            );
        } else if c == '>' || c == '<' {
            if i + 1 < s.len() && s[i + 1] == '=' {
                let k = if c == '>' { TokenKind::GreaterThanEq } else { TokenKind::LessThanEq };
                lemma_lex_ends_with_eof(s, i + 2, line, col + 2);
                lemma_concat_last(
                    seq![TokM { kind: k, text: s.subrange(i, i + 2), line, col }],
                    spec_lex(s, i + 2, line, col + 2),
                );
            } else {
                let k = if c == '>' { TokenKind::GreaterThan } else { TokenKind::LessThan };
                lemma_lex_ends_with_eof(s, i + 1, line, col + 1);
                lemma_concat_last(
                    seq![TokM { kind: k, text: seq![c], line, col }],
                    spec_lex(s, i + 1, line, col + 1),
                );
            }
        } else if c == '"' {
            let j0 = scan_to_quote(s, i + 1);
            let j = if i + 1 <= j0 <= s.len() { j0 } else { i + 1 };
            let text = s.subrange(i + 1, j);
            let next = if j < s.len() { j + 1 } else { j };
            lemma_lex_ends_with_eof(s, next, line, col + (j - (i + 1)));
            lemma_concat_last(
                seq![TokM { kind: TokenKind::String, text, line, col }],
                spec_lex(s, next, line, col + (j - (i + 1))),
            );
        } else if single_punct_kind(c) is Some {
            lemma_lex_ends_with_eof(s, i + 1, line, col + 1);
            lemma_concat_last(
                seq![TokM { kind: single_punct_kind(c)->0, text: seq![c], line, col }],
                spec_lex(s, i + 1, line, col + 1),
            );
        } else {
            lemma_lex_ends_with_eof(s, i + 1, line, col);
        }
    }
}

/// The same, at the whole-input level: a source text that opens with a
/// quote that nothing closes tokenizes to exactly one `String` token
/// holding every later character, and then the `EOF` token.
pub proof fn lemma_tokenize_unterminated_string(s: Seq<char>)
    requires
        s.len() >= 1,
        s[0] == '"',
        forall|k: int| 0 < k < s.len() ==> #[trigger] s[k] != '"',
    ensures
        spec_tokenize(s) == seq![
            TokM { kind: TokenKind::String, text: s.subrange(1, s.len() as int), line: 0, col: 0 },
        ] + seq![eof_tok(0, s.len() - 1)],
{
    lemma_unterminated_string(s, 0, 0, 0);
}

} // verus!
