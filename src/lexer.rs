use vstd::prelude::*;

use crate::token::{Token, TokenType};

verus! {

/// Whether `char::is_numeric` holds of a character.
pub uninterp spec fn numeric_char(c: char) -> bool;

/// Whether `char::is_alphanumeric` holds of a character.
pub uninterp spec fn alphanumeric_char(c: char) -> bool;

/// Whether `char::is_whitespace` holds of a character.
pub uninterp spec fn whitespace_char(c: char) -> bool;

/// Relies on `char::is_numeric`: a Unicode general-category test of the
/// character alone.
#[verifier::external_body]
fn is_numeric(c: char) -> (r: bool)
    ensures
        r == numeric_char(c),
{
    c.is_numeric()
}

/// Relies on `char::is_alphanumeric`: a Unicode property test of the
/// character alone.
#[verifier::external_body]
fn is_alphanumeric(c: char) -> (r: bool)
    ensures
        r == alphanumeric_char(c),
{
    c.is_alphanumeric()
}

/// Relies on `char::is_whitespace`: a Unicode property test of the
/// character alone.
#[verifier::external_body]
fn is_whitespace(c: char) -> (r: bool)
    ensures
        r == whitespace_char(c),
{
    c.is_whitespace()
}

/// Whether a character can stand in a word: a letter, a digit, or `_`.
pub fn is_word_start(c: char) -> (r: bool)
    ensures
        r == word_char(c),
{
    is_alphanumeric(c) || c == '_'
}

/// Why lexing stopped.
#[derive(Debug, Clone, Copy, PartialEq, Eq, Structural)]
pub enum LexErrorKind {
    /// A character that begins no token.
    UnexpectedCharacter,
    /// A string literal without its closing quote.
    UnterminatedString,
    /// A number written with digits other than `0`-`9`.
    MalformedNumber,
}

#[derive(Debug, Clone, Copy, PartialEq, Eq, Structural)]
pub struct LexError {
    pub kind: LexErrorKind,
    pub line_number: u32,
}

/// What a token says, with its text as a character sequence.
pub ghost enum Lexeme {
    Fixed(TokenType),
    Word(Seq<char>),
    Number(Seq<char>),
    Text(Seq<char>),
}

pub open spec fn lexeme(t: TokenType) -> Lexeme {
    match t {
        TokenType::Identifier(w) => Lexeme::Word(w@),
        TokenType::Decimal(d) => Lexeme::Number(d@),
        TokenType::StringLiteral(s) => Lexeme::Text(s@),
        _ => Lexeme::Fixed(t),
    }
}

/// A token as what it says and the line it is on.
pub open spec fn token_view(t: Token) -> (Lexeme, nat) {
    (lexeme(t.token_type), t.line_number as nat)
}

pub open spec fn tokens_view(ts: Seq<Token>) -> Seq<(Lexeme, nat)> {
    ts.map_values(|t: Token| token_view(t))
}

pub open spec fn word_char(c: char) -> bool {
    alphanumeric_char(c) || c == '_'
}

/// The first position from `i` on whose character is not numeric.
pub open spec fn digits_end(s: Seq<char>, i: int) -> int
    decreases s.len() - i,
{
    if 0 <= i < s.len() && numeric_char(s[i]) {
        digits_end(s, i + 1)
    } else {
        i
    }
}

/// The first position from `i` on whose character cannot continue a word.
pub open spec fn word_end(s: Seq<char>, i: int) -> int
    decreases s.len() - i,
{
    if 0 <= i < s.len() && word_char(s[i]) {
        word_end(s, i + 1)
    } else {
        i
    }
}

/// The first position from `i` on that holds a double quote, or the end.
pub open spec fn quote_end(s: Seq<char>, i: int) -> int
    decreases s.len() - i,
{
    if 0 <= i < s.len() && s[i] != '"' {
        quote_end(s, i + 1)
    } else {
        i
    }
}

/// The number of line breaks in `s`.
pub open spec fn count_newlines(s: Seq<char>) -> nat
    decreases s.len(),
{
    if s.len() == 0 {
        0
    } else {
        count_newlines(s.drop_last()) + if s.last() == '\n' {
            1nat
        } else {
            0nat
        }
    }
}

/// The end of a number starting at `i`: digits, then optionally a point
/// and more digits.
pub open spec fn number_end(s: Seq<char>, i: int) -> int {
    let j = digits_end(s, i);
    if 0 <= j < s.len() && s[j] == '.' {
        digits_end(s, j + 1)
    } else {
        j
    }
}

/// Whether a number's text uses only the digits `0`-`9` and points.
pub open spec fn plain_number(w: Seq<char>) -> bool {
    forall|k: int| 0 <= k < w.len() ==> ('0' <= #[trigger] w[k] <= '9' || w[k] == '.')
}

/// A keyword's token, or an identifier.
pub open spec fn word_lexeme(w: Seq<char>) -> Lexeme {
    if w == "output"@ {
        Lexeme::Fixed(TokenType::Output)
    } else if w == "let"@ {
        Lexeme::Fixed(TokenType::Let)
    } else if w == "f32"@ {
        Lexeme::Fixed(TokenType::F32)
    } else if w == "str"@ {
        Lexeme::Fixed(TokenType::Str)
    } else if w == "bool"@ {
        Lexeme::Fixed(TokenType::Bool)
    } else if w == "true"@ {
        Lexeme::Fixed(TokenType::True)
    } else if w == "false"@ {
        Lexeme::Fixed(TokenType::False)
    } else if w == "and"@ {
        Lexeme::Fixed(TokenType::And)
    } else if w == "or"@ {
        Lexeme::Fixed(TokenType::Or)
    } else if w == "break"@ {
        Lexeme::Fixed(TokenType::Break)
    } else if w == "loop"@ {
        Lexeme::Fixed(TokenType::Loop)
    } else if w == "if"@ {
        Lexeme::Fixed(TokenType::If)
    } else if w == "else"@ {
        Lexeme::Fixed(TokenType::Else)
    } else {
        Lexeme::Word(w)
    }
}

/// The token of a character that stands alone.
pub open spec fn single_char_token(c: char) -> Option<TokenType> {
    if c == '(' {
        Some(TokenType::LeftParen)
    } else if c == ')' {
        Some(TokenType::RightParen)
    } else if c == '{' {
        Some(TokenType::LeftBrace)
    } else if c == '}' {
        Some(TokenType::RightBrace)
    } else if c == ':' {
        Some(TokenType::Colon)
    } else if c == '+' {
        Some(TokenType::Plus)
    } else if c == '-' {
        Some(TokenType::Minus)
    } else if c == '*' {
        Some(TokenType::Star)
    } else if c == '/' {
        Some(TokenType::Slash)
    } else {
        None
    }
}

/// The token of `=`, `>` or `<`, alone (`with_equals` false) or followed
/// by `=`.
pub open spec fn comparison_token(c: char, with_equals: bool) -> TokenType {
    if c == '=' {
        if with_equals { TokenType::DoubleEquals } else { TokenType::Equals }
    } else if c == '>' {
        if with_equals { TokenType::GreaterEqualTo } else { TokenType::GreaterThan }
    } else {
        if with_equals { TokenType::LessEqualTo } else { TokenType::LessThan }
    }
}

/// The tokens of `s` from position `i` on, on line `line`, after the
/// tokens `acc`. Each token carries the line it starts on; line breaks
/// inside a string literal count toward the lines after it. Input ends at its last character or at a NUL character;
/// the end-of-input marker closes the sequence.
pub open spec fn lex_from(s: Seq<char>, i: int, line: nat, acc: Seq<(Lexeme, nat)>) -> Result<
    Seq<(Lexeme, nat)>,
    LexError,
>
    decreases s.len() - i,
{
    if i < 0 || i >= s.len() || s[i] == '\0' {
        Ok(acc.push((Lexeme::Fixed(TokenType::EndOfFile), line)))
    } else {
        let c = s[i];
        let fail = |kind: LexErrorKind| Err(LexError { kind, line_number: line as u32 });
        if numeric_char(c) {
            let j = number_end(s, i);
            if !plain_number(s.subrange(i, j)) {
                fail(LexErrorKind::MalformedNumber)
            } else if i < j <= s.len() {
                lex_from(s, j, line, acc.push((Lexeme::Number(s.subrange(i, j)), line)))
            } else {
                fail(LexErrorKind::MalformedNumber)
            }
        } else if word_char(c) {
            let j = word_end(s, i);
            if i < j <= s.len() {
                lex_from(s, j, line, acc.push((word_lexeme(s.subrange(i, j)), line)))
            } else {
                fail(LexErrorKind::UnexpectedCharacter)
            }
        } else if c == '"' {
            let j = quote_end(s, i + 1);
            if i < j < s.len() {
                lex_from(
                    s,
                    j + 1,
                    line + count_newlines(s.subrange(i + 1, j)),
                    acc.push((Lexeme::Text(s.subrange(i + 1, j)), line)),
                )
            } else {
                fail(LexErrorKind::UnterminatedString)
            }
        } else if single_char_token(c) is Some {
            lex_from(s, i + 1, line, acc.push((Lexeme::Fixed(single_char_token(c)->0), line)))
        } else if c == '=' || c == '>' || c == '<' {
            if i + 1 < s.len() && s[i + 1] == '=' {
                lex_from(s, i + 2, line, acc.push((Lexeme::Fixed(comparison_token(c, true)), line)))
            } else {
                lex_from(s, i + 1, line, acc.push((Lexeme::Fixed(comparison_token(c, false)), line)))
            }
        } else if c == '&' || c == '|' {
            if i + 1 < s.len() && s[i + 1] == c {
                let t = if c == '&' { TokenType::And } else { TokenType::Or };
                lex_from(s, i + 2, line, acc.push((Lexeme::Fixed(t), line)))
            } else {
                fail(LexErrorKind::UnexpectedCharacter)
            }
        } else if c == '\n' {
            lex_from(s, i + 1, line + 1, acc)
        } else if whitespace_char(c) {
            lex_from(s, i + 1, line, acc)
        } else {
            fail(LexErrorKind::UnexpectedCharacter)
        }
    }
}

/// The tokens of a whole input, from line 1.
pub open spec fn lex_spec(s: Seq<char>) -> Result<Seq<(Lexeme, nat)>, LexError> {
    lex_from(s, 0, 1, Seq::empty())
}

fn scan_digits(s: &str, i: usize, n: usize) -> (j: usize)
    requires
        n == s@.len(),
        i <= n,
    ensures
        j as int == digits_end(s@, i as int),
        i <= j <= n,
{
    let mut j = i;
    while j < n && is_numeric(s.get_char(j))
        invariant
            n == s@.len(),
            i <= j <= n,
            digits_end(s@, i as int) == digits_end(s@, j as int),
        decreases n - j,
    {
        j = j + 1;
    }
    j
}

fn scan_word(s: &str, i: usize, n: usize) -> (j: usize)
    requires
        n == s@.len(),
        i <= n,
    ensures
        j as int == word_end(s@, i as int),
        i <= j <= n,
{
    let mut j = i;
    while j < n && (is_alphanumeric(s.get_char(j)) || s.get_char(j) == '_')
        invariant
            n == s@.len(),
            i <= j <= n,
            word_end(s@, i as int) == word_end(s@, j as int),
        decreases n - j,
    {
        j = j + 1;
    }
    j
}

fn scan_to_quote(s: &str, i: usize, n: usize) -> (j: usize)
    requires
        n == s@.len(),
        i <= n,
    ensures
        j as int == quote_end(s@, i as int),
        i <= j <= n,
{
    let mut j = i;
    while j < n && s.get_char(j) != '"'
        invariant
            n == s@.len(),
            i <= j <= n,
            quote_end(s@, i as int) == quote_end(s@, j as int),
        decreases n - j,
    {
        j = j + 1;
    }
    j
}

/// The number of line breaks among the characters from `from` to `to`.
fn newlines_between(s: &str, from: usize, to: usize) -> (r: usize)
    requires
        from <= to <= s@.len(),
    ensures
        r == count_newlines(s@.subrange(from as int, to as int)),
        r <= to - from,
{
    let mut k = from;
    let mut r: usize = 0;
    assert(s@.subrange(from as int, from as int).len() == 0);
    while k < to
        invariant
            from <= k <= to <= s@.len(),
            r == count_newlines(s@.subrange(from as int, k as int)),
            r <= k - from,
        decreases to - k,
    {
        assert(s@.subrange(from as int, k + 1).drop_last() =~= s@.subrange(from as int, k as int));
        if s.get_char(k) == '\n' {
            r = r + 1;
        }
        k = k + 1;
    }
    r
}

fn is_plain_number(w: &str) -> (r: bool)
    ensures
        r == plain_number(w@),
{
    let n = w.unicode_len();
    let mut k: usize = 0;
    while k < n
        invariant
            n == w@.len(),
            0 <= k <= n,
            forall|m: int| 0 <= m < k ==> ('0' <= #[trigger] w@[m] <= '9' || w@[m] == '.'),
        decreases n - k,
    {
        let c = w.get_char(k);
        if !(('0' <= c && c <= '9') || c == '.') {
            return false;
        }
        k = k + 1;
    }
    true
}

/// The keyword token that `w` spells, or an identifier.
fn word_token(w: String) -> (r: TokenType)
    ensures
        lexeme(r) == word_lexeme(w@),
{
    if w == String::from_str("output") {
        TokenType::Output
    } else if w == String::from_str("let") {
        TokenType::Let
    } else if w == String::from_str("f32") {
        TokenType::F32
    } else if w == String::from_str("str") {
        TokenType::Str
    } else if w == String::from_str("bool") {
        TokenType::Bool
    } else if w == String::from_str("true") {
        TokenType::True
    } else if w == String::from_str("false") {
        TokenType::False
    } else if w == String::from_str("and") {
        TokenType::And
    } else if w == String::from_str("or") {
        TokenType::Or
    } else if w == String::from_str("break") {
        TokenType::Break
    } else if w == String::from_str("loop") {
        TokenType::Loop
    } else if w == String::from_str("if") {
        TokenType::If
    } else if w == String::from_str("else") {
        TokenType::Else
    } else {
        TokenType::Identifier(w)
    }
}

fn single_char(c: char) -> (r: Option<TokenType>)
    ensures
        r == single_char_token(c),
{
    if c == '(' {
        Some(TokenType::LeftParen)
    } else if c == ')' {
        Some(TokenType::RightParen)
    } else if c == '{' {
        Some(TokenType::LeftBrace)
    } else if c == '}' {
        Some(TokenType::RightBrace)
    } else if c == ':' {
        Some(TokenType::Colon)
    } else if c == '+' {
        Some(TokenType::Plus)
    } else if c == '-' {
        Some(TokenType::Minus)
    } else if c == '*' {
        Some(TokenType::Star)
    } else if c == '/' {
        Some(TokenType::Slash)
    } else {
        None
    }
}

fn comparison(c: char, with_equals: bool) -> (r: TokenType)
    ensures
        r == comparison_token(c, with_equals),
{
    if c == '=' {
        if with_equals { TokenType::DoubleEquals } else { TokenType::Equals }
    } else if c == '>' {
        if with_equals { TokenType::GreaterEqualTo } else { TokenType::GreaterThan }
    } else {
        if with_equals { TokenType::LessEqualTo } else { TokenType::LessThan }
    }
}

proof fn lemma_tokens_view_push(ts: Seq<Token>, t: Token)
    ensures
        tokens_view(ts.push(t)) == tokens_view(ts).push(token_view(t)),
{
    assert(tokens_view(ts.push(t)) =~= tokens_view(ts).push(token_view(t)));
}

/// Splits source text into tokens.
pub struct Lexer {
    content: String,
    current: usize,
    output: Vec<Token>,
}

impl Lexer {
    /// The tokens of the last input lexed.
    pub closed spec fn tokens(&self) -> Seq<Token> {
        self.output@
    }

    pub fn new() -> (r: Lexer)
        ensures
            r.tokens() == Seq::<Token>::empty(),
    {
        Lexer { content: String::new(), current: 0, output: Vec::new() }
    }

    /// The tokens of the last input lexed, ending with the end-of-input
    /// marker.
    pub fn get_tokens(&self) -> (r: &Vec<Token>)
        ensures
            r@ == self.tokens(),
    {
        &self.output
    }

    /// Splits `input` into tokens, each with its 1-based line, and closes
    /// them with the end-of-input marker; or reports the first character
    /// that begins no token.
    pub fn lex(&mut self, input: String) -> (r: Result<(), LexError>)
        requires
            input@.len() < 0xffff_ffff,
        ensures
            match lex_spec(input@) {
                Ok(ls) => r is Ok && tokens_view(final(self).tokens()) == ls,
                Err(e) => r == Err::<(), LexError>(e),
            },
            r is Ok ==> final(self).tokens().len() > 0 && final(self).tokens().last().token_type is EndOfFile,
    {
        let s = input.as_str();
        let n = s.unicode_len();
        let mut i: usize = 0;
        let mut line: u32 = 1;
        let mut out: Vec<Token> = Vec::new();
        assert(tokens_view(out@) =~= Seq::<(Lexeme, nat)>::empty());
        loop
            invariant
                n == s@.len(),
                s@ == input@,
                n < 0xffff_ffff,
                0 <= i <= n,
                1 <= line <= i + 1,
                lex_spec(input@) == lex_from(s@, i as int, line as nat, tokens_view(out@)),
            ensures
                lex_spec(input@) == Ok::<Seq<(Lexeme, nat)>, LexError>(
                    tokens_view(out@).push((Lexeme::Fixed(TokenType::EndOfFile), line as nat)),
                ),
            decreases n - i,
        {
            if i >= n {
                break;
            }
            let c = s.get_char(i);
            if c == '\0' {
                break;
            }
            let ghost before = out@;
            if is_numeric(c) {
                let mut j = scan_digits(s, i, n);
                if j < n && s.get_char(j) == '.' {
                    j = scan_digits(s, j + 1, n);
                }
                let text = s.substring_char(i, j);
                if !is_plain_number(text) || !(i < j) {
                    return Err(LexError { kind: LexErrorKind::MalformedNumber, line_number: line });
                }
                out.push(Token::new(TokenType::Decimal(String::from_str(text)), line));
                i = j;
            } else if is_word_start(c) {
                let j = scan_word(s, i, n);
                if !(i < j) {
                    return Err(LexError { kind: LexErrorKind::UnexpectedCharacter, line_number: line });
                }
                let word = String::from_str(s.substring_char(i, j));
                out.push(Token::new(word_token(word), line));
                i = j;
            } else if c == '"' {
                let j = scan_to_quote(s, i + 1, n);
                if !(j < n) {
                    return Err(LexError { kind: LexErrorKind::UnterminatedString, line_number: line });
                }
                let text = String::from_str(s.substring_char(i + 1, j));
                out.push(Token::new(TokenType::StringLiteral(text), line));
                let breaks = newlines_between(s, i + 1, j);
                line = line + breaks as u32;
                i = j + 1;
            } else if let Some(t) = single_char(c) {
                out.push(Token::new(t, line));
                i = i + 1;
            } else if c == '=' || c == '>' || c == '<' {
                if i + 1 < n && s.get_char(i + 1) == '=' {
                    out.push(Token::new(comparison(c, true), line));
                    i = i + 2;
                } else {
                    out.push(Token::new(comparison(c, false), line));
                    i = i + 1;
                }
            } else if c == '&' || c == '|' {
                if i + 1 < n && s.get_char(i + 1) == c {
                    let t = if c == '&' { TokenType::And } else { TokenType::Or };
                    out.push(Token::new(t, line));
                    i = i + 2;
                } else {
                    return Err(LexError { kind: LexErrorKind::UnexpectedCharacter, line_number: line });
                }
            } else if c == '\n' {
                line = line + 1;
                i = i + 1;
            } else if is_whitespace(c) {
                i = i + 1;
            } else {
                return Err(LexError { kind: LexErrorKind::UnexpectedCharacter, line_number: line });
            }
            proof {
                if out@.len() > before.len() {
                    lemma_tokens_view_push(before, out@.last());
                    assert(out@ =~= before.push(out@.last()));
                }
            }
        }
        let ghost before = out@;
        out.push(Token::new(TokenType::EndOfFile, line));
        proof {
            lemma_tokens_view_push(before, out@.last());
            assert(out@ =~= before.push(out@.last()));
        }
        self.output = out;
        self.current = i;
        self.content = input;
        Ok(())
    }
}

} // verus!
