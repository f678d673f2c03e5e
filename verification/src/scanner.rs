//! The scanner: a single left-to-right pass that turns source text into an
//! ordered sequence of [`Token`]s, ending with the `Eof` sentinel.
//!
//! The whole pass is specified by the recursive specification function
//! [`spec_scan`]; [`scan_program`] is proved to return exactly the token
//! sequence (or the error) that `spec_scan` describes.

use crate::token::{keyword_kind, SpecToken, SpecValue, Token, TokenType};
use vstd::prelude::*;

verus! {

/// A lexical error: the first offending position aborts the whole pass.
#[derive(Clone, PartialEq, Eq, Debug)]
pub enum LexError {
    /// A character that matches none of the recognized classes.
    UnexpectedChar { ch: char, line: usize },
    /// A string literal with no closing delimiter before end of input.
    UnterminatedString { line: usize },
}

/// The mathematical model of a [`LexError`].
pub enum SpecLexError {
    UnexpectedChar { ch: char, line: nat },
    UnterminatedString { line: nat },
}

impl View for LexError {
    type V = SpecLexError;

    open spec fn view(&self) -> SpecLexError {
        match self {
            LexError::UnexpectedChar { ch, line } => SpecLexError::UnexpectedChar {
                ch: *ch,
                line: *line as nat,
            },
            LexError::UnterminatedString { line } => SpecLexError::UnterminatedString {
                line: *line as nat,
            },
        }
    }
}

/// A decimal digit.
pub open spec fn is_digit_char(c: char) -> bool {
    ('0' as u32) <= (c as u32) && (c as u32) <= ('9' as u32)
}

/// An ASCII letter: the only characters that may start an identifier.
pub open spec fn is_alpha_char(c: char) -> bool {
    (('a' as u32) <= (c as u32) && (c as u32) <= ('z' as u32)) || (('A' as u32) <= (c as u32) && (c
        as u32) <= ('Z' as u32))
}

/// A letter or digit: the characters that may continue an identifier.
pub open spec fn is_alnum_char(c: char) -> bool {
    is_alpha_char(c) || is_digit_char(c)
}

/// Whitespace other than newline: skipped without emitting a token.
pub open spec fn is_blank_char(c: char) -> bool {
    c == ' ' || c == '\t' || c == '\r'
}

/// The kind of a one-character token, for the characters that always form
/// one on their own (`/` and the compound starters are handled separately).
pub open spec fn single_char_kind(c: char) -> Option<TokenType> {
    if c == '(' {
        Option::Some(TokenType::LeftParen)
    } else if c == ')' {
        Option::Some(TokenType::RightParen)
    } else if c == '{' {
        Option::Some(TokenType::LeftBrace)
    } else if c == '}' {
        Option::Some(TokenType::RightBrace)
    } else if c == ',' {
        Option::Some(TokenType::Comma)
    } else if c == '.' {
        Option::Some(TokenType::Dot)
    } else if c == '-' {
        Option::Some(TokenType::Minus)
    } else if c == '+' {
        Option::Some(TokenType::Plus)
    } else if c == ';' {
        Option::Some(TokenType::Semicolon)
    } else if c == '*' {
        Option::Some(TokenType::Star)
    } else {
        Option::None
    }
}

/// The two-character kind emitted when one of `! = < >` is followed by `=`.
pub open spec fn compound_kind(c: char) -> TokenType {
    if c == '!' {
        TokenType::BangEquals
    } else if c == '=' {
        TokenType::EqualsEquals
    } else if c == '<' {
        TokenType::LessEqual
    } else {
        TokenType::GreaterEqual
    }
}

/// The one-character kind emitted when one of `! = < >` is not followed by `=`.
pub open spec fn lone_kind(c: char) -> TokenType {
    if c == '!' {
        TokenType::Bang
    } else if c == '=' {
        TokenType::Equals
    } else if c == '<' {
        TokenType::Less
    } else {
        TokenType::Greater
    }
}

/// The character classes whose maximal runs the scanner measures.
#[derive(Clone, Copy, PartialEq, Eq, Structural, Debug)]
pub enum RunClass {
    /// Decimal digits (number bodies).
    Digit,
    /// Letters and digits (identifier bodies).
    Alnum,
    /// Everything but newline (comment bodies).
    NotNewline,
    /// Everything but the closing quote (string bodies).
    NotQuote,
}

/// Whether `c` belongs to the class `cls`.
pub open spec fn in_class(cls: RunClass, c: char) -> bool {
    match cls {
        RunClass::Digit => is_digit_char(c),
        RunClass::Alnum => is_alnum_char(c),
        RunClass::NotNewline => c != '\n',
        RunClass::NotQuote => c != '"',
    }
}

/// The length of the maximal prefix of `s` whose characters are all in `cls`.
pub open spec fn run_len(cls: RunClass, s: Seq<char>) -> nat
    decreases s.len(),
{
    if s.len() > 0 && in_class(cls, s[0]) {
        1 + run_len(cls, s.skip(1))
    } else {
        0
    }
}

/// A maximal run never reaches past the end of the sequence.
pub proof fn lemma_run_len_le(cls: RunClass, s: Seq<char>)
    ensures
        run_len(cls, s) <= s.len(),
    decreases s.len(),
{
    if s.len() > 0 && in_class(cls, s[0]) {
        lemma_run_len_le(cls, s.skip(1));
    }
}

/// The number of characters a number token starting at the head of `s`
/// occupies: a maximal digit run, optionally followed by a single `.` and a
/// second maximal digit run when a digit follows the dot.
pub open spec fn number_token_len(s: Seq<char>) -> nat {
    let d = run_len(RunClass::Digit, s);
    if d < s.len() && s[d as int] == '.' && d + 1 < s.len() && is_digit_char(s[d + 1 as int]) {
        d + 1 + run_len(RunClass::Digit, s.skip(d + 1 as int))
    } else {
        d
    }
}

/// A token with no literal payload.
pub open spec fn plain_token(token_type: TokenType, lexeme: Seq<char>, line: nat) -> SpecToken {
    SpecToken { token_type, lexeme, value: Option::None, line }
}

/// A string token: lexeme and literal are both the content between the quotes.
pub open spec fn string_token(content: Seq<char>, line: nat) -> SpecToken {
    SpecToken {
        token_type: TokenType::String,
        lexeme: content,
        value: Option::Some(SpecValue::Str(content)),
        line,
    }
}

/// A number token: lexeme and literal carry the exact source spelling.
pub open spec fn number_token(lexeme: Seq<char>, line: nat) -> SpecToken {
    SpecToken {
        token_type: TokenType::Number,
        lexeme,
        value: Option::Some(SpecValue::Num(lexeme)),
        line,
    }
}

/// An identifier or keyword token, classified by the keyword table.
pub open spec fn identifier_token(lexeme: Seq<char>, line: nat) -> SpecToken {
    plain_token(keyword_kind(lexeme), lexeme, line)
}

/// The end-of-input sentinel.
pub open spec fn eof_token(line: nat) -> SpecToken {
    plain_token(TokenType::Eof, Seq::empty(), line)
}

/// Puts one more token in front of a scan result, keeping an error as it is.
pub open spec fn prepend_token(t: SpecToken, rest: Result<Seq<SpecToken>, SpecLexError>) -> Result<
    Seq<SpecToken>,
    SpecLexError,
> {
    match rest {
        Result::Ok(ts) => Result::Ok(seq![t] + ts),
        Result::Err(e) => Result::Err(e),
    }
}

/// Puts a sequence of already scanned tokens in front of a scan result.
pub open spec fn prepend_tokens(ts: Seq<SpecToken>, rest: Result<Seq<SpecToken>, SpecLexError>) -> Result<
    Seq<SpecToken>,
    SpecLexError,
> {
    match rest {
        Result::Ok(more) => Result::Ok(ts + more),
        Result::Err(e) => Result::Err(e),
    }
}

/// What scanning the remaining input `s` on line `line` yields: the token
/// sequence through the `Eof` sentinel, or the first lexical error.
///
/// This is the specification the executable scanner is proved against.
pub open spec fn spec_scan(s: Seq<char>, line: nat) -> Result<Seq<SpecToken>, SpecLexError>
    decreases s.len(),
        via spec_scan_decreases
{
    if s.len() == 0 {
        Result::Ok(seq![eof_token(line)])
    } else {
        let c = s[0];
        if c == '\n' {
            spec_scan(s.skip(1), line + 1)
        } else if is_blank_char(c) {
            spec_scan(s.skip(1), line)
        } else if single_char_kind(c) is Some {
            prepend_token(
                plain_token(single_char_kind(c)->Some_0, s.subrange(0, 1), line),
                spec_scan(s.skip(1), line),
            )
        } else if c == '!' || c == '=' || c == '<' || c == '>' {
            if s.len() >= 2 && s[1] == '=' {
                prepend_token(
                    plain_token(compound_kind(c), s.subrange(0, 2), line),
                    spec_scan(s.skip(2), line),
                )
            } else {
                prepend_token(
                    plain_token(lone_kind(c), s.subrange(0, 1), line),
                    spec_scan(s.skip(1), line),
                )
            }
        } else if c == '/' {
            if s.len() >= 2 && s[1] == '/' {
                spec_scan(s.skip(2 + run_len(RunClass::NotNewline, s.skip(2)) as int), line)
            } else {
                prepend_token(
                    plain_token(TokenType::Slash, s.subrange(0, 1), line),
                    spec_scan(s.skip(1), line),
                )
            }
        } else if c == '"' {
            let k = run_len(RunClass::NotQuote, s.skip(1));
            if 1 + k < s.len() {
                prepend_token(
                    string_token(s.subrange(1, 1 + k as int), line),
                    spec_scan(s.skip(2 + k as int), line),
                )
            } else {
                Result::Err(SpecLexError::UnterminatedString { line })
            }
        } else if is_digit_char(c) {
            prepend_token(
                number_token(s.subrange(0, number_token_len(s) as int), line),
                spec_scan(s.skip(number_token_len(s) as int), line),
            )
        } else if is_alpha_char(c) {
            prepend_token(
                identifier_token(s.subrange(0, run_len(RunClass::Alnum, s) as int), line),
                spec_scan(s.skip(run_len(RunClass::Alnum, s) as int), line),
            )
        } else {
            Result::Err(SpecLexError::UnexpectedChar { ch: c, line })
        }
    }
}

#[via_fn]
proof fn spec_scan_decreases(s: Seq<char>, line: nat) {
    if s.len() >= 2 {
        lemma_run_len_le(RunClass::NotNewline, s.skip(2));
    }
    if s.len() >= 1 {
        lemma_run_len_le(RunClass::NotQuote, s.skip(1));
        lemma_run_len_le(RunClass::Digit, s);
        lemma_run_len_le(RunClass::Alnum, s);
        let d = run_len(RunClass::Digit, s);
        if d + 1 < s.len() {
            lemma_run_len_le(RunClass::Digit, s.skip(d + 1 as int));
        }
    }
}

/// Whether `c` may start an identifier (its first character is an ASCII
/// letter).
pub fn is_alphabetic(c: &str) -> (r: bool)
    requires
        c@.len() > 0,
    ensures
        r == is_alpha_char(c@[0]),
{
    alpha_char(c.get_char(0))
}

/// Whether `c` may start a number (its first character is a decimal digit).
pub fn is_numeric(c: &str) -> (r: bool)
    requires
        c@.len() > 0,
    ensures
        r == is_digit_char(c@[0]),
{
    digit_char(c.get_char(0))
}

fn digit_char(c: char) -> (r: bool)
    ensures
        r == is_digit_char(c),
{
    let u: u32 = c as u32;
    ('0' as u32) <= u && u <= ('9' as u32)
}

fn alpha_char(c: char) -> (r: bool)
    ensures
        r == is_alpha_char(c),
{
    let u: u32 = c as u32;
    (('a' as u32) <= u && u <= ('z' as u32)) || (('A' as u32) <= u && u <= ('Z' as u32))
}

fn blank_char(c: char) -> (r: bool)
    ensures
        r == is_blank_char(c),
{
    c == ' ' || c == '\t' || c == '\r'
}

fn in_class_exec(cls: RunClass, c: char) -> (r: bool)
    ensures
        r == in_class(cls, c),
{
    match cls {
        RunClass::Digit => digit_char(c),
        RunClass::Alnum => {
            let a = alpha_char(c);
            let d = digit_char(c);
            a || d
        },
        RunClass::NotNewline => c != '\n',
        RunClass::NotQuote => c != '"',
    }
}

fn single_kind(c: char) -> (r: Option<TokenType>)
    ensures
        r == single_char_kind(c),
{
    if c == '(' {
        Option::Some(TokenType::LeftParen)
    } else if c == ')' {
        Option::Some(TokenType::RightParen)
    } else if c == '{' {
        Option::Some(TokenType::LeftBrace)
    } else if c == '}' {
        Option::Some(TokenType::RightBrace)
    } else if c == ',' {
        Option::Some(TokenType::Comma)
    } else if c == '.' {
        Option::Some(TokenType::Dot)
    } else if c == '-' {
        Option::Some(TokenType::Minus)
    } else if c == '+' {
        Option::Some(TokenType::Plus)
    } else if c == ';' {
        Option::Some(TokenType::Semicolon)
    } else if c == '*' {
        Option::Some(TokenType::Star)
    } else {
        Option::None
    }
}

/// The position right after the maximal run of `cls` characters that starts
/// at `i`.
fn run_end(source: &str, n: usize, i: usize, cls: RunClass) -> (e: usize)
    requires
        n == source@.len(),
        i <= n,
    ensures
        i <= e <= n,
        e - i == run_len(cls, source@.skip(i as int)),
        e < n ==> !in_class(cls, source@[e as int]),
{
    let mut j: usize = i;
    while j < n
        invariant
            i <= j <= n,
            n == source@.len(),
            run_len(cls, source@.skip(i as int)) == (j - i) + run_len(cls, source@.skip(j as int)),
        ensures
            i <= j <= n,
            n == source@.len(),
            run_len(cls, source@.skip(i as int)) == (j - i) + run_len(cls, source@.skip(j as int)),
            j < n ==> !in_class(cls, source@[j as int]),
        decreases n - j,
    {
        let c = source.get_char(j);
        if !in_class_exec(cls, c) {
            break ;
        }
        proof {
            assert(source@.skip(j as int)[0] == source@[j as int]);
            assert(source@.skip(j as int).skip(1) =~= source@.skip(j as int + 1));
        }
        j = j + 1;
    }
    proof {
        if j < n {
            assert(source@.skip(j as int)[0] == source@[j as int]);
            assert(run_len(cls, source@.skip(j as int)) == 0);
        } else {
            assert(source@.skip(j as int).len() == 0);
            assert(run_len(cls, source@.skip(j as int)) == 0);
        }
    }
    j
}

/// What one step of the scanner from position `i` on line `line` must
/// achieve: consume at least one character, keep the line counter within its
/// bound, and account for exactly one unfolding of [`spec_scan`].
pub open spec fn scan_token_post(
    s: Seq<char>,
    i: int,
    line: nat,
    r: Result<(Option<Token>, usize, usize), LexError>,
) -> bool {
    match r {
        Result::Ok((tok, i2, line2)) => {
            &&& i < i2 <= s.len()
            &&& line <= line2
            &&& line2 <= i2 + 1
            &&& (match tok {
                Option::Some(t) => spec_scan(s.skip(i), line) == prepend_token(
                    t@,
                    spec_scan(s.skip(i2 as int), line2 as nat),
                ),
                Option::None => spec_scan(s.skip(i), line) == spec_scan(
                    s.skip(i2 as int),
                    line2 as nat,
                ),
            })
        },
        Result::Err(e) => spec_scan(s.skip(i), line) == Result::<
            Seq<SpecToken>,
            SpecLexError,
        >::Err(e@),
    }
}

/// Scans the single token (or skipped stretch) that starts at position `i`.
#[verifier::rlimit(100)]
fn scan_token(source: &str, n: usize, i: usize, line: usize) -> (r: Result<
    (Option<Token>, usize, usize),
    LexError,
>)
    requires
        n == source@.len(),
        n < usize::MAX,
        i < n,
        1 <= line,
        line <= i + 1,
    ensures
        scan_token_post(source@, i as int, line as nat, r),
{
    let ghost t = source@.skip(i as int);
    proof {
        assert(t.len() == n - i);
        assert(t[0] == source@[i as int]);
        assert(t.skip(1) =~= source@.skip(i as int + 1));
    }
    let c = source.get_char(i);
    if c == '\n' {
        Result::Ok((Option::None, i + 1, line + 1))
    } else if blank_char(c) {
        Result::Ok((Option::None, i + 1, line))
    } else if let Option::Some(tt) = single_kind(c) {
        let lexeme = source.substring_char(i, i + 1);
        let tok = Token::new(tt, String::from_str(lexeme), line);
        proof {
            assert(t.subrange(0, 1) =~= source@.subrange(i as int, i as int + 1));
        }
        Result::Ok((Option::Some(tok), i + 1, line))
    } else if c == '!' || c == '=' || c == '<' || c == '>' {
        if i + 1 < n && source.get_char(i + 1) == '=' {
            let lexeme = source.substring_char(i, i + 2);
            let tt = if c == '!' {
                TokenType::BangEquals
            } else if c == '=' {
                TokenType::EqualsEquals
            } else if c == '<' {
                TokenType::LessEqual
            } else {
                TokenType::GreaterEqual
            };
            let tok = Token::new(tt, String::from_str(lexeme), line);
            proof {
                assert(t[1] == source@[i as int + 1]);
                assert(t.subrange(0, 2) =~= source@.subrange(i as int, i as int + 2));
                assert(t.skip(2) =~= source@.skip(i as int + 2));
            }
            Result::Ok((Option::Some(tok), i + 2, line))
        } else {
            let lexeme = source.substring_char(i, i + 1);
            let tt = if c == '!' {
                TokenType::Bang
            } else if c == '=' {
                TokenType::Equals
            } else if c == '<' {
                TokenType::Less
            } else {
                TokenType::Greater
            };
            let tok = Token::new(tt, String::from_str(lexeme), line);
            proof {
                if i + 1 < n {
                    assert(t[1] == source@[i as int + 1]);
                }
                assert(t.subrange(0, 1) =~= source@.subrange(i as int, i as int + 1));
            }
            Result::Ok((Option::Some(tok), i + 1, line))
        }
    } else if c == '/' {
        if i + 1 < n && source.get_char(i + 1) == '/' {
            let e: usize = run_end(source, n, i + 2, RunClass::NotNewline);
            proof {
                assert(t[1] == source@[i as int + 1]);
                assert(t.skip(2) =~= source@.skip(i as int + 2));
                assert(t.skip(2 + run_len(RunClass::NotNewline, t.skip(2)) as int) =~= source@.skip(
                    e as int,
                ));
            }
            Result::Ok((Option::None, e, line))
        } else {
            let lexeme = source.substring_char(i, i + 1);
            let tok = Token::new(TokenType::Slash, String::from_str(lexeme), line);
            proof {
                if i + 1 < n {
                    assert(t[1] == source@[i as int + 1]);
                }
                assert(t.subrange(0, 1) =~= source@.subrange(i as int, i as int + 1));
            }
            Result::Ok((Option::Some(tok), i + 1, line))
        }
    } else if c == '"' {
        let e: usize = run_end(source, n, i + 1, RunClass::NotQuote);
        proof {
            assert(t.skip(1) =~= source@.skip(i as int + 1));
        }
        if e < n {
            let content = source.substring_char(i + 1, e);
            let tok = Token::new_string(String::from_str(content), line);
            proof {
                let k = run_len(RunClass::NotQuote, t.skip(1));
                assert(k == e - (i + 1));
                assert(1 + k < t.len());
                assert(t.subrange(1, 1 + k as int) =~= source@.subrange(i as int + 1, e as int));
                assert(t.skip(2 + k as int) =~= source@.skip(e as int + 1));
            }
            Result::Ok((Option::Some(tok), e + 1, line))
        } else {
            proof {
                let k = run_len(RunClass::NotQuote, t.skip(1));
                assert(k == e - (i + 1));
                assert(!(1 + k < t.len()));
            }
            Result::Err(LexError::UnterminatedString { line })
        }
    } else if digit_char(c) {
        let d: usize = run_end(source, n, i, RunClass::Digit);
        proof {
            assert(t =~= source@.skip(i as int));
            assert(run_len(RunClass::Digit, t) >= 1);
        }
        let e: usize = if d < n && d + 1 < n && source.get_char(d) == '.' && digit_char(
            source.get_char(d + 1),
        ) {
            let e2: usize = run_end(source, n, d + 1, RunClass::Digit);
            proof {
                let dd = run_len(RunClass::Digit, t);
                assert(dd == d - i);
                assert(t[dd as int] == source@[d as int]);
                assert(t[dd + 1 as int] == source@[d as int + 1]);
                assert(t.skip(dd + 1 as int) =~= source@.skip(d as int + 1));
                assert(number_token_len(t) == e2 - i);
            }
            e2
        } else {
            proof {
                let dd = run_len(RunClass::Digit, t);
                assert(dd == d - i);
                if dd < t.len() {
                    assert(t[dd as int] == source@[d as int]);
                    if dd + 1 < t.len() {
                        assert(t[dd + 1 as int] == source@[d as int + 1]);
                    }
                }
                assert(number_token_len(t) == d - i);
            }
            d
        };
        let lexeme = source.substring_char(i, e);
        let tok = Token::new_number(String::from_str(lexeme), line);
        proof {
            assert(t.subrange(0, number_token_len(t) as int) =~= source@.subrange(
                i as int,
                e as int,
            ));
            assert(t.skip(number_token_len(t) as int) =~= source@.skip(e as int));
        }
        Result::Ok((Option::Some(tok), e, line))
    } else if alpha_char(c) {
        let e: usize = run_end(source, n, i, RunClass::Alnum);
        proof {
            assert(t =~= source@.skip(i as int));
            assert(run_len(RunClass::Alnum, t) >= 1);
            assert(t.subrange(0, run_len(RunClass::Alnum, t) as int) =~= source@.subrange(
                i as int,
                e as int,
            ));
            assert(t.skip(run_len(RunClass::Alnum, t) as int) =~= source@.skip(e as int));
        }
        let lexeme = source.substring_char(i, e);
        let tok = Token::new_identifier(String::from_str(lexeme), line);
        Result::Ok((Option::Some(tok), e, line))
    } else {
        Result::Err(LexError::UnexpectedChar { ch: c, line })
    }
}

/// Scans a whole source string into its token sequence.
///
/// On success the returned tokens are exactly `spec_scan(source@, 1)`: every
/// lexeme is the exact source spelling, line numbers start at 1 and grow on
/// each newline, and the sequence ends with the `Eof` sentinel.  On failure
/// the returned error is the first lexical error of the pass, and no partial
/// token list is surfaced.
pub fn scan_program(source: &str) -> (r: Result<Vec<Token>, LexError>)
    requires
        source@.len() < usize::MAX,
    ensures
        (match r {
            Result::Ok(tokens) => spec_scan(source@, 1) == Result::<
                Seq<SpecToken>,
                SpecLexError,
            >::Ok(tokens.deep_view()),
            Result::Err(e) => spec_scan(source@, 1) == Result::<
                Seq<SpecToken>,
                SpecLexError,
            >::Err(e@),
        }),
{
    let n: usize = source.unicode_len();
    let mut tokens: Vec<Token> = Vec::new();
    let mut i: usize = 0;
    let mut line: usize = 1;
    proof {
        assert(source@.skip(0) =~= source@);
        assert(tokens.deep_view() =~= Seq::<SpecToken>::empty());
        match spec_scan(source@, 1) {
            Result::Ok(more) => {
                assert(Seq::<SpecToken>::empty() + more =~= more);
            },
            Result::Err(_) => {},
        }
    }
    while i < n
        invariant
            i <= n,
            n == source@.len(),
            n < usize::MAX,
            1 <= line,
            line <= i + 1,
            spec_scan(source@, 1) == prepend_tokens(
                tokens.deep_view(),
                spec_scan(source@.skip(i as int), line as nat),
            ),
        decreases n - i,
    {
        match scan_token(source, n, i, line) {
            Result::Ok((tok, i2, line2)) => {
                let ghost old_deep = tokens.deep_view();
                match tok {
                    Option::Some(tk) => {
                        let ghost tkv = tk@;
                        tokens.push(tk);
                        proof {
                            assert(tokens.deep_view() =~= old_deep.push(tkv));
                            match spec_scan(source@.skip(i2 as int), line2 as nat) {
                                Result::Ok(more) => {
                                    assert(old_deep + (seq![tkv] + more) =~= old_deep.push(tkv)
                                        + more);
                                },
                                Result::Err(_) => {},
                            }
                        }
                    },
                    Option::None => {},
                }
                i = i2;
                line = line2;
            },
            Result::Err(e) => {
                return Result::Err(e);
            },
        }
    }
    let ghost old_deep = tokens.deep_view();
    let eof = Token::new(TokenType::Eof, String::new(), line);
    let ghost eofv = eof@;
    tokens.push(eof);
    proof {
        assert(source@.skip(i as int).len() == 0);
        assert(spec_scan(source@.skip(i as int), line as nat) == Result::<
            Seq<SpecToken>,
            SpecLexError,
        >::Ok(seq![eof_token(line as nat)]));
        assert(eofv == eof_token(line as nat));
        assert(tokens.deep_view() =~= old_deep.push(eofv));
        assert(old_deep + seq![eofv] =~= old_deep.push(eofv));
    }
    Result::Ok(tokens)
}

/// The number of newline characters in `s`.
pub open spec fn newline_count(s: Seq<char>) -> nat
    decreases s.len(),
{
    if s.len() == 0 {
        0
    } else {
        (if s[0] == '\n' {
            1nat
        } else {
            0nat
        }) + newline_count(s.skip(1))
    }
}

/// Newlines are counted piecewise: a prefix and the rest of the sequence.
proof fn lemma_newline_count_split(s: Seq<char>, k: int)
    requires
        0 <= k <= s.len(),
    ensures
        newline_count(s) == newline_count(s.subrange(0, k)) + newline_count(s.skip(k)),
    decreases k,
{
    if k == 0 {
        assert(s.subrange(0, 0) =~= Seq::<char>::empty());
        assert(s.skip(0) =~= s);
    } else {
        lemma_newline_count_split(s.skip(1), k - 1);
        assert(s.skip(1).subrange(0, k - 1) =~= s.subrange(0, k).skip(1));
        assert(s.skip(1).skip(k - 1) =~= s.skip(k));
        assert(s.subrange(0, k)[0] == s[0]);
    }
}

/// A stretch without newline characters counts zero newlines.
proof fn lemma_newline_count_zero(s: Seq<char>)
    requires
        forall|j: int| 0 <= j < s.len() ==> s[j] != '\n',
    ensures
        newline_count(s) == 0,
    decreases s.len(),
{
    if s.len() > 0 {
        assert forall|j: int| 0 <= j < s.skip(1).len() implies s.skip(1)[j] != '\n' by {
            assert(s.skip(1)[j] == s[j + 1]);
        }
        lemma_newline_count_zero(s.skip(1));
    }
}

/// Every character inside a maximal run belongs to the run's class.
proof fn lemma_run_chars_in_class(cls: RunClass, s: Seq<char>)
    ensures
        forall|j: int| 0 <= j < run_len(cls, s) && j < s.len() ==> in_class(cls, #[trigger] s[j]),
    decreases s.len(),
{
    if s.len() > 0 && in_class(cls, s[0]) {
        lemma_run_chars_in_class(cls, s.skip(1));
        assert forall|j: int| 0 <= j < run_len(cls, s) && j < s.len() implies in_class(
            cls,
            #[trigger] s[j],
        ) by {
            if j > 0 {
                assert(s.skip(1)[j - 1] == s[j]);
            }
        }
    }
}

/// The character right after a maximal run, if any, is outside the class.
proof fn lemma_run_end_char(cls: RunClass, s: Seq<char>)
    ensures
        run_len(cls, s) < s.len() ==> !in_class(cls, s[run_len(cls, s) as int]),
    decreases s.len(),
{
    if s.len() > 0 && in_class(cls, s[0]) {
        lemma_run_end_char(cls, s.skip(1));
        if run_len(cls, s) < s.len() {
            assert(s.skip(1)[run_len(cls, s.skip(1)) as int] == s[run_len(cls, s) as int]);
        }
    }
}

/// Whether no string token of a scan carries a newline in its content: then
/// every newline of the source acted as a line separator.
pub open spec fn no_newline_in_strings(ts: Seq<SpecToken>) -> bool {
    forall|k: int|
        0 <= k < ts.len() && #[trigger] ts[k].token_type == TokenType::String ==> newline_count(
            ts[k].lexeme,
        ) == 0
}

/// On every input whose newlines all act as line separators (none is
/// swallowed by a string literal), the scan's final line — the one the `Eof`
/// sentinel reports — is the starting line plus the number of newlines read.
pub proof fn lemma_scan_line_count(s: Seq<char>, line: nat)
    ensures
        (spec_scan(s, line) matches Ok(ts) ==> (no_newline_in_strings(ts) ==> ts[ts.len()
            - 1].line == line + newline_count(s))),
    decreases s.len(), 0int,
{
    if s.len() == 0 {
    } else {
        let c = s[0];
        if c == '\n' {
            lemma_scan_line_count(s.skip(1), line + 1);
        } else if is_blank_char(c) {
            lemma_scan_line_count(s.skip(1), line);
        } else if single_char_kind(c) is Some {
            lemma_line_count_prepend(
                plain_token(single_char_kind(c)->Some_0, s.subrange(0, 1), line),
                s,
                line,
                1,
            );
        } else if c == '!' || c == '=' || c == '<' || c == '>' {
            if s.len() >= 2 && s[1] == '=' {
                lemma_line_count_prepend(plain_token(compound_kind(c), s.subrange(0, 2), line), s, line, 2);
            } else {
                lemma_line_count_prepend(plain_token(lone_kind(c), s.subrange(0, 1), line), s, line, 1);
            }
        } else if c == '/' {
            if s.len() >= 2 && s[1] == '/' {
                lemma_run_len_le(RunClass::NotNewline, s.skip(2));
                lemma_run_chars_in_class(RunClass::NotNewline, s.skip(2));
                let consumed = 2 + run_len(RunClass::NotNewline, s.skip(2)) as int;
                lemma_scan_line_count(s.skip(consumed), line);
                assert forall|j: int| 0 <= j < s.subrange(0, consumed).len() implies s.subrange(
                    0,
                    consumed,
                )[j] != '\n' by {
                    assert(s.subrange(0, consumed)[j] == s[j]);
                    if j >= 2 {
                        assert(s.skip(2)[j - 2] == s[j]);
                    }
                }
                lemma_newline_count_zero(s.subrange(0, consumed));
                lemma_newline_count_split(s, consumed);
            } else {
                lemma_line_count_prepend(
                    plain_token(TokenType::Slash, s.subrange(0, 1), line),
                    s,
                    line,
                    1,
                );
            }
        } else if c == '"' {
            lemma_run_len_le(RunClass::NotQuote, s.skip(1));
            let k = run_len(RunClass::NotQuote, s.skip(1));
            if 1 + k < s.len() {
                let tok = string_token(s.subrange(1, 1 + k as int), line);
                let s2 = s.skip(2 + k as int);
                lemma_scan_line_count(s2, line);
                lemma_scan_lines_monotonic(s2, line);
                match spec_scan(s, line) {
                    Result::Ok(ts) => {
                        if no_newline_in_strings(ts) {
                            let rest = spec_scan(s2, line)->Ok_0;
                            assert(ts == seq![tok] + rest);
                            assert(ts[0] == tok);
                            assert(ts[0].token_type == TokenType::String);
                            assert(newline_count(tok.lexeme) == 0);
                            assert forall|m: int|
                                0 <= m < rest.len() && #[trigger] rest[m].token_type
                                    == TokenType::String implies newline_count(rest[m].lexeme)
                                == 0 by {
                                assert(rest[m] == ts[m + 1]);
                            }
                            // The consumed stretch: quote, content, quote.
                            let consumed = 2 + k as int;
                            let prefix = s.subrange(0, consumed);
                            lemma_newline_count_split(s, consumed);
                            lemma_newline_count_split(prefix, 1);
                            assert(prefix.subrange(0, 1) =~= seq![s[0]]);
                            lemma_newline_count_zero(prefix.subrange(0, 1));
                            let tail = prefix.skip(1);
                            lemma_newline_count_split(tail, k as int);
                            assert(tail.subrange(0, k as int) =~= s.subrange(1, 1 + k as int));
                            assert(tail.skip(k as int) =~= seq![s[1 + k as int]]);
                            lemma_run_end_char(RunClass::NotQuote, s.skip(1));
                            assert(s.skip(1)[k as int] == s[1 + k as int]);
                            assert(s[1 + k as int] == '"');
                            lemma_newline_count_zero(tail.skip(k as int));
                            assert(newline_count(prefix) == 0);
                            assert(ts[ts.len() - 1] == rest[rest.len() - 1]);
                        }
                    },
                    Result::Err(_) => {},
                }
            }
        } else if is_digit_char(c) {
            lemma_run_len_le(RunClass::Digit, s);
            lemma_run_chars_in_class(RunClass::Digit, s);
            let d = run_len(RunClass::Digit, s);
            if d + 1 < s.len() {
                lemma_run_len_le(RunClass::Digit, s.skip(d + 1 as int));
                lemma_run_chars_in_class(RunClass::Digit, s.skip(d + 1 as int));
            }
            let consumed = number_token_len(s) as int;
            assert forall|j: int| 0 <= j < consumed implies #[trigger] s[j] != '\n' by {
                if j < d {
                    assert(in_class(RunClass::Digit, s[j]));
                } else if j > d {
                    assert(s.skip(d + 1 as int)[j - d - 1] == s[j]);
                    assert(in_class(RunClass::Digit, s[j]));
                }
            }
            lemma_line_count_prepend(
                number_token(s.subrange(0, consumed), line),
                s,
                line,
                consumed,
            );
        } else if is_alpha_char(c) {
            lemma_run_len_le(RunClass::Alnum, s);
            lemma_run_chars_in_class(RunClass::Alnum, s);
            let consumed = run_len(RunClass::Alnum, s) as int;
            assert forall|j: int| 0 <= j < consumed implies #[trigger] s[j] != '\n' by {
                assert(in_class(RunClass::Alnum, s[j]));
            }
            lemma_line_count_prepend(
                identifier_token(s.subrange(0, consumed), line),
                s,
                line,
                consumed,
            );
        }
    }
}

/// Helper for [`lemma_scan_line_count`]: the branches of [`spec_scan`] that
/// prepend one token scanned from a newline-free prefix of `consumed`
/// characters.
proof fn lemma_line_count_prepend(tok: SpecToken, s: Seq<char>, line: nat, consumed: int)
    requires
        1 <= consumed <= s.len(),
        forall|j: int| 0 <= j < consumed ==> #[trigger] s[j] != '\n',
    ensures
        (prepend_token(tok, spec_scan(s.skip(consumed), line)) matches Ok(ts) ==> (
        no_newline_in_strings(ts) ==> ts[ts.len() - 1].line == line + newline_count(s))),
    decreases s.len() - consumed, 1int,
{
    let s2 = s.skip(consumed);
    lemma_scan_line_count(s2, line);
    lemma_scan_lines_monotonic(s2, line);
    assert forall|j: int| 0 <= j < s.subrange(0, consumed).len() implies s.subrange(
        0,
        consumed,
    )[j] != '\n' by {
        assert(s.subrange(0, consumed)[j] == s[j]);
    }
    lemma_newline_count_zero(s.subrange(0, consumed));
    lemma_newline_count_split(s, consumed);
    match spec_scan(s2, line) {
        Result::Ok(rest) => {
            let ts = seq![tok] + rest;
            assert(ts.len() == 1 + rest.len());
            if no_newline_in_strings(ts) {
                assert forall|m: int|
                    0 <= m < rest.len() && #[trigger] rest[m].token_type
                        == TokenType::String implies newline_count(rest[m].lexeme) == 0 by {
                    assert(rest[m] == ts[m + 1]);
                    assert(ts[m + 1].token_type == TokenType::String);
                }
                assert(ts[ts.len() - 1] == rest[rest.len() - 1]);
            }
        },
        Result::Err(_) => {},
    }
}

/// What [`lemma_scan_lines_monotonic`] guarantees of a scan result: a
/// successful scan is never empty, ends with the `Eof` sentinel, and its
/// line numbers are non-decreasing and never below the starting line.
pub open spec fn lines_monotonic_from(
    r: Result<Seq<SpecToken>, SpecLexError>,
    line: nat,
) -> bool {
    r matches Ok(ts) ==> {
        &&& ts.len() >= 1
        &&& ts[ts.len() - 1].token_type == TokenType::Eof
        &&& (forall|k: int| 0 <= k < ts.len() ==> line <= #[trigger] ts[k].line)
        &&& (forall|j: int, k: int| 0 <= j <= k < ts.len() ==> ts[j].line <= ts[k].line)
    }
}

/// On every input, the tokens of a successful scan carry non-decreasing line
/// numbers, none below the starting line, and the sequence is never empty
/// and always ends with the `Eof` sentinel.
pub proof fn lemma_scan_lines_monotonic(s: Seq<char>, line: nat)
    ensures
        lines_monotonic_from(spec_scan(s, line), line),
    decreases s.len(), 0int,
{
    if s.len() == 0 {
    } else {
        let c = s[0];
        if c == '\n' {
            lemma_scan_lines_monotonic(s.skip(1), line + 1);
        } else if is_blank_char(c) {
            lemma_scan_lines_monotonic(s.skip(1), line);
        } else if single_char_kind(c) is Some {
            lemma_scan_prepend(
                plain_token(single_char_kind(c)->Some_0, s.subrange(0, 1), line),
                s.skip(1),
                line,
                line,
            );
        } else if c == '!' || c == '=' || c == '<' || c == '>' {
            if s.len() >= 2 && s[1] == '=' {
                lemma_scan_prepend(
                    plain_token(compound_kind(c), s.subrange(0, 2), line),
                    s.skip(2),
                    line,
                    line,
                );
            } else {
                lemma_scan_prepend(
                    plain_token(lone_kind(c), s.subrange(0, 1), line),
                    s.skip(1),
                    line,
                    line,
                );
            }
        } else if c == '/' {
            if s.len() >= 2 && s[1] == '/' {
                lemma_run_len_le(RunClass::NotNewline, s.skip(2));
                lemma_scan_lines_monotonic(
                    s.skip(2 + run_len(RunClass::NotNewline, s.skip(2)) as int),
                    line,
                );
            } else {
                lemma_scan_prepend(
                    plain_token(TokenType::Slash, s.subrange(0, 1), line),
                    s.skip(1),
                    line,
                    line,
                );
            }
        } else if c == '"' {
            lemma_run_len_le(RunClass::NotQuote, s.skip(1));
            let k = run_len(RunClass::NotQuote, s.skip(1));
            if 1 + k < s.len() {
                lemma_scan_prepend(
                    string_token(s.subrange(1, 1 + k as int), line),
                    s.skip(2 + k as int),
                    line,
                    line,
                );
            }
        } else if is_digit_char(c) {
            lemma_run_len_le(RunClass::Digit, s);
            let d = run_len(RunClass::Digit, s);
            if d + 1 < s.len() {
                lemma_run_len_le(RunClass::Digit, s.skip(d + 1 as int));
            }
            lemma_scan_prepend(
                number_token(s.subrange(0, number_token_len(s) as int), line),
                s.skip(number_token_len(s) as int),
                line,
                line,
            );
        } else if is_alpha_char(c) {
            lemma_run_len_le(RunClass::Alnum, s);
            lemma_scan_prepend(
                identifier_token(s.subrange(0, run_len(RunClass::Alnum, s) as int), line),
                s.skip(run_len(RunClass::Alnum, s) as int),
                line,
                line,
            );
        }
    }
}

/// Helper for [`lemma_scan_lines_monotonic`]: prepending one token scanned
/// on the current line to a well-behaved scan of a suffix keeps the lines
/// monotonic.
proof fn lemma_scan_prepend(tok: SpecToken, s2: Seq<char>, line: nat, line2: nat)
    requires
        tok.line == line,
        line <= line2,
    ensures
        lines_monotonic_from(prepend_token(tok, spec_scan(s2, line2)), line),
    decreases s2.len(), 1int,
{
    lemma_scan_lines_monotonic(s2, line2);
    match spec_scan(s2, line2) {
        Result::Ok(rest) => {
            let ts = seq![tok] + rest;
            assert(ts.len() == 1 + rest.len());
            assert(ts[0] == tok);
            assert forall|k: int| 0 <= k < ts.len() implies line <= #[trigger] ts[k].line by {
                if k > 0 {
                    assert(ts[k] == rest[k - 1]);
                    assert(line2 <= rest[k - 1].line);
                }
            }
            assert forall|j: int, k: int| 0 <= j <= k < ts.len() implies ts[j].line
                <= ts[k].line by {
                if j > 0 {
                    assert(ts[j] == rest[j - 1]);
                    assert(ts[k] == rest[k - 1]);
                } else if k > 0 {
                    assert(ts[k] == rest[k - 1]);
                    assert(line2 <= rest[k - 1].line);
                }
            }
            assert(ts[ts.len() - 1] == rest[rest.len() - 1]);
        },
        Result::Err(_) => {},
    }
}

} // verus!
