//! The token model: the closed vocabulary of lexical units the scanner can
//! produce, together with the literal payload a token may carry and the
//! source line it was read from.

use vstd::prelude::*;

verus! {

/// The kind of a lexical token.
///
/// Four families plus a sentinel: single-character tokens, two-character
/// compound tokens, the literal kinds, the keywords, and the end-of-input
/// sentinel `Eof` that the scanner appends after the last real token.
#[derive(Clone, Copy, PartialEq, Eq, Structural, Debug)]
pub enum TokenType {
    // Single character tokens
    LeftParen,
    RightParen,
    LeftBrace,
    RightBrace,
    Comma,
    Dot,
    Minus,
    Plus,
    Semicolon,
    Slash,
    Star,
    // Compound tokens
    Equals,
    EqualsEquals,
    Bang,
    BangEquals,
    Greater,
    GreaterEqual,
    Less,
    LessEqual,
    // Literals
    Identifier,
    String,
    Number,
    // Keywords
    And,
    Class,
    Else,
    False,
    Fun,
    For,
    If,
    Nil,
    Or,
    Print,
    Return,
    Super,
    This,
    True,
    Var,
    While,
    // End-of-input sentinel
    Eof,
}

/// The literal payload of a token.
///
/// A string token carries its content; a number token carries its exact
/// source spelling (a run of digits, optionally followed by `.` and more
/// digits).  Turning that spelling into a machine number is left to callers.
#[derive(Clone, PartialEq, Debug)]
pub enum Value {
    String(String),
    Number(String),
}

/// The mathematical model of a [`Value`]: the payload as a character sequence.
pub enum SpecValue {
    Str(Seq<char>),
    Num(Seq<char>),
}

impl View for Value {
    type V = SpecValue;

    open spec fn view(&self) -> SpecValue {
        match self {
            Value::String(s) => SpecValue::Str(s@),
            Value::Number(s) => SpecValue::Num(s@),
        }
    }
}

/// The mathematical model of a [`Token`]: the same fields over character
/// sequences and unbounded integers.
pub struct SpecToken {
    pub token_type: TokenType,
    pub lexeme: Seq<char>,
    pub value: Option<SpecValue>,
    pub line: nat,
}

/// A classified lexical unit: kind, exact source spelling, optional literal
/// payload, and the line (starting at 1) it was scanned from.
#[derive(Clone, PartialEq, Debug)]
pub struct Token {
    pub token_type: TokenType,
    pub lexeme: String,
    pub value: Option<Value>,
    pub line: usize,
}

impl View for Token {
    type V = SpecToken;

    open spec fn view(&self) -> SpecToken {
        SpecToken {
            token_type: self.token_type,
            lexeme: self.lexeme@,
            value: match self.value {
                Option::None => Option::None,
                Option::Some(Value::String(s)) => Option::Some(SpecValue::Str(s@)),
                Option::Some(Value::Number(s)) => Option::Some(SpecValue::Num(s@)),
            },
            line: self.line as nat,
        }
    }
}

impl DeepView for Token {
    type V = SpecToken;

    open spec fn deep_view(&self) -> SpecToken {
        self.view()
    }
}

/// The keyword table: the kind an identifier spelling resolves to.
///
/// The sixteen keywords map to their own kinds; every other spelling is an
/// ordinary identifier.
pub open spec fn keyword_kind(s: Seq<char>) -> TokenType {
    if s == "and"@ {
        TokenType::And
    } else if s == "class"@ {
        TokenType::Class
    } else if s == "else"@ {
        TokenType::Else
    } else if s == "false"@ {
        TokenType::False
    } else if s == "fun"@ {
        TokenType::Fun
    } else if s == "for"@ {
        TokenType::For
    } else if s == "if"@ {
        TokenType::If
    } else if s == "nil"@ {
        TokenType::Nil
    } else if s == "or"@ {
        TokenType::Or
    } else if s == "print"@ {
        TokenType::Print
    } else if s == "return"@ {
        TokenType::Return
    } else if s == "super"@ {
        TokenType::Super
    } else if s == "this"@ {
        TokenType::This
    } else if s == "true"@ {
        TokenType::True
    } else if s == "var"@ {
        TokenType::Var
    } else if s == "while"@ {
        TokenType::While
    } else {
        TokenType::Identifier
    }
}

impl Token {
    /// A token with no literal payload: its kind, spelling and line.
    pub fn new(token_type: TokenType, lexeme: String, line: usize) -> (t: Token)
        ensures
            t@ == (SpecToken {
                token_type,
                lexeme: lexeme@,
                value: Option::None,
                line: line as nat,
            }),
    {
        Token { token_type, lexeme, value: Option::None, line }
    }

    /// A string token: the lexeme and the literal are both the content
    /// between the quotes.
    pub fn new_string(string: String, line: usize) -> (t: Token)
        ensures
            t@ == (SpecToken {
                token_type: TokenType::String,
                lexeme: string@,
                value: Option::Some(SpecValue::Str(string@)),
                line: line as nat,
            }),
    {
        let lexeme = string.clone();
        Token {
            token_type: TokenType::String,
            lexeme,
            value: Option::Some(Value::String(string)),
            line,
        }
    }

    /// A number token: the lexeme is the exact source spelling of the
    /// number, and the literal carries that same spelling.
    pub fn new_number(lexeme: String, line: usize) -> (t: Token)
        ensures
            t@ == (SpecToken {
                token_type: TokenType::Number,
                lexeme: lexeme@,
                value: Option::Some(SpecValue::Num(lexeme@)),
                line: line as nat,
            }),
    {
        let spelling = lexeme.clone();
        Token {
            token_type: TokenType::Number,
            lexeme,
            value: Option::Some(Value::Number(spelling)),
            line,
        }
    }

    /// An identifier or keyword token: the kind is decided by looking the
    /// exact spelling up in the keyword table.
    pub fn new_identifier(identifier: String, line: usize) -> (t: Token)
        ensures
            t@ == (SpecToken {
                token_type: keyword_kind(identifier@),
                lexeme: identifier@,
                value: Option::None,
                line: line as nat,
            }),
    {
        let token_type = if identifier == String::from_str("and") {
            TokenType::And
        } else if identifier == String::from_str("class") {
            TokenType::Class
        } else if identifier == String::from_str("else") {
            TokenType::Else
        } else if identifier == String::from_str("false") {
            TokenType::False
        } else if identifier == String::from_str("fun") {
            TokenType::Fun
        } else if identifier == String::from_str("for") {
            TokenType::For
        } else if identifier == String::from_str("if") {
            TokenType::If
        } else if identifier == String::from_str("nil") {
            TokenType::Nil
        } else if identifier == String::from_str("or") {
            TokenType::Or
        } else if identifier == String::from_str("print") {
            TokenType::Print
        } else if identifier == String::from_str("return") {
            TokenType::Return
        } else if identifier == String::from_str("super") {
            TokenType::Super
        } else if identifier == String::from_str("this") {
            TokenType::This
        } else if identifier == String::from_str("true") {
            TokenType::True
        } else if identifier == String::from_str("var") {
            TokenType::Var
        } else if identifier == String::from_str("while") {
            TokenType::While
        } else {
            TokenType::Identifier
        };
        Token { token_type, lexeme: identifier, value: Option::None, line }
    }
}

} // verus!
