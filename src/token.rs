use vstd::prelude::*;

verus! {

/// The lexical class of a single source byte.
#[derive(Clone, Copy, Debug, PartialEq, Eq, Structural)]
pub enum Token {
    Alpha,
    Digit,
    At,
    HashTag,
    Period,
    Colon,
    Comma,
    Apostrophe,
    LeftBracket,
    RightBracket,
    LeftParenthesis,
    RightParenthesis,
    LeftBrace,
    RightBrace,
    Equal,
    LessThan,
    GreaterThan,
    Exclamation,
    Question,
    Plus,
    Dash,
    Underscore,
    Asterisk,
    Slash,
    Backslash,
    Caret,
    Space,
    Tab,
    Tilde,
    Grave,
    Bar,
    Quote,
    Ampersand,
    Semicolon,
    Newline,
    CarriageReturn,
    Other,
}

pub open spec fn is_alpha(b: u8) -> bool {
    (65 <= b <= 90) || (97 <= b <= 122)
}

pub open spec fn is_digit(b: u8) -> bool {
    48 <= b <= 57
}

/// The class of byte `b`.
pub open spec fn token_class(b: u8) -> Token {
    if is_alpha(b) {
        Token::Alpha
    } else if is_digit(b) {
        Token::Digit
    } else if b == 64 {
        Token::At
    } else if b == 35 {
        Token::HashTag
    } else if b == 46 {
        Token::Period
    } else if b == 58 {
        Token::Colon
    } else if b == 44 {
        Token::Comma
    } else if b == 39 {
        Token::Apostrophe
    } else if b == 91 {
        Token::LeftBracket
    } else if b == 93 {
        Token::RightBracket
    } else if b == 40 {
        Token::LeftParenthesis
    } else if b == 41 {
        Token::RightParenthesis
    } else if b == 123 {
        Token::LeftBrace
    } else if b == 125 {
        Token::RightBrace
    } else if b == 61 {
        Token::Equal
    } else if b == 60 {
        Token::LessThan
    } else if b == 62 {
        Token::GreaterThan
    } else if b == 33 {
        Token::Exclamation
    } else if b == 63 {
        Token::Question
    } else if b == 43 {
        Token::Plus
    } else if b == 45 {
        Token::Dash
    } else if b == 95 {
        Token::Underscore
    } else if b == 42 {
        Token::Asterisk
    } else if b == 47 {
        Token::Slash
    } else if b == 92 {
        Token::Backslash
    } else if b == 94 {
        Token::Caret
    } else if b == 32 {
        Token::Space
    } else if b == 9 {
        Token::Tab
    } else if b == 126 {
        Token::Tilde
    } else if b == 96 {
        Token::Grave
    } else if b == 124 {
        Token::Bar
    } else if b == 34 {
        Token::Quote
    } else if b == 38 {
        Token::Ampersand
    } else if b == 59 {
        Token::Semicolon
    } else if b == 10 {
        Token::Newline
    } else if b == 13 {
        Token::CarriageReturn
    } else {
        Token::Other
    }
}

pub fn is_alpha_byte(b: u8) -> (r: bool)
    ensures
        r == is_alpha(b),
{
    (65 <= b && b <= 90) || (97 <= b && b <= 122)
}

pub fn is_digit_byte(b: u8) -> (r: bool)
    ensures
        r == is_digit(b),
{
    48 <= b && b <= 57
}

/// Classifies one byte.
pub fn classify(b: u8) -> (t: Token)
    ensures
        t == token_class(b),
{
    if is_alpha_byte(b) {
        Token::Alpha
    } else if is_digit_byte(b) {
        Token::Digit
    } else {
        match b {
            64 => Token::At,
            35 => Token::HashTag,
            46 => Token::Period,
            58 => Token::Colon,
            44 => Token::Comma,
            39 => Token::Apostrophe,
            91 => Token::LeftBracket,
            93 => Token::RightBracket,
            40 => Token::LeftParenthesis,
            41 => Token::RightParenthesis,
            123 => Token::LeftBrace,
            125 => Token::RightBrace,
            61 => Token::Equal,
            60 => Token::LessThan,
            62 => Token::GreaterThan,
            33 => Token::Exclamation,
            63 => Token::Question,
            43 => Token::Plus,
            45 => Token::Dash,
            95 => Token::Underscore,
            42 => Token::Asterisk,
            47 => Token::Slash,
            92 => Token::Backslash,
            94 => Token::Caret,
            32 => Token::Space,
            9 => Token::Tab,
            126 => Token::Tilde,
            96 => Token::Grave,
            124 => Token::Bar,
            34 => Token::Quote,
            38 => Token::Ampersand,
            59 => Token::Semicolon,
            10 => Token::Newline,
            13 => Token::CarriageReturn,
            _ => Token::Other,
        }
    }
}

} // verus!
