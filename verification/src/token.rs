//! Tokens of the interface description language and how a piece of source text
//! is classified into one.
use vstd::prelude::*;
use crate::numeric::parse_unsigned;
use crate::numeric::parse_u32_decimal;
use crate::numeric::parse_u128_hex;
use crate::text::collect_chars;
use crate::text::push_char;
use crate::text::str_equal;

verus! {

/// Where a token stands: its line (from 1) and its column in bytes from the
/// start of that line (from 0), and the characters `start..end` of the source
/// that it spans.
#[derive(Clone, Copy, Debug, PartialEq, Eq, Structural)]
pub struct Span {
    pub line: usize,
    pub column: usize,
    pub start: usize,
    pub end: usize,
}

/// The kind of a token. Identifiers keep their text in the token's span.
#[derive(Clone, Copy, Debug, PartialEq, Eq, Structural)]
pub enum TokenTy {
    At,
    LParen,
    RParen,
    Comma,
    LBrace,
    RBrace,
    LSquare,
    RSquare,
    LAngle,
    RAngle,
    Colon,
    Ident,
    Uid(u128),
    Interface,
    Struct,
    Function,
    Factory,
    Numeric(u32),
    Arrow,
}

/// A token kind without its payload.
#[derive(Clone, Copy, Debug, PartialEq, Eq, Structural)]
pub enum TokenTyDisc {
    At,
    LParen,
    RParen,
    LSquare,
    RSquare,
    LAngle,
    RAngle,
    Comma,
    LBrace,
    RBrace,
    Colon,
    Ident,
    Uid,
    Interface,
    Struct,
    Function,
    Factory,
    Numeric,
    Arrow,
}

#[derive(Clone, Copy, Debug, PartialEq, Eq, Structural)]
pub struct Token {
    pub ty: TokenTy,
    pub span: Span,
}

pub open spec fn disc_of(ty: TokenTy) -> TokenTyDisc {
    match ty {
        TokenTy::At => TokenTyDisc::At,
        TokenTy::LParen => TokenTyDisc::LParen,
        TokenTy::RParen => TokenTyDisc::RParen,
        TokenTy::Comma => TokenTyDisc::Comma,
        TokenTy::LBrace => TokenTyDisc::LBrace,
        TokenTy::RBrace => TokenTyDisc::RBrace,
        TokenTy::LAngle => TokenTyDisc::LAngle,
        TokenTy::RAngle => TokenTyDisc::RAngle,
        TokenTy::Colon => TokenTyDisc::Colon,
        TokenTy::Ident => TokenTyDisc::Ident,
        TokenTy::Uid(_) => TokenTyDisc::Uid,
        TokenTy::Numeric(_) => TokenTyDisc::Numeric,
        TokenTy::Interface => TokenTyDisc::Interface,
        TokenTy::Struct => TokenTyDisc::Struct,
        TokenTy::Function => TokenTyDisc::Function,
        TokenTy::Factory => TokenTyDisc::Factory,
        TokenTy::Arrow => TokenTyDisc::Arrow,
        TokenTy::LSquare => TokenTyDisc::LSquare,
        TokenTy::RSquare => TokenTyDisc::RSquare,
    }
}

impl TokenTy {
    /// The kind of this token, without its payload.
    pub fn as_disc(&self) -> (d: TokenTyDisc)
        ensures
            d == disc_of(*self),
    {
        match self {
            TokenTy::At => TokenTyDisc::At,
            TokenTy::LParen => TokenTyDisc::LParen,
            TokenTy::RParen => TokenTyDisc::RParen,
            TokenTy::Comma => TokenTyDisc::Comma,
            TokenTy::LBrace => TokenTyDisc::LBrace,
            TokenTy::RBrace => TokenTyDisc::RBrace,
            TokenTy::LAngle => TokenTyDisc::LAngle,
            TokenTy::RAngle => TokenTyDisc::RAngle,
            TokenTy::Colon => TokenTyDisc::Colon,
            TokenTy::Ident => TokenTyDisc::Ident,
            TokenTy::Uid(_) => TokenTyDisc::Uid,
            TokenTy::Numeric(_) => TokenTyDisc::Numeric,
            TokenTy::Interface => TokenTyDisc::Interface,
            TokenTy::Struct => TokenTyDisc::Struct,
            TokenTy::Function => TokenTyDisc::Function,
            TokenTy::Factory => TokenTyDisc::Factory,
            TokenTy::Arrow => TokenTyDisc::Arrow,
            TokenTy::LSquare => TokenTyDisc::LSquare,
            TokenTy::RSquare => TokenTyDisc::RSquare,
        }
    }
}

/// How a token kind is named in error messages.
pub open spec fn disc_name(d: TokenTyDisc) -> Seq<char> {
    match d {
        TokenTyDisc::At => "`@`"@,
        TokenTyDisc::LParen => "`(`"@,
        TokenTyDisc::RParen => "`)`"@,
        TokenTyDisc::LSquare => "`[`"@,
        TokenTyDisc::RSquare => "`]`"@,
        TokenTyDisc::LAngle => "`<`"@,
        TokenTyDisc::RAngle => "`>`"@,
        TokenTyDisc::Comma => "`,`"@,
        TokenTyDisc::LBrace => "`{`"@,
        TokenTyDisc::RBrace => "`}`"@,
        TokenTyDisc::Colon => "`:`"@,
        TokenTyDisc::Ident => "identifier"@,
        TokenTyDisc::Uid => "Uid"@,
        TokenTyDisc::Interface => "`interface`"@,
        TokenTyDisc::Struct => "`struct`"@,
        TokenTyDisc::Function => "`func`"@,
        TokenTyDisc::Factory => "`factory`"@,
        TokenTyDisc::Numeric => "Numeric"@,
        TokenTyDisc::Arrow => "`->`"@,
    }
}

impl TokenTyDisc {
    /// How this token kind is named in error messages.
    pub fn name(&self) -> (s: &'static str)
        ensures
            s@ == disc_name(*self),
    {
        match self {
            TokenTyDisc::At => "`@`",
            TokenTyDisc::LParen => "`(`",
            TokenTyDisc::RParen => "`)`",
            TokenTyDisc::LSquare => "`[`",
            TokenTyDisc::RSquare => "`]`",
            TokenTyDisc::LAngle => "`<`",
            TokenTyDisc::RAngle => "`>`",
            TokenTyDisc::Comma => "`,`",
            TokenTyDisc::LBrace => "`{`",
            TokenTyDisc::RBrace => "`}`",
            TokenTyDisc::Colon => "`:`",
            TokenTyDisc::Ident => "identifier",
            TokenTyDisc::Uid => "Uid",
            TokenTyDisc::Interface => "`interface`",
            TokenTyDisc::Struct => "`struct`",
            TokenTyDisc::Function => "`func`",
            TokenTyDisc::Factory => "`factory`",
            TokenTyDisc::Numeric => "Numeric",
            TokenTyDisc::Arrow => "`->`",
        }
    }
}

/// The characters that stand as tokens of their own.
pub open spec fn is_punct(c: char) -> bool {
    ||| c == '@'
    ||| c == '{'
    ||| c == '}'
    ||| c == ':'
    ||| c == '('
    ||| c == ')'
    ||| c == ','
    ||| c == '<'
    ||| c == '>'
    ||| c == '['
    ||| c == ']'
}

/// The token kind of a punctuation character.
pub open spec fn punct_ty(c: char) -> TokenTy {
    if c == '@' {
        TokenTy::At
    } else if c == '(' {
        TokenTy::LParen
    } else if c == ')' {
        TokenTy::RParen
    } else if c == ',' {
        TokenTy::Comma
    } else if c == '{' {
        TokenTy::LBrace
    } else if c == '}' {
        TokenTy::RBrace
    } else if c == ':' {
        TokenTy::Colon
    } else if c == '[' {
        TokenTy::LSquare
    } else if c == ']' {
        TokenTy::RSquare
    } else if c == '<' {
        TokenTy::LAngle
    } else {
        TokenTy::RAngle
    }
}

/// Whether `c` has the Unicode `White_Space` property (the characters listed
/// for it in the Unicode character database, PropList.txt).
pub open spec fn is_white_space(c: char) -> bool {
    let u = c as u32;
    ||| 0x09 <= u <= 0x0D
    ||| u == 0x20
    ||| u == 0x85
    ||| u == 0xA0
    ||| u == 0x1680
    ||| 0x2000 <= u <= 0x200A
    ||| u == 0x2028
    ||| u == 0x2029
    ||| u == 0x202F
    ||| u == 0x205F
    ||| u == 0x3000
}

/// `char::is_whitespace`, which is documented to answer whether the character
/// has the Unicode `White_Space` property.
#[verifier::external_body]
pub(crate) fn char_is_whitespace(c: char) -> (r: bool)
    ensures
        r == is_white_space(c),
{
    c.is_whitespace()
}

pub fn char_is_punct(c: char) -> (r: bool)
    ensures
        r == is_punct(c),
{
    c == '@' || c == '{' || c == '}' || c == ':' || c == '(' || c == ')' || c == ',' || c == '<'
        || c == '>' || c == '[' || c == ']'
}

/// A word of the shape of an interface uid: 27 characters with `-` at 4, 9 and
/// 14 and none at 0.
pub open spec fn has_uid_shape(w: Seq<char>) -> bool {
    &&& w.len() == 27
    &&& w[4] == '-'
    &&& w[9] == '-'
    &&& w[14] == '-'
    &&& w[0] != '-'
}

/// The hexadecimal digits of a uid-shaped word: the word without its dashes.
pub open spec fn uid_digits(w: Seq<char>) -> Seq<char> {
    w.subrange(0, 4) + w.subrange(5, 9) + w.subrange(10, 14) + w.subrange(15, 27)
}

/// The token kind of a word of the source (a maximal run of characters that are
/// neither punctuation nor white space).
///
/// A word that reads as a `u32` in decimal is a number; then come the keywords
/// (`factory` reads as `func`); a uid-shaped word whose digits read as
/// hexadecimal is a uid; everything else is an identifier.
pub open spec fn classify_word(w: Seq<char>) -> TokenTy {
    match parse_unsigned(w, 10, u32::MAX as nat) {
        Some(n) => TokenTy::Numeric(n as u32),
        None => if w == "interface"@ {
            TokenTy::Interface
        } else if w == "struct"@ {
            TokenTy::Struct
        } else if w == "func"@ {
            TokenTy::Function
        } else if w == "factory"@ {
            TokenTy::Function
        } else if w == "->"@ {
            TokenTy::Arrow
        } else if has_uid_shape(w) && parse_unsigned(uid_digits(w), 16, u128::MAX as nat) is Some {
            TokenTy::Uid(parse_unsigned(uid_digits(w), 16, u128::MAX as nat)->0 as u128)
        } else {
            TokenTy::Ident
        },
    }
}

impl TokenTy {
    /// The token kind of a word of the source.
    ///
    /// The uid test is stated over characters; `laws::lemma_uid_by_bytes` shows
    /// that the same test on the word's UTF-8 bytes gives the same result.
    pub fn from_word(value: &str) -> (ty: TokenTy)
        ensures
            ty == classify_word(value@),
    {
        if let Some(num) = parse_u32_decimal(value) {
            return TokenTy::Numeric(num);
        }
        if str_equal(value, "interface") {
            TokenTy::Interface
        } else if str_equal(value, "struct") {
            TokenTy::Struct
        } else if str_equal(value, "func") {
            TokenTy::Function
        } else if str_equal(value, "factory") {
            TokenTy::Function
        } else if str_equal(value, "->") {
            TokenTy::Arrow
        } else {
            let w = collect_chars(value);
            if w.len() == 27 && w[4] == '-' && w[9] == '-' && w[14] == '-' && w[0] != '-' {
                let mut temp = String::new();
                let mut i: usize = 0;
                while i < 27
                    invariant
                        w@ == value@,
                        w.len() == 27,
                        i <= 27,
                        temp@ == uid_digits(w@).subrange(0, (if i <= 4 { i as int } else if i <= 9 { i - 1 } else if i <= 14 { i - 2 } else { i - 3 })),
                    decreases 27 - i,
                {
                    if i != 4 && i != 9 && i != 14 {
                        push_char(&mut temp, w[i]);
                    }
                    i += 1;
                    assert(temp@ =~= uid_digits(w@).subrange(0, (if i <= 4 { i as int } else if i <= 9 { i - 1 } else if i <= 14 { i - 2 } else { i - 3 })));
                }
                assert(temp@ =~= uid_digits(w@));
                if let Some(uid) = parse_u128_hex(temp.as_str()) {
                    return TokenTy::Uid(uid);
                }
            }
            TokenTy::Ident
        }
    }

    /// The token kind of a punctuation character.
    pub fn from_punct(value: char) -> (ty: TokenTy)
        requires
            is_punct(value),
        ensures
            ty == punct_ty(value),
    {
        if value == '@' {
            TokenTy::At
        } else if value == '(' {
            TokenTy::LParen
        } else if value == ')' {
            TokenTy::RParen
        } else if value == ',' {
            TokenTy::Comma
        } else if value == '{' {
            TokenTy::LBrace
        } else if value == '}' {
            TokenTy::RBrace
        } else if value == ':' {
            TokenTy::Colon
        } else if value == '[' {
            TokenTy::LSquare
        } else if value == ']' {
            TokenTy::RSquare
        } else if value == '<' {
            TokenTy::LAngle
        } else {
            TokenTy::RAngle
        }
    }
}

} // verus!
