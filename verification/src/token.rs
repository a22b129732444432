//! The lexical tokens that the tokenizer yields, and their specification
//! mirrors over `Seq<char>`.

use vstd::prelude::*;
use crate::ast::Span;

verus! {

/// One meaningful CSS token. Text payloads are owned copies of the matched
/// slice; where a variant documents "stripped", leading or trailing marker
/// characters are removed from the payload (the span still covers them).
#[derive(Debug, PartialEq)]
pub enum Token {
    /// An identifier such as a tag name or a keyword.
    Ident(String),
    /// `@` followed by an identifier, stripped of the `@`.
    AtKeyword(String),
    /// `#` followed by name characters, stripped of the `#`.
    Hash(String),
    /// A `"..."` or `'...'` string, stripped of the surrounding quotes,
    /// escapes preserved raw.
    QuotedString(String),
    /// `url(...)` with a closing parenthesis: the content between the
    /// parentheses, as written.
    UnquotedUrl(String),
    /// A class selector such as `.container`, including the dot.
    ClassSelector(String),
    /// A pseudo-class or pseudo-element selector such as `:root` or
    /// `::before`, including the colons.
    PseudoClassSelector(String),
    /// A custom-property name such as `--blue`, including the dashes.
    CustomProperty(String),
    /// The literal text `!important`.
    Important,
    /// Any other single punctuation character.
    Delim(char),
    /// A numeric literal, sign included.
    Number(String),
    /// A numeric literal with a trailing `%`, kept in the text.
    Percentage(String),
    /// A numeric literal with a trailing alphabetic unit, kept in the text.
    Dimension(String),
    /// A `/* ... */` comment, markers included.
    Comment(String),
    /// `:` when no pseudo-selector follows. Never produced: `:` lexes as
    /// `Delim(':')`; kept so the token set is closed over the lexical model.
    Colon,
    /// `;` as a standalone token. Never produced: `;` lexes as `Delim(';')`.
    Semicolon,
    /// `,` as a standalone token. Never produced: `,` lexes as `Delim(',')`.
    Comma,
    /// `~=`
    IncludeMatch,
    /// `|=`
    DashMatch,
    /// `^=`
    PrefixMatch,
    /// `$=`
    SuffixMatch,
    /// `*=`
    SubstringMatch,
    /// `<!--`
    CDO,
    /// `-->`
    CDC,
    /// An identifier immediately followed by `(`: the name, without the `(`.
    Function(String),
    /// One flat balanced `(...)` pair, full text. The match does not count
    /// nesting: the block closes at the first `)`, not at the structurally
    /// matching one.
    ParenthesisBlock(String),
    /// One flat balanced `[...]` pair, full text.
    SquareBracketBlock(String),
    /// One flat balanced `{...}` pair, full text.
    CurlyBracketBlock(String),
    /// `url(` closed with nothing but whitespace inside, full text.
    BadUrl(String),
    /// An unterminated `"` string: the text up to the end of input or to a
    /// trailing lone backslash, opening quote included.
    BadString(String),
    /// `)` outside a block. Never produced: `)` lexes as `Delim(')')`.
    CloseParenthesis,
    /// `]` outside a block. Never produced: `]` lexes as `Delim(']')`.
    CloseSquareBracket,
    /// `}` outside a block. Never produced: `}` lexes as `Delim('}')`.
    CloseCurlyBracket,
}

/// The specification mirror of `Token`: the same variants over `Seq<char>`.
pub ghost enum TokenModel {
    Ident(Seq<char>),
    AtKeyword(Seq<char>),
    Hash(Seq<char>),
    QuotedString(Seq<char>),
    UnquotedUrl(Seq<char>),
    ClassSelector(Seq<char>),
    PseudoClassSelector(Seq<char>),
    CustomProperty(Seq<char>),
    Important,
    Delim(char),
    Number(Seq<char>),
    Percentage(Seq<char>),
    Dimension(Seq<char>),
    Comment(Seq<char>),
    Colon,
    Semicolon,
    Comma,
    IncludeMatch,
    DashMatch,
    PrefixMatch,
    SuffixMatch,
    SubstringMatch,
    CDO,
    CDC,
    Function(Seq<char>),
    ParenthesisBlock(Seq<char>),
    SquareBracketBlock(Seq<char>),
    CurlyBracketBlock(Seq<char>),
    BadUrl(Seq<char>),
    BadString(Seq<char>),
    CloseParenthesis,
    CloseSquareBracket,
    CloseCurlyBracket,
}

impl View for Token {
    type V = TokenModel;

    open spec fn view(&self) -> TokenModel {
        match self {
            Token::Ident(s) => TokenModel::Ident(s@),
            Token::AtKeyword(s) => TokenModel::AtKeyword(s@),
            Token::Hash(s) => TokenModel::Hash(s@),
            Token::QuotedString(s) => TokenModel::QuotedString(s@),
            Token::UnquotedUrl(s) => TokenModel::UnquotedUrl(s@),
            Token::ClassSelector(s) => TokenModel::ClassSelector(s@),
            Token::PseudoClassSelector(s) => TokenModel::PseudoClassSelector(s@),
            Token::CustomProperty(s) => TokenModel::CustomProperty(s@),
            Token::Important => TokenModel::Important,
            Token::Delim(c) => TokenModel::Delim(*c),
            Token::Number(s) => TokenModel::Number(s@),
            Token::Percentage(s) => TokenModel::Percentage(s@),
            Token::Dimension(s) => TokenModel::Dimension(s@),
            Token::Comment(s) => TokenModel::Comment(s@),
            Token::Colon => TokenModel::Colon,
            Token::Semicolon => TokenModel::Semicolon,
            Token::Comma => TokenModel::Comma,
            Token::IncludeMatch => TokenModel::IncludeMatch,
            Token::DashMatch => TokenModel::DashMatch,
            Token::PrefixMatch => TokenModel::PrefixMatch,
            Token::SuffixMatch => TokenModel::SuffixMatch,
            Token::SubstringMatch => TokenModel::SubstringMatch,
            Token::CDO => TokenModel::CDO,
            Token::CDC => TokenModel::CDC,
            Token::Function(s) => TokenModel::Function(s@),
            Token::ParenthesisBlock(s) => TokenModel::ParenthesisBlock(s@),
            Token::SquareBracketBlock(s) => TokenModel::SquareBracketBlock(s@),
            Token::CurlyBracketBlock(s) => TokenModel::CurlyBracketBlock(s@),
            Token::BadUrl(s) => TokenModel::BadUrl(s@),
            Token::BadString(s) => TokenModel::BadString(s@),
            Token::CloseParenthesis => TokenModel::CloseParenthesis,
            Token::CloseSquareBracket => TokenModel::CloseSquareBracket,
            Token::CloseCurlyBracket => TokenModel::CloseCurlyBracket,
        }
    }
}

impl Clone for Token {
    /// An equal copy of the token.
    fn clone(&self) -> (r: Token)
        ensures
            r == *self,
    {
        match self {
            Token::Ident(s) => Token::Ident(s.clone()),
            Token::AtKeyword(s) => Token::AtKeyword(s.clone()),
            Token::Hash(s) => Token::Hash(s.clone()),
            Token::QuotedString(s) => Token::QuotedString(s.clone()),
            Token::UnquotedUrl(s) => Token::UnquotedUrl(s.clone()),
            Token::ClassSelector(s) => Token::ClassSelector(s.clone()),
            Token::PseudoClassSelector(s) => Token::PseudoClassSelector(s.clone()),
            Token::CustomProperty(s) => Token::CustomProperty(s.clone()),
            Token::Important => Token::Important,
            Token::Delim(c) => Token::Delim(*c),
            Token::Number(s) => Token::Number(s.clone()),
            Token::Percentage(s) => Token::Percentage(s.clone()),
            Token::Dimension(s) => Token::Dimension(s.clone()),
            Token::Comment(s) => Token::Comment(s.clone()),
            Token::Colon => Token::Colon,
            Token::Semicolon => Token::Semicolon,
            Token::Comma => Token::Comma,
            Token::IncludeMatch => Token::IncludeMatch,
            Token::DashMatch => Token::DashMatch,
            Token::PrefixMatch => Token::PrefixMatch,
            Token::SuffixMatch => Token::SuffixMatch,
            Token::SubstringMatch => Token::SubstringMatch,
            Token::CDO => Token::CDO,
            Token::CDC => Token::CDC,
            Token::Function(s) => Token::Function(s.clone()),
            Token::ParenthesisBlock(s) => Token::ParenthesisBlock(s.clone()),
            Token::SquareBracketBlock(s) => Token::SquareBracketBlock(s.clone()),
            Token::CurlyBracketBlock(s) => Token::CurlyBracketBlock(s.clone()),
            Token::BadUrl(s) => Token::BadUrl(s.clone()),
            Token::BadString(s) => Token::BadString(s.clone()),
            Token::CloseParenthesis => Token::CloseParenthesis,
            Token::CloseSquareBracket => Token::CloseSquareBracket,
            Token::CloseCurlyBracket => Token::CloseCurlyBracket,
        }
    }
}

/// One tokenizer step: the token (or a lex error for an unrecognized
/// character), the matched slice, and its span. Whitespace between tokens is
/// consumed silently and never yielded.
#[derive(Debug, PartialEq)]
pub struct Lexed {
    /// The token, or `Err(())` for an unrecognized character; the offending
    /// slice and span are in the other two fields.
    pub token: Result<Token, ()>,
    /// The exact source text the step matched.
    pub slice: String,
    /// Where in the buffer the slice lies, as a byte range.
    pub span: Span,
}

/// The specification mirror of `Lexed`: `tok` is `None` for a lex error.
pub ghost struct LexedModel {
    pub tok: Option<TokenModel>,
    pub slice: Seq<char>,
    pub lo: int,
    pub hi: int,
}

impl View for Lexed {
    type V = LexedModel;

    open spec fn view(&self) -> LexedModel {
        LexedModel {
            tok: match self.token {
                Ok(t) => Some(t@),
                Err(()) => None,
            },
            slice: self.slice@,
            lo: self.span.lo as int,
            hi: self.span.hi as int,
        }
    }
}

/// The views of a vector of lexed items.
pub open spec fn lexed_views(v: Seq<Lexed>) -> Seq<LexedModel> {
    v.map_values(|l: Lexed| l@)
}

/// The same lexed item with its span moved by `off`: how a token of a
/// re-lexed block buffer is placed back into the original source.
pub open spec fn shift_lexed(l: LexedModel, off: int) -> LexedModel {
    LexedModel { tok: l.tok, slice: l.slice, lo: l.lo + off, hi: l.hi + off }
}

/// A whole stream with every span moved by `off`.
pub open spec fn shift_stream(ts: Seq<LexedModel>, off: int) -> Seq<LexedModel> {
    ts.map_values(|l: LexedModel| shift_lexed(l, off))
}

} // verus!
