//! The tokenizer: the lexical model over `Seq<char>`, and the executable
//! cursor that is proved to follow it.
//!
//! Disambiguation is priority-ordered and the longest, most specific match
//! wins: an identifier directly followed by `(` is a `Function`; a numeric
//! literal greedily takes a trailing `%` or unit; parenthesis and square
//! bracket tokens capture one flat pair, closing at the first closer, while
//! a curly block counts nested brace pairs so that a rule's block carries
//! its nested rules whole. Whitespace is consumed silently; comments are
//! yielded as tokens so the parser can skip them explicitly. Scanning works
//! over character positions; the spans the tokens carry are half-open byte
//! ranges into the buffer, per the UTF-8 encoding of its characters.

use vstd::prelude::*;
use crate::ast::Span;
use crate::token::{Lexed, LexedModel, Token, TokenModel, lexed_views};

verus! {

/// The whitespace characters that the tokenizer consumes silently.
pub open spec fn is_space(c: char) -> bool {
    c == ' ' || c == '\t' || c == '\n' || c == '\r' || c == '\x0c'
}

/// Decimal digits.
pub open spec fn is_digit(c: char) -> bool {
    '0' <= c && c <= '9'
}

/// ASCII letters.
pub open spec fn is_alpha(c: char) -> bool {
    ('a' <= c && c <= 'z') || ('A' <= c && c <= 'Z')
}

/// Characters that may start an identifier.
pub open spec fn is_ident_start(c: char) -> bool {
    is_alpha(c) || c == '_'
}

/// Characters that may continue an identifier, a hash name, a class name,
/// a pseudo-selector name or a custom-property name.
pub open spec fn is_name_char(c: char) -> bool {
    is_ident_start(c) || is_digit(c) || c == '-'
}

/// ASCII punctuation: any printable ASCII character that is neither
/// alphanumeric nor space. Any such character can stand alone as a `Delim`.
pub open spec fn is_delim_char(c: char) -> bool {
    ('!' <= c && c <= '/') || (':' <= c && c <= '@') || ('[' <= c && c <= '^') || c == '_' || c
        == '`' || ('{' <= c && c <= '~')
}

/// The first position at or after `i` holding a non-whitespace character,
/// or the end of the buffer.
pub open spec fn scan_space(s: Seq<char>, i: int) -> int
    decreases s.len() - i
        when 0 <= i <= s.len()
{
    if i < s.len() && is_space(s[i]) {
        scan_space(s, i + 1)
    } else {
        i
    }
}

/// The first position at or after `i` holding a non-name character, or the
/// end of the buffer.
pub open spec fn scan_name(s: Seq<char>, i: int) -> int
    decreases s.len() - i
        when 0 <= i <= s.len()
{
    if i < s.len() && is_name_char(s[i]) {
        scan_name(s, i + 1)
    } else {
        i
    }
}

/// The first position at or after `i` holding a non-digit, or the end of
/// the buffer.
pub open spec fn scan_digits(s: Seq<char>, i: int) -> int
    decreases s.len() - i
        when 0 <= i <= s.len()
{
    if i < s.len() && is_digit(s[i]) {
        scan_digits(s, i + 1)
    } else {
        i
    }
}

/// The first position at or after `i` holding a non-letter, or the end of
/// the buffer.
pub open spec fn scan_alpha(s: Seq<char>, i: int) -> int
    decreases s.len() - i
        when 0 <= i <= s.len()
{
    if i < s.len() && is_alpha(s[i]) {
        scan_alpha(s, i + 1)
    } else {
        i
    }
}

/// The first position at or after `i` holding `c`, or `-1` if there is none.
pub open spec fn find_from(s: Seq<char>, i: int, c: char) -> int
    decreases s.len() - i
        when 0 <= i <= s.len()
{
    if i >= s.len() {
        -1
    } else if s[i] == c {
        i
    } else {
        find_from(s, i + 1, c)
    }
}

/// The first position at or after `i` where `*/` begins, or `-1`.
pub open spec fn comment_close(s: Seq<char>, i: int) -> int
    decreases s.len() - i
        when 0 <= i <= s.len()
{
    if i + 1 >= s.len() {
        -1
    } else if s[i] == '*' && s[i + 1] == '/' {
        i
    } else {
        comment_close(s, i + 1)
    }
}

/// The position of the matching `}` at or after `i`, counting nested
/// brace pairs, or `-1` if the buffer ends first. Curly blocks alone count
/// nesting: a rule's block must capture its nested rules whole, so that
/// the parser can re-lex them.
pub open spec fn find_close_brace(s: Seq<char>, i: int, depth: int) -> int
    decreases s.len() - i
        when 0 <= i <= s.len()
{
    if i >= s.len() {
        -1
    } else if s[i] == '}' {
        if depth == 0 {
            i
        } else {
            find_close_brace(s, i + 1, depth - 1)
        }
    } else if s[i] == '{' {
        find_close_brace(s, i + 1, depth + 1)
    } else {
        find_close_brace(s, i + 1, depth)
    }
}

pub proof fn lemma_find_close_brace(s: Seq<char>, i: int, depth: int)
    requires
        0 <= i <= s.len(),
    ensures
        find_close_brace(s, i, depth) == -1 || i <= find_close_brace(s, i, depth) < s.len(),
    decreases s.len() - i,
{
    if i < s.len() {
        if s[i] == '}' {
            if depth != 0 {
                lemma_find_close_brace(s, i + 1, depth - 1);
            }
        } else if s[i] == '{' {
            lemma_find_close_brace(s, i + 1, depth + 1);
        } else {
            lemma_find_close_brace(s, i + 1, depth);
        }
    }
}

/// Scans the body of a quoted string from `i`: skips backslash-escape pairs
/// and ordinary characters, and stops at the first unescaped quote of either
/// kind, at a lone trailing backslash, or at the end of the buffer.
pub open spec fn string_body_end(s: Seq<char>, i: int) -> int
    decreases s.len() - i
        when 0 <= i <= s.len()
{
    if i >= s.len() {
        i
    } else if s[i] == '"' || s[i] == '\'' {
        i
    } else if s[i] == '\\' {
        if i + 1 < s.len() {
            string_body_end(s, i + 2)
        } else {
            i
        }
    } else {
        string_body_end(s, i + 1)
    }
}

pub proof fn lemma_scan_space(s: Seq<char>, i: int)
    requires
        0 <= i <= s.len(),
    ensures
        i <= scan_space(s, i) <= s.len(),
        scan_space(s, i) < s.len() ==> !is_space(s[scan_space(s, i)]),
        forall|k: int| i <= k < scan_space(s, i) ==> is_space(#[trigger] s[k]),
    decreases s.len() - i,
{
    if i < s.len() && is_space(s[i]) {
        lemma_scan_space(s, i + 1);
    }
}

pub proof fn lemma_scan_name(s: Seq<char>, i: int)
    requires
        0 <= i <= s.len(),
    ensures
        i <= scan_name(s, i) <= s.len(),
    decreases s.len() - i,
{
    if i < s.len() && is_name_char(s[i]) {
        lemma_scan_name(s, i + 1);
    }
}

pub proof fn lemma_scan_digits(s: Seq<char>, i: int)
    requires
        0 <= i <= s.len(),
    ensures
        i <= scan_digits(s, i) <= s.len(),
    decreases s.len() - i,
{
    if i < s.len() && is_digit(s[i]) {
        lemma_scan_digits(s, i + 1);
    }
}

pub proof fn lemma_scan_alpha(s: Seq<char>, i: int)
    requires
        0 <= i <= s.len(),
    ensures
        i <= scan_alpha(s, i) <= s.len(),
    decreases s.len() - i,
{
    if i < s.len() && is_alpha(s[i]) {
        lemma_scan_alpha(s, i + 1);
    }
}

pub proof fn lemma_find_from(s: Seq<char>, i: int, c: char)
    requires
        0 <= i <= s.len(),
    ensures
        find_from(s, i, c) == -1 || i <= find_from(s, i, c) < s.len(),
    decreases s.len() - i,
{
    if i < s.len() && s[i] != c {
        lemma_find_from(s, i + 1, c);
    }
}

pub proof fn lemma_comment_close(s: Seq<char>, i: int)
    requires
        0 <= i <= s.len(),
    ensures
        comment_close(s, i) == -1 || i <= comment_close(s, i) && comment_close(s, i) + 1
            < s.len(),
    decreases s.len() - i,
{
    if i + 1 < s.len() && !(s[i] == '*' && s[i + 1] == '/') {
        lemma_comment_close(s, i + 1);
    }
}

pub proof fn lemma_string_body_end(s: Seq<char>, i: int)
    requires
        0 <= i <= s.len(),
    ensures
        i <= string_body_end(s, i) <= s.len(),
    decreases s.len() - i,
{
    if i < s.len() && !(s[i] == '"' || s[i] == '\'') {
        if s[i] == '\\' {
            if i + 1 < s.len() {
                lemma_string_body_end(s, i + 2);
            }
        } else {
            lemma_string_body_end(s, i + 1);
        }
    }
}

/// The length in bytes of the UTF-8 encoding of the given characters.
pub open spec fn bytelen(s: Seq<char>) -> int {
    vstd::utf8::encode_utf8(s).len() as int
}

/// The byte offset of character position `i`: the encoded length of the
/// characters before it.
pub open spec fn byte_pos(s: Seq<char>, i: int) -> int
    recommends
        0 <= i <= s.len(),
{
    bytelen(s.subrange(0, i))
}

/// Encoded lengths add over concatenation.
pub proof fn lemma_bytelen_concat(x: Seq<char>, y: Seq<char>)
    ensures
        bytelen(x + y) == bytelen(x) + bytelen(y),
    decreases x.len(),
{
    if x.len() == 0 {
        assert(x + y =~= y);
    } else {
        assert((x + y).len() > 0);
        assert((x + y)[0] == x[0]);
        assert((x + y).drop_first() =~= x.drop_first() + y);
        lemma_bytelen_concat(x.drop_first(), y);
    }
}

/// A successful lexical step covering the characters `s[lo..hi)`; its span
/// is the byte range those characters encode to.
pub open spec fn step(s: Seq<char>, lo: int, hi: int, t: TokenModel) -> LexedModel {
    LexedModel { tok: Some(t), slice: s.subrange(lo, hi), lo: byte_pos(s, lo), hi: byte_pos(s, hi) }
}

/// A one-character `Delim` step at `i`.
pub open spec fn delim_step(s: Seq<char>, i: int) -> LexedModel {
    step(s, i, i + 1, TokenModel::Delim(s[i]))
}

/// The token beginning at `i` for a numeric literal: the sign (if any) and
/// the integer digits, a fractional part only when `.` is directly followed
/// by a digit, then greedily a trailing `%` (a `Percentage`) or trailing
/// letters (a `Dimension`); otherwise a plain `Number`.
pub open spec fn number_at(s: Seq<char>, i: int) -> LexedModel
    recommends
        0 <= i < s.len(),
{
    let d0 = if s[i] == '+' || s[i] == '-' {
        i + 1
    } else {
        i
    };
    let de = scan_digits(s, d0);
    let ne = if de < s.len() && s[de] == '.' && de + 1 < s.len() && is_digit(s[de + 1]) {
        scan_digits(s, de + 2)
    } else {
        de
    };
    if ne < s.len() && s[ne] == '%' {
        step(s, i, ne + 1, TokenModel::Percentage(s.subrange(i, ne + 1)))
    } else if ne < s.len() && is_alpha(s[ne]) {
        let ue = scan_alpha(s, ne + 1);
        step(s, i, ue, TokenModel::Dimension(s.subrange(i, ue)))
    } else {
        step(s, i, ne, TokenModel::Number(s.subrange(i, ne)))
    }
}

/// The step at an identifier-start character that opens no `url(...)`
/// token: a `Function` when a `(` directly follows the name, an `Ident`
/// otherwise. A lone `_` is punctuation, not a one-character identifier.
pub open spec fn ident_token_at(s: Seq<char>, i: int) -> LexedModel
    recommends
        0 <= i < s.len(),
        is_ident_start(s[i]),
{
    let e = scan_name(s, i + 1);
    if e < s.len() && s[e] == '(' {
        step(s, i, e + 1, TokenModel::Function(s.subrange(i, e)))
    } else if s[i] == '_' && e == i + 1 {
        delim_step(s, i)
    } else {
        step(s, i, e, TokenModel::Ident(s.subrange(i, e)))
    }
}

/// The lexical step at position `i`, which must hold a non-whitespace
/// character. This is the whole disambiguation policy in one place; the
/// executable tokenizer is proved to yield exactly these steps.
pub open spec fn token_at(s: Seq<char>, i: int) -> LexedModel
    recommends
        0 <= i < s.len(),
        !is_space(s[i]),
{
    let c = s[i];
    if c == '/' && i + 1 < s.len() && s[i + 1] == '*' {
        let j = comment_close(s, i + 2);
        if j >= 0 {
            step(s, i, j + 2, TokenModel::Comment(s.subrange(i, j + 2)))
        } else {
            delim_step(s, i)
        }
    } else if c == '<' {
        if i + 3 < s.len() && s[i + 1] == '!' && s[i + 2] == '-' && s[i + 3] == '-' {
            step(s, i, i + 4, TokenModel::CDO)
        } else {
            delim_step(s, i)
        }
    } else if c == '-' {
        if i + 2 < s.len() && s[i + 1] == '-' && s[i + 2] == '>' {
            step(s, i, i + 3, TokenModel::CDC)
        } else if i + 2 < s.len() && s[i + 1] == '-' && is_name_char(s[i + 2]) {
            let e = scan_name(s, i + 3);
            step(s, i, e, TokenModel::CustomProperty(s.subrange(i, e)))
        } else if i + 1 < s.len() && is_digit(s[i + 1]) {
            number_at(s, i)
        } else {
            delim_step(s, i)
        }
    } else if c == '+' {
        if i + 1 < s.len() && is_digit(s[i + 1]) {
            number_at(s, i)
        } else {
            delim_step(s, i)
        }
    } else if is_digit(c) {
        number_at(s, i)
    } else if c == '@' {
        if i + 1 < s.len() && is_ident_start(s[i + 1]) {
            let e = scan_name(s, i + 2);
            step(s, i, e, TokenModel::AtKeyword(s.subrange(i + 1, e)))
        } else {
            delim_step(s, i)
        }
    } else if c == '#' {
        if i + 1 < s.len() && is_name_char(s[i + 1]) {
            let e = scan_name(s, i + 2);
            step(s, i, e, TokenModel::Hash(s.subrange(i + 1, e)))
        } else {
            delim_step(s, i)
        }
    } else if c == '.' {
        if i + 1 < s.len() && is_ident_start(s[i + 1]) {
            let e = scan_name(s, i + 2);
            step(s, i, e, TokenModel::ClassSelector(s.subrange(i, e)))
        } else {
            delim_step(s, i)
        }
    } else if c == ':' {
        if i + 2 < s.len() && s[i + 1] == ':' && is_ident_start(s[i + 2]) {
            let e = scan_name(s, i + 3);
            step(s, i, e, TokenModel::PseudoClassSelector(s.subrange(i, e)))
        } else if i + 1 < s.len() && is_ident_start(s[i + 1]) {
            let e = scan_name(s, i + 2);
            step(s, i, e, TokenModel::PseudoClassSelector(s.subrange(i, e)))
        } else {
            delim_step(s, i)
        }
    } else if c == '!' {
        if i + 10 <= s.len() && s.subrange(i + 1, i + 10) == "important"@ {
            step(s, i, i + 10, TokenModel::Important)
        } else {
            delim_step(s, i)
        }
    } else if c == '"' || c == '\'' {
        let e = string_body_end(s, i + 1);
        if e < s.len() && (s[e] == '"' || s[e] == '\'') {
            step(s, i, e + 1, TokenModel::QuotedString(s.subrange(i + 1, e)))
        } else if c == '"' {
            step(s, i, e, TokenModel::BadString(s.subrange(i, e)))
        } else {
            delim_step(s, i)
        }
    } else if is_ident_start(c) {
        if c == 'u' && i + 3 < s.len() && s[i + 1] == 'r' && s[i + 2] == 'l' && s[i + 3] == '('
            && find_from(s, i + 4, ')') >= 0 {
            let j = find_from(s, i + 4, ')');
            if scan_space(s, i + 4) >= j {
                step(s, i, j + 1, TokenModel::BadUrl(s.subrange(i, j + 1)))
            } else {
                step(s, i, j + 1, TokenModel::UnquotedUrl(s.subrange(i + 4, j)))
            }
        } else {
            ident_token_at(s, i)
        }
    } else if c == '(' {
        let j = find_from(s, i + 1, ')');
        if j >= 0 {
            step(s, i, j + 1, TokenModel::ParenthesisBlock(s.subrange(i, j + 1)))
        } else {
            delim_step(s, i)
        }
    } else if c == '[' {
        let j = find_from(s, i + 1, ']');
        if j >= 0 {
            step(s, i, j + 1, TokenModel::SquareBracketBlock(s.subrange(i, j + 1)))
        } else {
            delim_step(s, i)
        }
    } else if c == '{' {
        let j = find_close_brace(s, i + 1, 0);
        if j >= 0 {
            step(s, i, j + 1, TokenModel::CurlyBracketBlock(s.subrange(i, j + 1)))
        } else {
            delim_step(s, i)
        }
    } else if c == '~' && i + 1 < s.len() && s[i + 1] == '=' {
        step(s, i, i + 2, TokenModel::IncludeMatch)
    } else if c == '|' && i + 1 < s.len() && s[i + 1] == '=' {
        step(s, i, i + 2, TokenModel::DashMatch)
    } else if c == '^' && i + 1 < s.len() && s[i + 1] == '=' {
        step(s, i, i + 2, TokenModel::PrefixMatch)
    } else if c == '$' && i + 1 < s.len() && s[i + 1] == '=' {
        step(s, i, i + 2, TokenModel::SuffixMatch)
    } else if c == '*' && i + 1 < s.len() && s[i + 1] == '=' {
        step(s, i, i + 2, TokenModel::SubstringMatch)
    } else if is_delim_char(c) {
        delim_step(s, i)
    } else {
        LexedModel { tok: None, slice: s.subrange(i, i + 1), lo: byte_pos(s, i), hi: byte_pos(s, i + 1) }
    }
}

/// Every lexical step starts where asked, makes progress within bounds,
/// and its slice is exactly the covered part of the buffer; a curly block
/// token's payload is its full slice.
#[verifier::rlimit(100)]
pub proof fn lemma_token_at(s: Seq<char>, i: int)
    requires
        0 <= i < s.len(),
        !is_space(s[i]),
    ensures
        1 <= token_at(s, i).slice.len(),
        i + token_at(s, i).slice.len() <= s.len(),
        token_at(s, i).slice == s.subrange(i, i + token_at(s, i).slice.len() as int),
        token_at(s, i).lo == byte_pos(s, i),
        token_at(s, i).hi == byte_pos(s, i + token_at(s, i).slice.len() as int),
        token_at(s, i).tok matches Some(TokenModel::CurlyBracketBlock(b)) ==> b == token_at(
            s,
            i,
        ).slice,
{
    let c = s[i];
    if i + 2 <= s.len() {
        lemma_comment_close(s, i + 2);
    }
    if i + 3 <= s.len() {
        lemma_scan_name(s, i + 3);
    }
    if i + 2 <= s.len() {
        lemma_scan_name(s, i + 2);
    }
    lemma_scan_name(s, i + 1);
    lemma_string_body_end(s, i + 1);
    lemma_find_from(s, i + 1, ')');
    lemma_find_from(s, i + 1, ']');
    lemma_find_close_brace(s, i + 1, 0);
    if i + 4 <= s.len() {
        lemma_find_from(s, i + 4, ')');
    }
    if s[i] == '+' || s[i] == '-' || is_digit(s[i]) {
        lemma_number_at(s, i);
    }
}

/// As `lemma_token_at`, for the numeric branch.
pub proof fn lemma_number_at(s: Seq<char>, i: int)
    requires
        0 <= i < s.len(),
        s[i] == '+' || s[i] == '-' || is_digit(s[i]),
    ensures
        1 <= number_at(s, i).slice.len(),
        i + number_at(s, i).slice.len() <= s.len(),
        number_at(s, i).slice == s.subrange(i, i + number_at(s, i).slice.len() as int),
        number_at(s, i).lo == byte_pos(s, i),
        number_at(s, i).hi == byte_pos(s, i + number_at(s, i).slice.len() as int),
{
    let d0 = if s[i] == '+' || s[i] == '-' {
        i + 1
    } else {
        i
    };
    lemma_scan_digits(s, d0);
    if d0 < s.len() && is_digit(s[d0]) {
        lemma_scan_digits(s, d0 + 1);
        assert(scan_digits(s, d0) == scan_digits(s, d0 + 1));
    }
    {
        let de = scan_digits(s, d0);
        if de < s.len() && s[de] == '.' && de + 1 < s.len() && is_digit(s[de + 1]) {
            lemma_scan_digits(s, de + 2);
            let ne = scan_digits(s, de + 2);
            if ne < s.len() {
                lemma_scan_alpha(s, ne + 1);
            }
        } else {
            if de < s.len() {
                lemma_scan_alpha(s, de + 1);
            }
        }
    }
}

/// The whole token stream of the buffer from position `i` on: whitespace is
/// skipped, then one step is taken, until the end of the buffer.
pub open spec fn tokenize_from(s: Seq<char>, i: int) -> Seq<LexedModel>
    decreases s.len() - i
        when 0 <= i <= s.len()
        via tokenize_from_dec
{
    let j = scan_space(s, i);
    if j >= s.len() {
        Seq::empty()
    } else {
        let t = token_at(s, j);
        seq![t] + tokenize_from(s, j + t.slice.len())
    }
}

#[via_fn]
proof fn tokenize_from_dec(s: Seq<char>, i: int) {
    lemma_scan_space(s, i);
    let j = scan_space(s, i);
    if j < s.len() {
        lemma_token_at(s, j);
    }
}

/// The token stream of a whole buffer.
pub open spec fn spec_tokens(s: Seq<char>) -> Seq<LexedModel> {
    tokenize_from(s, 0)
}

/// Every token of a stream carries a well-formed byte span within the
/// buffer's encoded length, spanning exactly its slice's encoded length,
/// and a curly block token's payload is its full slice.
pub proof fn lemma_tokens_coherent(s: Seq<char>, i: int)
    requires
        0 <= i <= s.len(),
    ensures
        forall|k: int|
            0 <= k < tokenize_from(s, i).len() ==> {
                let l = #[trigger] tokenize_from(s, i)[k];
                &&& 0 <= l.lo <= l.hi <= bytelen(s)
                &&& l.hi - l.lo == bytelen(l.slice)
                &&& (l.tok matches Some(TokenModel::CurlyBracketBlock(b)) ==> b == l.slice)
            },
    decreases s.len() - i,
{
    lemma_scan_space(s, i);
    let j = scan_space(s, i);
    if j < s.len() {
        lemma_token_at(s, j);
        let t = token_at(s, j);
        let e = j + t.slice.len() as int;
        assert(s.subrange(0, e) =~= s.subrange(0, j) + s.subrange(j, e));
        lemma_bytelen_concat(s.subrange(0, j), s.subrange(j, e));
        assert(s =~= s.subrange(0, e) + s.subrange(e, s.len() as int));
        lemma_bytelen_concat(s.subrange(0, e), s.subrange(e, s.len() as int));
        lemma_tokens_coherent(s, e);
        assert forall|k: int| 0 <= k < tokenize_from(s, i).len() implies {
            let l = #[trigger] tokenize_from(s, i)[k];
            &&& 0 <= l.lo <= l.hi <= bytelen(s)
            &&& l.hi - l.lo == bytelen(l.slice)
            &&& (l.tok matches Some(TokenModel::CurlyBracketBlock(b)) ==> b == l.slice)
        } by {
            if k > 0 {
                assert(tokenize_from(s, i)[k] == tokenize_from(s, e)[k - 1]);
            }
        }
    }
}

fn is_space_c(c: char) -> (b: bool)
    ensures
        b == is_space(c),
{
    c == ' ' || c == '\t' || c == '\n' || c == '\r' || c == '\x0c'
}

fn is_digit_c(c: char) -> (b: bool)
    ensures
        b == is_digit(c),
{
    '0' <= c && c <= '9'
}

fn is_alpha_c(c: char) -> (b: bool)
    ensures
        b == is_alpha(c),
{
    ('a' <= c && c <= 'z') || ('A' <= c && c <= 'Z')
}

fn is_ident_start_c(c: char) -> (b: bool)
    ensures
        b == is_ident_start(c),
{
    is_alpha_c(c) || c == '_'
}

fn is_name_char_c(c: char) -> (b: bool)
    ensures
        b == is_name_char(c),
{
    is_ident_start_c(c) || is_digit_c(c) || c == '-'
}

fn is_delim_char_c(c: char) -> (b: bool)
    ensures
        b == is_delim_char(c),
{
    ('!' <= c && c <= '/') || (':' <= c && c <= '@') || ('[' <= c && c <= '^') || c == '_' || c
        == '`' || ('{' <= c && c <= '~')
}

fn scan_space_x(s: &str, from: usize, len: usize) -> (r: usize)
    requires
        len == s@.len(),
        from <= len,
    ensures
        r == scan_space(s@, from as int),
        from <= r <= len,
{
    let mut j: usize = from;
    while j < len && is_space_c(s.get_char(j))
        invariant
            len == s@.len(),
            from <= j <= len,
            scan_space(s@, from as int) == scan_space(s@, j as int),
        decreases len - j,
    {
        j = j + 1;
    }
    j
}

fn scan_name_x(s: &str, from: usize, len: usize) -> (r: usize)
    requires
        len == s@.len(),
        from <= len,
    ensures
        r == scan_name(s@, from as int),
        from <= r <= len,
{
    let mut j: usize = from;
    while j < len && is_name_char_c(s.get_char(j))
        invariant
            len == s@.len(),
            from <= j <= len,
            scan_name(s@, from as int) == scan_name(s@, j as int),
        decreases len - j,
    {
        j = j + 1;
    }
    j
}

fn scan_digits_x(s: &str, from: usize, len: usize) -> (r: usize)
    requires
        len == s@.len(),
        from <= len,
    ensures
        r == scan_digits(s@, from as int),
        from <= r <= len,
{
    let mut j: usize = from;
    while j < len && is_digit_c(s.get_char(j))
        invariant
            len == s@.len(),
            from <= j <= len,
            scan_digits(s@, from as int) == scan_digits(s@, j as int),
        decreases len - j,
    {
        j = j + 1;
    }
    j
}

fn scan_alpha_x(s: &str, from: usize, len: usize) -> (r: usize)
    requires
        len == s@.len(),
        from <= len,
    ensures
        r == scan_alpha(s@, from as int),
        from <= r <= len,
{
    let mut j: usize = from;
    while j < len && is_alpha_c(s.get_char(j))
        invariant
            len == s@.len(),
            from <= j <= len,
            scan_alpha(s@, from as int) == scan_alpha(s@, j as int),
        decreases len - j,
    {
        j = j + 1;
    }
    j
}

fn find_char_from(s: &str, from: usize, len: usize, c: char) -> (r: Option<usize>)
    requires
        len == s@.len(),
        from <= len,
    ensures
        match r {
            Some(j) => find_from(s@, from as int, c) == j && from <= j < len,
            None => find_from(s@, from as int, c) == -1,
        },
{
    let mut j: usize = from;
    while j < len && s.get_char(j) != c
        invariant
            len == s@.len(),
            from <= j <= len,
            find_from(s@, from as int, c) == find_from(s@, j as int, c),
        decreases len - j,
    {
        j = j + 1;
    }
    if j < len {
        Some(j)
    } else {
        None
    }
}

fn comment_close_x(s: &str, from: usize, len: usize) -> (r: Option<usize>)
    requires
        len == s@.len(),
        from <= len,
    ensures
        match r {
            Some(j) => comment_close(s@, from as int) == j && from <= j && j + 1 < len,
            None => comment_close(s@, from as int) == -1,
        },
{
    let mut j: usize = from;
    loop
        invariant
            len == s@.len(),
            from <= j <= len,
            comment_close(s@, from as int) == comment_close(s@, j as int),
        decreases len - j,
    {
        if j >= len {
            return None;
        }
        if j + 1 >= len {
            return None;
        }
        if s.get_char(j) == '*' && s.get_char(j + 1) == '/' {
            return Some(j);
        }
        j = j + 1;
    }
}

fn string_body_end_x(s: &str, from: usize, len: usize) -> (r: usize)
    requires
        len == s@.len(),
        from <= len,
    ensures
        r == string_body_end(s@, from as int),
        from <= r <= len,
{
    let mut j: usize = from;
    loop
        invariant
            len == s@.len(),
            from <= j <= len,
            string_body_end(s@, from as int) == string_body_end(s@, j as int),
        decreases len - j,
    {
        if j >= len {
            return j;
        }
        let c = s.get_char(j);
        if c == '"' || c == '\'' {
            return j;
        }
        if c == '\\' {
            if j + 1 < len {
                j = j + 2;
            } else {
                return j;
            }
        } else {
            j = j + 1;
        }
    }
}

fn find_close_brace_x(s: &str, from: usize, len: usize) -> (r: Option<usize>)
    requires
        len == s@.len(),
        from <= len,
    ensures
        match r {
            Some(j) => find_close_brace(s@, from as int, 0) == j && from <= j < len,
            None => find_close_brace(s@, from as int, 0) == -1,
        },
{
    let mut j: usize = from;
    let mut depth: usize = 0;
    loop
        invariant
            len == s@.len(),
            from <= j <= len,
            depth <= j - from,
            find_close_brace(s@, from as int, 0) == find_close_brace(s@, j as int, depth as int),
        decreases len - j,
    {
        if j >= len {
            return None;
        }
        let c = s.get_char(j);
        if c == '}' {
            if depth == 0 {
                return Some(j);
            }
            depth = depth - 1;
        } else if c == '{' {
            depth = depth + 1;
        }
        j = j + 1;
    }
}

/// An owned copy of the characters of `s` in `[a, b)`.
fn txt(s: &str, a: usize, b: usize) -> (r: String)
    requires
        a <= b <= s@.len(),
    ensures
        r@ == s@.subrange(a as int, b as int),
{
    s.substring_char(a, b).to_owned()
}

/// The byte length of a string slice's characters.
fn byte_len_of(s: &str) -> (n: usize)
    ensures
        n as int == bytelen(s@),
{
    s.as_bytes().len()
}

/// A successful step covering the characters `[lo, hi)` of `s`, yielding
/// `t`. `b0` is the byte offset of `lo`, so the step's byte span can be
/// completed from the slice's own encoded length.
fn mk(s: &str, b0: usize, lo: usize, hi: usize, t: Token) -> (r: Lexed)
    requires
        lo <= hi <= s@.len(),
        b0 as int == byte_pos(s@, lo as int),
    ensures
        r@ == step(s@, lo as int, hi as int, t@),
{
    let slice = txt(s, lo, hi);
    let sb = byte_len_of(slice.as_str());
    proof {
        assert(s@.subrange(0, hi as int) =~= s@.subrange(0, lo as int) + s@.subrange(
            lo as int,
            hi as int,
        ));
        lemma_bytelen_concat(s@.subrange(0, lo as int), s@.subrange(lo as int, hi as int));
        assert(s@ =~= s@.subrange(0, hi as int) + s@.subrange(hi as int, s@.len() as int));
        lemma_bytelen_concat(s@.subrange(0, hi as int), s@.subrange(hi as int, s@.len() as int));
    }
    let total = byte_len_of(s);
    Lexed { token: Ok(t), slice, span: Span { lo: b0, hi: b0 + sb } }
}

/// A one-character `Delim` step.
fn delim_at(s: &str, b0: usize, i: usize, len: usize) -> (r: Lexed)
    requires
        len == s@.len(),
        i < len,
        b0 as int == byte_pos(s@, i as int),
    ensures
        r@ == delim_step(s@, i as int),
{
    let c = s.get_char(i);
    mk(s, b0, i, i + 1, Token::Delim(c))
}

/// The executable numeric branch: see `number_at`.
fn num_at(s: &str, b0: usize, i: usize, len: usize) -> (r: Lexed)
    requires
        len == s@.len(),
        i < len,
        s@[i as int] == '+' || s@[i as int] == '-' || is_digit(s@[i as int]),
        b0 as int == byte_pos(s@, i as int),
    ensures
        r@ == number_at(s@, i as int),
{
    let c = s.get_char(i);
    let d0: usize = if c == '+' || c == '-' {
        i + 1
    } else {
        i
    };
    let de = scan_digits_x(s, d0, len);
    let ne: usize = if de < len && s.get_char(de) == '.' && de + 1 < len && is_digit_c(
        s.get_char(de + 1),
    ) {
        scan_digits_x(s, de + 2, len)
    } else {
        de
    };
    if ne < len && s.get_char(ne) == '%' {
        mk(s, b0, i, ne + 1, Token::Percentage(txt(s, i, ne + 1)))
    } else if ne < len && is_alpha_c(s.get_char(ne)) {
        let ue = scan_alpha_x(s, ne + 1, len);
        mk(s, b0, i, ue, Token::Dimension(txt(s, i, ue)))
    } else {
        mk(s, b0, i, ne, Token::Number(txt(s, i, ne)))
    }
}

/// The executable identifier branch: see `ident_token_at`.
fn ident_at(s: &str, b0: usize, i: usize, len: usize) -> (r: Lexed)
    requires
        len == s@.len(),
        i < len,
        is_ident_start(s@[i as int]),
        b0 as int == byte_pos(s@, i as int),
    ensures
        r@ == ident_token_at(s@, i as int),
{
    let e = scan_name_x(s, i + 1, len);
    if e < len && s.get_char(e) == '(' {
        mk(s, b0, i, e + 1, Token::Function(txt(s, i, e)))
    } else if s.get_char(i) == '_' && e == i + 1 {
        delim_at(s, b0, i, len)
    } else {
        mk(s, b0, i, e, Token::Ident(txt(s, i, e)))
    }
}

/// The executable lexical step: follows `token_at` branch for branch.
#[verifier::rlimit(60)]
fn lex_at(s: &str, b0: usize, i: usize, len: usize) -> (r: Lexed)
    requires
        len == s@.len(),
        i < len,
        !is_space(s@[i as int]),
        b0 as int == byte_pos(s@, i as int),
    ensures
        r@ == token_at(s@, i as int),
{
    let c = s.get_char(i);
    if c == '/' && i + 1 < len && s.get_char(i + 1) == '*' {
        match comment_close_x(s, i + 2, len) {
            Some(j) => mk(s, b0, i, j + 2, Token::Comment(txt(s, i, j + 2))),
            None => delim_at(s, b0, i, len),
        }
    } else if c == '<' {
        if i + 1 < len && i + 2 < len && i + 3 < len && s.get_char(i + 1) == '!' && s.get_char(
            i + 2,
        ) == '-' && s.get_char(i + 3) == '-' {
            mk(s, b0, i, i + 4, Token::CDO)
        } else {
            delim_at(s, b0, i, len)
        }
    } else if c == '-' {
        if i + 1 < len && i + 2 < len && s.get_char(i + 1) == '-' && s.get_char(i + 2) == '>' {
            mk(s, b0, i, i + 3, Token::CDC)
        } else if i + 1 < len && i + 2 < len && s.get_char(i + 1) == '-' && is_name_char_c(
            s.get_char(i + 2),
        ) {
            let e = scan_name_x(s, i + 3, len);
            mk(s, b0, i, e, Token::CustomProperty(txt(s, i, e)))
        } else if i + 1 < len && is_digit_c(s.get_char(i + 1)) {
            num_at(s, b0, i, len)
        } else {
            delim_at(s, b0, i, len)
        }
    } else if c == '+' {
        if i + 1 < len && is_digit_c(s.get_char(i + 1)) {
            num_at(s, b0, i, len)
        } else {
            delim_at(s, b0, i, len)
        }
    } else if is_digit_c(c) {
        num_at(s, b0, i, len)
    } else if c == '@' {
        if i + 1 < len && is_ident_start_c(s.get_char(i + 1)) {
            let e = scan_name_x(s, i + 2, len);
            mk(s, b0, i, e, Token::AtKeyword(txt(s, i + 1, e)))
        } else {
            delim_at(s, b0, i, len)
        }
    } else if c == '#' {
        if i + 1 < len && is_name_char_c(s.get_char(i + 1)) {
            let e = scan_name_x(s, i + 2, len);
            mk(s, b0, i, e, Token::Hash(txt(s, i + 1, e)))
        } else {
            delim_at(s, b0, i, len)
        }
    } else if c == '.' {
        if i + 1 < len && is_ident_start_c(s.get_char(i + 1)) {
            let e = scan_name_x(s, i + 2, len);
            mk(s, b0, i, e, Token::ClassSelector(txt(s, i, e)))
        } else {
            delim_at(s, b0, i, len)
        }
    } else if c == ':' {
        if i + 1 < len && i + 2 < len && s.get_char(i + 1) == ':' && is_ident_start_c(
            s.get_char(i + 2),
        ) {
            let e = scan_name_x(s, i + 3, len);
            mk(s, b0, i, e, Token::PseudoClassSelector(txt(s, i, e)))
        } else if i + 1 < len && is_ident_start_c(s.get_char(i + 1)) {
            let e = scan_name_x(s, i + 2, len);
            mk(s, b0, i, e, Token::PseudoClassSelector(txt(s, i, e)))
        } else {
            delim_at(s, b0, i, len)
        }
    } else if c == '!' {
        if len >= 10 && i <= len - 10 {
            let word = s.substring_char(i + 1, i + 10);
            if crate::text::str_eq_str(word, "important") {
                mk(s, b0, i, i + 10, Token::Important)
            } else {
                delim_at(s, b0, i, len)
            }
        } else {
            delim_at(s, b0, i, len)
        }
    } else if c == '"' || c == '\'' {
        let e = string_body_end_x(s, i + 1, len);
        if e < len && (s.get_char(e) == '"' || s.get_char(e) == '\'') {
            mk(s, b0, i, e + 1, Token::QuotedString(txt(s, i + 1, e)))
        } else if c == '"' {
            mk(s, b0, i, e, Token::BadString(txt(s, i, e)))
        } else {
            delim_at(s, b0, i, len)
        }
    } else if is_ident_start_c(c) {
        if c == 'u' && i + 1 < len && i + 2 < len && i + 3 < len && s.get_char(i + 1) == 'r'
            && s.get_char(i + 2) == 'l' && s.get_char(i + 3) == '(' {
            match find_char_from(s, i + 4, len, ')') {
                Some(j) => {
                    let w = scan_space_x(s, i + 4, len);
                    if w >= j {
                        mk(s, b0, i, j + 1, Token::BadUrl(txt(s, i, j + 1)))
                    } else {
                        mk(s, b0, i, j + 1, Token::UnquotedUrl(txt(s, i + 4, j)))
                    }
                },
                None => ident_at(s, b0, i, len),
            }
        } else {
            ident_at(s, b0, i, len)
        }
    } else if c == '(' {
        match find_char_from(s, i + 1, len, ')') {
            Some(j) => mk(s, b0, i, j + 1, Token::ParenthesisBlock(txt(s, i, j + 1))),
            None => delim_at(s, b0, i, len),
        }
    } else if c == '[' {
        match find_char_from(s, i + 1, len, ']') {
            Some(j) => mk(s, b0, i, j + 1, Token::SquareBracketBlock(txt(s, i, j + 1))),
            None => delim_at(s, b0, i, len),
        }
    } else if c == '{' {
        match find_close_brace_x(s, i + 1, len) {
            Some(j) => mk(s, b0, i, j + 1, Token::CurlyBracketBlock(txt(s, i, j + 1))),
            None => delim_at(s, b0, i, len),
        }
    } else if c == '~' && i + 1 < len && s.get_char(i + 1) == '=' {
        mk(s, b0, i, i + 2, Token::IncludeMatch)
    } else if c == '|' && i + 1 < len && s.get_char(i + 1) == '=' {
        mk(s, b0, i, i + 2, Token::DashMatch)
    } else if c == '^' && i + 1 < len && s.get_char(i + 1) == '=' {
        mk(s, b0, i, i + 2, Token::PrefixMatch)
    } else if c == '$' && i + 1 < len && s.get_char(i + 1) == '=' {
        mk(s, b0, i, i + 2, Token::SuffixMatch)
    } else if c == '*' && i + 1 < len && s.get_char(i + 1) == '=' {
        mk(s, b0, i, i + 2, Token::SubstringMatch)
    } else if is_delim_char_c(c) {
        delim_at(s, b0, i, len)
    } else {
        let slice = txt(s, i, i + 1);
        let sb = byte_len_of(slice.as_str());
        proof {
            assert(s@.subrange(0, i + 1) =~= s@.subrange(0, i as int) + s@.subrange(
                i as int,
                i + 1,
            ));
            lemma_bytelen_concat(s@.subrange(0, i as int), s@.subrange(i as int, i + 1));
            assert(s@ =~= s@.subrange(0, i + 1) + s@.subrange(i + 1, s@.len() as int));
            lemma_bytelen_concat(s@.subrange(0, i + 1), s@.subrange(i + 1, s@.len() as int));
        }
        let total = byte_len_of(s);
        Lexed { token: Err(()), slice, span: Span { lo: b0, hi: b0 + sb } }
    }
}

/// A cursor over an immutable buffer that yields one lexical step per call,
/// exactly as the model `tokenize_from` describes.
pub struct Tokenizer {
    src: String,
    pos: usize,
    bpos: usize,
}

impl Tokenizer {
    /// The characters of the buffer being lexed.
    pub closed spec fn src_view(&self) -> Seq<char> {
        self.src@
    }

    /// The current character position of the cursor.
    pub closed spec fn cursor(&self) -> int {
        self.pos as int
    }

    /// The cursor stays within the buffer.
    pub open spec fn wf(&self) -> bool {
        &&& 0 <= self.cursor() <= self.src_view().len()
        &&& self.byte_cursor() == byte_pos(self.src_view(), self.cursor())
    }

    /// The byte offset of the cursor.
    pub closed spec fn byte_cursor(&self) -> int {
        self.bpos as int
    }

    /// A cursor at the start of an owned copy of `source`.
    pub fn new(source: &str) -> (t: Tokenizer)
        ensures
            t.wf(),
            t.src_view() == source@,
            t.cursor() == 0,
    {
        let t = Tokenizer { src: source.to_owned(), pos: 0, bpos: 0 };
        proof {
            assert(t.src_view().subrange(0, 0) =~= Seq::<char>::empty());
        }
        t
    }

    /// Yields the next lexical step, or `None` at the end of the buffer.
    /// The steps yielded from any position are exactly `tokenize_from`.
    pub fn next(&mut self) -> (r: Option<Lexed>)
        requires
            old(self).wf(),
        ensures
            final(self).wf(),
            final(self).src_view() == old(self).src_view(),
            match r {
                None => tokenize_from(final(self).src_view(), old(self).cursor()) == Seq::<
                    LexedModel,
                >::empty() && final(self).cursor() == final(self).src_view().len(),
                Some(l) => {
                    &&& l@ == token_at(
                        final(self).src_view(),
                        scan_space(final(self).src_view(), old(self).cursor()),
                    )
                    &&& tokenize_from(final(self).src_view(), old(self).cursor()) == seq![l@]
                        + tokenize_from(final(self).src_view(), final(self).cursor())
                    &&& old(self).cursor() < final(self).cursor()
                },
            },
    {
        let ghost s0 = self.src@;
        let ghost p0 = self.pos as int;
        let srcc = self.src.clone();
        let len = srcc.as_str().unicode_len();
        let total = byte_len_of(srcc.as_str());
        let j = scan_space_x(srcc.as_str(), self.pos, len);
        proof {
            lemma_scan_space(s0, p0);
            assert(s0.subrange(0, j as int) =~= s0.subrange(0, p0) + s0.subrange(p0, j as int));
            lemma_bytelen_concat(s0.subrange(0, p0), s0.subrange(p0, j as int));
            assert(vstd::utf8::is_ascii_chars(s0.subrange(p0, j as int))) by {
                assert forall|k: int|
                    0 <= k < s0.subrange(p0, j as int).len() implies '\0' <= #[trigger] s0.subrange(
                    p0,
                    j as int,
                )[k] <= '\u{7f}' by {
                    assert(s0.subrange(p0, j as int)[k] == s0[p0 + k]);
                    assert(is_space(s0[p0 + k]));
                }
            }
            vstd::utf8::is_ascii_chars_encode_utf8(s0.subrange(p0, j as int));
            assert(s0 =~= s0.subrange(0, j as int) + s0.subrange(j as int, s0.len() as int));
            lemma_bytelen_concat(s0.subrange(0, j as int), s0.subrange(j as int, s0.len() as int));
        }
        let b1 = self.bpos + (j - self.pos);
        self.pos = j;
        self.bpos = b1;
        if j >= len {
            None
        } else {
            let l = lex_at(srcc.as_str(), b1, j, len);
            proof {
                lemma_token_at(s0, j as int);
            }
            let cl = l.slice.as_str().unicode_len();
            self.pos = j + cl;
            self.bpos = l.span.hi;
            Some(l)
        }
    }
}

/// Lexes the whole buffer into a vector of steps.
pub fn tokenize_all(source: &str) -> (r: Vec<Lexed>)
    ensures
        lexed_views(r@) == spec_tokens(source@),
{
    let mut tk = Tokenizer::new(source);
    let mut out: Vec<Lexed> = Vec::new();
    loop
        invariant
            tk.wf(),
            tk.src_view() == source@,
            spec_tokens(source@) == lexed_views(out@) + tokenize_from(source@, tk.cursor()),
        decreases source@.len() - tk.cursor(),
    {
        match tk.next() {
            None => {
                proof {
                    assert(lexed_views(out@) + Seq::<LexedModel>::empty() =~= lexed_views(out@));
                }
                return out;
            },
            Some(l) => {
                proof {
                    assert(lexed_views(out@.push(l)) =~= lexed_views(out@) + seq![l@]);
                    assert((lexed_views(out@) + seq![l@]) + tokenize_from(source@, tk.cursor())
                        =~= lexed_views(out@) + (seq![l@] + tokenize_from(source@, tk.cursor())));
                }
                out.push(l);
            },
        }
    }
}

} // verus!
