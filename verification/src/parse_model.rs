//! The functional model of the parser: what tree, or what positioned error,
//! each grammar production yields from a given token stream. The executable
//! parser in `parser` is proved to return exactly these results.
//!
//! Conventions. Every function takes the token stream `ts`, a position `p`
//! into it, and where it can recurse across buffers a depth budget `d` that
//! each cross-production call decrements; a budget of zero is reported as a
//! `RecursionLimit` error. Productions that consume a variable number of
//! tokens return the count consumed, as a `nat`; `sp_rule_set` and
//! `sp_at_rule` return the count consumed *before* their block token, so
//! their callers continue one past it. Errors carry the span of the token at
//! the failing position, or of the stream's last token once input is
//! exhausted. A `{ ... }` block's content is re-lexed as a fresh buffer
//! whose token spans are shifted by the content's position in the original
//! source, so every error span locates the failure in the original buffer.

use vstd::prelude::*;
use crate::ast::{CalcOperator, ErrorKind, Num};
use crate::lexer::{find_from, is_alpha, is_digit, is_space, scan_space, spec_tokens};
use crate::model::{
    AtRuleModel, CalcExpressionModel, CalcTermModel, ColorValueModel, DeclarationModel, ErrModel,
    FunctionValueModel, RuleModel, RuleSetModel, SelectorModel, SimpleSelectorModel,
    StylesheetModel, ValueModel,
};
use crate::token::{shift_stream, LexedModel, TokenModel};

verus! {

/// The parser's fixed recursion budget: how deeply blocks, nested rules and
/// function values may nest before the parse is rejected.
pub const PARSE_DEPTH: usize = 64;

/// How many tokens remain at position `p`.
pub open spec fn rem(ts: Seq<LexedModel>, p: int) -> nat {
    if 0 <= p <= ts.len() {
        (ts.len() - p) as nat
    } else {
        0
    }
}

/// The error span at position `p`: the token there, the last token once the
/// stream is exhausted, or an empty span in an empty stream.
pub open spec fn err_at(ts: Seq<LexedModel>, p: int, kind: ErrorKind) -> ErrModel {
    if 0 <= p < ts.len() {
        ErrModel { kind, lo: ts[p].lo, hi: ts[p].hi }
    } else if ts.len() > 0 {
        ErrModel { kind, lo: ts[ts.len() - 1].lo, hi: ts[ts.len() - 1].hi }
    } else {
        ErrModel { kind, lo: 0, hi: 0 }
    }
}

/// Adds `k` to the consumed-token count of a production result.
pub open spec fn plus_used<T>(r: Result<(T, nat), ErrModel>, k: nat) -> Result<
    (T, nat),
    ErrModel,
> {
    match r {
        Ok((v, u)) => Ok((v, (u + k) as nat)),
        Err(e) => Err(e),
    }
}

/// The numeric value of a digit string, most significant first. Non-digits
/// contribute nothing; `spec_num` and `spec_u8` only apply it to digits.
pub open spec fn digits_val(s: Seq<char>) -> nat
    decreases s.len(),
{
    if s.len() == 0 {
        0
    } else {
        (digits_val(s.drop_last()) * 10 + (if is_digit(s.last()) {
            (s.last() as int) - ('0' as int)
        } else {
            0
        })) as nat
    }
}

/// Whether every character is a decimal digit.
pub open spec fn all_digits(s: Seq<char>) -> bool {
    forall|i: int| 0 <= i < s.len() ==> is_digit(#[trigger] s[i])
}

/// The exact decimal denoted by a numeric literal: an optional sign, one or
/// more integer digits, and an optional `.` with one or more fraction
/// digits. `None` when the text has another shape or the digits exceed the
/// mantissa's range.
pub open spec fn spec_num(t: Seq<char>) -> Option<Num> {
    let body = if t.len() > 0 && (t[0] == '+' || t[0] == '-') {
        t.subrange(1, t.len() as int)
    } else {
        t
    };
    let neg = t.len() > 0 && t[0] == '-';
    let dot = find_from(body, 0, '.');
    let ip = if dot >= 0 {
        body.subrange(0, dot)
    } else {
        body
    };
    let fp = if dot >= 0 {
        body.subrange(dot + 1, body.len() as int)
    } else {
        Seq::empty()
    };
    if ip.len() > 0 && all_digits(ip) && (dot < 0 || fp.len() > 0) && all_digits(fp)
        && digits_val(ip + fp) <= u64::MAX && fp.len() <= usize::MAX {
        Some(Num { neg, mantissa: digits_val(ip + fp) as u64, scale: fp.len() as usize })
    } else {
        None
    }
}

/// The channel value denoted by an `rgb`/`rgba` argument: an optional `+`,
/// then digits whose value is at most 255. `None` otherwise: the parser
/// reports `NumberFormat` rather than rounding or clamping.
pub open spec fn spec_u8(t: Seq<char>) -> Option<u8> {
    let body = if t.len() > 0 && t[0] == '+' {
        t.subrange(1, t.len() as int)
    } else {
        t
    };
    if body.len() > 0 && all_digits(body) && digits_val(body) <= 255 {
        Some(digits_val(body) as u8)
    } else {
        None
    }
}

/// The first position at or after `i` holding a letter, or the length.
/// A dimension's text is split there into number and unit.
pub open spec fn first_alpha_from(s: Seq<char>, i: int) -> int
    decreases s.len() - i
        when 0 <= i <= s.len()
{
    if i >= s.len() {
        i
    } else if is_alpha(s[i]) {
        i
    } else {
        first_alpha_from(s, i + 1)
    }
}

/// The text with every trailing `%` removed.
pub open spec fn strip_pct(t: Seq<char>) -> Seq<char>
    decreases t.len(),
{
    if t.len() > 0 && t.last() == '%' {
        strip_pct(t.drop_last())
    } else {
        t
    }
}

/// The length of `s` with trailing whitespace removed.
pub open spec fn trim_end_len(s: Seq<char>) -> int
    decreases s.len(),
{
    if s.len() > 0 && is_space(s.last()) {
        trim_end_len(s.drop_last())
    } else {
        s.len() as int
    }
}

/// The text with leading and trailing whitespace removed.
pub open spec fn trim(s: Seq<char>) -> Seq<char> {
    let a = scan_space(s, 0);
    let b = trim_end_len(s);
    if a <= b {
        s.subrange(a, b)
    } else {
        Seq::empty()
    }
}

/// A block token's re-lexed content: the outer `{` and `}` are removed and
/// the remainder trimmed. Only the first and last character are inspected;
/// nesting is the parser's business, not the tokenizer's.
pub open spec fn inner_content(b: Seq<char>) -> Seq<char> {
    if b.len() >= 2 && b[0] == '{' && b[b.len() - 1] == '}' {
        trim(b.subrange(1, b.len() - 1))
    } else {
        trim(b)
    }
}

/// Where a block token's re-lexed content begins in the buffer that holds
/// the block, in bytes: the token's own start, past the opening `{` and
/// the whitespace that the trim removed — all single-byte characters.
pub open spec fn content_offset(block_lo: int, b: Seq<char>) -> int {
    if b.len() >= 2 && b[0] == '{' && b[b.len() - 1] == '}' {
        block_lo + 1 + scan_space(b.subrange(1, b.len() - 1), 0)
    } else {
        block_lo + scan_space(b, 0)
    }
}

/// A fresh simple selector holding only a tag.
pub open spec fn simple_tag(x: Seq<char>) -> SelectorModel {
    SelectorModel::Simple(SimpleSelectorModel { tag: Some(x), id: None, classes: Seq::empty() })
}

/// A fresh simple selector holding only an id.
pub open spec fn simple_id(x: Seq<char>) -> SelectorModel {
    SelectorModel::Simple(SimpleSelectorModel { tag: None, id: Some(x), classes: Seq::empty() })
}

/// Appends a raw selector fragment to the classes of the last selector, if
/// there is one and it is simple; otherwise the fragment is dropped.
pub open spec fn append_class(acc: Seq<SelectorModel>, x: Seq<char>) -> Seq<SelectorModel> {
    if acc.len() > 0 {
        match acc.last() {
            SelectorModel::Simple(sel) => acc.update(
                acc.len() - 1,
                SelectorModel::Simple(
                    SimpleSelectorModel {
                        tag: sel.tag,
                        id: sel.id,
                        classes: sel.classes.push(x),
                    },
                ),
            ),
            _ => acc,
        }
    } else {
        acc
    }
}

/// Folds a combinator onto the last selector: its tag becomes the spliced
/// text `"{tag} {c} {next}"`, or just `next` when it had no tag. No
/// `Combinator` node is built; the fold is textual by design.
pub open spec fn splice_last(acc: Seq<SelectorModel>, c: char, next: Seq<char>) -> Seq<
    SelectorModel,
> {
    if acc.len() > 0 {
        match acc.last() {
            SelectorModel::Simple(sel) => {
                let tag = match sel.tag {
                    Some(t) => t + seq![' ', c, ' '] + next,
                    None => next,
                };
                acc.update(
                    acc.len() - 1,
                    SelectorModel::Simple(
                        SimpleSelectorModel { tag: Some(tag), id: sel.id, classes: sel.classes },
                    ),
                )
            },
            _ => acc,
        }
    } else {
        acc
    }
}

/// The text a combinator splices in for the token after it: an identifier
/// or class selector as written, a hash with its `#` restored, anything
/// else as empty text.
pub open spec fn combinator_next_text(t: TokenModel) -> Seq<char> {
    match t {
        TokenModel::Ident(x) => x,
        TokenModel::ClassSelector(x) => x,
        TokenModel::Hash(x) => seq!['#'] + x,
        _ => Seq::empty(),
    }
}

/// The selector-group production. Accumulates simple selectors until a
/// `{...}` block or a token that cannot continue a selector; never fails.
/// `has_sep` records whether a separator came just before: a pseudo-class,
/// attribute or parenthesized fragment starts a fresh selector after a
/// separator and otherwise attaches to the previous one as a raw class.
pub open spec fn sp_selectors(
    ts: Seq<LexedModel>,
    p: int,
    acc: Seq<SelectorModel>,
    has_sep: bool,
) -> (Seq<SelectorModel>, nat)
    decreases rem(ts, p), 1int,
{
    if p < 0 || p >= ts.len() {
        (acc, 0)
    } else {
        match ts[p].tok {
            Some(t) => match t {
                TokenModel::CurlyBracketBlock(_) => (acc, 0),
                TokenModel::Hash(id) => {
                    let r = sp_selectors(ts, p + 1, acc.push(simple_id(id)), false);
                    (r.0, (r.1 + 1) as nat)
                },
                TokenModel::PseudoClassSelector(x) => sel_fragment(ts, p, acc, has_sep, x),
                TokenModel::SquareBracketBlock(x) => sel_fragment(ts, p, acc, has_sep, x),
                TokenModel::ParenthesisBlock(x) => sel_fragment(ts, p, acc, has_sep, x),
                TokenModel::ClassSelector(x) => {
                    let r = sp_selectors(ts, p + 1, acc.push(simple_tag(x)), false);
                    (r.0, (r.1 + 1) as nat)
                },
                TokenModel::Ident(x) => {
                    let r = sp_selectors(ts, p + 1, acc.push(simple_tag(x)), false);
                    (r.0, (r.1 + 1) as nat)
                },
                TokenModel::Delim(c) => {
                    if c == '*' {
                        let r = sp_selectors(ts, p + 1, acc.push(simple_tag(seq!['*'])), false);
                        (r.0, (r.1 + 1) as nat)
                    } else if c == ',' {
                        let r = sp_selectors(ts, p + 1, acc, true);
                        (r.0, (r.1 + 1) as nat)
                    } else if c == '>' || c == '+' || c == '~' {
                        if p + 1 < ts.len() && ts[p + 1].tok is Some {
                            let next = combinator_next_text(ts[p + 1].tok->0);
                            let r = sp_selectors(ts, p + 2, splice_last(acc, c, next), true);
                            (r.0, (r.1 + 2) as nat)
                        } else {
                            let r = sp_selectors(ts, p + 1, acc, true);
                            (r.0, (r.1 + 1) as nat)
                        }
                    } else {
                        (acc, 0)
                    }
                },
                _ => (acc, 0),
            },
            None => (acc, 0),
        }
    }
}

/// One pseudo-class/attribute/parenthesis fragment inside the selector
/// production: see `sp_selectors`.
pub open spec fn sel_fragment(
    ts: Seq<LexedModel>,
    p: int,
    acc: Seq<SelectorModel>,
    has_sep: bool,
    x: Seq<char>,
) -> (Seq<SelectorModel>, nat)
    decreases rem(ts, p), 0int,
        when 0 <= p < ts.len()
{
    let acc2 = if has_sep {
        acc.push(simple_tag(x))
    } else {
        append_class(acc, x)
    };
    let r = sp_selectors(ts, p + 1, acc2, has_sep);
    (r.0, (r.1 + 1) as nat)
}

/// The rule-set production: a selector group followed by one `{...}` block,
/// which is required — its absence is a fatal `UnexpectedToken` — and whose
/// trimmed content is re-lexed and parsed as declarations interleaved with
/// nested rule sets. Returns the tokens consumed before the block.
pub open spec fn sp_rule_set(ts: Seq<LexedModel>, p: int, d: int) -> Result<
    (RuleSetModel, nat),
    ErrModel,
>
    decreases d, rem(ts, p), 0int,
{
    if d <= 0 {
        Err(err_at(ts, p, ErrorKind::RecursionLimit))
    } else {
        let (sels, u) = sp_selectors(ts, p, Seq::empty(), true);
        let q = p + u;
        if 0 <= q < ts.len() && ts[q].tok matches Some(TokenModel::CurlyBracketBlock(_)) {
            let b = ts[q].tok->0->CurlyBracketBlock_0;
            let bts = shift_stream(spec_tokens(inner_content(b)), content_offset(ts[q].lo, b));
            match sp_block_items(bts, 0, d - 1, Seq::empty(), Seq::empty()) {
                Ok((decls, nested)) => Ok(
                    (
                        RuleSetModel {
                            selectors: sels,
                            declarations: decls,
                            nested_rules: nested,
                        },
                        u,
                    ),
                ),
                Err(e) => Err(e),
            }
        } else {
            Err(err_at(ts, q, ErrorKind::UnexpectedToken))
        }
    }
}

/// The body of a rule set's block, running to the end of its buffer: an
/// `Ident` or custom-property token starts a declaration and then requires
/// `:` before and `;` after its value list, each fatally; selector-starting
/// tokens open a nested rule set; comments and anything else are skipped.
pub open spec fn sp_block_items(
    bts: Seq<LexedModel>,
    q: int,
    d: int,
    decls: Seq<DeclarationModel>,
    nested: Seq<RuleModel>,
) -> Result<(Seq<DeclarationModel>, Seq<RuleModel>), ErrModel>
    decreases d, rem(bts, q), 1int,
{
    if q < 0 || q >= bts.len() {
        Ok((decls, nested))
    } else if d <= 0 {
        Err(err_at(bts, q, ErrorKind::RecursionLimit))
    } else {
        match bts[q].tok {
            Some(t) => match t {
                TokenModel::Ident(prop) => sp_declaration(bts, q, d, decls, nested, prop),
                TokenModel::CustomProperty(prop) => sp_declaration(bts, q, d, decls, nested, prop),
                TokenModel::Comment(_) => sp_block_items(bts, q + 1, d, decls, nested),
                TokenModel::ClassSelector(_) => sp_nested_rule(bts, q, d, decls, nested),
                TokenModel::Hash(_) => sp_nested_rule(bts, q, d, decls, nested),
                TokenModel::ParenthesisBlock(_) => sp_nested_rule(bts, q, d, decls, nested),
                TokenModel::SquareBracketBlock(_) => sp_nested_rule(bts, q, d, decls, nested),
                _ => sp_block_items(bts, q + 1, d, decls, nested),
            },
            None => sp_block_items(bts, q + 1, d, decls, nested),
        }
    }
}

/// One declaration inside a block: see `sp_block_items`.
pub open spec fn sp_declaration(
    bts: Seq<LexedModel>,
    q: int,
    d: int,
    decls: Seq<DeclarationModel>,
    nested: Seq<RuleModel>,
    prop: Seq<char>,
) -> Result<(Seq<DeclarationModel>, Seq<RuleModel>), ErrModel>
    decreases d, rem(bts, q), 0int,
        when 0 <= q < bts.len() && 0 < d
{
    if q + 1 < bts.len() && bts[q + 1].tok == Some(TokenModel::Delim(':')) {
        match sp_pdv(bts, q + 2, d - 1, Seq::empty()) {
            Ok((vals, u)) => {
                let r = q + 2 + u;
                if r < bts.len() && bts[r].tok == Some(TokenModel::Delim(';')) {
                    sp_block_items(
                        bts,
                        r + 1,
                        d,
                        decls.push(DeclarationModel { property: prop, value: vals }),
                        nested,
                    )
                } else {
                    Err(err_at(bts, r, ErrorKind::UnexpectedToken))
                }
            },
            Err(e) => Err(e),
        }
    } else {
        Err(err_at(bts, q + 1, ErrorKind::UnexpectedToken))
    }
}

/// One nested rule set inside a block: see `sp_block_items`.
pub open spec fn sp_nested_rule(
    bts: Seq<LexedModel>,
    q: int,
    d: int,
    decls: Seq<DeclarationModel>,
    nested: Seq<RuleModel>,
) -> Result<(Seq<DeclarationModel>, Seq<RuleModel>), ErrModel>
    decreases d, rem(bts, q), 0int,
        when 0 <= q < bts.len() && 0 < d
{
    match sp_rule_set(bts, q, d - 1) {
        Ok((rsm, u)) => sp_block_items(
            bts,
            q + u + 1,
            d,
            decls,
            nested.push(RuleModel::RuleSet(rsm)),
        ),
        Err(e) => Err(e),
    }
}

/// The declaration-value production: converts tokens to values until a `;`,
/// the end of the buffer, or a token it does not recognize, none of which
/// it consumes. Commas are consumed and discarded; `/` becomes the literal
/// identifier `"/"`; a function token hands off to its sub-grammar.
pub open spec fn sp_pdv(
    ts: Seq<LexedModel>,
    p: int,
    d: int,
    acc: Seq<ValueModel>,
) -> Result<(Seq<ValueModel>, nat), ErrModel>
    decreases d, rem(ts, p), 0int,
{
    if d <= 0 {
        Err(err_at(ts, p, ErrorKind::RecursionLimit))
    } else if p < 0 || p >= ts.len() {
        Ok((acc, 0))
    } else {
        match ts[p].tok {
            Some(t) => match t {
                TokenModel::Delim(c) => {
                    if c == ';' {
                        Ok((acc, 0))
                    } else if c == ',' {
                        plus_used(sp_pdv(ts, p + 1, d, acc), 1)
                    } else if c == '/' {
                        plus_used(
                            sp_pdv(ts, p + 1, d, acc.push(ValueModel::Identifier("/"@))),
                            1,
                        )
                    } else {
                        Ok((acc, 0))
                    }
                },
                TokenModel::Hash(v) => plus_used(
                    sp_pdv(
                        ts,
                        p + 1,
                        d,
                        acc.push(ValueModel::Color(ColorValueModel::Hex(v))),
                    ),
                    1,
                ),
                TokenModel::Ident(v) => plus_used(
                    sp_pdv(ts, p + 1, d, acc.push(ValueModel::Identifier(v))),
                    1,
                ),
                TokenModel::Number(txt) => match spec_num(txt) {
                    Some(n) => plus_used(
                        sp_pdv(ts, p + 1, d, acc.push(ValueModel::Number(n))),
                        1,
                    ),
                    None => Err(err_at(ts, p, ErrorKind::NumberFormat)),
                },
                TokenModel::Dimension(txt) => {
                    let k = first_alpha_from(txt, 0);
                    match spec_num(txt.subrange(0, k)) {
                        Some(n) => plus_used(
                            sp_pdv(
                                ts,
                                p + 1,
                                d,
                                acc.push(
                                    ValueModel::Dimension {
                                        value: n,
                                        unit: txt.subrange(k, txt.len() as int),
                                    },
                                ),
                            ),
                            1,
                        ),
                        None => Err(err_at(ts, p, ErrorKind::NumberFormat)),
                    }
                },
                TokenModel::Percentage(txt) => match spec_num(strip_pct(txt)) {
                    Some(n) => plus_used(
                        sp_pdv(ts, p + 1, d, acc.push(ValueModel::Percentage(n))),
                        1,
                    ),
                    None => Err(err_at(ts, p, ErrorKind::NumberFormat)),
                },
                TokenModel::Function(name) => match sp_function(ts, p + 1, d - 1, name) {
                    Ok((v, u)) => plus_used(sp_pdv(ts, p + 1 + u, d, acc.push(v)), (u + 1) as nat),
                    Err(e) => Err(e),
                },
                TokenModel::QuotedString(v) => plus_used(
                    sp_pdv(ts, p + 1, d, acc.push(ValueModel::String(v))),
                    1,
                ),
                TokenModel::CustomProperty(v) => plus_used(
                    sp_pdv(ts, p + 1, d, acc.push(ValueModel::Var(v))),
                    1,
                ),
                TokenModel::Important => plus_used(
                    sp_pdv(ts, p + 1, d, acc.push(ValueModel::Identifier("!important"@))),
                    1,
                ),
                TokenModel::UnquotedUrl(v) => plus_used(
                    sp_pdv(ts, p + 1, d, acc.push(ValueModel::Uri(v))),
                    1,
                ),
                _ => Ok((acc, 0)),
            },
            None => Ok((acc, 0)),
        }
    }
}

/// The argument loop shared by `rgb`, `rgba` and `rect`: number texts
/// separated by commas, closed by `)` or a parenthesis block (consumed).
/// Any other token is a fatal `UnexpectedToken`; exhausting the input
/// inside the call is `UnterminatedConstruct`.
pub open spec fn sp_num_args(ts: Seq<LexedModel>, p: int, texts: Seq<Seq<char>>) -> Result<
    (Seq<Seq<char>>, nat),
    ErrModel,
>
    decreases rem(ts, p),
{
    if p < 0 || p >= ts.len() {
        Err(err_at(ts, p, ErrorKind::UnterminatedConstruct))
    } else {
        match ts[p].tok {
            Some(t) => match t {
                TokenModel::Number(txt) => plus_used(sp_num_args(ts, p + 1, texts.push(txt)), 1),
                TokenModel::Delim(c) => {
                    if c == ',' {
                        plus_used(sp_num_args(ts, p + 1, texts), 1)
                    } else if c == ')' {
                        Ok((texts, 1))
                    } else {
                        Err(err_at(ts, p, ErrorKind::UnexpectedToken))
                    }
                },
                TokenModel::ParenthesisBlock(_) => Ok((texts, 1)),
                _ => Err(err_at(ts, p, ErrorKind::UnexpectedToken)),
            },
            None => Err(err_at(ts, p, ErrorKind::UnexpectedToken)),
        }
    }
}

/// The zero-valued decimal.
pub open spec fn num_zero() -> Num {
    Num { neg: false, mantissa: 0, scale: 0 }
}

/// The `calc()` term loop: numbers and dimensions become numeric terms, a
/// bare `%` a zero-valued percent placeholder term, `+ - * /` operator
/// terms, until the close marker.
pub open spec fn sp_calc_terms(ts: Seq<LexedModel>, p: int, terms: Seq<CalcTermModel>) -> Result<
    (Seq<CalcTermModel>, nat),
    ErrModel,
>
    decreases rem(ts, p),
{
    if p < 0 || p >= ts.len() {
        Err(err_at(ts, p, ErrorKind::UnterminatedConstruct))
    } else {
        match ts[p].tok {
            Some(t) => match t {
                TokenModel::Number(txt) => match spec_num(txt) {
                    Some(n) => plus_used(
                        sp_calc_terms(ts, p + 1, terms.push(CalcTermModel::Number(n, None))),
                        1,
                    ),
                    None => Err(err_at(ts, p, ErrorKind::NumberFormat)),
                },
                TokenModel::Dimension(txt) => {
                    let k = first_alpha_from(txt, 0);
                    match spec_num(txt.subrange(0, k)) {
                        Some(n) => plus_used(
                            sp_calc_terms(
                                ts,
                                p + 1,
                                terms.push(
                                    CalcTermModel::Number(
                                        n,
                                        Some(txt.subrange(k, txt.len() as int)),
                                    ),
                                ),
                            ),
                            1,
                        ),
                        None => Err(err_at(ts, p, ErrorKind::NumberFormat)),
                    }
                },
                TokenModel::Delim(c) => {
                    if c == '%' {
                        plus_used(
                            sp_calc_terms(
                                ts,
                                p + 1,
                                terms.push(CalcTermModel::Number(num_zero(), Some("%"@))),
                            ),
                            1,
                        )
                    } else if c == '+' {
                        plus_used(
                            sp_calc_terms(
                                ts,
                                p + 1,
                                terms.push(CalcTermModel::Operator(CalcOperator::Add)),
                            ),
                            1,
                        )
                    } else if c == '-' {
                        plus_used(
                            sp_calc_terms(
                                ts,
                                p + 1,
                                terms.push(CalcTermModel::Operator(CalcOperator::Subtract)),
                            ),
                            1,
                        )
                    } else if c == '*' {
                        plus_used(
                            sp_calc_terms(
                                ts,
                                p + 1,
                                terms.push(CalcTermModel::Operator(CalcOperator::Multiply)),
                            ),
                            1,
                        )
                    } else if c == '/' {
                        plus_used(
                            sp_calc_terms(
                                ts,
                                p + 1,
                                terms.push(CalcTermModel::Operator(CalcOperator::Divide)),
                            ),
                            1,
                        )
                    } else if c == ')' {
                        Ok((terms, 1))
                    } else {
                        Err(err_at(ts, p, ErrorKind::UnexpectedToken))
                    }
                },
                TokenModel::ParenthesisBlock(_) => Ok((terms, 1)),
                _ => Err(err_at(ts, p, ErrorKind::UnexpectedToken)),
            },
            None => Err(err_at(ts, p, ErrorKind::UnexpectedToken)),
        }
    }
}

/// The `url()` content loop: url and string token texts concatenate until
/// the close marker.
pub open spec fn sp_url_text(ts: Seq<LexedModel>, p: int, text: Seq<char>) -> Result<
    (Seq<char>, nat),
    ErrModel,
>
    decreases rem(ts, p),
{
    if p < 0 || p >= ts.len() {
        Err(err_at(ts, p, ErrorKind::UnterminatedConstruct))
    } else {
        match ts[p].tok {
            Some(t) => match t {
                TokenModel::UnquotedUrl(v) => plus_used(sp_url_text(ts, p + 1, text + v), 1),
                TokenModel::QuotedString(v) => plus_used(sp_url_text(ts, p + 1, text + v), 1),
                TokenModel::Delim(c) => {
                    if c == ')' {
                        Ok((text, 1))
                    } else {
                        Err(err_at(ts, p, ErrorKind::UnexpectedToken))
                    }
                },
                TokenModel::ParenthesisBlock(_) => Ok((text, 1)),
                _ => Err(err_at(ts, p, ErrorKind::UnexpectedToken)),
            },
            None => Err(err_at(ts, p, ErrorKind::UnexpectedToken)),
        }
    }
}

/// The argument list of a function with no specific sub-grammar: the value
/// conversions of `sp_pdv`, nested function calls included, until the close
/// marker (consumed). Unlike `sp_pdv`, a token with no conversion is fatal
/// here, and exhausting the input is `UnterminatedConstruct`.
pub open spec fn sp_fn_args(
    ts: Seq<LexedModel>,
    p: int,
    d: int,
    acc: Seq<ValueModel>,
) -> Result<(Seq<ValueModel>, nat), ErrModel>
    decreases d, rem(ts, p), 0int,
{
    if d <= 0 {
        Err(err_at(ts, p, ErrorKind::RecursionLimit))
    } else if p < 0 || p >= ts.len() {
        Err(err_at(ts, p, ErrorKind::UnterminatedConstruct))
    } else {
        match ts[p].tok {
            Some(t) => match t {
                TokenModel::ParenthesisBlock(_) => Ok((acc, 1)),
                TokenModel::Delim(c) => {
                    if c == ')' {
                        Ok((acc, 1))
                    } else if c == ',' {
                        plus_used(sp_fn_args(ts, p + 1, d, acc), 1)
                    } else if c == '/' {
                        plus_used(
                            sp_fn_args(ts, p + 1, d, acc.push(ValueModel::Identifier("/"@))),
                            1,
                        )
                    } else {
                        Err(err_at(ts, p, ErrorKind::UnexpectedToken))
                    }
                },
                TokenModel::Hash(v) => plus_used(
                    sp_fn_args(
                        ts,
                        p + 1,
                        d,
                        acc.push(ValueModel::Color(ColorValueModel::Hex(v))),
                    ),
                    1,
                ),
                TokenModel::Ident(v) => plus_used(
                    sp_fn_args(ts, p + 1, d, acc.push(ValueModel::Identifier(v))),
                    1,
                ),
                TokenModel::Number(txt) => match spec_num(txt) {
                    Some(n) => plus_used(
                        sp_fn_args(ts, p + 1, d, acc.push(ValueModel::Number(n))),
                        1,
                    ),
                    None => Err(err_at(ts, p, ErrorKind::NumberFormat)),
                },
                TokenModel::Dimension(txt) => {
                    let k = first_alpha_from(txt, 0);
                    match spec_num(txt.subrange(0, k)) {
                        Some(n) => plus_used(
                            sp_fn_args(
                                ts,
                                p + 1,
                                d,
                                acc.push(
                                    ValueModel::Dimension {
                                        value: n,
                                        unit: txt.subrange(k, txt.len() as int),
                                    },
                                ),
                            ),
                            1,
                        ),
                        None => Err(err_at(ts, p, ErrorKind::NumberFormat)),
                    }
                },
                TokenModel::Percentage(txt) => match spec_num(strip_pct(txt)) {
                    Some(n) => plus_used(
                        sp_fn_args(ts, p + 1, d, acc.push(ValueModel::Percentage(n))),
                        1,
                    ),
                    None => Err(err_at(ts, p, ErrorKind::NumberFormat)),
                },
                TokenModel::QuotedString(v) => plus_used(
                    sp_fn_args(ts, p + 1, d, acc.push(ValueModel::String(v))),
                    1,
                ),
                TokenModel::CustomProperty(v) => plus_used(
                    sp_fn_args(ts, p + 1, d, acc.push(ValueModel::Var(v))),
                    1,
                ),
                TokenModel::Important => plus_used(
                    sp_fn_args(ts, p + 1, d, acc.push(ValueModel::Identifier("!important"@))),
                    1,
                ),
                TokenModel::UnquotedUrl(v) => plus_used(
                    sp_fn_args(ts, p + 1, d, acc.push(ValueModel::Uri(v))),
                    1,
                ),
                TokenModel::Function(n2) => match sp_function(ts, p + 1, d - 1, n2) {
                    Ok((v, u)) => plus_used(
                        sp_fn_args(ts, p + 1 + u, d, acc.push(v)),
                        (u + 1) as nat,
                    ),
                    Err(e) => Err(e),
                },
                _ => Err(err_at(ts, p, ErrorKind::UnexpectedToken)),
            },
            None => Err(err_at(ts, p, ErrorKind::UnexpectedToken)),
        }
    }
}

/// The function-value production, entered just past the `Function` token:
/// `rgb`/`rgba` take exactly three or four channel numbers — any other
/// count is `InvalidArity` — with an `rgba` alpha parsed as an exact
/// decimal; `calc`, `url` and `rect` have their own loops; any other name
/// collects a generic argument list.
pub open spec fn sp_function(ts: Seq<LexedModel>, p: int, d: int, name: Seq<char>) -> Result<
    (ValueModel, nat),
    ErrModel,
>
    decreases d, rem(ts, p), 1int,
{
    if d <= 0 {
        Err(err_at(ts, p, ErrorKind::RecursionLimit))
    } else if name == "rgb"@ || name == "rgba"@ {
        match sp_num_args(ts, p, Seq::empty()) {
            Ok((texts, u)) => {
                if texts.len() < 3 || texts.len() > 4 {
                    Err(err_at(ts, p + u, ErrorKind::InvalidArity))
                } else {
                    match (spec_u8(texts[0]), spec_u8(texts[1]), spec_u8(texts[2])) {
                        (Some(r), Some(g), Some(b)) => {
                            if texts.len() == 4 {
                                match spec_num(texts[3]) {
                                    Some(a) => Ok(
                                        (
                                            ValueModel::Color(
                                                ColorValueModel::Rgba { r, g, b, a },
                                            ),
                                            u,
                                        ),
                                    ),
                                    None => Err(err_at(ts, p + u, ErrorKind::NumberFormat)),
                                }
                            } else {
                                Ok((ValueModel::Color(ColorValueModel::Rgb { r, g, b }), u))
                            }
                        },
                        _ => Err(err_at(ts, p + u, ErrorKind::NumberFormat)),
                    }
                }
            },
            Err(e) => Err(e),
        }
    } else if name == "calc"@ {
        match sp_calc_terms(ts, p, Seq::empty()) {
            Ok((terms, u)) => Ok((ValueModel::Calc(CalcExpressionModel { terms }), u)),
            Err(e) => Err(e),
        }
    } else if name == "url"@ {
        match sp_url_text(ts, p, Seq::empty()) {
            Ok((text, u)) => Ok((ValueModel::Uri(text), u)),
            Err(e) => Err(e),
        }
    } else if name == "rect"@ {
        match sp_num_args(ts, p, Seq::empty()) {
            Ok((texts, u)) => {
                if texts.len() != 4 {
                    Err(err_at(ts, p + u, ErrorKind::InvalidArity))
                } else {
                    match (
                        spec_num(texts[0]),
                        spec_num(texts[1]),
                        spec_num(texts[2]),
                        spec_num(texts[3]),
                    ) {
                        (Some(n0), Some(n1), Some(n2), Some(n3)) => Ok(
                            (
                                ValueModel::Function(
                                    FunctionValueModel {
                                        name: "rect"@,
                                        arguments: seq![
                                            ValueModel::Number(n0),
                                            ValueModel::Number(n1),
                                            ValueModel::Number(n2),
                                            ValueModel::Number(n3),
                                        ],
                                    },
                                ),
                                u,
                            ),
                        ),
                        _ => Err(err_at(ts, p + u, ErrorKind::NumberFormat)),
                    }
                }
            },
            Err(e) => Err(e),
        }
    } else {
        match sp_fn_args(ts, p, d, Seq::empty()) {
            Ok((args, u)) => Ok(
                (ValueModel::Function(FunctionValueModel { name, arguments: args }), u),
            ),
            Err(e) => Err(e),
        }
    }
}

/// The at-rule production, entered just past the `AtKeyword` token: prelude
/// tokens — identifiers, numbers, dimensions and bracket blocks, as raw
/// text — are collected until a `{...}` block, whose content is re-lexed
/// and parsed as a stylesheet of rule sets and nested at-rules. Exhausting
/// the input before any block is `UnterminatedConstruct`: a block-less
/// at-rule is rejected. Returns the tokens consumed before the block.
pub open spec fn sp_at_rule(ts: Seq<LexedModel>, p: int, d: int, name: Seq<char>) -> Result<
    (AtRuleModel, nat),
    ErrModel,
>
    decreases d, rem(ts, p), 2int,
{
    match sp_at_prelude(ts, p, d, Seq::empty()) {
        Ok(((pre, sheet), u)) => Ok(
            (AtRuleModel { name, prelude: pre, block: Some(sheet) }, u),
        ),
        Err(e) => Err(e),
    }
}

/// The prelude loop of an at-rule: see `sp_at_rule`.
pub open spec fn sp_at_prelude(
    ts: Seq<LexedModel>,
    p: int,
    d: int,
    pre: Seq<Seq<char>>,
) -> Result<((Seq<Seq<char>>, StylesheetModel), nat), ErrModel>
    decreases d, rem(ts, p), 1int,
{
    if d <= 0 {
        Err(err_at(ts, p, ErrorKind::RecursionLimit))
    } else if p < 0 || p >= ts.len() {
        Err(err_at(ts, p, ErrorKind::UnterminatedConstruct))
    } else {
        match ts[p].tok {
            Some(t) => match t {
                TokenModel::CurlyBracketBlock(b) => {
                    let bts = shift_stream(
                        spec_tokens(inner_content(b)),
                        content_offset(ts[p].lo, b),
                    );
                    match sp_at_block(bts, 0, d - 1, Seq::empty()) {
                        Ok(rules) => Ok(((pre, StylesheetModel { rules }), 0)),
                        Err(e) => Err(e),
                    }
                },
                TokenModel::Ident(v) => plus_used(sp_at_prelude(ts, p + 1, d, pre.push(v)), 1),
                TokenModel::Number(v) => plus_used(sp_at_prelude(ts, p + 1, d, pre.push(v)), 1),
                TokenModel::Dimension(v) => plus_used(sp_at_prelude(ts, p + 1, d, pre.push(v)), 1),
                TokenModel::ParenthesisBlock(v) => plus_used(
                    sp_at_prelude(ts, p + 1, d, pre.push(v)),
                    1,
                ),
                TokenModel::SquareBracketBlock(v) => plus_used(
                    sp_at_prelude(ts, p + 1, d, pre.push(v)),
                    1,
                ),
                _ => plus_used(sp_at_prelude(ts, p + 1, d, pre), 1),
            },
            None => plus_used(sp_at_prelude(ts, p + 1, d, pre), 1),
        }
    }
}

/// The body of an at-rule's block, running to the end of its buffer:
/// identifier, class and hash tokens open rule sets, at-keywords open
/// nested at-rules, everything else is skipped.
pub open spec fn sp_at_block(
    bts: Seq<LexedModel>,
    q: int,
    d: int,
    rules: Seq<RuleModel>,
) -> Result<Seq<RuleModel>, ErrModel>
    decreases d, rem(bts, q), 1int,
{
    if q < 0 || q >= bts.len() {
        Ok(rules)
    } else if d <= 0 {
        Err(err_at(bts, q, ErrorKind::RecursionLimit))
    } else {
        match bts[q].tok {
            Some(t) => match t {
                TokenModel::Ident(_) => sp_at_block_rule(bts, q, d, rules),
                TokenModel::ClassSelector(_) => sp_at_block_rule(bts, q, d, rules),
                TokenModel::Hash(_) => sp_at_block_rule(bts, q, d, rules),
                TokenModel::AtKeyword(n2) => match sp_at_rule(bts, q + 1, d - 1, n2) {
                    Ok((am, u)) => sp_at_block(
                        bts,
                        q + 1 + u + 1,
                        d,
                        rules.push(RuleModel::AtRule(am)),
                    ),
                    Err(e) => Err(e),
                },
                _ => sp_at_block(bts, q + 1, d, rules),
            },
            None => sp_at_block(bts, q + 1, d, rules),
        }
    }
}

/// One rule set inside an at-rule's block: see `sp_at_block`.
pub open spec fn sp_at_block_rule(
    bts: Seq<LexedModel>,
    q: int,
    d: int,
    rules: Seq<RuleModel>,
) -> Result<Seq<RuleModel>, ErrModel>
    decreases d, rem(bts, q), 0int,
        when 0 <= q < bts.len() && 0 < d
{
    match sp_rule_set(bts, q, d - 1) {
        Ok((rsm, u)) => sp_at_block(bts, q + u + 1, d, rules.push(RuleModel::RuleSet(rsm))),
        Err(e) => Err(e),
    }
}

/// The top-level production: at-keywords open at-rules, selector-starting
/// tokens open rule sets, and any other token is skipped — top-level
/// scanning is lenient, unlike the strict nested grammars; errors from the
/// productions it enters still propagate.
pub open spec fn sp_stylesheet(
    ts: Seq<LexedModel>,
    p: int,
    d: int,
    rules: Seq<RuleModel>,
) -> Result<Seq<RuleModel>, ErrModel>
    decreases d, rem(ts, p), 1int,
{
    if d <= 0 {
        Err(err_at(ts, p, ErrorKind::RecursionLimit))
    } else if p < 0 || p >= ts.len() {
        Ok(rules)
    } else {
        match ts[p].tok {
            Some(t) => match t {
                TokenModel::AtKeyword(n) => match sp_at_rule(ts, p + 1, d - 1, n) {
                    Ok((am, u)) => sp_stylesheet(
                        ts,
                        p + 1 + u + 1,
                        d,
                        rules.push(RuleModel::AtRule(am)),
                    ),
                    Err(e) => Err(e),
                },
                TokenModel::Ident(_) => sp_top_rule(ts, p, d, rules),
                TokenModel::ClassSelector(_) => sp_top_rule(ts, p, d, rules),
                TokenModel::Hash(_) => sp_top_rule(ts, p, d, rules),
                TokenModel::PseudoClassSelector(_) => sp_top_rule(ts, p, d, rules),
                TokenModel::SquareBracketBlock(_) => sp_top_rule(ts, p, d, rules),
                TokenModel::Delim(c) => {
                    if c == '*' {
                        sp_top_rule(ts, p, d, rules)
                    } else {
                        sp_stylesheet(ts, p + 1, d, rules)
                    }
                },
                _ => sp_stylesheet(ts, p + 1, d, rules),
            },
            None => sp_stylesheet(ts, p + 1, d, rules),
        }
    }
}

/// One top-level rule set: see `sp_stylesheet`.
pub open spec fn sp_top_rule(
    ts: Seq<LexedModel>,
    p: int,
    d: int,
    rules: Seq<RuleModel>,
) -> Result<Seq<RuleModel>, ErrModel>
    decreases d, rem(ts, p), 0int,
        when 0 <= p < ts.len() && 0 < d
{
    match sp_rule_set(ts, p, d - 1) {
        Ok((rsm, u)) => sp_stylesheet(ts, p + u + 1, d, rules.push(RuleModel::RuleSet(rsm))),
        Err(e) => Err(e),
    }
}

/// The whole pipeline on a source buffer: tokenize, then parse the stream
/// as a stylesheet with the full depth budget.
pub open spec fn sp_parse(source: Seq<char>) -> Result<StylesheetModel, ErrModel> {
    match sp_stylesheet(spec_tokens(source), 0, PARSE_DEPTH as int, Seq::empty()) {
        Ok(rules) => Ok(StylesheetModel { rules }),
        Err(e) => Err(e),
    }
}

} // verus!
