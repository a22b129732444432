//! The recursive-descent parser: a cursor over a lexed token stream, each
//! production proved to return exactly what the model in `parse_model`
//! prescribes — the same tree on success and the same kind and span on
//! failure.

use vstd::prelude::*;
use crate::ast::{
    AtRule, CalcExpression, CalcOperator, CalcTerm, ColorValue, Declaration, ErrorKind,
    FunctionValue, ParseError, Rule, RuleSet, Selector, SimpleSelector, Span, Stylesheet, Value,
};
use crate::lexer::{bytelen, lemma_tokens_coherent, spec_tokens, tokenize_all};
use crate::model::{
    lemma_sv_calc_term_seq_push, lemma_sv_declaration_seq_push, lemma_sv_rules_push,
    lemma_sv_selector_seq_last, lemma_sv_selector_seq_len, lemma_sv_selector_seq_push,
    lemma_sv_selector_seq_update, lemma_sv_strings_push, lemma_sv_values_push, sv_declaration,
    sv_declaration_seq, sv_err, sv_rule, sv_rules, sv_selector, sv_selector_seq, sv_strings,
    sv_stylesheet, sv_value, sv_values, ErrModel, SelectorModel,
};
use crate::parse_model::{
    append_class, combinator_next_text, err_at, plus_used, simple_id, simple_tag, sp_selectors,
    splice_last, PARSE_DEPTH,
};
use crate::token::{shift_lexed, shift_stream, Lexed, LexedModel, Token, TokenModel};

verus! {

/// Composing two consumed-token offsets adds them.
pub proof fn lemma_plus_plus<T>(r: Result<(T, nat), ErrModel>, a: nat, b: nat)
    ensures
        plus_used(plus_used(r, a), b) == plus_used(r, (a + b) as nat),
{
}

/// A cursor over the token stream of one buffer. A rule's `{...}` block is
/// parsed by lexing its trimmed content into a fresh `Parser` whose token
/// spans are shifted by the content's position in the original source, so
/// nested buffers share no state with their parent and every error span
/// locates the failure in the original buffer.
pub struct Parser {
    toks: Vec<Lexed>,
    pos: usize,
    src: Ghost<Seq<char>>,
    off: Ghost<int>,
}

impl Parser {
    /// The lexed steps this parser reads.
    pub closed spec fn stream(&self) -> Seq<LexedModel> {
        crate::token::lexed_views(self.toks@)
    }

    /// The cursor: which step is current.
    pub closed spec fn at(&self) -> int {
        self.pos as int
    }

    /// The buffer this parser's tokens were lexed from.
    pub closed spec fn src_view(&self) -> Seq<char> {
        self.src@
    }

    /// Where that buffer lies in the original source.
    pub closed spec fn offset(&self) -> int {
        self.off@
    }

    /// The cursor stays within the stream, and the stream is the buffer's
    /// token stream with every span moved to original-source positions.
    pub open spec fn wf(&self) -> bool {
        &&& 0 <= self.at() <= self.stream().len()
        &&& self.stream() == shift_stream(spec_tokens(self.src_view()), self.offset())
        &&& 0 <= self.offset()
        &&& self.offset() + bytelen(self.src_view()) <= usize::MAX
    }

    /// A parser over the token stream of `source`.
    pub fn new(source: &str) -> (p: Parser)
        ensures
            p.wf(),
            p.at() == 0,
            p.stream() == spec_tokens(source@),
            p.src_view() == source@,
            p.offset() == 0,
    {
        let n = source.as_bytes().len();
        let p = Parser::new_at(source, 0);
        proof {
            assert forall|k: int| 0 <= k < spec_tokens(source@).len() implies #[trigger] shift_stream(
                spec_tokens(source@),
                0,
            )[k] == spec_tokens(source@)[k] by {
                let l = spec_tokens(source@)[k];
                assert(shift_lexed(l, 0) == l);
            }
            assert(shift_stream(spec_tokens(source@), 0) =~= spec_tokens(source@));
        }
        p
    }

    /// A parser over the token stream of `source`, with every span moved by
    /// `off`: how a block's re-lexed content keeps original-source spans.
    #[verifier::loop_isolation(false)]
    fn new_at(source: &str, off: usize) -> (p: Parser)
        requires
            off + bytelen(source@) <= usize::MAX,
        ensures
            p.wf(),
            p.at() == 0,
            p.src_view() == source@,
            p.offset() == off as int,
            p.stream() == shift_stream(spec_tokens(source@), off as int),
    {
        let toks = tokenize_all(source);
        proof {
            lemma_tokens_coherent(source@, 0);
        }
        let mut out: Vec<Lexed> = Vec::new();
        let n = toks.len();
        let mut i: usize = 0;
        while i < n
            invariant
                0 <= i <= n,
                out@.len() == i,
                forall|k: int|
                    0 <= k < i ==> #[trigger] out@[k]@ == shift_lexed(
                        toks@[k]@,
                        off as int,
                    ),
            decreases n - i,
        {
            let l = &toks[i];
            let t2: Result<Token, ()> = match &l.token {
                Ok(t) => Ok(t.clone()),
                Err(_) => Err(()),
            };
            proof {
                assert(crate::token::lexed_views(toks@)[i as int] == toks@[i as int]@);
            }
            let s2 = l.slice.clone();
            let sp = l.span;
            let shifted = Lexed {
                token: t2,
                slice: s2,
                span: Span { lo: sp.lo + off, hi: sp.hi + off },
            };
            proof {
                assert(shifted@ == shift_lexed(toks@[i as int]@, off as int));
            }
            out.push(shifted);
            i = i + 1;
        }
        proof {
            assert forall|k: int| 0 <= k < n implies #[trigger] crate::token::lexed_views(
                out@,
            )[k] == shift_stream(spec_tokens(source@), off as int)[k] by {
                assert(out@[k]@ == shift_lexed(toks@[k]@, off as int));
            }
            assert(crate::token::lexed_views(out@) =~= shift_stream(
                spec_tokens(source@),
                off as int,
            ));
        }
        Parser { toks: out, pos: 0, src: Ghost(source@), off: Ghost(off as int) }
    }

    /// Steps past the current token.
    fn advance(&mut self)
        requires
            old(self).wf(),
            old(self).at() < old(self).stream().len(),
        ensures
            final(self).wf(),
            final(self).stream() == old(self).stream(),
            final(self).src_view() == old(self).src_view(),
            final(self).offset() == old(self).offset(),
            final(self).src_view() == old(self).src_view(),
            final(self).offset() == old(self).offset(),
            final(self).at() == old(self).at() + 1,
    {
        proof {
            assert(self.toks@.len() == self.stream().len());
        }
        let n = self.toks.len();
        if self.pos < n {
            self.pos = self.pos + 1;
        }
    }

    /// The current token's span.
    fn cur_span(&self) -> (sp: Span)
        requires
            self.wf(),
            self.at() < self.stream().len(),
        ensures
            sp.lo as int == self.stream()[self.at()].lo,
            sp.hi as int == self.stream()[self.at()].hi,
    {
        proof {
            assert(self.toks@.len() == self.stream().len());
            assert(self.stream()[self.pos as int] == self.toks@[self.pos as int]@);
        }
        self.toks[self.pos].span
    }

    /// An owned copy of the current token: `None` at the end of the stream,
    /// `Some(Err(()))` on a lex-error step.
    fn cur_token(&self) -> (r: Option<Result<Token, ()>>)
        requires
            self.wf(),
        ensures
            match r {
                None => self.at() >= self.stream().len(),
                Some(Ok(t)) => self.at() < self.stream().len() && self.stream()[self.at()].tok
                    == Some(t@),
                Some(Err(())) => self.at() < self.stream().len() && self.stream()[self.at()].tok
                    is None,
            },
    {
        proof {
            assert(self.toks@.len() == self.stream().len());
            if (self.pos as int) < self.toks@.len() {
                assert(self.stream()[self.pos as int] == self.toks@[self.pos as int]@);
            }
        }
        if self.pos >= self.toks.len() {
            None
        } else {
            match &self.toks[self.pos].token {
                Ok(t) => Some(Ok(t.clone())),
                Err(_) => Some(Err(())),
            }
        }
    }

    /// The error value for the current position: the current token's span,
    /// the last token's once the stream is exhausted, or an empty span.
    fn err(&self, kind: ErrorKind) -> (r: ParseError)
        requires
            self.wf(),
        ensures
            sv_err(r) == err_at(self.stream(), self.at(), kind),
            r.kind == kind,
    {
        proof {
            assert(self.toks@.len() == self.stream().len());
            if (self.pos as int) < self.toks@.len() {
                assert(self.stream()[self.pos as int] == self.toks@[self.pos as int]@);
            }
            if self.toks@.len() > 0 {
                assert(self.stream()[self.toks@.len() - 1] == self.toks@[self.toks@.len() - 1]@);
            }
        }
        if self.pos < self.toks.len() {
            ParseError { kind, span: self.toks[self.pos].span }
        } else if self.toks.len() > 0 {
            ParseError { kind, span: self.toks[self.toks.len() - 1].span }
        } else {
            ParseError { kind, span: Span { lo: 0, hi: 0 } }
        }
    }

    /// The selector-group production: accumulates simple selectors until a
    /// block or a token that cannot continue a selector, exactly as
    /// `sp_selectors` describes.
    #[verifier::loop_isolation(false)]
    #[verifier::rlimit(60)]
    fn parse_selectors(&mut self) -> (r: Vec<Selector>)
        requires
            old(self).wf(),
        ensures
            final(self).wf(),
            final(self).stream() == old(self).stream(),
            final(self).src_view() == old(self).src_view(),
            final(self).offset() == old(self).offset(),
            old(self).at() <= final(self).at(),
            sp_selectors(old(self).stream(), old(self).at(), Seq::empty(), true) == (
                sv_selector_seq(r@),
                (final(self).at() - old(self).at()) as nat,
            ),
    {
        let ghost ts = self.stream();
        let ghost p0 = self.at();
        let mut sels: Vec<Selector> = Vec::new();
        let mut has_sep: bool = true;
        proof {
            assert(sv_selector_seq(sels@) =~= Seq::<SelectorModel>::empty());
        }
        loop
            invariant
                self.wf(),
                self.stream() == ts,
                self.src_view() == old(self).src_view(),
                self.offset() == old(self).offset(),
                p0 <= self.at(),
                sp_selectors(ts, p0, Seq::empty(), true).0 == sp_selectors(
                    ts,
                    self.at(),
                    sv_selector_seq(sels@),
                    has_sep,
                ).0,
                sp_selectors(ts, p0, Seq::empty(), true).1 == sp_selectors(
                    ts,
                    self.at(),
                    sv_selector_seq(sels@),
                    has_sep,
                ).1 + (self.at() - p0),
            decreases ts.len() - self.at(),
        {
            let ghost q = self.at();
            let ghost accv = sv_selector_seq(sels@);
            match self.cur_token() {
                None => {
                    return sels;
                },
                Some(Err(())) => {
                    return sels;
                },
                Some(Ok(tok)) => {
                    match tok {
                        Token::CurlyBracketBlock(_) => {
                            return sels;
                        },
                        Token::Hash(id) => {
                            proof {
                                assert(sp_selectors(ts, q, accv, has_sep).0 == sp_selectors(
                                    ts, q + 1, accv.push(simple_id(id@)), false).0);
                                assert(sp_selectors(ts, q, accv, has_sep).1 == sp_selectors(
                                    ts, q + 1, accv.push(simple_id(id@)), false).1 + 1);
                            }
                            let s = self.mk_id_selector(id);
                            proof {
                                lemma_sv_selector_seq_push(sels@, s);
                            }
                            sels.push(s);
                            has_sep = false;
                            self.advance();
                        },
                        Token::PseudoClassSelector(x) => {
                            proof {
                                assert(sp_selectors(ts, q, accv, has_sep)
                                    == crate::parse_model::sel_fragment(ts, q, accv, has_sep, x@));
                                assert(crate::parse_model::sel_fragment(ts, q, accv, has_sep, x@).0
                                    == sp_selectors(ts, q + 1, (if has_sep { accv.push(simple_tag(x@)) } else { append_class(accv, x@) }), has_sep).0);
                                assert(crate::parse_model::sel_fragment(ts, q, accv, has_sep, x@).1
                                    == sp_selectors(ts, q + 1, (if has_sep { accv.push(simple_tag(x@)) } else { append_class(accv, x@) }), has_sep).1 + 1);
                            }
                            self.fragment_step(&mut sels, has_sep, x);
                        },
                        Token::SquareBracketBlock(x) => {
                            proof {
                                assert(sp_selectors(ts, q, accv, has_sep)
                                    == crate::parse_model::sel_fragment(ts, q, accv, has_sep, x@));
                                assert(crate::parse_model::sel_fragment(ts, q, accv, has_sep, x@).0
                                    == sp_selectors(ts, q + 1, (if has_sep { accv.push(simple_tag(x@)) } else { append_class(accv, x@) }), has_sep).0);
                                assert(crate::parse_model::sel_fragment(ts, q, accv, has_sep, x@).1
                                    == sp_selectors(ts, q + 1, (if has_sep { accv.push(simple_tag(x@)) } else { append_class(accv, x@) }), has_sep).1 + 1);
                            }
                            self.fragment_step(&mut sels, has_sep, x);
                        },
                        Token::ParenthesisBlock(x) => {
                            proof {
                                assert(sp_selectors(ts, q, accv, has_sep)
                                    == crate::parse_model::sel_fragment(ts, q, accv, has_sep, x@));
                                assert(crate::parse_model::sel_fragment(ts, q, accv, has_sep, x@).0
                                    == sp_selectors(ts, q + 1, (if has_sep { accv.push(simple_tag(x@)) } else { append_class(accv, x@) }), has_sep).0);
                                assert(crate::parse_model::sel_fragment(ts, q, accv, has_sep, x@).1
                                    == sp_selectors(ts, q + 1, (if has_sep { accv.push(simple_tag(x@)) } else { append_class(accv, x@) }), has_sep).1 + 1);
                            }
                            self.fragment_step(&mut sels, has_sep, x);
                        },
                        Token::ClassSelector(x) => {
                            proof {
                                assert(sp_selectors(ts, q, accv, has_sep).0 == sp_selectors(
                                    ts, q + 1, accv.push(simple_tag(x@)), false).0);
                                assert(sp_selectors(ts, q, accv, has_sep).1 == sp_selectors(
                                    ts, q + 1, accv.push(simple_tag(x@)), false).1 + 1);
                            }
                            let s = self.mk_tag_selector(x);
                            proof {
                                lemma_sv_selector_seq_push(sels@, s);
                            }
                            sels.push(s);
                            has_sep = false;
                            self.advance();
                        },
                        Token::Ident(x) => {
                            proof {
                                assert(sp_selectors(ts, q, accv, has_sep).0 == sp_selectors(
                                    ts, q + 1, accv.push(simple_tag(x@)), false).0);
                                assert(sp_selectors(ts, q, accv, has_sep).1 == sp_selectors(
                                    ts, q + 1, accv.push(simple_tag(x@)), false).1 + 1);
                            }
                            let s = self.mk_tag_selector(x);
                            proof {
                                lemma_sv_selector_seq_push(sels@, s);
                            }
                            sels.push(s);
                            has_sep = false;
                            self.advance();
                        },
                        Token::Delim(c) => {
                            if c == '*' {
                                proof {
                                    assert(sp_selectors(ts, q, accv, has_sep).0 == sp_selectors(
                                        ts, q + 1, accv.push(simple_tag(seq!['*'])), false).0);
                                    assert(sp_selectors(ts, q, accv, has_sep).1 == sp_selectors(
                                        ts, q + 1, accv.push(simple_tag(seq!['*'])), false).1 + 1);
                                }
                                let star = String::from_str("*");
                                proof {
                                    reveal_strlit("*");
                                    assert(star@ =~= seq!['*']);
                                }
                                let s = self.mk_tag_selector(star);
                                proof {
                                    lemma_sv_selector_seq_push(sels@, s);
                                }
                                sels.push(s);
                                has_sep = false;
                                self.advance();
                            } else if c == ',' {
                                proof {
                                    assert(sp_selectors(ts, q, accv, has_sep).0 == sp_selectors(
                                        ts, q + 1, accv, true).0);
                                    assert(sp_selectors(ts, q, accv, has_sep).1 == sp_selectors(
                                        ts, q + 1, accv, true).1 + 1);
                                }
                                has_sep = true;
                                self.advance();
                            } else if c == '>' || c == '+' || c == '~' {
                                self.advance();
                                match self.cur_token() {
                                    Some(Ok(next_tok)) => {
                                        proof {
                                            assert(ts[q + 1].tok == Some(next_tok@));
                                            assert(sp_selectors(ts, q, accv, has_sep).0
                                                == sp_selectors(ts, q + 2, splice_last(accv, c, combinator_next_text(next_tok@)), true).0);
                                            assert(sp_selectors(ts, q, accv, has_sep).1
                                                == sp_selectors(ts, q + 2, splice_last(accv, c, combinator_next_text(next_tok@)), true).1 + 2);
                                        }
                                        let next_txt = combinator_text(next_tok);
                                        self.splice_step(&mut sels, c, next_txt);
                                        self.advance();
                                    },
                                    _ => {
                                        proof {
                                            assert(sp_selectors(ts, q, accv, has_sep).0
                                                == sp_selectors(ts, q + 1, accv, true).0);
                                            assert(sp_selectors(ts, q, accv, has_sep).1
                                                == sp_selectors(ts, q + 1, accv, true).1 + 1);
                                        }
                                    },
                                }
                                has_sep = true;
                            } else {
                                return sels;
                            }
                        },
                        _ => {
                            return sels;
                        },
                    }
                },
            }
        }
    }

    /// Builds a fresh tag-only selector.
    fn mk_tag_selector(&self, x: String) -> (r: Selector)
        ensures
            sv_selector(r) == simple_tag(x@),
    {
        let r = Selector::Simple(SimpleSelector { tag: Some(x), id: None, classes: Vec::new() });
        proof {
            assert(sv_strings(Seq::<String>::empty()) =~= Seq::<Seq<char>>::empty());
        }
        r
    }

    /// Builds a fresh id-only selector.
    fn mk_id_selector(&self, x: String) -> (r: Selector)
        ensures
            sv_selector(r) == simple_id(x@),
    {
        let r = Selector::Simple(SimpleSelector { tag: None, id: Some(x), classes: Vec::new() });
        proof {
            assert(sv_strings(Seq::<String>::empty()) =~= Seq::<Seq<char>>::empty());
        }
        r
    }

    /// One pseudo-class/attribute/parenthesis selector fragment: starts a
    /// fresh selector after a separator, otherwise attaches to the last
    /// selector's classes.
    fn fragment_step(&mut self, sels: &mut Vec<Selector>, has_sep: bool, x: String)
        requires
            old(self).wf(),
            old(self).at() < old(self).stream().len(),
        ensures
            final(self).wf(),
            final(self).stream() == old(self).stream(),
            final(self).src_view() == old(self).src_view(),
            final(self).offset() == old(self).offset(),
            final(self).at() == old(self).at() + 1,
            sv_selector_seq(final(sels)@) == (if has_sep {
                sv_selector_seq(old(sels)@).push(simple_tag(x@))
            } else {
                append_class(sv_selector_seq(old(sels)@), x@)
            }),
    {
        if has_sep {
            let s = self.mk_tag_selector(x);
            proof {
                lemma_sv_selector_seq_push(sels@, s);
            }
            sels.push(s);
        } else {
            push_class_on_last(sels, x);
        }
        self.advance();
    }

    /// Folds a combinator onto the last selector and consumes the token
    /// after it.
    fn splice_step(&mut self, sels: &mut Vec<Selector>, c: char, next: String)
        requires
            old(self).wf(),
            c == '>' || c == '+' || c == '~',
        ensures
            *final(self) == *old(self),
            sv_selector_seq(final(sels)@) == splice_last(sv_selector_seq(old(sels)@), c, next@),
    {
        proof {
            lemma_sv_selector_seq_len(sels@);
        }
        if sels.len() == 0 {
            return ;
        }
        let ghost v0 = sels@;
        proof {
            lemma_sv_selector_seq_last(v0);
        }
        let n = sels.len();
        let last = sels.remove(n - 1);
        proof {
            assert(sels@ =~= v0.drop_last());
            assert(last == v0.last());
        }
        match last {
            Selector::Simple(ss) => {
                let SimpleSelector { tag, id, classes } = ss;
                let ntag = match tag {
                    Some(tg) => {
                        let mut t2 = tg;
                        let mid: &str = if c == '>' {
                            " > "
                        } else if c == '+' {
                            " + "
                        } else if c == '~' {
                            " ~ "
                        } else {
                            " ? "
                        };
                        proof {
                            reveal_strlit(" > ");
                            reveal_strlit(" + ");
                            reveal_strlit(" ~ ");
                            reveal_strlit(" ? ");
                            if c == '>' || c == '+' || c == '~' {
                                assert(mid@ =~= seq![' ', c, ' ']);
                            }
                        }
                        t2.append(mid);
                        t2.append(next.as_str());
                        t2
                    },
                    None => next,
                };
                let rebuilt = Selector::Simple(SimpleSelector { tag: Some(ntag), id, classes });
                proof {
                    assert(v0.update(v0.len() - 1, rebuilt) =~= v0.drop_last().push(rebuilt));
                    lemma_sv_selector_seq_update(v0, v0.len() - 1, rebuilt);
                    lemma_sv_selector_seq_push(v0.drop_last(), rebuilt);
                }
                sels.push(rebuilt);
                proof {
                    assert(sels@ =~= v0.update(v0.len() - 1, rebuilt));
                }
            },
            other => {
                sels.push(other);
                proof {
                    assert(sels@ =~= v0);
                }
            },
        }
    }
}

impl Parser {
    /// The argument loop shared by `rgb`, `rgba` and `rect`: see
    /// `sp_num_args`.
    #[verifier::loop_isolation(false)]
    fn parse_num_args(&mut self) -> (r: Result<Vec<String>, ParseError>)
        requires
            old(self).wf(),
        ensures
            final(self).wf(),
            final(self).stream() == old(self).stream(),
            final(self).src_view() == old(self).src_view(),
            final(self).offset() == old(self).offset(),
            old(self).at() <= final(self).at(),
            match r {
                Ok(texts) => crate::parse_model::sp_num_args(
                    old(self).stream(),
                    old(self).at(),
                    Seq::empty(),
                ) == Ok::<_, ErrModel>(
                    (sv_strings(texts@), (final(self).at() - old(self).at()) as nat),
                ),
                Err(e) => crate::parse_model::sp_num_args(
                    old(self).stream(),
                    old(self).at(),
                    Seq::empty(),
                ) == Err::<(Seq<Seq<char>>, nat), _>(sv_err(e)),
            },
    {
        let ghost ts = self.stream();
        let ghost p0 = self.at();
        let mut texts: Vec<String> = Vec::new();
        proof {
            assert(sv_strings(texts@) =~= Seq::<Seq<char>>::empty());
        }
        loop
            invariant
                self.wf(),
                self.stream() == ts,
                self.src_view() == old(self).src_view(),
                self.offset() == old(self).offset(),
                p0 <= self.at(),
                crate::parse_model::sp_num_args(ts, p0, Seq::empty()) == plus_used(
                    crate::parse_model::sp_num_args(ts, self.at(), sv_strings(texts@)),
                    (self.at() - p0) as nat,
                ),
            decreases ts.len() - self.at(),
        {
            let ghost q = self.at();
            let ghost accv = sv_strings(texts@);
            match self.cur_token() {
                None => {
                    return Err(self.err(ErrorKind::UnterminatedConstruct));
                },
                Some(Err(())) => {
                    return Err(self.err(ErrorKind::UnexpectedToken));
                },
                Some(Ok(tok)) => {
                    match tok {
                        Token::Number(txt) => {
                            proof {
                                lemma_sv_strings_push(texts@, txt);
                                lemma_plus_plus(
                                    crate::parse_model::sp_num_args(
                                        ts,
                                        q + 1,
                                        accv.push(txt@),
                                    ),
                                    1,
                                    (q - p0) as nat,
                                );
                            }
                            texts.push(txt);
                            self.advance();
                        },
                        Token::Delim(c) => {
                            if c == ',' {
                                proof {
                                    lemma_plus_plus(
                                        crate::parse_model::sp_num_args(ts, q + 1, accv),
                                        1,
                                        (q - p0) as nat,
                                    );
                                }
                                self.advance();
                            } else if c == ')' {
                                self.advance();
                                return Ok(texts);
                            } else {
                                return Err(self.err(ErrorKind::UnexpectedToken));
                            }
                        },
                        Token::ParenthesisBlock(_) => {
                            self.advance();
                            return Ok(texts);
                        },
                        _ => {
                            return Err(self.err(ErrorKind::UnexpectedToken));
                        },
                    }
                },
            }
        }
    }

    /// The `calc()` term loop: see `sp_calc_terms`.
    #[verifier::loop_isolation(false)]
    #[verifier::rlimit(60)]
    fn parse_calc_terms(&mut self) -> (r: Result<Vec<CalcTerm>, ParseError>)
        requires
            old(self).wf(),
        ensures
            final(self).wf(),
            final(self).stream() == old(self).stream(),
            final(self).src_view() == old(self).src_view(),
            final(self).offset() == old(self).offset(),
            old(self).at() <= final(self).at(),
            match r {
                Ok(terms) => crate::parse_model::sp_calc_terms(
                    old(self).stream(),
                    old(self).at(),
                    Seq::empty(),
                ) == Ok::<_, ErrModel>(
                    (
                        crate::model::sv_calc_term_seq(terms@),
                        (final(self).at() - old(self).at()) as nat,
                    ),
                ),
                Err(e) => crate::parse_model::sp_calc_terms(
                    old(self).stream(),
                    old(self).at(),
                    Seq::empty(),
                ) == Err::<(Seq<crate::model::CalcTermModel>, nat), _>(sv_err(e)),
            },
    {
        let ghost ts = self.stream();
        let ghost p0 = self.at();
        let mut terms: Vec<CalcTerm> = Vec::new();
        proof {
            assert(crate::model::sv_calc_term_seq(terms@) =~= Seq::<
                crate::model::CalcTermModel,
            >::empty());
        }
        loop
            invariant
                self.wf(),
                self.stream() == ts,
                self.src_view() == old(self).src_view(),
                self.offset() == old(self).offset(),
                p0 <= self.at(),
                crate::parse_model::sp_calc_terms(ts, p0, Seq::empty()) == plus_used(
                    crate::parse_model::sp_calc_terms(
                        ts,
                        self.at(),
                        crate::model::sv_calc_term_seq(terms@),
                    ),
                    (self.at() - p0) as nat,
                ),
            decreases ts.len() - self.at(),
        {
            let ghost q = self.at();
            let ghost accv = crate::model::sv_calc_term_seq(terms@);
            match self.cur_token() {
                None => {
                    return Err(self.err(ErrorKind::UnterminatedConstruct));
                },
                Some(Err(())) => {
                    return Err(self.err(ErrorKind::UnexpectedToken));
                },
                Some(Ok(tok)) => {
                    match tok {
                        Token::Number(txt) => {
                            match crate::numbers::parse_num(txt.as_str()) {
                                Some(n) => {
                                    let t = CalcTerm::Number(n, None);
                                    proof {
                                        lemma_sv_calc_term_seq_push(terms@, t);
                                        lemma_plus_plus(
                                            crate::parse_model::sp_calc_terms(
                                                ts,
                                                q + 1,
                                                accv.push(crate::model::sv_calc_term(t)),
                                            ),
                                            1,
                                            (q - p0) as nat,
                                        );
                                    }
                                    terms.push(t);
                                    self.advance();
                                },
                                None => {
                                    return Err(self.err(ErrorKind::NumberFormat));
                                },
                            }
                        },
                        Token::Dimension(txt) => {
                            let len = txt.as_str().unicode_len();
                            let k = crate::numbers::find_alpha(txt.as_str());
                            let numpart = txt.as_str().substring_char(0, k);
                            match crate::numbers::parse_num(numpart) {
                                Some(n) => {
                                    let unit = txt.as_str().substring_char(k, len).to_owned();
                                    let t = CalcTerm::Number(n, Some(unit));
                                    proof {
                                        lemma_sv_calc_term_seq_push(terms@, t);
                                        lemma_plus_plus(
                                            crate::parse_model::sp_calc_terms(
                                                ts,
                                                q + 1,
                                                accv.push(crate::model::sv_calc_term(t)),
                                            ),
                                            1,
                                            (q - p0) as nat,
                                        );
                                    }
                                    terms.push(t);
                                    self.advance();
                                },
                                None => {
                                    return Err(self.err(ErrorKind::NumberFormat));
                                },
                            }
                        },
                        Token::Delim(c) => {
                            if c == '%' {
                                let unit = String::from_str("%");
                                let zero = crate::ast::Num { neg: false, mantissa: 0, scale: 0 };
                                let t = CalcTerm::Number(zero, Some(unit));
                                proof {
                                    lemma_sv_calc_term_seq_push(terms@, t);
                                    lemma_plus_plus(
                                        crate::parse_model::sp_calc_terms(
                                            ts,
                                            q + 1,
                                            accv.push(crate::model::sv_calc_term(t)),
                                        ),
                                        1,
                                        (q - p0) as nat,
                                    );
                                }
                                terms.push(t);
                                self.advance();
                            } else if c == '+' || c == '-' || c == '*' || c == '/' {
                                let op = if c == '+' {
                                    CalcOperator::Add
                                } else if c == '-' {
                                    CalcOperator::Subtract
                                } else if c == '*' {
                                    CalcOperator::Multiply
                                } else {
                                    CalcOperator::Divide
                                };
                                let t = CalcTerm::Operator(op);
                                proof {
                                    lemma_sv_calc_term_seq_push(terms@, t);
                                    lemma_plus_plus(
                                        crate::parse_model::sp_calc_terms(
                                            ts,
                                            q + 1,
                                            accv.push(crate::model::sv_calc_term(t)),
                                        ),
                                        1,
                                        (q - p0) as nat,
                                    );
                                }
                                terms.push(t);
                                self.advance();
                            } else if c == ')' {
                                self.advance();
                                return Ok(terms);
                            } else {
                                return Err(self.err(ErrorKind::UnexpectedToken));
                            }
                        },
                        Token::ParenthesisBlock(_) => {
                            self.advance();
                            return Ok(terms);
                        },
                        _ => {
                            return Err(self.err(ErrorKind::UnexpectedToken));
                        },
                    }
                },
            }
        }
    }

    /// The `url()` content loop: see `sp_url_text`.
    #[verifier::loop_isolation(false)]
    fn parse_url_text(&mut self) -> (r: Result<String, ParseError>)
        requires
            old(self).wf(),
        ensures
            final(self).wf(),
            final(self).stream() == old(self).stream(),
            final(self).src_view() == old(self).src_view(),
            final(self).offset() == old(self).offset(),
            old(self).at() <= final(self).at(),
            match r {
                Ok(text) => crate::parse_model::sp_url_text(
                    old(self).stream(),
                    old(self).at(),
                    Seq::empty(),
                ) == Ok::<_, ErrModel>((text@, (final(self).at() - old(self).at()) as nat)),
                Err(e) => crate::parse_model::sp_url_text(
                    old(self).stream(),
                    old(self).at(),
                    Seq::empty(),
                ) == Err::<(Seq<char>, nat), _>(sv_err(e)),
            },
    {
        let ghost ts = self.stream();
        let ghost p0 = self.at();
        let mut text = String::new();
        proof {
            assert(text@ =~= Seq::<char>::empty());
        }
        loop
            invariant
                self.wf(),
                self.stream() == ts,
                self.src_view() == old(self).src_view(),
                self.offset() == old(self).offset(),
                p0 <= self.at(),
                crate::parse_model::sp_url_text(ts, p0, Seq::empty()) == plus_used(
                    crate::parse_model::sp_url_text(ts, self.at(), text@),
                    (self.at() - p0) as nat,
                ),
            decreases ts.len() - self.at(),
        {
            let ghost q = self.at();
            let ghost accv = text@;
            match self.cur_token() {
                None => {
                    return Err(self.err(ErrorKind::UnterminatedConstruct));
                },
                Some(Err(())) => {
                    return Err(self.err(ErrorKind::UnexpectedToken));
                },
                Some(Ok(tok)) => {
                    match tok {
                        Token::UnquotedUrl(v) => {
                            proof {
                                lemma_plus_plus(
                                    crate::parse_model::sp_url_text(ts, q + 1, accv + v@),
                                    1,
                                    (q - p0) as nat,
                                );
                            }
                            text.append(v.as_str());
                            self.advance();
                        },
                        Token::QuotedString(v) => {
                            proof {
                                lemma_plus_plus(
                                    crate::parse_model::sp_url_text(ts, q + 1, accv + v@),
                                    1,
                                    (q - p0) as nat,
                                );
                            }
                            text.append(v.as_str());
                            self.advance();
                        },
                        Token::Delim(c) => {
                            if c == ')' {
                                self.advance();
                                return Ok(text);
                            } else {
                                return Err(self.err(ErrorKind::UnexpectedToken));
                            }
                        },
                        Token::ParenthesisBlock(_) => {
                            self.advance();
                            return Ok(text);
                        },
                        _ => {
                            return Err(self.err(ErrorKind::UnexpectedToken));
                        },
                    }
                },
            }
        }
    }
}

impl Parser {
    /// The function-value production: see `sp_function`.
    #[verifier::loop_isolation(false)]
    #[verifier::rlimit(60)]
    fn parse_function(&mut self, depth: usize, name: String) -> (r: Result<Value, ParseError>)
        requires
            old(self).wf(),
        ensures
            final(self).wf(),
            final(self).stream() == old(self).stream(),
            final(self).src_view() == old(self).src_view(),
            final(self).offset() == old(self).offset(),
            old(self).at() <= final(self).at(),
            match r {
                Ok(v) => crate::parse_model::sp_function(
                    old(self).stream(),
                    old(self).at(),
                    depth as int,
                    name@,
                ) == Ok::<_, ErrModel>(
                    (sv_value(v), (final(self).at() - old(self).at()) as nat),
                ),
                Err(e) => crate::parse_model::sp_function(
                    old(self).stream(),
                    old(self).at(),
                    depth as int,
                    name@,
                ) == Err::<(crate::model::ValueModel, nat), _>(sv_err(e)),
            },
        decreases depth, 1int,
    {
        if depth == 0 {
            return Err(self.err(ErrorKind::RecursionLimit));
        }
        if crate::text::str_eq_str(name.as_str(), "rgb") || crate::text::str_eq_str(
            name.as_str(),
            "rgba",
        ) {
            match self.parse_num_args() {
                Err(e) => Err(e),
                Ok(texts) => {
                    if texts.len() < 3 || texts.len() > 4 {
                        return Err(self.err(ErrorKind::InvalidArity));
                    }
                    proof {
                        assert(sv_strings(texts@)[0] == texts@[0]@);
                        assert(sv_strings(texts@)[1] == texts@[1]@);
                        assert(sv_strings(texts@)[2] == texts@[2]@);
                    }
                    let r0 = crate::numbers::parse_u8(texts[0].as_str());
                    let r1 = crate::numbers::parse_u8(texts[1].as_str());
                    let r2 = crate::numbers::parse_u8(texts[2].as_str());
                    match (r0, r1, r2) {
                        (Some(cr), Some(cg), Some(cb)) => {
                            if texts.len() == 4 {
                                proof {
                                    assert(sv_strings(texts@)[3] == texts@[3]@);
                                }
                                match crate::numbers::parse_num(texts[3].as_str()) {
                                    Some(a) => Ok(
                                        Value::Color(
                                            ColorValue::Rgba { r: cr, g: cg, b: cb, a },
                                        ),
                                    ),
                                    None => Err(self.err(ErrorKind::NumberFormat)),
                                }
                            } else {
                                Ok(Value::Color(ColorValue::Rgb { r: cr, g: cg, b: cb }))
                            }
                        },
                        _ => Err(self.err(ErrorKind::NumberFormat)),
                    }
                },
            }
        } else if crate::text::str_eq_str(name.as_str(), "calc") {
            match self.parse_calc_terms() {
                Ok(terms) => Ok(Value::Calc(CalcExpression { terms })),
                Err(e) => Err(e),
            }
        } else if crate::text::str_eq_str(name.as_str(), "url") {
            match self.parse_url_text() {
                Ok(text) => Ok(Value::Uri(text)),
                Err(e) => Err(e),
            }
        } else if crate::text::str_eq_str(name.as_str(), "rect") {
            match self.parse_num_args() {
                Err(e) => Err(e),
                Ok(texts) => {
                    if texts.len() != 4 {
                        return Err(self.err(ErrorKind::InvalidArity));
                    }
                    proof {
                        assert(sv_strings(texts@)[0] == texts@[0]@);
                        assert(sv_strings(texts@)[1] == texts@[1]@);
                        assert(sv_strings(texts@)[2] == texts@[2]@);
                        assert(sv_strings(texts@)[3] == texts@[3]@);
                    }
                    let r0 = crate::numbers::parse_num(texts[0].as_str());
                    let r1 = crate::numbers::parse_num(texts[1].as_str());
                    let r2 = crate::numbers::parse_num(texts[2].as_str());
                    let r3 = crate::numbers::parse_num(texts[3].as_str());
                    match (r0, r1, r2, r3) {
                        (Some(n0), Some(n1), Some(n2), Some(n3)) => {
                            let mut args: Vec<Value> = Vec::new();
                            proof {
                                assert(sv_values(args@) =~= Seq::<
                                    crate::model::ValueModel,
                                >::empty());
                                lemma_sv_values_push(args@, Value::Number(n0));
                            }
                            args.push(Value::Number(n0));
                            proof {
                                lemma_sv_values_push(args@, Value::Number(n1));
                            }
                            args.push(Value::Number(n1));
                            proof {
                                lemma_sv_values_push(args@, Value::Number(n2));
                            }
                            args.push(Value::Number(n2));
                            proof {
                                lemma_sv_values_push(args@, Value::Number(n3));
                            }
                            args.push(Value::Number(n3));
                            let rect_name = String::from_str("rect");
                            let v = Value::Function(
                                FunctionValue { name: rect_name, arguments: args },
                            );
                            proof {
                                assert(sv_values(args@) =~= seq![
                                    crate::model::ValueModel::Number(n0),
                                    crate::model::ValueModel::Number(n1),
                                    crate::model::ValueModel::Number(n2),
                                    crate::model::ValueModel::Number(n3),
                                ]);
                            }
                            Ok(v)
                        },
                        _ => Err(self.err(ErrorKind::NumberFormat)),
                    }
                },
            }
        } else {
            match self.parse_fn_args(depth) {
                Ok(args) => Ok(Value::Function(FunctionValue { name, arguments: args })),
                Err(e) => Err(e),
            }
        }
    }

    /// The generic function-argument loop: see `sp_fn_args`.
    #[verifier::loop_isolation(false)]
    #[verifier::rlimit(100)]
    fn parse_fn_args(&mut self, depth: usize) -> (r: Result<Vec<Value>, ParseError>)
        requires
            old(self).wf(),
        ensures
            final(self).wf(),
            final(self).stream() == old(self).stream(),
            final(self).src_view() == old(self).src_view(),
            final(self).offset() == old(self).offset(),
            old(self).at() <= final(self).at(),
            match r {
                Ok(vals) => crate::parse_model::sp_fn_args(
                    old(self).stream(),
                    old(self).at(),
                    depth as int,
                    Seq::empty(),
                ) == Ok::<_, ErrModel>(
                    (sv_values(vals@), (final(self).at() - old(self).at()) as nat),
                ),
                Err(e) => crate::parse_model::sp_fn_args(
                    old(self).stream(),
                    old(self).at(),
                    depth as int,
                    Seq::empty(),
                ) == Err::<(Seq<crate::model::ValueModel>, nat), _>(sv_err(e)),
            },
        decreases depth, 0int,
    {
        let ghost ts = self.stream();
        let ghost p0 = self.at();
        let ghost d = depth as int;
        if depth == 0 {
            return Err(self.err(ErrorKind::RecursionLimit));
        }
        let mut vals: Vec<Value> = Vec::new();
        proof {
            assert(sv_values(vals@) =~= Seq::<crate::model::ValueModel>::empty());
        }
        loop
            invariant
                self.wf(),
                self.stream() == ts,
                self.src_view() == old(self).src_view(),
                self.offset() == old(self).offset(),
                p0 <= self.at(),
                depth >= 1,
                d == depth as int,
                crate::parse_model::sp_fn_args(ts, p0, d, Seq::empty()) == plus_used(
                    crate::parse_model::sp_fn_args(ts, self.at(), d, sv_values(vals@)),
                    (self.at() - p0) as nat,
                ),
            decreases ts.len() - self.at(),
        {
            let ghost q = self.at();
            let ghost accv = sv_values(vals@);
            match self.cur_token() {
                None => {
                    return Err(self.err(ErrorKind::UnterminatedConstruct));
                },
                Some(Err(())) => {
                    return Err(self.err(ErrorKind::UnexpectedToken));
                },
                Some(Ok(tok)) => {
                    match tok {
                        Token::ParenthesisBlock(_) => {
                            self.advance();
                            return Ok(vals);
                        },
                        Token::Delim(c) => {
                            if c == ')' {
                                self.advance();
                                return Ok(vals);
                            } else if c == ',' {
                                proof {
                                    lemma_plus_plus(
                                        crate::parse_model::sp_fn_args(ts, q + 1, d, accv),
                                        1,
                                        (q - p0) as nat,
                                    );
                                }
                                self.advance();
                            } else if c == '/' {
                                let v = Value::Identifier(String::from_str("/"));
                                proof {
                                    lemma_sv_values_push(vals@, v);
                                    lemma_plus_plus(
                                        crate::parse_model::sp_fn_args(
                                            ts,
                                            q + 1,
                                            d,
                                            accv.push(sv_value(v)),
                                        ),
                                        1,
                                        (q - p0) as nat,
                                    );
                                }
                                vals.push(v);
                                self.advance();
                            } else {
                                return Err(self.err(ErrorKind::UnexpectedToken));
                            }
                        },
                        Token::Hash(s) => {
                            let v = Value::Color(ColorValue::Hex(s));
                            proof {
                                lemma_sv_values_push(vals@, v);
                                lemma_plus_plus(
                                    crate::parse_model::sp_fn_args(
                                        ts,
                                        q + 1,
                                        d,
                                        accv.push(sv_value(v)),
                                    ),
                                    1,
                                    (q - p0) as nat,
                                );
                            }
                            vals.push(v);
                            self.advance();
                        },
                        Token::Ident(s) => {
                            let v = Value::Identifier(s);
                            proof {
                                lemma_sv_values_push(vals@, v);
                                lemma_plus_plus(
                                    crate::parse_model::sp_fn_args(
                                        ts,
                                        q + 1,
                                        d,
                                        accv.push(sv_value(v)),
                                    ),
                                    1,
                                    (q - p0) as nat,
                                );
                            }
                            vals.push(v);
                            self.advance();
                        },
                        Token::Number(txt) => {
                            match crate::numbers::parse_num(txt.as_str()) {
                                Some(n) => {
                                    let v = Value::Number(n);
                                    proof {
                                        lemma_sv_values_push(vals@, v);
                                        lemma_plus_plus(
                                            crate::parse_model::sp_fn_args(
                                                ts,
                                                q + 1,
                                                d,
                                                accv.push(sv_value(v)),
                                            ),
                                            1,
                                            (q - p0) as nat,
                                        );
                                    }
                                    vals.push(v);
                                    self.advance();
                                },
                                None => {
                                    return Err(self.err(ErrorKind::NumberFormat));
                                },
                            }
                        },
                        Token::Dimension(txt) => {
                            let len = txt.as_str().unicode_len();
                            let k = crate::numbers::find_alpha(txt.as_str());
                            let numpart = txt.as_str().substring_char(0, k);
                            match crate::numbers::parse_num(numpart) {
                                Some(n) => {
                                    let unit = txt.as_str().substring_char(k, len).to_owned();
                                    let v = Value::Dimension { value: n, unit };
                                    proof {
                                        lemma_sv_values_push(vals@, v);
                                        lemma_plus_plus(
                                            crate::parse_model::sp_fn_args(
                                                ts,
                                                q + 1,
                                                d,
                                                accv.push(sv_value(v)),
                                            ),
                                            1,
                                            (q - p0) as nat,
                                        );
                                    }
                                    vals.push(v);
                                    self.advance();
                                },
                                None => {
                                    return Err(self.err(ErrorKind::NumberFormat));
                                },
                            }
                        },
                        Token::Percentage(txt) => {
                            let stripped = crate::numbers::strip_percent(txt.as_str());
                            match crate::numbers::parse_num(stripped.as_str()) {
                                Some(n) => {
                                    let v = Value::Percentage(n);
                                    proof {
                                        lemma_sv_values_push(vals@, v);
                                        lemma_plus_plus(
                                            crate::parse_model::sp_fn_args(
                                                ts,
                                                q + 1,
                                                d,
                                                accv.push(sv_value(v)),
                                            ),
                                            1,
                                            (q - p0) as nat,
                                        );
                                    }
                                    vals.push(v);
                                    self.advance();
                                },
                                None => {
                                    return Err(self.err(ErrorKind::NumberFormat));
                                },
                            }
                        },
                        Token::QuotedString(s) => {
                            let v = Value::String(s);
                            proof {
                                lemma_sv_values_push(vals@, v);
                                lemma_plus_plus(
                                    crate::parse_model::sp_fn_args(
                                        ts,
                                        q + 1,
                                        d,
                                        accv.push(sv_value(v)),
                                    ),
                                    1,
                                    (q - p0) as nat,
                                );
                            }
                            vals.push(v);
                            self.advance();
                        },
                        Token::CustomProperty(s) => {
                            let v = Value::Var(s);
                            proof {
                                lemma_sv_values_push(vals@, v);
                                lemma_plus_plus(
                                    crate::parse_model::sp_fn_args(
                                        ts,
                                        q + 1,
                                        d,
                                        accv.push(sv_value(v)),
                                    ),
                                    1,
                                    (q - p0) as nat,
                                );
                            }
                            vals.push(v);
                            self.advance();
                        },
                        Token::Important => {
                            let v = Value::Identifier(String::from_str("!important"));
                            proof {
                                lemma_sv_values_push(vals@, v);
                                lemma_plus_plus(
                                    crate::parse_model::sp_fn_args(
                                        ts,
                                        q + 1,
                                        d,
                                        accv.push(sv_value(v)),
                                    ),
                                    1,
                                    (q - p0) as nat,
                                );
                            }
                            vals.push(v);
                            self.advance();
                        },
                        Token::UnquotedUrl(s) => {
                            let v = Value::Uri(s);
                            proof {
                                lemma_sv_values_push(vals@, v);
                                lemma_plus_plus(
                                    crate::parse_model::sp_fn_args(
                                        ts,
                                        q + 1,
                                        d,
                                        accv.push(sv_value(v)),
                                    ),
                                    1,
                                    (q - p0) as nat,
                                );
                            }
                            vals.push(v);
                            self.advance();
                        },
                        Token::Function(n2) => {
                            self.advance();
                            match self.parse_function(depth - 1, n2) {
                                Ok(v) => {
                                    let ghost u = (self.at() - (q + 1)) as nat;
                                    proof {
                                        lemma_sv_values_push(vals@, v);
                                        lemma_plus_plus(
                                            crate::parse_model::sp_fn_args(
                                                ts,
                                                q + 1 + u,
                                                d,
                                                accv.push(sv_value(v)),
                                            ),
                                            (u + 1) as nat,
                                            (q - p0) as nat,
                                        );
                                    }
                                    vals.push(v);
                                },
                                Err(e) => {
                                    return Err(e);
                                },
                            }
                        },
                        _ => {
                            return Err(self.err(ErrorKind::UnexpectedToken));
                        },
                    }
                },
            }
        }
    }

    /// The declaration-value production: see `sp_pdv`.
    #[verifier::loop_isolation(false)]
    #[verifier::rlimit(100)]
    fn parse_declaration_value(&mut self, depth: usize) -> (r: Result<Vec<Value>, ParseError>)
        requires
            old(self).wf(),
        ensures
            final(self).wf(),
            final(self).stream() == old(self).stream(),
            final(self).src_view() == old(self).src_view(),
            final(self).offset() == old(self).offset(),
            old(self).at() <= final(self).at(),
            match r {
                Ok(vals) => crate::parse_model::sp_pdv(
                    old(self).stream(),
                    old(self).at(),
                    depth as int,
                    Seq::empty(),
                ) == Ok::<_, ErrModel>(
                    (sv_values(vals@), (final(self).at() - old(self).at()) as nat),
                ),
                Err(e) => crate::parse_model::sp_pdv(
                    old(self).stream(),
                    old(self).at(),
                    depth as int,
                    Seq::empty(),
                ) == Err::<(Seq<crate::model::ValueModel>, nat), _>(sv_err(e)),
            },
    {
        let ghost ts = self.stream();
        let ghost p0 = self.at();
        let ghost d = depth as int;
        if depth == 0 {
            return Err(self.err(ErrorKind::RecursionLimit));
        }
        let mut vals: Vec<Value> = Vec::new();
        proof {
            assert(sv_values(vals@) =~= Seq::<crate::model::ValueModel>::empty());
        }
        loop
            invariant
                self.wf(),
                self.stream() == ts,
                self.src_view() == old(self).src_view(),
                self.offset() == old(self).offset(),
                p0 <= self.at(),
                depth >= 1,
                d == depth as int,
                crate::parse_model::sp_pdv(ts, p0, d, Seq::empty()) == plus_used(
                    crate::parse_model::sp_pdv(ts, self.at(), d, sv_values(vals@)),
                    (self.at() - p0) as nat,
                ),
            decreases ts.len() - self.at(),
        {
            let ghost q = self.at();
            let ghost accv = sv_values(vals@);
            match self.cur_token() {
                None => {
                    return Ok(vals);
                },
                Some(Err(())) => {
                    return Ok(vals);
                },
                Some(Ok(tok)) => {
                    match tok {
                        Token::Delim(c) => {
                            if c == ';' {
                                return Ok(vals);
                            } else if c == ',' {
                                proof {
                                    lemma_plus_plus(
                                        crate::parse_model::sp_pdv(ts, q + 1, d, accv),
                                        1,
                                        (q - p0) as nat,
                                    );
                                }
                                self.advance();
                            } else if c == '/' {
                                let v = Value::Identifier(String::from_str("/"));
                                proof {
                                    lemma_sv_values_push(vals@, v);
                                    lemma_plus_plus(
                                        crate::parse_model::sp_pdv(
                                            ts,
                                            q + 1,
                                            d,
                                            accv.push(sv_value(v)),
                                        ),
                                        1,
                                        (q - p0) as nat,
                                    );
                                }
                                vals.push(v);
                                self.advance();
                            } else {
                                return Ok(vals);
                            }
                        },
                        Token::Hash(s) => {
                            let v = Value::Color(ColorValue::Hex(s));
                            proof {
                                lemma_sv_values_push(vals@, v);
                                lemma_plus_plus(
                                    crate::parse_model::sp_pdv(
                                        ts,
                                        q + 1,
                                        d,
                                        accv.push(sv_value(v)),
                                    ),
                                    1,
                                    (q - p0) as nat,
                                );
                            }
                            vals.push(v);
                            self.advance();
                        },
                        Token::Ident(s) => {
                            let v = Value::Identifier(s);
                            proof {
                                lemma_sv_values_push(vals@, v);
                                lemma_plus_plus(
                                    crate::parse_model::sp_pdv(
                                        ts,
                                        q + 1,
                                        d,
                                        accv.push(sv_value(v)),
                                    ),
                                    1,
                                    (q - p0) as nat,
                                );
                            }
                            vals.push(v);
                            self.advance();
                        },
                        Token::Number(txt) => {
                            match crate::numbers::parse_num(txt.as_str()) {
                                Some(n) => {
                                    let v = Value::Number(n);
                                    proof {
                                        lemma_sv_values_push(vals@, v);
                                        lemma_plus_plus(
                                            crate::parse_model::sp_pdv(
                                                ts,
                                                q + 1,
                                                d,
                                                accv.push(sv_value(v)),
                                            ),
                                            1,
                                            (q - p0) as nat,
                                        );
                                    }
                                    vals.push(v);
                                    self.advance();
                                },
                                None => {
                                    return Err(self.err(ErrorKind::NumberFormat));
                                },
                            }
                        },
                        Token::Dimension(txt) => {
                            let len = txt.as_str().unicode_len();
                            let k = crate::numbers::find_alpha(txt.as_str());
                            let numpart = txt.as_str().substring_char(0, k);
                            match crate::numbers::parse_num(numpart) {
                                Some(n) => {
                                    let unit = txt.as_str().substring_char(k, len).to_owned();
                                    let v = Value::Dimension { value: n, unit };
                                    proof {
                                        lemma_sv_values_push(vals@, v);
                                        lemma_plus_plus(
                                            crate::parse_model::sp_pdv(
                                                ts,
                                                q + 1,
                                                d,
                                                accv.push(sv_value(v)),
                                            ),
                                            1,
                                            (q - p0) as nat,
                                        );
                                    }
                                    vals.push(v);
                                    self.advance();
                                },
                                None => {
                                    return Err(self.err(ErrorKind::NumberFormat));
                                },
                            }
                        },
                        Token::Percentage(txt) => {
                            let stripped = crate::numbers::strip_percent(txt.as_str());
                            match crate::numbers::parse_num(stripped.as_str()) {
                                Some(n) => {
                                    let v = Value::Percentage(n);
                                    proof {
                                        lemma_sv_values_push(vals@, v);
                                        lemma_plus_plus(
                                            crate::parse_model::sp_pdv(
                                                ts,
                                                q + 1,
                                                d,
                                                accv.push(sv_value(v)),
                                            ),
                                            1,
                                            (q - p0) as nat,
                                        );
                                    }
                                    vals.push(v);
                                    self.advance();
                                },
                                None => {
                                    return Err(self.err(ErrorKind::NumberFormat));
                                },
                            }
                        },
                        Token::Function(name) => {
                            self.advance();
                            match self.parse_function(depth - 1, name) {
                                Ok(v) => {
                                    let ghost u = (self.at() - (q + 1)) as nat;
                                    proof {
                                        lemma_sv_values_push(vals@, v);
                                        lemma_plus_plus(
                                            crate::parse_model::sp_pdv(
                                                ts,
                                                q + 1 + u,
                                                d,
                                                accv.push(sv_value(v)),
                                            ),
                                            (u + 1) as nat,
                                            (q - p0) as nat,
                                        );
                                    }
                                    vals.push(v);
                                },
                                Err(e) => {
                                    return Err(e);
                                },
                            }
                        },
                        Token::QuotedString(s) => {
                            let v = Value::String(s);
                            proof {
                                lemma_sv_values_push(vals@, v);
                                lemma_plus_plus(
                                    crate::parse_model::sp_pdv(
                                        ts,
                                        q + 1,
                                        d,
                                        accv.push(sv_value(v)),
                                    ),
                                    1,
                                    (q - p0) as nat,
                                );
                            }
                            vals.push(v);
                            self.advance();
                        },
                        Token::CustomProperty(s) => {
                            let v = Value::Var(s);
                            proof {
                                lemma_sv_values_push(vals@, v);
                                lemma_plus_plus(
                                    crate::parse_model::sp_pdv(
                                        ts,
                                        q + 1,
                                        d,
                                        accv.push(sv_value(v)),
                                    ),
                                    1,
                                    (q - p0) as nat,
                                );
                            }
                            vals.push(v);
                            self.advance();
                        },
                        Token::Important => {
                            let v = Value::Identifier(String::from_str("!important"));
                            proof {
                                lemma_sv_values_push(vals@, v);
                                lemma_plus_plus(
                                    crate::parse_model::sp_pdv(
                                        ts,
                                        q + 1,
                                        d,
                                        accv.push(sv_value(v)),
                                    ),
                                    1,
                                    (q - p0) as nat,
                                );
                            }
                            vals.push(v);
                            self.advance();
                        },
                        Token::UnquotedUrl(s) => {
                            let v = Value::Uri(s);
                            proof {
                                lemma_sv_values_push(vals@, v);
                                lemma_plus_plus(
                                    crate::parse_model::sp_pdv(
                                        ts,
                                        q + 1,
                                        d,
                                        accv.push(sv_value(v)),
                                    ),
                                    1,
                                    (q - p0) as nat,
                                );
                            }
                            vals.push(v);
                            self.advance();
                        },
                        _ => {
                            return Ok(vals);
                        },
                    }
                },
            }
        }
    }
}

impl Parser {
    /// The rule-set production: a selector group, then one required
    /// `{...}` block, re-lexed and parsed as declarations interleaved with
    /// nested rule sets. See `sp_rule_set`.
    #[verifier::loop_isolation(false)]
    fn parse_rule_set(&mut self, depth: usize) -> (r: Result<RuleSet, ParseError>)
        requires
            old(self).wf(),
        ensures
            final(self).wf(),
            final(self).stream() == old(self).stream(),
            final(self).src_view() == old(self).src_view(),
            final(self).offset() == old(self).offset(),
            old(self).at() <= final(self).at(),
            match r {
                Ok(rs) => crate::parse_model::sp_rule_set(
                    old(self).stream(),
                    old(self).at(),
                    depth as int,
                ) == Ok::<_, ErrModel>(
                    (
                        crate::model::sv_rule_set(rs),
                        (final(self).at() - old(self).at() - 1) as nat,
                    ),
                ) && old(self).at() < final(self).at(),
                Err(e) => crate::parse_model::sp_rule_set(
                    old(self).stream(),
                    old(self).at(),
                    depth as int,
                ) == Err::<(crate::model::RuleSetModel, nat), _>(sv_err(e)),
            },
        decreases depth,
    {
        let ghost ts = self.stream();
        let ghost p0 = self.at();
        if depth == 0 {
            return Err(self.err(ErrorKind::RecursionLimit));
        }
        let sels = self.parse_selectors();
        match self.cur_token() {
            Some(Ok(Token::CurlyBracketBlock(b))) => {
                let sp = self.cur_span();
                let ghost lim = self.offset() + bytelen(self.src_view());
                proof {
                    lemma_tokens_coherent(self.src_view(), 0);
                    let lt = spec_tokens(self.src_view())[self.at()];
                    assert(self.stream()[self.at()] == shift_lexed(lt, self.offset()));
                    assert(b@ == lt.slice);
                    assert(sp.lo as int + bytelen(b@) <= lim);
                }
                let (content, off2) = crate::numbers::block_content_at(
                    b.as_str(),
                    sp.lo,
                    Ghost(lim),
                );
                let mut bp = Parser::new_at(content.as_str(), off2);
                match bp.parse_block_items(depth - 1) {
                    Ok((decls, nested)) => {
                        self.advance();
                        let rs = RuleSet {
                            selectors: sels,
                            declarations: decls,
                            nested_rules: nested,
                        };
                        Ok(rs)
                    },
                    Err(e) => Err(e),
                }
            },
            _ => Err(self.err(ErrorKind::UnexpectedToken)),
        }
    }

    /// The body of a rule set's block: declarations interleaved with nested
    /// rule sets, to the end of the block's buffer. See `sp_block_items`.
    #[verifier::loop_isolation(false)]
    #[verifier::rlimit(100)]
    fn parse_block_items(&mut self, depth: usize) -> (r: Result<
        (Vec<Declaration>, Vec<Rule>),
        ParseError,
    >)
        requires
            old(self).wf(),
        ensures
            final(self).wf(),
            final(self).stream() == old(self).stream(),
            final(self).src_view() == old(self).src_view(),
            final(self).offset() == old(self).offset(),
            old(self).at() <= final(self).at(),
            match r {
                Ok(items) => crate::parse_model::sp_block_items(
                    old(self).stream(),
                    old(self).at(),
                    depth as int,
                    Seq::empty(),
                    Seq::empty(),
                ) == Ok::<_, ErrModel>(
                    (sv_declaration_seq(items.0@), sv_rules(items.1@)),
                ),
                Err(e) => crate::parse_model::sp_block_items(
                    old(self).stream(),
                    old(self).at(),
                    depth as int,
                    Seq::empty(),
                    Seq::empty(),
                ) == Err::<
                    (Seq<crate::model::DeclarationModel>, Seq<crate::model::RuleModel>),
                    _,
                >(sv_err(e)),
            },
        decreases depth,
    {
        let ghost ts = self.stream();
        let ghost p0 = self.at();
        let ghost d = depth as int;
        if depth == 0 {
            match self.cur_token() {
                None => {
                    let decls: Vec<Declaration> = Vec::new();
                    let nested: Vec<Rule> = Vec::new();
                    proof {
                        assert(sv_declaration_seq(decls@) =~= Seq::<
                            crate::model::DeclarationModel,
                        >::empty());
                        assert(sv_rules(nested@) =~= Seq::<crate::model::RuleModel>::empty());
                    }
                    return Ok((decls, nested));
                },
                _ => {
                    return Err(self.err(ErrorKind::RecursionLimit));
                },
            }
        }
        let mut decls: Vec<Declaration> = Vec::new();
        let mut nested: Vec<Rule> = Vec::new();
        proof {
            assert(sv_declaration_seq(decls@) =~= Seq::<crate::model::DeclarationModel>::empty());
            assert(sv_rules(nested@) =~= Seq::<crate::model::RuleModel>::empty());
        }
        loop
            invariant
                self.wf(),
                self.stream() == ts,
                self.src_view() == old(self).src_view(),
                self.offset() == old(self).offset(),
                p0 <= self.at(),
                depth >= 1,
                d == depth as int,
                crate::parse_model::sp_block_items(ts, p0, d, Seq::empty(), Seq::empty())
                    == crate::parse_model::sp_block_items(
                    ts,
                    self.at(),
                    d,
                    sv_declaration_seq(decls@),
                    sv_rules(nested@),
                ),
            decreases ts.len() - self.at(),
        {
            let ghost q = self.at();
            let ghost dv = sv_declaration_seq(decls@);
            let ghost nv = sv_rules(nested@);
            match self.cur_token() {
                None => {
                    return Ok((decls, nested));
                },
                Some(Err(())) => {
                    self.advance();
                },
                Some(Ok(tok)) => {
                    match tok {
                        Token::Ident(prop) => {
                            proof {
                                assert(crate::parse_model::sp_block_items(ts, q, d, dv, nv)
                                    == crate::parse_model::sp_declaration(ts, q, d, dv, nv, prop@));
                            }
                            match self.parse_one_declaration(depth, prop, Ghost(dv), Ghost(nv)) {
                                Ok(decl) => {
                                    proof {
                                        lemma_sv_declaration_seq_push(decls@, decl);
                                    }
                                    decls.push(decl);
                                },
                                Err(e) => {
                                    return Err(e);
                                },
                            }
                        },
                        Token::CustomProperty(prop) => {
                            proof {
                                assert(crate::parse_model::sp_block_items(ts, q, d, dv, nv)
                                    == crate::parse_model::sp_declaration(ts, q, d, dv, nv, prop@));
                            }
                            match self.parse_one_declaration(depth, prop, Ghost(dv), Ghost(nv)) {
                                Ok(decl) => {
                                    proof {
                                        lemma_sv_declaration_seq_push(decls@, decl);
                                    }
                                    decls.push(decl);
                                },
                                Err(e) => {
                                    return Err(e);
                                },
                            }
                        },
                        Token::Comment(_) => {
                            self.advance();
                        },
                        Token::ClassSelector(_) => {
                            proof {
                                assert(0 <= q < ts.len());
                                assert(0 < d);
                                assert(ts[q].tok matches Some(TokenModel::ClassSelector(_)));
                                assert(crate::parse_model::sp_block_items(ts, q, d, dv, nv)
                                    == crate::parse_model::sp_nested_rule(ts, q, d, dv, nv));
                            }
                            match self.parse_rule_set(depth - 1) {
                                Ok(rs) => {
                                    proof {
                                        assert(crate::parse_model::sp_rule_set(ts, q, d - 1)
                                            == Ok::<_, ErrModel>((crate::model::sv_rule_set(rs), (self.at() - q - 1) as nat)));
                                        assert(crate::parse_model::sp_nested_rule(ts, q, d, dv, nv)
                                            == crate::parse_model::sp_block_items(ts, self.at(), d, dv, nv.push(crate::model::RuleModel::RuleSet(crate::model::sv_rule_set(rs)))));
                                        lemma_sv_rules_push(nested@, Rule::RuleSet(rs));
                                    }
                                    nested.push(Rule::RuleSet(rs));
                                },
                                Err(e) => {
                                    return Err(e);
                                },
                            }
                        },
                        Token::Hash(_) => {
                            proof {
                                assert(crate::parse_model::sp_block_items(ts, q, d, dv, nv)
                                    == crate::parse_model::sp_nested_rule(ts, q, d, dv, nv));
                            }
                            match self.parse_rule_set(depth - 1) {
                                Ok(rs) => {
                                    proof {
                                        assert(crate::parse_model::sp_nested_rule(ts, q, d, dv, nv)
                                            == crate::parse_model::sp_block_items(ts, self.at(), d, dv, nv.push(crate::model::RuleModel::RuleSet(crate::model::sv_rule_set(rs)))));
                                        lemma_sv_rules_push(nested@, Rule::RuleSet(rs));
                                    }
                                    nested.push(Rule::RuleSet(rs));
                                },
                                Err(e) => {
                                    proof {
                                        assert(crate::parse_model::sp_nested_rule(ts, q, d, dv, nv)
                                            == Err::<(Seq<crate::model::DeclarationModel>, Seq<crate::model::RuleModel>), ErrModel>(sv_err(e)));
                                    }
                                    return Err(e);
                                },
                            }
                        },
                        Token::ParenthesisBlock(_) => {
                            proof {
                                assert(crate::parse_model::sp_block_items(ts, q, d, dv, nv)
                                    == crate::parse_model::sp_nested_rule(ts, q, d, dv, nv));
                            }
                            match self.parse_rule_set(depth - 1) {
                                Ok(rs) => {
                                    proof {
                                        assert(crate::parse_model::sp_nested_rule(ts, q, d, dv, nv)
                                            == crate::parse_model::sp_block_items(ts, self.at(), d, dv, nv.push(crate::model::RuleModel::RuleSet(crate::model::sv_rule_set(rs)))));
                                        lemma_sv_rules_push(nested@, Rule::RuleSet(rs));
                                    }
                                    nested.push(Rule::RuleSet(rs));
                                },
                                Err(e) => {
                                    proof {
                                        assert(crate::parse_model::sp_nested_rule(ts, q, d, dv, nv)
                                            == Err::<(Seq<crate::model::DeclarationModel>, Seq<crate::model::RuleModel>), ErrModel>(sv_err(e)));
                                    }
                                    return Err(e);
                                },
                            }
                        },
                        Token::SquareBracketBlock(_) => {
                            proof {
                                assert(crate::parse_model::sp_block_items(ts, q, d, dv, nv)
                                    == crate::parse_model::sp_nested_rule(ts, q, d, dv, nv));
                            }
                            match self.parse_rule_set(depth - 1) {
                                Ok(rs) => {
                                    proof {
                                        assert(crate::parse_model::sp_nested_rule(ts, q, d, dv, nv)
                                            == crate::parse_model::sp_block_items(ts, self.at(), d, dv, nv.push(crate::model::RuleModel::RuleSet(crate::model::sv_rule_set(rs)))));
                                        lemma_sv_rules_push(nested@, Rule::RuleSet(rs));
                                    }
                                    nested.push(Rule::RuleSet(rs));
                                },
                                Err(e) => {
                                    proof {
                                        assert(crate::parse_model::sp_nested_rule(ts, q, d, dv, nv)
                                            == Err::<(Seq<crate::model::DeclarationModel>, Seq<crate::model::RuleModel>), ErrModel>(sv_err(e)));
                                    }
                                    return Err(e);
                                },
                            }
                        },
                        _ => {
                            self.advance();
                        },
                    }
                },
            }
        }
    }

    /// One declaration inside a block, entered at its property token: the
    /// `:` before and the `;` after the value list are each required,
    /// fatally. See `sp_declaration`.
    #[verifier::loop_isolation(false)]
    fn parse_one_declaration(
        &mut self,
        depth: usize,
        prop: String,
        Ghost(dv): Ghost<Seq<crate::model::DeclarationModel>>,
        Ghost(nv): Ghost<Seq<crate::model::RuleModel>>,
    ) -> (r: Result<Declaration, ParseError>)
        requires
            old(self).wf(),
            old(self).at() < old(self).stream().len(),
            depth >= 1,
        ensures
            final(self).wf(),
            final(self).stream() == old(self).stream(),
            final(self).src_view() == old(self).src_view(),
            final(self).offset() == old(self).offset(),
            old(self).at() < final(self).at(),
            match r {
                Ok(decl) => crate::parse_model::sp_declaration(
                    old(self).stream(),
                    old(self).at(),
                    depth as int,
                    dv,
                    nv,
                    prop@,
                ) == crate::parse_model::sp_block_items(
                    old(self).stream(),
                    final(self).at(),
                    depth as int,
                    dv.push(sv_declaration(decl)),
                    nv,
                ),
                Err(e) => crate::parse_model::sp_declaration(
                    old(self).stream(),
                    old(self).at(),
                    depth as int,
                    dv,
                    nv,
                    prop@,
                ) == Err::<
                    (Seq<crate::model::DeclarationModel>, Seq<crate::model::RuleModel>),
                    _,
                >(sv_err(e)),
            },
    {
        self.advance();
        let colon_ok: bool = match self.cur_token() {
            Some(Ok(Token::Delim(c))) => c == ':',
            _ => false,
        };
        if !colon_ok {
            return Err(self.err(ErrorKind::UnexpectedToken));
        }
        self.advance();
        match self.parse_declaration_value(depth - 1) {
            Ok(vals) => {
                let semi_ok: bool = match self.cur_token() {
                    Some(Ok(Token::Delim(c2))) => c2 == ';',
                    _ => false,
                };
                if !semi_ok {
                    return Err(self.err(ErrorKind::UnexpectedToken));
                }
                self.advance();
                Ok(Declaration { property: prop, value: vals })
            },
            Err(e) => Err(e),
        }
    }
}

impl Parser {
    /// The at-rule production, entered just past the `AtKeyword` token:
    /// prelude tokens as raw text until a required `{...}` block, whose
    /// content is re-lexed and parsed as rule sets and nested at-rules.
    /// See `sp_at_rule`.
    #[verifier::loop_isolation(false)]
    #[verifier::rlimit(60)]
    fn parse_at_rule(&mut self, depth: usize, name: String) -> (r: Result<AtRule, ParseError>)
        requires
            old(self).wf(),
        ensures
            final(self).wf(),
            final(self).stream() == old(self).stream(),
            final(self).src_view() == old(self).src_view(),
            final(self).offset() == old(self).offset(),
            old(self).at() <= final(self).at(),
            match r {
                Ok(a) => crate::parse_model::sp_at_rule(
                    old(self).stream(),
                    old(self).at(),
                    depth as int,
                    name@,
                ) == Ok::<_, ErrModel>(
                    (
                        crate::model::sv_at_rule(a),
                        (final(self).at() - old(self).at() - 1) as nat,
                    ),
                ) && old(self).at() < final(self).at(),
                Err(e) => crate::parse_model::sp_at_rule(
                    old(self).stream(),
                    old(self).at(),
                    depth as int,
                    name@,
                ) == Err::<(crate::model::AtRuleModel, nat), _>(sv_err(e)),
            },
        decreases depth,
    {
        let ghost ts = self.stream();
        let ghost p0 = self.at();
        let ghost d = depth as int;
        if depth == 0 {
            return Err(self.err(ErrorKind::RecursionLimit));
        }
        let mut prelude: Vec<String> = Vec::new();
        proof {
            assert(sv_strings(prelude@) =~= Seq::<Seq<char>>::empty());
        }
        loop
            invariant
                self.wf(),
                self.stream() == ts,
                self.src_view() == old(self).src_view(),
                self.offset() == old(self).offset(),
                p0 <= self.at(),
                depth >= 1,
                d == depth as int,
                crate::parse_model::sp_at_prelude(ts, p0, d, Seq::empty()) == plus_used(
                    crate::parse_model::sp_at_prelude(ts, self.at(), d, sv_strings(prelude@)),
                    (self.at() - p0) as nat,
                ),
            decreases ts.len() - self.at(),
        {
            let ghost q = self.at();
            let ghost accv = sv_strings(prelude@);
            match self.cur_token() {
                None => {
                    return Err(self.err(ErrorKind::UnterminatedConstruct));
                },
                Some(Err(())) => {
                    proof {
                        lemma_plus_plus(
                            crate::parse_model::sp_at_prelude(ts, q + 1, d, accv),
                            1,
                            (q - p0) as nat,
                        );
                    }
                    self.advance();
                },
                Some(Ok(tok)) => {
                    match tok {
                        Token::CurlyBracketBlock(b) => {
                            let sp = self.cur_span();
                            let ghost lim = self.offset() + bytelen(self.src_view());
                            proof {
                                lemma_tokens_coherent(self.src_view(), 0);
                                let lt = spec_tokens(self.src_view())[self.at()];
                                assert(self.stream()[self.at()] == shift_lexed(
                                    lt,
                                    self.offset(),
                                ));
                                assert(b@ == lt.slice);
                                assert(sp.lo as int + bytelen(b@) <= lim);
                            }
                            let (content, off2) = crate::numbers::block_content_at(
                                b.as_str(),
                                sp.lo,
                                Ghost(lim),
                            );
                            let mut bp = Parser::new_at(content.as_str(), off2);
                            match bp.parse_at_block(depth - 1) {
                                Ok(rules) => {
                                    self.advance();
                                    let a = AtRule {
                                        name,
                                        prelude,
                                        block: Some(Stylesheet { rules }),
                                    };
                                    return Ok(a);
                                },
                                Err(e) => {
                                    return Err(e);
                                },
                            }
                        },
                        Token::Ident(v) => {
                            proof {
                                lemma_sv_strings_push(prelude@, v);
                                lemma_plus_plus(
                                    crate::parse_model::sp_at_prelude(
                                        ts,
                                        q + 1,
                                        d,
                                        accv.push(v@),
                                    ),
                                    1,
                                    (q - p0) as nat,
                                );
                            }
                            prelude.push(v);
                            self.advance();
                        },
                        Token::Number(v) => {
                            proof {
                                lemma_sv_strings_push(prelude@, v);
                                lemma_plus_plus(
                                    crate::parse_model::sp_at_prelude(
                                        ts,
                                        q + 1,
                                        d,
                                        accv.push(v@),
                                    ),
                                    1,
                                    (q - p0) as nat,
                                );
                            }
                            prelude.push(v);
                            self.advance();
                        },
                        Token::Dimension(v) => {
                            proof {
                                lemma_sv_strings_push(prelude@, v);
                                lemma_plus_plus(
                                    crate::parse_model::sp_at_prelude(
                                        ts,
                                        q + 1,
                                        d,
                                        accv.push(v@),
                                    ),
                                    1,
                                    (q - p0) as nat,
                                );
                            }
                            prelude.push(v);
                            self.advance();
                        },
                        Token::ParenthesisBlock(v) => {
                            proof {
                                lemma_sv_strings_push(prelude@, v);
                                lemma_plus_plus(
                                    crate::parse_model::sp_at_prelude(
                                        ts,
                                        q + 1,
                                        d,
                                        accv.push(v@),
                                    ),
                                    1,
                                    (q - p0) as nat,
                                );
                            }
                            prelude.push(v);
                            self.advance();
                        },
                        Token::SquareBracketBlock(v) => {
                            proof {
                                lemma_sv_strings_push(prelude@, v);
                                lemma_plus_plus(
                                    crate::parse_model::sp_at_prelude(
                                        ts,
                                        q + 1,
                                        d,
                                        accv.push(v@),
                                    ),
                                    1,
                                    (q - p0) as nat,
                                );
                            }
                            prelude.push(v);
                            self.advance();
                        },
                        _ => {
                            proof {
                                lemma_plus_plus(
                                    crate::parse_model::sp_at_prelude(ts, q + 1, d, accv),
                                    1,
                                    (q - p0) as nat,
                                );
                            }
                            self.advance();
                        },
                    }
                },
            }
        }
    }

    /// The body of an at-rule's block: rule sets and nested at-rules, to
    /// the end of the block's buffer. See `sp_at_block`.
    #[verifier::loop_isolation(false)]
    #[verifier::rlimit(100)]
    fn parse_at_block(&mut self, depth: usize) -> (r: Result<Vec<Rule>, ParseError>)
        requires
            old(self).wf(),
        ensures
            final(self).wf(),
            final(self).stream() == old(self).stream(),
            final(self).src_view() == old(self).src_view(),
            final(self).offset() == old(self).offset(),
            old(self).at() <= final(self).at(),
            match r {
                Ok(rules) => crate::parse_model::sp_at_block(
                    old(self).stream(),
                    old(self).at(),
                    depth as int,
                    Seq::empty(),
                ) == Ok::<_, ErrModel>(sv_rules(rules@)),
                Err(e) => crate::parse_model::sp_at_block(
                    old(self).stream(),
                    old(self).at(),
                    depth as int,
                    Seq::empty(),
                ) == Err::<Seq<crate::model::RuleModel>, _>(sv_err(e)),
            },
        decreases depth,
    {
        let ghost ts = self.stream();
        let ghost p0 = self.at();
        let ghost d = depth as int;
        if depth == 0 {
            match self.cur_token() {
                None => {
                    let rules: Vec<Rule> = Vec::new();
                    proof {
                        assert(sv_rules(rules@) =~= Seq::<crate::model::RuleModel>::empty());
                    }
                    return Ok(rules);
                },
                _ => {
                    return Err(self.err(ErrorKind::RecursionLimit));
                },
            }
        }
        let mut rules: Vec<Rule> = Vec::new();
        proof {
            assert(sv_rules(rules@) =~= Seq::<crate::model::RuleModel>::empty());
        }
        loop
            invariant
                self.wf(),
                self.stream() == ts,
                self.src_view() == old(self).src_view(),
                self.offset() == old(self).offset(),
                p0 <= self.at(),
                depth >= 1,
                d == depth as int,
                crate::parse_model::sp_at_block(ts, p0, d, Seq::empty())
                    == crate::parse_model::sp_at_block(ts, self.at(), d, sv_rules(rules@)),
            decreases ts.len() - self.at(),
        {
            let ghost q = self.at();
            let ghost rv = sv_rules(rules@);
            match self.cur_token() {
                None => {
                    return Ok(rules);
                },
                Some(Err(())) => {
                    self.advance();
                },
                Some(Ok(tok)) => {
                    match tok {
                        Token::Ident(_) => {
                            proof {
                                assert(crate::parse_model::sp_at_block(ts, q, d, rv)
                                    == crate::parse_model::sp_at_block_rule(ts, q, d, rv));
                            }
                            match self.parse_rule_set(depth - 1) {
                                Ok(rs) => {
                                    proof {
                                        assert(crate::parse_model::sp_at_block_rule(ts, q, d, rv)
                                            == crate::parse_model::sp_at_block(ts, self.at(), d, rv.push(crate::model::RuleModel::RuleSet(crate::model::sv_rule_set(rs)))));
                                        lemma_sv_rules_push(rules@, Rule::RuleSet(rs));
                                    }
                                    rules.push(Rule::RuleSet(rs));
                                },
                                Err(e) => {
                                    proof {
                                        assert(crate::parse_model::sp_at_block_rule(ts, q, d, rv)
                                            == Err::<Seq<crate::model::RuleModel>, ErrModel>(sv_err(e)));
                                    }
                                    return Err(e);
                                },
                            }
                        },
                        Token::ClassSelector(_) => {
                            proof {
                                assert(crate::parse_model::sp_at_block(ts, q, d, rv)
                                    == crate::parse_model::sp_at_block_rule(ts, q, d, rv));
                            }
                            match self.parse_rule_set(depth - 1) {
                                Ok(rs) => {
                                    proof {
                                        assert(crate::parse_model::sp_at_block_rule(ts, q, d, rv)
                                            == crate::parse_model::sp_at_block(ts, self.at(), d, rv.push(crate::model::RuleModel::RuleSet(crate::model::sv_rule_set(rs)))));
                                        lemma_sv_rules_push(rules@, Rule::RuleSet(rs));
                                    }
                                    rules.push(Rule::RuleSet(rs));
                                },
                                Err(e) => {
                                    proof {
                                        assert(crate::parse_model::sp_at_block_rule(ts, q, d, rv)
                                            == Err::<Seq<crate::model::RuleModel>, ErrModel>(sv_err(e)));
                                    }
                                    return Err(e);
                                },
                            }
                        },
                        Token::Hash(_) => {
                            proof {
                                assert(crate::parse_model::sp_at_block(ts, q, d, rv)
                                    == crate::parse_model::sp_at_block_rule(ts, q, d, rv));
                            }
                            match self.parse_rule_set(depth - 1) {
                                Ok(rs) => {
                                    proof {
                                        assert(crate::parse_model::sp_at_block_rule(ts, q, d, rv)
                                            == crate::parse_model::sp_at_block(ts, self.at(), d, rv.push(crate::model::RuleModel::RuleSet(crate::model::sv_rule_set(rs)))));
                                        lemma_sv_rules_push(rules@, Rule::RuleSet(rs));
                                    }
                                    rules.push(Rule::RuleSet(rs));
                                },
                                Err(e) => {
                                    proof {
                                        assert(crate::parse_model::sp_at_block_rule(ts, q, d, rv)
                                            == Err::<Seq<crate::model::RuleModel>, ErrModel>(sv_err(e)));
                                    }
                                    return Err(e);
                                },
                            }
                        },
                        Token::AtKeyword(n2) => {
                            let ghost n2v = n2@;
                            self.advance();
                            match self.parse_at_rule(depth - 1, n2) {
                                Ok(a) => {
                                    proof {
                                        assert(crate::parse_model::sp_at_block(ts, q, d, rv)
                                            == crate::parse_model::sp_at_block(ts, self.at(), d, rv.push(crate::model::RuleModel::AtRule(crate::model::sv_at_rule(a)))));
                                        lemma_sv_rules_push(rules@, Rule::AtRule(a));
                                    }
                                    rules.push(Rule::AtRule(a));
                                },
                                Err(e) => {
                                    proof {
                                        assert(crate::parse_model::sp_at_block(ts, q, d, rv)
                                            == Err::<Seq<crate::model::RuleModel>, ErrModel>(sv_err(e)));
                                    }
                                    return Err(e);
                                },
                            }
                        },
                        _ => {
                            self.advance();
                        },
                    }
                },
            }
        }
    }

    /// The top-level production: at-rules and rule sets, with any token
    /// that cannot start a rule skipped — top-level scanning is lenient,
    /// while errors inside the rules it enters are fatal. The parse runs
    /// with the full recursion budget `PARSE_DEPTH`. See `sp_stylesheet`.
    #[verifier::loop_isolation(false)]
    #[verifier::rlimit(100)]
    pub fn parse_stylesheet(&mut self) -> (r: Result<Stylesheet, ParseError>)
        requires
            old(self).wf(),
        ensures
            final(self).wf(),
            final(self).stream() == old(self).stream(),
            final(self).src_view() == old(self).src_view(),
            final(self).offset() == old(self).offset(),
            old(self).at() <= final(self).at(),
            match r {
                Ok(s) => crate::parse_model::sp_stylesheet(
                    old(self).stream(),
                    old(self).at(),
                    PARSE_DEPTH as int,
                    Seq::empty(),
                ) == Ok::<_, ErrModel>(sv_stylesheet(s).rules),
                Err(e) => crate::parse_model::sp_stylesheet(
                    old(self).stream(),
                    old(self).at(),
                    PARSE_DEPTH as int,
                    Seq::empty(),
                ) == Err::<Seq<crate::model::RuleModel>, _>(sv_err(e)),
            },
    {
        let ghost ts = self.stream();
        let ghost p0 = self.at();
        let ghost d = PARSE_DEPTH as int;
        let mut rules: Vec<Rule> = Vec::new();
        proof {
            assert(sv_rules(rules@) =~= Seq::<crate::model::RuleModel>::empty());
        }
        loop
            invariant
                self.wf(),
                self.stream() == ts,
                self.src_view() == old(self).src_view(),
                self.offset() == old(self).offset(),
                p0 <= self.at(),
                crate::parse_model::sp_stylesheet(ts, p0, d, Seq::empty())
                    == crate::parse_model::sp_stylesheet(ts, self.at(), d, sv_rules(rules@)),
            decreases ts.len() - self.at(),
        {
            let ghost q = self.at();
            let ghost rv = sv_rules(rules@);
            match self.cur_token() {
                None => {
                    return Ok(Stylesheet { rules });
                },
                Some(Err(())) => {
                    self.advance();
                },
                Some(Ok(tok)) => {
                    match tok {
                        Token::AtKeyword(n) => {
                            self.advance();
                            match self.parse_at_rule(PARSE_DEPTH - 1, n) {
                                Ok(a) => {
                                    proof {
                                        assert(crate::parse_model::sp_stylesheet(ts, q, d, rv)
                                            == crate::parse_model::sp_stylesheet(ts, self.at(), d, rv.push(crate::model::RuleModel::AtRule(crate::model::sv_at_rule(a)))));
                                        lemma_sv_rules_push(rules@, Rule::AtRule(a));
                                    }
                                    rules.push(Rule::AtRule(a));
                                },
                                Err(e) => {
                                    proof {
                                        assert(crate::parse_model::sp_stylesheet(ts, q, d, rv)
                                            == Err::<Seq<crate::model::RuleModel>, ErrModel>(sv_err(e)));
                                    }
                                    return Err(e);
                                },
                            }
                        },
                        Token::Ident(_) => {
                            proof {
                                assert(crate::parse_model::sp_stylesheet(ts, q, d, rv)
                                    == crate::parse_model::sp_top_rule(ts, q, d, rv));
                            }
                            match self.parse_rule_set(PARSE_DEPTH - 1) {
                                Ok(rs) => {
                                    proof {
                                        assert(crate::parse_model::sp_top_rule(ts, q, d, rv)
                                            == crate::parse_model::sp_stylesheet(ts, self.at(), d, rv.push(crate::model::RuleModel::RuleSet(crate::model::sv_rule_set(rs)))));
                                        lemma_sv_rules_push(rules@, Rule::RuleSet(rs));
                                    }
                                    rules.push(Rule::RuleSet(rs));
                                },
                                Err(e) => {
                                    proof {
                                        assert(crate::parse_model::sp_top_rule(ts, q, d, rv)
                                            == Err::<Seq<crate::model::RuleModel>, ErrModel>(sv_err(e)));
                                    }
                                    return Err(e);
                                },
                            }
                        },
                        Token::ClassSelector(_) => {
                            proof {
                                assert(crate::parse_model::sp_stylesheet(ts, q, d, rv)
                                    == crate::parse_model::sp_top_rule(ts, q, d, rv));
                            }
                            match self.parse_rule_set(PARSE_DEPTH - 1) {
                                Ok(rs) => {
                                    proof {
                                        assert(crate::parse_model::sp_top_rule(ts, q, d, rv)
                                            == crate::parse_model::sp_stylesheet(ts, self.at(), d, rv.push(crate::model::RuleModel::RuleSet(crate::model::sv_rule_set(rs)))));
                                        lemma_sv_rules_push(rules@, Rule::RuleSet(rs));
                                    }
                                    rules.push(Rule::RuleSet(rs));
                                },
                                Err(e) => {
                                    proof {
                                        assert(crate::parse_model::sp_top_rule(ts, q, d, rv)
                                            == Err::<Seq<crate::model::RuleModel>, ErrModel>(sv_err(e)));
                                    }
                                    return Err(e);
                                },
                            }
                        },
                        Token::Hash(_) => {
                            proof {
                                assert(crate::parse_model::sp_stylesheet(ts, q, d, rv)
                                    == crate::parse_model::sp_top_rule(ts, q, d, rv));
                            }
                            match self.parse_rule_set(PARSE_DEPTH - 1) {
                                Ok(rs) => {
                                    proof {
                                        assert(crate::parse_model::sp_top_rule(ts, q, d, rv)
                                            == crate::parse_model::sp_stylesheet(ts, self.at(), d, rv.push(crate::model::RuleModel::RuleSet(crate::model::sv_rule_set(rs)))));
                                        lemma_sv_rules_push(rules@, Rule::RuleSet(rs));
                                    }
                                    rules.push(Rule::RuleSet(rs));
                                },
                                Err(e) => {
                                    proof {
                                        assert(crate::parse_model::sp_top_rule(ts, q, d, rv)
                                            == Err::<Seq<crate::model::RuleModel>, ErrModel>(sv_err(e)));
                                    }
                                    return Err(e);
                                },
                            }
                        },
                        Token::PseudoClassSelector(_) => {
                            proof {
                                assert(crate::parse_model::sp_stylesheet(ts, q, d, rv)
                                    == crate::parse_model::sp_top_rule(ts, q, d, rv));
                            }
                            match self.parse_rule_set(PARSE_DEPTH - 1) {
                                Ok(rs) => {
                                    proof {
                                        assert(crate::parse_model::sp_top_rule(ts, q, d, rv)
                                            == crate::parse_model::sp_stylesheet(ts, self.at(), d, rv.push(crate::model::RuleModel::RuleSet(crate::model::sv_rule_set(rs)))));
                                        lemma_sv_rules_push(rules@, Rule::RuleSet(rs));
                                    }
                                    rules.push(Rule::RuleSet(rs));
                                },
                                Err(e) => {
                                    proof {
                                        assert(crate::parse_model::sp_top_rule(ts, q, d, rv)
                                            == Err::<Seq<crate::model::RuleModel>, ErrModel>(sv_err(e)));
                                    }
                                    return Err(e);
                                },
                            }
                        },
                        Token::SquareBracketBlock(_) => {
                            proof {
                                assert(crate::parse_model::sp_stylesheet(ts, q, d, rv)
                                    == crate::parse_model::sp_top_rule(ts, q, d, rv));
                            }
                            match self.parse_rule_set(PARSE_DEPTH - 1) {
                                Ok(rs) => {
                                    proof {
                                        assert(crate::parse_model::sp_top_rule(ts, q, d, rv)
                                            == crate::parse_model::sp_stylesheet(ts, self.at(), d, rv.push(crate::model::RuleModel::RuleSet(crate::model::sv_rule_set(rs)))));
                                        lemma_sv_rules_push(rules@, Rule::RuleSet(rs));
                                    }
                                    rules.push(Rule::RuleSet(rs));
                                },
                                Err(e) => {
                                    proof {
                                        assert(crate::parse_model::sp_top_rule(ts, q, d, rv)
                                            == Err::<Seq<crate::model::RuleModel>, ErrModel>(sv_err(e)));
                                    }
                                    return Err(e);
                                },
                            }
                        },
                        Token::Delim(c) => {
                            if c == '*' {
                                proof {
                                    assert(crate::parse_model::sp_stylesheet(ts, q, d, rv)
                                        == crate::parse_model::sp_top_rule(ts, q, d, rv));
                                }
                                match self.parse_rule_set(PARSE_DEPTH - 1) {
                                    Ok(rs) => {
                                        proof {
                                            assert(crate::parse_model::sp_top_rule(ts, q, d, rv)
                                                == crate::parse_model::sp_stylesheet(ts, self.at(), d, rv.push(crate::model::RuleModel::RuleSet(crate::model::sv_rule_set(rs)))));
                                            lemma_sv_rules_push(rules@, Rule::RuleSet(rs));
                                        }
                                        rules.push(Rule::RuleSet(rs));
                                    },
                                    Err(e) => {
                                        proof {
                                            assert(crate::parse_model::sp_top_rule(ts, q, d, rv)
                                                == Err::<Seq<crate::model::RuleModel>, ErrModel>(sv_err(e)));
                                        }
                                        return Err(e);
                                    },
                                }
                            } else {
                                self.advance();
                            }
                        },
                        _ => {
                            self.advance();
                        },
                    }
                },
            }
        }
    }
}

/// Parses a whole source buffer: the stylesheet it denotes, or the first
/// fatal error, exactly as the model `sp_parse` prescribes.
pub fn parse_css(css: &str) -> (r: Result<Stylesheet, ParseError>)
    ensures
        match r {
            Ok(s) => crate::parse_model::sp_parse(css@) == Ok::<_, ErrModel>(sv_stylesheet(s)),
            Err(e) => crate::parse_model::sp_parse(css@) == Err::<
                crate::model::StylesheetModel,
                _,
            >(sv_err(e)),
        },
{
    let mut p = Parser::new(css);
    p.parse_stylesheet()
}

/// The text a combinator splices in for the token after it.
fn combinator_text(t: Token) -> (r: String)
    ensures
        r@ == combinator_next_text(t@),
{
    match t {
        Token::Ident(x) => x,
        Token::ClassSelector(x) => x,
        Token::Hash(x) => {
            let mut h = String::from_str("#");
            proof {
                reveal_strlit("#");
                assert(h@ =~= seq!['#']);
            }
            h.append(x.as_str());
            h
        },
        _ => {
            let r = String::new();
            proof {
                assert(r@ =~= Seq::<char>::empty());
            }
            r
        },
    }
}

/// Pushes a raw fragment onto the classes of the last selector, if there
/// is one and it is simple.
fn push_class_on_last(sels: &mut Vec<Selector>, x: String)
    ensures
        sv_selector_seq(final(sels)@) == append_class(sv_selector_seq(old(sels)@), x@),
{
    proof {
        lemma_sv_selector_seq_len(sels@);
    }
    if sels.len() == 0 {
        return ;
    }
    let ghost v0 = sels@;
    proof {
        lemma_sv_selector_seq_last(v0);
    }
    let n = sels.len();
    let last = sels.remove(n - 1);
    proof {
        assert(sels@ =~= v0.drop_last());
        assert(last == v0.last());
    }
    match last {
        Selector::Simple(ss) => {
            let SimpleSelector { tag, id, classes } = ss;
            let mut classes2 = classes;
            proof {
                lemma_sv_strings_push(classes2@, x);
            }
            classes2.push(x);
            let rebuilt = Selector::Simple(SimpleSelector { tag, id, classes: classes2 });
            proof {
                assert(v0.update(v0.len() - 1, rebuilt) =~= v0.drop_last().push(rebuilt));
                lemma_sv_selector_seq_update(v0, v0.len() - 1, rebuilt);
                lemma_sv_selector_seq_push(v0.drop_last(), rebuilt);
            }
            sels.push(rebuilt);
            proof {
                assert(sels@ =~= v0.update(v0.len() - 1, rebuilt));
            }
        },
        other => {
            sels.push(other);
            proof {
                assert(sels@ =~= v0);
            }
        },
    }
}

} // verus!
