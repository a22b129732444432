//! Executable parsing of numeric token text into the exact decimal `Num`
//! and into `rgb`/`rgba` channel values, proved against `spec_num` and
//! `spec_u8`.

use vstd::prelude::*;
use crate::ast::Num;
use crate::lexer::{find_from, is_digit, is_space, scan_space};
use crate::parse_model::{
    all_digits, content_offset, digits_val, first_alpha_from, inner_content, spec_num, spec_u8,
    strip_pct, trim, trim_end_len,
};

verus! {

/// Appending a digit multiplies the value by ten and adds it.
proof fn lemma_digits_snoc(s: Seq<char>, c: char)
    ensures
        digits_val(s.push(c)) == digits_val(s) * 10 + (if is_digit(c) {
            (c as int) - ('0' as int)
        } else {
            0
        }),
{
    assert(s.push(c).drop_last() =~= s);
    assert(s.push(c).last() == c);
}

fn digit_c(c: char) -> (b: bool)
    ensures
        b == is_digit(c),
{
    '0' <= c && c <= '9'
}

/// The value of a decimal digit.
fn digit_of(c: char) -> (d: u64)
    requires
        is_digit(c),
    ensures
        d == (c as int) - ('0' as int),
        d <= 9,
{
    (c as u32 - '0' as u32) as u64
}

/// `find_from` finds `c` at `k` when nothing before `k` is `c`.
proof fn lemma_find_exact(s: Seq<char>, j: int, k: int, c: char)
    requires
        0 <= j <= k < s.len(),
        s[k] == c,
        forall|i: int| j <= i < k ==> s[i] != c,
    ensures
        find_from(s, j, c) == k,
    decreases k - j,
{
    if j < k {
        lemma_find_exact(s, j + 1, k, c);
    }
}

/// `find_from` finds nothing when `c` does not occur from `j` on.
proof fn lemma_find_none(s: Seq<char>, j: int, c: char)
    requires
        0 <= j <= s.len(),
        forall|i: int| j <= i < s.len() ==> s[i] != c,
    ensures
        find_from(s, j, c) == -1,
    decreases s.len() - j,
{
    if j < s.len() {
        lemma_find_none(s, j + 1, c);
    }
}

/// `find_from` stays within bounds and lands on its character.
proof fn lemma_find_bounds(s: Seq<char>, i: int, c: char)
    requires
        0 <= i <= s.len(),
    ensures
        find_from(s, i, c) == -1 || (i <= find_from(s, i, c) < s.len() && s[find_from(s, i, c)]
            == c),
    decreases s.len() - i,
{
    if i < s.len() && s[i] != c {
        lemma_find_bounds(s, i + 1, c);
    }
}

/// The sign-stripped body that `spec_num` and `spec_u8` work over.
spec fn num_body(t: Seq<char>) -> Seq<char> {
    if t.len() > 0 && (t[0] == '+' || t[0] == '-') {
        t.subrange(1, t.len() as int)
    } else {
        t
    }
}

/// When the scanned shape is sign, digits, and either nothing or `.` plus
/// digits to the end, `spec_num` accepts exactly the scanned parts.
proof fn lemma_accept_shape(t: Seq<char>, start: int, int_end: int, len: int)
    requires
        len == t.len(),
        len <= usize::MAX,
        0 <= start <= 1,
        start == 1 <==> t.len() > 0 && (t[0] == '+' || t[0] == '-'),
        start < int_end <= len,
        forall|i: int| start <= i < int_end ==> is_digit(#[trigger] t[i]),
        int_end < len ==> t[int_end] == '.' && int_end + 1 < len,
        forall|i: int| int_end + 1 <= i < len ==> is_digit(#[trigger] t[i]),
    ensures
        ({
            let ip = t.subrange(start, int_end);
            let fp = if int_end < len {
                t.subrange(int_end + 1, len)
            } else {
                Seq::<char>::empty()
            };
            spec_num(t) == (if digits_val(ip + fp) <= u64::MAX {
                Some(
                    Num {
                        neg: t.len() > 0 && t[0] == '-',
                        mantissa: digits_val(ip + fp) as u64,
                        scale: fp.len() as usize,
                    },
                )
            } else {
                None::<Num>
            })
        }),
{
    let body = num_body(t);
    assert(body =~= t.subrange(start, len));
    let ip = t.subrange(start, int_end);
    assert(forall|i: int| 0 <= i < ip.len() ==> #[trigger] ip[i] == t[start + i]);
    if int_end < len {
        assert(forall|i: int| 0 <= i < int_end - start ==> #[trigger] body[i] == t[start + i]);
        lemma_find_exact(body, 0, int_end - start, '.');
        assert(body.subrange(0, int_end - start) =~= ip);
        let fp = t.subrange(int_end + 1, len);
        assert(body.subrange(int_end - start + 1, body.len() as int) =~= fp);
        assert(forall|i: int| 0 <= i < fp.len() ==> #[trigger] fp[i] == t[int_end + 1 + i]);
        assert(all_digits(ip));
        assert(all_digits(fp));
    } else {
        assert(forall|i: int| 0 <= i < body.len() ==> #[trigger] body[i] == t[start + i]);
        lemma_find_none(body, 0, '.');
        assert(ip =~= body);
        assert(all_digits(body));
        assert(ip + Seq::<char>::empty() =~= body);
    }
}

/// With no leading digit after the sign, `spec_num` rejects.
proof fn lemma_reject_no_int(t: Seq<char>, start: int, len: int)
    requires
        len == t.len(),
        0 <= start <= 1,
        start == 1 <==> t.len() > 0 && (t[0] == '+' || t[0] == '-'),
        start <= len,
        start == len || !is_digit(t[start]),
    ensures
        spec_num(t) is None,
{
    let body = num_body(t);
    assert(body =~= t.subrange(start, len));
    if body.len() == 0 {
        let dot = find_from(body, 0, '.');
        lemma_find_bounds(body, 0, '.');
        assert(dot == -1);
    } else {
        assert(body[0] == t[start]);
        let dot = find_from(body, 0, '.');
        lemma_find_bounds(body, 0, '.');
        if dot == 0 {
            assert(body.subrange(0, 0).len() == 0);
        } else if dot > 0 {
            let ip = body.subrange(0, dot);
            assert(ip[0] == body[0]);
            assert(!is_digit(ip[0]));
        } else {
            assert(!is_digit(body[0]));
        }
    }
}

/// When a non-digit, non-dot character follows the integer digits,
/// `spec_num` rejects.
proof fn lemma_reject_junk(t: Seq<char>, start: int, i: int, len: int)
    requires
        len == t.len(),
        0 <= start <= 1,
        start == 1 <==> t.len() > 0 && (t[0] == '+' || t[0] == '-'),
        start <= i < len,
        forall|j: int| start <= j < i ==> is_digit(#[trigger] t[j]),
        !is_digit(t[i]),
        t[i] != '.',
    ensures
        spec_num(t) is None,
{
    let body = num_body(t);
    assert(body =~= t.subrange(start, len));
    assert(forall|j: int| 0 <= j < body.len() ==> #[trigger] body[j] == t[start + j]);
    let dot = find_from(body, 0, '.');
    lemma_find_bounds(body, 0, '.');
    if dot >= 0 {
        assert(body[dot] == '.');
        assert(dot != i - start);
        if dot < i - start {
            assert(body[dot] == t[start + dot]);
            assert(is_digit(t[start + dot]));
            assert(false);
        } else {
            let ip = body.subrange(0, dot);
            assert(ip[i - start] == body[i - start]);
            assert(!is_digit(ip[i - start]));
        }
    } else {
        assert(!is_digit(body[i - start]));
    }
}

/// When the fraction is empty or followed by junk, `spec_num` rejects.
proof fn lemma_reject_frac(t: Seq<char>, start: int, int_end: int, j: int, len: int)
    requires
        len == t.len(),
        0 <= start <= 1,
        start == 1 <==> t.len() > 0 && (t[0] == '+' || t[0] == '-'),
        start < int_end < len,
        forall|i: int| start <= i < int_end ==> is_digit(#[trigger] t[i]),
        t[int_end] == '.',
        int_end + 1 <= j <= len,
        forall|i: int| int_end + 1 <= i < j ==> is_digit(#[trigger] t[i]),
        j == int_end + 1 || (j < len && !is_digit(t[j])),
        j == int_end + 1 ==> (j == len || !is_digit(t[j])),
    ensures
        spec_num(t) is None,
{
    let body = num_body(t);
    assert(body =~= t.subrange(start, len));
    assert(forall|i: int| 0 <= i < body.len() ==> #[trigger] body[i] == t[start + i]);
    lemma_find_exact(body, 0, int_end - start, '.');
    let fp = body.subrange(int_end - start + 1, body.len() as int);
    assert(forall|i: int| 0 <= i < fp.len() ==> #[trigger] fp[i] == t[int_end + 1 + i]);
    if j == len {
        if j == int_end + 1 {
            assert(fp.len() == 0);
        } else {
            assert(false);
        }
    } else {
        assert(fp[j - int_end - 1] == t[j]);
        assert(!is_digit(fp[j - int_end - 1]));
        assert(!all_digits(fp));
    }
}

/// Parses a numeric literal into the exact decimal it denotes, or `None`
/// when the text has another shape or its digits overflow the mantissa.
pub fn parse_num(t: &str) -> (r: Option<Num>)
    ensures
        r == spec_num(t@),
{
    let len = t.unicode_len();
    if len == 0 {
        proof {
            lemma_reject_no_int(t@, 0, 0);
        }
        return None;
    }
    let c0 = t.get_char(0);
    let start: usize = if c0 == '+' || c0 == '-' {
        1
    } else {
        0
    };
    let neg = c0 == '-';

    // Integer digits.
    let mut i: usize = start;
    let mut mant: u64 = 0;
    let mut over: bool = false;
    let ghost mut dig = Seq::<char>::empty();
    while i < len && digit_c(t.get_char(i))
        invariant
            len == t@.len(),
            start <= i <= len,
            dig =~= t@.subrange(start as int, i as int),
            forall|j: int| start <= j < i ==> is_digit(#[trigger] t@[j]),
            !over ==> mant == digits_val(dig),
            over ==> digits_val(dig) > u64::MAX,
        decreases len - i,
    {
        let c = t.get_char(i);
        let d = digit_of(c);
        proof {
            lemma_digits_snoc(dig, c);
            assert(t@.subrange(start as int, i + 1) =~= dig.push(c));
        }
        if !over {
            if mant <= (u64::MAX - d) / 10 {
                mant = mant * 10 + d;
            } else {
                proof {
                    assert(digits_val(dig) * 10 + d > u64::MAX) by (nonlinear_arith)
                        requires
                            digits_val(dig) == mant,
                            mant > (u64::MAX - d) / 10,
                            d <= 9,
                    ;
                }
                over = true;
            }
        } else {
            proof {
                assert(digits_val(dig) * 10 + ((c as int) - ('0' as int)) > u64::MAX)
                    by (nonlinear_arith)
                    requires
                        digits_val(dig) > u64::MAX,
                        is_digit(c),
                ;
            }
        }
        proof {
            dig = dig.push(c);
        }
        i = i + 1;
    }
    if i == start {
        proof {
            lemma_reject_no_int(t@, start as int, len as int);
        }
        return None;
    }
    let int_end: usize = i;

    // Optional fraction: a `.` followed by one or more digits, to the end.
    let mut scale: usize = 0;
    if i < len {
        let c = t.get_char(i);
        if c != '.' {
            proof {
                lemma_reject_junk(t@, start as int, i as int, len as int);
            }
            return None;
        }
        let mut j: usize = i + 1;
        proof {
            assert(dig =~= t@.subrange(start as int, int_end as int) + t@.subrange(
                int_end + 1,
                int_end + 1,
            ));
        }
        while j < len && digit_c(t.get_char(j))
            invariant
                len == t@.len(),
                start < int_end < len,
                t@[int_end as int] == '.',
                forall|k: int| start <= k < int_end ==> is_digit(#[trigger] t@[k]),
                int_end + 1 <= j <= len,
                dig =~= t@.subrange(start as int, int_end as int) + t@.subrange(
                    int_end + 1,
                    j as int,
                ),
                forall|k: int| int_end + 1 <= k < j ==> is_digit(#[trigger] t@[k]),
                !over ==> mant == digits_val(dig),
                over ==> digits_val(dig) > u64::MAX,
            decreases len - j,
        {
            let c2 = t.get_char(j);
            let d = digit_of(c2);
            proof {
                lemma_digits_snoc(dig, c2);
                assert(t@.subrange(start as int, int_end as int) + t@.subrange(
                    int_end + 1,
                    j + 1,
                ) =~= dig.push(c2));
            }
            if !over {
                if mant <= (u64::MAX - d) / 10 {
                    mant = mant * 10 + d;
                } else {
                    proof {
                        assert(digits_val(dig) * 10 + d > u64::MAX) by (nonlinear_arith)
                            requires
                                digits_val(dig) == mant,
                                mant > (u64::MAX - d) / 10,
                                d <= 9,
                        ;
                    }
                    over = true;
                }
            } else {
                proof {
                    assert(digits_val(dig) * 10 + ((c2 as int) - ('0' as int)) > u64::MAX)
                        by (nonlinear_arith)
                        requires
                            digits_val(dig) > u64::MAX,
                            is_digit(c2),
                    ;
                }
            }
            proof {
                dig = dig.push(c2);
            }
            j = j + 1;
        }
        if j == int_end + 1 || j < len {
            proof {
                lemma_reject_frac(t@, start as int, int_end as int, j as int, len as int);
            }
            return None;
        }
        scale = len - (int_end + 1);
    }
    proof {
        lemma_accept_shape(t@, start as int, int_end as int, len as int);
        if int_end < len {
            assert(dig =~= t@.subrange(start as int, int_end as int) + t@.subrange(
                int_end + 1,
                len as int,
            ));
        } else {
            assert(dig =~= t@.subrange(start as int, int_end as int) + Seq::<char>::empty());
        }
    }
    if over {
        None
    } else {
        Some(Num { neg, mantissa: mant, scale })
    }
}

/// Parses an `rgb`/`rgba` channel: an optional `+`, then digits with value
/// at most 255.
#[verifier::loop_isolation(false)]
pub fn parse_u8(t: &str) -> (r: Option<u8>)
    ensures
        r == spec_u8(t@),
{
    let len = t.unicode_len();
    if len == 0 {
        return None;
    }
    let start: usize = if t.get_char(0) == '+' {
        1
    } else {
        0
    };
    let ghost body = if t@.len() > 0 && t@[0] == '+' {
        t@.subrange(1, len as int)
    } else {
        t@
    };
    proof {
        assert(body =~= t@.subrange(start as int, len as int));
    }
    if start >= len {
        return None;
    }
    let mut i: usize = start;
    let mut val: u64 = 0;
    let mut over: bool = false;
    let ghost mut dig = Seq::<char>::empty();
    while i < len
        invariant
            len == t@.len(),
            body =~= t@.subrange(start as int, len as int),
            start <= i <= len,
            dig =~= t@.subrange(start as int, i as int),
            forall|j: int| start <= j < i ==> is_digit(#[trigger] t@[j]),
            !over ==> val == digits_val(dig) && val <= 255,
            over ==> digits_val(dig) > 255,
        decreases len - i,
    {
        let c = t.get_char(i);
        if !digit_c(c) {
            proof {
                assert(body[i - start as int] == t@[i as int]);
                assert(!all_digits(body));
            }
            return None;
        }
        let d = digit_of(c);
        proof {
            lemma_digits_snoc(dig, c);
            assert(t@.subrange(start as int, i + 1) =~= dig.push(c));
        }
        if !over {
            let next = val * 10 + d;
            if next > 255 {
                over = true;
            } else {
                val = next;
            }
        } else {
            proof {
                assert(digits_val(dig) * 10 + ((c as int) - ('0' as int)) > 255)
                    by (nonlinear_arith)
                    requires
                        digits_val(dig) > 255,
                        is_digit(c),
                ;
            }
        }
        proof {
            dig = dig.push(c);
        }
        i = i + 1;
    }
    proof {
        assert(body =~= dig);
        assert(forall|j: int| 0 <= j < body.len() ==> #[trigger] body[j] == t@[start + j]);
        assert(all_digits(body));
    }
    if over {
        None
    } else {
        Some(val as u8)
    }
}

/// The split point of a dimension's text: the first letter.
pub fn find_alpha(t: &str) -> (k: usize)
    ensures
        k == first_alpha_from(t@, 0),
        k <= t@.len(),
{
    let len = t.unicode_len();
    let mut i: usize = 0;
    while i < len && !(('a' <= t.get_char(i) && t.get_char(i) <= 'z') || ('A' <= t.get_char(i)
        && t.get_char(i) <= 'Z'))
        invariant
            len == t@.len(),
            0 <= i <= len,
            first_alpha_from(t@, 0) == first_alpha_from(t@, i as int),
        decreases len - i,
    {
        i = i + 1;
    }
    i
}

/// The text with every trailing `%` removed, as an owned copy.
pub fn strip_percent(t: &str) -> (r: String)
    ensures
        r@ == strip_pct(t@),
{
    let len = t.unicode_len();
    let mut e: usize = len;
    proof {
        assert(t@.subrange(0, len as int) =~= t@);
    }
    while e > 0 && t.get_char(e - 1) == '%'
        invariant
            len == t@.len(),
            0 <= e <= len,
            strip_pct(t@) == strip_pct(t@.subrange(0, e as int)),
        decreases e,
    {
        proof {
            assert(t@.subrange(0, e as int).drop_last() =~= t@.subrange(0, e - 1));
        }
        e = e - 1;
    }
    t.substring_char(0, e).to_owned()
}

fn space_c(c: char) -> (b: bool)
    ensures
        b == is_space(c),
{
    c == ' ' || c == '\t' || c == '\n' || c == '\r' || c == '\x0c'
}

/// The text with leading and trailing whitespace removed, as an owned copy.
pub fn trim_x(t: &str) -> (r: String)
    ensures
        r@ == trim(t@),
{
    let len = t.unicode_len();
    let mut a: usize = 0;
    while a < len && space_c(t.get_char(a))
        invariant
            len == t@.len(),
            0 <= a <= len,
            scan_space(t@, 0) == scan_space(t@, a as int),
        decreases len - a,
    {
        a = a + 1;
    }
    let mut b: usize = len;
    proof {
        assert(t@.subrange(0, len as int) =~= t@);
    }
    while b > 0 && space_c(t.get_char(b - 1))
        invariant
            len == t@.len(),
            0 <= b <= len,
            trim_end_len(t@) == trim_end_len(t@.subrange(0, b as int)),
        decreases b,
    {
        proof {
            assert(t@.subrange(0, b as int).drop_last() =~= t@.subrange(0, b - 1));
        }
        b = b - 1;
    }
    if a <= b {
        t.substring_char(a, b).to_owned()
    } else {
        String::new()
    }
}

/// Leading and trailing whitespace is ASCII, so it encodes one byte per
/// character; the bytes of what lies between fit in the whole's encoding.
proof fn lemma_trim_bytes(t: Seq<char>, a: int, e: int)
    requires
        0 <= a <= t.len(),
        0 <= e <= t.len(),
        forall|k: int| 0 <= k < a ==> is_space(#[trigger] t[k]),
        forall|k: int| e <= k < t.len() ==> is_space(#[trigger] t[k]),
    ensures
        a <= crate::lexer::bytelen(t),
        a <= e ==> a + crate::lexer::bytelen(t.subrange(a, e)) + (t.len() - e)
            <= crate::lexer::bytelen(t),
{
    let pre = t.subrange(0, a);
    assert(vstd::utf8::is_ascii_chars(pre)) by {
        assert forall|k: int| 0 <= k < pre.len() implies '\0' <= #[trigger] pre[k] <= '\u{7f}' by {
            assert(pre[k] == t[k]);
            assert(is_space(t[k]));
        }
    }
    vstd::utf8::is_ascii_chars_encode_utf8(pre);
    assert(t =~= pre + t.subrange(a, t.len() as int));
    crate::lexer::lemma_bytelen_concat(pre, t.subrange(a, t.len() as int));
    if a <= e {
        let mid = t.subrange(a, e);
        let tail = t.subrange(e, t.len() as int);
        assert(vstd::utf8::is_ascii_chars(tail)) by {
            assert forall|k: int|
                0 <= k < tail.len() implies '\0' <= #[trigger] tail[k] <= '\u{7f}' by {
                assert(tail[k] == t[e + k]);
                assert(is_space(t[e + k]));
            }
        }
        vstd::utf8::is_ascii_chars_encode_utf8(tail);
        assert(t.subrange(a, t.len() as int) =~= mid + tail);
        crate::lexer::lemma_bytelen_concat(mid, tail);
    }
}

/// A brace-delimited block's encoding is its inner text's plus one byte for
/// each brace.
proof fn lemma_brace_bytes(b: Seq<char>)
    requires
        b.len() >= 2,
        b[0] == '{',
        b[b.len() - 1] == '}',
    ensures
        crate::lexer::bytelen(b) == 2 + crate::lexer::bytelen(b.subrange(1, b.len() - 1)),
{
    let first = b.subrange(0, 1);
    let mid = b.subrange(1, b.len() - 1);
    let last = b.subrange(b.len() - 1, b.len() as int);
    assert(vstd::utf8::is_ascii_chars(first)) by {
        assert(first[0] == '{');
    }
    assert(vstd::utf8::is_ascii_chars(last)) by {
        assert(last[0] == '}');
    }
    vstd::utf8::is_ascii_chars_encode_utf8(first);
    vstd::utf8::is_ascii_chars_encode_utf8(last);
    assert(b =~= first + (mid + last));
    crate::lexer::lemma_bytelen_concat(first, mid + last);
    crate::lexer::lemma_bytelen_concat(mid, last);
}

/// A block token's content and where that content begins: the outer braces
/// removed, the rest trimmed, and the content's start position in the
/// buffer that holds the block — the block's own start `lo`, past the
/// opening `{` and the trimmed leading whitespace. `limit` bounds the
/// block's end so the offset arithmetic cannot overflow.
#[verifier::loop_isolation(false)]
pub fn block_content_at(b: &str, lo: usize, Ghost(limit): Ghost<int>) -> (r: (String, usize))
    requires
        lo + crate::lexer::bytelen(b@) <= limit,
        limit <= usize::MAX,
    ensures
        r.0@ == inner_content(b@),
        r.1 == content_offset(lo as int, b@),
        r.1 + crate::lexer::bytelen(r.0@) <= limit,
{
    let len = b.unicode_len();
    if len >= 2 && b.get_char(0) == '{' && b.get_char(len - 1) == '}' {
        let stripped = b.substring_char(1, len - 1);
        let slen = len - 2;
        let mut a: usize = 0;
        while a < slen && space_c(stripped.get_char(a))
            invariant
                slen == stripped@.len(),
                0 <= a <= slen,
                scan_space(stripped@, 0) == scan_space(stripped@, a as int),
            decreases slen - a,
        {
            a = a + 1;
        }
        let mut e: usize = slen;
        proof {
            assert(stripped@.subrange(0, slen as int) =~= stripped@);
        }
        while e > 0 && space_c(stripped.get_char(e - 1))
            invariant
                slen == stripped@.len(),
                0 <= e <= slen,
                trim_end_len(stripped@) == trim_end_len(stripped@.subrange(0, e as int)),
                forall|k: int| e <= k < slen ==> is_space(#[trigger] stripped@[k]),
            decreases e,
        {
            proof {
                assert(stripped@.subrange(0, e as int).drop_last() =~= stripped@.subrange(
                    0,
                    e - 1,
                ));
            }
            e = e - 1;
        }
        let content = if a <= e {
            stripped.substring_char(a, e).to_owned()
        } else {
            String::new()
        };
        proof {
            assert(content@ == trim(stripped@));
            crate::lexer::lemma_scan_space(stripped@, 0);
            lemma_brace_bytes(b@);
            lemma_trim_bytes(stripped@, a as int, e as int);
            if a > e {
                assert(crate::lexer::bytelen(content@) == 0);
            }
        }
        (content, lo + 1 + a)
    } else {
        let mut a: usize = 0;
        while a < len && space_c(b.get_char(a))
            invariant
                len == b@.len(),
                0 <= a <= len,
                scan_space(b@, 0) == scan_space(b@, a as int),
            decreases len - a,
        {
            a = a + 1;
        }
        let mut e: usize = len;
        proof {
            assert(b@.subrange(0, len as int) =~= b@);
        }
        while e > 0 && space_c(b.get_char(e - 1))
            invariant
                len == b@.len(),
                0 <= e <= len,
                trim_end_len(b@) == trim_end_len(b@.subrange(0, e as int)),
                forall|k: int| e <= k < len ==> is_space(#[trigger] b@[k]),
            decreases e,
        {
            proof {
                assert(b@.subrange(0, e as int).drop_last() =~= b@.subrange(0, e - 1));
            }
            e = e - 1;
        }
        let content = if a <= e {
            b.substring_char(a, e).to_owned()
        } else {
            String::new()
        };
        proof {
            assert(content@ == trim(b@));
            crate::lexer::lemma_scan_space(b@, 0);
            lemma_trim_bytes(b@, a as int, e as int);
            if a > e {
                assert(crate::lexer::bytelen(content@) == 0);
            }
        }
        (content, lo + a)
    }
}

} // verus!
