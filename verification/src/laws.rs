//! Laws of the parser that hold for every input, stated and proved against
//! the models that the executable code is verified to follow.

use vstd::prelude::*;
use crate::model::{ColorValueModel, ErrModel, ValueModel};
use crate::parse_model::{
    all_digits, digits_val, plus_used, sp_function, sp_num_args, spec_u8,
};
use crate::token::{LexedModel, TokenModel};

verus! {

/// A plain digit string with value at most 255 denotes exactly that value
/// as an `rgb`/`rgba` channel: no rounding, no clamping.
pub proof fn lemma_channel_exact(t: Seq<char>)
    requires
        t.len() > 0,
        all_digits(t),
        digits_val(t) <= 255,
    ensures
        spec_u8(t) == Some(digits_val(t) as u8),
{
    assert(crate::lexer::is_digit(t[0]));
}

/// For every well-formed `rgb(r, g, b)` argument list — three digit
/// strings whose values lie in `0..=255`, comma-separated and closed — the
/// function production yields exactly the written integers as the three
/// channels: no rounding, no clamping, and all six tokens consumed. The
/// executable parser is proved equal to `sp_function`, so this holds of
/// every parse.
pub proof fn lemma_rgb_exact(
    ts: Seq<LexedModel>,
    p: int,
    d: int,
    t1: Seq<char>,
    t2: Seq<char>,
    t3: Seq<char>,
)
    requires
        d >= 1,
        0 <= p,
        p + 6 <= ts.len(),
        ts[p].tok == Some(TokenModel::Number(t1)),
        ts[p + 1].tok == Some(TokenModel::Delim(',')),
        ts[p + 2].tok == Some(TokenModel::Number(t2)),
        ts[p + 3].tok == Some(TokenModel::Delim(',')),
        ts[p + 4].tok == Some(TokenModel::Number(t3)),
        ts[p + 5].tok == Some(TokenModel::Delim(')')),
        t1.len() > 0 && all_digits(t1) && digits_val(t1) <= 255,
        t2.len() > 0 && all_digits(t2) && digits_val(t2) <= 255,
        t3.len() > 0 && all_digits(t3) && digits_val(t3) <= 255,
    ensures
        sp_function(ts, p, d, "rgb"@) == Ok::<_, ErrModel>(
            (
                ValueModel::Color(
                    ColorValueModel::Rgb {
                        r: digits_val(t1) as u8,
                        g: digits_val(t2) as u8,
                        b: digits_val(t3) as u8,
                    },
                ),
                6nat,
            ),
        ),
{
    let texts = seq![t1, t2, t3];
    assert(sp_num_args(ts, p + 5, texts) == Ok::<_, ErrModel>((texts, 1nat)));
    assert(Seq::empty().push(t1).push(t2).push(t3) =~= texts);
    assert(Seq::empty().push(t1).push(t2) =~= texts.drop_last());
    assert(sp_num_args(ts, p + 4, seq![t1, t2]) == plus_used(
        sp_num_args(ts, p + 5, seq![t1, t2].push(t3)),
        1,
    ));
    assert(seq![t1, t2].push(t3) =~= texts);
    assert(sp_num_args(ts, p + 4, seq![t1, t2]) == Ok::<_, ErrModel>((texts, 2nat)));
    assert(sp_num_args(ts, p + 3, seq![t1, t2]) == plus_used(
        sp_num_args(ts, p + 4, seq![t1, t2]),
        1,
    ));
    assert(sp_num_args(ts, p + 2, seq![t1]) == plus_used(
        sp_num_args(ts, p + 3, seq![t1].push(t2)),
        1,
    ));
    assert(seq![t1].push(t2) =~= seq![t1, t2]);
    assert(sp_num_args(ts, p + 2, seq![t1]) == Ok::<_, ErrModel>((texts, 4nat)));
    assert(sp_num_args(ts, p + 1, seq![t1]) == plus_used(sp_num_args(ts, p + 2, seq![t1]), 1));
    assert(sp_num_args(ts, p, Seq::empty()) == plus_used(
        sp_num_args(ts, p + 1, Seq::empty().push(t1)),
        1,
    ));
    assert(Seq::<Seq<char>>::empty().push(t1) =~= seq![t1]);
    assert(sp_num_args(ts, p, Seq::empty()) == Ok::<_, ErrModel>((texts, 6nat)));
    lemma_channel_exact(t1);
    lemma_channel_exact(t2);
    lemma_channel_exact(t3);
    assert(texts[0] == t1 && texts[1] == t2 && texts[2] == t3);
    assert(texts.len() == 3);
}

} // verus!
