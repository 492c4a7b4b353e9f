//! Training on one sample of a single class: with a learning rate small
//! enough not to overshoot, the epoch error never grows.
use vstd::prelude::*;

use crate::adaline_nn::{
    dot,
    dot_upto,
    epoch_rows,
    epoch_total,
    features_of,
    index_of,
    lemma_index_of,
    mean,
    row_error,
    sq_error,
    sq_error_upto,
    step_of,
    stepped_rows,
    targets_of,
    updated_row,
    zero_rows,
    ONE,
    WEIGHT_LIMIT,
};
use crate::sample::{all_bipolar, Sample};
use crate::trainer::{epoch_mse, trained_rows};

verus! {

/// The row `s * x`.
pub open spec fn scaled(x: Seq<i8>, s: int) -> Seq<i64> {
    Seq::new(x.len(), |j: int| (s * x[j]) as i64)
}

/// The multiple of `x` that the single row holds after `e` epochs.
spec fn scale_after(x: Seq<i8>, ln: int, ld: int, e: nat) -> int
    decreases e,
{
    if e == 0 {
        0
    } else {
        let s = scale_after(x, ln, ld, (e - 1) as nat);
        s + step_of(ln, ld, ONE - s * x.len())
    }
}

/// The activation of `s * x` on bipolar `x`, over the first `k` features,
/// is `s * k`.
proof fn lemma_dot_scaled(x: Seq<i8>, s: int, k: int)
    requires
        all_bipolar(x),
        0 <= k <= x.len(),
        -ONE <= s <= ONE,
    ensures
        dot_upto(x, scaled(x, s), k) == s * k,
    decreases k,
{
    if k == 0 {
        assert(s * 0 == 0) by (nonlinear_arith);
    } else {
        lemma_dot_scaled(x, s, k - 1);
        let xj = x[k - 1];
        assert(xj == 1 || xj == -1);
        assert(-ONE <= s * xj <= ONE) by (nonlinear_arith)
            requires
                xj == 1 || xj == -1,
                -ONE <= s <= ONE,
        ;
        assert(scaled(x, s)[k - 1] == s * xj);
        assert(xj * (s * xj) == s) by (nonlinear_arith)
            requires
                xj == 1 || xj == -1,
        ;
        assert(s * (k - 1) + s == s * k) by (nonlinear_arith);
    }
}

/// One LMS step on the single row `s * x`, with a target of `ONE`.
proof fn lemma_single_step(x: Seq<i8>, ln: int, ld: int, s: int)
    requires
        all_bipolar(x),
        1 <= x.len(),
        0 < ln,
        0 < ld,
        2 * ln * x.len() <= ld,
        0 <= s,
        s * x.len() <= ONE,
    ensures
        ({
            let f = x.len() as int;
            let e = ONE - s * f;
            let d = step_of(ln, ld, e);
            &&& 0 <= d
            &&& f * d <= e
            &&& (2 * ln * e >= ld ==> d >= 1)
            &&& stepped_rows(seq![scaled(x, s)], x, 0, ln, ld) == seq![scaled(x, s + d)]
            &&& sq_error(seq![scaled(x, s)], x, 0) == e * e
        }),
{
    let f = x.len() as int;
    let e = ONE - s * f;
    let d = step_of(ln, ld, e);
    let w = scaled(x, s);
    assert(s <= ONE) by (nonlinear_arith)
        requires
            0 <= s,
            1 <= f,
            s * f <= ONE,
    ;
    lemma_dot_scaled(x, s, f);
    assert(dot(x, w) == s * f);
    assert(row_error(x, w, 0, 0) == e);
    assert(0 <= e);
    assert(d == (2 * ln * e) / ld);
    assert(0 <= d && d * ld <= 2 * ln * e && (2 * ln * e >= ld ==> d >= 1)) by (nonlinear_arith)
        requires
            0 <= e,
            0 < ln,
            0 < ld,
            d == (2 * ln * e) / ld,
    ;
    assert(f * d <= e) by (nonlinear_arith)
        requires
            0 <= d,
            0 <= e,
            1 <= f,
            0 < ld,
            d * ld <= 2 * ln * e,
            2 * ln * f <= ld,
    ;
    assert((s + d) * f == s * f + f * d) by (nonlinear_arith);
    assert(s + d <= ONE) by (nonlinear_arith)
        requires
            0 <= s,
            0 <= d,
            1 <= f,
            (s + d) * f <= ONE,
    ;
    assert forall|j: int| 0 <= j < f implies #[trigger] updated_row(w, x, d)[j] == scaled(
        x,
        s + d,
    )[j] by {
        let xj = x[j];
        assert(xj == 1 || xj == -1);
        assert(-ONE <= s * xj <= ONE) by (nonlinear_arith)
            requires
                xj == 1 || xj == -1,
                0 <= s <= ONE,
        ;
        assert(w[j] == s * xj);
        assert(s * xj + d * xj == (s + d) * xj) by (nonlinear_arith);
        assert(-WEIGHT_LIMIT <= (s + d) * xj <= WEIGHT_LIMIT) by (nonlinear_arith)
            requires
                xj == 1 || xj == -1,
                0 <= s + d <= ONE,
                ONE < WEIGHT_LIMIT,
        ;
    }
    assert(updated_row(w, x, d) =~= scaled(x, s + d));
    assert(stepped_rows(seq![w], x, 0, ln, ld)[0] == updated_row(w, x, d));
    assert(stepped_rows(seq![w], x, 0, ln, ld) =~= seq![scaled(x, s + d)]);
    reveal_with_fuel(sq_error_upto, 2);
    assert(sq_error(seq![w], x, 0) == e * e);
}

/// One epoch over a single sample is one LMS step.
proof fn lemma_one_sample_epoch(rows: Seq<Seq<i64>>, x: Seq<i8>, ln: int, ld: int)
    ensures
        epoch_rows(rows, seq![x], seq![0int], ln, ld, 1) == stepped_rows(rows, x, 0, ln, ld),
        epoch_total(rows, seq![x], seq![0int], ln, ld, 1) == sq_error(rows, x, 0),
{
    reveal_with_fuel(epoch_rows, 2);
    reveal_with_fuel(epoch_total, 2);
}

/// After `e` epochs the single row is `scale_after(e) * x`, short of the target.
proof fn lemma_state(x: Seq<i8>, ln: int, ld: int, e: nat)
    requires
        all_bipolar(x),
        1 <= x.len(),
        0 < ln,
        0 < ld,
        2 * ln * x.len() <= ld,
    ensures
        0 <= scale_after(x, ln, ld, e),
        scale_after(x, ln, ld, e) * x.len() <= ONE,
        trained_rows(zero_rows(1, x.len() as int), seq![x], seq![0int], ln, ld, e as int)
            == seq![scaled(x, scale_after(x, ln, ld, e))],
    decreases e,
{
    let rows0 = zero_rows(1, x.len() as int);
    if e == 0 {
        assert(scaled(x, 0) =~= rows0[0]);
        assert(rows0 =~= seq![scaled(x, 0)]);
    } else {
        lemma_state(x, ln, ld, (e - 1) as nat);
        let s = scale_after(x, ln, ld, (e - 1) as nat);
        lemma_single_step(x, ln, ld, s);
        lemma_one_sample_epoch(seq![scaled(x, s)], x, ln, ld);
        let d = step_of(ln, ld, ONE - s * x.len());
        assert((s + d) * x.len() == s * x.len() + x.len() * d) by (nonlinear_arith);
    }
}

/// The error of epoch `e`, squared back: the epoch error is `E * E` with
/// `E = ONE - scale_after(e) * F`.
proof fn lemma_epoch_error(x: Seq<i8>, ln: int, ld: int, e: nat)
    requires
        all_bipolar(x),
        1 <= x.len(),
        0 < ln,
        0 < ld,
        2 * ln * x.len() <= ld,
    ensures
        ({
            let err = ONE - scale_after(x, ln, ld, e) * x.len();
            epoch_mse(zero_rows(1, x.len() as int), seq![x], seq![0int], ln, ld, e as int) == err
                * err
        }),
{
    lemma_state(x, ln, ld, e);
    let s = scale_after(x, ln, ld, e);
    lemma_single_step(x, ln, ld, s);
    lemma_one_sample_epoch(seq![scaled(x, s)], x, ln, ld);
    let err = ONE - s * x.len();
    assert(mean(err * err, 1) == err * err);
}

/// Trained repeatedly from fresh weights on a single sample with bipolar
/// features, in a model of a single class, with a learning rate of at most
/// `1 / (2F)` (no overshoot), the epoch error never grows from one epoch to
/// the next; and it strictly falls whenever one step is not rounded to zero,
/// that is while `(2 * lr * E)^2 >= 1` in fixed-point units.
pub proof fn lemma_single_class_error_decreases(
    label: Seq<char>,
    sample: Sample,
    ln: int,
    ld: int,
    e: nat,
)
    requires
        sample.character@ == label,
        all_bipolar(sample.grid@),
        1 <= sample.grid@.len(),
        0 < ln,
        0 < ld,
        2 * ln * sample.grid@.len() <= ld,
    ensures
        ({
            let rows0 = zero_rows(1, sample.grid@.len() as int);
            let xs = features_of(seq![sample]);
            let ts = targets_of(seq![label], seq![sample]);
            let now = epoch_mse(rows0, xs, ts, ln, ld, e as int);
            let next = epoch_mse(rows0, xs, ts, ln, ld, e + 1 as int);
            &&& 0 <= next <= now
            &&& 4 * ln * ln * now >= ld * ld ==> next < now
        }),
{
    let x = sample.grid@;
    let xs = features_of(seq![sample]);
    let ts = targets_of(seq![label], seq![sample]);
    lemma_index_of(seq![label], label, 0);
    assert(xs =~= seq![x]);
    assert(ts =~= seq![0int]);
    lemma_epoch_error(x, ln, ld, e);
    lemma_epoch_error(x, ln, ld, (e + 1) as nat);
    lemma_state(x, ln, ld, e);
    let s = scale_after(x, ln, ld, e);
    lemma_single_step(x, ln, ld, s);
    let f = x.len() as int;
    let err = ONE - s * f;
    let d = step_of(ln, ld, err);
    assert(scale_after(x, ln, ld, (e + 1) as nat) == s + d);
    let err2 = ONE - (s + d) * f;
    assert(err2 == err - f * d) by (nonlinear_arith)
        requires
            err2 == ONE - (s + d) * f,
            err == ONE - s * f,
    ;
    assert(0 <= err2 * err2 <= err * err) by (nonlinear_arith)
        requires
            0 <= err2 <= err,
    ;
    if 4 * ln * ln * (err * err) >= ld * ld {
        assert(2 * ln * err >= ld) by (nonlinear_arith)
            requires
                4 * ln * ln * (err * err) >= ld * ld,
                0 <= err,
                0 < ln,
                0 < ld,
        ;
        assert(f * d >= 1) by (nonlinear_arith)
            requires
                f >= 1,
                d >= 1,
        ;
        assert(err2 * err2 < err * err) by (nonlinear_arith)
            requires
                0 <= err2 < err,
        ;
    }
}

} // verus!
