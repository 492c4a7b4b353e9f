//! Adaline network: one linear output unit per class, trained with the
//! least-mean-squares rule. The type keeps the historical name `Perceptron`.
use vstd::prelude::*;

use crate::error::ModelError;
use crate::sample::Sample;

verus! {

/// The fixed-point unit: the real value `1.0` is held as `ONE`.
pub const ONE: i64 = 1048576;

/// Every weight stays within `[-WEIGHT_LIMIT, WEIGHT_LIMIT]`; an update that
/// would leave the range saturates at its edge.
pub const WEIGHT_LIMIT: i64 = 268435456;

/// The largest feature length a model may have.
pub const MAX_FEATURES: usize = 1024;

/// The largest number of classes a model may have.
pub const MAX_CLASSES: usize = 65536;

/// The largest number of samples one epoch may hold.
pub const MAX_SAMPLES: usize = 65536;

/// Bound on one product of a feature and a weight.
const TERM_BOUND: i128 = 34359738368;

/// Bound on an activation, and on an error.
const ERROR_BOUND: i128 = 70368744177664;

/// Bound on one squared error.
const SQ_ERROR_BOUND: u128 = 4951760157141521099596496896;

/// Bound on one LMS step.
const STEP_BOUND: i128 = 604462909807314587353088;

/// Bound on the summed squared error of one sample.
const SAMPLE_ERROR_BOUND: u128 = 324518553658426726783156020576256;

/// Sum of `x[j] * w[j]` over the first `k` positions.
pub open spec fn dot_upto(x: Seq<i8>, w: Seq<i64>, k: int) -> int
    decreases k,
{
    if k <= 0 {
        0
    } else {
        dot_upto(x, w, k - 1) + x[k - 1] * w[k - 1]
    }
}

/// The activation of the weight row `w` on the features `x`.
pub open spec fn dot(x: Seq<i8>, w: Seq<i64>) -> int {
    dot_upto(x, w, x.len() as int)
}

/// The wanted output of row `r` when the sample belongs to class `t`.
pub open spec fn target(r: int, t: int) -> int {
    if r == t {
        ONE as int
    } else {
        -ONE
    }
}

/// The error of row `w` (row number `r`) on features `x` of class `t`.
pub open spec fn row_error(x: Seq<i8>, w: Seq<i64>, r: int, t: int) -> int {
    target(r, t) - dot(x, w)
}

/// The LMS step `2 * lr * e` for the learning rate `ln / ld`, rounded toward zero.
pub open spec fn step_of(ln: int, ld: int, e: int) -> int {
    if e >= 0 {
        (2 * ln * e) / ld
    } else {
        -((2 * ln * (-e)) / ld)
    }
}

/// `v` saturated to the weight range.
pub open spec fn clamp(v: int) -> int {
    if v > WEIGHT_LIMIT {
        WEIGHT_LIMIT as int
    } else if v < -WEIGHT_LIMIT {
        -WEIGHT_LIMIT
    } else {
        v
    }
}

/// Row `w` moved by `d` along the features `x`.
pub open spec fn updated_row(w: Seq<i64>, x: Seq<i8>, d: int) -> Seq<i64> {
    Seq::new(w.len(), |j: int| clamp(w[j] + d * x[j]) as i64)
}

/// All rows after one LMS update on features `x` of class `t`: each row moves
/// by its own error, measured before any row changed.
pub open spec fn stepped_rows(rows: Seq<Seq<i64>>, x: Seq<i8>, t: int, ln: int, ld: int) -> Seq<
    Seq<i64>,
> {
    Seq::new(
        rows.len(),
        |r: int| updated_row(rows[r], x, step_of(ln, ld, row_error(x, rows[r], r, t))),
    )
}

/// Sum of the squared errors of the first `k` rows on features `x` of class `t`.
pub open spec fn sq_error_upto(rows: Seq<Seq<i64>>, x: Seq<i8>, t: int, k: int) -> int
    decreases k,
{
    if k <= 0 {
        0
    } else {
        sq_error_upto(rows, x, t, k - 1) + row_error(x, rows[k - 1], k - 1, t) * row_error(
            x,
            rows[k - 1],
            k - 1,
            t,
        )
    }
}

/// Sum over all rows of the squared errors on features `x` of class `t`.
pub open spec fn sq_error(rows: Seq<Seq<i64>>, x: Seq<i8>, t: int) -> int {
    sq_error_upto(rows, x, t, rows.len() as int)
}

/// The rows after the LMS update has run on the first `k` samples, in order.
pub open spec fn epoch_rows(
    rows: Seq<Seq<i64>>,
    xs: Seq<Seq<i8>>,
    ts: Seq<int>,
    ln: int,
    ld: int,
    k: int,
) -> Seq<Seq<i64>>
    decreases k,
{
    if k <= 0 {
        rows
    } else {
        stepped_rows(epoch_rows(rows, xs, ts, ln, ld, k - 1), xs[k - 1], ts[k - 1], ln, ld)
    }
}

/// The summed squared error of the first `k` samples, each measured against
/// the rows as they stood at the start of its own update.
pub open spec fn epoch_total(
    rows: Seq<Seq<i64>>,
    xs: Seq<Seq<i8>>,
    ts: Seq<int>,
    ln: int,
    ld: int,
    k: int,
) -> int
    decreases k,
{
    if k <= 0 {
        0
    } else {
        epoch_total(rows, xs, ts, ln, ld, k - 1) + sq_error(
            epoch_rows(rows, xs, ts, ln, ld, k - 1),
            xs[k - 1],
            ts[k - 1],
        )
    }
}

/// `i` is the first row whose activation `a` on `x` is the largest.
pub open spec fn is_first_max(rows: Seq<Seq<i64>>, x: Seq<i8>, i: int, a: int) -> bool {
    &&& 0 <= i < rows.len()
    &&& a == dot(x, rows[i])
    &&& forall|r: int| 0 <= r < rows.len() ==> dot(x, #[trigger] rows[r]) <= a
    &&& forall|r: int| 0 <= r < i ==> dot(x, #[trigger] rows[r]) < a
}

/// Every weight of `w` lies in the weight range.
pub open spec fn row_in_range(w: Seq<i64>) -> bool {
    forall|j: int| 0 <= j < w.len() ==> -WEIGHT_LIMIT <= #[trigger] w[j] <= WEIGHT_LIMIT
}

/// No two labels are equal.
pub open spec fn distinct(labels: Seq<Seq<char>>) -> bool {
    forall|i: int, j: int|
        0 <= i < labels.len() && 0 <= j < labels.len() && i != j ==> labels[i] != labels[j]
}

/// The row index of label `l` (meaningful when `l` is among `labels`).
pub open spec fn index_of(labels: Seq<Seq<char>>, l: Seq<char>) -> int {
    choose|i: int| 0 <= i < labels.len() && labels[i] == l
}

/// `n` rows of `f` zero weights each.
pub open spec fn zero_rows(n: int, f: int) -> Seq<Seq<i64>> {
    Seq::new(n as nat, |r: int| Seq::new(f as nat, |j: int| 0i64))
}

/// The construction parameters are usable: one label per class, at least one
/// class, sizes in bounds, a positive learning rate and distinct labels.
pub open spec fn valid_config(
    num_outputs: usize,
    num_inputs: usize,
    lr_num: u32,
    lr_den: u32,
    labels: Seq<Seq<char>>,
) -> bool {
    &&& num_outputs == labels.len()
    &&& 1 <= num_outputs <= MAX_CLASSES
    &&& num_inputs <= MAX_FEATURES
    &&& lr_num > 0
    &&& lr_den > 0
    &&& distinct(labels)
}

/// A row of `n` zero weights.
fn zero_row(n: usize) -> (r: Vec<i64>)
    ensures
        r@ == Seq::new(n as nat, |j: int| 0i64),
{
    let mut v: Vec<i64> = Vec::new();
    let mut j: usize = 0;
    while j < n
        invariant
            j <= n,
            v@ == Seq::new(j as nat, |k: int| 0i64),
        decreases n - j,
    {
        v.push(0);
        j += 1;
        assert(v@ =~= Seq::new(j as nat, |k: int| 0i64));
    }
    v
}

/// `|x * w|` is within `TERM_BOUND` for a feature and a weight in range.
proof fn lemma_term_bound(x: i8, w: i64)
    requires
        -WEIGHT_LIMIT <= w <= WEIGHT_LIMIT,
    ensures
        -TERM_BOUND <= x * w <= TERM_BOUND,
{
    assert(-128 <= x <= 127);
    assert(-TERM_BOUND <= x * w <= TERM_BOUND) by (nonlinear_arith)
        requires
            -128 <= x <= 127,
            -268435456 <= w <= 268435456,
            TERM_BOUND == 34359738368,
    ;
}

/// The activation of `weights` on `input`.
fn dot_product(input: &[i8], weights: &Vec<i64>) -> (r: i128)
    requires
        input@.len() == weights@.len(),
        input@.len() <= MAX_FEATURES,
        row_in_range(weights@),
    ensures
        r == dot(input@, weights@),
        -ERROR_BOUND + ONE <= r <= ERROR_BOUND - ONE,
{
    let mut acc: i128 = 0;
    let mut j: usize = 0;
    while j < input.len()
        invariant
            j <= input@.len(),
            input@.len() == weights@.len(),
            input@.len() <= MAX_FEATURES,
            row_in_range(weights@),
            acc == dot_upto(input@, weights@, j as int),
            -(j * TERM_BOUND) <= acc <= j * TERM_BOUND,
        decreases input@.len() - j,
    {
        proof {
            lemma_term_bound(input@[j as int], weights@[j as int]);
        }
        acc = acc + (input[j] as i128) * (weights[j] as i128);
        j += 1;
    }
    acc
}

/// The LMS step for the error `e` under the learning rate `ln / ld`.
fn lms_step(ln: u32, ld: u32, e: i128) -> (d: i128)
    requires
        ld > 0,
        -ERROR_BOUND <= e <= ERROR_BOUND,
    ensures
        d == step_of(ln as int, ld as int, e as int),
        -STEP_BOUND <= d <= STEP_BOUND,
{
    let mag: u128 = if e >= 0 {
        e as u128
    } else {
        (-e) as u128
    };
    assert(2 * ln * mag <= STEP_BOUND) by (nonlinear_arith)
        requires
            0 <= ln <= 4294967295,
            0 <= mag <= 70368744177664,
            STEP_BOUND == 604462909807314587353088,
    ;
    let num: u128 = 2 * (ln as u128) * mag;
    let q: u128 = num / (ld as u128);
    assert(q <= num) by (nonlinear_arith)
        requires
            ld >= 1,
            num >= 0,
            q == num / (ld as u128),
    ;
    if e >= 0 {
        q as i128
    } else {
        -(q as i128)
    }
}

/// The square of an error, within its bound.
proof fn lemma_square_bound(e: int)
    requires
        -ERROR_BOUND <= e <= ERROR_BOUND,
    ensures
        0 <= e * e <= SQ_ERROR_BOUND,
{
    assert(0 <= e * e <= SQ_ERROR_BOUND) by (nonlinear_arith)
        requires
            -70368744177664 <= e <= 70368744177664,
            SQ_ERROR_BOUND == 4951760157141521099596496896,
    ;
}

/// Row `w` moved by `d` along `x`, each weight saturated to the weight range.
fn moved_row(w: &Vec<i64>, x: &[i8], d: i128) -> (r: Vec<i64>)
    requires
        w@.len() == x@.len(),
        row_in_range(w@),
        -STEP_BOUND <= d <= STEP_BOUND,
    ensures
        r@ == updated_row(w@, x@, d as int),
        row_in_range(r@),
{
    let mut out: Vec<i64> = Vec::new();
    let mut j: usize = 0;
    while j < w.len()
        invariant
            j <= w@.len(),
            w@.len() == x@.len(),
            row_in_range(w@),
            -STEP_BOUND <= d <= STEP_BOUND,
            out@ == updated_row(w@, x@, d as int).subrange(0, j as int),
        decreases w@.len() - j,
    {
        let xj: i8 = x[j];
        assert(-STEP_BOUND * 128 <= d * xj <= STEP_BOUND * 128) by (nonlinear_arith)
            requires
                -128 <= xj <= 127,
                -STEP_BOUND <= d <= STEP_BOUND,
                STEP_BOUND == 604462909807314587353088,
        ;
        let v: i128 = (w[j] as i128) + d * (xj as i128);
        let c: i64 = if v > WEIGHT_LIMIT as i128 {
            WEIGHT_LIMIT
        } else if v < -(WEIGHT_LIMIT as i128) {
            -WEIGHT_LIMIT
        } else {
            v as i64
        };
        out.push(c);
        j += 1;
        assert(out@ =~= updated_row(w@, x@, d as int).subrange(0, j as int));
    }
    assert(out@ =~= updated_row(w@, x@, d as int));
    out
}

/// The activation of an all-zero row is zero.
proof fn lemma_dot_zero_row(x: Seq<i8>, w: Seq<i64>, k: int)
    requires
        0 <= k <= w.len(),
        forall|j: int| 0 <= j < w.len() ==> #[trigger] w[j] == 0,
    ensures
        dot_upto(x, w, k) == 0,
    decreases k,
{
    if k > 0 {
        lemma_dot_zero_row(x, w, k - 1);
        assert(x[k - 1] * w[k - 1] == 0);
    }
}

/// On a freshly built network every activation is zero, so prediction picks
/// the first class, with activation zero, whatever the input (in particular
/// the all-zero input).
pub proof fn lemma_fresh_model_predicts_first(n: int, f: int, x: Seq<i8>, i: int, a: int)
    requires
        1 <= n,
        0 <= f,
        x.len() == f,
        is_first_max(zero_rows(n, f), x, i, a),
    ensures
        i == 0,
        a == 0,
{
    let rows = zero_rows(n, f);
    assert(rows[i].len() == f);
    lemma_dot_zero_row(x, rows[i], f);
    if i > 0 {
        lemma_dot_zero_row(x, rows[0], f);
        assert(dot(x, rows[0]) < a);
    }
}

/// A network of a single class accepts for training every sample that bears
/// its label and has its feature length, and always predicts that class.
pub proof fn lemma_single_class(
    label: Seq<char>,
    f: nat,
    s: Sample,
    rows: Seq<Seq<i64>>,
    x: Seq<i8>,
    i: int,
    a: int,
)
    requires
        s.character@ == label,
        s.grid@.len() == f,
        rows.len() == 1,
        is_first_max(rows, x, i, a),
    ensures
        fits(seq![label], f, s),
        i == 0,
{
    assert(seq![label][0] == label);
}

/// The features of each sample, in order.
pub open spec fn features_of(samples: Seq<Sample>) -> Seq<Seq<i8>> {
    samples.map_values(|s: Sample| s.grid@)
}

/// The row index of each sample's label, in order.
pub open spec fn targets_of(labels: Seq<Seq<char>>, samples: Seq<Sample>) -> Seq<int> {
    samples.map_values(|s: Sample| index_of(labels, s.character@))
}

/// `s` can be trained on: its label has a row and its length is `f`.
pub open spec fn fits(labels: Seq<Seq<char>>, f: nat, s: Sample) -> bool {
    &&& labels.contains(s.character@)
    &&& s.grid@.len() == f
}

/// The error reported for a sample that does not fit: an unknown label
/// first, else the wrong length.
pub open spec fn misfit_error(labels: Seq<Seq<char>>, f: nat, s: Sample) -> ModelError {
    if !labels.contains(s.character@) {
        ModelError::UnknownClass { label: s.character }
    } else {
        ModelError::DimensionMismatch { expected: f as usize, actual: s.grid@.len() as usize }
    }
}

/// The mean of `total` over `n` samples; no samples have mean zero.
pub open spec fn mean(total: int, n: int) -> int {
    if n <= 0 {
        0
    } else {
        total / n
    }
}

/// With distinct labels, the row that holds `l` is `index_of(labels, l)`.
pub proof fn lemma_index_of(labels: Seq<Seq<char>>, l: Seq<char>, i: int)
    requires
        distinct(labels),
        0 <= i < labels.len(),
        labels[i] == l,
    ensures
        index_of(labels, l) == i,
{
    let k = index_of(labels, l);
    assert(0 <= k < labels.len() && labels[k] == l);
}

/// Adaline network: `weights[r]` is the row of class `characters[r]`.
pub struct Perceptron {
    weights: Vec<Vec<i64>>,
    lr_num: u32,
    lr_den: u32,
    num_inputs: usize,
    characters: Vec<String>,
}

impl Perceptron {
    /// The weight rows, one per class.
    pub closed spec fn rows(&self) -> Seq<Seq<i64>> {
        self.weights@.map_values(|v: Vec<i64>| v@)
    }

    /// The class labels; the position of a label is its row index.
    pub closed spec fn labels(&self) -> Seq<Seq<char>> {
        self.characters@.map_values(|s: String| s@)
    }

    /// The feature length.
    pub closed spec fn feature_len(&self) -> nat {
        self.num_inputs as nat
    }

    /// The numerator of the learning rate.
    pub closed spec fn lr_num(&self) -> int {
        self.lr_num as int
    }

    /// The denominator of the learning rate.
    pub closed spec fn lr_den(&self) -> int {
        self.lr_den as int
    }

    /// One row per label, each of the feature length and within the weight
    /// range; distinct labels; a positive learning rate; sizes in bounds.
    pub open spec fn wf(&self) -> bool {
        &&& self.rows().len() == self.labels().len()
        &&& 1 <= self.rows().len() <= MAX_CLASSES
        &&& self.feature_len() <= MAX_FEATURES
        &&& forall|r: int|
            0 <= r < self.rows().len() ==> (#[trigger] self.rows()[r]).len() == self.feature_len()
                && row_in_range(self.rows()[r])
        &&& distinct(self.labels())
        &&& 0 < self.lr_num()
        &&& 0 < self.lr_den()
    }

    /// Builds a network with `num_outputs` zero rows of length `num_inputs`,
    /// learning rate `lr_num / lr_den`, and the class roster `characters`
    /// (the position of a label is its row index).
    pub fn new(
        num_outputs: usize,
        num_inputs: usize,
        lr_num: u32,
        lr_den: u32,
        characters: &[String],
    ) -> (r: Result<Perceptron, ModelError>)
        ensures
            valid_config(num_outputs, num_inputs, lr_num, lr_den, characters@.map_values(
                |s: String| s@,
            )) <==> r is Ok,
            r matches Ok(m) ==> {
                &&& m.wf()
                &&& m.rows() == zero_rows(num_outputs as int, num_inputs as int)
                &&& m.labels() == characters@.map_values(|s: String| s@)
                &&& m.feature_len() == num_inputs
                &&& m.lr_num() == lr_num
                &&& m.lr_den() == lr_den
            },
            r is Err ==> r == Err::<Perceptron, ModelError>(ModelError::InvalidModelConfig),
    {
        let ghost labels = characters@.map_values(|s: String| s@);
        if num_outputs != characters.len() || num_outputs == 0 || num_outputs > MAX_CLASSES
            || num_inputs > MAX_FEATURES || lr_num == 0 || lr_den == 0 {
            return Err(ModelError::InvalidModelConfig);
        }
        let mut i: usize = 0;
        while i < characters.len()
            invariant
                i <= characters@.len(),
                labels == characters@.map_values(|s: String| s@),
                forall|a: int, b: int|
                    0 <= a < i && 0 <= b < labels.len() && a != b ==> labels[a] != labels[b],
            decreases characters@.len() - i,
        {
            let mut j: usize = 0;
            while j < characters.len()
                invariant
                    i < characters@.len(),
                    j <= characters@.len(),
                    labels == characters@.map_values(|s: String| s@),
                    forall|a: int, b: int|
                        0 <= a < i && 0 <= b < labels.len() && a != b ==> labels[a] != labels[b],
                    forall|b: int| 0 <= b < j && i != b ==> labels[i as int] != labels[b],
                decreases characters@.len() - j,
            {
                if i != j && characters[i] == characters[j] {
                    assert(labels[i as int] == labels[j as int]);
                    return Err(ModelError::InvalidModelConfig);
                }
                j += 1;
            }
            i += 1;
        }
        let mut weights: Vec<Vec<i64>> = Vec::new();
        let mut names: Vec<String> = Vec::new();
        let mut r: usize = 0;
        while r < num_outputs
            invariant
                r <= num_outputs,
                num_outputs == characters@.len(),
                weights@.len() == r,
                names@.len() == r,
                forall|k: int| 0 <= k < r ==> (#[trigger] weights@[k])@ == Seq::new(
                    num_inputs as nat,
                    |j: int| 0i64,
                ),
                forall|k: int| 0 <= k < r ==> #[trigger] names@[k] == characters@[k],
            decreases num_outputs - r,
        {
            weights.push(zero_row(num_inputs));
            names.push(characters[r].clone());
            r += 1;
        }
        let m = Perceptron { weights, lr_num, lr_den, num_inputs, characters: names };
        assert(m.rows() =~= zero_rows(num_outputs as int, num_inputs as int));
        assert(m.labels() =~= labels);
        Ok(m)
    }

    /// The winning class of `input`: the first row with the largest
    /// activation, and that activation.
    pub fn predict(&self, input: &[i8]) -> (r: Result<(usize, i64), ModelError>)
        requires
            self.wf(),
        ensures
            input@.len() != self.feature_len() ==> r == Err::<(usize, i64), ModelError>(
                ModelError::DimensionMismatch {
                    expected: self.feature_len() as usize,
                    actual: input@.len() as usize,
                },
            ),
            input@.len() == self.feature_len() ==> (r matches Ok((i, a)) && is_first_max(
                self.rows(),
                input@,
                i as int,
                a as int,
            )),
    {
        if input.len() != self.num_inputs {
            return Err(
                ModelError::DimensionMismatch { expected: self.num_inputs, actual: input.len() },
            );
        }
        if self.weights.len() == 0 {
            return Err(ModelError::EmptyModel);
        }
        let ghost rows = self.rows();
        assert(rows[0].len() == self.feature_len());
        let mut best: usize = 0;
        let mut best_score: i128 = dot_product(input, &self.weights[0]);
        let mut r: usize = 1;
        while r < self.weights.len()
            invariant
                self.wf(),
                rows == self.rows(),
                input@.len() == self.feature_len(),
                1 <= r <= rows.len(),
                best < r,
                best_score == dot(input@, rows[best as int]),
                -ERROR_BOUND <= best_score <= ERROR_BOUND,
                forall|k: int| 0 <= k < r ==> dot(input@, #[trigger] rows[k]) <= best_score,
                forall|k: int| 0 <= k < best ==> dot(input@, #[trigger] rows[k]) < best_score,
            decreases rows.len() - r,
        {
            assert(rows[r as int].len() == self.feature_len());
            let score = dot_product(input, &self.weights[r]);
            if score > best_score {
                best = r;
                best_score = score;
            }
            r += 1;
        }
        Ok((best, best_score as i64))
    }

    /// The row index of the class labelled `label`, if it has one.
    pub fn class_index(&self, label: &String) -> (r: Option<usize>)
        requires
            self.wf(),
        ensures
            r matches Some(i) ==> i < self.labels().len() && self.labels()[i as int] == label@
                && index_of(self.labels(), label@) == i,
            r is None <==> !self.labels().contains(label@),
    {
        let ghost labels = self.labels();
        let mut i: usize = 0;
        while i < self.characters.len()
            invariant
                self.wf(),
                labels == self.labels(),
                i <= labels.len(),
                forall|k: int| 0 <= k < i ==> labels[k] != label@,
            decreases labels.len() - i,
        {
            assert(labels[i as int] == self.characters@[i as int]@);
            if self.characters[i] == *label {
                proof {
                    lemma_index_of(labels, label@, i as int);
                }
                return Some(i);
            }
            i += 1;
        }
        None
    }

    /// Trains for one epoch: one LMS update per sample, in order, each on the
    /// row of the sample's label. Returns the mean over the samples of their
    /// summed squared errors. When a sample does not fit, nothing is trained
    /// and the first such sample's error is returned. An epoch holds at most
    /// `MAX_SAMPLES` samples, so that the summed error stays in range.
    pub fn train_epoch(&mut self, samples: &[Sample]) -> (r: Result<u128, ModelError>)
        requires
            old(self).wf(),
            samples@.len() <= MAX_SAMPLES,
        ensures
            final(self).wf(),
            final(self).labels() == old(self).labels(),
            final(self).feature_len() == old(self).feature_len(),
            final(self).lr_num() == old(self).lr_num(),
            final(self).lr_den() == old(self).lr_den(),
            r is Ok <==> forall|i: int|
                0 <= i < samples@.len() ==> fits(
                    old(self).labels(),
                    old(self).feature_len(),
                    #[trigger] samples@[i],
                ),
            r matches Ok(mse) ==> {
                &&& final(self).rows() == epoch_rows(
                    old(self).rows(),
                    features_of(samples@),
                    targets_of(old(self).labels(), samples@),
                    old(self).lr_num(),
                    old(self).lr_den(),
                    samples@.len() as int,
                )
                &&& mse == mean(
                    epoch_total(
                        old(self).rows(),
                        features_of(samples@),
                        targets_of(old(self).labels(), samples@),
                        old(self).lr_num(),
                        old(self).lr_den(),
                        samples@.len() as int,
                    ),
                    samples@.len() as int,
                )
            },
            r matches Err(e) ==> {
                &&& final(self).rows() == old(self).rows()
                &&& exists|i: int|
                    0 <= i < samples@.len() && !fits(
                        old(self).labels(),
                        old(self).feature_len(),
                        #[trigger] samples@[i],
                    ) && e == misfit_error(old(self).labels(), old(self).feature_len(), samples@[i])
                        && forall|k: int|
                        0 <= k < i ==> fits(
                            old(self).labels(),
                            old(self).feature_len(),
                            #[trigger] samples@[k],
                        )
            },
    {
        let ghost labels = self.labels();
        let ghost f = self.feature_len();
        let mut targets: Vec<usize> = Vec::new();
        let mut i: usize = 0;
        while i < samples.len()
            invariant
                self.wf(),
                labels == self.labels(),
                f == self.feature_len(),
                i <= samples@.len(),
                targets@.len() == i,
                forall|k: int| 0 <= k < i ==> fits(labels, f, #[trigger] samples@[k]),
                forall|k: int|
                    0 <= k < i ==> #[trigger] targets@[k] == index_of(labels, samples@[k].character@)
                        && targets@[k] < labels.len(),
            decreases samples@.len() - i,
        {
            let found = self.class_index(&samples[i].character);
            match found {
                None => {
                    return Err(ModelError::UnknownClass { label: samples[i].character.clone() });
                },
                Some(t) => {
                    if samples[i].grid.len() != self.num_inputs {
                        return Err(
                            ModelError::DimensionMismatch {
                                expected: self.num_inputs,
                                actual: samples[i].grid.len(),
                            },
                        );
                    }
                    targets.push(t);
                },
            }
            i += 1;
        }
        let ghost rows0 = self.rows();
        let ghost xs = features_of(samples@);
        let ghost ts = targets_of(labels, samples@);
        let ghost ln = self.lr_num();
        let ghost ld = self.lr_den();
        assert(ts =~= targets@.map_values(|t: usize| t as int));
        let mut total: u128 = 0;
        let mut k: usize = 0;
        while k < samples.len()
            invariant
                self.wf(),
                labels == self.labels(),
                f == self.feature_len(),
                ln == self.lr_num(),
                ld == self.lr_den(),
                xs == features_of(samples@),
                ts == targets_of(labels, samples@),
                samples@.len() <= MAX_SAMPLES,
                targets@.len() == samples@.len(),
                forall|j: int| 0 <= j < samples@.len() ==> fits(labels, f, #[trigger] samples@[j]),
                forall|j: int|
                    0 <= j < samples@.len() ==> #[trigger] targets@[j] == ts[j] && targets@[j]
                        < labels.len(),
                k <= samples@.len(),
                self.rows() == epoch_rows(rows0, xs, ts, ln, ld, k as int),
                total == epoch_total(rows0, xs, ts, ln, ld, k as int),
                total <= k * SAMPLE_ERROR_BOUND,
            decreases samples@.len() - k,
        {
            assert(fits(labels, f, samples@[k as int]));
            assert(targets@[k as int] == ts[k as int]);
            let step: u128 = self.training_step(samples[k].grid.as_slice(), targets[k]);
            total = total + step;
            k += 1;
        }
        if samples.len() == 0 {
            Ok(0)
        } else {
            Ok(total / (samples.len() as u128))
        }
    }

    /// One LMS update on `input`, whose class is row `target_idx`: every row
    /// moves by its own error, measured before the update. Returns the sum
    /// of the squared errors.
    fn training_step(&mut self, input: &[i8], target_idx: usize) -> (r: u128)
        requires
            old(self).wf(),
            input@.len() == old(self).feature_len(),
            target_idx < old(self).rows().len(),
        ensures
            final(self).wf(),
            final(self).rows() == stepped_rows(
                old(self).rows(),
                input@,
                target_idx as int,
                old(self).lr_num(),
                old(self).lr_den(),
            ),
            final(self).labels() == old(self).labels(),
            final(self).feature_len() == old(self).feature_len(),
            final(self).lr_num() == old(self).lr_num(),
            final(self).lr_den() == old(self).lr_den(),
            r == sq_error(old(self).rows(), input@, target_idx as int),
            r <= SAMPLE_ERROR_BOUND,
    {
        let ghost rows0 = self.rows();
        let ghost labels0 = self.labels();
        let ghost t = target_idx as int;
        let ghost ln0 = self.lr_num;
        let ghost ld0 = self.lr_den;
        let ghost goal = stepped_rows(rows0, input@, t, self.lr_num(), self.lr_den());
        let mut total: u128 = 0;
        let mut r: usize = 0;
        while r < self.weights.len()
            invariant
                self.weights@.len() == rows0.len(),
                self.labels() == labels0,
                rows0.len() <= MAX_CLASSES,
                r <= rows0.len(),
                self.lr_den == ld0,
                self.lr_num == ln0,
                t == target_idx,
                ld0 > 0,
                ln0 > 0,
                goal == stepped_rows(rows0, input@, t, self.lr_num(), self.lr_den()),
                input@.len() == self.feature_len(),
                self.feature_len() <= MAX_FEATURES,
                forall|k: int|
                    0 <= k < rows0.len() ==> (#[trigger] rows0[k]).len() == self.feature_len()
                        && row_in_range(rows0[k]),
                forall|k: int| 0 <= k < r ==> #[trigger] self.rows()[k] == goal[k],
                forall|k: int| r <= k < rows0.len() ==> #[trigger] self.rows()[k] == rows0[k],
                total == sq_error_upto(rows0, input@, t, r as int),
                total <= r * SQ_ERROR_BOUND,
            decreases rows0.len() - r,
        {
            assert(self.rows()[r as int] == rows0[r as int]);
            assert(self.weights@[r as int]@ == rows0[r as int]);
            let prediction: i128 = dot_product(input, &self.weights[r]);
            let wanted: i128 = if r == target_idx {
                ONE as i128
            } else {
                -(ONE as i128)
            };
            let error: i128 = wanted - prediction;
            proof {
                lemma_square_bound(error as int);
            }
            total = total + (error * error) as u128;
            let d: i128 = lms_step(self.lr_num, self.lr_den, error);
            let row: Vec<i64> = moved_row(&self.weights[r], input, d);
            let ghost prev = self.rows();
            let ghost new_row = row@;
            self.weights.set(r, row);
            assert(self.rows() =~= prev.update(r as int, new_row));

            assert(error == row_error(input@, rows0[r as int], r as int, t));
            assert(new_row == goal[r as int]);
            assert(sq_error_upto(rows0, input@, t, r + 1) == sq_error_upto(rows0, input@, t, r as int)
                + error * error);
            r += 1;
        }
        assert(self.rows() =~= goal);
        total
    }
}

} // verus!
