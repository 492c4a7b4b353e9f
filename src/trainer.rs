//! The epoch loop: train until the epoch error falls below a target, or an
//! epoch budget runs out.
use vstd::prelude::*;

use crate::adaline_nn::{
    epoch_rows,
    epoch_total,
    features_of,
    fits,
    mean,
    misfit_error,
    targets_of,
    Perceptron,
    MAX_SAMPLES,
};
use crate::error::ModelError;
use crate::sample::Sample;

verus! {

/// The rows after `e` whole epochs over the samples `xs` of classes `ts`.
pub open spec fn trained_rows(
    rows: Seq<Seq<i64>>,
    xs: Seq<Seq<i8>>,
    ts: Seq<int>,
    ln: int,
    ld: int,
    e: int,
) -> Seq<Seq<i64>>
    decreases e,
{
    if e <= 0 {
        rows
    } else {
        epoch_rows(trained_rows(rows, xs, ts, ln, ld, e - 1), xs, ts, ln, ld, xs.len() as int)
    }
}

/// The mean squared error that epoch number `e` (counted from zero) reports.
pub open spec fn epoch_mse(
    rows: Seq<Seq<i64>>,
    xs: Seq<Seq<i8>>,
    ts: Seq<int>,
    ln: int,
    ld: int,
    e: int,
) -> int {
    mean(
        epoch_total(trained_rows(rows, xs, ts, ln, ld, e), xs, ts, ln, ld, xs.len() as int),
        xs.len() as int,
    )
}

/// What a training run came to.
pub struct TrainReport {
    /// The number of epochs run.
    pub epochs: usize,
    /// The error of the last epoch run (zero when none ran).
    pub last_mse: u128,
    /// Whether the last epoch's error fell below the target.
    pub converged: bool,
}

/// Runs epochs over `samples` until one reports an error strictly below
/// `target_mse`, or `max_epochs` have run. Reaching the budget is no error.
/// The samples number at most `MAX_SAMPLES`.
pub fn train(model: &mut Perceptron, samples: &[Sample], max_epochs: usize, target_mse: u128) -> (r:
    Result<TrainReport, ModelError>)
    requires
        old(model).wf(),
        samples@.len() <= MAX_SAMPLES,
    ensures
        final(model).wf(),
        final(model).labels() == old(model).labels(),
        final(model).feature_len() == old(model).feature_len(),
        final(model).lr_num() == old(model).lr_num(),
        final(model).lr_den() == old(model).lr_den(),
        r is Err <==> max_epochs > 0 && !(forall|i: int|
            0 <= i < samples@.len() ==> fits(
                old(model).labels(),
                old(model).feature_len(),
                #[trigger] samples@[i],
            )),
        r matches Err(e) ==> {
            &&& final(model).rows() == old(model).rows()
            &&& exists|i: int|
                0 <= i < samples@.len() && !fits(
                    old(model).labels(),
                    old(model).feature_len(),
                    #[trigger] samples@[i],
                ) && e == misfit_error(old(model).labels(), old(model).feature_len(), samples@[i])
                    && forall|k: int|
                    0 <= k < i ==> fits(
                        old(model).labels(),
                        old(model).feature_len(),
                        #[trigger] samples@[k],
                    )
        },
        r matches Ok(rep) ==> {
            let xs = features_of(samples@);
            let ts = targets_of(old(model).labels(), samples@);
            let ln = old(model).lr_num();
            let ld = old(model).lr_den();
            &&& rep.epochs <= max_epochs
            &&& final(model).rows() == trained_rows(old(model).rows(), xs, ts, ln, ld, rep.epochs as int)
            &&& forall|e: int|
                0 <= e < rep.epochs - 1 ==> #[trigger] epoch_mse(old(model).rows(), xs, ts, ln, ld, e)
                    >= target_mse
            &&& rep.converged <==> (rep.epochs >= 1 && epoch_mse(
                old(model).rows(),
                xs,
                ts,
                ln,
                ld,
                rep.epochs - 1,
            ) < target_mse)
            &&& !rep.converged ==> rep.epochs == max_epochs
            &&& rep.epochs >= 1 ==> rep.last_mse == epoch_mse(
                old(model).rows(),
                xs,
                ts,
                ln,
                ld,
                rep.epochs - 1,
            )
            &&& rep.epochs == 0 ==> rep.last_mse == 0
        },
{
    let ghost rows0 = model.rows();
    let ghost labels = model.labels();
    let ghost f = model.feature_len();
    let ghost xs = features_of(samples@);
    let ghost ts = targets_of(labels, samples@);
    let ghost ln = model.lr_num();
    let ghost ld = model.lr_den();
    let mut epoch: usize = 0;
    let mut last: u128 = 0;
    while epoch < max_epochs
        invariant
            model.wf(),
            labels == model.labels(),
            f == model.feature_len(),
            ln == model.lr_num(),
            ld == model.lr_den(),
            labels == old(model).labels(),
            f == old(model).feature_len(),
            ln == old(model).lr_num(),
            ld == old(model).lr_den(),
            rows0 == old(model).rows(),
            xs == features_of(samples@),
            ts == targets_of(labels, samples@),
            samples@.len() <= MAX_SAMPLES,
            epoch <= max_epochs,
            epoch == 0 ==> model.rows() == rows0 && last == 0,
            epoch > 0 ==> forall|i: int| 0 <= i < samples@.len() ==> fits(labels, f, #[trigger] samples@[i]),
            model.rows() == trained_rows(rows0, xs, ts, ln, ld, epoch as int),
            forall|e: int| 0 <= e < epoch ==> #[trigger] epoch_mse(rows0, xs, ts, ln, ld, e) >= target_mse,
            epoch >= 1 ==> last == epoch_mse(rows0, xs, ts, ln, ld, epoch - 1),
        decreases max_epochs - epoch,
    {
        let ghost before = model.rows();
        match model.train_epoch(samples) {
            Err(e) => {
                return Err(e);
            },
            Ok(mse) => {
                epoch += 1;
                last = mse;
                assert(model.rows() == trained_rows(rows0, xs, ts, ln, ld, epoch as int));
                if mse < target_mse {
                    return Ok(TrainReport { epochs: epoch, last_mse: mse, converged: true });
                }
            },
        }
    }
    Ok(TrainReport { epochs: epoch, last_mse: last, converged: false })
}

} // verus!
