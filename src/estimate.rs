//! The three statistics as a caller runs them: with the frequency window and
//! the variant type given as plain parameters.
use vstd::prelude::*;
use crate::spectrum::{
    AlleleFreq, Estimate, EstimateError, MAX_OBSERVATIONS, all_wf, window, points, fit_sums,
    slope_num, slope_den, filter_window, estimate, lemma_window_wf,
};
use crate::records::{
    ConfigError, VariantRecord, MAX_RECORDS, PROB_SCALE, spec_parse_vartype, parse_vartype,
};
use crate::local_fdr::{AnnotateError, AnnotatedRecord, annotate_records, recs_wf, first_missing, fdr_column};
use crate::null_fdr::{ControlledFdr, NullFdrError, control_fdr, counted, selection_correct, passes};

verus! {

/// Lower end of the default frequency window: 0.12.
pub const DEFAULT_MIN_AF: u32 = 120_000;

/// Upper end of the default frequency window: 0.25.
pub const DEFAULT_MAX_AF: u32 = 250_000;

/// Estimates the effective mutation rate from the frequencies inside
/// `[min_af, max_af]` (ppm).
///
/// Fails with `EmptyInput` where no frequency lies in the window, and only
/// then; otherwise the estimate is the fit of the windowed frequencies, which
/// may be degenerate.
pub fn effective_mutation_rate(freqs: &Vec<AlleleFreq>, min_af: u32, max_af: u32) -> (r: Result<
    Estimate,
    EstimateError,
>)
    requires
        all_wf(freqs@),
        freqs@.len() <= MAX_OBSERVATIONS,
    ensures
        ({
            let w = window(freqs@, min_af, max_af);
            &&& w.len() == 0 ==> r == Err::<Estimate, EstimateError>(EstimateError::EmptyInput)
            &&& w.len() > 0 ==> r is Ok
            &&& r matches Ok(e) ==> e.observations@ == points(w, 1) && e.slope_num == slope_num(w)
                && e.slope_den == slope_den(w) && (e.n_points as int, e.sum_x as int, e.sum_y as int)
                == (fit_sums(w, 1).0, fit_sums(w, 1).1, fit_sums(w, 1).2)
        }),
{
    let w = filter_window(freqs, min_af, max_af);
    proof {
        lemma_window_wf(freqs@, min_af, max_af);
    }
    estimate(&w)
}

/// Annotates a call set with the local FDR of each requested event column;
/// see `annotate_records`.
pub fn fdr(recs: Vec<VariantRecord>, events: &Vec<usize>) -> (r: Result<Vec<AnnotatedRecord>, AnnotateError>)
    requires
        recs_wf(recs@),
        recs@.len() <= MAX_RECORDS,
    ensures
        first_missing(recs@, events@, 0) is Some <==> r is Err,
        first_missing(recs@, events@, 0) matches Some(k) ==> r == Err::<Vec<AnnotatedRecord>, AnnotateError>(
            AnnotateError::MissingEvent(k as usize),
        ),
        r matches Ok(out) ==> out@.len() == recs@.len() && forall|i: int|
            0 <= i < recs@.len() ==> (#[trigger] out@[i]).record == recs@[i] && out@[i].fdr@.len()
                == events@.len() && forall|e: int|
                0 <= e < events@.len() ==> #[trigger] out@[i].fdr@[e] == fdr_column(
                    recs@,
                    events@[e] as int,
                )[i],
{
    annotate_records(recs, events)
}

#[derive(Clone, Copy, Debug, PartialEq, Eq, Structural)]
pub enum FdrBhError {
    Config(ConfigError),
    EmptyNullSet,
}

/// Controls the FDR of event column `event` against a null call set, for
/// the variant type named by `vartype` (`SNV`, `INS` or `DEL`, an indel type
/// optionally restricted to `[min_len, max_len)`), at bound `alpha` (parts per
/// billion). A bad variant type is reported before any record is looked at.
pub fn fdr_bh(
    observed: &Vec<VariantRecord>,
    null: &Vec<VariantRecord>,
    event: usize,
    vartype: &[u8],
    min_len: Option<u32>,
    max_len: Option<u32>,
    alpha: u64,
) -> (r: Result<ControlledFdr, FdrBhError>)
    requires
        observed@.len() <= MAX_RECORDS,
        null@.len() <= MAX_RECORDS,
        alpha <= PROB_SCALE,
    ensures
        spec_parse_vartype(vartype@, min_len, max_len) matches Err(e) ==> r == Err::<ControlledFdr, FdrBhError>(
            FdrBhError::Config(e),
        ),
        spec_parse_vartype(vartype@, min_len, max_len) matches Ok(vt) ==> {
            &&& counted(null@, event as int, vt).len() == 0 <==> r is Err
            &&& r is Err ==> r == Err::<ControlledFdr, FdrBhError>(FdrBhError::EmptyNullSet)
            &&& r matches Ok(c) ==> selection_correct(
                counted(observed@, event as int, vt),
                counted(null@, event as int, vt),
                alpha,
                c.selection,
            ) && c.pass@.len() == observed@.len() && forall|i: int|
                0 <= i < observed@.len() ==> #[trigger] c.pass@[i] == passes(
                    observed@[i],
                    event as int,
                    vt,
                    c.selection.threshold,
                )
        },
{
    let vt = match parse_vartype(vartype, min_len, max_len) {
        Ok(vt) => vt,
        Err(e) => {
            return Err(FdrBhError::Config(e));
        },
    };
    match control_fdr(observed, null, event, vt, alpha) {
        Ok(c) => Ok(c),
        Err(NullFdrError::EmptyNullSet) => Err(FdrBhError::EmptyNullSet),
    }
}

} // verus!
