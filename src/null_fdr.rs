//! FDR control against a null call set.
//!
//! For a threshold `t` the empirical FDR is the share of null calls at or
//! above `t` over the share of observed calls at or above `t` (the true-null
//! proportion is taken as one). Candidate thresholds are the observed
//! probabilities. Walking from the most confident one down, the estimate is
//! clamped to its running maximum, and the least stringent threshold whose
//! clamped estimate stays within the bound is selected. Ties count together:
//! every call at or above a threshold is in its tail.
use vstd::prelude::*;
use crate::records::{
    PROB_SCALE, MAX_RECORDS, VariantRecord, VariantType, kind_matches, typed_column,
    typed_column_of, matches_type,
};

verus! {

/// The present values of a column, in order.
pub open spec fn present(col: Seq<Option<u64>>) -> Seq<u64>
    decreases col.len(),
{
    if col.len() == 0 {
        Seq::empty()
    } else {
        let r = present(col.drop_last());
        match col.last() {
            Some(p) => r.push(p),
            None => r,
        }
    }
}

/// How many values of `xs` are at least `t`.
pub open spec fn at_least(xs: Seq<u64>, t: u64) -> nat
    decreases xs.len(),
{
    if xs.len() == 0 {
        0
    } else {
        at_least(xs.drop_last(), t) + if xs.last() >= t { 1nat } else { 0nat }
    }
}

/// Numerator of the empirical FDR at `t`: `null_tail * n_observed`.
pub open spec fn emp_num(obs: Seq<u64>, null: Seq<u64>, t: u64) -> int {
    (at_least(null, t) * obs.len()) as int
}

/// Denominator of the empirical FDR at `t`: `n_null * observed_tail`.
pub open spec fn emp_den(obs: Seq<u64>, null: Seq<u64>, t: u64) -> int {
    (null.len() * at_least(obs, t)) as int
}

/// Whether the empirical FDR at `t` is above `alpha` (in parts per billion).
pub open spec fn exceeds(obs: Seq<u64>, null: Seq<u64>, t: u64, alpha: u64) -> bool {
    emp_num(obs, null, t) * PROB_SCALE > alpha * emp_den(obs, null, t)
}

/// Whether threshold `t` is acceptable: no candidate at or above it, however
/// stringent, has an empirical FDR above `alpha`.
pub open spec fn accepted(obs: Seq<u64>, null: Seq<u64>, t: u64, alpha: u64) -> bool {
    forall|j: int| 0 <= j < obs.len() && obs[j] >= t ==> !exceeds(obs, null, #[trigger] obs[j], alpha)
}

/// Whether the empirical FDR at `a` is at most that at `b` (both tails non-empty).
pub open spec fn fdr_le(obs: Seq<u64>, null: Seq<u64>, a: u64, b: u64) -> bool {
    at_least(null, a) * at_least(obs, b) <= at_least(null, b) * at_least(obs, a)
}

#[derive(Clone, Copy, Debug, PartialEq, Eq, Structural)]
pub enum NullFdrError {
    /// No null call is left to estimate false positives from.
    EmptyNullSet,
}

/// The selected threshold and the clamped empirical FDR achieved there, as
/// the fraction `fdr_num / fdr_den` (both zero where nothing is selected).
#[derive(Clone, Copy, Debug, PartialEq, Eq, Structural)]
pub struct Selection {
    pub threshold: Option<u64>,
    pub fdr_num: u128,
    pub fdr_den: u128,
}

pub open spec fn selection_correct(obs: Seq<u64>, null: Seq<u64>, alpha: u64, sel: Selection) -> bool {
    &&& sel.threshold is None <==> forall|j: int| 0 <= j < obs.len() ==> !accepted(obs, null, #[trigger] obs[j], alpha)
    &&& sel.threshold is None ==> sel.fdr_num == 0 && sel.fdr_den == 0
    &&& sel.threshold matches Some(t) ==> {
        &&& exists|j: int| 0 <= j < obs.len() && obs[j] == t
        &&& accepted(obs, null, t, alpha)
        &&& forall|j: int| 0 <= j < obs.len() && accepted(obs, null, #[trigger] obs[j], alpha) ==> t <= obs[j]
        &&& exists|w: int|
            0 <= w < obs.len() && obs[w] >= t && sel.fdr_num == emp_num(obs, null, obs[w]) && sel.fdr_den
                == emp_den(obs, null, obs[w]) && forall|j: int|
                0 <= j < obs.len() && obs[j] >= t ==> fdr_le(obs, null, #[trigger] obs[j], obs[w])
    }
}

proof fn lemma_at_least_bounds(xs: Seq<u64>, t: u64)
    ensures
        at_least(xs, t) <= xs.len(),
        (exists|j: int| 0 <= j < xs.len() && xs[j] >= t) ==> at_least(xs, t) >= 1,
    decreases xs.len(),
{
    if xs.len() > 0 {
        lemma_at_least_bounds(xs.drop_last(), t);
        if exists|j: int| 0 <= j < xs.len() && xs[j] >= t {
            let j = choose|j: int| 0 <= j < xs.len() && xs[j] >= t;
            if j < xs.len() - 1 {
                assert(xs.drop_last()[j] == xs[j]);
            }
        }
    }
}

/// Counts the values of `xs` at least `t`.
fn count_at_least(xs: &Vec<u64>, t: u64) -> (r: u64)
    requires
        xs@.len() <= MAX_RECORDS,
    ensures
        r == at_least(xs@, t),
{
    let mut c: u64 = 0;
    let mut i: usize = 0;
    while i < xs.len()
        invariant
            i <= xs@.len(),
            xs@.len() <= MAX_RECORDS,
            c == at_least(xs@.take(i as int), t),
        decreases xs.len() - i,
    {
        proof {
            assert(xs@.take(i as int + 1).drop_last() =~= xs@.take(i as int));
            lemma_at_least_bounds(xs@.take(i as int), t);
        }
        if xs[i] >= t {
            c = c + 1;
        }
        i += 1;
    }
    proof {
        assert(xs@.take(xs@.len() as int) =~= xs@);
    }
    c
}

proof fn lemma_mul_le(a: int, b: int, c: int, d: int)
    requires
        0 <= a <= c,
        0 <= b <= d,
    ensures
        0 <= a * b <= c * d,
{
    assert(0 <= a * b <= c * d) by (nonlinear_arith)
        requires
            0 <= a <= c,
            0 <= b <= d,
    ;
}

/// Whether the empirical FDR at `t` is above `alpha`.
fn check_exceeds(obs: &Vec<u64>, null: &Vec<u64>, t: u64, alpha: u64) -> (r: bool)
    requires
        obs@.len() <= MAX_RECORDS,
        null@.len() <= MAX_RECORDS,
        alpha <= PROB_SCALE,
    ensures
        r == exceeds(obs@, null@, t, alpha),
{
    let co = count_at_least(obs, t);
    let cn = count_at_least(null, t);
    proof {
        lemma_at_least_bounds(obs@, t);
        lemma_at_least_bounds(null@, t);
        lemma_mul_le(cn as int, obs@.len() as int, MAX_RECORDS as int, MAX_RECORDS as int);
        lemma_mul_le(null@.len() as int, co as int, MAX_RECORDS as int, MAX_RECORDS as int);
        lemma_mul_le(cn * obs@.len(), PROB_SCALE as int, MAX_RECORDS * MAX_RECORDS, PROB_SCALE as int);
        lemma_mul_le(alpha as int, null@.len() * co, PROB_SCALE as int, MAX_RECORDS * MAX_RECORDS);
    }
    let num = (cn as u128) * (obs.len() as u128);
    let den = (null.len() as u128) * (co as u128);
    num * (PROB_SCALE as u128) > (alpha as u128) * den
}

/// Selects the threshold for FDR bound `alpha` (parts per billion) from the
/// observed and null probabilities of the calls that count.
///
/// Fails with `EmptyNullSet` where there is no null probability. Otherwise
/// the threshold is the least observed probability that is accepted (see
/// `accepted`), `None` where none is, and the reported FDR is the largest
/// empirical FDR among the candidates at or above it.
pub fn select_threshold(obs: &Vec<u64>, null: &Vec<u64>, alpha: u64) -> (r: Result<Selection, NullFdrError>)
    requires
        obs@.len() <= MAX_RECORDS,
        null@.len() <= MAX_RECORDS,
        alpha <= PROB_SCALE,
    ensures
        null@.len() == 0 <==> r is Err,
        r is Err ==> r == Err::<Selection, NullFdrError>(NullFdrError::EmptyNullSet),
        r matches Ok(sel) ==> selection_correct(obs@, null@, alpha, sel),
{
    if null.len() == 0 {
        return Err(NullFdrError::EmptyNullSet);
    }
    let ghost o = obs@;
    let ghost nl = null@;
    // the most lenient candidate whose estimate is above the bound
    let mut worst_bad: Option<u64> = None;
    let mut j: usize = 0;
    while j < obs.len()
        invariant
            o == obs@,
            nl == null@,
            obs@.len() <= MAX_RECORDS,
            null@.len() <= MAX_RECORDS,
            alpha <= PROB_SCALE,
            j <= o.len(),
            worst_bad is None ==> forall|k: int| 0 <= k < j ==> !exceeds(o, nl, #[trigger] o[k], alpha),
            worst_bad matches Some(v) ==> (exists|k: int| 0 <= k < j && o[k] == v) && exceeds(o, nl, v, alpha)
                && forall|k: int| 0 <= k < j && exceeds(o, nl, #[trigger] o[k], alpha) ==> o[k] <= v,
        decreases o.len() - j,
    {
        let t = obs[j];
        if check_exceeds(obs, null, t, alpha) {
            match worst_bad {
                None => {
                    worst_bad = Some(t);
                },
                Some(v) => {
                    if t > v {
                        worst_bad = Some(t);
                    }
                },
            }
        }
        j += 1;
    }
    // the least candidate above every exceeding one
    let mut best: Option<u64> = None;
    let mut j: usize = 0;
    while j < obs.len()
        invariant
            o == obs@,
            j <= o.len(),
            best is None ==> forall|k: int|
                0 <= k < j ==> (worst_bad matches Some(v) && #[trigger] o[k] <= v),
            best matches Some(t) ==> (exists|k: int| 0 <= k < j && o[k] == t) && (worst_bad matches Some(v)
                ==> t > v) && forall|k: int|
                0 <= k < j && !(worst_bad matches Some(v) && #[trigger] o[k] <= v) ==> t <= o[k],
        decreases o.len() - j,
    {
        let t = obs[j];
        let above = match worst_bad {
            None => true,
            Some(v) => t > v,
        };
        if above {
            match best {
                None => {
                    best = Some(t);
                },
                Some(b) => {
                    if t < b {
                        best = Some(t);
                    }
                },
            }
        }
        j += 1;
    }
    proof {
        assert forall|k: int| 0 <= k < o.len() implies accepted(o, nl, #[trigger] o[k], alpha) == !(
        worst_bad matches Some(v) && o[k] <= v) by {
            if let Some(v) = worst_bad {
                if o[k] <= v {
                    let w = choose|w: int| 0 <= w < o.len() && o[w] == v;
                    assert(o[w] >= o[k] && exceeds(o, nl, o[w], alpha));
                }
            }
        }
    }
    match best {
        None => Ok(Selection { threshold: None, fdr_num: 0, fdr_den: 0 }),
        Some(t) => {
            proof {
                assert forall|k: int| 0 <= k < o.len() && o[k] >= t implies !exceeds(o, nl, #[trigger] o[k], alpha) by {
                    if let Some(v) = worst_bad {
                        if exceeds(o, nl, o[k], alpha) {
                            assert(o[k] <= v);
                        }
                    }
                }
            }
            let (fdr_num, fdr_den) = achieved_fdr(obs, null, t);
            Ok(Selection { threshold: Some(t), fdr_num, fdr_den })
        },
    }
}

/// The largest empirical FDR among the observed candidates at or above `t`,
/// as (numerator, denominator).
fn achieved_fdr(obs: &Vec<u64>, null: &Vec<u64>, t: u64) -> (r: (u128, u128))
    requires
        obs@.len() <= MAX_RECORDS,
        null@.len() <= MAX_RECORDS,
        exists|j: int| 0 <= j < obs@.len() && obs@[j] == t,
    ensures
        exists|w: int|
            0 <= w < obs@.len() && obs@[w] >= t && r.0 == emp_num(obs@, null@, obs@[w]) && r.1 == emp_den(
                obs@,
                null@,
                obs@[w],
            ) && forall|j: int| 0 <= j < obs@.len() && obs@[j] >= t ==> fdr_le(obs@, null@, #[trigger] obs@[j], obs@[w]),
{
    let ghost o = obs@;
    let ghost nl = null@;
    let ghost w0 = choose|j: int| 0 <= j < obs@.len() && obs@[j] == t;
    let mut worst: u64 = t;
    let ghost mut wi: int = w0;
    let mut w_co: u64 = count_at_least(obs, t);
    let mut w_cn: u64 = count_at_least(null, t);
    let mut j: usize = 0;
    while j < obs.len()
        invariant
            o == obs@,
            nl == null@,
            o.len() <= MAX_RECORDS,
            nl.len() <= MAX_RECORDS,
            j <= o.len(),
            0 <= wi < o.len(),
            o[wi] == worst,
            worst >= t,
            w_co == at_least(o, worst),
            w_cn == at_least(nl, worst),
            forall|k: int| 0 <= k < j && o[k] >= t ==> fdr_le(o, nl, #[trigger] o[k], worst),
        decreases o.len() - j,
    {
        let u = obs[j];
        if u >= t {
            let co = count_at_least(obs, u);
            let cn = count_at_least(null, u);
            proof {
                lemma_at_least_bounds(o, u);
                lemma_at_least_bounds(nl, u);
                lemma_at_least_bounds(o, worst);
                lemma_at_least_bounds(nl, worst);
                lemma_mul_le(cn as int, w_co as int, MAX_RECORDS as int, MAX_RECORDS as int);
                lemma_mul_le(w_cn as int, co as int, MAX_RECORDS as int, MAX_RECORDS as int);
            }
            if (cn as u128) * (w_co as u128) > (w_cn as u128) * (co as u128) {
                proof {
                    assert forall|k: int| 0 <= k < j && o[k] >= t implies fdr_le(o, nl, #[trigger] o[k], u) by {
                        lemma_fdr_le_trans(o, nl, o[k], worst, u);
                    }
                }
                worst = u;
                w_co = co;
                w_cn = cn;
                proof {
                    wi = j as int;
                }
            }
        }
        j += 1;
    }
    proof {
        lemma_at_least_bounds(o, worst);
        lemma_at_least_bounds(nl, worst);
        lemma_mul_le(w_cn as int, o.len() as int, MAX_RECORDS as int, MAX_RECORDS as int);
        lemma_mul_le(nl.len() as int, w_co as int, MAX_RECORDS as int, MAX_RECORDS as int);
    }
    ((w_cn as u128) * (obs.len() as u128), (null.len() as u128) * (w_co as u128))
}

proof fn lemma_fdr_le_trans(o: Seq<u64>, nl: Seq<u64>, a: u64, b: u64, c: u64)
    requires
        fdr_le(o, nl, a, b),
        at_least(nl, b) * at_least(o, c) < at_least(nl, c) * at_least(o, b),
        exists|j: int| 0 <= j < o.len() && o[j] >= b,
    ensures
        fdr_le(o, nl, a, c),
{
    lemma_at_least_bounds(o, b);
    let na = at_least(nl, a) as int;
    let nb = at_least(nl, b) as int;
    let nc = at_least(nl, c) as int;
    let oa = at_least(o, a) as int;
    let ob = at_least(o, b) as int;
    let oc = at_least(o, c) as int;
    assert(na * oc <= nc * oa) by (nonlinear_arith)
        requires
            na * ob <= nb * oa,
            nb * oc < nc * ob,
            ob >= 1,
            na >= 0,
            oa >= 0,
            oc >= 0,
            nb >= 0,
            nc >= 0,
    ;
}

proof fn lemma_present_len(col: Seq<Option<u64>>)
    ensures
        present(col).len() <= col.len(),
    decreases col.len(),
{
    if col.len() > 0 {
        lemma_present_len(col.drop_last());
    }
}

/// The present values of `col`, in order.
pub fn present_values(col: &Vec<Option<u64>>) -> (r: Vec<u64>)
    ensures
        r@ == present(col@),
{
    let mut r: Vec<u64> = Vec::new();
    let mut i: usize = 0;
    while i < col.len()
        invariant
            i <= col@.len(),
            r@ == present(col@.take(i as int)),
        decreases col.len() - i,
    {
        proof {
            assert(col@.take(i as int + 1).drop_last() =~= col@.take(i as int));
        }
        match col[i] {
            Some(p) => r.push(p),
            None => {},
        }
        i += 1;
    }
    proof {
        assert(col@.take(col@.len() as int) =~= col@);
    }
    r
}

proof fn lemma_typed_column_len(recs: Seq<VariantRecord>, event: int, vt: VariantType)
    ensures
        typed_column(recs, event, vt).len() <= recs.len(),
    decreases recs.len(),
{
    if recs.len() > 0 {
        lemma_typed_column_len(recs.drop_last(), event, vt);
    }
}

/// The probabilities of event column `event` that count under `vt`.
pub open spec fn counted(recs: Seq<VariantRecord>, event: int, vt: VariantType) -> Seq<u64> {
    present(typed_column(recs, event, vt))
}

/// Whether a record passes threshold `threshold`: it is of type `vt` and its
/// probability for `event` is at or above the threshold.
pub open spec fn passes(rec: VariantRecord, event: int, vt: VariantType, threshold: Option<u64>) -> bool {
    &&& kind_matches(rec.kind, vt)
    &&& rec.spec_prob(event) is Some
    &&& threshold is Some
    &&& rec.spec_prob(event).unwrap() >= threshold.unwrap()
}

/// The outcome of FDR control: the selection and, per observed record,
/// whether it passes the selected threshold.
#[derive(Clone, Debug)]
pub struct ControlledFdr {
    pub selection: Selection,
    pub pass: Vec<bool>,
}

/// Controls the FDR of event column `event` among the observed calls of
/// variant type `vt` at bound `alpha` (parts per billion), with `null` as the
/// calls under the null model.
///
/// Only records of type `vt` that hold the event count, on both sides. Fails
/// with `EmptyNullSet`, and yields nothing else, where no null record counts.
pub fn control_fdr(
    observed: &Vec<VariantRecord>,
    null: &Vec<VariantRecord>,
    event: usize,
    vt: VariantType,
    alpha: u64,
) -> (r: Result<ControlledFdr, NullFdrError>)
    requires
        observed@.len() <= MAX_RECORDS,
        null@.len() <= MAX_RECORDS,
        alpha <= PROB_SCALE,
    ensures
        counted(null@, event as int, vt).len() == 0 <==> r is Err,
        r is Err ==> r == Err::<ControlledFdr, NullFdrError>(NullFdrError::EmptyNullSet),
        r matches Ok(c) ==> selection_correct(
            counted(observed@, event as int, vt),
            counted(null@, event as int, vt),
            alpha,
            c.selection,
        ) && c.pass@.len() == observed@.len() && forall|i: int|
            0 <= i < observed@.len() ==> #[trigger] c.pass@[i] == passes(
                observed@[i],
                event as int,
                vt,
                c.selection.threshold,
            ),
{
    let obs_col = typed_column_of(observed, event, vt);
    let null_col = typed_column_of(null, event, vt);
    let obs = present_values(&obs_col);
    let nul = present_values(&null_col);
    proof {
        lemma_typed_column_len(observed@, event as int, vt);
        lemma_typed_column_len(null@, event as int, vt);
        lemma_present_len(obs_col@);
        lemma_present_len(null_col@);
    }
    let selection = match select_threshold(&obs, &nul, alpha) {
        Ok(s) => s,
        Err(e) => {
            return Err(e);
        },
    };
    let mut pass: Vec<bool> = Vec::new();
    let mut i: usize = 0;
    while i < observed.len()
        invariant
            i <= observed@.len(),
            pass@.len() == i,
            forall|k: int|
                0 <= k < i ==> #[trigger] pass@[k] == passes(observed@[k], event as int, vt, selection.threshold),
        decreases observed.len() - i,
    {
        let ok = match (observed[i].prob(event), selection.threshold) {
            (Some(p), Some(t)) => matches_type(observed[i].kind, vt) && p >= t,
            _ => false,
        };
        pass.push(ok);
        i += 1;
    }
    Ok(ControlledFdr { selection, pass })
}

/// Against a null set identical to the observed one the empirical FDR is
/// exactly one at every threshold: a threshold is then selected exactly when
/// the bound is one, and that for any call set.
proof fn lemma_identical_null(obs: Seq<u64>, alpha: u64)
    requires
        alpha <= PROB_SCALE,
    ensures
        forall|t: u64| emp_num(obs, obs, t) == emp_den(obs, obs, t),
        forall|j: int|
            0 <= j < obs.len() ==> (accepted(obs, obs, #[trigger] obs[j], alpha) <==> alpha == PROB_SCALE),
{
    assert forall|t: u64| emp_num(obs, obs, t) == emp_den(obs, obs, t) by {
        assert((at_least(obs, t) * obs.len()) == (obs.len() * at_least(obs, t))) by (nonlinear_arith);
    }
    assert forall|j: int| 0 <= j < obs.len() implies (accepted(obs, obs, #[trigger] obs[j], alpha) <==> alpha
        == PROB_SCALE) by {
        lemma_at_least_bounds(obs, obs[j]);
        let d = emp_den(obs, obs, obs[j]);
        assert(d >= 1) by (nonlinear_arith)
            requires
                d == obs.len() * at_least(obs, obs[j]),
                obs.len() >= 1,
                at_least(obs, obs[j]) >= 1,
        ;
        if alpha == PROB_SCALE {
            assert forall|k: int| 0 <= k < obs.len() && obs[k] >= obs[j] implies !exceeds(obs, obs, #[trigger] obs[k], alpha) by {
            }
        } else {
            assert(d * PROB_SCALE > alpha * d) by (nonlinear_arith)
                requires
                    d >= 1,
                    alpha < PROB_SCALE,
            ;
            assert(exceeds(obs, obs, obs[j], alpha));
        }
    }
}

proof fn lemma_at_least_remove(ys: Seq<u64>, k: int, t: u64)
    requires
        0 <= k < ys.len(),
    ensures
        at_least(ys, t) == at_least(ys.remove(k), t) + if ys[k] >= t { 1nat } else { 0nat },
    decreases ys.len(),
{
    if k == ys.len() - 1 {
        assert(ys.remove(k) =~= ys.drop_last());
    } else {
        assert(ys.remove(k).drop_last() =~= ys.drop_last().remove(k));
        assert(ys.remove(k).last() == ys.last());
        lemma_at_least_remove(ys.drop_last(), k, t);
    }
}

/// Tail counts depend on the values alone, not on their order.
proof fn lemma_at_least_multiset(xs: Seq<u64>, ys: Seq<u64>, t: u64)
    requires
        xs.to_multiset() == ys.to_multiset(),
    ensures
        at_least(xs, t) == at_least(ys, t),
        xs.len() == ys.len(),
    decreases xs.len(),
{
    broadcast use vstd::multiset::group_multiset_axioms;
    vstd::seq_lib::to_multiset_len(xs);
    vstd::seq_lib::to_multiset_len(ys);
    if xs.len() > 0 {
        let x = xs.last();
        let rest = xs.drop_last();
        assert(rest.push(x) =~= xs);
        vstd::seq_lib::to_multiset_build(rest, x);
        assert(ys.to_multiset().count(x) > 0);
        vstd::seq_lib::to_multiset_contains(ys, x);
        let k = choose|k: int| 0 <= k < ys.len() && ys[k] == x;
        vstd::seq_lib::to_multiset_remove(ys, k);
        assert(rest.to_multiset() =~= ys.remove(k).to_multiset());
        lemma_at_least_multiset(rest, ys.remove(k), t);
        lemma_at_least_remove(ys, k, t);
    }
}

/// Against a null set that holds the same probabilities as the observed
/// one, in any order (no true signal), the empirical FDR is exactly one at
/// every threshold: a threshold is then selected exactly when the bound is
/// one, and the FDR reported for it is one.
pub proof fn lemma_same_distribution_null(obs: Seq<u64>, null: Seq<u64>, alpha: u64)
    requires
        alpha <= PROB_SCALE,
        obs.to_multiset() == null.to_multiset(),
    ensures
        forall|t: u64| emp_num(obs, null, t) == emp_den(obs, null, t),
        forall|j: int|
            0 <= j < obs.len() ==> (accepted(obs, null, #[trigger] obs[j], alpha) <==> alpha == PROB_SCALE),
        forall|sel: Selection|
            #[trigger] selection_correct(obs, null, alpha, sel) && sel.threshold is Some ==> sel.fdr_num
                == sel.fdr_den,
{
    assert forall|t: u64| emp_num(obs, null, t) == emp_den(obs, null, t) by {
        lemma_at_least_multiset(obs, null, t);
        let a = at_least(null, t) as int;
        let n = obs.len() as int;
        assert(a * n == n * a) by (nonlinear_arith);
    }
    lemma_identical_null(obs, alpha);
    assert forall|j: int| 0 <= j < obs.len() implies (accepted(obs, null, #[trigger] obs[j], alpha)
        <==> accepted(obs, obs, obs[j], alpha)) by {
        assert forall|k: int| 0 <= k < obs.len() implies exceeds(obs, null, #[trigger] obs[k], alpha)
            == exceeds(obs, obs, obs[k], alpha) by {
            lemma_at_least_multiset(obs, null, obs[k]);
        }
    }
    assert forall|sel: Selection|
        #[trigger] selection_correct(obs, null, alpha, sel) && sel.threshold is Some implies sel.fdr_num
            == sel.fdr_den by {
        let t = sel.threshold.unwrap();
        let w = choose|w: int|
            0 <= w < obs.len() && obs[w] >= t && sel.fdr_num == emp_num(obs, null, obs[w]) && sel.fdr_den
                == emp_den(obs, null, obs[w]) && forall|j: int|
                0 <= j < obs.len() && obs[j] >= t ==> fdr_le(obs, null, #[trigger] obs[j], obs[w]);
        assert(emp_num(obs, null, obs[w]) == emp_den(obs, null, obs[w]));
    }
}

} // verus!
