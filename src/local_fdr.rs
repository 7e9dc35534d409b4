//! Local FDR of posterior event probabilities.
//!
//! Records are ranked from most to least confident, ties in input order. The
//! FDR of a record is the mean posterior error probability `1 - p` over the
//! records ranked at or before it: the expected share of false calls among
//! them.
use vstd::prelude::*;
use crate::records::{PROB_SCALE, MAX_RECORDS, VariantRecord, event_column, event_probs};

verus! {

/// Probabilities of one event column, each within `[0, 1]` where present.
pub open spec fn probs_wf(ps: Seq<Option<u64>>) -> bool {
    forall|j: int| 0 <= j < ps.len() && (#[trigger] ps[j]) is Some ==> ps[j].unwrap() <= PROB_SCALE
}

/// Whether entry `j` ranks at or before entry `i`: a higher probability, or
/// the same one no later in the input.
pub open spec fn ranks_before(ps: Seq<Option<u64>>, j: int, i: int) -> bool {
    &&& ps[j] is Some
    &&& ps[i] is Some
    &&& (ps[j].unwrap() > ps[i].unwrap() || (ps[j].unwrap() == ps[i].unwrap() && j <= i))
}

/// Number of entries among the first `k` that rank at or before `i`.
pub open spec fn rank_count(ps: Seq<Option<u64>>, i: int, k: int) -> nat
    decreases k,
{
    if k <= 0 {
        0
    } else {
        rank_count(ps, i, k - 1) + if ranks_before(ps, k - 1, i) { 1nat } else { 0nat }
    }
}

/// Sum of the error probabilities `PROB_SCALE - p` of those entries.
pub open spec fn error_sum(ps: Seq<Option<u64>>, i: int, k: int) -> int
    decreases k,
{
    if k <= 0 {
        0
    } else {
        error_sum(ps, i, k - 1) + if ranks_before(ps, k - 1, i) {
            PROB_SCALE - ps[k - 1].unwrap()
        } else {
            0
        }
    }
}

/// The local FDR of entry `i`, in parts per billion (rounded down); `None`
/// where the entry has no probability.
pub open spec fn spec_local_fdr(ps: Seq<Option<u64>>, i: int) -> Option<u64> {
    if ps[i] is Some {
        Some((error_sum(ps, i, ps.len() as int) / rank_count(ps, i, ps.len() as int) as int) as u64)
    } else {
        None
    }
}

proof fn lemma_sums_bounded(ps: Seq<Option<u64>>, i: int, k: int)
    requires
        probs_wf(ps),
        0 <= i < ps.len(),
        0 <= k <= ps.len(),
    ensures
        rank_count(ps, i, k) <= k,
        0 <= error_sum(ps, i, k) <= rank_count(ps, i, k) * PROB_SCALE,
        ps[i] is Some && i < k ==> rank_count(ps, i, k) >= 1,
    decreases k,
{
    if k > 0 {
        lemma_sums_bounded(ps, i, k - 1);
        assert(rank_count(ps, i, k - 1) * PROB_SCALE + PROB_SCALE == (rank_count(ps, i, k - 1) + 1)
            * PROB_SCALE) by (nonlinear_arith);
    }
}

/// The local FDR of each entry of one event column.
pub fn local_fdr(ps: &Vec<Option<u64>>) -> (r: Vec<Option<u64>>)
    requires
        probs_wf(ps@),
        ps@.len() <= MAX_RECORDS,
    ensures
        r@.len() == ps@.len(),
        forall|i: int| 0 <= i < ps@.len() ==> #[trigger] r@[i] == spec_local_fdr(ps@, i),
{
    let n = ps.len();
    let mut r: Vec<Option<u64>> = Vec::new();
    let mut i: usize = 0;
    while i < n
        invariant
            n == ps@.len(),
            probs_wf(ps@),
            n <= MAX_RECORDS,
            i <= n,
            r@.len() == i,
            forall|k: int| 0 <= k < i ==> #[trigger] r@[k] == spec_local_fdr(ps@, k),
        decreases n - i,
    {
        match ps[i] {
            None => {
                r.push(None);
            },
            Some(p) => {
                let mut cnt: u64 = 0;
                let mut sum: u128 = 0;
                let mut j: usize = 0;
                while j < n
                    invariant
                        n == ps@.len(),
                        probs_wf(ps@),
                        n <= MAX_RECORDS,
                        i < n,
                        ps@[i as int] == Some(p),
                        j <= n,
                        cnt == rank_count(ps@, i as int, j as int),
                        sum == error_sum(ps@, i as int, j as int),
                    decreases n - j,
                {
                    proof {
                        lemma_sums_bounded(ps@, i as int, j as int + 1);
                    }
                    match ps[j] {
                        Some(q) => {
                            if q > p || (q == p && j <= i) {
                                cnt = cnt + 1;
                                sum = sum + (PROB_SCALE - q) as u128;
                            }
                        },
                        None => {},
                    }
                    j += 1;
                }
                proof {
                    lemma_sums_bounded(ps@, i as int, n as int);
                    assert(sum / (cnt as u128) <= sum) by (nonlinear_arith)
                        requires
                            cnt >= 1,
                    ;
                    assert(sum / (cnt as u128) <= PROB_SCALE) by (nonlinear_arith)
                        requires
                            cnt >= 1,
                            sum <= cnt * PROB_SCALE,
                    ;
                }
                r.push(Some((sum / (cnt as u128)) as u64));
            },
        }
        i += 1;
    }
    r
}

#[derive(Clone, Copy, Debug, PartialEq, Eq, Structural)]
pub enum AnnotateError {
    /// No record holds a probability for the event column at this position
    /// of the requested events.
    MissingEvent(usize),
}

/// The local FDR column of event column `event` over `recs`.
pub open spec fn fdr_column(recs: Seq<VariantRecord>, event: int) -> Seq<Option<u64>> {
    let ps = event_column(recs, event);
    Seq::new(ps.len(), |i: int| spec_local_fdr(ps, i))
}

/// Whether some record holds a probability for event column `event`.
pub open spec fn event_present(recs: Seq<VariantRecord>, event: int) -> bool {
    exists|i: int| 0 <= i < recs.len() && (#[trigger] recs[i].spec_prob(event)) is Some
}

/// The first requested event that no record holds, if any.
pub open spec fn first_missing(recs: Seq<VariantRecord>, events: Seq<usize>, k: int) -> Option<int>
    decreases events.len() - k,
{
    if k >= events.len() || k < 0 {
        None
    } else if !event_present(recs, events[k] as int) {
        Some(k)
    } else {
        first_missing(recs, events, k + 1)
    }
}

pub open spec fn recs_wf(recs: Seq<VariantRecord>) -> bool {
    forall|i: int| 0 <= i < recs.len() ==> (#[trigger] recs[i]).wf()
}

fn any_present(col: &Vec<Option<u64>>) -> (r: bool)
    ensures
        r == exists|i: int| 0 <= i < col@.len() && (#[trigger] col@[i]) is Some,
{
    let mut i: usize = 0;
    while i < col.len()
        invariant
            i <= col@.len(),
            forall|k: int| 0 <= k < i ==> (#[trigger] col@[k]) is None,
        decreases col.len() - i,
    {
        if col[i].is_some() {
            return true;
        }
        i += 1;
    }
    false
}

/// Annotates a call set with the local FDR of each requested event column.
///
/// Entry `[e][i]` of the result is the local FDR of record `i` for
/// `events[e]`, or `None` where the record lacks that event. The records
/// themselves are only read. Fails with `MissingEvent` at the first requested
/// event that no record holds.
pub fn annotate(recs: &Vec<VariantRecord>, events: &Vec<usize>) -> (r: Result<
    Vec<Vec<Option<u64>>>,
    AnnotateError,
>)
    requires
        recs_wf(recs@),
        recs@.len() <= MAX_RECORDS,
    ensures
        first_missing(recs@, events@, 0) is Some <==> r is Err,
        first_missing(recs@, events@, 0) matches Some(k) ==> r == Err::<Vec<Vec<Option<u64>>>, AnnotateError>(
            AnnotateError::MissingEvent(k as usize),
        ),
        r matches Ok(cols) ==> cols@.len() == events@.len() && forall|e: int|
            0 <= e < events@.len() ==> (#[trigger] cols@[e])@ == fdr_column(recs@, events@[e] as int),
{
    let mut cols: Vec<Vec<Option<u64>>> = Vec::new();
    let mut e: usize = 0;
    while e < events.len()
        invariant
            recs_wf(recs@),
            recs@.len() <= MAX_RECORDS,
            e <= events@.len(),
            first_missing(recs@, events@, 0) == first_missing(recs@, events@, e as int),
            cols@.len() == e,
            forall|f: int| 0 <= f < e ==> (#[trigger] cols@[f])@ == fdr_column(recs@, events@[f] as int),
        decreases events.len() - e,
    {
        let col = event_probs(recs, events[e]);
        let ghost ev = events@[e as int] as int;
        if !any_present(&col) {
            proof {
                assert forall|i: int| 0 <= i < recs@.len() implies !(#[trigger] recs@[i].spec_prob(ev) is Some) by {
                    assert(col@[i] == recs@[i].spec_prob(ev));
                }
            }
            return Err(AnnotateError::MissingEvent(e));
        }
        proof {
            let i = choose|i: int| 0 <= i < col@.len() && (#[trigger] col@[i]) is Some;
            assert(recs@[i].spec_prob(ev) is Some);
            assert forall|j: int| 0 <= j < col@.len() && (#[trigger] col@[j]) is Some implies col@[j].unwrap()
                <= PROB_SCALE by {
                assert(recs@[j].wf());
            }
        }
        let fdrs = local_fdr(&col);
        proof {
            assert(fdrs@ =~= fdr_column(recs@, ev));
        }
        cols.push(fdrs);
        e += 1;
    }
    Ok(cols)
}

/// A call with its local FDR per requested event, in parts per billion.
#[derive(Debug)]
pub struct AnnotatedRecord {
    pub record: VariantRecord,
    pub fdr: Vec<Option<u64>>,
}

/// The FDR values of record `i` across the annotated columns.
fn row(cols: &Vec<Vec<Option<u64>>>, i: usize) -> (r: Vec<Option<u64>>)
    requires
        forall|e: int| 0 <= e < cols@.len() ==> i < (#[trigger] cols@[e])@.len(),
    ensures
        r@.len() == cols@.len(),
        forall|e: int| 0 <= e < cols@.len() ==> #[trigger] r@[e] == cols@[e]@[i as int],
{
    let mut r: Vec<Option<u64>> = Vec::new();
    let mut e: usize = 0;
    while e < cols.len()
        invariant
            e <= cols@.len(),
            forall|f: int| 0 <= f < cols@.len() ==> i < (#[trigger] cols@[f])@.len(),
            r@.len() == e,
            forall|f: int| 0 <= f < e ==> #[trigger] r@[f] == cols@[f]@[i as int],
        decreases cols.len() - e,
    {
        r.push(cols[e][i]);
        e += 1;
    }
    r
}

/// Annotates a call set and hands each record back with its FDR values: the
/// record itself unchanged, and one value per requested event (`None` where
/// the record lacks the event). Fails as `annotate` does, and then yields no
/// record.
pub fn annotate_records(recs: Vec<VariantRecord>, events: &Vec<usize>) -> (r: Result<
    Vec<AnnotatedRecord>,
    AnnotateError,
>)
    requires
        recs_wf(recs@),
        recs@.len() <= MAX_RECORDS,
    ensures
        first_missing(recs@, events@, 0) is Some <==> r is Err,
        first_missing(recs@, events@, 0) matches Some(k) ==> r == Err::<Vec<AnnotatedRecord>, AnnotateError>(
            AnnotateError::MissingEvent(k as usize),
        ),
        r matches Ok(out) ==> out@.len() == recs@.len() && forall|i: int|
            0 <= i < recs@.len() ==> (#[trigger] out@[i]).record == recs@[i] && out@[i].fdr@.len()
                == events@.len() && forall|e: int|
                0 <= e < events@.len() ==> #[trigger] out@[i].fdr@[e] == fdr_column(
                    recs@,
                    events@[e] as int,
                )[i],
{
    let cols = match annotate(&recs, events) {
        Ok(c) => c,
        Err(e) => {
            return Err(e);
        },
    };
    let ghost orig = recs@;
    let n = recs.len();
    let mut recs = recs;
    // reversed, then reversed again: records are moved, never copied
    let mut rev: Vec<VariantRecord> = Vec::new();
    while recs.len() > 0
        invariant
            recs@ == orig.take(recs@.len() as int),
            recs@.len() + rev@.len() == n,
            n == orig.len(),
            forall|j: int| 0 <= j < rev@.len() ==> #[trigger] rev@[j] == orig[n - 1 - j],
        decreases recs@.len(),
    {
        let x = recs.pop().unwrap();
        proof {
            assert(recs@ =~= orig.take(recs@.len() as int));
        }
        rev.push(x);
    }
    let mut out: Vec<AnnotatedRecord> = Vec::new();
    while rev.len() > 0
        invariant
            n == orig.len(),
            out@.len() + rev@.len() == n,
            forall|j: int| 0 <= j < rev@.len() ==> #[trigger] rev@[j] == orig[n - 1 - j],
            cols@.len() == events@.len(),
            forall|e: int| 0 <= e < events@.len() ==> (#[trigger] cols@[e])@ == fdr_column(orig, events@[e] as int),
            forall|i: int|
                0 <= i < out@.len() ==> (#[trigger] out@[i]).record == orig[i] && out@[i].fdr@.len()
                    == events@.len() && forall|e: int|
                    0 <= e < events@.len() ==> #[trigger] out@[i].fdr@[e] == fdr_column(orig, events@[e] as int)[i],
        decreases rev@.len(),
    {
        let i = out.len();
        let x = rev.pop().unwrap();
        let fdr = row(&cols, i);
        out.push(AnnotatedRecord { record: x, fdr });
    }
    Ok(out)
}

proof fn lemma_tail_compare(ps: Seq<Option<u64>>, i: int, k: int, n: int)
    requires
        probs_wf(ps),
        0 <= i < ps.len(),
        0 <= k < ps.len(),
        0 <= n <= ps.len(),
        ranks_before(ps, i, k),
    ensures
        rank_count(ps, i, n) <= rank_count(ps, k, n),
        error_sum(ps, i, n) <= rank_count(ps, i, n) * (PROB_SCALE - ps[i].unwrap()),
        error_sum(ps, k, n) - error_sum(ps, i, n) >= (rank_count(ps, k, n) - rank_count(ps, i, n)) * (
        PROB_SCALE - ps[i].unwrap()),
    decreases n,
{
    if n > 0 {
        lemma_tail_compare(ps, i, k, n - 1);
        let c = PROB_SCALE - ps[i].unwrap();
        let ca = rank_count(ps, i, n - 1) as int;
        let cb = rank_count(ps, k, n - 1) as int;
        assert((ca + 1) * c == ca * c + c) by (nonlinear_arith);
        assert((cb + 1 - ca) * c == (cb - ca) * c + c) by (nonlinear_arith);
    }
}

/// Local FDRs never decrease down the ranking: an entry ranked at or before
/// another (in particular one with a higher probability) has an FDR no larger.
pub proof fn lemma_local_fdr_monotone(ps: Seq<Option<u64>>, i: int, k: int)
    requires
        probs_wf(ps),
        0 <= i < ps.len(),
        0 <= k < ps.len(),
        ranks_before(ps, i, k),
    ensures
        spec_local_fdr(ps, i).unwrap() <= spec_local_fdr(ps, k).unwrap(),
{
    let n = ps.len() as int;
    lemma_tail_compare(ps, i, k, n);
    lemma_sums_bounded(ps, i, n);
    lemma_sums_bounded(ps, k, n);
    let c = (PROB_SCALE - ps[i].unwrap()) as int;
    let sa = error_sum(ps, i, n);
    let sb = error_sum(ps, k, n);
    let ca = rank_count(ps, i, n) as int;
    let cb = rank_count(ps, k, n) as int;
    assert(sa * cb <= sb * ca) by (nonlinear_arith)
        requires
            0 <= sa <= ca * c,
            sb - sa >= (cb - ca) * c,
            1 <= ca <= cb,
    ;
    assert(sa / ca <= c && sb / cb <= PROB_SCALE) by (nonlinear_arith)
        requires
            0 <= sa <= ca * c,
            0 <= sb <= cb * PROB_SCALE,
            1 <= ca,
            1 <= cb,
            c <= PROB_SCALE,
    ;
    assert(sa / ca <= sb / cb) by (nonlinear_arith)
        requires
            sa * cb <= sb * ca,
            1 <= ca,
            1 <= cb,
            0 <= sa,
            0 <= sb,
    ;
}

} // verus!
