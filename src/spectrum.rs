//! Effective mutation rate from the allele frequency spectrum.
//!
//! Under a neutral model the number of variants with frequency at least `f`
//! grows linearly in `1/f`, with the effective mutation rate as slope. The fit
//! is an ordinary least-squares line through the points
//! (reciprocal frequency, cumulative count), one point per distinct frequency,
//! computed exactly in 128-bit integers.
use vstd::prelude::*;

verus! {

/// Allele frequencies are held in parts per million.
pub const FREQ_SCALE: u32 = 1_000_000;

/// The abscissa of frequency class `a` (in ppm) is `RECIP_SCALE / a`:
/// the reciprocal frequency `1/f` in units of one millionth.
pub const RECIP_SCALE: u64 = 1_000_000_000_000;

/// The most observations the exact 128-bit fit can take.
pub const MAX_OBSERVATIONS: u64 = 1_000_000_000_000;

/// A fraction of reads supporting a variant, in parts per million.
#[derive(Clone, Copy, Debug, PartialEq, Eq, Structural)]
pub struct AlleleFreq {
    pub ppm: u32,
}

impl AlleleFreq {
    pub open spec fn wf(self) -> bool {
        self.ppm <= FREQ_SCALE
    }

    /// A frequency of `ppm` parts per million, if it lies in `[0, 1]`.
    pub fn new(ppm: u32) -> (r: Option<AlleleFreq>)
        ensures
            r == (if ppm <= FREQ_SCALE { Some(AlleleFreq { ppm }) } else { None::<AlleleFreq> }),
    {
        if ppm <= FREQ_SCALE {
            Some(AlleleFreq { ppm })
        } else {
            None
        }
    }
}

pub open spec fn all_wf(fs: Seq<AlleleFreq>) -> bool {
    forall|i: int| 0 <= i < fs.len() ==> (#[trigger] fs[i]).wf()
}

pub open spec fn in_window(f: AlleleFreq, lo: u32, hi: u32) -> bool {
    lo <= f.ppm && f.ppm <= hi
}

/// The frequencies of `fs` inside `[lo, hi]`, in their order.
pub open spec fn window(fs: Seq<AlleleFreq>, lo: u32, hi: u32) -> Seq<AlleleFreq>
    decreases fs.len(),
{
    if fs.len() == 0 {
        Seq::empty()
    } else {
        let r = window(fs.drop_last(), lo, hi);
        if in_window(fs.last(), lo, hi) {
            r.push(fs.last())
        } else {
            r
        }
    }
}

/// Keeps the frequencies inside the inclusive window `[min_af, max_af]`.
pub fn filter_window(freqs: &Vec<AlleleFreq>, min_af: u32, max_af: u32) -> (r: Vec<AlleleFreq>)
    ensures
        r@ == window(freqs@, min_af, max_af),
{
    let mut r: Vec<AlleleFreq> = Vec::new();
    let mut i: usize = 0;
    while i < freqs.len()
        invariant
            i <= freqs.len(),
            r@ == window(freqs@.take(i as int), min_af, max_af),
        decreases freqs.len() - i,
    {
        let f = freqs[i];
        proof {
            assert(freqs@.take(i as int + 1).drop_last() =~= freqs@.take(i as int));
        }
        if min_af <= f.ppm && f.ppm <= max_af {
            r.push(f);
        }
        i += 1;
    }
    proof {
        assert(freqs@.take(freqs@.len() as int) =~= freqs@);
    }
    r
}

/// How many frequencies of `fs` equal `a` parts per million.
pub open spec fn count_eq(fs: Seq<AlleleFreq>, a: int) -> nat
    decreases fs.len(),
{
    if fs.len() == 0 {
        0
    } else {
        count_eq(fs.drop_last(), a) + if fs.last().ppm == a { 1nat } else { 0nat }
    }
}

/// How many frequencies of `fs` are at least `a` parts per million.
pub open spec fn count_ge(fs: Seq<AlleleFreq>, a: int) -> nat
    decreases fs.len(),
{
    if fs.len() == 0 {
        0
    } else {
        count_ge(fs.drop_last(), a) + if fs.last().ppm >= a { 1nat } else { 0nat }
    }
}

/// The regression abscissa of frequency class `a`: `1/f` in millionths.
pub open spec fn abscissa(a: int) -> int {
    RECIP_SCALE as int / a
}

/// The fit's points over the frequency classes `a..=FREQ_SCALE` that hold an
/// observation, from the highest frequency down: (frequency, cumulative count).
pub open spec fn points(fs: Seq<AlleleFreq>, a: int) -> Seq<(u32, u64)>
    decreases FREQ_SCALE + 1 - a,
{
    if a > FREQ_SCALE {
        Seq::empty()
    } else {
        let r = points(fs, a + 1);
        if count_eq(fs, a) > 0 {
            r.push((a as u32, count_ge(fs, a) as u64))
        } else {
            r
        }
    }
}

/// Least-squares sums over the same points as `points(fs, a)`:
/// (number of points, sum x, sum y, sum x*x, sum x*y).
pub open spec fn fit_sums(fs: Seq<AlleleFreq>, a: int) -> (int, int, int, int, int)
    decreases FREQ_SCALE + 1 - a,
{
    if a > FREQ_SCALE {
        (0, 0, 0, 0, 0)
    } else {
        let r = fit_sums(fs, a + 1);
        if count_eq(fs, a) > 0 {
            let x = abscissa(a);
            let y = count_ge(fs, a) as int;
            (r.0 + 1, r.1 + x, r.2 + y, r.3 + x * x, r.4 + x * y)
        } else {
            r
        }
    }
}

/// Numerator of the least-squares slope: `n*Sxy - Sx*Sy`.
pub open spec fn slope_num(fs: Seq<AlleleFreq>) -> int {
    let s = fit_sums(fs, 1);
    s.0 * s.4 - s.1 * s.2
}

/// Denominator of the least-squares slope: `n*Sxx - Sx*Sx`.
pub open spec fn slope_den(fs: Seq<AlleleFreq>) -> int {
    let s = fit_sums(fs, 1);
    s.0 * s.3 - s.1 * s.1
}

#[derive(Clone, Copy, Debug, PartialEq, Eq, Structural)]
pub enum EstimateError {
    /// No frequency to fit.
    EmptyInput,
}

/// The fitted spectrum. The effective mutation rate is the slope of the
/// cumulative count against `1/f`, that is
/// `slope_num / slope_den * 1_000_000`; `slope_den` is zero when the fit is
/// degenerate (fewer than two distinct non-zero frequencies). A frequency of
/// zero has no reciprocal and stays out of the fit. The intercept is
/// `(sum_y - slope * sum_x) / n_points`, so the model count at abscissa `x` is
/// `(sum_y - slope * sum_x) / n_points + slope * x`: the intercept is given by
/// these sums since its own numerator `Sy*Sxx - Sx*Sxy` exceeds 128 bits.
#[derive(Clone, Debug)]
pub struct Estimate {
    /// (frequency in ppm, number of observations at or above it), from the
    /// highest frequency down.
    pub observations: Vec<(u32, u64)>,
    pub slope_num: i128,
    pub slope_den: i128,
    /// Number of points of the fit.
    pub n_points: i128,
    /// Sum of the abscissae of the points.
    pub sum_x: i128,
    /// Sum of the cumulative counts of the points.
    pub sum_y: i128,
}

impl Estimate {
    /// The effective mutation rate as the fraction (numerator, denominator),
    /// the numerator in millionths.
    pub fn effective_mutation_rate(&self) -> (r: (i128, i128))
        ensures
            r == (self.slope_num, self.slope_den),
    {
        (self.slope_num, self.slope_den)
    }
}

proof fn lemma_count_step(fs: Seq<AlleleFreq>, a: int)
    ensures
        count_ge(fs, a) == count_ge(fs, a + 1) + count_eq(fs, a),
        count_ge(fs, a) <= fs.len(),
        count_eq(fs, a) <= fs.len(),
    decreases fs.len(),
{
    if fs.len() > 0 {
        lemma_count_step(fs.drop_last(), a);
    }
}

proof fn lemma_count_above(fs: Seq<AlleleFreq>, a: int)
    requires
        all_wf(fs),
        a > FREQ_SCALE,
    ensures
        count_ge(fs, a) == 0,
    decreases fs.len(),
{
    if fs.len() > 0 {
        assert(fs.last() == fs[fs.len() - 1]);
        assert(all_wf(fs.drop_last()));
        lemma_count_above(fs.drop_last(), a);
    }
}

proof fn lemma_mul_le(a: int, b: int, c: int, d: int)
    requires
        0 <= a <= c,
        0 <= b <= d,
    ensures
        0 <= a * b <= c * d,
{
    assert(0 <= a * b <= c * d) by (nonlinear_arith)
        requires
            0 <= a <= c,
            0 <= b <= d,
    ;
}

proof fn lemma_abscissa(a: int)
    requires
        1 <= a,
    ensures
        0 <= abscissa(a) <= RECIP_SCALE,
{
    let k = RECIP_SCALE as int;
    assert(0 <= k / a <= k) by (nonlinear_arith)
        requires
            1 <= a,
            0 <= k,
    ;
}

/// Bounds on the sums: each term is at most the largest abscissa `K`, or the
/// number of observations `n`, or their products.
proof fn lemma_fit_sums_bounds(fs: Seq<AlleleFreq>, a: int)
    requires
        1 <= a <= FREQ_SCALE + 1,
    ensures
        0 <= fit_sums(fs, a).0 <= FREQ_SCALE + 1 - a,
        0 <= fit_sums(fs, a).1 <= fit_sums(fs, a).0 * RECIP_SCALE,
        0 <= fit_sums(fs, a).2 <= fit_sums(fs, a).0 * fs.len(),
        0 <= fit_sums(fs, a).3 <= fit_sums(fs, a).0 * (RECIP_SCALE * RECIP_SCALE),
        0 <= fit_sums(fs, a).4 <= fit_sums(fs, a).0 * (RECIP_SCALE * fs.len()),
    decreases FREQ_SCALE + 1 - a,
{
    if a <= FREQ_SCALE {
        lemma_fit_sums_bounds(fs, a + 1);
        if count_eq(fs, a) > 0 {
            let r = fit_sums(fs, a + 1);
            let k = RECIP_SCALE as int;
            let n = fs.len() as int;
            let x = abscissa(a);
            let y = count_ge(fs, a) as int;
            lemma_abscissa(a);
            lemma_count_step(fs, a);
            lemma_mul_le(x, x, k, k);
            lemma_mul_le(x, y, k, n);
            assert((r.0 + 1) * k == r.0 * k + k) by (nonlinear_arith);
            assert((r.0 + 1) * n == r.0 * n + n) by (nonlinear_arith);
            assert((r.0 + 1) * (k * k) == r.0 * (k * k) + k * k) by (nonlinear_arith);
            assert((r.0 + 1) * (k * n) == r.0 * (k * n) + k * n) by (nonlinear_arith);
        }
    }
}

/// Fits the spectrum of `freqs`.
///
/// Fails with `EmptyInput` on no frequencies, and only then; otherwise the
/// observations and the slope are those of the least-squares fit over the
/// non-zero frequencies, exactly. A degenerate fit is returned as it is.
pub fn estimate(freqs: &Vec<AlleleFreq>) -> (r: Result<Estimate, EstimateError>)
    requires
        all_wf(freqs@),
        freqs@.len() <= MAX_OBSERVATIONS,
    ensures
        freqs@.len() == 0 ==> r == Err::<Estimate, EstimateError>(EstimateError::EmptyInput),
        freqs@.len() > 0 ==> r is Ok,
        r is Ok ==> r.unwrap().observations@ == points(freqs@, 1) && r.unwrap().slope_num
            == slope_num(freqs@) && r.unwrap().slope_den == slope_den(freqs@) && (
            r.unwrap().n_points as int,
            r.unwrap().sum_x as int,
            r.unwrap().sum_y as int,
        ) == (fit_sums(freqs@, 1).0, fit_sums(freqs@, 1).1, fit_sums(freqs@, 1).2),
{
    if freqs.len() == 0 {
        return Err(EstimateError::EmptyInput);
    }
    let ghost fs = freqs@;
    let mut buckets: Vec<u64> = Vec::new();
    let mut j: usize = 0;
    while j <= FREQ_SCALE as usize
        invariant
            j <= FREQ_SCALE + 1,
            buckets@.len() == j,
            forall|b: int| 0 <= b < j ==> buckets@[b] == 0,
        decreases FREQ_SCALE + 1 - j,
    {
        buckets.push(0);
        j += 1;
    }
    let mut i: usize = 0;
    while i < freqs.len()
        invariant
            fs == freqs@,
            all_wf(fs),
            fs.len() <= MAX_OBSERVATIONS,
            i <= fs.len(),
            buckets@.len() == FREQ_SCALE + 1,
            forall|b: int| 0 <= b <= FREQ_SCALE ==> #[trigger] buckets@[b] == count_eq(fs.take(i as int), b),
            forall|b: int| 0 <= b <= FREQ_SCALE ==> #[trigger] buckets@[b] <= i,
        decreases fs.len() - i,
    {
        let a = freqs[i].ppm as usize;
        assert(fs[i as int].wf());
        proof {
            assert(fs.take(i as int + 1).drop_last() =~= fs.take(i as int));
            assert(fs.take(i as int + 1).last() == fs[i as int]);
        }
        let c = buckets[a];
        buckets.set(a, c + 1);
        i += 1;
    }
    proof {
        assert(fs.take(fs.len() as int) =~= fs);
    }
    let mut observations: Vec<(u32, u64)> = Vec::new();
    let mut cum: u64 = 0;
    let mut m: i128 = 0;
    let mut sx: i128 = 0;
    let mut sy: i128 = 0;
    let mut sxx: i128 = 0;
    let mut sxy: i128 = 0;
    let mut a: u32 = FREQ_SCALE;
    proof {
        lemma_count_above(fs, FREQ_SCALE + 1);
    }
    while a >= 1
        invariant
            fs == freqs@,
            fs.len() <= MAX_OBSERVATIONS,
            a <= FREQ_SCALE,
            buckets@.len() == FREQ_SCALE + 1,
            forall|b: int| 0 <= b <= FREQ_SCALE ==> #[trigger] buckets@[b] == count_eq(fs, b),
            cum == count_ge(fs, a + 1),
            observations@ == points(fs, a + 1),
            (m as int, sx as int, sy as int, sxx as int, sxy as int) == fit_sums(fs, a + 1),
        decreases a,
    {
        proof {
            lemma_count_step(fs, a as int);
            lemma_fit_sums_bounds(fs, a as int);
        }
        let c = buckets[a as usize];
        cum = cum + c;
        if c > 0 {
            observations.push((a, cum));
            let x: u64 = RECIP_SCALE / (a as u64);
            proof {
                lemma_abscissa(a as int);
                lemma_mul_le(x as int, x as int, RECIP_SCALE as int, RECIP_SCALE as int);
                lemma_mul_le(x as int, cum as int, RECIP_SCALE as int, fs.len() as int);
                lemma_mul_le(fit_sums(fs, a as int).0, fs.len() as int, FREQ_SCALE as int, MAX_OBSERVATIONS as int);
                lemma_mul_le(fit_sums(fs, a as int).0, RECIP_SCALE * RECIP_SCALE, FREQ_SCALE as int, RECIP_SCALE * RECIP_SCALE);
                lemma_mul_le(fit_sums(fs, a as int).0, RECIP_SCALE * fs.len(), FREQ_SCALE as int, RECIP_SCALE * MAX_OBSERVATIONS);
                lemma_mul_le(RECIP_SCALE as int, fs.len() as int, RECIP_SCALE as int, MAX_OBSERVATIONS as int);
            }
            m = m + 1;
            sx = sx + x as i128;
            sy = sy + cum as i128;
            sxx = sxx + (x as i128) * (x as i128);
            sxy = sxy + (x as i128) * (cum as i128);
        }
        a = a - 1;
    }
    proof {
        lemma_fit_sums_bounds(fs, 1);
        let s = fit_sums(fs, 1);
        lemma_mul_le(s.0, RECIP_SCALE * fs.len(), FREQ_SCALE as int, RECIP_SCALE * MAX_OBSERVATIONS);
        lemma_mul_le(s.0, RECIP_SCALE * RECIP_SCALE, FREQ_SCALE as int, RECIP_SCALE * RECIP_SCALE);
        lemma_mul_le(s.0, RECIP_SCALE as int, FREQ_SCALE as int, RECIP_SCALE as int);
        lemma_mul_le(s.0, fs.len() as int, FREQ_SCALE as int, MAX_OBSERVATIONS as int);
        lemma_mul_le(RECIP_SCALE as int, fs.len() as int, RECIP_SCALE as int, MAX_OBSERVATIONS as int);
        lemma_mul_le(s.0, s.4, FREQ_SCALE as int, FREQ_SCALE * (RECIP_SCALE * MAX_OBSERVATIONS));
        lemma_mul_le(s.0, s.3, FREQ_SCALE as int, FREQ_SCALE * (RECIP_SCALE * RECIP_SCALE));
        lemma_mul_le(s.1, s.2, FREQ_SCALE * RECIP_SCALE, FREQ_SCALE * MAX_OBSERVATIONS);
        lemma_mul_le(s.1, s.1, FREQ_SCALE * RECIP_SCALE, FREQ_SCALE * RECIP_SCALE);
    }
    let slope_num = m * sxy - sx * sy;
    let slope_den = m * sxx - sx * sx;
    Ok(Estimate { observations, slope_num, slope_den, n_points: m, sum_x: sx, sum_y: sy })
}

/// The window keeps valid frequencies valid and never grows.
pub proof fn lemma_window_wf(fs: Seq<AlleleFreq>, lo: u32, hi: u32)
    requires
        all_wf(fs),
    ensures
        all_wf(window(fs, lo, hi)),
        window(fs, lo, hi).len() <= fs.len(),
        forall|i: int| 0 <= i < window(fs, lo, hi).len() ==> in_window(#[trigger] window(fs, lo, hi)[i], lo, hi),
    decreases fs.len(),
{
    if fs.len() > 0 {
        assert(fs.last() == fs[fs.len() - 1]);
        assert(all_wf(fs.drop_last()));
        lemma_window_wf(fs.drop_last(), lo, hi);
    }
}

/// Whether the cumulative counts `y` of `fs` lie exactly on the line
/// `d * y == c + b * x` over the abscissae `x` of its frequency classes.
pub open spec fn on_line(fs: Seq<AlleleFreq>, c: int, b: int, d: int) -> bool {
    forall|a: int|
        1 <= a <= FREQ_SCALE && count_eq(fs, a) > 0 ==> d * #[trigger] count_ge(fs, a) == c + b * abscissa(a)
}

proof fn lemma_line_sums(fs: Seq<AlleleFreq>, c: int, b: int, d: int, a: int)
    requires
        on_line(fs, c, b, d),
        1 <= a <= FREQ_SCALE + 1,
    ensures
        d * fit_sums(fs, a).2 == fit_sums(fs, a).0 * c + b * fit_sums(fs, a).1,
        d * fit_sums(fs, a).4 == c * fit_sums(fs, a).1 + b * fit_sums(fs, a).3,
    decreases FREQ_SCALE + 1 - a,
{
    if a <= FREQ_SCALE {
        lemma_line_sums(fs, c, b, d, a + 1);
        if count_eq(fs, a) > 0 {
            let r = fit_sums(fs, a + 1);
            let x = abscissa(a);
            let y = count_ge(fs, a) as int;
            assert(d * y == c + b * x);
            assert(d * (r.2 + y) == d * r.2 + d * y) by (nonlinear_arith);
            assert((r.0 + 1) * c == r.0 * c + c) by (nonlinear_arith);
            assert(b * (r.1 + x) == b * r.1 + b * x) by (nonlinear_arith);
            assert(d * (r.4 + x * y) == d * r.4 + x * (d * y)) by (nonlinear_arith);
            assert(x * (c + b * x) == c * x + b * (x * x)) by (nonlinear_arith);
            assert(c * (r.1 + x) == c * r.1 + c * x) by (nonlinear_arith);
            assert(b * (r.3 + x * x) == b * r.3 + b * (x * x)) by (nonlinear_arith);
            assert(fit_sums(fs, a) == (r.0 + 1, r.1 + x, r.2 + y, r.3 + x * x, r.4 + x * y));
        }
    } else {
        assert(d * 0 == 0 * c + b * 0 && d * 0 == c * 0 + b * 0) by (nonlinear_arith);
    }
}

/// A spectrum that follows the linear law exactly is fitted exactly: where
/// the cumulative counts lie on a line of slope `b / d` against the abscissa,
/// the fitted slope is `b / d` (`d` times its numerator is `b` times its
/// denominator).
pub proof fn lemma_linear_spectrum_recovered(fs: Seq<AlleleFreq>, c: int, b: int, d: int)
    requires
        on_line(fs, c, b, d),
    ensures
        d * slope_num(fs) == b * slope_den(fs),
{
    lemma_line_sums(fs, c, b, d, 1);
    let s = fit_sums(fs, 1);
    let (m, sx, sy, sxx, sxy) = s;
    assert(d * (m * sxy) == m * (d * sxy)) by (nonlinear_arith);
    assert(d * (sx * sy) == sx * (d * sy)) by (nonlinear_arith);
    assert(m * (c * sx + b * sxx) == m * c * sx + b * (m * sxx)) by (nonlinear_arith);
    assert(sx * (m * c + b * sx) == m * c * sx + b * (sx * sx)) by (nonlinear_arith);
    assert(d * (m * sxy - sx * sy) == d * (m * sxy) - d * (sx * sy)) by (nonlinear_arith);
    assert(b * (m * sxx - sx * sx) == b * (m * sxx) - b * (sx * sx)) by (nonlinear_arith);
}

/// The fit depends on the windowed frequencies alone: two calls whose
/// windows hold the same frequencies, in the same order, give the same
/// observations, slope and sums, whatever lies outside the windows.
pub proof fn lemma_window_determines_fit(
    f1: Seq<AlleleFreq>,
    lo1: u32,
    hi1: u32,
    f2: Seq<AlleleFreq>,
    lo2: u32,
    hi2: u32,
)
    requires
        window(f1, lo1, hi1) == window(f2, lo2, hi2),
    ensures
        points(window(f1, lo1, hi1), 1) == points(window(f2, lo2, hi2), 1),
        slope_num(window(f1, lo1, hi1)) == slope_num(window(f2, lo2, hi2)),
        slope_den(window(f1, lo1, hi1)) == slope_den(window(f2, lo2, hi2)),
        fit_sums(window(f1, lo1, hi1), 1) == fit_sums(window(f2, lo2, hi2), 1),
{
}

} // verus!
