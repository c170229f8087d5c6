//! The windowed spectral transform and its inverse. The forward transform
//! pads each row, slides the analysis window in hop-length steps and takes
//! a real-input discrete Fourier transform of each windowed frame against
//! the plan's fixed-point tables; the inverse runs the matching synthesis
//! sum per frame and accumulates frames by overlap-add, in a
//! window-normalized and a raw variant. Every cell and sample is stated
//! as an exact integer formula over the input and the plan's tables.

use crate::frames::{spec_left_pad, spec_padded_len, spec_stft_frames};
use crate::num::{div_q, div_trunc, lemma_div_trunc_bounded, lemma_mul_bounded};
use crate::plan::SpectralPlan;
use crate::tensor::Tensor3;
use crate::wave::{SignalBatch, WaveformBatch};
use crate::ConvertError;
use crate::{CELL_DIV, CELL_LIMIT, CELL_ONE, SEG_LIMIT, SIGNAL_LIMIT, TRIG_ONE, WINDOW_ONE};
use vstd::prelude::*;

verus! {

/// A complex time-frequency representation `[batch, bin, frame]`, stored
/// as separate real and imaginary tensors whose cells stay within
/// `CELL_LIMIT`.
#[derive(Clone, Debug, PartialEq)]
pub struct ComplexSpectrogram {
    pub re: Tensor3,
    pub im: Tensor3,
}

impl ComplexSpectrogram {
    /// Batch count.
    pub open spec fn batches(&self) -> nat {
        self.re.batches()
    }

    /// Frequency-bin count.
    pub open spec fn bins(&self) -> nat {
        self.re.channels()
    }

    /// Frame count.
    pub open spec fn frames(&self) -> nat {
        self.re.frames()
    }

    /// The real part at `[b, k, t]`.
    pub open spec fn re_at(&self, b: int, k: int, t: int) -> int {
        self.re.at(b, k, t)
    }

    /// The imaginary part at `[b, k, t]`.
    pub open spec fn im_at(&self, b: int, k: int, t: int) -> int {
        self.im.at(b, k, t)
    }

    /// Well-formedness: both parts rectangular with equal shape, every
    /// cell within `CELL_LIMIT`.
    pub open spec fn wf(&self) -> bool {
        &&& self.re.wf()
        &&& self.im.wf()
        &&& self.im.batches() == self.re.batches()
        &&& self.im.channels() == self.re.channels()
        &&& self.im.frames() == self.re.frames()
        &&& self.re.within(-CELL_LIMIT as int, CELL_LIMIT as int)
        &&& self.im.within(-CELL_LIMIT as int, CELL_LIMIT as int)
    }

    /// Pair two tensors into a complex spectrogram: accepted exactly when
    /// they share a shape and stay within `CELL_LIMIT`. A shape
    /// disagreement is a shape mismatch, an out-of-range cell a domain
    /// error.
    pub fn from_parts(re: Tensor3, im: Tensor3) -> (r: Result<ComplexSpectrogram, ConvertError>)
        requires
            re.wf(),
            im.wf(),
        ensures
            r is Ok <==> (ComplexSpectrogram { re, im }).wf(),
            r is Ok ==> r->Ok_0 == (ComplexSpectrogram { re, im }),
            !(im.batches() == re.batches() && im.channels() == re.channels() && im.frames()
                == re.frames()) ==> (r is Err && r->Err_0 == ConvertError::ShapeMismatch),
            im.batches() == re.batches() && im.channels() == re.channels() && im.frames()
                == re.frames() && !(re.within(-CELL_LIMIT as int, CELL_LIMIT as int) && im.within(
                -CELL_LIMIT as int,
                CELL_LIMIT as int,
            )) ==> (r is Err && r->Err_0 == ConvertError::DomainError),
    {
        let s = ComplexSpectrogram { re, im };
        if s.im.batch_count() != s.re.batch_count() || s.im.channel_count()
            != s.re.channel_count() || s.im.frame_count() != s.re.frame_count() {
            return Err(ConvertError::ShapeMismatch);
        }
        if !s.re.values_within(-CELL_LIMIT, CELL_LIMIT) {
            return Err(ConvertError::DomainError);
        }
        if !s.im.values_within(-CELL_LIMIT, CELL_LIMIT) {
            return Err(ConvertError::DomainError);
        }
        Ok(s)
    }
}

/// The padded analysis row: `n_fft / 2` zeros, the samples, then zeros up
/// to the next hop boundary and another `n_fft / 2`.
pub open spec fn spec_padded_row(row: Seq<i16>, n_fft: nat, hop: nat) -> Seq<i64>
    recommends
        hop > 0,
{
    Seq::new(
        spec_padded_len(row.len(), n_fft, hop),
        |j: int|
            if j < spec_left_pad(n_fft) || j >= spec_left_pad(n_fft) + row.len() {
                0i64
            } else {
                row[j - spec_left_pad(n_fft)] as i64
            },
    )
}

/// The analysis sum for one spectrogram cell before rescaling: over the
/// window positions `j < i`, the padded sample at `t * hop + j` times the
/// window at `j` times the table at `(j * k) % n_fft`.
pub open spec fn spec_frame_dot(
    x: Seq<i64>,
    w: Seq<i64>,
    tbl: Seq<i64>,
    start: int,
    k: nat,
    i: nat,
) -> int
    decreases i,
{
    if i == 0 {
        0
    } else {
        let j = (i - 1) as int;
        spec_frame_dot(x, w, tbl, start, k, (i - 1) as nat) + x[start + j] * w[j] * tbl[(((i
            - 1) * (k as int)) % (w.len() as int))]
    }
}

/// The real part of forward-transform cell `[k, t]` of a row: the cosine
/// analysis sum, truncated to cell units.
pub open spec fn spec_stft_re(row: Seq<i16>, plan: SpectralPlan, k: nat, t: nat) -> int {
    div_trunc(
        spec_frame_dot(
            spec_padded_row(row, plan.n_fft as nat, plan.hop as nat),
            plan.window@,
            plan.cos_table@,
            t * plan.hop,
            k,
            plan.n_fft as nat,
        ),
        CELL_DIV as int,
    )
}

/// The imaginary part of forward-transform cell `[k, t]` of a row: the
/// negated sine analysis sum, truncated to cell units.
pub open spec fn spec_stft_im(row: Seq<i16>, plan: SpectralPlan, k: nat, t: nat) -> int {
    div_trunc(
        -spec_frame_dot(
            spec_padded_row(row, plan.n_fft as nat, plan.hop as nat),
            plan.window@,
            plan.sin_table@,
            t * plan.hop,
            k,
            plan.n_fft as nat,
        ),
        CELL_DIV as int,
    )
}

/// Build the padded analysis row of one waveform row.
fn pad_row(row: &Vec<i16>, n_fft: usize, hop: usize) -> (r: Vec<i64>)
    requires
        hop >= 1,
        n_fft <= 4096,
        row.len() + n_fft + hop < 0x4000_0000,
    ensures
        r@ == spec_padded_row(row@, n_fft as nat, hop as nat),
        r@.len() == spec_padded_len(row@.len(), n_fft as nat, hop as nat),
{
    let left = n_fft / 2;
    let tail = hop - (row.len() % hop);
    let right = n_fft / 2 + tail;
    proof {
        assert((row@.len() as int) % (hop as int) < hop as int) by {
            vstd::arithmetic::div_mod::lemma_mod_division_less_than_divisor(
                row@.len() as int,
                hop as int,
            );
        }
    }
    let total = left + row.len() + right;
    let mut out: Vec<i64> = Vec::new();
    for j in 0..total
        invariant
            left == spec_left_pad(n_fft as nat),
            total == spec_padded_len(row@.len(), n_fft as nat, hop as nat),
            out@.len() == j,
            forall|i: int|
                0 <= i < j ==> #[trigger] out@[i] == spec_padded_row(
                    row@,
                    n_fft as nat,
                    hop as nat,
                )[i],
    {
        let v: i64 = if j < left || j >= left + row.len() {
            0
        } else {
            row[j - left] as i64
        };
        out.push(v);
    }
    proof {
        assert(out@ =~= spec_padded_row(row@, n_fft as nat, hop as nat));
    }
    out
}

/// One analysis sum, exactly as `spec_frame_dot` states it.
fn frame_dot(x: &Vec<i64>, w: &Vec<i64>, tbl: &Vec<i64>, start: usize, k: usize) -> (r: i128)
    requires
        w.len() == tbl.len(),
        1 <= w.len() <= 4096,
        k <= w.len(),
        start + w.len() <= x.len(),
        forall|j: int| 0 <= j < x.len() ==> -0x8000 <= #[trigger] x@[j] <= 0x8000,
        forall|j: int| 0 <= j < w.len() ==> 1 <= #[trigger] w@[j] <= 2 * WINDOW_ONE,
        forall|j: int| 0 <= j < tbl.len() ==> -TRIG_ONE <= #[trigger] tbl@[j] <= TRIG_ONE,
    ensures
        r == spec_frame_dot(x@, w@, tbl@, start as int, k as nat, w.len() as nat),
        -0x40000_0000_0000_0000_0000 <= r <= 0x40000_0000_0000_0000_0000,
{
    let n = w.len();
    let xn = x.len();
    let mut acc: i128 = 0;
    for i in 0..n
        invariant
            w@.len() == n,
            tbl@.len() == n,
            xn == x@.len(),
            1 <= n <= 4096,
            k <= n,
            start + n <= xn,
            forall|j: int| 0 <= j < x@.len() ==> -0x8000 <= #[trigger] x@[j] <= 0x8000,
            forall|j: int| 0 <= j < n ==> 1 <= #[trigger] w@[j] <= 2 * WINDOW_ONE,
            forall|j: int| 0 <= j < n ==> -TRIG_ONE <= #[trigger] tbl@[j] <= TRIG_ONE,
            acc == spec_frame_dot(x@, w@, tbl@, start as int, k as nat, i as nat),
            -(i as int) * 0x40_0000_0000_0000_0000 <= acc <= (i as int) * 0x40_0000_0000_0000_0000,
    {
        proof {
            assert(i * k <= 4096 * 4096) by (nonlinear_arith)
                requires
                    0 <= i <= 4096,
                    0 <= k <= 4096,
            ;
        }
        let xv = x[start + i];
        let wv = w[i];
        let tv = tbl[(i * k) % n];
        proof {
            lemma_mul_bounded(xv as int, wv as int, 0x8000, 2 * WINDOW_ONE as int);
            lemma_mul_bounded(
                (xv as int) * (wv as int),
                tv as int,
                0x400_0000_0000,
                TRIG_ONE as int,
            );
            assert(0x400_0000_0000 * TRIG_ONE as int == 0x40_0000_0000_0000_0000);
            assert((i as int) * 0x40_0000_0000_0000_0000 + 0x40_0000_0000_0000_0000 == ((i
                + 1) as int) * 0x40_0000_0000_0000_0000) by (nonlinear_arith);
            assert((i as int + 1) * 0x40_0000_0000_0000_0000 <= 4096 * 0x40_0000_0000_0000_0000)
                by (nonlinear_arith)
                requires
                    i as int + 1 <= 4096,
            ;
        }
        let p: i128 = (xv as i128) * (wv as i128) * (tv as i128);
        acc = acc + p;
    }
    proof {
        assert((n as int) * 0x40_0000_0000_0000_0000 <= 0x40000_0000_0000_0000_0000)
            by (nonlinear_arith)
            requires
                n as int <= 4096,
        ;
    }
    acc
}

/// Forward windowed spectral transform of a waveform batch: cell
/// `[b, k, t]` holds the analysis sum of row `b`'s padded samples against
/// the plan's window and tables, truncated to cell units; frame count is
/// `row_len / hop + 1` and bin count `n_fft / 2 + 1`.
pub fn stft(input: &WaveformBatch, plan: &SpectralPlan) -> (r: ComplexSpectrogram)
    requires
        input.wf(),
        plan.wf(),
        input.row_len() < 0x1000_0000,
    ensures
        r.wf(),
        r.batches() == input.batches(),
        input.batches() > 0 ==> r.bins() == plan.bins(),
        input.batches() > 0 ==> r.frames() == spec_stft_frames(
            input.row_len(),
            plan.hop as nat,
        ),
        forall|b: int, k: int, t: int|
            0 <= b < input.batches() && 0 <= k < plan.bins() && 0 <= t < spec_stft_frames(
                input.row_len(),
                plan.hop as nat,
            ) ==> #[trigger] r.re_at(b, k, t) == spec_stft_re(
                input.rows@[b]@,
                *plan,
                k as nat,
                t as nat,
            ) && #[trigger] r.im_at(b, k, t) == spec_stft_im(
                input.rows@[b]@,
                *plan,
                k as nat,
                t as nat,
            ),
{
    let b_count = input.rows.len();
    let len = input.sample_count();
    let bins = plan.bin_count();
    let t_count = len / plan.hop + 1;
    proof {
        crate::frames::lemma_windows_covered(len as nat, plan.n_fft as nat, plan.hop as nat);
        vstd::arithmetic::div_mod::lemma_div_nonincreasing(len as int, plan.hop as int);
    }
    let mut re: Vec<Vec<Vec<i64>>> = Vec::new();
    let mut im: Vec<Vec<Vec<i64>>> = Vec::new();
    for b in 0..b_count
        invariant
            input.wf(),
            plan.wf(),
            b_count == input.batches(),
            len == input.row_len(),
            len < 0x1000_0000,
            bins == plan.bins(),
            t_count == spec_stft_frames(len as nat, plan.hop as nat),
            (t_count - 1) * plan.hop + plan.n_fft <= spec_padded_len(
                len as nat,
                plan.n_fft as nat,
                plan.hop as nat,
            ),
            re@.len() == b,
            im@.len() == b,
            forall|x: int| 0 <= x < b ==> (#[trigger] re@[x]@).len() == bins,
            forall|x: int| 0 <= x < b ==> (#[trigger] im@[x]@).len() == bins,
            forall|x: int, k: int|
                0 <= x < b && 0 <= k < bins ==> (#[trigger] re@[x]@[k]@).len() == t_count,
            forall|x: int, k: int|
                0 <= x < b && 0 <= k < bins ==> (#[trigger] im@[x]@[k]@).len() == t_count,
            forall|x: int, k: int, t: int|
                0 <= x < b && 0 <= k < bins && 0 <= t < t_count ==> #[trigger] re@[x]@[k]@[t] as int
                    == spec_stft_re(input.rows@[x]@, *plan, k as nat, t as nat),
            forall|x: int, k: int, t: int|
                0 <= x < b && 0 <= k < bins && 0 <= t < t_count ==> #[trigger] im@[x]@[k]@[t] as int
                    == spec_stft_im(input.rows@[x]@, *plan, k as nat, t as nat),
            forall|x: int, k: int, t: int|
                0 <= x < b && 0 <= k < bins && 0 <= t < t_count ==> -CELL_LIMIT
                    <= #[trigger] re@[x]@[k]@[t] <= CELL_LIMIT,
            forall|x: int, k: int, t: int|
                0 <= x < b && 0 <= k < bins && 0 <= t < t_count ==> -CELL_LIMIT
                    <= #[trigger] im@[x]@[k]@[t] <= CELL_LIMIT,
    {
        let padded = pad_row(&input.rows[b], plan.n_fft, plan.hop);
        proof {
            assert forall|j: int| 0 <= j < padded@.len() implies -0x8000 <= #[trigger] padded@[j]
                <= 0x8000 by {
                assert(padded@[j] == spec_padded_row(
                    input.rows@[b as int]@,
                    plan.n_fft as nat,
                    plan.hop as nat,
                )[j]);
            }
        }
        let mut re_b: Vec<Vec<i64>> = Vec::new();
        let mut im_b: Vec<Vec<i64>> = Vec::new();
        for k in 0..bins
            invariant
                input.wf(),
                plan.wf(),
                b < input.batches(),
                len == input.row_len(),
                len < 0x1000_0000,
                bins == plan.bins(),
                t_count == spec_stft_frames(len as nat, plan.hop as nat),
                (t_count - 1) * plan.hop + plan.n_fft <= padded@.len(),
                padded@ == spec_padded_row(
                    input.rows@[b as int]@,
                    plan.n_fft as nat,
                    plan.hop as nat,
                ),
                forall|j: int| 0 <= j < padded@.len() ==> -0x8000 <= #[trigger] padded@[j] <= 0x8000,
                re_b@.len() == k,
                im_b@.len() == k,
                forall|x: int| 0 <= x < k ==> (#[trigger] re_b@[x]@).len() == t_count,
                forall|x: int| 0 <= x < k ==> (#[trigger] im_b@[x]@).len() == t_count,
                forall|x: int, t: int|
                    0 <= x < k && 0 <= t < t_count ==> #[trigger] re_b@[x]@[t] as int
                        == spec_stft_re(input.rows@[b as int]@, *plan, x as nat, t as nat),
                forall|x: int, t: int|
                    0 <= x < k && 0 <= t < t_count ==> #[trigger] im_b@[x]@[t] as int
                        == spec_stft_im(input.rows@[b as int]@, *plan, x as nat, t as nat),
                forall|x: int, t: int|
                    0 <= x < k && 0 <= t < t_count ==> -CELL_LIMIT <= #[trigger] re_b@[x]@[t]
                        <= CELL_LIMIT,
                forall|x: int, t: int|
                    0 <= x < k && 0 <= t < t_count ==> -CELL_LIMIT <= #[trigger] im_b@[x]@[t]
                        <= CELL_LIMIT,
        {
            let mut re_k: Vec<i64> = Vec::new();
            let mut im_k: Vec<i64> = Vec::new();
            for t in 0..t_count
                invariant
                    input.wf(),
                    plan.wf(),
                    b < input.batches(),
                    len == input.row_len(),
                    len < 0x1000_0000,
                    bins == plan.bins(),
                    k < bins,
                    t_count == spec_stft_frames(len as nat, plan.hop as nat),
                    (t_count - 1) * plan.hop + plan.n_fft <= padded@.len(),
                    padded@ == spec_padded_row(
                        input.rows@[b as int]@,
                        plan.n_fft as nat,
                        plan.hop as nat,
                    ),
                    forall|j: int|
                        0 <= j < padded@.len() ==> -0x8000 <= #[trigger] padded@[j] <= 0x8000,
                    re_k@.len() == t,
                    im_k@.len() == t,
                    forall|x: int|
                        0 <= x < t ==> #[trigger] re_k@[x] as int == spec_stft_re(
                            input.rows@[b as int]@,
                            *plan,
                            k as nat,
                            x as nat,
                        ),
                    forall|x: int|
                        0 <= x < t ==> #[trigger] im_k@[x] as int == spec_stft_im(
                            input.rows@[b as int]@,
                            *plan,
                            k as nat,
                            x as nat,
                        ),
                    forall|x: int| 0 <= x < t ==> -CELL_LIMIT <= #[trigger] re_k@[x] <= CELL_LIMIT,
                    forall|x: int| 0 <= x < t ==> -CELL_LIMIT <= #[trigger] im_k@[x] <= CELL_LIMIT,
            {
                proof {
                    assert(t * plan.hop + plan.n_fft <= padded@.len()) by (nonlinear_arith)
                        requires
                            0 <= t < t_count,
                            plan.hop >= 1,
                            (t_count - 1) * plan.hop + plan.n_fft <= padded@.len(),
                    ;
                    assert(t * plan.hop < 0x4000_0000) by (nonlinear_arith)
                        requires
                            0 <= t * plan.hop,
                            t * plan.hop + plan.n_fft <= padded@.len(),
                            padded@.len() < 0x4000_0000,
                    ;
                }
                let start = t * plan.hop;
                let raw_re = frame_dot(&padded, &plan.window, &plan.cos_table, start, k);
                let raw_im = frame_dot(&padded, &plan.window, &plan.sin_table, start, k);
                let cell_re = div_q(raw_re, CELL_DIV);
                let cell_im = div_q(-raw_im, CELL_DIV);
                proof {
                    lemma_div_trunc_bounded(raw_re as int, CELL_DIV as int, CELL_LIMIT as int);
                    lemma_div_trunc_bounded(-raw_im as int, CELL_DIV as int, CELL_LIMIT as int);
                    assert(CELL_LIMIT as int * CELL_DIV as int == 0x80000_0000_0000_0000_0000);
                }
                re_k.push(cell_re as i64);
                im_k.push(cell_im as i64);
            }
            re_b.push(re_k);
            im_b.push(im_k);
        }
        re.push(re_b);
        im.push(im_b);
    }
    let rt = Tensor3 { data: re };
    let it = Tensor3 { data: im };
    proof {
        if rt.batches() > 0 {
            assert(rt.data@[0]@.len() == bins);
            assert(it.data@[0]@.len() == bins);
            if rt.channels() > 0 {
                assert(rt.data@[0]@[0]@.len() == t_count);
                assert(it.data@[0]@[0]@.len() == t_count);
            }
        }
        assert(CELL_LIMIT < crate::VALUE_LIMIT);
        assert(rt.wf());
        assert(it.wf());
    }
    ComplexSpectrogram { re: rt, im: it }
}

/// The synthesis sum for output offset `j` of frame `t`: over bins
/// `k < i`, the real part times cosine minus the imaginary part times
/// sine at table index `(j * k) % n_fft`, middle bins counted twice as in
/// a real-input inverse transform.
pub open spec fn spec_synth_dot(
    re: Seq<Vec<i64>>,
    im: Seq<Vec<i64>>,
    cos: Seq<i64>,
    sin: Seq<i64>,
    t: int,
    j: nat,
    i: nat,
) -> int
    decreases i,
{
    if i == 0 {
        0
    } else {
        let k = (i - 1) as int;
        let coef: int = if k == 0 || i == re.len() {
            1
        } else {
            2
        };
        spec_synth_dot(re, im, cos, sin, t, j, (i - 1) as nat) + coef * (re[k]@[t] * cos[((j * ((
        i - 1) as nat)) % cos.len()) as int] - im[k]@[t] * sin[((j * ((i - 1) as nat))
            % sin.len()) as int])
    }
}

/// One synthesized sample of frame `t` at window offset `j`, before
/// overlap-add: the synthesis sum scaled back to sample units, divided by
/// the analysis window in the window-normalized variant.
pub open spec fn spec_seg(
    re: Seq<Vec<i64>>,
    im: Seq<Vec<i64>>,
    plan: SpectralPlan,
    windowed: bool,
    t: int,
    j: nat,
) -> int
    recommends
        plan.wf(),
        j < plan.n_fft,
{
    let d = spec_synth_dot(re, im, plan.cos_table@, plan.sin_table@, t, j, re.len());
    if windowed {
        div_trunc(
            d * WINDOW_ONE,
            TRIG_ONE * plan.n_fft * CELL_ONE * plan.window@[j as int],
        )
    } else {
        div_trunc(d, TRIG_ONE * plan.n_fft * CELL_ONE)
    }
}

/// The overlap-add sum at output position `p` over the first `upto`
/// frames: each frame contributes its synthesized sample where its window,
/// placed at the frame's hop offset, covers `p`.
pub open spec fn spec_ola(
    re: Seq<Vec<i64>>,
    im: Seq<Vec<i64>>,
    plan: SpectralPlan,
    windowed: bool,
    upto: nat,
    p: int,
) -> int
    decreases upto,
{
    if upto == 0 {
        0
    } else {
        let t = (upto - 1) as int;
        spec_ola(re, im, plan, windowed, (upto - 1) as nat, p) + if t * plan.hop <= p < t
            * plan.hop + plan.n_fft {
            spec_seg(re, im, plan, windowed, t, (p - t * plan.hop) as nat)
        } else {
            0
        }
    }
}

/// How many of the first `upto` frames cover output position `p`.
pub open spec fn spec_cover_count(hop: nat, n: nat, upto: nat, p: int) -> nat
    decreases upto,
{
    if upto == 0 {
        0
    } else {
        let t = (upto - 1) as int;
        spec_cover_count(hop, n, (upto - 1) as nat, p) + if t * hop <= p < t * hop + n {
            1nat
        } else {
            0nat
        }
    }
}

/// Cell bounds for one batch row of a spectrogram, as the synthesis
/// lemmas need them.
pub open spec fn spec_cells_ok(re: Seq<Vec<i64>>, im: Seq<Vec<i64>>, t: int, frames: nat) -> bool {
    &&& re.len() == im.len()
    &&& 0 <= t < frames
    &&& forall|k: int| 0 <= k < re.len() ==> (#[trigger] re[k]@).len() == frames
    &&& forall|k: int| 0 <= k < im.len() ==> (#[trigger] im[k]@).len() == frames
    &&& forall|k: int|
        0 <= k < re.len() ==> -CELL_LIMIT <= #[trigger] re[k]@[t] <= CELL_LIMIT
    &&& forall|k: int|
        0 <= k < im.len() ==> -CELL_LIMIT <= #[trigger] im[k]@[t] <= CELL_LIMIT
}

/// The synthesis sum over `i` bins is bounded by `i` times the largest
/// term.
proof fn lemma_synth_dot_bounded(
    re: Seq<Vec<i64>>,
    im: Seq<Vec<i64>>,
    cos: Seq<i64>,
    sin: Seq<i64>,
    t: int,
    j: nat,
    i: nat,
    frames: nat,
)
    requires
        spec_cells_ok(re, im, t, frames),
        i <= re.len(),
        cos.len() >= 1,
        sin.len() >= 1,
        forall|x: int| 0 <= x < cos.len() ==> -TRIG_ONE <= #[trigger] cos[x] <= TRIG_ONE,
        forall|x: int| 0 <= x < sin.len() ==> -TRIG_ONE <= #[trigger] sin[x] <= TRIG_ONE,
    ensures
        -(i as int) * 0x80_0000_0000_0000_0000 <= spec_synth_dot(re, im, cos, sin, t, j, i) <= (
        i as int) * 0x80_0000_0000_0000_0000,
    decreases i,
{
    if i > 0 {
        lemma_synth_dot_bounded(re, im, cos, sin, t, j, (i - 1) as nat, frames);
        let k = (i - 1) as int;
        let rv = re[k]@[t];
        let iv = im[k]@[t];
        let cv = cos[((j * ((i - 1) as nat)) % cos.len()) as int];
        let sv = sin[((j * ((i - 1) as nat)) % sin.len()) as int];
        lemma_mul_bounded(rv as int, cv as int, CELL_LIMIT as int, TRIG_ONE as int);
        lemma_mul_bounded(iv as int, sv as int, CELL_LIMIT as int, TRIG_ONE as int);
        let coef: int = if k == 0 || i == re.len() {
            1
        } else {
            2
        };
        assert(-0x80_0000_0000_0000_0000 <= coef * (rv * cv - iv * sv)
            <= 0x80_0000_0000_0000_0000) by (nonlinear_arith)
            requires
                1 <= coef <= 2,
                -0x20_0000_0000_0000_0000 <= rv * cv <= 0x20_0000_0000_0000_0000,
                -0x20_0000_0000_0000_0000 <= iv * sv <= 0x20_0000_0000_0000_0000,
        ;
        assert(((i - 1) as int) * 0x80_0000_0000_0000_0000 + 0x80_0000_0000_0000_0000 == (
        i as int) * 0x80_0000_0000_0000_0000) by (nonlinear_arith);
    }
}

/// One synthesized frame sample stays within `SEG_LIMIT`.
proof fn lemma_seg_bounded(
    re: Seq<Vec<i64>>,
    im: Seq<Vec<i64>>,
    plan: SpectralPlan,
    windowed: bool,
    t: int,
    j: nat,
    frames: nat,
)
    requires
        plan.wf(),
        spec_cells_ok(re, im, t, frames),
        re.len() == plan.bins(),
        j < plan.n_fft,
    ensures
        -SEG_LIMIT <= spec_seg(re, im, plan, windowed, t, j) <= SEG_LIMIT,
{
    let n = plan.n_fft as int;
    let d = spec_synth_dot(re, im, plan.cos_table@, plan.sin_table@, t, j, re.len());
    lemma_synth_dot_bounded(
        re,
        im,
        plan.cos_table@,
        plan.sin_table@,
        t,
        j,
        re.len(),
        frames,
    );
    let bins = re.len() as int;
    assert(bins == n / 2 + 1);
    assert(2 * bins == n + 2) by {
        vstd::arithmetic::div_mod::lemma_fundamental_div_mod(n, 2);
    }
    assert(bins <= n);
    let base = TRIG_ONE as int * n * CELL_ONE as int;
    assert(base == n * 0x100_0000_0000) by (nonlinear_arith)
        requires
            base == 0x1000_0000 * n * 0x1000,
    ;
    // SEG_LIMIT * base == n * 2^97, while |d| * WINDOW_ONE <= bins * 2^97.
    assert(-(SEG_LIMIT as int) * base <= d * (WINDOW_ONE as int) <= (SEG_LIMIT as int) * base)
        by (nonlinear_arith)
        requires
            -bins * 0x80_0000_0000_0000_0000 <= d <= bins * 0x80_0000_0000_0000_0000,
            0 <= bins <= n,
            base == n * 0x100_0000_0000,
    ;
    if windowed {
        let w = plan.window@[j as int];
        let denom = base * w;
        assert(base > 0) by (nonlinear_arith)
            requires
                n >= 4,
                base == n * 0x100_0000_0000,
        ;
        assert(denom >= base) by (nonlinear_arith)
            requires
                base > 0,
                w >= 1,
                denom == base * w,
        ;
        assert(denom > 0);
        assert((SEG_LIMIT as int) * base <= (SEG_LIMIT as int) * denom) by (nonlinear_arith)
            requires
                base <= denom,
        ;
        lemma_div_trunc_bounded(d * (WINDOW_ONE as int), denom, SEG_LIMIT as int);
    } else {
        assert(-(SEG_LIMIT as int) * base <= d <= (SEG_LIMIT as int) * base)
            by (nonlinear_arith)
            requires
                -bins * 0x80_0000_0000_0000_0000 <= d <= bins * 0x80_0000_0000_0000_0000,
                0 <= bins <= n,
                base == n * 0x100_0000_0000,
        ;
        assert(base > 0) by (nonlinear_arith)
            requires
                n >= 4,
                base == n * 0x100_0000_0000,
        ;
        lemma_div_trunc_bounded(d, base, SEG_LIMIT as int);
    }
}

/// The overlap-add sum is bounded by the cover count times the largest
/// frame contribution.
proof fn lemma_ola_vs_cover(
    re: Seq<Vec<i64>>,
    im: Seq<Vec<i64>>,
    plan: SpectralPlan,
    windowed: bool,
    upto: nat,
    p: int,
    frames: nat,
)
    requires
        plan.wf(),
        re.len() == plan.bins(),
        re.len() == im.len(),
        upto <= frames,
        forall|k: int| 0 <= k < re.len() ==> (#[trigger] re[k]@).len() == frames,
        forall|k: int| 0 <= k < im.len() ==> (#[trigger] im[k]@).len() == frames,
        forall|k: int, t: int|
            0 <= k < re.len() && 0 <= t < frames ==> -CELL_LIMIT <= #[trigger] re[k]@[t]
                <= CELL_LIMIT,
        forall|k: int, t: int|
            0 <= k < im.len() && 0 <= t < frames ==> -CELL_LIMIT <= #[trigger] im[k]@[t]
                <= CELL_LIMIT,
    ensures
        -(spec_cover_count(plan.hop as nat, plan.n_fft as nat, upto, p) as int) * (
        SEG_LIMIT as int) <= spec_ola(re, im, plan, windowed, upto, p) <= (spec_cover_count(
            plan.hop as nat,
            plan.n_fft as nat,
            upto,
            p,
        ) as int) * (SEG_LIMIT as int),
    decreases upto,
{
    if upto > 0 {
        lemma_ola_vs_cover(re, im, plan, windowed, (upto - 1) as nat, p, frames);
        let t = (upto - 1) as int;
        let c0 = spec_cover_count(plan.hop as nat, plan.n_fft as nat, (upto - 1) as nat, p)
            as int;
        if t * plan.hop <= p < t * plan.hop + plan.n_fft {
            assert(spec_cells_ok(re, im, t, frames));
            lemma_seg_bounded(
                re,
                im,
                plan,
                windowed,
                t,
                (p - t * plan.hop) as nat,
                frames,
            );
            assert((c0 + 1) * SEG_LIMIT as int == c0 * SEG_LIMIT as int + SEG_LIMIT as int)
                by (nonlinear_arith);
        }
    }
}

/// At most seventeen frames cover any one output position, since the hop
/// is at least a sixteenth of the window length.
proof fn lemma_cover_count_le(hop: nat, n: nat, upto: nat, p: int)
    requires
        hop >= 1,
        n >= 1,
        n <= 16 * hop,
    ensures
        spec_cover_count(hop, n, upto, p) <= 17,
{
    let h = hop as int;
    let nn = n as int;
    let t_lo: int = if p < nn {
        0
    } else {
        (p - nn) / h + 1
    };
    lemma_cover_aux(hop, n, upto, p, t_lo);
    if p >= 0 {
        let q1 = p / h;
        if p < nn {
            vstd::arithmetic::div_mod::lemma_div_is_ordered(p, nn - 1, h);
            assert((nn - 1) / h <= 16) by {
                vstd::arithmetic::div_mod::lemma_div_is_ordered(nn - 1, 16 * h, h);
                vstd::arithmetic::div_mod::lemma_div_by_multiple(16, h);
            }
            vstd::arithmetic::div_mod::lemma_div_pos_is_pos(p, h);
        } else {
            let q0 = (p - nn) / h;
            assert(q1 - q0 <= 16) by {
                vstd::arithmetic::div_mod::lemma_fundamental_div_mod(p, h);
                vstd::arithmetic::div_mod::lemma_fundamental_div_mod(p - nn, h);
                vstd::arithmetic::div_mod::lemma_mod_division_less_than_divisor(p, h);
                vstd::arithmetic::div_mod::lemma_mod_division_less_than_divisor(p - nn, h);
                assert(q1 * h == p - p % h) by (nonlinear_arith)
                    requires
                        p == h * q1 + p % h,
                ;
                assert(q0 * h == p - nn - (p - nn) % h) by (nonlinear_arith)
                    requires
                        p - nn == h * q0 + (p - nn) % h,
                ;
                assert((q1 - q0) * h <= nn + h - 1) by (nonlinear_arith)
                    requires
                        q1 * h == p - p % h,
                        q0 * h == p - nn - (p - nn) % h,
                        0 <= p % h < h,
                        0 <= (p - nn) % h < h,
                ;
                assert(q1 - q0 <= 16) by (nonlinear_arith)
                    requires
                        (q1 - q0) * h <= nn + h - 1,
                        nn <= 16 * h,
                        h >= 1,
                ;
            }
        }
    }
}

/// Helper for the cover bound: the cover count up to `upto` is at most
/// `min(upto, p / hop + 1) - t_lo`, where `t_lo` is the first frame index
/// that can cover `p`.
proof fn lemma_cover_aux(hop: nat, n: nat, upto: nat, p: int, t_lo: int)
    requires
        hop >= 1,
        n >= 1,
        t_lo == if p < n {
            0int
        } else {
            (p - n) / (hop as int) + 1
        },
    ensures
        p < 0 ==> spec_cover_count(hop, n, upto, p) == 0,
        p >= 0 ==> spec_cover_count(hop, n, upto, p) <= if (upto as int) <= t_lo {
            0int
        } else {
            (if (upto as int) <= p / (hop as int) + 1 {
                upto as int
            } else {
                p / (hop as int) + 1
            }) - t_lo
        },
    decreases upto,
{
    let h = hop as int;
    let nn = n as int;
    if p >= nn {
        vstd::arithmetic::div_mod::lemma_div_pos_is_pos(p - nn, h);
        vstd::arithmetic::div_mod::lemma_div_is_ordered(p - nn, p, h);
    }
    if upto > 0 {
        lemma_cover_aux(hop, n, (upto - 1) as nat, p, t_lo);
        let t = (upto - 1) as int;
        if t * h <= p && p < t * h + nn {
            assert(t * h >= 0) by (nonlinear_arith)
                requires
                    t >= 0,
                    h >= 1,
            ;
            assert(p >= 0);
            assert(t <= p / h) by {
                vstd::arithmetic::div_mod::lemma_div_is_ordered(t * h, p, h);
                vstd::arithmetic::div_mod::lemma_div_by_multiple(t, h);
            }
            if p >= nn {
                assert(t >= 1) by (nonlinear_arith)
                    requires
                        t * h + nn > p,
                        p >= nn,
                        h >= 1,
                        t >= 0,
                ;
                assert(p - nn <= t * h - 1);
                assert(t * h - 1 == (t - 1) * h + (h - 1)) by (nonlinear_arith);
                assert((t * h - 1) / h == t - 1) by {
                    vstd::arithmetic::div_mod::lemma_fundamental_div_mod_converse(
                        t * h - 1,
                        h,
                        t - 1,
                        h - 1,
                    );
                }
                assert((p - nn) / h <= t - 1) by {
                    vstd::arithmetic::div_mod::lemma_div_is_ordered(p - nn, t * h - 1, h);
                }
                assert(t_lo <= t);
            }
        }
    }
}

/// One synthesis sum, exactly as `spec_synth_dot` states it.
fn synth_dot(
    re_b: &Vec<Vec<i64>>,
    im_b: &Vec<Vec<i64>>,
    cos: &Vec<i64>,
    sin: &Vec<i64>,
    t: usize,
    j: usize,
) -> (r: i128)
    requires
        re_b.len() == im_b.len(),
        re_b.len() <= 4096,
        cos.len() == sin.len(),
        1 <= cos.len() <= 4096,
        j < cos.len(),
        forall|k: int| 0 <= k < re_b.len() ==> t < (#[trigger] re_b@[k]@).len(),
        forall|k: int| 0 <= k < im_b.len() ==> t < (#[trigger] im_b@[k]@).len(),
        forall|k: int|
            0 <= k < re_b.len() ==> -CELL_LIMIT <= #[trigger] re_b@[k]@[t as int] <= CELL_LIMIT,
        forall|k: int|
            0 <= k < im_b.len() ==> -CELL_LIMIT <= #[trigger] im_b@[k]@[t as int] <= CELL_LIMIT,
        forall|x: int| 0 <= x < cos.len() ==> -TRIG_ONE <= #[trigger] cos@[x] <= TRIG_ONE,
        forall|x: int| 0 <= x < sin.len() ==> -TRIG_ONE <= #[trigger] sin@[x] <= TRIG_ONE,
    ensures
        r == spec_synth_dot(re_b@, im_b@, cos@, sin@, t as int, j as nat, re_b.len() as nat),
        -(re_b.len() as int) * 0x80_0000_0000_0000_0000 <= r <= (re_b.len() as int)
            * 0x80_0000_0000_0000_0000,
{
    let bins = re_b.len();
    let n = cos.len();
    let mut acc: i128 = 0;
    for k in 0..bins
        invariant
            re_b@.len() == bins,
            im_b@.len() == bins,
            bins <= 4096,
            cos@.len() == n,
            sin@.len() == n,
            1 <= n <= 4096,
            j < n,
            forall|x: int| 0 <= x < bins ==> t < (#[trigger] re_b@[x]@).len(),
            forall|x: int| 0 <= x < bins ==> t < (#[trigger] im_b@[x]@).len(),
            forall|x: int|
                0 <= x < bins ==> -CELL_LIMIT <= #[trigger] re_b@[x]@[t as int] <= CELL_LIMIT,
            forall|x: int|
                0 <= x < bins ==> -CELL_LIMIT <= #[trigger] im_b@[x]@[t as int] <= CELL_LIMIT,
            forall|x: int| 0 <= x < n ==> -TRIG_ONE <= #[trigger] cos@[x] <= TRIG_ONE,
            forall|x: int| 0 <= x < n ==> -TRIG_ONE <= #[trigger] sin@[x] <= TRIG_ONE,
            acc == spec_synth_dot(re_b@, im_b@, cos@, sin@, t as int, j as nat, k as nat),
            -(k as int) * 0x80_0000_0000_0000_0000 <= acc <= (k as int)
                * 0x80_0000_0000_0000_0000,
    {
        proof {
            assert(j * k <= 4096 * 4096) by (nonlinear_arith)
                requires
                    0 <= j <= 4096,
                    0 <= k <= 4096,
            ;
        }
        let coef: i128 = if k == 0 || k + 1 == bins {
            1
        } else {
            2
        };
        let rv = re_b[k][t];
        let iv = im_b[k][t];
        let cv = cos[(j * k) % n];
        let sv = sin[(j * k) % n];
        proof {
            lemma_mul_bounded(rv as int, cv as int, CELL_LIMIT as int, TRIG_ONE as int);
            lemma_mul_bounded(iv as int, sv as int, CELL_LIMIT as int, TRIG_ONE as int);
            assert(CELL_LIMIT as int * TRIG_ONE as int == 0x20_0000_0000_0000_0000);
            assert(-0x80_0000_0000_0000_0000 <= (coef as int) * ((rv as int) * (cv as int) - (
            iv as int) * (sv as int)) <= 0x80_0000_0000_0000_0000) by (nonlinear_arith)
                requires
                    1 <= coef <= 2,
                    -0x20_0000_0000_0000_0000 <= (rv as int) * (cv as int)
                        <= 0x20_0000_0000_0000_0000,
                    -0x20_0000_0000_0000_0000 <= (iv as int) * (sv as int)
                        <= 0x20_0000_0000_0000_0000,
            ;
            assert((k as int) * 0x80_0000_0000_0000_0000 + 0x80_0000_0000_0000_0000 == ((k
                + 1) as int) * 0x80_0000_0000_0000_0000) by (nonlinear_arith);
            assert(((k + 1) as int) * 0x80_0000_0000_0000_0000 <= 4096
                * 0x80_0000_0000_0000_0000) by (nonlinear_arith)
                requires
                    k as int + 1 <= 4096,
            ;
        }
        let term: i128 = coef * ((rv as i128) * (cv as i128) - (iv as i128) * (sv as i128));
        acc = acc + term;
    }
    acc
}

/// Inverse spectral transform shared by the two variants: per frame the
/// synthesis sum at every window offset, scaled back to sample units
/// (divided by the analysis window when `windowed`), accumulated by
/// overlap-add at the frame's hop offset.
fn synthesize(input: &ComplexSpectrogram, plan: &SpectralPlan, windowed: bool) -> (r: SignalBatch)
    requires
        input.wf(),
        plan.wf(),
        input.bins() == plan.bins(),
        plan.hop * input.frames() + plan.hop + plan.n_fft < 0x4000_0000,
    ensures
        r.wf(),
        r.batches() == input.batches(),
        input.batches() > 0 ==> r.row_len() == plan.hop * input.frames() + plan.hop
            + plan.n_fft,
        forall|b: int, p: int|
            0 <= b < input.batches() && 0 <= p < plan.hop * input.frames() + plan.hop
                + plan.n_fft ==> #[trigger] r.at(b, p) == spec_ola(
                input.re.data@[b]@,
                input.im.data@[b]@,
                *plan,
                windowed,
                input.frames(),
                p,
            ),
{
    let b_count = input.re.data.len();
    let t_count = input.re.frame_count();
    let bins = input.re.channel_count();
    let n = plan.n_fft;
    let out_len = plan.hop * t_count + plan.hop + n;
    proof {
        assert(plan.bins() <= 2049);
    }
    let mut rows: Vec<Vec<i64>> = Vec::new();
    for b in 0..b_count
        invariant
            input.wf(),
            plan.wf(),
            b_count == input.batches(),
            t_count == input.frames(),
            bins == input.bins(),
            bins == plan.bins(),
            n == plan.n_fft,
            out_len == plan.hop * t_count + plan.hop + n,
            out_len < 0x4000_0000,
            rows@.len() == b,
            forall|x: int| 0 <= x < b ==> (#[trigger] rows@[x]@).len() == out_len,
            forall|x: int, p: int|
                0 <= x < b && 0 <= p < out_len ==> #[trigger] rows@[x]@[p] as int == spec_ola(
                    input.re.data@[x]@,
                    input.im.data@[x]@,
                    *plan,
                    windowed,
                    t_count as nat,
                    p,
                ),
            forall|x: int, p: int|
                0 <= x < b && 0 <= p < out_len ==> -SIGNAL_LIMIT <= #[trigger] rows@[x]@[p]
                    <= SIGNAL_LIMIT,
    {
        let ghost reb = input.re.data@[b as int]@;
        let ghost imb = input.im.data@[b as int]@;
        let mut buf: Vec<i128> = Vec::new();
        for p in 0..out_len
            invariant
                buf@.len() == p,
                forall|x: int| 0 <= x < p ==> #[trigger] buf@[x] == 0,
        {
            buf.push(0);
        }
        proof {
            assert(reb.len() == bins);
            assert(imb.len() == bins);
            assert forall|k: int| 0 <= k < bins implies (#[trigger] reb[k]@).len()
                == t_count by {
                assert(input.re.data@[b as int]@[k]@.len() == input.re.frames());
            }
            assert forall|k: int| 0 <= k < bins implies (#[trigger] imb[k]@).len()
                == t_count by {
                assert(input.im.data@[b as int]@[k]@.len() == input.im.frames());
            }
            assert forall|k: int, x: int| 0 <= k < bins && 0 <= x < t_count implies -CELL_LIMIT
                <= #[trigger] reb[k]@[x] <= CELL_LIMIT by {
                assert(-CELL_LIMIT <= input.re.at(b as int, k, x) <= CELL_LIMIT);
            }
            assert forall|k: int, x: int| 0 <= k < bins && 0 <= x < t_count implies -CELL_LIMIT
                <= #[trigger] imb[k]@[x] <= CELL_LIMIT by {
                assert(-CELL_LIMIT <= input.im.at(b as int, k, x) <= CELL_LIMIT);
            }
            assert forall|p: int| 0 <= p < out_len implies #[trigger] buf@[p] == spec_ola(
                reb,
                imb,
                *plan,
                windowed,
                0,
                p,
            ) by {
            }
        }
        for t in 0..t_count
            invariant
                input.wf(),
                plan.wf(),
                b < b_count,
                b_count == input.batches(),
                t_count == input.frames(),
                bins == input.bins(),
                bins == plan.bins(),
                bins <= 2049,
                n == plan.n_fft,
                out_len == plan.hop * t_count + plan.hop + n,
                out_len < 0x4000_0000,
                reb == input.re.data@[b as int]@,
                imb == input.im.data@[b as int]@,
                reb.len() == bins,
                imb.len() == bins,
                forall|k: int| 0 <= k < bins ==> (#[trigger] reb[k]@).len() == t_count,
                forall|k: int| 0 <= k < bins ==> (#[trigger] imb[k]@).len() == t_count,
                forall|k: int, x: int|
                    0 <= k < bins && 0 <= x < t_count ==> -CELL_LIMIT <= #[trigger] reb[k]@[x]
                        <= CELL_LIMIT,
                forall|k: int, x: int|
                    0 <= k < bins && 0 <= x < t_count ==> -CELL_LIMIT <= #[trigger] imb[k]@[x]
                        <= CELL_LIMIT,
                buf@.len() == out_len,
                forall|p: int|
                    0 <= p < out_len ==> #[trigger] buf@[p] == spec_ola(
                        reb,
                        imb,
                        *plan,
                        windowed,
                        t as nat,
                        p,
                    ),
        {
            proof {
                assert(t * plan.hop + n < out_len) by (nonlinear_arith)
                    requires
                        0 <= t < t_count,
                        plan.hop >= 1,
                        out_len == plan.hop * t_count + plan.hop + n,
                ;
            }
            for j in 0..n
                invariant
                    input.wf(),
                    plan.wf(),
                    b < b_count,
                    t < t_count,
                    b_count == input.batches(),
                    t_count == input.frames(),
                    bins == input.bins(),
                    bins == plan.bins(),
                    bins <= 2049,
                    n == plan.n_fft,
                    out_len == plan.hop * t_count + plan.hop + n,
                    out_len < 0x4000_0000,
                    t * plan.hop + n < out_len,
                    reb == input.re.data@[b as int]@,
                    imb == input.im.data@[b as int]@,
                    reb.len() == bins,
                    imb.len() == bins,
                    forall|k: int| 0 <= k < bins ==> (#[trigger] reb[k]@).len() == t_count,
                    forall|k: int| 0 <= k < bins ==> (#[trigger] imb[k]@).len() == t_count,
                    forall|k: int, x: int|
                        0 <= k < bins && 0 <= x < t_count ==> -CELL_LIMIT
                            <= #[trigger] reb[k]@[x] <= CELL_LIMIT,
                    forall|k: int, x: int|
                        0 <= k < bins && 0 <= x < t_count ==> -CELL_LIMIT
                            <= #[trigger] imb[k]@[x] <= CELL_LIMIT,
                    buf@.len() == out_len,
                    forall|p: int|
                        0 <= p < out_len ==> #[trigger] buf@[p] == spec_ola(
                            reb,
                            imb,
                            *plan,
                            windowed,
                            t as nat,
                            p,
                        ) + if t * plan.hop <= p < t * plan.hop + j {
                            spec_seg(reb, imb, *plan, windowed, t as int, (p - t
                                * plan.hop) as nat)
                        } else {
                            0
                        },
            {
                let d = synth_dot(
                    &input.re.data[b],
                    &input.im.data[b],
                    &plan.cos_table,
                    &plan.sin_table,
                    t,
                    j,
                );
                let base: i128 = (TRIG_ONE as i128) * (n as i128) * (CELL_ONE as i128);
                proof {
                    assert(base == (n as int) * 0x100_0000_0000) by (nonlinear_arith)
                        requires
                            base == 0x1000_0000 * (n as int) * 0x1000,
                    ;
                }
                let wv: i64 = if windowed {
                    plan.window[j]
                } else {
                    1
                };
                proof {
                    assert(base * (wv as int) <= 0x8000_0000_0000_0000_0000)
                        by (nonlinear_arith)
                        requires
                            base == (n as int) * 0x100_0000_0000,
                            n <= 4096,
                            1 <= wv <= 0x800_0000,
                    ;
                    assert(base * (wv as int) >= base) by (nonlinear_arith)
                        requires
                            base > 0,
                            wv >= 1,
                    ;
                }
                let denom: i128 = base * (wv as i128);
                let num: i128 = if windowed {
                    proof {
                        lemma_mul_bounded(
                            d as int,
                            WINDOW_ONE as int,
                            0x80000_0000_0000_0000_0000int,
                            WINDOW_ONE as int,
                        );
                    }
                    d * (WINDOW_ONE as i128)
                } else {
                    d
                };
                let seg = div_q(num, denom);
                proof {
                    lemma_seg_bounded(reb, imb, *plan, windowed, t as int, j as nat, t_count as nat);
                    if windowed {
                        assert(denom == TRIG_ONE as int * (plan.n_fft as int) * (
                        CELL_ONE as int) * plan.window@[j as int]) by (nonlinear_arith)
                            requires
                                denom == base * (wv as int),
                                base == 0x1000_0000 * (n as int) * 0x1000,
                                wv == plan.window@[j as int],
                                n == plan.n_fft,
                        ;
                    } else {
                        assert(denom == base);
                    }
                    assert(seg == spec_seg(reb, imb, *plan, windowed, t as int, j as nat));
                    assert(-SEG_LIMIT <= seg <= SEG_LIMIT);
                }
                let p0 = t * plan.hop + j;
                let prev = buf[p0];
                proof {
                    assert(buf@[p0 as int] == spec_ola(reb, imb, *plan, windowed, t as nat, p0 as int));
                    lemma_ola_vs_cover(
                        reb,
                        imb,
                        *plan,
                        windowed,
                        t as nat,
                        p0 as int,
                        t_count as nat,
                    );
                    lemma_cover_count_le(plan.hop as nat, plan.n_fft as nat, t as nat, p0 as int);
                    let cc = spec_cover_count(plan.hop as nat, plan.n_fft as nat, t as nat, p0 as int) as int;
                    assert(cc * (SEG_LIMIT as int) <= 17 * (SEG_LIMIT as int))
                        by (nonlinear_arith)
                        requires
                            0 <= cc <= 17,
                    ;
                }
                buf.set(p0, prev + seg);
                proof {
                    assert forall|p: int| 0 <= p < out_len implies #[trigger] buf@[p] == spec_ola(
                        reb,
                        imb,
                        *plan,
                        windowed,
                        t as nat,
                        p,
                    ) + if t * plan.hop <= p < t * plan.hop + (j + 1) {
                        spec_seg(reb, imb, *plan, windowed, t as int, (p - t * plan.hop) as nat)
                    } else {
                        0
                    } by {
                        if p == p0 as int {
                            assert(p - t * plan.hop == j);
                        }
                    }
                }
            }
            proof {
                assert forall|p: int| 0 <= p < out_len implies #[trigger] buf@[p] == spec_ola(
                    reb,
                    imb,
                    *plan,
                    windowed,
                    (t + 1) as nat,
                    p,
                ) by {
                    assert(spec_ola(reb, imb, *plan, windowed, (t + 1) as nat, p) == spec_ola(
                        reb,
                        imb,
                        *plan,
                        windowed,
                        t as nat,
                        p,
                    ) + if (t as int) * plan.hop <= p < (t as int) * plan.hop + plan.n_fft {
                        spec_seg(reb, imb, *plan, windowed, t as int, (p - (t as int)
                            * plan.hop) as nat)
                    } else {
                        0
                    });
                }
            }
        }
        let mut out_row: Vec<i64> = Vec::new();
        for p in 0..out_len
            invariant
                plan.wf(),
                bins == plan.bins(),
                reb.len() == bins,
                imb.len() == bins,
                t_count == input.frames(),
                forall|k: int| 0 <= k < bins ==> (#[trigger] reb[k]@).len() == t_count,
                forall|k: int| 0 <= k < bins ==> (#[trigger] imb[k]@).len() == t_count,
                forall|k: int, x: int|
                    0 <= k < bins && 0 <= x < t_count ==> -CELL_LIMIT <= #[trigger] reb[k]@[x]
                        <= CELL_LIMIT,
                forall|k: int, x: int|
                    0 <= k < bins && 0 <= x < t_count ==> -CELL_LIMIT <= #[trigger] imb[k]@[x]
                        <= CELL_LIMIT,
                buf@.len() == out_len,
                forall|x: int|
                    0 <= x < out_len ==> #[trigger] buf@[x] == spec_ola(
                        reb,
                        imb,
                        *plan,
                        windowed,
                        t_count as nat,
                        x,
                    ),
                out_row@.len() == p,
                forall|x: int|
                    0 <= x < p ==> #[trigger] out_row@[x] as int == spec_ola(
                        reb,
                        imb,
                        *plan,
                        windowed,
                        t_count as nat,
                        x,
                    ),
                forall|x: int|
                    0 <= x < p ==> -SIGNAL_LIMIT <= #[trigger] out_row@[x] <= SIGNAL_LIMIT,
        {
            let v = buf[p];
            proof {
                lemma_ola_vs_cover(
                    reb,
                    imb,
                    *plan,
                    windowed,
                    t_count as nat,
                    p as int,
                    t_count as nat,
                );
                lemma_cover_count_le(plan.hop as nat, plan.n_fft as nat, t_count as nat, p as int);
                let cc = spec_cover_count(plan.hop as nat, plan.n_fft as nat, t_count as nat, p as int) as int;
                assert(cc * (SEG_LIMIT as int) <= 17 * (SEG_LIMIT as int)) by (nonlinear_arith)
                    requires
                        0 <= cc <= 17,
                ;
            }
            out_row.push(v as i64);
        }
        rows.push(out_row);
    }
    let r = SignalBatch { rows };
    proof {
        if r.batches() > 0 {
            assert(r.rows@[0]@.len() == out_len);
        }
        assert(r.wf());
    }
    r
}

/// Window-normalized inverse spectral transform: each frame's synthesis
/// sum is divided by the analysis window before overlap-add, undoing the
/// forward windowing.
pub fn istft(input: &ComplexSpectrogram, plan: &SpectralPlan) -> (r: SignalBatch)
    requires
        input.wf(),
        plan.wf(),
        input.bins() == plan.bins(),
        plan.hop * input.frames() + plan.hop + plan.n_fft < 0x4000_0000,
    ensures
        r.wf(),
        r.batches() == input.batches(),
        input.batches() > 0 ==> r.row_len() == plan.hop * input.frames() + plan.hop
            + plan.n_fft,
        forall|b: int, p: int|
            0 <= b < input.batches() && 0 <= p < plan.hop * input.frames() + plan.hop
                + plan.n_fft ==> #[trigger] r.at(b, p) == spec_ola(
                input.re.data@[b]@,
                input.im.data@[b]@,
                *plan,
                true,
                input.frames(),
                p,
            ),
{
    synthesize(input, plan, true)
}

/// Raw inverse spectral transform: identical overlap-add, but without the
/// window division, for synthesis signals not produced under the analysis
/// window convention.
pub fn istft_without_window(input: &ComplexSpectrogram, plan: &SpectralPlan) -> (r: SignalBatch)
    requires
        input.wf(),
        plan.wf(),
        input.bins() == plan.bins(),
        plan.hop * input.frames() + plan.hop + plan.n_fft < 0x4000_0000,
    ensures
        r.wf(),
        r.batches() == input.batches(),
        input.batches() > 0 ==> r.row_len() == plan.hop * input.frames() + plan.hop
            + plan.n_fft,
        forall|b: int, p: int|
            0 <= b < input.batches() && 0 <= p < plan.hop * input.frames() + plan.hop
                + plan.n_fft ==> #[trigger] r.at(b, p) == spec_ola(
                input.re.data@[b]@,
                input.im.data@[b]@,
                *plan,
                false,
                input.frames(),
                p,
            ),
{
    synthesize(input, plan, false)
}

/// Integer square root by binary search: the unique `r` with
/// `r * r <= x < (r + 1) * (r + 1)`.
fn isqrt_u128(x: u128) -> (r: u64)
    requires
        x <= 0x8_0000_0000_0000_0000_0000,
    ensures
        (r as int) * (r as int) <= x as int,
        (x as int) < ((r as int) + 1) * ((r as int) + 1),
{
    let mut lo: u64 = 0;
    let mut hi: u64 = 0x4_0000_0000_0000;
    proof {
        assert((hi as int) * (hi as int) > x as int) by (nonlinear_arith)
            requires
                hi == 0x4_0000_0000_0000,
                x <= 0x8_0000_0000_0000_0000_0000,
        ;
    }
    while lo + 1 < hi
        invariant
            lo < hi,
            hi <= 0x4_0000_0000_0000,
            (lo as int) * (lo as int) <= x as int,
            (x as int) < (hi as int) * (hi as int),
        decreases hi - lo,
    {
        let mid = lo + (hi - lo) / 2;
        proof {
            assert((mid as int) * (mid as int) < 0x1_0000_0000_0000_0000_0000_0000_0000)
                by (nonlinear_arith)
                requires
                    0 <= mid <= 0x4_0000_0000_0000,
            ;
        }
        let m2: u128 = (mid as u128) * (mid as u128);
        if m2 <= x {
            lo = mid;
        } else {
            hi = mid;
        }
    }
    proof {
        assert(hi == lo + 1);
    }
    lo
}

/// Magnitude of a complex spectrogram: each cell the integer square root
/// of the squared real and imaginary parts, the phase discarded.
pub fn magnitude(input: &ComplexSpectrogram) -> (r: Tensor3)
    requires
        input.wf(),
    ensures
        r.wf(),
        r.batches() == input.batches(),
        input.batches() > 0 ==> r.channels() == input.bins(),
        input.batches() > 0 && input.bins() > 0 ==> r.frames() == input.frames(),
        forall|b: int, k: int, t: int|
            0 <= b < input.batches() && 0 <= k < input.bins() && 0 <= t < input.frames() ==> {
                let m = #[trigger] r.at(b, k, t);
                let re = input.re_at(b, k, t);
                let im = input.im_at(b, k, t);
                &&& 0 <= m
                &&& m * m <= re * re + im * im
                &&& re * re + im * im < (m + 1) * (m + 1)
            },
{
    let b_count = input.re.data.len();
    let bins = input.re.channel_count();
    let t_count = input.re.frame_count();
    let mut out: Vec<Vec<Vec<i64>>> = Vec::new();
    for b in 0..b_count
        invariant
            input.wf(),
            b_count == input.batches(),
            bins == input.bins(),
            t_count == input.frames(),
            out@.len() == b,
            forall|x: int| 0 <= x < b ==> (#[trigger] out@[x]@).len() == bins,
            forall|x: int, k: int|
                0 <= x < b && 0 <= k < bins ==> (#[trigger] out@[x]@[k]@).len() == t_count,
            forall|x: int, k: int, t: int|
                0 <= x < b && 0 <= k < bins && 0 <= t < t_count ==> {
                    let m = #[trigger] out@[x]@[k]@[t] as int;
                    let re = input.re_at(x, k, t);
                    let im = input.im_at(x, k, t);
                    &&& 0 <= m <= 0x400_0000_0000
                    &&& m * m <= re * re + im * im
                    &&& re * re + im * im < (m + 1) * (m + 1)
                },
    {
        let mut rows: Vec<Vec<i64>> = Vec::new();
        for k in 0..bins
            invariant
                input.wf(),
                b < b_count,
                b_count == input.batches(),
                bins == input.bins(),
                t_count == input.frames(),
                rows@.len() == k,
                forall|x: int| 0 <= x < k ==> (#[trigger] rows@[x]@).len() == t_count,
                forall|x: int, t: int|
                    0 <= x < k && 0 <= t < t_count ==> {
                        let m = #[trigger] rows@[x]@[t] as int;
                        let re = input.re_at(b as int, x, t);
                        let im = input.im_at(b as int, x, t);
                        &&& 0 <= m <= 0x400_0000_0000
                        &&& m * m <= re * re + im * im
                        &&& re * re + im * im < (m + 1) * (m + 1)
                    },
        {
            let mut chan: Vec<i64> = Vec::new();
            for t in 0..t_count
                invariant
                    input.wf(),
                    b < b_count,
                    k < bins,
                    b_count == input.batches(),
                    bins == input.bins(),
                    t_count == input.frames(),
                    chan@.len() == t,
                    forall|x: int|
                        0 <= x < t ==> {
                            let m = #[trigger] chan@[x] as int;
                            let re = input.re_at(b as int, k as int, x);
                            let im = input.im_at(b as int, k as int, x);
                            &&& 0 <= m <= 0x400_0000_0000
                            &&& m * m <= re * re + im * im
                            &&& re * re + im * im < (m + 1) * (m + 1)
                        },
            {
                let rv = input.re.value_at(b, k, t);
                let iv = input.im.value_at(b, k, t);
                proof {
                    lemma_mul_bounded(rv as int, rv as int, CELL_LIMIT as int, CELL_LIMIT as int);
                    lemma_mul_bounded(iv as int, iv as int, CELL_LIMIT as int, CELL_LIMIT as int);
                    assert((rv as int) * (rv as int) >= 0) by (nonlinear_arith);
                    assert((iv as int) * (iv as int) >= 0) by (nonlinear_arith);
                    assert(CELL_LIMIT as int * CELL_LIMIT as int == 0x4_0000_0000_0000_0000_0000);
                }
                let sq: i128 = (rv as i128) * (rv as i128) + (iv as i128) * (iv as i128);
                let m = isqrt_u128(sq as u128);
                proof {
                    assert(m as int <= 0x400_0000_0000) by (nonlinear_arith)
                        requires
                            (m as int) * (m as int) <= 0x8_0000_0000_0000_0000_0000,
                            m as int >= 0,
                    ;
                }
                chan.push(m as i64);
            }
            rows.push(chan);
        }
        out.push(rows);
    }
    let r = Tensor3 { data: out };
    proof {
        if r.batches() > 0 {
            assert(r.data@[0]@.len() == bins);
            if bins > 0 {
                assert(r.data@[0]@[0]@.len() == t_count);
            }
        }
        assert(r.wf());
    }
    r
}

/// Magnitude spectrogram of a waveform batch: the forward transform's
/// cells with phase discarded, cell `[b, k, t]` the integer square root
/// of the squared analysis sums.
pub fn spectrogram(input: &WaveformBatch, plan: &SpectralPlan) -> (r: Tensor3)
    requires
        input.wf(),
        plan.wf(),
        input.row_len() < 0x1000_0000,
    ensures
        r.wf(),
        r.batches() == input.batches(),
        input.batches() > 0 ==> r.channels() == plan.bins(),
        input.batches() > 0 ==> r.frames() == spec_stft_frames(input.row_len(), plan.hop as nat),
        forall|b: int, k: int, t: int|
            0 <= b < input.batches() && 0 <= k < plan.bins() && 0 <= t < spec_stft_frames(
                input.row_len(),
                plan.hop as nat,
            ) ==> {
                let m = #[trigger] r.at(b, k, t);
                let re = spec_stft_re(input.rows@[b]@, *plan, k as nat, t as nat);
                let im = spec_stft_im(input.rows@[b]@, *plan, k as nat, t as nat);
                &&& 0 <= m
                &&& m * m <= re * re + im * im
                &&& re * re + im * im < (m + 1) * (m + 1)
            },
{
    let s = stft(input, plan);
    let r = magnitude(&s);
    proof {
        if input.batches() > 0 {
            assert(s.bins() == plan.bins());
        }
    }
    r
}

/// One grayscale pixel of a spectrogram cell, for plotting: the magnitude
/// scaled so a full-scale unit amplitude maps to 256, saturated to a byte.
pub open spec fn spec_pixel(v: int) -> int {
    if v < 0 {
        0
    } else if v / 0x8_0000 > 255 {
        255
    } else {
        v / 0x8_0000
    }
}

/// Grayscale pixel grid of the first batch row of a magnitude
/// spectrogram, one byte per `[bin, frame]` cell, for a plotting backend
/// to draw.
pub fn spectrogram_pixels(spec: &Tensor3) -> (r: Vec<Vec<u8>>)
    requires
        spec.wf(),
        spec.batches() > 0,
    ensures
        r@.len() == spec.channels(),
        forall|y: int| 0 <= y < spec.channels() ==> (#[trigger] r@[y]@).len() == spec.frames(),
        forall|y: int, x: int|
            0 <= y < spec.channels() && 0 <= x < spec.frames() ==> #[trigger] r@[y]@[x] as int
                == spec_pixel(spec.at(0, y, x)),
{
    let bins = spec.channel_count();
    let t_count = spec.frame_count();
    let mut out: Vec<Vec<u8>> = Vec::new();
    for y in 0..bins
        invariant
            spec.wf(),
            spec.batches() > 0,
            bins == spec.channels(),
            t_count == spec.frames(),
            out@.len() == y,
            forall|i: int| 0 <= i < y ==> (#[trigger] out@[i]@).len() == t_count,
            forall|i: int, x: int|
                0 <= i < y && 0 <= x < t_count ==> #[trigger] out@[i]@[x] as int == spec_pixel(
                    spec.at(0, i, x),
                ),
    {
        let mut row: Vec<u8> = Vec::new();
        for x in 0..t_count
            invariant
                spec.wf(),
                spec.batches() > 0,
                y < bins,
                bins == spec.channels(),
                t_count == spec.frames(),
                row@.len() == x,
                forall|i: int|
                    0 <= i < x ==> #[trigger] row@[i] as int == spec_pixel(
                        spec.at(0, y as int, i),
                    ),
        {
            let v = spec.value_at(0, y, x);
            let p: u8 = if v < 0 {
                0
            } else {
                let q = v / 0x8_0000;
                if q > 255 {
                    255
                } else {
                    q as u8
                }
            };
            row.push(p);
        }
        out.push(row);
    }
    out
}

} // verus!
