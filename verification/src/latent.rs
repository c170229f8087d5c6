//! The latent representation: amplitude envelope, content features and
//! pitch track, one aligned structure per conversion, together with the
//! two value-wise latent transforms — pitch shifting in log-pitch space
//! and content blending against a matched vector.

use crate::num::{div_trunc, lemma_div_trunc_exact};
use crate::tensor::Tensor3;
use crate::ConvertError;
use crate::{ALPHA_ONE, VALUE_LIMIT};
use vstd::arithmetic::div_mod::{
    lemma_div_by_multiple, lemma_div_is_ordered, lemma_div_pos_is_pos,
};
use vstd::prelude::*;

verus! {

/// One frame of the pitch track. A voiced frame carries the fundamental
/// on the fixed-point log-pitch (semitone) scale; an unvoiced frame
/// carries the estimator's non-positive raw value untouched, so it can be
/// handed back to the synthesis engine unchanged.
#[derive(Clone, Copy, Debug, PartialEq, Eq, Structural)]
pub enum PitchFrame {
    Voiced(i64),
    Unvoiced(i64),
}

/// A `[batch, frame]` pitch track.
#[derive(Clone, Debug, PartialEq)]
pub struct PitchTrack {
    pub rows: Vec<Vec<PitchFrame>>,
}

impl PitchTrack {
    /// Batch count.
    pub open spec fn batches(&self) -> nat {
        self.rows@.len()
    }

    /// Frame count (of the first row; the invariant makes all equal).
    pub open spec fn frames(&self) -> nat {
        if self.rows@.len() == 0 {
            0
        } else {
            self.rows@[0]@.len()
        }
    }

    /// The frame at `[b, f]`.
    pub open spec fn at(&self, b: int, f: int) -> PitchFrame {
        self.rows@[b]@[f]
    }

    /// Well-formedness: every row has the same length.
    pub open spec fn wf(&self) -> bool {
        forall|b: int|
            0 <= b < self.batches() ==> (#[trigger] self.rows@[b]@).len() == self.frames()
    }

    /// Wrap rows into a track: accepted exactly when all rows are equally
    /// long.
    pub fn from_rows(rows: Vec<Vec<PitchFrame>>) -> (r: Result<PitchTrack, ConvertError>)
        ensures
            r is Ok <==> (PitchTrack { rows: rows }).wf(),
            r is Ok ==> r->Ok_0 == (PitchTrack { rows: rows }),
            r is Err ==> r->Err_0 == ConvertError::ShapeMismatch,
    {
        let t = PitchTrack { rows };
        let n = t.rows.len();
        if n == 0 {
            return Ok(t);
        }
        let len = t.rows[0].len();
        for b in 0..n
            invariant
                t == (PitchTrack { rows: rows }),
                n == t.rows@.len(),
                n > 0,
                len == t.frames(),
                forall|i: int| 0 <= i < b ==> (#[trigger] t.rows@[i]@).len() == len,
        {
            if t.rows[b].len() != len {
                proof {
                    assert((t.rows@[b as int]@).len() != t.frames());
                    assert(!t.wf());
                }
                return Err(ConvertError::ShapeMismatch);
            }
        }
        Ok(t)
    }

    /// Batch count, executable.
    pub fn batch_count(&self) -> (r: usize)
        ensures
            r == self.batches(),
    {
        self.rows.len()
    }

    /// Frame count, executable.
    pub fn frame_count(&self) -> (r: usize)
        ensures
            r == self.frames(),
    {
        if self.rows.len() == 0 {
            0
        } else {
            self.rows[0].len()
        }
    }

    /// Runtime well-formedness check.
    pub fn check(&self) -> (r: bool)
        ensures
            r == self.wf(),
    {
        let n = self.rows.len();
        if n == 0 {
            return true;
        }
        let len = self.rows[0].len();
        for b in 0..n
            invariant
                n == self.rows@.len(),
                n > 0,
                len == self.frames(),
                forall|i: int| 0 <= i < b ==> (#[trigger] self.rows@[i]@).len() == len,
        {
            if self.rows[b].len() != len {
                proof {
                    assert((self.rows@[b as int]@).len() != self.frames());
                }
                return false;
            }
        }
        true
    }
}

/// A pitch frame shifted by `s` on the log-pitch scale: voiced frames
/// move, unvoiced frames pass through unshifted.
pub open spec fn spec_shift_frame(f: PitchFrame, s: int) -> PitchFrame {
    match f {
        PitchFrame::Voiced(p) => PitchFrame::Voiced(((p + s) as i64)),
        PitchFrame::Unvoiced(v) => PitchFrame::Unvoiced(v),
    }
}

/// Whether shifting a pitch frame by `s` stays within the fixed-point
/// range.
pub open spec fn spec_shift_frame_ok(f: PitchFrame, s: int) -> bool {
    match f {
        PitchFrame::Voiced(p) => i64::MIN <= p + s <= i64::MAX,
        PitchFrame::Unvoiced(_) => true,
    }
}

/// Pitch-shift invertibility: shifting a frame by `s` and the result by
/// `-s` is always in range and recovers the original frame exactly.
pub proof fn lemma_pitch_shift_round_trip(f: PitchFrame, s: int)
    requires
        spec_shift_frame_ok(f, s),
    ensures
        spec_shift_frame_ok(spec_shift_frame(f, s), -s),
        spec_shift_frame(spec_shift_frame(f, s), -s) == f,
{
}

/// Linear blend of a matched content value against the original:
/// `matched` at blend factor zero, `original` at blend factor
/// `ALPHA_ONE`, the truncating fixed-point interpolation in between.
pub open spec fn spec_blend(matched: int, original: int, alpha: int) -> int
    recommends
        0 <= alpha <= ALPHA_ONE,
{
    matched + div_trunc((original - matched) * alpha, ALPHA_ONE as int)
}

/// Blend boundaries: a blend factor of `ALPHA_ONE` leaves the original
/// content value numerically unchanged, and a blend factor of zero yields
/// exactly the matched value.
pub proof fn lemma_blend_boundaries(matched: int, original: int)
    ensures
        spec_blend(matched, original, ALPHA_ONE as int) == original,
        spec_blend(matched, original, 0) == matched,
{
    lemma_div_trunc_exact(original - matched, ALPHA_ONE as int);
}

/// A blended value lies between the matched and the original value.
pub proof fn lemma_blend_between(matched: int, original: int, alpha: int)
    requires
        0 <= alpha <= ALPHA_ONE,
    ensures
        matched <= original ==> matched <= spec_blend(matched, original, alpha) <= original,
        original <= matched ==> original <= spec_blend(matched, original, alpha) <= matched,
{
    let a1 = ALPHA_ONE as int;
    let d = original - matched;
    if d >= 0 {
        assert(0 <= d * alpha <= d * a1) by (nonlinear_arith)
            requires
                d >= 0,
                0 <= alpha <= a1,
        ;
        lemma_div_pos_is_pos(d * alpha, a1);
        lemma_div_is_ordered(d * alpha, d * a1, a1);
        lemma_div_by_multiple(d, a1);
    } else {
        assert(0 <= (-d) * alpha <= (-d) * a1) by (nonlinear_arith)
            requires
                d < 0,
                0 <= alpha <= a1,
        ;
        assert(-(d * alpha) == (-d) * alpha) by (nonlinear_arith);
        lemma_div_pos_is_pos((-d) * alpha, a1);
        lemma_div_is_ordered((-d) * alpha, (-d) * a1, a1);
        lemma_div_by_multiple(-d, a1);
    }
}

/// Blend two content tensors element-wise. Succeeds exactly when the two
/// tensors share a shape; a mismatch is rejected before any arithmetic.
pub fn blend_content(matched: &Tensor3, original: &Tensor3, alpha: u32) -> (r: Result<
    Tensor3,
    ConvertError,
>)
    requires
        matched.wf(),
        original.wf(),
        alpha <= ALPHA_ONE,
    ensures
        r is Ok <==> {
            &&& matched.batches() == original.batches()
            &&& matched.channels() == original.channels()
            &&& matched.frames() == original.frames()
        },
        r is Err ==> r->Err_0 == ConvertError::ShapeMismatch,
        r is Ok ==> {
            &&& r->Ok_0.wf()
            &&& r->Ok_0.batches() == original.batches()
            &&& r->Ok_0.channels() == original.channels()
            &&& r->Ok_0.frames() == original.frames()
            &&& forall|b: int, c: int, f: int|
                0 <= b < original.batches() && 0 <= c < original.channels() && 0 <= f
                    < original.frames() ==> #[trigger] r->Ok_0.at(b, c, f) == spec_blend(
                    matched.at(b, c, f),
                    original.at(b, c, f),
                    alpha as int,
                )
        },
{
    let b_count = original.batch_count();
    let c_count = original.channel_count();
    let f_count = original.frame_count();
    if matched.batch_count() != b_count || matched.channel_count() != c_count
        || matched.frame_count() != f_count {
        return Err(ConvertError::ShapeMismatch);
    }
    let mut out: Vec<Vec<Vec<i64>>> = Vec::new();
    for b in 0..b_count
        invariant
            matched.wf(),
            original.wf(),
            alpha <= ALPHA_ONE,
            b_count == original.batches(),
            c_count == original.channels(),
            f_count == original.frames(),
            b_count == matched.batches(),
            c_count == matched.channels(),
            f_count == matched.frames(),
            out@.len() == b,
            forall|x: int| 0 <= x < b ==> (#[trigger] out@[x]@).len() == c_count,
            forall|x: int, c: int|
                0 <= x < b && 0 <= c < c_count ==> (#[trigger] out@[x]@[c]@).len() == f_count,
            forall|x: int, c: int, f: int|
                0 <= x < b && 0 <= c < c_count && 0 <= f < f_count ==> #[trigger] out@[x]@[c]@[f]
                    as int == spec_blend(matched.at(x, c, f), original.at(x, c, f), alpha as int),
            forall|x: int, c: int, f: int|
                0 <= x < b && 0 <= c < c_count && 0 <= f < f_count ==> -VALUE_LIMIT
                    <= #[trigger] out@[x]@[c]@[f] <= VALUE_LIMIT,
    {
        let mut row: Vec<Vec<i64>> = Vec::new();
        for c in 0..c_count
            invariant
                matched.wf(),
                original.wf(),
                alpha <= ALPHA_ONE,
                b < original.batches(),
                b < matched.batches(),
                c_count == original.channels(),
                f_count == original.frames(),
                c_count == matched.channels(),
                f_count == matched.frames(),
                row@.len() == c,
                forall|j: int| 0 <= j < c ==> (#[trigger] row@[j]@).len() == f_count,
                forall|j: int, f: int|
                    0 <= j < c && 0 <= f < f_count ==> #[trigger] row@[j]@[f] as int == spec_blend(
                        matched.at(b as int, j, f),
                        original.at(b as int, j, f),
                        alpha as int,
                    ),
                forall|j: int, f: int|
                    0 <= j < c && 0 <= f < f_count ==> -VALUE_LIMIT <= #[trigger] row@[j]@[f]
                        <= VALUE_LIMIT,
        {
            let mut chan: Vec<i64> = Vec::new();
            for f in 0..f_count
                invariant
                    matched.wf(),
                    original.wf(),
                    alpha <= ALPHA_ONE,
                    b < original.batches(),
                    b < matched.batches(),
                    c < original.channels(),
                    c < matched.channels(),
                    f_count == original.frames(),
                    f_count == matched.frames(),
                    chan@.len() == f,
                    forall|g: int|
                        0 <= g < f ==> #[trigger] chan@[g] as int == spec_blend(
                            matched.at(b as int, c as int, g),
                            original.at(b as int, c as int, g),
                            alpha as int,
                        ),
                    forall|g: int|
                        0 <= g < f ==> -VALUE_LIMIT <= #[trigger] chan@[g] <= VALUE_LIMIT,
            {
                let m = matched.value_at(b, c, f);
                let o = original.value_at(b, c, f);
                let d: i128 = (o as i128) - (m as i128);
                proof {
                    crate::num::lemma_mul_bounded(
                        d as int,
                        alpha as int,
                        2 * VALUE_LIMIT as int,
                        ALPHA_ONE as int,
                    );
                }
                let num: i128 = d * (alpha as i128);
                let q = crate::num::div_q(num, ALPHA_ONE as i128);
                proof {
                    lemma_blend_between(m as int, o as int, alpha as int);
                }
                let v: i64 = m + (q as i64);
                chan.push(v);
            }
            row.push(chan);
        }
        out.push(row);
    }
    let r = Tensor3 { data: out };
    proof {
        if r.batches() > 0 {
            assert(r.data@[0]@.len() == c_count);
        }
        if r.batches() > 0 && r.channels() > 0 {
            assert(r.data@[0]@[0]@.len() == f_count);
        }
        assert(r.wf());
    }
    Ok(r)
}

/// The aligned triple exchanged with the inference engine: amplitude
/// envelope `[B, 1, F]`, content features `[B, C, F]`, and pitch track
/// `[B, F]`. Batch size and frame count agree across all three; the
/// invariant is validated when the triple is assembled.
#[derive(Clone, Debug, PartialEq)]
pub struct LatentRepresentation {
    pub amplitude: Tensor3,
    pub content: Tensor3,
    pub f0: PitchTrack,
}

impl LatentRepresentation {
    /// Batch count.
    pub open spec fn batches(&self) -> nat {
        self.content.batches()
    }

    /// Frame count.
    pub open spec fn frames(&self) -> nat {
        self.content.frames()
    }

    /// Well-formedness: the three parts are well formed, share batch size
    /// and frame count, and the amplitude envelope has a single channel.
    pub open spec fn wf(&self) -> bool {
        &&& self.amplitude.wf()
        &&& self.content.wf()
        &&& self.f0.wf()
        &&& self.amplitude.batches() == self.batches()
        &&& self.f0.batches() == self.batches()
        &&& self.batches() > 0 ==> self.amplitude.channels() == 1
        &&& self.amplitude.frames() == self.frames()
        &&& self.f0.frames() == self.frames()
    }

    /// Assemble a latent representation: accepted exactly when the parts
    /// are aligned.
    pub fn new(amplitude: Tensor3, content: Tensor3, f0: PitchTrack) -> (r: Result<
        LatentRepresentation,
        ConvertError,
    >)
        requires
            amplitude.wf(),
            content.wf(),
            f0.wf(),
        ensures
            r is Ok <==> (LatentRepresentation { amplitude, content, f0 }).wf(),
            r is Ok ==> r->Ok_0 == (LatentRepresentation { amplitude, content, f0 }),
            r is Err ==> r->Err_0 == ConvertError::ShapeMismatch,
    {
        let l = LatentRepresentation { amplitude, content, f0 };
        let b = l.content.batch_count();
        let f = l.content.frame_count();
        if l.amplitude.batch_count() != b || l.f0.batch_count() != b {
            return Err(ConvertError::ShapeMismatch);
        }
        if b > 0 && l.amplitude.channel_count() != 1 {
            return Err(ConvertError::ShapeMismatch);
        }
        if l.amplitude.frame_count() != f || l.f0.frame_count() != f {
            return Err(ConvertError::ShapeMismatch);
        }
        Ok(l)
    }

    /// Shift every voiced pitch frame by `shift` on the log-pitch scale,
    /// leaving unvoiced frames and all other parts untouched. Succeeds
    /// exactly when no shifted value leaves the fixed-point range.
    pub fn pitch_shift(self, shift: i64) -> (r: Result<LatentRepresentation, ConvertError>)
        requires
            self.wf(),
        ensures
            r is Ok <==> (forall|b: int, f: int|
                0 <= b < self.f0.batches() && 0 <= f < self.f0.frames()
                    ==> spec_shift_frame_ok(#[trigger] self.f0.at(b, f), shift as int)),
            r is Err ==> r->Err_0 == ConvertError::DomainError,
            r is Ok ==> {
                &&& r->Ok_0.wf()
                &&& r->Ok_0.amplitude == self.amplitude
                &&& r->Ok_0.content == self.content
                &&& r->Ok_0.f0.batches() == self.f0.batches()
                &&& r->Ok_0.f0.frames() == self.f0.frames()
                &&& forall|b: int, f: int|
                    0 <= b < self.f0.batches() && 0 <= f < self.f0.frames()
                        ==> #[trigger] r->Ok_0.f0.at(b, f) == spec_shift_frame(
                        self.f0.at(b, f),
                        shift as int,
                    )
            },
    {
        let b_count = self.f0.rows.len();
        let f_count = self.f0.frame_count();
        let mut out: Vec<Vec<PitchFrame>> = Vec::new();
        for b in 0..b_count
            invariant
                self.wf(),
                b_count == self.f0.batches(),
                f_count == self.f0.frames(),
                out@.len() == b,
                forall|x: int| 0 <= x < b ==> (#[trigger] out@[x]@).len() == f_count,
                forall|x: int, f: int|
                    0 <= x < b && 0 <= f < f_count ==> #[trigger] out@[x]@[f] == spec_shift_frame(
                        self.f0.at(x, f),
                        shift as int,
                    ),
                forall|x: int, f: int|
                    0 <= x < b && 0 <= f < f_count ==> spec_shift_frame_ok(
                        #[trigger] self.f0.at(x, f),
                        shift as int,
                    ),
        {
            let mut row: Vec<PitchFrame> = Vec::new();
            for f in 0..f_count
                invariant
                    self.wf(),
                    b < self.f0.batches(),
                    f_count == self.f0.frames(),
                    row@.len() == f,
                    forall|g: int|
                        0 <= g < f ==> #[trigger] row@[g] == spec_shift_frame(
                            self.f0.at(b as int, g),
                            shift as int,
                        ),
                    forall|g: int|
                        0 <= g < f ==> spec_shift_frame_ok(
                            #[trigger] self.f0.at(b as int, g),
                            shift as int,
                        ),
            {
                let frame = self.f0.rows[b][f];
                match frame {
                    PitchFrame::Voiced(p) => {
                        match p.checked_add(shift) {
                            Some(v) => {
                                row.push(PitchFrame::Voiced(v));
                            },
                            None => {
                                proof {
                                    assert(!spec_shift_frame_ok(
                                        self.f0.at(b as int, f as int),
                                        shift as int,
                                    ));
                                }
                                return Err(ConvertError::DomainError);
                            },
                        }
                    },
                    PitchFrame::Unvoiced(v) => {
                        row.push(PitchFrame::Unvoiced(v));
                    },
                }
            }
            out.push(row);
        }
        let f0 = PitchTrack { rows: out };
        proof {
            if f0.batches() > 0 {
                assert(f0.rows@[0]@.len() == f_count);
            }
            assert(f0.wf());
        }
        let r = LatentRepresentation { amplitude: self.amplitude, content: self.content, f0 };
        Ok(r)
    }
}

} // verus!
