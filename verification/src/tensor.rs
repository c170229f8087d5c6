//! Three-dimensional tensors of fixed-point values, indexed
//! `[batch, channel, frame]`: the shape every latent array and spectrogram
//! magnitude shares. Rectangularity and a value bound are the type's
//! invariant, checked once at construction.

use crate::ConvertError;
use crate::VALUE_LIMIT;
use vstd::prelude::*;

verus! {

/// A rectangular `[batch, channel, frame]` array of bounded fixed-point
/// values.
#[derive(Clone, Debug, PartialEq)]
pub struct Tensor3 {
    pub data: Vec<Vec<Vec<i64>>>,
}

impl Tensor3 {
    /// Batch count.
    pub open spec fn batches(&self) -> nat {
        self.data@.len()
    }

    /// Channel count (of the first batch; the invariant makes all equal).
    pub open spec fn channels(&self) -> nat {
        if self.data@.len() == 0 {
            0
        } else {
            self.data@[0]@.len()
        }
    }

    /// Frame count (of the first channel; the invariant makes all equal).
    pub open spec fn frames(&self) -> nat {
        if self.data@.len() == 0 || self.data@[0]@.len() == 0 {
            0
        } else {
            self.data@[0]@[0]@.len()
        }
    }

    /// The value at `[b, c, f]`.
    pub open spec fn at(&self, b: int, c: int, f: int) -> int {
        self.data@[b]@[c]@[f] as int
    }

    /// Well-formedness: rectangular, every value within `VALUE_LIMIT`.
    pub open spec fn wf(&self) -> bool {
        &&& forall|b: int|
            0 <= b < self.batches() ==> (#[trigger] self.data@[b]@).len() == self.channels()
        &&& forall|b: int, c: int|
            0 <= b < self.batches() && 0 <= c < self.channels() ==> (#[trigger] self.data@[b]@[c]@).len() == self.frames()
        &&& forall|b: int, c: int, f: int|
            0 <= b < self.batches() && 0 <= c < self.channels() && 0 <= f < self.frames()
                ==> -VALUE_LIMIT <= #[trigger] self.data@[b]@[c]@[f] <= VALUE_LIMIT
    }

    /// Two tensors agree: same shape, same value everywhere.
    pub open spec fn agrees_with(&self, other: &Tensor3) -> bool {
        &&& self.batches() == other.batches()
        &&& self.channels() == other.channels()
        &&& self.frames() == other.frames()
        &&& forall|b: int, c: int, f: int|
            0 <= b < self.batches() && 0 <= c < self.channels() && 0 <= f < self.frames()
                ==> #[trigger] self.at(b, c, f) == other.at(b, c, f)
    }

    /// Wrap validated data: accepted exactly when the nested vectors are
    /// rectangular and every value is within `VALUE_LIMIT`.
    pub fn from_data(data: Vec<Vec<Vec<i64>>>) -> (r: Result<Tensor3, ConvertError>)
        ensures
            r is Ok <==> (Tensor3 { data: data }).wf(),
            r is Ok ==> r->Ok_0 == (Tensor3 { data: data }),
            r is Err ==> r->Err_0 == ConvertError::ShapeMismatch,
    {
        let t = Tensor3 { data };
        if t.check() {
            Ok(t)
        } else {
            Err(ConvertError::ShapeMismatch)
        }
    }

    /// Runtime well-formedness check.
    pub fn check(&self) -> (r: bool)
        ensures
            r == self.wf(),
    {
        let b_count = self.data.len();
        if b_count == 0 {
            return true;
        }
        let c_count = self.data[0].len();
        let f_count = if c_count == 0 {
            0
        } else {
            self.data[0][0].len()
        };
        for b in 0..b_count
            invariant
                b_count == self.data@.len(),
                c_count == self.channels(),
                f_count == self.frames(),
                b_count > 0,
                forall|i: int| 0 <= i < b ==> (#[trigger] self.data@[i]@).len() == c_count,
                forall|i: int, c: int|
                    0 <= i < b && 0 <= c < c_count ==> (#[trigger] self.data@[i]@[c]@).len()
                        == f_count,
                forall|i: int, c: int, f: int|
                    0 <= i < b && 0 <= c < c_count && 0 <= f < f_count ==> -VALUE_LIMIT
                        <= #[trigger] self.data@[i]@[c]@[f] <= VALUE_LIMIT,
        {
            if self.data[b].len() != c_count {
                return false;
            }
            for c in 0..c_count
                invariant
                    b_count == self.data@.len(),
                    c_count == self.channels(),
                    f_count == self.frames(),
                    b < b_count,
                    self.data@[b as int]@.len() == c_count,
                    forall|i: int| 0 <= i < b ==> (#[trigger] self.data@[i]@).len() == c_count,
                    forall|i: int, j: int|
                        0 <= i < b && 0 <= j < c_count ==> (#[trigger] self.data@[i]@[j]@).len()
                            == f_count,
                    forall|i: int, j: int, f: int|
                        0 <= i < b && 0 <= j < c_count && 0 <= f < f_count ==> -VALUE_LIMIT
                            <= #[trigger] self.data@[i]@[j]@[f] <= VALUE_LIMIT,
                    forall|j: int|
                        0 <= j < c ==> (#[trigger] self.data@[b as int]@[j]@).len() == f_count,
                    forall|j: int, f: int|
                        0 <= j < c && 0 <= f < f_count ==> -VALUE_LIMIT
                            <= #[trigger] self.data@[b as int]@[j]@[f] <= VALUE_LIMIT,
            {
                if self.data[b][c].len() != f_count {
                    return false;
                }
                for f in 0..f_count
                    invariant
                        b_count == self.data@.len(),
                        c_count == self.channels(),
                        f_count == self.frames(),
                        b < b_count,
                        c < c_count,
                        self.data@[b as int]@.len() == c_count,
                        self.data@[b as int]@[c as int]@.len() == f_count,
                        forall|i: int| 0 <= i < b ==> (#[trigger] self.data@[i]@).len() == c_count,
                        forall|i: int, j: int|
                            0 <= i < b && 0 <= j < c_count ==> (#[trigger] self.data@[i]@[j]@).len()
                                == f_count,
                        forall|i: int, j: int, g: int|
                            0 <= i < b && 0 <= j < c_count && 0 <= g < f_count ==> -VALUE_LIMIT
                                <= #[trigger] self.data@[i]@[j]@[g] <= VALUE_LIMIT,
                        forall|j: int|
                            0 <= j < c ==> (#[trigger] self.data@[b as int]@[j]@).len() == f_count,
                        forall|j: int, g: int|
                            0 <= j < c && 0 <= g < f_count ==> -VALUE_LIMIT
                                <= #[trigger] self.data@[b as int]@[j]@[g] <= VALUE_LIMIT,
                        forall|g: int|
                            0 <= g < f ==> -VALUE_LIMIT <= #[trigger] self.data@[b as int]@[c as int]@[g]
                                <= VALUE_LIMIT,
                {
                    let v = self.data[b][c][f];
                    if v < -VALUE_LIMIT || v > VALUE_LIMIT {
                        return false;
                    }
                }
            }
        }
        true
    }

    /// Every value lies in `[lo, hi]`.
    pub open spec fn within(&self, lo: int, hi: int) -> bool {
        forall|b: int, c: int, f: int|
            0 <= b < self.batches() && 0 <= c < self.channels() && 0 <= f < self.frames() ==> lo
                <= #[trigger] self.at(b, c, f) <= hi
    }

    /// Runtime check that every value lies in `[lo, hi]`.
    pub fn values_within(&self, lo: i64, hi: i64) -> (r: bool)
        requires
            self.wf(),
        ensures
            r == self.within(lo as int, hi as int),
    {
        let b_count = self.data.len();
        for b in 0..b_count
            invariant
                self.wf(),
                b_count == self.batches(),
                forall|x: int, c: int, f: int|
                    0 <= x < b && 0 <= c < self.channels() && 0 <= f < self.frames() ==> lo
                        <= #[trigger] self.data@[x]@[c]@[f] <= hi,
        {
            let c_count = self.data[b].len();
            for c in 0..c_count
                invariant
                    self.wf(),
                    b < self.batches(),
                    c_count == self.channels(),
                    forall|x: int, j: int, f: int|
                        0 <= x < b && 0 <= j < self.channels() && 0 <= f < self.frames() ==> lo
                            <= #[trigger] self.data@[x]@[j]@[f] <= hi,
                    forall|j: int, f: int|
                        0 <= j < c && 0 <= f < self.frames() ==> lo
                            <= #[trigger] self.data@[b as int]@[j]@[f] <= hi,
            {
                let f_count = self.data[b][c].len();
                for f in 0..f_count
                    invariant
                        self.wf(),
                        b < self.batches(),
                        c < self.channels(),
                        f_count == self.frames(),
                        forall|x: int, j: int, g: int|
                            0 <= x < b && 0 <= j < self.channels() && 0 <= g < self.frames() ==> lo
                                <= #[trigger] self.data@[x]@[j]@[g] <= hi,
                        forall|j: int, g: int|
                            0 <= j < c && 0 <= g < self.frames() ==> lo
                                <= #[trigger] self.data@[b as int]@[j]@[g] <= hi,
                        forall|g: int|
                            0 <= g < f ==> lo <= #[trigger] self.data@[b as int]@[c as int]@[g]
                                <= hi,
                {
                    let v = self.data[b][c][f];
                    if v < lo || v > hi {
                        proof {
                            assert(!(lo as int <= self.at(b as int, c as int, f as int)
                                <= hi as int));
                        }
                        return false;
                    }
                }
            }
        }
        true
    }

    /// Batch count, executable.
    pub fn batch_count(&self) -> (r: usize)
        ensures
            r == self.batches(),
    {
        self.data.len()
    }

    /// Channel count, executable.
    pub fn channel_count(&self) -> (r: usize)
        ensures
            r == self.channels(),
    {
        if self.data.len() == 0 {
            0
        } else {
            self.data[0].len()
        }
    }

    /// Frame count, executable.
    pub fn frame_count(&self) -> (r: usize)
        ensures
            r == self.frames(),
    {
        if self.data.len() == 0 {
            0
        } else if self.data[0].len() == 0 {
            0
        } else {
            self.data[0][0].len()
        }
    }

    /// The value at `[b, c, f]`, executable.
    pub fn value_at(&self, b: usize, c: usize, f: usize) -> (r: i64)
        requires
            self.wf(),
            b < self.batches(),
            c < self.channels(),
            f < self.frames(),
        ensures
            r == self.at(b as int, c as int, f as int),
    {
        self.data[b][c][f]
    }

    /// A deep copy whose contract states value agreement, for handing the
    /// same tensor to two engine calls.
    pub fn duplicate(&self) -> (r: Tensor3)
        requires
            self.wf(),
        ensures
            r.wf(),
            r.agrees_with(self),
    {
        let b_count = self.data.len();
        let mut out: Vec<Vec<Vec<i64>>> = Vec::new();
        for b in 0..b_count
            invariant
                self.wf(),
                b_count == self.batches(),
                out@.len() == b,
                forall|i: int| 0 <= i < b ==> (#[trigger] out@[i]@).len() == self.channels(),
                forall|i: int, j: int|
                    0 <= i < b && 0 <= j < self.channels() ==> (#[trigger] out@[i]@[j]@).len()
                        == self.frames(),
                forall|i: int, j: int, g: int|
                    0 <= i < b && 0 <= j < self.channels() && 0 <= g < self.frames()
                        ==> #[trigger] out@[i]@[j]@[g] == self.data@[i]@[j]@[g],
        {
            let c_count = self.data[b].len();
            let mut row: Vec<Vec<i64>> = Vec::new();
            for c in 0..c_count
                invariant
                    self.wf(),
                    b < self.batches(),
                    c_count == self.channels(),
                    row@.len() == c,
                    forall|j: int|
                        0 <= j < c ==> (#[trigger] row@[j]@).len() == self.frames(),
                    forall|j: int, g: int|
                        0 <= j < c && 0 <= g < self.frames() ==> #[trigger] row@[j]@[g]
                            == self.data@[b as int]@[j]@[g],
            {
                let f_count = self.data[b][c].len();
                let mut chan: Vec<i64> = Vec::new();
                for f in 0..f_count
                    invariant
                        self.wf(),
                        b < self.batches(),
                        c < self.channels(),
                        f_count == self.frames(),
                        chan@.len() == f,
                        forall|g: int|
                            0 <= g < f ==> #[trigger] chan@[g] == self.data@[b as int]@[c as int]@[g],
                {
                    chan.push(self.data[b][c][f]);
                }
                row.push(chan);
            }
            out.push(row);
        }
        let r = Tensor3 { data: out };
        proof {
            if r.batches() > 0 {
                assert(r.data@[0]@.len() == self.channels());
            }
            if r.batches() > 0 && r.channels() > 0 {
                assert(r.data@[0]@[0]@.len() == self.frames());
            }
        }
        r
    }
}

} // verus!
