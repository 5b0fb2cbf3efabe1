//! Sliding-window index arithmetic for two-dimensional convolution: given
//! the shapes of an input matrix and a kernel, iterate over the top-left
//! corners of every kernel-sized window of the input, in row-major order.
//! The numeric work of the convolution itself belongs to the backend; this
//! module only decides which windows exist.

use vstd::prelude::*;

use crate::nar::conv_iter::V2;

verus! {

/// The input shape cannot accommodate the kernel shape.
#[derive(Debug)]
pub struct BadShapeError(pub String);

impl BadShapeError {
    pub fn from_string(message: String) -> (r: BadShapeError)
        ensures
            r.0 == message,
    {
        BadShapeError(message)
    }
}

/// Iterator over the sliding kernel-sized windows of a two-dimensional
/// input, yielding the top-left corner of each window.
pub struct SliceIteratorIx2 {
    /// The kernel shape; each window spans `kernel_shape` cells from its
    /// corner.
    pub kernel_shape: [usize; 2],
    /// Range of corner indices (left inclusive, right exclusive) for
    /// dimension 0 of the input matrix. The kernel is slid along those
    /// values.
    pub d0_range: [usize; 2],
    /// Corner index range for dimension 1.
    pub d1_range: [usize; 2],
    /// Current corner, dimension 0.
    pub d0_curr: usize,
    /// Current corner, dimension 1.
    pub d1_curr: usize,
}

impl SliceIteratorIx2 {
    /// Iterator invariant: ranges start at zero and are non-empty, the
    /// current corner stays within them, a window never runs past the
    /// machine's address range, and an exhausted iterator has wrapped its
    /// column back to the range start.
    pub open spec fn wf(self) -> bool {
        &&& self.d0_range[0] == 0
        &&& self.d1_range[0] == 0
        &&& self.d0_range[1] >= 1
        &&& self.d1_range[1] >= 1
        &&& self.d0_curr <= self.d0_range[1]
        &&& self.d1_curr <= self.d1_range[1]
        &&& self.d0_range[1] - 1 + self.kernel_shape[0] <= usize::MAX
        &&& self.d1_range[1] - 1 + self.kernel_shape[1] <= usize::MAX
        &&& (self.d0_curr == self.d0_range[1] ==> self.d1_curr < self.d1_range[1])
    }

    /// The corner of the next window, in row-major order, or `None` once
    /// every window has been yielded.
    pub fn next(&mut self) -> (r: Option<V2>)
        requires
            old(self).wf(),
        ensures
            final(self).wf(),
            final(self).kernel_shape == old(self).kernel_shape,
            final(self).d0_range == old(self).d0_range,
            final(self).d1_range == old(self).d1_range,
            ({
                let row = if old(self).d1_curr >= old(self).d1_range[1] {
                    (old(self).d0_curr + 1) as usize
                } else {
                    old(self).d0_curr
                };
                let col = if old(self).d1_curr >= old(self).d1_range[1] {
                    0usize
                } else {
                    old(self).d1_curr
                };
                if row >= old(self).d0_range[1] {
                    r is None && final(self).d0_curr == row && final(self).d1_curr == col
                } else {
                    r == Some(V2(row, col)) && final(self).d0_curr == row && final(self).d1_curr
                        == (col + 1) as usize
                }
            }),
    {
        if self.d1_curr >= self.d1_range[1] {
            self.d1_curr = self.d1_range[0];
            self.d0_curr += 1;
        }
        if self.d0_curr >= self.d0_range[1] {
            return None;
        }
        let d0_a = self.d0_curr;
        let d1_a = self.d1_curr;
        self.d1_curr += 1;
        Some(V2(d0_a, d1_a))
    }

    /// The shape of the convolution's output matrix: one cell per window
    /// corner.
    pub fn output_shape(&self) -> (r: [usize; 2])
        requires
            self.wf(),
        ensures
            r[0] == self.d0_range[1] - self.d0_range[0],
            r[1] == self.d1_range[1] - self.d1_range[0],
    {
        [self.d0_range[1] - self.d0_range[0], self.d1_range[1] - self.d1_range[0]]
    }
}

/// Produce an iterator over the sliding window corners for convolving an
/// input of shape `input_shape` with a kernel of shape `kernel_shape`
/// (both given as `[rows, columns, ...]`; only the first two dimensions
/// are read). Fails exactly when the input is smaller than the kernel in
/// either dimension.
pub fn iter_conv2d_slices(input_shape: &[usize], kernel_shape: &[usize]) -> (r: Result<
    SliceIteratorIx2,
    BadShapeError,
>)
    requires
        input_shape@.len() >= 2,
        kernel_shape@.len() >= 2,
        kernel_shape@[0] >= 1,
        kernel_shape@[1] >= 1,
    ensures
        match r {
            Ok(it) => {
                &&& input_shape@[0] >= kernel_shape@[0]
                &&& input_shape@[1] >= kernel_shape@[1]
                &&& it.wf()
                &&& it.kernel_shape[0] == kernel_shape@[0]
                &&& it.kernel_shape[1] == kernel_shape@[1]
                &&& it.d0_range[1] == input_shape@[0] - kernel_shape@[0] + 1
                &&& it.d1_range[1] == input_shape@[1] - kernel_shape@[1] + 1
                &&& it.d0_curr == 0
                &&& it.d1_curr == 0
            },
            Err(_) => input_shape@[0] < kernel_shape@[0] || input_shape@[1] < kernel_shape@[1],
        },
{
    if input_shape[0] < kernel_shape[0] || input_shape[1] < kernel_shape[1] {
        return Err(
            BadShapeError::from_string("input shape smaller than kernel shape".to_owned()),
        );
    }
    let d0_range = [0usize, input_shape[0] - kernel_shape[0] + 1];
    let d1_range = [0usize, input_shape[1] - kernel_shape[1] + 1];
    Ok(
        SliceIteratorIx2 {
            kernel_shape: [kernel_shape[0], kernel_shape[1]],
            d0_range,
            d1_range,
            d0_curr: d0_range[0],
            d1_curr: d1_range[0],
        },
    )
}

} // verus!
