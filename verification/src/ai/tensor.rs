//! The tensor bookkeeping model: identity, shape and row-major strides.
//! The element values themselves live with the floating-point compute
//! outside the library; every shape and stride decision is made here.

#![verifier::loop_isolation(false)]

use vstd::prelude::*;

verus! {

/// The identity a tensor is tracked under.
pub type TensorId = u64;

/// Product of the dimensions from position `from` on: how many elements
/// one step at position `from - 1` spans.
pub open spec fn spec_suffix_product(shape: Seq<usize>, from: int) -> int
    decreases shape.len() - from,
{
    if from < 0 || from >= shape.len() {
        1
    } else {
        shape[from] * spec_suffix_product(shape, from + 1)
    }
}

/// A tensor's bookkeeping: identity, shape, row-major strides, and
/// whether gradients are tracked for it.
pub struct Tensor {
    pub id: TensorId,
    pub shape: Vec<usize>,
    pub strides: Vec<usize>,
    pub requires_grad: bool,
}

/// Strides are row-major: each stride is the product of the dimensions
/// after its own.
pub open spec fn strides_wf(shape: Seq<usize>, strides: Seq<usize>) -> bool {
    &&& strides.len() == shape.len()
    &&& forall|i: int|
        0 <= i < strides.len() ==> #[trigger] strides[i] == spec_suffix_product(shape, i + 1)
}

impl Tensor {
    /// A tensor's shape and strides are consistent.
    pub open spec fn wf(self) -> bool {
        strides_wf(self.shape@, self.strides@)
    }

    /// A fresh tensor of the given shape under the given identity:
    /// row-major strides, gradients not tracked.
    pub fn new(id: TensorId, shape: Vec<usize>) -> (r: Self)
        requires
            forall|i: int|
                0 <= i <= shape@.len() ==> #[trigger] spec_suffix_product(shape@, i) <= usize::MAX,
        ensures
            r.wf(),
            r.id == id,
            r.shape@ == shape@,
            !r.requires_grad,
    {
        let n = shape.len();
        let mut strides: Vec<usize> = Vec::new();
        let mut k: usize = 0;
        while k < n
            invariant
                k <= n,
                n == shape@.len(),
                strides@.len() == k,
            decreases n - k,
        {
            strides.push(0);
            k = k + 1;
        }
        let mut acc: usize = 1;
        let mut i: usize = n;
        while i > 0
            invariant
                i <= n,
                n == shape@.len(),
                strides@.len() == n,
                acc == spec_suffix_product(shape@, i as int),
                forall|j: int|
                    i <= j < n ==> #[trigger] strides@[j] == spec_suffix_product(shape@, j + 1),
            decreases i,
        {
            i = i - 1;
            strides[i] = acc;
            proof {
                assert(spec_suffix_product(shape@, i as int) == shape@[i as int]
                    * spec_suffix_product(shape@, i as int + 1));
                assert(acc * shape@[i as int] == shape@[i as int] * acc) by (nonlinear_arith);
                assert(acc * shape@[i as int] <= usize::MAX);
            }
            acc = acc * shape[i];
        }
        Tensor { id, shape, strides, requires_grad: false }
    }

    /// A fresh all-zero tensor of the given shape.
    pub fn zeros(id: TensorId, shape: Vec<usize>) -> (r: Self)
        requires
            forall|i: int|
                0 <= i <= shape@.len() ==> #[trigger] spec_suffix_product(shape@, i) <= usize::MAX,
        ensures
            r.wf(),
            r.id == id,
            r.shape@ == shape@,
            !r.requires_grad,
    {
        Tensor::new(id, shape)
    }

    /// A fresh all-one tensor of the given shape.
    pub fn ones(id: TensorId, shape: Vec<usize>) -> (r: Self)
        requires
            forall|i: int|
                0 <= i <= shape@.len() ==> #[trigger] spec_suffix_product(shape@, i) <= usize::MAX,
        ensures
            r.wf(),
            r.id == id,
            r.shape@ == shape@,
            !r.requires_grad,
    {
        Tensor::new(id, shape)
    }

    /// Track or stop tracking gradients for this tensor.
    pub fn set_requires_grad(&mut self, requires_grad: bool)
        ensures
            final(self).requires_grad == requires_grad,
            final(self).id == old(self).id,
            final(self).shape@ == old(self).shape@,
            final(self).strides@ == old(self).strides@,
    {
        self.requires_grad = requires_grad;
    }

    /// The tensor's shape.
    pub fn shape(&self) -> (r: &Vec<usize>)
        ensures
            r@ == self.shape@,
    {
        &self.shape
    }
}

} // verus!
