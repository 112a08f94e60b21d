//! Matrix-multiplication shape rules: the inner dimensions must agree,
//! and the product's shape is the outer pair.

#![verifier::loop_isolation(false)]

use vstd::prelude::*;
use crate::ai::tensor::Tensor;
use crate::ai::tensor::spec_suffix_product;

verus! {

/// Multiply two matrices (batch dimensions aside): the last dimension of
/// the left operand must equal the second-to-last of the right, and the
/// product's shape is the left's rows by the right's columns. The element
/// compute runs outside the library; the shape decision is made here.
pub fn matmul(a: &Tensor, b: &Tensor) -> (r: Tensor)
    requires
        a.shape@.len() >= 2,
        b.shape@.len() >= 2,
        a.shape@[a.shape@.len() - 1] == b.shape@[b.shape@.len() - 2],
        a.shape@[a.shape@.len() - 2] * b.shape@[b.shape@.len() - 1] <= usize::MAX,
    ensures
        r.wf(),
        r.shape@ =~= seq![
            a.shape@[a.shape@.len() - 2],
            b.shape@[b.shape@.len() - 1],
        ],
{
    let rows = a.shape[a.shape.len() - 2];
    let cols = b.shape[b.shape.len() - 1];
    let mut result_shape: Vec<usize> = Vec::new();
    result_shape.push(rows);
    result_shape.push(cols);
    proof {
        assert(spec_suffix_product(result_shape@, 2) == 1);
        assert(spec_suffix_product(result_shape@, 1) == cols);
        assert(spec_suffix_product(result_shape@, 0) == rows * cols);
    }
    Tensor::zeros(0, result_shape)
}

} // verus!
