//! The arithmetic of the storage layout shared by both orientations.

use vstd::prelude::*;

verus! {

/// Storage index of physical coordinates `(i0, i1)` in a buffer whose
/// contiguous dimension has size `dim0`.
pub open spec fn storage_index(dim0: int, i0: int, i1: int) -> int {
    i1 * dim0 + i0
}

/// A strided traversal of storage: `count` positions, the first at `start`,
/// each `step` after the one before.
#[derive(Debug, Clone, Copy, PartialEq, Eq, Structural)]
pub struct Span {
    /// Storage index of the first position (0 for an empty traversal).
    pub start: usize,
    /// Number of positions.
    pub count: usize,
    /// Distance between consecutive positions.
    pub step: usize,
}

impl Span {
    /// Storage index of the `k`-th position.
    pub open spec fn position(self, k: int) -> int {
        self.start + k * self.step
    }
}

/// Physical coordinates inside the shape land inside the storage.
pub proof fn lemma_storage_index_bounds(dim0: int, dim1: int, i0: int, i1: int)
    requires
        0 <= i0 < dim0,
        0 <= i1 < dim1,
    ensures
        0 <= storage_index(dim0, i0, i1) < dim0 * dim1,
{
    assert(0 <= i1 * dim0) by (nonlinear_arith)
        requires
            0 <= i1,
            0 <= dim0,
    ;
    assert(i1 * dim0 + dim0 <= dim0 * dim1) by (nonlinear_arith)
        requires
            i1 + 1 <= dim1,
            0 <= dim0,
    ;
}

/// Distinct physical coordinates inside the shape have distinct storage
/// indices.
pub proof fn lemma_storage_index_injective(dim0: int, i0: int, i1: int, j0: int, j1: int)
    requires
        0 <= i0 < dim0,
        0 <= j0 < dim0,
        0 <= i1,
        0 <= j1,
        storage_index(dim0, i0, i1) == storage_index(dim0, j0, j1),
    ensures
        i0 == j0,
        i1 == j1,
{
    if i1 < j1 {
        assert(i1 * dim0 + dim0 <= j1 * dim0) by (nonlinear_arith)
            requires
                i1 + 1 <= j1,
                0 <= dim0,
        ;
    } else if j1 < i1 {
        assert(j1 * dim0 + dim0 <= i1 * dim0) by (nonlinear_arith)
            requires
                j1 + 1 <= i1,
                0 <= dim0,
        ;
    }
}

/// Every storage index of a buffer of `dim0 * dim1` elements belongs to
/// exactly the physical coordinates `(index % dim0, index / dim0)`.
pub proof fn lemma_storage_index_surjective(dim0: int, dim1: int, index: int)
    requires
        0 <= dim0,
        0 <= dim1,
        0 <= index < dim0 * dim1,
    ensures
        dim0 > 0,
        0 <= index % dim0 < dim0,
        0 <= index / dim0 < dim1,
        storage_index(dim0, index % dim0, index / dim0) == index,
{
    if dim0 == 0 {
        assert(dim0 * dim1 == 0);
    }
    assert(index == (index / dim0) * dim0 + index % dim0) by (nonlinear_arith)
        requires
            dim0 > 0,
    ;
    assert(index / dim0 < dim1) by (nonlinear_arith)
        requires
            dim0 > 0,
            0 <= index < dim0 * dim1,
    ;
    assert(0 <= index / dim0) by (nonlinear_arith)
        requires
            dim0 > 0,
            0 <= index,
    ;
}

} // verus!
