//! Owned two-dimensional fields.
//!
//! Storage is one contiguous vector with two physical dimensions: `dim0` is
//! the contiguous, fast-changing dimension and `dim1` the strided,
//! slow-changing one. The element at physical coordinates `(i0, i1)` lives at
//! storage index `i1 * dim0 + i0`.
//!
//! For `RowMajor`, `dim0` is the column count and `dim1` the row count, so
//! cell `(row, column)` is at `row * column_count + column`. For
//! `ColumnMajor`, `dim0` is the row count and `dim1` the column count, so
//! cell `(row, column)` is at `column * row_count + row`.

use vstd::arithmetic::mul::lemma_mul_is_commutative;
use vstd::prelude::*;

use crate::layout::{
    lemma_storage_index_bounds, lemma_storage_index_injective,
    lemma_storage_index_surjective, storage_index, Span,
};
use crate::orientation::{ColumnMajor, Orientation, RowMajor};

verus! {

/// An owned two-dimensional data field with compile-time layout orientation.
///
/// A field built by `new_fill`, `new_data` or `default` stores exactly
/// `row_count * column_count` initialized elements in a contiguous vector;
/// `new` only reserves that storage. `RowMajor` and `ColumnMajor` select how
/// logical rows and columns map onto the storage.
#[derive(Debug, Hash)]
pub struct Field<O, T> where O: Orientation {
    /// Size of the contiguous, fast-changing dimension.
    dim0_size: usize,
    /// Size of the strided, slow-changing dimension.
    dim1_size: usize,
    /// Contiguous storage for all field elements.
    data: Vec<T>,
    _marker: core::marker::PhantomData<O>,
}

/// Number of elements of a `row_count` by `column_count` field.
pub fn element_count(row_count: usize, column_count: usize) -> (n: usize)
    requires
        row_count * column_count <= usize::MAX,
    ensures
        n == row_count * column_count,
{
    row_count * column_count
}

/// Number of elements of a `row_count` by `column_count` field, or `None`
/// when that number does not fit in `usize`.
pub fn checked_element_count(row_count: usize, column_count: usize) -> (n: Option<usize>)
    ensures
        n == (if row_count * column_count <= usize::MAX {
            Some((row_count * column_count) as usize)
        } else {
            None::<usize>
        }),
{
    row_count.checked_mul(column_count)
}

/// Confirms that `data` holds exactly `row_count * column_count` elements.
pub fn assert_data_len<T>(row_count: usize, column_count: usize, data: &[T])
    requires
        row_count * column_count <= usize::MAX,
        data@.len() == row_count * column_count,
    ensures
        data@.len() == row_count * column_count,
{
    let expected = element_count(row_count, column_count);
    assert(data.len() == expected);
}

/// Why a shape and a flat buffer do not make a field.
#[derive(Debug, Clone, Copy, PartialEq, Eq, Structural)]
pub enum ShapeError {
    /// `row_count * column_count` does not fit in `usize`.
    DimensionOverflow,
    /// The buffer does not hold exactly `row_count * column_count` elements.
    LengthMismatch,
}

/// Tells whether `data` holds exactly `row_count * column_count` elements,
/// the condition under which `new_data` and `RefField::new` accept it, and
/// otherwise which part of it fails (overflow is reported first).
pub fn check_data_len<T>(row_count: usize, column_count: usize, data: &[T]) -> (r: Result<
    (),
    ShapeError,
>)
    ensures
        r == (if row_count * column_count > usize::MAX {
            Err::<(), ShapeError>(ShapeError::DimensionOverflow)
        } else if data@.len() != row_count * column_count {
            Err(ShapeError::LengthMismatch)
        } else {
            Ok(())
        }),
{
    match checked_element_count(row_count, column_count) {
        None => Err(ShapeError::DimensionOverflow),
        Some(expected) => {
            if data.len() == expected {
                Ok(())
            } else {
                Err(ShapeError::LengthMismatch)
            }
        },
    }
}

impl<O, T> Field<O, T> where O: Orientation {
    /// Size of the contiguous dimension.
    pub closed spec fn dim0(self) -> nat {
        self.dim0_size as nat
    }

    /// Size of the strided dimension.
    pub closed spec fn dim1(self) -> nat {
        self.dim1_size as nat
    }

    /// The storage, in storage order.
    pub closed spec fn cells(self) -> Seq<T> {
        self.data@
    }

    /// The shape invariant: the dimensions multiply without overflow and
    /// the storage holds exactly one element per cell.
    pub open spec fn wf(self) -> bool {
        &&& self.dim0() * self.dim1() <= usize::MAX
        &&& self.cells().len() == self.dim0() * self.dim1()
    }

    /// Returns the underlying elements in storage order.
    pub fn get_data(&self) -> (r: &Vec<T>)
        ensures
            r@ == self.cells(),
    {
        &self.data
    }

    /// Returns the underlying elements for in-place modification; the shape
    /// cannot change through the returned slice.
    pub fn get_data_mut(&mut self) -> (r: &mut [T])
        ensures
            r@ == old(self).cells(),
            final(self).cells() == final(r)@,
            final(self).dim0() == old(self).dim0(),
            final(self).dim1() == old(self).dim1(),
    {
        self.data.as_mut_slice()
    }

    /// Returns the size of the contiguous dimension.
    pub fn get_dim0_size(&self) -> (r: usize)
        ensures
            r == self.dim0(),
    {
        self.dim0_size
    }

    /// Returns the size of the strided dimension.
    pub fn get_dim1_size(&self) -> (r: usize)
        ensures
            r == self.dim1(),
    {
        self.dim1_size
    }
}

impl<O, T> Default for Field<O, T> where O: Orientation {
    /// An empty zero-by-zero field.
    fn default() -> (r: Self)
        ensures
            r.dim0() == 0,
            r.dim1() == 0,
            r.cells() == Seq::<T>::empty(),
            r.wf(),
    {
        Field { dim0_size: 0, dim1_size: 0, data: Vec::new(), _marker: core::marker::PhantomData }
    }
}

impl<O, T: Clone> Clone for Field<O, T> where O: Orientation {
    /// Clones the storage element by element; the shape is kept.
    fn clone(&self) -> (r: Self)
        ensures
            r.dim0() == self.dim0(),
            r.dim1() == self.dim1(),
            r.cells().len() == self.cells().len(),
            forall|i: int| 0 <= i < self.cells().len() ==> cloned::<T>(self.cells()[i], #[trigger] r.cells()[i]),
    {
        Field {
            dim0_size: self.dim0_size,
            dim1_size: self.dim1_size,
            data: self.data.clone(),
            _marker: core::marker::PhantomData,
        }
    }
}


// ===========================================================================
// ROW-MAJOR (dim0 = columns, dim1 = rows)
// ===========================================================================
impl<T> Field<RowMajor, T> {
    /// Logical number of rows.
    pub open spec fn rows(self) -> nat {
        self.dim1()
    }

    /// Logical number of columns.
    pub open spec fn columns(self) -> nat {
        self.dim0()
    }

    /// Storage index of cell `(row, column)`: `row * column_count + column`.
    pub open spec fn cell_index(self, row: int, column: int) -> int {
        storage_index(self.dim0() as int, column, row)
    }

    /// The element of cell `(row, column)`.
    pub open spec fn cell(self, row: int, column: int) -> T {
        self.cells()[self.cell_index(row, column)]
    }

    /// Every cell of a well-formed row-major field has its own slot in the
    /// storage: the slot lies inside the storage, and two distinct cells
    /// never share one.
    pub proof fn lemma_cells_have_distinct_slots(self, r1: int, c1: int, r2: int, c2: int)
        requires
            self.wf(),
            0 <= r1 < self.rows(),
            0 <= c1 < self.columns(),
            0 <= r2 < self.rows(),
            0 <= c2 < self.columns(),
        ensures
            0 <= self.cell_index(r1, c1) < self.cells().len(),
            self.cell_index(r1, c1) == self.cell_index(r2, c2) <==> (r1 == r2 && c1 == c2),
    {
        lemma_storage_index_bounds(self.dim0() as int, self.dim1() as int, c1, r1);
        if self.cell_index(r1, c1) == self.cell_index(r2, c2) {
            lemma_storage_index_injective(self.dim0() as int, c1, r1, c2, r2);
        }
    }

    /// Every slot of the storage of a well-formed row-major field belongs to
    /// a cell: slot `i` holds cell `(i / column_count, i % column_count)`.
    pub proof fn lemma_every_slot_is_a_cell(self, i: int)
        requires
            self.wf(),
            0 <= i < self.cells().len(),
        ensures
            self.columns() > 0,
            0 <= i / (self.columns() as int) < self.rows(),
            0 <= i % (self.columns() as int) < self.columns(),
            self.cell_index(i / (self.columns() as int), i % (self.columns() as int)) == i,
    {
        lemma_storage_index_surjective(self.dim0() as int, self.dim1() as int, i);
    }

    /// Returns the logical number of rows.
    pub fn row_count(&self) -> (r: usize)
        ensures
            r == self.rows(),
    {
        self.dim1_size
    }

    /// Returns the logical number of columns.
    pub fn column_count(&self) -> (r: usize)
        ensures
            r == self.columns(),
    {
        self.dim0_size
    }

    /// Creates a row-major field of the given shape whose storage is
    /// reserved for `row_count * column_count` elements but still empty.
    pub fn new(row_count: usize, column_count: usize) -> (r: Self)
        requires
            row_count * column_count <= usize::MAX,
        ensures
            r.rows() == row_count,
            r.columns() == column_count,
            r.cells() == Seq::<T>::empty(),
    {
        let size = element_count(row_count, column_count);
        Field {
            dim0_size: column_count,
            dim1_size: row_count,
            data: Vec::with_capacity(size),
            _marker: core::marker::PhantomData,
        }
    }

    /// Creates a row-major field filled with clones of `value`.
    pub fn new_fill(row_count: usize, column_count: usize, value: T) -> (r: Self) where T: Clone
        requires
            row_count * column_count <= usize::MAX,
        ensures
            r.wf(),
            r.rows() == row_count,
            r.columns() == column_count,
            forall|i: int| 0 <= i < r.cells().len() ==> cloned::<T>(value, #[trigger] r.cells()[i]),
    {
        let size = element_count(row_count, column_count);
        proof {
            lemma_mul_is_commutative(row_count as int, column_count as int);
        }
        Field {
            dim0_size: column_count,
            dim1_size: row_count,
            data: vec![value; size],
            _marker: core::marker::PhantomData,
        }
    }

    /// Wraps an existing flat vector in row-major layout.
    pub fn new_data(row_count: usize, column_count: usize, data: Vec<T>) -> (r: Self)
        requires
            row_count * column_count <= usize::MAX,
            data@.len() == row_count * column_count,
        ensures
            r.wf(),
            r.rows() == row_count,
            r.columns() == column_count,
            r.cells() == data@,
    {
        assert_data_len(row_count, column_count, data.as_slice());
        proof {
            lemma_mul_is_commutative(row_count as int, column_count as int);
        }
        Field {
            dim0_size: column_count,
            dim1_size: row_count,
            data,
            _marker: core::marker::PhantomData,
        }
    }

    /// Replaces part of row `row`, starting at `column`, with clones of the
    /// elements of `new_row`; every other cell keeps its element.
    pub fn set_row_cut(&mut self, row: usize, column: usize, new_row: &[T]) where T: Clone
        requires
            old(self).wf(),
            row < old(self).rows(),
            column <= old(self).columns(),
            new_row@.len() <= old(self).columns() - column,
        ensures
            final(self).wf(),
            final(self).rows() == old(self).rows(),
            final(self).columns() == old(self).columns(),
            forall|c: int|
                column <= c < column + new_row@.len() ==> cloned::<T>(
                    new_row@[c - column],
                    #[trigger] final(self).cell(row as int, c),
                ),
            forall|r: int, c: int|
                0 <= r < old(self).rows() && 0 <= c < old(self).columns() && !(r == row && column
                    <= c < column + new_row@.len()) ==> #[trigger] final(self).cell(r, c) == old(
                    self,
                ).cell(r, c),
    {
        let ghost pre = *self;
        let n = new_row.len();
        if n == 0 {
            return;
        }
        let mut k: usize = 0;
        while k < n
            invariant
                pre.wf(),
                row < pre.rows(),
                column + n <= pre.columns(),
                n == new_row@.len(),
                0 <= k <= n,
                self.dim0() == pre.dim0(),
                self.dim1() == pre.dim1(),
                self.cells().len() == pre.cells().len(),
                forall|c: int|
                    column <= c < column + k ==> cloned::<T>(
                        new_row@[c - column],
                        #[trigger] self.cell(row as int, c),
                    ),
                forall|r: int, c: int|
                    0 <= r < pre.rows() && 0 <= c < pre.columns() && !(r == row && column <= c
                        < column + k) ==> #[trigger] self.cell(r, c) == pre.cell(r, c),
            decreases n - k,
        {
            proof {
                lemma_storage_index_bounds(
                    self.dim0() as int,
                    self.dim1() as int,
                    column + k,
                    row as int,
                );
            }
            let index = row * self.dim0_size + column + k;
            let ghost before = *self;
            self.data.set(index, new_row[k].clone());
            proof {
                assert forall|r: int, c: int|
                    0 <= r < pre.rows() && 0 <= c < pre.columns() && !(r == row && column <= c
                        < column + k + 1) implies #[trigger] self.cell(r, c) == pre.cell(r, c) by {
                    lemma_storage_index_bounds(self.dim0() as int, self.dim1() as int, c, r);
                    if self.cell_index(r, c) == index {
                        lemma_storage_index_injective(
                            self.dim0() as int,
                            c,
                            r,
                            column + k,
                            row as int,
                        );
                    }
                    assert(before.cell(r, c) == pre.cell(r, c));
                }
                assert forall|c: int| column <= c < column + k + 1 implies cloned::<T>(
                    new_row@[c - column],
                    #[trigger] self.cell(row as int, c),
                ) by {
                    let j = c - column;
                    if j < k {
                        assert(before.cell(row as int, column + j) == self.cell(row as int, column + j))
                            by {
                            lemma_storage_index_bounds(
                                self.dim0() as int,
                                self.dim1() as int,
                                column + j,
                                row as int,
                            );
                            if self.cell_index(row as int, column + j) == index {
                                lemma_storage_index_injective(
                                    self.dim0() as int,
                                    column + j,
                                    row as int,
                                    column + k,
                                    row as int,
                                );
                            }
                        }
                    }
                }
            }
            k += 1;
        }
    }

    /// The traversal of row `row`: contiguous, one position per column.
    pub fn row_span(&self, row: usize) -> (s: Span)
        requires
            self.wf(),
            row < self.rows(),
        ensures
            s.count == self.columns(),
            s.step == 1,
            s.start == row * self.columns(),
            forall|k: int|
                0 <= k < s.count ==> #[trigger] s.position(k) == self.cell_index(row as int, k) && 0
                    <= s.position(k) < self.cells().len(),
    {
        let start = if self.dim0_size == 0 {
            0
        } else {
            proof {
                lemma_storage_index_bounds(self.dim0() as int, self.dim1() as int, 0, row as int);
            }
            row * self.dim0_size
        };
        let s = Span { start, count: self.dim0_size, step: 1 };
        assert forall|k: int| 0 <= k < s.count implies #[trigger] s.position(k) == self.cell_index(
            row as int,
            k,
        ) && 0 <= s.position(k) < self.cells().len() by {
            lemma_storage_index_bounds(self.dim0() as int, self.dim1() as int, k, row as int);
        }
        s
    }

    /// The traversal of column `column`: one position per row, a row's
    /// length apart; it starts at 0 when there are no rows.
    pub fn column_span(&self, column: usize) -> (s: Span)
        requires
            self.wf(),
            column < self.columns(),
        ensures
            s.count == self.rows(),
            s.step == self.columns(),
            s.start == (if self.rows() == 0 { 0 } else { column as int }),
            forall|k: int|
                0 <= k < s.count ==> #[trigger] s.position(k) == self.cell_index(k, column as int)
                    && 0 <= s.position(k) < self.cells().len(),
    {
        let start = if self.dim1_size == 0 {
            0
        } else {
            column
        };
        let s = Span { start, count: self.dim1_size, step: self.dim0_size };
        assert forall|k: int| 0 <= k < s.count implies #[trigger] s.position(k) == self.cell_index(
            k,
            column as int,
        ) && 0 <= s.position(k) < self.cells().len() by {
            lemma_storage_index_bounds(self.dim0() as int, self.dim1() as int, column as int, k);
            assert(k * self.dim0() == self.dim0() * k) by (nonlinear_arith);
        }
        s
    }
}


// ===========================================================================
// COLUMN-MAJOR (dim0 = rows, dim1 = columns)
// ===========================================================================
impl<T> Field<ColumnMajor, T> {
    /// Logical number of rows.
    pub open spec fn rows(self) -> nat {
        self.dim0()
    }

    /// Logical number of columns.
    pub open spec fn columns(self) -> nat {
        self.dim1()
    }

    /// Storage index of cell `(row, column)`: `column * row_count + row`.
    pub open spec fn cell_index(self, row: int, column: int) -> int {
        storage_index(self.dim0() as int, row, column)
    }

    /// The element of cell `(row, column)`.
    pub open spec fn cell(self, row: int, column: int) -> T {
        self.cells()[self.cell_index(row, column)]
    }

    /// Every cell of a well-formed column-major field has its own slot in
    /// the storage: the slot lies inside the storage, and two distinct cells
    /// never share one.
    pub proof fn lemma_cells_have_distinct_slots(self, r1: int, c1: int, r2: int, c2: int)
        requires
            self.wf(),
            0 <= r1 < self.rows(),
            0 <= c1 < self.columns(),
            0 <= r2 < self.rows(),
            0 <= c2 < self.columns(),
        ensures
            0 <= self.cell_index(r1, c1) < self.cells().len(),
            self.cell_index(r1, c1) == self.cell_index(r2, c2) <==> (r1 == r2 && c1 == c2),
    {
        lemma_storage_index_bounds(self.dim0() as int, self.dim1() as int, r1, c1);
        if self.cell_index(r1, c1) == self.cell_index(r2, c2) {
            lemma_storage_index_injective(self.dim0() as int, r1, c1, r2, c2);
        }
    }

    /// Every slot of the storage of a well-formed column-major field belongs
    /// to a cell: slot `i` holds cell `(i % row_count, i / row_count)`.
    pub proof fn lemma_every_slot_is_a_cell(self, i: int)
        requires
            self.wf(),
            0 <= i < self.cells().len(),
        ensures
            self.rows() > 0,
            0 <= i % (self.rows() as int) < self.rows(),
            0 <= i / (self.rows() as int) < self.columns(),
            self.cell_index(i % (self.rows() as int), i / (self.rows() as int)) == i,
    {
        lemma_storage_index_surjective(self.dim0() as int, self.dim1() as int, i);
    }

    /// Returns the logical number of rows.
    pub fn row_count(&self) -> (r: usize)
        ensures
            r == self.rows(),
    {
        self.dim0_size
    }

    /// Returns the logical number of columns.
    pub fn column_count(&self) -> (r: usize)
        ensures
            r == self.columns(),
    {
        self.dim1_size
    }

    /// Creates a column-major field of the given shape whose storage is
    /// reserved for `row_count * column_count` elements but still empty.
    pub fn new(row_count: usize, column_count: usize) -> (r: Self)
        requires
            row_count * column_count <= usize::MAX,
        ensures
            r.rows() == row_count,
            r.columns() == column_count,
            r.cells() == Seq::<T>::empty(),
    {
        let size = element_count(row_count, column_count);
        Field {
            dim0_size: row_count,
            dim1_size: column_count,
            data: Vec::with_capacity(size),
            _marker: core::marker::PhantomData,
        }
    }

    /// Creates a column-major field filled with clones of `value`.
    pub fn new_fill(row_count: usize, column_count: usize, value: T) -> (r: Self) where T: Clone
        requires
            row_count * column_count <= usize::MAX,
        ensures
            r.wf(),
            r.rows() == row_count,
            r.columns() == column_count,
            forall|i: int| 0 <= i < r.cells().len() ==> cloned::<T>(value, #[trigger] r.cells()[i]),
    {
        let size = element_count(row_count, column_count);
        Field {
            dim0_size: row_count,
            dim1_size: column_count,
            data: vec![value; size],
            _marker: core::marker::PhantomData,
        }
    }

    /// Wraps an existing flat vector in column-major layout.
    pub fn new_data(row_count: usize, column_count: usize, data: Vec<T>) -> (r: Self)
        requires
            row_count * column_count <= usize::MAX,
            data@.len() == row_count * column_count,
        ensures
            r.wf(),
            r.rows() == row_count,
            r.columns() == column_count,
            r.cells() == data@,
    {
        assert_data_len(row_count, column_count, data.as_slice());
        Field {
            dim0_size: row_count,
            dim1_size: column_count,
            data,
            _marker: core::marker::PhantomData,
        }
    }

    /// Replaces part of row `row`, starting at `column`, with clones of the
    /// elements of `new_row`; every other cell keeps its element.
    pub fn set_row_cut(&mut self, row: usize, column: usize, new_row: &[T]) where T: Clone
        requires
            old(self).wf(),
            row < old(self).rows(),
            column <= old(self).columns(),
            new_row@.len() <= old(self).columns() - column,
        ensures
            final(self).wf(),
            final(self).rows() == old(self).rows(),
            final(self).columns() == old(self).columns(),
            forall|c: int|
                column <= c < column + new_row@.len() ==> cloned::<T>(
                    new_row@[c - column],
                    #[trigger] final(self).cell(row as int, c),
                ),
            forall|r: int, c: int|
                0 <= r < old(self).rows() && 0 <= c < old(self).columns() && !(r == row && column
                    <= c < column + new_row@.len()) ==> #[trigger] final(self).cell(r, c) == old(
                    self,
                ).cell(r, c),
    {
        let ghost pre = *self;
        let n = new_row.len();
        if n == 0 {
            return;
        }
        let mut k: usize = 0;
        while k < n
            invariant
                pre.wf(),
                row < pre.rows(),
                column + n <= pre.columns(),
                n == new_row@.len(),
                0 <= k <= n,
                self.dim0() == pre.dim0(),
                self.dim1() == pre.dim1(),
                self.cells().len() == pre.cells().len(),
                forall|c: int|
                    column <= c < column + k ==> cloned::<T>(
                        new_row@[c - column],
                        #[trigger] self.cell(row as int, c),
                    ),
                forall|r: int, c: int|
                    0 <= r < pre.rows() && 0 <= c < pre.columns() && !(r == row && column <= c
                        < column + k) ==> #[trigger] self.cell(r, c) == pre.cell(r, c),
            decreases n - k,
        {
            proof {
                lemma_storage_index_bounds(
                    self.dim0() as int,
                    self.dim1() as int,
                    row as int,
                    column + k,
                );
            }
            let index = row + (column + k) * self.dim0_size;
            let ghost before = *self;
            self.data.set(index, new_row[k].clone());
            proof {
                assert forall|r: int, c: int|
                    0 <= r < pre.rows() && 0 <= c < pre.columns() && !(r == row && column <= c
                        < column + k + 1) implies #[trigger] self.cell(r, c) == pre.cell(r, c) by {
                    lemma_storage_index_bounds(self.dim0() as int, self.dim1() as int, r, c);
                    if self.cell_index(r, c) == index {
                        lemma_storage_index_injective(
                            self.dim0() as int,
                            r,
                            c,
                            row as int,
                            column + k,
                        );
                    }
                    assert(before.cell(r, c) == pre.cell(r, c));
                }
                assert forall|c: int| column <= c < column + k + 1 implies cloned::<T>(
                    new_row@[c - column],
                    #[trigger] self.cell(row as int, c),
                ) by {
                    let j = c - column;
                    if j < k {
                        assert(before.cell(row as int, column + j) == self.cell(row as int, column + j))
                            by {
                            lemma_storage_index_bounds(
                                self.dim0() as int,
                                self.dim1() as int,
                                row as int,
                                column + j,
                            );
                            if self.cell_index(row as int, column + j) == index {
                                lemma_storage_index_injective(
                                    self.dim0() as int,
                                    row as int,
                                    column + j,
                                    row as int,
                                    column + k,
                                );
                            }
                        }
                    }
                }
            }
            k += 1;
        }
    }

    /// The traversal of row `row`: one position per column, a column's
    /// length apart; it starts at 0 when there are no columns.
    pub fn row_span(&self, row: usize) -> (s: Span)
        requires
            self.wf(),
            row < self.rows(),
        ensures
            s.count == self.columns(),
            s.step == self.rows(),
            s.start == (if self.columns() == 0 { 0 } else { row as int }),
            forall|k: int|
                0 <= k < s.count ==> #[trigger] s.position(k) == self.cell_index(row as int, k)
                    && 0 <= s.position(k) < self.cells().len(),
    {
        let start = if self.dim1_size == 0 {
            0
        } else {
            row
        };
        let s = Span { start, count: self.dim1_size, step: self.dim0_size };
        assert forall|k: int| 0 <= k < s.count implies #[trigger] s.position(k) == self.cell_index(
            row as int,
            k,
        ) && 0 <= s.position(k) < self.cells().len() by {
            lemma_storage_index_bounds(self.dim0() as int, self.dim1() as int, row as int, k);
            assert(k * self.dim0() == self.dim0() * k) by (nonlinear_arith);
        }
        s
    }

    /// The traversal of column `column`: contiguous, one position per row.
    pub fn column_span(&self, column: usize) -> (s: Span)
        requires
            self.wf(),
            column < self.columns(),
        ensures
            s.count == self.rows(),
            s.step == 1,
            s.start == column * self.rows(),
            forall|k: int|
                0 <= k < s.count ==> #[trigger] s.position(k) == self.cell_index(k, column as int)
                    && 0 <= s.position(k) < self.cells().len(),
    {
        let start = if self.dim0_size == 0 {
            0
        } else {
            proof {
                lemma_storage_index_bounds(self.dim0() as int, self.dim1() as int, 0, column as int);
            }
            column * self.dim0_size
        };
        let s = Span { start, count: self.dim0_size, step: 1 };
        assert forall|k: int| 0 <= k < s.count implies #[trigger] s.position(k) == self.cell_index(
            k,
            column as int,
        ) && 0 <= s.position(k) < self.cells().len() by {
            lemma_storage_index_bounds(self.dim0() as int, self.dim1() as int, k, column as int);
        }
        s
    }
}

} // verus!
