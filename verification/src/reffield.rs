//! Borrowed two-dimensional views.

use vstd::prelude::*;

use crate::field::assert_data_len;
use crate::orientation::Orientation;

verus! {

/// A borrowed two-dimensional view with compile-time layout orientation.
///
/// The viewed slice holds exactly `row_count * column_count` elements.
#[derive(Debug, Hash)]
pub struct RefField<'a, O, T> where O: Orientation {
    row_count: usize,
    column_count: usize,
    data: &'a [T],
    _marker: core::marker::PhantomData<O>,
}

impl<'a, O, T> RefField<'a, O, T> where O: Orientation {
    /// Logical number of rows.
    pub closed spec fn rows(self) -> nat {
        self.row_count as nat
    }

    /// Logical number of columns.
    pub closed spec fn columns(self) -> nat {
        self.column_count as nat
    }

    /// The viewed elements, in storage order.
    pub closed spec fn cells(self) -> Seq<T> {
        self.data@
    }

    /// The shape invariant: the dimensions multiply without overflow and
    /// the view holds exactly one element per cell.
    pub open spec fn wf(self) -> bool {
        &&& self.rows() * self.columns() <= usize::MAX
        &&& self.cells().len() == self.rows() * self.columns()
    }

    /// Creates a borrowed field view over `data`.
    pub fn new(row_count: usize, column_count: usize, data: &'a [T]) -> (r: Self)
        requires
            row_count * column_count <= usize::MAX,
            data@.len() == row_count * column_count,
        ensures
            r.wf(),
            r.rows() == row_count,
            r.columns() == column_count,
            r.cells() == data@,
    {
        assert_data_len(row_count, column_count, data);
        RefField { row_count, column_count, data, _marker: core::marker::PhantomData }
    }

    /// Returns the logical number of rows.
    pub fn get_row_count(&self) -> (r: usize)
        ensures
            r == self.rows(),
    {
        self.row_count
    }

    /// Returns the logical number of columns.
    pub fn get_column_count(&self) -> (r: usize)
        ensures
            r == self.columns(),
    {
        self.column_count
    }

    /// Returns the viewed elements in storage order.
    pub fn get_data(&self) -> (r: &'a [T])
        ensures
            r@ == self.cells(),
    {
        self.data
    }
}

impl<'a, O, T> Clone for RefField<'a, O, T> where O: Orientation {
    /// Another view of the same shape over the same slice.
    fn clone(&self) -> (r: Self)
        ensures
            r.rows() == self.rows(),
            r.columns() == self.columns(),
            r.cells() == self.cells(),
    {
        RefField {
            row_count: self.row_count,
            column_count: self.column_count,
            data: self.data,
            _marker: core::marker::PhantomData,
        }
    }
}

} // verus!
