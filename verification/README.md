# simplefield

Two-dimensional contiguous storage with a statically selected row-major or
column-major layout, verified with Verus.

- `src/orientation.rs`: the `RowMajor` / `ColumnMajor` layout markers.
- `src/layout.rs`: storage-index arithmetic (`i1 * dim0 + i0`), the `Span`
  description of a strided traversal, and the lemmas that the layout is a
  bijection between cells and storage slots.
- `src/field.rs`: the owned `Field`, its constructors, `set_row_cut`, and the
  row/column traversals (`row_span`, `column_span`), each with a contract over
  the cell model `cell(row, column)`.
- `src/reffield.rs`: the borrowed `RefField` view.
- `app/lib.rs`: turns a `Span` into a `lineariterator` mutable iterator
  (raw pointers, so outside the verified library).

Constructors and operations state their shape conditions as preconditions;
`checked_element_count` and `check_data_len` tell a caller beforehand whether
those conditions hold.
