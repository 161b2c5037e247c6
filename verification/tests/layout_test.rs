use simplefield::field::{
    assert_data_len, check_data_len, checked_element_count, element_count, Field, ShapeError,
};
use simplefield::layout::Span;
use simplefield::orientation::{ColumnMajor, Orientation, OrientationEnum, RowMajor};
use simplefield::reffield::RefField;

#[test]
fn element_count_multiplies_the_dimensions() {
    assert_eq!(element_count(3, 4), 12);
    assert_eq!(element_count(0, usize::MAX), 0);
    assert_eq!(element_count(usize::MAX, 1), usize::MAX);
}

#[test]
fn checked_element_count_reports_overflow() {
    assert_eq!(checked_element_count(3, 4), Some(12));
    assert_eq!(checked_element_count(0, usize::MAX), Some(0));
    assert_eq!(checked_element_count(usize::MAX, 2), None);
}

#[test]
fn assert_data_len_accepts_matching_buffers() {
    assert_data_len(2, 3, &[1, 2, 3, 4, 5, 6]);
    assert_data_len::<u8>(0, 5, &[]);
}

#[test]
fn data_length_check_names_the_failing_condition() {
    assert_eq!(check_data_len(2, 3, &[1, 2, 3, 4, 5, 6]), Ok(()));
    assert_eq!(check_data_len(2, 3, &[1, 2, 3]), Err(ShapeError::LengthMismatch));
    assert_eq!(check_data_len(2, 2, &[1, 2, 3]), Err(ShapeError::LengthMismatch));
    assert_eq!(
        check_data_len::<u8>(usize::MAX, 2, &[]),
        Err(ShapeError::DimensionOverflow)
    );
    assert_eq!(check_data_len::<u8>(0, 5, &[]), Ok(()));
}

#[test]
fn row_major_spans() {
    let field = Field::<RowMajor, i32>::new_fill(3, 4, 0);
    assert_eq!(field.row_span(2), Span { start: 8, count: 4, step: 1 });
    assert_eq!(field.column_span(1), Span { start: 1, count: 3, step: 4 });
}

#[test]
fn column_major_spans() {
    let field = Field::<ColumnMajor, i32>::new_fill(3, 4, 0);
    assert_eq!(field.row_span(2), Span { start: 2, count: 4, step: 3 });
    assert_eq!(field.column_span(3), Span { start: 9, count: 3, step: 1 });
}

fn visits(spans: &[Span], len: usize) -> Vec<usize> {
    let mut seen = vec![0; len];
    for span in spans {
        for k in 0..span.count {
            seen[span.start + k * span.step] += 1;
        }
    }
    seen
}

#[test]
fn spans_cover_every_slot_once() {
    let row = Field::<RowMajor, i32>::new_fill(3, 4, 0);
    let rows: Vec<Span> = (0..3).map(|r| row.row_span(r)).collect();
    let columns: Vec<Span> = (0..4).map(|c| row.column_span(c)).collect();
    assert_eq!(visits(&rows, 12), vec![1; 12]);
    assert_eq!(visits(&columns, 12), vec![1; 12]);

    let column = Field::<ColumnMajor, i32>::new_fill(3, 4, 0);
    let rows: Vec<Span> = (0..3).map(|r| column.row_span(r)).collect();
    let columns: Vec<Span> = (0..4).map(|c| column.column_span(c)).collect();
    assert_eq!(visits(&rows, 12), vec![1; 12]);
    assert_eq!(visits(&columns, 12), vec![1; 12]);
}

#[test]
fn row_cut_writes_only_the_given_cells() {
    let mut row = Field::<RowMajor, i32>::new_fill(2, 3, 0);
    row.set_row_cut(1, 0, &[1, 2, 3]);
    assert_eq!(row.get_data(), &[0, 0, 0, 1, 2, 3]);
    row.set_row_cut(0, 1, &[7]);
    assert_eq!(row.get_data(), &[0, 7, 0, 1, 2, 3]);

    let mut column = Field::<ColumnMajor, i32>::new_fill(2, 3, 0);
    column.set_row_cut(1, 0, &[1, 2, 3]);
    assert_eq!(column.get_data(), &[0, 1, 0, 2, 0, 3]);
}

#[test]
fn empty_row_cut_changes_nothing() {
    let mut field = Field::<RowMajor, i32>::new_data(2, 2, vec![1, 2, 3, 4]);
    field.set_row_cut(1, 2, &[]);
    assert_eq!(field.get_data(), &[1, 2, 3, 4]);

    let mut field = Field::<ColumnMajor, i32>::new_data(2, 2, vec![1, 2, 3, 4]);
    field.set_row_cut(0, 0, &[]);
    assert_eq!(field.get_data(), &[1, 2, 3, 4]);
}

#[test]
fn row_cut_then_row_span_reads_back_the_row() {
    let mut field = Field::<ColumnMajor, i32>::new_fill(3, 2, 0);
    field.set_row_cut(2, 0, &[5, 6]);
    let span = field.row_span(2);
    let data = field.get_data();
    let read: Vec<i32> = (0..span.count).map(|k| data[span.start + k * span.step]).collect();
    assert_eq!(read, vec![5, 6]);
}

#[test]
fn new_data_keeps_the_buffer_and_shape() {
    let field = Field::<RowMajor, i32>::new_data(2, 3, vec![1, 2, 3, 4, 5, 6]);
    assert_eq!(field.get_dim0_size(), 3);
    assert_eq!(field.get_dim1_size(), 2);
    assert_eq!(field.get_data(), &[1, 2, 3, 4, 5, 6]);

    let field = Field::<ColumnMajor, i32>::new_data(2, 3, vec![1, 2, 3, 4, 5, 6]);
    assert_eq!(field.get_dim0_size(), 2);
    assert_eq!(field.get_dim1_size(), 3);
}

#[test]
fn new_reserves_but_does_not_fill() {
    let field = Field::<RowMajor, i32>::new(2, 5);
    assert_eq!((field.row_count(), field.column_count()), (2, 5));
    assert!(field.get_data().is_empty());
    assert!(field.get_data().capacity() >= 10);
}

#[test]
fn data_mut_writes_are_seen_by_the_field() {
    let mut field = Field::<RowMajor, i32>::new_fill(2, 2, 0);
    field.get_data_mut()[3] = 9;
    assert_eq!(field.get_data(), &[0, 0, 0, 9]);
    assert_eq!((field.row_count(), field.column_count()), (2, 2));
}

#[test]
fn clone_keeps_shape_and_elements() {
    let field = Field::<ColumnMajor, i32>::new_data(2, 1, vec![4, 5]);
    let copy = field.clone();
    assert_eq!((copy.row_count(), copy.column_count()), (2, 1));
    assert_eq!(copy.get_data(), &[4, 5]);

    let data = [1, 2];
    let view = RefField::<RowMajor, i32>::new(1, 2, &data);
    let other = view.clone();
    assert_eq!((other.get_row_count(), other.get_column_count()), (1, 2));
    assert_eq!(other.get_data(), &[1, 2]);
}

#[test]
fn default_has_zero_dimensions() {
    let field = Field::<ColumnMajor, i32>::default();
    assert_eq!((field.get_dim0_size(), field.get_dim1_size()), (0, 0));
}

#[test]
fn orientation_markers_name_their_layout() {
    assert_eq!(RowMajor::ORIENTATION, OrientationEnum::RowMajor);
    assert_eq!(ColumnMajor::ORIENTATION, OrientationEnum::ColumnMajor);
}
