use buffer_view::storable::{Matrix, Scalar, Storable};

fn bits(values: &[f32]) -> Vec<Scalar> {
    values.iter().map(|v| v.to_bits()).collect()
}

fn numbers(cells: &[Scalar]) -> Vec<f32> {
    cells.iter().map(|c| f32::from_bits(*c)).collect()
}

#[test]
fn scalars_flatten_to_themselves() {
    let buffer = bits(&[1.5, -2.0, 0.0, 3.25]);
    let items = <Scalar as Storable>::slice_to_items(&buffer);
    assert_eq!(items, &buffer[..]);
    assert_eq!(numbers(items), vec![1.5, -2.0, 0.0, 3.25]);
}

#[test]
fn scalars_flatten_in_place() {
    let buffer = bits(&[1.0, 2.0]);
    let items = <Scalar as Storable>::slice_to_items(&buffer);
    assert!(std::ptr::eq(&items[0], &buffer[0]));
    assert!(std::ptr::eq(&items[1], &buffer[1]));
}

#[test]
fn empty_scalar_buffer_flattens_to_nothing() {
    let buffer: Vec<Scalar> = Vec::new();
    assert_eq!(<Scalar as Storable>::slice_to_items(&buffer).len(), 0);
}

#[test]
fn matrices_flatten_to_count_times_rows_times_columns() {
    let buffer: Vec<Matrix<2, 3>> = vec![[[0; 3]; 2]; 5];
    assert_eq!(<Matrix<2, 3> as Storable>::slice_to_items(&buffer).len(), 30);
    let vectors: Vec<Matrix<3, 1>> = vec![[[0]; 3]; 2];
    assert_eq!(<Matrix<3, 1> as Storable>::slice_to_items(&vectors).len(), 6);
}

#[test]
fn matrices_flatten_row_after_row() {
    let buffer: Vec<Matrix<2, 3>> = vec![
        [[10, 11, 12], [13, 14, 15]],
        [[20, 21, 22], [23, 24, 25]],
        [[30, 31, 32], [33, 34, 35]],
    ];
    let items = <Matrix<2, 3> as Storable>::slice_to_items(&buffer);
    assert_eq!(
        items,
        &[10, 11, 12, 13, 14, 15, 20, 21, 22, 23, 24, 25, 30, 31, 32, 33, 34, 35][..]
    );
    for i in 0..3 {
        for r in 0..2 {
            for c in 0..3 {
                assert_eq!(items[i * 2 * 3 + r * 3 + c], buffer[i][r][c]);
            }
        }
    }
}

#[test]
fn matrices_flatten_in_place() {
    let buffer: Vec<Matrix<2, 2>> = vec![[[1, 2], [3, 4]], [[5, 6], [7, 8]]];
    let items = <Matrix<2, 2> as Storable>::slice_to_items(&buffer);
    assert!(std::ptr::eq(&items[0], &buffer[0][0][0]));
    assert!(std::ptr::eq(&items[3], &buffer[0][1][1]));
    assert!(std::ptr::eq(&items[6], &buffer[1][1][0]));
}

#[test]
fn flattening_leaves_the_buffer_as_it_was() {
    let buffer: Vec<Matrix<2, 2>> = vec![[[1, 2], [3, 4]], [[5, 6], [7, 8]]];
    let before = buffer.clone();
    let first = <Matrix<2, 2> as Storable>::slice_to_items(&buffer).to_vec();
    let second = <Matrix<2, 2> as Storable>::slice_to_items(&buffer).to_vec();
    assert_eq!(buffer, before);
    assert_eq!(first, second);
}

#[test]
fn identity_matrix_flattens_to_its_four_scalars() {
    let one = 1.0f32.to_bits();
    let zero = 0.0f32.to_bits();
    let buffer: [Matrix<2, 2>; 1] = [[[one, zero], [zero, one]]];
    let items = <Matrix<2, 2> as Storable>::slice_to_items(&buffer);
    assert_eq!(numbers(items), vec![1.0, 0.0, 0.0, 1.0]);
}

#[test]
fn empty_matrix_buffer_flattens_to_nothing() {
    let buffer: Vec<Matrix<4, 4>> = Vec::new();
    let items = <Matrix<4, 4> as Storable>::slice_to_items(&buffer);
    assert_eq!(items.len(), 0);
    assert!(items.is_empty());
}

#[test]
fn matrices_without_columns_flatten_to_nothing() {
    let buffer: Vec<Matrix<3, 0>> = vec![[[]; 3]; 7];
    assert_eq!(<Matrix<3, 0> as Storable>::slice_to_items(&buffer).len(), 0);
    let many: Vec<Matrix<3, 0>> = vec![[[]; 3]; usize::MAX];
    assert_eq!(<Matrix<3, 0> as Storable>::slice_to_items(&many).len(), 0);
}

#[test]
fn matrices_without_rows_flatten_to_nothing() {
    let buffer: Vec<Matrix<0, 3>> = vec![[]; 7];
    assert_eq!(<Matrix<0, 3> as Storable>::slice_to_items(&buffer).len(), 0);
    let many: Vec<Matrix<0, 3>> = vec![[]; usize::MAX];
    assert_eq!(<Matrix<0, 3> as Storable>::slice_to_items(&many).len(), 0);
}

#[test]
fn special_bit_patterns_pass_unchanged() {
    let nan = f32::NAN.to_bits() | 1;
    let buffer: Vec<Matrix<1, 3>> = vec![[[nan, f32::INFINITY.to_bits(), (-0.0f32).to_bits()]]];
    let items = <Matrix<1, 3> as Storable>::slice_to_items(&buffer);
    assert_eq!(items, &[nan, 0x7f80_0000, 0x8000_0000][..]);
}

#[test]
fn scalars_rebuild_to_themselves() {
    let items = bits(&[1.0, 2.0, 3.0]);
    assert_eq!(<Scalar as Storable>::slice_from_items(&items), Some(&items[..]));
}

#[test]
fn run_of_whole_matrices_rebuilds_row_after_row() {
    let items: Vec<Scalar> = (100..118).collect();
    let buffer = <Matrix<2, 3> as Storable>::slice_from_items(&items).unwrap();
    assert_eq!(buffer.len(), 3);
    assert_eq!(buffer[0], [[100, 101, 102], [103, 104, 105]]);
    assert_eq!(buffer[1], [[106, 107, 108], [109, 110, 111]]);
    assert_eq!(buffer[2], [[112, 113, 114], [115, 116, 117]]);
    assert!(std::ptr::eq(&buffer[1][0][0], &items[6]));
}

#[test]
fn run_with_a_broken_matrix_does_not_rebuild() {
    let items: Vec<Scalar> = (0..15).collect();
    assert_eq!(<Matrix<2, 3> as Storable>::slice_from_items(&items), None);
    assert_eq!(<Matrix<2, 3> as Storable>::slice_from_items(&items[..14]), None);
    assert_eq!(<Matrix<2, 3> as Storable>::slice_from_items(&items[..13]), None);
    assert_eq!(<Matrix<2, 3> as Storable>::slice_from_items(&items[..1]), None);
    assert!(<Matrix<2, 3> as Storable>::slice_from_items(&items[..12]).is_some());
    assert!(<Matrix<3, 5> as Storable>::slice_from_items(&items).is_some());
}

#[test]
fn empty_run_rebuilds_to_an_empty_buffer() {
    let items: Vec<Scalar> = Vec::new();
    let buffer = <Matrix<4, 4> as Storable>::slice_from_items(&items).unwrap();
    assert_eq!(buffer.len(), 0);
}

#[test]
fn matrices_without_cells_do_not_rebuild() {
    let items: Vec<Scalar> = Vec::new();
    assert_eq!(<Matrix<0, 3> as Storable>::slice_from_items(&items), None);
    assert_eq!(<Matrix<3, 0> as Storable>::slice_from_items(&items), None);
    let some: Vec<Scalar> = vec![1, 2, 3];
    assert_eq!(<Matrix<0, 3> as Storable>::slice_from_items(&some), None);
    assert_eq!(<Matrix<3, 0> as Storable>::slice_from_items(&some), None);
}

#[test]
fn flat_run_rebuilds_to_the_buffer_it_came_from() {
    let values = [0.5f32, -1.25, 3.0e8, 1.0e-8, 7.0, -0.0, 2.5, 9.75];
    let buffer: Vec<Matrix<2, 2>> = vec![
        [[values[0].to_bits(), values[1].to_bits()], [values[2].to_bits(), values[3].to_bits()]],
        [[values[4].to_bits(), values[5].to_bits()], [values[6].to_bits(), values[7].to_bits()]],
    ];
    let items = <Matrix<2, 2> as Storable>::slice_to_items(&buffer);
    let back = <Matrix<2, 2> as Storable>::slice_from_items(items).unwrap();
    assert_eq!(back, &buffer[..]);
    for i in 0..2 {
        for r in 0..2 {
            for c in 0..2 {
                let read = f32::from_bits(back[i][r][c]);
                assert_eq!(read.to_bits(), values[i * 4 + r * 2 + c].to_bits());
            }
        }
    }
}

#[test]
fn rebuilt_buffer_flattens_to_the_run_it_came_from() {
    let items: Vec<Scalar> = (0..24).map(|k| k * 7 + 1).collect();
    let buffer = <Matrix<4, 3> as Storable>::slice_from_items(&items).unwrap();
    assert_eq!(<Matrix<4, 3> as Storable>::slice_to_items(buffer), &items[..]);
}
