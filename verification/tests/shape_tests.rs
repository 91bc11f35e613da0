use simple_tetris::shape::{Shape, ShapeError};

#[test]
fn basic_shape_functionality() {
    let x = true;
    let o = false;
    let shape = Shape::new(&vec![
        vec![o, x, o, x],
        vec![x, o, o, x],
        vec![o, x, o, x],
    ])
    .unwrap();
    assert_eq!(*shape.blocks(), vec![vec![2 as u8], vec![1, 3], vec![], vec![1, 2, 3]]);
    assert_eq!(shape.width(), 4);
    assert_eq!(shape.height(), 3);
}

#[test]
fn single_cell_shape() {
    let shape = Shape::new(&vec![vec![true]]).unwrap();
    assert_eq!(*shape.blocks(), vec![vec![1u8]]);
    assert_eq!(shape.width(), 1);
    assert_eq!(shape.height(), 1);
}

#[test]
fn offsets_count_from_the_bottom_row() {
    let x = true;
    let o = false;
    let shape = Shape::new(&vec![vec![x, o], vec![o, o], vec![o, x]]).unwrap();
    assert_eq!(*shape.blocks(), vec![vec![3u8], vec![1]]);
    assert_eq!(shape.height(), 3);
}

#[test]
fn blank_bitmap_gives_empty_columns() {
    let shape = Shape::new(&vec![vec![false, false], vec![false, false]]).unwrap();
    assert_eq!(*shape.blocks(), vec![Vec::<u8>::new(), Vec::<u8>::new()]);
    assert_eq!(shape.width(), 2);
    assert_eq!(shape.height(), 2);
}

#[test]
fn bitmap_without_rows_is_zero_sized() {
    assert_eq!(Shape::new(&Vec::new()).unwrap_err(), ShapeError::ZeroSized);
}

#[test]
fn bitmap_without_cells_is_zero_sized() {
    assert_eq!(Shape::new(&vec![vec![], vec![]]).unwrap_err(), ShapeError::ZeroSized);
    assert_eq!(Shape::new(&vec![vec![], vec![true]]).unwrap_err(), ShapeError::ZeroSized);
}

#[test]
fn ragged_bitmap_is_not_rectangular() {
    let bitmap = vec![vec![true, false], vec![true], vec![true, true]];
    assert_eq!(Shape::new(&bitmap).unwrap_err(), ShapeError::NotRectangular);
    let bitmap = vec![vec![true], vec![true, false]];
    assert_eq!(Shape::new(&bitmap).unwrap_err(), ShapeError::NotRectangular);
}

#[test]
fn bitmap_of_256_rows_is_too_large() {
    let bitmap = vec![vec![true]; 256];
    assert_eq!(Shape::new(&bitmap).unwrap_err(), ShapeError::TooLarge);
}

#[test]
fn bitmap_of_256_columns_is_too_large() {
    let bitmap = vec![vec![true; 256]];
    assert_eq!(Shape::new(&bitmap).unwrap_err(), ShapeError::TooLarge);
}

#[test]
fn bitmap_of_255_rows_is_accepted() {
    let bitmap = vec![vec![true]; 255];
    let shape = Shape::new(&bitmap).unwrap();
    assert_eq!(shape.height(), 255);
    assert_eq!(shape.width(), 1);
    let expected: Vec<u8> = (1..=255).collect();
    assert_eq!(*shape.blocks(), vec![expected]);
}

#[test]
fn shape_columns_are_strictly_increasing_and_inside_the_box() {
    let x = true;
    let o = false;
    let shape = Shape::new(&vec![
        vec![x, o, x],
        vec![o, o, x],
        vec![x, x, o],
        vec![x, o, x],
    ])
    .unwrap();
    for column in shape.blocks() {
        for pair in column.windows(2) {
            assert!(pair[0] < pair[1]);
        }
        for offset in column {
            assert!(1 <= *offset && *offset <= shape.height());
        }
    }
    assert_eq!(*shape.blocks(), vec![vec![1u8, 2, 4], vec![2], vec![1, 3, 4]]);
}
