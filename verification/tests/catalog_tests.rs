use simple_tetris::catalog::{extra_shapes, standard_shapes};

#[test]
fn standard_catalog_holds_the_seven_pieces() {
    let shapes = standard_shapes();
    assert_eq!(shapes.len(), 7);
    for symbol in "IQZSTLJ".bytes() {
        assert!(shapes.contains_key(&symbol));
    }
    assert!(!shapes.contains_key(&b'a'));
}

#[test]
fn standard_pieces_have_their_columns() {
    let shapes = standard_shapes();
    assert_eq!(*shapes[&b'I'].blocks(), vec![vec![1u8], vec![1], vec![1], vec![1]]);
    assert_eq!(shapes[&b'I'].height(), 1);
    assert_eq!(*shapes[&b'Q'].blocks(), vec![vec![1u8, 2], vec![1, 2]]);
    assert_eq!(shapes[&b'Q'].height(), 2);
    assert_eq!(*shapes[&b'Z'].blocks(), vec![vec![2u8], vec![1, 2], vec![1]]);
    assert_eq!(shapes[&b'Z'].height(), 2);
    assert_eq!(*shapes[&b'S'].blocks(), vec![vec![1u8], vec![1, 2], vec![2]]);
    assert_eq!(shapes[&b'S'].height(), 2);
    assert_eq!(*shapes[&b'T'].blocks(), vec![vec![2u8], vec![1, 2], vec![2]]);
    assert_eq!(shapes[&b'T'].height(), 2);
    assert_eq!(*shapes[&b'L'].blocks(), vec![vec![1u8, 2, 3], vec![1]]);
    assert_eq!(shapes[&b'L'].height(), 3);
    assert_eq!(*shapes[&b'J'].blocks(), vec![vec![1u8], vec![1, 2, 3]]);
    assert_eq!(shapes[&b'J'].height(), 3);
}

#[test]
fn extended_catalog_holds_fifteen_pieces() {
    let shapes = extra_shapes();
    assert_eq!(shapes.len(), 15);
    for symbol in "IQZSTLJasdfqwer".bytes() {
        assert!(shapes.contains_key(&symbol));
    }
}

#[test]
fn additional_pieces_have_their_columns() {
    let shapes = extra_shapes();
    assert_eq!(*shapes[&b'a'].blocks(), vec![vec![1u8]]);
    assert_eq!(*shapes[&b's'].blocks(), vec![vec![1u8, 2], vec![2]]);
    assert_eq!(*shapes[&b'd'].blocks(), vec![vec![2u8], vec![1, 2]]);
    assert_eq!(*shapes[&b'f'].blocks(), vec![vec![1u8, 2, 3, 4, 5, 6]]);
    assert_eq!(shapes[&b'f'].height(), 6);
    assert_eq!(
        *shapes[&b'q'].blocks(),
        vec![vec![1u8], vec![1], vec![], vec![1], vec![1]]
    );
    assert_eq!(
        *shapes[&b'w'].blocks(),
        vec![vec![1u8], vec![1], vec![], vec![2], vec![2]]
    );
    assert_eq!(
        *shapes[&b'e'].blocks(),
        vec![vec![2u8], vec![2], vec![], vec![1], vec![1]]
    );
    assert_eq!(*shapes[&b'r'].blocks(), vec![vec![1u8], vec![1], vec![1]]);
    assert_eq!(*shapes[&b'Q'].blocks(), vec![vec![1u8, 2], vec![1, 2]]);
}
