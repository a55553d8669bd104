use knights_tour::notation::{BoardNotation, LETTERS};

#[test]
fn letters_run_from_a_to_h() {
    assert_eq!(LETTERS, ['A', 'B', 'C', 'D', 'E', 'F', 'G', 'H']);
}

#[test]
fn squares_get_their_names() {
    assert_eq!(BoardNotation::from((0, 0)), BoardNotation { letter: 'A', digit: 1 });
    assert_eq!(BoardNotation::from((0, 7)), BoardNotation { letter: 'A', digit: 8 });
    assert_eq!(BoardNotation::from((7, 0)), BoardNotation { letter: 'H', digit: 1 });
    assert_eq!(BoardNotation::from((2, 3)), BoardNotation { letter: 'C', digit: 4 });
}

#[test]
fn squares_past_the_board_are_named_by_the_edge() {
    assert_eq!(BoardNotation::from((8, 8)), BoardNotation { letter: 'H', digit: 8 });
    assert_eq!(BoardNotation::from((100, 3)), BoardNotation { letter: 'H', digit: 4 });
    assert_eq!(BoardNotation::from((3, 100)), BoardNotation { letter: 'D', digit: 8 });
    assert_eq!(
        BoardNotation::from((usize::MAX, usize::MAX)),
        BoardNotation { letter: 'H', digit: 8 }
    );
}

#[test]
fn names_are_read_back() {
    assert_eq!(<(usize, usize)>::from(BoardNotation { letter: 'A', digit: 1 }), (0, 0));
    assert_eq!(<(usize, usize)>::from(BoardNotation { letter: 'A', digit: 8 }), (0, 7));
    assert_eq!(<(usize, usize)>::from(BoardNotation { letter: 'H', digit: 1 }), (7, 0));
    assert_eq!(<(usize, usize)>::from(BoardNotation { letter: 'C', digit: 4 }), (2, 3));
}

#[test]
fn lower_case_letters_name_the_same_columns() {
    assert_eq!(<(usize, usize)>::from(BoardNotation { letter: 'a', digit: 2 }), (0, 1));
    assert_eq!(<(usize, usize)>::from(BoardNotation { letter: 'c', digit: 4 }), (2, 3));
    assert_eq!(<(usize, usize)>::from(BoardNotation { letter: 'h', digit: 8 }), (7, 7));
}

#[test]
fn names_past_the_board_are_read_as_the_edge() {
    assert_eq!(<(usize, usize)>::from(BoardNotation { letter: 'Z', digit: 9 }), (7, 7));
    assert_eq!(<(usize, usize)>::from(BoardNotation { letter: 'I', digit: 3 }), (7, 2));
    assert_eq!(<(usize, usize)>::from(BoardNotation { letter: 'i', digit: 3 }), (7, 2));
    assert_eq!(<(usize, usize)>::from(BoardNotation { letter: '@', digit: 3 }), (7, 2));
    assert_eq!(<(usize, usize)>::from(BoardNotation { letter: '3', digit: 3 }), (7, 2));
    assert_eq!(<(usize, usize)>::from(BoardNotation { letter: 'é', digit: 3 }), (7, 2));
    assert_eq!(<(usize, usize)>::from(BoardNotation { letter: 'B', digit: 0 }), (1, 0));
    assert_eq!(<(usize, usize)>::from(BoardNotation { letter: 'B', digit: usize::MAX }), (1, 7));
}

#[test]
fn naming_and_reading_back_gives_the_square() {
    for row in 0..8usize {
        for col in 0..8usize {
            let notation = BoardNotation::from((col, row));
            assert_eq!(<(usize, usize)>::from(notation), (col, row));
        }
    }
}

#[test]
fn into_goes_through_the_same_conversions() {
    let notation: BoardNotation = (4usize, 1usize).into();
    assert_eq!(notation, BoardNotation { letter: 'E', digit: 2 });
    let square: (usize, usize) = notation.into();
    assert_eq!(square, (4, 1));
}

#[test]
fn names_are_rendered_as_letter_and_digit() {
    assert_eq!(BoardNotation::from((0, 7)).render(), "A8");
    assert_eq!(BoardNotation::from((7, 0)).render(), "H1");
    assert_eq!(BoardNotation { letter: 'c', digit: 4 }.render(), "c4");
    assert_eq!(BoardNotation { letter: 'B', digit: 0 }.render(), "B0");
    assert_eq!(BoardNotation { letter: 'B', digit: 12 }.render(), "B12");
    assert_eq!(BoardNotation { letter: 'G', digit: 1905 }.render(), "G1905");
}
