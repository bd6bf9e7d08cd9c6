use freecell_engine::flat_transpose::FlatTransposed;

#[test]
pub fn flat_transpose_iterates_until_all_columns_exhausted() {
    let input = [
        vec!['Y', ' ', 'e'],
        vec!['o', 's', ' ', 't', '!'],
        vec!['u', 'e', 'i', '!'],
    ];

    let expected_output = [
        vec![Some('Y'), Some('o'), Some('u')],
        vec![Some(' '), Some('s'), Some('e')],
        vec![Some('e'), Some(' '), Some('i')],
        vec![None, Some('t'), Some('!')],
        vec![None, Some('!'), None],
    ];

    let mut transposed = FlatTransposed::new(input.to_vec());

    for expected in expected_output.into_iter().flatten() {
        let found = transposed.next().expect("the walk ended too early");
        assert!(found == expected)
    }
}

#[test]
pub fn flat_transpose_iterates_when_some_columns_are_blank() {
    let input = [
        vec![],
        vec![1, 2, 3, 4, 5],
        vec![7, 8, 9, 10, 11, 12],
        vec![],
        vec![],
        vec![],
    ];

    let expected_output = [
        vec![None, Some(1), Some(7), None, None, None],
        vec![None, Some(2), Some(8), None, None, None],
        vec![None, Some(3), Some(9), None, None, None],
        vec![None, Some(4), Some(10), None, None, None],
        vec![None, Some(5), Some(11), None, None, None],
        vec![None, None, Some(12), None, None, None],
    ];

    let mut transposed = FlatTransposed::new(input.to_vec());

    for expected in expected_output.into_iter().flatten() {
        let found = transposed.next().expect("the walk ended too early");
        assert!(found == expected, "{found:?} is not {expected:?}")
    }
}

#[test]
fn flat_transpose_stops_after_an_all_blank_cycle() {
    let input = vec![vec![1], vec![2]];
    let mut transposed = FlatTransposed::new(input);

    assert_eq!(transposed.next(), Some(Some(1)));
    assert_eq!(transposed.next(), Some(Some(2)));
    assert_eq!(transposed.next(), Some(None));
    assert_eq!(transposed.next(), None);
}

#[test]
fn flat_transpose_of_no_columns_is_empty() {
    let input: Vec<Vec<u8>> = vec![];
    let mut transposed = FlatTransposed::new(input);

    assert_eq!(transposed.next(), None);
}
