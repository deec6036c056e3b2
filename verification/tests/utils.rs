use polytwister_mesher::utils::{decimal_digits, unzip_circle};

#[test]
fn unzip_circle_doc_example() {
    // [(1, X), (2, 10), ..., (4, 6), (X, 5)] -> [1, 2, 3, ...]
    let pairs = vec![(1, 0), (2, 10), (3, 9), (4, 6), (0, 5)];
    assert_eq!(unzip_circle(pairs), vec![1, 2, 3, 4, 5, 6, 9, 10]);
}

#[test]
fn unzip_circle_empty_and_single() {
    let empty: Vec<(u8, u8)> = vec![];
    assert_eq!(unzip_circle(empty), Vec::<u8>::new());
    assert_eq!(unzip_circle(vec![(7, 8)]), Vec::<i32>::new());
}

#[test]
fn unzip_circle_two_pairs() {
    assert_eq!(unzip_circle(vec![("a", "b"), ("c", "d")]), vec!["a", "d"]);
}

#[test]
fn decimal_digits_match_to_string() {
    for n in [0u64, 7, 10, 42, 100, 65535, 1234567890123] {
        let digits: String = decimal_digits(n).into_iter().collect();
        assert_eq!(digits, n.to_string());
    }
}
