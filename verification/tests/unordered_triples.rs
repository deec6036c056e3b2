use polytwister_mesher::unordered_triples::UnorderedTriples;

#[test]
fn test_iter_unordered_triples_1() {
    let result = UnorderedTriples::new(5).to_vec();
    assert_eq!(
        result,
        vec![
            (0, 1, 2),
            (0, 1, 3),
            (0, 1, 4),
            (0, 2, 3),
            (0, 2, 4),
            (0, 3, 4),
            (1, 2, 3),
            (1, 2, 4),
            (1, 3, 4),
            (2, 3, 4),
        ]
    );
}

#[test]
fn test_iter_unordered_triples_2() {
    let n = 10;
    let n_choose_3 = 120;
    let result = UnorderedTriples::new(n).to_vec();
    assert_eq!(result.len(), n_choose_3);
    assert!(result.into_iter().all(|(i, j, k)| {
        i < j && j < k && k < n
    }));
}

#[test]
fn unordered_triples_small_n_is_empty() {
    for n in 0..3 {
        let mut it = UnorderedTriples::new(n);
        assert_eq!(it.next(), None);
        assert_eq!(it.next(), None);
    }
}

#[test]
fn unordered_triples_stays_exhausted() {
    let mut it = UnorderedTriples::new(3);
    assert_eq!(it.next(), Some((0, 1, 2)));
    assert_eq!(it.next(), None);
    assert_eq!(it.next(), None);
}

#[test]
fn unordered_triples_count_is_n_choose_3() {
    for n in 0..20usize {
        let count = UnorderedTriples::new(n).to_vec().len();
        assert_eq!(count, n * n.saturating_sub(1) * n.saturating_sub(2) / 6);
    }
}

#[test]
fn unordered_triples_strictly_increasing() {
    let result = UnorderedTriples::new(7).to_vec();
    for w in result.windows(2) {
        assert!(w[0] < w[1]);
    }
}
