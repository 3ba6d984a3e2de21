use polynomial_optics::legendre::{num_polys, poly_index_to_multi_index, poly_multi_index_to_index};

#[test]
fn num_polys_counts_quadruples() {
    assert_eq!(num_polys(0), 1);
    assert_eq!(num_polys(1), 5);
    assert_eq!(num_polys(2), 15);
    assert_eq!(num_polys(3), 35);
    assert_eq!(num_polys(10), 1001);
}

#[test]
fn index_to_multi_index_enumerates_lexicographically() {
    assert_eq!(poly_index_to_multi_index(0, 2), Some((0, 0, 0, 0)));
    assert_eq!(poly_index_to_multi_index(1, 2), Some((0, 0, 0, 1)));
    assert_eq!(poly_index_to_multi_index(2, 2), Some((0, 0, 0, 2)));
    assert_eq!(poly_index_to_multi_index(3, 2), Some((0, 0, 1, 0)));
    assert_eq!(poly_index_to_multi_index(14, 2), Some((2, 0, 0, 0)));
}

#[test]
fn index_to_multi_index_out_of_range_is_none() {
    assert_eq!(poly_index_to_multi_index(15, 2), None);
    assert_eq!(poly_index_to_multi_index(1, 0), None);
    assert_eq!(poly_index_to_multi_index(0, 0), Some((0, 0, 0, 0)));
}

#[test]
fn multi_index_to_index_finds_position() {
    assert_eq!(poly_multi_index_to_index(0, 0, 0, 0, 2), Some(0));
    assert_eq!(poly_multi_index_to_index(0, 0, 1, 0, 2), Some(3));
    assert_eq!(poly_multi_index_to_index(2, 0, 0, 0, 2), Some(14));
}

#[test]
fn multi_index_to_index_rejects_high_degree() {
    assert_eq!(poly_multi_index_to_index(1, 1, 1, 0, 2), None);
    assert_eq!(poly_multi_index_to_index(0, 0, 0, 3, 2), None);
}

#[test]
fn index_round_trips() {
    for degree in 0..5 {
        let n = num_polys(degree);
        for index in 0..n {
            let (i, j, k, l) = poly_index_to_multi_index(index, degree).unwrap();
            assert!(i + j + k + l <= degree);
            assert_eq!(poly_multi_index_to_index(i, j, k, l, degree), Some(index));
        }
        assert_eq!(poly_index_to_multi_index(n, degree), None);
    }
}
