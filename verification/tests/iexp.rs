use polynomial_optics::iexp::iexp;

#[test]
fn iexp_pairs_in_lexicographic_order() {
    let r: Vec<[i64; 2]> = iexp::<2, i64>(&vec![1, 2, 3]);
    assert_eq!(r, vec![[1, 1], [1, 2], [1, 3], [2, 1], [2, 2], [2, 3], [3, 1], [3, 2], [3, 3]]);
}

#[test]
fn iexp_triples_count() {
    let r = iexp::<3, u8>(&vec![0, 1]);
    assert_eq!(r.len(), 8);
    assert_eq!(r[0], [0, 0, 0]);
    assert_eq!(r[5], [1, 0, 1]);
    assert_eq!(r[7], [1, 1, 1]);
}

#[test]
fn iexp_of_zero_width_is_empty() {
    let r = iexp::<0, i64>(&vec![1, 2, 3]);
    assert!(r.is_empty());
}

#[test]
fn iexp_of_no_items_is_empty() {
    let r = iexp::<2, i64>(&vec![]);
    assert!(r.is_empty());
}

#[test]
fn iexp_single_position_copies_items() {
    let r = iexp::<1, char>(&vec!['a', 'b']);
    assert_eq!(r, vec![['a'], ['b']]);
}
