use polynomial_optics::mesh::{num_tris, tri_index_data};

#[test]
fn tri_index_single_cell() {
    assert_eq!(tri_index_data(2, 1), vec![0, 1, 2, 1, 2, 3]);
}

#[test]
fn tri_index_three_by_three_grid() {
    assert_eq!(
        tri_index_data(3, 1),
        vec![0, 1, 3, 1, 3, 4, 1, 2, 4, 2, 4, 5, 3, 4, 6, 4, 6, 7, 4, 5, 7, 5, 7, 8]
    );
}

#[test]
fn tri_index_offsets_each_ghost() {
    assert_eq!(tri_index_data(2, 2), vec![0, 1, 2, 1, 2, 3, 4, 5, 6, 5, 6, 7]);
}

#[test]
fn tri_index_length_and_bound() {
    let side = 5u32;
    let ghosts = 3u32;
    let data = tri_index_data(side, ghosts);
    assert_eq!(data.len() as u32, ghosts * num_tris(side) * 6);
    assert!(data.iter().all(|&v| v < ghosts * side * side));
}

#[test]
fn tri_index_degenerate_inputs_are_empty() {
    assert!(tri_index_data(1, 4).is_empty());
    assert!(tri_index_data(0, 0).is_empty());
    assert!(tri_index_data(7, 0).is_empty());
}

#[test]
fn num_tris_is_square_of_cells() {
    assert_eq!(num_tris(1), 0);
    assert_eq!(num_tris(2), 1);
    assert_eq!(num_tris(65), 4096);
}
