use polynomial_optics::ghosts::{ElementKind, LensLayout};

fn layout() -> LensLayout {
    LensLayout {
        elements: vec![ElementKind::Glass, ElementKind::Glass, ElementKind::Aperture, ElementKind::Glass],
    }
}

#[test]
fn ghost_index_zero_selects_first_ghost() {
    assert_eq!(layout().get_ghost_index(1, 0), Some([0, 1]));
}

#[test]
fn ghost_index_counts_glass_pairs_from_one() {
    let lens = layout();
    assert_eq!(lens.get_ghost_index(1, 1), Some([0, 1]));
    assert_eq!(lens.get_ghost_index(1, 2), Some([0, 3]));
    assert_eq!(lens.get_ghost_index(1, 3), Some([1, 3]));
    assert_eq!(lens.get_ghost_index(3, 3), Some([1, 3]));
}

#[test]
fn ghost_index_none_past_last_ghost_or_without_bit() {
    let lens = layout();
    assert_eq!(lens.get_ghost_index(1, 4), None);
    assert_eq!(lens.get_ghost_index(0, 1), None);
    assert_eq!(lens.get_ghost_index(2, 1), None);
    let apertures = LensLayout { elements: vec![ElementKind::Aperture, ElementKind::Glass] };
    assert_eq!(apertures.get_ghost_index(1, 0), None);
}

#[test]
fn ghosts_indicies_lists_all_ghosts() {
    assert_eq!(layout().get_ghosts_indicies(1, 0), vec![[0, 1], [0, 3], [1, 3]]);
}

#[test]
fn ghosts_indicies_selected_ghost_and_direct_path() {
    let lens = layout();
    assert_eq!(lens.get_ghosts_indicies(3, 2), vec![[0, 3], [0, 0]]);
    assert_eq!(lens.get_ghosts_indicies(2, 0), vec![[0, 0]]);
    assert_eq!(lens.get_ghosts_indicies(0, 0), Vec::<[u32; 2]>::new());
    assert_eq!(lens.get_ghosts_indicies(1, 9), Vec::<[u32; 2]>::new());
}

#[test]
fn ghosts_indicies_agrees_with_ghost_index() {
    let lens = layout();
    for which in 1..5 {
        let all = lens.get_ghosts_indicies(1, which);
        assert_eq!(all.first().copied(), lens.get_ghost_index(1, which));
    }
}
