use basic_game::strip::{strip_triangle_indices, SURF_COLLIDER_COLUMNS};

#[test]
fn strip_needs_two_full_seams() {
    assert_eq!(strip_triangle_indices(10, 1, &[]), None);
    assert_eq!(strip_triangle_indices(5, 5, &[]), None);
    assert_eq!(strip_triangle_indices(11, 5, &[]), None);
    assert_eq!(strip_triangle_indices(0, 3, &[]), None);
}

#[test]
fn strip_cells_split_along_the_chosen_diagonal() {
    let indices = strip_triangle_indices(6, 3, &[true, false]).expect("two seams of three");
    assert_eq!(
        indices,
        vec![0, 1, 4, 0, 4, 3, 1, 2, 4, 2, 5, 4]
    );
}

#[test]
fn strip_indices_cover_every_cell_of_a_collider_strip() {
    let seams = 4;
    let columns = SURF_COLLIDER_COLUMNS;
    let cells = (seams - 1) * (columns - 1);
    let split: Vec<bool> = (0..cells).map(|cell| cell % 3 == 0).collect();
    let indices = strip_triangle_indices(seams * columns, columns, &split).unwrap();
    assert_eq!(indices.len(), cells * 6);
    assert!(indices.iter().all(|index| (*index as usize) < seams * columns));
    assert_eq!(&indices[..6], &[0, 1, 6, 0, 6, 5]);
    assert_eq!(&indices[6..12], &[1, 2, 6, 2, 7, 6]);
}
