use ryggattack::batch::{BatchSlots, append_sequential, append_shifted};

/// The index list of a unit cube: 24 vertices, four to a face, two
/// triangles to a face.
fn cube_indices() -> Vec<u32> {
    let mut indices = Vec::new();
    for face in 0..6u32 {
        let base = face * 4;
        indices.extend([base, base + 1, base + 2, base + 2, base + 3, base]);
    }
    indices
}

// Placing a copy's vertices is the game's floating-point code; this checks
// the library's part: each copy's indices point past the copies before it.
#[test]
fn copies_are_placed_and_indexed_after_each_other() {
    let cube = cube_indices();
    let vertices = 24u32;
    let indices = cube.len();

    let mut merged = Vec::new();
    append_shifted(&mut merged, 0, &cube);
    append_shifted(&mut merged, vertices, &cube);

    assert_eq!(merged.len(), indices * 2);
    assert_eq!(&merged[..indices], &cube[..]);
    assert!(merged[indices..].iter().all(|&i| i >= vertices));
    assert!(merged[indices..].iter().zip(&cube).all(|(&copy, &source)| copy == source + vertices));
}

#[test]
fn a_mesh_without_indices_is_a_plain_triangle_list() {
    let mut merged = vec![0, 1, 2];
    append_sequential(&mut merged, 3, 6);
    assert_eq!(merged, vec![0, 1, 2, 3, 4, 5, 6, 7, 8]);
    append_sequential(&mut merged, 9, 0);
    assert_eq!(merged.len(), 9);
}

// The meshes themselves are the game's; this checks the library's part:
// one batch per material, in the order materials were first used.
#[test]
fn batches_split_by_material() {
    let (a, b) = (11u64, 12u64);
    let mut slots = BatchSlots::new();
    let mut copies = vec![0usize; 0];
    for material in [a, b, a] {
        let slot = slots.slot(material);
        if slot == copies.len() {
            copies.push(0);
        }
        copies[slot] += 1;
    }
    assert_eq!(slots.len(), 2);
    assert_eq!(copies[0], 2);
}

#[test]
fn a_material_keeps_its_batch() {
    let mut slots = BatchSlots::new();
    assert_eq!(slots.slot(40), 0);
    assert_eq!(slots.slot(7), 1);
    assert_eq!(slots.slot(40), 0);
    assert_eq!(slots.slot(99), 2);
    assert_eq!(slots.slot(7), 1);
    assert_eq!(slots.len(), 3);
}
