use pathcore::perlin::{lattice_wrap, Perlin};
use pathcore::scalar::Scalar;
use pathcore::types::Vec3;

fn s(x: f32) -> Scalar {
    Scalar::from_bits(x.to_bits())
}

fn gradients() -> [Vec3; 256] {
    let mut table = [Vec3::from_bits(0, 0, 0); 256];
    for (i, g) in table.iter_mut().enumerate() {
        *g = Vec3::new(s(i as f32), s(-(i as f32)), s(0.5));
    }
    table
}

fn is_permutation(table: &[usize]) -> bool {
    let mut seen = [false; 256];
    for &v in table {
        if v >= 256 || seen[v] {
            return false;
        }
        seen[v] = true;
    }
    table.len() == 256
}

#[test]
fn generated_table_is_a_permutation() {
    for _ in 0..20 {
        let table = Perlin::generate_perm();
        assert!(is_permutation(&table));
        assert!(Perlin::check_table(&table));
    }
}

#[test]
fn generated_tables_are_shuffled() {
    let identity: Vec<usize> = (0..256).collect();
    let mut moved = false;
    for _ in 0..5 {
        moved = moved || Perlin::generate_perm() != identity;
    }
    assert!(moved);
}

#[test]
fn permute_rearranges_what_it_is_given() {
    let mut arr: Vec<usize> = vec![7, 7, 3, 9, 100, 5];
    Perlin::permute(&mut arr);
    let mut sorted = arr.clone();
    sorted.sort();
    assert_eq!(sorted, vec![3, 5, 7, 7, 9, 100]);
    let mut empty: Vec<usize> = vec![];
    Perlin::permute(&mut empty);
    assert!(empty.is_empty());
    let mut single: Vec<usize> = vec![42];
    Perlin::permute(&mut single);
    assert_eq!(single, vec![42]);
}

#[test]
fn the_last_entry_never_stays_in_a_shuffle() {
    // each position is exchanged with a strictly earlier one
    for _ in 0..50 {
        let mut arr: Vec<usize> = (0..8).collect();
        Perlin::permute(&mut arr);
        assert_ne!(arr[7], 7);
    }
}

#[test]
fn permute_with_given_draws() {
    let mut arr: Vec<usize> = vec![10, 11, 12, 13];
    // step 0 exchanges positions 3 and 1, step 1 positions 2 and 0, step 2 positions 1 and 0
    Perlin::permute_with(&mut arr, &vec![1, 0, 0]);
    assert_eq!(arr, vec![13, 12, 10, 11]);
    let mut arr: Vec<usize> = vec![10, 11, 12, 13];
    // positions 3 and 2, then 2 and 1, then 1 and 0: the last entry moves to the front
    Perlin::permute_with(&mut arr, &vec![2, 1, 0]);
    assert_eq!(arr, vec![13, 10, 11, 12]);
}

#[test]
fn check_table_refuses_what_is_no_permutation() {
    let identity: Vec<usize> = (0..256).collect();
    assert!(Perlin::check_table(&identity));
    let mut short = identity.clone();
    short.pop();
    assert!(!Perlin::check_table(&short));
    let mut twice = identity.clone();
    twice[5] = 6;
    assert!(!Perlin::check_table(&twice));
    let mut large = identity.clone();
    large[255] = 256;
    assert!(!Perlin::check_table(&large));
    let reversed: Vec<usize> = (0..256).rev().collect();
    assert!(Perlin::check_table(&reversed));
}

#[test]
fn lattice_wrap_keeps_the_low_eight_bits() {
    for c in [-1000isize, -257, -256, -255, -1, 0, 1, 255, 256, 257, 1000, isize::MAX, isize::MIN] {
        assert_eq!(lattice_wrap(c), (c & 255) as usize, "{}", c);
    }
}

#[test]
fn new_field_keeps_the_gradients() {
    let field = Perlin::new(gradients());
    assert_eq!(field.ranfloat().as_slice(), &gradients()[..]);
    assert!(is_permutation(field.perm_x()));
    assert!(is_permutation(field.perm_y()));
    assert!(is_permutation(field.perm_z()));
}

#[test]
fn from_tables_checks_the_tables() {
    let identity: Vec<usize> = (0..256).collect();
    let g = gradients().to_vec();
    assert!(Perlin::from_tables(g.clone(), identity.clone(), identity.clone(), identity.clone()).is_some());
    assert!(Perlin::from_tables(g[..255].to_vec(), identity.clone(), identity.clone(), identity.clone()).is_none());
    let mut bad = identity.clone();
    bad[0] = 1;
    assert!(Perlin::from_tables(g.clone(), bad.clone(), identity.clone(), identity.clone()).is_none());
    assert!(Perlin::from_tables(g.clone(), identity.clone(), bad.clone(), identity.clone()).is_none());
    assert!(Perlin::from_tables(g, identity.clone(), identity, bad).is_none());
}

#[test]
fn gradient_is_found_by_hashing_the_coordinates() {
    let identity: Vec<usize> = (0..256).collect();
    let reversed: Vec<usize> = (0..256).rev().collect();
    let rotated: Vec<usize> = (0..256).map(|i| (i + 3) % 256).collect();
    let g = gradients();
    let field =
        Perlin::from_tables(g.to_vec(), identity.clone(), reversed.clone(), rotated.clone()).unwrap();
    for (i, j, k) in [(0isize, 0isize, 0isize), (1, 2, 3), (-1, -2, -3), (255, 256, 257), (1000, -1000, 77)] {
        let expected = identity[(i & 255) as usize]
            ^ reversed[(j & 255) as usize]
            ^ rotated[(k & 255) as usize];
        assert_eq!(field.gradient(i, j, k), g[expected]);
    }
    assert_eq!(field.gradient(1, 2, 3), g[1 ^ 253 ^ 6]);
}

#[test]
fn noise_collects_the_eight_corners() {
    let field = Perlin::new(gradients());
    let (i, j, k) = ([4isize, 5], [-1isize, 0], [255isize, 256]);
    let corners = field.noise(i, j, k);
    for a in 0..2 {
        for b in 0..2 {
            for c in 0..2 {
                assert_eq!(corners[a][b][c], field.gradient(i[a], j[b], k[c]));
            }
        }
    }
}

#[test]
fn a_copied_field_has_the_same_tables() {
    let field = Perlin::new(gradients());
    let copy = field.clone();
    assert_eq!(copy.ranfloat(), field.ranfloat());
    assert_eq!(copy.perm_x(), field.perm_x());
    assert_eq!(copy.perm_y(), field.perm_y());
    assert_eq!(copy.perm_z(), field.perm_z());
}
