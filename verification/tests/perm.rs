use noise::perm::PermutationTable;

fn entries(table: &PermutationTable) -> Vec<u8> {
    (0..=255u8).map(|i| table.get(i)).collect()
}

fn assert_permutation(seed: u32) {
    let table = PermutationTable::build(seed);
    let mut seen = [false; 256];
    for value in entries(&table) {
        assert!(!seen[value as usize], "seed {}: {} stands twice", seed, value);
        seen[value as usize] = true;
    }
    assert!(seen.iter().all(|&s| s));
}

const TABLE_42: [u8; 256] = [
    124, 34, 26, 200, 24, 220, 22, 52, 61, 64, 6, 18, 12, 35, 208, 16, 240, 108, 30, 224, 144,
    23, 8, 44, 42, 39, 86, 148, 92, 91, 88, 63, 202, 196, 158, 120, 32, 98, 46, 182, 58, 43, 56,
    186, 192, 146, 172, 239, 78, 9, 20, 201, 164, 59, 38, 119, 156, 130, 0, 76, 168, 236, 188,
    71, 93, 122, 82, 225, 132, 150, 80, 205, 54, 211, 243, 83, 126, 233, 95, 123, 226, 195, 72,
    107, 36, 79, 222, 160, 50, 190, 67, 115, 180, 3, 14, 110, 104, 159, 51, 187, 68, 105, 47,
    112, 5, 55, 179, 161, 217, 77, 178, 250, 152, 184, 134, 230, 216, 7, 170, 248, 166, 171, 27,
    249, 62, 125, 97, 143, 212, 29, 253, 210, 114, 227, 2, 65, 31, 37, 118, 151, 111, 99, 113,
    189, 198, 169, 141, 33, 176, 197, 221, 41, 25, 155, 116, 149, 48, 165, 4, 183, 140, 57, 219,
    69, 254, 103, 244, 234, 84, 19, 60, 85, 185, 173, 194, 232, 138, 223, 135, 251, 15, 163, 102,
    207, 162, 167, 96, 21, 204, 191, 90, 1, 128, 157, 154, 137, 181, 235, 145, 231, 10, 75, 206,
    153, 40, 209, 70, 255, 174, 87, 213, 109, 228, 214, 45, 89, 11, 175, 215, 247, 94, 53, 100,
    193, 131, 241, 74, 13, 147, 252, 203, 81, 229, 101, 218, 246, 106, 127, 28, 17, 136, 242,
    133, 73, 66, 49, 121, 177, 142, 245, 237, 117, 199, 139, 238, 129,
];

#[test]
fn table_of_seed_42() {
    let table = PermutationTable::build(42);
    assert_eq!(entries(&table), TABLE_42.to_vec());
}

#[test]
fn table_starts_and_ends_as_expected() {
    let zero = entries(&PermutationTable::build(0));
    assert_eq!(&zero[..8], &[2, 8, 16, 168, 0, 59, 140, 241]);
    assert_eq!(&zero[252..], &[48, 165, 242, 95]);
    let one = entries(&PermutationTable::build(1));
    assert_eq!(&one[..8], &[55, 49, 229, 178, 68, 98, 127, 112]);
    assert_eq!(&one[252..], &[194, 232, 72, 108]);
    let max = entries(&PermutationTable::build(u32::MAX));
    assert_eq!(&max[..8], &[29, 140, 177, 64, 246, 7, 94, 108]);
    assert_eq!(&max[252..], &[155, 255, 157, 82]);
}

#[test]
fn table_is_a_permutation_at_the_edges_of_the_seed_range() {
    for seed in [0, 1, 2, 42, 43, 255, 256, 0x7fff_ffff, 0x8000_0000, u32::MAX - 1, u32::MAX] {
        assert_permutation(seed);
    }
}

#[test]
fn table_is_a_permutation_for_many_seeds() {
    let mut seed: u32 = 12345;
    for _ in 0..500 {
        assert_permutation(seed);
        seed = seed.wrapping_mul(2654435761).wrapping_add(97);
    }
}

#[test]
fn table_is_shuffled() {
    let table = entries(&PermutationTable::build(42));
    let identity: Vec<u8> = (0..=255u8).collect();
    assert_ne!(table, identity);
}

#[test]
fn same_seed_gives_same_table() {
    for seed in [0, 42, 90813409, u32::MAX] {
        let a = entries(&PermutationTable::build(seed));
        let b = entries(&PermutationTable::build(seed));
        assert_eq!(a, b);
    }
}

#[test]
fn neighbouring_seeds_give_different_tables() {
    let a = entries(&PermutationTable::build(42));
    let b = entries(&PermutationTable::build(43));
    let differing = (0..256).filter(|&i| a[i] != b[i]).count();
    assert_eq!(differing, 254);
}

#[test]
fn hash_2d_chains_two_lookups() {
    let table = PermutationTable::build(42);
    assert_eq!(table.hash_2d(0, 0), 62);
    assert_eq!(table.hash_2d(1, 0), 158);
    assert_eq!(table.hash_2d(0, 1), 125);
    for x in 0..256i64 {
        for y in 0..256i64 {
            let first = TABLE_42[x as usize] as usize;
            assert_eq!(table.hash_2d(x, y), TABLE_42[(first + y as usize) % 256]);
        }
    }
}

#[test]
fn hash_2d_takes_negative_coordinates_modulo_256() {
    let table = PermutationTable::build(42);
    assert_eq!(table.hash_2d(-1, -1), 212);
    assert_eq!(table.hash_2d(-1, -1), table.hash_2d(255, 255));
    assert_eq!(table.hash_2d(1000, -1000), 139);
    assert_eq!(table.hash_2d(i64::MIN, i64::MAX), table.hash_2d(0, 255));
}

#[test]
fn hash_2d_repeats_every_256_steps() {
    let table = PermutationTable::build(7);
    for x in -300..300i64 {
        for y in [-257i64, -1, 0, 1, 255, 256, 1023] {
            let here = table.hash_2d(x, y);
            assert_eq!(table.hash_2d(x + 256, y), here);
            assert_eq!(table.hash_2d(x, y + 256), here);
            assert_eq!(table.hash_2d(x - 512, y - 256), here);
        }
    }
    assert_eq!(table.hash_2d(256, 512), table.hash_2d(0, 0));
}

#[test]
fn hash_3d_chains_three_lookups() {
    let table = PermutationTable::build(42);
    assert_eq!(table.hash_3d(0, 0, 0), 188);
    assert_eq!(table.hash_3d(1, 2, 3), 120);
    assert_eq!(table.hash_3d(-1, -2, -3), 111);
    for (x, y, z) in [(0i64, 0i64, 0i64), (3, 250, 9), (-7, 12, -255), (255, 255, 255)] {
        let second = table.hash_2d(x, y) as i64;
        let position = (second + z).rem_euclid(256) as usize;
        assert_eq!(table.hash_3d(x, y, z), TABLE_42[position]);
    }
}

#[test]
fn hash_3d_repeats_every_256_steps() {
    let table = PermutationTable::build(43);
    for (x, y, z) in [(0i64, 0i64, 0i64), (1, -2, 3), (-100, 200, -300), (i64::MAX - 256, 5, i64::MIN)] {
        let here = table.hash_3d(x, y, z);
        assert_eq!(table.hash_3d(x + 256, y, z), here);
        assert_eq!(table.hash_3d(x, y + 256, z), here);
        assert_eq!(table.hash_3d(x, y, z + 256), here);
    }
}
