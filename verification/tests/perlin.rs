use raytracer::perlin::{perlin_generate_perm, permute, permute_by, Perlin, POINT_COUNT};

fn identity_table() -> [i32; POINT_COUNT] {
    let mut table = [0; POINT_COUNT];
    for (i, entry) in table.iter_mut().enumerate() {
        *entry = i as i32;
    }
    table
}

fn is_permutation(table: &[i32; POINT_COUNT]) -> bool {
    let mut sorted = table.to_vec();
    sorted.sort();
    sorted == identity_table().to_vec()
}

#[test]
fn point_count_is_256() {
    assert_eq!(POINT_COUNT, 256);
}

#[test]
fn draws_that_name_their_own_place_change_nothing() {
    let mut table = identity_table();
    let draws = identity_table();
    permute_by(&mut table, &draws);
    assert_eq!(table, identity_table());
}

#[test]
fn draws_of_zero_rotate_the_table() {
    let mut table = identity_table();
    let draws = [0; POINT_COUNT];
    permute_by(&mut table, &draws);
    for i in 0..POINT_COUNT {
        assert_eq!(table[i], ((i + 1) % POINT_COUNT) as i32);
    }
}

#[test]
fn first_draw_is_not_used() {
    let mut with_zero = identity_table();
    let mut with_other = identity_table();
    let mut draws = [0; POINT_COUNT];
    for (i, draw) in draws.iter_mut().enumerate() {
        *draw = (i / 2) as i32;
    }
    permute_by(&mut with_zero, &draws);
    draws[0] = 99;
    permute_by(&mut with_other, &draws);
    assert_eq!(with_zero, with_other);
}

#[test]
fn exchanges_run_from_the_last_place_down() {
    let mut table = identity_table();
    let mut draws = identity_table();
    draws[255] = 254;
    draws[254] = 0;
    permute_by(&mut table, &draws);
    let mut expected = identity_table();
    expected[255] = 254;
    expected[254] = 0;
    expected[0] = 255;
    assert_eq!(table, expected);
}

#[test]
fn shuffle_by_draws_keeps_what_the_table_holds() {
    let mut table = [7; POINT_COUNT];
    for (i, entry) in table.iter_mut().enumerate() {
        *entry = (i % 5) as i32 - 2;
    }
    let mut before = table.to_vec();
    let mut draws = [0; POINT_COUNT];
    for (i, draw) in draws.iter_mut().enumerate() {
        *draw = ((i * 7) % (i + 1)) as i32;
    }
    permute_by(&mut table, &draws);
    let mut after = table.to_vec();
    before.sort();
    after.sort();
    assert_eq!(before, after);
}

#[test]
fn random_shuffle_keeps_what_the_table_holds() {
    let mut table = [0; POINT_COUNT];
    for (i, entry) in table.iter_mut().enumerate() {
        *entry = (i as i32) * 3 - 100;
    }
    let mut before = table.to_vec();
    permute(&mut table);
    let mut after = table.to_vec();
    before.sort();
    after.sort();
    assert_eq!(before, after);
}

#[test]
fn random_shuffle_moves_something() {
    let mut moved = false;
    for _ in 0..5 {
        let mut table = identity_table();
        permute(&mut table);
        if table != identity_table() {
            moved = true;
        }
    }
    assert!(moved);
}

#[test]
fn generated_table_is_a_permutation() {
    for _ in 0..20 {
        let table = perlin_generate_perm();
        assert!(is_permutation(&table));
    }
}

#[test]
fn lattice_tables_are_permutations() {
    let lattice = Perlin::new();
    assert!(is_permutation(lattice.perm_x()));
    assert!(is_permutation(lattice.perm_y()));
    assert!(is_permutation(lattice.perm_z()));
}

#[test]
fn gradient_index_combines_the_three_tables() {
    let lattice = Perlin::new();
    for (i, j, k) in [(0, 0, 0), (1, 2, 3), (255, 255, 255), (17, 0, 200)] {
        let expected = lattice.perm_x()[i as usize]
            ^ lattice.perm_y()[j as usize]
            ^ lattice.perm_z()[k as usize];
        assert_eq!(lattice.gradient_index(i, j, k), expected as usize);
    }
}

#[test]
fn gradient_index_wraps_coordinates() {
    let lattice = Perlin::new();
    assert_eq!(lattice.gradient_index(256, 512, -256), lattice.gradient_index(0, 0, 0));
    assert_eq!(lattice.gradient_index(-1, -2, -255), lattice.gradient_index(255, 254, 1));
    assert_eq!(lattice.gradient_index(i32::MIN, i32::MAX, 0), lattice.gradient_index(0, 255, 0));
}

#[test]
fn gradient_index_is_below_point_count() {
    let lattice = Perlin::new();
    for i in -300..300 {
        assert!(lattice.gradient_index(i, i * 7, -i * 13) < POINT_COUNT);
    }
}

#[test]
fn corner_indices_are_those_of_the_eight_corners() {
    let lattice = Perlin::new();
    for (i, j, k) in [(0, 0, 0), (-1, 5, 255), (1000, -1000, 77)] {
        let corners = lattice.corner_indices(i, j, k);
        for di in 0..2 {
            for dj in 0..2 {
                for dk in 0..2 {
                    assert_eq!(
                        corners[di][dj][dk],
                        lattice.gradient_index(i + di as i32, j + dj as i32, k + dk as i32)
                    );
                }
            }
        }
    }
}

#[test]
fn corner_indices_at_the_end_of_the_range() {
    let lattice = Perlin::new();
    let corners = lattice.corner_indices(i32::MAX, i32::MAX, i32::MAX);
    assert_eq!(corners[0][0][0], lattice.gradient_index(255, 255, 255));
    assert_eq!(corners[1][0][0], lattice.gradient_index(0, 255, 255));
    assert_eq!(corners[0][1][0], lattice.gradient_index(255, 0, 255));
    assert_eq!(corners[0][0][1], lattice.gradient_index(255, 255, 0));
    assert_eq!(corners[1][1][1], lattice.gradient_index(0, 0, 0));
}
