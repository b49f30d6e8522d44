use rustgames::animal_puzzle::{
    candidate_zones_for_cell, count_solutions, difficulty_profile, generate_puzzle_spec,
    generate_solution_cols, generate_zones, is_adjacent, solution_mask_from_cols,
    target_zone_sizes, AnimalPuzzleSpec, AnimalPuzzleState, Rng,
};

fn valid(cols: &[usize], size: usize) -> bool {
    if cols.len() != size {
        return false;
    }
    for a in 0..size {
        if cols[a] >= size {
            return false;
        }
        for b in (a + 1)..size {
            if cols[a] == cols[b] || is_adjacent(a, cols[a], b, cols[b]) {
                return false;
            }
        }
    }
    true
}

#[test]
fn adjacency() {
    assert!(is_adjacent(0, 0, 1, 1));
    assert!(is_adjacent(3, 3, 3, 3));
    assert!(is_adjacent(2, 3, 1, 2));
    assert!(!is_adjacent(0, 0, 2, 0));
    assert!(!is_adjacent(0, 0, 0, 2));
}

#[test]
fn rng_xorshift_values() {
    let mut r = Rng::from_seed(7);
    assert_eq!(r.0, 11400714819323198482);
    assert_eq!(r.next_u64(), 15860402109581995114);
    let mut r = Rng::from_seed(7);
    assert_eq!(r.gen_range(0), 0);
    assert_eq!(r.0, 11400714819323198482);
    assert_eq!(r.gen_range(10), (15860402109581995114u64 % 10) as usize);
    let mut r = Rng::from_seed(7);
    assert_eq!(r.gen_signed(0), 0);
    let v = r.gen_signed(2);
    assert_eq!(v, (15860402109581995114u64 % 5) as i32 - 2);
}

#[test]
fn shuffle_is_permutation() {
    let mut r = Rng::from_seed(99);
    let mut v: Vec<usize> = (0..10).collect();
    r.shuffle(&mut v);
    let mut sorted = v.clone();
    sorted.sort();
    assert_eq!(sorted, (0..10).collect::<Vec<usize>>());
}

#[test]
fn solution_cols_exist_exactly_where_possible() {
    let mut r = Rng::from_seed(3);
    assert_eq!(generate_solution_cols(1, &mut r), Some(vec![0]));
    assert_eq!(generate_solution_cols(2, &mut r), None);
    assert_eq!(generate_solution_cols(3, &mut r), None);
    for size in 4..9usize {
        let cols = generate_solution_cols(size, &mut r).unwrap();
        assert!(valid(&cols, size));
    }
}

#[test]
fn counting_solutions_of_row_zones() {
    let size = 4;
    let zones: Vec<u8> = (0..16).map(|i| (i / 4) as u8).collect();
    assert_eq!(count_solutions(&zones, size, 10), 2);
    assert_eq!(count_solutions(&zones, size, 2), 2);
    assert_eq!(count_solutions(&zones, size, 1), 1);
    assert_eq!(count_solutions(&zones, size, 0), 0);
    let empty: Vec<u8> = Vec::new();
    assert_eq!(count_solutions(&empty, 0, 0), 1);
    let zones3: Vec<u8> = (0..9).map(|i| (i / 3) as u8).collect();
    assert_eq!(count_solutions(&zones3, 3, 5), 0);
}

#[test]
fn mask_from_cols() {
    let m = solution_mask_from_cols(&vec![1, 3, 0, 2], 4);
    assert_eq!(m, vec![0, 1, 0, 0, 0, 0, 0, 1, 1, 0, 0, 0, 0, 0, 1, 0]);
}

#[test]
fn candidates_for_a_cell() {
    let zones: Vec<u8> = vec![0, 255, 1, 255, 255, 2, 255, 1, 255];
    let assigned: Vec<bool> = zones.iter().map(|z| *z != 255).collect();
    // Cell 4 (centre of 3x3): north zone 255 (unassigned), south 1, west 255, east 2.
    assert_eq!(candidate_zones_for_cell(4, 3, &zones, &assigned), vec![1, 2]);
    // Cell 1: south cell 4 unassigned, west 0, east 1.
    assert_eq!(candidate_zones_for_cell(1, 3, &zones, &assigned), vec![0, 1]);
    assert_eq!(difficulty_profile(0), (3, 0, 120));
    assert_eq!(difficulty_profile(2), (2, 2, 220));
    assert_eq!(difficulty_profile(9), (0, 4, 360));
}

#[test]
fn zone_targets_in_bounds() {
    let mut r = Rng::from_seed(11);
    for size in 2..9usize {
        for d in 0..4u8 {
            let t = target_zone_sizes(size, d, &mut r);
            assert_eq!(t.len(), size);
            assert_eq!(t.iter().sum::<usize>(), size * size);
            assert!(t.iter().all(|x| *x >= 1));
        }
    }
}

#[test]
fn zones_grow_from_the_solution() {
    let mut r = Rng::from_seed(5);
    let cols = vec![1, 3, 0, 2, 4];
    let zones = generate_zones(5, &cols, 2, &mut r);
    assert_eq!(zones.len(), 25);
    for (row, c) in cols.iter().enumerate() {
        assert_eq!(zones[row * 5 + c], row as u8);
    }
    assert!(zones.iter().all(|z| *z < 5));
}

#[test]
fn generated_boards_are_sound() {
    let mut r = Rng::from_seed(2024);
    for size in [4usize, 5, 6] {
        let spec: AnimalPuzzleSpec = generate_puzzle_spec(size, 1, &mut r);
        assert_eq!(spec.size, size);
        assert_eq!(spec.difficulty, 1);
        assert!(spec.animal_kind < 9);
        assert_eq!(spec.zones.len(), size * size);
        assert_eq!(spec.solution.len(), size * size);
        assert_eq!(spec.solution.iter().filter(|v| **v == 1).count(), size);
        if count_solutions(&spec.zones, size, 2) == 1 {
            let mut st = AnimalPuzzleState::from_spec(&spec);
            for row in 0..size {
                let col = (0..size).find(|c| spec.solution[row * size + c] == 1).unwrap();
                assert!(st.toggle(row, col));
            }
            assert!(st.is_solved());
        }
    }
}

#[test]
fn playing_a_board() {
    let mut st = AnimalPuzzleState::new(4);
    let zones: Vec<u8> = (0..16).map(|i| (i / 4) as u8).collect();
    assert!(st.set_zones(zones));
    assert!(!st.set_zones(vec![0; 3]));
    assert!(st.set_solution(vec![0, 1, 0, 0, 0, 0, 0, 1, 1, 0, 0, 0, 0, 0, 1, 0]));
    assert!(st.is_valid_placement(0, 1));
    assert!(st.toggle(0, 1));
    assert!(st.is_occupied(0, 1));
    assert!(!st.is_valid_placement(1, 0));
    assert!(!st.is_valid_placement(1, 1));
    assert!(!st.is_valid_placement(0, 3));
    assert!(!st.toggle(1, 2));
    assert!(!st.toggle(9, 9));
    assert!(st.toggle(1, 3));
    assert!(st.toggle(2, 0));
    assert!(st.toggle(3, 2));
    assert_eq!(st.count_placed(), 4);
    assert!(st.is_solved());
    assert!(st.toggle(3, 2));
    assert_eq!(st.count_placed(), 3);
    assert!(!st.is_solved());
    st.reset();
    assert_eq!(st.count_placed(), 0);
    assert!(!st.is_occupied(0, 1));
}
