use toroidal_life::game::{game_grids_are_identical, Cellule, GameState, LifeState};
use toroidal_life::seeds::{
    find_seed, get_seeds, parse_raw_seed, seed_middle_line_starter, seed_pentadecathlon,
};

fn alive_positions(cellules: &[Cellule], width: usize) -> Vec<(usize, usize)> {
    let mut out = Vec::new();
    for (i, c) in cellules.iter().enumerate() {
        if c.alive() {
            out.push((i / width, i % width));
        }
    }
    out
}

#[test]
fn parse_raw_seed_maps_ones_to_alive() {
    let cells = parse_raw_seed(vec![0, 1, 2, 1, -1, 0]);
    assert_eq!(cells.len(), 6);
    let states: Vec<bool> = cells.iter().map(|c| c.alive()).collect();
    assert_eq!(states, vec![false, true, false, true, false, false]);
}

#[test]
fn middle_line_is_thirteen_cells_in_the_middle_row() {
    let cells = seed_middle_line_starter(50, 40);
    assert_eq!(cells.len(), 2000);
    let live = alive_positions(&cells, 50);
    // Middle row 20, middle column 25: columns 19 through 31 inclusive.
    let expected: Vec<(usize, usize)> = (19..=31).map(|c| (20usize, c)).collect();
    assert_eq!(live, expected);
}

#[test]
fn pentadecathlon_mask_matches_the_formula() {
    let cells = seed_pentadecathlon(50, 40);
    assert_eq!(cells.len(), 2000);
    let live = alive_positions(&cells, 50);
    // Rows 19..=21, columns 21..=28, minus the two middle-row holes at
    // columns 22 and 27.
    let mut expected = Vec::new();
    for r in 19..=21usize {
        for c in 21..=28usize {
            if r == 20 && (c == 22 || c == 27) {
                continue;
            }
            expected.push((r, c));
        }
    }
    assert_eq!(live, expected);
    assert_eq!(live.len(), 22);
}

#[test]
fn catalog_has_the_three_named_seeds() {
    let seeds = get_seeds();
    let labels: Vec<&str> = seeds.iter().map(|s| s.label.as_str()).collect();
    assert_eq!(labels, vec!["Glider", "Line", "Pentadecathlon"]);
    for seed in &seeds {
        assert_eq!(seed.cellules.len(), 2000);
    }
}

#[test]
fn find_seed_returns_first_match_or_none() {
    let seeds = get_seeds();
    assert_eq!(find_seed(&seeds, &"Line".to_string()), Some(1));
    assert_eq!(find_seed(&seeds, &"Glider".to_string()), Some(0));
    assert_eq!(find_seed(&seeds, &"No Such Seed".to_string()), None);
}

#[test]
fn glider_returns_translated_after_its_period() {
    let seeds = get_seeds();
    let glider_idx = find_seed(&seeds, &"Glider".to_string()).unwrap();
    let mut state = GameState {
        active: false,
        cellules: seeds[glider_idx].cellules.clone(),
        cellules_width: 50,
        cellules_height: 40,
    };
    let original = alive_positions(&state.cellules, 50);
    assert_eq!(original, vec![(0, 1), (1, 2), (2, 0), (2, 1), (2, 2)]);
    for _ in 0..4 {
        state.step();
    }
    // After its period of 4 the glider is the original shape translated one
    // row down and one column right (with toroidal wrap).
    let mut translated = Vec::new();
    for _ in 0..2000 {
        translated.push(Cellule {
            life_state: LifeState::Dead,
        });
    }
    for &(r, c) in &original {
        translated[((r + 1) % 40) * 50 + (c + 1) % 50] = Cellule {
            life_state: LifeState::Alive,
        };
    }
    assert!(game_grids_are_identical(state.cellules.clone(), translated));
}
