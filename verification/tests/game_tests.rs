use toroidal_life::game::{
    deserialize_string_into_cellules, game_grids_are_identical, serialize_cellules_to_string,
    wrap, Cellule, GameState, LifeState,
};

fn dead() -> Cellule {
    Cellule {
        life_state: LifeState::Dead,
    }
}

fn alive() -> Cellule {
    Cellule {
        life_state: LifeState::Alive,
    }
}

fn grid_with_live(width: usize, height: usize, live: &[(usize, usize)]) -> GameState {
    let mut cellules = Vec::new();
    for _ in 0..width * height {
        cellules.push(dead());
    }
    for &(r, c) in live {
        cellules[r * width + c] = alive();
    }
    GameState {
        active: false,
        cellules,
        cellules_width: width,
        cellules_height: height,
    }
}

fn live_positions(state: &GameState) -> Vec<(usize, usize)> {
    let mut out = Vec::new();
    for r in 0..state.cellules_height {
        for c in 0..state.cellules_width {
            if state.cellules[r * state.cellules_width + c].alive() {
                out.push((r, c));
            }
        }
    }
    out
}

#[test]
fn cellule_set_and_query() {
    let mut c = dead();
    assert!(!c.alive());
    c.set_alive();
    assert!(c.alive());
    c.set_dead();
    assert!(!c.alive());
}

#[test]
fn neighbor_counts_drive_rules() {
    let two = [alive(), alive(), dead(), dead(), dead(), dead(), dead(), dead()];
    let three = [alive(), alive(), alive(), dead(), dead(), dead(), dead(), dead()];
    let four = [alive(), alive(), alive(), alive(), dead(), dead(), dead(), dead()];
    let one = [alive(), dead(), dead(), dead(), dead(), dead(), dead(), dead()];
    assert_eq!(Cellule::count_alive_neighbors(&two), 2);
    assert_eq!(Cellule::count_alive_neighbors(&four), 4);
    assert!(Cellule::alone(&one));
    assert!(!Cellule::alone(&two));
    assert!(Cellule::overpopulated(&four));
    assert!(!Cellule::overpopulated(&three));
    assert!(Cellule::can_be_revived(&three));
    assert!(!Cellule::can_be_revived(&two));
}

#[test]
fn wrap_maps_single_overshoots() {
    assert_eq!(wrap(-1, 40), 39);
    assert_eq!(wrap(40, 40), 0);
    assert_eq!(wrap(5, 40), 5);
    assert_eq!(wrap(0, 1), 0);
}

#[test]
fn lone_cell_dies() {
    let mut g = grid_with_live(5, 5, &[(2, 2)]);
    g.step();
    assert_eq!(live_positions(&g), vec![]);
}

#[test]
fn block_is_still_life() {
    let block = [(1, 1), (1, 2), (2, 1), (2, 2)];
    let mut g = grid_with_live(6, 6, &block);
    g.step();
    assert_eq!(live_positions(&g), vec![(1, 1), (1, 2), (2, 1), (2, 2)]);
}

#[test]
fn dead_cell_with_three_neighbors_is_born() {
    // A vertical blinker turns horizontal: the side cells of the middle row
    // are born, the top and bottom die.
    let mut g = grid_with_live(5, 5, &[(1, 2), (2, 2), (3, 2)]);
    g.step();
    assert_eq!(live_positions(&g), vec![(2, 1), (2, 2), (2, 3)]);
    g.step();
    assert_eq!(live_positions(&g), vec![(1, 2), (2, 2), (3, 2)]);
}

#[test]
fn overpopulated_cell_dies() {
    // The center of a plus shape has four live neighbors and dies.
    let mut g = grid_with_live(7, 7, &[(2, 3), (3, 2), (3, 3), (3, 4), (4, 3)]);
    g.step();
    assert!(!g.cellules[3 * 7 + 3].alive());
}

#[test]
fn step_wraps_around_corners() {
    // The three live cells all touch (0, 0) only through toroidal wrap-around.
    let mut g = grid_with_live(4, 4, &[(3, 3), (3, 0), (0, 3)]);
    g.step();
    assert!(g.cellules[0].alive());
    // And symmetrically (0, 0), (0, 3), (3, 0) all touch (3, 3).
    let mut g2 = grid_with_live(4, 4, &[(0, 0), (0, 3), (3, 0)]);
    g2.step();
    assert!(g2.cellules[3 * 4 + 3].alive());
}

#[test]
fn step_is_deterministic() {
    let live = [(1, 1), (1, 2), (2, 1), (5, 7), (9, 3), (0, 0), (11, 19)];
    let mut a = grid_with_live(20, 12, &live);
    let mut b = grid_with_live(20, 12, &live);
    a.step();
    b.step();
    assert!(game_grids_are_identical(a.cellules.clone(), b.cellules.clone()));
    a.step();
    b.step();
    assert!(game_grids_are_identical(a.cellules, b.cellules));
}

#[test]
fn toggle_cellule_flips_state() {
    let mut g = grid_with_live(3, 3, &[(1, 1)]);
    g.toggle_cellule(4);
    assert!(!g.cellules[4].alive());
    g.toggle_cellule(4);
    assert!(g.cellules[4].alive());
    g.toggle_cellule(0);
    assert!(g.cellules[0].alive());
}

#[test]
fn reset_and_set_cellules() {
    let mut g = grid_with_live(3, 2, &[(0, 0), (1, 2)]);
    g.reset();
    assert_eq!(live_positions(&g), vec![]);
    g.set_cellules(vec![alive(), dead(), dead(), dead(), dead(), alive()]);
    assert_eq!(live_positions(&g), vec![(0, 0), (1, 2)]);
}

#[test]
fn grids_identical_checks_full_length() {
    let a = vec![alive(), dead(), alive()];
    let b = vec![alive(), dead(), alive()];
    assert!(game_grids_are_identical(a.clone(), b.clone()));
    // A difference at the very last index must be seen.
    let c = vec![alive(), dead(), dead()];
    assert!(!game_grids_are_identical(a.clone(), c));
    // Different lengths are a mismatch, not a panic.
    let d = vec![alive(), dead()];
    assert!(!game_grids_are_identical(a, d));
}

#[test]
fn serialize_exact_encoding() {
    let cells = vec![alive(), dead(), dead(), alive()];
    assert_eq!(serialize_cellules_to_string(cells), "1001");
    assert_eq!(serialize_cellules_to_string(Vec::new()), "");
}

#[test]
fn deserialize_maps_ones_to_alive_everything_else_to_dead() {
    let cells = deserialize_string_into_cellules("10x1".to_string());
    assert_eq!(cells.len(), 4);
    assert!(cells[0].alive());
    assert!(!cells[1].alive());
    assert!(!cells[2].alive());
    assert!(cells[3].alive());
}

#[test]
fn serialize_round_trip() {
    let original = vec![alive(), dead(), alive(), alive(), dead(), dead(), alive()];
    let text = serialize_cellules_to_string(original.clone());
    let back = deserialize_string_into_cellules(text);
    assert!(game_grids_are_identical(original, back));
}
