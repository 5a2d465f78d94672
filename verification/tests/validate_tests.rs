use toroidal_life::game::{serialize_cellules_to_string, GameState};
use toroidal_life::history::History;
use toroidal_life::seeds::get_seeds;
use toroidal_life::validate::{evaluate_submission, run_simulation, ValidationError};

#[test]
fn run_simulation_stops_when_a_cycle_is_found() {
    let seeds = get_seeds();
    // The pentadecathlon is an oscillator with period 15. The initial grid is
    // never recorded, so the first repeat the history can see is generation
    // 16 matching the recorded generation 1.
    let mut state = GameState {
        active: false,
        cellules: seeds[2].cellules.clone(),
        cellules_width: 50,
        cellules_height: 40,
    };
    let mut history = History {
        previous_steps: Vec::new(),
    };
    let (steps, looped) = run_simulation(&mut state, &mut history, 4000);
    assert!(looped);
    assert_eq!(steps, 16);
}

#[test]
fn run_simulation_respects_the_cap() {
    let seeds = get_seeds();
    let mut state = GameState {
        active: false,
        cellules: seeds[0].cellules.clone(),
        cellules_width: 50,
        cellules_height: 40,
    };
    let mut history = History {
        previous_steps: Vec::new(),
    };
    let (steps, looped) = run_simulation(&mut state, &mut history, 3);
    assert_eq!(steps, 3);
    assert!(!looped);
}

fn computed_final_serialization(seed_idx: usize, modifications: &[usize], cap: usize) -> String {
    let seeds = get_seeds();
    let mut state = GameState {
        active: false,
        cellules: seeds[seed_idx].cellules.clone(),
        cellules_width: 50,
        cellules_height: 40,
    };
    for &m in modifications {
        state.toggle_cellule(m);
    }
    let mut history = History {
        previous_steps: Vec::new(),
    };
    run_simulation(&mut state, &mut history, cap);
    serialize_cellules_to_string(state.cellules)
}

#[test]
fn matching_submission_is_valid() {
    let seeds = get_seeds();
    let submitted = computed_final_serialization(0, &[], 100);
    let r = evaluate_submission(&seeds, &"Glider".to_string(), 50, 40, &vec![], &submitted, 100);
    assert_eq!(r, Ok((true, 100)));
}

#[test]
fn flipped_bit_makes_submission_invalid() {
    let seeds = get_seeds();
    let submitted = computed_final_serialization(0, &[], 100);
    let mut flipped: Vec<char> = submitted.chars().collect();
    flipped[777] = if flipped[777] == '1' { '0' } else { '1' };
    let flipped: String = flipped.into_iter().collect();
    let r = evaluate_submission(&seeds, &"Glider".to_string(), 50, 40, &vec![], &flipped, 100);
    assert_eq!(r, Ok((false, 100)));
}

#[test]
fn modifications_are_applied_before_the_run() {
    let seeds = get_seeds();
    let mods = vec![1500usize, 1501, 1551, 1550];
    let submitted = computed_final_serialization(0, &mods, 50);
    let r = evaluate_submission(&seeds, &"Glider".to_string(), 50, 40, &mods, &submitted, 50);
    assert_eq!(r, Ok((true, 50)));
    // The same submission without the modifications no longer matches.
    let r2 = evaluate_submission(&seeds, &"Glider".to_string(), 50, 40, &vec![], &submitted, 50);
    assert_eq!(r2, Ok((false, 50)));
}

#[test]
fn unknown_seed_label_is_fatal() {
    let seeds = get_seeds();
    let r = evaluate_submission(&seeds, &"Quux".to_string(), 50, 40, &vec![], &"".to_string(), 10);
    assert_eq!(r, Err(ValidationError::SeedNotFound));
}

#[test]
fn wrong_dimensions_are_malformed() {
    let seeds = get_seeds();
    let r = evaluate_submission(&seeds, &"Line".to_string(), 40, 40, &vec![], &"".to_string(), 10);
    assert_eq!(r, Err(ValidationError::MalformedInput));
}

#[test]
fn out_of_range_modification_is_malformed() {
    let seeds = get_seeds();
    let r = evaluate_submission(
        &seeds,
        &"Line".to_string(),
        50,
        40,
        &vec![2000],
        &"".to_string(),
        10,
    );
    assert_eq!(r, Err(ValidationError::MalformedInput));
}

#[test]
fn submission_of_wrong_length_is_invalid_not_a_panic() {
    let seeds = get_seeds();
    let r = evaluate_submission(&seeds, &"Line".to_string(), 50, 40, &vec![], &"101".to_string(), 5);
    assert_eq!(r, Ok((false, 5)));
}
