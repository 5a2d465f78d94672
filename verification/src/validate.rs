//! The simulation driver and the checking of a submitted trace: run the
//! step/history loop from a seed until a cycle is found or a step cap is
//! reached, then compare the submitted final grid against the recomputed one.
use vstd::prelude::*;
use crate::game::{clone_cellules, deserialize_spec, deserialize_string_into_cellules, flip,
    game_grids_are_identical, grids_identical, lemma_grids_identical_iff_eq, step_spec, Cellule,
    GameState};
use crate::history::{History, MAXIMUM_LOOP_TURN_COUNT};
use crate::seeds::{find_seed, Seed};

verus! {

/// The grid after `k` whole generations of the step transition.
pub open spec fn iter_step(cells: Seq<Cellule>, w: int, h: int, k: nat) -> Seq<Cellule>
    decreases k,
{
    if k == 0 {
        cells
    } else {
        step_spec(iter_step(cells, w, h, (k - 1) as nat), w, h)
    }
}

/// The oldest generation whose snapshot the bounded history still holds when
/// the cycle check of step `k` runs.
pub open spec fn hist_lo(k: nat) -> nat {
    if k > MAXIMUM_LOOP_TURN_COUNT {
        (k - MAXIMUM_LOOP_TURN_COUNT) as nat
    } else {
        1
    }
}

/// A cycle is detected at step `k`: the grid after `k` generations equals the
/// grid of some earlier generation whose snapshot the history still holds.
pub open spec fn loop_detected(init: Seq<Cellule>, w: int, h: int, k: nat) -> bool {
    exists|j: nat|
        hist_lo(k) <= j < k && iter_step(init, w, h, j) == iter_step(init, w, h, k)
}

proof fn lemma_iter_step_still(init: Seq<Cellule>, w: int, h: int, k: nat)
    requires
        step_spec(init, w, h) == init,
    ensures
        iter_step(init, w, h, k) == init,
    decreases k,
{
    if k > 0 {
        lemma_iter_step_still(init, w, h, (k - 1) as nat);
    }
}

/// Loop detection on a still life: a grid that one step leaves unchanged is
/// the same at every generation, so the cycle check already fires at the
/// second step, the first one whose history holds a snapshot.
pub proof fn lemma_still_life_detected(init: Seq<Cellule>, w: int, h: int)
    requires
        step_spec(init, w, h) == init,
    ensures
        forall|k: nat| #[trigger] iter_step(init, w, h, k) == init,
        loop_detected(init, w, h, 2),
{
    assert forall|k: nat| #[trigger] iter_step(init, w, h, k) == init by {
        lemma_iter_step_still(init, w, h, k);
    }
    let j: nat = 1;
    assert(hist_lo(2) <= j < 2 && iter_step(init, w, h, j) == iter_step(init, w, h, 2));
}

/// Runs the simulation loop: repeatedly steps the grid and feeds each new
/// generation to the history's cycle check, until a cycle is found or
/// `step_cap` steps have been taken. Returns how many steps were taken and
/// whether a cycle was found.
pub fn run_simulation(state: &mut GameState, history: &mut History, step_cap: usize) -> (r: (
    usize,
    bool,
))
    requires
        old(state).wf(),
        old(history).previous_steps@.len() == 0,
    ensures
        final(state).wf(),
        final(state).active == old(state).active,
        final(state).cellules_width == old(state).cellules_width,
        final(state).cellules_height == old(state).cellules_height,
        final(history).wf(),
        r.0 <= step_cap,
        final(state).cellules@ == iter_step(
            old(state).cellules@,
            old(state).cellules_width as int,
            old(state).cellules_height as int,
            r.0 as nat,
        ),
        r.1 == (r.0 >= 1 && loop_detected(
            old(state).cellules@,
            old(state).cellules_width as int,
            old(state).cellules_height as int,
            r.0 as nat,
        )),
        forall|k2: nat|
            1 <= k2 < r.0 as nat ==> !loop_detected(
                old(state).cellules@,
                old(state).cellules_width as int,
                old(state).cellules_height as int,
                k2,
            ),
        r.0 < step_cap ==> r.1,
{
    let ghost init = state.cellules@;
    let ghost wi = state.cellules_width as int;
    let ghost hi = state.cellules_height as int;
    let mut steps: usize = 0;
    let mut found = false;
    while steps < step_cap && !found
        invariant
            state.wf(),
            state.active == old(state).active,
            state.cellules_width == old(state).cellules_width,
            state.cellules_height == old(state).cellules_height,
            wi == state.cellules_width as int,
            hi == state.cellules_height as int,
            steps <= step_cap,
            state.cellules@ == iter_step(init, wi, hi, steps as nat),
            found == (steps >= 1 && loop_detected(init, wi, hi, steps as nat)),
            forall|k2: nat| 1 <= k2 < steps as nat ==> !loop_detected(init, wi, hi, k2),
            history.previous_steps@.len() == (if steps <= MAXIMUM_LOOP_TURN_COUNT {
                steps as int
            } else {
                MAXIMUM_LOOP_TURN_COUNT as int
            }),
            forall|i: int|
                0 <= i < history.previous_steps@.len() ==> #[trigger] history.previous_steps@[i]@
                    == iter_step(
                    init,
                    wi,
                    hi,
                    (steps - history.previous_steps@.len() + 1 + i) as nat,
                ),
        decreases step_cap - steps,
    {
        state.step();
        steps = steps + 1;
        proof {
            assert(iter_step(init, wi, hi, steps as nat) == step_spec(
                iter_step(init, wi, hi, (steps - 1) as nat),
                wi,
                hi,
            ));
        }
        let current = clone_cellules(&state.cellules);
        let ghost hist0 = history.previous_steps@;
        let ghost len0 = hist0.len() as int;
        found = history.is_in_endless_loop(current);
        proof {
            let s = steps as nat;
            assert(hist_lo(s) == steps - len0);
            if found {
                let k = choose|k: int|
                    0 <= k < len0 && grids_identical(#[trigger] hist0[k]@, current@);
                let j = (steps - len0 + k) as nat;
                lemma_grids_identical_iff_eq(hist0[k]@, current@);
                assert(iter_step(init, wi, hi, j) == iter_step(init, wi, hi, s));
                assert(hist_lo(s) <= j < s);
                assert(loop_detected(init, wi, hi, s));
            } else {
                if loop_detected(init, wi, hi, s) {
                    let j = choose|j: nat|
                        hist_lo(s) <= j < s && iter_step(init, wi, hi, j) == iter_step(
                            init,
                            wi,
                            hi,
                            s,
                        );
                    let k = j - (steps - len0);
                    assert(hist0[k]@ == iter_step(init, wi, hi, j));
                    lemma_grids_identical_iff_eq(hist0[k]@, current@);
                    assert(grids_identical(hist0[k]@, current@));
                    assert(false);
                }
            }
        }
    }
    (steps, found)
}

/// Why a submission could not be evaluated at all.
#[derive(Clone, Copy, Debug, PartialEq, Eq, Structural)]
pub enum ValidationError {
    /// No seed in the catalog carries the requested label.
    SeedNotFound,
    /// The submission's shape does not fit the seed it names: the declared
    /// dimensions do not describe the seed's grid, or a modification points
    /// outside it.
    MalformedInput,
}

/// The seed grid after toggling each modification index in order.
pub open spec fn apply_modifications(cells: Seq<Cellule>, mods: Seq<usize>) -> Seq<Cellule>
    decreases mods.len(),
{
    if mods.len() == 0 {
        cells
    } else {
        apply_modifications(
            cells.update(mods[0] as int, flip(cells[mods[0] as int])),
            mods.drop_first(),
        )
    }
}

proof fn lemma_apply_modifications_push(cells: Seq<Cellule>, mods: Seq<usize>, m: usize)
    ensures
        apply_modifications(cells, mods.push(m)) == ({
            let a = apply_modifications(cells, mods);
            a.update(m as int, flip(a[m as int]))
        }),
    decreases mods.len(),
{
    reveal_with_fuel(apply_modifications, 3);
    if mods.len() == 0 {
        assert(mods.push(m)[0] == m);
        assert(mods.push(m).drop_first() =~= Seq::<usize>::empty());
    } else {
        let cells2 = cells.update(mods[0] as int, flip(cells[mods[0] as int]));
        assert(mods.push(m)[0] == mods[0]);
        assert(mods.push(m).drop_first() =~= mods.drop_first().push(m));
        lemma_apply_modifications_push(cells2, mods.drop_first(), m);
    }
}

proof fn lemma_apply_modifications_len(cells: Seq<Cellule>, mods: Seq<usize>)
    requires
        forall|i: int| 0 <= i < mods.len() ==> (#[trigger] mods[i] as int) < cells.len(),
    ensures
        apply_modifications(cells, mods).len() == cells.len(),
    decreases mods.len(),
{
    if mods.len() > 0 {
        let cells2 = cells.update(mods[0] as int, flip(cells[mods[0] as int]));
        assert(forall|i: int|
            0 <= i < mods.drop_first().len() ==> (#[trigger] mods.drop_first()[i] as int)
                < cells2.len());
        lemma_apply_modifications_len(cells2, mods.drop_first());
    }
}

/// The seed at position `idx` is the first one in the catalog carrying the
/// requested label.
pub open spec fn is_first_match(seeds: Seq<Seed>, label: Seq<char>, idx: int) -> bool {
    &&& 0 <= idx < seeds.len()
    &&& seeds[idx].label@ == label
    &&& forall|j: int| 0 <= j < idx ==> seeds[j].label@ != label
}

proof fn lemma_first_match_unique(seeds: Seq<Seed>, label: Seq<char>, a: int, b: int)
    requires
        is_first_match(seeds, label, a),
        is_first_match(seeds, label, b),
    ensures
        a == b,
{
    if a < b {
        assert(seeds[a].label@ != label);
    } else if b < a {
        assert(seeds[b].label@ != label);
    }
}

/// A submission's shape fits the seed it names: the declared dimensions
/// describe the seed's grid (within the machine limits of coordinate
/// arithmetic) and every modification points into it.
pub open spec fn submission_shape_ok(
    cells: Seq<Cellule>,
    w: usize,
    h: usize,
    mods: Seq<usize>,
) -> bool {
    &&& w * h == cells.len()
    &&& w <= isize::MAX
    &&& h <= isize::MAX
    &&& forall|i: int| 0 <= i < mods.len() ==> (#[trigger] mods[i] as int) < cells.len()
}

/// What a finished run reports: `steps` is where the loop stopped (the first
/// detected cycle, or the cap), and `valid` says whether the submitted
/// encoded grid is cell-identical to the recomputed grid of that generation.
pub open spec fn run_outcome_ok(
    start: Seq<Cellule>,
    w: int,
    h: int,
    step_cap: usize,
    submitted: Seq<char>,
    valid: bool,
    steps: usize,
) -> bool {
    &&& steps <= step_cap
    &&& valid == grids_identical(deserialize_spec(submitted), iter_step(start, w, h, steps as nat))
    &&& (steps < step_cap ==> loop_detected(start, w, h, steps as nat))
    &&& forall|k2: nat| 1 <= k2 < steps as nat ==> !loop_detected(start, w, h, k2)
}

/// Evaluates a submitted trace: looks the seed label up in the catalog,
/// builds a grid from the seed's cells and the submitted dimensions, applies
/// the modifications as cell toggles, runs the step/history loop to a cycle
/// or to `step_cap`, and compares the submitted encoded grid cell by cell
/// against the recomputed final grid. Returns that verdict and the number of
/// steps taken, or the error saying why no run was possible.
#[verifier::rlimit(50)]
pub fn evaluate_submission(
    seeds: &Vec<Seed>,
    seed_label: &String,
    cellules_width: usize,
    cellules_height: usize,
    modifications: &Vec<usize>,
    submitted_cellules: &String,
    step_cap: usize,
) -> (r: Result<(bool, usize), ValidationError>)
    ensures
        (r == Result::<(bool, usize), ValidationError>::Err(ValidationError::SeedNotFound)) <==> (
        forall|j: int| 0 <= j < seeds@.len() ==> seeds@[j].label@ != seed_label@),
        (r == Result::<(bool, usize), ValidationError>::Err(ValidationError::MalformedInput))
            <==> (exists|idx: int|
            #[trigger] is_first_match(seeds@, seed_label@, idx) && !submission_shape_ok(
                seeds@[idx].cellules@,
                cellules_width,
                cellules_height,
                modifications@,
            )),
        r is Ok <==> (exists|idx: int|
            #[trigger] is_first_match(seeds@, seed_label@, idx) && submission_shape_ok(
                seeds@[idx].cellules@,
                cellules_width,
                cellules_height,
                modifications@,
            )),
        r is Ok ==> (exists|idx: int|
            #[trigger] is_first_match(seeds@, seed_label@, idx) && run_outcome_ok(
                apply_modifications(seeds@[idx].cellules@, modifications@),
                cellules_width as int,
                cellules_height as int,
                step_cap,
                submitted_cellules@,
                r->Ok_0.0,
                r->Ok_0.1,
            )),
{
    let seed_idx = match find_seed(seeds, seed_label) {
        Some(i) => i,
        None => {
            return Err(ValidationError::SeedNotFound);
        },
    };
    let ghost gidx = seed_idx as int;
    proof {
        assert(is_first_match(seeds@, seed_label@, gidx));
        assert forall|idx: int| #[trigger] is_first_match(seeds@, seed_label@, idx) implies idx
            == gidx by {
            lemma_first_match_unique(seeds@, seed_label@, idx, gidx);
        }
    }
    let seed_cells = clone_cellules(&seeds[seed_idx].cellules);
    let n = seed_cells.len();
    let shape_fits = match cellules_width.checked_mul(cellules_height) {
        Some(p) => p == n,
        None => false,
    };
    if !shape_fits || cellules_width > (isize::MAX as usize) || cellules_height > (
    isize::MAX as usize) {
        proof {
            assert(!submission_shape_ok(
                seeds@[gidx].cellules@,
                cellules_width,
                cellules_height,
                modifications@,
            ));
        }
        return Err(ValidationError::MalformedInput);
    }
    let mod_count = modifications.len();
    let mut i: usize = 0;
    while i < mod_count
        invariant
            i <= mod_count,
            mod_count == modifications@.len(),
            n == seed_cells@.len(),
            is_first_match(seeds@, seed_label@, gidx),
            forall|idx: int| #[trigger] is_first_match(seeds@, seed_label@, idx) ==> idx == gidx,
            seed_cells@ == seeds@[gidx].cellules@,
            forall|j: int| 0 <= j < i ==> (#[trigger] modifications@[j] as int) < n,
        decreases mod_count - i,
    {
        if modifications[i] >= n {
            proof {
                assert(!submission_shape_ok(
                    seeds@[gidx].cellules@,
                    cellules_width,
                    cellules_height,
                    modifications@,
                ));
            }
            return Err(ValidationError::MalformedInput);
        }
        i = i + 1;
    }
    let ghost start_cells = seed_cells@;
    proof {
        assert(submission_shape_ok(
            seeds@[gidx].cellules@,
            cellules_width,
            cellules_height,
            modifications@,
        ));
    }
    let mut state = GameState {
        active: false,
        cellules: seed_cells,
        cellules_width,
        cellules_height,
    };
    let mut i: usize = 0;
    while i < mod_count
        invariant
            i <= mod_count,
            mod_count == modifications@.len(),
            n == start_cells.len(),
            is_first_match(seeds@, seed_label@, gidx),
            forall|idx: int| #[trigger] is_first_match(seeds@, seed_label@, idx) ==> idx == gidx,
            start_cells == seeds@[gidx].cellules@,
            submission_shape_ok(start_cells, cellules_width, cellules_height, modifications@),
            forall|j: int| 0 <= j < mod_count ==> (#[trigger] modifications@[j] as int) < n,
            state.cellules@ == apply_modifications(start_cells, modifications@.take(i as int)),
            state.cellules@.len() == n,
            state.active == false,
            state.cellules_width == cellules_width,
            state.cellules_height == cellules_height,
        decreases mod_count - i,
    {
        proof {
            lemma_apply_modifications_push(
                start_cells,
                modifications@.take(i as int),
                modifications@[i as int],
            );
            assert(modifications@.take(i as int).push(modifications@[i as int])
                =~= modifications@.take(i as int + 1));
        }
        state.toggle_cellule(modifications[i]);
        i = i + 1;
    }
    proof {
        assert(modifications@.take(mod_count as int) =~= modifications@);
    }
    let mut history = History { previous_steps: Vec::new() };
    let (steps, _looped) = run_simulation(&mut state, &mut history, step_cap);
    let submitted_grid = deserialize_string_into_cellules(submitted_cellules.clone());
    let computed_grid = clone_cellules(&state.cellules);
    let valid = game_grids_are_identical(submitted_grid, computed_grid);
    proof {
        assert(run_outcome_ok(
            apply_modifications(seeds@[gidx].cellules@, modifications@),
            cellules_width as int,
            cellules_height as int,
            step_cap,
            submitted_cellules@,
            valid,
            steps,
        ));
    }
    Ok((valid, steps))
}

} // verus!
