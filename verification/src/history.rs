//! A bounded record of past grid snapshots, used to detect that the
//! simulation has entered a cycle.
use vstd::prelude::*;
use crate::game::{grids_identical, Cellule};

verus! {

/// The most snapshots the history ever records.
pub const MAXIMUM_LOOP_TURN_COUNT: usize = 1600;

/// An ordered record of past grid snapshots, oldest first, bounded to
/// `MAXIMUM_LOOP_TURN_COUNT` entries.
pub struct History {
    pub previous_steps: Vec<Vec<Cellule>>,
}

impl History {
    /// The history invariant: the record never exceeds its capacity.
    pub open spec fn wf(self) -> bool {
        self.previous_steps@.len() <= MAXIMUM_LOOP_TURN_COUNT
    }

    /// Whether some recorded snapshot is identical to `current_grid`; if so,
    /// the simulation has entered a cycle. Afterwards `current_grid` is
    /// appended to the record, evicting the oldest snapshot first whenever
    /// the record is full, so the record never exceeds its capacity.
    pub fn is_in_endless_loop(&mut self, current_grid: Vec<Cellule>) -> (r: bool)
        requires
            old(self).wf(),
        ensures
            final(self).wf(),
            r == (exists|k: int|
                0 <= k < old(self).previous_steps@.len() && grids_identical(
                    #[trigger] old(self).previous_steps@[k]@,
                    current_grid@,
                )),
            old(self).previous_steps@.len() < MAXIMUM_LOOP_TURN_COUNT ==> final(self).previous_steps@
                == old(self).previous_steps@.push(current_grid),
            old(self).previous_steps@.len() == MAXIMUM_LOOP_TURN_COUNT ==> final(self).previous_steps@
                == old(self).previous_steps@.skip(1).push(current_grid),
    {
        let mut in_endless_loop = false;
        let n = self.previous_steps.len();
        let mut k: usize = 0;
        while k < n
            invariant
                k <= n,
                *self == *old(self),
                n == self.previous_steps@.len(),
                in_endless_loop == (exists|j: int|
                    0 <= j < k && grids_identical(
                        #[trigger] self.previous_steps@[j]@,
                        current_grid@,
                    )),
            decreases n - k,
        {
            if crate::game::grids_equal(&self.previous_steps[k], &current_grid) {
                in_endless_loop = true;
            }
            k = k + 1;
        }
        if self.previous_steps.len() >= MAXIMUM_LOOP_TURN_COUNT {
            self.previous_steps.remove(0);
        }
        self.previous_steps.push(current_grid);
        in_endless_loop
    }

    /// Empties the record, for the start of an independent run.
    pub fn clear_previous_steps(&mut self)
        ensures
            final(self).previous_steps@ == Seq::<Vec<Cellule>>::empty(),
    {
        self.previous_steps = Vec::new();
    }
}

} // verus!
