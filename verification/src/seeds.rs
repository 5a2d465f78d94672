//! Named initial grids: raw-array parsing for static patterns and procedural
//! generation for patterns defined relative to the grid center.
use vstd::prelude::*;
use crate::game::{lemma_flat_idx_bound, Cellule, LifeState};
use vstd::arithmetic::div_mod::lemma_fundamental_div_mod_converse;

verus! {

/// A label paired with an initial grid; immutable once produced.
#[derive(Clone, Debug, PartialEq)]
pub struct Seed {
    pub label: String,
    pub cellules: Vec<Cellule>,
}

/// The cell sequence encoded by a raw integer array: `1` gives a live cell,
/// every other value a dead one, order preserved.
pub open spec fn parse_raw_seed_spec(raw: Seq<i32>) -> Seq<Cellule> {
    Seq::new(
        raw.len(),
        |i: int|
            Cellule {
                life_state: if raw[i] == 1 {
                    LifeState::Alive
                } else {
                    LifeState::Dead
                },
            },
    )
}

/// Maps a raw integer array one to one onto cells.
pub fn parse_raw_seed(raw_seed: Vec<i32>) -> (r: Vec<Cellule>)
    ensures
        r@ == parse_raw_seed_spec(raw_seed@),
{
    let mut r: Vec<Cellule> = Vec::new();
    let n = raw_seed.len();
    let mut i: usize = 0;
    while i < n
        invariant
            i <= n,
            n == raw_seed@.len(),
            r@ =~= parse_raw_seed_spec(raw_seed@).take(i as int),
        decreases n - i,
    {
        if raw_seed[i] == 1 {
            r.push(Cellule { life_state: LifeState::Alive });
        } else {
            r.push(Cellule { life_state: LifeState::Dead });
        }
        i = i + 1;
    }
    proof {
        assert(parse_raw_seed_spec(raw_seed@).take(n as int) =~= parse_raw_seed_spec(raw_seed@));
    }
    r
}

/// The raw array of the glider pattern on the 50-wide, 40-tall grid: the
/// classic five-cell glider in the top-left corner, rows 0 to 2.
pub open spec fn glider_raw_values() -> Seq<i32> {
    Seq::new(
        2000,
        |i: int|
            if i == 1 || i == 52 || i == 100 || i == 101 || i == 102 {
                1i32
            } else {
                0i32
            },
    )
}

pub fn seed_raw_glider_array() -> (r: Vec<i32>)
    ensures
        r@ == glider_raw_values(),
{
    let mut v: Vec<i32> = Vec::new();
    let mut i: usize = 0;
    while i < 2000
        invariant
            i <= 2000,
            v@ =~= glider_raw_values().take(i as int),
        decreases 2000 - i,
    {
        if i == 1 || i == 52 || i == 100 || i == 101 || i == 102 {
            v.push(1);
        } else {
            v.push(0);
        }
        i = i + 1;
    }
    proof {
        assert(glider_raw_values().take(2000) =~= glider_raw_values());
    }
    v
}

/// The centered horizontal line pattern: the 13 cells nearest the center of
/// the middle row are alive, everything else is dead.
pub open spec fn middle_line_cell(w: int, h: int, r: int, c: int) -> Cellule {
    let mr = h / 2;
    let mc = w / 2;
    if r == mr && c < mc + 7 && c > mc - 7 {
        Cellule { life_state: LifeState::Alive }
    } else {
        Cellule { life_state: LifeState::Dead }
    }
}

/// The centered line pattern at flat index `i`.
pub open spec fn middle_line_cell_at(w: int, h: int, i: int) -> Cellule {
    middle_line_cell(w, h, i / w, i % w)
}

/// The centered pentadecathlon oscillator: a three-row band around the middle
/// row, eight columns wide around the middle column, all alive except the two
/// middle-row cells three left and two right of the middle column.
pub open spec fn pentadecathlon_cell(w: int, h: int, r: int, c: int) -> Cellule {
    let mr = h / 2;
    let mc = w / 2;
    if (mr <= r + 1 && mr >= r - 1) && (c < mc + 4 && c > mc - 5) {
        if mr == r && (mc == c + 3 || mc == c - 2) {
            Cellule { life_state: LifeState::Dead }
        } else {
            Cellule { life_state: LifeState::Alive }
        }
    } else {
        Cellule { life_state: LifeState::Dead }
    }
}

/// The pentadecathlon pattern at flat index `i`.
pub open spec fn pentadecathlon_cell_at(w: int, h: int, i: int) -> Cellule {
    pentadecathlon_cell(w, h, i / w, i % w)
}

pub fn seed_middle_line_starter(cellule_width: i32, cellule_height: i32) -> (r: Vec<Cellule>)
    requires
        0 <= cellule_width,
        0 <= cellule_height,
        cellule_width * cellule_height <= usize::MAX,
    ensures
        r@.len() == cellule_width * cellule_height,
        forall|i: int|
            0 <= i < r@.len() ==> r@[i] == middle_line_cell_at(
                cellule_width as int,
                cellule_height as int,
                i,
            ),
        forall|rr: int, cc: int|
            0 <= rr < cellule_height && 0 <= cc < cellule_width ==> r@[rr * (cellule_width as int)
                + cc] == middle_line_cell(cellule_width as int, cellule_height as int, rr, cc),
{
    let ghost wi = cellule_width as int;
    let ghost hi = cellule_height as int;
    let middle_row_number: i32 = cellule_height / 2;
    let middle_column_number: i32 = cellule_width / 2;
    let mut cellules: Vec<Cellule> = Vec::new();
    let mut row_index: i32 = 0;
    while row_index < cellule_height
        invariant
            0 <= row_index <= cellule_height,
            0 <= wi,
            0 <= hi,
            middle_row_number == hi / 2,
            middle_column_number == wi / 2,
            wi * hi <= usize::MAX,
            wi == cellule_width as int,
            hi == cellule_height as int,
            cellules@.len() == (row_index as int) * wi,
            forall|i: int| 0 <= i < cellules@.len() ==> cellules@[i] == middle_line_cell_at(wi, hi, i),
        decreases cellule_height - row_index,
    {
        let mut column_index: i32 = 0;
        proof {
            assert((row_index as int) * wi + wi <= hi * wi) by (nonlinear_arith)
                requires
                    0 <= row_index as int,
                    (row_index as int) < hi,
                    0 <= wi,
            ;
            assert(hi * wi == wi * hi) by (nonlinear_arith);
        }
        while column_index < cellule_width
            invariant
                0 <= column_index <= cellule_width,
                0 <= row_index,
                (row_index as int) < hi,
                0 <= wi,
                0 <= hi,
                middle_row_number == hi / 2,
                middle_column_number == wi / 2,
                wi * hi <= usize::MAX,
                (row_index as int) * wi + wi <= wi * hi,
                wi == cellule_width as int,
                hi == cellule_height as int,
                cellules@.len() == (row_index as int) * wi + column_index,
                forall|i: int|
                    0 <= i < cellules@.len() ==> cellules@[i] == middle_line_cell_at(wi, hi, i),
            decreases cellule_width - column_index,
        {
            let ghost n = cellules@.len() as int;
            if row_index == middle_row_number && column_index < middle_column_number + 7
                && column_index > middle_column_number - 7 {
                cellules.push(Cellule { life_state: LifeState::Alive });
            } else {
                cellules.push(Cellule { life_state: LifeState::Dead });
            }
            proof {
                lemma_fundamental_div_mod_converse(n, wi, row_index as int, column_index as int);
                assert(cellules@[n] == middle_line_cell_at(wi, hi, n));
            }
            column_index = column_index + 1;
        }
        row_index = row_index + 1;
        proof {
            assert((row_index as int) * wi == (row_index as int - 1) * wi + wi) by (
            nonlinear_arith);
        }
    }
    proof {
        assert forall|rr: int, cc: int| 0 <= rr < hi && 0 <= cc < wi implies cellules@[rr * wi + cc]
            == middle_line_cell(wi, hi, rr, cc) by {
            lemma_flat_idx_bound(rr, cc, wi, hi);
            assert(hi * wi == wi * hi) by (nonlinear_arith);
            lemma_fundamental_div_mod_converse(rr * wi + cc, wi, rr, cc);
        }
    }
    cellules
}

pub fn seed_pentadecathlon(cellule_width: i32, cellule_height: i32) -> (r: Vec<Cellule>)
    requires
        0 <= cellule_width,
        0 <= cellule_height,
        cellule_width * cellule_height <= usize::MAX,
    ensures
        r@.len() == cellule_width * cellule_height,
        forall|i: int|
            0 <= i < r@.len() ==> r@[i] == pentadecathlon_cell_at(
                cellule_width as int,
                cellule_height as int,
                i,
            ),
        forall|rr: int, cc: int|
            0 <= rr < cellule_height && 0 <= cc < cellule_width ==> r@[rr * (cellule_width as int)
                + cc] == pentadecathlon_cell(cellule_width as int, cellule_height as int, rr, cc),
{
    let ghost wi = cellule_width as int;
    let ghost hi = cellule_height as int;
    let middle_row_number: i32 = cellule_height / 2;
    let middle_column_number: i32 = cellule_width / 2;
    let mut cellules: Vec<Cellule> = Vec::new();
    let mut row_index: i32 = 0;
    while row_index < cellule_height
        invariant
            0 <= row_index <= cellule_height,
            0 <= wi,
            0 <= hi,
            middle_row_number == hi / 2,
            middle_column_number == wi / 2,
            wi * hi <= usize::MAX,
            wi == cellule_width as int,
            hi == cellule_height as int,
            cellules@.len() == (row_index as int) * wi,
            forall|i: int|
                0 <= i < cellules@.len() ==> cellules@[i] == pentadecathlon_cell_at(wi, hi, i),
        decreases cellule_height - row_index,
    {
        let mut column_index: i32 = 0;
        proof {
            assert((row_index as int) * wi + wi <= hi * wi) by (nonlinear_arith)
                requires
                    0 <= row_index as int,
                    (row_index as int) < hi,
                    0 <= wi,
            ;
            assert(hi * wi == wi * hi) by (nonlinear_arith);
        }
        while column_index < cellule_width
            invariant
                0 <= column_index <= cellule_width,
                0 <= row_index,
                (row_index as int) < hi,
                0 <= wi,
                0 <= hi,
                middle_row_number == hi / 2,
                middle_column_number == wi / 2,
                wi * hi <= usize::MAX,
                (row_index as int) * wi + wi <= wi * hi,
                wi == cellule_width as int,
                hi == cellule_height as int,
                cellules@.len() == (row_index as int) * wi + column_index,
                forall|i: int|
                    0 <= i < cellules@.len() ==> cellules@[i] == pentadecathlon_cell_at(wi, hi, i),
            decreases cellule_width - column_index,
        {
            let ghost n = cellules@.len() as int;
            if (middle_row_number <= row_index + 1 && middle_row_number >= row_index - 1) && (
            column_index < middle_column_number + 4 && column_index > middle_column_number - 5) {
                if middle_row_number == row_index && (column_index == middle_column_number - 3
                    || column_index == middle_column_number + 2) {
                    cellules.push(Cellule { life_state: LifeState::Dead });
                } else {
                    cellules.push(Cellule { life_state: LifeState::Alive });
                }
            } else {
                cellules.push(Cellule { life_state: LifeState::Dead });
            }
            proof {
                lemma_fundamental_div_mod_converse(n, wi, row_index as int, column_index as int);
                assert(cellules@[n] == pentadecathlon_cell_at(wi, hi, n));
            }
            column_index = column_index + 1;
        }
        row_index = row_index + 1;
        proof {
            assert((row_index as int) * wi == (row_index as int - 1) * wi + wi) by (
            nonlinear_arith);
        }
    }
    proof {
        assert forall|rr: int, cc: int| 0 <= rr < hi && 0 <= cc < wi implies cellules@[rr * wi + cc]
            == pentadecathlon_cell(wi, hi, rr, cc) by {
            lemma_flat_idx_bound(rr, cc, wi, hi);
            assert(hi * wi == wi * hi) by (nonlinear_arith);
            lemma_fundamental_div_mod_converse(rr * wi + cc, wi, rr, cc);
        }
    }
    cellules
}

/// The fixed catalog of named initial grids, each 2000 cells for the 50-wide,
/// 40-tall reference grid.
#[verifier::rlimit(50)]
pub fn get_seeds() -> (r: Vec<Seed>)
    ensures
        r@.len() == 3,
        r@[0].label@ == "Glider"@,
        r@[0].cellules@ == parse_raw_seed_spec(glider_raw_values()),
        r@[1].label@ == "Line"@,
        r@[1].cellules@ == Seq::new(2000, |i: int| middle_line_cell_at(50, 40, i)),
        r@[2].label@ == "Pentadecathlon"@,
        r@[2].cellules@ == Seq::new(2000, |i: int| pentadecathlon_cell_at(50, 40, i)),
{
    let mut seeds: Vec<Seed> = Vec::new();
    seeds.push(Seed { label: "Glider".to_owned(), cellules: parse_raw_seed(seed_raw_glider_array()) });
    let line = seed_middle_line_starter(50, 40);
    proof {
        assert(line@ =~= Seq::new(2000, |i: int| middle_line_cell_at(50, 40, i)));
    }
    seeds.push(Seed { label: "Line".to_owned(), cellules: line });
    let penta = seed_pentadecathlon(50, 40);
    proof {
        assert(penta@ =~= Seq::new(2000, |i: int| pentadecathlon_cell_at(50, 40, i)));
    }
    seeds.push(Seed { label: "Pentadecathlon".to_owned(), cellules: penta });
    seeds
}

/// Looks a label up in the catalog, returning the position of the first seed
/// carrying it, or nothing when no seed does.
pub fn find_seed(seeds: &Vec<Seed>, label: &String) -> (r: Option<usize>)
    ensures
        match r {
            Some(i) => (i as int) < seeds@.len() && seeds@[i as int].label@ == label@ && (forall|
                j: int,
            |
                0 <= j < i ==> seeds@[j].label@ != label@),
            None => forall|j: int| 0 <= j < seeds@.len() ==> seeds@[j].label@ != label@,
        },
{
    let n = seeds.len();
    let mut i: usize = 0;
    while i < n
        invariant
            i <= n,
            n == seeds@.len(),
            forall|j: int| 0 <= j < i ==> seeds@[j].label@ != label@,
        decreases n - i,
    {
        if seeds[i].label.eq(label) {
            return Some(i);
        }
        i = i + 1;
    }
    None
}

} // verus!
