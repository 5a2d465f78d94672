use toroidal_life::game::{Cellule, LifeState};
use toroidal_life::render::{rasterize_seed_cellules, seed_output_filename};

fn grid_with_single_live(idx: usize) -> Vec<Cellule> {
    let mut cellules = Vec::new();
    for _ in 0..2000 {
        cellules.push(Cellule {
            life_state: LifeState::Dead,
        });
    }
    cellules[idx] = Cellule {
        life_state: LifeState::Alive,
    };
    cellules
}

#[test]
fn rasterize_paints_ten_by_ten_blocks() {
    // Cell (row 1, col 2) of the 50-wide grid is alive: flat index 52.
    let cellules = grid_with_single_live(52);
    let (buf, anomaly) = rasterize_seed_cellules(&cellules);
    assert!(!anomaly);
    assert_eq!(buf.len(), 600000);
    // A pixel inside that cell's block is black on all three channels.
    let p = (15 * 500 + 25) * 3;
    assert_eq!(&buf[p..p + 3], &[0, 0, 0]);
    // The top-left pixel belongs to the dead cell 0 and is white.
    assert_eq!(&buf[0..3], &[255, 255, 255]);
    // A pixel just outside the live block is white again.
    let q = (15 * 500 + 30) * 3;
    assert_eq!(&buf[q..q + 3], &[255, 255, 255]);
}

#[test]
fn rasterize_block_boundaries_are_exact() {
    let cellules = grid_with_single_live(0);
    let (buf, anomaly) = rasterize_seed_cellules(&cellules);
    assert!(!anomaly);
    for y in 0..20 {
        for x in 0..20 {
            let p = (y * 500 + x) * 3;
            let expected = if y < 10 && x < 10 { 0 } else { 255 };
            assert_eq!(buf[p], expected);
            assert_eq!(buf[p + 1], expected);
            assert_eq!(buf[p + 2], expected);
        }
    }
}

#[test]
fn short_grid_is_reported_and_rendered_dead() {
    let cellules = vec![Cellule {
        life_state: LifeState::Alive,
    }];
    let (buf, anomaly) = rasterize_seed_cellules(&cellules);
    assert!(anomaly);
    assert_eq!(buf.len(), 600000);
    // The lone cell still renders...
    assert_eq!(buf[0], 0);
    // ...and every out-of-range pixel is dead, not a crash.
    let last = (399 * 500 + 499) * 3;
    assert_eq!(&buf[last..last + 3], &[255, 255, 255]);
}

#[test]
fn output_filename_is_the_slug_of_the_label() {
    assert_eq!(seed_output_filename("Mr Sir"), "./seed-images/mr-sir.png");
    assert_eq!(
        seed_output_filename("My Test String!!!1!1"),
        "./seed-images/my-test-string-1-1.png"
    );
    assert_eq!(seed_output_filename("Line"), "./seed-images/line.png");
}
