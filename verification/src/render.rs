//! Rasterizing a seed grid for the rendering boundary: each cell of the
//! 50-wide, 40-tall grid becomes a 10-by-10 pixel block of a 500-by-400
//! canvas, black for a live cell and white for a dead one, and the output
//! file name is a filesystem-safe slug of the seed's label.
use vstd::prelude::*;
use crate::game::Cellule;

verus! {

/// Whether the canvas pixel at `(x, y)` shows a live cell: the pixel belongs
/// to the 10-by-10 block of the cell at flat index `(y / 10) * 50 + x / 10`,
/// and a pixel whose index lies outside the grid shows a dead cell.
pub open spec fn pixel_alive(cells: Seq<Cellule>, x: int, y: int) -> bool {
    let idx = (y / 10) * 50 + x / 10;
    0 <= idx < cells.len() && cells[idx].spec_alive()
}

/// The three bytes of the canvas pixel at `(x, y)` in `buf` show the right
/// shade: 0 for a live cell, 255 for a dead one.
pub open spec fn pixel_ok(cells: Seq<Cellule>, buf: Seq<u8>, x: int, y: int) -> bool {
    let p = (y * 500 + x) * 3;
    &&& buf[p] == (if pixel_alive(cells, x, y) {
        0u8
    } else {
        255u8
    })
    &&& buf[p + 1] == buf[p]
    &&& buf[p + 2] == buf[p]
}

/// Renders a seed grid to a 500-by-400 canvas of 3-byte pixels in row-major
/// order, black (0) for live cells and white (255) for dead ones. The flag
/// reports the anomaly that some pixel's cell index lay outside the grid,
/// which happens exactly when the grid is shorter than the 2000 cells the
/// canvas shows; such pixels are rendered dead rather than aborting the pass.
pub fn rasterize_seed_cellules(cellules: &Vec<Cellule>) -> (r: (Vec<u8>, bool))
    ensures
        r.0@.len() == 600000,
        forall|y: int, x: int|
            0 <= y < 400 && 0 <= x < 500 ==> pixel_ok(cellules@, r.0@, x, y),
        r.1 == (cellules@.len() < 2000),
{
    let mut buf: Vec<u8> = Vec::new();
    let anomaly = cellules.len() < 2000;
    let mut y: usize = 0;
    while y < 400
        invariant
            y <= 400,
            buf@.len() == y * 1500,
            forall|yy: int, xx: int|
                0 <= yy < y && 0 <= xx < 500 ==> pixel_ok(cellules@, buf@, xx, yy),
        decreases 400 - y,
    {
        let mut x: usize = 0;
        while x < 500
            invariant
                x <= 500,
                y < 400,
                buf@.len() == y * 1500 + x * 3,
                forall|yy: int, xx: int|
                    0 <= yy < 400 && 0 <= xx < 500 && (yy < y || (yy == y && xx < x)) ==>
                        pixel_ok(cellules@, buf@, xx, yy),
            decreases 500 - x,
        {
            let idx = (y / 10) * 50 + x / 10;
            let shade: u8 = if idx < cellules.len() && cellules[idx].alive() {
                0
            } else {
                255
            };
            let ghost buf0 = buf@;
            buf.push(shade);
            buf.push(shade);
            buf.push(shade);
            proof {
                let xi = x as int;
                let yi = y as int;
                let p_new = (yi * 500 + xi) * 3;
                assert(buf0.len() == p_new);
                assert(buf@[p_new] == shade);
                assert(buf@[p_new + 1] == shade);
                assert(buf@[p_new + 2] == shade);
                assert(shade == (if pixel_alive(cellules@, xi, yi) {
                    0u8
                } else {
                    255u8
                }));
                assert forall|yy: int, xx: int|
                    0 <= yy < 400 && 0 <= xx < 500 && (yy < yi || (yy == yi && xx < xi + 1))
                        implies pixel_ok(cellules@, buf@, xx, yy) by {
                    let p = (yy * 500 + xx) * 3;
                    if yy == yi && xx == xi {
                        assert(p == p_new);
                    } else {
                        assert(pixel_ok(cellules@, buf0, xx, yy));
                        assert(yy * 500 + xx < yi * 500 + xi);
                        assert(p + 2 < buf0.len());
                        assert(buf@[p] == buf0[p]);
                        assert(buf@[p + 1] == buf0[p + 1]);
                        assert(buf@[p + 2] == buf0[p + 2]);
                    }
                }
            }
            x = x + 1;
        }
        y = y + 1;
    }
    (buf, anomaly)
}

/// What `slug::slugify` returns for a label: a function of the label's
/// characters alone.
pub uninterp spec fn slug_of(label: Seq<char>) -> Seq<char>;

/// Relies on slug::slugify: it computes an ASCII slug from the argument's
/// characters alone, deterministically and without panicking.
#[verifier::external_body]
fn slugify_label(label: &str) -> (r: String)
    ensures
        r@ == slug_of(label@),
{
    slug::slugify(label)
}

/// The output file name of a rendered seed: the slug of its label, under the
/// fixed output directory, with a `.png` extension.
pub fn seed_output_filename(label: &str) -> (r: String)
    ensures
        r@ == "./seed-images/"@ + slug_of(label@) + ".png"@,
{
    let mut s = String::from_str("./seed-images/");
    let slug_part = slugify_label(label);
    s.append(slug_part.as_str());
    s.append(".png");
    proof {
        assert(s@ =~= "./seed-images/"@ + slug_of(label@) + ".png"@);
    }
    s
}

} // verus!
