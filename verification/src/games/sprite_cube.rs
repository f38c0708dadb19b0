//! The cube of the cube-drawing demo, drawn into a sprite of the engine: an
//! outline in the cube's colour and a grid of five lines each way in a
//! darker shade. The cube moves, and its shade is computed, in floating
//! point outside this library; here it is drawn at whole-pixel coordinates
//! as a sequence of pixel writes, each of which fails quietly off the
//! sprite.
use vstd::prelude::*;
use crate::editor::perf::{batch_result, PixelBatch};
use crate::engine::{buffers, same_meta, Engine};

verus! {

/// Pixels past this column or row of the demo's canvas are not drawn.
pub const CANVAS_SIZE: u32 = 512;

/// One pixel write: sprite, column, row, colour bytes.
pub type PixelWrite = (usize, u32, u32, Seq<u8>);

/// The top and bottom edge, columns `x` to `x + n - 1`: for each column on
/// the canvas, its pixel in row `y`, then in row `y + s - 1`.
pub open spec fn top_bottom(id: usize, x: u32, y: u32, s: u32, c: Seq<u8>, n: nat) -> Seq<PixelWrite>
    decreases n,
{
    if n == 0 {
        Seq::empty()
    } else {
        let i = (n - 1) as nat;
        let col = (x + i) as u32;
        top_bottom(id, x, y, s, c, i) + if x + i < CANVAS_SIZE {
            seq![(id, col, y, c), (id, col, (y + s - 1) as u32, c)]
        } else {
            Seq::empty()
        }
    }
}

/// The left and right edge, rows `y` to `y + n - 1`: for each row on the
/// canvas, its pixel in column `x`, then in column `x + s - 1`.
pub open spec fn left_right(id: usize, x: u32, y: u32, s: u32, c: Seq<u8>, n: nat) -> Seq<PixelWrite>
    decreases n,
{
    if n == 0 {
        Seq::empty()
    } else {
        let i = (n - 1) as nat;
        let row = (y + i) as u32;
        left_right(id, x, y, s, c, i) + if y + i < CANVAS_SIZE {
            seq![(id, x, row, c), (id, (x + s - 1) as u32, row, c)]
        } else {
            Seq::empty()
        }
    }
}

/// The grid lines at offset `pos`, steps `0` to `n - 1`: at step `j` the
/// pixel `(x + pos, y + j)` of the vertical line, then `(x + j, y + pos)`
/// of the horizontal one, each where it lies on the canvas.
pub open spec fn grid_lines(id: usize, x: u32, y: u32, pos: u32, c: Seq<u8>, n: nat) -> Seq<PixelWrite>
    decreases n,
{
    if n == 0 {
        Seq::empty()
    } else {
        let j = (n - 1) as nat;
        grid_lines(id, x, y, pos, c, j) + (if x + pos < CANVAS_SIZE && y + j < CANVAS_SIZE {
            seq![(id, (x + pos) as u32, (y + j) as u32, c)]
        } else {
            Seq::empty()
        }) + (if x + j < CANVAS_SIZE && y + pos < CANVAS_SIZE {
            seq![(id, (x + j) as u32, (y + pos) as u32, c)]
        } else {
            Seq::empty()
        })
    }
}

/// The grid, lines `0` to `k - 1`: line `i` lies at offset `i * (s / 4)`
/// and is drawn when that offset is inside the cube.
pub open spec fn grid(id: usize, x: u32, y: u32, s: u32, c: Seq<u8>, k: nat) -> Seq<PixelWrite>
    decreases k,
{
    if k == 0 {
        Seq::empty()
    } else {
        let i = (k - 1) as nat;
        let pos = i * (s / 4);
        grid(id, x, y, s, c, i) + if pos < s {
            grid_lines(id, x, y, pos as u32, c, s as nat)
        } else {
            Seq::empty()
        }
    }
}

/// Every pixel write of the cube at `(x, y)` of side `s`, in order: the
/// outline in `color`, then the five grid lines each way in `shade`.
pub open spec fn cube_writes(id: usize, x: u32, y: u32, s: u32, color: Seq<u8>, shade: Seq<u8>) -> Seq<PixelWrite> {
    top_bottom(id, x, y, s, color, s as nat) + left_right(id, x, y, s, color, s as nat) + grid(
        id,
        x,
        y,
        s,
        shade,
        5,
    )
}

fn pixel(c: &[u8; 4]) -> (v: Vec<u8>)
    ensures
        v@ == c@,
{
    let v = vec![c[0], c[1], c[2], c[3]];
    assert(v@ =~= c@);
    v
}

/// Draw the cube of side `size` with its top-left corner at `(x, y)` of
/// sprite `sprite_id`: its outline in `color`, then a grid of lines at
/// every quarter of its side in `shade`, leaving out pixels past column or
/// row 511. The pixels come out as the writes of `cube_writes` applied in
/// order, a write off the sprite (or to a sprite that is not full colour)
/// changing nothing.
pub fn draw_cube(engine: &mut Engine, sprite_id: usize, x: u32, y: u32, size: u32, color: [u8; 4], shade: [u8; 4])
    requires
        old(engine).wf(),
        x + size <= u32::MAX,
        y + size <= u32::MAX,
    ensures
        final(engine).wf(),
        same_meta(old(engine).sprites@, final(engine).sprites@),
        buffers(final(engine).sprites@) == batch_result(
            old(engine).sprites@,
            buffers(old(engine).sprites@),
            cube_writes(sprite_id, x, y, size, color@, shade@),
        ),
{
    let s = size;
    let mut batch = PixelBatch::new();
    let mut i: u32 = 0;
    while i < s
        invariant
            i <= s,
            x + s <= u32::MAX,
            y + s <= u32::MAX,
            batch@ == top_bottom(sprite_id, x, y, s, color@, i as nat),
        decreases s - i,
    {
        if x + i < CANVAS_SIZE {
            batch.add_change(sprite_id, x + i, y, pixel(&color));
            batch.add_change(sprite_id, x + i, y + s - 1, pixel(&color));
        }
        proof {
            let ghost prev = top_bottom(sprite_id, x, y, s, color@, i as nat);
            if x + i < CANVAS_SIZE {
                assert(batch@ =~= top_bottom(sprite_id, x, y, s, color@, (i + 1) as nat));
            } else {
                assert(top_bottom(sprite_id, x, y, s, color@, (i + 1) as nat) =~= prev);
            }
        }
        i = i + 1;
    }
    let ghost tb = batch@;
    let mut i: u32 = 0;
    while i < s
        invariant
            i <= s,
            x + s <= u32::MAX,
            y + s <= u32::MAX,
            batch@ == tb + left_right(sprite_id, x, y, s, color@, i as nat),
        decreases s - i,
    {
        if y + i < CANVAS_SIZE {
            batch.add_change(sprite_id, x, y + i, pixel(&color));
            batch.add_change(sprite_id, x + s - 1, y + i, pixel(&color));
        }
        proof {
            let ghost prev = left_right(sprite_id, x, y, s, color@, i as nat);
            if y + i < CANVAS_SIZE {
                assert(batch@ =~= tb + left_right(sprite_id, x, y, s, color@, (i + 1) as nat));
            } else {
                assert(left_right(sprite_id, x, y, s, color@, (i + 1) as nat) =~= prev);
            }
        }
        i = i + 1;
    }
    let ghost outline = batch@;
    let grid_step = s / 4;
    let mut k: u32 = 0;
    while k <= 4
        invariant
            k <= 5,
            grid_step == s / 4,
            x + s <= u32::MAX,
            y + s <= u32::MAX,
            batch@ == outline + grid(sprite_id, x, y, s, shade@, k as nat),
        decreases 5 - k,
    {
        assert(k * grid_step <= 4 * grid_step <= s) by (nonlinear_arith)
            requires
                k <= 4,
                grid_step == s / 4,
        ;
        let pos = k * grid_step;
        let ghost before = batch@;
        if pos < s {
            let mut j: u32 = 0;
            while j < s
                invariant
                    j <= s,
                    pos < s,
                    x + s <= u32::MAX,
                    y + s <= u32::MAX,
                    batch@ == before + grid_lines(sprite_id, x, y, pos, shade@, j as nat),
                decreases s - j,
            {
                let ghost mid = batch@;
                if x + pos < CANVAS_SIZE && y + j < CANVAS_SIZE {
                    batch.add_change(sprite_id, x + pos, y + j, pixel(&shade));
                }
                let ghost mid2 = batch@;
                if x + j < CANVAS_SIZE && y + pos < CANVAS_SIZE {
                    batch.add_change(sprite_id, x + j, y + pos, pixel(&shade));
                }
                proof {
                    let ghost g0 = grid_lines(sprite_id, x, y, pos, shade@, j as nat);
                    let ghost g1 = grid_lines(sprite_id, x, y, pos, shade@, (j + 1) as nat);
                    let ghost a = if x + pos < CANVAS_SIZE && y + j < CANVAS_SIZE {
                        seq![(sprite_id, (x + pos) as u32, (y + j) as u32, shade@)]
                    } else {
                        Seq::<PixelWrite>::empty()
                    };
                    let ghost b = if x + j < CANVAS_SIZE && y + pos < CANVAS_SIZE {
                        seq![(sprite_id, (x + j) as u32, (y + pos) as u32, shade@)]
                    } else {
                        Seq::<PixelWrite>::empty()
                    };
                    assert(g1 == g0 + a + b);
                    assert(mid2 =~= mid + a);
                    assert(batch@ =~= mid2 + b);
                    assert(batch@ =~= before + g1);
                }
                j = j + 1;
            }
            proof {
                assert(batch@ =~= outline + grid(sprite_id, x, y, s, shade@, (k + 1) as nat));
            }
        } else {
            proof {
                assert(grid(sprite_id, x, y, s, shade@, (k + 1) as nat) =~= grid(sprite_id, x, y, s, shade@, k as nat));
            }
        }
        k = k + 1;
    }
    proof {
        assert(batch@ =~= cube_writes(sprite_id, x, y, s, color@, shade@));
    }
    batch.execute(engine);
}

} // verus!
