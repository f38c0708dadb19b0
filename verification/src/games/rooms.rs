//! Rooms of the cube platformer: 16 by 16 tile maps of 8-pixel tiles on a
//! 128 by 128 screen, how a room is laid out, and drawing its walls.
use vstd::prelude::*;
use crate::cubeboy::{fb_painted, fb_set, lemma_fb_ext, lemma_fb_refl, lemma_fb_step, on_screen};

verus! {

/// Colour of wall tiles.
pub const COLOR_WALL: u32 = 0x1D2B53;

/// Tile `(x, y)` is on the border of the room.
pub open spec fn is_edge(x: int, y: int) -> bool {
    x == 0 || x == 15 || y == 0 || y == 15
}

/// Tile `(x, y)` is one of the two-tile openings in the middle of each
/// side.
pub open spec fn is_exit(x: int, y: int) -> bool {
    (7 <= x <= 8 && (y == 0 || y == 15)) || (7 <= y <= 8 && (x == 0 || x == 15))
}

/// The tile of a laid-out room: wall on the border except at the exits.
pub open spec fn room_tile(x: int, y: int) -> u32 {
    if is_edge(x, y) && !is_exit(x, y) { 1 } else { 0 }
}

/// A room's tiles, row by row; tiles off the map read as wall.
pub struct RoomMap {
    pub tiles: Vec<u32>,
}

/// Tile `(x, y)` of a 256-tile map (wall off the map).
pub open spec fn tile_at(tiles: Seq<u32>, x: int, y: int) -> u32 {
    if 0 <= x < 16 && 0 <= y < 16 { tiles[y * 16 + x] } else { 1 }
}

impl RoomMap {
    /// An empty map.
    pub fn new() -> (m: RoomMap)
        ensures
            m.tiles@.len() == 256,
            forall|k: int| 0 <= k < 256 ==> m.tiles@[k] == 0,
    {
        let mut tiles: Vec<u32> = Vec::new();
        let mut i: usize = 0;
        while i < 256
            invariant
                i <= 256,
                tiles@.len() == i,
                forall|k: int| 0 <= k < i ==> tiles@[k] == 0,
            decreases 256 - i,
        {
            tiles.push(0);
            i = i + 1;
        }
        RoomMap { tiles }
    }

    /// Empty every tile.
    pub fn clear(&mut self)
        ensures
            final(self).tiles@.len() == old(self).tiles@.len(),
            forall|k: int| 0 <= k < final(self).tiles@.len() ==> final(self).tiles@[k] == 0,
    {
        let n = self.tiles.len();
        let mut i: usize = 0;
        while i < n
            invariant
                i <= n,
                n == self.tiles@.len(),
                forall|k: int| 0 <= k < i ==> self.tiles@[k] == 0,
            decreases n - i,
        {
            self.tiles.set(i, 0);
            i = i + 1;
        }
    }

    /// Set tile `(x, y)`; nothing happens off the map.
    pub fn set(&mut self, x: u32, y: u32, value: u32)
        requires
            old(self).tiles@.len() == 256,
        ensures
            final(self).tiles@ == if x < 16 && y < 16 {
                old(self).tiles@.update(y * 16 + x, value)
            } else {
                old(self).tiles@
            },
    {
        if x < 16 && y < 16 {
            self.tiles.set((y * 16 + x) as usize, value);
        }
    }

    /// Tile `(x, y)`; wall off the map.
    pub fn get(&self, x: u32, y: u32) -> (t: u32)
        requires
            self.tiles@.len() == 256,
        ensures
            t == tile_at(self.tiles@, x as int, y as int),
    {
        if x < 16 && y < 16 {
            self.tiles[(y * 16 + x) as usize]
        } else {
            1
        }
    }

    /// Lay out room `(rx, ry)`: walls on the border except for the exits,
    /// everything else empty. Returns whether the room holds an orb (every
    /// room but the starting one).
    pub fn generate_room(&mut self, rx: i32, ry: i32) -> (has_orb: bool)
        requires
            old(self).tiles@.len() == 256,
        ensures
            final(self).tiles@.len() == 256,
            forall|x: int, y: int| 0 <= x < 16 && 0 <= y < 16 ==> #[trigger] tile_at(final(self).tiles@, x, y) == room_tile(x, y),
            has_orb == (rx != 0 || ry != 0),
    {
        self.clear();
        let mut x: u32 = 0;
        while x < 16
            invariant
                x <= 16,
                self.tiles@.len() == 256,
                forall|i: int, j: int| 0 <= i < 16 && 0 <= j < 16 ==> #[trigger] tile_at(self.tiles@, i, j)
                    == if i < x { room_tile(i, j) } else { 0 },
            decreases 16 - x,
        {
            let mut y: u32 = 0;
            while y < 16
                invariant
                    x < 16,
                    y <= 16,
                    self.tiles@.len() == 256,
                    forall|i: int, j: int| 0 <= i < 16 && 0 <= j < 16 ==> #[trigger] tile_at(self.tiles@, i, j)
                        == if i < x || (i == x && j < y) { room_tile(i, j) } else { 0 },
                decreases 16 - y,
            {
                let edge = x == 0 || x == 15 || y == 0 || y == 15;
                let exit = (7 <= x && x <= 8 && (y == 0 || y == 15)) || (7 <= y && y <= 8 && (x == 0 || x == 15));
                let ghost before = self.tiles@;
                if edge && !exit {
                    self.set(x, y, 1);
                }
                proof {
                    assert forall|i: int, j: int| 0 <= i < 16 && 0 <= j < 16 implies #[trigger] tile_at(self.tiles@, i, j)
                        == if i < x || (i == x && j < y + 1) { room_tile(i, j) } else { 0 } by {
                        if i != x || j != y {
                            assert(j * 16 + i != y * 16 + x);
                            assert(tile_at(before, i, j) == if i < x || (i == x && j < y) { room_tile(i, j) } else { 0 });
                        }
                    }
                }
                y = y + 1;
            }
            x = x + 1;
        }
        // the exits and the middle of the room stay open
        rx != 0 || ry != 0
    }

    /// Draw every non-empty tile as an 8 by 8 wall square on the 128 by 128
    /// framebuffer.
    pub fn render(&self, fb: &mut Vec<u32>)
        requires
            self.tiles@.len() == 256,
            old(fb)@.len() == 16384,
        ensures
            fb_painted(old(fb)@, final(fb)@, walls_of(self.tiles@), COLOR_WALL),
    {
        let ghost o = fb@;
        let ghost t = self.tiles@;
        proof {
            lemma_fb_refl(o, |i: int, j: int| false, COLOR_WALL);
            lemma_fb_ext(o, o, |i: int, j: int| false, walls_before(t, 0, 0), COLOR_WALL);
        }
        let mut ty: u32 = 0;
        while ty < 16
            invariant
                ty <= 16,
                t == self.tiles@,
                t.len() == 256,
                o.len() == 16384,
                fb_painted(o, fb@, walls_before(t, 0, ty as int), COLOR_WALL),
            decreases 16 - ty,
        {
            let mut tx: u32 = 0;
            while tx < 16
                invariant
                    tx <= 16,
                    ty < 16,
                    t == self.tiles@,
                    t.len() == 256,
                    o.len() == 16384,
                    fb_painted(o, fb@, walls_before(t, tx as int, ty as int), COLOR_WALL),
                decreases 16 - tx,
            {
                let ghost before = fb@;
                if self.get(tx, ty) != 0 {
                    draw_rect_u32(fb, tx * 8, ty * 8, 8, 8, COLOR_WALL);
                    proof {
                        let sq = |i: int, j: int| tx * 8 <= i < tx * 8 + 8 && ty * 8 <= j < ty * 8 + 8;
                        lemma_painted_then(o, before, fb@, walls_before(t, tx as int, ty as int), sq, COLOR_WALL);
                        lemma_fb_ext(o, fb@, |i: int, j: int| walls_before(t, tx as int, ty as int)(i, j) || sq(i, j),
                            walls_before(t, tx + 1, ty as int), COLOR_WALL);
                    }
                } else {
                    proof {
                        lemma_fb_ext(o, fb@, walls_before(t, tx as int, ty as int), walls_before(t, tx + 1, ty as int), COLOR_WALL);
                    }
                }
                tx = tx + 1;
            }
            proof {
                lemma_fb_ext(o, fb@, walls_before(t, 16, ty as int), walls_before(t, 0, ty + 1), COLOR_WALL);
            }
            ty = ty + 1;
        }
        proof {
            lemma_fb_ext(o, fb@, walls_before(t, 0, 16), walls_of(t), COLOR_WALL);
        }
    }
}

/// The screen cells covered by wall tiles.
pub open spec fn walls_of(tiles: Seq<u32>) -> spec_fn(int, int) -> bool {
    |i: int, j: int| tile_at(tiles, i / 8, j / 8) != 0
}

/// The wall cells of the tiles before tile `(tx, ty)` in row order.
pub open spec fn walls_before(tiles: Seq<u32>, tx: int, ty: int) -> spec_fn(int, int) -> bool {
    |i: int, j: int| tile_at(tiles, i / 8, j / 8) != 0 && (j / 8 < ty || (j / 8 == ty && i / 8 < tx))
}

/// Painting a second region after a first paints their union.
pub proof fn lemma_painted_then(o: Seq<u32>, m: Seq<u32>, n: Seq<u32>, r1: spec_fn(int, int) -> bool, r2: spec_fn(int, int) -> bool, col: u32)
    requires
        fb_painted(o, m, r1, col),
        fb_painted(m, n, r2, col),
    ensures
        fb_painted(o, n, |i: int, j: int| r1(i, j) || r2(i, j), col),
{
    assert forall|i: int, j: int| on_screen(i, j) implies #[trigger] crate::cubeboy::fb_at(n, i, j)
        == if r1(i, j) || r2(i, j) { col } else { crate::cubeboy::fb_at(o, i, j) } by {
        assert(crate::cubeboy::fb_at(m, i, j) == if r1(i, j) { col } else { crate::cubeboy::fb_at(o, i, j) });
        assert(crate::cubeboy::fb_at(n, i, j) == if r2(i, j) { col } else { crate::cubeboy::fb_at(m, i, j) });
    }
}

/// Set screen cell `(x, y)`; nothing happens off the 128 by 128 screen.
pub fn set_pixel_u32(fb: &mut Vec<u32>, x: u32, y: u32, color: u32)
    requires
        old(fb)@.len() == 16384,
    ensures
        final(fb)@ == fb_set(old(fb)@, x as int, y as int, color),
{
    if x < 128 && y < 128 {
        fb.set((y * 128 + x) as usize, color);
    }
}

/// Fill the `w` by `h` rectangle at `(x, y)`, clipped to the screen.
pub fn draw_rect_u32(fb: &mut Vec<u32>, x: u32, y: u32, w: u32, h: u32, color: u32)
    requires
        old(fb)@.len() == 16384,
        w > 0 && h > 0 ==> x + w - 1 <= u32::MAX && y + h - 1 <= u32::MAX,
    ensures
        fb_painted(old(fb)@, final(fb)@, |i: int, j: int| x <= i < x + w && y <= j < y + h, color),
{
    let ghost o = fb@;
    proof {
        lemma_fb_refl(o, |i: int, j: int| x <= i < x + w && y <= j < y + 0, color);
    }
    let mut dy: u32 = 0;
    while dy < h
        invariant
            dy <= h,
            o.len() == 16384,
            w > 0 && h > 0 ==> x + w - 1 <= u32::MAX && y + h - 1 <= u32::MAX,
            fb_painted(o, fb@, |i: int, j: int| x <= i < x + w && y <= j < y + dy, color),
        decreases h - dy,
    {
        let mut dx: u32 = 0;
        while dx < w
            invariant
                dx <= w,
                dy < h,
                o.len() == 16384,
                w > 0 && h > 0 ==> x + w - 1 <= u32::MAX && y + h - 1 <= u32::MAX,
                fb_painted(o, fb@, |i: int, j: int| (x <= i < x + w && y <= j < y + dy) || (j == y + dy && x <= i < x + dx), color),
            decreases w - dx,
        {
            let ghost before = fb@;
            if x + dx < 128 && y + dy < 128 {
                set_pixel_u32(fb, x + dx, y + dy, color);
            }
            proof {
                let r = |i: int, j: int| (x <= i < x + w && y <= j < y + dy) || (j == y + dy && x <= i < x + dx);
                lemma_fb_step(o, before, r, color, x + dx, y + dy);
                assert(fb@ == fb_set(before, x + dx, y + dy, color));
                lemma_fb_ext(o, fb@, |i: int, j: int| r(i, j) || (i == x + dx && j == y + dy),
                    |i: int, j: int| (x <= i < x + w && y <= j < y + dy) || (j == y + dy && x <= i < x + dx + 1), color);
            }
            dx = dx + 1;
        }
        proof {
            lemma_fb_ext(o, fb@, |i: int, j: int| (x <= i < x + w && y <= j < y + dy) || (j == y + dy && x <= i < x + dx),
                |i: int, j: int| x <= i < x + w && y <= j < y + dy + 1, color);
        }
        dy = dy + 1;
    }
}

/// The exits of a laid-out room are open and the rest of its border is
/// wall, so every room can be left through each side.
pub proof fn law_room_exits_open(x: int, y: int)
    requires
        0 <= x < 16,
        0 <= y < 16,
    ensures
        is_exit(x, y) ==> room_tile(x, y) == 0,
        is_edge(x, y) && !is_exit(x, y) ==> room_tile(x, y) == 1,
        !is_edge(x, y) ==> room_tile(x, y) == 0,
{
}

/// The small variant's tile map: 16 by 16 tiles of one byte, row by row;
/// tiles off the map read as empty.
pub struct Tilemap {
    pub tiles: [u8; 256],
}

/// Tile `(x, y)` of the small variant's map (empty off the map).
pub open spec fn small_tile(tiles: Seq<u8>, x: int, y: int) -> u8 {
    if 0 <= x < 16 && 0 <= y < 16 { tiles[y * 16 + x] } else { 0 }
}

/// A small-variant tile is wall after laying out room `(room_x, room_y)`:
/// the border, a bar along row 7 from column 4 to 7 in rooms with an even
/// `room_x`, and a bar along column 8 from row 4 to 7 in rooms with an even
/// `room_y`.
pub open spec fn small_wall(room_x: int, room_y: int, x: int, y: int) -> bool {
    ||| is_edge(x, y)
    ||| (room_x % 2 == 0 && y == 7 && 4 <= x < 8)
    ||| (room_y % 2 == 0 && x == 8 && 4 <= y < 8)
}

impl Tilemap {
    /// An empty map.
    pub fn new() -> (m: Tilemap)
        ensures
            forall|k: int| 0 <= k < 256 ==> m.tiles@[k] == 0,
    {
        Tilemap { tiles: [0u8; 256] }
    }

    /// Tile `(x, y)`; empty off the map.
    pub fn get(&self, x: usize, y: usize) -> (t: u8)
        ensures
            t == small_tile(self.tiles@, x as int, y as int),
    {
        if x < 16 && y < 16 {
            self.tiles[y * 16 + x]
        } else {
            0
        }
    }

    /// Set tile `(x, y)`; nothing happens off the map.
    pub fn set(&mut self, x: usize, y: usize, tile: u8)
        ensures
            final(self).tiles@ == if x < 16 && y < 16 {
                old(self).tiles@.update(y * 16 + x, tile)
            } else {
                old(self).tiles@
            },
    {
        if x < 16 && y < 16 {
            self.tiles.set(y * 16 + x, tile);
        }
    }

    /// Put the walls of room `(room_x, room_y)` on the map (see
    /// `small_wall`); other tiles keep what they held.
    pub fn generate_room(&mut self, room_x: i32, room_y: i32)
        ensures
            forall|x: int, y: int| 0 <= x < 16 && 0 <= y < 16 ==> #[trigger] small_tile(final(self).tiles@, x, y)
                == if small_wall(room_x as int, room_y as int, x, y) { 1 } else { small_tile(old(self).tiles@, x, y) },
    {
        let ghost t0 = self.tiles@;
        let mut y: usize = 0;
        while y < 16
            invariant
                y <= 16,
                forall|i: int, j: int| 0 <= i < 16 && 0 <= j < 16 ==> #[trigger] small_tile(self.tiles@, i, j)
                    == if (i == 0 || i == 15) && j < y { 1 } else { small_tile(t0, i, j) },
            decreases 16 - y,
        {
            let ghost b = self.tiles@;
            self.set(0, y, 1);
            self.set(15, y, 1);
            proof {
                assert forall|i: int, j: int| 0 <= i < 16 && 0 <= j < 16 implies #[trigger] small_tile(self.tiles@, i, j)
                    == if (i == 0 || i == 15) && j < y + 1 { 1 } else { small_tile(t0, i, j) } by {
                    assert(small_tile(b, i, j) == if (i == 0 || i == 15) && j < y { 1 } else { small_tile(t0, i, j) });
                }
            }
            y = y + 1;
        }
        let ghost t1 = self.tiles@;
        let mut x: usize = 0;
        while x < 16
            invariant
                x <= 16,
                forall|i: int, j: int| 0 <= i < 16 && 0 <= j < 16 ==> #[trigger] small_tile(self.tiles@, i, j)
                    == if (j == 0 || j == 15) && i < x { 1 } else { small_tile(t1, i, j) },
            decreases 16 - x,
        {
            let ghost b = self.tiles@;
            self.set(x, 0, 1);
            self.set(x, 15, 1);
            proof {
                assert forall|i: int, j: int| 0 <= i < 16 && 0 <= j < 16 implies #[trigger] small_tile(self.tiles@, i, j)
                    == if (j == 0 || j == 15) && i < x + 1 { 1 } else { small_tile(t1, i, j) } by {
                    assert(small_tile(b, i, j) == if (j == 0 || j == 15) && i < x { 1 } else { small_tile(t1, i, j) });
                }
            }
            x = x + 1;
        }
        let ghost t2 = self.tiles@;
        if room_x % 2 == 0 {
            let mut x: usize = 4;
            while x < 8
                invariant
                    4 <= x <= 8,
                    forall|i: int, j: int| 0 <= i < 16 && 0 <= j < 16 ==> #[trigger] small_tile(self.tiles@, i, j)
                        == if j == 7 && 4 <= i < x { 1 } else { small_tile(t2, i, j) },
                decreases 8 - x,
            {
                let ghost b = self.tiles@;
                self.set(x, 7, 1);
                proof {
                    assert forall|i: int, j: int| 0 <= i < 16 && 0 <= j < 16 implies #[trigger] small_tile(self.tiles@, i, j)
                        == if j == 7 && 4 <= i < x + 1 { 1 } else { small_tile(t2, i, j) } by {
                        assert(small_tile(b, i, j) == if j == 7 && 4 <= i < x { 1 } else { small_tile(t2, i, j) });
                    }
                }
                x = x + 1;
            }
        }
        let ghost t3 = self.tiles@;
        if room_y % 2 == 0 {
            let mut y: usize = 4;
            while y < 8
                invariant
                    4 <= y <= 8,
                    forall|i: int, j: int| 0 <= i < 16 && 0 <= j < 16 ==> #[trigger] small_tile(self.tiles@, i, j)
                        == if i == 8 && 4 <= j < y { 1 } else { small_tile(t3, i, j) },
                decreases 8 - y,
            {
                let ghost b = self.tiles@;
                self.set(8, y, 1);
                proof {
                    assert forall|i: int, j: int| 0 <= i < 16 && 0 <= j < 16 implies #[trigger] small_tile(self.tiles@, i, j)
                        == if i == 8 && 4 <= j < y + 1 { 1 } else { small_tile(t3, i, j) } by {
                        assert(small_tile(b, i, j) == if i == 8 && 4 <= j < y { 1 } else { small_tile(t3, i, j) });
                    }
                }
                y = y + 1;
            }
        }
        proof {
            assert forall|i: int, j: int| 0 <= i < 16 && 0 <= j < 16 implies #[trigger] small_tile(self.tiles@, i, j)
                == if small_wall(room_x as int, room_y as int, i, j) { 1 } else { small_tile(t0, i, j) } by {
                assert(small_tile(t3, i, j) == if room_x % 2 == 0 && j == 7 && 4 <= i < 8 { 1 } else { small_tile(t2, i, j) });
                assert(small_tile(t2, i, j) == if (j == 0 || j == 15) { 1 } else { small_tile(t1, i, j) });
                assert(small_tile(t1, i, j) == if (i == 0 || i == 15) { 1 } else { small_tile(t0, i, j) });
            }
        }
    }
}

} // verus!
