//! The side-scrolling platformer: its game states, colour themes, the
//! step taken from one state to the next, the level's terrain, and the
//! drawing of a frame.
use vstd::prelude::*;
use crate::games::rng::{drawn, next_state, range_value, Rng};
use crate::games::canvas::{canvas_painted, cell, fill_rect, on_canvas, rect_region, sat_add};

verus! {

/// Colour indices of the 16-colour palette.
pub const C_BLACK: u8 = 0;
pub const C_WHITE: u8 = 7;
pub const C_GREEN: u8 = 3;
pub const C_BROWN: u8 = 4;
pub const C_ORANGE: u8 = 9;
pub const C_YELLOW: u8 = 10;
pub const C_CYAN: u8 = 12;
pub const C_GRAY: u8 = 13;
pub const C_PINK: u8 = 14;
pub const C_PURPLE: u8 = 2;
pub const C_RED: u8 = 8;

/// Where the game is.
#[derive(Debug, Clone, Copy, PartialEq, Eq, Structural)]
pub enum GameState {
    Title,
    Playing,
    GameOver,
    Clear,
}

/// The look of a world.
#[derive(Debug, Clone, Copy, PartialEq, Eq, Structural)]
pub enum Theme {
    Forest,
    Desert,
    Cave,
    Haunted,
    Volcano,
}

impl Theme {
    /// Colour of the ground.
    pub fn ground_color(&self) -> (c: u8)
        ensures
            c == match *self {
                Theme::Forest => C_GREEN,
                Theme::Desert => C_ORANGE,
                Theme::Cave => C_CYAN,
                Theme::Haunted => C_PURPLE,
                Theme::Volcano => C_RED,
            },
    {
        match self {
            Theme::Forest => C_GREEN,
            Theme::Desert => C_ORANGE,
            Theme::Cave => C_CYAN,
            Theme::Haunted => C_PURPLE,
            Theme::Volcano => C_RED,
        }
    }

    /// Colour of the terrain's details.
    pub fn accent_color(&self) -> (c: u8)
        ensures
            c == match *self {
                Theme::Forest => C_BROWN,
                Theme::Desert => C_YELLOW,
                Theme::Cave => C_GRAY,
                Theme::Haunted => C_PINK,
                Theme::Volcano => C_ORANGE,
            },
    {
        match self {
            Theme::Forest => C_BROWN,
            Theme::Desert => C_YELLOW,
            Theme::Cave => C_GRAY,
            Theme::Haunted => C_PINK,
            Theme::Volcano => C_ORANGE,
        }
    }
}

/// What a frame does after the player has moved: the next state, and
/// whether the game starts over from its title screen.
pub open spec fn spec_step(state: GameState, jump: bool, fell: bool) -> (GameState, bool) {
    match state {
        GameState::Title => if jump { (GameState::Playing, false) } else { (GameState::Title, false) },
        GameState::Playing => if fell { (GameState::GameOver, false) } else { (GameState::Playing, false) },
        GameState::GameOver => if jump { (GameState::Title, true) } else { (GameState::GameOver, false) },
        GameState::Clear => if jump { (GameState::Title, true) } else { (GameState::Clear, false) },
    }
}

/// One frame's change of state: jump leaves the title screen, falling off
/// the bottom ends the game, and jump on the game-over or clear screen
/// starts a new game (at its title screen). `fell` is read only while
/// playing, after the player has moved.
pub fn step(state: GameState, jump: bool, fell: bool) -> (r: (GameState, bool))
    ensures
        r == spec_step(state, jump, fell),
{
    match state {
        GameState::Title => if jump { (GameState::Playing, false) } else { (GameState::Title, false) },
        GameState::Playing => if fell { (GameState::GameOver, false) } else { (GameState::Playing, false) },
        GameState::GameOver => if jump { (GameState::Title, true) } else { (GameState::GameOver, false) },
        GameState::Clear => if jump { (GameState::Title, true) } else { (GameState::Clear, false) },
    }
}

/// The game never gets stuck: from every state some input leads to
/// playing within two frames, and only a finished game starts over.
pub proof fn law_every_state_leads_to_play(s: GameState)
    ensures
        spec_step(spec_step(spec_step(s, true, false).0, true, false).0, true, false).0 == GameState::Playing
            || spec_step(spec_step(s, true, false).0, true, false).0 == GameState::Playing,
        spec_step(s, true, false).1 <==> (s == GameState::GameOver || s == GameState::Clear),
{
}

/// Width of the world, in pixels.
pub const WORLD_WIDTH: i32 = 512;

/// Height of the ground where it starts, and its lowest and highest rows.
pub const GROUND_START: i32 = 412;
pub const GROUND_TOP: i32 = 372;
pub const GROUND_BOTTOM: i32 = 452;

/// Largest rise or drop from one ground segment to the next (the landing
/// check allows 10 pixels).
pub const GROUND_STEP: i32 = 8;

/// Number of floating platforms.
pub const PLATFORM_COUNT: i32 = 4;

/// A stretch of ground from column `x`, `w` pixels wide, at row `y`.
#[derive(Debug, Clone, Copy, PartialEq, Eq, Structural)]
pub struct Segment {
    pub x: i32,
    pub y: i32,
    pub w: i32,
}

/// A floating platform from column `x`, `w` pixels wide, at row `y`.
#[derive(Debug, Clone, Copy, PartialEq, Eq, Structural)]
pub struct Platform {
    pub x: i32,
    pub y: i32,
    pub w: i32,
}

/// The state after two draws.
pub open spec fn two_draws(s: u64) -> u64 {
    next_state(next_state(s))
}

/// Width of the segment drawn from state `s`: from 32 up to 127.
pub open spec fn segment_width(s: u64) -> int {
    range_value(32, 128, drawn(s))
}

/// Rise of the segment drawn from state `s`: from -8 up to 8.
pub open spec fn segment_rise(s: u64) -> int {
    range_value(-8i32, 9, drawn(next_state(s)))
}

/// A segment is 32 to 127 pixels wide and rises by -8 to 8 pixels.
pub proof fn lemma_segment_draws(s: u64)
    ensures
        32 <= segment_width(s) < 128,
        -8 <= segment_rise(s) <= 8,
{
    let a = drawn(s) as int;
    let b = drawn(next_state(s)) as int;
    assert(0 <= a % 96 < 96) by (nonlinear_arith);
    assert(0 <= b % 17 < 17) by (nonlinear_arith);
}

/// A ground row held between the top and bottom rows.
pub open spec fn clamp_ground(y: int) -> int {
    if y < GROUND_TOP {
        GROUND_TOP as int
    } else if y > GROUND_BOTTOM {
        GROUND_BOTTOM as int
    } else {
        y
    }
}

/// The ground from column `x` on, after a segment at row `y`, drawn from
/// state `s`: each segment takes a width and a rise (two draws), and the
/// ground runs until it reaches the world's width.
pub open spec fn ground(s: u64, x: int, y: int) -> Seq<Segment>
    decreases WORLD_WIDTH + 128 - x,
{
    if x >= WORLD_WIDTH {
        Seq::empty()
    } else {
        proof {
            lemma_segment_draws(s);
        }
        let w = segment_width(s);
        let ny = clamp_ground(y + segment_rise(s));
        seq![Segment { x: x as i32, y: ny as i32, w: w as i32 }] + ground(two_draws(s), x + w, ny)
    }
}

/// The generator's state once the ground from column `x` is drawn.
pub open spec fn after_ground(s: u64, x: int) -> u64
    decreases WORLD_WIDTH + 128 - x,
{
    if x >= WORLD_WIDTH {
        s
    } else {
        proof {
            lemma_segment_draws(s);
        }
        after_ground(two_draws(s), x + segment_width(s))
    }
}

/// `n` platforms drawn from state `s`, each from three draws: its column
/// (32 up to 415), its row (252 up to 391) and its width (48 up to 127).
pub open spec fn platforms_from(s: u64, n: nat) -> Seq<Platform>
    decreases n,
{
    if n == 0 {
        Seq::empty()
    } else {
        let s1 = next_state(s);
        let s2 = next_state(s1);
        let p = Platform {
            x: range_value(32, 416, drawn(s)) as i32,
            y: range_value(252, 392, drawn(s1)) as i32,
            w: range_value(48, 128, drawn(s2)) as i32,
        };
        seq![p] + platforms_from(next_state(s2), (n - 1) as nat)
    }
}

/// The ground as the level's shape promises it: segments side by side from
/// column `x` (the first within a step of row `y`), each 32 to 127 wide,
/// between the top and bottom rows, each within a step of the one before,
/// and the last reaching the world's width.
pub open spec fn well_shaped(g: Seq<Segment>, x: int, y: int) -> bool {
    &&& x < WORLD_WIDTH ==> g.len() > 0
    &&& g.len() > 0 ==> g[0].x == x && -GROUND_STEP <= g[0].y - y <= GROUND_STEP
    &&& g.len() > 0 ==> g[g.len() - 1].x + g[g.len() - 1].w >= WORLD_WIDTH
    &&& forall|i: int| 0 <= i < g.len() ==> {
        &&& 32 <= (#[trigger] g[i]).w < 128
        &&& GROUND_TOP <= g[i].y <= GROUND_BOTTOM
        &&& g[i].x < WORLD_WIDTH
    }
    &&& forall|i: int| 0 < i < g.len() ==> {
        &&& (#[trigger] g[i]).x == g[i - 1].x + g[i - 1].w
        &&& -GROUND_STEP <= g[i].y - g[i - 1].y <= GROUND_STEP
    }
}

proof fn lemma_ground_shape(s: u64, x: int, y: int)
    requires
        0 <= x,
        GROUND_TOP <= y <= GROUND_BOTTOM,
    ensures
        well_shaped(ground(s, x, y), x, y),
    decreases WORLD_WIDTH + 128 - x,
{
    if x < WORLD_WIDTH {
        lemma_segment_draws(s);
        let w = segment_width(s);
        let ny = clamp_ground(y + segment_rise(s));
        lemma_ground_shape(two_draws(s), x + w, ny);
        let rest = ground(two_draws(s), x + w, ny);
        let g = ground(s, x, y);
        assert(g == seq![Segment { x: x as i32, y: ny as i32, w: w as i32 }] + rest);
        assert forall|i: int| 0 < i < g.len() implies {
            &&& (#[trigger] g[i]).x == g[i - 1].x + g[i - 1].w
            &&& -GROUND_STEP <= g[i].y - g[i - 1].y <= GROUND_STEP
        } by {
            assert(g[i] == rest[i - 1]);
            if i > 1 {
                assert(g[i - 1] == rest[i - 2]);
            } else {
                assert(g[0] == Segment { x: x as i32, y: ny as i32, w: w as i32 });
            }
        }
        assert forall|i: int| 0 <= i < g.len() implies {
            &&& 32 <= (#[trigger] g[i]).w < 128
            &&& GROUND_TOP <= g[i].y <= GROUND_BOTTOM
            &&& g[i].x < WORLD_WIDTH
        } by {
            if i > 0 {
                assert(g[i] == rest[i - 1]);
            }
        }
    }
}

/// The level's ground and platforms.
#[derive(Debug, Clone)]
pub struct Terrain {
    pub segments: Vec<Segment>,
    pub platforms: Vec<Platform>,
}

impl Terrain {
    /// The level drawn from `seed`: the ground from column 0 after row 412,
    /// then four platforms.
    pub fn generate(seed: u64) -> (t: Terrain)
        ensures
            t.segments@ == ground(seed, 0, GROUND_START as int),
            t.platforms@ == platforms_from(after_ground(seed, 0), PLATFORM_COUNT as nat),
            well_shaped(t.segments@, 0, GROUND_START as int),
            t.platforms@.len() == PLATFORM_COUNT,
    {
        let mut rng = Rng::new(seed);
        let mut segments: Vec<Segment> = Vec::new();
        let mut ground_y: i32 = GROUND_START;
        let mut x: i32 = 0;
        while x < WORLD_WIDTH
            invariant
                0 <= x <= WORLD_WIDTH + 128,
                GROUND_TOP <= ground_y <= GROUND_BOTTOM,
                segments@ + ground(rng.state, x as int, ground_y as int) == ground(seed, 0, GROUND_START as int),
                after_ground(rng.state, x as int) == after_ground(seed, 0),
            decreases WORLD_WIDTH + 128 - x,
        {
            let ghost st = rng.state;
            proof {
                lemma_segment_draws(st);
            }
            let seg_w = rng.range(32, 128);
            let dy = rng.range(-8, 9);
            let ny = clamp_row(ground_y + dy);
            let seg = Segment { x, y: ny, w: seg_w };
            proof {
                assert(seg_w == segment_width(st));
                assert(dy == segment_rise(st));
                assert(rng.state == two_draws(st));
                let rest = ground(two_draws(st), x + seg_w, ny as int);
                assert(ground(st, x as int, ground_y as int) == seq![seg] + rest);
                assert(segments@.push(seg) + rest =~= segments@ + (seq![seg] + rest));
            }
            segments.push(seg);
            x = x + seg_w;
            ground_y = ny;
        }
        let ghost after = rng.state;
        let mut platforms: Vec<Platform> = Vec::new();
        let mut k: i32 = 0;
        while k < PLATFORM_COUNT
            invariant
                0 <= k <= PLATFORM_COUNT,
                platforms@ + platforms_from(rng.state, (PLATFORM_COUNT - k) as nat) == platforms_from(
                    after,
                    PLATFORM_COUNT as nat,
                ),
            decreases PLATFORM_COUNT - k,
        {
            let ghost st = rng.state;
            let px = rng.range(32, 416);
            let py = rng.range(252, 392);
            let pw = rng.range(48, 128);
            let p = Platform { x: px, y: py, w: pw };
            proof {
                let rest = platforms_from(rng.state, (PLATFORM_COUNT - k - 1) as nat);
                assert(platforms_from(st, (PLATFORM_COUNT - k) as nat) == seq![p] + rest);
                assert(platforms@.push(p) + rest =~= platforms@ + (seq![p] + rest));
            }
            platforms.push(p);
            k = k + 1;
        }
        proof {
            assert(segments@ =~= segments@ + ground(rng.state, x as int, ground_y as int));
            assert(platforms@ =~= platforms@ + platforms_from(rng.state, 0));
            lemma_ground_shape(seed, 0, GROUND_START as int);
            lemma_platforms_len(after, PLATFORM_COUNT as nat);
        }
        Terrain { segments, platforms }
    }
}

proof fn lemma_platforms_len(s: u64, n: nat)
    ensures
        platforms_from(s, n).len() == n,
    decreases n,
{
    if n > 0 {
        lemma_platforms_len(next_state(next_state(next_state(s))), (n - 1) as nat);
    }
}

fn clamp_row(y: i32) -> (r: i32)
    ensures
        r == clamp_ground(y as int),
{
    if y < GROUND_TOP {
        GROUND_TOP
    } else if y > GROUND_BOTTOM {
        GROUND_BOTTOM
    } else {
        y
    }
}

/// Every level the generator makes keeps the ground's promise: no step
/// between neighbouring segments is more than 8 pixels, the segments lie
/// side by side across the whole width, and the ground stays between its
/// top and bottom rows.
pub proof fn law_ground_steps_bounded(seed: u64)
    ensures
        well_shaped(ground(seed, 0, GROUND_START as int), 0, GROUND_START as int),
{
    lemma_ground_shape(seed, 0, GROUND_START as int);
}

/// Side of the square framebuffer, in cells.
pub const SCREEN: usize = 512;

/// Size of the player's sprite, in cells.
pub const PLAYER_W: usize = 12;
pub const PLAYER_H: usize = 14;

/// Height of a platform, in cells.
pub const PLATFORM_H: usize = 8;

/// Ground colour of a theme.
pub open spec fn ground_of(t: Theme) -> u8 {
    match t {
        Theme::Forest => C_GREEN,
        Theme::Desert => C_ORANGE,
        Theme::Cave => C_CYAN,
        Theme::Haunted => C_PURPLE,
        Theme::Volcano => C_RED,
    }
}

/// Accent colour of a theme.
pub open spec fn accent_of(t: Theme) -> u8 {
    match t {
        Theme::Forest => C_BROWN,
        Theme::Desert => C_YELLOW,
        Theme::Cave => C_GRAY,
        Theme::Haunted => C_PINK,
        Theme::Volcano => C_ORANGE,
    }
}

/// A coordinate as a cell index: negative values become 0.
pub open spec fn to_cell(v: int) -> int {
    if v < 0 { 0 } else { v }
}

/// Cell `(i, j)` lies in the rectangle with corner `(x, y)`, `w` wide and
/// `h` high.
pub open spec fn in_rect(x: int, y: int, w: int, h: int, i: int, j: int) -> bool {
    x <= i < x + w && y <= j < y + h
}

/// Cell `(i, j)` lies in the column of ground under a segment: from its top
/// down to the bottom of the screen.
pub open spec fn in_segment(s: Segment, i: int, j: int) -> bool {
    in_rect(to_cell(s.x as int), to_cell(s.y as int), to_cell(s.w as int), to_cell(SCREEN - s.y), i, j)
}

/// Cell `(i, j)` lies on a platform (8 cells high).
pub open spec fn in_platform(p: Platform, i: int, j: int) -> bool {
    in_rect(to_cell(p.x as int), to_cell(p.y as int), to_cell(p.w as int), PLATFORM_H as int, i, j)
}

/// Cell `(i, j)` lies in one of the first `n` segments.
pub open spec fn any_segment(segs: Seq<Segment>, n: int, i: int, j: int) -> bool
    decreases n,
{
    if n <= 0 { false } else { any_segment(segs, n - 1, i, j) || in_segment(segs[n - 1], i, j) }
}

/// Cell `(i, j)` lies on one of the first `n` platforms.
pub open spec fn any_platform(plats: Seq<Platform>, n: int, i: int, j: int) -> bool
    decreases n,
{
    if n <= 0 { false } else { any_platform(plats, n - 1, i, j) || in_platform(plats[n - 1], i, j) }
}

/// Colour of cell `(i, j)` of a frame: black off the playing screen; while
/// playing the player (white, 12 by 14 cells from `(px, py)`) over the
/// platforms (brown) over the ground columns (the theme's accent) over the
/// theme's ground colour.
pub open spec fn frame_color(
    state: GameState,
    theme: Theme,
    segs: Seq<Segment>,
    plats: Seq<Platform>,
    px: int,
    py: int,
    i: int,
    j: int,
) -> u8 {
    if state != GameState::Playing {
        C_BLACK
    } else if in_rect(px, py, PLAYER_W as int, PLAYER_H as int, i, j) {
        C_WHITE
    } else if any_platform(plats, plats.len() as int, i, j) {
        C_BROWN
    } else if any_segment(segs, segs.len() as int, i, j) {
        accent_of(theme)
    } else {
        ground_of(theme)
    }
}

fn cell_of(v: i64) -> (c: usize)
    requires
        v <= u32::MAX,
    ensures
        c == to_cell(v as int),
{
    if v < 0 { 0 } else { v as usize }
}

/// On the screen, a filled rectangle covers exactly the cells of its
/// unclipped rectangle.
proof fn lemma_rect_on_screen(x: usize, y: usize, w: usize, h: usize, i: int, j: int)
    requires
        on_canvas(SCREEN as int, SCREEN as int, i, j),
    ensures
        rect_region(x as int, y as int, sat_add(x, w) - x, sat_add(y, h) - y)(i, j)
            == in_rect(x as int, y as int, w as int, h as int, i, j),
{
}

/// A buffer of `n` cells of one colour.
fn filled(n: usize, c: u8) -> (v: Vec<u8>)
    ensures
        v@.len() == n,
        forall|k: int| 0 <= k < n ==> #[trigger] v@[k] == c,
{
    let mut v: Vec<u8> = Vec::new();
    let mut k: usize = 0;
    while k < n
        invariant
            k <= n,
            v@.len() == k,
            forall|m: int| 0 <= m < k ==> #[trigger] v@[m] == c,
        decreases n - k,
    {
        v.push(c);
        k = k + 1;
    }
    v
}

proof fn lemma_cell_in_buffer(i: int, j: int)
    requires
        on_canvas(SCREEN as int, SCREEN as int, i, j),
    ensures
        0 <= j * SCREEN + i < SCREEN * SCREEN,
{
    assert(0 <= j * 512 + i < 512 * 512) by (nonlinear_arith)
        requires 0 <= i < 512, 0 <= j < 512;
}

/// One frame of the platformer, 512 by 512 cells, row by row: black unless
/// the game is being played; then the ground colour, the ground columns
/// under the segments in the accent colour, the platforms in brown and the
/// player (with its top-left cell at `(px, py)`) in white, each drawn over
/// the one before.
pub fn draw_frame(state: GameState, theme: Theme, terrain: &Terrain, px: usize, py: usize) -> (fb: Vec<u8>)
    ensures
        fb@.len() == SCREEN * SCREEN,
        forall|i: int, j: int| on_canvas(SCREEN as int, SCREEN as int, i, j) ==> #[trigger] cell(fb@, SCREEN as int, i, j)
            == frame_color(state, theme, terrain.segments@, terrain.platforms@, px as int, py as int, i, j),
{
    let n: usize = SCREEN * SCREEN;
    let playing = match state {
        GameState::Playing => true,
        _ => false,
    };
    if !playing {
        let fb = filled(n, C_BLACK);
        proof {
            assert forall|i: int, j: int| on_canvas(SCREEN as int, SCREEN as int, i, j) implies #[trigger] cell(
                fb@,
                SCREEN as int,
                i,
                j,
            ) == frame_color(state, theme, terrain.segments@, terrain.platforms@, px as int, py as int, i, j) by {
                lemma_cell_in_buffer(i, j);
            }
        }
        return fb;
    }
    let ground = theme.ground_color();
    let accent = theme.accent_color();
    let mut fb = filled(n, ground);
    let ghost segs = terrain.segments@;
    let ghost plats = terrain.platforms@;
    proof {
        assert forall|i: int, j: int| on_canvas(SCREEN as int, SCREEN as int, i, j) implies #[trigger] cell(
            fb@,
            SCREEN as int,
            i,
            j,
        ) == (if any_segment(segs, 0, i, j) { accent } else { ground }) by {
            lemma_cell_in_buffer(i, j);
        }
    }
    let mut k: usize = 0;
    while k < terrain.segments.len()
        invariant
            k <= segs.len(),
            segs == terrain.segments@,
            fb@.len() == SCREEN * SCREEN,
            forall|i: int, j: int| on_canvas(SCREEN as int, SCREEN as int, i, j) ==> #[trigger] cell(fb@, SCREEN as int, i, j)
                == (if any_segment(segs, k as int, i, j) { accent } else { ground }),
        decreases segs.len() - k,
    {
        let seg = terrain.segments[k];
        let x = cell_of(seg.x as i64);
        let y = cell_of(seg.y as i64);
        let w = cell_of(seg.w as i64);
        let h = cell_of(SCREEN as i64 - seg.y as i64);
        let ghost before = fb@;
        fill_rect(&mut fb, SCREEN, SCREEN, x, y, w, h, accent);
        proof {
            assert forall|i: int, j: int| on_canvas(SCREEN as int, SCREEN as int, i, j) implies #[trigger] cell(
                fb@,
                SCREEN as int,
                i,
                j,
            ) == (if any_segment(segs, k + 1, i, j) { accent } else { ground }) by {
                lemma_cell_in_buffer(i, j);
                lemma_rect_on_screen(x, y, w, h, i, j);
                assert(cell(before, SCREEN as int, i, j) == (if any_segment(segs, k as int, i, j) { accent } else { ground }));
            }
        }
        k = k + 1;
    }
    let mut k: usize = 0;
    while k < terrain.platforms.len()
        invariant
            k <= plats.len(),
            plats == terrain.platforms@,
            segs == terrain.segments@,
            fb@.len() == SCREEN * SCREEN,
            forall|i: int, j: int| on_canvas(SCREEN as int, SCREEN as int, i, j) ==> #[trigger] cell(fb@, SCREEN as int, i, j)
                == (if any_platform(plats, k as int, i, j) {
                    C_BROWN
                } else if any_segment(segs, segs.len() as int, i, j) {
                    accent
                } else {
                    ground
                }),
        decreases plats.len() - k,
    {
        let plat = terrain.platforms[k];
        let x = cell_of(plat.x as i64);
        let y = cell_of(plat.y as i64);
        let w = cell_of(plat.w as i64);
        let ghost before = fb@;
        fill_rect(&mut fb, SCREEN, SCREEN, x, y, w, PLATFORM_H, C_BROWN);
        proof {
            assert forall|i: int, j: int| on_canvas(SCREEN as int, SCREEN as int, i, j) implies #[trigger] cell(
                fb@,
                SCREEN as int,
                i,
                j,
            ) == (if any_platform(plats, k + 1, i, j) {
                C_BROWN
            } else if any_segment(segs, segs.len() as int, i, j) {
                accent
            } else {
                ground
            }) by {
                lemma_cell_in_buffer(i, j);
                lemma_rect_on_screen(x, y, w, PLATFORM_H, i, j);
                assert(cell(before, SCREEN as int, i, j) == (if any_platform(plats, k as int, i, j) {
                    C_BROWN
                } else if any_segment(segs, segs.len() as int, i, j) {
                    accent
                } else {
                    ground
                }));
            }
        }
        k = k + 1;
    }
    let ghost before = fb@;
    fill_rect(&mut fb, SCREEN, SCREEN, px, py, PLAYER_W, PLAYER_H, C_WHITE);
    proof {
        assert forall|i: int, j: int| on_canvas(SCREEN as int, SCREEN as int, i, j) implies #[trigger] cell(
            fb@,
            SCREEN as int,
            i,
            j,
        ) == frame_color(state, theme, segs, plats, px as int, py as int, i, j) by {
            lemma_cell_in_buffer(i, j);
            lemma_rect_on_screen(px, py, PLAYER_W, PLAYER_H, i, j);
            assert(cell(before, SCREEN as int, i, j) == (if any_platform(plats, plats.len() as int, i, j) {
                C_BROWN
            } else if any_segment(segs, segs.len() as int, i, j) {
                accent
            } else {
                ground
            }));
        }
    }
    fb
}

} // verus!
