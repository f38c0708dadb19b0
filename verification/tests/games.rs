use nantaraquad::api;
use nantaraquad::engine::Engine;
use nantaraquad::games::sprite_cube::draw_cube;
use nantaraquad::games::canvas::{draw_rect, draw_rect_border, draw_rect_filled, fill_rect, set_pixel};
use nantaraquad::games::cube::{control_step, count_down, count_orbs, long_step, room_after, Exit, STATE_GAMEOVER, STATE_GAMEOVER_SEQ, STATE_PLAY, STATE_START};
use nantaraquad::games::lineboy::{draw_frame, step, GameState, Platform, Segment, Terrain as LevelTerrain, Theme};
use nantaraquad::games::rng::{lcg_next, Rng};
use nantaraquad::games::rooms::{draw_rect_u32, set_pixel_u32, RoomMap, Tilemap, COLOR_WALL};

fn painted(fb: &[u8], w: usize) -> Vec<(usize, usize)> {
    fb.iter().enumerate().filter(|(_, &c)| c != 0).map(|(k, _)| (k % w, k / w)).collect()
}

#[test]
fn set_pixel_clips_to_canvas_and_buffer() {
    let mut fb = vec![0u8; 16];
    set_pixel(&mut fb, 4, 4, 1, 2, 9);
    set_pixel(&mut fb, 4, 4, -1, 0, 9);
    set_pixel(&mut fb, 4, 4, 4, 0, 9);
    set_pixel(&mut fb, 4, 4, 0, 4, 9);
    assert_eq!(painted(&fb, 4), vec![(1, 2)]);
    let mut short = vec![0u8; 5];
    set_pixel(&mut short, 4, 4, 3, 3, 9);
    assert_eq!(short, vec![0; 5]);
}

#[test]
fn draw_rect_fills_clipped_rectangle() {
    let mut fb = vec![0u8; 16];
    draw_rect(&mut fb, 4, 4, -1, 2, 3, 5, 5);
    assert_eq!(painted(&fb, 4), vec![(0, 2), (1, 2), (0, 3), (1, 3)]);
    let mut empty = vec![0u8; 16];
    draw_rect(&mut empty, 4, 4, 0, 0, 0, 3, 5);
    draw_rect_filled(&mut empty, 4, 4, 0, 0, 3, -2, 5);
    assert_eq!(empty, vec![0; 16]);
}

#[test]
fn border_is_a_frame() {
    let mut fb = vec![0u8; 36];
    draw_rect_border(&mut fb, 6, 6, 0, 0, 6, 6, 2, 1);
    let inside: Vec<_> = (1..5).flat_map(|y| (1..5).map(move |x| (x, y))).collect();
    for (x, y) in inside {
        assert_eq!(fb[y * 6 + x], 0);
    }
    assert_eq!(painted(&fb, 6).len(), 20);
}

#[test]
fn fill_rect_saturates_and_clips() {
    let mut fb = vec![0u8; 16];
    fill_rect(&mut fb, 4, 4, 2, 3, usize::MAX, usize::MAX, 1);
    assert_eq!(painted(&fb, 4), vec![(2, 3), (3, 3)]);
}

#[test]
fn generators_follow_the_recurrence() {
    let mut r = Rng::new(42);
    assert_eq!(r.next_u32(), 1698989837);
    assert_eq!(r.next_u32(), 1631892956);
    assert_eq!(r.next_u32(), 1574080200);
    let mut r = Rng::new(42);
    assert_eq!(r.range(32, 128), 109);
    let mut same = Rng::new(7);
    assert_eq!(same.range(5, 5), 5);
    assert_eq!(same.state, 7);
    assert_eq!(lcg_next(1), 1103527590);
    assert_eq!(lcg_next(1103527590), 2524885223);
    assert_eq!(lcg_next(2524885223), 662824084);
}

#[test]
fn range_stays_in_span() {
    let mut r = Rng::new(123);
    for _ in 0..1000 {
        let v = r.range(-8, 9);
        assert!((-8..9).contains(&v));
    }
}

#[test]
fn rooms_have_walls_and_open_exits() {
    let mut m = RoomMap::new();
    assert!(!m.generate_room(0, 0));
    assert!(m.generate_room(1, 0));
    for i in 0..16u32 {
        let exit = i == 7 || i == 8;
        assert_eq!(m.get(i, 0), if exit { 0 } else { 1 });
        assert_eq!(m.get(0, i), if exit { 0 } else { 1 });
        assert_eq!(m.get(15, i), if exit { 0 } else { 1 });
        assert_eq!(m.get(i, 15), if exit { 0 } else { 1 });
    }
    assert_eq!(m.get(7, 7), 0);
    assert_eq!(m.get(16, 0), 1);
    m.set(3, 3, 2);
    assert_eq!(m.get(3, 3), 2);
    m.clear();
    assert_eq!(m.get(0, 0), 0);
}

#[test]
fn room_render_draws_wall_squares() {
    let mut m = RoomMap::new();
    m.set(1, 2, 1);
    let mut fb = vec![0u32; 128 * 128];
    m.render(&mut fb);
    let walls: Vec<usize> = (0..fb.len()).filter(|&k| fb[k] == COLOR_WALL).collect();
    assert_eq!(walls.len(), 64);
    assert!(walls.iter().all(|&k| (k % 128) / 8 == 1 && (k / 128) / 8 == 2));
    set_pixel_u32(&mut fb, 200, 0, 5);
    draw_rect_u32(&mut fb, 126, 126, 4, 4, 7);
    assert_eq!(fb.iter().filter(|&&c| c == 7).count(), 4);
}

#[test]
fn small_map_layout() {
    let mut t = Tilemap::new();
    t.generate_room(0, 1);
    assert_eq!(t.get(0, 5), 1);
    assert_eq!(t.get(5, 7), 1);
    assert_eq!(t.get(8, 5), 0);
    assert_eq!(t.get(20, 0), 0);
    let mut u = Tilemap::new();
    u.generate_room(-1, -2);
    assert_eq!(u.get(5, 7), 0);
    assert_eq!(u.get(8, 5), 1);
}

#[test]
fn platformer_states() {
    assert_eq!(step(GameState::Title, false, true), (GameState::Title, false));
    assert_eq!(step(GameState::Title, true, false), (GameState::Playing, false));
    assert_eq!(step(GameState::Playing, true, false), (GameState::Playing, false));
    assert_eq!(step(GameState::Playing, false, true), (GameState::GameOver, false));
    assert_eq!(step(GameState::GameOver, true, false), (GameState::Title, true));
    assert_eq!(step(GameState::Clear, false, false), (GameState::Clear, false));
    assert_eq!(Theme::Forest.ground_color(), 3);
    assert_eq!(Theme::Haunted.accent_color(), 14);
}

#[test]
fn cube_state_pieces() {
    assert_eq!(room_after((0, 0), Exit::Up), (0, -1));
    assert_eq!(room_after((2, 3), Exit::Right), (3, 3));
    assert_eq!(room_after((2, 3), Exit::Stay), (2, 3));
    assert_eq!(count_orbs(2, 0), (2, false));
    assert_eq!(count_orbs(2, 1), (3, true));
    assert_eq!(count_down(2), (1, false));
    assert_eq!(count_down(1), (0, true));
    assert_eq!(control_step(STATE_START, true, false), (STATE_PLAY, false));
    assert_eq!(control_step(STATE_GAMEOVER_SEQ, false, true), (STATE_GAMEOVER, false));
    assert_eq!(control_step(STATE_GAMEOVER, true, false), (STATE_PLAY, true));
    assert_eq!(control_step(STATE_PLAY, true, true), (STATE_PLAY, false));
}

#[test]
fn cube_outline_and_grid() {
    let mut e = Engine::new();
    let id = api::create_sprite(&mut e, 16, 16);
    let color = [10, 20, 30, 255];
    let shade = [7, 14, 21, 255];
    draw_cube(&mut e, id, 0, 0, 8, color, shade);
    // grid lines at offsets 0, 2, 4 and 6 override the outline
    assert_eq!(api::get_pixel(&e, id, 0, 0), Some(shade.to_vec()));
    assert_eq!(api::get_pixel(&e, id, 1, 0), Some(shade.to_vec()));
    assert_eq!(api::get_pixel(&e, id, 7, 2), Some(shade.to_vec()));
    assert_eq!(api::get_pixel(&e, id, 4, 5), Some(shade.to_vec()));
    // outline pixels off the grid keep the cube's colour
    assert_eq!(api::get_pixel(&e, id, 7, 7), Some(color.to_vec()));
    assert_eq!(api::get_pixel(&e, id, 7, 1), Some(color.to_vec()));
    assert_eq!(api::get_pixel(&e, id, 3, 7), Some(color.to_vec()));
    // inside cells and the outside are untouched
    assert_eq!(api::get_pixel(&e, id, 3, 3), Some(vec![0, 0, 0, 0]));
    assert_eq!(api::get_pixel(&e, id, 8, 8), Some(vec![0, 0, 0, 0]));
    // a cube reaching past the sprite is clipped without failing
    draw_cube(&mut e, id, 14, 14, 4, color, shade);
    assert_eq!(api::get_pixel(&e, id, 15, 15), Some(shade.to_vec()));
}

#[test]
fn lineboy_terrain_is_well_shaped() {
    for seed in [0u64, 1, 42, 12345, u64::MAX] {
        let t = LevelTerrain::generate(seed);
        assert!(!t.segments.is_empty());
        assert_eq!(t.segments[0].x, 0);
        assert!((t.segments[0].y - 412).abs() <= 8);
        for w in t.segments.windows(2) {
            assert_eq!(w[1].x, w[0].x + w[0].w);
            assert!((w[1].y - w[0].y).abs() <= 8);
        }
        for s in &t.segments {
            assert!(s.w >= 32 && s.w < 128);
            assert!(s.y >= 372 && s.y <= 452);
            assert!(s.x < 512);
        }
        let last = t.segments.last().unwrap();
        assert!(last.x + last.w >= 512);
        assert_eq!(t.platforms.len(), 4);
        for p in &t.platforms {
            assert!(p.x >= 32 && p.x < 416);
            assert!(p.y >= 252 && p.y < 392);
            assert!(p.w >= 48 && p.w < 128);
        }
    }
}

#[test]
fn lineboy_terrain_follows_the_generator() {
    let t = LevelTerrain::generate(42);
    let mut rng = Rng::new(42);
    let w = rng.range(32, 128);
    let dy = rng.range(-8, 9);
    assert_eq!(t.segments[0].w, w);
    assert_eq!(t.segments[0].y, 412 + dy);
    assert_eq!(LevelTerrain::generate(42).segments, t.segments);
}

#[test]
fn lineboy_frame_layers() {
    let terrain = LevelTerrain {
        segments: vec![Segment { x: 0, y: 400, w: 100 }, Segment { x: 100, y: 450, w: 500 }],
        platforms: vec![Platform { x: 50, y: 300, w: 60 }],
    };
    let at = |fb: &Vec<u8>, i: usize, j: usize| fb[j * 512 + i];
    let title = draw_frame(GameState::Title, Theme::Forest, &terrain, 10, 10);
    assert_eq!(title.len(), 512 * 512);
    assert!(title.iter().all(|&c| c == 0));
    let fb = draw_frame(GameState::Playing, Theme::Desert, &terrain, 60, 295);
    assert_eq!(fb.len(), 512 * 512);
    assert_eq!(at(&fb, 5, 5), 9); // desert ground colour
    assert_eq!(at(&fb, 5, 400), 10); // accent under the first segment
    assert_eq!(at(&fb, 5, 511), 10);
    assert_eq!(at(&fb, 150, 449), 9);
    assert_eq!(at(&fb, 150, 450), 10);
    assert_eq!(at(&fb, 55, 300), 4); // platform
    assert_eq!(at(&fb, 55, 308), 9);
    assert_eq!(at(&fb, 65, 300), 7); // player over the platform
    assert_eq!(at(&fb, 71, 308), 7);
    assert_eq!(at(&fb, 72, 300), 4);
}

#[test]
fn earlier_build_death_sequence() {
    let (start, play, seq) = (STATE_START as u32, STATE_PLAY as u32, STATE_GAMEOVER_SEQ as u32);
    assert_eq!(long_step(start, true, 0, 0), (play, 0, 0, false));
    assert_eq!(long_step(play, false, 0, 3), (play, 0, 2, false));
    assert_eq!(long_step(play, true, 0, 0), (seq, 300, 9, false));
    assert_eq!(long_step(seq, false, 300, 9), (seq, 299, 8, false));
    assert_eq!(long_step(seq, false, 1, 0), (play, 0, 0, true));
    assert_eq!(long_step(7, true, 5, 1), (7, 5, 0, false));
}
