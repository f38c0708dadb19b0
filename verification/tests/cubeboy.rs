use nantaraquad::cubeboy::{circ, circb, pset, rect, rectb, Pyxel, Tilemap};

fn at(p: &Pyxel, x: usize, y: usize) -> u32 {
    p.framebuffer()[y * 128 + x]
}

#[test]
fn console_frame_counter_and_seed() {
    let mut p = Pyxel::new();
    assert_eq!(p.frame_count(), 0);
    p.tick_frame();
    p.tick_frame();
    assert_eq!(p.frame_count(), 2);
    assert_eq!(p.advance_seed(), 3554416254);
    assert_eq!(p.advance_seed(), 2802067423);
}

#[test]
fn console_pset_clips_to_screen() {
    let mut p = Pyxel::new();
    pset(&mut p, 3, 4, 9);
    pset(&mut p, -1, 4, 9);
    pset(&mut p, 128, 0, 9);
    assert_eq!(at(&p, 3, 4), 9);
    assert_eq!(p.framebuffer().iter().filter(|&&c| c != 0).count(), 1);
    let mut fb = [0u32; 16384];
    fb[5] = 77;
    p.set_framebuffer(fb);
    assert_eq!(at(&p, 5, 0), 77);
    assert_eq!(at(&p, 3, 4), 0);
}

#[test]
fn console_rect_and_outline() {
    let mut p = Pyxel::new();
    rect(&mut p, 126, 1, 5, 2, 3);
    assert_eq!((at(&p, 126, 1), at(&p, 127, 2), at(&p, 125, 1)), (3, 3, 0));
    assert_eq!(p.framebuffer().iter().filter(|&&c| c == 3).count(), 4);
    let mut q = Pyxel::new();
    rectb(&mut q, 10, 10, 4, 3, 5);
    assert_eq!(q.framebuffer().iter().filter(|&&c| c == 5).count(), 10);
    assert_eq!((at(&q, 10, 10), at(&q, 13, 12), at(&q, 11, 11)), (5, 5, 0));
}

#[test]
fn console_circle_points() {
    let mut p = Pyxel::new();
    circ(&mut p, 50, 50, 3, 8);
    for (x, y) in [(53, 50), (47, 50), (50, 53), (50, 47), (52, 52), (48, 48)] {
        assert_eq!(at(&p, x, y), 8, "({}, {})", x, y);
    }
    assert_eq!(at(&p, 50, 50), 0);
    let mut q = Pyxel::new();
    circb(&mut q, 50, 50, 3, 8);
    assert_eq!(p.framebuffer().to_vec(), q.framebuffer().to_vec());
    let mut z = Pyxel::new();
    circ(&mut z, 10, 10, 0, 4);
    assert_eq!(z.framebuffer().iter().filter(|&&c| c == 4).count(), 1);
}

#[test]
fn tilemap_set_get_clear() {
    let mut t = Tilemap::new();
    assert_eq!(t.pget(3, 4), (0, 0));
    t.pset(3, 4, (11, 99));
    assert_eq!(t.pget(3, 4), (11, 0));
    t.pset(16, 0, (5, 0));
    assert_eq!(t.pget(16, 0), (0, 0));
    t.cls((6, 1));
    assert_eq!(t.pget(0, 0), (6, 0));
    assert_eq!(t.pget(15, 15), (6, 0));
}
