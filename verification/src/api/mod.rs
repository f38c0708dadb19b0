//! The sprite API: thin functions over an [`Engine`] sprite store.
use vstd::prelude::*;
use crate::engine::{Engine, buffers, same_meta, write_result};
use crate::sprite::{ColorMode, SpriteData, spec_write};

pub mod audio_compat;
pub mod drawing;
pub mod input;
pub mod introspect;
pub mod particles;
pub mod pyxel;

verus! {

/// Write one pixel of sprite `sprite_id` (4 RGBA bytes in full-colour mode,
/// 1 palette index byte in indexed mode).
///
/// Fails, changing nothing, when the id names no sprite, the coordinates lie
/// outside it, or the pixel data has the wrong size.
pub fn set_pixel(engine: &mut Engine, sprite_id: usize, x: u32, y: u32, pixel_data: &[u8]) -> (r: Result<(), String>)
    requires
        old(engine).wf(),
    ensures
        final(engine).wf(),
        final(engine).sprites@.len() == old(engine).sprites@.len(),
        r is Ok <==> (sprite_id < old(engine).sprites@.len()
            && old(engine).sprites@[sprite_id as int].in_bounds(x as int, y as int)
            && pixel_data@.len() == old(engine).sprites@[sprite_id as int].bpp()),
        r is Err ==> final(engine).sprites@ == old(engine).sprites@,
        same_meta(old(engine).sprites@, final(engine).sprites@),
        buffers(final(engine).sprites@) == write_result(old(engine).sprites@, buffers(old(engine).sprites@),
            sprite_id as int, x as int, y as int, pixel_data@),
        r is Ok ==> final(engine).sprites@ == old(engine).sprites@.update(
            sprite_id as int,
            SpriteData {
                pixels: final(engine).sprites@[sprite_id as int].pixels,
                ..old(engine).sprites@[sprite_id as int]
            },
        ),
        r is Ok ==> final(engine).sprites@[sprite_id as int].pixels@ == spec_write(
            old(engine).sprites@[sprite_id as int].pixels@,
            old(engine).sprites@[sprite_id as int].offset(x as int, y as int),
            pixel_data@,
        ),
{
    engine.set_pixel(sprite_id, x, y, pixel_data)
}

/// Read one pixel of sprite `sprite_id`; `None` when the id names no sprite
/// or the coordinates lie outside it.
pub fn get_pixel(engine: &Engine, sprite_id: usize, x: u32, y: u32) -> (r: Option<Vec<u8>>)
    requires
        engine.wf(),
    ensures
        match r {
            None => sprite_id >= engine.sprites@.len()
                || !engine.sprites@[sprite_id as int].in_bounds(x as int, y as int),
            Some(v) => sprite_id < engine.sprites@.len()
                && engine.sprites@[sprite_id as int].in_bounds(x as int, y as int)
                && v@ == engine.sprites@[sprite_id as int].pixel(x as int, y as int),
        },
{
    engine.get_pixel(sprite_id, x, y)
}

/// Register a sprite; returns its id.
pub fn add_sprite(engine: &mut Engine, sprite: SpriteData) -> (id: usize)
    requires
        old(engine).wf(),
        sprite.wf(),
    ensures
        final(engine).wf(),
        id == old(engine).sprites@.len(),
        final(engine).sprites@ == old(engine).sprites@.push(sprite),
{
    engine.add_sprite(sprite)
}

/// Create and register a full-colour sprite whose pixels all read as
/// `[0, 0, 0, 0]`; returns its id.
pub fn create_sprite(engine: &mut Engine, width: u32, height: u32) -> (id: usize)
    requires
        old(engine).wf(),
        width * height * 4 <= usize::MAX,
    ensures
        final(engine).wf(),
        id == old(engine).sprites@.len(),
        final(engine).sprites@.len() == old(engine).sprites@.len() + 1,
        final(engine).sprites@.subrange(0, id as int) == old(engine).sprites@,
        final(engine).sprites@[id as int].width == width,
        final(engine).sprites@[id as int].height == height,
        final(engine).sprites@[id as int].mode == ColorMode::FullColor,
        final(engine).sprites@[id as int].pixels@.len() == 0,
{
    let sprite = SpriteData::new(width, height, ColorMode::FullColor);
    let id = add_sprite(engine, sprite);
    assert(engine.sprites@.subrange(0, id as int) =~= old(engine).sprites@);
    id
}

/// Create and register an indexed (palette) sprite whose pixels all read
/// as index 0; returns its id.
pub fn create_indexed_sprite(engine: &mut Engine, width: u32, height: u32, palette: Vec<[u8; 4]>) -> (id: usize)
    requires
        old(engine).wf(),
        width * height <= usize::MAX,
    ensures
        final(engine).wf(),
        id == old(engine).sprites@.len(),
        final(engine).sprites@.len() == old(engine).sprites@.len() + 1,
        final(engine).sprites@.subrange(0, id as int) == old(engine).sprites@,
        final(engine).sprites@[id as int].width == width,
        final(engine).sprites@[id as int].height == height,
        final(engine).sprites@[id as int].mode == ColorMode::Indexed256(palette),
        final(engine).sprites@[id as int].pixels@.len() == 0,
{
    assert(width * height * 1 == width * height) by (nonlinear_arith);
    let sprite = SpriteData::new(width, height, ColorMode::Indexed256(palette));
    let id = add_sprite(engine, sprite);
    assert(engine.sprites@.subrange(0, id as int) =~= old(engine).sprites@);
    id
}

/// Register every sprite of a loaded package, in order.
///
/// Returns the id of the first one, or an error (registering nothing) when
/// the package holds no sprite.
pub fn load_sprite(engine: &mut Engine, sprites: Vec<SpriteData>) -> (r: Result<usize, String>)
    requires
        old(engine).wf(),
        forall|i: int| 0 <= i < sprites@.len() ==> (#[trigger] sprites@[i]).wf(),
    ensures
        final(engine).wf(),
        r is Err <==> sprites@.len() == 0,
        r is Err ==> final(engine).sprites@ == old(engine).sprites@,
        r is Ok ==> r->Ok_0 == old(engine).sprites@.len(),
        r is Ok ==> final(engine).sprites@ == old(engine).sprites@ + sprites@,
{
    if sprites.len() == 0 {
        return Err(String::from_str("No sprites in package"));
    }
    let start_id = engine.sprites.len();
    let mut sprites = sprites;
    let ghost all = sprites@;
    let mut rest: Vec<SpriteData> = Vec::new();
    // Reverse so that popping hands the sprites out in their original order.
    while sprites.len() > 0
        invariant
            forall|i: int| 0 <= i < all.len() ==> (#[trigger] all[i]).wf(),
            rest@.len() + sprites@.len() == all.len(),
            sprites@ == all.subrange(0, sprites@.len() as int),
            forall|i: int| 0 <= i < rest@.len() ==> #[trigger] rest@[i] == all[all.len() - 1 - i],
        decreases sprites@.len(),
    {
        let s = sprites.pop().unwrap();
        rest.push(s);
    }
    while rest.len() > 0
        invariant
            engine.wf(),
            forall|i: int| 0 <= i < all.len() ==> (#[trigger] all[i]).wf(),
            rest@.len() <= all.len(),
            forall|i: int| 0 <= i < rest@.len() ==> #[trigger] rest@[i] == all[all.len() - 1 - i],
            engine.sprites@ == old(engine).sprites@ + all.subrange(0, all.len() - rest@.len()),
        decreases rest@.len(),
    {
        let s = rest.pop().unwrap();
        engine.add_sprite(s);
        assert(engine.sprites@ =~= old(engine).sprites@ + all.subrange(0, all.len() - rest@.len()));
    }
    assert(all.subrange(0, all.len() as int) =~= all);
    Ok(start_id)
}

/// Number of registered sprites.
pub fn sprite_count(engine: &Engine) -> (n: usize)
    ensures
        n == engine.sprites@.len(),
{
    engine.sprite_count()
}

} // verus!
