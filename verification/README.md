# nantaraquad

A sprite engine and pixel-art editor core (full-colour RGBA and 256-colour
indexed sprites, drawing primitives, input state, an undo history, layers,
animation clips, documents and sessions, sound registries, and the small
browser games built on them), written in Verus: each function of the library
states its behaviour in `requires` / `ensures` and is proved against it.

Layout:

- `src/` — the verified library.
  - `sprite`, `engine`, `paint`, `text`, `f32_bits` — sprite data, the sprite
    store, pixel painting, string helpers, and `f32` values held by their
    IEEE-754 encodings.
  - `api` — the sprite API, the drawing context, input, particles, the
    pyxel-style stubs and audio front end, and the API description.
  - `editor` — history, caches, tools, filters, formats and files, layers,
    animation, cels, documents and commands, sessions, editor state and
    shortcuts, export.
  - `audio` — the sound bank and the audio manager.
  - `cubeboy`, `games` — the console framebuffer and tile maps, and the
    games' rooms, random numbers and state machines.
- `app/` — ordinary Rust around the library: the global engine, files and
  PNG/JSON output, drawing on screen with macroquad, and everything that
  computes in floating point (blending, animation timing, camera, particle
  motion, colour filters, game physics).
- `tests/` — tests of the library, run against the compiled crate.

Where a collection of the library's own kind of key is kept, it is held in
a `Vec`: the keyboard state as one flag per key (the key set of the input
state), and the sound bank and audio registry as lists of name and value
with each name at most once. With a key type of the library, or `&str`,
Verus could not state what a `HashSet` or `HashMap` holds after an insert,
so the lists, whose contents and uniqueness are stated exactly, take their
place. A frame's cels are likewise a list with each layer at most once.

The library has no sprite-asset document type, no export of a document to
game entities or scenes, and no saving of cel data; the editor's on-screen
interface is drawing alone and is not part of it either.
