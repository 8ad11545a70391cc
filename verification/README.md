# redstone_rust

A redstone circuit simulator in the spirit of Minecraft, written in Verus: the
simulation logic is executable Rust whose behaviour is stated in `requires` /
`ensures` contracts and proved.

## Layout

- `src/chunks/` — the chunked world (`Chunks`, 16×16 chunks kept in a hash
  map), placing and destroying blocks, signal propagation
  (`block/redstone.rs`), mechanisms such as pistons, torches, repeaters and
  observers (`block/mechanism.rs`), pending events (`events.rs`), and proved
  properties of all of these (`laws.rs`, `bounds.rs`).
- `src/grid/` — the fixed 16×16 grid simulation with its own signal rules
  (`redstone.rs`), an insertion-ordered cell map (`cell_map.rs`), sprite
  states (`texture.rs`), a debug view (`debug.rs`) and its laws (`laws.rs`).
- `src/texture.rs` — the texture names.
- `src/hud.rs` — the on-screen counters' markers and their show/hide rule.
- `tests/` — tests of the library on concrete worlds.
- `app/` — the program around the library: command-line entry point, debug
  printing, serde names of textures and ECS components.

Each operation on the world is specified by a spec function over a
mathematical model (`SimState`, `GridState`), and the executable code is
proved to compute exactly that model.
