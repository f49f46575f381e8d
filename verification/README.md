# overseer

The logic of an in-game companion for a horse-racing game: what it reads out of the game's responses,
what it shows of a race, what it skips and speeds up for the player, and which settings it keeps. Every
item of the library is verified with Verus.

- `src/`: the library. Each part is a state with functions from an event to the next state and to what
  is to be done; the contracts state both exactly. Where a caller's own code answers (the context of a
  template), they state what it is asked, in which order, and what becomes of its answers. Laws that span
  several functions stand beside them as public proof functions (`lemma_*`).
- `tests/`: what the library does on concrete values.
- `app/`: what runs the library inside the game's process: files, sockets, threads, clocks, windows,
  reads of the game's memory, and floating-point arithmetic.

What is not proved is what outside crates do: `rmpv` (response payloads), `serde_json` (race documents),
`base64` and `flate2` (recorded races), `aes` and `cbc` (the companion feed) and `fnv` (the table of text
filters). Each such call stands behind a function or a declaration in the module that uses it, whose
comment says what is taken for granted.

Single-precision numbers pass through the library as their bits (`src/bits.rs`).
