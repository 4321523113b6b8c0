# age

The core of a small 2D game engine, written in Verus: its data structures and
rules carry `requires`/`ensures` contracts that the verifier proves.

- `src/` — the verified library:
  - `packer` — the texture packer that lays bitmaps out row by row on square
    pages and copies them there (a bitmap row too long for its page row runs
    on into the next one), with proofs that packed bitmaps stay apart from one
    another and inside their page where they fit it, that packing twice
    changes nothing, and, with one byte per pixel and bitmaps that fit their
    page, that a page reads back each bitmap copied onto it;
  - `font` — charsets, the glyph characters of a font, packing glyph bitmaps,
    the kerning pairs and the binary search over sorted kernings;
  - `renderer` — resource descriptions, `align_to`, and the planning of a
    frame's draws into render-pass operations, with proofs that each draw runs
    with the bindings it names and that only changed bindings are set;
  - `os` — keyboard and mouse button state, key and scan codes;
  - `gen_vec`, `rhi` — generational indices and renderer ids;
  - `image`, `error`, `math::vec2i`, `mesh`, `engine`.
- `tests/` — tests of the library, run against the compiled crate.
- `app/` — the code around the library that it cannot hold: floating-point
  maths (cameras, vectors, matrices, colours, meshes, sprite fonts), the
  conversion of window-system events, and the registries of engine components
  and plugins.
