# rlz4

LZ4 blocks and frames, with optional dictionaries, as a Verus library and a
Ruby extension on top of it.

- `BlockCodec` makes and reads raw LZ4 blocks: no header, no end mark, no
  checksum. The caller says how much a block may hold, and a block that holds
  more is refused.
- `FrameCodec` makes and reads LZ4 frames (`04 22 4D 18`). With a dictionary
  its id stands in the frame's header, whatever it is, and a frame that names
  another dictionary is refused before anything is decoded. An id of 0 is read
  as none.
- `compress_bound(n)` is the worst-case size of a block of `n` input bytes.

## Layout

| | |
|---|---|
| `src/bound.rs` | sizes that the block format fixes |
| `src/layout.rs` | where the parts of a frame lie, and where it ends |
| `src/error.rs` | errors and their messages |
| `src/engine.rs` | the calls into liblz4, and what is believed of them |
| `src/block.rs` | `BlockCodec` |
| `src/frame.rs` | `FrameCodec` |
| `app/` | the Ruby extension |

Compression and decompression are liblz4's. It is reached through the `lzzzz`
crate, which wraps it in a safe interface; the `lz4-sys` bindings to the same
library can only be called with `unsafe`, which this library does without.
Its contracts in `src/engine.rs` and `src/bound.rs` are trusted; everything else
under `src/` is proved. The proof functions named `law_*` state what holds of
the codecs as a whole: that decompressing undoes compressing, that what was made
without a dictionary can be read with any, that a frame that is cut short is
refused, that bytes behind a frame do not matter, and that a mismatch of
dictionaries is found in the header.
