//! Where the parts of an LZ4 frame lie.
//!
//! A frame is a magic number, a descriptor, data blocks, an end mark and an
//! optional checksum:
//!
//! ```text
//! 04 22 4D 18 | FLG | BD | [content size: 8] | [Dict_ID: 4] | HC
//!             | (word: 4 | data | [block checksum: 4])*
//!             | 00 00 00 00 | [content checksum: 4]
//! ```
//!
//! A skippable frame is a magic number, a length and that many bytes. What is
//! inside a block, and whether the checksums fit, is for the decoder.

use vstd::prelude::*;

verus! {

/// The first four bytes of an LZ4 frame.
pub const LZ4_FRAME_MAGIC: [u8; 4] = [0x04, 0x22, 0x4d, 0x18];

/// A whole header for linked blocks of at most 64 KiB, without checksums or
/// content size, whose Dict_ID is 0. The last byte is the header checksum.
pub const ZERO_ID_HEADER: [u8; 11] = [
    0x04,
    0x22,
    0x4d,
    0x18,
    0x41,
    0x40,
    0x00,
    0x00,
    0x00,
    0x00,
    0x92,
];

/// The length of the shortest header.
pub const MIN_HEADER_LEN: usize = 7;

/// The 32-bit little-endian number at `at`.
pub open spec fn le32(b: Seq<u8>, at: int) -> nat {
    (b[at] + 0x100 * b[at + 1] + 0x1_0000 * b[at + 2] + 0x100_0000 * b[at + 3]) as nat
}

/// `b` starts as an LZ4 frame.
pub open spec fn has_magic(b: Seq<u8>) -> bool {
    &&& b.len() >= 4
    &&& b[0] == LZ4_FRAME_MAGIC[0]
    &&& b[1] == LZ4_FRAME_MAGIC[1]
    &&& b[2] == LZ4_FRAME_MAGIC[2]
    &&& b[3] == LZ4_FRAME_MAGIC[3]
}

/// `b` starts as a skippable frame: magic numbers `0x184D2A50` to `0x184D2A5F`.
pub open spec fn has_skippable_magic(b: Seq<u8>) -> bool {
    &&& b.len() >= 4
    &&& b[0] / 16 == 0x5
    &&& b[1] == 0x2a
    &&& b[2] == 0x4d
    &&& b[3] == 0x18
}

/// Bit 0 of the flag byte: the descriptor holds a Dict_ID.
pub open spec fn flags_dict_id(flg: u8) -> bool {
    flg % 2 == 1
}

/// Bit 2 of the flag byte: a checksum of the content follows the end mark.
pub open spec fn flags_content_checksum(flg: u8) -> bool {
    (flg / 4) % 2 == 1
}

/// Bit 3 of the flag byte: the descriptor holds the content's size.
pub open spec fn flags_content_size(flg: u8) -> bool {
    (flg / 8) % 2 == 1
}

/// Bit 4 of the flag byte: a checksum follows each block.
pub open spec fn flags_block_checksum(flg: u8) -> bool {
    (flg / 16) % 2 == 1
}

/// The length of the header, magic number to header checksum, that the flag
/// byte announces.
pub open spec fn header_len(b: Seq<u8>) -> nat {
    MIN_HEADER_LEN as nat + (if flags_content_size(b[4]) {
        8nat
    } else {
        0
    }) + (if flags_dict_id(b[4]) {
        4nat
    } else {
        0
    })
}

/// `b` starts as an LZ4 frame and holds its whole header.
pub open spec fn has_header(b: Seq<u8>) -> bool {
    &&& has_magic(b)
    &&& b.len() >= MIN_HEADER_LEN
    &&& b.len() >= header_len(b)
}

/// The bytes of `b` that belong to the header: all of them where the header
/// is cut short.
pub open spec fn header_part(b: Seq<u8>) -> Seq<u8> {
    if has_header(b) {
        b.take(header_len(b) as int)
    } else {
        b
    }
}

/// The Dict_ID that a whole header carries, 0 where it carries none.
pub open spec fn dict_id_field(b: Seq<u8>) -> nat {
    if flags_dict_id(b[4]) {
        le32(b, header_len(b) - 5)
    } else {
        0
    }
}

/// The position behind the end mark, for blocks that start at `at` and are each
/// followed by `trailer` bytes. `None` where `b` ends first.
pub open spec fn blocks_end(b: Seq<u8>, at: nat, trailer: nat) -> Option<nat>
    decreases b.len() - at,
{
    if at + 4 > b.len() {
        None
    } else if le32(b, at as int) == 0 {
        Some(at + 4)
    } else {
        // The highest bit of the word marks a stored block.
        let next = at + 4 + le32(b, at as int) % 0x8000_0000 + trailer;
        if next > b.len() {
            None
        } else {
            blocks_end(b, next, trailer)
        }
    }
}

/// The length of the frame that `b` starts with. `None` where `b` starts with
/// no frame, or ends before the frame does.
pub open spec fn frame_end(b: Seq<u8>) -> Option<nat> {
    if has_skippable_magic(b) {
        if b.len() >= 8 && 8 + le32(b, 4) <= b.len() {
            Some(8 + le32(b, 4))
        } else {
            None
        }
    } else if !has_header(b) {
        None
    } else {
        let trailer: nat = if flags_block_checksum(b[4]) {
            4
        } else {
            0
        };
        let suffix: nat = if flags_content_checksum(b[4]) {
            4
        } else {
            0
        };
        match blocks_end(b, header_len(b), trailer) {
            Some(end) if end + suffix <= b.len() => Some(end + suffix),
            _ => None,
        }
    }
}

/// Blocks end behind where they start and within the bytes.
pub proof fn lemma_blocks_end_bounds(b: Seq<u8>, at: nat, trailer: nat)
    ensures
        blocks_end(b, at, trailer) matches Some(end) ==> at + 4 <= end <= b.len(),
    decreases b.len() - at,
{
    if at + 4 <= b.len() && le32(b, at as int) != 0 {
        let next = at + 4 + le32(b, at as int) % 0x8000_0000 + trailer;
        if next <= b.len() {
            lemma_blocks_end_bounds(b, next, trailer);
        }
    }
}

/// Bytes that agree up to the end of the blocks have the same end of blocks.
proof fn lemma_blocks_end_agree(b: Seq<u8>, c: Seq<u8>, at: nat, trailer: nat, end: nat)
    requires
        blocks_end(b, at, trailer) == Some(end),
        end <= c.len(),
        forall|i: int| 0 <= i < end ==> b[i] == c[i],
    ensures
        blocks_end(c, at, trailer) == Some(end),
    decreases b.len() - at,
{
    lemma_blocks_end_bounds(b, at, trailer);
    assert(le32(b, at as int) == le32(c, at as int));
    if le32(b, at as int) != 0 {
        let next = at + 4 + le32(b, at as int) % 0x8000_0000 + trailer;
        lemma_blocks_end_bounds(b, next, trailer);
        lemma_blocks_end_agree(b, c, next, trailer, end);
    }
}

/// Blocks end at the same place behind where they start, wherever that is.
pub proof fn lemma_blocks_end_shift(b: Seq<u8>, c: Seq<u8>, at: nat, to: nat, trailer: nat)
    requires
        at <= b.len(),
        to <= c.len(),
        b.skip(at as int) == c.skip(to as int),
    ensures
        blocks_end(c, to, trailer) == (match blocks_end(b, at, trailer) {
            Some(end) => Some((end - at + to) as nat),
            None => None,
        }),
    decreases b.len() - at,
{
    assert(b.len() - at == b.skip(at as int).len());
    assert(c.len() - to == c.skip(to as int).len());
    lemma_blocks_end_bounds(b, at, trailer);
    if at + 4 <= b.len() {
        assert(le32(b, at as int) == le32(b.skip(at as int), 0));
        assert(le32(c, to as int) == le32(c.skip(to as int), 0));
        let skip = 4 + le32(b, at as int) % 0x8000_0000 + trailer;
        if le32(b, at as int) != 0 && at + skip <= b.len() {
            assert(b.skip((at + skip) as int) =~= b.skip(at as int).skip(skip as int));
            assert(c.skip((to + skip) as int) =~= c.skip(to as int).skip(skip as int));
            lemma_blocks_end_shift(b, c, at + skip, to + skip, trailer);
            lemma_blocks_end_bounds(b, at + skip, trailer);
        }
    }
}

/// A frame is longer than the shortest header, and no longer than the bytes
/// that it is found in.
pub proof fn lemma_frame_end_bounds(b: Seq<u8>)
    ensures
        frame_end(b) matches Some(end) ==> MIN_HEADER_LEN < end <= b.len(),
{
    if !has_skippable_magic(b) && has_header(b) {
        let trailer: nat = if flags_block_checksum(b[4]) {
            4
        } else {
            0
        };
        lemma_blocks_end_bounds(b, header_len(b), trailer);
    }
}

/// Where a frame ends is decided by its own bytes: other bytes that start with
/// the same frame have it end at the same place.
pub proof fn law_frame_end_local(b: Seq<u8>, c: Seq<u8>, end: nat)
    requires
        frame_end(b) == Some(end),
        end <= c.len(),
        b.take(end as int) == c.take(end as int),
    ensures
        frame_end(c) == Some(end),
{
    lemma_frame_end_bounds(b);
    assert forall|i: int| 0 <= i < end implies b[i] == c[i] by {
        assert(b[i] == b.take(end as int)[i]);
        assert(c[i] == c.take(end as int)[i]);
    }
    if has_skippable_magic(b) {
        assert(le32(b, 4) == le32(c, 4));
    } else {
        let trailer: nat = if flags_block_checksum(b[4]) {
            4
        } else {
            0
        };
        lemma_blocks_end_bounds(b, header_len(b), trailer);
        lemma_blocks_end_agree(
            b,
            c,
            header_len(b),
            trailer,
            blocks_end(b, header_len(b), trailer)->0,
        );
    }
}

/// No strict prefix of a frame is a whole frame.
pub proof fn law_frame_end_prefix_free(b: Seq<u8>, end: nat, len: nat)
    requires
        frame_end(b) == Some(end),
        len < end,
    ensures
        frame_end(b.take(len as int)) is None,
{
    lemma_frame_end_bounds(b);
    let c = b.take(len as int);
    if frame_end(c) is Some {
        let short = frame_end(c)->0;
        lemma_frame_end_bounds(c);
        assert(c.take(short as int) =~= b.take(short as int));
        law_frame_end_local(c, b, short);
    }
}

/// Reads the little-endian number at `at`.
fn read_le32(b: &[u8], at: usize) -> (n: u32)
    requires
        at + 4 <= b@.len(),
    ensures
        n == le32(b@, at as int),
{
    b[at] as u32 + 0x100 * (b[at + 1] as u32) + 0x1_0000 * (b[at + 2] as u32) + 0x100_0000 * (b[at
        + 3] as u32)
}

/// Tells whether the bytes start as an LZ4 frame.
pub fn starts_with_magic(b: &[u8]) -> (r: bool)
    ensures
        r == has_magic(b@),
{
    b.len() >= 4 && b[0] == LZ4_FRAME_MAGIC[0] && b[1] == LZ4_FRAME_MAGIC[1] && b[2]
        == LZ4_FRAME_MAGIC[2] && b[3] == LZ4_FRAME_MAGIC[3]
}

/// Tells whether the bytes start as a skippable frame.
pub fn starts_with_skippable_magic(b: &[u8]) -> (r: bool)
    ensures
        r == has_skippable_magic(b@),
{
    b.len() >= 4 && b[0] / 16 == 0x5 && b[1] == 0x2a && b[2] == 0x4d && b[3] == 0x18
}

/// The header's length, `None` where the bytes hold no whole header.
pub fn frame_header_len(b: &[u8]) -> (r: Option<usize>)
    ensures
        r is Some <==> has_header(b@),
        r matches Some(n) ==> n == header_len(b@),
{
    if !starts_with_magic(b) || b.len() < MIN_HEADER_LEN {
        return None;
    }
    let flg: u8 = b[4];
    let size: usize = if (flg / 8) % 2 == 1 {
        8
    } else {
        0
    };
    let id: usize = if flg % 2 == 1 {
        4
    } else {
        0
    };
    let n: usize = MIN_HEADER_LEN + size + id;
    if b.len() < n {
        None
    } else {
        Some(n)
    }
}

/// Walks from block to block to behind the end mark.
fn find_blocks_end(b: &[u8], start: usize, trailer: usize) -> (r: Option<usize>)
    requires
        start <= b@.len(),
        trailer <= 4,
    ensures
        r is Some <==> blocks_end(b@, start as nat, trailer as nat) is Some,
        r matches Some(end) ==> blocks_end(b@, start as nat, trailer as nat) == Some(end as nat),
{
    let mut at: usize = start;
    while b.len() - at >= 4
        invariant
            start <= at <= b@.len(),
            trailer <= 4,
            blocks_end(b@, at as nat, trailer as nat) == blocks_end(
                b@,
                start as nat,
                trailer as nat,
            ),
        decreases b@.len() - at,
    {
        let word: u32 = read_le32(b, at);
        if word == 0 {
            return Some(at + 4);
        }
        let skip: usize = (word % 0x8000_0000) as usize + trailer;
        if skip > b.len() - at - 4 {
            return None;
        }
        at = at + 4 + skip;
    }
    None
}

/// The length of the frame that the bytes start with, `None` where they start
/// with no frame or end before it does.
pub fn find_frame_end(b: &[u8]) -> (r: Option<usize>)
    ensures
        r is Some <==> frame_end(b@) is Some,
        r matches Some(end) ==> frame_end(b@) == Some(end as nat) && end <= b@.len(),
{
    proof {
        lemma_frame_end_bounds(b@);
    }
    if starts_with_skippable_magic(b) {
        if b.len() < 8 {
            return None;
        }
        let size: usize = read_le32(b, 4) as usize;
        return if size <= b.len() - 8 {
            Some(8 + size)
        } else {
            None
        };
    }
    match frame_header_len(b) {
        None => None,
        Some(start) => {
            let flg: u8 = b[4];
            let trailer: usize = if (flg / 16) % 2 == 1 {
                4
            } else {
                0
            };
            let suffix: usize = if (flg / 4) % 2 == 1 {
                4
            } else {
                0
            };
            proof {
                lemma_blocks_end_bounds(b@, start as nat, trailer as nat);
            }
            match find_blocks_end(b, start, trailer) {
                Some(end) if suffix <= b.len() - end => Some(end + suffix),
                _ => None,
            }
        },
    }
}

} // verus!
