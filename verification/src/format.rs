//! The LZ4 frame format as its writers see it, and the laws that tie the
//! reading of frames to it.
//!
//! A frame is put together here from its parts. Nothing is searched for: that
//! the walk in [`crate::layout`] finds the end of every frame that is put
//! together so, and of nothing else, is what the laws state.

use vstd::prelude::*;

use crate::layout::{
    blocks_end, dict_id_field, find_frame_end, flags_block_checksum, flags_content_checksum,
    flags_content_size, flags_dict_id, frame_end, frame_header_len, has_header, has_magic,
    has_skippable_magic, header_len, header_part, le32, lemma_blocks_end_bounds,
    lemma_frame_end_bounds, starts_with_magic, starts_with_skippable_magic,
};

verus! {

/// A number as four bytes, the least significant first.
pub open spec fn le32_bytes(n: nat) -> Seq<u8> {
    seq![
        (n % 0x100) as u8,
        (n / 0x100 % 0x100) as u8,
        (n / 0x1_0000 % 0x100) as u8,
        (n / 0x100_0000 % 0x100) as u8,
    ]
}

/// A data block. A stored one holds its content as it is.
pub struct FrameBlock {
    pub stored: bool,
    pub data: Seq<u8>,
    pub checksum: Seq<u8>,
}

/// The parts of a frame. Those that are optional are empty where they are left
/// out.
pub struct FrameParts {
    pub flg: u8,
    pub bd: u8,
    pub content_size: Seq<u8>,
    pub dict_id: Seq<u8>,
    pub header_checksum: u8,
    pub blocks: Seq<FrameBlock>,
    pub content_checksum: Seq<u8>,
}

impl FrameBlock {
    /// The block fits its size field, is not mistaken for the end mark, and has
    /// a checksum where the frame has them.
    pub open spec fn wf(self, checked: bool) -> bool {
        &&& self.data.len() < 0x8000_0000
        &&& self.stored || self.data.len() > 0
        &&& self.checksum.len() == (if checked {
            4nat
        } else {
            0
        })
    }

    /// The size, whose highest bit marks a stored block; the data; the checksum.
    pub open spec fn bytes(self) -> Seq<u8> {
        le32_bytes(
            self.data.len() + (if self.stored {
                0x8000_0000nat
            } else {
                0
            }),
        ) + self.data + self.checksum
    }
}

/// One block behind the other.
pub open spec fn blocks_bytes(blocks: Seq<FrameBlock>) -> Seq<u8>
    decreases blocks.len(),
{
    if blocks.len() == 0 {
        Seq::empty()
    } else {
        blocks[0].bytes() + blocks_bytes(blocks.drop_first())
    }
}

impl FrameParts {
    /// The flag byte announces the parts of the header that are there.
    pub open spec fn header_wf(self) -> bool {
        &&& self.content_size.len() == (if self.flg & 0x08 != 0 {
            8nat
        } else {
            0
        })
        &&& self.dict_id.len() == (if self.flg & 0x01 != 0 {
            4nat
        } else {
            0
        })
    }

    /// The flag byte announces the parts that are there.
    pub open spec fn wf(self) -> bool {
        &&& self.header_wf()
        &&& self.content_checksum.len() == (if self.flg & 0x04 != 0 {
            4nat
        } else {
            0
        })
        &&& forall|i: int|
            0 <= i < self.blocks.len() ==> (#[trigger] self.blocks[i]).wf(self.flg & 0x10 != 0)
    }

    /// Magic number, flags, block descriptor, optional fields, checksum.
    pub open spec fn header_bytes(self) -> Seq<u8> {
        seq![0x04u8, 0x22, 0x4d, 0x18, self.flg, self.bd] + self.content_size + self.dict_id + seq![
            self.header_checksum,
        ]
    }

    /// Header, blocks, end mark, optional checksum.
    pub open spec fn bytes(self) -> Seq<u8> {
        self.header_bytes() + blocks_bytes(self.blocks) + seq![0u8, 0, 0, 0] + self.content_checksum
    }
}

/// A skippable frame: one of sixteen magic numbers, a size, and that much of
/// anything.
pub open spec fn skippable_bytes(kind: u8, payload: Seq<u8>) -> Seq<u8> {
    seq![(0x50 + kind) as u8, 0x2a, 0x4d, 0x18] + le32_bytes(payload.len()) + payload
}

/// The bytes start with the magic number of an LZ4 frame.
pub open spec fn starts_as_frame(b: Seq<u8>) -> bool {
    b.len() >= 4 && b.take(4) == seq![0x04u8, 0x22, 0x4d, 0x18]
}

/// The bytes start with the magic number of a skippable frame.
pub open spec fn starts_as_skippable(b: Seq<u8>) -> bool {
    b.len() >= 4 && exists|kind: u8| #[trigger]
        skippable_bytes(kind, Seq::empty()).take(4) == b.take(4) && kind < 16
}

/// The bytes start with one whole frame of `len` bytes.
pub open spec fn starts_with_frame_of(b: Seq<u8>, len: nat) -> bool {
    &&& len <= b.len()
    &&& {
        ||| exists|p: FrameParts| p.wf() && #[trigger] p.bytes() == b.take(len as int)
        ||| exists|kind: u8, payload: Seq<u8>|
            kind < 16 && payload.len() < 0x1_0000_0000 && #[trigger] skippable_bytes(kind, payload)
                == b.take(len as int)
    }
}

/// The bits of a flag byte.
proof fn lemma_flag_bits(flg: u8)
    ensures
        flags_dict_id(flg) <==> flg & 0x01 != 0,
        flags_content_checksum(flg) <==> flg & 0x04 != 0,
        flags_content_size(flg) <==> flg & 0x08 != 0,
        flags_block_checksum(flg) <==> flg & 0x10 != 0,
{
    assert(flg % 2 == 1 <==> flg & 0x01 != 0) by (bit_vector);
    assert((flg / 4) % 2 == 1 <==> flg & 0x04 != 0) by (bit_vector);
    assert((flg / 8) % 2 == 1 <==> flg & 0x08 != 0) by (bit_vector);
    assert((flg / 16) % 2 == 1 <==> flg & 0x10 != 0) by (bit_vector);
}

/// Four bytes read as the number that was written, and no other four do.
pub proof fn law_le32(n: nat, b: Seq<u8>, at: int)
    requires
        n < 0x1_0000_0000,
        0 <= at,
        at + 4 <= b.len(),
    ensures
        le32(b, at) == n <==> b.subrange(at, at + 4) == le32_bytes(n),
{
    let s = b.subrange(at, at + 4);
    assert(s[0] == b[at] && s[1] == b[at + 1] && s[2] == b[at + 2] && s[3] == b[at + 3]);
    let w = le32_bytes(n);
    assert(w[0] + 0x100 * w[1] + 0x1_0000 * w[2] + 0x100_0000 * w[3] == n);
    if le32(b, at) == n {
        assert(s =~= w);
    }
}

/// Behind blocks that are put together comes the end mark.
proof fn lemma_written_blocks(
    pre: Seq<u8>,
    blocks: Seq<FrameBlock>,
    rest: Seq<u8>,
    checked: bool,
    trailer: nat,
)
    requires
        forall|i: int| 0 <= i < blocks.len() ==> (#[trigger] blocks[i]).wf(checked),
        trailer == (if checked {
            4nat
        } else {
            0
        }),
    ensures
        blocks_end(pre + blocks_bytes(blocks) + seq![0u8, 0, 0, 0] + rest, pre.len(), trailer)
            == Some(pre.len() + blocks_bytes(blocks).len() + 4),
    decreases blocks.len(),
{
    let b = pre + blocks_bytes(blocks) + seq![0u8, 0, 0, 0] + rest;
    let at = pre.len() as int;
    if blocks.len() == 0 {
        assert(b.subrange(at, at + 4) =~= le32_bytes(0));
        law_le32(0, b, at);
    } else {
        let first = blocks[0];
        let more = blocks.drop_first();
        assert(first.wf(checked));
        let word = first.data.len() + (if first.stored {
            0x8000_0000nat
        } else {
            0
        });
        assert(b.subrange(at, at + 4) =~= le32_bytes(word));
        law_le32(word, b, at);
        assert(word % 0x8000_0000 == first.data.len());
        assert forall|i: int| 0 <= i < more.len() implies (#[trigger] more[i]).wf(checked) by {
            assert(more[i] == blocks[i + 1]);
        }
        lemma_written_blocks(pre + first.bytes(), more, rest, checked, trailer);
        assert(b =~= pre + first.bytes() + blocks_bytes(more) + seq![0u8, 0, 0, 0] + rest);
    }
}

/// A block that is walked over can be put together.
proof fn lemma_found_block(b: Seq<u8>, at: nat, checked: bool, trailer: nat) -> (block: FrameBlock)
    requires
        at + 4 <= b.len(),
        le32(b, at as int) != 0,
        at + 4 + le32(b, at as int) % 0x8000_0000 + trailer <= b.len(),
        trailer == (if checked {
            4nat
        } else {
            0
        }),
    ensures
        block.wf(checked),
        block.bytes() == b.subrange(
            at as int,
            (at + 4 + le32(b, at as int) % 0x8000_0000 + trailer) as int,
        ),
{
    let word = le32(b, at as int);
    assert(word < 0x1_0000_0000);
    law_le32(word, b, at as int);
    let data_at = at + 4;
    let check_at = data_at + word % 0x8000_0000;
    let next = check_at + trailer;
    let block = FrameBlock {
        stored: word >= 0x8000_0000,
        data: b.subrange(data_at as int, check_at as int),
        checksum: b.subrange(check_at as int, next as int),
    };
    assert(word == block.data.len() + (if block.stored {
        0x8000_0000nat
    } else {
        0
    }));
    assert(block.bytes() == b.subrange(at as int, data_at as int) + block.data + block.checksum);
    assert(block.bytes() =~= b.subrange(at as int, next as int));
    block
}

/// Blocks up to an end mark can be put together.
proof fn lemma_found_blocks(b: Seq<u8>, at: nat, checked: bool, trailer: nat) -> (blocks: Seq<
    FrameBlock,
>)
    requires
        blocks_end(b, at, trailer) is Some,
        trailer == (if checked {
            4nat
        } else {
            0
        }),
    ensures
        forall|i: int| 0 <= i < blocks.len() ==> (#[trigger] blocks[i]).wf(checked),
        b.subrange(at as int, blocks_end(b, at, trailer)->0 as int) == blocks_bytes(blocks) + seq![
            0u8,
            0,
            0,
            0,
        ],
    decreases b.len() - at,
{
    lemma_blocks_end_bounds(b, at, trailer);
    let end = blocks_end(b, at, trailer)->0;
    let word = le32(b, at as int);
    law_le32(word, b, at as int);
    if word == 0 {
        let blocks = Seq::<FrameBlock>::empty();
        assert(b.subrange(at as int, end as int) =~= blocks_bytes(blocks) + seq![0u8, 0, 0, 0]);
        blocks
    } else {
        let next = at + 4 + word % 0x8000_0000 + trailer;
        let first = lemma_found_block(b, at, checked, trailer);
        lemma_blocks_end_bounds(b, next, trailer);
        let more = lemma_found_blocks(b, next, checked, trailer);
        let blocks = seq![first] + more;
        assert(blocks.drop_first() =~= more);
        assert(blocks[0] == first);
        assert(b.subrange(at as int, end as int) =~= b.subrange(at as int, next as int)
            + b.subrange(next as int, end as int));
        assert(blocks_bytes(blocks) == first.bytes() + blocks_bytes(more));
        assert(first.bytes() + (blocks_bytes(more) + seq![0u8, 0, 0, 0]) =~= blocks_bytes(blocks)
            + seq![0u8, 0, 0, 0]);
        assert forall|i: int| 0 <= i < blocks.len() implies (#[trigger] blocks[i]).wf(checked) by {
            if i > 0 {
                assert(blocks[i] == more[i - 1]);
            }
        }
        blocks
    }
}

/// The header of a frame that is put together is read as it was written.
proof fn lemma_written_header(p: FrameParts, rest: Seq<u8>)
    requires
        p.header_wf(),
    ensures
        has_header(p.header_bytes() + rest),
        !has_skippable_magic(p.header_bytes() + rest),
        header_len(p.header_bytes() + rest) == p.header_bytes().len(),
        (p.header_bytes() + rest)[4] == p.flg,
{
    let b = p.header_bytes() + rest;
    assert(b[0] == 0x04 && b[1] == 0x22 && b[2] == 0x4d && b[3] == 0x18 && b[4] == p.flg);
    lemma_flag_bits(p.flg);
}

/// Every frame that can be put together, whatever its flags, is found to end
/// where it does, whatever follows it.
pub proof fn law_written_frame_is_found(p: FrameParts, tail: Seq<u8>)
    requires
        p.wf(),
    ensures
        frame_end(p.bytes() + tail) == Some(p.bytes().len()),
{
    let b = p.bytes() + tail;
    let rest = blocks_bytes(p.blocks) + seq![0u8, 0, 0, 0] + p.content_checksum + tail;
    assert(b =~= p.header_bytes() + rest);
    lemma_written_header(p, rest);
    lemma_flag_bits(p.flg);
    let trailer: nat = if flags_block_checksum(p.flg) {
        4
    } else {
        0
    };
    lemma_written_blocks(
        p.header_bytes(),
        p.blocks,
        p.content_checksum + tail,
        p.flg & 0x10 != 0,
        trailer,
    );
    assert(b =~= p.header_bytes() + blocks_bytes(p.blocks) + seq![0u8, 0, 0, 0] + (
    p.content_checksum + tail));
}

/// Every skippable frame is found to end where it does, whatever follows it.
pub proof fn law_written_skippable_is_found(kind: u8, payload: Seq<u8>, tail: Seq<u8>)
    requires
        kind < 16,
        payload.len() < 0x1_0000_0000,
    ensures
        frame_end(skippable_bytes(kind, payload) + tail) == Some(8 + payload.len()),
{
    let b = skippable_bytes(kind, payload) + tail;
    assert(b[0] == 0x50 + kind && b[1] == 0x2a && b[2] == 0x4d && b[3] == 0x18);
    assert(b.subrange(4, 8) =~= le32_bytes(payload.len()));
    law_le32(payload.len(), b, 4);
}

/// What is found to be a frame can be put together as one.
pub proof fn law_found_frame_is_written(b: Seq<u8>, end: nat)
    requires
        frame_end(b) == Some(end),
    ensures
        starts_with_frame_of(b, end),
{
    lemma_frame_end_bounds(b);
    if has_skippable_magic(b) {
        let kind = (b[0] - 0x50) as u8;
        let payload = b.subrange(8, end as int);
        law_le32(payload.len(), b, 4);
        assert(b.subrange(4, 8) == le32_bytes(payload.len()));
        assert(skippable_bytes(kind, payload) =~= b.take(end as int)) by {
            assert(b.take(end as int) =~= b.take(4) + b.subrange(4, 8) + payload);
        }
    } else {
        let flg = b[4];
        lemma_flag_bits(flg);
        let start = header_len(b);
        let trailer: nat = if flags_block_checksum(flg) {
            4
        } else {
            0
        };
        lemma_blocks_end_bounds(b, start, trailer);
        let mark = blocks_end(b, start, trailer)->0;
        let blocks = lemma_found_blocks(b, start, flg & 0x10 != 0, trailer);
        let sized: int = if flags_content_size(flg) {
            8
        } else {
            0
        };
        let p = FrameParts {
            flg,
            bd: b[5],
            content_size: b.subrange(6, 6 + sized),
            dict_id: b.subrange(6 + sized, start - 1),
            header_checksum: b[start - 1],
            blocks,
            content_checksum: b.subrange(mark as int, end as int),
        };
        assert(p.wf());
        assert(p.header_bytes() =~= b.take(start as int));
        assert(b.take(end as int) =~= b.take(start as int) + b.subrange(start as int, mark as int)
            + b.subrange(mark as int, end as int));
        assert(p.bytes() =~= b.take(end as int));
    }
}

/// The length of the frame at the start of the bytes is what is found, if
/// there is a whole one; and nothing is found if there is none.
pub proof fn law_frame_end_is_the_format(b: Seq<u8>, len: nat)
    ensures
        frame_end(b) == Some(len) <==> starts_with_frame_of(b, len),
{
    if frame_end(b) == Some(len) {
        law_found_frame_is_written(b, len);
    }
    if starts_with_frame_of(b, len) {
        let tail = b.skip(len as int);
        assert(b =~= b.take(len as int) + tail);
        if exists|p: FrameParts| p.wf() && #[trigger] p.bytes() == b.take(len as int) {
            let p = choose|p: FrameParts| p.wf() && #[trigger] p.bytes() == b.take(len as int);
            law_written_frame_is_found(p, tail);
        } else {
            let (kind, payload) = choose|kind: u8, payload: Seq<u8>|
                kind < 16 && payload.len() < 0x1_0000_0000 && #[trigger] skippable_bytes(
                    kind,
                    payload,
                ) == b.take(len as int);
            law_written_skippable_is_found(kind, payload, tail);
        }
    }
}

/// A call that looks for the end of a frame answers with the length of the
/// whole frame at the start of the bytes, and with nothing exactly where no
/// whole frame stands there.
pub proof fn law_find_frame_end(b: &[u8], r: Option<usize>, len: nat)
    requires
        call_ensures(find_frame_end, (b,), r),
    ensures
        r matches Some(end) ==> starts_with_frame_of(b@, end as nat),
        starts_with_frame_of(b@, len) ==> (r matches Some(end) && end == len),
{
    law_frame_end_is_the_format(b@, len);
    if let Some(end) = r {
        law_frame_end_is_the_format(b@, end as nat);
    }
}

/// Magic numbers are told by their bytes.
pub proof fn law_magic(b: Seq<u8>)
    ensures
        has_magic(b) <==> starts_as_frame(b),
        has_skippable_magic(b) <==> starts_as_skippable(b),
{
    if b.len() >= 4 {
        let t = b.take(4);
        assert(t[0] == b[0] && t[1] == b[1] && t[2] == b[2] && t[3] == b[3]);
        let m = seq![0x04u8, 0x22, 0x4d, 0x18];
        if has_magic(b) {
            assert(t =~= m);
        }
        if starts_as_frame(b) {
            assert(t[0] == m[0] && t[1] == m[1] && t[2] == m[2] && t[3] == m[3]);
        }
        if has_skippable_magic(b) {
            let kind = (b[0] - 0x50) as u8;
            assert(skippable_bytes(kind, Seq::empty()).take(4) =~= t);
        }
        if starts_as_skippable(b) {
            let kind = choose|kind: u8| #[trigger]
                skippable_bytes(kind, Seq::empty()).take(4) == t && kind < 16;
            let s = skippable_bytes(kind, Seq::empty()).take(4);
            assert(s[0] == 0x50 + kind && s[1] == 0x2a && s[2] == 0x4d && s[3] == 0x18);
        }
    }
}

/// Calls that look at the magic number answer by its bytes.
pub proof fn law_starts_with_magic(b: &[u8], frame: bool, skippable: bool)
    requires
        call_ensures(starts_with_magic, (b,), frame),
        call_ensures(starts_with_skippable_magic, (b,), skippable),
    ensures
        frame == starts_as_frame(b@),
        skippable == starts_as_skippable(b@),
{
    law_magic(b@);
}

/// A header that is put together is told from what follows, and the id that was
/// written into it is the one that it carries.
pub proof fn law_written_header(p: FrameParts, rest: Seq<u8>, id: u32)
    requires
        p.header_wf(),
    ensures
        header_part(p.header_bytes() + rest) == p.header_bytes(),
        p.flg & 0x01 != 0 && p.dict_id == le32_bytes(id as nat) ==> dict_id_field(
            p.header_bytes() + rest,
        ) == id,
        p.flg & 0x01 == 0 ==> dict_id_field(p.header_bytes() + rest) == 0,
{
    let b = p.header_bytes() + rest;
    lemma_written_header(p, rest);
    lemma_flag_bits(p.flg);
    assert(b.take(p.header_bytes().len() as int) =~= p.header_bytes());
    if p.flg & 0x01 != 0 && p.dict_id == le32_bytes(id as nat) {
        let at = header_len(b) - 5;
        assert(b.subrange(at, at + 4) =~= p.dict_id);
        law_le32(id as nat, b, at);
    }
}

/// The bytes start with a whole header of `len` bytes.
pub open spec fn starts_with_header_of(b: Seq<u8>, len: nat) -> bool {
    &&& len <= b.len()
    &&& exists|p: FrameParts| p.header_wf() && #[trigger] p.header_bytes() == b.take(len as int)
}

/// A header is whole exactly where one can be put together that the bytes
/// start with.
pub proof fn law_header_is_the_format(b: Seq<u8>, len: nat)
    ensures
        has_header(b) && header_len(b) == len <==> starts_with_header_of(b, len),
{
    if has_header(b) && header_len(b) == len {
        let flg = b[4];
        lemma_flag_bits(flg);
        let sized: int = if flags_content_size(flg) {
            8
        } else {
            0
        };
        let p = FrameParts {
            flg,
            bd: b[5],
            content_size: b.subrange(6, 6 + sized),
            dict_id: b.subrange(6 + sized, len - 1),
            header_checksum: b[len - 1],
            blocks: Seq::empty(),
            content_checksum: Seq::empty(),
        };
        assert(p.header_bytes() =~= b.take(len as int));
    }
    if starts_with_header_of(b, len) {
        let p = choose|p: FrameParts|
            p.header_wf() && #[trigger] p.header_bytes() == b.take(len as int);
        let rest = b.skip(len as int);
        assert(b =~= p.header_bytes() + rest);
        lemma_written_header(p, rest);
    }
}

/// A call that measures the header answers with its length, and with nothing
/// exactly where no whole header stands at the start of the bytes.
pub proof fn law_frame_header_len(b: &[u8], r: Option<usize>, len: nat)
    requires
        call_ensures(frame_header_len, (b,), r),
    ensures
        r matches Some(n) ==> starts_with_header_of(b@, n as nat),
        starts_with_header_of(b@, len) ==> (r matches Some(n) && n == len),
{
    law_header_is_the_format(b@, len);
    if let Some(n) = r {
        law_header_is_the_format(b@, n as nat);
    }
}

} // verus!
