//! The calls into liblz4, made through the `lzzzz` crate.
//!
//! Everything that is believed of liblz4 stands in this file and in the
//! specification of `max_compressed_size` in [`crate::bound`].
//!
//! What liblz4 decodes is a function of the bytes that it is given, so it has
//! a name here. What it encodes is not: its match finder differs between
//! machines. Of an encoding only that is stated which holds on all of them,
//! that decoding gives the input back. With a dictionary, the set of encodings
//! that the machines make between them has a name.

use vstd::prelude::*;

use crate::bound::{block_bound, LZ4_MAX_INPUT_SIZE, MAX_INT_SIZE};
use crate::error::out_of_memory;
use crate::layout::{
    dict_id_field, frame_end, has_header, has_magic, header_len, header_part, le32, MIN_HEADER_LEN,
    ZERO_ID_HEADER,
};

verus! {

/// What `LZ4_decompress_safe` decodes from `block` into a buffer of `capacity`
/// bytes. `None` where it reports a malformed block, or one that does not fit.
pub uninterp spec fn lz4_decoded(block: Seq<u8>, capacity: nat) -> Option<Seq<u8>>;

/// What `LZ4_decompress_safe_usingDict` decodes from `block` into a buffer of
/// `capacity` bytes, with `dict` in front of it.
pub uninterp spec fn lz4_decoded_with_dict(
    block: Seq<u8>,
    capacity: nat,
    dict: Seq<u8>,
) -> Option<Seq<u8>>;

/// What the LZ4F decoder makes of `frame` and nothing behind it, with `dict`
/// as the history before the first block; or the kind of its failure. To be cut
/// short behind the header is no failure: such a frame decodes as far as it
/// goes.
pub uninterp spec fn lz4f_decoded(frame: Seq<u8>, dict: Seq<u8>) -> Result<Seq<u8>, Seq<char>>;

/// The dictionary id that `LZ4F_getFrameInfo` reads from a frame header, 0
/// where there is none; or the kind of its failure.
pub uninterp spec fn lz4f_dict_id(header: Seq<u8>) -> Result<u32, Seq<char>>;

/// The blocks that liblz4 makes of `src` with `dict` loaded as its history, on
/// all machines taken together. Which of them comes out is up to the machine.
pub uninterp spec fn lz4_blocks_with_dict(src: Seq<u8>, dict: Seq<u8>) -> Set<Seq<u8>>;

/// The frames that liblz4 makes of `src` with `dict` loaded as its history and
/// `id` as the dictionary id, on all machines taken together. Which of them
/// comes out is up to the machine.
pub uninterp spec fn lz4f_frames_with_dict(src: Seq<u8>, dict: Seq<u8>, id: u32) -> Set<Seq<u8>>;

/// `n` zeros.
pub open spec fn zeros(n: nat) -> Seq<u8> {
    Seq::new(n, |i: int| 0u8)
}

/// What a decoder with room for `capacity` bytes gives back of an encoding of
/// `input`: `input` where there is room for it, and otherwise nothing.
pub open spec fn fitting(input: Seq<u8>, capacity: nat) -> Option<Seq<u8>> {
    if input.len() <= capacity {
        Some(input)
    } else {
        None
    }
}

/// `block` decodes to `input`, in any buffer that has room for it and in no
/// other, without a dictionary and behind any.
pub open spec fn is_plain_block_of(block: Seq<u8>, input: Seq<u8>) -> bool {
    &&& forall|capacity: nat|
        capacity <= MAX_INT_SIZE ==> #[trigger] lz4_decoded(block, capacity) == fitting(
            input,
            capacity,
        )
    &&& forall|capacity: nat, dict: Seq<u8>|
        capacity <= MAX_INT_SIZE && dict.len() <= MAX_INT_SIZE
            ==> #[trigger] lz4_decoded_with_dict(block, capacity, dict) == fitting(input, capacity)
}

/// `block` decodes to `input` behind `dict`, in any buffer that has room for
/// it and in no other. Behind another dictionary that is no shorter, it decodes
/// in the same buffers, to as many bytes.
pub open spec fn is_dict_block_of(block: Seq<u8>, input: Seq<u8>, dict: Seq<u8>) -> bool {
    &&& forall|capacity: nat|
        capacity <= MAX_INT_SIZE ==> #[trigger] lz4_decoded_with_dict(block, capacity, dict)
            == fitting(input, capacity)
    &&& forall|capacity: nat, other: Seq<u8>|
        capacity <= MAX_INT_SIZE && dict.len() <= other.len() <= MAX_INT_SIZE
            ==> match #[trigger] lz4_decoded_with_dict(block, capacity, other) {
            Some(out) => out.len() == input.len() <= capacity,
            None => capacity < input.len(),
        }
}

/// An input of fewer than 13 bytes is too short for a match: its block is a
/// token with its length and the input itself.
pub open spec fn literal_if_short(block: Seq<u8>, input: Seq<u8>) -> bool {
    input.len() < 13 ==> block == seq![(16 * input.len()) as u8] + input
}

/// `frame` has the header that liblz4 writes by default: linked blocks of at
/// most 64 KiB, no checksums, no content size; and `id` as its Dict_ID, or no
/// Dict_ID. The header checksum is fixed where nothing in the header varies.
pub open spec fn is_default_header(frame: Seq<u8>, id: Option<u32>) -> bool {
    &&& has_header(frame)
    &&& frame[4] == (if id is None {
        0x40u8
    } else {
        0x41u8
    })
    &&& frame[5] == 0x40
    &&& id matches Some(i) ==> le32(frame, 6) == i
    &&& id is None ==> frame[6] == 0xc0
}

/// The most bytes that `n` input bytes take behind a header: themselves, as
/// blocks that do not shrink are stored, a word for each 64 KiB that is begun,
/// and the end mark.
pub open spec fn frame_body_bound(n: nat) -> nat {
    n + 4 * ((n + 0xffff) / 0x1_0000) + 4
}

/// What stands behind the header of a frame of fewer than 13 bytes: the input
/// in one stored block, as it is too short to shrink, or no block where it is
/// empty; and the end mark.
pub open spec fn short_body(input: Seq<u8>) -> Seq<u8> {
    if input.len() == 0 {
        seq![0u8, 0, 0, 0]
    } else {
        seq![input.len() as u8, 0, 0, 0x80] + input + seq![0u8, 0, 0, 0]
    }
}

/// The id in the header of `frame` reads as `id`, and as 0 where there is none.
pub open spec fn reads_as_id(frame: Seq<u8>, id: Option<u32>) -> bool {
    lz4f_dict_id(header_part(frame)) matches Ok(found) && found == (match id {
        Some(i) => i,
        None => 0,
    })
}

/// `frame` is one whole frame with a default header, no longer than `input`
/// accounts for. A short `input` is stored in it.
pub open spec fn is_default_frame(frame: Seq<u8>, id: Option<u32>, input: Seq<u8>) -> bool {
    &&& is_default_header(frame, id)
    &&& frame_end(frame) == Some(frame.len())
    &&& frame.len() <= header_len(frame) + frame_body_bound(input.len())
    &&& input.len() < 13 ==> frame.skip(header_len(frame) as int) == short_body(input)
    &&& reads_as_id(frame, id)
}

/// `frame` decodes to `input` behind `history`; without one, behind any.
pub open spec fn frame_decodes(frame: Seq<u8>, history: Option<Seq<u8>>, input: Seq<u8>) -> bool {
    match history {
        Some(dict) => lz4f_decoded(frame, dict) matches Ok(out) && out == input,
        None => forall|dict: Seq<u8>| #[trigger]
            lz4f_decoded(frame, dict) matches Ok(out) && out == input,
    }
}

/// The id that liblz4 writes when it is given `id`: it takes 0 for none.
pub open spec fn written_id(id: u32) -> Option<u32> {
    if id == 0 {
        None
    } else {
        Some(id)
    }
}

/// `frame`, which has the shortest header, with a Dict_ID of 0 in it.
pub open spec fn with_zero_id(frame: Seq<u8>) -> Seq<u8> {
    ZERO_ID_HEADER@ + frame.skip(MIN_HEADER_LEN as int)
}

/// `frame` is what liblz4 makes of `input` behind `history`, when it is given
/// `id`. Where it wrote no id, the same blocks behind the header with a Dict_ID
/// of 0 decode alike, and the id in that header reads as 0: the decoder only
/// notes the id.
pub open spec fn is_liblz4_frame(
    frame: Seq<u8>,
    input: Seq<u8>,
    history: Option<Seq<u8>>,
    id: u32,
) -> bool {
    &&& is_default_frame(frame, written_id(id), input)
    &&& frame_decodes(frame, history, input)
    &&& id == 0 ==> frame_decodes(with_zero_id(frame), history, input) && reads_as_id(
        with_zero_id(frame),
        Some(0),
    )
}

/// The buffers that a frame of `n` input bytes is made in can be addressed:
/// they take `n` bytes, a word for each 64 KiB, one more block and a margin.
pub open spec fn frame_addressable(n: nat) -> bool {
    n + n / 0x4000 + 0x2_0000 <= isize::MAX
}

/// `lzzzz::lz4::compress`: one block, without history.
///
/// liblz4 is asked for a block in a buffer of the worst-case size, which it
/// documents as sufficient, so it does not fail. The block decodes to `src`,
/// and as it refers to nothing in front of it, does so behind any dictionary.
/// Short inputs are not searched for matches. Which of the blocks that hold
/// `src` it is otherwise, is left open: that depends on the machine. Of an
/// empty `src` the function makes no block at all.
#[verifier::external_body]
pub(crate) fn encode_block(src: &[u8], dst: &mut Vec<u8>) -> (r: Option<usize>)
    requires
        0 < src@.len() <= LZ4_MAX_INPUT_SIZE,
        old(dst)@.len() == block_bound(src@.len()),
    ensures
        final(dst)@.len() == old(dst)@.len(),
        r matches Some(n) && 1 <= n <= final(dst)@.len() && is_plain_block_of(
            final(dst)@.take(n as int),
            src@,
        ) && literal_if_short(final(dst)@.take(n as int), src@),
{
    lzzzz::lz4::compress(src, dst, lzzzz::lz4::ACC_LEVEL_DEFAULT).ok()
}

/// `lzzzz::lz4::Compressor::with_dict` and `next`: one block, with `dict` as
/// its history.
///
/// As [`encode_block`], on a state of its own on the stack, and with a block of
/// one byte for an empty `src`. The block decodes to `src` behind the same
/// `dict`. How far it reaches back depends on the length of `dict` alone: behind
/// other bytes, no fewer, it decodes to other content of the same length. With
/// an empty `dict` it is a block without history. It is one of the blocks that
/// liblz4 makes of `src` and `dict`.
#[verifier::external_body]
pub(crate) fn encode_block_with_dict(src: &[u8], dst: &mut Vec<u8>, dict: &[u8]) -> (r: Option<
    usize,
>)
    requires
        src@.len() <= LZ4_MAX_INPUT_SIZE,
        old(dst)@.len() == block_bound(src@.len()),
        dict@.len() <= MAX_INT_SIZE,
    ensures
        final(dst)@.len() == old(dst)@.len(),
        r matches Some(n) && 1 <= n <= final(dst)@.len() && is_dict_block_of(
            final(dst)@.take(n as int),
            src@,
            dict@,
        ) && literal_if_short(final(dst)@.take(n as int), src@) && lz4_blocks_with_dict(
            src@,
            dict@,
        ).contains(final(dst)@.take(n as int)),
        dict@.len() == 0 ==> (r matches Some(n) && is_plain_block_of(
            final(dst)@.take(n as int),
            src@,
        )),
{
    let mut encoder = lzzzz::lz4::Compressor::with_dict(dict).ok()?;
    encoder.next(src, dst, lzzzz::lz4::ACC_LEVEL_DEFAULT).ok()
}

/// `lzzzz::lz4::decompress`: decodes a block into the front of `dst`.
///
/// It writes no more than `dst` holds, says how much it wrote, and fails on
/// what `LZ4_decompress_safe` refuses, an empty block among it.
#[verifier::external_body]
pub(crate) fn decode_block(src: &[u8], dst: &mut Vec<u8>) -> (r: Option<usize>)
    requires
        src@.len() <= MAX_INT_SIZE,
        old(dst)@.len() <= MAX_INT_SIZE,
        old(dst)@ == zeros(old(dst)@.len()),
    ensures
        final(dst)@.len() == old(dst)@.len(),
        r matches Some(n) ==> n <= final(dst)@.len(),
        src@.len() == 0 ==> r is None,
        lz4_decoded(src@, old(dst)@.len()) == (match r {
            Some(n) => Some(final(dst)@.take(n as int)),
            None => None,
        }),
{
    lzzzz::lz4::decompress(src, dst).ok()
}

/// `lzzzz::lz4::decompress_with_dict`: decodes a block into the front of
/// `dst`, with `dict` as its history.
///
/// As [`decode_block`], by `LZ4_decompress_safe_usingDict`.
#[verifier::external_body]
pub(crate) fn decode_block_with_dict(src: &[u8], dst: &mut Vec<u8>, dict: &[u8]) -> (r: Option<
    usize,
>)
    requires
        src@.len() <= MAX_INT_SIZE,
        old(dst)@.len() <= MAX_INT_SIZE,
        old(dst)@ == zeros(old(dst)@.len()),
        dict@.len() <= MAX_INT_SIZE,
    ensures
        final(dst)@.len() == old(dst)@.len(),
        r matches Some(n) ==> n <= final(dst)@.len(),
        src@.len() == 0 ==> r is None,
        lz4_decoded_with_dict(src@, old(dst)@.len(), dict@) == (match r {
            Some(n) => Some(final(dst)@.take(n as int)),
            None => None,
        }),
{
    lzzzz::lz4::decompress_with_dict(src, dst, dict).ok()
}

/// `lzzzz::lz4f::WriteCompressor::new`, one write, a flush and `into_inner`:
/// one frame, with `id` as its Dict_ID and without history.
///
/// The outer error is that of creating the context, the inner one that of
/// making the frame. liblz4 gives either only for want of memory. The frame
/// has the default header, which leaves out an `id` of 0, and decodes to `src`;
/// as it refers to nothing in front of it, it does so behind any dictionary.
/// Which of the frames that do so it is, is left open: that depends on the
/// machine.
#[verifier::external_body]
pub(crate) fn encode_frame(src: &[u8], id: u32) -> (r: Result<Result<Vec<u8>, String>, String>)
    requires
        frame_addressable(src@.len()),
    ensures
        match r {
            Ok(Ok(frame)) => is_liblz4_frame(frame@, src@, None, id),
            Ok(Err(kind)) => out_of_memory(kind@),
            Err(kind) => out_of_memory(kind@),
        },
{
    let prefs = lzzzz::lz4f::PreferencesBuilder::new().dict_id(id).build();
    let out = Vec::with_capacity(lzzzz::lz4f::max_compressed_size(src.len(), &prefs));
    let mut w = lzzzz::lz4f::WriteCompressor::new(out, prefs).map_err(|e| e.to_string())?;
    let done = std::io::Write::write_all(&mut w, src).and_then(|_| std::io::Write::flush(&mut w));
    Ok(done.map(|_| w.into_inner()).map_err(|e| e.to_string()))
}

/// `lzzzz::lz4f::WriteCompressor::with_dict`, one write, a flush and
/// `into_inner`: one frame, with `id` as its Dict_ID and `dict` as its history.
///
/// As [`encode_frame`], but that the frame decodes to `src` behind the same
/// `dict`. It is one of the frames that liblz4 makes of `src`, `dict` and `id`.
#[verifier::external_body]
pub(crate) fn encode_frame_with_dict(src: &[u8], dict: &[u8], id: u32) -> (r: Result<
    Result<Vec<u8>, String>,
    String,
>)
    requires
        frame_addressable(src@.len()),
        dict@.len() > 0,
    ensures
        match r {
            Ok(Ok(frame)) => is_liblz4_frame(frame@, src@, Some(dict@), id)
                && lz4f_frames_with_dict(src@, dict@, id).contains(frame@),
            Ok(Err(kind)) => out_of_memory(kind@),
            Err(kind) => out_of_memory(kind@),
        },
{
    let prefs = lzzzz::lz4f::PreferencesBuilder::new().dict_id(id).build();
    let out = Vec::with_capacity(lzzzz::lz4f::max_compressed_size(src.len(), &prefs));
    let loaded = lzzzz::lz4f::Dictionary::new(dict);
    let mut w = loaded.and_then(|d| lzzzz::lz4f::WriteCompressor::with_dict(out, prefs, d)).map_err(
        |e| e.to_string(),
    )?;
    let done = std::io::Write::write_all(&mut w, src).and_then(|_| std::io::Write::flush(&mut w));
    Ok(done.map(|_| w.into_inner()).map_err(|e| e.to_string()))
}

/// `lzzzz::lz4f::ReadDecompressor::new` and `read_frame_info`: the dictionary
/// id in a frame header.
///
/// The outer error is that of creating the context, which liblz4 gives only
/// for want of memory. The inner result is named. Where it is an id, `header`
/// is whole, and the id is what the Dict_ID field holds.
#[verifier::external_body]
pub(crate) fn read_dict_id(header: &[u8]) -> (r: Result<Result<u32, String>, String>)
    ensures
        match r {
            Ok(Ok(id)) => lz4f_dict_id(header@) matches Ok(found) && found == id,
            Ok(Err(kind)) => lz4f_dict_id(header@) matches Err(named) && named == kind@,
            Err(kind) => out_of_memory(kind@),
        },
        r matches Ok(Ok(id)) ==> has_magic(header@) ==> has_header(header@) && id
            == dict_id_field(header@),
{
    let mut reader = lzzzz::lz4f::ReadDecompressor::new(header).map_err(|e| e.to_string())?;
    Ok(reader.read_frame_info().map(|info| info.dict_id()).map_err(|e| e.to_string()))
}

/// `lzzzz::lz4f::ReadDecompressor::new`, `set_dict` and `read_to_end`: decodes
/// all of `frame`, with `dict` as the history before its first block.
///
/// The outer error is that of creating the context, which liblz4 gives only
/// for want of memory. The inner result is named, but for a failure for want
/// of memory.
#[verifier::external_body]
pub(crate) fn decode_frame(frame: &[u8], dict: &[u8]) -> (r: Result<
    Result<Vec<u8>, String>,
    String,
>)
    ensures
        match r {
            Ok(Ok(out)) => lz4f_decoded(frame@, dict@) matches Ok(named) && named == out@,
            Ok(Err(kind)) => out_of_memory(kind@) || (lz4f_decoded(frame@, dict@) matches Err(
                named,
            ) && named == kind@),
            Err(kind) => out_of_memory(kind@),
        },
{
    let mut reader = lzzzz::lz4f::ReadDecompressor::new(frame).map_err(|e| e.to_string())?;
    reader.set_dict(dict);
    let mut out = Vec::new();
    let done = std::io::Read::read_to_end(&mut reader, &mut out);
    Ok(done.map(|_| out).map_err(|e| e.to_string()))
}

} // verus!
