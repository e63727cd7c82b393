//! What calls of the library answer, whatever they are called on.
//!
//! A law here speaks of calls by their arguments and what they returned, and
//! says of these what must hold, by the frame format of [`crate::format`], by
//! arithmetic, and by what liblz4 was asked and answered.

use vstd::prelude::*;

use crate::block::{finish_compress, finish_decompress, BlockCodec};
use crate::bound::{block_stream_size, compress_bound};
use crate::engine::{
    frame_addressable, lz4_blocks_with_dict, lz4_decoded, lz4_decoded_with_dict, lz4f_decoded,
    lz4f_dict_id, with_zero_id,
};
use crate::error::{
    hex_digit, hex_digits, lz4f_error, out_of_memory, outcome, Error, ErrorView,
};
use crate::format::{
    blocks_bytes, law_frame_end_is_the_format, law_header_is_the_format, law_le32, law_magic,
    law_written_frame_is_found, law_written_header, le32_bytes, starts_as_frame,
    starts_as_skippable, starts_with_frame_of, starts_with_header_of, FrameParts,
};
use crate::frame::{
    check_dict_id, codec_decompressed, decoder_gave, decoder_outcome, decompress_frame,
    dict_id_result, encoder_gave, encoder_outcome, ends_in_header, finish_dict_id, finish_frame,
    finish_frame_compress, frame_answer, frame_header_dict_id, frame_input_fits, frame_part,
    id_reader_gave, law_frame_plain_under_dict, law_frame_round_trip, law_frame_trailing_bytes,
    law_frame_truncated, law_frame_wrong_dict, write_zero_id, DictBound, FrameCodec,
};
use crate::layout::{
    find_frame_end, frame_end, frame_header_len, has_header, has_magic, header_len, header_part,
};

verus! {

/// The bytes of a block of `n` literals and nothing else: a token, the literals,
/// and from 15 literals on their number beyond 15, in bytes of up to 255 of
/// which the last is less.
pub open spec fn literal_block_len(n: nat) -> nat {
    if n < 15 {
        1 + n
    } else {
        (1 + ((n - 15) / 255 + 1) + n) as nat
    }
}

/// The bound that a call gives is `n + n / 255 + 16`, which has room for the
/// input as literals alone; and 0 where no block can hold the input.
pub proof fn law_compress_bound(n: usize, r: usize)
    requires
        call_ensures(compress_bound, (n,), r),
    ensures
        n <= 0x7E00_0000 ==> r == n + n / 255 + 16 && literal_block_len(n as nat) <= r,
        n > 0x7E00_0000 ==> r == 0,
{
}

/// An encoder stream is a hash table of 16 KiB and 32 bytes.
pub proof fn law_block_stream_size(r: usize)
    requires
        call_ensures(block_stream_size, (), r),
    ensures
        r == 16 * 1024 + 32,
{
}

/// A codec has the dictionary that it was made with, and accounts for it and for
/// one encoder stream; one that was made without has none, and accounts for
/// nothing.
pub proof fn law_block_codec_properties(
    dict: Option<Vec<u8>>,
    codec: &BlockCodec,
    size: usize,
    has_dict: bool,
)
    requires
        call_ensures(BlockCodec::new, (dict,), *codec),
        call_ensures(BlockCodec::size, (codec,), size),
        call_ensures(BlockCodec::has_dict, (codec,), has_dict),
    ensures
        has_dict == dict is Some,
        codec@ == (match dict {
            Some(bytes) => Some(bytes@),
            None => None,
        }),
        size == (match dict {
            Some(bytes) => 16 * 1024 + 32 + bytes@.len(),
            None => 0,
        }),
{
}

/// A call that compresses succeeds on every input that a block can hold, and
/// fails on every other. The block keeps to the worst case, spells out what is
/// shorter than 13 bytes, and is made with the codec's dictionary.
pub proof fn law_block_compress(codec: &BlockCodec, input: &[u8], r: Result<Vec<u8>, Error>)
    requires
        call_ensures(BlockCodec::compress, (codec, input), r),
    ensures
        input@.len() <= 0x7E00_0000 <==> r is Ok,
        r matches Err(e) ==> e is BlockCompress,
        r matches Ok(block) ==> 1 <= block@.len() <= input@.len() + input@.len() / 255 + 16,
        r matches Ok(block) ==> input@.len() < 13 ==> block@ == seq![(16 * input@.len()) as u8]
            + input@,
        r matches Ok(block) ==> codec@ matches Some(dict) ==> lz4_blocks_with_dict(
            input@,
            dict,
        ).contains(block@),
{
}

/// The room that a block is given when it is said to hold `size` bytes: as much,
/// up to what a C integer can say.
pub open spec fn int_room(size: nat) -> nat {
    if size < 0x8000_0000 {
        size
    } else {
        0x7FFF_FFFF
    }
}

/// A call that decompresses a block gives what the decoder decodes, behind the
/// codec's dictionary and in the room that is said to be enough, and refuses
/// what the decoder refuses; never more than was asked for, and never an empty
/// block.
pub proof fn law_block_decompress(
    codec: &BlockCodec,
    block: &[u8],
    size: usize,
    r: Result<Vec<u8>, Error>,
)
    requires
        call_ensures(BlockCodec::decompress, (codec, block, size), r),
    ensures
        r matches Err(e) ==> e is BlockDecode,
        r matches Ok(out) ==> out@.len() <= size,
        block@.len() == 0 ==> r is Err,
        block@.len() >= 0x8000_0000 ==> r is Err,
        block@.len() < 0x8000_0000 ==> match r {
            Ok(out) => (match codec@ {
                Some(dict) => lz4_decoded_with_dict(block@, int_room(size as nat), dict),
                None => lz4_decoded(block@, int_room(size as nat)),
            }) == Some(out@),
            Err(_) => (match codec@ {
                Some(dict) => lz4_decoded_with_dict(block@, int_room(size as nat), dict),
                None => lz4_decoded(block@, int_room(size as nat)),
            }) is None,
        },
{
}

/// What one call compresses, another call decompresses to what it was, under
/// an equal dictionary and for every size with room for it; and refuses for
/// every size without.
pub proof fn law_block_calls_round_trip(
    codec: &BlockCodec,
    input: &[u8],
    block: Vec<u8>,
    reader: &BlockCodec,
    bytes: &[u8],
    size: usize,
    back: Result<Vec<u8>, Error>,
)
    requires
        call_ensures(BlockCodec::compress, (codec, input), Ok(block)),
        reader@ == codec@,
        bytes@ == block@,
        call_ensures(BlockCodec::decompress, (reader, bytes, size), back),
    ensures
        input@.len() <= size ==> (back matches Ok(out) && out@ == input@),
        input@.len() > size ==> (back matches Err(e) && e is BlockDecode),
{
    if input@.len() <= size {
        crate::block::law_block_round_trip(codec@, input@, block@, size as nat);
    } else {
        crate::block::law_block_overrun(codec@, input@, block@, size as nat);
    }
}

/// What one call compresses without a dictionary, another call decompresses to
/// what it was under any.
pub proof fn law_block_calls_plain_under_dict(
    codec: &BlockCodec,
    input: &[u8],
    block: Vec<u8>,
    reader: &BlockCodec,
    bytes: &[u8],
    size: usize,
    back: Result<Vec<u8>, Error>,
)
    requires
        call_ensures(BlockCodec::compress, (codec, input), Ok(block)),
        codec@ is None,
        reader@ matches Some(dict) ==> dict.len() < 0x8000_0000,
        bytes@ == block@,
        call_ensures(BlockCodec::decompress, (reader, bytes, size), back),
        input@.len() <= size,
    ensures
        back matches Ok(out) && out@ == input@,
{
    match reader@ {
        Some(dict) => crate::block::law_block_plain_under_dict(dict, input@, block@, size as nat),
        None => crate::block::law_block_round_trip(None, input@, block@, size as nat),
    }
}

/// What one call compresses with a dictionary, another call decompresses without
/// an error to as many bytes under any other that is no shorter.
pub proof fn law_block_calls_wrong_dict(
    codec: &BlockCodec,
    input: &[u8],
    block: Vec<u8>,
    reader: &BlockCodec,
    bytes: &[u8],
    size: usize,
    back: Result<Vec<u8>, Error>,
)
    requires
        call_ensures(BlockCodec::compress, (codec, input), Ok(block)),
        codec@ matches Some(dict) && (reader@ matches Some(other) && dict.len() <= other.len()
            < 0x8000_0000),
        bytes@ == block@,
        call_ensures(BlockCodec::decompress, (reader, bytes, size), back),
        input@.len() <= size,
    ensures
        back matches Ok(out) && out@.len() == input@.len(),
{
    crate::block::law_block_wrong_dict(codec@->0, reader@->0, input@, block@, size as nat);
}

/// What is cut from a buffer is what was written into its front. To have written
/// nothing is a failure of an encoder, and none of a decoder.
pub proof fn law_finish_block(
    out: Vec<u8>,
    written: Option<usize>,
    packed: Result<Vec<u8>, Error>,
    unpacked: Result<Vec<u8>, Error>,
)
    requires
        written matches Some(n) ==> n <= out@.len(),
        call_ensures(finish_compress, (out, written), packed),
        call_ensures(finish_decompress, (out, written), unpacked),
    ensures
        packed is Ok <==> (written matches Some(n) && n > 0),
        packed matches Ok(v) ==> v@.len() == written->0 && v@ == out@.subrange(0, v@.len() as int),
        packed matches Err(e) ==> e is BlockCompress,
        unpacked is Ok <==> written is Some,
        unpacked matches Ok(v) ==> v@.len() == written->0 && v@ == out@.subrange(0, v@.len() as int),
        unpacked matches Err(e) ==> e is BlockDecode,
{
}

/// The part of `b` that is its first frame: all of it where no whole frame
/// stands at its start.
pub open spec fn is_first_frame(b: Seq<u8>, part: Seq<u8>) -> bool {
    ||| exists|len: nat| #[trigger]
        starts_with_frame_of(b, len) && part == b.take(len as int)
    ||| part == b && forall|len: nat| !#[trigger] starts_with_frame_of(b, len)
}

/// The part of `b` that is the header of its first frame: all of it where no
/// whole header stands at its start.
pub open spec fn is_first_header(b: Seq<u8>, part: Seq<u8>) -> bool {
    ||| exists|len: nat| #[trigger]
        starts_with_header_of(b, len) && part == b.take(len as int)
    ||| part == b && forall|len: nat| !#[trigger] starts_with_header_of(b, len)
}

/// A whole frame stands at the start of `b`.
pub open spec fn has_whole_frame(b: Seq<u8>) -> bool {
    exists|len: nat| #[trigger] starts_with_frame_of(b, len)
}

/// `b` starts as an LZ4 frame, has the bytes of the shortest header, and ends
/// before its own header does.
pub open spec fn is_cut_in_header(b: Seq<u8>) -> bool {
    &&& starts_as_frame(b)
    &&& b.len() >= 7
    &&& forall|len: nat| !#[trigger] starts_with_header_of(b, len)
}

/// What is answered for a frame that is cut in its header: its flags are looked
/// at first, for the reserved bit and for version 1.
pub open spec fn answers_cut_header(flg: u8, r: Result<Vec<u8>, Error>) -> bool {
    if flg & 0x02 != 0 {
        r matches Err(Error::FrameDecode { kind }) && kind@ == "ReservedFlagSet"@
    } else if flg & 0xc0 != 0x40 {
        r matches Err(Error::FrameDecode { kind }) && kind@ == "HeaderVersionWrong"@
    } else {
        r matches Err(Error::Incomplete)
    }
}

/// What is answered for a frame that the decoder was asked to decode: what it
/// decoded, if the frame was whole; and its failure, if it failed.
pub open spec fn answers_decoder(
    whole: bool,
    made: Result<Result<Vec<u8>, String>, String>,
    r: Result<Vec<u8>, Error>,
) -> bool {
    match made {
        Ok(Ok(content)) => if whole {
            r matches Ok(out) && out@ == content@
        } else {
            r matches Err(Error::Incomplete)
        },
        Ok(Err(why)) => r matches Err(Error::FrameDecode { kind }) && kind@ == why@,
        Err(why) => r matches Err(Error::DecompressionContext { kind }) && kind@ == why@,
    }
}

/// `r` answers for the frame that `b` starts with, decoded behind `dict`.
pub open spec fn answers_frame(b: Seq<u8>, dict: Seq<u8>, r: Result<Vec<u8>, Error>) -> bool {
    if b.len() < 7 || starts_as_skippable(b) && b.len() < 8 {
        r matches Err(Error::Incomplete)
    } else if is_cut_in_header(b) {
        answers_cut_header(b[4], r)
    } else {
        exists|part: Seq<u8>, made: Result<Result<Vec<u8>, String>, String>| #[trigger]
            decoder_gave(part, dict, made) && is_first_frame(b, part) && answers_decoder(
                has_whole_frame(b),
                made,
                r,
            )
    }
}

/// The walk over a frame is the frame format.
proof fn lemma_layout_is_format(b: Seq<u8>)
    ensures
        is_first_frame(b, frame_part(b)),
        is_first_header(b, header_part(b)),
        has_whole_frame(b) <==> frame_end(b) is Some,
        ends_in_header(b) <==> b.len() < 7 || (starts_as_skippable(b) && b.len() < 8)
            || is_cut_in_header(b),
        has_magic(b) <==> starts_as_frame(b),
{
    law_magic(b);
    assert forall|len: nat| #[trigger] starts_with_frame_of(b, len) <==> frame_end(b) == Some(
        len,
    ) by {
        law_frame_end_is_the_format(b, len);
    }
    assert forall|len: nat| #[trigger]
        starts_with_header_of(b, len) <==> has_header(b) && header_len(b) == len by {
        law_header_is_the_format(b, len);
    }
    if frame_end(b) is Some {
        assert(starts_with_frame_of(b, frame_end(b)->0));
    }
    if has_header(b) {
        assert(starts_with_header_of(b, header_len(b)));
    }
}

/// What the library says of a frame is what answers for it.
proof fn lemma_frame_answer(b: Seq<u8>, dict: Seq<u8>, r: Result<Vec<u8>, Error>)
    requires
        frame_answer(b, dict, outcome(r)),
    ensures
        answers_frame(b, dict, r),
{
    lemma_layout_is_format(b);
    if ends_in_header(b) {
        if b.len() >= 7 && is_cut_in_header(b) {
            let flg = b[4];
            assert((flg / 2) % 2 == 1 <==> flg & 0x02 != 0) by (bit_vector);
            assert(flg / 64 != 1 <==> flg & 0xc0 != 0x40) by (bit_vector);
        }
    } else {
        let made = choose|made: Result<Result<Vec<u8>, String>, String>| #[trigger]
            decoder_gave(frame_part(b), dict, made) && outcome(r) == decoder_outcome(
                frame_end(b) is Some,
                made,
            );
        assert(decoder_gave(frame_part(b), dict, made));
        assert(answers_decoder(has_whole_frame(b), made, r));
    }
}

/// A call that decompresses a frame answers for the first frame of its bytes,
/// decoded behind the whole dictionary, with what the decoder gave.
pub proof fn law_decompress_frame(b: &[u8], dict: Option<&DictBound>, r: Result<Vec<u8>, Error>)
    requires
        call_ensures(decompress_frame, (b, dict), r),
    ensures
        answers_frame(
            b@,
            match dict {
                Some(d) => d.bytes@,
                None => Seq::empty(),
            },
            r,
        ),
{
    lemma_frame_answer(
        b@,
        match dict {
            Some(d) => d.bytes@,
            None => Seq::empty(),
        },
        r,
    );
}

/// A call of a codec without a dictionary refuses what does not start as a
/// frame, and otherwise answers for the first frame, decoded behind nothing.
pub proof fn law_frame_decompress_plain(codec: &FrameCodec, b: &[u8], r: Result<Vec<u8>, Error>)
    requires
        call_ensures(FrameCodec::decompress, (codec, b), r),
        codec@ is None,
    ensures
        !starts_as_frame(b@) ==> r matches Err(Error::BadMagic),
        starts_as_frame(b@) ==> answers_frame(b@, Seq::empty(), r),
{
    law_magic(b@);
    if has_magic(b@) {
        lemma_frame_answer(b@, Seq::empty(), r);
    }
}

/// A call of a codec with a dictionary refuses what does not start as a frame.
/// Otherwise it goes by the id in the header: it passes on the failure to read
/// it, and refuses an id that is neither its own nor 0. Whatever else the header
/// says, it answers for the first frame, decoded behind its dictionary.
pub proof fn law_frame_decompress_dict(
    codec: &FrameCodec,
    dict: Seq<u8>,
    id: u32,
    b: &[u8],
    r: Result<Vec<u8>, Error>,
)
    requires
        call_ensures(FrameCodec::decompress, (codec, b), r),
        codec@ == Some((dict, id)),
    ensures
        !starts_as_frame(b@) ==> r matches Err(Error::BadMagic),
        starts_as_frame(b@) ==> exists|
            head: Seq<u8>,
            read: Result<Result<u32, String>, String>,
        | #[trigger]
            id_reader_gave(head, read) && is_first_header(b@, head) && match read {
                Err(why) => r matches Err(Error::DecompressionContext { kind }) && kind@ == why@,
                Ok(Err(why)) => r matches Err(Error::FrameHeader { kind }) && kind@ == why@,
                Ok(Ok(found)) => if found == 0 || found == id {
                    answers_frame(b@, dict, r)
                } else {
                    r matches Err(Error::DictIdMismatch { frame, codec: own }) && frame == found
                        && own == id
                },
            },
{
    law_magic(b@);
    lemma_layout_is_format(b@);
    if has_magic(b@) {
        let o = outcome(r);
        let read = choose|read: Result<Result<u32, String>, String>| #[trigger]
            id_reader_gave(header_part(b@), read) && match read {
                Err(kind) => o == Err::<Seq<u8>, ErrorView>(
                    ErrorView::DecompressionContext { kind: kind@ },
                ),
                Ok(Err(kind)) => o == Err::<Seq<u8>, ErrorView>(
                    ErrorView::FrameHeader { kind: kind@ },
                ),
                Ok(Ok(frame)) => match dict_id_result(frame, id) {
                    Err(e) => o == Err::<Seq<u8>, ErrorView>(e),
                    Ok(_) => frame_answer(b@, dict, o),
                },
            };
        assert(id_reader_gave(header_part(b@), read));
        if let Ok(Ok(found)) = read {
            if found == 0 || found == id {
                lemma_frame_answer(b@, dict, r);
            }
        }
    }
}

/// A whole frame whose header reads as the codec's id, or as no id, gives what
/// decoding it behind the codec's dictionary gives, whatever its flags.
pub proof fn law_frame_decoded_behind_dict(
    dict: Seq<u8>,
    id: u32,
    p: FrameParts,
    tail: Seq<u8>,
    found: u32,
    content: Seq<u8>,
)
    requires
        p.wf(),
        lz4f_dict_id(p.header_bytes()) == Ok::<u32, Seq<char>>(found),
        found == 0 || found == id,
        lz4f_decoded(p.bytes(), dict) == Ok::<Seq<u8>, Seq<char>>(content),
    ensures
        codec_decompressed(Some((dict, id)), p.bytes() + tail) == Ok::<Seq<u8>, ErrorView>(content),
{
    let b = p.bytes() + tail;
    let rest = blocks_bytes(p.blocks) + seq![0u8, 0, 0, 0] + p.content_checksum + tail;
    assert(b =~= p.header_bytes() + rest);
    law_written_header(p, rest, 0);
    law_written_frame_is_found(p, tail);
    lemma_layout_is_format(b);
    assert(b.take(p.bytes().len() as int) =~= p.bytes());
    assert(b.take(4) =~= seq![0x04u8, 0x22, 0x4d, 0x18]);
    assert(b.take(p.header_bytes().len() as int) =~= p.header_bytes());
    assert(starts_with_header_of(b, p.header_bytes().len()));
    law_header_is_the_format(b, p.header_bytes().len());
}

/// As [`law_frame_decoded_behind_dict`], for a codec without a dictionary, which
/// does not look at the id.
pub proof fn law_frame_decoded_plain(p: FrameParts, tail: Seq<u8>, content: Seq<u8>)
    requires
        p.wf(),
        lz4f_decoded(p.bytes(), Seq::empty()) == Ok::<Seq<u8>, Seq<char>>(content),
    ensures
        codec_decompressed(None, p.bytes() + tail) == Ok::<Seq<u8>, ErrorView>(content),
{
    let b = p.bytes() + tail;
    let rest = blocks_bytes(p.blocks) + seq![0u8, 0, 0, 0] + p.content_checksum + tail;
    assert(b =~= p.header_bytes() + rest);
    law_written_header(p, rest, 0);
    law_written_frame_is_found(p, tail);
    lemma_layout_is_format(b);
    assert(b.take(p.bytes().len() as int) =~= p.bytes());
    assert(b.take(4) =~= seq![0x04u8, 0x22, 0x4d, 0x18]);
    assert(b.take(p.header_bytes().len() as int) =~= p.header_bytes());
    assert(starts_with_header_of(b, p.header_bytes().len()));
    law_header_is_the_format(b, p.header_bytes().len());
}

/// A call that reads the id in a header answers with what the reader gave for
/// the header of the first frame.
pub proof fn law_frame_header_dict_id(b: &[u8], r: Result<u32, Error>)
    requires
        call_ensures(frame_header_dict_id, (b,), r),
    ensures
        exists|head: Seq<u8>, read: Result<Result<u32, String>, String>| #[trigger]
            id_reader_gave(head, read) && is_first_header(b@, head) && match read {
                Ok(Ok(found)) => r matches Ok(id) && id == found,
                Ok(Err(why)) => r matches Err(Error::FrameHeader { kind }) && kind@ == why@,
                Err(why) => r matches Err(Error::DecompressionContext { kind }) && kind@ == why@,
            },
{
    lemma_layout_is_format(b@);
    let read = choose|read: Result<Result<u32, String>, String>| #[trigger]
        id_reader_gave(header_part(b@), read) && match read {
            Ok(Ok(id)) => r == Ok::<u32, Error>(id),
            Ok(Err(kind)) => r matches Err(e) && e@ == (ErrorView::FrameHeader { kind: kind@ }),
            Err(kind) => r matches Err(e) && e@ == (ErrorView::DecompressionContext { kind: kind@ }),
        };
    assert(id_reader_gave(header_part(b@), read));
}

/// The id that a call reads from a header is the one that was written into it,
/// and 0 where none was.
pub proof fn law_frame_header_dict_id_written(
    p: FrameParts,
    rest: Seq<u8>,
    b: &[u8],
    written: u32,
    read: u32,
)
    requires
        p.header_wf(),
        b@ == p.header_bytes() + rest,
        call_ensures(frame_header_dict_id, (b,), Ok(read)),
    ensures
        p.flg & 0x01 != 0 && p.dict_id == le32_bytes(written as nat) ==> read == written,
        p.flg & 0x01 == 0 ==> read == 0,
{
    law_written_header(p, rest, written);
    lemma_layout_is_format(b@);
    assert(b@.take(4) =~= seq![0x04u8, 0x22, 0x4d, 0x18]);
}

/// The dictionary that the encoder is given: nothing where there is none.
pub open spec fn given_dict(codec: Option<(Seq<u8>, u32)>) -> Seq<u8> {
    match codec {
        Some((bytes, _)) => bytes,
        None => Seq::empty(),
    }
}

/// The id that the encoder is given: 0 where there is none.
pub open spec fn given_id(codec: Option<(Seq<u8>, u32)>) -> u32 {
    match codec {
        Some((_, id)) => id,
        None => 0,
    }
}

/// A call that compresses into a frame gives what the encoder made of the whole
/// input, the whole dictionary and the id, and fails only as the encoder did; but
/// that a dictionary beyond a C integer is refused, and that under the id 0 the
/// header with that id takes the place of the one without.
pub proof fn law_frame_compress(codec: &FrameCodec, input: &[u8], r: Result<Vec<u8>, Error>)
    requires
        call_ensures(FrameCodec::compress, (codec, input), r),
    ensures
        given_dict(codec@).len() >= 0x8000_0000 ==> (r matches Err(Error::FrameCompress { kind })
            && kind@ == "ContentChecksumFlagInvalid"@),
        given_dict(codec@).len() < 0x8000_0000 ==> exists|
            made: Result<Result<Vec<u8>, String>, String>,
        | #[trigger]
            encoder_gave(input@, given_dict(codec@), given_id(codec@), made) && match made {
                Ok(Ok(frame)) => r matches Ok(out) && out@ == (if codec@ is Some && given_id(
                    codec@,
                ) == 0 {
                    seq![0x04u8, 0x22, 0x4d, 0x18, 0x41, 0x40, 0, 0, 0, 0, 0x92] + frame@.skip(7)
                } else {
                    frame@
                }),
                Ok(Err(why)) => r matches Err(Error::FrameCompress { kind }) && kind@ == why@,
                Err(why) => r matches Err(Error::CompressionContext { kind }) && kind@ == why@,
            },
{
    if given_dict(codec@).len() < 0x8000_0000 {
        let o = outcome(r);
        let zero_id = codec@ is Some && given_id(codec@) == 0;
        let made = choose|made: Result<Result<Vec<u8>, String>, String>| #[trigger]
            encoder_gave(input@, given_dict(codec@), given_id(codec@), made) && o
                == encoder_outcome(made, zero_id);
        assert(encoder_gave(input@, given_dict(codec@), given_id(codec@), made));
        if let Ok(Ok(frame)) = made {
            assert(with_zero_id(frame@) =~= seq![
                0x04u8,
                0x22,
                0x4d,
                0x18,
                0x41,
                0x40,
                0,
                0,
                0,
                0,
                0x92,
            ] + frame@.skip(7));
        }
    }
}

/// The frame that a call makes is one whole frame in the format, whose header
/// carries the codec's id exactly where the codec has a dictionary, no longer
/// than the input accounts for. A short input is stored in it.
pub proof fn law_frame_compress_format(codec: &FrameCodec, input: &[u8], frame: Vec<u8>)
    requires
        call_ensures(FrameCodec::compress, (codec, input), Ok(frame)),
    ensures
        starts_as_frame(frame@),
        starts_with_frame_of(frame@, frame@.len()),
        codec@ is None ==> frame@.subrange(4, 7) == seq![0x40u8, 0x40, 0xc0],
        codec@ matches Some((_, id)) ==> frame@.subrange(4, 10) == seq![0x41u8, 0x40] + le32_bytes(
            id as nat,
        ),
        ({
            let start: int = if codec@ is Some {
                11
            } else {
                7
            };
            let n = input@.len();
            &&& frame@.len() <= start + n + 4 * ((n + 65535) / 65536) + 4
            &&& n == 0 ==> frame@.skip(start) == seq![0u8, 0, 0, 0]
            &&& 0 < n < 13 ==> frame@.skip(start) == seq![n as u8, 0, 0, 0x80] + input@ + seq![
                0u8,
                0,
                0,
                0,
            ]
        }),
{
    law_magic(frame@);
    law_frame_end_is_the_format(frame@, frame@.len());
    if let Some((_, id)) = codec@ {
        law_le32(id as nat, frame@, 6);
        assert(frame@.subrange(4, 10) =~= frame@.subrange(4, 6) + frame@.subrange(6, 10));
        assert(frame@.subrange(4, 6) =~= seq![0x41u8, 0x40]);
    } else {
        assert(frame@.subrange(4, 7) =~= seq![0x40u8, 0x40, 0xc0]);
    }
}

/// A failure that a want of memory explains.
pub open spec fn is_memory_failure(r: Result<Vec<u8>, Error>) -> bool {
    r matches Err(e) && (e matches Error::DecompressionContext { kind } && out_of_memory(kind@) || (
    e matches Error::FrameDecode { kind } && out_of_memory(kind@)))
}

/// What one call makes into a frame, another call decompresses to what it was,
/// under an equal codec, whatever follows the frame; unless the decoder runs
/// out of memory.
pub proof fn law_frame_calls_round_trip(
    codec: &FrameCodec,
    input: &[u8],
    frame: Vec<u8>,
    reader: &FrameCodec,
    b: &[u8],
    tail: Seq<u8>,
    back: Result<Vec<u8>, Error>,
)
    requires
        call_ensures(FrameCodec::compress, (codec, input), Ok(frame)),
        reader@ == codec@,
        b@ == frame@ + tail,
        call_ensures(FrameCodec::decompress, (reader, b), back),
    ensures
        (back matches Ok(out) && out@ == input@) || is_memory_failure(back),
{
    law_frame_round_trip(codec@, input@, frame@);
    law_frame_trailing_bytes(codec@, frame@, tail);
}

/// What one call makes into a frame without a dictionary, another call
/// decompresses to what it was with any; unless the decoder runs out of memory.
pub proof fn law_frame_calls_plain_under_dict(
    codec: &FrameCodec,
    input: &[u8],
    frame: Vec<u8>,
    reader: &FrameCodec,
    b: &[u8],
    back: Result<Vec<u8>, Error>,
)
    requires
        call_ensures(FrameCodec::compress, (codec, input), Ok(frame)),
        codec@ is None,
        b@ == frame@,
        call_ensures(FrameCodec::decompress, (reader, b), back),
    ensures
        (back matches Ok(out) && out@ == input@) || is_memory_failure(back),
{
    match reader@ {
        Some((dict, id)) => law_frame_plain_under_dict(frame@, input@, dict, id),
        None => law_frame_round_trip(None, input@, frame@),
    }
}

/// What one call makes into a frame under one id, another call refuses under
/// another, for the difference of the ids and nothing else; unless memory runs
/// out. An id of 0 is read as none.
pub proof fn law_frame_calls_wrong_dict(
    codec: &FrameCodec,
    input: &[u8],
    frame: Vec<u8>,
    reader: &FrameCodec,
    b: &[u8],
    back: Result<Vec<u8>, Error>,
)
    requires
        call_ensures(FrameCodec::compress, (codec, input), Ok(frame)),
        codec@ is Some,
        reader@ is Some,
        given_id(codec@) != 0,
        given_id(codec@) != given_id(reader@),
        b@ == frame@,
        call_ensures(FrameCodec::decompress, (reader, b), back),
    ensures
        (back matches Err(Error::DictIdMismatch { frame: theirs, codec: own }) && theirs
            == given_id(codec@) && own == given_id(reader@)) || is_memory_failure(back),
{
    law_frame_wrong_dict(
        frame@,
        input@,
        given_dict(codec@),
        given_id(codec@),
        given_dict(reader@),
        given_id(reader@),
    );
}

/// A call never succeeds on bytes that do not start with a whole frame, such as
/// a frame that was cut anywhere.
pub proof fn law_frame_calls_truncated(
    reader: &FrameCodec,
    frame: Seq<u8>,
    b: &[u8],
    back: Result<Vec<u8>, Error>,
)
    requires
        starts_with_frame_of(frame, frame.len()),
        b@.len() < frame.len(),
        b@ == frame.take(b@.len() as int),
        call_ensures(FrameCodec::decompress, (reader, b), back),
    ensures
        back is Err,
{
    law_frame_end_is_the_format(frame, frame.len());
    law_frame_truncated(reader@, frame, b@.len());
}

/// A codec has the dictionary and the id that it was made with; without a
/// dictionary it has no id.
pub proof fn law_frame_codec_properties(
    dict: Option<Vec<u8>>,
    given: u32,
    codec: &FrameCodec,
    size: usize,
    has_dict: bool,
    id: Option<u32>,
)
    requires
        call_ensures(FrameCodec::new, (dict, given), *codec),
        call_ensures(FrameCodec::size, (codec,), size),
        call_ensures(FrameCodec::has_dict, (codec,), has_dict),
        call_ensures(FrameCodec::id, (codec,), id),
    ensures
        has_dict == dict is Some,
        match dict {
            Some(bytes) => size == bytes@.len() && id == Some(given) && codec@ == Some(
                (bytes@, given),
            ),
            None => size == 0 && id is None && codec@ is None,
        },
{
}

/// Ids agree exactly where the frame's is the codec's own or 0.
pub proof fn law_check_dict_id(frame: u32, codec: u32, r: Result<(), Error>)
    requires
        call_ensures(check_dict_id, (frame, codec), r),
    ensures
        r is Ok <==> frame == codec || frame == 0,
        r matches Err(e) ==> (e matches Error::DictIdMismatch { frame: theirs, codec: own }
            && theirs == frame && own == codec),
{
}

/// What the parts that take what liblz4 returned make of it: content is handed
/// on as it is, a frame that was cut is not, and each failure is told by where
/// it came from.
pub proof fn law_finish_frame(
    whole: bool,
    returned: Result<Result<Vec<u8>, String>, String>,
    read: Result<Result<u32, String>, String>,
    decoded: Result<Vec<u8>, Error>,
    encoded: Result<Vec<u8>, Error>,
    id: Result<u32, Error>,
)
    requires
        call_ensures(finish_frame, (whole, returned), decoded),
        call_ensures(finish_frame_compress, (returned,), encoded),
        call_ensures(finish_dict_id, (read,), id),
    ensures
        answers_decoder(whole, returned, decoded),
        match returned {
            Ok(Ok(frame)) => encoded matches Ok(out) && out@ == frame@,
            Ok(Err(why)) => encoded matches Err(Error::FrameCompress { kind }) && kind@ == why@,
            Err(why) => encoded matches Err(Error::CompressionContext { kind }) && kind@ == why@,
        },
        match read {
            Ok(Ok(found)) => id matches Ok(i) && i == found,
            Ok(Err(why)) => id matches Err(Error::FrameHeader { kind }) && kind@ == why@,
            Err(why) => id matches Err(Error::DecompressionContext { kind }) && kind@ == why@,
        },
{
}

/// A Dict_ID of 0 is put in by exchanging the header, and nothing else.
pub proof fn law_write_zero_id(frame: Vec<u8>, r: Vec<u8>)
    requires
        frame@.len() >= 7,
        call_ensures(write_zero_id, (frame,), r),
    ensures
        r@.len() == frame@.len() + 4,
        r@.take(11) == seq![0x04u8, 0x22, 0x4d, 0x18, 0x41, 0x40, 0, 0, 0, 0, 0x92],
        r@.skip(11) == frame@.skip(7),
{
    assert(r@.take(11) =~= seq![0x04u8, 0x22, 0x4d, 0x18, 0x41, 0x40, 0, 0, 0, 0, 0x92]);
    assert(r@.skip(11) =~= frame@.skip(7));
}

/// An input fits exactly where the buffers for it can be addressed; every one
/// of up to 1 GiB does, on any machine.
pub proof fn law_frame_input_fits(len: usize, r: bool)
    requires
        call_ensures(frame_input_fits, (len,), r),
    ensures
        r == frame_addressable(len as nat),
        r <==> len + len / 16384 + 131072 <= isize::MAX,
        len <= 0x4000_0000 ==> r,
{
}

/// The value of a digit of base 16 in lower case, and -1 of any other character.
pub open spec fn hex_digit_value(c: char) -> int {
    if '0' as int <= c as int <= '9' as int {
        c as int - '0' as int
    } else if 'a' as int <= c as int <= 'f' as int {
        c as int - 'a' as int + 10
    } else {
        -1
    }
}

/// The value of a number that is written in base 16.
pub open spec fn hex_value(text: Seq<char>) -> int
    decreases text.len(),
{
    if text.len() == 0 {
        0
    } else {
        16 * hex_value(text.drop_last()) + hex_digit_value(text.last())
    }
}

/// `text` is `n`, written with eight digits of base 16.
pub open spec fn is_hex_of(text: Seq<char>, n: u32) -> bool {
    &&& text.len() == 8
    &&& forall|i: int| 0 <= i < 8 ==> hex_digit_value(#[trigger] text[i]) >= 0
    &&& hex_value(text) == n
}

spec fn pow16(width: nat) -> nat
    decreases width,
{
    if width == 0 {
        1
    } else {
        16 * pow16((width - 1) as nat)
    }
}

proof fn lemma_hex_digits(n: nat, width: nat)
    requires
        n < pow16(width),
    ensures
        hex_digits(n, width).len() == width,
        forall|i: int| 0 <= i < width ==> hex_digit_value(#[trigger] hex_digits(n, width)[i]) >= 0,
        hex_value(hex_digits(n, width)) == n,
    decreases width,
{
    if width > 0 {
        let front = hex_digits(n / 16, (width - 1) as nat);
        lemma_hex_digits(n / 16, (width - 1) as nat);
        let text = hex_digits(n, width);
        assert(text.drop_last() =~= front);
        assert(hex_digit_value(hex_digit((n % 16) as int)) == n % 16);
        assert forall|i: int| 0 <= i < width implies hex_digit_value(#[trigger] text[i]) >= 0 by {
            if i < width - 1 {
                assert(text[i] == front[i]);
            }
        }
    }
}

/// Each kind of failure inside liblz4 has liblz4's name for it, and anything
/// else stands for itself.
pub proof fn law_lz4f_error(kind: &String, name: String)
    requires
        call_ensures(lz4f_error, (kind,), name),
    ensures
        kind@ == "Generic"@ ==> name@ == "ERROR_GENERIC"@,
        kind@ == "MaxBlockSizeInvalid"@ ==> name@ == "ERROR_maxBlockSize_invalid"@,
        kind@ == "BlockModeInvalid"@ ==> name@ == "ERROR_blockMode_invalid"@,
        kind@ == "ContentChecksumFlagInvalid"@ ==> name@ == "ERROR_parameter_invalid"@,
        kind@ == "CompressionLevelInvalid"@ ==> name@ == "ERROR_compressionLevel_invalid"@,
        kind@ == "HeaderVersionWrong"@ ==> name@ == "ERROR_headerVersion_wrong"@,
        kind@ == "BlockChecksumInvalid"@ ==> name@ == "ERROR_blockChecksum_invalid"@,
        kind@ == "ReservedFlagSet"@ ==> name@ == "ERROR_reservedFlag_set"@,
        kind@ == "AllocationFailed"@ ==> name@ == "ERROR_allocation_failed"@,
        kind@ == "SrcSizeTooLarge"@ ==> name@ == "ERROR_srcSize_tooLarge"@,
        kind@ == "DstMaxSizeTooSmall"@ ==> name@ == "ERROR_dstMaxSize_tooSmall"@,
        kind@ == "FrameHeaderIncomplete"@ ==> name@ == "ERROR_frameHeader_incomplete"@,
        kind@ == "FrameTypeUnknown"@ ==> name@ == "ERROR_frameType_unknown"@,
        kind@ == "FrameSizeWrong"@ ==> name@ == "ERROR_frameSize_wrong"@,
        kind@ == "SrcPtrWrong"@ ==> name@ == "ERROR_srcPtr_wrong"@,
        kind@ == "DecompressionFailed"@ ==> name@ == "ERROR_decompressionFailed"@,
        kind@ == "HeaderChecksumInvalid"@ ==> name@ == "ERROR_headerChecksum_invalid"@,
        kind@ == "ContentChecksumInvalid"@ ==> name@ == "ERROR_contentChecksum_invalid"@,
        kind@ == "FrameDecodingAlreadyStarted"@ ==> name@ == "ERROR_frameDecoding_alreadyStarted"@,
        kind@ == "FrameHeaderInvalid"@ ==> name@ == "ERROR_frameType_unknown"@,
        kind@ == "InitializationFailed"@ ==> name@ == "ERROR_allocation_failed"@,
        kind@ != "Generic"@ && kind@ != "MaxBlockSizeInvalid"@ && kind@ != "BlockModeInvalid"@ && kind@ != "ContentChecksumFlagInvalid"@ && kind@ != "CompressionLevelInvalid"@ && kind@ != "HeaderVersionWrong"@ && kind@ != "BlockChecksumInvalid"@ && kind@ != "ReservedFlagSet"@ && kind@ != "AllocationFailed"@ && kind@ != "SrcSizeTooLarge"@ && kind@ != "DstMaxSizeTooSmall"@ && kind@ != "FrameHeaderIncomplete"@ && kind@ != "FrameTypeUnknown"@ && kind@ != "FrameSizeWrong"@ && kind@ != "SrcPtrWrong"@ && kind@ != "DecompressionFailed"@ && kind@ != "HeaderChecksumInvalid"@ && kind@ != "ContentChecksumInvalid"@ && kind@ != "FrameDecodingAlreadyStarted"@ && kind@ != "FrameHeaderInvalid"@ && kind@ != "InitializationFailed"@ ==> name@ == kind@,
{
    // No two of the names are alike: they differ in length or in a letter.
    reveal_strlit("Generic");
    reveal_strlit("MaxBlockSizeInvalid");
    reveal_strlit("BlockModeInvalid");
    reveal_strlit("ContentChecksumFlagInvalid");
    reveal_strlit("CompressionLevelInvalid");
    reveal_strlit("HeaderVersionWrong");
    reveal_strlit("BlockChecksumInvalid");
    reveal_strlit("ReservedFlagSet");
    reveal_strlit("AllocationFailed");
    reveal_strlit("SrcSizeTooLarge");
    reveal_strlit("DstMaxSizeTooSmall");
    reveal_strlit("FrameHeaderIncomplete");
    reveal_strlit("FrameTypeUnknown");
    reveal_strlit("FrameSizeWrong");
    reveal_strlit("SrcPtrWrong");
    reveal_strlit("DecompressionFailed");
    reveal_strlit("HeaderChecksumInvalid");
    reveal_strlit("ContentChecksumInvalid");
    reveal_strlit("FrameDecodingAlreadyStarted");
    reveal_strlit("FrameHeaderInvalid");
    reveal_strlit("InitializationFailed");
    assert("Generic"@.len() == 7);
    assert("MaxBlockSizeInvalid"@.len() == 19);
    assert("BlockModeInvalid"@.len() == 16);
    assert("ContentChecksumFlagInvalid"@.len() == 26);
    assert("CompressionLevelInvalid"@.len() == 23);
    assert("HeaderVersionWrong"@.len() == 18);
    assert("BlockChecksumInvalid"@.len() == 20);
    assert("ReservedFlagSet"@.len() == 15);
    assert("AllocationFailed"@.len() == 16);
    assert("SrcSizeTooLarge"@.len() == 15);
    assert("DstMaxSizeTooSmall"@.len() == 18);
    assert("FrameHeaderIncomplete"@.len() == 21);
    assert("FrameTypeUnknown"@.len() == 16);
    assert("FrameSizeWrong"@.len() == 14);
    assert("SrcPtrWrong"@.len() == 11);
    assert("DecompressionFailed"@.len() == 19);
    assert("HeaderChecksumInvalid"@.len() == 21);
    assert("ContentChecksumInvalid"@.len() == 22);
    assert("FrameDecodingAlreadyStarted"@.len() == 27);
    assert("FrameHeaderInvalid"@.len() == 18);
    assert("InitializationFailed"@.len() == 20);
    assert("ReservedFlagSet"@[0] == 'R');
    assert("SrcSizeTooLarge"@[0] == 'S');
    assert("BlockModeInvalid"@[0] == 'B');
    assert("AllocationFailed"@[0] == 'A');
    assert("FrameTypeUnknown"@[0] == 'F');
    assert("HeaderVersionWrong"@[0] == 'H');
    assert("DstMaxSizeTooSmall"@[0] == 'D');
    assert("FrameHeaderInvalid"@[0] == 'F');
    assert("MaxBlockSizeInvalid"@[0] == 'M');
    assert("DecompressionFailed"@[0] == 'D');
    assert("BlockChecksumInvalid"@[0] == 'B');
    assert("InitializationFailed"@[0] == 'I');
    assert("FrameHeaderIncomplete"@[0] == 'F');
    assert("HeaderChecksumInvalid"@[0] == 'H');
}

/// The text for each failure. Where it passes on a failure inside liblz4, it ends
/// with liblz4's name for that; where ids differ, it gives both.
pub proof fn law_error_message(e: &Error, text: String, name: String)
    requires
        call_ensures(Error::message, (e,), text),
        match *e {
            Error::CompressionContext { kind } => call_ensures(lz4f_error, (&kind,), name),
            Error::FrameCompress { kind } => call_ensures(lz4f_error, (&kind,), name),
            Error::DecompressionContext { kind } => call_ensures(lz4f_error, (&kind,), name),
            Error::FrameHeader { kind } => call_ensures(lz4f_error, (&kind,), name),
            Error::FrameDecode { kind } => call_ensures(lz4f_error, (&kind,), name),
            _ => true,
        },
    ensures
        match *e {
            Error::BlockCompress => text@ == "lz4 block compress failed"@,
            Error::BlockDecode => text@ == "lz4 block decode failed"@,
            Error::CompressionContext { .. } => text@ == "LZ4F_createCompressionContext: "@
                + name@,
            Error::FrameCompress { .. } => text@ == "LZ4F_compressBegin: "@ + name@,
            Error::DecompressionContext { .. } => text@ == "LZ4F_createDecompressionContext: "@
                + name@,
            Error::BadMagic => text@
                == "lz4 frame decode failed: bad magic (input is not an LZ4 frame)"@,
            Error::FrameHeader { .. } => text@ == "lz4 frame header error: "@ + name@,
            Error::DictIdMismatch { frame, codec } => exists|f: Seq<char>, c: Seq<char>|
                #![trigger is_hex_of(f, frame), is_hex_of(c, codec)]
                is_hex_of(f, frame) && is_hex_of(c, codec) && text@
                    == "lz4 frame dict_id mismatch: frame=0x"@ + f + " codec=0x"@ + c,
            Error::FrameDecode { .. } => text@ == "lz4 frame decode failed: "@ + name@,
            Error::Incomplete => text@
                == "lz4 frame decode failed: truncated or incomplete frame"@,
        },
{
    if let Error::DictIdMismatch { frame, codec } = *e {
        reveal_with_fuel(pow16, 9);
        assert(pow16(8) == 0x1_0000_0000);
        lemma_hex_digits(frame as nat, 8);
        lemma_hex_digits(codec as nat, 8);
        assert(is_hex_of(hex_digits(frame as nat, 8), frame));
        assert(is_hex_of(hex_digits(codec as nat, 8), codec));
    }
}

/// The failures that lie in the bytes that were to be decompressed are those of
/// a block, of a magic number, of a header, of an id, of a frame's content, and
/// of a cut frame.
pub proof fn law_error_class(e: &Error, r: bool)
    requires
        call_ensures(Error::is_decompress_error, (e,), r),
    ensures
        r <==> e is BlockDecode || e is BadMagic || e is FrameHeader || e is DictIdMismatch
            || e is FrameDecode || e is Incomplete,
{
}

/// What may be called: anything on anything, but that a block codec's dictionary
/// is no longer than a C integer can say, and that the buffers for a frame can be
/// addressed.
pub proof fn law_calls_allowed(
    dict: Option<Vec<u8>>,
    id: u32,
    bound: Option<&DictBound>,
    block: &BlockCodec,
    frame: &FrameCodec,
    bytes: &[u8],
    size: usize,
)
    ensures
        call_requires(compress_bound, (size,)),
        (dict matches Some(d) ==> d@.len() < 0x8000_0000) ==> call_requires(
            BlockCodec::new,
            (dict,),
        ),
        call_requires(BlockCodec::compress, (block, bytes)),
        call_requires(BlockCodec::decompress, (block, bytes, size)),
        call_requires(FrameCodec::new, (dict, id)),
        bytes@.len() + bytes@.len() / 16384 + 131072 <= isize::MAX ==> call_requires(
            FrameCodec::compress,
            (frame, bytes),
        ),
        call_requires(FrameCodec::decompress, (frame, bytes)),
        call_requires(decompress_frame, (bytes, bound)),
        call_requires(frame_header_dict_id, (bytes,)),
        call_requires(find_frame_end, (bytes,)),
        call_requires(frame_header_len, (bytes,)),
{
}

} // verus!
