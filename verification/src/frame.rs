//! LZ4 frames.

use vstd::prelude::*;
use vstd::slice::slice_subrange;

use crate::bound::MAX_INT_SIZE;
use crate::engine::{
    decode_frame, encode_frame, encode_frame_with_dict, frame_addressable, frame_decodes,
    is_default_frame, is_default_header, is_liblz4_frame, lz4f_decoded, lz4f_dict_id,
    lz4f_frames_with_dict, read_dict_id, with_zero_id,
};
use crate::error::{out_of_memory, outcome, Error, ErrorView};
use crate::layout::{
    dict_id_field, find_frame_end, flags_dict_id, frame_end, frame_header_len, has_header,
    has_magic, has_skippable_magic, header_len, header_part, law_frame_end_local,
    law_frame_end_prefix_free, le32, lemma_blocks_end_shift, lemma_frame_end_bounds,
    starts_with_magic, starts_with_skippable_magic, MIN_HEADER_LEN, ZERO_ID_HEADER,
};

verus! {

/// A dictionary with the id that frames name it by.
pub struct DictBound {
    pub bytes: Vec<u8>,
    pub id: u32,
}

/// A frame codec, with or without a dictionary.
pub struct FrameCodec {
    dict: Option<DictBound>,
}

impl View for FrameCodec {
    type V = Option<(Seq<u8>, u32)>;

    closed spec fn view(&self) -> Option<(Seq<u8>, u32)> {
        match self.dict {
            Some(d) => Some((d.bytes@, d.id)),
            None => None,
        }
    }
}

/// The dictionary that a codec's frames refer back to.
pub open spec fn codec_history(codec: Option<(Seq<u8>, u32)>) -> Option<Seq<u8>> {
    match codec {
        Some((bytes, _)) => Some(bytes),
        None => None,
    }
}

/// The id that a codec writes into its frames. With a dictionary it writes one,
/// whatever it is.
pub open spec fn codec_id(codec: Option<(Seq<u8>, u32)>) -> Option<u32> {
    match codec {
        Some((_, id)) => Some(id),
        None => None,
    }
}

/// Where a codec's dictionary has anything in it, `frame` is a frame that liblz4
/// makes of `input` with that dictionary loaded. An id of 0 was put into it
/// afterwards.
pub open spec fn made_with_dict(
    frame: Seq<u8>,
    codec: Option<(Seq<u8>, u32)>,
    input: Seq<u8>,
) -> bool {
    codec matches Some((bytes, id)) ==> bytes.len() > 0 ==> if id == 0 {
        exists|made: Seq<u8>| #[trigger]
            lz4f_frames_with_dict(input, bytes, id).contains(made) && frame == with_zero_id(made)
    } else {
        lz4f_frames_with_dict(input, bytes, id).contains(frame)
    }
}

/// `frame` holds `input` under a codec: it is one whole frame with the codec's
/// id in its header, no longer than `input` accounts for, made with the codec's
/// dictionary, and decodes to `input` behind that dictionary. Without one it
/// does so behind any.
pub open spec fn is_frame_of(
    frame: Seq<u8>,
    codec: Option<(Seq<u8>, u32)>,
    input: Seq<u8>,
) -> bool {
    &&& is_default_frame(frame, codec_id(codec), input)
    &&& made_with_dict(frame, codec, input)
    &&& frame_decodes(frame, codec_history(codec), input)
}

/// A codec's dictionary is longer than liblz4 can be told.
pub open spec fn dict_too_long(codec: Option<(Seq<u8>, u32)>) -> bool {
    codec matches Some((bytes, _)) && bytes.len() > MAX_INT_SIZE
}

/// What a flag byte is refused for: a reserved bit, or a version other than 1.
pub open spec fn flags_fault(flg: u8) -> Option<Seq<char>> {
    if (flg / 2) % 2 == 1 {
        Some("ReservedFlagSet"@)
    } else if flg / 64 != 1 {
        Some("HeaderVersionWrong"@)
    } else {
        None
    }
}

/// `b` ends within its header.
pub open spec fn ends_in_header(b: Seq<u8>) -> bool {
    ||| b.len() < MIN_HEADER_LEN
    ||| has_magic(b) && b.len() < header_len(b)
    ||| has_skippable_magic(b) && b.len() < 8
}

/// Why a frame that ends within its header cannot be decoded. Its flags are
/// looked at as soon as the shortest header is there.
pub open spec fn header_fault(b: Seq<u8>) -> ErrorView {
    if b.len() >= MIN_HEADER_LEN && has_magic(b) {
        match flags_fault(b[4]) {
            Some(kind) => ErrorView::FrameDecode { kind },
            None => ErrorView::Incomplete,
        }
    } else {
        ErrorView::Incomplete
    }
}

/// The bytes of `b` that belong to its first frame: all of them where the
/// frame is cut short.
pub open spec fn frame_part(b: Seq<u8>) -> Seq<u8> {
    match frame_end(b) {
        Some(end) => b.take(end as int),
        None => b,
    }
}

/// What a decoded frame gives, knowing whether it was whole.
pub open spec fn frame_result(whole: bool, decoded: Result<Seq<u8>, Seq<char>>) -> Result<
    Seq<u8>,
    ErrorView,
> {
    match decoded {
        Err(kind) => Err(ErrorView::FrameDecode { kind }),
        Ok(out) => if whole {
            Ok(out)
        } else {
            Err(ErrorView::Incomplete)
        },
    }
}

/// What decompressing the frame that `b` starts with gives, with `dict` as
/// the history before its first block. What follows the frame is ignored.
pub open spec fn frame_decompressed(b: Seq<u8>, dict: Seq<u8>) -> Result<Seq<u8>, ErrorView> {
    if ends_in_header(b) {
        Err(header_fault(b))
    } else {
        frame_result(frame_end(b) is Some, lz4f_decoded(frame_part(b), dict))
    }
}

/// What comes of comparing the id in a frame's header with a codec's own: a
/// frame that names another dictionary is refused, one that names none is not.
pub open spec fn dict_id_result(frame: u32, codec: u32) -> Result<(), ErrorView> {
    if frame != 0 && frame != codec {
        Err(ErrorView::DictIdMismatch { frame, codec })
    } else {
        Ok(())
    }
}

/// What a codec makes of `b`.
pub open spec fn codec_decompressed(codec: Option<(Seq<u8>, u32)>, b: Seq<u8>) -> Result<
    Seq<u8>,
    ErrorView,
> {
    if !has_magic(b) {
        Err(ErrorView::BadMagic)
    } else {
        match codec {
            None => frame_decompressed(b, Seq::empty()),
            Some((bytes, id)) => match lz4f_dict_id(header_part(b)) {
                Err(kind) => Err(ErrorView::FrameHeader { kind }),
                Ok(frame) => match dict_id_result(frame, id) {
                    Err(e) => Err(e),
                    Ok(_) => frame_decompressed(b, bytes),
                },
            },
        }
    }
}

/// The decoder was called on `frame` with `dict` as its history, and returned
/// `made`.
pub closed spec fn decoder_gave(
    frame: Seq<u8>,
    dict: Seq<u8>,
    made: Result<Result<Vec<u8>, String>, String>,
) -> bool {
    exists|f: &[u8], d: &[u8]|
        f@ == frame && d@ == dict && #[trigger] call_ensures(decode_frame, (f, d), made)
}

/// The reader of dictionary ids was called on `header`, and returned `read`.
pub closed spec fn id_reader_gave(
    header: Seq<u8>,
    read: Result<Result<u32, String>, String>,
) -> bool {
    exists|h: &[u8]| h@ == header && #[trigger] call_ensures(read_dict_id, (h,), read)
}

/// The encoder was called on `input` with `dict` as its history, if there is
/// anything in it, and with `id`; and returned `made`.
pub closed spec fn encoder_gave(
    input: Seq<u8>,
    dict: Seq<u8>,
    id: u32,
    made: Result<Result<Vec<u8>, String>, String>,
) -> bool {
    if dict.len() == 0 {
        exists|i: &[u8]| i@ == input && #[trigger] call_ensures(encode_frame, (i, id), made)
    } else {
        exists|i: &[u8], d: &[u8]|
            i@ == input && d@ == dict && #[trigger] call_ensures(
                encode_frame_with_dict,
                (i, d, id),
                made,
            )
    }
}

/// What came from the decoder came from a call of it.
pub(crate) proof fn law_decoder_gave_is_a_call(
    frame: Seq<u8>,
    dict: Seq<u8>,
    made: Result<Result<Vec<u8>, String>, String>,
)
    requires
        decoder_gave(frame, dict, made),
    ensures
        exists|f: &[u8], d: &[u8]|
            f@ == frame && d@ == dict && #[trigger] call_ensures(decode_frame, (f, d), made),
{
}

/// What came from the reader of dictionary ids came from a call of it.
pub(crate) proof fn law_id_reader_gave_is_a_call(
    header: Seq<u8>,
    read: Result<Result<u32, String>, String>,
)
    requires
        id_reader_gave(header, read),
    ensures
        exists|h: &[u8]| h@ == header && #[trigger] call_ensures(read_dict_id, (h,), read),
{
}

/// What came from the encoder came from a call of it, with the whole input and
/// the whole dictionary.
pub(crate) proof fn law_encoder_gave_is_a_call(
    input: Seq<u8>,
    dict: Seq<u8>,
    id: u32,
    made: Result<Result<Vec<u8>, String>, String>,
)
    requires
        encoder_gave(input, dict, id, made),
    ensures
        dict.len() == 0 ==> exists|i: &[u8]|
            i@ == input && #[trigger] call_ensures(encode_frame, (i, id), made),
        dict.len() > 0 ==> exists|i: &[u8], d: &[u8]|
            i@ == input && d@ == dict && #[trigger] call_ensures(
                encode_frame_with_dict,
                (i, d, id),
                made,
            ),
{
}

/// What the decoder returns is what it is known to decode, or a want of memory.
pub proof fn law_decoder_gave(
    frame: Seq<u8>,
    dict: Seq<u8>,
    made: Result<Result<Vec<u8>, String>, String>,
)
    requires
        decoder_gave(frame, dict, made),
    ensures
        match made {
            Ok(Ok(out)) => lz4f_decoded(frame, dict) matches Ok(named) && named == out@,
            Ok(Err(kind)) => out_of_memory(kind@) || (lz4f_decoded(frame, dict) matches Err(named)
                && named == kind@),
            Err(kind) => out_of_memory(kind@),
        },
{
}

/// What the reader of dictionary ids returns is the id in the header, its
/// failure to read it, or a want of memory.
pub proof fn law_id_reader_gave(header: Seq<u8>, read: Result<Result<u32, String>, String>)
    requires
        id_reader_gave(header, read),
    ensures
        match read {
            Ok(Ok(id)) => lz4f_dict_id(header) matches Ok(named) && named == id,
            Ok(Err(kind)) => lz4f_dict_id(header) matches Err(named) && named == kind@,
            Err(kind) => out_of_memory(kind@),
        },
{
}

/// What a decoder's return gives, knowing whether the frame was whole.
pub open spec fn decoder_outcome(
    whole: bool,
    made: Result<Result<Vec<u8>, String>, String>,
) -> Result<Seq<u8>, ErrorView> {
    match made {
        Ok(Ok(out)) => frame_result(whole, Ok(out@)),
        Ok(Err(kind)) => frame_result(whole, Err(kind@)),
        Err(kind) => Err(ErrorView::DecompressionContext { kind: kind@ }),
    }
}

/// `o` is what decompressing the frame that `b` starts with gives, for one
/// return of the decoder.
pub open spec fn frame_answer(
    b: Seq<u8>,
    dict: Seq<u8>,
    o: Result<Seq<u8>, ErrorView>,
) -> bool {
    if ends_in_header(b) {
        o == Err::<Seq<u8>, ErrorView>(header_fault(b))
    } else {
        exists|made: Result<Result<Vec<u8>, String>, String>| #[trigger]
            decoder_gave(frame_part(b), dict, made) && o == decoder_outcome(
                frame_end(b) is Some,
                made,
            )
    }
}

/// `o` is what a codec with the dictionary `bytes` under `id` gives for `b`,
/// for one return of the reader of dictionary ids.
pub open spec fn dict_answer(
    bytes: Seq<u8>,
    id: u32,
    b: Seq<u8>,
    o: Result<Seq<u8>, ErrorView>,
) -> bool {
    exists|read: Result<Result<u32, String>, String>| #[trigger]
        id_reader_gave(header_part(b), read) && match read {
            Err(kind) => o == Err::<Seq<u8>, ErrorView>(
                ErrorView::DecompressionContext { kind: kind@ },
            ),
            Ok(Err(kind)) => o == Err::<Seq<u8>, ErrorView>(ErrorView::FrameHeader { kind: kind@ }),
            Ok(Ok(frame)) => match dict_id_result(frame, id) {
                Err(e) => o == Err::<Seq<u8>, ErrorView>(e),
                Ok(_) => frame_answer(b, bytes, o),
            },
        }
}

/// `o` is what a codec gives for `b`.
pub open spec fn codec_answer(
    codec: Option<(Seq<u8>, u32)>,
    b: Seq<u8>,
    o: Result<Seq<u8>, ErrorView>,
) -> bool {
    if !has_magic(b) {
        o == Err::<Seq<u8>, ErrorView>(ErrorView::BadMagic)
    } else {
        match codec {
            None => frame_answer(b, Seq::empty(), o),
            Some((bytes, id)) => dict_answer(bytes, id, b, o),
        }
    }
}

/// What an encoder's return gives. A Dict_ID of 0 may be put into the frame.
pub open spec fn encoder_outcome(
    made: Result<Result<Vec<u8>, String>, String>,
    zero_id: bool,
) -> Result<Seq<u8>, ErrorView> {
    match made {
        Ok(Ok(frame)) => if zero_id {
            Ok(with_zero_id(frame@))
        } else {
            Ok(frame@)
        },
        Ok(Err(kind)) => Err(ErrorView::FrameCompress { kind: kind@ }),
        Err(kind) => Err(ErrorView::CompressionContext { kind: kind@ }),
    }
}

/// `o` is what a codec gives for `input`, for one return of the encoder. With a
/// dictionary under the id 0, the id is put in afterwards.
pub open spec fn compress_answer(
    codec: Option<(Seq<u8>, u32)>,
    input: Seq<u8>,
    o: Result<Seq<u8>, ErrorView>,
) -> bool {
    match codec {
        None => exists|made: Result<Result<Vec<u8>, String>, String>| #[trigger]
            encoder_gave(input, Seq::empty(), 0, made) && o == encoder_outcome(made, false),
        Some((bytes, id)) => exists|made: Result<Result<Vec<u8>, String>, String>| #[trigger]
            encoder_gave(input, bytes, id, made) && o == encoder_outcome(made, id == 0),
    }
}

/// Decides what a decoded frame gives, knowing whether it was whole. The outer
/// error is that of creating the decoder.
pub fn finish_frame(whole: bool, decoded: Result<Result<Vec<u8>, String>, String>) -> (r: Result<
    Vec<u8>,
    Error,
>)
    ensures
        outcome(r) == decoder_outcome(whole, decoded),
{
    match decoded {
        Ok(Ok(out)) => if whole {
            Ok(out)
        } else {
            Err(Error::Incomplete)
        },
        Ok(Err(kind)) => Err(Error::FrameDecode { kind }),
        Err(kind) => Err(Error::DecompressionContext { kind }),
    }
}

/// Decides what reading the id in a frame's header gives. The outer error is
/// that of creating the decoder.
pub fn finish_dict_id(read: Result<Result<u32, String>, String>) -> (r: Result<u32, Error>)
    ensures
        match read {
            Ok(Ok(id)) => r == Ok::<u32, Error>(id),
            Ok(Err(kind)) => r matches Err(e) && e@ == (ErrorView::FrameHeader { kind: kind@ }),
            Err(kind) => r matches Err(e) && e@ == (ErrorView::DecompressionContext {
                kind: kind@,
            }),
        },
{
    match read {
        Ok(Ok(id)) => Ok(id),
        Ok(Err(kind)) => Err(Error::FrameHeader { kind }),
        Err(kind) => Err(Error::DecompressionContext { kind }),
    }
}

/// Compares the id in a frame's header with a codec's own.
pub fn check_dict_id(frame: u32, codec: u32) -> (r: Result<(), Error>)
    ensures
        (match r {
            Ok(_) => Ok(()),
            Err(e) => Err(e@),
        }) == dict_id_result(frame, codec),
{
    if frame != 0 && frame != codec {
        Err(Error::DictIdMismatch { frame, codec })
    } else {
        Ok(())
    }
}

/// Refuses a frame that ends within its header.
fn check_header_present(b: &[u8]) -> (r: Result<(), Error>)
    ensures
        r is Err <==> ends_in_header(b@),
        r matches Err(e) ==> e@ == header_fault(b@),
{
    if b.len() < MIN_HEADER_LEN {
        return Err(Error::Incomplete);
    }
    if starts_with_skippable_magic(b) {
        return if b.len() < 8 {
            Err(Error::Incomplete)
        } else {
            Ok(())
        };
    }
    if !starts_with_magic(b) || frame_header_len(b).is_some() {
        return Ok(());
    }
    let flg: u8 = b[4];
    if (flg / 2) % 2 == 1 {
        Err(Error::FrameDecode { kind: "ReservedFlagSet".to_owned() })
    } else if flg / 64 != 1 {
        Err(Error::FrameDecode { kind: "HeaderVersionWrong".to_owned() })
    } else {
        Err(Error::Incomplete)
    }
}

/// Decompresses the frame that `compressed` starts with.
pub fn decompress_frame(compressed: &[u8], dict: Option<&DictBound>) -> (r: Result<
    Vec<u8>,
    Error,
>)
    ensures
        outcome(r) == frame_decompressed(
            compressed@,
            (match dict {
                Some(d) => d.bytes@,
                None => Seq::empty(),
            }),
        ) || (!ends_in_header(compressed@) && (r matches Err(e) && e@.is_decoder_memory())),
        frame_answer(
            compressed@,
            (match dict {
                Some(d) => d.bytes@,
                None => Seq::empty(),
            }),
            outcome(r),
        ),
{
    check_header_present(compressed)?;
    let end = find_frame_end(compressed);
    let part = match end {
        Some(n) => slice_subrange(compressed, 0, n),
        None => compressed,
    };
    let empty: Vec<u8> = Vec::new();
    let history = match dict {
        Some(d) => d.bytes.as_slice(),
        None => empty.as_slice(),
    };
    assert(part@ =~= frame_part(compressed@));
    assert(empty@ =~= Seq::empty());
    let made = decode_frame(part, history);
    assert(decoder_gave(part@, history@, made));
    finish_frame(end.is_some(), made)
}

/// The header part of a frame carries the id that the frame carries.
proof fn lemma_header_part(b: Seq<u8>)
    requires
        has_magic(b),
    ensures
        has_magic(header_part(b)),
        has_header(header_part(b)) <==> has_header(b),
        has_header(b) ==> dict_id_field(header_part(b)) == dict_id_field(b),
{
    let h = header_part(b);
    if has_header(b) {
        assert forall|i: int| 0 <= i < header_len(b) implies h[i] == b[i] by {}
        assert(header_len(h) == header_len(b));
        assert(le32(h, header_len(b) - 5) == le32(b, header_len(b) - 5));
    }
}

/// Reads the dictionary id in a frame's header, 0 where it carries none.
pub fn frame_header_dict_id(compressed: &[u8]) -> (r: Result<u32, Error>)
    ensures
        match r {
            Ok(id) => lz4f_dict_id(header_part(compressed@)) matches Ok(named) && named == id,
            Err(e) => match e@ {
                ErrorView::FrameHeader { kind } => lz4f_dict_id(
                    header_part(compressed@),
                ) matches Err(named) && named == kind,
                ErrorView::DecompressionContext { kind } => out_of_memory(kind),
                _ => false,
            },
        },
        r matches Ok(id) ==> has_magic(compressed@) ==> has_header(compressed@) && id
            == dict_id_field(compressed@),
        exists|read: Result<Result<u32, String>, String>| #[trigger]
            id_reader_gave(header_part(compressed@), read) && match read {
                Ok(Ok(id)) => r == Ok::<u32, Error>(id),
                Ok(Err(kind)) => r matches Err(e) && e@ == (ErrorView::FrameHeader { kind: kind@ }),
                Err(kind) => r matches Err(e) && e@ == (ErrorView::DecompressionContext {
                    kind: kind@,
                }),
            },
{
    let part = match frame_header_len(compressed) {
        Some(n) => slice_subrange(compressed, 0, n),
        None => compressed,
    };
    assert(part@ =~= header_part(compressed@));
    proof {
        if has_magic(compressed@) {
            lemma_header_part(compressed@);
        }
    }
    let read = read_dict_id(part);
    assert(id_reader_gave(part@, read));
    finish_dict_id(read)
}

/// Decides what a codec gives for what the encoder made.
pub fn finish_frame_compress(made: Result<Result<Vec<u8>, String>, String>) -> (r: Result<
    Vec<u8>,
    Error,
>)
    ensures
        outcome(r) == (match made {
            Ok(Ok(frame)) => Ok(frame@),
            Ok(Err(kind)) => Err(ErrorView::FrameCompress { kind: kind@ }),
            Err(kind) => Err(ErrorView::CompressionContext { kind: kind@ }),
        }),
{
    match made {
        Ok(Ok(frame)) => Ok(frame),
        Ok(Err(kind)) => Err(Error::FrameCompress { kind }),
        Err(kind) => Err(Error::CompressionContext { kind }),
    }
}

/// Puts a Dict_ID of 0 into a frame with the shortest header: liblz4 takes 0 for
/// no id, and leaves the field out.
pub fn write_zero_id(frame: Vec<u8>) -> (r: Vec<u8>)
    requires
        frame@.len() >= MIN_HEADER_LEN,
    ensures
        r@ == with_zero_id(frame@),
{
    let mut out: Vec<u8> = Vec::new();
    out.extend_from_slice(&ZERO_ID_HEADER);
    out.extend_from_slice(slice_subrange(frame.as_slice(), MIN_HEADER_LEN, frame.len()));
    out
}

/// A frame that liblz4 made without an id, with a Dict_ID of 0 put into it, is
/// the frame of a codec whose id is 0.
proof fn lemma_zero_id(frame: Seq<u8>, input: Seq<u8>, dict: Seq<u8>)
    requires
        is_liblz4_frame(frame, input, Some(dict), 0) || is_liblz4_frame(frame, input, None, 0),
        dict.len() > 0 ==> lz4f_frames_with_dict(input, dict, 0).contains(frame),
    ensures
        is_frame_of(with_zero_id(frame), Some((dict, 0)), input),
{
    let named = with_zero_id(frame);
    assert(header_len(frame) == 7);
    assert(named.len() == frame.len() + 4);
    assert(forall|i: int| 0 <= i < 11 ==> named[i] == ZERO_ID_HEADER[i]);
    assert(header_len(named) == 11);
    assert(is_default_header(named, Some(0)));
    assert(named.skip(11) =~= frame.skip(7));
    lemma_blocks_end_shift(frame, named, 7, 11, 0);
    lemma_frame_end_bounds(frame);
    assert(frame_end(named) == Some(named.len()));
}

/// Tells whether an input of `len` bytes can be made into a frame in memory.
pub fn frame_input_fits(len: usize) -> (r: bool)
    ensures
        r == frame_addressable(len as nat),
{
    let limit: usize = isize::MAX as usize;
    len <= limit && len / 0x4000 <= limit - len && 0x2_0000 <= limit - len - len / 0x4000
}

impl FrameCodec {
    /// A codec with `dict` as its dictionary for good, under `id`; or with
    /// none, and then without an id.
    pub fn new(dict: Option<Vec<u8>>, id: u32) -> (codec: FrameCodec)
        ensures
            codec@ == (match dict {
                Some(bytes) => Some((bytes@, id)),
                None => None,
            }),
    {
        match dict {
            Some(bytes) => FrameCodec { dict: Some(DictBound { bytes, id }) },
            None => FrameCodec { dict: None },
        }
    }

    /// Compresses `input` into one frame. Which of the frames that hold `input`
    /// it is depends on the machine. With a dictionary that is longer than
    /// liblz4 can be told there is none; otherwise only for want of memory.
    pub fn compress(&self, input: &[u8]) -> (r: Result<Vec<u8>, Error>)
        requires
            frame_addressable(input@.len()),
        ensures
            match r {
                Ok(frame) => !dict_too_long(self@) && is_frame_of(frame@, self@, input@),
                Err(e) => if dict_too_long(self@) {
                    e@ == (ErrorView::FrameCompress { kind: "ContentChecksumFlagInvalid"@ })
                } else {
                    e@.is_encoder_memory()
                },
            },
            !dict_too_long(self@) ==> compress_answer(self@, input@, outcome(r)),
    {
        match &self.dict {
            None => {
                let made = encode_frame(input, 0);
                assert(encoder_gave(input@, Seq::empty(), 0, made));
                finish_frame_compress(made)
            },
            Some(d) => {
                if d.bytes.len() > MAX_INT_SIZE {
                    return Err(
                        Error::FrameCompress { kind: "ContentChecksumFlagInvalid".to_owned() },
                    );
                }
                let made = if d.bytes.len() > 0 {
                    encode_frame_with_dict(input, d.bytes.as_slice(), d.id)
                } else {
                    encode_frame(input, d.id)
                };
                assert(encoder_gave(input@, d.bytes@, d.id, made));
                let frame = finish_frame_compress(made)?;
                if d.id == 0 {
                    proof {
                        lemma_zero_id(frame@, input@, d.bytes@);
                    }
                    Ok(write_zero_id(frame))
                } else {
                    Ok(frame)
                }
            },
        }
    }

    /// Decompresses the frame that `compressed` starts with.
    ///
    /// A codec with a dictionary refuses a frame that names another one, before
    /// it decodes anything. A frame that could be decompressed is still refused
    /// for want of memory.
    pub fn decompress(&self, compressed: &[u8]) -> (r: Result<Vec<u8>, Error>)
        ensures
            outcome(r) == codec_decompressed(self@, compressed@) || (has_magic(compressed@) && (
            r matches Err(e) && e@.is_decoder_memory())),
            codec_answer(self@, compressed@, outcome(r)),
            r matches Ok(_) ==> self@ matches Some((_, id)) ==> dict_id_field(compressed@) == 0
                || dict_id_field(compressed@) == id,
            r matches Err(Error::DictIdMismatch { frame, codec }) ==> frame == dict_id_field(
                compressed@,
            ),
    {
        if !starts_with_magic(compressed) {
            return Err(Error::BadMagic);
        }
        if let Some(d) = &self.dict {
            let frame: u32 = frame_header_dict_id(compressed)?;
            check_dict_id(frame, d.id)?;
        }
        decompress_frame(compressed, self.dict.as_ref())
    }

    /// The bytes of the dictionary, 0 without one.
    pub fn size(&self) -> (n: usize)
        ensures
            n == (match self@ {
                Some((bytes, _)) => bytes.len(),
                None => 0,
            }),
    {
        match &self.dict {
            Some(d) => d.bytes.len(),
            None => 0,
        }
    }

    /// Tells whether the codec has a dictionary.
    pub fn has_dict(&self) -> (r: bool)
        ensures
            r == self@ is Some,
    {
        self.dict.is_some()
    }

    /// The id of the codec's dictionary.
    pub fn id(&self) -> (r: Option<u32>)
        ensures
            r == (match self@ {
                Some((_, id)) => Some(id),
                None => None,
            }),
    {
        match &self.dict {
            Some(d) => Some(d.id),
            None => None,
        }
    }
}

/// Decompressing a compressed frame gives the input back, under the same
/// codec.
pub proof fn law_frame_round_trip(codec: Option<(Seq<u8>, u32)>, input: Seq<u8>, frame: Seq<u8>)
    requires
        is_frame_of(frame, codec, input),
    ensures
        codec_decompressed(codec, frame) == Ok::<Seq<u8>, ErrorView>(input),
{
    assert(frame_part(frame) =~= frame);
}

/// A frame that was made without a dictionary names none, and decompresses to
/// the input under any codec with a dictionary as well.
pub proof fn law_frame_plain_under_dict(frame: Seq<u8>, input: Seq<u8>, dict: Seq<u8>, id: u32)
    requires
        is_frame_of(frame, None, input),
    ensures
        codec_decompressed(Some((dict, id)), frame) == Ok::<Seq<u8>, ErrorView>(input),
{
    assert(frame_part(frame) =~= frame);
}

/// Equal codecs make frames of one input that can stand for each other: both
/// decompress to it, and carry the same id. Behind their headers, frames of a
/// short input are the same; without a dictionary they are the same throughout.
pub proof fn law_frame_equal_codecs(
    codec: Option<(Seq<u8>, u32)>,
    input: Seq<u8>,
    frame: Seq<u8>,
    other: Seq<u8>,
)
    requires
        is_frame_of(frame, codec, input),
        is_frame_of(other, codec, input),
    ensures
        codec_decompressed(codec, frame) == codec_decompressed(codec, other),
        dict_id_field(frame) == dict_id_field(other),
        input.len() < 13 ==> frame.skip(header_len(frame) as int) == other.skip(
            header_len(other) as int,
        ),
        input.len() < 13 && codec is None ==> frame == other,
{
    law_frame_round_trip(codec, input, frame);
    law_frame_round_trip(codec, input, other);
    if input.len() < 13 && codec is None {
        assert(frame =~= frame.take(7) + frame.skip(7));
        assert(other =~= other.take(7) + other.skip(7));
        assert(frame.take(7) =~= other.take(7));
    }
}

/// What follows a whole frame has no part in what it decompresses to.
pub proof fn law_frame_trailing_bytes(
    codec: Option<(Seq<u8>, u32)>,
    frame: Seq<u8>,
    tail: Seq<u8>,
)
    requires
        frame_end(frame) == Some(frame.len()),
    ensures
        codec_decompressed(codec, frame + tail) == codec_decompressed(codec, frame),
{
    let b = frame + tail;
    lemma_frame_end_bounds(frame);
    assert(b.take(frame.len() as int) =~= frame);
    assert(frame.take(frame.len() as int) =~= frame);
    law_frame_end_local(frame, b, frame.len());
    if has_header(frame) {
        assert(header_part(b) =~= header_part(frame));
    }
}

/// Bytes that do not start with a whole frame are refused, whatever they are.
pub proof fn law_frame_needs_whole(codec: Option<(Seq<u8>, u32)>, b: Seq<u8>, dict: Seq<u8>)
    requires
        frame_end(b) is None,
    ensures
        frame_decompressed(b, dict) is Err,
        codec_decompressed(codec, b) is Err,
{
}

/// A frame that is cut short anywhere is refused, with or without a
/// dictionary.
pub proof fn law_frame_truncated(codec: Option<(Seq<u8>, u32)>, frame: Seq<u8>, len: nat)
    requires
        frame_end(frame) == Some(frame.len()),
        len < frame.len(),
    ensures
        codec_decompressed(codec, frame.take(len as int)) is Err,
{
    law_frame_end_prefix_free(frame, frame.len(), len);
    law_frame_needs_whole(codec, frame.take(len as int), Seq::empty());
}

/// A frame that was made with a dictionary carries its id in the Dict_ID field,
/// whatever the id is, where a receiver finds it without decoding anything. One
/// that was made without has no such field.
pub proof fn law_frame_carries_id(
    codec: Option<(Seq<u8>, u32)>,
    input: Seq<u8>,
    frame: Seq<u8>,
)
    requires
        is_frame_of(frame, codec, input),
    ensures
        flags_dict_id(frame[4]) <==> codec is Some,
        codec matches Some((_, id)) ==> dict_id_field(frame) == id,
{
}

/// A frame that was made with one dictionary id is refused by a codec with
/// another, whatever their dictionaries hold. An id of 0 is read as none, and
/// is no mismatch.
pub proof fn law_frame_wrong_dict(
    frame: Seq<u8>,
    input: Seq<u8>,
    dict: Seq<u8>,
    id: u32,
    other: Seq<u8>,
    other_id: u32,
)
    requires
        is_frame_of(frame, Some((dict, id)), input),
        id != 0,
        id != other_id,
    ensures
        codec_decompressed(Some((other, other_id)), frame) == Err::<Seq<u8>, ErrorView>(
            ErrorView::DictIdMismatch { frame: id, codec: other_id },
        ),
{
}

/// A mismatch of ids is found in the header: whatever follows it, the frame is
/// refused in the same way.
pub proof fn law_frame_mismatch_before_payload(
    codec: Option<(Seq<u8>, u32)>,
    b: Seq<u8>,
    c: Seq<u8>,
)
    requires
        has_header(b),
        has_header(c),
        header_part(b) == header_part(c),
        codec_decompressed(codec, b) matches Err(ErrorView::DictIdMismatch { .. }),
    ensures
        codec_decompressed(codec, c) == codec_decompressed(codec, b),
{
}

/// Whatever the bytes, a frame that cannot be decompressed is a decompress
/// error; and it is one of a bad magic number exactly where the bytes do not
/// start as a frame.
pub proof fn law_frame_error_class(codec: Option<(Seq<u8>, u32)>, b: Seq<u8>)
    ensures
        codec_decompressed(codec, b) matches Err(e) ==> e.is_decompress_error(),
        codec_decompressed(codec, b) == Err::<Seq<u8>, ErrorView>(ErrorView::BadMagic)
            <==> !has_magic(b),
{
}

} // verus!
