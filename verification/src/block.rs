//! Raw LZ4 blocks, without framing.

use vstd::prelude::*;

use crate::bound::{
    block_bound, block_stream_size, compress_bound, LZ4_MAX_INPUT_SIZE, LZ4_STREAM_SIZE,
    MAX_INT_SIZE,
};
use crate::engine::{
    decode_block, decode_block_with_dict, encode_block, encode_block_with_dict, fitting,
    is_dict_block_of, is_plain_block_of, literal_if_short, lz4_blocks_with_dict, lz4_decoded, lz4_decoded_with_dict, zeros,
};
use crate::error::{outcome, Error, ErrorView};

verus! {

/// A block codec, with or without a dictionary.
///
/// A block says neither how long its content is nor which dictionary it was
/// made with: both are for the caller to know.
pub struct BlockCodec {
    dict: Option<Vec<u8>>,
}

impl View for BlockCodec {
    type V = Option<Seq<u8>>;

    closed spec fn view(&self) -> Option<Seq<u8>> {
        match self.dict {
            Some(bytes) => Some(bytes@),
            None => None,
        }
    }
}

/// What decoding `block` gives under a dictionary, in a buffer of `capacity`
/// bytes.
pub open spec fn block_decoded(
    dict: Option<Seq<u8>>,
    block: Seq<u8>,
    capacity: nat,
) -> Option<Seq<u8>> {
    match dict {
        Some(bytes) => lz4_decoded_with_dict(block, capacity, bytes),
        None => lz4_decoded(block, capacity),
    }
}

/// `block` holds `input` under a dictionary: it decodes to `input` in any
/// buffer that has room for it, and in no other. It takes at least a byte and
/// at most the worst-case size, and spells out an input that is short. With a
/// dictionary, it is a block that liblz4 makes with that dictionary loaded.
pub open spec fn is_block_of(block: Seq<u8>, dict: Option<Seq<u8>>, input: Seq<u8>) -> bool {
    &&& 1 <= block.len() <= block_bound(input.len())
    &&& literal_if_short(block, input)
    &&& match dict {
        Some(bytes) => is_dict_block_of(block, input, bytes) && lz4_blocks_with_dict(
            input,
            bytes,
        ).contains(block),
        None => is_plain_block_of(block, input),
    }
}

/// The room that is made for a block that is said to hold up to `size` bytes:
/// no more than liblz4 can be told of.
pub open spec fn room_for(size: nat) -> nat {
    if size <= MAX_INT_SIZE {
        size
    } else {
        MAX_INT_SIZE as nat
    }
}

/// What decompressing `block` gives, when it is said to hold up to `size`
/// bytes. A block that is longer than liblz4 can be told is none.
pub open spec fn block_decompressed(dict: Option<Seq<u8>>, block: Seq<u8>, size: nat) -> Result<
    Seq<u8>,
    ErrorView,
> {
    if block.len() > MAX_INT_SIZE {
        Err(ErrorView::BlockDecode)
    } else {
        match block_decoded(dict, block, room_for(size)) {
            Some(out) => Ok(out),
            None => Err(ErrorView::BlockDecode),
        }
    }
}

/// What the encoder wrote into the front of `out`, or the failure to write
/// anything.
pub fn finish_compress(out: Vec<u8>, written: Option<usize>) -> (r: Result<Vec<u8>, Error>)
    requires
        written matches Some(n) ==> n <= out@.len(),
    ensures
        outcome(r) == (match written {
            Some(n) if n > 0 => Ok(out@.take(n as int)),
            _ => Err(ErrorView::BlockCompress),
        }),
{
    let mut out = out;
    match written {
        Some(n) if n > 0 => {
            out.truncate(n);
            Ok(out)
        },
        _ => Err(Error::BlockCompress),
    }
}

/// What the decoder wrote into the front of `out`, or its failure. To have
/// written nothing is no failure.
pub fn finish_decompress(out: Vec<u8>, written: Option<usize>) -> (r: Result<Vec<u8>, Error>)
    requires
        written matches Some(n) ==> n <= out@.len(),
    ensures
        outcome(r) == (match written {
            Some(n) => Ok(out@.take(n as int)),
            None => Err(ErrorView::BlockDecode),
        }),
{
    let mut out = out;
    match written {
        Some(n) => {
            out.truncate(n);
            Ok(out)
        },
        None => Err(Error::BlockDecode),
    }
}

impl BlockCodec {
    /// liblz4 takes a dictionary's length as a C integer.
    #[verifier::type_invariant]
    spec fn dict_fits(self) -> bool {
        self.dict matches Some(bytes) ==> bytes@.len() <= MAX_INT_SIZE
    }

    /// A codec with `dict` as its dictionary for good, or with none.
    pub fn new(dict: Option<Vec<u8>>) -> (codec: BlockCodec)
        requires
            dict matches Some(bytes) ==> bytes@.len() <= MAX_INT_SIZE,
        ensures
            codec@ == (match dict {
                Some(bytes) => Some(bytes@),
                None => None,
            }),
    {
        BlockCodec { dict }
    }

    /// The bytes that a codec with a dictionary accounts for: one encoder
    /// stream and the dictionary. A codec without one accounts for none.
    pub fn size(&self) -> (n: usize)
        ensures
            n == (match self@ {
                Some(bytes) => LZ4_STREAM_SIZE + bytes.len(),
                None => 0,
            }),
    {
        proof {
            use_type_invariant(self);
        }
        match &self.dict {
            Some(bytes) => block_stream_size() + bytes.len(),
            None => 0,
        }
    }

    /// Tells whether the codec has a dictionary.
    pub fn has_dict(&self) -> (r: bool)
        ensures
            r == self@ is Some,
    {
        self.dict.is_some()
    }

    /// Compresses `input` into one block. Which of the blocks that hold
    /// `input` it is depends on the machine.
    pub fn compress(&self, input: &[u8]) -> (r: Result<Vec<u8>, Error>)
        ensures
            r is Ok <==> input@.len() <= LZ4_MAX_INPUT_SIZE,
            r matches Ok(block) ==> is_block_of(block@, self@, input@),
            r matches Err(e) ==> e@ == ErrorView::BlockCompress,
    {
        proof {
            use_type_invariant(self);
        }
        if input.len() > LZ4_MAX_INPUT_SIZE {
            return Err(Error::BlockCompress);
        }
        let mut out: Vec<u8> = vec![0u8; compress_bound(input.len())];
        let written = match &self.dict {
            Some(bytes) => encode_block_with_dict(input, &mut out, bytes.as_slice()),
            // Only the encoder with history makes a block of an empty input.
            None => if input.len() == 0 {
                let no_dict: Vec<u8> = Vec::new();
                encode_block_with_dict(input, &mut out, no_dict.as_slice())
            } else {
                encode_block(input, &mut out)
            },
        };
        finish_compress(out, written)
    }

    /// Decompresses a block that holds at most `decompressed_size` bytes.
    pub fn decompress(&self, compressed: &[u8], decompressed_size: usize) -> (r: Result<
        Vec<u8>,
        Error,
    >)
        ensures
            outcome(r) == block_decompressed(self@, compressed@, decompressed_size as nat),
            r matches Ok(out) ==> out@.len() <= decompressed_size,
            compressed@.len() == 0 ==> r is Err,
    {
        proof {
            use_type_invariant(self);
        }
        if compressed.len() > MAX_INT_SIZE {
            return Err(Error::BlockDecode);
        }
        let capacity: usize = if decompressed_size <= MAX_INT_SIZE {
            decompressed_size
        } else {
            MAX_INT_SIZE
        };
        let mut out: Vec<u8> = vec![0u8; capacity];
        assert(out@ =~= zeros(capacity as nat));
        let written = match &self.dict {
            Some(bytes) => decode_block_with_dict(compressed, &mut out, bytes.as_slice()),
            None => decode_block(compressed, &mut out),
        };
        finish_decompress(out, written)
    }
}

/// Decompressing a compressed block gives the input back, under the same
/// dictionary and for any size that has room for the input.
pub proof fn law_block_round_trip(
    dict: Option<Seq<u8>>,
    input: Seq<u8>,
    block: Seq<u8>,
    size: nat,
)
    requires
        is_block_of(block, dict, input),
        input.len() <= size,
        input.len() <= LZ4_MAX_INPUT_SIZE,
    ensures
        block_decompressed(dict, block, size) == Ok::<Seq<u8>, ErrorView>(input),
{
    assert(block_decoded(dict, block, room_for(size)) == fitting(input, room_for(size)));
}

/// A block that was made without a dictionary decompresses to the input under
/// any dictionary as well.
pub proof fn law_block_plain_under_dict(
    dict: Seq<u8>,
    input: Seq<u8>,
    block: Seq<u8>,
    size: nat,
)
    requires
        is_block_of(block, None, input),
        dict.len() <= MAX_INT_SIZE,
        input.len() <= size,
        input.len() <= LZ4_MAX_INPUT_SIZE,
    ensures
        block_decompressed(Some(dict), block, size) == Ok::<Seq<u8>, ErrorView>(input),
{
    assert(block_decoded(Some(dict), block, room_for(size)) == fitting(input, room_for(size)));
}

/// A block does not know its dictionary: under another one that is no shorter
/// it decompresses without an error, to as many bytes as the input has.
pub proof fn law_block_wrong_dict(
    dict: Seq<u8>,
    other: Seq<u8>,
    input: Seq<u8>,
    block: Seq<u8>,
    size: nat,
)
    requires
        is_block_of(block, Some(dict), input),
        dict.len() <= other.len() <= MAX_INT_SIZE,
        input.len() <= size,
        input.len() <= LZ4_MAX_INPUT_SIZE,
    ensures
        block_decompressed(Some(other), block, size) matches Ok(out) && out.len() == input.len(),
{
    assert(lz4_decoded_with_dict(block, room_for(size), other) is Some);
}

/// Equal codecs make blocks of one input that can stand for each other: each
/// decompresses on its own, as the other does, whatever size it is said to
/// hold. Of a short input they are the same block.
pub proof fn law_block_equal_codecs(
    dict: Option<Seq<u8>>,
    input: Seq<u8>,
    block: Seq<u8>,
    other: Seq<u8>,
    size: nat,
)
    requires
        is_block_of(block, dict, input),
        is_block_of(other, dict, input),
        input.len() <= LZ4_MAX_INPUT_SIZE,
    ensures
        block_decompressed(dict, block, size) == block_decompressed(dict, other, size),
        input.len() < 13 ==> block == other,
{
    assert(block_decoded(dict, block, room_for(size)) == fitting(input, room_for(size)));
    assert(block_decoded(dict, other, room_for(size)) == fitting(input, room_for(size)));
}

/// A block that holds more than the size that it is said to hold is refused.
pub proof fn law_block_overrun(dict: Option<Seq<u8>>, input: Seq<u8>, block: Seq<u8>, size: nat)
    requires
        is_block_of(block, dict, input),
        size < input.len() <= LZ4_MAX_INPUT_SIZE,
    ensures
        block_decompressed(dict, block, size) == Err::<Seq<u8>, ErrorView>(ErrorView::BlockDecode),
{
    assert(block_decoded(dict, block, size) == fitting(input, size));
}

/// Whatever the bytes, a block that cannot be decompressed is a decompress
/// error.
pub proof fn law_block_error_class(dict: Option<Seq<u8>>, block: Seq<u8>, size: nat)
    ensures
        block_decompressed(dict, block, size) matches Err(e) ==> e.is_decompress_error(),
{
}

} // verus!
