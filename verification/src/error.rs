//! What can go wrong, and the words for it.

use vstd::prelude::*;
use vstd::string::StringExecFns;

verus! {

/// A failed operation.
///
/// `kind` is the name that the `lzzzz` crate gives to a failure inside liblz4,
/// such as `DecompressionFailed`.
#[derive(Debug, PartialEq, Eq)]
pub enum Error {
    /// The input does not fit into one block.
    BlockCompress,
    /// The block is malformed, or holds more than the caller allows.
    BlockDecode,
    /// No compression context could be had.
    CompressionContext { kind: String },
    /// The frame could not be begun. It is then that liblz4 takes the memory
    /// that it compresses with.
    FrameCompress { kind: String },
    /// No decompression context could be had.
    DecompressionContext { kind: String },
    /// The input does not start as an LZ4 frame.
    BadMagic,
    /// The frame's header is malformed or cut short.
    FrameHeader { kind: String },
    /// The frame was made with another dictionary.
    DictIdMismatch { frame: u32, codec: u32 },
    /// The frame is malformed.
    FrameDecode { kind: String },
    /// The frame is cut short.
    Incomplete,
}

/// An [`Error`] in mathematical terms.
pub enum ErrorView {
    BlockCompress,
    BlockDecode,
    CompressionContext { kind: Seq<char> },
    FrameCompress { kind: Seq<char> },
    DecompressionContext { kind: Seq<char> },
    BadMagic,
    FrameHeader { kind: Seq<char> },
    DictIdMismatch { frame: u32, codec: u32 },
    FrameDecode { kind: Seq<char> },
    Incomplete,
}

impl View for Error {
    type V = ErrorView;

    open spec fn view(&self) -> ErrorView {
        match *self {
            Error::BlockCompress => ErrorView::BlockCompress,
            Error::BlockDecode => ErrorView::BlockDecode,
            Error::CompressionContext { kind } => ErrorView::CompressionContext { kind: kind@ },
            Error::FrameCompress { kind } => ErrorView::FrameCompress { kind: kind@ },
            Error::DecompressionContext { kind } => ErrorView::DecompressionContext { kind: kind@ },
            Error::BadMagic => ErrorView::BadMagic,
            Error::FrameHeader { kind } => ErrorView::FrameHeader { kind: kind@ },
            Error::DictIdMismatch { frame, codec } => ErrorView::DictIdMismatch { frame, codec },
            Error::FrameDecode { kind } => ErrorView::FrameDecode { kind: kind@ },
            Error::Incomplete => ErrorView::Incomplete,
        }
    }
}

/// The outcome of an operation in mathematical terms.
pub open spec fn outcome(r: Result<Vec<u8>, Error>) -> Result<Seq<u8>, ErrorView> {
    match r {
        Ok(bytes) => Ok(bytes@),
        Err(e) => Err(e@),
    }
}

/// The names under which a want of memory is reported: by liblz4, by the
/// `lzzzz` crate, and by the standard library.
pub open spec fn out_of_memory(kind: Seq<char>) -> bool {
    kind == "AllocationFailed"@ || kind == "InitializationFailed"@ || kind == "out of memory"@
}

/// liblz4's own name for a failure. A kind that is none of liblz4's stands for
/// itself.
pub open spec fn lz4f_error_name(kind: Seq<char>) -> Seq<char> {
    if kind == "Generic"@ {
        "ERROR_GENERIC"@
    } else if kind == "MaxBlockSizeInvalid"@ {
        "ERROR_maxBlockSize_invalid"@
    } else if kind == "BlockModeInvalid"@ {
        "ERROR_blockMode_invalid"@
    } else if kind == "ContentChecksumFlagInvalid"@ {
        "ERROR_parameter_invalid"@
    } else if kind == "CompressionLevelInvalid"@ {
        "ERROR_compressionLevel_invalid"@
    } else if kind == "HeaderVersionWrong"@ {
        "ERROR_headerVersion_wrong"@
    } else if kind == "BlockChecksumInvalid"@ {
        "ERROR_blockChecksum_invalid"@
    } else if kind == "ReservedFlagSet"@ {
        "ERROR_reservedFlag_set"@
    } else if kind == "AllocationFailed"@ {
        "ERROR_allocation_failed"@
    } else if kind == "SrcSizeTooLarge"@ {
        "ERROR_srcSize_tooLarge"@
    } else if kind == "DstMaxSizeTooSmall"@ {
        "ERROR_dstMaxSize_tooSmall"@
    } else if kind == "FrameHeaderIncomplete"@ {
        "ERROR_frameHeader_incomplete"@
    } else if kind == "FrameTypeUnknown"@ {
        "ERROR_frameType_unknown"@
    } else if kind == "FrameSizeWrong"@ {
        "ERROR_frameSize_wrong"@
    } else if kind == "SrcPtrWrong"@ {
        "ERROR_srcPtr_wrong"@
    } else if kind == "DecompressionFailed"@ {
        "ERROR_decompressionFailed"@
    } else if kind == "HeaderChecksumInvalid"@ {
        "ERROR_headerChecksum_invalid"@
    } else if kind == "ContentChecksumInvalid"@ {
        "ERROR_contentChecksum_invalid"@
    } else if kind == "FrameDecodingAlreadyStarted"@ {
        "ERROR_frameDecoding_alreadyStarted"@
    } else if kind == "FrameHeaderInvalid"@ {
        "ERROR_frameType_unknown"@
    } else if kind == "InitializationFailed"@ {
        "ERROR_allocation_failed"@
    } else {
        kind
    }
}

/// The lower-case hexadecimal digit for `d`.
pub open spec fn hex_digit(d: int) -> char {
    if d < 10 {
        ('0' as int + d) as char
    } else {
        ('a' as int + d - 10) as char
    }
}

/// The digits of `n` in base 16, `width` of them, most significant first.
pub open spec fn hex_digits(n: nat, width: nat) -> Seq<char>
    decreases width,
{
    if width == 0 {
        seq![]
    } else {
        hex_digits(n / 16, (width - 1) as nat).push(hex_digit((n % 16) as int))
    }
}

impl ErrorView {
    /// The failure lies in the bytes that were to be decompressed.
    pub open spec fn is_decompress_error(self) -> bool {
        match self {
            ErrorView::BlockDecode => true,
            ErrorView::BadMagic => true,
            ErrorView::FrameHeader { .. } => true,
            ErrorView::DictIdMismatch { .. } => true,
            ErrorView::FrameDecode { .. } => true,
            ErrorView::Incomplete => true,
            _ => false,
        }
    }

    /// The decoder ran out of memory.
    pub open spec fn is_decoder_memory(self) -> bool {
        match self {
            ErrorView::DecompressionContext { kind } => out_of_memory(kind),
            ErrorView::FrameDecode { kind } => out_of_memory(kind),
            _ => false,
        }
    }

    /// The encoder ran out of memory.
    pub open spec fn is_encoder_memory(self) -> bool {
        match self {
            ErrorView::CompressionContext { kind } => out_of_memory(kind),
            ErrorView::FrameCompress { kind } => out_of_memory(kind),
            _ => false,
        }
    }

    /// The text for people.
    pub open spec fn message(self) -> Seq<char> {
        match self {
            ErrorView::BlockCompress => "lz4 block compress failed"@,
            ErrorView::BlockDecode => "lz4 block decode failed"@,
            ErrorView::CompressionContext { kind } => "LZ4F_createCompressionContext: "@
                + lz4f_error_name(kind),
            ErrorView::FrameCompress { kind } => "LZ4F_compressBegin: "@ + lz4f_error_name(kind),
            ErrorView::DecompressionContext { kind } => "LZ4F_createDecompressionContext: "@
                + lz4f_error_name(kind),
            ErrorView::BadMagic =>
                "lz4 frame decode failed: bad magic (input is not an LZ4 frame)"@,
            ErrorView::FrameHeader { kind } => "lz4 frame header error: "@ + lz4f_error_name(kind),
            ErrorView::DictIdMismatch { frame, codec } => "lz4 frame dict_id mismatch: frame=0x"@
                + hex_digits(frame as nat, 8) + " codec=0x"@ + hex_digits(codec as nat, 8),
            ErrorView::FrameDecode { kind } => "lz4 frame decode failed: "@ + lz4f_error_name(kind),
            ErrorView::Incomplete => "lz4 frame decode failed: truncated or incomplete frame"@,
        }
    }
}

/// Compares a text with a literal.
fn same(a: &String, b: &str) -> (r: bool)
    ensures
        r == (a@ == b@),
{
    *a == b.to_owned()
}

/// liblz4's own name for a failure that the `lzzzz` crate names `kind`.
pub fn lz4f_error(kind: &String) -> (name: String)
    ensures
        name@ == lz4f_error_name(kind@),
{
    if same(kind, "Generic") {
        "ERROR_GENERIC".to_owned()
    } else if same(kind, "MaxBlockSizeInvalid") {
        "ERROR_maxBlockSize_invalid".to_owned()
    } else if same(kind, "BlockModeInvalid") {
        "ERROR_blockMode_invalid".to_owned()
    } else if same(kind, "ContentChecksumFlagInvalid") {
        "ERROR_parameter_invalid".to_owned()
    } else if same(kind, "CompressionLevelInvalid") {
        "ERROR_compressionLevel_invalid".to_owned()
    } else if same(kind, "HeaderVersionWrong") {
        "ERROR_headerVersion_wrong".to_owned()
    } else if same(kind, "BlockChecksumInvalid") {
        "ERROR_blockChecksum_invalid".to_owned()
    } else if same(kind, "ReservedFlagSet") {
        "ERROR_reservedFlag_set".to_owned()
    } else if same(kind, "AllocationFailed") {
        "ERROR_allocation_failed".to_owned()
    } else if same(kind, "SrcSizeTooLarge") {
        "ERROR_srcSize_tooLarge".to_owned()
    } else if same(kind, "DstMaxSizeTooSmall") {
        "ERROR_dstMaxSize_tooSmall".to_owned()
    } else if same(kind, "FrameHeaderIncomplete") {
        "ERROR_frameHeader_incomplete".to_owned()
    } else if same(kind, "FrameTypeUnknown") {
        "ERROR_frameType_unknown".to_owned()
    } else if same(kind, "FrameSizeWrong") {
        "ERROR_frameSize_wrong".to_owned()
    } else if same(kind, "SrcPtrWrong") {
        "ERROR_srcPtr_wrong".to_owned()
    } else if same(kind, "DecompressionFailed") {
        "ERROR_decompressionFailed".to_owned()
    } else if same(kind, "HeaderChecksumInvalid") {
        "ERROR_headerChecksum_invalid".to_owned()
    } else if same(kind, "ContentChecksumInvalid") {
        "ERROR_contentChecksum_invalid".to_owned()
    } else if same(kind, "FrameDecodingAlreadyStarted") {
        "ERROR_frameDecoding_alreadyStarted".to_owned()
    } else if same(kind, "FrameHeaderInvalid") {
        "ERROR_frameType_unknown".to_owned()
    } else if same(kind, "InitializationFailed") {
        "ERROR_allocation_failed".to_owned()
    } else {
        kind.clone()
    }
}

/// The text of one hexadecimal digit.
fn hex_digit_text(d: u32) -> (text: &'static str)
    requires
        d < 16,
    ensures
        text@ == seq![hex_digit(d as int)],
{
    proof {
        reveal_strlit("0");
        reveal_strlit("1");
        reveal_strlit("2");
        reveal_strlit("3");
        reveal_strlit("4");
        reveal_strlit("5");
        reveal_strlit("6");
        reveal_strlit("7");
        reveal_strlit("8");
        reveal_strlit("9");
        reveal_strlit("a");
        reveal_strlit("b");
        reveal_strlit("c");
        reveal_strlit("d");
        reveal_strlit("e");
        reveal_strlit("f");
    }
    if d == 0 {
        "0"
    } else if d == 1 {
        "1"
    } else if d == 2 {
        "2"
    } else if d == 3 {
        "3"
    } else if d == 4 {
        "4"
    } else if d == 5 {
        "5"
    } else if d == 6 {
        "6"
    } else if d == 7 {
        "7"
    } else if d == 8 {
        "8"
    } else if d == 9 {
        "9"
    } else if d == 10 {
        "a"
    } else if d == 11 {
        "b"
    } else if d == 12 {
        "c"
    } else if d == 13 {
        "d"
    } else if d == 14 {
        "e"
    } else {
        "f"
    }
}

/// Appends the last `width` hexadecimal digits of `n`.
fn append_hex(text: &mut String, n: u32, width: u32)
    ensures
        final(text)@ == old(text)@ + hex_digits(n as nat, width as nat),
    decreases width,
{
    if width > 0 {
        append_hex(text, n / 16, width - 1);
        text.append(hex_digit_text(n % 16));
    }
}

impl Error {
    /// Tells whether the failure lies in the bytes that were to be
    /// decompressed. Any other failure is one of the running program.
    pub fn is_decompress_error(&self) -> (r: bool)
        ensures
            r == self@.is_decompress_error(),
    {
        match self {
            Error::BlockDecode => true,
            Error::BadMagic => true,
            Error::FrameHeader { .. } => true,
            Error::DictIdMismatch { .. } => true,
            Error::FrameDecode { .. } => true,
            Error::Incomplete => true,
            _ => false,
        }
    }

    /// The text for people.
    pub fn message(&self) -> (text: String)
        ensures
            text@ == self@.message(),
    {
        match self {
            Error::BlockCompress => "lz4 block compress failed".to_owned(),
            Error::BlockDecode => "lz4 block decode failed".to_owned(),
            Error::CompressionContext { kind } => "LZ4F_createCompressionContext: ".to_owned().concat(
                lz4f_error(kind).as_str(),
            ),
            Error::FrameCompress { kind } => "LZ4F_compressBegin: ".to_owned().concat(
                lz4f_error(kind).as_str(),
            ),
            Error::DecompressionContext { kind } =>
                "LZ4F_createDecompressionContext: ".to_owned().concat(lz4f_error(kind).as_str()),
            Error::BadMagic =>
                "lz4 frame decode failed: bad magic (input is not an LZ4 frame)".to_owned(),
            Error::FrameHeader { kind } => "lz4 frame header error: ".to_owned().concat(
                lz4f_error(kind).as_str(),
            ),
            Error::DictIdMismatch { frame, codec } => {
                let mut text = "lz4 frame dict_id mismatch: frame=0x".to_owned();
                append_hex(&mut text, *frame, 8);
                text.append(" codec=0x");
                append_hex(&mut text, *codec, 8);
                text
            },
            Error::FrameDecode { kind } => "lz4 frame decode failed: ".to_owned().concat(
                lz4f_error(kind).as_str(),
            ),
            Error::Incomplete =>
                "lz4 frame decode failed: truncated or incomplete frame".to_owned(),
        }
    }
}

} // verus!
