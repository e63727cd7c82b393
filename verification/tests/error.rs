use rlz4::error::lz4f_error;
use rlz4::Error;

fn kind(name: &str) -> String {
    name.to_string()
}

#[test]
fn messages() {
    assert_eq!(Error::BlockCompress.message(), "lz4 block compress failed");
    assert_eq!(Error::BlockDecode.message(), "lz4 block decode failed");
    assert_eq!(
        Error::CompressionContext { kind: kind("AllocationFailed") }.message(),
        "LZ4F_createCompressionContext: ERROR_allocation_failed"
    );
    assert_eq!(
        Error::FrameCompress { kind: kind("AllocationFailed") }.message(),
        "LZ4F_compressBegin: ERROR_allocation_failed"
    );
    assert_eq!(
        Error::DecompressionContext { kind: kind("AllocationFailed") }.message(),
        "LZ4F_createDecompressionContext: ERROR_allocation_failed"
    );
    assert_eq!(
        Error::BadMagic.message(),
        "lz4 frame decode failed: bad magic (input is not an LZ4 frame)"
    );
    assert_eq!(
        Error::FrameHeader { kind: kind("HeaderChecksumInvalid") }.message(),
        "lz4 frame header error: ERROR_headerChecksum_invalid"
    );
    assert_eq!(
        Error::FrameDecode { kind: kind("DecompressionFailed") }.message(),
        "lz4 frame decode failed: ERROR_decompressionFailed"
    );
    assert_eq!(
        Error::Incomplete.message(),
        "lz4 frame decode failed: truncated or incomplete frame"
    );
}

#[test]
fn mismatch_message_has_eight_digits() {
    assert_eq!(
        Error::DictIdMismatch { frame: 0xDEAD_BEEF, codec: 0x1A }.message(),
        "lz4 frame dict_id mismatch: frame=0xdeadbeef codec=0x0000001a"
    );
    assert_eq!(
        Error::DictIdMismatch { frame: 0x0123_4567, codec: 0x89AB_CDEF }.message(),
        format!(
            "lz4 frame dict_id mismatch: frame={:#010x} codec={:#010x}",
            0x0123_4567u32, 0x89AB_CDEFu32
        )
    );
}

#[test]
fn error_classes() {
    for error in [
        Error::BlockDecode,
        Error::BadMagic,
        Error::FrameHeader { kind: kind("HeaderChecksumInvalid") },
        Error::DictIdMismatch { frame: 1, codec: 2 },
        Error::FrameDecode { kind: kind("DecompressionFailed") },
        Error::Incomplete,
    ] {
        assert!(error.is_decompress_error());
    }
    for error in [
        Error::BlockCompress,
        Error::CompressionContext { kind: kind("AllocationFailed") },
        Error::FrameCompress { kind: kind("AllocationFailed") },
        Error::DecompressionContext { kind: kind("AllocationFailed") },
    ] {
        assert!(!error.is_decompress_error());
    }
}

#[test]
fn error_names() {
    let names = [
        ("Generic", "ERROR_GENERIC"),
        ("MaxBlockSizeInvalid", "ERROR_maxBlockSize_invalid"),
        ("BlockModeInvalid", "ERROR_blockMode_invalid"),
        ("ContentChecksumFlagInvalid", "ERROR_parameter_invalid"),
        ("CompressionLevelInvalid", "ERROR_compressionLevel_invalid"),
        ("HeaderVersionWrong", "ERROR_headerVersion_wrong"),
        ("BlockChecksumInvalid", "ERROR_blockChecksum_invalid"),
        ("ReservedFlagSet", "ERROR_reservedFlag_set"),
        ("AllocationFailed", "ERROR_allocation_failed"),
        ("SrcSizeTooLarge", "ERROR_srcSize_tooLarge"),
        ("DstMaxSizeTooSmall", "ERROR_dstMaxSize_tooSmall"),
        ("FrameHeaderIncomplete", "ERROR_frameHeader_incomplete"),
        ("FrameTypeUnknown", "ERROR_frameType_unknown"),
        ("FrameSizeWrong", "ERROR_frameSize_wrong"),
        ("SrcPtrWrong", "ERROR_srcPtr_wrong"),
        ("DecompressionFailed", "ERROR_decompressionFailed"),
        ("HeaderChecksumInvalid", "ERROR_headerChecksum_invalid"),
        ("ContentChecksumInvalid", "ERROR_contentChecksum_invalid"),
        ("FrameDecodingAlreadyStarted", "ERROR_frameDecoding_alreadyStarted"),
        ("FrameHeaderInvalid", "ERROR_frameType_unknown"),
        ("InitializationFailed", "ERROR_allocation_failed"),
        ("out of memory", "out of memory"),
    ];
    for (from, to) in names {
        assert_eq!(lz4f_error(&kind(from)), to);
    }
}
