use lzzzz::lz4f::{BlockMode, BlockSize, Preferences, PreferencesBuilder};
use rlz4::frame::{check_dict_id, finish_dict_id, finish_frame, finish_frame_compress, frame_input_fits, write_zero_id};
use rlz4::layout::{find_frame_end, frame_header_len};
use rlz4::{
    decompress_frame, frame_header_dict_id, DictBound, Error, FrameCodec, LZ4_FRAME_MAGIC,
};

fn codec_for(dict: Option<(&[u8], u32)>) -> FrameCodec {
    match dict {
        None => FrameCodec::new(None, 0),
        Some((bytes, id)) => FrameCodec::new(Some(bytes.to_vec()), id),
    }
}

fn frame_compress(input: &[u8], dict: Option<(&[u8], u32)>) -> Vec<u8> {
    codec_for(dict).compress(input).unwrap()
}

fn frame_decompress(compressed: &[u8], dict: Option<&[u8]>) -> Vec<u8> {
    let d = dict.map(|b| DictBound { bytes: b.to_vec(), id: 0 });
    decompress_frame(compressed, d.as_ref()).unwrap()
}

fn decode_fault(kind: &str) -> Error {
    Error::FrameDecode { kind: kind.to_string() }
}

fn header_fault(kind: &str) -> Error {
    Error::FrameHeader { kind: kind.to_string() }
}

/// A frame from another writer, with everything that a frame can carry.
fn full_frame(input: &[u8]) -> Vec<u8> {
    let prefs: Preferences = PreferencesBuilder::new()
        .block_size(BlockSize::Max64KB)
        .block_mode(BlockMode::Independent)
        .content_checksum(lzzzz::lz4f::ContentChecksum::Enabled)
        .block_checksum(lzzzz::lz4f::BlockChecksum::Enabled)
        .dict_id(7)
        .build();
    let mut out = Vec::new();
    lzzzz::lz4f::compress_to_vec(input, &mut out, &prefs).unwrap();
    out
}

fn noise(len: usize) -> Vec<u8> {
    let mut state: u64 = 0x2545_F491_4F6C_DD1D;
    let mut out = Vec::with_capacity(len);
    while out.len() < len {
        state ^= state << 13;
        state ^= state >> 7;
        state ^= state << 17;
        out.push((state >> 24) as u8);
    }
    out
}

#[test]
fn frame_round_trip() {
    let data = b"the quick brown fox jumps over the lazy dog ".repeat(100);
    let ct = frame_compress(&data, None);
    assert!(ct.len() < data.len(), "should compress repetitive input");
    assert_eq!(&ct[..4], &LZ4_FRAME_MAGIC);
    let pt = frame_decompress(&ct, None);
    assert_eq!(pt, data);
}

#[test]
fn frame_empty_round_trip() {
    let ct = frame_compress(b"", None);
    let pt = frame_decompress(&ct, None);
    assert!(pt.is_empty());
}

#[test]
fn frame_garbage_fails() {
    let garbage = vec![0xFFu8; 32];
    let result = decompress_frame(&garbage, None);
    assert!(result.is_err());
}

#[test]
fn frame_dict_round_trip() {
    let dict = b"JSON schema version 1 field ".repeat(4);
    let id: u32 = 0xDEAD_BEEF;
    let msg = b"JSON schema version 1 field name=hello value=world".to_vec();

    let ct = frame_compress(&msg, Some((&dict, id)));
    assert_eq!(&ct[..4], &LZ4_FRAME_MAGIC);

    let pt = frame_decompress(&ct, Some(&dict));
    assert_eq!(pt, msg);
}

#[test]
fn frame_dict_id_in_header() {
    let dict = b"common prefix AAA ".repeat(4);
    let id: u32 = 0xAAAA_AAAA;
    let msg = b"common prefix AAA : the payload";

    let ct = frame_compress(msg, Some((&dict, id)));

    let ret = frame_header_dict_id(&ct);
    assert!(ret.is_ok(), "the header could not be read");
    assert_eq!(ret.unwrap(), id, "dict_id not written into frame header");
}

#[test]
fn frame_truncated_fails() {
    let data = b"some data that should compress nicely ".repeat(10);
    let ct = frame_compress(&data, None);
    let truncated = &ct[..ct.len() / 2];

    let result = decompress_frame(truncated, None);

    assert!(result.is_err(), "truncated frame should return an error");
}

#[test]
fn frame_codec_round_trip() {
    let dict = b"schema=v1 type=message field1=".to_vec();
    let data = b"schema=v1 type=message field1=value".repeat(3000);
    for codec in [
        codec_for(None),
        codec_for(Some((&dict, 0xDEAD_BEEF))),
        codec_for(Some((&dict, 0))),
        codec_for(Some((&[], 5))),
    ] {
        let ct = codec.compress(&data).unwrap();
        assert!(ct.len() < data.len() / 10);
        assert_eq!(codec.decompress(&ct), Ok(data.clone()));
        let empty = codec.compress(b"").unwrap();
        assert_eq!(codec.decompress(&empty), Ok(vec![]));
    }
}

#[test]
fn frame_dict_is_used() {
    let dict = noise(1000);
    let with = frame_compress(&dict, Some((&dict, 1)));
    let without = frame_compress(&dict, None);
    assert!(with.len() < 100);
    assert!(without.len() > 1000);
    assert_eq!(frame_decompress(&with, Some(&dict)), dict);
    assert!(decompress_frame(&with, None).is_err());
}

#[test]
fn frame_dicts_of_all_sizes() {
    for len in [1usize, 3, 4, 8, 65_536, 65_537, 200_000] {
        let dict = noise(len);
        let codec = codec_for(Some((&dict, 77)));
        let start = len.saturating_sub(100);
        let mut data = dict[start..].to_vec();
        data.extend_from_slice(&noise(100_000));
        let ct = codec.compress(&data).unwrap();
        assert_eq!(codec.decompress(&ct), Ok(data));
        assert_eq!(frame_header_dict_id(&ct), Ok(77));
    }
}

#[test]
fn frame_header_bytes() {
    let plain = frame_compress(b"abc", None);
    assert_eq!(&plain[..6], &[0x04, 0x22, 0x4d, 0x18, 0x40, 0x40]);
    assert_eq!(frame_header_len(&plain), Some(7));
    assert_eq!(frame_header_dict_id(&plain), Ok(0));

    let bound = frame_compress(b"abc", Some((b"dict bytes", 0x0102_0304)));
    assert_eq!(&bound[..10], &[0x04, 0x22, 0x4d, 0x18, 0x41, 0x40, 0x04, 0x03, 0x02, 0x01]);
    assert_eq!(frame_header_len(&bound), Some(11));
    assert_eq!(frame_header_dict_id(&bound), Ok(0x0102_0304));

    // With a dictionary the id is there, whatever it is.
    for dict in [b"dict bytes".to_vec(), b"".to_vec()] {
        let zero = frame_compress(b"abc", Some((&dict, 0)));
        assert_eq!(&zero[..10], &[0x04, 0x22, 0x4d, 0x18, 0x41, 0x40, 0, 0, 0, 0]);
        assert_eq!(frame_header_len(&zero), Some(11));
        assert_eq!(frame_header_dict_id(&zero), Ok(0));
        assert_eq!(&zero[11..], &plain[7..]);
        assert_eq!(frame_decompress(&zero, Some(&dict)), b"abc".to_vec());
    }
}

#[test]
fn frame_with_dict_under_id_zero() {
    let dict = noise(1000);
    let codec = codec_for(Some((b"dict", 0)));
    let ct = codec.compress(b"").unwrap();
    assert_eq!(ct[4], 0x41);
    assert_eq!(&ct[6..10], &[0, 0, 0, 0]);
    assert_eq!(codec.id(), Some(0));
    assert_eq!(codec.decompress(&ct), Ok(vec![]));

    let codec = codec_for(Some((&dict, 0)));
    let mut data = dict.clone();
    data.extend_from_slice(&noise(150_000));
    let ct = codec.compress(&data).unwrap();
    assert_eq!(find_frame_end(&ct), Some(ct.len()));
    assert_eq!(codec.decompress(&ct), Ok(data.clone()));
    assert_eq!(codec_for(Some((&dict, 5))).decompress(&ct), Ok(data));
    let named = frame_compress(b"abc", Some((&dict, 5)));
    assert_eq!(codec.decompress(&named), Err(Error::DictIdMismatch { frame: 5, codec: 0 }));
}

#[test]
fn write_zero_id_exchanges_the_header() {
    let header = [0x04, 0x22, 0x4d, 0x18, 0x41, 0x40, 0, 0, 0, 0, 0x92];
    let out = write_zero_id(vec![1, 2, 3, 4, 5, 6, 7, 8, 9]);
    assert_eq!(&out[..11], &header);
    assert_eq!(&out[11..], &[8, 9]);
    assert_eq!(write_zero_id(vec![0; 7]), header.to_vec());
}

#[test]
fn frame_short_input_is_stored() {
    let plain = codec_for(None);
    assert_eq!(
        plain.compress(b""),
        Ok(vec![0x04, 0x22, 0x4d, 0x18, 0x40, 0x40, 0xc0, 0, 0, 0, 0])
    );
    assert_eq!(
        plain.compress(b"a"),
        Ok(vec![0x04, 0x22, 0x4d, 0x18, 0x40, 0x40, 0xc0, 1, 0, 0, 0x80, 0x61, 0, 0, 0, 0])
    );
    let text = b"aaaaaaaaaaaa";
    let dict = b"aaaaaaaaaaaaaaaaaaaaaaaa".to_vec();
    for codec in [plain, codec_for(Some((&dict, 0))), codec_for(Some((&dict, 8)))] {
        for len in 1..13usize {
            let ct = codec.compress(&text[..len]).unwrap();
            let start = frame_header_len(&ct).unwrap();
            let mut body = vec![len as u8, 0, 0, 0x80];
            body.extend_from_slice(&text[..len]);
            body.extend_from_slice(&[0, 0, 0, 0]);
            assert_eq!(&ct[start..], &body[..]);
        }
    }
}

#[test]
fn frame_noise_is_stored() {
    let dict = b"some dictionary".to_vec();
    for len in [0usize, 1, 13, 65_535, 65_536, 65_537, 200_000] {
        let data = noise(len);
        let body = len + 4 * ((len + 65_535) / 65_536) + 4;
        assert_eq!(frame_compress(&data, None).len(), 7 + body);
        assert!(frame_compress(&data, Some((&dict, 0))).len() <= 11 + body);
        assert!(frame_compress(&data, Some((&dict, 3))).len() <= 11 + body);
    }
}

#[test]
fn frame_plain_under_any_dict() {
    for data in [b"".to_vec(), b"hello ".repeat(30_000), noise(150_000)] {
        let ct = frame_compress(&data, None);
        for dict in [b"".to_vec(), b"hello hello ".to_vec(), noise(100_000)] {
            for id in [0, 3] {
                assert_eq!(codec_for(Some((&dict, id))).decompress(&ct), Ok(data.clone()));
            }
        }
    }
}

#[test]
fn frame_equal_codecs_agree() {
    let used = codec_for(Some((b"payload number ", 6)));
    let fresh = codec_for(Some((b"payload number ", 6)));
    for i in 0..20 {
        let msg = format!("payload number {i} ").repeat(10).into_bytes();
        assert!(used.decompress(&msg).is_err());
        let ct = used.compress(&msg).unwrap();
        assert_eq!(fresh.decompress(&ct), Ok(msg.clone()));
        assert_eq!(fresh.compress(&msg).unwrap(), ct);
    }
    assert_eq!(used.id(), Some(6));
    assert_eq!(used.size(), 15);
}

#[test]
fn frame_dict_too_long() {
    let codec = FrameCodec::new(Some(vec![0u8; 0x8000_0000]), 1);
    let error = codec.compress(b"abc").unwrap_err();
    assert_eq!(error.message(), "LZ4F_compressBegin: ERROR_parameter_invalid");
    assert!(!error.is_decompress_error());
}

#[test]
fn frame_of_three_bytes() {
    // A stored block of three bytes, and the end mark.
    let ct = frame_compress(b"abc", None);
    assert_eq!(&ct[7..], &[3, 0, 0, 0x80, b'a', b'b', b'c', 0, 0, 0, 0]);
    assert_eq!(find_frame_end(&ct), Some(18));
}

#[test]
fn frame_many_blocks() {
    let mut data = noise(150_000);
    data.extend_from_slice(&b"repeat ".repeat(40_000));
    let codec = codec_for(None);
    let ct = codec.compress(&data).unwrap();
    assert_eq!(find_frame_end(&ct), Some(ct.len()));
    assert_eq!(codec.decompress(&ct), Ok(data));
}

#[test]
fn frame_every_truncation_fails() {
    let dict = b"some data ".to_vec();
    let data = b"some data that should compress nicely ".repeat(10);
    for codec in [codec_for(None), codec_for(Some((&dict, 9)))] {
        let ct = codec.compress(&data).unwrap();
        for len in 0..ct.len() {
            assert_eq!(find_frame_end(&ct[..len]), None);
            let error = codec.decompress(&ct[..len]).unwrap_err();
            assert!(error.is_decompress_error());
            if len < 4 {
                assert_eq!(error, Error::BadMagic);
            } else if !codec.has_dict() {
                assert_eq!(error, Error::Incomplete);
            } else if len < 11 {
                assert_eq!(error, header_fault("FrameHeaderIncomplete"));
            } else {
                assert_eq!(error, Error::Incomplete);
            }
        }
    }
}

#[test]
fn frame_trailing_bytes_are_ignored() {
    let dict = b"some data ".to_vec();
    for codec in [codec_for(None), codec_for(Some((&dict, 9)))] {
        let mut ct = codec.compress(b"some data and more").unwrap();
        let len = ct.len();
        ct.extend_from_slice(b"\xff\xff trailing");
        assert_eq!(find_frame_end(&ct), Some(len));
        assert_eq!(codec.decompress(&ct), Ok(b"some data and more".to_vec()));
        let second = codec.compress(b"second").unwrap();
        ct.truncate(len);
        ct.extend_from_slice(&second);
        assert_eq!(codec.decompress(&ct), Ok(b"some data and more".to_vec()));
    }
}

#[test]
fn frame_bad_magic() {
    let codec = codec_for(None);
    assert_eq!(codec.decompress(b""), Err(Error::BadMagic));
    assert_eq!(codec.decompress(&[0x04, 0x22, 0x4d]), Err(Error::BadMagic));
    assert_eq!(codec.decompress(&[0xff; 32]), Err(Error::BadMagic));
    let mut ct = codec.compress(b"abc").unwrap();
    ct[3] = 0x19;
    assert_eq!(codec.decompress(&ct), Err(Error::BadMagic));
    assert_eq!(decompress_frame(&ct, None), Err(decode_fault("FrameHeaderInvalid")));
    assert_eq!(
        decompress_frame(&ct, None).unwrap_err().message(),
        "lz4 frame decode failed: ERROR_frameType_unknown"
    );
    assert_eq!(decompress_frame(b"", None), Err(Error::Incomplete));
    assert_eq!(decompress_frame(&[0xff; 6], None), Err(Error::Incomplete));
}

#[test]
fn frame_wrong_dict_is_refused() {
    let ours = codec_for(Some((b"our dictionary", 0xAAAA_AAAA)));
    let theirs = codec_for(Some((b"their dictionary", 0xBBBB_BBBB)));
    let ct = ours.compress(b"our dictionary holds this").unwrap();
    let error = theirs.decompress(&ct).unwrap_err();
    assert_eq!(error, Error::DictIdMismatch { frame: 0xAAAA_AAAA, codec: 0xBBBB_BBBB });
    assert_eq!(
        error.message(),
        "lz4 frame dict_id mismatch: frame=0xaaaaaaaa codec=0xbbbbbbbb"
    );
    assert!(error.is_decompress_error());
}

#[test]
fn frame_mismatch_comes_before_the_payload() {
    let ours = codec_for(Some((b"our dictionary", 1)));
    let theirs = codec_for(Some((b"their dictionary", 2)));
    let mut ct = ours.compress(b"our dictionary holds this").unwrap();
    ct.truncate(11);
    assert_eq!(theirs.decompress(&ct), Err(Error::DictIdMismatch { frame: 1, codec: 2 }));
    ct.extend_from_slice(&[0xff; 40]);
    assert_eq!(theirs.decompress(&ct), Err(Error::DictIdMismatch { frame: 1, codec: 2 }));
    assert_eq!(ours.decompress(&ct), Err(decode_fault("MaxBlockSizeInvalid")));
}

#[test]
fn frame_without_id_passes_any_dict() {
    let plain = frame_compress(b"no dictionary here", None);
    let codec = codec_for(Some((b"some dictionary", 3)));
    assert_eq!(codec.decompress(&plain), Ok(b"no dictionary here".to_vec()));
}

#[test]
fn frame_header_faults() {
    let codec = codec_for(Some((b"some dictionary", 3)));
    let plain = codec_for(None);
    let mut ct = codec.compress(b"some dictionary").unwrap();
    ct[10] ^= 1;
    assert_eq!(codec.decompress(&ct), Err(header_fault("HeaderChecksumInvalid")));
    assert_eq!(plain.decompress(&ct), Err(decode_fault("HeaderChecksumInvalid")));
    assert_eq!(
        codec.decompress(&ct).unwrap_err().message(),
        "lz4 frame header error: ERROR_headerChecksum_invalid"
    );
    assert_eq!(frame_header_dict_id(&ct), Err(header_fault("HeaderChecksumInvalid")));
    ct[5] = 0x30;
    assert_eq!(codec.decompress(&ct), Err(header_fault("MaxBlockSizeInvalid")));
    ct[4] = 0x81;
    assert_eq!(codec.decompress(&ct), Err(header_fault("HeaderVersionWrong")));
    assert_eq!(plain.decompress(&ct), Err(decode_fault("HeaderVersionWrong")));
    ct[4] = 0x83;
    assert_eq!(codec.decompress(&ct), Err(header_fault("ReservedFlagSet")));
    assert_eq!(plain.decompress(&ct), Err(decode_fault("ReservedFlagSet")));
    assert_eq!(frame_header_dict_id(&[0xff; 32]), Err(header_fault("FrameHeaderInvalid")));
}

#[test]
fn frame_flags_count_once_a_short_header_is_there() {
    let plain = codec_for(None);
    let short = |flg: u8, len: usize| {
        let mut bytes = vec![0x04, 0x22, 0x4d, 0x18, flg, 0x40];
        bytes.resize(len, 0);
        plain.decompress(&bytes)
    };
    assert_eq!(short(0x43, 6), Err(Error::Incomplete));
    assert_eq!(short(0x43, 7), Err(decode_fault("ReservedFlagSet")));
    assert_eq!(short(0x49, 18), Err(Error::Incomplete));
    assert_eq!(short(0x4b, 18), Err(decode_fault("ReservedFlagSet")));
    assert_eq!(short(0x09, 18), Err(decode_fault("HeaderVersionWrong")));
    assert_eq!(short(0x49, 19), Err(decode_fault("HeaderChecksumInvalid")));
}

#[test]
fn frame_malformed_block() {
    let codec = codec_for(None);
    let mut ct = codec.compress(&b"some data that compresses ".repeat(10)).unwrap();
    // The first sequence: a match that reaches before the start.
    ct[11] = 0x0f;
    ct[12] = 0xff;
    ct[13] = 0xff;
    assert_eq!(codec.decompress(&ct), Err(decode_fault("DecompressionFailed")));
    assert_eq!(
        codec.decompress(&ct).unwrap_err().message(),
        "lz4 frame decode failed: ERROR_decompressionFailed"
    );
}

#[test]
fn frame_with_checksums() {
    let data = b"checked content ".repeat(10_000);
    let codec = codec_for(Some((b"", 7)));
    let ct = full_frame(&data);
    assert_eq!(ct[4] & 0x15, 0x15);
    assert_eq!(find_frame_end(&ct), Some(ct.len()));
    assert_eq!(frame_header_dict_id(&ct), Ok(7));
    assert_eq!(codec.decompress(&ct), Ok(data.clone()));
    for len in (4..ct.len()).step_by(37) {
        assert!(codec.decompress(&ct[..len]).is_err());
    }
    for len in ct.len() - 8..ct.len() {
        assert_eq!(codec.decompress(&ct[..len]), Err(Error::Incomplete));
    }

    let mut bad = ct.clone();
    let last = bad.len() - 1;
    bad[last] ^= 1;
    assert_eq!(codec.decompress(&bad), Err(decode_fault("ContentChecksumInvalid")));

    let mut bad = ct.clone();
    let start = frame_header_len(&bad).unwrap();
    bad[start + 8] ^= 1;
    assert_eq!(codec.decompress(&bad), Err(decode_fault("BlockChecksumInvalid")));

    let mut long = ct.clone();
    long.extend_from_slice(b"tail");
    assert_eq!(codec.decompress(&long), Ok(data));
}

#[test]
fn frame_with_content_size() {
    // Content size 3, one stored block; the header checksum is that of the
    // descriptor.
    let mut out = Vec::new();
    let prefs = PreferencesBuilder::new().build();
    lzzzz::lz4f::compress_to_vec(b"abc", &mut out, &prefs).unwrap();
    let plain = codec_for(None);
    assert_eq!(plain.decompress(&out), Ok(b"abc".to_vec()));
    let mut sized = vec![0x04, 0x22, 0x4d, 0x18, 0x48, 0x40, 3, 0, 0, 0, 0, 0, 0, 0];
    sized.push(0);
    sized.extend_from_slice(&[3, 0, 0, 0x80, b'a', b'b', b'c', 0, 0, 0, 0]);
    assert_eq!(frame_header_len(&sized), Some(15));
    assert_eq!(find_frame_end(&sized), Some(26));
    let accepted = (0..=255u8)
        .filter(|check| {
            sized[14] = *check;
            plain.decompress(&sized) == Ok(b"abc".to_vec())
        })
        .count();
    assert_eq!(accepted, 1);
}

#[test]
fn skippable_frames() {
    let skip = [0x5a, 0x2a, 0x4d, 0x18, 2, 0, 0, 0, 9, 9];
    assert_eq!(decompress_frame(&skip, None), Ok(vec![]));
    assert_eq!(find_frame_end(&skip), Some(10));
    let d = DictBound { bytes: b"dict".to_vec(), id: 1 };
    assert_eq!(decompress_frame(&skip, Some(&d)), Ok(vec![]));
    for len in 0..skip.len() {
        assert_eq!(decompress_frame(&skip[..len], None), Err(Error::Incomplete));
    }
    let mut more = skip.to_vec();
    more.extend_from_slice(&frame_compress(b"abc", None));
    assert_eq!(decompress_frame(&more, None), Ok(vec![]));
    assert_eq!(codec_for(None).decompress(&skip), Err(Error::BadMagic));
    let nothing = [0x50, 0x2a, 0x4d, 0x18, 0, 0, 0, 0];
    assert_eq!(decompress_frame(&nothing, None), Ok(vec![]));
}

#[test]
fn frame_codec_properties() {
    let plain = FrameCodec::new(None, 5);
    assert!(!plain.has_dict());
    assert_eq!(plain.id(), None);
    assert_eq!(plain.size(), 0);
    let bound = FrameCodec::new(Some(b"schema=v1 type=message field1=".to_vec()), 0xDEAD_BEEF);
    assert!(bound.has_dict());
    assert_eq!(bound.id(), Some(0xDEAD_BEEF));
    assert_eq!(bound.size(), 30);
}

#[test]
fn finish_frame_outcomes() {
    assert_eq!(finish_frame(true, Ok(Ok(vec![1, 2]))), Ok(vec![1, 2]));
    assert_eq!(finish_frame(false, Ok(Ok(vec![1, 2]))), Err(Error::Incomplete));
    assert_eq!(finish_frame(true, Ok(Err("X".to_string()))), Err(decode_fault("X")));
    assert_eq!(finish_frame(false, Ok(Err("X".to_string()))), Err(decode_fault("X")));
    for whole in [true, false] {
        assert_eq!(
            finish_frame(whole, Err("X".to_string())),
            Err(Error::DecompressionContext { kind: "X".to_string() })
        );
    }
}

#[test]
fn finish_dict_id_outcomes() {
    assert_eq!(finish_dict_id(Ok(Ok(9))), Ok(9));
    assert_eq!(finish_dict_id(Ok(Err("X".to_string()))), Err(header_fault("X")));
    assert_eq!(
        finish_dict_id(Err("X".to_string())),
        Err(Error::DecompressionContext { kind: "X".to_string() })
    );
}

#[test]
fn finish_frame_compress_outcomes() {
    assert_eq!(finish_frame_compress(Ok(Ok(vec![1]))), Ok(vec![1]));
    assert_eq!(
        finish_frame_compress(Ok(Err("X".to_string()))),
        Err(Error::FrameCompress { kind: "X".to_string() })
    );
    assert_eq!(
        finish_frame_compress(Err("X".to_string())),
        Err(Error::CompressionContext { kind: "X".to_string() })
    );
}

#[test]
fn check_dict_id_outcomes() {
    assert_eq!(check_dict_id(0, 5), Ok(()));
    assert_eq!(check_dict_id(5, 5), Ok(()));
    assert_eq!(check_dict_id(0, 0), Ok(()));
    assert_eq!(check_dict_id(6, 5), Err(Error::DictIdMismatch { frame: 6, codec: 5 }));
    assert_eq!(check_dict_id(6, 0), Err(Error::DictIdMismatch { frame: 6, codec: 0 }));
}

#[test]
fn frame_input_fits_in_memory() {
    assert!(frame_input_fits(0));
    assert!(frame_input_fits(1 << 20));
    assert!(!frame_input_fits(isize::MAX as usize));
    assert!(!frame_input_fits(isize::MAX as usize - 0x2_0000));
    assert!(!frame_input_fits(usize::MAX));
}
