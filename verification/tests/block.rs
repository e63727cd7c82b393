use rlz4::block::{finish_compress, finish_decompress};
use rlz4::{block_stream_size, compress_bound, BlockCodec, Error};

fn lz4_block_compress(input: &[u8]) -> Vec<u8> {
    BlockCodec::new(None).compress(input).unwrap()
}

fn lz4_block_decompress(compressed: &[u8], original_len: usize) -> Vec<u8> {
    BlockCodec::new(None).decompress(compressed, original_len).unwrap()
}

fn lz4_block_compress_dict(input: &[u8], dict: &[u8]) -> Vec<u8> {
    BlockCodec::new(Some(dict.to_vec())).compress(input).unwrap()
}

fn lz4_block_decompress_dict(compressed: &[u8], original_len: usize, dict: &[u8]) -> Vec<u8> {
    BlockCodec::new(Some(dict.to_vec())).decompress(compressed, original_len).unwrap()
}

/// Bytes that no encoder can shorten.
fn noise(len: usize) -> Vec<u8> {
    let mut state: u64 = 0x9E37_79B9_7F4A_7C15;
    let mut out = Vec::with_capacity(len);
    while out.len() < len {
        state ^= state << 13;
        state ^= state >> 7;
        state ^= state << 17;
        out.push((state >> 32) as u8);
    }
    out
}

#[test]
fn block_round_trip() {
    let data = b"hello hello hello hello".to_vec();
    let ct = lz4_block_compress(&data);
    let pt = lz4_block_decompress(&ct, data.len());
    assert_eq!(pt, data);
}

#[test]
fn block_reuse_across_many_calls() {
    for i in 0..100 {
        let msg = format!("payload number {i} ").repeat(10).into_bytes();
        let ct = lz4_block_compress(&msg);
        let pt = lz4_block_decompress(&ct, msg.len());
        assert_eq!(pt, msg);
    }
}

#[test]
fn block_dict_round_trip() {
    let dict = b"common log prefix: ".to_vec();
    let msg = b"common log prefix: event=login user=alice".to_vec();

    let ct_dict = lz4_block_compress_dict(&msg, &dict);
    let pt = lz4_block_decompress_dict(&ct_dict, msg.len(), &dict);
    assert_eq!(pt, msg);

    let ct_plain = lz4_block_compress(&msg);
    assert!(
        ct_dict.len() < ct_plain.len(),
        "dict compression should beat no-dict on shared-prefix input"
    );
}

#[test]
fn block_one_codec_many_calls() {
    let codec = BlockCodec::new(Some(b"payload number ".to_vec()));
    let first = codec.compress(b"payload number 0").unwrap();
    for i in 0..100 {
        let msg = format!("payload number {i} ").repeat(10).into_bytes();
        let ct = codec.compress(&msg).unwrap();
        assert_eq!(codec.decompress(&ct, msg.len()).unwrap(), msg);
    }
    assert_eq!(codec.compress(b"payload number 0").unwrap(), first);
}

#[test]
fn block_shrinks_repetition() {
    let data = b"hello world".repeat(100);
    let ct = lz4_block_compress(&data);
    assert!(ct.len() < 100);
    assert_eq!(lz4_block_decompress(&ct, 1100), data);
}

#[test]
fn block_of_nothing_is_one_zero() {
    assert_eq!(lz4_block_compress(b""), vec![0u8]);
    assert!(lz4_block_decompress(&[0], 0).is_empty());
    assert!(lz4_block_decompress(&[0], 10).is_empty());
    assert_eq!(lz4_block_compress_dict(b"", b"dictionary"), vec![0u8]);
    assert!(lz4_block_decompress_dict(&[0], 0, b"dictionary").is_empty());
}

#[test]
fn block_is_bare() {
    // One token of five literals, and the literals.
    assert_eq!(lz4_block_compress(b"abcde"), b"\x50abcde".to_vec());
}

#[test]
fn block_size_may_be_generous() {
    let ct = lz4_block_compress(b"hello hello hello hello");
    assert_eq!(lz4_block_decompress(&ct, 4096), b"hello hello hello hello".to_vec());
}

#[test]
fn block_overrun_is_refused() {
    let data = b"hello hello hello hello".to_vec();
    let dict = b"hello hello".to_vec();
    for codec in [BlockCodec::new(None), BlockCodec::new(Some(dict))] {
        let ct = codec.compress(&data).unwrap();
        for size in 0..data.len() {
            assert_eq!(codec.decompress(&ct, size), Err(Error::BlockDecode));
        }
    }
}

#[test]
fn block_garbage_is_refused() {
    let codec = BlockCodec::new(None);
    for size in [0, 10] {
        assert_eq!(codec.decompress(b"", size), Err(Error::BlockDecode));
        let with_dict = BlockCodec::new(Some(b"dictionary".to_vec()));
        assert_eq!(with_dict.decompress(b"", size), Err(Error::BlockDecode));
    }
    // A match that reaches before the start.
    assert_eq!(codec.decompress(&[0x10, b'a', 0xff, 0xff, 0x50], 100), Err(Error::BlockDecode));
    let error = codec.decompress(&[0xff; 8], 100).unwrap_err();
    assert!(error.is_decompress_error());
}

#[test]
fn block_size_beyond_a_c_int() {
    let codec = BlockCodec::new(None);
    let ct = codec.compress(b"hello").unwrap();
    for size in [0x7fff_ffff, 0x8000_0000, 0xffff_ffff, 0x1_0000_0000, 0x1_0000_0005, usize::MAX] {
        assert_eq!(codec.decompress(&ct, size), Ok(b"hello".to_vec()));
    }
}

#[test]
fn block_short_input_is_spelled_out() {
    let text = b"aaaaaaaaaaaaa";
    for codec in [BlockCodec::new(None), BlockCodec::new(Some(b"aaaaaaaaaaaaaaaaaaaa".to_vec()))] {
        for len in 0..13usize {
            let mut expected = vec![(len * 16) as u8];
            expected.extend_from_slice(&text[..len]);
            assert_eq!(codec.compress(&text[..len]), Ok(expected));
        }
        assert!(codec.compress(text).unwrap().len() < 14);
    }
}

#[test]
fn block_plain_under_any_dict() {
    for data in [b"".to_vec(), b"hello hello hello hello".to_vec(), noise(70_000)] {
        let ct = lz4_block_compress(&data);
        for dict in [b"".to_vec(), b"hello hello hello".to_vec(), noise(100_000)] {
            assert_eq!(lz4_block_decompress_dict(&ct, data.len(), &dict), data);
        }
    }
}

#[test]
fn block_wrong_dict_gives_garbage() {
    let dict = noise(1000);
    let mut other = dict.clone();
    other.reverse();
    let mut longer = vec![7u8; 500];
    longer.extend_from_slice(&other);
    let data = dict[100..900].to_vec();
    let ct = lz4_block_compress_dict(&data, &dict);
    assert!(ct.len() < 100);
    for wrong in [other, longer] {
        let pt = lz4_block_decompress_dict(&ct, data.len(), &wrong);
        assert_eq!(pt.len(), data.len());
        assert_ne!(pt, data);
    }
    // Behind a shorter one, the block reaches back too far.
    let short = BlockCodec::new(Some(dict[900..].to_vec()));
    assert_eq!(short.decompress(&ct, data.len()), Err(Error::BlockDecode));
}

#[test]
fn block_equal_codecs_agree() {
    let used = BlockCodec::new(Some(b"payload number ".to_vec()));
    let fresh = BlockCodec::new(Some(b"payload number ".to_vec()));
    for i in 0..20 {
        let msg = format!("payload number {i} ").repeat(10).into_bytes();
        assert!(used.decompress(&msg, 10).is_err());
        let ct = used.compress(&msg).unwrap();
        assert_eq!(fresh.decompress(&ct, msg.len()), Ok(msg.clone()));
        assert_eq!(fresh.compress(&msg).unwrap(), ct);
    }
}

#[test]
fn block_too_long_is_refused() {
    let codec = BlockCodec::new(None);
    let input = vec![0u8; 0x7E00_0001];
    assert_eq!(codec.compress(&input), Err(Error::BlockCompress));
    assert!(!Error::BlockCompress.is_decompress_error());
}

#[test]
fn block_dict_is_needed() {
    let dict = b"the quick brown fox jumps over the lazy dog".to_vec();
    let codec = BlockCodec::new(Some(dict.clone()));
    let ct = codec.compress(&dict).unwrap();
    assert!(ct.len() < dict.len() / 2);
    assert_eq!(codec.decompress(&ct, dict.len()), Ok(dict.clone()));
    assert_eq!(BlockCodec::new(None).decompress(&ct, dict.len()), Err(Error::BlockDecode));
}

#[test]
fn block_empty_dict() {
    let codec = BlockCodec::new(Some(Vec::new()));
    let ct = codec.compress(b"hello hello hello hello").unwrap();
    assert_eq!(codec.decompress(&ct, 23), Ok(b"hello hello hello hello".to_vec()));
    assert!(codec.has_dict());
    assert_eq!(codec.size(), 16416);
}

#[test]
fn block_dicts_of_all_sizes() {
    for len in [1usize, 3, 4, 7, 8, 65_535, 65_536, 65_537, 200_000] {
        let dict = noise(len);
        let codec = BlockCodec::new(Some(dict.clone()));
        let start = len.saturating_sub(100);
        let mut data = dict[start..].to_vec();
        data.extend_from_slice(b"and something behind it");
        let ct = codec.compress(&data).unwrap();
        assert_eq!(codec.decompress(&ct, data.len()), Ok(data.clone()));
        assert_eq!(codec.decompress(&ct, data.len() - 1), Err(Error::BlockDecode));
        assert_eq!(codec.size(), 16416 + len);
    }
}

#[test]
fn block_noise_stays_within_bound() {
    for len in [1usize, 254, 255, 256, 65_536, 200_000] {
        let data = noise(len);
        let ct = lz4_block_compress(&data);
        assert!(ct.len() > len);
        assert!(ct.len() <= compress_bound(len));
        assert_eq!(lz4_block_decompress(&ct, len), data);
    }
}

#[test]
fn block_sizes() {
    assert_eq!(block_stream_size(), 16416);
    assert_eq!(BlockCodec::new(None).size(), 0);
    assert!(!BlockCodec::new(None).has_dict());
    let codec = BlockCodec::new(Some(b"0123456789".to_vec()));
    assert_eq!(codec.size(), 16426);
    assert!(codec.has_dict());
}

#[test]
fn bound_values() {
    assert_eq!(compress_bound(0), 16);
    assert_eq!(compress_bound(254), 270);
    assert_eq!(compress_bound(255), 272);
    assert_eq!(compress_bound(1100), 1120);
    assert_eq!(compress_bound(0x7E00_0000), 2_122_219_150);
    assert_eq!(compress_bound(0x7E00_0001), 0);
    assert_eq!(compress_bound(usize::MAX), 0);
}

#[test]
fn bound_grows() {
    for n in 0..2000usize {
        assert!(n + 16 <= compress_bound(n));
        assert!(compress_bound(n) <= compress_bound(n + 1));
    }
}

#[test]
fn finish_compress_outcomes() {
    assert_eq!(finish_compress(vec![1, 2, 3], Some(2)), Ok(vec![1, 2]));
    assert_eq!(finish_compress(vec![1, 2, 3], Some(0)), Err(Error::BlockCompress));
    assert_eq!(finish_compress(vec![1, 2, 3], None), Err(Error::BlockCompress));
}

#[test]
fn finish_decompress_outcomes() {
    assert_eq!(finish_decompress(vec![1, 2, 3], Some(2)), Ok(vec![1, 2]));
    assert_eq!(finish_decompress(vec![1, 2, 3], Some(0)), Ok(vec![]));
    assert_eq!(finish_decompress(vec![1, 2, 3], None), Err(Error::BlockDecode));
}
