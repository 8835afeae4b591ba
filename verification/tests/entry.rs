use changeset_store::entry::{DecodeError, Entry};
use changeset_store::ids::{ContentId, HgId, Sha1, Sha256};
use changeset_store::vlq::{read_vlq, write_vlq, VlqError};
use byteorder::WriteBytesExt;
use std::io::{Cursor, Write};
use vlqencoding::{VLQDecode, VLQEncode};

fn sample_key() -> HgId {
    let mut bytes = [0u8; 20];
    for (i, b) in bytes.iter_mut().enumerate() {
        *b = i as u8 + 1;
    }
    HgId(bytes)
}

fn sample_entry(size: u64) -> Entry {
    Entry::new(size, ContentId([0xAA; 32]), Sha1([0xBB; 20]), Sha256([0xCC; 32]))
}

fn roundtrip(size: u64) {
    let key = sample_key();
    let entry = sample_entry(size);
    let bytes = entry.serialize(key);
    assert_eq!(Entry::deserialize(&bytes), Ok((key, entry)));
}

#[test]
fn test_roundtrip_size_zero() {
    roundtrip(0);
}

#[test]
fn test_roundtrip_size_127() {
    roundtrip(127);
}

#[test]
fn test_roundtrip_size_128() {
    roundtrip(128);
}

#[test]
fn test_roundtrip_size_max() {
    roundtrip(u64::MAX);
}

#[test]
fn test_roundtrip_many_sizes() {
    let mut size: u64 = 1;
    for _ in 0..64 {
        roundtrip(size);
        roundtrip(size - 1);
        roundtrip(size + 1);
        size = size.wrapping_mul(2);
    }
}

#[test]
fn test_serialize_layout() {
    let bytes = sample_entry(300).serialize(sample_key());
    let mut expected: Vec<u8> = (1u8..=20).collect();
    expected.push(0);
    expected.extend_from_slice(&[0xAA; 32]);
    expected.extend_from_slice(&[0xBB; 20]);
    expected.extend_from_slice(&[0xCC; 32]);
    expected.extend_from_slice(&[0xAC, 0x02]);
    assert_eq!(bytes, expected);
    assert_eq!(bytes.len(), 107);
}

#[test]
fn test_serialize_lengths() {
    assert_eq!(sample_entry(0).serialize(sample_key()).len(), 106);
    assert_eq!(sample_entry(127).serialize(sample_key()).len(), 106);
    assert_eq!(sample_entry(128).serialize(sample_key()).len(), 107);
    assert_eq!(sample_entry(u64::MAX).serialize(sample_key()).len(), 115);
}

#[test]
fn test_getters() {
    let e = sample_entry(42);
    assert_eq!(e.total_size(), 42);
    assert_eq!(e.content_id(), ContentId([0xAA; 32]));
    assert_eq!(e.content_sha1(), Sha1([0xBB; 20]));
    assert_eq!(e.content_sha256(), Sha256([0xCC; 32]));
    assert!(e.same(&sample_entry(42)));
    assert!(!e.same(&sample_entry(43)));
    assert_eq!(Entry::default().total_size(), 0);
}

#[test]
fn test_deserialize_truncated() {
    let bytes = sample_entry(5).serialize(sample_key());
    for len in [0usize, 1, 19, 20] {
        assert_eq!(Entry::deserialize(&bytes[..len]), Err(DecodeError::TruncatedRecord));
    }
    for len in [21usize, 52, 53, 72, 104, 105] {
        assert_eq!(Entry::deserialize(&bytes[..len]), Err(DecodeError::TruncatedRecord));
    }
    let long = sample_entry(u64::MAX).serialize(sample_key());
    assert_eq!(Entry::deserialize(&long[..114]), Err(DecodeError::TruncatedRecord));
}

#[test]
fn test_deserialize_unsupported_version() {
    let mut bytes = sample_entry(5).serialize(sample_key());
    bytes[20] = 1;
    assert_eq!(Entry::deserialize(&bytes), Err(DecodeError::UnsupportedRecordVersion(1)));
    bytes[20] = 255;
    assert_eq!(Entry::deserialize(&bytes), Err(DecodeError::UnsupportedRecordVersion(255)));
    assert_eq!(Entry::deserialize(&bytes[..21]), Err(DecodeError::UnsupportedRecordVersion(255)));
}

#[test]
fn test_deserialize_size_overflow() {
    let mut bytes = sample_entry(0).serialize(sample_key());
    bytes.truncate(105);
    let mut too_big = bytes.clone();
    too_big.extend_from_slice(&[0xFF, 0xFF, 0xFF, 0xFF, 0xFF, 0xFF, 0xFF, 0xFF, 0xFF, 0x02]);
    assert_eq!(Entry::deserialize(&too_big), Err(DecodeError::SizeOverflow));
    let mut too_long = bytes.clone();
    too_long.extend_from_slice(&[0x80; 10]);
    too_long.push(0);
    assert_eq!(Entry::deserialize(&too_long), Err(DecodeError::SizeOverflow));
}

#[test]
fn test_deserialize_ignores_trailing_bytes() {
    let key = sample_key();
    let entry = sample_entry(1000);
    let mut bytes = entry.serialize(key);
    bytes.extend_from_slice(&[1, 2, 3]);
    assert_eq!(Entry::deserialize(&bytes), Ok((key, entry)));
}

#[test]
fn test_deserialize_accepts_padded_size() {
    let key = sample_key();
    let mut bytes = sample_entry(0).serialize(key);
    bytes.truncate(105);
    bytes.extend_from_slice(&[0x81, 0x80, 0x00]);
    assert_eq!(Entry::deserialize(&bytes), Ok((key, sample_entry(1))));
}

#[test]
fn test_write_vlq_exact_bytes() {
    let cases: Vec<(u64, Vec<u8>)> = vec![
        (0, vec![0]),
        (1, vec![1]),
        (120, vec![120]),
        (127, vec![127]),
        (128, vec![0x80, 0x01]),
        (300, vec![0xAC, 0x02]),
        (16383, vec![0xFF, 0x7F]),
        (16384, vec![0x80, 0x80, 0x01]),
        (22742734291, vec![211, 171, 202, 220, 84]),
        (u64::MAX, vec![0xFF, 0xFF, 0xFF, 0xFF, 0xFF, 0xFF, 0xFF, 0xFF, 0xFF, 0x01]),
    ];
    for (value, bytes) in cases {
        let mut buf = vec![9u8];
        write_vlq(&mut buf, value);
        assert_eq!(&buf[1..], &bytes[..]);
        assert_eq!(buf[0], 9);
        assert_eq!(read_vlq(&buf, 1), Ok(value));
    }
}

#[test]
fn test_read_vlq_errors() {
    assert_eq!(read_vlq(&[], 0), Err(VlqError::Truncated));
    assert_eq!(read_vlq(&[0x80], 0), Err(VlqError::Truncated));
    assert_eq!(read_vlq(&[5, 0x80], 1), Err(VlqError::Truncated));
    assert_eq!(read_vlq(&[5], 1), Err(VlqError::Truncated));
    assert_eq!(read_vlq(&[5], 2), Err(VlqError::Truncated));
    assert_eq!(read_vlq(&[5], usize::MAX), Err(VlqError::Truncated));
    assert_eq!(read_vlq(&[0xFF; 9], 0), Err(VlqError::Truncated));
    assert_eq!(read_vlq(&[0xFF; 10], 0), Err(VlqError::Overflow));
    assert_eq!(
        read_vlq(&[0x80, 0x80, 0x80, 0x80, 0x80, 0x80, 0x80, 0x80, 0x80, 0x02], 0),
        Err(VlqError::Overflow)
    );
    assert_eq!(
        read_vlq(&[0x80, 0x80, 0x80, 0x80, 0x80, 0x80, 0x80, 0x80, 0x80, 0x01], 0),
        Ok(1u64 << 63)
    );
    assert_eq!(read_vlq(&[0x80; 10], 0), Err(VlqError::Overflow));
}

#[test]
fn test_vlq_agrees_with_vlqencoding() {
    let mut values: Vec<u64> = vec![0, 1, 127, 128, 255, 256, 16383, 16384, u64::MAX, u64::MAX - 1];
    let mut v: u64 = 3;
    for _ in 0..200 {
        v = v.wrapping_mul(6364136223846793005).wrapping_add(1442695040888963407);
        values.push(v);
        values.push(v >> 17);
        values.push(v >> 40);
    }
    for value in values {
        let mut ours = Vec::new();
        write_vlq(&mut ours, value);
        let mut theirs: Vec<u8> = Vec::new();
        theirs.write_vlq(value).unwrap();
        assert_eq!(ours, theirs);
        let read: u64 = Cursor::new(&ours).read_vlq().unwrap();
        assert_eq!(read_vlq(&ours, 0), Ok(read));
    }
}

#[test]
fn test_read_vlq_agrees_with_vlqencoding_on_arbitrary_bytes() {
    let mut state: u64 = 7;
    for _ in 0..2000 {
        let mut bytes = Vec::new();
        state = state.wrapping_mul(6364136223846793005).wrapping_add(1442695040888963407);
        let len = (state >> 60) as usize % 13;
        for _ in 0..len {
            state = state.wrapping_mul(6364136223846793005).wrapping_add(1442695040888963407);
            let mut b = (state >> 33) as u8;
            if (state >> 50) & 3 != 0 {
                b |= 0x80;
            }
            bytes.push(b);
        }
        let theirs: std::io::Result<u64> = Cursor::new(&bytes).read_vlq();
        let ours = read_vlq(&bytes, 0);
        match theirs {
            Ok(v) => assert_eq!(ours, Ok(v)),
            Err(e) if e.kind() == std::io::ErrorKind::UnexpectedEof => {
                assert_eq!(ours, Err(VlqError::Truncated))
            }
            Err(_) => assert_eq!(ours, Err(VlqError::Overflow)),
        }
    }
}

#[test]
fn test_serialize_agrees_with_stream_writers() {
    for size in [0u64, 1, 127, 128, 300, 1 << 32, u64::MAX] {
        let key = sample_key();
        let entry = sample_entry(size);
        let mut buf: Vec<u8> = Vec::new();
        buf.write_all(&key.0).unwrap();
        buf.write_u8(0).unwrap();
        buf.write_all(&entry.content_id().0).unwrap();
        buf.write_all(&entry.content_sha1().0).unwrap();
        buf.write_all(&entry.content_sha256().0).unwrap();
        buf.write_vlq(entry.total_size()).unwrap();
        assert_eq!(entry.serialize(key), buf);
    }
}
