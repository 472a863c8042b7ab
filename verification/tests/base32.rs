use ulid::base32::{alphabet, decode, encode, lookup, DecodeError, NO_VALUE, ULID_LEN};

#[test]
fn test_lookup_table() {
    let mut table = [NO_VALUE; 256];
    for (i, &c) in alphabet().iter().enumerate() {
        table[c as usize] = i as u8;
        if !(c as char).is_numeric() {
            // lowercase
            table[(c + 32) as usize] = i as u8;
        }
    }
    assert_eq!(table.len(), 256);
    assert_eq!(alphabet().len(), 32);
    for b in 0..=255u8 {
        assert_eq!(lookup(b), table[b as usize]);
    }
}

#[test]
fn test_valid() {
    let val = 0x41414141414141414141414141414141;
    assert_eq!(decode("21850M2GA1850M2GA1850M2GA1").unwrap(), val);
    assert_eq!(encode(val), "21850M2GA1850M2GA1850M2GA1");

    let val = 0x4d4e385051444a59454234335a413756;
    let enc = "2D9RW50MA499CMAGHM6DD42DTP";
    let lower = enc.to_lowercase();
    assert_eq!(encode(val), enc);
    assert_eq!(decode(enc).unwrap(), val);
    assert_eq!(decode(&lower).unwrap(), val);
}

#[test]
fn test_length() {
    assert_eq!(encode(0xffffffffffffffffffffffffffffffff).len(), ULID_LEN);
    assert_eq!(encode(0x0f0f0f0f0f0f0f0f0f0f0f0f0f0f0f0f).len(), ULID_LEN);
    assert_eq!(encode(0x00000000000000000000000000000000).len(), ULID_LEN);

    assert_eq!(decode(""), Err(DecodeError::InvalidLength));
    assert_eq!(
        decode("2D9RW50MA499CMAGHM6DD42DT"),
        Err(DecodeError::InvalidLength)
    );
    assert_eq!(
        decode("2D9RW50MA499CMAGHM6DD42DTPP"),
        Err(DecodeError::InvalidLength)
    );
}

#[test]
fn test_chars() {
    let alpha = alphabet();
    for ref c in encode(0xffffffffffffffffffffffffffffffff).bytes() {
        assert!(alpha.contains(c));
    }
    for ref c in encode(0x0f0f0f0f0f0f0f0f0f0f0f0f0f0f0f0f).bytes() {
        assert!(alpha.contains(c));
    }
    for ref c in encode(0x00000000000000000000000000000000).bytes() {
        assert!(alpha.contains(c));
    }

    assert_eq!(
        decode("2D9RW50[A499CMAGHM6DD42DTP"),
        Err(DecodeError::InvalidChar)
    );
    assert_eq!(
        decode("2D9RW50LA499CMAGHM6DD42DTP"),
        Err(DecodeError::InvalidChar)
    );
    assert_eq!(
        decode("2D9RW50IA499CMAGHM6DD42DTP"),
        Err(DecodeError::InvalidChar)
    );
}

#[test]
fn test_ambiguous_chars_both_cases() {
    for s in [
        "2D9RW50iA499CMAGHM6DD42DTP",
        "2D9RW50lA499CMAGHM6DD42DTP",
        "2D9RW50OA499CMAGHM6DD42DTP",
        "2D9RW50oA499CMAGHM6DD42DTP",
        "2D9RW50UA499CMAGHM6DD42DTP",
        "2D9RW50uA499CMAGHM6DD42DTP",
    ] {
        assert_eq!(decode(s), Err(DecodeError::InvalidChar));
    }
}

#[test]
fn test_non_ascii_input() {
    // 13 two-byte characters: 26 bytes, none of them a symbol
    assert_eq!(decode(&"é".repeat(13)), Err(DecodeError::InvalidChar));
    // wrong byte length even though fewer than 26 characters
    assert_eq!(decode(&"é".repeat(20)), Err(DecodeError::InvalidLength));
}

#[test]
fn test_roundtrip_values() {
    for v in [
        0u128,
        1,
        31,
        32,
        0x0123_4567_89ab_cdef_0123_4567_89ab_cdef,
        u128::MAX,
    ] {
        assert_eq!(decode(&encode(v)).unwrap(), v);
    }
}

#[test]
fn test_roundtrip_strings() {
    // mixed case decodes and re-encodes to the uppercase form
    let mixed = "2d9rw50Ma499cMagHm6dD42dTp";
    let v = decode(mixed).unwrap();
    assert_eq!(encode(v), mixed.to_uppercase());

    let canonical = "01BX5ZZKBKACTAV9WEVGEMMVRY";
    let v = decode(canonical).unwrap();
    assert_eq!(encode(v), canonical);
}

#[test]
fn test_encode_exact_vector() {
    // 26 five-bit digits of the all-'A' value, checked against the
    // fixed expected string, most significant digit first
    assert_eq!(
        encode(0x41414141414141414141414141414141),
        "21850M2GA1850M2GA1850M2GA1"
    );
    assert_eq!(encode(0), "00000000000000000000000000");
    assert_eq!(encode(u128::MAX), "7ZZZZZZZZZZZZZZZZZZZZZZZZZ");
}

#[test]
fn test_error_messages() {
    assert_eq!(DecodeError::InvalidLength.message(), "invalid length");
    assert_eq!(DecodeError::InvalidChar.message(), "invalid character");
    assert_eq!(
        ulid::base32::EncodeError::BufferTooSmall.message(),
        "buffer too small"
    );
}

#[test]
fn test_encode_to_buffer() {
    let mut buf: Vec<u8> = vec![0; ULID_LEN + 2];
    buf[ULID_LEN] = 0xAA;
    buf[ULID_LEN + 1] = 0xBB;
    let n = ulid::base32::encode_to(0x41414141414141414141414141414141, &mut buf).unwrap();
    assert_eq!(n, ULID_LEN);
    assert_eq!(&buf[..ULID_LEN], "21850M2GA1850M2GA1850M2GA1".as_bytes());
    // bytes past the encoding are untouched
    assert_eq!(buf[ULID_LEN], 0xAA);
    assert_eq!(buf[ULID_LEN + 1], 0xBB);
}

#[test]
fn test_encode_to_small_buffer() {
    let mut buf: Vec<u8> = vec![7; ULID_LEN - 1];
    let r = ulid::base32::encode_to(42, &mut buf);
    assert_eq!(r, Err(ulid::base32::EncodeError::BufferTooSmall));
    // a too-small buffer is left untouched
    assert!(buf.iter().all(|&b| b == 7));
}
