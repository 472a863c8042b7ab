use std::str::FromStr;
use ulid::{DecodeError, EncodeError, Ulid};

#[test]
fn test_static() {
    let s = Ulid(0x41414141414141414141414141414141).to_string();
    let u = Ulid::from_string(&s).unwrap();
    assert_eq!(&s, "21850M2GA1850M2GA1850M2GA1");
    assert_eq!(u.0, 0x41414141414141414141414141414141);
}

#[test]
fn test_increment() {
    let ulid = Ulid::from_string("01BX5ZZKBKAZZZZZZZZZZZZZZZ").unwrap();
    let ulid = ulid.increment().unwrap();
    assert_eq!("01BX5ZZKBKB000000000000000", ulid.to_string());

    let ulid = Ulid::from_string("01BX5ZZKBKZZZZZZZZZZZZZZZX").unwrap();
    let ulid = ulid.increment().unwrap();
    assert_eq!("01BX5ZZKBKZZZZZZZZZZZZZZZY", ulid.to_string());
    let ulid = ulid.increment().unwrap();
    assert_eq!("01BX5ZZKBKZZZZZZZZZZZZZZZZ", ulid.to_string());
    assert!(ulid.increment().is_none());
}

#[test]
fn test_increment_overflow() {
    let ulid = Ulid(u128::MAX);
    assert!(ulid.increment().is_none());
}

#[test]
fn can_into_thing() {
    let ulid = Ulid::from_str("01FKMG6GAG0PJANMWFN84TNXCD").unwrap();
    let s: String = ulid.into();
    let u: u128 = ulid.into();
    let uu: (u64, u64) = ulid.into();

    assert_eq!(Ulid::from_str(&s).unwrap(), ulid);
    assert_eq!(Ulid::from(u), ulid);
    assert_eq!(Ulid::from(uu), ulid);
}

#[test]
fn lib_default_is_nil() {
    assert_eq!(Ulid::default(), Ulid::nil());
}

#[test]
fn lib_can_display_things() {
    println!("{}", Ulid::nil().to_string());
    println!("{}", EncodeError::BufferTooSmall.message());
    println!("{}", DecodeError::InvalidLength.message());
    println!("{}", DecodeError::InvalidChar.message());
}

#[test]
fn test_from_parts() {
    let ulid = Ulid::from_string("01FKMG6GAG0PJANMWFN84TNXCD").unwrap();
    let ulid2 = Ulid::from_parts(ulid.timestamp_ms(), ulid.random());
    assert_eq!(ulid, ulid2);

    // overflow bits of both arguments are discarded
    let a = Ulid::from_parts(u64::MAX, u128::MAX);
    let b = Ulid::from_parts(0xFFFF_FFFF_FFFF, (1u128 << 80) - 1);
    assert_eq!(a, b);
    assert_eq!(a.0, u128::MAX);
}

#[test]
fn test_field_accessors() {
    let ulid = Ulid::from_parts(0x0123_4567_89AB, 0x1122_3344_5566_7788_99AA);
    assert_eq!(ulid.timestamp_ms(), 0x0123_4567_89AB);
    assert_eq!(ulid.random(), 0x1122_3344_5566_7788_99AA);
    assert!(!ulid.is_nil());
    assert!(Ulid::nil().is_nil());
}

#[test]
fn test_order_by_timestamp() {
    // any identifier from an earlier timestamp sorts below any from a
    // later one, whatever the random payloads
    let a = Ulid::from_parts(1000, (1u128 << 80) - 1);
    let b = Ulid::from_parts(1001, 0);
    assert!(a < b);
    assert!(a.to_string() < b.to_string());
}

#[test]
fn test_increment_keeps_timestamp() {
    let ulid = Ulid::from_parts(77, 5);
    let next = ulid.increment().unwrap();
    assert_eq!(next.timestamp_ms(), 77);
    assert_eq!(next.random(), 6);
    assert_eq!(ulid.random() + 1, next.random());
}

#[test]
fn test_halves_roundtrip() {
    let ulid = Ulid(0x0123_4567_89AB_CDEF_1122_3344_5566_7788);
    let (msb, lsb): (u64, u64) = ulid.into();
    assert_eq!(msb, 0x0123_4567_89AB_CDEF);
    assert_eq!(lsb, 0x1122_3344_5566_7788);
    assert_eq!(Ulid::from((msb, lsb)), ulid);
}

#[test]
fn test_from_string_rejects() {
    assert_eq!(Ulid::from_string(""), Err(DecodeError::InvalidLength));
    assert_eq!(
        Ulid::from_string("01BX5ZZKBKAZZZZZZZZZZZZZZ"),
        Err(DecodeError::InvalidLength)
    );
    assert_eq!(
        Ulid::from_string("01BX5ZZKBKAZZZZZZZZZZZZZusome"),
        Err(DecodeError::InvalidLength)
    );
    assert_eq!(
        Ulid::from_string("01BX5ZZKBKAZZZZZZZZZZZZZZU"),
        Err(DecodeError::InvalidChar)
    );
}
