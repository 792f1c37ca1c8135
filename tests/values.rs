use registry::error::{Error, ERROR_FILE_NOT_FOUND};
use registry::value::{
    decode, encode, encode_for_store, storable, value_from_reply, value_unit_from_status, Data, ValueError, REG_BINARY,
    REG_DWORD, REG_DWORD_BIG_ENDIAN, REG_EXPAND_SZ, REG_MULTI_SZ, REG_NONE, REG_QWORD, REG_SZ,
};

fn units(s: &str) -> Vec<u16> {
    s.encode_utf16().collect()
}

fn same(a: &Data, b: &Data) -> bool {
    match (a, b) {
        (Data::Empty, Data::Empty) => true,
        (Data::String(x), Data::String(y)) => x == y,
        (Data::ExpandString(x), Data::ExpandString(y)) => x == y,
        (Data::Binary(x), Data::Binary(y)) => x == y,
        (Data::U32(x), Data::U32(y)) => x == y,
        (Data::U32BE(x), Data::U32BE(y)) => x == y,
        (Data::U64(x), Data::U64(y)) => x == y,
        (Data::MultiString(x), Data::MultiString(y)) => x == y,
        _ => false,
    }
}

fn round_trip(d: Data) {
    let (tag, bytes) = encode(&d);
    let back = decode(tag, &bytes).ok().unwrap();
    assert!(same(&back, &d));
}

#[test]
fn encode_string_bytes() {
    let (tag, bytes) = encode(&Data::String(units("Hi")));
    assert_eq!(tag, REG_SZ);
    assert_eq!(bytes, vec![0x48, 0, 0x69, 0, 0, 0]);
    let (tag, bytes) = encode(&Data::ExpandString(units("%A%")));
    assert_eq!(tag, REG_EXPAND_SZ);
    assert_eq!(bytes, vec![0x25, 0, 0x41, 0, 0x25, 0, 0, 0]);
}

#[test]
fn encode_integer_bytes() {
    assert_eq!(encode(&Data::U32(0x12345678)), (REG_DWORD, vec![0x78, 0x56, 0x34, 0x12]));
    assert_eq!(
        encode(&Data::U32BE(0x12345678)),
        (REG_DWORD_BIG_ENDIAN, vec![0x12, 0x34, 0x56, 0x78])
    );
    assert_eq!(
        encode(&Data::U64(0x0102030405060708)),
        (REG_QWORD, vec![8, 7, 6, 5, 4, 3, 2, 1])
    );
}

#[test]
fn encode_multi_string_bytes() {
    let (tag, bytes) = encode(&Data::MultiString(vec![units("a"), units("bc")]));
    assert_eq!(tag, REG_MULTI_SZ);
    assert_eq!(bytes, vec![0x61, 0, 0, 0, 0x62, 0, 0x63, 0, 0, 0, 0, 0]);
    let (_, empty) = encode(&Data::MultiString(vec![]));
    assert_eq!(empty, vec![0, 0]);
}

#[test]
fn encode_binary_and_none() {
    assert_eq!(encode(&Data::Binary(vec![1, 2, 3])), (REG_BINARY, vec![1, 2, 3]));
    assert_eq!(encode(&Data::Empty), (REG_NONE, vec![]));
}

#[test]
fn every_kind_round_trips() {
    round_trip(Data::Empty);
    round_trip(Data::String(units("Hello, \u{1F600}")));
    round_trip(Data::String(vec![]));
    round_trip(Data::ExpandString(units("%USERPROFILE%\\x")));
    round_trip(Data::Binary(vec![0, 255, 7]));
    round_trip(Data::Binary(vec![]));
    round_trip(Data::U32(u32::MAX));
    round_trip(Data::U32BE(0xDEADBEEF));
    round_trip(Data::U64(u64::MAX - 1));
    round_trip(Data::MultiString(vec![units("one"), units("two"), units("three")]));
    round_trip(Data::MultiString(vec![]));
}

#[test]
fn decode_string_stops_at_first_nul() {
    let d = decode(REG_SZ, &[0x41, 0, 0, 0, 0x42, 0]).ok().unwrap();
    assert!(same(&d, &Data::String(units("A"))));
    let d = decode(REG_SZ, &[0x41, 0, 0x42, 0]).ok().unwrap();
    assert!(same(&d, &Data::String(units("AB"))));
}

#[test]
fn decode_multi_string_without_final_terminator() {
    let d = decode(REG_MULTI_SZ, &[0x61, 0, 0, 0, 0x62, 0]).ok().unwrap();
    assert!(same(&d, &Data::MultiString(vec![units("a"), units("b")])));
    let d = decode(REG_MULTI_SZ, &[0x61, 0, 0, 0, 0, 0, 0x62, 0]).ok().unwrap();
    assert!(same(&d, &Data::MultiString(vec![units("a")])));
    let d = decode(REG_MULTI_SZ, &[]).ok().unwrap();
    assert!(same(&d, &Data::MultiString(vec![])));
}

#[test]
fn decode_big_endian() {
    let d = decode(REG_DWORD_BIG_ENDIAN, &[0, 0, 1, 2]).ok().unwrap();
    assert!(same(&d, &Data::U32BE(0x0102)));
}

#[test]
fn decode_refuses_bad_lengths() {
    assert!(matches!(decode(REG_DWORD, &[1, 2, 3]), Err(ValueError::InvalidLength(4, 3))));
    assert!(matches!(decode(REG_QWORD, &[0; 4]), Err(ValueError::InvalidLength(11, 4))));
    assert!(matches!(decode(REG_SZ, &[0x41]), Err(ValueError::InvalidLength(1, 1))));
}

#[test]
fn decode_refuses_unknown_tag() {
    assert!(matches!(decode(6, &[]), Err(ValueError::UnsupportedType(6))));
    assert!(matches!(decode(99, &[1]), Err(ValueError::UnsupportedType(99))));
}

#[test]
fn deleted_value_reads_not_found() {
    assert!(value_unit_from_status("Greeting", 0).is_ok());
    match value_from_reply("Greeting", ERROR_FILE_NOT_FOUND, 0, &[]) {
        Err(ValueError::Store(Error::NotFound(n, 2))) => assert_eq!(n, "Greeting"),
        _ => panic!("expected NotFound"),
    }
    assert!(matches!(
        value_unit_from_status("Greeting", 2),
        Err(ValueError::Store(Error::NotFound(n, 2))) if n == "Greeting"
    ));
}

#[test]
fn set_then_read_gives_value() {
    let v = Data::U32(7);
    let (tag, bytes) = encode(&v);
    let back = value_from_reply("Count", 0, tag, &bytes).ok().unwrap();
    assert!(same(&back, &v));
}

#[test]
fn storable_values() {
    assert!(storable(&Data::String(units("ok"))));
    assert!(!storable(&Data::String(vec![0x41, 0, 0x42])));
    assert!(!storable(&Data::ExpandString(vec![0])));
    assert!(storable(&Data::MultiString(vec![units("a"), units("b")])));
    assert!(!storable(&Data::MultiString(vec![units("a"), vec![]])));
    assert!(!storable(&Data::MultiString(vec![vec![0x61, 0]])));
    assert!(storable(&Data::Binary(vec![0, 0])));
    assert!(storable(&Data::U64(0)));
}

#[test]
fn encode_for_store_refuses_what_cannot_round_trip() {
    assert!(matches!(
        encode_for_store(&Data::String(vec![0x41, 0, 0x42])),
        Err(ValueError::NotStorable)
    ));
    assert!(matches!(
        encode_for_store(&Data::MultiString(vec![vec![]])),
        Err(ValueError::NotStorable)
    ));
    let (tag, bytes) = encode_for_store(&Data::String(units("A"))).ok().unwrap();
    assert_eq!(tag, REG_SZ);
    assert_eq!(bytes, vec![0x41, 0, 0, 0]);
}
