use sqlite_parser::varint::Varint;

#[test]
fn test_decode_varint() {
    let res = Varint::new(&[0x88, 0x43]);
    assert_eq!((res.value, res.bytes), (0x443, vec![0x88, 0x43]));

    let res = Varint::new(&[0x04, 0x88, 0x43]);
    assert_eq!((res.value, res.bytes), (0x4, vec![0x04]));

    let res = Varint::new(&[0x88; 10]);
    assert_eq!((res.value, res.bytes), (1161999626690365576, vec![0x88; 9]));
}

#[test]
fn two_byte_varint() {
    let res = Varint::new(&[0x88, 0x43]);
    assert_eq!(res.value, 1091);
    assert_eq!(res.bytes.len(), 2);
}

#[test]
fn one_byte_varint() {
    let res = Varint::new(&[0x04]);
    assert_eq!(res.value, 4);
    assert_eq!(res.bytes.len(), 1);
}

#[test]
fn nine_byte_varint() {
    let res = Varint::new(&[0x88; 9]);
    assert_eq!(res.value, 1_161_999_626_690_365_576);
    assert_eq!(res.bytes.len(), 9);
}

#[test]
fn ninth_byte_uses_all_eight_bits() {
    // Eight high-bit bytes contribute nothing; the ninth byte is taken
    // whole, so 0xFF must come through as 255, which seven bits cannot hold.
    let mut bytes = vec![0x80u8; 8];
    bytes.push(0xFF);
    let res = Varint::new(&bytes);
    assert_eq!(res.value, 255);
    assert_eq!(res.bytes.len(), 9);
}

#[test]
fn negative_varint_is_nine_bytes() {
    let bytes = [0xFFu8; 9];
    let res = Varint::new(&bytes);
    assert_eq!(res.value, -1);
    assert_eq!(res.bytes.len(), 9);
}

#[test]
fn round_trip_two_bytes() {
    let res = Varint::new(&[0x88, 0x43]);
    let encoded = Varint::encode(res.value, res.bytes.len());
    assert_eq!(encoded, vec![0x88, 0x43]);
}

#[test]
fn round_trip_one_byte() {
    let res = Varint::new(&[0x04]);
    let encoded = Varint::encode(res.value, res.bytes.len());
    assert_eq!(encoded, vec![0x04]);
}

#[test]
fn round_trip_nine_bytes() {
    let res = Varint::new(&[0x88; 9]);
    let encoded = Varint::encode(res.value, res.bytes.len());
    assert_eq!(encoded, vec![0x88; 9]);
}

#[test]
fn round_trip_negative() {
    let res = Varint::new(&[0xFF; 9]);
    let encoded = Varint::encode(res.value, res.bytes.len());
    assert_eq!(encoded, vec![0xFF; 9]);
}

#[test]
fn exhausted_input_keeps_accumulation() {
    // A lone high-bit byte: the input ends before the run terminates, and
    // the result is whatever was accumulated.
    let res = Varint::new(&[0x88]);
    assert_eq!(res.value, 8);
    assert_eq!(res.bytes, vec![0x88]);

    let res = Varint::new(&[]);
    assert_eq!(res.value, 0);
    assert_eq!(res.bytes, Vec::<u8>::new());
}
