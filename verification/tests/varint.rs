use mc_honeypot::reader::Reader;
use mc_honeypot::varint::{read_varint, write_varint, VARINT_MAX_BYTES};

fn encoded(value: i32) -> Vec<u8> {
    let mut w = Vec::new();
    write_varint(&mut w, value);
    w
}

#[test]
fn varint_known_encodings() {
    assert_eq!(encoded(0), vec![0x00]);
    assert_eq!(encoded(1), vec![0x01]);
    assert_eq!(encoded(2), vec![0x02]);
    assert_eq!(encoded(127), vec![0x7f]);
    assert_eq!(encoded(128), vec![0x80, 0x01]);
    assert_eq!(encoded(255), vec![0xff, 0x01]);
    assert_eq!(encoded(770), vec![0x82, 0x06]);
    assert_eq!(encoded(25565), vec![0xdd, 0xc7, 0x01]);
    assert_eq!(encoded(2097151), vec![0xff, 0xff, 0x7f]);
    assert_eq!(encoded(i32::MAX), vec![0xff, 0xff, 0xff, 0xff, 0x07]);
    assert_eq!(encoded(-1), vec![0xff, 0xff, 0xff, 0xff, 0x0f]);
    assert_eq!(encoded(i32::MIN), vec![0x80, 0x80, 0x80, 0x80, 0x08]);
}

#[test]
fn varint_write_appends() {
    let mut w = vec![0xAA, 0xBB];
    write_varint(&mut w, 300);
    assert_eq!(w, vec![0xAA, 0xBB, 0xac, 0x02]);
}

#[test]
fn varint_known_decodings() {
    let mut r = Reader::new(vec![0xdd, 0xc7, 0x01, 0x55]);
    assert_eq!(read_varint(&mut r), 25565);
    assert_eq!(r.remaining(), 1);
    assert!(r.is_intact());
    assert_eq!(read_varint(&mut r), 0x55);
    assert_eq!(r.remaining(), 0);
    assert!(r.is_intact());
}

#[test]
fn varint_round_trip_on_chosen_values() {
    let values = [
        0,
        1,
        -1,
        127,
        128,
        255,
        256,
        16383,
        16384,
        2097151,
        2097152,
        268435455,
        268435456,
        i32::MAX,
        i32::MIN,
        i32::MIN + 1,
        -128,
        -25565,
        770,
        767,
    ];
    for value in values {
        let mut bytes = encoded(value);
        let len = bytes.len();
        assert!(1 <= len && len <= VARINT_MAX_BYTES);
        bytes.push(0x99);
        let mut r = Reader::new(bytes);
        assert_eq!(read_varint(&mut r), value);
        assert_eq!(r.remaining(), 1);
        assert!(r.is_intact());
    }
}

#[test]
fn varint_round_trip_on_a_sweep() {
    let mut value: i64 = i32::MIN as i64;
    while value <= i32::MAX as i64 {
        let v = value as i32;
        let mut r = Reader::new(encoded(v));
        assert_eq!(read_varint(&mut r), v);
        assert_eq!(r.remaining(), 0);
        assert!(r.is_intact());
        value += 9_999_991;
    }
}

#[test]
fn varint_with_a_sixth_byte_is_refused() {
    let mut r = Reader::new(vec![0x80, 0x80, 0x80, 0x80, 0x80, 0x01, 0x42]);
    assert_eq!(read_varint(&mut r), 0);
    assert!(r.is_malformed());
    assert!(!r.is_truncated());
    assert_eq!(r.remaining(), 2);
}

#[test]
fn varint_of_five_full_bytes_is_refused() {
    let mut r = Reader::new(vec![0xff, 0xff, 0xff, 0xff, 0xff]);
    assert_eq!(read_varint(&mut r), 0);
    assert!(r.is_malformed());
    assert_eq!(r.remaining(), 0);
}

#[test]
fn varint_high_bits_of_the_fifth_byte_are_cut() {
    let mut r = Reader::new(vec![0xff, 0xff, 0xff, 0xff, 0x7f]);
    assert_eq!(read_varint(&mut r), -1);
    assert!(r.is_intact());
}

#[test]
fn varint_from_nothing_is_zero_and_truncated() {
    let mut r = Reader::new(Vec::new());
    assert_eq!(read_varint(&mut r), 0);
    assert!(r.is_truncated());
    assert!(!r.is_malformed());
}

#[test]
fn varint_cut_short_is_zero_and_truncated() {
    let mut r = Reader::new(vec![0xdd, 0xc7]);
    assert_eq!(read_varint(&mut r), 0);
    assert!(r.is_truncated());
    assert_eq!(r.remaining(), 0);
}

#[test]
fn varint_need_not_be_shortest() {
    let mut r = Reader::new(vec![0x81, 0x80, 0x00]);
    assert_eq!(read_varint(&mut r), 1);
    assert!(r.is_intact());
    assert_eq!(r.remaining(), 0);
}
