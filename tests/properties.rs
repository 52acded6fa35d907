use byte_order::codec::{decode, encode, from_pattern, to_pattern};
use byte_order::{ByteCursor, ByteOrder, NumberReader, NumberWriter};

const ORDERS: [ByteOrder; 2] = [ByteOrder::BE, ByteOrder::LE];

fn reader_over(order: ByteOrder, bytes: Vec<u8>) -> NumberReader<ByteCursor> {
    NumberReader::with_order(order, ByteCursor::new(bytes))
}

#[test]
fn unsigned_values_round_trip() {
    for order in ORDERS {
        for v in [0u8, 1, 0x7F, u8::MAX] {
            let mut w = NumberWriter::with_order(order, vec![]);
            w.write_u8(v).unwrap();
            assert_eq!(reader_over(order, w.into_inner()).read_u8().ok(), Some(v));
        }
        for v in [0u16, 1, 0x1234, u16::MAX] {
            let mut w = NumberWriter::with_order(order, vec![]);
            w.write_u16(v).unwrap();
            assert_eq!(reader_over(order, w.into_inner()).read_u16().ok(), Some(v));
        }
        for v in [0u32, 1, 0x12345678, u32::MAX] {
            let mut w = NumberWriter::with_order(order, vec![]);
            w.write_u32(v).unwrap();
            assert_eq!(reader_over(order, w.into_inner()).read_u32().ok(), Some(v));
        }
        for v in [0u64, 1, 0x1234567890123456, u64::MAX] {
            let mut w = NumberWriter::with_order(order, vec![]);
            w.write_u64(v).unwrap();
            assert_eq!(reader_over(order, w.into_inner()).read_u64().ok(), Some(v));
        }
        for v in [0u128, 1, 0x12345678901234567890123456789012, u128::MAX] {
            let mut w = NumberWriter::with_order(order, vec![]);
            w.write_u128(v).unwrap();
            assert_eq!(reader_over(order, w.into_inner()).read_u128().ok(), Some(v));
        }
    }
}

#[test]
fn signed_values_round_trip() {
    for order in ORDERS {
        for v in [0i8, -1, i8::MIN, i8::MAX] {
            let mut w = NumberWriter::with_order(order, vec![]);
            w.write_i8(v).unwrap();
            assert_eq!(reader_over(order, w.into_inner()).read_i8().ok(), Some(v));
        }
        for v in [0i16, -1, i16::MIN, i16::MAX, -0x1234] {
            let mut w = NumberWriter::with_order(order, vec![]);
            w.write_i16(v).unwrap();
            assert_eq!(reader_over(order, w.into_inner()).read_i16().ok(), Some(v));
        }
        for v in [0i32, -1, i32::MIN, i32::MAX] {
            let mut w = NumberWriter::with_order(order, vec![]);
            w.write_i32(v).unwrap();
            assert_eq!(reader_over(order, w.into_inner()).read_i32().ok(), Some(v));
        }
        for v in [0i64, -1, i64::MIN, i64::MAX] {
            let mut w = NumberWriter::with_order(order, vec![]);
            w.write_i64(v).unwrap();
            assert_eq!(reader_over(order, w.into_inner()).read_i64().ok(), Some(v));
        }
        for v in [0i128, -1, i128::MIN, i128::MAX] {
            let mut w = NumberWriter::with_order(order, vec![]);
            w.write_i128(v).unwrap();
            assert_eq!(reader_over(order, w.into_inner()).read_i128().ok(), Some(v));
        }
    }
}

#[test]
fn float_bit_patterns_round_trip() {
    let singles = [
        0.0f32,
        -0.0,
        f32::MIN_POSITIVE,
        f32::MAX,
        f32::MIN,
        f32::INFINITY,
        f32::NEG_INFINITY,
        f32::from_bits(0x7FC0_0001),
    ];
    let doubles = [
        0.0f64,
        -0.0,
        f64::MIN_POSITIVE,
        f64::MAX,
        f64::INFINITY,
        f64::NEG_INFINITY,
        f64::from_bits(0x7FF8_0000_0000_0001),
    ];
    for order in ORDERS {
        for x in singles {
            let mut w = NumberWriter::with_order(order, vec![]);
            w.write_u32(x.to_bits()).unwrap();
            let back = reader_over(order, w.into_inner()).read_u32().unwrap();
            assert_eq!(back, x.to_bits());
        }
        for x in doubles {
            let mut w = NumberWriter::with_order(order, vec![]);
            w.write_u64(x.to_bits()).unwrap();
            let back = reader_over(order, w.into_inner()).read_u64().unwrap();
            assert_eq!(back, x.to_bits());
        }
    }
}

#[test]
fn big_endian_is_little_endian_reversed() {
    let mut be = NumberWriter::with_order(ByteOrder::BE, vec![]);
    let mut le = NumberWriter::with_order(ByteOrder::LE, vec![]);
    be.write_u16(0xA1B2).unwrap();
    le.write_u16(0xA1B2).unwrap();
    let mut flipped = le.into_inner();
    flipped.reverse();
    assert_eq!(be.into_inner(), flipped);

    let mut be = NumberWriter::with_order(ByteOrder::BE, vec![]);
    let mut le = NumberWriter::with_order(ByteOrder::LE, vec![]);
    be.write_i64(-0x1234_5678_9ABC).unwrap();
    le.write_i64(-0x1234_5678_9ABC).unwrap();
    let mut flipped = le.into_inner();
    flipped.reverse();
    assert_eq!(be.into_inner(), flipped);

    let mut be = NumberWriter::with_order(ByteOrder::BE, vec![]);
    let mut le = NumberWriter::with_order(ByteOrder::LE, vec![]);
    be.write_u128(0x0102030405060708090A0B0C0D0E0F10).unwrap();
    le.write_u128(0x0102030405060708090A0B0C0D0E0F10).unwrap();
    let mut flipped = le.into_inner();
    flipped.reverse();
    assert_eq!(be.into_inner(), flipped);
}

#[test]
fn single_byte_is_the_same_in_both_orders() {
    let mut be = NumberWriter::with_order(ByteOrder::BE, vec![]);
    let mut le = NumberWriter::with_order(ByteOrder::LE, vec![]);
    be.write_u8(0xA7).unwrap();
    le.write_u8(0xA7).unwrap();
    be.write_i8(-3).unwrap();
    le.write_i8(-3).unwrap();
    assert_eq!(be.into_inner(), le.into_inner());
}

#[test]
fn native_order_matches_the_machine() {
    let machine = if 1u16.to_ne_bytes()[0] == 1 { ByteOrder::LE } else { ByteOrder::BE };
    assert_eq!(ByteOrder::native(), machine);
    assert_ne!(ByteOrder::BE, ByteOrder::LE);
}

#[test]
fn encode_lays_out_bytes() {
    assert_eq!(encode(ByteOrder::BE, 0x123456, 3), vec![0x12, 0x34, 0x56]);
    assert_eq!(encode(ByteOrder::LE, 0x123456, 3), vec![0x56, 0x34, 0x12]);
    assert_eq!(encode(ByteOrder::BE, 0, 0), Vec::<u8>::new());
    assert_eq!(encode(ByteOrder::LE, u128::MAX, 16), vec![0xFF; 16]);
}

#[test]
fn decode_reads_bytes() {
    assert_eq!(decode(ByteOrder::BE, &[0x12, 0x34, 0x56]), 0x123456);
    assert_eq!(decode(ByteOrder::LE, &[0x12, 0x34, 0x56]), 0x563412);
    assert_eq!(decode(ByteOrder::LE, &[]), 0);
    assert_eq!(decode(ByteOrder::BE, &[0xFF; 16]), u128::MAX);
}

#[test]
fn twos_complement_patterns() {
    assert_eq!(to_pattern(-1, 2), 0xFFFF);
    assert_eq!(to_pattern(-128, 1), 0x80);
    assert_eq!(to_pattern(127, 1), 0x7F);
    assert_eq!(to_pattern(i128::MIN, 16), 1u128 << 127);
    assert_eq!(from_pattern(0xFFFF, 2), -1);
    assert_eq!(from_pattern(0x8000, 2), -32768);
    assert_eq!(from_pattern(0x7FFF, 2), 32767);
    assert_eq!(from_pattern(u128::MAX, 16), -1);
}
