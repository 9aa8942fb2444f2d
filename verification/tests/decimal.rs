use parquet_nested::array::Values;
use parquet_nested::decimal::{convert_i128, convert_i256, Int256};
use parquet_nested::leaf::{decode, Int32Target, Int64Target, LeafDecoder};

fn minimal(bytes: &[u8]) -> &[u8] {
    let mut start = 0;
    while start + 1 < bytes.len() {
        let sign = bytes[start + 1] >= 128;
        if (bytes[start] == 0 && !sign) || (bytes[start] == 255 && sign) {
            start += 1;
        } else {
            break;
        }
    }
    &bytes[start..]
}

#[test]
fn convert_i128_reads_small_values() {
    assert_eq!(convert_i128(&[0x01], 1), 1);
    assert_eq!(convert_i128(&[0xff], 1), -1);
    assert_eq!(convert_i128(&[0x80], 1), -128);
    assert_eq!(convert_i128(&[0x7f], 1), 127);
    assert_eq!(convert_i128(&[0x01, 0x00], 2), 256);
    assert_eq!(convert_i128(&[0xff, 0x00], 2), -256);
    assert_eq!(convert_i128(&[], 0), 0);
}

#[test]
fn convert_i128_round_trips_minimal_forms() {
    let values: [i128; 12] = [
        0,
        1,
        -1,
        127,
        128,
        -128,
        -129,
        1_000_000_007,
        -98_765_432_109_876_543_210,
        i128::MAX,
        i128::MIN,
        i128::MIN + 1,
    ];
    for v in values {
        let full = v.to_be_bytes();
        let short = minimal(&full);
        assert_eq!(convert_i128(short, short.len()), v);
        assert_eq!(convert_i128(&full, 16), v);
    }
}

#[test]
fn convert_i128_round_trips_every_width() {
    for width in 1..=16usize {
        let bits = 8 * width as u32;
        let max: i128 = if bits == 128 { i128::MAX } else { (1i128 << (bits - 1)) - 1 };
        let min: i128 = if bits == 128 { i128::MIN } else { -(1i128 << (bits - 1)) };
        for v in [min, min + 1, -1, 0, 1, max - 1, max] {
            let full = v.to_be_bytes();
            let bytes = &full[16 - width..];
            assert_eq!(convert_i128(bytes, width), v);
        }
    }
}

fn widened(bytes: &[u8]) -> Int256 {
    let values = Values::FixedSizeBinary { width: bytes.len(), bytes: bytes.to_vec() };
    match decode(LeafDecoder::Decimal256(bytes.len()), values) {
        Ok(Values::Decimal256(out)) => {
            assert_eq!(out.len(), 1);
            out[0]
        },
        other => panic!("unexpected {:?}", other),
    }
}

#[test]
fn widening_keeps_the_value() {
    assert_eq!(
        decode(
            LeafDecoder::FromInt32(Int32Target::Decimal256),
            Values::Int32(vec![0, 5, -1, i32::MIN, i32::MAX])
        ),
        Ok(Values::Decimal256(vec![
            Int256 { hi: 0, lo: 0 },
            Int256 { hi: 0, lo: 5 },
            Int256 { hi: -1, lo: u128::MAX },
            Int256 { hi: -1, lo: u128::MAX - (i32::MAX as u128) },
            Int256 { hi: 0, lo: i32::MAX as u128 },
        ]))
    );
    assert_eq!(
        decode(
            LeafDecoder::FromInt64(Int64Target::Decimal256),
            Values::Int64(vec![i64::MIN, i64::MAX])
        ),
        Ok(Values::Decimal256(vec![
            Int256 { hi: -1, lo: u128::MAX - (i64::MAX as u128) },
            Int256 { hi: 0, lo: i64::MAX as u128 },
        ]))
    );
    // Sixteen bytes are read in 128 bits and then widened.
    assert_eq!(widened(&i128::MIN.to_be_bytes()), Int256 { hi: -1, lo: 1u128 << 127 });
    assert_eq!(widened(&i128::MAX.to_be_bytes()), Int256 { hi: 0, lo: (1u128 << 127) - 1 });
    assert_eq!(widened(&(-2i128).to_be_bytes()), Int256 { hi: -1, lo: u128::MAX - 1 });
}

#[test]
fn convert_i256_extends_the_sign() {
    assert_eq!(convert_i256(&[]), Int256 { hi: 0, lo: 0 });
    assert_eq!(convert_i256(&[0x01]), Int256 { hi: 0, lo: 1 });
    assert_eq!(convert_i256(&[0xff]), Int256 { hi: -1, lo: u128::MAX });
    assert_eq!(convert_i256(&[0x80]), Int256 { hi: -1, lo: u128::MAX - 127 });
    assert_eq!(convert_i256(&[0x01, 0x02]), Int256 { hi: 0, lo: 0x0102 });
}

#[test]
fn convert_i256_reads_values_beyond_128_bits() {
    // 2^128: seventeen bytes, a one and sixteen zeros.
    let mut bytes = vec![0u8; 17];
    bytes[0] = 1;
    assert_eq!(convert_i256(&bytes), Int256 { hi: 1, lo: 0 });
    // -(2^128) - 1
    let mut bytes = vec![0xffu8; 17];
    bytes[0] = 0xfe;
    assert_eq!(convert_i256(&bytes), Int256 { hi: -2, lo: u128::MAX });
    // The two ends of the 256-bit range.
    let mut max = vec![0xffu8; 32];
    max[0] = 0x7f;
    assert_eq!(convert_i256(&max), Int256 { hi: i128::MAX, lo: u128::MAX });
    let mut min = vec![0u8; 32];
    min[0] = 0x80;
    assert_eq!(convert_i256(&min), Int256 { hi: i128::MIN, lo: 0 });
}

#[test]
fn convert_i256_agrees_with_ethnum_on_every_width() {
    for width in 1..=32usize {
        for first in [0x00u8, 0x01, 0x7f, 0x80, 0xfe, 0xff] {
            let mut bytes = vec![0u8; width];
            for (i, b) in bytes.iter_mut().enumerate() {
                *b = (i as u8).wrapping_mul(37).wrapping_add(11);
            }
            bytes[0] = first;
            let mut full = [if first >= 128 { 0xffu8 } else { 0u8 }; 32];
            full[32 - width..].copy_from_slice(&bytes);
            let (hi, lo) = ethnum::I256::from_be_bytes(full).into_words();
            assert_eq!(convert_i256(&bytes), Int256 { hi, lo: lo as u128 });
            assert_eq!(widened(&bytes), convert_i256(&bytes));
        }
    }
}
