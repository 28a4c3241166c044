use modbus_device::codec::{decode, encode};
use modbus_device::register::DataType;
use modbus_device::{ModbusError, RegisterValue};

fn round_trip(v: RegisterValue, kind: DataType) -> RegisterValue {
    let words = encode(&v);
    decode(&words, kind).unwrap()
}

#[test]
fn decode_uint32_first_word_most_significant() {
    // big-endian bytes 00 01 00 02, reversed: 02 00 01 00, read little-endian
    let v = decode(&[0x0001, 0x0002], DataType::UInt32).unwrap();
    assert_eq!(v, RegisterValue::U32(0x0001_0002));
    assert_eq!(v, RegisterValue::U32(65538));
}

#[test]
fn decode_uint64_and_uint128() {
    let v = decode(&[0x0102, 0x0304, 0x0506, 0x0708], DataType::UInt64).unwrap();
    assert_eq!(v, RegisterValue::U64(0x0102_0304_0506_0708));
    let words = [1u16, 2, 3, 4, 5, 6, 7, 8];
    let v = decode(&words, DataType::UInt128).unwrap();
    assert_eq!(v, RegisterValue::U128(0x0001_0002_0003_0004_0005_0006_0007_0008));
}

#[test]
fn decode_int32_twos_complement() {
    let v = decode(&[0xFFFF, 0xFFFE], DataType::Int32).unwrap();
    assert_eq!(v, RegisterValue::S32(-2));
}

#[test]
fn decode_float32_bits() {
    let v = decode(&[0x3F80, 0x0000], DataType::Float32).unwrap();
    assert_eq!(v, RegisterValue::Float32(0x3F80_0000));
    assert_eq!(f32::from_bits(0x3F80_0000), 1.0f32);
}

#[test]
fn decode_single_word_types_read_first_word() {
    assert_eq!(decode(&[7], DataType::UInt16).unwrap(), RegisterValue::U16(7));
    assert_eq!(decode(&[7, 9], DataType::UInt16).unwrap(), RegisterValue::U16(7));
    assert_eq!(decode(&[3], DataType::Enum16).unwrap(), RegisterValue::Enum16(3));
}

#[test]
fn decode_boolean_is_true_only_for_all_ones() {
    assert_eq!(decode(&[0xFFFF], DataType::Boolean).unwrap(), RegisterValue::Boolean(true));
    assert_eq!(decode(&[1], DataType::Boolean).unwrap(), RegisterValue::Boolean(false));
    assert_eq!(decode(&[0], DataType::Boolean).unwrap(), RegisterValue::Boolean(false));
}

#[test]
fn decode_sized_reverses_bytes() {
    let mut words = [0u16; 33];
    for (i, w) in words.iter_mut().enumerate() {
        *w = (((2 * i) as u16) << 8) | (2 * i + 1) as u16;
    }
    // bytes in wire order are 0, 1, 2, ..., 65; reversed they count down
    let v = decode(&words, DataType::Sized).unwrap();
    match v {
        RegisterValue::Sized(a) => {
            for (j, b) in a.iter().enumerate() {
                assert_eq!(*b as usize, 65 - j);
            }
        }
        _ => panic!("not a sized value"),
    }
}

#[test]
fn decode_wrong_width_is_conversion_error() {
    assert!(matches!(decode(&[1, 2, 3], DataType::UInt32), Err(ModbusError::ConversionError)));
    assert!(matches!(decode(&[1], DataType::UInt64), Err(ModbusError::ConversionError)));
    assert!(matches!(decode(&[1, 2], DataType::Sized), Err(ModbusError::ConversionError)));
    assert!(matches!(decode(&[], DataType::UInt16), Err(ModbusError::ConversionError)));
    assert!(matches!(decode(&[], DataType::Boolean), Err(ModbusError::ConversionError)));
}

#[test]
fn encode_most_significant_word_first() {
    assert_eq!(encode(&RegisterValue::U16(0xABCD)), vec![0xABCD]);
    assert_eq!(encode(&RegisterValue::U32(0x1234_5678)), vec![0x1234, 0x5678]);
    assert_eq!(encode(&RegisterValue::U64(0x0102_0304_0506_0708)), vec![0x0102, 0x0304, 0x0506, 0x0708]);
    assert_eq!(encode(&RegisterValue::S32(-2)), vec![0xFFFF, 0xFFFE]);
    assert_eq!(encode(&RegisterValue::Float32(0.52f32.to_bits())), vec![0x3F05, 0x1EB8]);
    assert_eq!(encode(&RegisterValue::Boolean(true)), vec![1]);
    assert_eq!(encode(&RegisterValue::Boolean(false)), vec![0]);
    assert_eq!(encode(&RegisterValue::U128(1)).len(), 8);
}

#[test]
fn encode_sized_pairs_reversed_bytes() {
    let mut a = [0u8; 66];
    for (i, b) in a.iter_mut().enumerate() {
        *b = i as u8;
    }
    let words = encode(&RegisterValue::Sized(a));
    assert_eq!(words.len(), 33);
    assert_eq!(words[0], (65 << 8) | 64);
    assert_eq!(words[32], (1 << 8) | 0);
}

#[test]
fn round_trip_every_type() {
    assert_eq!(round_trip(RegisterValue::U16(513), DataType::UInt16), RegisterValue::U16(513));
    assert_eq!(round_trip(RegisterValue::Enum16(4), DataType::Enum16), RegisterValue::Enum16(4));
    assert_eq!(round_trip(RegisterValue::U32(u32::MAX - 5), DataType::UInt32), RegisterValue::U32(u32::MAX - 5));
    assert_eq!(round_trip(RegisterValue::U64(u64::MAX / 3), DataType::UInt64), RegisterValue::U64(u64::MAX / 3));
    assert_eq!(round_trip(RegisterValue::U128(u128::MAX / 7), DataType::UInt128), RegisterValue::U128(u128::MAX / 7));
    assert_eq!(round_trip(RegisterValue::S32(i32::MIN), DataType::Int32), RegisterValue::S32(i32::MIN));
    assert_eq!(round_trip(RegisterValue::S32(-12345), DataType::Int32), RegisterValue::S32(-12345));
    let bits = (-3.25f32).to_bits();
    assert_eq!(round_trip(RegisterValue::Float32(bits), DataType::Float32), RegisterValue::Float32(bits));
    assert_eq!(round_trip(RegisterValue::Boolean(false), DataType::Boolean), RegisterValue::Boolean(false));
    let mut a = [0u8; 66];
    for (i, b) in a.iter_mut().enumerate() {
        *b = (i * 7) as u8;
    }
    assert_eq!(round_trip(RegisterValue::Sized(a), DataType::Sized), RegisterValue::Sized(a));
}

#[test]
fn boolean_true_does_not_round_trip() {
    // the word 1 has a complement that is not zero, so it reads as false
    assert_eq!(round_trip(RegisterValue::Boolean(true), DataType::Boolean), RegisterValue::Boolean(false));
}

#[test]
fn word_len_per_type() {
    assert_eq!(DataType::UInt16.word_len(), 1);
    assert_eq!(DataType::UInt32.word_len(), 2);
    assert_eq!(DataType::UInt64.word_len(), 4);
    assert_eq!(DataType::UInt128.word_len(), 8);
    assert_eq!(DataType::Int32.word_len(), 2);
    assert_eq!(DataType::Enum16.word_len(), 1);
    assert_eq!(DataType::Sized.word_len(), 33);
    assert_eq!(DataType::Float32.word_len(), 2);
    assert_eq!(DataType::Boolean.word_len(), 1);
}

#[test]
fn values_of_different_variants_differ() {
    assert_ne!(RegisterValue::U16(1), RegisterValue::Enum16(1));
    assert_ne!(RegisterValue::Sized([0u8; 66]), RegisterValue::Sized([1u8; 66]));
}
