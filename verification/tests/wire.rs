use postcard_core::de::{self, Flavor as _, Slice, UnexpectedEnd};
use postcard_core::ser::{self, AllocVec, Bounded, BufferFull, Flavor as _};
use postcard_core::varint::{
    de_zig_zag_i16, de_zig_zag_i32, de_zig_zag_i64, de_zig_zag_i128, max_of_last_byte, varint_max,
    varint_u128, varint_u16, varint_u32, varint_u64, varint_usize, zig_zag_i128, zig_zag_i16,
    zig_zag_i32, zig_zag_i64,
};

#[test]
fn varint_lengths_and_last_bytes() {
    assert_eq!(varint_max::<u8>(), 2);
    assert_eq!(varint_max::<u16>(), 3);
    assert_eq!(varint_max::<u32>(), 5);
    assert_eq!(varint_max::<u64>(), 10);
    assert_eq!(varint_max::<u128>(), 19);
    assert_eq!(max_of_last_byte::<u16>(), 0b11);
    assert_eq!(max_of_last_byte::<u32>(), 0b1111);
    assert_eq!(max_of_last_byte::<u64>(), 0b1);
    assert_eq!(max_of_last_byte::<u128>(), 0b11);
}

#[test]
fn varint_encodings() {
    let mut b3 = [0u8; 3];
    assert_eq!(varint_u16(0, &mut b3), 1);
    assert_eq!(b3[0], 0);
    assert_eq!(varint_u16(300, &mut b3), 2);
    assert_eq!(&b3[..2], &[0xAC, 0x02]);
    assert_eq!(varint_u16(u16::MAX, &mut b3), 3);
    assert_eq!(b3, [0xFF, 0xFF, 0x03]);
    let mut b5 = [0u8; 5];
    assert_eq!(varint_u32(127, &mut b5), 1);
    assert_eq!(varint_u32(128, &mut b5), 2);
    assert_eq!(&b5[..2], &[0x80, 0x01]);
    assert_eq!(varint_u32(u32::MAX, &mut b5), 5);
    assert_eq!(b5, [0xFF, 0xFF, 0xFF, 0xFF, 0x0F]);
    let mut b10 = [0u8; 10];
    assert_eq!(varint_u64(u64::MAX, &mut b10), 10);
    assert_eq!(b10[9], 0x01);
    assert_eq!(varint_usize(1, &mut b10), 1);
    let mut b19 = [0u8; 19];
    assert_eq!(varint_u128(u128::MAX, &mut b19), 19);
    assert_eq!(b19[18], 0x03);
}

#[test]
fn zigzag_values() {
    assert_eq!(zig_zag_i16(0), 0);
    assert_eq!(zig_zag_i16(-1), 1);
    assert_eq!(zig_zag_i16(1), 2);
    assert_eq!(zig_zag_i16(i16::MIN), u16::MAX);
    assert_eq!(zig_zag_i32(-2), 3);
    assert_eq!(zig_zag_i64(i64::MAX), u64::MAX - 1);
    assert_eq!(zig_zag_i128(-3), 5);
    assert_eq!(de_zig_zag_i16(u16::MAX), i16::MIN);
    assert_eq!(de_zig_zag_i32(3), -2);
    assert_eq!(de_zig_zag_i64(4), 2);
    assert_eq!(de_zig_zag_i128(5), -3);
    for v in [i32::MIN, -1000, -1, 0, 1, 77, i32::MAX] {
        assert_eq!(de_zig_zag_i32(zig_zag_i32(v)), v);
        assert_eq!(de::de_zig_zag_i32(zig_zag_i32(v)), v);
    }
}

#[test]
fn push_then_take_round_trips() {
    let mut f = AllocVec::new();
    ser::try_push_bool(&mut f, true).unwrap();
    ser::try_push_u8(&mut f, 0xAB).unwrap();
    ser::try_push_u16(&mut f, 300).unwrap();
    ser::try_push_u32(&mut f, 70000).unwrap();
    ser::try_push_u64(&mut f, u64::MAX).unwrap();
    ser::try_push_u128(&mut f, 1 << 100).unwrap();
    ser::try_push_usize(&mut f, 12345).unwrap();
    ser::try_push_i8(&mut f, -5).unwrap();
    ser::try_push_i16(&mut f, -300).unwrap();
    ser::try_push_i32(&mut f, i32::MIN).unwrap();
    ser::try_push_i64(&mut f, -1).unwrap();
    ser::try_push_i128(&mut f, i128::MIN).unwrap();
    ser::try_push_isize(&mut f, -7).unwrap();
    ser::try_push_bytes(&mut f, &[1, 2, 3]).unwrap();
    ser::try_push_str(&mut f, "hé").unwrap();
    ser::try_push_option_none(&mut f).unwrap();
    ser::try_push_option_some(&mut f).unwrap();
    ser::try_push_discriminant(&mut f, 2).unwrap();
    ser::try_push_length(&mut f, 200).unwrap();
    ser::try_push_char(&mut f, 'é').unwrap();
    let bytes = f.finalize().unwrap();

    let mut d = Slice::new(&bytes);
    assert_eq!(de::try_take_bool(&mut d), Ok(Some(true)));
    assert_eq!(de::try_take_u8(&mut d), Ok(0xAB));
    assert_eq!(de::try_take_u16(&mut d), Ok(Some(300)));
    assert_eq!(de::try_take_u32(&mut d), Ok(Some(70000)));
    assert_eq!(de::try_take_u64(&mut d), Ok(Some(u64::MAX)));
    assert_eq!(de::try_take_u128(&mut d), Ok(Some(1 << 100)));
    assert_eq!(de::try_take_usize(&mut d), Ok(Some(12345)));
    assert_eq!(de::try_take_i8(&mut d), Ok(-5));
    assert_eq!(de::try_take_i16(&mut d), Ok(Some(-300)));
    assert_eq!(de::try_take_i32(&mut d), Ok(Some(i32::MIN)));
    assert_eq!(de::try_take_i64(&mut d), Ok(Some(-1)));
    assert_eq!(de::try_take_i128(&mut d), Ok(Some(i128::MIN)));
    assert_eq!(de::try_take_isize(&mut d), Ok(Some(-7)));
    assert_eq!(de::try_take_bytes(&mut d), Ok(Some(&[1u8, 2, 3][..])));
    assert_eq!(de::try_take_str(&mut d), Ok(Some("hé")));
    assert_eq!(de::try_take_u8(&mut d), Ok(0));
    assert_eq!(de::try_take_u8(&mut d), Ok(1));
    assert_eq!(de::try_take_u32(&mut d), Ok(Some(2)));
    assert_eq!(de::try_take_usize(&mut d), Ok(Some(200)));
    assert_eq!(de::try_take_str(&mut d), Ok(Some("é")));
    assert_eq!(de::try_take_u8(&mut d), Err(UnexpectedEnd));
}

#[test]
fn exact_encodings() {
    let mut f = AllocVec::new();
    ser::try_push_u16(&mut f, 300).unwrap();
    ser::try_push_i16(&mut f, -1).unwrap();
    ser::try_push_str(&mut f, "hi").unwrap();
    ser::try_push_char(&mut f, 'A').unwrap();
    ser::try_push_bool(&mut f, false).unwrap();
    assert_eq!(f.finalize().unwrap(), vec![0xAC, 0x02, 0x01, 0x02, b'h', b'i', 0x01, b'A', 0x00]);
}

#[test]
fn decoding_errors_and_invalid_values() {
    // A bool must be 0 or 1
    let mut d = Slice::new(&[2]);
    assert_eq!(de::try_take_bool(&mut d), Ok(None));
    // Out of bytes
    let mut d = Slice::new(&[]);
    assert_eq!(de::try_take_u8(&mut d), Err(UnexpectedEnd));
    // A varint that never ends
    let mut d = Slice::new(&[0x80, 0x80]);
    assert_eq!(de::try_take_u32(&mut d), Err(UnexpectedEnd));
    // A u16 varint with too many bits in its last byte
    let mut d = Slice::new(&[0xFF, 0xFF, 0x04]);
    assert_eq!(de::try_take_u16(&mut d), Ok(None));
    // A u16 varint longer than three bytes
    let mut d = Slice::new(&[0x80, 0x80, 0x80, 0x00]);
    assert_eq!(de::try_take_u16(&mut d), Ok(None));
    // A string whose bytes are not UTF-8
    let mut d = Slice::new(&[0x02, 0xFF, 0xFE]);
    assert_eq!(de::try_take_str(&mut d), Ok(None));
    // A byte array longer than what remains
    let mut d = Slice::new(&[0x05, 1, 2]);
    assert_eq!(de::try_take_bytes(&mut d), Err(UnexpectedEnd));
    assert_eq!(UnexpectedEnd.message(), "UnexpectedEnd");
}

#[test]
fn slice_flavor_keeps_the_rest() {
    let bytes = [7u8, 8, 9];
    let mut d = Slice::new(&bytes);
    assert_eq!(d.size_hint(), Some(3));
    assert_eq!(d.pop(), Ok(7));
    assert_eq!(d.try_take_n(1), Ok(&[8u8][..]));
    assert_eq!(d.try_take_n(5), Err(UnexpectedEnd));
    assert_eq!(d.finalize(), Ok(&[9u8][..]));
}

#[test]
fn bounded_flavor_fills_up() {
    let mut f = Bounded::new(3);
    assert_eq!(ser::try_push_u16(&mut f, 300), Ok(()));
    assert_eq!(ser::try_push_u8(&mut f, 1), Ok(()));
    assert_eq!(ser::try_push_u8(&mut f, 2), Err(BufferFull));
    assert_eq!(ser::try_push_bytes(&mut f, &[]), Err(BufferFull));
    assert_eq!(f.finalize(), Ok(vec![0xAC, 0x02, 0x01]));
    assert_eq!(BufferFull.message(), "BufferFull");
}

#[test]
fn strings_are_length_prefixed_and_variants_are_varints() {
    // "hello" is [5, h, e, l, l, o]
    let mut f = AllocVec::new();
    ser::try_push_str(&mut f, "hello").unwrap();
    assert_eq!(f.finalize().unwrap(), vec![5, b'h', b'e', b'l', b'l', b'o']);
    // usizes and enum variants are varints
    let mut f = AllocVec::new();
    ser::try_push_usize(&mut f, 300).unwrap();
    ser::try_push_discriminant(&mut f, 300).unwrap();
    ser::try_push_length(&mut f, 127).unwrap();
    assert_eq!(f.finalize().unwrap(), vec![0xAC, 0x02, 0xAC, 0x02, 0x7F]);
}
