use postcard_core::bounded::{BoundedBytes, BoundedStr};
use postcard_core::max_len::{MaxLenByteSlice, MaxLenBytes, MaxLenStr, MaxLenString, TooLong};
use postcard_core::schema::DataModelType;
use postcard_core::de::{self, Slice};
use postcard_core::ser::{self, AllocVec, Flavor as _};
use postcard_core::Schema;

fn encode_str(s: &str) -> Vec<u8> {
    let mut f = AllocVec::new();
    ser::try_push_str(&mut f, s).unwrap();
    f.finalize().unwrap()
}

fn encode_bytes(b: &[u8]) -> Vec<u8> {
    let mut f = AllocVec::new();
    ser::try_push_bytes(&mut f, b).unwrap();
    f.finalize().unwrap()
}

fn decode_str(x: &[u8]) -> &str {
    let mut f = Slice::new(x);
    de::try_take_str(&mut f).unwrap().unwrap()
}

fn decode_bytes(x: &[u8]) -> &[u8] {
    let mut f = Slice::new(x);
    de::try_take_bytes(&mut f).unwrap().unwrap()
}

#[test]
fn max_len_string_bounds() {
    assert_eq!(MaxLenString::<8>::schema().max_size(), Some(9));
    assert_eq!(MaxLenString::<127>::schema().max_size(), Some(128));
    assert_eq!(MaxLenString::<128>::schema().max_size(), Some(130));
    let b = MaxLenString::<5>::try_from("hello").unwrap();
    assert_eq!(b.as_ref(), "hello");
    assert!(MaxLenString::<4>::try_from("hello").is_err());
    assert_eq!(MaxLenString::<4>::try_from("hello").err(), Some(TooLong));
    assert_eq!(MaxLenString::<5>::try_from_string("hello".to_string()).unwrap().into_inner(), "hello");
    assert!(MaxLenString::<4>::try_from_string("hello".to_string()).is_err());
    assert_eq!(MaxLenString::<5>::schema(), DataModelType::String { max_len: Some(5) });
    assert_eq!(MaxLenString::<5>::schema(), MaxLenStr::<'_, 5>::schema());
}

#[test]
fn max_len_str_bounds() {
    assert_eq!(MaxLenStr::<8>::schema().max_size(), Some(9));
    assert_eq!(MaxLenStr::<127>::schema().max_size(), Some(128));
    assert_eq!(MaxLenStr::<128>::schema().max_size(), Some(130));
    let b = MaxLenStr::<'_, 5>::try_from("hello").unwrap();
    assert_eq!(b.as_ref(), "hello");
    assert!(MaxLenStr::<4>::try_from("hello").is_err());
    // Bounds count bytes, not characters
    assert!(MaxLenStr::<4>::try_from("héé").is_err());
    assert!(MaxLenStr::<5>::try_from("héé").is_ok());
}

#[test]
fn max_len_bytes_bounds() {
    assert_eq!(MaxLenBytes::<8>::schema().max_size(), Some(9));
    assert_eq!(MaxLenBytes::<127>::schema().max_size(), Some(128));
    assert_eq!(MaxLenBytes::<128>::schema().max_size(), Some(130));
    assert!(MaxLenBytes::<6>::try_from_array(b"hello").is_ok());
    let b = MaxLenBytes::<5>::try_from_array(b"hello").unwrap();
    assert_eq!(b.as_ref().get(..3), Some(b"hel".as_slice()));
    assert!(MaxLenBytes::<4>::try_from_array(b"hello").is_err());
    assert!(MaxLenBytes::<4>::try_from(b"hello".as_slice()).is_err());
    assert_eq!(
        MaxLenBytes::<5>::schema(),
        DataModelType::SeqOf { element: Box::new(DataModelType::U8), max_len: Some(5) }
    );
    assert_eq!(MaxLenBytes::<5>::schema(), MaxLenByteSlice::<'_, 5>::schema());
    let s = MaxLenByteSlice::<'_, 5>::try_from(b"hello".as_slice()).unwrap();
    assert_eq!(s.as_ref(), b"hello");
    assert!(MaxLenByteSlice::<4>::try_from(b"hello".as_slice()).is_err());
}

#[test]
fn bounded_str_and_bytes() {
    assert_eq!(BoundedStr::<8>::schema().max_size(), Some(9));
    assert_eq!(BoundedStr::<128>::schema().max_size(), Some(130));
    assert!(BoundedStr::<4>::try_from("hello").is_err());
    assert_eq!(BoundedStr::<'_, 5>::try_from("hello").unwrap().as_ref(), "hello");
    assert_eq!(BoundedBytes::<127>::schema().max_size(), Some(128));
    let b = BoundedBytes::<'_, 5>::try_from(b"hello".as_slice()).unwrap();
    assert_eq!(b.as_ref().get(..3), Some(b"hel".as_slice()));
    assert!(BoundedBytes::<4>::try_from(b"hello".as_slice()).is_err());
    assert_eq!(BoundedStr::<'_, 5>::schema(), DataModelType::String { max_len: Some(5) });
}

#[test]
fn builtins_bounded_bounded_str() {
    assert_eq!(BoundedStr::<8>::schema().max_size(), Some(9));
    assert_eq!(BoundedStr::<127>::schema().max_size(), Some(128));
    assert_eq!(BoundedStr::<128>::schema().max_size(), Some(130));

    let b = BoundedStr::<'_, 5>::try_from("hello").unwrap();
    let x = encode_str(b.as_ref());
    let base = encode_str("hello");
    assert_eq!(x, base);
    assert!(BoundedStr::<4>::try_from("hello").is_err());

    let c = BoundedStr::<'_, 5>::try_from(decode_str(&x)).unwrap();
    assert!(b == c);

    let d = BoundedStr::<'_, 4>::try_from(decode_str(&x));
    assert!(d.is_err());

    assert_eq!(BoundedStr::<'_, 5>::schema(), DataModelType::String { max_len: Some(5) });
}

#[test]
fn builtins_bounded_bounded_bytes() {
    assert_eq!(BoundedBytes::<8>::schema().max_size(), Some(9));
    assert_eq!(BoundedBytes::<127>::schema().max_size(), Some(128));
    assert_eq!(BoundedBytes::<128>::schema().max_size(), Some(130));

    let _b = BoundedBytes::<'_, 6>::try_from(b"hello".as_slice()).unwrap();
    let b = BoundedBytes::<'_, 5>::try_from(b"hello".as_slice()).unwrap();
    assert_eq!(b.as_ref().get(..3), Some(b"hel".as_slice()));
    let x = encode_bytes(b.as_ref());
    let base = encode_bytes(b"hello".as_slice());
    assert_eq!(x, base);
    assert!(BoundedBytes::<4>::try_from(b"hello".as_slice()).is_err());

    let c = BoundedBytes::<'_, 5>::try_from(decode_bytes(&x)).unwrap();
    assert!(b == c);

    let d = BoundedBytes::<'_, 4>::try_from(decode_bytes(&x));
    assert!(d.is_err());

    assert_eq!(
        BoundedBytes::<'_, 5>::schema(),
        DataModelType::SeqOf { element: Box::new(DataModelType::U8), max_len: Some(5) }
    );
}

#[test]
fn builtins_maxlen_bounded_str() {
    // Owned strings
    assert_eq!(MaxLenString::<8>::schema().max_size(), Some(9));
    assert_eq!(MaxLenString::<127>::schema().max_size(), Some(128));
    assert_eq!(MaxLenString::<128>::schema().max_size(), Some(130));

    let b = MaxLenString::<5>::try_from("hello").unwrap();
    let x = encode_str(b.as_ref());
    let base = encode_str("hello");
    assert_eq!(x, base);
    assert!(MaxLenString::<4>::try_from("hello").is_err());

    let c = MaxLenString::<5>::try_from(decode_str(&x)).unwrap();
    assert_eq!(b.as_ref(), c.as_ref());
    let c2 = MaxLenStr::<'_, 5>::try_from(decode_str(&x)).unwrap();
    assert_eq!(b.as_ref(), c2.as_ref());

    let d = MaxLenString::<4>::try_from(decode_str(&x));
    assert!(d.is_err());

    assert_eq!(MaxLenString::<5>::schema(), DataModelType::String { max_len: Some(5) });
    assert_eq!(MaxLenString::<5>::schema(), MaxLenStr::<'_, 5>::schema());

    // Borrowed strings
    assert_eq!(MaxLenStr::<8>::schema().max_size(), Some(9));
    assert_eq!(MaxLenStr::<127>::schema().max_size(), Some(128));
    assert_eq!(MaxLenStr::<128>::schema().max_size(), Some(130));

    let b = MaxLenStr::<'_, 5>::try_from("hello").unwrap();
    let x = encode_str(b.as_ref());
    assert_eq!(x, base);
    assert!(MaxLenStr::<4>::try_from("hello").is_err());

    let c = MaxLenStr::<'_, 5>::try_from(decode_str(&x)).unwrap();
    assert!(b == c);

    let d = MaxLenStr::<'_, 4>::try_from(decode_str(&x));
    assert!(d.is_err());

    assert_eq!(MaxLenStr::<'_, 5>::schema(), DataModelType::String { max_len: Some(5) });
}

#[test]
fn builtins_maxlen_bounded_bytes() {
    // Owned bytes
    assert_eq!(MaxLenBytes::<8>::schema().max_size(), Some(9));
    assert_eq!(MaxLenBytes::<127>::schema().max_size(), Some(128));
    assert_eq!(MaxLenBytes::<128>::schema().max_size(), Some(130));

    let _b = MaxLenBytes::<6>::try_from_array(b"hello").unwrap();
    let b = MaxLenBytes::<5>::try_from_array(b"hello").unwrap();
    assert_eq!(b.as_ref().get(..3), Some(b"hel".as_slice()));
    let x = encode_bytes(b.as_ref());
    let base = encode_bytes(b"hello".as_slice());
    assert_eq!(x, base);
    assert!(MaxLenBytes::<4>::try_from_array(b"hello").is_err());

    let c = MaxLenBytes::<5>::try_from(decode_bytes(&x)).unwrap();
    assert_eq!(b.as_ref(), c.as_ref());
    let c2 = MaxLenByteSlice::<'_, 5>::try_from(decode_bytes(&x)).unwrap();
    assert_eq!(b.as_ref(), c2.as_ref());

    let d = MaxLenBytes::<4>::try_from(decode_bytes(&x));
    assert!(d.is_err());

    assert_eq!(
        MaxLenBytes::<5>::schema(),
        DataModelType::SeqOf { element: Box::new(DataModelType::U8), max_len: Some(5) }
    );
    assert_eq!(MaxLenBytes::<5>::schema(), MaxLenByteSlice::<'_, 5>::schema());

    // Borrowed bytes
    assert_eq!(MaxLenByteSlice::<8>::schema().max_size(), Some(9));
    assert_eq!(MaxLenByteSlice::<127>::schema().max_size(), Some(128));
    assert_eq!(MaxLenByteSlice::<128>::schema().max_size(), Some(130));

    let _b = MaxLenByteSlice::<'_, 6>::try_from(b"hello".as_slice()).unwrap();
    let b = MaxLenByteSlice::<'_, 5>::try_from(b"hello".as_slice()).unwrap();
    assert_eq!(b.as_ref().get(..3), Some(b"hel".as_slice()));
    let x = encode_bytes(b.as_ref());
    assert_eq!(x, base);
    assert!(MaxLenByteSlice::<4>::try_from(b"hello".as_slice()).is_err());

    let c = MaxLenByteSlice::<'_, 5>::try_from(decode_bytes(&x)).unwrap();
    assert!(b == c);

    let d = MaxLenByteSlice::<'_, 4>::try_from(decode_bytes(&x));
    assert!(d.is_err());

    assert_eq!(
        MaxLenByteSlice::<'_, 5>::schema(),
        DataModelType::SeqOf { element: Box::new(DataModelType::U8), max_len: Some(5) }
    );
}
