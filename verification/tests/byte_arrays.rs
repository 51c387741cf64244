use sda::byte_arrays::{B32, B64, B8};
use sda::helpers::Binary;

#[test]
fn test_b64_raw() {
    let a = [0u8; 8];
    let a64 = data_encoding::base64::encode(&a);
    assert_eq!("AAAAAAAAAAA=", a64);

    let mut b = [0u8; 8];
    let decode = &a64.as_bytes()[0..data_encoding::base64::encode_nopad_len(8)];
    data_encoding::base64::decode_nopad_mut(decode, &mut b).unwrap();
    assert_eq!(a, b);
}

#[test]
fn test_b64() {
    let a = B8::default();
    assert_eq!("AAAAAAAAAAA=", a.to_base64());
    let clone = B8::from_base64(&*a.to_base64()).unwrap();
    assert_eq!(a, clone);
}

#[test]
fn b32_and_b64_default_texts() {
    assert_eq!(
        "AAAAAAAAAAAAAAAAAAAAAAAAAAAAAAAAAAAAAAAAAAA=",
        B32::default().to_base64()
    );
    assert_eq!(
        "AAAAAAAAAAAAAAAAAAAAAAAAAAAAAAAAAAAAAAAAAAAAAAAAAAAAAAAAAAAAAAAAAAAAAAAAAAAAAAAAAAAAAA==",
        B64::default().to_base64()
    );
}

#[test]
fn byte_arrays_round_trip() {
    let mut bytes = [0u8; 32];
    for (i, b) in bytes.iter_mut().enumerate() {
        *b = (i * 7 + 3) as u8;
    }
    let a = B32(bytes);
    let text = a.to_base64();
    assert_ne!("AAAAAAAAAAAAAAAAAAAAAAAAAAAAAAAAAAAAAAAAAAA=", text);
    assert_eq!(a, B32::from_base64(&text).unwrap());

    let mut wide = [0u8; 64];
    for (i, b) in wide.iter_mut().enumerate() {
        *b = 255 - i as u8;
    }
    let w = B64(wide);
    assert_eq!(w, B64::from_base64(&w.to_base64()).unwrap());

    let small = B8([1, 2, 3, 4, 5, 6, 7, 8]);
    assert_eq!("AQIDBAUGBwg=", small.to_base64());
    assert_eq!(small, B8::from_base64("AQIDBAUGBwg=").unwrap());
}

#[test]
fn byte_arrays_refuse_bad_text() {
    // a character outside the alphabet
    assert!(B8::from_base64("AAAAAAAAA*A=").is_err());
    // the last symbol carries bits beyond the eighth byte
    assert!(B8::from_base64("AAAAAAAAAAB=").is_err());
}

#[test]
fn binary_round_trip() {
    let data = Binary(vec![0, 1, 2, 250, 251, 252]);
    let text = data.to_base64();
    assert_eq!("AAEC+vv8", text);
    assert_eq!(data, Binary::from_base64(&text).unwrap());
    assert_eq!(Binary(vec![]), Binary::from_base64("").unwrap());
}

#[test]
fn binary_refuses_bad_text() {
    let err = Binary::from_base64("AAE").unwrap_err();
    assert!(err.starts_with("Base64 decoding error: "), "{}", err);
    let err = Binary::from_base64("A*==").unwrap_err();
    assert!(err.starts_with("Base64 decoding error: "), "{}", err);
}
