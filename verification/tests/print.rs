use kfs::print::{slice_to_str, u32_to_base};

#[test]
fn test_normal_functionality_base_16_ff() {
    let num = 255u32;

    let res = match u32_to_base(num, 16) {
        Ok((len, buf)) => (len, buf),
        _ => ([0u8; 33], 0),
    };

    let result_slice = &res.0[33 - res.1..];

    let result_str = core::str::from_utf8(result_slice).unwrap();

    assert_eq!(result_str, "FF");
}

#[test]
fn test_normal_functionality_base_16_ffff() {
    let num = 65535u32;

    let res = match u32_to_base(num, 16) {
        Ok((len, buf)) => (len, buf),
        _ => ([0u8; 33], 0),
    };

    let result_slice = &res.0[33 - res.1..];

    let result_str = core::str::from_utf8(result_slice).unwrap();

    assert_eq!(result_str, "FFFF");
}

#[test]
fn test_normal_functionality_base_16_ffffff() {
    let num = 16777215u32;

    let res = match u32_to_base(num, 16) {
        Ok((len, buf)) => (len, buf),
        _ => ([0u8; 33], 0),
    };

    let result_slice = &res.0[33 - res.1..];

    let result_str = core::str::from_utf8(result_slice).unwrap();

    assert_eq!(result_str, "FFFFFF");
}

#[test]
fn test_normal_functionality_base_16_ffffffff() {
    let num = 4294967295u32;

    let res = match u32_to_base(num, 16) {
        Ok((len, buf)) => (len, buf),
        _ => ([0u8; 33], 0),
    };

    let result_slice = &res.0[33 - res.1..];

    let result_str = core::str::from_utf8(result_slice).unwrap();

    assert_eq!(result_str, "FFFFFFFF");
}

#[test]
fn u32_to_base_zero_is_single_digit() {
    let (buf, len) = u32_to_base(0, 10).unwrap();
    assert_eq!(len, 1);
    assert_eq!(&buf[32..], b"0");
}

#[test]
fn u32_to_base_binary_uses_32_digits() {
    let (buf, len) = u32_to_base(u32::MAX, 2).unwrap();
    assert_eq!(len, 32);
    assert!(buf[1..].iter().all(|b| *b == b'1'));
    assert_eq!(buf[0], 0);
}

#[test]
fn u32_to_base_decimal() {
    let (buf, len) = u32_to_base(1234509, 10).unwrap();
    assert_eq!(&buf[33 - len..], b"1234509");
}

#[test]
fn u32_to_base_rejects_bad_bases() {
    assert!(u32_to_base(5, 1).is_err());
    assert!(u32_to_base(5, 17).is_err());
    assert!(u32_to_base(5, 0).is_err());
}

#[test]
fn digits_read_back_as_text() {
    let (buf, len) = u32_to_base(255, 16).unwrap();
    assert_eq!(slice_to_str(&buf, len).unwrap(), "FF");
    let (buf, len) = u32_to_base(0, 2).unwrap();
    assert_eq!(slice_to_str(&buf, len).unwrap(), "0");
    assert_eq!(slice_to_str(&buf, 0).unwrap(), "");
    let mut bad = [0u8; 33];
    bad[32] = 0xFF;
    assert!(slice_to_str(&bad, 1).is_err());
}
