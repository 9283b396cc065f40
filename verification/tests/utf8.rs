use less2::utf8_validation::{first_valid_pos, run_utf8_validation};

#[test]
fn test_first_valid_pos() {
    let s = "พระปกเกศกองบู๊กู้ขึ้นใหม่สิบสองกษัตริย์ก่อนหน้";
    let b = s.as_bytes();
    assert_eq!(first_valid_pos(b), Some(0));
    assert_eq!(first_valid_pos(&b[1..]), Some(2));
    assert_eq!(first_valid_pos(&b[1..129]), Some(2));
    assert_eq!(first_valid_pos(&b[3..129]), Some(0));
    assert_eq!(first_valid_pos(&b[b.len() - 1..]), None);
    assert_eq!(first_valid_pos(&b[0..0]), Some(0));
    assert_eq!(first_valid_pos(&b[0..1]), None);
}

#[test]
fn test_utf8_validation() {
    let s = "พระปกเกศกองบู๊กู้ขึ้นใหม่สิบสองกษัตริย์ก่อนหน้";
    let b = s.as_bytes();
    assert_eq!(run_utf8_validation(b), Ok(()));
    assert!(run_utf8_validation(&b[1..]).is_err());
    assert_eq!(run_utf8_validation(&b[3..129]), Ok(()));
}

#[test]
fn validation_reports_prefix_and_error_len() {
    // a valid 'a', then a bare continuation byte
    let b: Vec<u8> = vec![0x61, 0x80, 0x62];
    let e = run_utf8_validation(&b).unwrap_err();
    assert_eq!(e.valid_up_to, 1);
    assert_eq!(e.error_len, Some(1));

    // a cut three-byte character at the end of the input
    let b2: Vec<u8> = vec![0x61, 0xE0, 0xA0];
    let e2 = run_utf8_validation(&b2).unwrap_err();
    assert_eq!(e2.valid_up_to, 1);
    assert_eq!(e2.error_len, None);

    // an overlong two-byte encoding
    let b3: Vec<u8> = vec![0xC0, 0x80];
    let e3 = run_utf8_validation(&b3).unwrap_err();
    assert_eq!(e3.valid_up_to, 0);
    assert_eq!(e3.error_len, Some(1));

    // a surrogate encoding
    let b4: Vec<u8> = vec![0xED, 0xA0, 0x80];
    let e4 = run_utf8_validation(&b4).unwrap_err();
    assert_eq!(e4.valid_up_to, 0);
    assert_eq!(e4.error_len, Some(1));
}
