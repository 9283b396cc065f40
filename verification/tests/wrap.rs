use less2::string_util::{
    grapheme_count, grapheme_size, is_newline, last_newline_offset, nth_grapheme_offset,
    nth_last_newline_wrapped, nth_newline_wrapped, snd_last_newline_wrapped,
};
use less2::string_util::make_valid;
use less2::util::{nth_last_newline_pos, nth_newline_pos, screen_height_half};

#[test]
fn string_util_test_snd_last_newline_wrapped() {
    let s = b"\n";
    let t = b"";
    let u = b"\naa\n";
    let v = b"aaaaaa";
    assert_eq!(snd_last_newline_wrapped(s, 3), 0);
    assert_eq!(snd_last_newline_wrapped(t, 3), 0);
    assert_eq!(snd_last_newline_wrapped(u, 3), 1);
    assert_eq!(snd_last_newline_wrapped(v, 3), 3);
}

#[test]
fn util_test_snd_last_newline_wrapped() {
    let s = b"\n";
    let t = b"";
    let u = b"\naa\n";
    let v = b"aaaaaa";
    assert_eq!(nth_last_newline_pos(2, s, Some(3)), 0);
    assert_eq!(nth_last_newline_pos(2, t, Some(3)), 0);
    assert_eq!(nth_last_newline_pos(2, u, Some(3)), 1);
    assert_eq!(nth_last_newline_pos(2, v, Some(3)), 3);
}

#[test]
fn string_util_test_nth_newline_wrapped() {
    let s = b"\n";
    let t = b"";
    let u = b"\naa\n";
    let v = b"aaaaaa";
    let x = b"\naaaa\naa\n";
    assert_eq!(nth_newline_wrapped(1, s, 3), 1);
    assert_eq!(nth_newline_wrapped(1, t, 3), 0);
    assert_eq!(nth_newline_wrapped(1, u, 3), 1);
    assert_eq!(nth_newline_wrapped(1, v, 3), 3);
    assert_eq!(nth_newline_wrapped(2, x, 3), 4);
    assert_eq!(nth_newline_wrapped(2, s, 3), 1);
}

#[test]
fn util_test_nth_newline_wrapped() {
    let s = b"\n";
    let t = b"";
    let u = b"\naa\n";
    let v = b"aaaaaa";
    let x = b"\naaaa\naa\n";
    assert_eq!(nth_newline_pos(1, s, Some(3)), 1);
    assert_eq!(nth_newline_pos(1, t, Some(3)), 0);
    assert_eq!(nth_newline_pos(1, u, Some(3)), 1);
    assert_eq!(nth_newline_pos(1, v, Some(3)), 3);
    assert_eq!(nth_newline_pos(2, x, Some(3)), 4);
    assert_eq!(nth_newline_pos(2, s, Some(3)), 1);
}

#[test]
fn test_nth_newline_not_wrapped() {
    let s = b"\n";
    let t = b"";
    let u = b"\naa\n";
    let v = b"aaaaaa";
    let x = b"\naaaa\naa\n";
    assert_eq!(nth_newline_pos(1, s, None), 1);
    assert_eq!(nth_newline_pos(1, t, None), 0);
    assert_eq!(nth_newline_pos(1, u, None), 1);
    assert_eq!(nth_newline_pos(1, v, None), 6);
    assert_eq!(nth_newline_pos(2, x, None), 6);
    assert_eq!(nth_newline_pos(2, s, None), 1);
}

#[test]
fn test_nth_last_newline_wrapped() {
    let s = b"\n";
    let t = b"";
    let u = b"\naa\n";
    let v = b"aaaaaa";
    let w = b"\n\n\n\n\n\n\n\n\n\n";
    assert_eq!(nth_last_newline_wrapped(2, s, 3), 0);
    assert_eq!(nth_last_newline_wrapped(2, t, 3), 0);
    assert_eq!(nth_last_newline_wrapped(2, u, 3), 1);
    assert_eq!(nth_last_newline_wrapped(2, v, 3), 3);
    assert_eq!(nth_last_newline_wrapped(10, w, 3), 1);
}

#[test]
fn byte_offset_simple() {
    let s = "Hello!".as_bytes();
    assert_eq!(nth_grapheme_offset(s, 0), Some(0));
    assert_eq!(nth_grapheme_offset(s, 1), Some(1));
    assert_eq!(nth_grapheme_offset(s, 2), Some(2));
    assert_eq!(nth_grapheme_offset(s, 3), Some(3));
    assert_eq!(nth_grapheme_offset(s, 4), Some(4));
    assert_eq!(nth_grapheme_offset(s, 5), Some(5));
    assert_eq!(nth_grapheme_offset(s, 6), None);
}

#[test]
fn byte_offset_strange() {
    let n = "e\u{301}a";
    let m = "\u{e9}a";
    assert_eq!(n.len(), m.len() + 1);
    assert_eq!(nth_grapheme_offset(n.as_bytes(), 1), Some(n.len() - 1));
    assert_eq!(nth_grapheme_offset(m.as_bytes(), 1), Some(m.len() - 1));
}

#[test]
fn test_last_newline_offset() {
    let s = b"a\na";
    let t = b"\naa";
    let u = b"\naa\n";
    let v = b"aa";
    assert_eq!(last_newline_offset(s), Some(2));
    assert_eq!(last_newline_offset(t), Some(1));
    assert_eq!(last_newline_offset(u), Some(4));
    assert_eq!(last_newline_offset(v), None);
}

#[test]
fn newline_grapheme_checks() {
    assert!(is_newline(b"\n"));
    assert!(is_newline(b"\r\n"));
    assert!(!is_newline(b"a"));
    assert!(!is_newline(b"ab"));
    assert_eq!(grapheme_size(b"\r\n"), 2);
    assert_eq!(grapheme_count("éa".as_bytes()), 2);
}

#[test]
fn make_valid_trims_cut_head() {
    let s = "พระ";
    let b = s.as_bytes();
    let cut = b[1..].to_vec();
    let fixed = make_valid(cut);
    assert_eq!(&fixed[..], &b[3..]);
    let fine = make_valid(b.to_vec());
    assert_eq!(&fine[..], b);
}

#[test]
fn half_screen_rows_formula() {
    assert_eq!(screen_height_half(1), 0);
    assert_eq!(screen_height_half(2), 0);
    assert_eq!(screen_height_half(23), 11);
    assert_eq!(screen_height_half(24), 11);
}
