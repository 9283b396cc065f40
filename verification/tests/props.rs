use less2::controller::Controller;
use less2::error::Error;
use less2::input::{Command, CommandLine, UserInput};
use less2::reader::{BiBufReader, ByteSource, InputReader, InputType, ValidReader};
use less2::searcher::{search_data, search_offsets, MatchSpan};

fn navigator(data: &[u8], wrap: bool, w: u16, h: u16) -> BiBufReader {
    let source = ByteSource::new(data.to_vec());
    BiBufReader::new(
        ValidReader::new(InputReader::new(InputType::Stdin(source))),
        wrap,
        w,
        h,
    )
}

fn controller(data: &[u8], w: u16, h: u16) -> Controller {
    let source = ByteSource::new(data.to_vec());
    Controller::new(InputReader::new(InputType::Stdin(source)), false, w, h)
}

fn foo_stream() -> Vec<u8> {
    // exactly three occurrences of "foo", at byte offsets 10, 50 and 90
    let mut data = vec![b'x'; 100];
    for (i, pos) in [10usize, 50, 90].iter().enumerate() {
        let _ = i;
        data[*pos] = b'f';
        data[pos + 1] = b'o';
        data[pos + 2] = b'o';
    }
    data[30] = b'\n';
    data[70] = b'\n';
    data
}

#[test]
fn down_then_up_round_trip() {
    // moving down one line and back up one line returns to the same offset
    let mut nav = navigator(b"hello\nworld\nmore text\nlast\n", false, 80, 24);
    nav.down_n_lines(1).unwrap();
    assert_eq!(nav.current_offset(), 6);
    nav.down_n_lines(1).unwrap();
    assert_eq!(nav.current_offset(), 12);
    nav.up_n_lines(1).unwrap();
    assert_eq!(nav.current_offset(), 6);
}

#[test]
fn jump_percentage_zero_lands_at_start() {
    let mut nav = navigator(b"aaa\nbbb\nccc", false, 80, 24);
    nav.down_n_lines(1).unwrap();
    assert_ne!(nav.current_offset(), 0);
    nav.jump_percentage(0).unwrap();
    assert_eq!(nav.current_offset(), 0);
}

#[test]
fn jump_end_not_before_ninety_nine_percent() {
    // with a two-row screen, the end jump lands at the last line's start,
    // which is never before where a 99 percent jump lands
    let mut nav = navigator(b"aaa\nbbb\nccc", false, 80, 2);
    nav.jump_percentage(99).unwrap();
    let at99 = nav.current_offset();
    nav.jump_percentage(100).unwrap();
    nav.jump_end().unwrap();
    assert!(nav.current_offset() >= at99);
    assert_eq!(nav.current_offset(), 8);
    assert_eq!(at99, 4);
}

#[test]
fn three_matches_forward_and_back() {
    let data = foo_stream();
    let mut c = controller(&data, 80, 24);
    for k in ['/', 'f', 'o', 'o', '\n'] {
        c.update(&UserInput::Char(k)).unwrap();
    }
    assert_eq!(c.matches.len(), 3);
    assert_eq!(c.reader.current_offset(), 10);
    c.update(&UserInput::Char('n')).unwrap();
    assert_eq!(c.reader.current_offset(), 50);
    c.update(&UserInput::Char('N')).unwrap();
    assert_eq!(c.reader.current_offset(), 10);
    c.reader.jump_offset(90).unwrap();
    c.update(&UserInput::Char('n')).unwrap();
    assert_eq!(c.reader.current_offset(), 90);
}

#[test]
fn bad_pattern_leaves_cursor_and_clears_matches() {
    let data = foo_stream();
    let mut c = controller(&data, 80, 24);
    for k in ['/', 'f', 'o', 'o', '\n'] {
        c.update(&UserInput::Char(k)).unwrap();
    }
    assert_eq!(c.matches.len(), 3);
    let before = c.reader.current_offset();
    for k in ['/', '(', '\n'] {
        c.update(&UserInput::Char(k)).unwrap();
    }
    assert_eq!(c.matches.len(), 0);
    assert_eq!(c.reader.current_offset(), before);
}

#[test]
fn numeric_prefix_feeds_percent_jump() {
    let mut cl = CommandLine::new();
    assert_eq!(cl.parse_input(&UserInput::Num('3')), Command::NoOp);
    assert_eq!(cl.parse_input(&UserInput::Num('4')), Command::NoOp);
    assert_eq!(cl.parse_input(&UserInput::Char('p')), Command::JumpPercent(34));
    // the prefix buffer is reset afterwards
    assert_eq!(cl.text(), String::from(":"));
    assert_eq!(cl.parse_input(&UserInput::Char('p')), Command::JumpPercent(0));
}

#[test]
fn up_at_start_is_a_no_op() {
    let mut nav = navigator(b"some\ntext\nhere\n", false, 80, 24);
    for n in [1usize, 2, 5, 1000] {
        assert!(nav.up_n_lines(n).is_ok());
        assert_eq!(nav.current_offset(), 0);
    }
}

#[test]
fn search_mode_status_text() {
    let mut cl = CommandLine::new();
    cl.parse_input(&UserInput::Char('/'));
    cl.parse_input(&UserInput::Char('a'));
    cl.parse_input(&UserInput::Num('7'));
    assert_eq!(cl.text(), String::from("/a7"));
    cl.parse_input(&UserInput::Backspace);
    assert_eq!(cl.text(), String::from("/a"));
    cl.parse_input(&UserInput::Ctrl('c'));
    assert_eq!(cl.text(), String::from(":"));
}

#[test]
fn search_data_reports_compile_failure() {
    assert_eq!(search_data(b"anything", "("), Err(Error::SearchError));
    let ms = search_data(&foo_stream(), "foo").unwrap();
    let offsets: Vec<u64> = ms.iter().map(|m| m.0).collect();
    assert_eq!(offsets, vec![10, 50, 90]);
    assert_eq!(ms[0].1, MatchSpan { start: 10, end: 13 });
}

#[test]
fn highlight_offsets_are_page_relative() {
    let ms = search_data(&foo_stream(), "foo").unwrap();
    let hl = search_offsets(0, &ms);
    assert_eq!(hl, vec![10, 11, 12, 50, 51, 52, 90, 91, 92]);
    let later = search_offsets(40, &ms);
    assert_eq!(later, vec![10, 11, 12, 50, 51, 52]);
}

#[test]
fn soft_wrap_breaks_count_as_lines() {
    // six columns of 'a' with width three wrap into two lines
    let mut nav = navigator(b"aaaaaa", true, 3, 24);
    nav.down_n_lines(1).unwrap();
    assert_eq!(nav.current_offset(), 3);
    nav.jump_percentage(0).unwrap();
    nav.down_n_lines(2).unwrap();
    assert_eq!(nav.current_offset(), 6);
}

#[test]
fn error_variants_from_the_edges() {
    let mut nav = navigator(b"", false, 80, 24);
    // no bytes ahead: moving down fails with the generic edge error
    assert_eq!(nav.down_n_lines(1), Err(Error::Other));

    let source = ByteSource::new(b"x".to_vec());
    let mut single = InputReader::new(InputType::Stdin(source));
    assert_eq!(single.next_file(), Err(Error::NoNextFile));
}

#[test]
fn quit_key_sets_the_flag() {
    let mut c = controller(b"bytes\n", 80, 24);
    assert!(!c.quit);
    c.update(&UserInput::Char('q')).unwrap();
    assert!(c.quit);
}
