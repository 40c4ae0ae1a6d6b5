use wasi_replay::kind::Kind;
use wasi_replay::tape_file::{TapeError, parse_tape, render_tape};
use wasi_replay::text::NumberError;

#[test]
fn tape_text_is_one_line_per_entry() {
    let entries = vec![(Kind::Random, 42), (Kind::Wall, 1787837699250915580), (Kind::Monotonic, 0)];
    assert_eq!(render_tape(&entries), "random 42\nwall 1787837699250915580\nmonotonic 0");
    assert_eq!(render_tape(&vec![]), "");
    assert_eq!(render_tape(&vec![(Kind::Random, u64::MAX)]), "random 18446744073709551615");
}

#[test]
fn saved_tape_loads_back() {
    let entries = vec![
        (Kind::Random, 0),
        (Kind::Random, u64::MAX),
        (Kind::Wall, 1787837699250915580),
        (Kind::Monotonic, 10),
    ];
    assert_eq!(parse_tape(&render_tape(&entries)).unwrap(), entries);
    assert_eq!(parse_tape(&render_tape(&vec![])).unwrap(), vec![]);
}

#[test]
fn blank_lines_and_line_endings_are_skipped() {
    // only a space separates the kind from the value
    let text = "\n  random 1  \r\n\r\nwall\t 2\nmonotonic +3\n";
    match parse_tape(text) {
        Err(TapeError::UnknownKind { text }) => assert_eq!(text, "wall\t"),
        other => panic!("unexpected {:?}", other),
    }
    let text = "\n  random 1  \r\n\r\nwall  2\nmonotonic +3\n";
    assert_eq!(
        parse_tape(text).unwrap(),
        vec![(Kind::Random, 1), (Kind::Wall, 2), (Kind::Monotonic, 3)]
    );
}

#[test]
fn malformed_line_gives_its_number() {
    match parse_tape("random 1\n\nwall") {
        Err(TapeError::Malformed { line, text }) => {
            assert_eq!(line, 3);
            assert_eq!(text, "wall");
        }
        other => panic!("unexpected {:?}", other),
    }
}

#[test]
fn unknown_kind_in_tape() {
    match parse_tape("random 1\nclock 2") {
        Err(TapeError::UnknownKind { text }) => assert_eq!(text, "clock"),
        other => panic!("unexpected {:?}", other),
    }
}

#[test]
fn bad_numbers_in_tape() {
    assert!(matches!(parse_tape("random x"), Err(TapeError::Number(NumberError::InvalidDigit))));
    assert!(matches!(parse_tape("random -1"), Err(TapeError::Number(NumberError::InvalidDigit))));
    assert!(matches!(parse_tape("random +"), Err(TapeError::Number(NumberError::InvalidDigit))));
    assert!(matches!(parse_tape("random  "), Err(TapeError::Malformed { .. })));
    assert!(matches!(
        parse_tape("random 18446744073709551616"),
        Err(TapeError::Number(NumberError::Overflow))
    ));
    // the first refused line decides
    assert!(matches!(
        parse_tape("wall 1x\nclock 2"),
        Err(TapeError::Number(NumberError::InvalidDigit))
    ));
}

#[test]
fn empty_value_after_space() {
    // the value part is empty once trimmed: "random" + " " + "" cannot arise from a trimmed line,
    // but a kind followed by two spaces then a tab-only value can
    assert!(matches!(parse_tape("random \t"), Err(TapeError::Malformed { .. })));
    assert!(matches!(parse_tape("random \u{a0}x"), Err(TapeError::Number(NumberError::InvalidDigit))));
}

#[test]
fn blank_lines_and_padding_do_not_change_a_tape() {
    let plain = parse_tape("random 1\nwall 2").unwrap();
    assert_eq!(parse_tape("\n  random 1\t\n\n wall 2  \n").unwrap(), plain);
    // an error keeps its text when a line is padded; a blank line before it moves its number
    match (parse_tape("random 1\nwall"), parse_tape("random 1\n\n  wall ")) {
        (Err(TapeError::Malformed { line: a, text: t }), Err(TapeError::Malformed { line: b, text: u })) => {
            assert_eq!((a, b), (2, 3));
            assert_eq!(t, u);
        }
        other => panic!("unexpected {:?}", other),
    }
}
