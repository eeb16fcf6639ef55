use crates_io_lsp::text::{
    apply_change, apply_changes, offset_to_pos, pos_to_offset, EditError, Position, Range,
    TextChange,
};

fn pos(line: usize, character: usize) -> Position {
    Position { line, character }
}

fn ranged(start: Position, end: Position, text: &str) -> TextChange {
    TextChange { range: Some(Range { start, end }), text: text.as_bytes().to_vec() }
}

#[test]
fn pos_to_offset_finds_line_starts() {
    let t = b"ab\ncd\n".to_vec();
    assert_eq!(pos_to_offset(&t, pos(0, 0)), Some(0));
    assert_eq!(pos_to_offset(&t, pos(0, 2)), Some(2));
    assert_eq!(pos_to_offset(&t, pos(1, 1)), Some(4));
    assert_eq!(pos_to_offset(&t, pos(2, 0)), Some(6));
}

#[test]
fn pos_to_offset_rejects_positions_outside_the_text() {
    let t = b"ab\ncd".to_vec();
    assert_eq!(pos_to_offset(&t, pos(0, 3)), None);
    assert_eq!(pos_to_offset(&t, pos(2, 0)), None);
}

#[test]
fn offset_to_pos_after_newline_is_next_line() {
    let t = b"ab\ncd\n".to_vec();
    assert_eq!(offset_to_pos(&t, 3), Some(pos(1, 0)));
    assert_eq!(offset_to_pos(&t, 6), Some(pos(2, 0)));
    assert_eq!(offset_to_pos(&t, 5), Some(pos(1, 2)));
    assert_eq!(offset_to_pos(&t, 7), None);
}

#[test]
fn position_round_trip() {
    let t = b"[dependencies]\nserde = \"1\"\n\ntoml = \"0.9\"".to_vec();
    for o in 0..=t.len() {
        let p = offset_to_pos(&t, o).unwrap();
        assert_eq!(pos_to_offset(&t, p), Some(o));
    }
}

#[test]
fn ranged_edits_match_full_replacement() {
    let mut t = b"serde = \"1\"\ntoml = \"0.8\"\n".to_vec();
    let changes = vec![
        ranged(pos(1, 8), pos(1, 11), "0.9"),
        ranged(pos(0, 10), pos(0, 10), ".0"),
        ranged(pos(2, 0), pos(2, 0), "clap = \"4\"\n"),
    ];
    assert_eq!(apply_changes(&mut t, &changes), Ok(()));
    let expected = b"serde = \"1.0\"\ntoml = \"0.9\"\nclap = \"4\"\n".to_vec();
    assert_eq!(t, expected);
    let mut u = b"serde = \"1\"\ntoml = \"0.8\"\n".to_vec();
    let full = vec![TextChange { range: None, text: expected.clone() }];
    assert_eq!(apply_changes(&mut u, &full), Ok(()));
    assert_eq!(u, t);
}

#[test]
fn multi_line_deletion() {
    let t = b"a\nbc\nd".to_vec();
    let r = apply_change(&t, &ranged(pos(0, 1), pos(2, 0), "")).unwrap();
    assert_eq!(r, b"ad".to_vec());
}

#[test]
fn edit_errors_leave_text_unchanged() {
    let mut t = b"abc".to_vec();
    let bad = vec![ranged(pos(0, 1), pos(0, 2), "X"), ranged(pos(3, 0), pos(3, 0), "Y")];
    assert_eq!(apply_changes(&mut t, &bad), Err(EditError::PositionOutOfRange));
    assert_eq!(t, b"abc".to_vec());
    let inverted = vec![ranged(pos(0, 2), pos(0, 1), "Z")];
    assert_eq!(apply_changes(&mut t, &inverted), Err(EditError::InvertedRange));
    assert_eq!(t, b"abc".to_vec());
}

#[test]
fn columns_count_utf16_units() {
    // "é" is two bytes and one unit; "😀" is four bytes and two units.
    let t = "aé😀b\nx".as_bytes().to_vec();
    assert_eq!(offset_to_pos(&t, 1), Some(pos(0, 1)));
    assert_eq!(offset_to_pos(&t, 3), Some(pos(0, 2)));
    assert_eq!(offset_to_pos(&t, 7), Some(pos(0, 4)));
    assert_eq!(offset_to_pos(&t, 8), Some(pos(0, 5)));
    assert_eq!(offset_to_pos(&t, 2), None);
    assert_eq!(offset_to_pos(&t, 5), None);
    assert_eq!(pos_to_offset(&t, pos(0, 4)), Some(7));
    assert_eq!(pos_to_offset(&t, pos(0, 3)), None);
    assert_eq!(pos_to_offset(&t, pos(1, 1)), Some(10));
}

#[test]
fn edit_after_multibyte_characters() {
    let t = "é = \"1\"".as_bytes().to_vec();
    let r = apply_change(&t, &ranged(pos(0, 5), pos(0, 6), "2")).unwrap();
    assert_eq!(r, "é = \"2\"".as_bytes().to_vec());
}
