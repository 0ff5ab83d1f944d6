use amber_lsp::document::{
    apply_changes, encode_tokens, encode_tokens_in_range, error_diagnostics, offset_to_position,
    position_to_offset, ChangeError, ContentChange, Diagnostic, EncodedToken, Position,
};
use amber_lsp::grammar::Span;
use ropey::Rope;

fn pos(line: u32, character: u32) -> Position {
    Position { line, character }
}

fn edit(start: Position, end: Position, text: &str) -> ContentChange {
    ContentChange {
        range: Some((start, end)),
        range_length: None,
        text: text.to_string(),
    }
}

fn whole(text: &str) -> ContentChange {
    ContentChange {
        range: None,
        range_length: None,
        text: text.to_string(),
    }
}

#[test]
fn range_edit_replaces_text() {
    let doc = Rope::from_str("let a = 1\necho a\n");
    let changes = vec![edit(pos(1, 5), pos(1, 6), "value")];
    let out = apply_changes(&doc, &changes).unwrap();
    assert_eq!(out.to_string(), "let a = 1\necho value\n");
}

#[test]
fn edits_apply_in_turn() {
    let doc = Rope::from_str("abc\ndef");
    let changes = vec![
        edit(pos(0, 0), pos(0, 1), "X"),
        edit(pos(1, 0), pos(1, 3), ""),
        edit(pos(0, 3), pos(0, 3), "!"),
    ];
    let out = apply_changes(&doc, &changes).unwrap();
    assert_eq!(out.to_string(), "Xbc!\n");
}

#[test]
fn whole_document_change_wins() {
    let doc = Rope::from_str("old text");
    let changes = vec![
        edit(pos(0, 0), pos(0, 3), "new"),
        whole("first"),
        whole("second"),
    ];
    let out = apply_changes(&doc, &changes).unwrap();
    assert_eq!(out.to_string(), "first");
}

#[test]
fn range_length_is_refused() {
    let doc = Rope::from_str("abc");
    let changes = vec![
        whole("x"),
        ContentChange {
            range: Some((pos(0, 0), pos(0, 1))),
            range_length: Some(1),
            text: String::new(),
        },
    ];
    assert_eq!(apply_changes(&doc, &changes).err(), Some(ChangeError::RangeLength));
}

#[test]
fn edit_past_the_end_is_refused() {
    let doc = Rope::from_str("abc");
    let past_lines = vec![edit(pos(5, 0), pos(5, 1), "x")];
    assert_eq!(apply_changes(&doc, &past_lines).err(), Some(ChangeError::OutOfRange));
    let past_chars = vec![edit(pos(0, 2), pos(0, 9), "x")];
    assert_eq!(apply_changes(&doc, &past_chars).err(), Some(ChangeError::OutOfRange));
    let backwards = vec![edit(pos(0, 2), pos(0, 1), "x")];
    assert_eq!(apply_changes(&doc, &backwards).err(), Some(ChangeError::OutOfRange));
}

#[test]
fn no_changes_keep_the_document() {
    let doc = Rope::from_str("same");
    let out = apply_changes(&doc, &Vec::new()).unwrap();
    assert_eq!(out.to_string(), "same");
}

#[test]
fn offsets_become_positions() {
    let rope = Rope::from_str("ab\ncde\nf");
    assert_eq!(offset_to_position(0, &rope), pos(0, 0));
    assert_eq!(offset_to_position(2, &rope), pos(0, 2));
    assert_eq!(offset_to_position(3, &rope), pos(1, 0));
    assert_eq!(offset_to_position(5, &rope), pos(1, 2));
    assert_eq!(offset_to_position(8, &rope), pos(2, 1));
    // Past the end: the line after the last one, counted from the end.
    assert_eq!(offset_to_position(10, &rope), pos(3, 2));
}

#[test]
fn positions_become_offsets() {
    let rope = Rope::from_str("ab\ncde\nf");
    assert_eq!(position_to_offset(pos(0, 1), &rope), Some(1));
    assert_eq!(position_to_offset(pos(1, 2), &rope), Some(5));
    assert_eq!(position_to_offset(pos(2, 0), &rope), Some(7));
    assert_eq!(position_to_offset(pos(9, 4), &rope), Some(12));
}

#[test]
fn position_round_trip() {
    let rope = Rope::from_str("let x = 1\n\necho x\n");
    for offset in 0..=rope.len_chars() {
        let p = offset_to_position(offset, &rope);
        assert_eq!(position_to_offset(p, &rope), Some(offset));
    }
}

fn token(line: u32, start: u32, length: u32, kind: u32) -> EncodedToken {
    EncodedToken {
        delta_line: line,
        delta_start: start,
        length,
        token_type: kind,
        token_modifiers_bitset: 0,
    }
}

fn sp(start: usize, end: usize) -> Span {
    Span { start, end }
}

#[test]
fn tokens_are_delta_encoded() {
    let rope = Rope::from_str("let a = 1\necho a\n");
    let tokens = vec![(3, sp(0, 3)), (1, sp(4, 5)), (5, sp(10, 14)), (1, sp(15, 16))];
    let data = encode_tokens(&tokens, &rope);
    assert_eq!(
        data,
        vec![token(0, 0, 3, 3), token(0, 4, 1, 1), token(1, 0, 4, 5), token(0, 5, 1, 1)]
    );
}

#[test]
fn tokens_use_char_columns() {
    // "é" takes two bytes, so the byte at 3 is the third char.
    let rope = Rope::from_str("é x");
    let tokens = vec![(2, sp(3, 4))];
    assert_eq!(encode_tokens(&tokens, &rope), vec![token(0, 2, 1, 2)]);
}

#[test]
fn broken_tokens_are_skipped() {
    let rope = Rope::from_str("abc");
    let tokens = vec![(1, sp(2, 1)), (1, sp(50, 51)), (4, sp(1, 2))];
    assert_eq!(encode_tokens(&tokens, &rope), vec![token(0, 1, 1, 4)]);
}

#[test]
fn tokens_outside_the_range_are_skipped() {
    let rope = Rope::from_str("a b\nc d\ne f\n");
    let tokens = vec![
        (0, sp(0, 1)),
        (0, sp(2, 3)),
        (0, sp(4, 5)),
        (0, sp(6, 7)),
        (0, sp(8, 9)),
    ];
    let data = encode_tokens_in_range(&tokens, &rope, (pos(0, 2), pos(1, 0)));
    assert_eq!(data, vec![token(0, 0, 1, 0), token(0, 2, 1, 0), token(1, 0, 1, 0)]);
}

#[test]
fn errors_become_diagnostics() {
    let rope = Rope::from_str("let a\nb = 1\n");
    let errors = vec![
        ("first".to_string(), sp(4, 5)),
        ("second".to_string(), sp(6, 11)),
    ];
    assert_eq!(
        error_diagnostics(&errors, &rope),
        vec![
            Diagnostic { start: pos(0, 4), end: pos(0, 5), message: "first".to_string() },
            Diagnostic { start: pos(1, 0), end: pos(1, 5), message: "second".to_string() },
        ]
    );
}
