use swcc::lsp::modern::{apply_change, offset_at_position, Position, Range};

#[test]
fn positions_use_utf16_and_incremental_changes() {
    let mut text = "const name = \"中\";\n".to_string();
    assert_eq!(
        offset_at_position(
            &text,
            &Position {
                line: 0,
                character: 15
            }
        ),
        Some(17)
    );
    apply_change(
        &mut text,
        &Range {
            start: Position {
                line: 0,
                character: 14,
            },
            end: Position {
                line: 0,
                character: 15,
            },
        },
        "文",
    );
    assert_eq!(text, "const name = \"文\";\n");
}

#[test]
fn changes_replace_the_bytes_between_their_offsets() {
    let t0 = "a😀b\n中x".to_string();
    let range = Range { start: Position { line: 0, character: 1 }, end: Position { line: 1, character: 1 } };
    let x = offset_at_position(&t0, &range.start).unwrap();
    let y = offset_at_position(&t0, &range.end).unwrap();
    let mut text = t0.clone();
    apply_change(&mut text, &range, "é");
    assert_eq!(text, format!("{}{}{}", &t0[..x], "é", &t0[y..]));
    assert_eq!(text, "aéx");
    let backwards = Range { start: range.end, end: range.start };
    let mut same = t0.clone();
    apply_change(&mut same, &backwards, "zz");
    assert_eq!(same, t0);
}
