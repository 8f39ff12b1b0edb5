use berry::edit_diff::{EditDiff, UndoRedo};
use berry::row::Row;
use berry::storage::{join_lines, split_text};
use berry::text_buffer::TextBuffer;

fn lines(buf: &TextBuffer) -> Vec<String> {
    buf.rows().iter().map(|r| r.buffer().to_string()).collect()
}

fn type_text(buf: &mut TextBuffer, text: &str) {
    for c in text.chars() {
        buf.insert_char(c).unwrap();
        buf.finish_edit();
    }
}

#[test]
fn typing_line_break_typing_and_three_undos() {
    let mut buf = TextBuffer::empty();
    type_text(&mut buf, "ab");
    buf.insert_line();
    buf.finish_edit();
    type_text(&mut buf, "c");
    assert_eq!(lines(&buf), vec!["ab", "c"]);
    assert_eq!(buf.cursor(), (1, 1));

    assert!(buf.undo());
    buf.finish_edit();
    assert_eq!(lines(&buf), vec!["ab", ""]);
    assert_eq!(buf.cursor(), (0, 1));

    assert!(buf.undo());
    buf.finish_edit();
    assert_eq!(lines(&buf), vec!["ab"]);
    assert_eq!(buf.cursor(), (2, 0));

    assert!(buf.undo());
    buf.finish_edit();
    assert_eq!(lines(&buf), vec![""]);
    assert_eq!(buf.cursor(), (0, 0));

    assert!(!buf.undo());
}

#[test]
fn delete_left_at_column_zero_joins_lines() {
    let mut buf = TextBuffer::open("f.txt".to_string(), Some("ab\ncd\n")).unwrap();
    assert_eq!(lines(&buf), vec!["ab", "cd"]);
    buf.set_cursor(0, 1);
    buf.delete_char();
    buf.finish_edit();
    assert_eq!(lines(&buf), vec!["abcd"]);
    assert_eq!(buf.cursor(), (2, 0));
    assert!(buf.undo());
    assert_eq!(lines(&buf), vec!["ab", "cd"]);
    assert_eq!(buf.cursor(), (0, 1));
}

#[test]
fn save_without_file_writes_nothing() {
    let mut buf = TextBuffer::empty();
    type_text(&mut buf, "x");
    assert!(buf.save().is_none());
    assert!(!buf.has_file());
    assert_eq!(buf.filename(), "[No Name]");
    assert_eq!(lines(&buf), vec!["x"]);
}

#[test]
fn typed_characters_undo_as_one_step() {
    let mut buf = TextBuffer::empty();
    type_text(&mut buf, "hello, world");
    assert_eq!(lines(&buf), vec!["hello, world"]);
    assert!(buf.undo());
    assert_eq!(lines(&buf), vec![""]);
    assert_eq!(buf.cursor(), (0, 0));
    assert!(!buf.undo());
    assert!(buf.redo());
    assert_eq!(lines(&buf), vec!["hello, world"]);
    assert_eq!(buf.cursor(), (12, 0));
}

#[test]
fn line_join_after_typing_undoes_alone() {
    let mut buf = TextBuffer::open("f".to_string(), Some("ab\ncd\n")).unwrap();
    buf.set_cursor(0, 1);
    type_text(&mut buf, "xy");
    assert_eq!(lines(&buf), vec!["ab", "xycd"]);
    buf.set_cursor(0, 1);
    buf.delete_char();
    buf.finish_edit();
    assert_eq!(lines(&buf), vec!["abxycd"]);
    assert!(buf.undo());
    buf.finish_edit();
    assert_eq!(lines(&buf), vec!["ab", "xycd"]);
    assert!(buf.undo());
    buf.finish_edit();
    assert_eq!(lines(&buf), vec!["ab", "cd"]);
}

#[test]
fn save_after_typing_closes_the_typing() {
    let mut buf = TextBuffer::open("f".to_string(), None).unwrap();
    type_text(&mut buf, "ab");
    let write = buf.save().unwrap();
    assert_eq!(write.path, "f");
    assert_eq!(write.text, "ab\n");
    assert_eq!(buf.save_done(3), "3 bytes written to f");
    buf.finish_edit();
    assert!(!buf.modified());
    type_text(&mut buf, "c");
    assert!(buf.modified());
    assert!(buf.undo());
    assert_eq!(lines(&buf), vec!["ab"]);
    assert!(!buf.modified());
    assert!(buf.undo());
    assert_eq!(lines(&buf), vec![""]);
    assert!(buf.modified());
}

#[test]
fn undo_and_redo_with_nothing_to_do_change_nothing() {
    let mut buf = TextBuffer::open("f".to_string(), Some("ab\n")).unwrap();
    buf.set_cursor(1, 0);
    assert_eq!(buf.finish_edit(), Some(0));
    assert!(!buf.undo());
    assert!(!buf.redo());
    assert_eq!(lines(&buf), vec!["ab"]);
    assert_eq!(buf.cursor(), (1, 0));
    assert_eq!(buf.finish_edit(), None);
    assert!(!buf.modified());
}

#[test]
fn written_text_reads_back_as_the_same_lines() {
    let rows = vec![
        Row::new("first".to_string()).unwrap(),
        Row::new("".to_string()).unwrap(),
        Row::new("tab\there".to_string()).unwrap(),
        Row::new("日本語".to_string()).unwrap(),
    ];
    let text = join_lines(&rows);
    assert_eq!(text, "first\n\ntab\there\n日本語\n");
    assert_eq!(split_text(&text), vec!["first", "", "tab\there", "日本語"]);
    let buf = TextBuffer::open("f".to_string(), Some(&text)).unwrap();
    assert_eq!(lines(&buf), vec!["first", "", "tab\there", "日本語"]);
}

#[test]
fn every_edit_is_undone_by_its_other_direction() {
    let start = || {
        vec![
            Row::new("ab".to_string()).unwrap(),
            Row::new("cdé".to_string()).unwrap(),
        ]
    };
    let content = |rows: &Vec<Row>| -> Vec<String> {
        rows.iter().map(|r| r.buffer().to_string()).collect()
    };
    let ops = vec![
        EditDiff::InsertChar(1, 1, 'x'),
        EditDiff::DeleteChar(3, 1, 'é'),
        EditDiff::Append(0, "zz".to_string()),
        EditDiff::Truncate(1, "dé".to_string()),
        EditDiff::Newline,
        EditDiff::InsertLine(1, "new".to_string()),
        EditDiff::DeleteLine(1, "cdé".to_string()),
    ];
    for op in ops.iter() {
        let mut rows = start();
        op.apply(&mut rows, UndoRedo::Redo);
        assert_ne!(content(&rows), vec!["ab", "cdé"]);
        op.apply(&mut rows, UndoRedo::Undo);
        assert_eq!(content(&rows), vec!["ab", "cdé"]);
    }
}
