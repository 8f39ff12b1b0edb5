use berry::document::CursorDir;
use berry::error::Error;
use berry::text_buffer::{save_failure, CursorLine, FilePath, SaveStep, TextBuffer};

fn lines(buf: &TextBuffer) -> Vec<String> {
    buf.rows().iter().map(|r| r.buffer().to_string()).collect()
}

fn open(text: &str) -> TextBuffer {
    TextBuffer::open("file.txt".to_string(), Some(text)).unwrap()
}

#[test]
fn empty_buffer_is_one_empty_line() {
    let mut buf = TextBuffer::empty();
    assert_eq!(lines(&buf), vec![""]);
    assert_eq!(buf.cursor(), (0, 0));
    assert_eq!(buf.cy(), 0);
    assert!(!buf.has_file());
    assert!(!buf.modified());
    assert!(buf.is_scratch());
    assert_eq!(buf.filename(), "[No Name]");
    assert_eq!(buf.finish_edit(), Some(0));
    assert_eq!(buf.finish_edit(), None);
}

#[test]
fn open_without_a_file_is_empty_and_bound() {
    let buf = TextBuffer::open("new.txt".to_string(), None).unwrap();
    assert_eq!(lines(&buf), vec![""]);
    assert!(buf.has_file());
    assert_eq!(buf.filename(), "new.txt");
    assert!(!buf.is_scratch());
    assert!(!buf.modified());
}

#[test]
fn open_reads_each_line() {
    assert_eq!(lines(&open("a\nb\n")), vec!["a", "b"]);
    assert_eq!(lines(&open("a\nb")), vec!["a", "b"]);
    assert_eq!(lines(&open("a\n\nb\n")), vec!["a", "", "b"]);
    assert_eq!(lines(&open("\n")), vec![""]);
    assert_eq!(lines(&open("a\r\nb\r\n")), vec!["a", "b"]);
    assert_eq!(lines(&open("")), vec![""]);
}

#[test]
fn open_refuses_control_characters() {
    assert!(matches!(
        TextBuffer::open("f".to_string(), Some("ok\nb\u{8}d\n\u{1}\n")),
        Err(Error::ControlCharInText('\u{8}'))
    ));
    assert!(matches!(
        TextBuffer::open("f".to_string(), Some("a\rb\n")),
        Err(Error::ControlCharInText('\r'))
    ));
}

#[test]
fn file_is_bound_and_unbound() {
    let mut buf = TextBuffer::empty();
    buf.set_file("dir/name.rs".to_string());
    assert!(buf.has_file());
    assert_eq!(buf.filename(), "dir/name.rs");
    assert!(!buf.is_scratch());
    buf.set_unnamed();
    assert!(!buf.has_file());
    assert!(buf.is_scratch());
    let f = FilePath::from_string("x".to_string());
    assert_eq!(f.path, "x");
    assert_eq!(f.display, "x");
}

#[test]
fn insert_char_past_the_last_line_adds_a_line() {
    let mut buf = open("ab\n");
    buf.move_cursor_one(CursorDir::Down);
    assert_eq!(buf.cursor(), (0, 1));
    buf.insert_char('c').unwrap();
    assert_eq!(lines(&buf), vec!["ab", "c"]);
    assert_eq!(buf.cursor(), (1, 1));
    assert!(buf.undo());
    assert_eq!(lines(&buf), vec!["ab"]);
    assert_eq!(buf.cursor(), (0, 1));
}

#[test]
fn insert_char_refuses_control_characters() {
    let mut buf = open("ab\n");
    buf.finish_edit();
    assert!(matches!(
        buf.insert_char('\u{1b}'),
        Err(Error::ControlCharInText('\u{1b}'))
    ));
    assert_eq!(lines(&buf), vec!["ab"]);
    assert_eq!(buf.cursor(), (0, 0));
    assert!(!buf.modified());
    assert_eq!(buf.finish_edit(), None);
    assert!(!buf.undo());
}

#[test]
fn delete_char_at_the_start_does_nothing() {
    let mut buf = open("ab\n");
    buf.finish_edit();
    buf.delete_char();
    assert_eq!(lines(&buf), vec!["ab"]);
    assert_eq!(buf.finish_edit(), None);
    assert!(!buf.undo());
}

#[test]
fn delete_char_past_the_last_line_does_nothing() {
    let mut buf = open("ab\n");
    buf.set_cursor(0, 1);
    buf.delete_char();
    assert_eq!(lines(&buf), vec!["ab"]);
    assert_eq!(buf.cursor(), (0, 1));
}

#[test]
fn delete_char_takes_the_character_before_the_cursor() {
    let mut buf = open("a日c\n");
    buf.set_cursor(2, 0);
    buf.delete_char();
    assert_eq!(lines(&buf), vec!["ac"]);
    assert_eq!(buf.cursor(), (1, 0));
    assert!(buf.undo());
    assert_eq!(lines(&buf), vec!["a日c"]);
    assert_eq!(buf.cursor(), (2, 0));
}

#[test]
fn each_deletion_is_its_own_undo_step() {
    let mut buf = open("abc\n");
    buf.set_cursor(3, 0);
    buf.delete_char();
    buf.finish_edit();
    buf.delete_char();
    buf.finish_edit();
    assert_eq!(lines(&buf), vec!["a"]);
    assert!(buf.undo());
    assert_eq!(lines(&buf), vec!["ab"]);
    assert!(buf.undo());
    assert_eq!(lines(&buf), vec!["abc"]);
    assert!(!buf.undo());
}

#[test]
fn delete_right_char() {
    let mut buf = open("ab\ncd\n");
    buf.delete_right_char();
    assert_eq!(lines(&buf), vec!["b", "cd"]);
    assert_eq!(buf.cursor(), (0, 0));
    buf.finish_edit();
    buf.set_cursor(1, 0);
    buf.delete_right_char();
    assert_eq!(lines(&buf), vec!["bcd"]);
    assert_eq!(buf.cursor(), (1, 0));
    buf.finish_edit();
    buf.set_cursor(3, 0);
    buf.delete_right_char();
    assert_eq!(lines(&buf), vec!["bcd"]);
    buf.set_cursor(0, 1);
    buf.delete_right_char();
    assert_eq!(lines(&buf), vec!["bcd"]);
    assert_eq!(buf.cursor(), (0, 1));
}

#[test]
fn insert_line_in_the_middle_of_a_line() {
    let mut buf = open("ab日d\n");
    buf.set_cursor(2, 0);
    buf.insert_line();
    assert_eq!(lines(&buf), vec!["ab", "日d"]);
    assert_eq!(buf.cursor(), (0, 1));
    assert!(buf.undo());
    assert_eq!(lines(&buf), vec!["ab日d"]);
    assert_eq!(buf.cursor(), (2, 0));
    assert!(buf.redo());
    assert_eq!(lines(&buf), vec!["ab", "日d"]);
    assert_eq!(buf.cursor(), (0, 1));
}

#[test]
fn insert_line_at_the_end_of_a_line() {
    let mut buf = open("ab\ncd\n");
    buf.set_cursor(2, 0);
    buf.insert_line();
    assert_eq!(lines(&buf), vec!["ab", "", "cd"]);
    assert_eq!(buf.cursor(), (0, 1));
}

#[test]
fn insert_line_at_the_start_of_a_line() {
    let mut buf = open("ab\n");
    buf.insert_line();
    assert_eq!(lines(&buf), vec!["", "ab"]);
    assert_eq!(buf.cursor(), (0, 1));
}

#[test]
fn insert_line_past_the_last_line() {
    let mut buf = open("ab\n");
    buf.set_cursor(0, 1);
    buf.insert_line();
    assert_eq!(lines(&buf), vec!["ab", ""]);
    assert_eq!(buf.cursor(), (0, 1));
    assert!(buf.undo());
    assert_eq!(lines(&buf), vec!["ab"]);
    assert_eq!(buf.cursor(), (0, 1));
}

#[test]
fn cursor_moves_left_and_right_across_lines() {
    let mut buf = open("ab\nc\n");
    buf.move_cursor_one(CursorDir::Left);
    assert_eq!(buf.cursor(), (0, 0));
    buf.move_cursor_one(CursorDir::Right);
    buf.move_cursor_one(CursorDir::Right);
    assert_eq!(buf.cursor(), (2, 0));
    buf.move_cursor_one(CursorDir::Right);
    assert_eq!(buf.cursor(), (0, 1));
    buf.move_cursor_one(CursorDir::Left);
    assert_eq!(buf.cursor(), (2, 0));
    buf.set_cursor(1, 1);
    buf.move_cursor_one(CursorDir::Right);
    assert_eq!(buf.cursor(), (0, 2));
    buf.move_cursor_one(CursorDir::Right);
    assert_eq!(buf.cursor(), (0, 2));
    buf.move_cursor_one(CursorDir::Left);
    assert_eq!(buf.cursor(), (1, 1));
}

#[test]
fn cursor_moves_up_and_down_and_keeps_to_the_line() {
    let mut buf = open("abcd\nc\n");
    buf.set_cursor(4, 0);
    buf.move_cursor_one(CursorDir::Down);
    assert_eq!(buf.cursor(), (1, 1));
    buf.move_cursor_one(CursorDir::Down);
    assert_eq!(buf.cursor(), (0, 2));
    buf.move_cursor_one(CursorDir::Down);
    assert_eq!(buf.cursor(), (0, 2));
    buf.move_cursor_one(CursorDir::Up);
    assert_eq!(buf.cursor(), (0, 1));
    buf.move_cursor_one(CursorDir::Up);
    buf.move_cursor_one(CursorDir::Up);
    assert_eq!(buf.cursor(), (0, 0));
    assert!(!buf.modified());
    assert!(!buf.undo());
}

#[test]
fn dirty_start_is_the_lowest_line_touched() {
    let mut buf = open("ab\ncd\nef\n");
    buf.finish_edit();
    buf.set_cursor(0, 2);
    buf.insert_char('x').unwrap();
    assert_eq!(buf.finish_edit(), Some(2));
    buf.set_cursor(0, 1);
    buf.delete_char();
    assert_eq!(buf.finish_edit(), Some(0));
    buf.move_cursor_one(CursorDir::Left);
    assert_eq!(buf.finish_edit(), None);
    assert!(buf.undo());
    assert_eq!(buf.finish_edit(), Some(0));
}

#[test]
fn unsaved_count_follows_undo_and_redo() {
    let mut buf = open("ab\n");
    assert!(!buf.modified());
    buf.set_cursor(2, 0);
    buf.insert_line();
    buf.finish_edit();
    assert!(buf.modified());
    assert!(buf.undo());
    assert!(!buf.modified());
    assert!(buf.redo());
    assert!(buf.modified());
    assert!(buf.save().is_some());
    buf.save_done(4);
    assert!(!buf.modified());
    assert!(buf.undo());
    assert!(buf.modified());
    assert!(buf.redo());
    assert!(!buf.modified());
}

#[test]
fn save_hands_out_every_line_with_a_line_feed() {
    let mut buf = open("ab\n日本\n");
    buf.set_cursor(0, 2);
    buf.insert_char('z').unwrap();
    let write = buf.save().unwrap();
    assert_eq!(write.path, "file.txt");
    assert_eq!(write.text, "ab\n日本\nz\n");
    assert!(buf.modified());
    assert_eq!(buf.save_done(12), "12 bytes written to file.txt");
    assert!(!buf.modified());
}

#[test]
fn failed_save_keeps_what_is_unsaved() {
    let mut buf = open("ab\n");
    buf.insert_char('z').unwrap();
    buf.finish_edit();
    assert!(buf.save().is_some());
    assert!(buf.modified());
    assert!(buf.has_file());
    assert_eq!(
        save_failure(SaveStep::Create, "denied"),
        "Could not save: denied"
    );
    assert_eq!(
        save_failure(SaveStep::Write, "full"),
        "Could not write to file: full"
    );
    assert_eq!(
        save_failure(SaveStep::Flush, "gone"),
        "Could not flush to file: gone"
    );
}

#[test]
fn cursor_stands_on_a_line_or_past_the_end() {
    let mut buf = open("ab\ncd\n");
    assert_eq!(buf.cursor_line(), CursorLine::OnLine(0));
    buf.set_cursor(1, 1);
    assert_eq!(buf.cursor_line(), CursorLine::OnLine(1));
    buf.move_cursor_one(berry::text_buffer::CursorDir::Down);
    assert_eq!(buf.cursor(), (0, 2));
    assert_eq!(buf.cursor_line(), CursorLine::PastEnd);
}
