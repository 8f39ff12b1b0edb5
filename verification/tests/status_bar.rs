use berry::status_bar::StatusBar;
use berry::text_buffer::TextBuffer;

fn bar() -> StatusBar {
    StatusBar {
        modified: false,
        filename: "a.txt".to_string(),
        buf_pos: (1, 2),
        line_pos: (3, 40),
        redraw: false,
    }
}

#[test]
fn left_and_right_parts() {
    let mut b = bar();
    assert_eq!(b.left(), "\"a.txt\" - 1/2 ");
    assert_eq!(b.right(), "3/40");
    b.modified = true;
    assert_eq!(b.left(), "\"a.txt\" - 1/2 (modified) ");
    b.filename = "a-very-long-file-name.txt".to_string();
    assert_eq!(b.left(), "\"a-very-long-file-name.txt\" - 1/2 (modified) ");
    b.filename = "tab\there".to_string();
    assert_eq!(b.left(), "\"tab\\there\" - 1/2 (modified) ");
    b.filename = "日本".to_string();
    assert_eq!(b.left(), "\"日本\" - 1/2 (modified) ");
    assert_eq!(
        b.left(),
        format!("{:<20?} - {}/{} {}", b.filename, 1, 2, "(modified) ")
    );
}

#[test]
fn left_part_for_a_given_name() {
    let b = bar();
    assert_eq!(b.left_with("x".to_string()), "x - 1/2 ");
    assert_eq!(b.left_with("".to_string()), " - 1/2 ");
}

#[test]
fn setters_ask_for_a_redraw_on_change() {
    let mut b = bar();
    b.set_modified(false);
    b.set_filename("a.txt");
    b.set_buf_pos((1, 2));
    b.set_line_pos((3, 40));
    assert!(!b.redraw);
    b.set_modified(true);
    assert!(b.redraw && b.modified);
    b.redraw = false;
    b.set_filename("b.txt");
    assert!(b.redraw);
    assert_eq!(b.filename, "b.txt");
    b.redraw = false;
    b.set_buf_pos((2, 2));
    assert!(b.redraw);
    assert_eq!(b.buf_pos, (2, 2));
    b.redraw = false;
    b.set_line_pos((3, 41));
    assert!(b.redraw);
    assert_eq!(b.line_pos, (3, 41));
}

#[test]
fn from_buffer_and_update() {
    let mut buf = TextBuffer::open("f.rs".to_string(), Some("a\nb\nc\n")).unwrap();
    let mut b = StatusBar::from_buffer(&buf, (1, 1));
    assert_eq!(b.filename, "f.rs");
    assert!(!b.modified);
    assert_eq!(b.buf_pos, (1, 1));
    assert_eq!(b.line_pos, (1, 3));
    assert!(!b.redraw);
    b.update_from_buf(&buf);
    assert!(!b.redraw);
    buf.set_cursor(0, 2);
    buf.insert_char('x').unwrap();
    b.update_from_buf(&buf);
    assert!(b.redraw);
    assert!(b.modified);
    assert_eq!(b.line_pos, (3, 3));
}
