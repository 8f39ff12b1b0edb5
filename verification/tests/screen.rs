use berry::error::Error;
use berry::row::Row;
use berry::screen::{
    push_bytes, push_text, too_small_window, DrawMessage, Screen, StatusMessage,
    StatusMessageKind,
};
use berry::status_bar::StatusBar;

fn bar() -> StatusBar {
    StatusBar {
        modified: false,
        filename: "[No Name]".to_string(),
        buf_pos: (1, 1),
        line_pos: (1, 1),
        redraw: false,
    }
}

fn rows_of(lines: &[&str]) -> Vec<Row> {
    lines.iter().map(|l| Row::new(l.to_string()).unwrap()).collect()
}

fn text(bytes: &[u8]) -> String {
    String::from_utf8(bytes.to_vec()).unwrap()
}

#[test]
fn window_sizes() {
    assert!(too_small_window(0, 24));
    assert!(too_small_window(80, 2));
    assert!(!too_small_window(1, 3));
    assert!(matches!(Screen::new(0, 24), Err(Error::TooSmallWindow(0, 24))));
    assert!(matches!(Screen::new(80, 2), Err(Error::TooSmallWindow(80, 2))));
    let s = Screen::new(80, 24).unwrap();
    assert_eq!(s.cols(), 80);
    assert_eq!(s.rows(), 22);
    assert_eq!(s.num_rows, 22);
    assert_eq!(s.dirty_start, Some(0));
    assert!(s.cursor_moved);
    assert_eq!(s.draw_message, DrawMessage::Open);
    assert_eq!(s.message.as_ref().unwrap().text, "Ctrl-? for help");
    assert_eq!(s.message.as_ref().unwrap().kind, StatusMessageKind::Info);
    let s = Screen::new(1, 3).unwrap();
    assert_eq!((s.cols(), s.rows()), (1, 1));
}

#[test]
fn draw_message_fold() {
    let (open, close, update, nothing) = (
        DrawMessage::Open,
        DrawMessage::Close,
        DrawMessage::Update,
        DrawMessage::DoNothing,
    );
    assert_eq!(open.fold(close), nothing);
    assert_eq!(open.fold(update), open);
    assert_eq!(close.fold(open), update);
    assert_eq!(update.fold(close), close);
    assert_eq!(update.fold(update), update);
    assert_eq!(open.fold(nothing), open);
    assert_eq!(close.fold(nothing), close);
    assert_eq!(update.fold(nothing), update);
    assert_eq!(nothing.fold(nothing), nothing);
    assert_eq!(nothing.fold(open), open);
    assert_eq!(nothing.fold(close), close);
    assert_eq!(nothing.fold(update), update);
}

#[test]
fn messages_change_what_happened_to_the_line() {
    let mut s = Screen::new(80, 24).unwrap();
    s.render_welcome(&bar(), "1");
    assert_eq!(s.draw_message, DrawMessage::DoNothing);
    s.set_info_message("Ctrl-? for help".to_string());
    assert_eq!(s.draw_message, DrawMessage::DoNothing);
    s.set_error_message("oops".to_string());
    assert_eq!(s.draw_message, DrawMessage::Update);
    assert_eq!(s.message.as_ref().unwrap().kind, StatusMessageKind::Error);
    assert_eq!(s.rows(), 22);
    s.unset_message();
    assert_eq!(s.draw_message, DrawMessage::Close);
    assert!(s.message.is_none());
    assert_eq!(s.rows(), 23);
    s.unset_message();
    assert_eq!(s.draw_message, DrawMessage::Close);
    s.set_info_message("again".to_string());
    assert_eq!(s.draw_message, DrawMessage::Update);
    s.render_welcome(&bar(), "1");
    s.unset_message();
    s.set_info_message("back".to_string());
    assert_eq!(s.draw_message, DrawMessage::Update);
    let m = StatusMessage::new("m".to_string(), StatusMessageKind::Info);
    assert_eq!(m.text, "m");
}

#[test]
fn dirty_start_keeps_the_lowest_line() {
    let mut s = Screen::new(80, 24).unwrap();
    s.render_welcome(&bar(), "1");
    assert_eq!(s.dirty_start, None);
    s.set_dirty_start(5);
    assert_eq!(s.dirty_start, Some(5));
    s.set_dirty_start(7);
    assert_eq!(s.dirty_start, Some(5));
    s.set_dirty_start(2);
    assert_eq!(s.dirty_start, Some(2));
}

#[test]
fn resize() {
    let mut s = Screen::new(80, 24).unwrap();
    s.render_welcome(&bar(), "1");
    assert!(matches!(s.maybe_resize(None), Ok(false)));
    assert_eq!(s.dirty_start, None);
    assert!(matches!(s.maybe_resize(Some((100, 40))), Ok(true)));
    assert_eq!((s.cols(), s.rows()), (100, 38));
    assert_eq!(s.dirty_start, Some(0));
    assert!(matches!(
        s.maybe_resize(Some((100, 2))),
        Err(Error::TooSmallWindow(100, 2))
    ));
    assert_eq!((s.cols(), s.rows()), (100, 38));
}

#[test]
fn trim_line_takes_the_columns_that_are_shown() {
    let mut s = Screen::new(5, 10).unwrap();
    assert_eq!(s.trim_line("abcdefgh"), "abcde");
    assert_eq!(s.trim_line("abc"), "abc");
    assert_eq!(s.trim_line(""), "");
    s.coloff = 2;
    assert_eq!(s.trim_line("abcdefgh"), "cdefg");
    assert_eq!(s.trim_line("日本語のテキスト"), "語のテキス");
    assert_eq!(s.trim_line("ab"), "");
    assert_eq!(s.trim_line("a"), "");
    assert_eq!(s.trim_line("abc"), "c");
}

#[test]
fn bytes_are_put_at_the_end() {
    let mut out = vec![1u8];
    push_bytes(&mut out, &[2, 3]);
    push_text(&mut out, "é");
    push_bytes(&mut out, &[]);
    assert_eq!(out, vec![1, 2, 3, 0xc3, 0xa9]);
}

#[test]
fn force_set_cursor_bytes() {
    let s = Screen::new(80, 24).unwrap();
    assert_eq!(text(&s.force_set_cursor(24, 13)), "\x1b[24;13H");
    assert_eq!(text(&s.force_set_cursor(1, 1)), "\x1b[1;1H");
}

#[test]
fn status_bar_bytes() {
    let s = Screen::new(40, 5).unwrap();
    let mut out = Vec::new();
    s.draw_status_bar(&mut out, &bar());
    assert_eq!(
        text(&out),
        format!("\x1b[4H\"[No Name]\" - 1/1 {}1/1", " ".repeat(19))
    );
    let s = Screen::new(20, 5).unwrap();
    let mut out = Vec::new();
    s.draw_status_bar(&mut out, &bar());
    assert_eq!(text(&out), "\x1b[4H\"[No Name]\" - 1/1   ");
    let s = Screen::new(10, 5).unwrap();
    let mut out = Vec::new();
    s.draw_status_bar(&mut out, &bar());
    assert_eq!(text(&out), "\x1b[4H\"[No Name]");
    let s = Screen::new(21, 5).unwrap();
    let mut out = vec![b'>'];
    s.draw_status_bar(&mut out, &bar());
    assert_eq!(text(&out), ">\x1b[4H\"[No Name]\" - 1/1 1/1");
}

#[test]
fn message_bar_bytes() {
    let s = Screen::new(40, 5).unwrap();
    let mut out = Vec::new();
    let m = StatusMessage::new("hello there".to_string(), StatusMessageKind::Info);
    s.draw_message_bar(&mut out, &m);
    assert_eq!(text(&out), "\x1b[5Hhello there\x1b[K");
    let s = Screen::new(5, 5).unwrap();
    let mut out = Vec::new();
    s.draw_message_bar(&mut out, &m);
    assert_eq!(text(&out), "\x1b[5Hhello\x1b[K");
}

#[test]
fn welcome_screen_bytes() {
    let mut s = Screen::new(40, 5).unwrap();
    let out = s.render_welcome(&bar(), "0.1.0");
    let expect = format!(
        "\x1b[?25l\x1b[1H \x1b[K\x1b[2H~{}Berry -- version 0.1.0\x1b[K\x1b[3H~\x1b[K\x1b[4H\"[No Name]\" - 1/1 {}1/1\x1b[5HCtrl-? for help\x1b[K\x1b[H\x1b[?25h",
        " ".repeat(8),
        " ".repeat(19)
    );
    assert_eq!(text(&out), expect);
    assert_eq!(s.dirty_start, None);
    assert!(!s.cursor_moved);
    assert_eq!(s.draw_message, DrawMessage::DoNothing);
}

#[test]
fn welcome_screen_in_a_narrow_window() {
    let mut s = Screen::new(20, 3).unwrap();
    let out = s.render_welcome(&bar(), "0.1.0");
    assert_eq!(
        text(&out),
        "\x1b[?25l\x1b[1HBerry -- version 0.1\x1b[K\x1b[2H\"[No Name]\" - 1/1   \x1b[3HCtrl-? for help\x1b[K\x1b[H\x1b[?25h"
    );
}

#[test]
fn scroll_follows_the_cursor_down_and_up() {
    let lines: Vec<String> = (0..30).map(|i| format!("line {}", i)).collect();
    let refs: Vec<&str> = lines.iter().map(|s| s.as_str()).collect();
    let rows = rows_of(&refs);
    let mut s = Screen::new(20, 12).unwrap();
    s.render_welcome(&bar(), "1");
    assert_eq!(s.rows(), 10);
    s.do_scroll(&rows, (0, 9));
    assert_eq!((s.rowoff, s.coloff, s.rx), (0, 0, 0));
    assert_eq!(s.dirty_start, None);
    s.do_scroll(&rows, (3, 10));
    assert_eq!((s.rowoff, s.coloff, s.rx), (1, 0, 3));
    assert_eq!(s.dirty_start, Some(1));
    s.do_scroll(&rows, (0, 25));
    assert_eq!(s.rowoff, 16);
    assert_eq!(s.dirty_start, Some(1));
    s.do_scroll(&rows, (0, 4));
    assert_eq!(s.rowoff, 4);
    s.do_scroll(&rows, (0, 30));
    assert_eq!((s.rowoff, s.rx), (21, 0));
}

#[test]
fn scroll_follows_the_cursor_sideways() {
    let rows = rows_of(&["0123456789abcdefghij", "\t日本語x"]);
    let mut s = Screen::new(5, 12).unwrap();
    s.render_welcome(&bar(), "1");
    s.do_scroll(&rows, (4, 0));
    assert_eq!((s.coloff, s.rx), (0, 4));
    s.do_scroll(&rows, (5, 0));
    assert_eq!((s.coloff, s.rx), (1, 5));
    s.do_scroll(&rows, (12, 0));
    assert_eq!((s.coloff, s.rx), (8, 12));
    s.do_scroll(&rows, (2, 0));
    assert_eq!((s.coloff, s.rx), (2, 2));
    s.do_scroll(&rows, (4, 1));
    assert_eq!(s.rx, 10);
    assert_eq!(s.coloff, 6);
    s.do_scroll(&rows, (0, 2));
    assert_eq!((s.coloff, s.rx), (0, 0));
}

#[test]
fn rows_are_drawn_from_the_dirty_line_on() {
    let rows = rows_of(&["ab", "c\td", "日本語"]);
    let mut s = Screen::new(4, 6).unwrap();
    assert_eq!(s.rows(), 4);
    let draws = s.draw_rows(0, &rows);
    let got: Vec<(u16, String)> = draws.iter().map(|d| (d.y, text(&d.bytes))).collect();
    assert_eq!(
        got,
        vec![
            (0, "ab\x1b[K".to_string()),
            (1, "c   \x1b[K".to_string()),
            (2, "日本\x1b[K".to_string()),
            (3, "~\x1b[K".to_string()),
        ]
    );
    let draws = s.draw_rows(2, &rows);
    let got: Vec<u16> = draws.iter().map(|d| d.y).collect();
    assert_eq!(got, vec![2, 3]);
    s.rowoff = 1;
    s.coloff = 1;
    let draws = s.draw_rows(0, &rows);
    let got: Vec<(u16, String)> = draws.iter().map(|d| (d.y, text(&d.bytes))).collect();
    assert_eq!(
        got,
        vec![
            (0, "   d\x1b[K".to_string()),
            (1, "日本\x1b[K".to_string()),
            (2, "~\x1b[K".to_string()),
            (3, "~\x1b[K".to_string()),
        ]
    );
    let draws = s.draw_rows(3, &rows);
    let got: Vec<u16> = draws.iter().map(|d| d.y).collect();
    assert_eq!(got, vec![2, 3]);
}

#[test]
fn first_render_draws_everything() {
    let rows = rows_of(&["ab", "cd"]);
    let mut s = Screen::new(10, 5).unwrap();
    let frame = s.render(&rows, (1, 1), &bar());
    assert!(frame.full);
    assert_eq!(frame.cursor, Some((1, 1)));
    let got: Vec<(u16, String)> = frame.rows.iter().map(|d| (d.y, text(&d.bytes))).collect();
    assert_eq!(
        got,
        vec![
            (0, "ab\x1b[K".to_string()),
            (1, "cd\x1b[K".to_string()),
            (2, "~\x1b[K".to_string()),
        ]
    );
    assert_eq!(
        text(&frame.bars),
        "\x1b[4H\"[No Name]\x1b[5HCtrl-? for\x1b[K"
    );
    assert_eq!(s.dirty_start, None);
    assert!(!s.cursor_moved);
    assert_eq!(s.draw_message, DrawMessage::DoNothing);
}

#[test]
fn later_renders_draw_what_changed() {
    let rows = rows_of(&["ab", "cd"]);
    let mut s = Screen::new(10, 5).unwrap();
    s.render(&rows, (0, 0), &bar());

    let frame = s.render(&rows, (0, 0), &bar());
    assert!(!frame.full);
    assert_eq!(frame.cursor, None);
    assert!(frame.rows.is_empty() && frame.bars.is_empty());

    s.cursor_moved = true;
    let frame = s.render(&rows, (2, 1), &bar());
    assert!(!frame.full);
    assert_eq!(frame.cursor, Some((2, 1)));

    s.set_dirty_start(1);
    let frame = s.render(&rows, (2, 1), &bar());
    assert!(frame.full);
    let got: Vec<u16> = frame.rows.iter().map(|d| d.y).collect();
    assert_eq!(got, vec![1, 2]);
    assert!(frame.bars.is_empty());
    assert_eq!(frame.cursor, Some((2, 1)));

    s.set_info_message("saved".to_string());
    let frame = s.render(&rows, (2, 1), &bar());
    assert!(frame.full);
    assert!(frame.rows.is_empty());
    assert_eq!(text(&frame.bars), "\x1b[5Hsaved\x1b[K");

    let mut redraw = bar();
    redraw.redraw = true;
    let frame = s.render(&rows, (2, 1), &redraw);
    assert!(frame.full);
    assert_eq!(text(&frame.bars), "\x1b[4H\"[No Name]");

    s.unset_message();
    let frame = s.render(&rows, (2, 1), &bar());
    assert!(frame.full);
    assert_eq!(text(&frame.bars), "\x1b[5H\"[No Name]");
}

#[test]
fn help_text() {
    assert_eq!(berry::HELP, "Ctrl-?              : Show this help");
}
