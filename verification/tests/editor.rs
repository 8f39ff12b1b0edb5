use berry::document::CursorDir;
use berry::editor::{request, Editor, Keypress, Paint, Request};
use berry::error::Error;
use berry::input::{InputSeq, KeySeq};
use berry::screen::{DrawMessage, StatusMessageKind};
use berry::text_buffer::TextBuffer;

fn key(b: u8) -> InputSeq {
    InputSeq::new(KeySeq::Key(b))
}

fn ctrl(b: u8) -> InputSeq {
    InputSeq::ctrl(KeySeq::Key(b))
}

fn lines(ed: &Editor) -> Vec<String> {
    ed.buf().rows().iter().map(|r| r.buffer().to_string()).collect()
}

fn message(ed: &Editor) -> String {
    ed.screen.message.as_ref().unwrap().text.clone()
}

fn editor_for(text: &str) -> Editor {
    let buf = TextBuffer::open("f.txt".to_string(), Some(text)).unwrap();
    Editor::open(vec![buf], 40, 10).unwrap()
}

#[test]
fn requests_of_keys() {
    assert_eq!(request(InputSeq::new(KeySeq::Unidentified)), Request::Unidentified);
    assert_eq!(request(ctrl(b'd')), Request::DeleteRight);
    assert_eq!(request(ctrl(b'h')), Request::DeleteLeft);
    assert_eq!(request(ctrl(b's')), Request::Save);
    assert_eq!(request(ctrl(b'm')), Request::LineBreak);
    assert_eq!(request(ctrl(b'u')), Request::Undo);
    assert_eq!(request(ctrl(b'r')), Request::Redo);
    assert_eq!(request(ctrl(b'q')), Request::Quit);
    assert_eq!(request(ctrl(b'x')), Request::Nothing);
    assert_eq!(request(key(0x08)), Request::DeleteLeft);
    assert_eq!(request(key(0x7f)), Request::DeleteLeft);
    assert_eq!(request(key(b'\r')), Request::LineBreak);
    assert_eq!(request(key(b'a')), Request::Insert('a'));
    assert_eq!(request(key(b' ')), Request::Insert(' '));
    assert_eq!(request(key(0x1b)), Request::Nothing);
    assert_eq!(
        request(InputSeq::new(KeySeq::Utf8Key('日'))),
        Request::Insert('日')
    );
    assert_eq!(request(InputSeq::ctrl(KeySeq::Utf8Key('日'))), Request::Nothing);
    assert_eq!(request(InputSeq::new(KeySeq::UpKey)), Request::Move(CursorDir::Up));
    assert_eq!(request(InputSeq::new(KeySeq::LeftKey)), Request::Move(CursorDir::Left));
    assert_eq!(request(InputSeq::new(KeySeq::DownKey)), Request::Move(CursorDir::Down));
    assert_eq!(request(InputSeq::new(KeySeq::RightKey)), Request::Move(CursorDir::Right));
    assert_eq!(request(InputSeq::ctrl(KeySeq::RightKey)), Request::Nothing);
    assert_eq!(request(InputSeq::new(KeySeq::DeleteKey)), Request::Nothing);
    assert_eq!(request(InputSeq::new(KeySeq::Cursor(1, 1))), Request::Nothing);
    assert_eq!(
        request(InputSeq { key: KeySeq::Key(b'a'), ctrl: false, alt: true }),
        Request::Insert('a')
    );
}

#[test]
fn new_editor_shows_an_empty_document() {
    let mut ed = Editor::new(40, 10).unwrap();
    assert!(ed.buf().is_scratch());
    assert_eq!(ed.buf_idx, 0);
    assert_eq!(ed.status_bar.buf_pos, (1, 1));
    assert_eq!(ed.status_bar.line_pos, (1, 1));
    assert_eq!(ed.status_bar.filename, "[No Name]");
    assert!(ed.can_render());
    assert!(matches!(ed.first_paint("0.1.0"), Paint::Welcome(_)));
    assert!(matches!(Editor::new(0, 10), Err(Error::TooSmallWindow(0, 10))));
}

#[test]
fn editor_for_a_file_paints_the_document() {
    let mut ed = editor_for("ab\ncd\n");
    match ed.first_paint("0.1.0") {
        Paint::Screen(frame) => {
            assert!(frame.full);
            assert_eq!(frame.rows.len(), 8);
            assert_eq!(frame.cursor, Some((0, 0)));
        }
        Paint::Welcome(_) => panic!("a file is open"),
    }
    assert!(!ed.status_bar.redraw);
}

#[test]
fn typing_and_line_break_through_keys() {
    let mut ed = editor_for("");
    for b in b"ab" {
        assert_eq!(ed.process_keypress(key(*b)), Keypress::Continue);
    }
    assert_eq!(ed.process_keypress(key(b'\r')), Keypress::Continue);
    assert_eq!(
        ed.process_keypress(InputSeq::new(KeySeq::Utf8Key('日'))),
        Keypress::Continue
    );
    assert_eq!(lines(&ed), vec!["ab", "日"]);
    assert_eq!(ed.buf().cursor(), (1, 1));
    assert_eq!(ed.screen.dirty_start, Some(0));
    assert!(ed.screen.cursor_moved);

    assert_eq!(ed.process_keypress(ctrl(b'u')), Keypress::Continue);
    assert_eq!(lines(&ed), vec!["ab", ""]);
    assert_eq!(ed.process_keypress(ctrl(b'u')), Keypress::Continue);
    assert_eq!(lines(&ed), vec!["ab"]);
    assert_eq!(ed.process_keypress(ctrl(b'u')), Keypress::Continue);
    assert_eq!(lines(&ed), vec![""]);
    assert_eq!(message(&ed), "Ctrl-? for help");
    assert_eq!(ed.process_keypress(ctrl(b'u')), Keypress::Continue);
    assert_eq!(message(&ed), "No older change");
    assert_eq!(ed.process_keypress(ctrl(b'r')), Keypress::Continue);
    assert_eq!(ed.process_keypress(ctrl(b'r')), Keypress::Continue);
    assert_eq!(ed.process_keypress(ctrl(b'r')), Keypress::Continue);
    assert_eq!(lines(&ed), vec!["ab", "日"]);
    assert_eq!(ed.process_keypress(ctrl(b'r')), Keypress::Continue);
    assert_eq!(message(&ed), "Buffer is already newest");
}

#[test]
fn deleting_and_moving_through_keys() {
    let mut ed = editor_for("ab\ncd\n");
    ed.render_screen();
    assert_eq!(
        ed.process_keypress(InputSeq::new(KeySeq::RightKey)),
        Keypress::Continue
    );
    assert_eq!(ed.buf().cursor(), (1, 0));
    assert!(ed.screen.cursor_moved);
    assert_eq!(ed.screen.dirty_start, Some(0));
    ed.render_screen();
    assert_eq!(ed.process_keypress(key(0x1b)), Keypress::Continue);
    assert!(!ed.screen.cursor_moved);
    assert_eq!(ed.screen.dirty_start, None);
    assert_eq!(ed.process_keypress(ctrl(b'd')), Keypress::Continue);
    assert_eq!(lines(&ed), vec!["a", "cd"]);
    assert_eq!(ed.process_keypress(key(0x7f)), Keypress::Continue);
    assert_eq!(lines(&ed), vec!["", "cd"]);
    assert_eq!(
        ed.process_keypress(InputSeq::new(KeySeq::DownKey)),
        Keypress::Continue
    );
    assert_eq!(ed.process_keypress(ctrl(b'h')), Keypress::Continue);
    assert_eq!(lines(&ed), vec!["cd"]);
    assert_eq!(ed.buf().cursor(), (0, 0));
}

#[test]
fn unknown_key_changes_nothing() {
    let mut ed = editor_for("ab\n");
    ed.quitting = true;
    assert_eq!(
        ed.process_keypress(InputSeq::new(KeySeq::Unidentified)),
        Keypress::Continue
    );
    assert!(ed.quitting);
    assert_eq!(ed.screen.dirty_start, Some(0));
}

#[test]
fn refused_character_is_told() {
    let mut ed = editor_for("ab\n");
    assert_eq!(
        ed.process_keypress(InputSeq::new(KeySeq::Utf8Key('\u{85}'))),
        Keypress::Continue
    );
    assert_eq!(lines(&ed), vec!["ab"]);
    assert_eq!(
        message(&ed),
        "Invalid character for text is included: '\\u{85}'"
    );
    assert_eq!(
        ed.screen.message.as_ref().unwrap().kind,
        StatusMessageKind::Error
    );
}

#[test]
fn quit_asks_twice_when_something_is_unsaved() {
    let mut ed = editor_for("ab\n");
    assert_eq!(ed.process_keypress(ctrl(b'q')), Keypress::Quit);
    ed.process_keypress(key(b'x'));
    assert_eq!(ed.process_keypress(ctrl(b'q')), Keypress::Continue);
    assert!(ed.quitting);
    assert_eq!(
        message(&ed),
        "At least one file has unsaved changes! Press ^Q again to quit or ^S to save"
    );
    assert_eq!(ed.process_keypress(ctrl(b'q')), Keypress::Quit);
    ed.process_keypress(InputSeq::new(KeySeq::LeftKey));
    assert!(!ed.quitting);
    assert_eq!(ed.process_keypress(ctrl(b'q')), Keypress::Continue);
}

#[test]
fn saving_through_the_editor() {
    let mut ed = editor_for("ab\n");
    ed.process_keypress(key(b'x'));
    assert_eq!(ed.process_keypress(ctrl(b's')), Keypress::Save);
    let prev = ed.buf().cursor();
    let write = ed.begin_save().unwrap();
    assert_eq!(write.path, "f.txt");
    assert_eq!(write.text, "xab\n");
    ed.save_succeeded(4);
    ed.finish_key(prev);
    assert_eq!(message(&ed), "4 bytes written to f.txt");
    assert!(!ed.buf().modified());
    assert_eq!(ed.process_keypress(ctrl(b'q')), Keypress::Quit);
}

#[test]
fn saving_without_a_file_and_a_failed_save() {
    let mut ed = Editor::new(40, 10).unwrap();
    ed.process_keypress(key(b'x'));
    assert!(ed.begin_save().is_none());
    assert_eq!(message(&ed), "");
    assert!(!ed.buf().has_file());
    assert!(ed.buf().modified());

    ed.buf_mut().set_file("new.txt".to_string());
    assert!(ed.begin_save().is_some());
    ed.save_failed("Could not save: denied".to_string(), true);
    assert_eq!(message(&ed), "Could not save: denied");
    assert_eq!(
        ed.screen.message.as_ref().unwrap().kind,
        StatusMessageKind::Error
    );
    assert!(!ed.buf().has_file());
    assert!(ed.buf().modified());

    ed.buf_mut().set_file("kept.txt".to_string());
    ed.save_failed("Could not write to file: full".to_string(), false);
    assert!(ed.buf().has_file());
}

#[test]
fn render_brings_the_status_bar_up_to_date() {
    let mut ed = editor_for("ab\ncd\n");
    ed.render_screen();
    ed.process_keypress(InputSeq::new(KeySeq::DownKey));
    ed.process_keypress(key(b'x'));
    let frame = ed.render_screen();
    assert!(frame.full);
    assert_eq!(ed.status_bar.line_pos, (2, 2));
    assert!(ed.status_bar.modified);
    assert!(!ed.status_bar.redraw);
    assert_eq!(ed.screen.draw_message, DrawMessage::DoNothing);
    assert_eq!(frame.cursor, Some((1, 1)));
    let frame = ed.render_screen();
    assert!(!frame.full);
}

#[test]
fn drawing_where_it_can_be_drawn() {
    let mut ed = editor_for("ab\n");
    assert!(matches!(ed.try_first_paint("0.1.0"), Some(Paint::Screen(_))));
    assert!(ed.try_first_paint("ö").is_none());
    ed.process_keypress(key(b'x'));
    let frame = ed.try_render_screen().unwrap();
    assert!(frame.full);
    assert_eq!(frame.cursor, Some((1, 0)));
    let mut ed = Editor::new(40, 10).unwrap();
    assert!(matches!(ed.try_first_paint("0.1.0"), Some(Paint::Welcome(_))));
}
