use berry::error::Error;
use berry::glyph::text_char;
use berry::row::{advance_col, check_text, Row};

#[test]
fn empty_row_has_no_characters() {
    let row = Row::empty();
    assert_eq!(row.len(), 0);
    assert_eq!(row.buffer(), "");
    assert_eq!(row.render_text(), "");
    assert_eq!(row.byte_idx_of(0), 0);
    assert_eq!(row.char_at_checked(0), None);
}

#[test]
fn length_counts_characters_not_bytes() {
    let row = Row::new("aé日".to_string()).unwrap();
    assert_eq!(row.len(), 3);
    assert_eq!(row.buffer().len(), 6);
}

#[test]
fn byte_offsets_grow_with_the_index() {
    let row = Row::new("aé日𝄞z".to_string()).unwrap();
    assert_eq!(row.byte_idx_of(0), 0);
    assert_eq!(row.byte_idx_of(1), 1);
    assert_eq!(row.byte_idx_of(2), 3);
    assert_eq!(row.byte_idx_of(3), 6);
    assert_eq!(row.byte_idx_of(4), 10);
    assert_eq!(row.byte_idx_of(5), 11);
    for i in 0..5 {
        assert!(row.byte_idx_of(i) < row.byte_idx_of(i + 1));
    }
}

#[test]
fn character_at_an_index_is_the_one_put_there() {
    let text = "aé日𝄞z\tq";
    let row = Row::new(text.to_string()).unwrap();
    for (i, c) in text.chars().enumerate() {
        assert_eq!(row.char_at(i), c);
        assert_eq!(row.char_at_checked(i), Some(c));
        let from = row.byte_idx_of(i);
        assert_eq!(row.buffer()[from..].chars().next(), Some(c));
    }
    assert_eq!(row.char_at_checked(7), None);
}

#[test]
fn ascii_row_addresses_bytes_directly() {
    let row = Row::new("plain".to_string()).unwrap();
    for i in 0..=5 {
        assert_eq!(row.byte_idx_of(i), i);
    }
}

#[test]
fn tabs_render_to_the_next_tab_stop() {
    assert_eq!(Row::new("\t".to_string()).unwrap().render_text(), "    ");
    assert_eq!(Row::new("a\tb".to_string()).unwrap().render_text(), "a   b");
    assert_eq!(Row::new("abc\td".to_string()).unwrap().render_text(), "abc d");
    assert_eq!(Row::new("abcd\te".to_string()).unwrap().render_text(), "abcd    e");
    assert_eq!(Row::new("日\tx".to_string()).unwrap().render_text(), "日  x");
}

#[test]
fn display_column_sums_widths_and_tabs() {
    let row = Row::new("a\t日b".to_string()).unwrap();
    assert_eq!(row.rx_from_cx(0), 0);
    assert_eq!(row.rx_from_cx(1), 1);
    assert_eq!(row.rx_from_cx(2), 4);
    assert_eq!(row.rx_from_cx(3), 6);
    assert_eq!(row.rx_from_cx(4), 7);
    assert_eq!(row.checked_rx_from_cx(4), Some(7));
}

#[test]
fn column_after_a_character() {
    assert_eq!(advance_col(0, '\t', None), Some(4));
    assert_eq!(advance_col(3, '\t', None), Some(4));
    assert_eq!(advance_col(4, '\t', None), Some(8));
    assert_eq!(advance_col(5, 'x', Some(1)), Some(6));
    assert_eq!(advance_col(5, '日', Some(2)), Some(7));
    assert_eq!(advance_col(5, 'x', None), Some(5));
    assert_eq!(advance_col(usize::MAX, 'x', Some(1)), None);
    assert_eq!(advance_col(usize::MAX - 1, '日', Some(2)), None);
}

#[test]
fn control_character_is_refused_at_construction() {
    assert!(matches!(
        Row::new("ab\u{7}c".to_string()),
        Err(Error::ControlCharInText('\u{7}'))
    ));
    assert!(matches!(
        Row::new("\u{1b}[0m\n".to_string()),
        Err(Error::ControlCharInText('\u{1b}'))
    ));
    assert!(matches!(
        Row::new("x\u{85}".to_string()),
        Err(Error::ControlCharInText('\u{85}'))
    ));
    assert!(Row::new("\t".to_string()).is_ok());
}

#[test]
fn text_characters() {
    assert!(text_char('a'));
    assert!(text_char(' '));
    assert!(text_char('~'));
    assert!(text_char('\t'));
    assert!(text_char('é'));
    assert!(text_char('日'));
    assert!(!text_char('\n'));
    assert!(!text_char('\r'));
    assert!(!text_char('\0'));
    assert!(!text_char('\u{7f}'));
    assert!(!text_char('\u{9f}'));
    assert!(text_char('\u{a0}'));
}

#[test]
fn check_text_reports_the_first_control_character() {
    assert!(check_text("all fine\t").is_ok());
    assert!(check_text("").is_ok());
    assert!(matches!(
        check_text("a\rb\nc"),
        Err(Error::ControlCharInText('\r'))
    ));
}

#[test]
fn insert_char_in_the_middle_and_at_the_end() {
    let mut row = Row::new("aé".to_string()).unwrap();
    row.insert_char(1, '日').unwrap();
    assert_eq!(row.buffer(), "a日é");
    row.insert_char(3, 'z').unwrap();
    assert_eq!(row.buffer(), "a日éz");
    row.insert_char(100, '!').unwrap();
    assert_eq!(row.buffer(), "a日éz!");
    row.insert_char(0, '\t').unwrap();
    assert_eq!(row.buffer(), "\ta日éz!");
    assert_eq!(row.render_text(), "    a日éz!");
    assert_eq!(row.len(), 6);
}

#[test]
fn refused_insert_leaves_the_row_as_it_was() {
    let mut row = Row::new("aé".to_string()).unwrap();
    assert!(matches!(
        row.insert_char(1, '\n'),
        Err(Error::ControlCharInText('\n'))
    ));
    assert_eq!(row.buffer(), "aé");
    assert_eq!(row.render_text(), "aé");
    assert_eq!(row.len(), 2);
}

#[test]
fn append_text() {
    let mut row = Row::new("ab".to_string()).unwrap();
    row.append("é\t").unwrap();
    assert_eq!(row.buffer(), "abé\t");
    assert_eq!(row.render_text(), "abé ");
    row.append("").unwrap();
    assert_eq!(row.buffer(), "abé\t");
    assert!(matches!(
        row.append("x\u{0}y"),
        Err(Error::ControlCharInText('\u{0}'))
    ));
    assert_eq!(row.buffer(), "abé\t");
}

#[test]
fn truncate_drops_the_tail() {
    let mut row = Row::new("a日éz".to_string()).unwrap();
    row.truncate(10);
    assert_eq!(row.buffer(), "a日éz");
    row.truncate(4);
    assert_eq!(row.buffer(), "a日éz");
    row.truncate(2);
    assert_eq!(row.buffer(), "a日");
    assert_eq!(row.len(), 2);
    row.truncate(0);
    assert_eq!(row.buffer(), "");
}

#[test]
fn remove_char_takes_one_character() {
    let mut row = Row::new("a日éz".to_string()).unwrap();
    row.remove_char(1);
    assert_eq!(row.buffer(), "aéz");
    row.remove_char(2);
    assert_eq!(row.buffer(), "aé");
    row.remove_char(0);
    assert_eq!(row.buffer(), "é");
    assert_eq!(row.render_text(), "é");
}

#[test]
fn remove_takes_a_range() {
    let mut row = Row::new("a日éz𝄞".to_string()).unwrap();
    row.remove(1, 3);
    assert_eq!(row.buffer(), "az𝄞");
    row.remove(2, 2);
    assert_eq!(row.buffer(), "az𝄞");
    row.remove(3, 1);
    assert_eq!(row.buffer(), "az𝄞");
    row.remove(0, 3);
    assert_eq!(row.buffer(), "");
}

#[test]
fn slices_by_character() {
    let row = Row::new("a日éz".to_string()).unwrap();
    assert_eq!(row.slice_from(0), "a日éz");
    assert_eq!(row.slice_from(2), "éz");
    assert_eq!(row.slice_from(4), "");
    assert_eq!(row.slice_to(0), "");
    assert_eq!(row.slice_to(2), "a日");
    assert_eq!(row.slice(1, 3), "日é");
    assert_eq!(row.slice(2, 2), "");
}
