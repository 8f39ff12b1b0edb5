use berry::edit_diff::{EditDiff, UndoRedo};
use berry::row::Row;

fn rows_of(lines: &[&str]) -> Vec<Row> {
    lines.iter().map(|l| Row::new(l.to_string()).unwrap()).collect()
}

fn content(rows: &[Row]) -> Vec<String> {
    rows.iter().map(|r| r.buffer().to_string()).collect()
}

#[test]
fn insert_char_forward_and_backward() {
    let mut rows = rows_of(&["ab", "cd"]);
    let op = EditDiff::InsertChar(1, 1, 'é');
    assert_eq!(op.apply(&mut rows, UndoRedo::Redo), (2, 1));
    assert_eq!(content(&rows), vec!["ab", "céd"]);
    assert_eq!(op.apply(&mut rows, UndoRedo::Undo), (1, 1));
    assert_eq!(content(&rows), vec!["ab", "cd"]);
}

#[test]
fn insert_char_at_the_end_of_a_line() {
    let mut rows = rows_of(&["ab"]);
    let op = EditDiff::InsertChar(2, 0, 'c');
    assert_eq!(op.apply(&mut rows, UndoRedo::Redo), (3, 0));
    assert_eq!(content(&rows), vec!["abc"]);
}

#[test]
fn delete_char_forward_and_backward() {
    let mut rows = rows_of(&["ab", "cd"]);
    let op = EditDiff::DeleteChar(2, 0, 'b');
    assert_eq!(op.apply(&mut rows, UndoRedo::Redo), (1, 0));
    assert_eq!(content(&rows), vec!["a", "cd"]);
    assert_eq!(op.apply(&mut rows, UndoRedo::Undo), (2, 0));
    assert_eq!(content(&rows), vec!["ab", "cd"]);
}

#[test]
fn append_forward_and_backward() {
    let mut rows = rows_of(&["ab", "cd"]);
    let op = EditDiff::Append(0, "日本".to_string());
    assert_eq!(op.apply(&mut rows, UndoRedo::Redo), (2, 0));
    assert_eq!(content(&rows), vec!["ab日本", "cd"]);
    assert_eq!(op.apply(&mut rows, UndoRedo::Undo), (2, 0));
    assert_eq!(content(&rows), vec!["ab", "cd"]);
}

#[test]
fn truncate_forward_and_backward() {
    let mut rows = rows_of(&["ab", "c日本"]);
    let op = EditDiff::Truncate(1, "日本".to_string());
    assert_eq!(op.apply(&mut rows, UndoRedo::Redo), (1, 1));
    assert_eq!(content(&rows), vec!["ab", "c"]);
    assert_eq!(op.apply(&mut rows, UndoRedo::Undo), (1, 1));
    assert_eq!(content(&rows), vec!["ab", "c日本"]);
}

#[test]
fn newline_forward_and_backward() {
    let mut rows = rows_of(&["ab"]);
    let op = EditDiff::Newline;
    assert_eq!(op.apply(&mut rows, UndoRedo::Redo), (0, 1));
    assert_eq!(content(&rows), vec!["ab", ""]);
    assert_eq!(op.apply(&mut rows, UndoRedo::Undo), (0, 1));
    assert_eq!(content(&rows), vec!["ab"]);
}

#[test]
fn insert_line_forward_and_backward() {
    let mut rows = rows_of(&["ab", "cd"]);
    let op = EditDiff::InsertLine(1, "new".to_string());
    assert_eq!(op.apply(&mut rows, UndoRedo::Redo), (0, 1));
    assert_eq!(content(&rows), vec!["ab", "new", "cd"]);
    assert_eq!(op.apply(&mut rows, UndoRedo::Undo), (2, 0));
    assert_eq!(content(&rows), vec!["ab", "cd"]);
}

#[test]
fn insert_line_after_the_last_line() {
    let mut rows = rows_of(&["ab"]);
    let op = EditDiff::InsertLine(1, "".to_string());
    assert_eq!(op.apply(&mut rows, UndoRedo::Redo), (0, 1));
    assert_eq!(content(&rows), vec!["ab", ""]);
    assert_eq!(op.apply(&mut rows, UndoRedo::Undo), (2, 0));
    assert_eq!(content(&rows), vec!["ab"]);
}

#[test]
fn delete_line_forward_and_backward() {
    let mut rows = rows_of(&["ab", "cd", "ef"]);
    let op = EditDiff::DeleteLine(1, "cd".to_string());
    assert_eq!(op.apply(&mut rows, UndoRedo::Redo), (2, 0));
    assert_eq!(content(&rows), vec!["ab", "ef"]);
    assert_eq!(op.apply(&mut rows, UndoRedo::Undo), (0, 1));
    assert_eq!(content(&rows), vec!["ab", "cd", "ef"]);
}

#[test]
fn delete_last_line_forward_and_backward() {
    let mut rows = rows_of(&["ab", "cd"]);
    let op = EditDiff::DeleteLine(1, "cd".to_string());
    assert_eq!(op.apply(&mut rows, UndoRedo::Redo), (2, 0));
    assert_eq!(content(&rows), vec!["ab"]);
    assert_eq!(op.apply(&mut rows, UndoRedo::Undo), (0, 1));
    assert_eq!(content(&rows), vec!["ab", "cd"]);
}

#[test]
fn line_split_is_truncate_and_insert_line() {
    let mut rows = rows_of(&["abcd"]);
    let cut = EditDiff::Truncate(0, "cd".to_string());
    let put = EditDiff::InsertLine(1, "cd".to_string());
    assert_eq!(cut.apply(&mut rows, UndoRedo::Redo), (2, 0));
    assert_eq!(put.apply(&mut rows, UndoRedo::Redo), (0, 1));
    assert_eq!(content(&rows), vec!["ab", "cd"]);
    assert_eq!(put.apply(&mut rows, UndoRedo::Undo), (2, 0));
    assert_eq!(cut.apply(&mut rows, UndoRedo::Undo), (2, 0));
    assert_eq!(content(&rows), vec!["abcd"]);
}

#[test]
fn backward_then_forward_restores_too() {
    let mut rows = rows_of(&["ab", "cd"]);
    let op = EditDiff::InsertChar(1, 0, 'b');
    op.apply(&mut rows, UndoRedo::Undo);
    assert_eq!(content(&rows), vec!["a", "cd"]);
    op.apply(&mut rows, UndoRedo::Redo);
    assert_eq!(content(&rows), vec!["ab", "cd"]);
    let op = EditDiff::Append(1, "d".to_string());
    op.apply(&mut rows, UndoRedo::Undo);
    assert_eq!(content(&rows), vec!["ab", "c"]);
    op.apply(&mut rows, UndoRedo::Redo);
    assert_eq!(content(&rows), vec!["ab", "cd"]);
}
