use berry::edit_diff::{EditDiff, UndoRedo};
use berry::history::History;
use berry::row::Row;

fn content(rows: &[Row]) -> Vec<String> {
    rows.iter().map(|r| r.buffer().to_string()).collect()
}

fn make(history: &mut History, rows: &mut Vec<Row>, op: EditDiff) {
    op.apply(rows, UndoRedo::Redo);
    history.record(op);
}

#[test]
fn empty_history_has_nothing_to_undo_or_redo() {
    let mut history = History::new();
    let mut rows = vec![Row::empty()];
    assert_eq!(history.undo(&mut rows), None);
    assert_eq!(history.redo(&mut rows), None);
    assert!(!history.close_active());
    assert_eq!(content(&rows), vec![""]);
}

#[test]
fn recorded_edits_share_a_transaction_until_it_is_closed() {
    let mut history = History::new();
    let mut rows = vec![Row::empty()];
    make(&mut history, &mut rows, EditDiff::InsertChar(0, 0, 'a'));
    make(&mut history, &mut rows, EditDiff::InsertChar(1, 0, 'b'));
    assert!(history.close_active());
    assert!(!history.close_active());
    make(&mut history, &mut rows, EditDiff::InsertChar(2, 0, 'c'));
    assert_eq!(content(&rows), vec!["abc"]);

    assert_eq!(history.undo(&mut rows), Some((2, 0, 0, true)));
    assert_eq!(content(&rows), vec!["ab"]);
    assert_eq!(history.undo(&mut rows), Some((0, 0, 0, false)));
    assert_eq!(content(&rows), vec![""]);
    assert_eq!(history.undo(&mut rows), None);

    assert_eq!(history.redo(&mut rows), Some((2, 0, 0, false)));
    assert_eq!(content(&rows), vec!["ab"]);
    assert_eq!(history.redo(&mut rows), Some((3, 0, 0, false)));
    assert_eq!(content(&rows), vec!["abc"]);
    assert_eq!(history.redo(&mut rows), None);
}

#[test]
fn recording_forgets_what_was_undone() {
    let mut history = History::new();
    let mut rows = vec![Row::empty()];
    make(&mut history, &mut rows, EditDiff::InsertChar(0, 0, 'a'));
    history.close_active();
    make(&mut history, &mut rows, EditDiff::InsertChar(1, 0, 'b'));
    history.close_active();
    assert!(history.undo(&mut rows).is_some());
    assert_eq!(content(&rows), vec!["a"]);
    make(&mut history, &mut rows, EditDiff::InsertChar(1, 0, 'z'));
    assert_eq!(history.redo(&mut rows), None);
    assert_eq!(content(&rows), vec!["az"]);
    assert!(history.undo(&mut rows).is_some());
    assert_eq!(content(&rows), vec!["a"]);
    assert_eq!(history.redo(&mut rows), Some((2, 0, 0, false)));
    assert_eq!(content(&rows), vec!["az"]);
}

#[test]
fn undo_reports_the_lowest_line_and_the_last_cursor() {
    let mut history = History::new();
    let mut rows = vec![
        Row::new("ab".to_string()).unwrap(),
        Row::new("cd".to_string()).unwrap(),
        Row::new("ef".to_string()).unwrap(),
    ];
    make(&mut history, &mut rows, EditDiff::InsertChar(2, 2, 'x'));
    make(&mut history, &mut rows, EditDiff::InsertChar(0, 1, 'y'));
    make(&mut history, &mut rows, EditDiff::InsertChar(3, 2, 'z'));
    assert_eq!(content(&rows), vec!["ab", "ycd", "efxz"]);
    assert_eq!(history.undo(&mut rows), Some((2, 2, 1, true)));
    assert_eq!(content(&rows), vec!["ab", "cd", "ef"]);
    assert_eq!(history.redo(&mut rows), Some((4, 2, 1, false)));
    assert_eq!(content(&rows), vec!["ab", "ycd", "efxz"]);
}
