use berry::input::{InputSeq, KeySeq};
use berry::prompt::{PromptLine, PromptResult, PromptStep, PromptTemplate};

fn typed(text: &str) -> PromptLine {
    let mut line = PromptLine::new();
    for c in text.chars() {
        assert_eq!(line.key(InputSeq::new(KeySeq::Utf8Key(c))), PromptStep::Continue);
    }
    line
}

#[test]
fn template_is_cut_at_the_first_hole() {
    let t = PromptTemplate::parse("Save as: {} (^G or ESC to cancel)").unwrap();
    assert_eq!(t.build("f.txt"), "Save as: f.txt (^G or ESC to cancel)");
    assert_eq!(t.build(""), "Save as:  (^G or ESC to cancel)");
    assert_eq!(t.cursor_col(""), 10);
    assert_eq!(t.cursor_col("日本"), 12);
    let t = PromptTemplate::parse("{}{}").unwrap();
    assert_eq!(t.build("x"), "x{}");
    assert_eq!(t.cursor_col("x"), 2);
    let t = PromptTemplate::parse("a{b{}c}").unwrap();
    assert_eq!(t.build("-"), "a{b-c}");
    let t = PromptTemplate::parse("{{}").unwrap();
    assert_eq!(t.build("-"), "{-");
    assert!(PromptTemplate::parse("no hole").is_none());
    assert!(PromptTemplate::parse("{ }").is_none());
    assert!(PromptTemplate::parse("").is_none());
    assert!(PromptTemplate::parse("}{").is_none());
}

#[test]
fn template_from_its_parts() {
    let t = PromptTemplate::new("日本: ", "!");
    assert_eq!(t.build("x"), "日本: x!");
    assert_eq!(t.cursor_col("xy"), 7);
}

#[test]
fn characters_are_typed() {
    let mut line = typed("日");
    assert_eq!(line.key(InputSeq::new(KeySeq::Key(b'a'))), PromptStep::Continue);
    assert_eq!(line.text(), "日a");
    assert_eq!(line.key(InputSeq::ctrl(KeySeq::Key(b'a'))), PromptStep::Continue);
    assert_eq!(line.key(InputSeq::ctrl(KeySeq::Utf8Key('z'))), PromptStep::Continue);
    assert_eq!(line.key(InputSeq::new(KeySeq::LeftKey)), PromptStep::Continue);
    assert_eq!(line.text(), "日a");
}

#[test]
fn delete_keys_take_the_last_character() {
    let mut line = typed("ab日");
    assert_eq!(line.key(InputSeq::new(KeySeq::Key(0x7f))), PromptStep::Continue);
    assert_eq!(line.text(), "ab");
    assert_eq!(line.key(InputSeq::ctrl(KeySeq::Key(b'h'))), PromptStep::Continue);
    assert_eq!(line.text(), "a");
    assert_eq!(line.key(InputSeq::new(KeySeq::DeleteKey)), PromptStep::Continue);
    assert_eq!(line.text(), "");
    assert_eq!(line.key(InputSeq::new(KeySeq::DeleteKey)), PromptStep::Continue);
    assert_eq!(line.text(), "");
    assert_eq!(line.key(InputSeq::new(KeySeq::Key(b'h'))), PromptStep::Continue);
    assert_eq!(line.text(), "h");
}

#[test]
fn control_w_takes_the_last_word() {
    let ctrl_w = InputSeq::ctrl(KeySeq::Key(b'w'));
    let mut line = typed("dir/file name");
    line.key(ctrl_w);
    assert_eq!(line.text(), "dir/file ");
    line.key(ctrl_w);
    assert_eq!(line.text(), "dir/");
    line.key(ctrl_w);
    assert_eq!(line.text(), "");
    line.key(ctrl_w);
    assert_eq!(line.text(), "");
    let mut line = typed("a  ");
    line.key(ctrl_w);
    assert_eq!(line.text(), "");
    let mut line = typed("x.y");
    line.key(ctrl_w);
    assert_eq!(line.text(), "x.");
}

#[test]
fn cancel_enter_and_unknown_keys() {
    let mut line = typed("ab");
    assert_eq!(line.key(InputSeq::new(KeySeq::Unidentified)), PromptStep::Skip);
    assert_eq!(line.key(InputSeq::ctrl(KeySeq::Key(b'g'))), PromptStep::Cancel);
    assert_eq!(line.key(InputSeq::ctrl(KeySeq::Key(b'q'))), PromptStep::Cancel);
    assert_eq!(line.key(InputSeq::new(KeySeq::Key(0x1b))), PromptStep::Cancel);
    assert_eq!(line.key(InputSeq::new(KeySeq::Key(b'\r'))), PromptStep::Enter);
    assert_eq!(line.key(InputSeq::ctrl(KeySeq::Key(b'm'))), PromptStep::Enter);
    assert_eq!(line.text(), "ab");
    assert_eq!(line.key(InputSeq::new(KeySeq::Key(b'g'))), PromptStep::Continue);
    assert_eq!(line.text(), "abg");
}

#[test]
fn how_a_prompt_ends() {
    let line = typed("name");
    assert!(matches!(line.finish(false, true), PromptResult::Input(s) if s == "name"));
    assert!(matches!(line.finish(true, false), PromptResult::Canceled));
    let empty = PromptLine::new();
    assert!(matches!(empty.finish(false, true), PromptResult::Canceled));
    assert!(matches!(empty.finish(false, false), PromptResult::Input(s) if s.is_empty()));
}
