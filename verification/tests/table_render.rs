use mcstat::output::{BigTableEntry, McFormatContent, Table, TableContent};
use mcstat::get_table;

#[test]
fn small_entries_align_on_widest_label() {
    let mut table = Table::new(None);
    table.small_entry(String::from("Online Players"), TableContent::Plain(String::from("5")));
    table.small_entry(String::from("Max Players"), TableContent::Plain(String::from("100")));
    table.small_entry(String::from("Protocol"), TableContent::Plain(String::from("751")));
    let out = table.print(false);
    assert_eq!(
        out,
        "Online Players | 5\n\
         Max Players    | 100\n\
         Protocol       | 751\n"
    );
}

#[test]
fn small_entry_width_grows_with_later_labels() {
    let mut table = Table::new(None);
    table.small_entry(String::from("ab"), TableContent::Plain(String::from("1")));
    table.small_entry(String::from("abcdef"), TableContent::Plain(String::from("2")));
    // The first row is padded to the width of a label appended after it.
    let out = table.print(false);
    assert_eq!(out, "ab     | 1\nabcdef | 2\n");
}

#[test]
fn block_entry_centres_label_in_frame() {
    let mut table = Table::new(None);
    table.big_entry(
        String::from("Description"),
        TableContent::Plain(String::from("A Server")),
    );
    let out = table.print(false);
    assert_eq!(out, "==Description==\nA Server\n===============\n");
}

#[test]
fn block_entry_odd_padding_goes_right() {
    let mut table = Table::new(None);
    table.big_entry(String::from("abc"), TableContent::Plain(String::from("xxxxxxxx")));
    let out = table.print(false);
    assert_eq!(out, "==abc===\nxxxxxxxx\n========\n");
}

#[test]
fn block_width_is_clamped_to_ceiling() {
    let mut table = Table::new(Some(10));
    table.big_entry(
        String::from("Description"),
        TableContent::Plain(String::from("A Server")),
    );
    let out = table.print(false);
    assert_eq!(out, "Description\nA Server\n==========\n");
}

#[test]
fn block_width_never_below_label_plus_frame() {
    // Content is short; the frame still holds the label plus two fill
    // characters on each side.
    let e = BigTableEntry::new(
        String::from("T"),
        TableContent::Plain(String::from("xyz")),
        None,
    );
    assert_eq!(e.width, 5);
}

#[test]
fn block_entry_with_empty_content_still_renders() {
    let mut table = Table::new(None);
    table.big_entry(String::from("L"), TableContent::Plain(String::new()));
    let out = table.print(false);
    assert_eq!(out, "==L==\n\n=====\n");
}

#[test]
fn blank_entry_is_exactly_one_newline() {
    let mut table = Table::new(None);
    table.small_entry(String::from("a"), TableContent::Plain(String::from("1")));
    table.blank();
    table.small_entry(String::from("b"), TableContent::Plain(String::from("2")));
    let out = table.print(false);
    assert_eq!(out, "a | 1\n\nb | 2\n");
}

#[test]
fn empty_table_renders_nothing() {
    let table = Table::default();
    assert_eq!(table.print(true), "");
}

#[test]
fn wide_characters_align_by_display_width() {
    // Two CJK characters occupy four columns, so the shorter-looking label
    // needs only one space of padding against a five-column label.
    let mut table = Table::new(None);
    table.small_entry(String::from("\u{65e5}\u{672c}"), TableContent::Plain(String::from("1")));
    table.small_entry(String::from("abcde"), TableContent::Plain(String::from("2")));
    let out = table.print(false);
    assert_eq!(out, "\u{65e5}\u{672c}  | 1\nabcde | 2\n");
}

#[test]
fn content_width_is_widest_line() {
    let c = TableContent::Plain(String::from("ab\nlonger"));
    assert_eq!(c.width(), 6);
    let crlf = TableContent::Plain(String::from("ab\r\ncd"));
    assert_eq!(crlf.width(), 2);
}

#[test]
fn markup_content_width_ignores_markup() {
    let c = McFormatContent(String::from("\u{a7}aHello"));
    assert_eq!(c.width(), 5);
    let wide = McFormatContent(String::from("\u{65e5}\u{672c}"));
    assert_eq!(wide.width(), 4);
}

#[test]
fn mc_format_content_is_empty() {
    assert!(McFormatContent(String::new()).is_empty());
    assert!(!McFormatContent(String::from("\u{a7}")).is_empty());
}

#[test]
fn styled_block_entry_keeps_frame_plain() {
    let mut table = Table::new(None);
    table.big_entry(
        String::from("Desc"),
        TableContent::McFormat(McFormatContent(String::from("\u{a7}aHi"))),
    );
    let out = table.print(true);
    assert_eq!(out, "==Desc==\n\u{1b}[38;5;10mHi\u{1b}[0m\n========\n");
}

#[test]
fn unstyled_print_strips_markup() {
    let mut table = Table::new(None);
    table.small_entry(
        String::from("Motd"),
        TableContent::McFormat(McFormatContent(String::from("\u{a7}aHello"))),
    );
    let out = table.print(false);
    assert_eq!(out, "Motd | Hello\n");
}

#[test]
fn get_table_two_columns() {
    let entries = vec![
        (String::from("alpha"), String::from("1")),
        (String::from("beta"), String::from("22")),
    ];
    assert_eq!(get_table(&entries, true), "alpha | 1\nbeta  | 22\n");
}

#[test]
fn get_table_single_column() {
    let entries = vec![
        (String::from("alpha"), String::from("1")),
        (String::from("beta"), String::from("22")),
    ];
    assert_eq!(get_table(&entries, false), "alpha\nbeta");
}

#[test]
fn get_table_empty() {
    let entries: Vec<(String, String)> = Vec::new();
    assert_eq!(get_table(&entries, true), "");
    assert_eq!(get_table(&entries, false), "");
}
