use inventory_app::text::{csv_escape, sanitize_filename};

#[test]
fn csv_plain_field_is_unchanged() {
    assert_eq!(csv_escape("plain"), "plain");
    assert_eq!(csv_escape(""), "");
}

#[test]
fn csv_field_with_separator_or_quote_is_quoted() {
    assert_eq!(csv_escape("a,b"), "\"a,b\"");
    assert_eq!(csv_escape("say \"hi\""), "\"say \"\"hi\"\"\"");
    assert_eq!(csv_escape("line\nbreak"), "\"line\nbreak\"");
    assert_eq!(csv_escape("cr\rhere"), "\"cr\rhere\"");
}

#[test]
fn file_names_keep_safe_characters() {
    assert_eq!(sanitize_filename("My Note #1!"), "My_Note_1");
    assert_eq!(sanitize_filename("a\tb-c_d"), "a_b-c_d");
    assert_eq!(sanitize_filename("\u{e9}t\u{e9}"), "t");
    assert_eq!(sanitize_filename("x\u{3000}y"), "x_y");
}

#[test]
fn file_name_falls_back_to_note() {
    assert_eq!(sanitize_filename(""), "note");
    assert_eq!(sanitize_filename("???"), "note");
}

use inventory_app::alerts::StockItem;
use inventory_app::similar::{find_similar_items, names_alike};

fn named(name: &str, sku: &str) -> StockItem {
    StockItem { id: sku.to_string(), name: name.to_string(), sku: sku.to_string(), quantity: 1 }
}

#[test]
fn similar_items_by_shared_words_or_containment() {
    let items = vec![
        named("Large Blue Widget", "W-L"),
        named("Widget", "W-1"),
        named("Red Gadget", "G-R"),
        named("Blue Box", "B-B"),
    ];
    assert_eq!(
        find_similar_items("Blue Widget Large", &items),
        vec!["Large Blue Widget (SKU: W-L)".to_string(), "Widget (SKU: W-1)".to_string()]
    );
}

#[test]
fn similar_items_ignore_case() {
    let items = vec![named("widget stand", "WS")];
    assert_eq!(find_similar_items("WIDGET", &items), vec!["widget stand (SKU: WS)".to_string()]);
}

#[test]
fn short_words_do_not_count() {
    assert!(!names_alike("the box", "the box"));
    assert!(names_alike("blue", "blue"));
    assert!(!names_alike("", "anything"));
    assert!(find_similar_items("box", &[named("box", "X")]).is_empty());
}

use inventory_app::text::replace_all;

#[test]
fn replace_every_occurrence() {
    assert_eq!(replace_all("a,b,,c", ',', ";"), "a;b;;c");
    assert_eq!(replace_all("x\"y", '"', "\"\""), "x\"\"y");
    assert_eq!(replace_all("abc", 'b', ""), "ac");
    assert_eq!(replace_all("", 'b', "zz"), "");
}
