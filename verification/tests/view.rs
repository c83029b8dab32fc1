use std::path::PathBuf;

use script_hub::app::ScriptEntry;
use script_hub::view::{
    arg_form_height, default_hint, dialog_area, field_display, highlighted_row, label_display,
    list_rows, pad_right, status_message, Area,
};

fn entry(name: &str, category: &str) -> ScriptEntry {
    ScriptEntry {
        name: name.to_string(),
        description: String::new(),
        category: category.to_string(),
        path: PathBuf::from("/s"),
    }
}

#[test]
fn padding_to_a_width() {
    assert_eq!(pad_right("ab", 5), "ab   ");
    assert_eq!(pad_right("abcdef", 3), "abcdef");
    assert_eq!(pad_right("é", 3), "é  ");
    assert_eq!(label_display("Host"), format!("{:<20}", "Host"));
}

#[test]
fn short_field_is_padded_with_cursor() {
    let shown = field_display("abc", true);
    assert_eq!(shown, format!(" {:<36} ", "abc\u{258c}"));
    assert_eq!(shown.chars().count(), 38);
    assert_eq!(field_display("abc", false), format!(" {:<36} ", "abc"));
}

#[test]
fn long_field_keeps_its_end_and_cursor_visible() {
    let value: String = "0123456789".repeat(5);
    let shown = field_display(&value, true);
    assert_eq!(shown.chars().count(), 38);
    assert!(shown.ends_with("\u{258c} "));
    let expected: String = format!("{value}\u{258c}").chars().skip(51 - 36).collect();
    assert_eq!(shown, format!(" {expected} "));
    let unfocused = field_display(&value, false);
    assert_eq!(unfocused, format!(" {} ", &value[14..]));
}

#[test]
fn dialog_is_centred_and_clipped() {
    let area = Area { x: 0, y: 0, width: 100, height: 40 };
    assert!(dialog_area(area, 58, 11) == Area { x: 21, y: 14, width: 58, height: 11 });
    let small = Area { x: 2, y: 3, width: 20, height: 5 };
    assert!(dialog_area(small, 58, 11) == Area { x: 2, y: 3, width: 20, height: 5 });
}

#[test]
fn form_height_rules() {
    // 2 + 0 + 2 + 0 + 2 = 6 rows, raised to 10.
    assert_eq!(arg_form_height(0, false, 50), 10);
    // 2 + 12 + 2 + 1 + 2 = 19 rows.
    assert_eq!(arg_form_height(4, true, 50), 19);
    // 2 + 6 + 2 + 0 + 2 = 12 rows: two arguments fit with their key row.
    assert_eq!(arg_form_height(2, false, 50), 12);
    // At most the area's height less 2.
    assert_eq!(arg_form_height(4, true, 12), 10);
    assert_eq!(arg_form_height(4, true, 1), 0);
}

#[test]
fn hints_and_status() {
    assert_eq!(default_hint(""), "");
    assert_eq!(default_hint("8080"), "  (default: 8080)");
    assert_eq!(status_message("Launched: a.sh"), "\u{2502}  \u{2713} Launched: a.sh");
}

#[test]
fn list_rows_insert_category_headers() {
    let scripts = vec![entry("a", "Build"), entry("b", "Build"), entry("c", "Deploy")];
    let (rows, map) = list_rows(&scripts);
    let texts: Vec<(bool, String)> = rows.iter().map(|r| (r.is_header, r.text.clone())).collect();
    assert_eq!(
        texts,
        vec![
            (true, " \u{2500}\u{2500} Build ".to_string()),
            (false, "\u{25ba} a".to_string()),
            (false, "\u{25ba} b".to_string()),
            (true, " \u{2500}\u{2500} Deploy ".to_string()),
            (false, "\u{25ba} c".to_string()),
        ]
    );
    assert_eq!(map, vec![1, 2, 4]);
    assert_eq!(highlighted_row(Some(2), &map), Some(4));
    assert_eq!(highlighted_row(Some(3), &map), None);
    assert_eq!(highlighted_row(None, &map), None);
}

#[test]
fn empty_category_first_has_no_header() {
    let scripts = vec![entry("a", ""), entry("b", "X")];
    let (rows, map) = list_rows(&scripts);
    assert_eq!(rows.len(), 3);
    assert!(!rows[0].is_header);
    assert_eq!(map, vec![0, 2]);
}
