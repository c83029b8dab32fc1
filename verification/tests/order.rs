use script_hub::order::{key_less, lex_less, stable_sort_by_keys, SortKey};
use script_hub::text::{chars_of, has_prefix_at, line_end, trim_bounds};

fn key(major: &[u32], minor: &[u32]) -> SortKey {
    SortKey { major: major.to_vec(), minor: minor.to_vec() }
}

#[test]
fn lexicographic_comparison() {
    assert!(lex_less(&vec![1, 2], &vec![1, 3]));
    assert!(lex_less(&vec![1], &vec![1, 0]));
    assert!(!lex_less(&vec![1, 0], &vec![1]));
    assert!(!lex_less(&vec![2], &vec![2]));
    assert!(lex_less(&vec![], &vec![0]));
    assert!(key_less(&key(&[1], &[9]), &key(&[2], &[0])));
    assert!(key_less(&key(&[1], &[0]), &key(&[1], &[1])));
    assert!(!key_less(&key(&[1], &[1]), &key(&[1], &[1])));
}

#[test]
fn stable_sort_keeps_ties_in_order() {
    let items = vec!["b1", "a1", "b2", "a2", "c"];
    let keys = vec![key(&[2], &[]), key(&[1], &[]), key(&[2], &[]), key(&[1], &[]), key(&[0], &[])];
    let sorted = stable_sort_by_keys(items, &keys);
    assert_eq!(sorted, vec!["c", "a1", "a2", "b1", "b2"]);
}

#[test]
fn text_helpers() {
    let chars = chars_of("  ab c \n# @x: y\n");
    assert_eq!(chars.len(), 16);
    assert_eq!(line_end(&chars, 0), 7);
    assert_eq!(line_end(&chars, 8), 15);
    assert_eq!(line_end(&chars, 16), 16);
    assert_eq!(trim_bounds(&chars, 0, 7), (2, 6));
    assert_eq!(trim_bounds(&chars, 0, 2), (2, 2));
    assert!(has_prefix_at(&chars, 8, 15, "# @x:"));
    assert!(!has_prefix_at(&chars, 8, 10, "# @x:"));
    assert!(!has_prefix_at(&chars, 0, 7, "ab"));
}
