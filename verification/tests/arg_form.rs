use script_hub::app::Key;
use script_hub::arg_form::{arg_summary, required_unfilled, ArgForm, ArgSpec, FormStep};

fn arg(name: &str, required: bool) -> ArgSpec {
    ArgSpec {
        name: name.to_string(),
        label: name.to_uppercase(),
        required,
        default: String::new(),
    }
}

fn form(values: &[&str]) -> ArgForm {
    ArgForm { focused_field: 0, values: values.iter().map(|s| s.to_string()).collect() }
}

#[test]
fn focus_cycles_forward_and_back() {
    let mut f = form(&["", "", ""]);
    assert!(f.handle_key(Key::Tab, None) == FormStep::Stay);
    assert_eq!(f.focused_field, 1);
    f.handle_key(Key::Down, None);
    f.handle_key(Key::Tab, None);
    assert_eq!(f.focused_field, 0);
    f.handle_key(Key::BackTab, None);
    assert_eq!(f.focused_field, 2);
    f.handle_key(Key::Up, None);
    assert_eq!(f.focused_field, 1);
}

#[test]
fn typing_and_erasing() {
    let mut f = form(&["", "x"]);
    f.handle_key(Key::Char('a'), None);
    f.handle_key(Key::Char('b'), None);
    assert_eq!(f.values, vec!["ab".to_string(), "x".to_string()]);
    f.handle_key(Key::Backspace, None);
    assert_eq!(f.values[0], "a");
    f.handle_key(Key::Backspace, None);
    f.handle_key(Key::Backspace, None);
    assert_eq!(f.values[0], "");
    assert_eq!(f.values[1], "x");
}

#[test]
fn typing_beyond_the_fields_changes_nothing() {
    let mut f = form(&["v"]);
    f.focused_field = 4;
    f.handle_key(Key::Char('z'), None);
    f.handle_key(Key::Backspace, None);
    assert_eq!(f.values, vec!["v".to_string()]);
}

#[test]
fn no_fields_means_no_reaction() {
    let mut f = form(&[]);
    assert!(f.handle_key(Key::Esc, None) == FormStep::Stay);
    assert!(f.handle_key(Key::Enter, None) == FormStep::Stay);
}

#[test]
fn submit_waits_for_required_fields() {
    let args = vec![arg("host", true), arg("mode", false)];
    let mut f = form(&["", ""]);
    assert!(f.handle_key(Key::Enter, Some(&args)) == FormStep::Stay);
    f.handle_key(Key::Char('h'), Some(&args));
    assert!(f.handle_key(Key::F(5), Some(&args)) == FormStep::Submit);
    assert!(f.handle_key(Key::Enter, None) == FormStep::Submit);
    assert!(f.handle_key(Key::Esc, Some(&args)) == FormStep::Cancel);
}

#[test]
fn required_argument_without_a_field_is_unfilled() {
    let args = vec![arg("a", false), arg("b", true)];
    assert!(required_unfilled(&args, &vec!["x".to_string()]));
    assert!(!required_unfilled(&args, &vec!["".to_string(), "y".to_string()]));
    assert!(required_unfilled(&args, &vec!["".to_string(), "".to_string()]));
}

#[test]
fn summary_lists_the_filled_fields() {
    let args = vec![arg("host", true), arg("mode", false), arg("user", false)];
    let values = vec!["example.org".to_string(), "".to_string(), "me".to_string()];
    assert_eq!(arg_summary(&args, &values), " [host=example.org, user=me]");
    assert_eq!(arg_summary(&args, &vec!["".to_string(), "".to_string()]), "");
    assert_eq!(arg_summary(&args, &vec!["".to_string(), "22".to_string()]), " [mode=22]");
}

#[test]
fn summary_of_values_without_arguments_is_empty_brackets() {
    let args = vec![arg("a", false)];
    let values = vec!["".to_string(), "extra".to_string()];
    assert_eq!(arg_summary(&args, &values), " []");
}

#[test]
fn focus_stays_on_a_field_after_any_key() {
    let keys = [Key::Tab, Key::BackTab, Key::Up, Key::Down, Key::Char('a'), Key::Backspace, Key::Other];
    let mut f = form(&["", ""]);
    for k in keys {
        f.handle_key(k, None);
        assert!(f.focused_field < 2);
        assert_eq!(f.values.len(), 2);
    }
}
