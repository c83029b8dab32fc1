use std::path::PathBuf;

use script_hub::app::{App, Key, ScriptEntry, Step};

fn entry(name: &str) -> ScriptEntry {
    ScriptEntry {
        name: name.to_string(),
        description: String::new(),
        category: "Tools".to_string(),
        path: PathBuf::from(format!("/scripts/{name}.sh")),
    }
}

fn app_with(n: usize) -> App {
    let scripts = (0..n).map(|i| entry(&format!("s{i}"))).collect();
    App::new(scripts, Vec::new(), PathBuf::from("/scripts"))
}

#[test]
fn new_selects_the_first_script() {
    let a = app_with(3);
    assert_eq!(a.selected, Some(0));
    assert!(!a.show_run_dialog);
    assert!(a.last_message.is_none());
    assert_eq!(a.selected_script().unwrap().name, "s0");
}

#[test]
fn new_without_scripts_selects_nothing() {
    let a = app_with(0);
    assert_eq!(a.selected, None);
    assert!(a.selected_script().is_none());
}

#[test]
fn next_and_previous_wrap_around() {
    let mut a = app_with(3);
    a.next();
    assert_eq!(a.selected, Some(1));
    a.next();
    a.next();
    assert_eq!(a.selected, Some(0));
    a.previous();
    assert_eq!(a.selected, Some(2));
    a.previous();
    assert_eq!(a.selected, Some(1));
}

#[test]
fn moving_in_an_empty_list_does_nothing() {
    let mut a = app_with(0);
    a.next();
    assert_eq!(a.selected, None);
    a.previous();
    assert_eq!(a.selected, None);
}

#[test]
fn moving_with_nothing_selected_selects_the_first() {
    let mut a = app_with(2);
    a.selected = None;
    a.previous();
    assert_eq!(a.selected, Some(0));
    a.selected = None;
    a.next();
    assert_eq!(a.selected, Some(0));
}

#[test]
fn out_of_range_selection_selects_nothing() {
    let mut a = app_with(2);
    a.selected = Some(5);
    assert!(a.selected_script().is_none());
}

#[test]
fn keys_over_the_list() {
    let mut a = app_with(2);
    a.last_message = Some("old".to_string());
    assert!(a.handle_key(Key::Char('j'), true) == Step::Continue);
    assert_eq!(a.selected, Some(1));
    assert!(a.last_message.is_none());
    assert!(a.handle_key(Key::Down, true) == Step::Continue);
    assert_eq!(a.selected, Some(0));
    assert!(a.handle_key(Key::Up, true) == Step::Continue);
    assert_eq!(a.selected, Some(1));
    assert!(a.handle_key(Key::Char('k'), true) == Step::Continue);
    assert_eq!(a.selected, Some(0));
    assert!(a.handle_key(Key::Char('x'), true) == Step::Continue);
    assert_eq!(a.selected, Some(0));
    assert!(a.handle_key(Key::Char('q'), true) == Step::Quit);
    assert!(a.handle_key(Key::Char('Q'), true) == Step::Quit);
    assert!(a.handle_key(Key::F(10), true) == Step::Quit);
}

#[test]
fn releases_are_ignored() {
    let mut a = app_with(2);
    assert!(a.handle_key(Key::Char('q'), false) == Step::Continue);
    assert!(a.handle_key(Key::Down, false) == Step::Continue);
    assert_eq!(a.selected, Some(0));
}

#[test]
fn dialog_confirm_and_cancel() {
    let mut a = app_with(1);
    assert!(a.handle_key(Key::Enter, true) == Step::Continue);
    assert!(a.show_run_dialog);
    // Navigation keys do nothing while the dialog is open.
    assert!(a.handle_key(Key::Char('q'), true) == Step::Continue);
    assert!(a.show_run_dialog);
    assert!(a.handle_key(Key::Char('n'), true) == Step::Continue);
    assert!(!a.show_run_dialog);
    assert!(a.handle_key(Key::F(5), true) == Step::Continue);
    assert!(a.show_run_dialog);
    assert!(a.handle_key(Key::Char('y'), true) == Step::Launch);
    assert!(!a.show_run_dialog);
    a.open_dialog();
    assert!(a.handle_key(Key::Esc, true) == Step::Continue);
    assert!(!a.show_run_dialog);
}

#[test]
fn confirming_without_a_script_launches_nothing() {
    let mut a = app_with(0);
    a.handle_key(Key::Enter, true);
    assert!(a.show_run_dialog);
    assert!(a.handle_key(Key::Enter, true) == Step::Continue);
    assert!(!a.show_run_dialog);
}

#[test]
fn record_launch_sets_the_message() {
    let mut a = app_with(1);
    a.record_launch("s0.sh", "");
    assert_eq!(a.last_message.as_deref(), Some("Launched: s0.sh"));
    a.record_launch("s0.sh", " [x=1]");
    assert_eq!(a.last_message.as_deref(), Some("Launched: s0.sh [x=1]"));
}

#[test]
fn close_dialog_hides_it() {
    let mut a = app_with(1);
    a.open_dialog();
    a.close_dialog();
    assert!(!a.show_run_dialog);
}
