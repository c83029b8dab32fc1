use std::path::PathBuf;

use script_hub::app::ScriptEntry;
use script_hub::arg_form::{ArgForm, ArgSpec};
use script_hub::panels::{
    detail_lines, form_area, form_lines, form_title, has_required, run_dialog_lines, status_spans,
    Segment, Tone,
};
use script_hub::view::Area;

fn entry() -> ScriptEntry {
    ScriptEntry {
        name: "Backup".to_string(),
        description: "Copies files".to_string(),
        category: "Ops".to_string(),
        path: PathBuf::from("/s/backup.sh"),
    }
}

fn texts(line: &[Segment]) -> String {
    line.iter().map(|s| s.text.as_str()).collect()
}

#[test]
fn details_of_a_script() {
    let e = entry();
    let lines = detail_lines(Some(&e), "backup.sh", "/s/backup.sh", "/s", &Vec::new(), &Vec::new());
    let all: Vec<String> = lines.iter().map(|l| texts(l)).collect();
    assert_eq!(all.len(), 11);
    assert_eq!(all[1], "  Name     : Backup");
    assert_eq!(all[3], "  Category : Ops");
    assert_eq!(all[5], "  File     : backup.sh");
    assert_eq!(all[6], "  Path     : /s/backup.sh");
    assert_eq!(all[10], "  Copies files");
    assert!(lines[1][1].tone == Tone::Heading);
    assert!(lines[0].is_empty());
}

#[test]
fn details_with_arguments_and_warnings() {
    let e = entry();
    let args = vec![ArgSpec {
        name: "dest".to_string(),
        label: "Destination".to_string(),
        required: true,
        default: "/tmp".to_string(),
    }];
    let warnings = vec!["Skipped — x.sh: missing required tag `# @name:`".to_string()];
    let lines = detail_lines(Some(&e), "backup.sh", "/s/backup.sh", "/s", &args, &warnings);
    let all: Vec<String> = lines.iter().map(|l| texts(l)).collect();
    assert_eq!(all.len(), 11 + 3 + 3);
    assert_eq!(all[13], format!("  {:<20} *  (default: /tmp)", "Destination"));
    assert_eq!(all[15], "  \u{2500}\u{2500}\u{2500} Load warnings ".to_string() + &"\u{2500}".repeat(23));
    assert_eq!(all[16], format!("  {}", warnings[0]));
    assert!(lines[16][1].tone == Tone::Alert);
}

#[test]
fn help_when_there_are_no_scripts() {
    let lines = detail_lines(None, "", "", "/opt/hub/scripts.d", &Vec::new(), &Vec::new());
    let all: Vec<String> = lines.iter().map(|l| texts(l)).collect();
    assert_eq!(all.len(), 12);
    assert_eq!(all[1], "  No scripts found.");
    assert_eq!(all[4], "    /opt/hub/scripts.d");
    assert_eq!(all[11], "    # @category:    Category");
}

#[test]
fn run_dialog_text() {
    let e = entry();
    let lines = run_dialog_lines(&e, "backup.sh");
    let all: Vec<String> = lines.iter().map(|l| texts(l)).collect();
    assert_eq!(all[1], "  Script   : Backup");
    assert_eq!(all[5], "  File     : backup.sh");
    assert_eq!(all[7], "  [Y / Enter] Run       [N / Esc] Cancel");
}

#[test]
fn form_text_marks_focus_and_missing_fields() {
    let e = entry();
    let args = vec![
        ArgSpec { name: "a".to_string(), label: "A".to_string(), required: true, default: String::new() },
        ArgSpec { name: "b".to_string(), label: "B".to_string(), required: false, default: String::new() },
    ];
    let form = ArgForm { focused_field: 1, values: vec!["".to_string(), "x".to_string()] };
    let lines = form_lines(&e, &args, &form);
    let all: Vec<String> = lines.iter().map(|l| texts(l)).collect();
    assert_eq!(all.len(), 2 + 6 + 1 + 1 + 1);
    assert_eq!(all[3], format!("  {:<20} *", "A"));
    assert_eq!(all[4], format!("   {:<36} ", ""));
    assert_eq!(all[7], format!("   {:<36} ", "x\u{258c}"));
    assert!(lines[7][1].tone == Tone::InputFocused);
    assert!(lines[4][1].tone == Tone::Input);
    assert_eq!(all[9], "  * Required fields must be filled");
    assert_eq!(form_title("Backup"), " Backup \u{2014} Arguments ");
}

#[test]
fn status_bar_spans() {
    let plain = status_spans(&None);
    assert_eq!(texts(&plain), "  \u{2191}\u{2193} Navigate  Enter Run  F10 Quit  Q Quit  ");
    let with = status_spans(&Some("Launched: a.sh".to_string()));
    assert_eq!(with.len(), plain.len() + 1);
    assert_eq!(with.last().unwrap().text, "\u{2502}  \u{2713} Launched: a.sh");
    assert!(with.last().unwrap().tone == Tone::Success);
}

#[test]
fn form_box_follows_the_arguments() {
    let arg = |req: bool| ArgSpec {
        name: "n".to_string(),
        label: "L".to_string(),
        required: req,
        default: String::new(),
    };
    let area = Area { x: 0, y: 0, width: 80, height: 40 };
    let two = vec![arg(false), arg(true)];
    assert!(has_required(&two));
    assert!(!has_required(&vec![arg(false)]));
    // 2 + 6 + 2 + 1 + 2 = 13 rows, 66 columns, centred.
    assert!(form_area(area, &two) == Area { x: 7, y: 13, width: 66, height: 13 });
    // With no arguments the form is 10 rows high.
    assert!(form_area(area, &Vec::new()) == Area { x: 7, y: 15, width: 66, height: 10 });
}
