use std::path::PathBuf;

use script_hub::metadata::parse_script_metadata;

fn parse(content: &str) -> Result<script_hub::app::ScriptEntry, String> {
    parse_script_metadata(content, "tool.sh", PathBuf::from("/scripts/tool.sh"))
}

#[test]
fn parses_all_three_tags() {
    let text = "#!/bin/sh\n# @name:        My Script\n# @description: What it does\n# @category:    Category Name\necho hi\n";
    let e = parse(text).unwrap();
    assert_eq!(e.name, "My Script");
    assert_eq!(e.description, "What it does");
    assert_eq!(e.category, "Category Name");
    assert_eq!(e.path, PathBuf::from("/scripts/tool.sh"));
}

#[test]
fn missing_name_is_an_error_naming_the_file() {
    let text = "# @description: no name here\n";
    assert_eq!(parse(text).err().unwrap(), "tool.sh: missing required tag `# @name:`");
}

#[test]
fn empty_file_is_missing_its_name() {
    assert_eq!(parse("").err().unwrap(), "tool.sh: missing required tag `# @name:`");
}

#[test]
fn defaults_for_description_and_category() {
    let e = parse("# @name: Only\n").unwrap();
    assert_eq!(e.name, "Only");
    assert_eq!(e.description, "");
    assert_eq!(e.category, "Uncategorized");
}

#[test]
fn later_tag_overrides_earlier() {
    let e = parse("# @name: First\n# @category: A\n# @name: Second\n# @category: B\n").unwrap();
    assert_eq!(e.name, "Second");
    assert_eq!(e.category, "B");
}

#[test]
fn surrounding_whitespace_is_trimmed() {
    let e = parse("   # @name:\t  Spaced Out  \r\n\t# @category:Tools\r\n").unwrap();
    assert_eq!(e.name, "Spaced Out");
    assert_eq!(e.category, "Tools");
}

#[test]
fn tags_after_line_forty_are_ignored() {
    let mut text = String::new();
    for _ in 0..39 {
        text.push_str("echo filler\n");
    }
    text.push_str("# @name: On Forty\n");
    text.push_str("# @category: Too Late\n");
    let e = parse(&text).unwrap();
    assert_eq!(e.name, "On Forty");
    assert_eq!(e.category, "Uncategorized");

    let mut late = String::new();
    for _ in 0..40 {
        late.push_str("\n");
    }
    late.push_str("# @name: Too Late\n");
    assert!(parse(&late).is_err());
}

#[test]
fn tag_must_start_the_line() {
    let e = parse("# @name: Real\necho '# @category: Not a tag'\n").unwrap();
    assert_eq!(e.category, "Uncategorized");
}

#[test]
fn empty_name_value_is_still_a_name() {
    let e = parse("# @name:   \n").unwrap();
    assert_eq!(e.name, "");
}

#[test]
fn unicode_whitespace_is_trimmed() {
    let e = parse("\u{a0}# @name:\u{3000}Wide\u{2003}\n").unwrap();
    assert_eq!(e.name, "Wide");
}

#[test]
fn text_after_forty_lines_does_not_change_the_parse() {
    let mut head = String::from("# @name: Head\n");
    for _ in 0..39 {
        head.push_str("echo x\n");
    }
    let a = parse(&format!("{head}# @name: Other\n# @category: Z\n")).unwrap();
    let b = parse(&format!("{head}anything at all")).unwrap();
    assert_eq!(a.name, "Head");
    assert_eq!(a.name, b.name);
    assert_eq!(a.category, b.category);
    assert_eq!(a.description, b.description);
}
