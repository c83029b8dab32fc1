use std::path::PathBuf;

use script_hub::catalog::{load_scripts, ScriptSource};

fn source(name: &str, content: Result<&str, &str>) -> ScriptSource {
    ScriptSource {
        path: PathBuf::from(format!("/scripts/{name}")),
        file_name: name.to_string(),
        name_bytes: name.as_bytes().to_vec(),
        content: content.map(|s| s.to_string()).map_err(|s| s.to_string()),
    }
}

#[test]
fn sorts_by_category_then_name_ignoring_case() {
    let (scripts, warnings) = load_scripts(vec![
        source("1.sh", Ok("# @name: zeta\n# @category: beta\n")),
        source("2.sh", Ok("# @name: Alpha\n# @category: Beta\n")),
        source("3.sh", Ok("# @name: gamma\n# @category: alpha\n")),
        source("4.sh", Ok("# @name: Delta\n")),
    ]);
    assert!(warnings.is_empty());
    let names: Vec<&str> = scripts.iter().map(|s| s.name.as_str()).collect();
    assert_eq!(names, vec!["gamma", "Alpha", "zeta", "Delta"]);
}

#[test]
fn lowercase_order_differs_from_raw_order() {
    // Raw code points would put "Zed" before "apple".
    let (scripts, _) = load_scripts(vec![
        source("a.sh", Ok("# @name: Zed\n# @category: x\n")),
        source("b.sh", Ok("# @name: apple\n# @category: x\n")),
    ]);
    assert_eq!(scripts[0].name, "apple");
    assert_eq!(scripts[1].name, "Zed");
}

#[test]
fn equal_keys_keep_file_name_order() {
    let (scripts, _) = load_scripts(vec![
        source("b.sh", Ok("# @name: Same\n")),
        source("a.sh", Ok("# @name: same\n")),
    ]);
    assert_eq!(scripts[0].path, PathBuf::from("/scripts/a.sh"));
    assert_eq!(scripts[1].path, PathBuf::from("/scripts/b.sh"));
}

#[test]
fn skipped_files_become_warnings_in_name_order() {
    let (scripts, warnings) = load_scripts(vec![
        source("c.sh", Ok("echo no tags\n")),
        source("a.sh", Err("/scripts/a.sh: permission denied")),
        source("b.sh", Ok("# @name: Good\n")),
    ]);
    assert_eq!(scripts.len(), 1);
    assert_eq!(scripts[0].name, "Good");
    assert_eq!(
        warnings,
        vec![
            "Skipped — /scripts/a.sh: permission denied".to_string(),
            "Skipped — c.sh: missing required tag `# @name:`".to_string(),
        ]
    );
}

#[test]
fn empty_directory_gives_nothing() {
    let (scripts, warnings) = load_scripts(Vec::new());
    assert!(scripts.is_empty());
    assert!(warnings.is_empty());
}

#[test]
fn file_names_order_by_bytes() {
    let (scripts, _) = load_scripts(vec![
        source("b", Ok("# @name: x\n")),
        source("B", Ok("# @name: x\n")),
        source("a", Ok("# @name: x\n")),
    ]);
    let files: Vec<String> = scripts.iter().map(|s| s.path.display().to_string()).collect();
    assert_eq!(files, vec!["/scripts/B", "/scripts/a", "/scripts/b"]);
}

#[test]
fn loading_the_same_files_twice_gives_the_same_result() {
    let files = || {
        vec![
            source("x.sh", Ok("# @name: b\n# @category: K\n")),
            source("y.sh", Ok("# @name: A\n# @category: k\n")),
            source("z.sh", Err("z.sh: unreadable")),
        ]
    };
    let (s1, w1) = load_scripts(files());
    let (s2, w2) = load_scripts(files());
    let names1: Vec<&str> = s1.iter().map(|s| s.name.as_str()).collect();
    let names2: Vec<&str> = s2.iter().map(|s| s.name.as_str()).collect();
    assert_eq!(names1, vec!["A", "b"]);
    assert_eq!(names1, names2);
    assert_eq!(w1, w2);
    assert_eq!(s1.len() + w1.len(), 3);
}

#[test]
fn listing_order_does_not_matter() {
    let files = vec![
        ("c.sh", Ok("# @name: same\n# @category: t\n")),
        ("a.sh", Ok("# @name: Same\n# @category: T\n")),
        ("b.sh", Err("b.sh: unreadable")),
        ("d.sh", Ok("echo untagged\n")),
    ];
    let make = |order: &[usize]| {
        order.iter().map(|&i| source(files[i].0, files[i].1)).collect::<Vec<_>>()
    };
    let (s1, w1) = load_scripts(make(&[0, 1, 2, 3]));
    let (s2, w2) = load_scripts(make(&[3, 2, 1, 0]));
    let p1: Vec<String> = s1.iter().map(|s| s.path.display().to_string()).collect();
    let p2: Vec<String> = s2.iter().map(|s| s.path.display().to_string()).collect();
    assert_eq!(p1, vec!["/scripts/a.sh", "/scripts/c.sh"]);
    assert_eq!(p1, p2);
    assert_eq!(w1, w2);
    assert_eq!(w1[0], "Skipped — b.sh: unreadable");
}
