use snakerun::{parse_pep722, HeaderScanner, MetadataError, ScanResult};

fn lines(ls: &[&str]) -> Vec<String> {
    ls.iter().map(|l| l.to_string()).collect()
}

fn ok(ls: &[&str]) -> ScanResult {
    match parse_pep722(&lines(ls)) {
        Ok(r) => r,
        Err(e) => panic!("unexpected error: {:?}", e),
    }
}

fn err(ls: &[&str]) -> MetadataError {
    match parse_pep722(&lines(ls)) {
        Ok(r) => panic!("unexpected success: {:?} {:?}", r.python_version, r.dependencies),
        Err(e) => e,
    }
}

#[test]
fn example_header_version_inside_block() {
    // The block is still open at the version line, so that comment line is a
    // dependency entry like the others.
    let r = ok(&[
        "# Script Dependencies:",
        "#  requests>=2.0",
        "#  flask # web framework",
        "# X-Requires-Python: >=3.10",
        "print(\"hi\")",
    ]);
    assert_eq!(r.python_version, None);
    assert_eq!(
        r.dependencies,
        vec![
            "requests>=2.0".to_string(),
            "flask".to_string(),
            "X-Requires-Python: >=3.10".to_string()
        ]
    );
}

#[test]
fn example_header_with_closed_block() {
    let r = ok(&[
        "# Script Dependencies:",
        "#  requests>=2.0",
        "#  flask # web framework",
        "",
        "# X-Requires-Python: >=3.10",
        "print(\"hi\")",
    ]);
    assert_eq!(r.python_version, Some(">=3.10".to_string()));
    assert_eq!(r.dependencies, vec!["requests>=2.0".to_string(), "flask".to_string()]);
}

#[test]
fn no_metadata_lines() {
    let r = ok(&["#!/usr/bin/env python", "# just a comment", "import sys", "", "print(1)"]);
    assert_eq!(r.python_version, None);
    assert!(r.dependencies.is_empty());
}

#[test]
fn empty_file() {
    let r = ok(&[]);
    assert_eq!(r.python_version, None);
    assert!(r.dependencies.is_empty());
}

#[test]
fn version_then_block() {
    let r = ok(&[
        "#!/usr/bin/env python",
        "# x-requires-python: >=3.8",
        "",
        "# script dependencies:",
        "#   numpy",
        "#",
        "#   pandas==2.1  ",
        "import numpy",
    ]);
    assert_eq!(r.python_version, Some(">=3.8".to_string()));
    assert_eq!(r.dependencies, vec!["numpy".to_string(), "pandas==2.1".to_string()]);
}

#[test]
fn block_ends_at_end_of_input() {
    let r = ok(&["# Script Dependencies:", "# rich", "#   ", "# click"]);
    assert_eq!(r.python_version, None);
    assert_eq!(r.dependencies, vec!["rich".to_string(), "click".to_string()]);
}

#[test]
fn scanning_twice_gives_same_result() {
    let input = lines(&["# Script Dependencies:", "# a", "# b # c", "x", "# X-Requires-Python: 3"]);
    let r1 = parse_pep722(&input).unwrap();
    let r2 = parse_pep722(&input).unwrap();
    assert_eq!(r1.python_version, r2.python_version);
    assert_eq!(r1.dependencies, r2.dependencies);
    assert_eq!(r1.dependencies, vec!["a".to_string(), "b".to_string()]);
}

#[test]
fn repeated_version_is_an_error() {
    let e = err(&["# X-Requires-Python: >=3.8", "import os", "# x-requires-python: >=3.9"]);
    assert_eq!(e, MetadataError::RepeatedPythonVersion);
    assert_eq!(e.message(), "x-requires-python block defined multiple times in script.");
}

#[test]
fn repeated_block_is_an_error() {
    let e = err(&[
        "# Script Dependencies:",
        "#   requests",
        "",
        "# Script Dependencies:",
        "#   flask",
    ]);
    assert_eq!(e, MetadataError::RepeatedDependencies);
    assert_eq!(e.message(), "Script dependencies block defined multiple times in script.");
}

#[test]
fn empty_block_then_populated_block() {
    let r = ok(&["# Script Dependencies:", "pass", "# Script Dependencies:", "#   flask", "x = 1"]);
    assert_eq!(r.python_version, None);
    assert_eq!(r.dependencies, vec!["flask".to_string()]);
}

#[test]
fn blank_block_then_populated_block() {
    let r = ok(&["# Script Dependencies:", "#", "#   ", "", "# Script Dependencies:", "# attrs"]);
    assert_eq!(r.dependencies, vec!["attrs".to_string()]);
}

#[test]
fn inline_note_is_dropped() {
    let r = ok(&["# Script Dependencies:", "# requests # pinned version"]);
    assert_eq!(r.dependencies, vec!["requests".to_string()]);
}

#[test]
fn hash_without_spaces_is_kept() {
    let r = ok(&["# Script Dependencies:", "# pkg#egg", "# name #note"]);
    assert_eq!(r.dependencies, vec!["pkg#egg".to_string(), "name #note".to_string()]);
}

#[test]
fn version_inline_note_is_dropped_without_trim() {
    let r = ok(&["# X-Requires-Python: >=3.8  # minimum"]);
    assert_eq!(r.python_version, Some(">=3.8 ".to_string()));
}

#[test]
fn later_duplicates_are_not_read() {
    let r = ok(&[
        "# X-Requires-Python: >=3.10",
        "# Script Dependencies:",
        "#   httpx",
        "",
        "# Script Dependencies:",
        "# X-Requires-Python: >=3.11",
    ]);
    assert_eq!(r.python_version, Some(">=3.10".to_string()));
    assert_eq!(r.dependencies, vec!["httpx".to_string()]);
}

#[test]
fn markers_are_case_insensitive() {
    let r = ok(&["#\tSCRIPT   Dependencies:  ", "# Django", "", "#  X-REQUIRES-python:\t3.12"]);
    assert_eq!(r.python_version, Some("3.12".to_string()));
    assert_eq!(r.dependencies, vec!["Django".to_string()]);
}

#[test]
fn long_s_folds_to_s() {
    let r = ok(&["# \u{17f}cript dependencie\u{17f}:", "# toml"]);
    assert_eq!(r.dependencies, vec!["toml".to_string()]);
}

#[test]
fn markers_need_whitespace_after_hash() {
    let r = ok(&["#script dependencies:", "# a", "#x-requires-python: 3"]);
    assert_eq!(r.python_version, None);
    assert!(r.dependencies.is_empty());
}

#[test]
fn header_with_trailing_text_is_not_a_header() {
    let r = ok(&["# script dependencies: yes", "# a"]);
    assert!(r.dependencies.is_empty());
}

#[test]
fn version_needs_a_value() {
    let r = ok(&["# x-requires-python:", "# x-requires-python: "]);
    assert_eq!(r.python_version, None);
}

#[test]
fn blank_version_value_keeps_last_space() {
    let r = ok(&["# x-requires-python:   "]);
    assert_eq!(r.python_version, Some(" ".to_string()));
}

#[test]
fn non_breaking_space_counts_as_whitespace() {
    let r = ok(&["#\u{a0}x-requires-python:\u{3000}3.9", "# Script Dependencies:", "#\u{2003}pip\u{85}"]);
    assert_eq!(r.python_version, Some("3.9".to_string()));
    assert_eq!(r.dependencies, vec!["pip".to_string()]);
}

#[test]
fn scanner_reports_when_done() {
    let mut s = HeaderScanner::new();
    assert_eq!(s.feed("# X-Requires-Python: 3.11"), Ok(false));
    assert_eq!(s.feed("# Script Dependencies:"), Ok(false));
    assert_eq!(s.feed("# rich"), Ok(false));
    assert_eq!(s.feed("import rich"), Ok(false));
    assert_eq!(s.feed("# Script Dependencies:"), Ok(true));
    let r = s.finish();
    assert_eq!(r.python_version, Some("3.11".to_string()));
    assert_eq!(r.dependencies, vec!["rich".to_string()]);
}

#[test]
fn scanner_reports_errors() {
    let mut s = HeaderScanner::new();
    assert_eq!(s.feed("# X-Requires-Python: 3.11"), Ok(false));
    assert_eq!(s.feed("# X-Requires-Python: 3.12"), Err(MetadataError::RepeatedPythonVersion));
}
