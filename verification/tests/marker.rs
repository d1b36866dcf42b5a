use zen::marker::{eval_single_python_marker, marker_excludes, marker_excludes_python};

#[test]
fn single_python_clause() {
    assert!(eval_single_python_marker("python_version < \"3.11\"", "3.9"));
    assert!(!eval_single_python_marker("python_version < \"3.9\"", "3.12"));
    assert!(eval_single_python_marker("python_full_version >= \"3.9.0\"", "3.12"));
    assert!(eval_single_python_marker("(python_version >= '3.8')", "3.8"));
    assert!(!eval_single_python_marker("python_version == \"3.8\"", "3.12"));
    assert!(eval_single_python_marker("python_version != \"3.8\"", "3.12"));
    assert!(!eval_single_python_marker("python_version > \"3.12\"", "3.12"));
    assert!(eval_single_python_marker("python_version <= \"3.12\"", "3.12"));
}

#[test]
fn clause_that_cannot_be_read_is_true() {
    assert!(eval_single_python_marker("python_version", "3.12"));
    assert!(eval_single_python_marker("python_version < \"\"", "3.12"));
    assert!(eval_single_python_marker("", "3.12"));
}

#[test]
fn marker_excludes_when_python_clause_is_false() {
    assert!(marker_excludes_python("python_version < \"3.9\"", "3.12"));
    assert!(!marker_excludes_python("python_version < \"3.9\"", "3.8"));
}

#[test]
fn conjunction_needs_every_python_clause() {
    let m = "python_version >= \"3.8\" and python_version < \"3.11\"";
    assert!(!marker_excludes_python(m, "3.9"));
    assert!(marker_excludes_python(m, "3.12"));
    assert!(marker_excludes_python(m, "3.7"));
    assert!(!marker_excludes_python("sys_platform == \"linux\" and python_version >= \"3.8\"", "3.9"));
}

#[test]
fn disjunction_needs_one_python_clause() {
    let m = "python_version < \"3.8\" or python_version >= \"3.11\"";
    assert!(marker_excludes_python(m, "3.9"));
    assert!(!marker_excludes_python(m, "3.12"));
    assert!(!marker_excludes_python(m, "3.7"));
}

#[test]
fn unknown_markers_do_not_exclude() {
    assert!(!marker_excludes_python("sys_platform == \"win32\"", "3.12"));
    assert!(!marker_excludes("sys_platform == \"win32\"", "3.12"));
    assert!(!marker_excludes("platform_machine == \"arm64\"", "3.12"));
    assert!(!marker_excludes("os_name == \"nt\" and implementation_name == \"cpython\"", "3.12"));
    assert!(!marker_excludes("some_future_marker ~~ 1", "3.12"));
    assert!(!marker_excludes("", "3.12"));
}

#[test]
fn extras_always_exclude() {
    assert!(marker_excludes("extra == \"dev\"", "3.12"));
    assert!(marker_excludes("extra==\"dev\"", "3.12"));
    assert!(marker_excludes("python_version >= \"3.8\" and extra == \"test\"", "3.12"));
}

#[test]
fn platform_clause_keeps_a_disjunction() {
    let m = "python_version < \"3.9\" or sys_platform == \"win32\"";
    assert!(!marker_excludes_python(m, "3.12"));
    assert!(!marker_excludes(m, "3.12"));
    assert!(!marker_excludes_python(m, "3.8"));
    let m = "sys_platform == \"win32\" or python_version < \"3.9\"";
    assert!(!marker_excludes_python(m, "3.12"));
    assert!(!marker_excludes("some_future_marker ~~ 1 or python_version < \"3.9\"", "3.12"));
}

#[test]
fn disjunction_inside_a_conjunction() {
    let m = "python_version >= \"3.8\" and (python_version < \"3.9\" or sys_platform == \"win32\")";
    assert!(!marker_excludes_python(m, "3.12"));
    assert!(marker_excludes_python(m, "3.7"));
    let m = "python_version >= \"3.8\" and (python_version < \"3.9\" or python_version >= \"3.11\")";
    assert!(marker_excludes_python(m, "3.10"));
    assert!(!marker_excludes_python(m, "3.12"));
    assert!(!marker_excludes_python(m, "3.8"));
    assert!(marker_excludes_python(m, "3.7"));
}
