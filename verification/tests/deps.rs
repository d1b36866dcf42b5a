use zen::deps::{check_dependencies, DepIssue};
use zen::metadata::python_version_of_dir;
use zen::types::{Diagnostic, HealthLevel};

fn texts(v: &[&str]) -> Vec<String> {
    v.iter().map(|s| s.to_string()).collect()
}

#[test]
fn satisfied_requirements_give_no_issue() {
    let metas = texts(&[
        "Name: app\nVersion: 1.0\nRequires-Dist: numpy>=1.20\nRequires-Dist: Requests\n",
        "Name: numpy\nVersion: 1.26.4\n",
        "Name: requests\nVersion: 2.31.0\n",
    ]);
    assert!(check_dependencies(&metas, "3.12").is_empty());
}

#[test]
fn missing_dependency_with_marker() {
    let metas = texts(&["Name: foo\nVersion: 1.0\nRequires-Dist: bar>=1; python_version < \"3.9\"\n"]);
    let py312 = python_version_of_dir("python3.12");
    assert!(check_dependencies(&metas, &py312).is_empty());
    let py38 = python_version_of_dir("python3.8");
    let issues = check_dependencies(&metas, &py38);
    assert_eq!(issues.len(), 1);
    match &issues[0] {
        DepIssue::Missing { package, requires } => {
            assert_eq!(package, "foo");
            assert_eq!(requires, "bar");
        }
        other => panic!("expected Missing, got {:?}", other),
    }
    assert_eq!(issues[0].level(), HealthLevel::Info);
    assert_eq!(issues[0].message(), "foo requires bar, which is not installed");
}

#[test]
fn incompatible_version() {
    let metas = texts(&[
        "Name: numpy\nVersion: 1.26.4\n",
        "Name: other\nVersion: 0.3\nRequires-Dist: numpy>=2,<3\n",
    ]);
    let issues = check_dependencies(&metas, "3.12");
    assert_eq!(issues.len(), 1);
    match &issues[0] {
        DepIssue::Incompatible { package, requires, installed_version } => {
            assert_eq!(package, "other");
            assert_eq!(requires, "numpy>=2,<3");
            assert_eq!(installed_version, "1.26.4");
        }
        other => panic!("expected Incompatible, got {:?}", other),
    }
    assert_eq!(issues[0].level(), HealthLevel::Warn);
    assert_eq!(
        issues[0].message(),
        "other requires numpy>=2,<3, but 1.26.4 is installed"
    );
}

#[test]
fn duplicate_dist_info() {
    let metas = texts(&["Name: foo\nVersion: 1.0\n", "Name: Foo\nVersion: 1.1\n"]);
    let issues = check_dependencies(&metas, "3.12");
    assert_eq!(issues.len(), 1);
    match &issues[0] {
        DepIssue::Duplicate { package, count } => {
            assert_eq!(package, "foo");
            assert_eq!(*count, 2);
        }
        other => panic!("expected Duplicate, got {:?}", other),
    }
    assert_eq!(issues[0].level(), HealthLevel::Warn);
    assert_eq!(issues[0].message(), "foo has 2 duplicate .dist-info entries");
}

#[test]
fn last_scanned_duplicate_wins() {
    let metas = texts(&[
        "Name: foo\nVersion: 1.0\n",
        "Name: foo\nVersion: 2.0\n",
        "Name: app\nVersion: 1\nRequires-Dist: foo>=2\n",
    ]);
    let issues = check_dependencies(&metas, "3.12");
    assert_eq!(issues.len(), 1);
    assert!(matches!(issues[0], DepIssue::Duplicate { .. }));
}

#[test]
fn extras_and_urls_are_skipped() {
    let metas = texts(&[
        "Name: app\nVersion: 1\nRequires-Dist: pytest; extra == \"test\"\nRequires-Dist: diffusers @ git+https://github.com/x/diffusers\n",
    ]);
    assert!(check_dependencies(&metas, "3.12").is_empty());
}

#[test]
fn platform_markers_do_not_exclude() {
    let metas = texts(&["Name: app\nVersion: 1\nRequires-Dist: colorama; sys_platform == \"win32\"\n"]);
    let issues = check_dependencies(&metas, "3.12");
    assert_eq!(issues.len(), 1);
    assert!(matches!(issues[0], DepIssue::Missing { .. }));
}

#[test]
fn same_missing_package_is_reported_for_each_requirer() {
    let metas = texts(&[
        "Name: a\nVersion: 1\nRequires-Dist: gone\n",
        "Name: b\nVersion: 1\nRequires-Dist: gone\n",
    ]);
    let issues = check_dependencies(&metas, "3.12");
    assert_eq!(issues.len(), 2);
}

#[test]
fn local_suffix_is_ignored_when_checking() {
    let metas = texts(&[
        "Name: torch\nVersion: 2.10.0+cu130\n",
        "Name: torchvision\nVersion: 0.25.0\nRequires-Dist: torch==2.10\n",
    ]);
    assert!(check_dependencies(&metas, "3.12").is_empty());
}

#[test]
fn metadata_without_name_or_version_takes_no_part() {
    let metas = texts(&[
        "Requires-Dist: gone\n",
        "Name: x\nRequires-Dist: gone\n",
        "Name: \nVersion: 1\nRequires-Dist: gone\n",
    ]);
    assert!(check_dependencies(&metas, "3.12").is_empty());
    assert!(check_dependencies(&Vec::new(), "3.12").is_empty());
}

#[test]
fn platform_clause_in_a_disjunction_keeps_the_requirement() {
    let metas = texts(&[
        "Name: foo\nVersion: 1.0\nRequires-Dist: bar>=1; python_version < \"3.9\" or sys_platform == \"win32\"\n",
    ]);
    let issues = check_dependencies(&metas, "3.12");
    assert_eq!(issues.len(), 1);
    match &issues[0] {
        DepIssue::Missing { package, requires } => {
            assert_eq!(package, "foo");
            assert_eq!(requires, "bar");
        }
        other => panic!("expected Missing, got {:?}", other),
    }
}

#[test]
fn duplicated_package_is_checked_against_one_version() {
    let metas = texts(&[
        "Name: foo\nVersion: 1.0\n",
        "Name: foo\nVersion: 1.1\n",
        "Name: bar\nVersion: 1.0\nRequires-Dist: foo>=1.1\nRequires-Dist: foo<1.1\n",
    ]);
    let issues = check_dependencies(&metas, "3.12");
    let duplicates: Vec<&DepIssue> =
        issues.iter().filter(|i| matches!(i, DepIssue::Duplicate { .. })).collect();
    assert_eq!(duplicates.len(), 1);
    match duplicates[0] {
        DepIssue::Duplicate { package, count } => {
            assert_eq!(package, "foo");
            assert_eq!(*count, 2);
        }
        _ => unreachable!(),
    }
    let incompatible: Vec<&DepIssue> =
        issues.iter().filter(|i| matches!(i, DepIssue::Incompatible { .. })).collect();
    assert_eq!(incompatible.len(), 1);
    match incompatible[0] {
        DepIssue::Incompatible { package, requires, installed_version } => {
            assert_eq!(package, "bar");
            assert_eq!(requires, "foo<1.1");
            assert_eq!(installed_version, "1.1");
        }
        _ => unreachable!(),
    }
    assert_eq!(issues.len(), 2);
}
