use zen::mcp::{
    effective_timeout, find_in_env, package_matches, render_comparison, render_env_line,
    render_env_list, render_environment_details, render_error, render_find, render_note_line,
    render_notes, render_package_details, render_project_env, render_run, render_search,
    search_in_env, timeout_message, ComparedEnv, RunOutcome,
};
use zen::scanner::PackageMetadata;

fn pkg(name: &str, version: Option<&str>) -> PackageMetadata {
    let mut p = PackageMetadata::default();
    p.name = name.to_string();
    p.version = version.map(|v| v.to_string());
    p
}

#[test]
fn timeouts() {
    assert_eq!(effective_timeout(None), Some(120));
    assert_eq!(effective_timeout(Some(0)), None);
    assert_eq!(effective_timeout(Some(5)), Some(5));
    assert_eq!(timeout_message(120), "Command timed out after 120s");
}

#[test]
fn run_answers() {
    let ok = RunOutcome::Finished { code: 0, output: "hello".to_string() };
    assert_eq!(render_run(&ok), "hello");
    let failed = RunOutcome::Finished { code: 2, output: "oops".to_string() };
    assert_eq!(render_run(&failed), "oops\n[exit code: 2]");
    let killed = RunOutcome::Finished { code: -1, output: String::new() };
    assert_eq!(render_run(&killed), "\n[exit code: -1]");
    assert_eq!(
        render_run(&RunOutcome::Failed("Command timed out after 3s".to_string())),
        "Error: Command timed out after 3s"
    );
    assert_eq!(render_run(&RunOutcome::Panicked), "Error: Command execution panicked");
}

#[test]
fn long_output_is_cut() {
    let long = RunOutcome::Finished { code: 1, output: "x".repeat(10241) };
    let r = render_run(&long);
    assert!(r.starts_with(&"x".repeat(10240)));
    assert!(r.ends_with("\n... (output truncated to 10KB)\n[exit code: 1]"));
    assert_eq!(r.len(), 10240 + "\n... (output truncated to 10KB)\n[exit code: 1]".len());
    let exact = RunOutcome::Finished { code: 0, output: "x".repeat(10240) };
    assert_eq!(render_run(&exact).len(), 10240);
}

#[test]
fn package_queries() {
    let torch = pkg("torch", Some("2.10.0+cu130"));
    assert!(package_matches("torch", &torch));
    assert!(package_matches("*TOR*", &torch));
    assert!(package_matches("torch==2.10", &torch));
    assert!(package_matches("torch==2.10.0+cu130", &torch));
    assert!(!package_matches("torch==2.10.0+cu128", &torch));
    assert!(!package_matches("torch==2.9", &torch));
    assert!(!package_matches("numpy", &torch));
    assert!(package_matches("", &torch));
    assert!(package_matches("tag-det", &pkg("tag_detector", Some("1"))));
    assert!(!package_matches("x==1", &pkg("x", None)));
    assert!(package_matches("x", &pkg("x", None)));
}

#[test]
fn find_answers() {
    let ps = vec![pkg("torch", Some("2.10.0+cu130")), pkg("torchvision", None), pkg("numpy", Some("2.1"))];
    let lines = find_in_env("torch", "ml", &ps);
    assert_eq!(lines, vec!["• ml → torch (2.10.0+cu130)".to_string(), "• ml → torchvision (?)".to_string()]);
    assert_eq!(
        render_find("torch", &lines),
        "Found 2 match(es) for 'torch':\n• ml → torch (2.10.0+cu130)\n• ml → torchvision (?)"
    );
    assert_eq!(render_find("zzz", &Vec::new()), "No packages matching 'zzz' found");
}

#[test]
fn package_details_answer() {
    let mut p = pkg("pillow", Some("10.0"));
    p.installer = Some("uv".to_string());
    p.install_source = Some("git".to_string());
    p.is_editable = true;
    p.source_url = Some("https://github.com/x/pillow".to_string());
    p.commit_id = Some("abc".to_string());
    p.import_name = Some("PIL".to_string());
    assert_eq!(
        render_package_details("ml", &p, Some("2026-01-02 03:04".to_string())),
        "# pillow in 'ml'\n\n**Version**: 10.0\n**Installer**: uv\n**Source**: git\n**Editable**: yes\n**URL**: https://github.com/x/pillow\n**Commit**: abc\n**Import**: `PIL`\n**Installed**: 2026-01-02 03:04\n"
    );
    assert_eq!(
        render_package_details("ml", &pkg("x", None), None),
        "# x in 'ml'\n\n**Version**: unknown\n**Installer**: unknown\n**Source**: unknown\n**Editable**: no\n"
    );
}

#[test]
fn list_lines() {
    assert_eq!(render_project_env("a", &Some("main".to_string()), true), "• a [main] (DEFAULT)");
    assert_eq!(render_project_env("a", &None, false), "• a");
    assert_eq!(
        render_env_line("ml", "3.12", "/home/u/envs/ml"),
        "• ml (Python 3.12) - ~/…/ml\n"
    );
}

fn compared(name: &str, py: Option<&str>, ps: Vec<PackageMetadata>) -> ComparedEnv {
    ComparedEnv { name: name.to_string(), python_version: py.map(|p| p.to_string()), packages: ps }
}

#[test]
fn comparison_needs_two_names() {
    assert_eq!(render_comparison(&Vec::new()), "At least two environment names are required");
    assert_eq!(
        render_comparison(&vec![compared("a", Some("3.12"), Vec::new())]),
        "At least two environment names are required"
    );
}

#[test]
fn comparison_of_two_environments() {
    let a = compared(
        "a",
        Some("3.12"),
        vec![pkg("numpy", Some("1.26")), pkg("zlib", Some("1")), pkg("Torch", Some("2.9")), pkg("only_a", None)],
    );
    let b = compared(
        "b",
        Some("3.11"),
        vec![pkg("torch", Some("2.10")), pkg("numpy", Some("2.1")), pkg("zlib", Some("1")), pkg("b_only", Some("3")), pkg("a_first", Some("3"))],
    );
    let gone = compared("gone", None, Vec::new());
    assert_eq!(
        render_comparison(&vec![gone, a, b]),
        "# Comparison: gone vs a vs b\n\n## gone\n- Not found\n\n## a\n- Python: 3.12\n- Packages: 4\n\n## b\n- Python: 3.11\n- Packages: 5\n\n## Version differences\n\n| Package | a | b |\n|---------|------|------|\n| numpy | 1.26 | 2.1 |\n| torch | 2.9 | 2.10 |\n\n## Only in a\nonly_a\n\n## Only in b\na_first, b_only\n\n"
    );
}

#[test]
fn comparison_without_differences() {
    let a = compared("a", Some("3.12"), vec![pkg("x", Some("1")), pkg("X", Some("1"))]);
    let b = compared("b", Some("3.12"), vec![pkg("x", Some("1"))]);
    assert_eq!(
        render_comparison(&vec![a, b]),
        "# Comparison: a vs b\n\n## a\n- Python: 3.12\n- Packages: 1\n\n## b\n- Python: 3.12\n- Packages: 1\n\n"
    );
    let a = compared("a", Some("3.12"), Vec::new());
    let gone = compared("gone", None, Vec::new());
    assert_eq!(
        render_comparison(&vec![a, gone]),
        "# Comparison: a vs gone\n\n## a\n- Python: 3.12\n- Packages: 0\n\n## gone\n- Not found\n\n"
    );
}

#[test]
fn search_answers() {
    let ps = vec![pkg("Torch", Some("2.10")), pkg("numpy", None)];
    let lines = search_in_env("TOR", "ml", &ps);
    assert_eq!(lines, vec!["• ml → Torch (2.10)".to_string()]);
    assert_eq!(render_search("TOR", &lines), "Packages matching 'TOR':\n• ml → Torch (2.10)");
    assert_eq!(render_search("x", &Vec::new()), "No packages matching 'x' found");
    assert!(search_in_env("tor-ch", "ml", &ps).is_empty());
}

#[test]
fn environment_list_answers() {
    let lines = vec![render_env_line("a", "3.12", "/e/a"), render_env_line("b", "3.11", "/e/b")];
    assert_eq!(
        render_env_list(&lines, &None),
        "• a (Python 3.12) - ~/…/a\n• b (Python 3.11) - ~/…/b\n"
    );
    assert_eq!(render_env_list(&Vec::new(), &None), "No environments found.");
    assert_eq!(
        render_env_list(&Vec::new(), &Some("ml".to_string())),
        "No environments found with label 'ml'"
    );
}

#[test]
fn environment_details_answer() {
    let ps = vec![pkg("torch", Some("2.10.0+cu130")), pkg("numpy", Some("2.1"))];
    assert_eq!(
        render_environment_details(
            "ml",
            "3.12",
            "/home/u/envs/ml",
            &ps,
            Some("2026-01-02 03:04".to_string()),
            Some(("2.10.0+cu130".to_string(), Some("13.0".to_string()))),
        ),
        "# Environment: ml\n\n**Python**: 3.12\n**Path**: ~/…/ml\n**Packages**: 2\n**Created**: 2026-01-02 03:04\n\n**PyTorch**: 2.10.0+cu130\n**CUDA**: 13.0\n**NumPy**: 2.1\n"
    );
    assert_eq!(
        render_environment_details("e", "3.11", "/e", &Vec::new(), None, None),
        "# Environment: e\n\n**Python**: 3.11\n**Path**: ~/…/e\n**Packages**: 0\n\n"
    );
}

#[test]
fn notes_and_errors() {
    let lines = vec![render_note_line("2026-01-02 03:04", "first"), render_note_line("t", "second")];
    assert_eq!(render_notes("ml", &lines), "Notes for 'ml':\n[2026-01-02 03:04] first\n[t] second\n");
    assert_eq!(render_notes("ml", &Vec::new()), "No notes for environment 'ml'");
    assert_eq!(render_error("boom"), "Error: boom");
}
