use zen::ops::{
    add_env_note, choose_install_command, choose_uninstall_command, combine_output, comment_logged_message, comment_tag, created_message,
    env_bin_dir, env_search_path, import_summary, install_command, list_envs_with_status,
    log_comment, not_found_message, note_added_message, packages_to_log, removal_message,
    render_link_entry, resolve_env_name, show_command, trial_install_command,
    uninstall_command, EnvSort, InstallOptions, Removal,
};
use zen::order::{sort_by_key, SortKey};
use zen::registry::{Environment, LinkType, Registry, RegistryError};
use zen::types::EnvName;
use zen::scanner::PackageMetadata;

fn strs(v: &[&str]) -> Vec<String> {
    v.iter().map(|s| s.to_string()).collect()
}

#[test]
fn install_arguments_in_order() {
    let opts = InstallOptions {
        index_url: Some("https://download.pytorch.org/whl/cu130".to_string()),
        extra_index_url: Some("https://pypi.org/simple".to_string()),
        pre: true,
        upgrade: true,
        editable: true,
        dry_run: true,
    };
    let (program, args) = install_command(&strs(&["torch", "numpy>=2"]), &opts, true);
    assert_eq!(program, "uv");
    assert_eq!(
        args,
        strs(&[
            "pip",
            "install",
            "-e",
            "--pre",
            "--upgrade",
            "--dry-run",
            "--index-url",
            "https://download.pytorch.org/whl/cu130",
            "--extra-index-url",
            "https://pypi.org/simple",
            "torch",
            "numpy>=2"
        ])
    );
}

#[test]
fn install_arguments_without_options() {
    let (program, args) = install_command(&strs(&["numpy"]), &InstallOptions::default(), false);
    assert_eq!(program, "pip");
    assert_eq!(args, strs(&["install", "numpy"]));
    let (program, args) = install_command(&Vec::new(), &InstallOptions::default(), true);
    assert_eq!(program, "uv");
    assert_eq!(args, strs(&["pip", "install"]));
}

#[test]
fn uninstall_arguments() {
    let (program, args) = uninstall_command(&strs(&["numpy", "scipy"]), true);
    assert_eq!(program, "uv");
    assert_eq!(args, strs(&["pip", "uninstall", "numpy", "scipy"]));
    let (program, args) = uninstall_command(&strs(&["numpy"]), false);
    assert_eq!(program, "pip");
    assert_eq!(args, strs(&["uninstall", "-y", "numpy"]));
}

#[test]
fn trial_and_show_commands() {
    let (program, args) = trial_install_command(
        &strs(&["torch"]),
        &None,
        &Some("https://x/whl".to_string()),
        true,
    );
    assert_eq!(program, "uv");
    assert_eq!(args, strs(&["pip", "install", "--index-url", "https://x/whl", "torch"]));
    let (_, args) =
        trial_install_command(&strs(&["ignored"]), &Some("/tmp/a.whl".to_string()), &None, false);
    assert_eq!(args, strs(&["install", "/tmp/a.whl"]));
    assert_eq!(show_command("numpy", true), ("uv".to_string(), strs(&["pip", "show", "numpy"])));
    assert_eq!(show_command("numpy", false), ("pip".to_string(), strs(&["show", "numpy"])));
}

#[test]
fn search_path_is_prefixed_with_bin() {
    assert_eq!(env_bin_dir("/envs/a"), "/envs/a/bin");
    assert_eq!(env_bin_dir("/envs/a/"), "/envs/a/bin");
    assert_eq!(env_bin_dir(""), "bin");
    assert_eq!(env_search_path("/envs/a", "/usr/bin:/bin"), "/envs/a/bin:/usr/bin:/bin");
    assert_eq!(env_search_path("/envs/a", ""), "/envs/a/bin:");
}

#[test]
fn outputs_are_combined() {
    assert_eq!(combine_output("out", "err"), "out\nerr");
    assert_eq!(combine_output("out", ""), "out");
    assert_eq!(combine_output("", "err"), "err");
    assert_eq!(combine_output("", ""), "");
}

fn pkg(name: &str, version: Option<&str>) -> PackageMetadata {
    let mut p = PackageMetadata::default();
    p.name = name.to_string();
    p.version = version.map(|v| v.to_string());
    p
}

#[test]
fn installed_packages_to_log() {
    let installed = vec![pkg("torch", Some("2.10.0+cu130")), pkg("numpy", Some("2.1")), pkg("odd", None)];
    let requested = strs(&["numpy", "torch-cu130", "/tmp/x/pkg", "a.whl", "missing", "odd", "numpy>=2"]);
    let logged = packages_to_log(&requested, &installed);
    assert_eq!(
        logged,
        vec![
            ("numpy".to_string(), "2.1".to_string()),
            ("torch".to_string(), "2.10.0+cu130".to_string()),
            ("odd".to_string(), "unknown".to_string()),
        ]
    );
}

fn env(name: &str, updated_at: i64, is_favorite: bool) -> Environment {
    Environment {
        id: 0,
        name: name.to_string(),
        path: format!("/envs/{}", name),
        python_version: "3.12".to_string(),
        updated_at,
        is_favorite,
    }
}

fn names(v: &[Environment]) -> Vec<&str> {
    v.iter().map(|e| e.name.as_str()).collect()
}

#[test]
fn listing_filters_sorts_and_limits() {
    let envs = vec![env("zeta", 5, false), env("Alpha", 1, false), env("beta", 9, true), env("ML-big", 3, false), env("fav2", 2, true)];
    let all = list_envs_with_status(&envs, None, EnvSort::Name, None);
    assert_eq!(names(&all), vec!["beta", "fav2", "Alpha", "ML-big", "zeta"]);
    let by_date = list_envs_with_status(&envs, None, EnvSort::Date, None);
    assert_eq!(names(&by_date), vec!["beta", "fav2", "zeta", "ML-big", "Alpha"]);
    let filtered = list_envs_with_status(&envs, Some("ET"), EnvSort::Name, None);
    assert_eq!(names(&filtered), vec!["beta", "zeta"]);
    let limited = list_envs_with_status(&envs, None, EnvSort::Name, Some(3));
    assert_eq!(names(&limited), vec!["beta", "fav2", "Alpha"]);
    assert!(list_envs_with_status(&envs, None, EnvSort::Name, Some(0)).is_empty());
    assert_eq!(list_envs_with_status(&envs, None, EnvSort::Name, Some(99)).len(), 5);
    assert!(list_envs_with_status(&envs, Some("nothing"), EnvSort::Name, None).is_empty());
}

#[test]
fn sorting_is_stable_and_ordered() {
    let keys: Vec<SortKey> = ["b", "a", "c", "a", ""]
        .iter()
        .map(|s| SortKey::Text(s.chars().collect()))
        .collect();
    assert_eq!(sort_by_key(&keys, false), vec![4, 1, 3, 0, 2]);
    assert_eq!(sort_by_key(&keys, true), vec![2, 0, 1, 3, 4]);
    let nums: Vec<SortKey> = [3, -1, 3, 0].iter().map(|n| SortKey::Number(*n)).collect();
    assert_eq!(sort_by_key(&nums, false), vec![1, 3, 0, 2]);
    assert_eq!(sort_by_key(&nums, true), vec![0, 2, 3, 1]);
    assert!(sort_by_key(&Vec::new(), false).is_empty());
    let mixed = vec![SortKey::Text(vec!['a']), SortKey::Number(7)];
    assert_eq!(sort_by_key(&mixed, false), vec![1, 0]);
}

#[test]
fn summaries() {
    assert_eq!(import_summary(1, 0), "\n\x1b[32m✓\x1b[39m Imported 1 environment, skipped 0.");
    assert_eq!(import_summary(3, 12), "\n\x1b[32m✓\x1b[39m Imported 3 environments, skipped 12.");
    assert_eq!(import_summary(0, 0), "\n\x1b[32m✓\x1b[39m Imported 0 environments, skipped 0.");
    assert_eq!(comment_tag(Some("myenv")), "Env: myenv");
    assert_eq!(comment_tag(None), "General");
}

fn is_identifier(s: &str) -> bool {
    s.len() == 36
        && s.chars().enumerate().all(|(i, c)| {
            if i == 8 || i == 13 || i == 18 || i == 23 {
                c == '-'
            } else {
                c.is_ascii_hexdigit() && !c.is_ascii_uppercase()
            }
        })
        && s.as_bytes()[14] == b'4'
}

#[test]
fn comments_get_new_identifiers() {
    let mut db = Registry::new();
    let id = db.register_env("ml", "/envs/ml", "3.12", 0).unwrap();
    let name = EnvName::new("ml").unwrap();
    let first = log_comment(&mut db, Some(&name), "/proj", "hello", 10).unwrap();
    let second = log_comment(&mut db, None, "/proj", "general", 20).unwrap();
    let third = add_env_note(&mut db, &name, "a note", 30).unwrap();
    assert!(is_identifier(&first));
    assert!(is_identifier(&second));
    assert!(is_identifier(&third));
    assert_ne!(first, second);
    assert_ne!(second, third);
    let notes = db.notes();
    assert_eq!(notes.len(), 3);
    assert_eq!(notes[0].uuid, first);
    assert_eq!(notes[0].env_id, Some(id));
    assert_eq!(notes[0].tag, Some("Env: ml".to_string()));
    assert_eq!(notes[0].project_path, "/proj");
    assert_eq!(notes[1].env_id, None);
    assert_eq!(notes[1].tag, Some("General".to_string()));
    assert_eq!(notes[2].project_path, "");
    assert_eq!(notes[2].tag, Some("note".to_string()));
    assert_eq!(notes[2].message, "a note");
    let gone = EnvName::new("gone").unwrap();
    assert_eq!(log_comment(&mut db, Some(&gone), "/p", "x", 1), Err(RegistryError::NotFound));
    assert_eq!(add_env_note(&mut db, &gone, "x", 1), Err(RegistryError::NotFound));
    assert_eq!(db.notes().len(), 3);
}

#[test]
fn environment_of_a_command() {
    let mut db = Registry::new();
    db.register_env("ml", "/envs/ml", "3.12", 0).unwrap();
    assert_eq!(resolve_env_name(Some("given"), Some("/envs/ml"), &db), Ok("given".to_string()));
    assert_eq!(resolve_env_name(None, Some("/envs/ml"), &db), Ok("ml".to_string()));
    assert_eq!(resolve_env_name(None, Some("/other/place/venv/"), &db), Ok("venv".to_string()));
    assert!(resolve_env_name(None, Some("/"), &db).unwrap_err().starts_with("No environment specified."));
    assert!(resolve_env_name(None, None, &db).is_err());
}

#[test]
fn link_entries() {
    assert_eq!(
        render_link_entry(
            "ml",
            "/envs/ml",
            &Some("main".to_string()),
            true,
            LinkType::User,
            12,
            &Some("2026-01-02".to_string())
        ),
        "  • ml ★ (main) [default] → /envs/ml [12x, last: 2026-01-02]"
    );
    assert_eq!(
        render_link_entry("ml", "/envs/ml", &None, false, LinkType::Activated, 0, &None),
        "  • ml → /envs/ml"
    );
    assert_eq!(
        render_link_entry("ml", "/e", &None, false, LinkType::Activated, 3, &None),
        "  • ml → /e [3x]"
    );
}

#[test]
fn messages_of_operations() {
    assert_eq!(
        removal_message("ml", Removal::Removed),
        "\x1b[32m✓\x1b[39m Environment 'ml' removed from disk and registry."
    );
    assert_eq!(
        removal_message("ml", Removal::OrphanRemoved),
        "\x1b[32m✓\x1b[39m Orphaned directory 'ml' removed from disk (was not in registry)."
    );
    assert_eq!(
        removal_message("ml", Removal::Untracked),
        "\x1b[32m✓\x1b[39m Environment 'ml' removed from registry (files kept on disk)."
    );
    assert_eq!(
        comment_logged_message(Some("ml"), "abc"),
        "\x1b[32m✓\x1b[39m comment logged to \x1b[36m\x1b[1mml\x1b[0m\x1b[39m history (UUID: \x1b[2mabc\x1b[0m)."
    );
    assert_eq!(
        comment_logged_message(None, "abc"),
        "\x1b[32m✓\x1b[39m comment logged to project history (UUID: \x1b[2mabc\x1b[0m)."
    );
    assert_eq!(created_message("ml", 7), "Created environment ml (ID: 7)");
    assert_eq!(not_found_message("ml"), "Environment 'ml' not found");
    assert_eq!(note_added_message("ml"), "Note added to environment 'ml'");
}

#[test]
fn installer_is_chosen_by_what_is_on_the_machine() {
    let packages = strs(&["numpy"]);
    let chosen = choose_install_command(&packages, &InstallOptions::default());
    let with_uv = install_command(&packages, &InstallOptions::default(), true);
    let with_pip = install_command(&packages, &InstallOptions::default(), false);
    assert!(chosen == with_uv || chosen == with_pip);
    let chosen = choose_uninstall_command(&packages);
    assert!(chosen == uninstall_command(&packages, true) || chosen == uninstall_command(&packages, false));
}
