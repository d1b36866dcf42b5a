use zen::repl::{
    handle_add, handle_drop, base_name_of, command_of, find_index_url, find_target_step,
    parse_step_flag, read_shown_version, wheel_package_name, Dropped, Pkg, ReplCmd, Step,
    StepMode,
};

fn pkg(name: &str) -> Pkg {
    Pkg { name: name.to_string(), version: "1".to_string(), install_type: "pypi".to_string() }
}

fn step(args: Option<&str>, names: &[&str]) -> Step {
    Step { install_args: args.map(|a| a.to_string()), packages: names.iter().map(|n| pkg(n)).collect() }
}

fn shape(steps: &[Step]) -> Vec<(Option<&str>, Vec<&str>)> {
    steps
        .iter()
        .map(|s| (s.install_args.as_deref(), s.packages.iter().map(|p| p.name.as_str()).collect()))
        .collect()
}

#[test]
fn target_steps() {
    assert_eq!(find_target_step(StepMode::New, 3), Ok(3));
    assert_eq!(find_target_step(StepMode::At(2), 3), Ok(2));
    assert_eq!(find_target_step(StepMode::At(3), 3), Err("Step 3 not found (max: 2).".to_string()));
    assert_eq!(find_target_step(StepMode::At(0), 0), Err("Step 0 not found (max: 0).".to_string()));
    assert_eq!(find_target_step(StepMode::After(2), 3), Ok(3));
    assert_eq!(find_target_step(StepMode::After(3), 3), Err("Step 3 not found (max: 2).".to_string()));
    assert_eq!(find_target_step(StepMode::Before(3), 3), Ok(3));
    assert_eq!(find_target_step(StepMode::Before(4), 3), Err("Step 4 not found.".to_string()));
}

#[test]
fn step_flag_values() {
    assert_eq!(parse_step_flag("\"2\"", 5, "--at"), Ok(2));
    assert_eq!(parse_step_flag("+2", 5, "--at"), Ok(2));
    assert_eq!(parse_step_flag("-5", 5, "--at"), Ok(0));
    assert_eq!(
        parse_step_flag("-6", 5, "--at"),
        Err("Index -6 is out of range (only 5 steps).".to_string())
    );
    assert_eq!(parse_step_flag("x", 5, "--after"), Err("--after requires a numeric step index.".to_string()));
    assert_eq!(parse_step_flag("", 5, "--at"), Err("--at requires a numeric step index.".to_string()));
}

#[test]
fn index_url_is_inherited_from_the_step() {
    let steps = vec![step(Some("--index-url https://x/whl"), &["torch"]), step(None, &["numpy"]), step(Some("--pre   --index  https://y"), &["z"])];
    assert_eq!(find_index_url(&steps, StepMode::At(0), &None), Some("https://x/whl".to_string()));
    assert_eq!(find_index_url(&steps, StepMode::At(2), &None), Some("https://y".to_string()));
    assert_eq!(find_index_url(&steps, StepMode::At(1), &None), None);
    assert_eq!(find_index_url(&steps, StepMode::At(9), &None), None);
    assert_eq!(find_index_url(&steps, StepMode::At(0), &Some("https://g".to_string())), Some("https://g".to_string()));
    assert_eq!(find_index_url(&steps, StepMode::After(0), &None), None);
    assert_eq!(find_index_url(&steps, StepMode::New, &Some("https://g".to_string())), Some("https://g".to_string()));
}

#[test]
fn package_names_for_lookup() {
    assert_eq!(base_name_of("numpy>=2.0"), "numpy");
    assert_eq!(base_name_of("numpy"), "numpy");
    assert_eq!(base_name_of("a~=1"), "a");
    assert_eq!(wheel_package_name(Some("my_pkg-1.0-py3-none-any.whl")), "my_pkg");
    assert_eq!(wheel_package_name(Some("mypkg.whl")), "mypkg");
    assert_eq!(wheel_package_name(Some("noext")), "noext");
    assert_eq!(wheel_package_name(Some(".hidden")), ".hidden");
    assert_eq!(wheel_package_name(None), "unknown");
}

#[test]
fn version_from_show_output() {
    assert_eq!(read_shown_version("Name: numpy\nVersion: 2.1.0\nSummary: x\n"), "2.1.0");
    assert_eq!(read_shown_version("Version:Version:  3 \n"), "3");
    assert_eq!(read_shown_version("Name: numpy\n"), "unknown");
    assert_eq!(read_shown_version(""), "unknown");
}

#[test]
fn add_makes_a_new_step_and_moves_packages() {
    let mut steps = vec![step(None, &["numpy", "scipy"]), step(Some("--index-url https://x"), &["torch"])];
    assert_eq!(handle_add(&mut steps, StepMode::New, &None, vec![pkg("scipy"), pkg("pandas")]), Ok(()));
    assert_eq!(
        shape(&steps),
        vec![
            (None, vec!["numpy"]),
            (Some("--index-url https://x"), vec!["torch"]),
            (None, vec!["scipy", "pandas"]),
        ]
    );
}

#[test]
fn add_drops_steps_that_become_empty() {
    let mut steps = vec![step(None, &["numpy"]), step(None, &["torch"])];
    assert_eq!(handle_add(&mut steps, StepMode::Before(0), &Some("https://i".to_string()), vec![pkg("numpy")]), Ok(()));
    assert_eq!(shape(&steps), vec![(Some("--index-url https://i"), vec!["numpy"]), (None, vec!["torch"])]);
    let mut steps = vec![step(None, &["a"]), step(None, &["b"]), step(None, &["c"])];
    assert_eq!(handle_add(&mut steps, StepMode::After(0), &None, vec![pkg("b")]), Ok(()));
    assert_eq!(shape(&steps), vec![(None, vec!["a"]), (None, vec!["b"]), (None, vec!["c"])]);
    let mut steps = vec![step(None, &["a"])];
    assert_eq!(handle_add(&mut steps, StepMode::After(0), &None, vec![pkg("a")]), Ok(()));
    assert_eq!(shape(&steps), vec![(None, vec!["a"])]);
}

#[test]
fn add_at_a_step_appends_and_replaces() {
    let mut steps = vec![step(None, &["a", "b"]), step(Some("--index-url https://x"), &["torch", "c"])];
    assert_eq!(handle_add(&mut steps, StepMode::At(1), &None, vec![pkg("torch"), pkg("a")]), Ok(()));
    assert_eq!(
        shape(&steps),
        vec![(None, vec!["b"]), (Some("--index-url https://x"), vec!["c", "torch", "a"])]
    );
}

#[test]
fn add_to_a_step_that_is_not_there() {
    let mut none: Vec<Step> = Vec::new();
    assert_eq!(
        handle_add(&mut none, StepMode::At(0), &None, vec![pkg("x")]),
        Err("Step 0 not found (max: 0).".to_string())
    );
    assert!(none.is_empty());
    let mut steps = vec![step(None, &["a"]), step(None, &["b"])];
    assert_eq!(
        handle_add(&mut steps, StepMode::At(2), &None, vec![pkg("a")]),
        Err("Step 2 not found (max: 1).".to_string())
    );
    assert_eq!(
        handle_add(&mut steps, StepMode::After(5), &None, vec![pkg("a")]),
        Err("Step 5 not found (max: 1).".to_string())
    );
    assert_eq!(
        handle_add(&mut steps, StepMode::Before(3), &None, vec![pkg("a")]),
        Err("Step 3 not found.".to_string())
    );
    assert_eq!(shape(&steps), vec![(None, vec!["a"]), (None, vec!["b"])]);
    assert_eq!(handle_add(&mut steps, StepMode::Before(2), &None, vec![pkg("c")]), Ok(()));
    assert_eq!(shape(&steps), vec![(None, vec!["a"]), (None, vec!["b"]), (None, vec!["c"])]);
}

#[test]
fn drop_by_index_and_by_name() {
    let mut steps = vec![step(None, &["a", "b"]), step(None, &["c"]), step(None, &["b"])];
    assert_eq!(handle_drop(&mut steps, "1"), Ok(Dropped::Step { index: 1, packages: 1 }));
    assert_eq!(shape(&steps), vec![(None, vec!["a", "b"]), (None, vec!["b"])]);
    assert_eq!(handle_drop(&mut steps, "b"), Ok(Dropped::Package));
    assert_eq!(shape(&steps), vec![(None, vec!["a"]), (None, vec!["b"])]);
    assert_eq!(handle_drop(&mut steps, "b"), Ok(Dropped::Package));
    assert_eq!(shape(&steps), vec![(None, vec!["a"])]);
    assert_eq!(handle_drop(&mut steps, "zzz"), Err("'zzz' not found.".to_string()));
    assert_eq!(handle_drop(&mut steps, "7"), Err("Step 7 not found.".to_string()));
    assert_eq!(shape(&steps), vec![(None, vec!["a"])]);
}

#[test]
fn commands_from_lowercase_words() {
    assert!(matches!(command_of("ls", None, &["LS"], 0), Ok(ReplCmd::List)));
    assert!(matches!(command_of("q", None, &["Q"], 0), Ok(ReplCmd::Quit)));
    assert!(matches!(command_of("save", None, &["save"], 0), Ok(ReplCmd::Save)));
    match command_of("help", Some("add".to_string()), &["help", "ADD"], 0) {
        Ok(ReplCmd::Help(Some(t))) => assert_eq!(t, "add"),
        _ => panic!("expected help"),
    }
    match command_of("rm", None, &["rm", "Numpy"], 0) {
        Ok(ReplCmd::Drop(t)) => assert_eq!(t, "Numpy"),
        _ => panic!("expected drop"),
    }
    assert_eq!(
        command_of("nope", None, &["NOPE"], 0).unwrap_err(),
        "Unknown command 'nope'. Type help for help."
    );
}
