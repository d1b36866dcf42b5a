use zen::repl::{parse_repl_line, resolve_index, strip_tool_prefix, ReplCmd, StepMode};


#[test]
fn test_parse_add_basic() {
    let parts = vec!["add", "numpy", "pandas"];
    let cmd = parse_repl_line(&parts, 0).unwrap();
    match cmd {
        ReplCmd::Add(args) => {
            assert_eq!(args.packages, vec!["numpy", "pandas"]);
            assert!(args.index_url.is_none());
            assert!(args.wheel_path.is_none());
            assert!(matches!(args.step_mode, StepMode::New));
        }
        _ => panic!("Expected Add"),
    }
}

#[test]
fn test_parse_add_with_index_url() {
    let parts = vec![
        "add",
        "torch",
        "--index-url",
        "https://download.pytorch.org/whl/cu130",
    ];
    let cmd = parse_repl_line(&parts, 0).unwrap();
    match cmd {
        ReplCmd::Add(args) => {
            assert_eq!(args.packages, vec!["torch"]);
            assert_eq!(
                args.index_url.unwrap(),
                "https://download.pytorch.org/whl/cu130"
            );
        }
        _ => panic!("Expected Add"),
    }
}

#[test]
fn test_parse_add_at_positive() {
    let parts = vec!["add", "scipy", "--at", "1"];
    let cmd = parse_repl_line(&parts, 3).unwrap();
    match cmd {
        ReplCmd::Add(args) => {
            assert!(matches!(args.step_mode, StepMode::At(1)));
        }
        _ => panic!("Expected Add"),
    }
}

#[test]
fn test_parse_add_at_negative() {
    // -1 with 3 steps → step 2
    let parts = vec!["add", "scipy", "--at", "-1"];
    let cmd = parse_repl_line(&parts, 3).unwrap();
    match cmd {
        ReplCmd::Add(args) => {
            assert!(matches!(args.step_mode, StepMode::At(2)));
        }
        _ => panic!("Expected Add"),
    }
}

#[test]
fn test_parse_add_at_negative_out_of_range() {
    // -1 with 0 steps → error
    let parts = vec!["add", "scipy", "--at", "-1"];
    let result = parse_repl_line(&parts, 0);
    assert!(result.is_err());
    assert!(result.unwrap_err().contains("out of range"));
}

#[test]
fn test_parse_add_at_missing_value() {
    let parts = vec!["add", "scipy", "--at"];
    let result = parse_repl_line(&parts, 3);
    assert!(result.is_err());
    assert!(result.unwrap_err().contains("requires a step index"));
}

#[test]
fn test_parse_add_no_packages() {
    let parts = vec!["add"];
    let result = parse_repl_line(&parts, 0);
    assert!(result.is_err());
}

#[test]
fn test_parse_add_after_negative() {
    // --after -2 with 3 steps → after step 1
    let parts = vec!["add", "scipy", "--after", "-2"];
    let cmd = parse_repl_line(&parts, 3).unwrap();
    match cmd {
        ReplCmd::Add(args) => {
            assert!(matches!(args.step_mode, StepMode::After(1)));
        }
        _ => panic!("Expected Add"),
    }
}

#[test]
fn test_parse_add_before_negative() {
    // --before -1 with 3 steps → before step 2
    let parts = vec!["add", "scipy", "--before", "-1"];
    let cmd = parse_repl_line(&parts, 3).unwrap();
    match cmd {
        ReplCmd::Add(args) => {
            assert!(matches!(args.step_mode, StepMode::Before(2)));
        }
        _ => panic!("Expected Add"),
    }
}

#[test]
fn test_parse_add_quoted_index() {
    let parts = vec!["add", "scipy", "--at", "'2'"];
    let cmd = parse_repl_line(&parts, 5).unwrap();
    match cmd {
        ReplCmd::Add(args) => {
            assert!(matches!(args.step_mode, StepMode::At(2)));
        }
        _ => panic!("Expected Add"),
    }
}

#[test]
fn test_parse_add_unknown_flag() {
    let parts = vec!["add", "numpy", "--foobar"];
    let result = parse_repl_line(&parts, 0);
    assert!(result.is_err());
    assert!(result.unwrap_err().contains("Unknown flag"));
}

#[test]
fn test_parse_drop() {
    let parts = vec!["drop", "numpy"];
    let cmd = parse_repl_line(&parts, 0).unwrap();
    match cmd {
        ReplCmd::Drop(target) => assert_eq!(target, "numpy"),
        _ => panic!("Expected Drop"),
    }
}

#[test]
fn test_parse_drop_no_target() {
    let parts = vec!["drop"];
    let result = parse_repl_line(&parts, 0);
    assert!(result.is_err());
}

#[test]
fn test_parse_help() {
    let parts = vec!["help"];
    let cmd = parse_repl_line(&parts, 0).unwrap();
    assert!(matches!(cmd, ReplCmd::Help(None)));
}

#[test]
fn test_parse_help_add() {
    let parts = vec!["help", "add"];
    let cmd = parse_repl_line(&parts, 0).unwrap();
    match cmd {
        ReplCmd::Help(Some(t)) => assert_eq!(t, "add"),
        _ => panic!("Expected Help(Some)"),
    }
}

#[test]
fn test_parse_unknown_command() {
    let parts = vec!["foobar"];
    let result = parse_repl_line(&parts, 0);
    assert!(result.is_err());
    assert!(result.unwrap_err().contains("Unknown command"));
}

#[test]
fn test_strip_tool_prefix() {
    assert_eq!(strip_tool_prefix("zen install numpy"), "install numpy");
    assert_eq!(strip_tool_prefix("pip install numpy"), "install numpy");
    assert_eq!(strip_tool_prefix("uv pip install numpy"), "install numpy");
    assert_eq!(strip_tool_prefix("uv install numpy"), "install numpy");
    assert_eq!(strip_tool_prefix("conda install numpy"), "install numpy");
    assert_eq!(strip_tool_prefix("add numpy"), "add numpy");
}

#[test]
fn test_parse_wheel() {
    let parts = vec!["add", "mypkg", "--wheel", "/tmp/mypkg.whl"];
    let cmd = parse_repl_line(&parts, 0).unwrap();
    match cmd {
        ReplCmd::Add(args) => {
            assert_eq!(args.wheel_path.unwrap(), "/tmp/mypkg.whl");
        }
        _ => panic!("Expected Add"),
    }
}

#[test]
fn test_resolve_index_positive() {
    assert_eq!(resolve_index(2, 5, "--at").unwrap(), 2);
}

#[test]
fn test_resolve_index_negative_valid() {
    assert_eq!(resolve_index(-1, 5, "--at").unwrap(), 4);
    assert_eq!(resolve_index(-3, 5, "--at").unwrap(), 2);
    assert_eq!(resolve_index(-5, 5, "--at").unwrap(), 0);
}

#[test]
fn test_resolve_index_negative_out_of_range() {
    assert!(resolve_index(-6, 5, "--at").is_err());
    assert!(resolve_index(-1, 0, "--at").is_err());
}
