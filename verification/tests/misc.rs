use zen::hooks::generate_hook;
use zen::mcp::{redact_file_name, redact_path};
use zen::printer::Printer;
use zen::validation::{validate_cuda_version, validate_name, validate_path, validate_python_version};

#[test]
fn hooks_for_known_shells() {
    let zsh = generate_hook("zsh");
    assert_eq!(zsh, generate_hook("bash"));
    assert!(zsh.contains("zen() {"));
    assert!(zsh.contains("za() {"));
    assert!(zsh.contains("--path-only"));
    let fish = generate_hook("fish");
    assert!(fish.contains("function zen --wraps zen"));
    assert!(fish.contains("activate.fish"));
    assert_ne!(zsh, fish);
}

#[test]
fn hook_for_unknown_shell() {
    assert_eq!(generate_hook("tcsh"), "echo \"Zen: Unsupported shell 'tcsh'\"");
    assert_eq!(generate_hook(""), "echo \"Zen: Unsupported shell ''\"");
}

#[test]
fn paths_are_redacted_to_their_last_component() {
    assert_eq!(redact_path("/home/user/envs/myenv"), "~/…/myenv");
    assert_eq!(redact_path("/home/user/envs/myenv/"), "~/…/myenv");
    assert_eq!(redact_path("myenv"), "~/…/myenv");
    assert_eq!(redact_path("/"), "~/…");
    assert_eq!(redact_path(""), "~/…");
    assert_eq!(redact_path("/a/.."), "~/…");
    assert_eq!(redact_file_name(Some("x")), "~/…/x");
    assert_eq!(redact_file_name(None), "~/…");
}

#[test]
fn printer_modes() {
    assert!(Printer::Default.is_enabled());
    assert!(!Printer::Silent.is_enabled());
}

#[test]
fn name_validation_messages() {
    assert_eq!(validate_name("", "Environment"), Err("Environment name cannot be empty".to_string()));
    assert_eq!(validate_name("   ", "Template"), Err("Template name cannot be empty".to_string()));
    assert_eq!(
        validate_name(&"a".repeat(129), "Environment"),
        Err("Environment name is too long (max 128 characters)".to_string())
    );
    assert!(validate_name(&"a".repeat(128), "Environment").is_ok());
    assert!(validate_name(&format!("  {}  ", "a".repeat(128)), "Environment").is_ok());
    for bad in ["a/b", "a\\b", "a..b", ".."] {
        assert_eq!(
            validate_name(bad, "Environment"),
            Err("Environment name cannot contain path characters".to_string())
        );
    }
    for bad in ["a;b", "a|b", "a&b", "a$b", "a`b", "a(b", "a)b", "a<b", "a>b", "a\"b", "a'b", "a\nb", "a\rb", "a\0b"] {
        assert_eq!(
            validate_name(bad, "Environment"),
            Err("Environment name contains invalid characters".to_string())
        );
    }
    assert_eq!(
        validate_name(".hidden", "Environment"),
        Err("Environment name cannot start with a dot".to_string())
    );
    assert!(validate_name("a.b", "Environment").is_ok());
    assert!(validate_name(&"ü".repeat(128), "Environment").is_ok());
    assert!(validate_name(&"ü".repeat(129), "Environment").is_err());
    assert!(validate_name("ünï", "Environment").is_ok());
}

#[test]
fn python_version_messages() {
    assert_eq!(
        validate_python_version("3.12.1.0"),
        Err("Invalid Python version format (use X.Y or X.Y.Z)".to_string())
    );
    assert_eq!(
        validate_python_version("3.x"),
        Err("Invalid Python version component: x".to_string())
    );
    assert_eq!(validate_python_version(""), Err("Invalid Python version component: ".to_string()));
    assert_eq!(validate_python_version("3."), Err("Invalid Python version component: ".to_string()));
    assert!(validate_python_version("+3.12").is_ok());
    assert!(validate_python_version("4294967295").is_ok());
    assert!(validate_python_version("4294967296").is_err());
    assert!(validate_python_version("-3").is_err());
}

#[test]
fn cuda_version_messages() {
    assert_eq!(
        validate_cuda_version("12"),
        Err("Invalid CUDA version format (use X.Y, e.g., 12.6)".to_string())
    );
    assert_eq!(validate_cuda_version("a.1"), Err("Invalid CUDA major version".to_string()));
    assert_eq!(validate_cuda_version("12.b"), Err("Invalid CUDA minor version".to_string()));
    assert_eq!(
        validate_cuda_version("9.0"),
        Err("Unsupported CUDA major version: 9 (expected 10-15)".to_string())
    );
    assert_eq!(
        validate_cuda_version("16.0"),
        Err("Unsupported CUDA major version: 16 (expected 10-15)".to_string())
    );
    assert_eq!(validate_cuda_version("12.10"), Err("Invalid CUDA minor version: 10".to_string()));
    assert!(validate_cuda_version("10.0").is_ok());
    assert!(validate_cuda_version("15.9").is_ok());
}

#[test]
fn path_validation() {
    assert!(validate_path("/some/where", false, false).is_ok());
    assert!(validate_path("/some/where", true, true).is_ok());
    assert_eq!(
        validate_path("/some/where", false, true),
        Err("Path does not exist: /some/where".to_string())
    );
    assert_eq!(validate_path("/a\0b", true, true), Err("Path contains null bytes".to_string()));
}
