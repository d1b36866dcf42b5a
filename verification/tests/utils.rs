use zen::utils::{get_torch_index_url, parse_template_string};

#[test]
fn test_utils_template_parsing() {
    // Single template
    let parts = parse_template_string("ml-base");
    assert_eq!(parts.len(), 1);
    assert_eq!(parts[0].name, "ml-base");
    assert_eq!(parts[0].version, "latest");

    // Template with version
    let parts = parse_template_string("ml-base:1.0");
    assert_eq!(parts.len(), 1);
    assert_eq!(parts[0].name, "ml-base");
    assert_eq!(parts[0].version, "1.0");

    // Multiple templates
    let parts = parse_template_string("base|ml:2.0|vision");
    assert_eq!(parts.len(), 3);
    assert_eq!(parts[0].name, "base");
    assert_eq!(parts[1].name, "ml");
    assert_eq!(parts[1].version, "2.0");
    assert_eq!(parts[2].name, "vision");
}

#[test]
fn test_utils_torch_index_url() {
    // Valid CUDA versions (as defined in utils.rs)
    assert!(get_torch_index_url("12.4").is_some());
    assert!(get_torch_index_url("12.1").is_some());
    assert!(get_torch_index_url("11.8").is_some());

    // Invalid/unsupported versions
    assert!(get_torch_index_url("12.6").is_none()); // Not in list
    assert!(get_torch_index_url("9.0").is_none());
    assert!(get_torch_index_url("invalid").is_none());
}
