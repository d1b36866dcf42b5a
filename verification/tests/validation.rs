use zen::validation::{validate_cuda_version, validate_name, validate_python_version};


#[test]
fn test_valid_names() {
    assert!(validate_name("myenv", "Environment").is_ok());
    assert!(validate_name("my-env-123", "Environment").is_ok());
    assert!(validate_name("test_env", "Environment").is_ok());
}

#[test]
fn test_invalid_names() {
    assert!(validate_name("", "Environment").is_err());
    assert!(validate_name("../escape", "Environment").is_err());
    assert!(validate_name("path/to/env", "Environment").is_err());
    assert!(validate_name("env;rm -rf", "Environment").is_err());
    assert!(validate_name(".hidden", "Environment").is_err());
    assert!(validate_name("$(whoami)", "Environment").is_err());
}

#[test]
fn test_python_version() {
    assert!(validate_python_version("3.12").is_ok());
    assert!(validate_python_version("3.11.4").is_ok());
    assert!(validate_python_version("3").is_ok());
    assert!(validate_python_version("abc").is_err());
    assert!(validate_python_version("3.12.1.0").is_err());
}

#[test]
fn test_cuda_version() {
    assert!(validate_cuda_version("12.6").is_ok());
    assert!(validate_cuda_version("13.0").is_ok());
    assert!(validate_cuda_version("11.8").is_ok());
    assert!(validate_cuda_version("12").is_err());
    assert!(validate_cuda_version("9.0").is_err());
    assert!(validate_cuda_version("abc").is_err());
}
