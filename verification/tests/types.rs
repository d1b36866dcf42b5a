use zen::types::{Diagnostic, EnvName, HealthDiagnostic, HealthLevel, HealthReport};


#[test]
fn test_valid_env_names() {
    assert!(EnvName::new("myenv").is_ok());
    assert!(EnvName::new("my-env-123").is_ok());
    assert!(EnvName::new("test_env").is_ok());
    assert!(EnvName::new("  trimmed  ").is_ok());
    assert_eq!(EnvName::new("  trimmed  ").unwrap().as_str(), "trimmed");
}

#[test]
fn test_invalid_env_names() {
    assert!(EnvName::new("").is_err());
    assert!(EnvName::new("   ").is_err());
    assert!(EnvName::new("../escape").is_err());
    assert!(EnvName::new("path/to/env").is_err());
    assert!(EnvName::new("env;rm -rf").is_err());
    assert!(EnvName::new(".hidden").is_err());
    assert!(EnvName::new("$(whoami)").is_err());
}

#[test]
fn test_env_name_deref() {
    let name = EnvName::new("test").unwrap();
    // Can use as &str transparently
    let s: &str = &name;
    assert_eq!(s, "test");
}

#[test]
fn test_env_name_from_str() {
    let name: EnvName = "myenv".parse().unwrap();
    assert_eq!(name.as_str(), "myenv");
    assert!("".parse::<EnvName>().is_err());
}

#[test]
fn from_str_reads_as_new_does() {
    for s in ["myenv", "  padded\t", "", "   ", ".hidden", "a/b", "a;b", "x".repeat(129).as_str()] {
        match (s.parse::<EnvName>(), EnvName::new(s)) {
            (Ok(a), Ok(b)) => {
                assert_eq!(a, b);
                assert_eq!(a.as_str(), s.trim());
            }
            (Err(a), Err(b)) => {
                assert_eq!(a.input, b.input);
                assert_eq!(a.reason, b.reason);
            }
            _ => panic!("{:?} is read in two ways", s),
        }
    }
    assert!("  padded\t".parse::<EnvName>().is_ok());
    assert_eq!("a/b".parse::<EnvName>().unwrap_err().reason, "cannot contain path characters");
    assert_eq!("   ".parse::<EnvName>().unwrap_err().input, "   ");
}

#[test]
fn test_env_name_display() {
    let name = EnvName::new("myenv").unwrap();
    assert_eq!(name.to_string(), "myenv");
}

#[test]
fn test_health_level_ordering() {
    assert!(HealthLevel::Pass < HealthLevel::Info);
    assert!(HealthLevel::Info < HealthLevel::Warn);
    assert!(HealthLevel::Warn < HealthLevel::Fail);
}

#[test]
fn test_health_report_overall() {
    let mut report = HealthReport::default();
    report.push(HealthDiagnostic::PythonOk {
        version: "3.12".to_string(),
    });
    assert_eq!(report.overall(), HealthLevel::Pass);

    report.push(HealthDiagnostic::MissingDependencies {
        count: 1,
        details: "    foo".to_string(),
    });
    assert_eq!(report.overall(), HealthLevel::Info);

    report.push(HealthDiagnostic::PythonMissing);
    assert_eq!(report.overall(), HealthLevel::Fail);
}

#[test]
fn test_diagnostic_messages() {
    let d = HealthDiagnostic::PythonOk {
        version: "3.12.1".to_string(),
    };
    assert_eq!(d.message(), "Python 3.12.1 OK");
    assert_eq!(d.level(), HealthLevel::Pass);

    let d = HealthDiagnostic::PythonMissing;
    assert!(d.message().contains("missing"));
    assert_eq!(d.level(), HealthLevel::Fail);
}
