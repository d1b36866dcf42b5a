use zen::version::{compare_versions, strip_local_version, version_satisfies_specifier};

#[test]
fn compares_segments_as_numbers() {
    assert_eq!(compare_versions("1.10", "1.9"), 1);
    assert_eq!(compare_versions("1.9", "1.10"), -1);
    assert_eq!(compare_versions("2.10", "2.10.0"), 0);
    assert_eq!(compare_versions("3.12.1", "4"), -1);
    assert_eq!(compare_versions("1.0rc1", "1.0"), 0);
    assert_eq!(compare_versions("abc", "0"), 0);
    assert_eq!(compare_versions("", ""), 0);
}

#[test]
fn segment_too_large_counts_as_zero() {
    assert_eq!(compare_versions("99999999999999999999", "0"), 0);
    assert_eq!(compare_versions("18446744073709551615", "18446744073709551614"), 1);
}

#[test]
fn compare_is_antisymmetric_on_samples() {
    let vs = ["1.0", "1.0.1", "2", "1.10", "1.9", "", "a.b", "1..2"];
    for a in vs.iter() {
        assert_eq!(compare_versions(a, a), 0);
        for b in vs.iter() {
            assert_eq!(compare_versions(a, b), -compare_versions(b, a));
        }
    }
}

#[test]
fn strips_local_suffix() {
    assert_eq!(strip_local_version("2.10.0+cu130"), "2.10.0");
    assert_eq!(strip_local_version("2.10.0"), "2.10.0");
    assert_eq!(strip_local_version("+cpu"), "");
    assert_eq!(strip_local_version("1+a+b"), "1");
    assert_eq!(strip_local_version(strip_local_version("1+a+b")), "1");
}

#[test]
fn specifier_edge_cases() {
    assert!(version_satisfies_specifier("2.10.0+cu130", "==2.10"));
    assert!(version_satisfies_specifier("3.12.1", ">=3.9,<4"));
    assert!(!version_satisfies_specifier("1.26.4", ">=2,<3"));
    assert!(version_satisfies_specifier("1.26.4", ""));
    assert!(version_satisfies_specifier("1.26.4", " , "));
    assert!(version_satisfies_specifier("1.26.4", "@1.0"));
    assert!(version_satisfies_specifier("1.5", "!=1.4"));
    assert!(!version_satisfies_specifier("1.5", "!=1.5"));
    assert!(version_satisfies_specifier("1.5", "<= 1.5"));
    assert!(!version_satisfies_specifier("1.5", "> 1.5"));
    assert!(version_satisfies_specifier("1.5", "< 1.5.1"));
}

#[test]
fn wildcard_equality_is_a_prefix_match() {
    assert!(version_satisfies_specifier("1.4.2", "==1.*"));
    assert!(version_satisfies_specifier("1.4.2", "==1.4.*"));
    assert!(!version_satisfies_specifier("2.4.2", "==1.*"));
}

#[test]
fn compatible_release() {
    assert!(version_satisfies_specifier("1.4.2", "~=1.4"));
    assert!(version_satisfies_specifier("1.9", "~=1.4"));
    assert!(!version_satisfies_specifier("1.3", "~=1.4"));
    assert!(!version_satisfies_specifier("2.0", "~=1.4"));
    assert!(version_satisfies_specifier("1.4.5", "~=1.4.2"));
    assert!(!version_satisfies_specifier("1.5.0", "~=1.4.2"));
    assert!(version_satisfies_specifier("3", "~=2"));
}

#[test]
fn specifier_is_conjunctive_on_samples() {
    let specs = [">=1.0", "<2", "!=1.5", "==1.*", "", "~=1.4"];
    let vs = ["1.5", "0.9", "2.0", "1.4.1"];
    for v in vs.iter() {
        for s1 in specs.iter() {
            for s2 in specs.iter() {
                let joined = format!("{},{}", s1, s2);
                assert_eq!(
                    version_satisfies_specifier(v, &joined),
                    version_satisfies_specifier(v, s1) && version_satisfies_specifier(v, s2)
                );
            }
        }
    }
}

#[test]
fn compare_is_transitive_on_samples() {
    let vs = ["1.0", "1.0.1", "2", "1.10", "1.9", "", "0.0.0", "1.9.9"];
    for a in vs.iter() {
        for b in vs.iter() {
            for c in vs.iter() {
                if compare_versions(a, b) <= 0 && compare_versions(b, c) <= 0 {
                    assert!(compare_versions(a, c) <= 0);
                }
            }
        }
    }
}
