use zen::deps::DepIssue;
use zen::health::{check_health, check_health_quick, PythonProbe};
use zen::scanner::{get_packages, DistInfo, PackageMetadata};
use zen::types::{Diagnostic, HealthDiagnostic, HealthLevel, HealthReport};

fn pkg(name: &str, version: &str) -> PackageMetadata {
    let mut p = PackageMetadata::default();
    p.name = name.to_string();
    p.version = Some(version.to_string());
    p
}

fn missing(n: usize) -> Vec<DepIssue> {
    (0..n)
        .map(|i| DepIssue::Missing { package: format!("p{}", i), requires: format!("r{}", i) })
        .collect()
}

#[test]
fn healthy_environment() {
    let r = check_health(PythonProbe::Present, Some("3.12.1".to_string()), true, &vec![pkg("numpy", "1.26.4")], &Vec::new());
    assert_eq!(r.items.len(), 3);
    assert!(matches!(&r.items[0], HealthDiagnostic::PythonOk { version } if version == "3.12.1"));
    assert!(matches!(r.items[1], HealthDiagnostic::SitePackagesOk));
    assert!(matches!(r.items[2], HealthDiagnostic::DependenciesOk));
    assert_eq!(r.overall(), HealthLevel::Pass);
    assert_eq!(
        r.to_text("myenv"),
        "Health: myenv\n✓ Python 3.12.1 OK\n✓ site-packages OK\n✓ Dependencies OK (all Requires-Dist satisfied)\n\nOverall: OK"
    );
}

#[test]
fn unknown_python_version() {
    let r = check_health(PythonProbe::Present, None, true, &Vec::new(), &Vec::new());
    assert_eq!(r.items[0].message(), "Python unknown OK");
}

#[test]
fn missing_python_and_site_packages_fail() {
    let r = check_health(PythonProbe::Missing, None, false, &Vec::new(), &Vec::new());
    assert!(matches!(r.items[0], HealthDiagnostic::PythonMissing));
    assert!(matches!(r.items[1], HealthDiagnostic::SitePackagesMissing));
    assert_eq!(r.overall(), HealthLevel::Fail);
    assert_eq!(check_health_quick(&PythonProbe::Missing, false, &Vec::new(), &Vec::new()), HealthLevel::Fail);
    assert_eq!(check_health_quick(&PythonProbe::Present, false, &Vec::new(), &Vec::new()), HealthLevel::Fail);
}

#[test]
fn broken_symlink_fails() {
    let probe = PythonProbe::BrokenSymlink { target: "/gone/python3".to_string() };
    let r = check_health(probe.clone(), None, true, &Vec::new(), &Vec::new());
    assert_eq!(r.items[0].message(), "Python symlink broken → /gone/python3");
    assert_eq!(r.items[0].level(), HealthLevel::Fail);
    assert_eq!(check_health_quick(&probe, true, &Vec::new(), &Vec::new()), HealthLevel::Fail);
}

#[test]
fn torch_cuda_suffix_is_consistent() {
    let entries = vec![DistInfo {
        dir_name: "torch-2.10.0.dist-info".to_string(),
        metadata: Some("Name: torch\nVersion: 2.10.0\n".to_string()),
        installer: None,
        direct_url: None,
        top_level: None,
        modified: None,
    }];
    let ps = get_packages(&entries, Some("__version__ = '2.10.0+cu130'\n"));
    assert_eq!(ps[0].version, Some("2.10.0+cu130".to_string()));
    let r = check_health(PythonProbe::Present, None, true, &ps, &Vec::new());
    assert!(r
        .items
        .iter()
        .any(|d| matches!(d, HealthDiagnostic::CudaConsistent { suffix } if suffix == "cu130")));
    assert_eq!(r.overall(), HealthLevel::Pass);
    assert_eq!(r.items[2].message(), "CUDA consistency OK (all packages use +cu130)");
}

#[test]
fn mixed_cuda_is_a_mismatch() {
    let ps = vec![pkg("torch", "2.10.0+cu130"), pkg("torchvision", "0.25.0+cu128"), pkg("numpy", "1.26.4")];
    let r = check_health(PythonProbe::Present, None, true, &ps, &Vec::new());
    match &r.items[2] {
        HealthDiagnostic::CudaMismatch { details } => {
            assert_eq!(
                details,
                "Mixed CUDA versions detected:\n    +cu130: torch==2.10.0+cu130\n    +cu128: torchvision==0.25.0+cu128"
            );
        }
        _ => panic!("expected CudaMismatch"),
    }
    assert_eq!(r.items[2].level(), HealthLevel::Warn);
    assert_eq!(r.overall(), HealthLevel::Warn);
    assert_eq!(check_health_quick(&PythonProbe::Present, true, &ps, &Vec::new()), HealthLevel::Warn);
}

#[test]
fn cpu_and_cuda_conflict() {
    let ps = vec![pkg("torch", "2.10.0+cpu"), pkg("torchvision", "0.25.0+cu128"), pkg("torchaudio", "2.10.0+cpu")];
    let r = check_health(PythonProbe::Present, None, true, &ps, &Vec::new());
    match &r.items[2] {
        HealthDiagnostic::CpuCudaConflict { details } => {
            assert_eq!(
                details,
                "Mixed CUDA versions detected:\n    +cpu: torch==2.10.0+cpu, torchaudio==2.10.0+cpu\n    +cu128: torchvision==0.25.0+cu128"
            );
        }
        _ => panic!("expected CpuCudaConflict"),
    }
    assert_eq!(check_health_quick(&PythonProbe::Present, true, &ps, &Vec::new()), HealthLevel::Warn);
}

#[test]
fn other_local_suffixes_are_no_builds() {
    let ps = vec![pkg("a", "1.0+local"), pkg("b", "1.0+cu121")];
    let r = check_health(PythonProbe::Present, None, true, &ps, &Vec::new());
    assert!(matches!(&r.items[2], HealthDiagnostic::CudaConsistent { suffix } if suffix == "cu121"));
}

#[test]
fn missing_dependencies_are_capped_at_five() {
    let r = check_health(PythonProbe::Present, None, true, &Vec::new(), &missing(7));
    assert_eq!(r.items.len(), 3);
    match &r.items[2] {
        HealthDiagnostic::MissingDependencies { count, details } => {
            assert_eq!(*count, 7);
            assert_eq!(details.lines().count(), 6);
            assert!(details.starts_with("    p0 requires r0, which is not installed\n"));
            assert!(details.ends_with("\n    ... and 2 more"));
        }
        _ => panic!("expected MissingDependencies"),
    }
    assert_eq!(r.overall(), HealthLevel::Info);
    assert_eq!(check_health_quick(&PythonProbe::Present, true, &Vec::new(), &missing(7)), HealthLevel::Info);
    assert!(r.items[2].message().starts_with("7 missing deps:\n"));
}

#[test]
fn one_missing_dependency_is_singular() {
    let r = check_health(PythonProbe::Present, None, true, &Vec::new(), &missing(1));
    assert_eq!(
        r.items[2].message(),
        "1 missing dep:\n    p0 requires r0, which is not installed"
    );
}

#[test]
fn conflicts_come_before_missing_and_are_capped_at_ten() {
    let mut issues = missing(1);
    for i in 0..12 {
        issues.push(DepIssue::Duplicate { package: format!("d{}", i), count: 2 });
    }
    issues.push(DepIssue::Incompatible {
        package: "a".to_string(),
        requires: "b>=2".to_string(),
        installed_version: "1".to_string(),
    });
    let r = check_health(PythonProbe::Present, None, true, &Vec::new(), &issues);
    assert_eq!(r.items.len(), 4);
    match &r.items[2] {
        HealthDiagnostic::VersionConflicts { count, details } => {
            assert_eq!(*count, 13);
            assert_eq!(details.lines().count(), 11);
            assert!(details.ends_with("\n    ... and 3 more"));
        }
        _ => panic!("expected VersionConflicts"),
    }
    assert!(matches!(r.items[3], HealthDiagnostic::MissingDependencies { count: 1, .. }));
    assert_eq!(r.overall(), HealthLevel::Warn);
}

#[test]
fn quick_check_agrees_with_full_report() {
    let probes = [
        PythonProbe::Missing,
        PythonProbe::Present,
        PythonProbe::BrokenSymlink { target: "x".to_string() },
    ];
    let package_sets = [
        Vec::new(),
        vec![pkg("torch", "2.0+cu118")],
        vec![pkg("torch", "2.0+cu118"), pkg("tv", "0.1+cu121")],
        vec![pkg("torch", "2.0+cpu"), pkg("tv", "0.1+cu121")],
    ];
    let issue_sets = [Vec::new(), missing(2), vec![DepIssue::Duplicate { package: "x".to_string(), count: 2 }]];
    for probe in probes.iter() {
        for site in [true, false] {
            for ps in package_sets.iter() {
                for issues in issue_sets.iter() {
                    let full = check_health(probe.clone(), None, site, ps, issues);
                    assert_eq!(check_health_quick(probe, site, ps, issues), full.overall());
                }
            }
        }
    }
}

#[test]
fn overall_is_the_maximum_of_item_levels() {
    let mut r = HealthReport::default();
    assert_eq!(r.overall(), HealthLevel::Pass);
    r.push(HealthDiagnostic::CudaMismatch { details: "x".to_string() });
    r.push(HealthDiagnostic::DependenciesOk);
    assert_eq!(r.overall(), HealthLevel::Warn);
    for item in r.items.iter() {
        assert!(item.level() <= r.overall());
    }
    r.push(HealthDiagnostic::SitePackagesMissing);
    assert_eq!(r.overall(), HealthLevel::Fail);
}

#[test]
fn level_labels_and_icons() {
    assert_eq!(HealthLevel::Pass.to_string(), "OK");
    assert_eq!(HealthLevel::Info.to_string(), "MINOR");
    assert_eq!(HealthLevel::Warn.to_string(), "DRIFT");
    assert_eq!(HealthLevel::Fail.to_string(), "BROKEN");
    assert_eq!(HealthLevel::Pass.icon(), "✓");
    assert_eq!(HealthLevel::Info.icon(), "~");
    assert_eq!(HealthLevel::Warn.icon(), "⚠");
    assert_eq!(HealthLevel::Fail.icon(), "✗");
    assert_eq!(HealthLevel::default(), HealthLevel::Pass);
}
