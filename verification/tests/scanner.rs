use zen::scanner::{get_packages, package_from, DistInfo};

fn dist(dir: &str, metadata: Option<&str>) -> DistInfo {
    DistInfo {
        dir_name: dir.to_string(),
        metadata: metadata.map(|m| m.to_string()),
        installer: None,
        direct_url: None,
        top_level: None,
        modified: None,
    }
}

#[test]
fn well_formed_entry_yields_a_record() {
    let mut d = dist("Foo_Bar-1.0.dist-info", Some("Name: Foo-Bar\nVersion: 1.0\n"));
    d.installer = Some("uv\n".to_string());
    d.modified = Some(1700000000);
    let p = package_from(&d).unwrap();
    assert_eq!(p.name, "foo_bar");
    assert_eq!(p.version, Some("1.0".to_string()));
    assert_eq!(p.installer, Some("uv".to_string()));
    assert_eq!(p.install_source, Some("pypi".to_string()));
    assert!(!p.is_editable);
    assert_eq!(p.source_url, None);
    assert_eq!(p.commit_id, None);
    assert_eq!(p.import_name, None);
    assert_eq!(p.installed_at, Some(1700000000));
}

#[test]
fn malformed_entries_are_skipped() {
    assert!(package_from(&dist("foo-1.0.dist-info", None)).is_none());
    assert!(package_from(&dist("foo-1.0.dist-info", Some("Version: 1.0\n"))).is_none());
    assert!(package_from(&dist("foo-1.0.dist-info", Some("Name: foo\n"))).is_none());
    assert!(package_from(&dist("foo", Some("Name: foo\nVersion: 1.0\n"))).is_none());
    assert!(package_from(&dist("foo.egg-info", Some("Name: foo\nVersion: 1.0\n"))).is_none());
    assert!(package_from(&dist("x-1.dist-info", Some("Name: \nVersion: 1.0\n"))).is_none());
}

#[test]
fn import_name_is_recorded_when_it_differs() {
    let mut d = dist("pillow-10.0.dist-info", Some("Name: Pillow\nVersion: 10.0\n"));
    d.top_level = Some("PIL\n".to_string());
    assert_eq!(package_from(&d).unwrap().import_name, Some("PIL".to_string()));

    let mut d = dist("numpy-1.26.4.dist-info", Some("Name: numpy\nVersion: 1.26.4\n"));
    d.top_level = Some("numpy\n".to_string());
    assert_eq!(package_from(&d).unwrap().import_name, None);

    let mut d = dist("x-1.dist-info", Some("Name: scikit-learn\nVersion: 1\n"));
    d.top_level = Some("_private\n\n  sklearn  \n".to_string());
    assert_eq!(package_from(&d).unwrap().import_name, Some("sklearn".to_string()));

    let mut d = dist("x-1.dist-info", Some("Name: Tag-Detector\nVersion: 1\n"));
    d.top_level = Some("other\nTag_Detector\n".to_string());
    assert_eq!(package_from(&d).unwrap().import_name, None);
}

#[test]
fn git_install_is_recorded() {
    let mut d = dist("y-0.1.dist-info", Some("Name: y\nVersion: 0.1\n"));
    d.direct_url = Some(
        "{\"url\": \"https://github.com/x/y\", \"vcs_info\": {\"vcs\": \"git\", \"commit_id\": \"abc123\"}}"
            .to_string(),
    );
    let p = package_from(&d).unwrap();
    assert_eq!(p.install_source, Some("git".to_string()));
    assert_eq!(p.commit_id, Some("abc123".to_string()));
    assert_eq!(p.source_url, Some("https://github.com/x/y".to_string()));
}

#[test]
fn torch_cuda_suffix_comes_from_version_py() {
    let entries = vec![
        dist("numpy-1.26.4.dist-info", Some("Name: numpy\nVersion: 1.26.4\n")),
        dist("torch-2.10.0.dist-info", Some("Name: torch\nVersion: 2.10.0\n")),
        dist("torch", None),
    ];
    let ps = get_packages(&entries, Some("__version__ = '2.10.0+cu130'\ncuda = '13.0'\n"));
    assert_eq!(ps.len(), 2);
    assert_eq!(ps[0].name, "numpy");
    assert_eq!(ps[0].version, Some("1.26.4".to_string()));
    assert_eq!(ps[1].name, "torch");
    assert_eq!(ps[1].version, Some("2.10.0+cu130".to_string()));
}

#[test]
fn torch_version_stays_without_version_py() {
    let entries = vec![dist("torch-2.10.0.dist-info", Some("Name: torch\nVersion: 2.10.0\n"))];
    let ps = get_packages(&entries, None);
    assert_eq!(ps[0].version, Some("2.10.0".to_string()));
    let ps = get_packages(&entries, Some("no version here\n"));
    assert_eq!(ps[0].version, Some("2.10.0".to_string()));
}

#[test]
fn duplicate_dist_info_yields_two_records() {
    let entries = vec![
        dist("foo-1.0.dist-info", Some("Name: foo\nVersion: 1.0\n")),
        dist("foo-1.1.dist-info", Some("Name: foo\nVersion: 1.1\n")),
    ];
    let ps = get_packages(&entries, None);
    assert_eq!(ps.len(), 2);
    assert_eq!(ps[0].version, Some("1.0".to_string()));
    assert_eq!(ps[1].version, Some("1.1".to_string()));
}

#[test]
fn scanning_twice_gives_the_same_records() {
    let entries = vec![
        dist("b-2.dist-info", Some("Name: b\nVersion: 2\n")),
        dist("a-1.dist-info", Some("Name: a\nVersion: 1\n")),
        dist("broken.dist-info", None),
    ];
    let one: Vec<(String, Option<String>)> =
        get_packages(&entries, None).into_iter().map(|p| (p.name, p.version)).collect();
    let two: Vec<(String, Option<String>)> =
        get_packages(&entries, None).into_iter().map(|p| (p.name, p.version)).collect();
    assert_eq!(one, two);
    assert_eq!(one.len(), 2);
}

#[test]
fn empty_site_packages_gives_no_records() {
    assert!(get_packages(&Vec::new(), None).is_empty());
}

#[test]
fn records_do_not_depend_on_the_order_of_entries() {
    let a = dist("a-1.dist-info", Some("Name: a\nVersion: 1\n"));
    let b = dist("b-2.dist-info", Some("Name: b\nVersion: 2\n"));
    let t = dist("torch-2.10.0.dist-info", Some("Name: torch\nVersion: 2.10.0\n"));
    let bad = dist("bad.dist-info", None);
    let py = Some("__version__ = '2.10.0+cu130'\n");
    let names = |entries: Vec<DistInfo>| {
        let mut v: Vec<(String, Option<String>)> =
            get_packages(&entries, py).into_iter().map(|p| (p.name, p.version)).collect();
        v.sort();
        v
    };
    let one = names(vec![a.clone(), b.clone(), t.clone(), bad.clone()]);
    let two = names(vec![bad, t, b, a]);
    assert_eq!(one, two);
    assert_eq!(one.len(), 3);
    assert_eq!(one[2], ("torch".to_string(), Some("2.10.0+cu130".to_string())));
}

#[test]
fn git_install_without_commit_counts_by_its_url() {
    let mut d = dist("pkg-1.0.dist-info", Some("Name: pkg\nVersion: 1.0\n"));
    d.direct_url =
        Some("{\"url\": \"https://github.com/x/y\", \"vcs_info\": {\"vcs\": \"git\"}}".to_string());
    let p = package_from(&d).unwrap();
    assert_eq!(p.install_source, Some("pypi".to_string()));
    assert_eq!(p.commit_id, None);
    d.direct_url =
        Some("{\"url\": \"file:///src/y\", \"vcs_info\": {\"vcs\": \"git\"}}".to_string());
    let p = package_from(&d).unwrap();
    assert_eq!(p.install_source, Some("local".to_string()));
    assert_eq!(p.commit_id, None);
}

#[test]
fn editable_install_is_local_or_from_git() {
    let mut d = dist("pkg-1.0.dist-info", Some("Name: pkg\nVersion: 1.0\n"));
    d.direct_url =
        Some("{\"url\": \"file:///src/pkg\", \"dir_info\": {\"editable\": true}}".to_string());
    let p = package_from(&d).unwrap();
    assert_eq!(p.install_source, Some("local".to_string()));
    assert!(p.is_editable);
    d.direct_url = Some(
        "{\"url\": \"https://example.org/pkg.tar.gz\", \"dir_info\": {\"editable\": true}}"
            .to_string(),
    );
    let p = package_from(&d).unwrap();
    assert_eq!(p.install_source, Some("pypi".to_string()));
    assert!(!p.is_editable);
    d.direct_url = Some(
        "{\"url\": \"https://github.com/x/y\", \"editable\": true, \"vcs_info\": {\"vcs\": \"git\", \"commit_id\": \"abc\"}}"
            .to_string(),
    );
    let p = package_from(&d).unwrap();
    assert_eq!(p.install_source, Some("git".to_string()));
    assert!(p.is_editable);
    assert_eq!(p.commit_id, Some("abc".to_string()));
    for p in get_packages(&vec![d], None) {
        assert!(!p.name.is_empty());
        assert!(p.install_source.as_deref() != Some("git") || p.commit_id.is_some());
        assert!(!p.is_editable || p.install_source.as_deref() != Some("pypi"));
    }
}
