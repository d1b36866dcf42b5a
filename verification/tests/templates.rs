use zen::repl::{load_steps_from_db, Pkg, Step};
use zen::templates::{TemplateError, TemplatePackage, TemplateStore};

fn tp(template_id: u64, name: &str, version: &str, step: i64, args: Option<&str>) -> TemplatePackage {
    TemplatePackage {
        template_id,
        package_name: name.to_string(),
        version: version.to_string(),
        is_pinned: true,
        install_type: "pypi".to_string(),
        install_args: args.map(|a| a.to_string()),
        step,
    }
}

#[test]
fn test_template_creation_and_packages() {
    let mut db = TemplateStore::new();
    let template_id = db.create_template("ml-base", "1.0", "3.12", 0).unwrap();
    assert!(template_id > 0);

    let templates = db.list_templates();
    assert_eq!(templates.len(), 1);
    assert_eq!(templates[0].name, "ml-base");

    let found_id = db.get_template_id("ml-base", "1.0");
    assert_eq!(found_id, Some(template_id));
    assert_eq!(db.get_template_id("ml-base", "2.0"), None);
}

#[test]
fn templates_are_upserted_on_name_and_version() {
    let mut db = TemplateStore::new();
    let a = db.create_template("t", "1.0", "3.11", 1).unwrap();
    let b = db.create_template("t", "1.0", "3.12", 2).unwrap();
    let c = db.create_template("t", "2.0", "3.12", 3).unwrap();
    assert_eq!(a, b);
    assert_ne!(a, c);
    assert_eq!(db.list_templates().len(), 2);
    assert_eq!(db.list_templates()[0].python_version, "3.12");
    assert_eq!(db.list_templates()[0].updated_at, 2);
}

#[test]
fn template_packages_are_deduplicated_and_ordered_by_step() {
    let mut db = TemplateStore::new();
    let t = db.create_template("t", "1", "3.12", 0).unwrap();
    db.add_template_package(tp(t, "torch", "2.9", 1, Some("--index-url https://x"))).unwrap();
    db.add_template_package(tp(t, "numpy", "2.1", 0, None)).unwrap();
    db.add_template_package(tp(t, "torch", "2.10", 1, Some("--index-url https://x"))).unwrap();
    db.add_template_package(tp(t, "torch", "2.10", 1, Some("--index-url https://x"))).unwrap();
    db.add_template_package(tp(t, "scipy", "1.0", 0, None)).unwrap();
    let ps = db.get_template_packages(t);
    let names: Vec<(&str, &str)> =
        ps.iter().map(|p| (p.package_name.as_str(), p.version.as_str())).collect();
    assert_eq!(names, vec![("numpy", "2.1"), ("scipy", "1.0"), ("torch", "2.10")]);
    assert_eq!(
        db.add_template_package(tp(t + 50, "x", "1", 0, None)),
        Err(TemplateError::NotFound)
    );
    assert!(db.remove_template_package(t, "numpy"));
    assert!(!db.remove_template_package(t, "numpy"));
    assert_eq!(db.get_template_packages(t).len(), 2);
    assert!(db.get_template_packages(t + 1).is_empty());
}

#[test]
fn test_session_management() {
    let mut db = TemplateStore::new();
    let template_id = db.create_template("session-tpl", "1.0", "3.12", 0).unwrap();

    let session = db.get_active_session();
    assert!(session.is_none());

    db.start_session(template_id, "/tmp/session-env").unwrap();

    let session = db.get_active_session();
    assert!(session.is_some());
    let (tpl_id, path) = session.unwrap();
    assert_eq!(tpl_id, template_id);
    assert_eq!(path, "/tmp/session-env");

    db.clear_sessions();
    let session = db.get_active_session();
    assert!(session.is_none());
    assert_eq!(db.start_session(template_id + 9, "/x"), Err(TemplateError::NotFound));
}

#[test]
fn there_is_at_most_one_session() {
    let mut db = TemplateStore::new();
    let a = db.create_template("a", "1", "3.12", 0).unwrap();
    let b = db.create_template("b", "1", "3.12", 0).unwrap();
    db.start_session(a, "/tmp/a").unwrap();
    db.start_session(b, "/tmp/b").unwrap();
    assert_eq!(db.get_active_session(), Some((b, "/tmp/b".to_string())));
}

#[test]
fn deleting_a_template_cascades() {
    let mut db = TemplateStore::new();
    let a = db.create_template("a", "1", "3.12", 0).unwrap();
    let b = db.create_template("b", "1", "3.12", 0).unwrap();
    db.add_template_package(tp(a, "x", "1", 0, None)).unwrap();
    db.add_template_package(tp(b, "y", "1", 0, None)).unwrap();
    db.start_session(a, "/tmp/a").unwrap();
    assert!(db.delete_template("a"));
    assert!(!db.delete_template("a"));
    assert_eq!(db.list_templates().len(), 1);
    assert!(db.get_template_packages(a).is_empty());
    assert_eq!(db.get_template_packages(b).len(), 1);
    assert!(db.get_active_session().is_none());
}

fn step_names(steps: &[Step]) -> Vec<(Option<&str>, Vec<&str>)> {
    steps
        .iter()
        .map(|s| (s.install_args.as_deref(), s.packages.iter().map(|p: &Pkg| p.name.as_str()).collect()))
        .collect()
}

#[test]
fn stored_packages_are_grouped_into_steps() {
    let rows = vec![
        tp(1, "numpy", "2", 0, None),
        tp(1, "scipy", "1", 0, None),
        tp(1, "torch", "2.10", 1, Some("--index-url https://x")),
        tp(1, "tv", "0.25", 1, Some("ignored")),
        tp(1, "late", "1", 5, None),
    ];
    let steps = load_steps_from_db(&rows);
    assert_eq!(
        step_names(&steps),
        vec![
            (None, vec!["numpy", "scipy"]),
            (Some("--index-url https://x"), vec!["torch", "tv"]),
            (None, vec!["late"]),
        ]
    );
    assert!(load_steps_from_db(&Vec::new()).is_empty());
    let odd = vec![tp(1, "lost", "1", -1, None), tp(1, "kept", "1", 0, None)];
    assert_eq!(step_names(&load_steps_from_db(&odd)), vec![(None, vec!["kept"])]);
}

#[test]
fn template_store_is_restored_only_if_it_keeps_the_rules() {
    let mut db = TemplateStore::new();
    let t = db.create_template("t", "1", "3.12", 0).unwrap();
    db.add_template_package(tp(t, "x", "1", 0, None)).unwrap();
    let all = db.get_all_templates_with_packages();
    assert_eq!(all.len(), 1);
    assert_eq!(all[0].1.len(), 1);
    let templates: Vec<_> = db.list_templates().iter().map(|t| t.duplicate()).collect();
    let packages: Vec<_> = db.packages().iter().map(|p| p.duplicate()).collect();
    assert!(TemplateStore::restore(templates, packages, None, db.next_id()).is_some());
    let templates: Vec<_> = db.list_templates().iter().map(|t| t.duplicate()).collect();
    assert!(TemplateStore::restore(templates, vec![tp(t + 1, "x", "1", 0, None)], None, db.next_id())
        .is_none());
    assert!(TemplateStore::restore(Vec::new(), Vec::new(), None, 1).is_some());
}
