use zen::registry::{LinkType, Registry};
use zen::resolver::{gather_candidates, resolve, search_ancestors, Resolution};

fn registry_with_two_links(root: &str) -> Registry {
    let mut db = Registry::new();
    db.register_env("main", "/envs/main", "3.12", 0).unwrap();
    db.register_env("sub", "/envs/sub", "3.12", 0).unwrap();
    db.associate_project(root, "main", None, false).unwrap();
    db.record_activation(&format!("{}/sub", root), "sub", 100).unwrap();
    db
}

#[test]
fn activation_downward_and_upward() {
    let root = "/data/work/proj";
    let db = registry_with_two_links(root);

    let down = gather_candidates(&db, root, "/home/u");
    assert_eq!(down.len(), 2);
    assert_eq!(down[0].project_path, "/data/work/proj/sub");
    assert_eq!(down[0].link_type, LinkType::Activated);
    assert_eq!(down[1].project_path, "/data/work/proj");
    assert_eq!(down[1].link_type, LinkType::User);

    let up = gather_candidates(&db, "/data/work/proj/sub/x", "/home/u");
    assert_eq!(up.len(), 2);
    assert_eq!(up[0].project_path, "/data/work/proj/sub");
    assert_eq!(up[1].project_path, "/data/work/proj");
}

#[test]
fn upward_search_goes_two_levels() {
    let db = registry_with_two_links("/data/work/proj");
    let c = gather_candidates(&db, "/data/work/proj/a/b/c", "/home/u");
    assert!(c.is_empty());
    let c = gather_candidates(&db, "/data/work/proj/a/b", "/home/u");
    assert_eq!(c.len(), 1);
    assert_eq!(c[0].env_name, "main");
}

#[test]
fn ancestors_stop_at_home_root_and_umbrellas() {
    let a = |cwd: &str| search_ancestors(cwd, "/home/u");
    assert_eq!(a("/data/work/proj/sub/x"), vec!["/data/work/proj/sub", "/data/work/proj"]);
    assert_eq!(a("/data/work/proj"), vec!["/data/work"]);
    assert!(a("/data/work").is_empty());
    assert!(a("/data").is_empty());
    assert!(a("/").is_empty());
    assert!(a("").is_empty());
    assert!(a("/home/u/x").is_empty());
    assert!(a("/home/u/code/x").is_empty());
    assert_eq!(a("/home/u/code/x/y"), vec!["/home/u/code/x"]);
    assert_eq!(a("/home/u/code/x/y/z"), vec!["/home/u/code/x/y", "/home/u/code/x"]);
    assert!(a("/tmp/x").is_empty());
}

#[test]
fn one_candidate_per_environment_downward_wins() {
    let mut db = Registry::new();
    db.register_env("e", "/envs/e", "3.12", 0).unwrap();
    db.associate_project("/data/work/proj", "e", None, false).unwrap();
    db.associate_project("/data/work/proj/sub", "e", None, false).unwrap();
    db.record_activation("/data/work/proj/sub/deep", "e", 1).unwrap();
    let c = gather_candidates(&db, "/data/work/proj/sub", "/home/u");
    assert_eq!(c.len(), 1);
    assert_eq!(c[0].project_path, "/data/work/proj/sub/deep");
}

#[test]
fn resolution_outcomes() {
    let db = registry_with_two_links("/data/work/proj");
    let c = gather_candidates(&db, "/data/work/proj", "/home/u");

    let r = resolve(&c, &vec![true, true]);
    match r.outcome {
        Resolution::Choice(v) => {
            assert_eq!(v.len(), 2);
            assert_eq!(v[0].env_name, "sub");
        }
        _ => panic!("expected a choice"),
    }
    assert!(r.stale.is_empty());

    let r = resolve(&c, &vec![false, true]);
    match r.outcome {
        Resolution::Selected(x) => assert_eq!(x.env_name, "main"),
        _ => panic!("expected a selection"),
    }
    assert_eq!(r.stale, vec!["sub".to_string()]);

    let r = resolve(&c, &vec![false, false]);
    assert!(matches!(r.outcome, Resolution::NoLinks));
    assert_eq!(r.stale.len(), 2);

    let r = resolve(&c, &vec![true]);
    assert!(matches!(r.outcome, Resolution::Selected(_)));

    let r = resolve(&Vec::new(), &Vec::new());
    assert!(matches!(r.outcome, Resolution::NoLinks));
}

#[test]
fn activation_is_recorded_at_the_working_directory() {
    let mut db = registry_with_two_links("/data/work/proj");
    let cwd = "/data/work/proj/sub/x";
    let c = gather_candidates(&db, cwd, "/home/u");
    let r = resolve(&c, &vec![true, false]);
    if let Resolution::Selected(x) = r.outcome {
        db.record_activation(cwd, &x.env_name, 500).unwrap();
    } else {
        panic!("expected a selection");
    }
    let l = db.links().iter().find(|l| l.project_path == cwd).unwrap();
    assert_eq!(l.activation_count, 1);
    assert_eq!(l.link_type, LinkType::Activated);
    let old = db.links().iter().find(|l| l.project_path == "/data/work/proj/sub").unwrap();
    assert_eq!(old.activation_count, 1);
}
