use zen::registry::{
    LinkSelector, LinkType, PathQuery, Registry, RegistryError, SchemaStatus, CURRENT_SCHEMA,
};

fn create_test_db() -> Registry {
    Registry::new()
}

#[test]
fn test_labels_crud() {
    let mut db = create_test_db();

    // Register a test environment
    db.register_env("test_env", "/tmp/test_env", "3.12", 0).unwrap();

    // Add labels
    db.add_label("test_env", "ml").unwrap();
    db.add_label("test_env", "dev").unwrap();

    // Get labels
    let labels = db.get_labels("test_env").unwrap();
    assert!(labels.contains(&"ml".to_string()));
    assert!(labels.contains(&"dev".to_string()));
    assert_eq!(labels.len(), 2);

    // Check has_label
    assert!(db.has_label("test_env", "ml").unwrap());
    assert!(!db.has_label("test_env", "production").unwrap());

    // Remove label
    db.remove_label("test_env", "ml").unwrap();
    let labels = db.get_labels("test_env").unwrap();
    assert!(!labels.contains(&"ml".to_string()));
    assert!(labels.contains(&"dev".to_string()));

    // Duplicate label should be ignored
    db.add_label("test_env", "dev").unwrap();
    let labels = db.get_labels("test_env").unwrap();
    assert_eq!(labels.len(), 1);
}

#[test]
fn test_get_envs_by_label() {
    let mut db = create_test_db();

    // Register test environments
    db.register_env("env_ml", "/tmp/env_ml", "3.12", 0).unwrap();
    db.register_env("env_dev", "/tmp/env_dev", "3.11", 0).unwrap();
    db.register_env("env_both", "/tmp/env_both", "3.10", 0).unwrap();

    // Add labels
    db.add_label("env_ml", "ml").unwrap();
    db.add_label("env_dev", "dev").unwrap();
    db.add_label("env_both", "ml").unwrap();
    db.add_label("env_both", "dev").unwrap();

    // Get envs by label
    let ml_envs = db.get_envs_by_label("ml");
    assert!(ml_envs.contains(&"env_ml".to_string()));
    assert!(ml_envs.contains(&"env_both".to_string()));
    assert!(!ml_envs.contains(&"env_dev".to_string()));
    assert_eq!(ml_envs.len(), 2);

    let dev_envs = db.get_envs_by_label("dev");
    assert!(dev_envs.contains(&"env_dev".to_string()));
    assert!(dev_envs.contains(&"env_both".to_string()));
    assert_eq!(dev_envs.len(), 2);
}

#[test]
fn test_labels_nonexistent_env() {
    let mut db = create_test_db();

    // Try to add label to nonexistent env - should return error
    let result = db.add_label("nonexistent", "ml");
    assert!(result.is_err());
}

#[test]
fn labels_are_stored_in_lowercase() {
    let mut db = Registry::new();
    db.register_env("e", "/e", "3.12", 0).unwrap();
    db.add_label("e", "ML").unwrap();
    db.add_label("e", "ml").unwrap();
    assert_eq!(db.get_labels("e").unwrap(), vec!["ml".to_string()]);
    assert!(db.has_label("e", "Ml").unwrap());
    db.remove_label("e", "mL").unwrap();
    assert!(db.get_labels("e").unwrap().is_empty());
}

#[test]
fn register_is_an_upsert_on_name() {
    let mut db = Registry::new();
    let id = db.register_env("update-env", "/tmp/update-env", "3.11", 10).unwrap();
    assert!(id > 0);
    assert_eq!(db.list_envs().len(), 1);
    assert_eq!(db.list_envs()[0].python_version, "3.11");
    db.add_label("update-env", "keep").unwrap();
    let again = db.register_env("update-env", "/tmp/moved", "3.12", 20).unwrap();
    assert_eq!(again, id);
    assert_eq!(db.list_envs().len(), 1);
    assert_eq!(db.list_envs()[0].path, "/tmp/moved");
    assert_eq!(db.list_envs()[0].python_version, "3.12");
    assert_eq!(db.list_envs()[0].updated_at, 20);
    assert_eq!(db.get_labels("update-env").unwrap(), vec!["keep".to_string()]);
    assert_eq!(db.get_env_id("update-env"), Some(id));
    assert_eq!(db.get_env_name_by_id(id), Some("update-env".to_string()));
    assert_eq!(db.get_env_name_by_path("/tmp/moved"), Some("update-env".to_string()));
    assert_eq!(db.get_env_name_by_path("/tmp/update-env"), None);
}

#[test]
fn a_path_belongs_to_one_environment() {
    let mut db = Registry::new();
    db.register_env("a", "/envs/a", "3.12", 0).unwrap();
    assert_eq!(db.register_env("b", "/envs/a", "3.12", 0), Err(RegistryError::PathTaken));
    assert_eq!(db.list_envs().len(), 1);
    db.register_env("b", "/envs/b", "3.12", 0).unwrap();
    assert_eq!(db.register_env("b", "/envs/a", "3.12", 0), Err(RegistryError::PathTaken));
    assert_eq!(db.get_env_name_by_path("/envs/b"), Some("b".to_string()));
}

#[test]
fn names_round_trip_byte_for_byte() {
    let mut db = Registry::new();
    let name = "My-Env_1.2 ünï";
    db.register_env(name, "/p", "3.12", 0).unwrap();
    assert_eq!(db.list_envs()[0].name, name);
    let id = db.get_env_id(name).unwrap();
    assert_eq!(db.get_env_name_by_id(id).unwrap(), name);
    db.associate_project("/proj", name, None, true).unwrap();
    assert_eq!(db.get_default_environment("/proj").unwrap(), name);
}

#[test]
fn delete_cascades_to_labels_and_links() {
    let mut db = Registry::new();
    db.register_env("a", "/envs/a", "3.12", 0).unwrap();
    db.register_env("b", "/envs/b", "3.12", 0).unwrap();
    db.add_label("a", "ml").unwrap();
    db.add_label("b", "ml").unwrap();
    db.associate_project("/proj", "a", None, true).unwrap();
    db.associate_project("/proj", "b", None, false).unwrap();
    assert!(db.delete_env("a"));
    assert!(!db.delete_env("a"));
    assert_eq!(db.get_env_id("a"), None);
    assert_eq!(db.get_envs_by_label("ml"), vec!["b".to_string()]);
    assert_eq!(db.links().len(), 1);
    assert_eq!(db.get_default_environment("/proj"), None);
    assert_eq!(db.get_labels("a"), Err(RegistryError::NotFound));
}

#[test]
fn test_project_environment_association() {
    let mut db = Registry::new();
    db.register_env("myproject-main", "/tmp/myproject-main", "3.12", 0).unwrap();
    db.associate_project("/path/to/project", "myproject-main", Some("main"), true).unwrap();

    let default_env = db.get_default_environment("/path/to/project");
    assert_eq!(default_env, Some("myproject-main".to_string()));

    let envs = db.find_candidates(&PathQuery::Exact("/path/to/project".to_string()));
    assert_eq!(envs.len(), 1);
    assert_eq!(envs[0].env_name, "myproject-main");
    assert!(envs[0].is_default);
    assert_eq!(db.links()[0].tag, Some("main".to_string()));
}

#[test]
fn default_is_exclusive() {
    let mut db = Registry::new();
    for n in ["a", "b", "c"] {
        db.register_env(n, &format!("/envs/{}", n), "3.12", 0).unwrap();
    }
    db.associate_project("/proj", "a", None, true).unwrap();
    db.associate_project("/proj", "b", None, true).unwrap();
    db.associate_project("/other", "c", None, true).unwrap();
    db.associate_project("/proj", "c", None, false).unwrap();
    let defaults: Vec<_> =
        db.links().iter().filter(|l| l.project_path == "/proj" && l.is_default).collect();
    assert_eq!(defaults.len(), 1);
    assert_eq!(db.get_default_environment("/proj"), Some("b".to_string()));
    assert_eq!(db.get_default_environment("/other"), Some("c".to_string()));
    assert_eq!(db.get_default_environment("/none"), None);
}

#[test]
fn links_are_deduplicated() {
    let mut db = Registry::new();
    db.register_env("a", "/envs/a", "3.12", 0).unwrap();
    db.associate_project("/proj", "a", None, false).unwrap();
    db.associate_project("/proj", "a", None, false).unwrap();
    db.record_activation("/proj", "a", 5).unwrap();
    assert_eq!(db.links().len(), 1);
    db.record_activation("/sub", "a", 6).unwrap();
    db.record_activation("/sub", "a", 7).unwrap();
    assert_eq!(db.links().len(), 2);
    assert_eq!(db.associate_project("/proj", "zzz", None, false), Err(RegistryError::NotFound));
    assert_eq!(db.record_activation("/proj", "zzz", 1), Err(RegistryError::NotFound));
}

#[test]
fn activation_is_monotone_and_keeps_user_links() {
    let mut db = Registry::new();
    db.register_env("a", "/envs/a", "3.12", 0).unwrap();
    db.associate_project("/proj", "a", Some("main"), true).unwrap();
    let mut last = 0;
    for t in 1..5 {
        db.record_activation("/proj", "a", t).unwrap();
        let l = &db.links()[0];
        assert!(l.activation_count > last);
        last = l.activation_count;
        assert_eq!(l.link_type, LinkType::User);
        assert_eq!(l.last_activated_at, Some(t));
        assert!(l.is_default);
        assert_eq!(l.tag, Some("main".to_string()));
    }
    assert_eq!(last, 4);
    db.record_activation("/new", "a", 9).unwrap();
    let l = &db.links()[1];
    assert_eq!(l.link_type, LinkType::Activated);
    assert_eq!(l.activation_count, 1);
    assert!(!l.is_default);
    // an explicit link to an activated one makes it a user link and keeps the count
    db.associate_project("/new", "a", None, false).unwrap();
    let l = &db.links()[1];
    assert_eq!(l.link_type, LinkType::User);
    assert_eq!(l.activation_count, 1);
}

#[test]
fn removing_links() {
    let mut db = Registry::new();
    db.register_env("a", "/envs/a", "3.12", 0).unwrap();
    db.register_env("b", "/envs/b", "3.12", 0).unwrap();
    let b = db.get_env_id("b").unwrap();
    db.associate_project("/p", "a", None, false).unwrap();
    db.associate_project("/p", "b", None, false).unwrap();
    db.record_activation("/q", "a", 100).unwrap();
    db.record_activation("/r", "b", 200).unwrap();
    assert_eq!(db.remove_links(&LinkSelector::Activated(Some(150))), 1);
    assert_eq!(db.links().len(), 3);
    assert_eq!(db.remove_links(&LinkSelector::Pair("/p".to_string(), b)), 1);
    assert_eq!(db.remove_links(&LinkSelector::Activated(None)), 1);
    assert_eq!(db.remove_links(&LinkSelector::AtPath("/p".to_string())), 1);
    assert_eq!(db.remove_links(&LinkSelector::AtPath("/p".to_string())), 0);
    assert!(db.links().is_empty());
}

#[test]
fn test_config() {
    let mut db = Registry::new();
    assert!(db.get_config("stack_info").is_none());
    db.set_config("stack_info", "compact");
    assert_eq!(db.get_config("stack_info"), Some("compact".to_string()));
    db.set_config("stack_info", "full");
    assert_eq!(db.get_config("stack_info"), Some("full".to_string()));
    db.set_config("other", "1");
    assert_eq!(db.list_all_config().len(), 2);
}

#[test]
fn candidates_are_ranked() {
    let mut db = Registry::new();
    for n in ["a", "b", "c", "d"] {
        db.register_env(n, &format!("/envs/{}", n), "3.12", 0).unwrap();
    }
    db.associate_project("/p", "a", None, false).unwrap();
    db.record_activation("/p", "b", 10).unwrap();
    db.record_activation("/p", "b", 11).unwrap();
    db.record_activation("/p", "c", 12).unwrap();
    db.record_activation("/p", "c", 13).unwrap();
    db.associate_project("/p", "d", None, true).unwrap();
    let c = db.find_candidates(&PathQuery::Exact("/p".to_string()));
    let names: Vec<&str> = c.iter().map(|x| x.env_name.as_str()).collect();
    assert_eq!(names, vec!["d", "c", "b", "a"]);
    assert_eq!(c[1].env_path, "/envs/c");
    assert_eq!(c[1].activation_count, 2);
    let two = db.get_activation_candidates(&vec!["/none".to_string(), "/p".to_string()]);
    assert_eq!(two.len(), 4);
    let twice = db.get_activation_candidates(&vec!["/p".to_string(), "/p".to_string()]);
    assert_eq!(twice.len(), 4);
    assert!(db.get_activation_candidates(&Vec::new()).is_empty());
}

#[test]
fn subfolder_candidates_respect_depth() {
    let mut db = Registry::new();
    db.register_env("a", "/envs/a", "3.12", 0).unwrap();
    for p in ["/w/proj", "/w/proj/x", "/w/proj/x/y", "/w/proj/x/y/z", "/w/project", "/w/proj/"] {
        db.associate_project(p, "a", None, false).unwrap();
    }
    let mut found: Vec<String> = db
        .get_subfolder_candidates("/w/proj", 2)
        .into_iter()
        .map(|c| c.project_path)
        .collect();
    found.sort();
    assert_eq!(found, vec!["/w/proj/", "/w/proj/x", "/w/proj/x/y"]);
    let n = db.get_subfolder_candidates("/w/proj/", 1).len();
    assert_eq!(n, 2);
    assert!(PathQuery::Within("/w/proj".to_string(), 0).matches("/w/proj"));
    assert!(!PathQuery::Below("/w/proj".to_string(), 0).matches("/w/proj"));
    assert!(!PathQuery::Exact("/w/proj".to_string()).matches("/w/proj/x"));
}

#[test]
fn test_comments() {
    let mut db = Registry::new();
    let env_id = db.register_env("comment-env", "/tmp/comment-env", "3.12", 0).unwrap();
    let uuid = "3f2b7c1e-0000-4000-8000-000000000001";
    db.add_comment(uuid, "/project/path", Some(env_id), "Test comment content", Some("note"), 10)
        .unwrap();

    let comments = db.list_comments(Some("/project/path"), Some(env_id));
    assert_eq!(comments.len(), 1);
    assert!(comments[0].message.contains("Test comment content"));

    let uuid = comments[0].uuid.clone();
    db.remove_comment(&uuid);

    let comments_after = db.list_comments(Some("/project/path"), Some(env_id));
    assert_eq!(comments_after.len(), 0);
}

#[test]
fn notes_are_listed_latest_first_and_removed_by_prefix() {
    let mut db = Registry::new();
    let a = db.register_env("a", "/envs/a", "3.12", 0).unwrap();
    db.add_comment("aa-1", "/p", Some(a), "first", None, 10).unwrap();
    db.add_comment("aa-2", "/p", None, "second", Some("t"), 30).unwrap();
    db.add_comment("bb-1", "/q", Some(a), "third", None, 20).unwrap();
    assert_eq!(db.add_comment("aa-1", "/p", None, "again", None, 40), Err(RegistryError::UuidTaken));
    assert_eq!(db.add_comment("cc", "/p", Some(a + 7), "x", None, 40), Err(RegistryError::NotFound));
    let all: Vec<String> = db.list_comments(None, None).into_iter().map(|n| n.message).collect();
    assert_eq!(all, vec!["second", "third", "first"]);
    let of_a: Vec<String> = db.list_comments(None, Some(a)).into_iter().map(|n| n.message).collect();
    assert_eq!(of_a, vec!["third", "first"]);
    assert_eq!(db.list_comments(Some("/p"), None).len(), 2);
    assert_eq!(db.remove_comment("aa"), 2);
    assert_eq!(db.remove_comment("aa"), 0);
    assert_eq!(db.list_comments(None, None).len(), 1);
}

#[test]
fn notes_forget_a_deleted_environment() {
    let mut db = Registry::new();
    let a = db.register_env("a", "/envs/a", "3.12", 0).unwrap();
    db.add_comment("u1", "", Some(a), "about a", Some("note"), 1).unwrap();
    db.delete_env("a");
    let notes = db.list_comments(None, None);
    assert_eq!(notes.len(), 1);
    assert_eq!(notes[0].env_id, None);
    assert_eq!(notes[0].message, "about a");
}

#[test]
fn schema_version_is_brought_up_to_date() {
    assert_eq!(CURRENT_SCHEMA, 4);
    let mut db = Registry::new();
    assert_eq!(db.check_schema_version(), SchemaStatus::Upgraded { from: 1 });
    assert_eq!(db.get_config("schema_version"), Some("4".to_string()));
    assert_eq!(db.check_schema_version(), SchemaStatus::Current);
    db.set_config("schema_version", "2");
    assert_eq!(db.check_schema_version(), SchemaStatus::Upgraded { from: 2 });
    db.set_config("schema_version", "9");
    assert_eq!(db.check_schema_version(), SchemaStatus::Ahead { stored: 9 });
    assert_eq!(db.get_config("schema_version"), Some("9".to_string()));
    db.set_config("schema_version", "junk");
    assert_eq!(db.check_schema_version(), SchemaStatus::Upgraded { from: 1 });
}

#[test]
fn activation_history_is_reset() {
    let mut db = Registry::new();
    db.register_env("a", "/envs/a", "3.12", 0).unwrap();
    db.associate_project("/never", "a", None, false).unwrap();
    db.record_activation("/old", "a", 100).unwrap();
    db.record_activation("/new", "a", 300).unwrap();
    assert_eq!(db.reset_activation_history(Some(200)), 1);
    let old = db.links().iter().find(|l| l.project_path == "/old").unwrap();
    assert_eq!((old.activation_count, old.last_activated_at), (0, None));
    let new = db.links().iter().find(|l| l.project_path == "/new").unwrap();
    assert_eq!((new.activation_count, new.last_activated_at), (1, Some(300)));
    assert_eq!(db.reset_activation_history(None), 1);
    assert_eq!(db.reset_activation_history(None), 0);
    assert_eq!(db.links().len(), 3);
}

#[test]
fn last_activated_environment() {
    let mut db = Registry::new();
    assert_eq!(db.get_last_activated(), None);
    db.register_env("a", "/envs/a", "3.12", 0).unwrap();
    db.register_env("b", "/envs/b", "3.12", 0).unwrap();
    db.associate_project("/p", "a", None, false).unwrap();
    assert_eq!(db.get_last_activated(), None);
    db.record_activation("/p", "a", 10).unwrap();
    db.record_activation("/q", "b", 20).unwrap();
    assert_eq!(db.get_last_activated(), Some(("b".to_string(), "/envs/b".to_string())));
    db.record_activation("/p", "a", 30).unwrap();
    assert_eq!(db.get_last_activated(), Some(("a".to_string(), "/envs/a".to_string())));
}

#[test]
fn stale_links_are_pruned() {
    let mut db = Registry::new();
    db.register_env("a", "/envs/a", "3.12", 0).unwrap();
    db.register_env("b", "/envs/b", "3.12", 0).unwrap();
    db.associate_project("/p", "a", None, false).unwrap();
    db.associate_project("/p", "b", None, false).unwrap();
    db.associate_project("/q", "a", None, false).unwrap();
    let pruned = db.prune_stale_links(&vec![false, true, false], &vec![false, false, true]);
    assert_eq!(pruned.len(), 2);
    assert_eq!(pruned[0].project_path, "/p");
    assert_eq!(pruned[0].env_name, "b");
    assert_eq!(pruned[0].reason, "env deleted");
    assert_eq!(pruned[1].project_path, "/q");
    assert_eq!(pruned[1].env_name, "a");
    assert_eq!(pruned[1].reason, "project dir missing");
    assert_eq!(db.links().len(), 1);
    assert_eq!(db.links()[0].project_path, "/p");
    assert!(db.prune_stale_links(&Vec::new(), &Vec::new()).is_empty());
}

#[test]
fn forwarders_and_listings() {
    let mut db = Registry::new();
    db.register_env("a", "/envs/a", "3.12", 0).unwrap();
    db.register_env("b", "/envs/b", "3.12", 0).unwrap();
    db.register_env("c", "/envs/c", "3.12", 0).unwrap();
    let b = db.get_env_id("b").unwrap();
    db.associate_project("/p", "a", Some("main"), true).unwrap();
    db.associate_project("/p", "b", None, false).unwrap();
    db.record_activation("/q", "a", 5).unwrap();
    db.record_activation("/p", "c", 6).unwrap();
    assert_eq!(db.get_all_project_paths(), vec!["/p".to_string(), "/q".to_string()]);
    let stats = db.get_project_links_with_stats("/p");
    assert_eq!(stats.len(), 3);
    assert_eq!(stats[0].env_name, "a");
    assert_eq!(stats[0].tag, Some("main".to_string()));
    assert_eq!(db.get_project_environments("/q").len(), 1);
    db.remove_project_association("/p", b);
    assert_eq!(db.get_project_environments("/p").len(), 2);
    assert_eq!(db.remove_activation_links(None), 2);
    assert_eq!(db.remove_links_for_path("/p"), 1);
    assert!(db.links().is_empty());

    db.add_label("b", "x").unwrap();
    db.add_label("a", "ml").unwrap();
    db.add_label("a", "dev").unwrap();
    assert_eq!(
        db.get_all_labels(),
        vec![
            ("a".to_string(), vec!["dev".to_string(), "ml".to_string()]),
            ("b".to_string(), vec!["x".to_string()]),
        ]
    );
    db.add_stored_label("c", "MiXed").unwrap();
    assert_eq!(db.has_stored_label("c", "MiXed"), Ok(true));
    assert_eq!(db.has_label("c", "MiXed"), Ok(false));
    assert_eq!(db.get_envs_by_stored_label("MiXed"), vec!["c".to_string()]);
    db.remove_stored_label("c", "MiXed").unwrap();
    assert_eq!(db.has_stored_label("c", "MiXed"), Ok(false));
    db.set_favorite("b", true).unwrap();
    assert!(db.list_envs()[1].is_favorite);
    assert_eq!(db.set_favorite("zzz", true), Err(RegistryError::NotFound));
}

#[test]
fn stored_content_is_restored_only_if_it_keeps_the_rules() {
    let mut db = Registry::new();
    db.register_env("a", "/envs/a", "3.12", 0).unwrap();
    db.add_label("a", "ml").unwrap();
    db.associate_project("/p", "a", None, true).unwrap();
    db.add_comment("u", "/p", None, "m", None, 1).unwrap();
    db.set_config("k", "v");
    let copy = |r: &Registry| {
        (
            r.list_envs().iter().map(|e| e.duplicate()).collect::<Vec<_>>(),
            r.labels().iter().map(|l| l.duplicate()).collect::<Vec<_>>(),
            r.links().iter().map(|l| l.duplicate()).collect::<Vec<_>>(),
            r.notes().iter().map(|n| n.duplicate()).collect::<Vec<_>>(),
            r.config().clone(),
        )
    };
    let (envs, labels, links, notes, config) = copy(&db);
    let restored = Registry::restore(envs, labels, links, notes, config, db.next_id()).unwrap();
    assert_eq!(restored.get_env_id("a"), db.get_env_id("a"));
    assert_eq!(restored.get_default_environment("/p"), Some("a".to_string()));

    let (envs, labels, mut links, notes, config) = copy(&db);
    let twice = links[0].duplicate();
    links.push(twice);
    assert!(Registry::restore(envs, labels, links, notes, config, db.next_id()).is_none());

    let (envs, mut labels, links, notes, config) = copy(&db);
    labels[0].env_id = 99;
    assert!(Registry::restore(envs, labels, links, notes, config, db.next_id()).is_none());

    let (envs, labels, links, notes, config) = copy(&db);
    assert!(Registry::restore(envs, labels, links, notes, config, 1).is_none());
}

#[test]
fn test_database_creation() {
    let mut db = Registry::new();

    // Test environment registration
    let env_id = db.register_env("test-env", "/tmp/test-env", "3.12", 0).unwrap();
    assert!(env_id > 0);

    // Test listing
    let envs = db.list_envs();
    assert_eq!(envs.len(), 1);
    assert_eq!(envs[0].name, "test-env");
}

#[test]
fn test_labels() {
    let mut db = Registry::new();

    // Register environment
    db.register_env("label-test", "/tmp/label-test", "3.12", 0).unwrap();

    // Initially no labels
    let labels = db.get_labels("label-test").unwrap();
    assert!(labels.is_empty());

    // Add labels
    db.add_label("label-test", "ml").unwrap();
    db.add_label("label-test", "favorite").unwrap();

    let labels = db.get_labels("label-test").unwrap();
    assert_eq!(labels.len(), 2);
    assert!(labels.contains(&"ml".to_string()));
    assert!(labels.contains(&"favorite".to_string()));

    // Remove label
    db.remove_label("label-test", "ml").unwrap();
    let labels = db.get_labels("label-test").unwrap();
    assert_eq!(labels.len(), 1);
    assert!(labels.contains(&"favorite".to_string()));
}

#[test]
fn test_environment_update() {
    let mut db = Registry::new();

    // Register environment
    let env_id = db.register_env("update-env", "/tmp/update-env", "3.11", 0).unwrap();
    assert!(env_id > 0);

    // Verify registration
    let envs = db.list_envs();
    assert_eq!(envs.len(), 1);
    assert_eq!(envs[0].python_version, "3.11");
}

#[test]
fn test_environment_inference() {
    let mut db = Registry::new();
    db.register_env("inference-env", "/tmp/zen_test_inference/inference-env", "3.12", 0).unwrap();

    let inferred = db.get_env_name_by_path("/tmp/zen_test_inference/inference-env");
    assert_eq!(inferred, Some("inference-env".to_string()));

    // Test with no match
    let inferred_none = db.get_env_name_by_path("/unknown/path");
    assert_eq!(inferred_none, None);
}

#[test]
fn listings_are_in_ascending_order() {
    let mut db = Registry::new();
    db.register_env("zeta", "/envs/zeta", "3.12", 0).unwrap();
    db.register_env("alpha", "/envs/alpha", "3.12", 0).unwrap();
    db.register_env("mid", "/envs/mid", "3.12", 0).unwrap();
    for l in ["torch", "dev", "ml", "Dev", "a-b"] {
        db.add_label("zeta", l).unwrap();
    }
    assert_eq!(db.get_labels("zeta").unwrap(), vec!["a-b", "dev", "ml", "torch"]);
    db.add_label("alpha", "ml").unwrap();
    db.add_label("mid", "ml").unwrap();
    db.add_label("mid", "cpu").unwrap();
    assert_eq!(db.get_envs_by_label("ML"), vec!["alpha", "mid", "zeta"]);
    assert_eq!(
        db.get_all_labels(),
        vec![
            ("alpha".to_string(), vec!["ml".to_string()]),
            ("mid".to_string(), vec!["cpu".to_string(), "ml".to_string()]),
            (
                "zeta".to_string(),
                vec!["a-b".to_string(), "dev".to_string(), "ml".to_string(), "torch".to_string()],
            ),
        ]
    );
    db.set_config("theme", "dark");
    db.set_config("editor", "vi");
    db.set_config("stack_info", "full");
    let keys: Vec<String> = db.list_all_config().iter().map(|c| c.key.clone()).collect();
    assert_eq!(keys, vec!["editor", "stack_info", "theme"]);
    let stored: Vec<String> = db.config().iter().map(|c| c.key.clone()).collect();
    assert_eq!(stored, vec!["theme", "editor", "stack_info"]);
}

#[test]
fn candidates_of_several_directories_are_ranked_together() {
    let mut db = Registry::new();
    db.register_env("a", "/envs/a", "3.12", 0).unwrap();
    db.register_env("b", "/envs/b", "3.12", 0).unwrap();
    db.register_env("c", "/envs/c", "3.12", 0).unwrap();
    db.record_activation("/w/one", "a", 10).unwrap();
    db.record_activation("/w/two", "b", 11).unwrap();
    db.record_activation("/w/two", "b", 12).unwrap();
    db.associate_project("/w/three", "c", None, true).unwrap();
    db.record_activation("/w/other", "a", 13).unwrap();
    let paths = vec![
        "/w/one".to_string(),
        "/w/two".to_string(),
        "/w/three".to_string(),
        "/w/two".to_string(),
    ];
    let found = db.get_activation_candidates(&paths);
    let got: Vec<(&str, &str)> =
        found.iter().map(|c| (c.env_name.as_str(), c.project_path.as_str())).collect();
    assert_eq!(got, vec![("c", "/w/three"), ("b", "/w/two"), ("a", "/w/one")]);
    assert!(PathQuery::AnyOf(paths.clone()).matches("/w/two"));
    assert!(!PathQuery::AnyOf(paths).matches("/w/other"));
}
