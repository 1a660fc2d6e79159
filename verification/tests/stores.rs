use toybox_scaffold::errors::ScaffoldError;
use toybox_scaffold::module_manifest::DepSpec;
use toybox_scaffold::module_manifest::FeatureList;
use toybox_scaffold::module_manifest::ModuleManifest;
use toybox_scaffold::module_manifest::PackageInfo;
use toybox_scaffold::module_manifest::update_newgame_cargo;
use toybox_scaffold::module_manifest::populate_files;
use toybox_scaffold::registry::GameEntry;
use toybox_scaffold::registry::GameRegistry;
use toybox_scaffold::workspace::WorkspaceManifest;

fn entry(id: &str, dir: &str, class: &str) -> GameEntry {
    GameEntry {
        id: String::from(id),
        module_dir: String::from(dir),
        entry_class: String::from(class),
    }
}

fn empty_manifest(with_features: bool) -> ModuleManifest {
    ModuleManifest {
        package: PackageInfo {
            name: String::from("toybox"),
            version: String::from("0.1.0"),
            authors: vec![String::from("someone")],
            edition: String::from("2018"),
            publish: Some(false),
        },
        dependencies: Vec::new(),
        features: if with_features {
            Some(FeatureList { default: Vec::new() })
        } else {
            None
        },
    }
}

#[test]
fn registry_scenario_add_list_duplicate_remove() {
    let mut reg = GameRegistry::new();
    assert!(reg.add(entry("bomberman", "tb_bomberman", "Bomberman")).is_ok());
    assert_eq!(reg.list().len(), 1);
    assert_eq!(reg.list()[0].id, "bomberman");
    assert_eq!(
        reg.add(entry("bomberman", "tb_bomberman", "Bomberman")).unwrap_err(),
        ScaffoldError::AlreadyExists
    );
    assert_eq!(reg.list().len(), 1);
    assert!(reg.remove("bomberman").is_ok());
    assert_eq!(reg.list().len(), 0);
    assert_eq!(reg.remove("bomberman").unwrap_err(), ScaffoldError::NotFound);
}

#[test]
fn registry_duplicate_add_leaves_store_unchanged() {
    let mut reg = GameRegistry::new();
    reg.add(entry("pong", "tb_pong", "Pong")).unwrap();
    reg.add(entry("amidar", "tb_amidar", "Amidar")).unwrap();
    let err = reg.add(entry("pong", "tb_other", "Other")).unwrap_err();
    assert_eq!(err, ScaffoldError::AlreadyExists);
    assert_eq!(reg.list().len(), 2);
    assert_eq!(reg.list()[0].module_dir, "tb_pong");
    assert_eq!(reg.list()[1].id, "amidar");
}

#[test]
fn workspace_add_and_remove_member() {
    let mut ws = WorkspaceManifest::new();
    ws.add_member(String::from("tb_pong"));
    ws.add_member(String::from("tb_amidar"));
    assert!(ws.remove_member("tb_pong").is_ok());
    assert_eq!(ws.members.len(), 1);
    assert_eq!(ws.members[0], "tb_amidar");
    assert_eq!(ws.remove_member("tb_pong").unwrap_err(), ScaffoldError::NotFound);
}

#[test]
fn enable_feature_twice_keeps_one_entry() {
    let mut mm = empty_manifest(true);
    mm.enable_feature(&String::from("foo")).unwrap();
    mm.enable_feature(&String::from("foo")).unwrap();
    let list = &mm.features.as_ref().unwrap().default;
    assert_eq!(list.iter().filter(|s| s.as_str() == "foo").count(), 1);
}

#[test]
fn enable_feature_without_feature_section_fails() {
    let mut mm = empty_manifest(false);
    assert_eq!(
        mm.enable_feature(&String::from("foo")).unwrap_err(),
        ScaffoldError::MissingFeatureSection
    );
}

#[test]
fn disable_feature_is_idempotent() {
    let mut mm = empty_manifest(true);
    mm.enable_feature(&String::from("foo")).unwrap();
    mm.disable_feature(&String::from("foo"));
    mm.disable_feature(&String::from("foo"));
    assert!(mm.features.as_ref().unwrap().default.is_empty());
}

#[test]
fn game_dependency_round() {
    let mut mm = empty_manifest(true);
    mm.add_game_dependency(&String::from("pong"), &String::from("tb_pong"));
    assert!(mm.has_dependency("pong"));
    let dep: &DepSpec = &mm.dependencies[0].1;
    assert_eq!(dep.path.as_deref(), Some("../tb_pong"));
    assert_eq!(dep.version, "*");
    assert!(dep.optional);
    mm.remove_game_dependency(&String::from("pong"));
    assert!(!mm.has_dependency("pong"));
    mm.remove_game_dependency(&String::from("pong"));
    assert!(mm.dependencies.is_empty());
}

#[test]
fn newgame_cargo_adds_universal_dependencies() {
    let mut mm = empty_manifest(false);
    update_newgame_cargo(&mut mm, &String::from("pong")).unwrap();
    assert_eq!(mm.package.name, "pong");
    assert_eq!(mm.dependencies.len(), 6);
    assert!(mm.has_dependency("serde"));
    assert!(mm.has_dependency("serde_json"));
    assert!(mm.has_dependency("serde_derive"));
    assert!(mm.has_dependency("lazy_static"));
    assert!(mm.has_dependency("schemars"));
    assert!(mm.has_dependency("toybox-core"));
    assert_eq!(mm.dependencies[5].1.path.as_deref(), Some("../core"));
}

#[test]
fn newgame_cargo_rejects_clashing_manifest() {
    let mut mm = empty_manifest(false);
    mm.dependencies.push((
        String::from("serde"),
        DepSpec { path: None, version: String::from("1"), optional: false },
    ));
    assert_eq!(
        update_newgame_cargo(&mut mm, &String::from("pong")).unwrap_err(),
        ScaffoldError::SchemaError
    );
    assert_eq!(mm.dependencies.len(), 1);
    assert_eq!(mm.package.name, "toybox");
}

#[test]
fn populate_files_runs_both_steps() {
    let mut mm = empty_manifest(false);
    assert!(populate_files(&mut mm, &String::from("pong"), &String::from("Pong")).is_ok());
    assert_eq!(mm.package.name, "pong");
    assert_eq!(mm.dependencies.len(), 6);
}

#[test]
fn populate_files_keeps_cargo_rewrite_on_name_failure() {
    let mut mm = empty_manifest(false);
    let err = populate_files(&mut mm, &String::from("pong"), &String::from("Wrong")).unwrap_err();
    assert_eq!(err, ScaffoldError::InvalidName);
    assert_eq!(mm.package.name, "pong");
    assert_eq!(mm.dependencies.len(), 6);
}

#[test]
fn io_failure_is_a_distinct_error_kind() {
    assert_ne!(ScaffoldError::IOFailure, ScaffoldError::SchemaError);
}
