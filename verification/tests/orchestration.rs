use toybox_scaffold::errors::ScaffoldError;
use toybox_scaffold::module_manifest::FeatureList;
use toybox_scaffold::module_manifest::ModuleManifest;
use toybox_scaffold::module_manifest::PackageInfo;
use toybox_scaffold::orchestrator::AddPhase;
use toybox_scaffold::orchestrator::AddSaga;
use toybox_scaffold::registry::GameRegistry;
use toybox_scaffold::workspace::WorkspaceManifest;

fn manifest(name: &str, with_features: bool) -> ModuleManifest {
    ModuleManifest {
        package: PackageInfo {
            name: String::from(name),
            version: String::from("0.1.0"),
            authors: Vec::new(),
            edition: String::from("2018"),
            publish: None,
        },
        dependencies: Vec::new(),
        features: if with_features {
            Some(FeatureList { default: Vec::new() })
        } else {
            None
        },
    }
}

#[test]
fn add_saga_happy_path_reaches_done() {
    let mut reg = GameRegistry::new();
    let mut ws = WorkspaceManifest::new();
    let mut aggregator = manifest("toybox", true);
    let mut module = manifest("newgame", false);

    let mut saga = AddSaga::new(&String::from("gridworld")).unwrap();
    assert_eq!(saga.phase, AddPhase::Start);
    saga.step_registry(&mut reg).unwrap();
    assert_eq!(saga.phase, AddPhase::RegistryUpdated);
    saga.step_workspace(&mut ws);
    assert_eq!(saga.phase, AddPhase::WorkspaceUpdated);
    saga.note_module_dir(true).unwrap();
    assert_eq!(saga.phase, AddPhase::ModuleDirCreated);
    saga.step_manifest(&mut aggregator).unwrap();
    assert_eq!(saga.phase, AddPhase::ManifestUpdated);
    saga.step_populate(&mut module).unwrap();
    assert_eq!(saga.phase, AddPhase::Done);

    assert_eq!(reg.list().len(), 1);
    assert_eq!(reg.list()[0].module_dir, "tb_gridworld");
    assert_eq!(ws.members, vec![String::from("tb_gridworld")]);
    assert!(aggregator.has_dependency("gridworld"));
    assert!(aggregator.feature_enabled("gridworld"));
    assert_eq!(module.package.name, "gridworld");
}

#[test]
fn add_saga_rejects_duplicate_id() {
    let mut reg = GameRegistry::new();
    let mut first = AddSaga::new(&String::from("pong")).unwrap();
    first.step_registry(&mut reg).unwrap();
    let mut second = AddSaga::new(&String::from("pong")).unwrap();
    assert_eq!(second.step_registry(&mut reg).unwrap_err(), ScaffoldError::AlreadyExists);
    assert_eq!(second.phase, AddPhase::Start);
    assert_eq!(reg.list().len(), 1);
}

#[test]
fn add_saga_stops_on_external_tool_failure() {
    let mut reg = GameRegistry::new();
    let mut ws = WorkspaceManifest::new();
    let mut saga = AddSaga::new(&String::from("pong")).unwrap();
    saga.step_registry(&mut reg).unwrap();
    saga.step_workspace(&mut ws);
    assert_eq!(saga.note_module_dir(false).unwrap_err(), ScaffoldError::ExternalToolFailure);
    assert_eq!(saga.phase, AddPhase::WorkspaceUpdated);
    assert_eq!(reg.list().len(), 1);
    assert_eq!(ws.members.len(), 1);
}

#[test]
fn add_saga_needs_feature_section_in_aggregator() {
    let mut reg = GameRegistry::new();
    let mut ws = WorkspaceManifest::new();
    let mut aggregator = manifest("toybox", false);
    let mut saga = AddSaga::new(&String::from("pong")).unwrap();
    saga.step_registry(&mut reg).unwrap();
    saga.step_workspace(&mut ws);
    saga.note_module_dir(true).unwrap();
    assert_eq!(
        saga.step_manifest(&mut aggregator).unwrap_err(),
        ScaffoldError::MissingFeatureSection
    );
    assert_eq!(saga.phase, AddPhase::ModuleDirCreated);
    assert!(aggregator.dependencies.is_empty());
}

#[test]
fn remove_cleans_registry_but_leaves_residue() {
    let mut reg = GameRegistry::new();
    let mut ws = WorkspaceManifest::new();
    let mut aggregator = manifest("toybox", true);
    let mut module = manifest("newgame", false);
    let mut saga = AddSaga::new(&String::from("foo")).unwrap();
    saga.step_registry(&mut reg).unwrap();
    saga.step_workspace(&mut ws);
    saga.note_module_dir(true).unwrap();
    saga.step_manifest(&mut aggregator).unwrap();
    saga.step_populate(&mut module).unwrap();

    assert!(reg.remove("foo").is_ok());
    assert_eq!(reg.list().len(), 0);
    assert_eq!(ws.members, vec![String::from("tb_foo")]);
    assert!(aggregator.has_dependency("foo"));
    assert!(aggregator.feature_enabled("foo"));
}
