use std::sync::Arc;
use std::sync::Mutex;
use toybox_scaffold::codec::deserialize_module_manifest;
use toybox_scaffold::codec::deserialize_registry;
use toybox_scaffold::codec::deserialize_workspace;
use toybox_scaffold::codec::serialize_module_manifest;
use toybox_scaffold::codec::serialize_registry;
use toybox_scaffold::codec::serialize_workspace;
use toybox_scaffold::errors::ScaffoldError;
use toybox_scaffold::module_manifest::DepSpec;
use toybox_scaffold::module_manifest::FeatureList;
use toybox_scaffold::module_manifest::ModuleManifest;
use toybox_scaffold::module_manifest::PackageInfo;
use toybox_scaffold::plugins::PluginEntry;
use toybox_scaffold::plugins::PluginRegistry;
use toybox_scaffold::registry::GameEntry;
use toybox_scaffold::registry::GameRegistry;
use toybox_scaffold::workspace::WorkspaceManifest;

#[derive(Debug)]
struct GridSim {
    steps: u32,
}

fn sample_registry() -> GameRegistry {
    GameRegistry {
        games: vec![
            GameEntry {
                id: String::from("pong"),
                module_dir: String::from("tb_pong"),
                entry_class: String::from("Pong"),
            },
            GameEntry {
                id: String::from("amidar"),
                module_dir: String::from("tb_amidar"),
                entry_class: String::from("Amidar"),
            },
        ],
    }
}

#[test]
fn plugin_resolution_returns_usable_handle() {
    let registry = PluginRegistry::new(vec![PluginEntry {
        name: String::from("gridworld"),
        simulation: Arc::new(Mutex::new(GridSim { steps: 0 })),
    }]);
    let handle = registry.get_simulation_by_name("gridworld").unwrap();
    let shared = handle.clone();
    shared.lock().unwrap().steps += 1;
    assert_eq!(handle.lock().unwrap().steps, 1);
}

#[test]
fn plugin_resolution_unknown_name_lists_known_names() {
    let registry = PluginRegistry::new(vec![PluginEntry {
        name: String::from("gridworld"),
        simulation: 7u32,
    }]);
    let err = registry.get_simulation_by_name("nonexistent").unwrap_err();
    assert!(!err.known_names.is_empty());
    assert!(err.known_names.iter().any(|n| n == "gridworld"));
}

#[test]
fn plugin_game_list_enumerates_names() {
    let registry = PluginRegistry::new(vec![
        PluginEntry { name: String::from("pong"), simulation: 1u8 },
        PluginEntry { name: String::from("amidar"), simulation: 2u8 },
    ]);
    assert_eq!(registry.game_list(), vec![String::from("pong"), String::from("amidar")]);
}

#[test]
fn plugin_resolution_takes_first_match() {
    let registry = PluginRegistry::new(vec![
        PluginEntry { name: String::from("pong"), simulation: 1u8 },
        PluginEntry { name: String::from("pong"), simulation: 2u8 },
    ]);
    assert_eq!(*registry.get_simulation_by_name("pong").unwrap(), 1u8);
}

#[test]
fn registry_round_trip() {
    let reg = sample_registry();
    let doc = serialize_registry(&reg);
    let back = deserialize_registry(doc.as_str()).unwrap();
    assert_eq!(back.games.len(), 2);
    assert_eq!(back.games[0].id, "pong");
    assert_eq!(back.games[0].module_dir, "tb_pong");
    assert_eq!(back.games[0].entry_class, "Pong");
    assert_eq!(back.games[1].id, "amidar");
}

#[test]
fn registry_document_with_duplicate_ids_is_rejected() {
    let mut reg = sample_registry();
    reg.games.push(GameEntry {
        id: String::from("pong"),
        module_dir: String::from("tb_other"),
        entry_class: String::from("Other"),
    });
    let doc = serialize_registry(&reg);
    assert_eq!(deserialize_registry(doc.as_str()).unwrap_err(), ScaffoldError::SchemaError);
}

#[test]
fn registry_rejects_garbage() {
    assert_eq!(deserialize_registry("").unwrap_err(), ScaffoldError::SchemaError);
    assert_eq!(deserialize_registry("W0:").unwrap_err(), ScaffoldError::SchemaError);
    assert_eq!(deserialize_registry("G1:").unwrap_err(), ScaffoldError::SchemaError);
    assert_eq!(deserialize_registry("G0:extra").unwrap_err(), ScaffoldError::SchemaError);
}

#[test]
fn workspace_round_trip() {
    let ws = WorkspaceManifest {
        members: vec![String::from("tb_pong"), String::from("core"), String::new()],
    };
    let doc = serialize_workspace(&ws);
    let back = deserialize_workspace(doc.as_str()).unwrap();
    assert_eq!(back.members, ws.members);
}

#[test]
fn module_manifest_round_trip() {
    let mm = ModuleManifest {
        package: PackageInfo {
            name: String::from("toybox"),
            version: String::from("0.2.3"),
            authors: vec![String::from("a"), String::from("b")],
            edition: String::from("2018"),
            publish: Some(false),
        },
        dependencies: vec![
            (
                String::from("pong"),
                DepSpec {
                    path: Some(String::from("../tb_pong")),
                    version: String::from("*"),
                    optional: true,
                },
            ),
            (
                String::from("serde"),
                DepSpec { path: None, version: String::from("1.0"), optional: false },
            ),
        ],
        features: Some(FeatureList { default: vec![String::from("pong")] }),
    };
    let doc = serialize_module_manifest(&mm);
    let back = deserialize_module_manifest(doc.as_str()).unwrap();
    assert_eq!(back.package.name, "toybox");
    assert_eq!(back.package.version, "0.2.3");
    assert_eq!(back.package.authors, vec![String::from("a"), String::from("b")]);
    assert_eq!(back.package.edition, "2018");
    assert_eq!(back.package.publish, Some(false));
    assert_eq!(back.dependencies.len(), 2);
    assert_eq!(back.dependencies[0].0, "pong");
    assert_eq!(back.dependencies[0].1.path.as_deref(), Some("../tb_pong"));
    assert!(back.dependencies[0].1.optional);
    assert_eq!(back.dependencies[1].1.version, "1.0");
    assert_eq!(back.features.unwrap().default, vec![String::from("pong")]);
}

#[test]
fn module_manifest_without_features_round_trip() {
    let mm = ModuleManifest {
        package: PackageInfo {
            name: String::from("x"),
            version: String::new(),
            authors: Vec::new(),
            edition: String::from("2018"),
            publish: None,
        },
        dependencies: Vec::new(),
        features: None,
    };
    let doc = serialize_module_manifest(&mm);
    let back = deserialize_module_manifest(doc.as_str()).unwrap();
    assert!(back.features.is_none());
    assert!(back.dependencies.is_empty());
    assert_eq!(back.package.publish, None);
}

#[test]
fn module_manifest_rejects_garbage() {
    assert_eq!(deserialize_module_manifest("M").unwrap_err(), ScaffoldError::SchemaError);
    assert_eq!(deserialize_module_manifest("nonsense").unwrap_err(), ScaffoldError::SchemaError);
}
