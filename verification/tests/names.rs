use toybox_scaffold::errors::ScaffoldError;
use toybox_scaffold::module_manifest::update_newgame_lib;
use toybox_scaffold::names::derive_game_id;
use toybox_scaffold::names::derive_module_dir;
use toybox_scaffold::names::derive_names;
use toybox_scaffold::names::entry_class_name;

#[test]
fn module_dir_gains_prefix() {
    assert_eq!(derive_module_dir(&String::from("foo")), "tb_foo");
}

#[test]
fn module_dir_keeps_existing_prefix() {
    assert_eq!(derive_module_dir(&String::from("tb_foo")), "tb_foo");
}

#[test]
fn game_id_strips_prefix() {
    assert_eq!(derive_game_id(&String::from("tb_foo")), "foo");
}

#[test]
fn game_id_without_prefix_unchanged() {
    assert_eq!(derive_game_id(&String::from("foo")), "foo");
}

#[test]
fn entry_class_capitalizes_first_letter() {
    assert_eq!(entry_class_name(&String::from("foo")).unwrap(), "Foo");
}

#[test]
fn entry_class_keeps_non_letter_first_char() {
    assert_eq!(entry_class_name(&String::from("7up")).unwrap(), "7up");
}

#[test]
fn entry_class_of_empty_id_is_invalid() {
    assert_eq!(entry_class_name(&String::new()).unwrap_err(), ScaffoldError::InvalidName);
}

#[test]
fn derive_names_rejects_bare_prefix() {
    assert_eq!(derive_names(&String::from("tb_")).unwrap_err(), ScaffoldError::InvalidName);
}

#[test]
fn derive_names_builds_full_plan() {
    let plan = derive_names(&String::from("pong")).unwrap();
    assert_eq!(plan.game_id, "pong");
    assert_eq!(plan.module_dir, "tb_pong");
    assert_eq!(plan.entry_class, "Pong");
}

#[test]
fn newgame_lib_accepts_matching_class() {
    assert!(update_newgame_lib(&String::from("pong"), &String::from("Pong")).is_ok());
}

#[test]
fn newgame_lib_rejects_wrong_class() {
    assert_eq!(
        update_newgame_lib(&String::from("pong"), &String::from("pong")).unwrap_err(),
        ScaffoldError::InvalidName
    );
}
