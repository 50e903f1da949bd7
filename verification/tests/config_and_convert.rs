//! Configuration validation, the configuration-file codec, and the
//! import/export conversion engine.

use todo::config::{config_from_content, config_to_content, Config};
use todo::conversion::{export_content, import_content, Formats};
use todo::error::TodoError;
use todo::storage::encode_store;
use todo::tasks::Tasks;

#[test]
fn relative_data_path_is_invalid() {
    let mut cfg = Config::default();
    cfg.set_data_path(Some(String::from("relative/path")));
    // Whatever the file system says, a relative path is rejected.
    assert_eq!(cfg.validate(false, true), Err(TodoError::RelativeDataPath));
    assert_eq!(cfg.validate(true, false), Err(TodoError::RelativeDataPath));
}

#[test]
fn data_path_with_missing_parent_is_invalid() {
    let mut cfg = Config::default();
    cfg.set_data_path(Some(String::from("/tmp/nonexistent_dir/x.toml")));
    // The caller probed: /tmp/nonexistent_dir does not exist.
    assert_eq!(cfg.validate(false, false), Err(TodoError::DataPathParentMissing));
}

#[test]
fn data_path_naming_a_directory_is_invalid() {
    let mut cfg = Config::default();
    cfg.set_data_path(Some(String::from("/tmp")));
    assert_eq!(cfg.validate(true, true), Err(TodoError::DataPathIsDirectory));
}

#[test]
fn unset_data_path_always_validates() {
    let mut cfg = Config::default();
    cfg.set_data_path(None);
    assert_eq!(cfg.validate(false, false), Ok(()));
    assert_eq!(cfg.validate(true, true), Ok(()));
}

#[test]
fn valid_absolute_data_path_passes() {
    let mut cfg = Config::default();
    cfg.set_data_path(Some(String::from("/home/user/tasks.toml")));
    assert_eq!(cfg.validate(false, true), Ok(()));
}

#[test]
fn configured_path_is_returned_verbatim() {
    let mut cfg = Config::default();
    cfg.set_data_path(Some(String::from("/data/tasks.toml")));
    assert_eq!(cfg.get_data_path().unwrap(), "/data/tasks.toml");
}

#[test]
fn config_content_round_trip() {
    let mut cfg = Config::default();
    assert_eq!(config_to_content(&cfg), "");
    let back = config_from_content("").unwrap();
    assert_eq!(config_to_content(&back), "");

    cfg.set_data_path(Some(String::from("/data/tasks.toml")));
    let text = config_to_content(&cfg);
    assert_eq!(text, "data_path_file = \"/data/tasks.toml\"\n");
    let back = config_from_content(&text).unwrap();
    assert_eq!(back.get_data_path().unwrap(), "/data/tasks.toml");
}

#[test]
fn config_content_round_trip_with_escapes() {
    let mut cfg = Config::default();
    cfg.set_data_path(Some(String::from("/odd \"dir\"/task\\list")));
    let text = config_to_content(&cfg);
    assert_eq!(text, "data_path_file = \"/odd \\\"dir\\\"/task\\\\list\"\n");
    let back = config_from_content(&text).unwrap();
    assert_eq!(back.get_data_path().unwrap(), "/odd \"dir\"/task\\list");
}

#[test]
fn config_content_rejects_garbage() {
    assert!(matches!(config_from_content("data_path = 3"), Err(TodoError::Decode)));
    assert!(matches!(config_from_content("data_path_file = \"/a\"\ntrailing"), Err(TodoError::Decode)));
}

#[test]
fn export_produces_the_foreign_encoding() {
    let mut ts = Tasks::new();
    ts.add("buy milk", &Some(String::from("2%")));
    ts.toggle_completed(0).unwrap();
    let toml_text = encode_store(&ts, Formats::TOML);
    let json = export_content(&toml_text, Formats::JSON).unwrap();
    assert_eq!(
        json,
        "{\"tasks\":[{\"id\":0,\"name\":\"buy milk\",\"description\":\"2%\",\"completed\":true}]}"
    );
}

#[test]
fn export_of_a_missing_task_file_is_the_empty_store() {
    assert_eq!(export_content("", Formats::JSON).unwrap(), "{\"tasks\":[]}");
    assert_eq!(export_content("", Formats::XML).unwrap(), "<tasks></tasks>");
}

#[test]
fn export_and_import_restore_the_task_file_exactly() {
    let mut ts = Tasks::new();
    ts.add("alpha", &Some(String::from("first")));
    ts.add("beta", &None);
    ts.add("gamma", &Some(String::from("x & y <z>")));
    ts.remove(1).unwrap();
    ts.toggle_completed(2).unwrap();
    let toml_text = encode_store(&ts, Formats::TOML);
    for f in [Formats::JSON, Formats::YAML, Formats::XML, Formats::TOML] {
        let foreign = export_content(&toml_text, f).unwrap();
        let restored = import_content(&foreign, f).unwrap();
        assert_eq!(restored, toml_text);
    }
}

#[test]
fn xml_conversion_round_trip_preserves_every_field() {
    let mut ts = Tasks::new();
    ts.add("task one", &Some(String::from("a description")));
    ts.add("task two", &None);
    ts.toggle_completed(1).unwrap();
    let xml = export_content(&encode_store(&ts, Formats::TOML), Formats::XML).unwrap();
    let toml_back = import_content(&xml, Formats::XML).unwrap();
    let back = todo::storage::decode_store(&toml_back, Formats::TOML).unwrap();
    assert_eq!(back.len(), 2);
    assert_eq!(back.get(0).unwrap().name, "task one");
    assert_eq!(back.get(0).unwrap().description, "a description");
    assert!(!back.get(0).unwrap().get_is_completed());
    assert_eq!(back.get(1).unwrap().name, "task two");
    assert!(back.get(1).unwrap().get_is_completed());
}

#[test]
fn import_of_malformed_foreign_content_fails() {
    assert_eq!(import_content("", Formats::JSON), Err(TodoError::Decode));
    assert_eq!(import_content("<tasks>", Formats::XML), Err(TodoError::Decode));
}
