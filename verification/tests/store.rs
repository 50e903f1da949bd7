//! The task store: identifier allocation, mutation, queries and listings.

use todo::error::TodoError;
use todo::task::Task;
use todo::tasks::Tasks;

#[test]
fn identifiers_are_reused_after_removal() {
    let mut ts = Tasks::new();
    assert_eq!(ts.add("a", &None), 0);
    assert_eq!(ts.add("b", &None), 1);
    assert_eq!(ts.add("c", &None), 2);
    assert!(ts.remove(1).is_ok());
    assert_eq!(ts.add("d", &None), 1);
    assert_eq!(ts.len(), 3);
}

#[test]
fn add_fills_the_smallest_gap_first() {
    let mut ts = Tasks::new();
    ts.add("a", &None);
    ts.add("b", &None);
    ts.add("c", &None);
    ts.remove(0).unwrap();
    ts.remove(2).unwrap();
    assert_eq!(ts.add("d", &None), 0);
    assert_eq!(ts.add("e", &None), 2);
    assert_eq!(ts.add("f", &None), 3);
}

#[test]
fn remove_missing_identifier_is_fatal_and_mutates_nothing() {
    let mut ts = Tasks::new();
    assert!(matches!(ts.remove(99), Err(TodoError::TaskIndexNotFound)));
    assert!(ts.is_empty());
    ts.add("keep", &Some(String::from("desc")));
    assert!(matches!(ts.remove(1), Err(TodoError::TaskIndexNotFound)));
    assert_eq!(ts.len(), 1);
    assert_eq!(ts.get(0).unwrap().name, "keep");
}

#[test]
fn toggle_missing_identifier_is_fatal_and_mutates_nothing() {
    let mut ts = Tasks::new();
    assert_eq!(ts.toggle_completed(99), Err(TodoError::TaskIndexNotFound));
    ts.add("t", &None);
    assert_eq!(ts.toggle_completed(7), Err(TodoError::TaskIndexNotFound));
    assert!(!ts.get(0).unwrap().get_is_completed());
}

#[test]
fn toggle_flips_the_flag_in_place() {
    let mut ts = Tasks::new();
    ts.add("t", &None);
    assert_eq!(ts.toggle_completed(0), Ok(true));
    assert!(ts.get(0).unwrap().get_is_completed());
    assert_eq!(ts.toggle_completed(0), Ok(false));
    assert!(!ts.get(0).unwrap().get_is_completed());
}

#[test]
fn remove_returns_the_removed_task() {
    let mut ts = Tasks::new();
    ts.add("milk", &Some(String::from("2%")));
    let t = ts.remove(0).unwrap();
    assert_eq!(t.name, "milk");
    assert_eq!(t.description, "2%");
    assert!(ts.is_empty());
}

#[test]
fn clear_discards_everything_and_restarts_allocation() {
    let mut ts = Tasks::new();
    ts.add("a", &None);
    ts.add("b", &None);
    ts.clear();
    assert!(ts.is_empty());
    assert_eq!(ts.add("c", &None), 0);
}

#[test]
fn descriptions_default_to_empty() {
    let mut ts = Tasks::new();
    ts.add("a", &None);
    assert_eq!(ts.get(0).unwrap().description, "");
    assert!(ts.get(1).is_none());
}

#[test]
fn task_short_rendering() {
    let mut t = Task::new(String::from("milk"), String::from("2%"));
    assert_eq!(t.to_string_short(), "milk - \u{2717}");
    t.toggle_completed();
    assert_eq!(t.to_string_short(), "milk - \u{2713}");
}

#[test]
fn task_long_rendering() {
    let t = Task::new(String::from("milk"), String::from("2%"));
    assert_eq!(
        t.to_string_long(),
        "Task Name   : milk\nDescription : 2%\nCompleted   : \u{2717}\n"
    );
}

#[test]
fn listings_follow_identifier_order() {
    let mut ts = Tasks::new();
    ts.add("a", &None);
    ts.add("b", &None);
    ts.add("c", &None);
    ts.remove(1).unwrap();
    let lines = ts.list_short();
    assert_eq!(lines.len(), 2);
    assert_eq!(lines[0], "Task : 0 - a - \u{2717}");
    assert_eq!(lines[1], "Task : 2 - c - \u{2717}");
    let long = ts.list_long();
    assert_eq!(
        long[0],
        "TASK NUMBER : 0\nTask Name   : a\nDescription : \nCompleted   : \u{2717}\n"
    );
}

#[test]
fn error_exit_codes_follow_the_taxonomy() {
    assert_eq!(TodoError::RelativeDataPath.exit_code(), 78);
    assert_eq!(TodoError::DataPathIsDirectory.exit_code(), 78);
    assert_eq!(TodoError::DataPathParentMissing.exit_code(), 78);
    assert_eq!(TodoError::NotFoundOnDisk.exit_code(), 74);
    assert_eq!(TodoError::PermissionDenied.exit_code(), 74);
    assert_eq!(TodoError::Io.exit_code(), 74);
    assert_eq!(TodoError::Decode.exit_code(), 65);
    assert_eq!(TodoError::TaskIndexNotFound.exit_code(), 1);
}

#[test]
fn error_labels_describe_the_failure() {
    assert_eq!(TodoError::RelativeDataPath.label(), "Data path cannot be relative.");
    assert_eq!(TodoError::TaskIndexNotFound.label(), "Not found.");
    assert_eq!(TodoError::Decode.label(), "Malformed data.");
}
