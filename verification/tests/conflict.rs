use organize::actions::io_action::{ActionType, IOAction};
use organize::conflict::ConflictOption;
use std::path::PathBuf;
use tempfile::{Builder, NamedTempFile};

#[test]
fn skip() {
    let path = PathBuf::from("/home/user/skipped_file.txt");
    let new = ConflictOption::Skip.resolve_naming_conflict(path.to_str().unwrap(), &vec![]);
    assert_eq!(new, None)
}

#[test]
fn overwrite() {
    let path = PathBuf::from("/home/user/skipped_file.txt");
    let new = ConflictOption::Overwrite.resolve_naming_conflict(path.to_str().unwrap(), &vec![]);
    assert_eq!(new, Some(path.to_string_lossy().to_string()))
}

#[test]
fn rename_no_extension() {
    let file = NamedTempFile::new().unwrap();
    let path = file.path().to_path_buf();
    let file_name = path.file_stem().unwrap().to_string_lossy();
    let mut expected = path.clone();
    expected.set_file_name(format!("{} (1)", file_name));
    let existing = vec![path.to_string_lossy().to_string()];
    let new = ConflictOption::Rename.resolve_naming_conflict(path.to_str().unwrap(), &existing);
    assert_eq!(new, Some(expected.to_string_lossy().to_string()))
}

#[test]
fn rename_extension() {
    let file = Builder::new().suffix(".txt").tempfile().unwrap();
    let path = file.path().to_path_buf();
    let file_name = path.file_stem().unwrap().to_string_lossy();
    let mut expected = path.clone();
    expected.set_file_name(format!("{} (1).txt", file_name));
    let existing = vec![path.to_string_lossy().to_string()];
    let new = ConflictOption::Rename.resolve_naming_conflict(path.to_str().unwrap(), &existing);
    assert_eq!(new, Some(expected.to_string_lossy().to_string()))
}

#[test]
fn rename_skips_taken_numbers() {
    let existing = vec![
        "/d/a.txt".to_string(),
        "/d/a (1).txt".to_string(),
        "/d/a (2).txt".to_string(),
    ];
    assert_eq!(
        ConflictOption::Rename.resolve_naming_conflict("/d/a.txt", &existing),
        Some("/d/a (3).txt".to_string())
    );
    assert_eq!(
        ConflictOption::Rename.resolve_naming_conflict("/d/b.txt", &existing),
        Some("/d/b.txt".to_string())
    );
    assert_eq!(
        ConflictOption::Rename.resolve_with_separator("/d/a.txt", &existing, "_"),
        Some("/d/a_(1).txt".to_string())
    );
    assert_eq!(ConflictOption::Rename.resolve_naming_conflict("/", &existing), None);
}

#[test]
fn conflict_option_names() {
    assert_eq!(ConflictOption::from_str("skip"), Ok(ConflictOption::Skip));
    assert_eq!(ConflictOption::from_str("overwrite"), Ok(ConflictOption::Overwrite));
    assert_eq!(ConflictOption::from_str("rename"), Ok(ConflictOption::Rename));
    assert_eq!(ConflictOption::from_str("delete"), Err("invalid value".to_string()));
}

fn project() -> PathBuf {
    PathBuf::from("/srv/organize")
}

#[test]
fn prepare_path_copy() {
    let original = project().join("tests").join("files").join("test1.txt");
    let target = project().join("tests").join("files").join("test_dir");
    let expected = target.join("test1 (1).txt");
    let existing = vec![target.join(original.file_name().unwrap()).to_string_lossy().to_string()];
    let action = IOAction::from(target.to_str().unwrap());
    let new_path = IOAction::helper(original.to_str().unwrap(), &action, ActionType::Copy, &existing).unwrap();
    assert_eq!(new_path, Some(expected.to_string_lossy().to_string()))
}

#[test]
fn prepare_path_move() {
    let original = project().join("tests").join("files").join("test1.txt");
    let target = project().join("tests").join("files").join("test_dir");
    let expected = target.join("test1 (1).txt");
    let existing = vec![target.join(original.file_name().unwrap()).to_string_lossy().to_string()];
    let action = IOAction::from(target.to_str().unwrap());
    let new_path = IOAction::helper(original.to_str().unwrap(), &action, ActionType::Move, &existing).unwrap();
    assert_eq!(new_path, Some(expected.to_string_lossy().to_string()))
}

#[test]
fn prepare_path_rename() {
    let original = project().join("tests").join("files").join("test1.txt");
    let target = original.with_file_name("test_dir").join(original.file_name().unwrap());
    let expected = target.with_file_name("test1 (1).txt");
    let existing = vec![target.to_string_lossy().to_string()];
    let action = IOAction::from(target.to_str().unwrap());
    let new_path = IOAction::helper(original.to_str().unwrap(), &action, ActionType::Rename, &existing).unwrap();
    assert_eq!(new_path, Some(expected.to_string_lossy().to_string()))
}

#[test]
fn deserialize_str() {
    let vars = vec![("HOME".to_string(), "/home/u".to_string())];
    let value = IOAction::from_str("$HOME", "/home/u", &vars).unwrap();
    assert_eq!(value, IOAction::from("/home/u"));
}

#[test]
fn deserialize_map() {
    let vars = vec![("HOME".to_string(), "/home/u".to_string())];
    let mut value = IOAction::from_str("$HOME", "/home/u", &vars).unwrap();
    value.if_exists = ConflictOption::Rename;
    value.sep = organize::actions::io_action::Sep("-".into());
    let entries = vec![
        ("to".to_string(), "$HOME".to_string()),
        ("if_exists".to_string(), "rename".to_string()),
        ("sep".to_string(), "-".to_string()),
    ];
    let existing = vec!["/home/u".to_string()];
    assert_eq!(IOAction::from_entries(&entries, &existing, "/home/u", &vars), Ok(value));
}
