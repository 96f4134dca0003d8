use tort_todo::todo_files::{
    active_matches, confdir_path, file_name_of, get_active_todo, strip_extension,
    todolist_file_path, todolist_names, todolists_dir_path, todos_name,
};
use tort_todo::AppError;

#[test]
fn test_confdir_path() {
    assert_eq!(confdir_path(Some("/home/me/.config".to_string())), "/home/me/.config/tort_todo");
    assert_eq!(confdir_path(None), "");
}

#[test]
fn test_active_todo_path() {
    assert_eq!(
        get_active_todo("/c/tort_todo", true),
        Ok("/c/tort_todo/active_todos.json".to_string())
    );
    assert_eq!(get_active_todo("/c/tort_todo", false), Err(AppError::NoConfigurationDirectory));
    assert_eq!(todos_name("/c/tort_todo", true), Ok("/c/tort_todo/active_todos.json".to_string()));
    assert_eq!(todos_name("/c/tort_todo", false), Err(AppError::NoConfigurationDirectory));
}

#[test]
fn test_list_paths() {
    assert_eq!(todolists_dir_path("/c/tort_todo"), "/c/tort_todo/todolists");
    assert_eq!(todolist_file_path("/c/tort_todo", "work"), "/c/tort_todo/todolists/work.json");
}

#[test]
fn test_strip_extension() {
    assert_eq!(strip_extension("work.json"), "work");
    assert_eq!(strip_extension("a.b.json"), "a.b");
    assert_eq!(strip_extension("nodot"), "nodot");
    assert_eq!(strip_extension(".hidden"), ".hidden");
}

#[test]
fn test_file_name_of() {
    assert_eq!(file_name_of("/c/tort_todo/todolists/work.json"), "work.json");
    assert_eq!(file_name_of("bare.json"), "bare.json");
    assert_eq!(file_name_of("/leading"), "leading");
}

#[test]
fn test_active_matches() {
    assert!(active_matches("/c/tort_todo/todolists/work.json", "work"));
    assert!(!active_matches("/c/tort_todo/todolists/work.json", "home"));
}

#[test]
fn test_todolist_names() {
    let names = todolist_names(
        vec!["home.json".to_string(), "work.json".to_string()],
        Some("work.json".to_string()),
    );
    assert_eq!(
        names,
        vec![("home".to_string(), false), ("work".to_string(), true)]
    );
}
