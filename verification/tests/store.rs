use tort_todo::modify::{add, complete, delete, edit, prioritize, status};
use tort_todo::{AppError, SerdeDate, SerdeDateTime, Todo};

fn gen_serdedate() -> SerdeDate {
    let today = tort_todo::serde_date::today_parts();
    let serdedate = SerdeDate::try_from(Some("nov28".to_string()), today);
    assert!(serdedate.is_ok());
    serdedate.unwrap()
}

fn gen_todo() -> Vec<Todo> {
    let serdedate = gen_serdedate();

    vec![
        Todo {
            id: 0,
            uuid: "".to_string(),
            subject: "this is the subject".to_string(),
            projects: vec![],
            contexts: vec![],
            due: serdedate,
            completed: false,
            completed_date: SerdeDateTime::new_empty(),
            status: "".to_string(),
            archived: false,
            is_priority: false,
            notes: None,
            recur: "".to_string(),
            recur_until: "".to_string(),
            prev_recur_todo_uuid: "".to_string(),
        },
    ]
}

#[test]
fn test_add() {
    let mut todo: Vec<Todo> = vec![];

    add(&mut todo, "this is the subject".to_string(), gen_serdedate(), None);
    assert!(!todo[0].uuid.is_empty());
    todo[0].uuid = "".to_string();

    // an empty store always allocates id 1
    let mut todo_check: Vec<Todo> = gen_todo();
    todo_check[0].id = 1;
    assert_eq!(todo, todo_check);
}

#[test]
fn test_status() {
    let mut todo = gen_todo();

    let r = status(&mut todo, 0, "GOOD".to_string());

    assert!(r.is_ok());
    assert_eq!(todo[0].status, "GOOD");
}

#[test]
fn test_status_nonexistent() {
    let mut todo: Vec<Todo> = vec![];

    let r = status(&mut todo, 0, "GOOD".to_string());

    assert!(r.is_err());
    assert_eq!(r, Err(AppError::IdNotFoundError(0)));
}

#[test]
fn test_complete() {
    let mut todo: Vec<Todo> = gen_todo();

    let r = complete(&mut todo, 0, true);

    assert!(r.is_ok());
    assert_eq!(todo[0].status, "completed");
    assert_eq!(todo[0].completed, true);
    assert!(todo[0].completed_date != SerdeDateTime::new_empty());
    // the stamp never persists as the unset (empty) form
    assert!(!todo[0].completed_date.to_serialized().is_empty());
}

#[test]
fn test_complete_nonexistent() {
    let mut todo: Vec<Todo> = vec![];

    let r = complete(&mut todo, 0, true);

    assert!(r.is_err());
    assert_eq!(r, Err(AppError::IdNotFoundError(0)));
}

#[test]
fn test_complete_already_completed() {
    let mut todo: Vec<Todo> = gen_todo();

    todo[0].completed = true;
    todo[0].status = "completed".to_string();
    todo[0].completed_date = SerdeDateTime::now();

    let r = complete(&mut todo, 0, true);

    assert!(r.is_ok());
    assert_eq!(todo[0].status, "completed");
    assert_eq!(todo[0].completed, true);
    assert!(todo[0].completed_date != SerdeDateTime::new_empty());
}

#[test]
fn test_uncomplete() {
    let mut todo: Vec<Todo> = gen_todo();

    todo[0].completed = true;
    todo[0].status = "completed".to_string();
    todo[0].completed_date = SerdeDateTime::now();

    let r = complete(&mut todo, 0, false);

    assert!(r.is_ok());
    assert_eq!(todo[0].status, "");
    assert_eq!(todo[0].completed, false);
    assert_eq!(todo[0].completed_date, SerdeDateTime::new_empty());
}

#[test]
fn test_delete() {
    let mut todo: Vec<Todo> = gen_todo();

    let r = delete(&mut todo, 0);

    assert!(r.is_ok());
    assert!(todo.is_empty());
}

#[test]
fn test_delete_nonexistent() {
    let mut todo: Vec<Todo> = gen_todo();

    let r = delete(&mut todo, 1);

    assert!(r.is_err());
    assert_eq!(r, Err(AppError::IdNotFoundError(1)));
}

#[test]
fn test_prioritize() {
    let mut todo: Vec<Todo> = gen_todo();

    let r = prioritize(&mut todo, 0, true);

    assert!(r.is_ok());
    assert_eq!(todo[0].is_priority, true);
}

#[test]
fn test_prioritize_nonexistent() {
    let mut todo: Vec<Todo> = gen_todo();

    let r = prioritize(&mut todo, 1, true);

    assert!(r.is_err());
    assert_eq!(r, Err(AppError::IdNotFoundError(1)));
}

#[test]
fn test_edit() {
    let mut todo: Vec<Todo> = gen_todo();
    let today = tort_todo::serde_date::today_parts();

    let new_subj = "this is new subject";
    let r = edit(
        &mut todo,
        0,
        new_subj.to_string(),
        SerdeDate::try_from(None, today).unwrap(),
        None,
    );

    assert!(r.is_ok());
    assert_eq!(
        todo,
        vec![
            Todo {
                id: 0,
                uuid: "".to_string(),
                subject: new_subj.to_string(),
                projects: vec![],
                contexts: vec![],
                due: gen_serdedate(),
                completed: false,
                completed_date: SerdeDateTime::new_empty(),
                status: "".to_string(),
                archived: false,
                is_priority: false,
                notes: None,
                recur: "".to_string(),
                recur_until: "".to_string(),
                prev_recur_todo_uuid: "".to_string(),
            },
        ]
    );
}

#[test]
fn test_add_fills_gap() {
    let mut todos: Vec<Todo> = vec![];
    let today = tort_todo::serde_date::today_parts();
    let unset = SerdeDate::try_from(None, today).unwrap();

    let first = add(&mut todos, "one".to_string(), unset.clone(), None);
    let second = add(&mut todos, "three".to_string(), unset.clone(), None);
    assert_eq!(first, 1);
    assert_eq!(second, 2);

    // leave ids [1, 3]: the next allocation fills the gap with 2
    todos[1].id = 3;
    let filled = add(&mut todos, "two".to_string(), unset, None);
    assert_eq!(filled, 2);
}

#[test]
fn test_add_derives_tags() {
    let mut todos: Vec<Todo> = vec![];
    let today = tort_todo::serde_date::today_parts();
    let unset = SerdeDate::try_from(None, today).unwrap();

    let id = add(
        &mut todos,
        "write +report @desk notes +Work +".to_string(),
        unset,
        None,
    );
    assert_eq!(id, 1);
    assert_eq!(todos[0].projects, vec!["report".to_string(), "Work".to_string()]);
    assert_eq!(todos[0].contexts, vec!["desk".to_string()]);
    assert_eq!(todos[0].uuid.len(), 36);
}

#[test]
fn test_delete_then_find() {
    let mut todos: Vec<Todo> = vec![];
    let today = tort_todo::serde_date::today_parts();
    let unset = SerdeDate::try_from(None, today).unwrap();
    add(&mut todos, "one".to_string(), unset.clone(), None);
    add(&mut todos, "two".to_string(), unset, None);

    let r = delete(&mut todos, 1);
    assert!(r.is_ok());
    assert_eq!(todos.len(), 1);
    assert_eq!(
        tort_todo::modify::find_todo_index(&todos, 1),
        Err(AppError::IdNotFoundError(1))
    );
}

#[test]
fn test_error_messages() {
    assert_eq!(AppError::IdNotFoundError(7).message(), "ID not found: 7");
    assert_eq!(
        AppError::NoteNotFoundError(12, 3).message(),
        "Note number 3 not found on todo number 12!"
    );
    assert_eq!(
        AppError::NoConfigurationDirectory.message(),
        "The configuration directory has not been set up yet!"
    );
}
