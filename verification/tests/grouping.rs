use tort_todo::list::{colorize_subject, render_groups, todo_grouping, Group, GroupOption};
use tort_todo::modify::{add, complete, status};
use tort_todo::{SerdeDate, Todo};

fn unset() -> SerdeDate {
    SerdeDate::try_from(None, tort_todo::serde_date::today_parts()).unwrap()
}

fn group_labeled<'a>(groups: &'a [Group], label: &str) -> &'a Group {
    groups
        .iter()
        .find(|g| g.label == label)
        .unwrap_or_else(|| panic!("no group labeled {}", label))
}

#[test]
fn test_grouping_ungrouped_collects_all() {
    let mut todos: Vec<Todo> = vec![];
    add(&mut todos, "one".to_string(), unset(), None);
    add(&mut todos, "two".to_string(), unset(), None);

    let groups = todo_grouping(&todos, None);
    assert_eq!(groups.len(), 1);
    assert_eq!(groups[0].label, "All");
    assert_eq!(groups[0].members, vec![0, 1]);
}

#[test]
fn test_grouping_by_project_fans_out() {
    let mut todos: Vec<Todo> = vec![];
    add(&mut todos, "pay bills +home +money".to_string(), unset(), None);
    add(&mut todos, "call plumber +home".to_string(), unset(), None);
    add(&mut todos, "idle thought".to_string(), unset(), None);

    let groups = todo_grouping(&todos, Some(GroupOption::Project));
    assert_eq!(groups.len(), 3);
    assert_eq!(group_labeled(&groups, "home").members, vec![0, 1]);
    assert_eq!(group_labeled(&groups, "money").members, vec![0]);
    assert_eq!(group_labeled(&groups, "No projects").members, vec![2]);
}

#[test]
fn test_grouping_by_context_sentinel() {
    let mut todos: Vec<Todo> = vec![];
    add(&mut todos, "buy stamps @errand".to_string(), unset(), None);
    add(&mut todos, "untagged".to_string(), unset(), None);

    let groups = todo_grouping(&todos, Some(GroupOption::Context));
    assert_eq!(groups.len(), 2);
    assert_eq!(group_labeled(&groups, "errand").members, vec![0]);
    assert_eq!(group_labeled(&groups, "No contexts").members, vec![1]);
}

#[test]
fn test_grouping_by_status_is_exclusive() {
    let mut todos: Vec<Todo> = vec![];
    add(&mut todos, "one".to_string(), unset(), None);
    add(&mut todos, "two".to_string(), unset(), None);
    add(&mut todos, "three".to_string(), unset(), None);
    status(&mut todos, 1, "waiting".to_string()).unwrap();
    status(&mut todos, 2, "waiting".to_string()).unwrap();

    let groups = todo_grouping(&todos, Some(GroupOption::Status));
    assert_eq!(groups.len(), 2);
    assert_eq!(group_labeled(&groups, "waiting").members, vec![0, 1]);
    assert_eq!(group_labeled(&groups, "No status").members, vec![2]);
}

#[test]
fn test_grouping_duplicate_tag_counts_twice() {
    let mut todos: Vec<Todo> = vec![];
    add(&mut todos, "twice +same +same".to_string(), unset(), None);

    let groups = todo_grouping(&todos, Some(GroupOption::Project));
    assert_eq!(groups.len(), 1);
    assert_eq!(group_labeled(&groups, "same").members, vec![0, 0]);
}

#[test]
fn test_end_to_end_scenario() {
    let today = tort_todo::serde_date::today_parts();
    let tomorrow = tort_todo::serde_date::add_days(today, 1);
    let mut todos: Vec<Todo> = vec![];

    let due = SerdeDate::try_from(Some("tom".to_string()), today).unwrap();
    let id = add(&mut todos, "Buy milk +grocery @errand".to_string(), due, None);
    assert_eq!(id, 1);
    assert_eq!(todos.len(), 1);
    assert_eq!(todos[0].projects, vec!["grocery".to_string()]);
    assert_eq!(todos[0].contexts, vec!["errand".to_string()]);
    assert_eq!(todos[0].due.date, Some(tomorrow));

    status(&mut todos, 1, "waiting".to_string()).unwrap();
    assert_eq!(todos[0].status, "waiting");

    complete(&mut todos, 1, true).unwrap();
    assert_eq!(todos[0].status, "completed");
    assert!(todos[0].completed);

    let groups = todo_grouping(&todos, Some(GroupOption::Status));
    assert_eq!(groups.len(), 1);
    assert_eq!(groups[0].label, "completed");
    assert_eq!(groups[0].members, vec![0]);
}

#[test]
fn test_grouping_empty_store() {
    let todos: Vec<Todo> = vec![];
    // the ungrouped mode shows the "All" heading even with nothing in it
    let groups = todo_grouping(&todos, None);
    assert_eq!(groups.len(), 1);
    assert_eq!(groups[0].label, "All");
    assert!(groups[0].members.is_empty());
    assert!(todo_grouping(&todos, Some(GroupOption::Project)).is_empty());
}

#[test]
fn test_colorize_plain_subject_unchanged() {
    assert_eq!(colorize_subject(&"plain words only".to_string()), "plain words only");
    // whitespace between words collapses to single spaces
    assert_eq!(colorize_subject(&"  spaced   out  ".to_string()), "spaced out");
}

#[test]
fn test_render_groups_skips_archived() {
    let mut todos: Vec<Todo> = vec![];
    add(&mut todos, "keep me".to_string(), unset(), None);
    add(&mut todos, "hide me".to_string(), unset(), None);
    todos[1].archived = true;
    tort_todo::notes::add_note(&mut todos, 1, "invisible".to_string()).unwrap();
    tort_todo::notes::add_note(&mut todos, 2, "remember".to_string()).unwrap();

    let today = SerdeDate::today();
    let groups = todo_grouping(&todos, None);
    let rendered = render_groups(&todos, &groups, true, &today);

    assert_eq!(rendered.len(), 1);
    assert_eq!(rendered[0].title, "All");
    assert_eq!(rendered[0].rows.len(), 1);
    let row = &rendered[0].rows[0];
    assert_eq!(row.id_text, "1");
    assert_eq!(row.checkbox, "[ ]");
    assert_eq!(row.due_text, "");
    assert_eq!(row.subject, "keep me");
    assert_eq!(row.notes, vec!["invisible".to_string()]);
    assert!(!row.is_priority);
    // an unset due date sorts after today, so it counts as due-or-past
    assert!(row.due_urgent);
}
