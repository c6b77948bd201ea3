use tasklist::{Task, TaskError, TaskStore};

fn task(id: u64, body: &str, done: bool) -> Task {
    Task { id, body: body.to_string(), done }
}

fn strings(items: &[&str]) -> Vec<String> {
    items.iter().map(|s| s.to_string()).collect()
}

#[test]
fn collect_todos_all_empty() {
    let store = TaskStore::new();
    let todos = store.list(false);
    let compare: Vec<Task> = vec![];
    assert_eq!(compare, todos);
}

#[test]
fn collect_todos_all_one() {
    let mut store = TaskStore::new();
    let _ = store.add("Milk".to_string());
    let todos = store.list(false);
    assert_eq!(vec![task(1, "Milk", false)], todos);
}

#[test]
fn collect_todos_all_multi() {
    let mut store = TaskStore::new();
    let _ = store.add("Milk".to_string());
    let _ = store.add("Carl".to_string());
    let todos = store.list(false);
    assert_eq!(vec![task(1, "Milk", false), task(2, "Carl", false)], todos);
}

#[test]
fn add_one() {
    let mut store = TaskStore::new();
    let _ = store.add_all(strings(&["Milk"]));
    let todos = store.list(false);
    assert_eq!(vec![task(1, "Milk", false)], todos);
}

#[test]
fn add_multi() {
    let mut store = TaskStore::new();
    let _ = store.add_all(strings(&["Milk", "Carl"]));
    let todos = store.list(false);
    assert_eq!(vec![task(1, "Milk", false), task(2, "Carl", false)], todos);
}

#[test]
fn rm_one() {
    let mut store = TaskStore::new();
    let _ = store.add_all(strings(&["Milk", "Carl"]));
    let _ = store.remove_all(&vec![task(1, "Milk", false).id]);
    let todos = store.list(false);
    assert_eq!(vec![task(2, "Carl", false)], todos);
}

#[test]
fn rm_multi() {
    let mut store = TaskStore::new();
    let _ = store.add_all(strings(&["Milk", "Carl", "Katia"]));
    let targets = vec![task(1, "Milk", false), task(3, "Katia", false)];
    let ids: Vec<u64> = targets.iter().map(|t| t.id).collect();
    let _ = store.remove_all(&ids);
    let todos = store.list(false);
    assert_eq!(vec![task(2, "Carl", false)], todos);
}

#[test]
fn edit_test() {
    let mut store = TaskStore::new();
    let _ = store.add_all(strings(&["Milk", "Carl"]));
    let target = task(1, "Milk", false);
    let _ = store.edit(target.id, "Baptise".to_string());
    let todos = store.list(false);
    assert_eq!(vec![task(1, "Baptise", false), task(2, "Carl", false)], todos);
}

#[test]
fn toggle_one() {
    let mut store = TaskStore::new();
    let _ = store.add_all(strings(&["Milk", "Carl"]));
    let _ = store.toggle_all(&vec![task(1, "Milk", false).id]);
    let todos = store.list(false);
    assert_eq!(vec![task(1, "Milk", true), task(2, "Carl", false)], todos);
}

#[test]
fn toggle_multi() {
    let mut store = TaskStore::new();
    let _ = store.add_all(strings(&["Milk", "Carl"]));
    let targets = vec![task(1, "Milk", false), task(2, "Katia", false)];
    let ids: Vec<u64> = targets.iter().map(|t| t.id).collect();
    let _ = store.toggle_all(&ids);
    let todos = store.list(false);
    assert_eq!(vec![task(1, "Milk", true), task(2, "Carl", true)], todos);
}

#[test]
fn add_then_list_keeps_order_not_done() {
    let mut store = TaskStore::new();
    let added = store.add_all(strings(&["a", "b", "c", "d"])).unwrap();
    let listed = store.list(false);
    assert_eq!(added, listed);
    assert_eq!(
        listed,
        vec![task(1, "a", false), task(2, "b", false), task(3, "c", false), task(4, "d", false)]
    );
}

#[test]
fn toggle_twice_restores() {
    let mut store = TaskStore::new();
    let _ = store.add_all(strings(&["Milk", "Carl"]));
    let before = store.list(false);
    assert_eq!(store.toggle(2), Ok(task(2, "Carl", true)));
    assert_eq!(store.toggle(2), Ok(task(2, "Carl", false)));
    assert_eq!(store.list(false), before);
    assert_eq!(store.toggle_all(&vec![1, 2]), Ok(()));
    assert_eq!(store.toggle_all(&vec![1, 2]), Ok(()));
    assert_eq!(store.list(false), before);
}

#[test]
fn toggle_all_names_twice_flips_once() {
    let mut store = TaskStore::new();
    let _ = store.add_all(strings(&["Milk", "Carl"]));
    assert_eq!(store.toggle_all(&vec![1, 1]), Ok(()));
    assert_eq!(store.list(false), vec![task(1, "Milk", true), task(2, "Carl", false)]);
}

#[test]
fn edit_keeps_id_and_done() {
    let mut store = TaskStore::new();
    let _ = store.add_all(strings(&["Milk", "Carl"]));
    let _ = store.toggle(2);
    assert_eq!(store.edit(2, "Bread".to_string()), Ok(task(2, "Bread", true)));
    assert_eq!(store.list(false), vec![task(1, "Milk", false), task(2, "Bread", true)]);
}

#[test]
fn edit_refuses_empty_text() {
    let mut store = TaskStore::new();
    let _ = store.add("Milk".to_string());
    assert_eq!(store.edit(1, String::new()), Err(TaskError::InvalidInput));
    assert_eq!(store.edit(9, String::new()), Err(TaskError::InvalidInput));
    assert_eq!(store.list(false), vec![task(1, "Milk", false)]);
}

#[test]
fn removed_task_is_gone() {
    let mut store = TaskStore::new();
    let _ = store.add_all(strings(&["Milk", "Carl"]));
    assert_eq!(store.remove(1), Ok(()));
    assert_eq!(store.list(false), vec![task(2, "Carl", false)]);
    assert_eq!(store.toggle(1), Err(TaskError::NotFound));
    assert_eq!(store.edit(1, "Tea".to_string()), Err(TaskError::NotFound));
    assert_eq!(store.remove(1), Err(TaskError::NotFound));
    assert_eq!(store.toggle_all(&vec![2, 1]), Err(TaskError::NotFound));
    assert_eq!(store.remove_all(&vec![1]), Err(TaskError::NotFound));
    assert_eq!(store.list(false), vec![task(2, "Carl", false)]);
}

#[test]
fn identifiers_are_not_reused() {
    let mut store = TaskStore::new();
    let _ = store.add_all(strings(&["Milk", "Carl"]));
    let _ = store.remove(2);
    assert_eq!(store.add("Tea".to_string()), Ok(task(3, "Tea", false)));
}

#[test]
fn list_incomplete_only() {
    let mut store = TaskStore::new();
    let _ = store.add_all(strings(&["a", "b", "c"]));
    let _ = store.toggle(2);
    assert_eq!(store.list(true), vec![task(1, "a", false), task(3, "c", false)]);
    let _ = store.toggle_all(&vec![1, 3]);
    assert_eq!(store.list(true), vec![]);
    assert_eq!(store.list(false).len(), 3);
}

#[test]
fn milk_carl_example() {
    let mut store = TaskStore::new();
    assert_eq!(store.add("Milk".to_string()), Ok(task(1, "Milk", false)));
    assert_eq!(store.add("Carl".to_string()), Ok(task(2, "Carl", false)));
    assert_eq!(store.remove(1), Ok(()));
    assert_eq!(store.list(false), vec![task(2, "Carl", false)]);
}

#[test]
fn remove_completed_keeps_open_tasks() {
    let mut store = TaskStore::new();
    let _ = store.add_all(strings(&["a", "b", "c"]));
    let _ = store.toggle_all(&vec![1, 3]);
    store.remove_completed();
    assert_eq!(store.list(false), vec![task(2, "b", false)]);
}

#[test]
fn rows_load_in_order() {
    let rows = vec![task(2, "Milk", true), task(5, "Carl", false)];
    let mut store = TaskStore::from_rows(rows.clone()).unwrap();
    assert_eq!(store.list(false), rows);
    assert_eq!(store.add("Tea".to_string()), Ok(task(6, "Tea", false)));
    assert_eq!(TaskStore::from_rows(vec![]).unwrap().list(false), vec![]);
}

#[test]
fn rows_out_of_order_are_refused() {
    let rows = vec![task(5, "Milk", true), task(2, "Carl", false)];
    assert!(matches!(TaskStore::from_rows(rows), Err(TaskError::Storage)));
    let rows = vec![task(3, "Milk", true), task(3, "Carl", false)];
    assert!(matches!(TaskStore::from_rows(rows), Err(TaskError::Storage)));
    let rows = vec![task(u64::MAX, "Milk", true)];
    assert!(matches!(TaskStore::from_rows(rows), Err(TaskError::Storage)));
}

#[test]
fn identifiers_running_out() {
    let mut store = TaskStore::from_rows(vec![task(u64::MAX - 2, "a", false)]).unwrap();
    assert_eq!(store.add_all(strings(&["b", "c"])), Err(TaskError::Storage));
    assert_eq!(store.list(false).len(), 1);
    assert_eq!(store.add("b".to_string()), Ok(task(u64::MAX - 1, "b", false)));
    assert_eq!(store.add("c".to_string()), Err(TaskError::Storage));
    assert_eq!(store.list(false).len(), 2);
}

#[test]
fn selections_resolve_to_identifiers() {
    let mut store = TaskStore::new();
    let _ = store.add_all(strings(&["a", "b", "c"]));
    let _ = store.remove(1);
    assert_eq!(store.ids_at(&vec![1, 0]), Ok(vec![3, 2]));
    assert_eq!(store.ids_at(&vec![0, 2]), Err(TaskError::NotFound));
    assert_eq!(store.task_at(1), Ok(task(3, "c", false)));
    assert_eq!(store.task_at(2), Err(TaskError::NotFound));
}
