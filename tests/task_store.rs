use todo_api::task::{Task, TaskTable, Todo};

fn todo(d: &str) -> Todo {
    Todo { description: String::from(d) }
}

#[test]
fn buy_milk_scenario() {
    let mut conn = TaskTable::new();
    let t = Task::insert(todo("buy milk"), &mut conn).unwrap();
    assert_eq!(
        t,
        Task { id: 1, description: String::from("buy milk"), completed: false }
    );
    let t = Task::toggle_with_id(1, &mut conn).unwrap();
    assert_eq!(t.id, 1);
    assert!(t.completed);
    assert!(Task::delete_with_id(1, &mut conn));
    assert_eq!(Task::get_one(1, &conn), None);
}

#[test]
fn insert_then_get_returns_inserted() {
    let mut conn = TaskTable::new();
    Task::insert(todo("first"), &mut conn).unwrap();
    let t = Task::insert(todo("second"), &mut conn).unwrap();
    assert_eq!(t.id, 2);
    let got = Task::get_one(t.id, &conn).unwrap();
    assert_eq!(got.description, "second");
    assert!(!got.completed);
    assert_eq!(Task::get_one(1, &conn).unwrap().description, "first");
}

#[test]
fn toggle_twice_restores() {
    let mut conn = TaskTable::new();
    let t = Task::insert(todo("a"), &mut conn).unwrap();
    assert!(Task::toggle_with_id(t.id, &mut conn).unwrap().completed);
    assert!(Task::get_one(t.id, &conn).unwrap().completed);
    assert!(!Task::toggle_with_id(t.id, &mut conn).unwrap().completed);
    assert!(!Task::get_one(t.id, &conn).unwrap().completed);
}

#[test]
fn toggle_touches_only_its_row() {
    let mut conn = TaskTable::new();
    Task::insert(todo("a"), &mut conn).unwrap();
    Task::insert(todo("b"), &mut conn).unwrap();
    Task::toggle_with_id(2, &mut conn).unwrap();
    assert!(!Task::get_one(1, &conn).unwrap().completed);
    assert!(Task::get_one(2, &conn).unwrap().completed);
}

#[test]
fn absent_id_is_reported_absent() {
    let mut conn = TaskTable::new();
    assert_eq!(Task::get_one(7, &conn), None);
    assert_eq!(Task::toggle_with_id(7, &mut conn), None);
    assert!(!Task::delete_with_id(7, &mut conn));
    Task::insert(todo("a"), &mut conn).unwrap();
    assert_eq!(Task::get_one(0, &conn), None);
    assert_eq!(Task::toggle_with_id(-1, &mut conn), None);
    assert!(!Task::delete_with_id(2, &mut conn));
    assert_eq!(Task::all(&conn).len(), 1);
}

#[test]
fn delete_then_get_is_absent() {
    let mut conn = TaskTable::new();
    Task::insert(todo("a"), &mut conn).unwrap();
    Task::insert(todo("b"), &mut conn).unwrap();
    assert!(Task::delete_with_id(1, &mut conn));
    assert_eq!(Task::get_one(1, &conn), None);
    assert!(!Task::delete_with_id(1, &mut conn));
    assert_eq!(Task::get_one(2, &conn).unwrap().description, "b");
}

#[test]
fn ids_are_not_reused_after_delete() {
    let mut conn = TaskTable::new();
    Task::insert(todo("a"), &mut conn).unwrap();
    Task::insert(todo("b"), &mut conn).unwrap();
    assert!(Task::delete_with_id(2, &mut conn));
    let t = Task::insert(todo("c"), &mut conn).unwrap();
    assert_eq!(t.id, 3);
}

#[test]
fn list_is_newest_first() {
    let mut conn = TaskTable::new();
    assert!(Task::all(&conn).is_empty());
    for d in ["a", "b", "c", "d"] {
        Task::insert(todo(d), &mut conn).unwrap();
    }
    Task::delete_with_id(2, &mut conn);
    Task::toggle_with_id(3, &mut conn);
    let ids: Vec<i32> = Task::all(&conn).iter().map(|t| t.id).collect();
    assert_eq!(ids, vec![4, 3, 1]);
    let all = Task::all(&conn);
    assert_eq!(all[0].description, "d");
    assert!(all[1].completed);
    assert_eq!(all[2].description, "a");
}

fn row(id: i32, d: &str, completed: bool) -> Task {
    Task { id, description: String::from(d), completed }
}

#[test]
fn table_from_stored_rows() {
    let mut conn = TaskTable::from_rows(vec![row(2, "a", true), row(5, "b", false)]).unwrap();
    assert_eq!(Task::get_one(2, &conn), Some(row(2, "a", true)));
    let t = Task::insert(todo("c"), &mut conn).unwrap();
    assert_eq!(t.id, 6);
    let ids: Vec<i32> = Task::all(&conn).iter().map(|t| t.id).collect();
    assert_eq!(ids, vec![6, 5, 2]);
}

#[test]
fn table_from_rows_rejects_bad_ids() {
    assert!(TaskTable::from_rows(vec![row(3, "a", false), row(2, "b", false)]).is_none());
    assert!(TaskTable::from_rows(vec![row(2, "a", false), row(2, "b", false)]).is_none());
    assert!(TaskTable::from_rows(vec![row(0, "a", false)]).is_none());
    assert!(TaskTable::from_rows(vec![row(-4, "a", false)]).is_none());
    let mut empty = TaskTable::from_rows(Vec::new()).unwrap();
    assert_eq!(Task::insert(todo("x"), &mut empty).unwrap().id, 1);
}

#[test]
fn insert_fails_once_ids_run_out() {
    let mut conn = TaskTable::from_rows(vec![row(i32::MAX, "last", false)]).unwrap();
    assert_eq!(Task::insert(todo("more"), &mut conn), None);
    assert_eq!(Task::all(&conn).len(), 1);
    assert!(Task::delete_with_id(i32::MAX, &mut conn));
    assert_eq!(Task::insert(todo("more"), &mut conn), None);
}
