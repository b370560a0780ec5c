use todo_app::error::{AppError, Status};
use todo_app::todo::handler::{delete_outcome, toggle_outcome};
use todo_app::todo::memory::{CreateTodo as NewTodo, TodoStore};
use todo_app::todo::model::{CreateTodo, Todo, MAX_TITLE_LEN};

fn create(store: &mut TodoStore, title: &str) -> todo_app::todo::memory::Todo {
    let (status, todo) = store
        .create(NewTodo { title: title.to_string() })
        .expect("should be created");
    assert_eq!(status, Status::Created);
    todo
}

fn titles(store: &TodoStore) -> Vec<String> {
    store.list().into_iter().map(|t| t.title).collect()
}

#[test]
fn list_is_empty_initially() {
    let store = TodoStore::new();
    assert!(store.list().is_empty());
}

#[test]
fn create_returns_the_created_todo() {
    let mut store = TodoStore::new();
    let todo = create(&mut store, "Rustを学ぶ");
    assert_eq!(todo.title, "Rustを学ぶ");
    assert!(!todo.done);
    assert!(todo.id > 0);
}

#[test]
fn created_todos_are_listed_in_id_order() {
    let mut store = TodoStore::new();
    create(&mut store, "1つ目");
    create(&mut store, "2つ目");
    assert_eq!(titles(&store), vec!["1つ目", "2つ目"]);
    let ids: Vec<u64> = store.list().iter().map(|t| t.id).collect();
    assert_eq!(ids, vec![1, 2]);
}

#[test]
fn create_trims_surrounding_whitespace() {
    let mut store = TodoStore::new();
    let todo = create(&mut store, "  余白つき  ");
    assert_eq!(todo.title, "余白つき");
}

#[test]
fn create_rejects_blank_title() {
    let mut store = TodoStore::new();
    let refused = store.create(NewTodo { title: "   ".to_string() });
    assert_eq!(refused.unwrap_err(), Status::BadRequest);
    assert!(store.list().is_empty());
    assert_eq!(store.last_id(), 0);

    let err = CreateTodo { title: "   ".to_string() }.validated_title().unwrap_err();
    assert_eq!(err.status(), Status::BadRequest);
    assert_eq!(err.status().code(), 400);
    assert_eq!(err.message(), "title must not be empty");
}

#[test]
fn create_rejects_too_long_title() {
    let title = "あ".repeat(201);
    let err = CreateTodo { title }.validated_title().unwrap_err();
    assert_eq!(err.status().code(), 400);
    assert_eq!(err.message(), "title must be 200 characters or fewer (got 201)");
}

#[test]
fn title_at_the_length_limit_is_accepted() {
    let title = "あ".repeat(200);
    let payload = CreateTodo { title: title.clone() };
    assert_eq!(payload.validated_title().unwrap(), title);
    assert_eq!(MAX_TITLE_LEN, 200);
}

#[test]
fn validated_title_trims_unicode_white_space() {
    let payload = CreateTodo { title: "\u{3000}\t 余白つき\n\u{a0}".to_string() };
    assert_eq!(payload.validated_title().unwrap(), "余白つき");
    let inner = CreateTodo { title: "  a b  ".to_string() };
    assert_eq!(inner.validated_title().unwrap(), "a b");
    // the limit counts the characters after trimming
    let padded = CreateTodo { title: format!("  {}  ", "x".repeat(200)) };
    assert_eq!(padded.validated_title().unwrap().chars().count(), 200);
    // the same result as str::trim
    for raw in ["", " ", "\u{2028}x\u{205f}", "\u{200b}x", "x\u{85}"] {
        let payload = CreateTodo { title: raw.to_string() };
        match payload.validated_title() {
            Ok(t) => assert_eq!(t, raw.trim()),
            Err(_) => assert!(raw.trim().is_empty()),
        }
    }
}

#[test]
fn toggle_flips_done_back_and_forth() {
    let mut store = TodoStore::new();
    let id = create(&mut store, "切り替える").id;

    let once = store.toggle(id).unwrap();
    assert!(once.done);
    let twice = store.toggle(id).unwrap();
    assert!(!twice.done);
    assert_eq!(twice.title, "切り替える");
}

#[test]
fn toggle_unknown_id_returns_not_found() {
    let mut store = TodoStore::new();
    create(&mut store, "ある");
    assert_eq!(store.toggle(999).unwrap_err(), Status::NotFound);
    assert!(!store.list()[0].done);

    let err = toggle_outcome(999, None).unwrap_err();
    assert_eq!(err.status().code(), 404);
    assert_eq!(err.message(), "todo 999 not found");
}

#[test]
fn delete_removes_the_todo() {
    let mut store = TodoStore::new();
    let id = create(&mut store, "消す").id;
    assert_eq!(store.delete(id), Status::NoContent);
    assert_eq!(store.delete(id).code(), 404);
    assert!(store.list().is_empty());
}

#[test]
fn delete_unknown_id_returns_not_found() {
    let mut store = TodoStore::new();
    assert_eq!(store.delete(999), Status::NotFound);

    let err = delete_outcome(999, 0).unwrap_err();
    assert_eq!(err.status(), Status::NotFound);
    assert_eq!(err.message(), "todo 999 not found");
}

#[test]
fn delete_keeps_the_other_todos_in_order() {
    let mut store = TodoStore::new();
    create(&mut store, "a");
    let b = create(&mut store, "b").id;
    create(&mut store, "c");
    assert_eq!(store.delete(b), Status::NoContent);
    assert_eq!(titles(&store), vec!["a", "c"]);
    // ids are not reused
    let d = create(&mut store, "d");
    assert_eq!(d.id, 4);
    assert_eq!(titles(&store), vec!["a", "c", "d"]);
}

#[test]
fn create_then_delete_restores_the_list() {
    let mut store = TodoStore::new();
    create(&mut store, "a");
    let before = titles(&store);
    let id = create(&mut store, "tmp").id;
    store.delete(id);
    assert_eq!(titles(&store), before);
}

#[test]
fn toggle_changes_only_that_todo() {
    let mut store = TodoStore::new();
    create(&mut store, "a");
    let b = create(&mut store, "b").id;
    store.toggle(b).unwrap();
    let done: Vec<bool> = store.list().iter().map(|t| t.done).collect();
    assert_eq!(done, vec![false, true]);
}

#[test]
fn toggle_outcome_returns_the_row() {
    let row = Todo { id: 3, title: "x".to_string(), done: true };
    let todo = toggle_outcome(3, Some(row)).unwrap();
    assert_eq!(todo.id, 3);
    assert!(todo.done);
}

#[test]
fn delete_outcome_answers_no_content() {
    assert_eq!(delete_outcome(5, 1).unwrap(), Status::NoContent);
    assert_eq!(Status::NoContent.code(), 204);
}

#[test]
fn not_found_message_of_negative_and_extreme_ids() {
    assert_eq!(AppError::NotFound(-5).message(), "todo -5 not found");
    assert_eq!(AppError::NotFound(0).message(), "todo 0 not found");
    assert_eq!(
        AppError::NotFound(i64::MIN).message(),
        format!("todo {} not found", i64::MIN)
    );
    assert_eq!(
        AppError::NotFound(i64::MAX).message(),
        format!("todo {} not found", i64::MAX)
    );
}

#[test]
fn database_errors_are_hidden() {
    let err = AppError::Database(sqlx::Error::RowNotFound);
    assert_eq!(err.status(), Status::InternalServerError);
    assert_eq!(err.status().code(), 500);
    assert_eq!(err.message(), "internal server error");
}

#[test]
fn validation_message_is_passed_through() {
    let err = AppError::Validation("whatever".to_string());
    assert_eq!(err.status().code(), 400);
    assert_eq!(err.message(), "whatever");
}

#[test]
fn status_codes() {
    assert_eq!(Status::Success.code(), 200);
    assert_eq!(Status::Created.code(), 201);
}
