use todo_lib::controller::{Command, FollowUp, TodoSession};
use todo_lib::relevant::relevant_list;
use todo_lib::render::{body_layout, todo_line, TodoRenderOptions, TodoRendererEvent};
use todo_lib::store::{completion_outcome, MarkCompleteError};
use todo_lib::Todo;

/// A store kept in memory, with a switch that makes it fail.
struct MemoryStore {
    items: Vec<Todo>,
    failing: Option<String>,
}

impl MemoryStore {
    fn new() -> MemoryStore {
        MemoryStore { items: Vec::new(), failing: None }
    }

    fn create(&mut self, todo: &Todo) -> Result<(), String> {
        if let Some(e) = &self.failing {
            return Err(e.clone());
        }
        self.items.push(todo.clone());
        Ok(())
    }

    fn mark_complete(&mut self, id: &str) -> Result<(), MarkCompleteError> {
        if let Some(e) = &self.failing {
            return Err(MarkCompleteError::PersistError(e.clone()));
        }
        let now = Todo::get_timestamp_now();
        let mut found = 0;
        for t in self.items.iter_mut() {
            if t.id == id {
                t.completed_at = Some(now);
                found += 1;
            }
        }
        if found != 1 {
            return Err(MarkCompleteError::TodoNotFound);
        }
        Ok(())
    }

    fn compile_relevant_list(&self) -> Result<Vec<Todo>, String> {
        if let Some(e) = &self.failing {
            return Err(e.clone());
        }
        Ok(relevant_list(self.items.clone(), Todo::get_timestamp_now()))
    }
}

/// Runs one event as the event loop would; `None` when the event ends the loop.
fn step(
    session: &mut TodoSession,
    store: &mut MemoryStore,
    event: TodoRendererEvent,
) -> Option<TodoRenderOptions> {
    match session.handle_event(event) {
        Command::Create(todo) => {
            let result = store.create(&todo);
            Some(session.finish_create(todo, result))
        }
        Command::MarkComplete(id) => {
            let result = store.mark_complete(&id);
            match session.finish_mark_complete(result) {
                FollowUp::Refresh(notice) => {
                    let fresh = store.compile_relevant_list();
                    Some(session.finish_refresh(fresh, notice))
                }
                FollowUp::Render(options) => Some(options),
            }
        }
        Command::Exit => None,
    }
}

fn started(store: &MemoryStore) -> TodoSession {
    let mut session = TodoSession::new();
    let options = session.start(store.compile_relevant_list()).unwrap();
    assert_eq!(options.error, None);
    session
}

#[test]
fn add_complete_and_stale_complete_scenario() {
    let mut store = MemoryStore::new();
    let mut session = started(&store);
    assert!(session.todos().is_empty());

    let o = step(&mut session, &mut store, TodoRendererEvent::AddTodo(String::from("buy milk"))).unwrap();
    assert_eq!(o.error, None);
    assert_eq!(session.todos().len(), 1);
    assert_eq!(session.todos()[0].content, "buy milk");
    assert_eq!(session.todos()[0].completed_at, None);
    let id = session.todos()[0].id.clone();

    let o = step(&mut session, &mut store, TodoRendererEvent::MarkComplete(id.clone())).unwrap();
    assert_eq!(o.error, None);
    assert_eq!(session.todos().len(), 1);
    assert_eq!(session.todos()[0].content, "buy milk");
    assert!(session.todos()[0].completed_at.is_some());
    let before = session.todos().clone();

    let o = step(&mut session, &mut store, TodoRendererEvent::MarkComplete(String::from("bogus-id"))).unwrap();
    assert_eq!(o.error, Some(String::from("This todo does not exist")));
    assert_eq!(session.todos(), &before);
}

#[test]
fn list_matches_store_after_each_event() {
    let mut store = MemoryStore::new();
    let mut session = started(&store);
    for text in ["one", "two", "three"] {
        step(&mut session, &mut store, TodoRendererEvent::AddTodo(String::from(text))).unwrap();
        assert_eq!(session.todos(), &store.compile_relevant_list().unwrap());
    }
    let id = session.todos()[1].id.clone();
    step(&mut session, &mut store, TodoRendererEvent::MarkComplete(id)).unwrap();
    assert_eq!(session.todos(), &store.compile_relevant_list().unwrap());
    assert_eq!(session.todos()[2].completed_at.is_some(), true);
}

#[test]
fn completing_twice_leaves_what_the_store_reports() {
    let mut store = MemoryStore::new();
    let mut session = started(&store);
    step(&mut session, &mut store, TodoRendererEvent::AddTodo(String::from("x"))).unwrap();
    let id = session.todos()[0].id.clone();
    step(&mut session, &mut store, TodoRendererEvent::MarkComplete(id.clone())).unwrap();
    let o = step(&mut session, &mut store, TodoRendererEvent::MarkComplete(id)).unwrap();
    assert_eq!(o.error, None);
    assert_eq!(session.todos(), &store.compile_relevant_list().unwrap());
}

#[test]
fn stale_complete_replaces_the_whole_list() {
    let mut store = MemoryStore::new();
    let mut session = started(&store);
    // The list holds an item that the store never saw.
    session.finish_create(Todo::new(String::from("ghost")), Ok(()));
    store.create(&Todo::new(String::from("real"))).unwrap();
    let o = step(&mut session, &mut store, TodoRendererEvent::MarkComplete(String::from("nope"))).unwrap();
    assert_eq!(o.error, Some(String::from("This todo does not exist")));
    assert_eq!(session.todos().len(), 1);
    assert_eq!(session.todos()[0].content, "real");
}

#[test]
fn failed_add_keeps_list_and_reports() {
    let mut store = MemoryStore::new();
    let mut session = started(&store);
    step(&mut session, &mut store, TodoRendererEvent::AddTodo(String::from("kept"))).unwrap();
    store.failing = Some(String::from("disk full"));
    let o = step(&mut session, &mut store, TodoRendererEvent::AddTodo(String::from("lost"))).unwrap();
    assert_eq!(o.error, Some(String::from("Failed to create todo: disk full")));
    assert_eq!(session.todos().len(), 1);
    assert_eq!(session.todos()[0].content, "kept");
}

#[test]
fn added_item_goes_first() {
    let mut session = TodoSession::new();
    let mut old = Todo::new(String::from("old"));
    old.created_at -= 10;
    session.finish_create(old, Ok(()));
    let o = session.finish_create(Todo::new(String::from("new")), Ok(()));
    assert_eq!(o.error, None);
    assert_eq!(session.todos()[0].content, "new");
    assert_eq!(session.todos()[1].content, "old");
}

#[test]
fn failed_complete_keeps_list_and_reports() {
    let mut store = MemoryStore::new();
    let mut session = started(&store);
    step(&mut session, &mut store, TodoRendererEvent::AddTodo(String::from("a"))).unwrap();
    let id = session.todos()[0].id.clone();
    store.failing = Some(String::from("locked"));
    let o = step(&mut session, &mut store, TodoRendererEvent::MarkComplete(id)).unwrap();
    assert_eq!(
        o.error,
        Some(String::from("Failed to mark todo as complete: SQLXError: locked"))
    );
    assert_eq!(session.todos()[0].completed_at, None);
}

#[test]
fn failed_refresh_keeps_list_and_reports() {
    let mut session = TodoSession::new();
    session.finish_create(Todo::new(String::from("a")), Ok(()));
    let o = session.finish_refresh(Err(String::from("gone")), Some(String::from("unused")));
    assert_eq!(o.error, Some(String::from("Failed to get todos: gone")));
    assert_eq!(session.todos().len(), 1);
}

#[test]
fn failed_start_is_returned() {
    let mut session = TodoSession::new();
    let r = session.start(Err(String::from("no db")));
    assert_eq!(r.unwrap_err(), "Failed to get todos: no db");
    assert!(session.todos().is_empty());
}

#[test]
fn exit_event_ends_the_loop() {
    let mut store = MemoryStore::new();
    let mut session = started(&store);
    assert!(step(&mut session, &mut store, TodoRendererEvent::Exit).is_none());
}

#[test]
fn follow_up_of_each_completion_outcome() {
    let session = TodoSession::new();
    assert!(matches!(session.finish_mark_complete(Ok(())), FollowUp::Refresh(None)));
    match session.finish_mark_complete(Err(MarkCompleteError::TodoNotFound)) {
        FollowUp::Refresh(Some(m)) => assert_eq!(m, "This todo does not exist"),
        other => panic!("unexpected {:?}", other),
    }
    match session.finish_mark_complete(Err(MarkCompleteError::PersistError(String::from("io")))) {
        FollowUp::Render(o) => {
            assert_eq!(o.error, Some(String::from("Failed to mark todo as complete: SQLXError: io")))
        }
        other => panic!("unexpected {:?}", other),
    }
}

#[test]
fn new_todo_is_fresh_and_incomplete() {
    let a = Todo::new(String::from("Test"));
    let b = Todo::new(String::from("Test"));
    assert_eq!(a.content, "Test");
    assert_eq!(a.completed_at, None);
    assert!(!a.id.is_empty());
    assert_ne!(a.id, b.id);
    assert!(a.created_at > 1_600_000_000);
}

#[test]
fn timestamps_from_clock_readings() {
    assert_eq!(Todo::timestamp_from_secs(None), 0);
    assert_eq!(Todo::timestamp_from_secs(Some(5)), 5);
    assert_eq!(Todo::timestamp_from_secs(Some(u64::MAX)), i64::MAX);
    assert_eq!(Todo::timestamp_from_secs(Some(i64::MAX as u64)), i64::MAX);
    assert!(Todo::get_timestamp_now() > 1_600_000_000);
}

#[test]
fn mark_complete_errors_compare_by_kind() {
    assert_eq!(MarkCompleteError::TodoNotFound, MarkCompleteError::TodoNotFound);
    assert_eq!(
        MarkCompleteError::PersistError(String::from("a")),
        MarkCompleteError::PersistError(String::from("b"))
    );
    assert_ne!(MarkCompleteError::TodoNotFound, MarkCompleteError::PersistError(String::new()));
    assert_eq!(MarkCompleteError::TodoNotFound.message(), "Todo not found");
    assert_eq!(MarkCompleteError::PersistError(String::from("x")).message(), "SQLXError: x");
}

#[test]
fn todo_lines_show_a_check_box() {
    let mut t = Todo::new(String::from("walk"));
    assert_eq!(todo_line(&t), "[ ] walk\n");
    t.completed_at = Some(t.created_at);
    assert_eq!(todo_line(&t), "[x] walk\n");
}

#[test]
fn layout_of_the_list_body() {
    assert_eq!(body_layout(24, false, 3), (3, 16));
    assert_eq!(body_layout(24, true, 3), (3, 15));
    assert_eq!(body_layout(10, false, 30), (5, 0));
    assert_eq!(body_layout(3, true, 4), (0, 0));
    assert_eq!(body_layout(0, false, 0), (0, 0));
}

#[test]
fn default_render_options_have_no_error() {
    let o: TodoRenderOptions = Default::default();
    assert_eq!(o.error, None);
}

#[test]
fn completion_outcome_by_rows_changed() {
    assert!(completion_outcome(1).is_ok());
    assert_eq!(completion_outcome(0).unwrap_err(), MarkCompleteError::TodoNotFound);
    assert_eq!(completion_outcome(2).unwrap_err(), MarkCompleteError::TodoNotFound);
}
