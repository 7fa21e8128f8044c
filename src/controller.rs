//! The coordinator's decisions: what to ask of the store for each event, and
//! how each answer changes the list and what is shown beside it.
//!
//! The owner of a `TodoSession` runs the loop: it takes an event, performs the
//! `Command` that `handle_event` returns against the store, hands the outcome
//! back, and draws the list with the options that come out. One event is
//! settled before the next is taken, so every drawing shows a settled list.
use crate::relevant::{lemma_relevant_after_add, relevant_of};
use crate::render::{TodoRenderOptions, TodoRendererEvent};
use crate::store::{mark_complete_error_text, MarkCompleteError};
use crate::Todo;
use vstd::prelude::*;
use vstd::string::*;

verus! {

/// What the store is to be asked for, in answer to an event.
#[derive(Debug)]
pub enum Command {
    /// Persist this new item.
    Create(Todo),
    /// Mark the item with this id complete.
    MarkComplete(String),
    /// Stop consuming events.
    Exit,
}

/// What follows once the store has answered a completion request.
#[derive(Debug)]
pub enum FollowUp {
    /// Fetch the relevant list afresh; show this message beside it.
    Refresh(Option<String>),
    /// Draw the list as it is, with these options.
    Render(TodoRenderOptions),
}

/// The message shown when a completion names an item the store does not hold.
pub open spec fn not_found_text() -> Seq<char> {
    "This todo does not exist"@
}

/// The message shown when the store could not create an item.
pub open spec fn create_failed_text(e: Seq<char>) -> Seq<char> {
    "Failed to create todo: "@ + e
}

/// The message shown when the store could not list the items.
pub open spec fn load_failed_text(e: Seq<char>) -> Seq<char> {
    "Failed to get todos: "@ + e
}

/// The message shown when the store could not complete an item.
pub open spec fn complete_failed_text(e: MarkCompleteError) -> Seq<char> {
    "Failed to mark todo as complete: "@ + mark_complete_error_text(e)
}

fn prefixed(prefix: &str, text: &str) -> (r: String)
    ensures
        r@ == prefix@ + text@,
{
    let mut r = String::new();
    r.append(prefix);
    r.append(text);
    r
}

/// The coordinator's state: the list as last settled.
pub struct TodoSession {
    /// The items shown, in the order of the relevant list.
    pub todos: Vec<Todo>,
}

impl TodoSession {
    /// A session with an empty list.
    pub fn new() -> (r: TodoSession)
        ensures
            r.todos@ == Seq::<Todo>::empty(),
    {
        TodoSession { todos: Vec::new() }
    }

    /// The list as last settled.
    pub fn todos(&self) -> (r: &Vec<Todo>)
        ensures
            r@ == self.todos@,
    {
        &self.todos
    }

    /// Takes the first relevant list from the store. A failure is returned to
    /// the caller, with the list left as it was: there is nothing to draw.
    pub fn start(&mut self, loaded: Result<Vec<Todo>, String>) -> (r: Result<
        TodoRenderOptions,
        String,
    >)
        ensures
            match loaded {
                Ok(list) => final(self).todos@ == list@ && (r matches Ok(o) && o.error is None),
                Err(e) => final(self).todos@ == old(self).todos@ && (r matches Err(m) && m@
                    == load_failed_text(e@)),
            },
    {
        match loaded {
            Ok(list) => {
                self.todos = list;
                Ok(TodoRenderOptions { error: None })
            },
            Err(e) => Err(prefixed("Failed to get todos: ", e.as_str())),
        }
    }

    /// What to ask of the store for `event`. An addition builds the new,
    /// incomplete item here, with a fresh id and the current time.
    pub fn handle_event(&self, event: TodoRendererEvent) -> (r: Command)
        ensures
            match event {
                TodoRendererEvent::AddTodo(content) => r matches Command::Create(t) && t.content@
                    == content@ && t.completed_at is None && t.id@.len() > 0 && t.created_at >= 0,
                TodoRendererEvent::MarkComplete(id) => r matches Command::MarkComplete(i) && i@
                    == id@,
                TodoRendererEvent::Exit => r is Exit,
            },
    {
        match event {
            TodoRendererEvent::AddTodo(content) => Command::Create(Todo::new(content)),
            TodoRendererEvent::MarkComplete(id) => Command::MarkComplete(id),
            TodoRendererEvent::Exit => Command::Exit,
        }
    }

    /// Settles an addition once the store has answered. On success the new
    /// item, the most recently created one, goes to the front of the list; on
    /// failure the list stays as it was and the failure is shown.
    pub fn finish_create(&mut self, todo: Todo, result: Result<(), String>) -> (r:
        TodoRenderOptions)
        ensures
            match result {
                Ok(_) => final(self).todos@ == seq![todo] + old(self).todos@ && r.error is None,
                Err(e) => final(self).todos@ == old(self).todos@ && (r.error matches Some(m) && m@
                    == create_failed_text(e@)),
            },
    {
        match result {
            Ok(_) => {
                self.todos.insert(0, todo);
                assert(self.todos@ =~= seq![todo] + old(self).todos@);
                TodoRenderOptions { error: None }
            },
            Err(e) => TodoRenderOptions {
                error: Some(prefixed("Failed to create todo: ", e.as_str())),
            },
        }
    }

    /// What follows the store's answer to a completion. Success and an unknown
    /// id both call for a fresh relevant list, the second with a message; any
    /// other failure is shown beside the list as it is.
    pub fn finish_mark_complete(&self, result: Result<(), MarkCompleteError>) -> (r: FollowUp)
        ensures
            match result {
                Ok(_) => r matches FollowUp::Refresh(n) && n is None,
                Err(MarkCompleteError::TodoNotFound) => r matches FollowUp::Refresh(n) && n matches Some(
                    m,
                ) && m@ == not_found_text(),
                Err(e) => r matches FollowUp::Render(o) && o.error matches Some(m) && m@
                    == complete_failed_text(e),
            },
    {
        match result {
            Ok(_) => FollowUp::Refresh(None),
            Err(MarkCompleteError::TodoNotFound) => FollowUp::Refresh(
                Some(String::from_str("This todo does not exist")),
            ),
            Err(e) => {
                let text = e.message();
                FollowUp::Render(
                    TodoRenderOptions {
                        error: Some(prefixed("Failed to mark todo as complete: ", text.as_str())),
                    },
                )
            },
        }
    }

    /// Replaces the list by a fresh one from the store, shown with `notice`.
    /// When the store cannot list the items, the list stays as it was and the
    /// failure is shown instead.
    pub fn finish_refresh(&mut self, fresh: Result<Vec<Todo>, String>, notice: Option<String>) -> (r:
        TodoRenderOptions)
        ensures
            match fresh {
                Ok(list) => final(self).todos@ == list@ && r.error == notice,
                Err(e) => final(self).todos@ == old(self).todos@ && (r.error matches Some(m) && m@
                    == load_failed_text(e@)),
            },
    {
        match fresh {
            Ok(list) => {
                self.todos = list;
                TodoRenderOptions { error: notice }
            },
            Err(e) => TodoRenderOptions {
                error: Some(prefixed("Failed to get todos: ", e.as_str())),
            },
        }
    }
}

/// An addition keeps the list consistent with the store: when the list is the
/// relevant list of the stored items and the store takes a new, incomplete item
/// created no earlier than any of them, the list that `finish_create` leaves
/// on success is the relevant list of the store that now holds it.
pub proof fn lemma_add_keeps_list_consistent(
    stored: Seq<Todo>,
    todos: Seq<Todo>,
    new_todo: Todo,
    now: i64,
)
    requires
        todos == relevant_of(stored, now),
        new_todo.completed_at is None,
        forall|i: int| 0 <= i < stored.len() ==> (#[trigger] stored[i]).created_at <= new_todo.created_at,
    ensures
        seq![new_todo] + todos == relevant_of(stored.push(new_todo), now),
{
    lemma_relevant_after_add(stored, new_todo, now);
}

} // verus!
