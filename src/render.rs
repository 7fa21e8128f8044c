//! What the display reports and what it is told, and the text of its lines.
use crate::Todo;
use vstd::prelude::*;
use vstd::string::*;

verus! {

/// A user intent that the display publishes.
#[derive(Debug)]
pub enum TodoRendererEvent {
    /// Complete the item with this id.
    MarkComplete(String),
    /// Add an item with this content.
    AddTodo(String),
    /// Stop consuming events.
    Exit,
}

/// What accompanies the list when it is drawn.
#[derive(Debug)]
pub struct TodoRenderOptions {
    /// A message to show beside the list, if any.
    pub error: Option<String>,
}

impl Default for TodoRenderOptions {
    fn default() -> (r: Self)
        ensures
            r.error is None,
    {
        TodoRenderOptions { error: None }
    }
}

/// Lines above the list: the title and a blank line.
pub const HEADER_LINES: usize = 2;

/// Lines below the list: a blank line and the instructions.
pub const FOOTER_LINES: usize = 2;

/// Lines that an error message takes.
pub const ERROR_LINES: usize = 1;

/// The text of one line of the list: a check box, the content, a newline.
pub open spec fn line_text_of(t: Todo) -> Seq<char> {
    (if t.completed_at is Some {
        "[x] "@
    } else {
        "[ ] "@
    }) + t.content@ + "\n"@
}

/// The text of the line that shows `todo`.
pub fn todo_line(todo: &Todo) -> (r: String)
    ensures
        r@ == line_text_of(*todo),
{
    let mut r = String::new();
    match todo.completed_at {
        Some(_) => r.append("[x] "),
        None => r.append("[ ] "),
    }
    r.append(todo.content.as_str());
    r.append("\n");
    r
}

/// The rows left for the list on a screen of `row_count` rows, none when the
/// screen is too small.
pub open spec fn body_rows_of(row_count: int, has_error: bool) -> int {
    let taken = HEADER_LINES + FOOTER_LINES + 1 + if has_error {
        ERROR_LINES as int
    } else {
        0
    };
    if row_count > taken {
        row_count - taken
    } else {
        0
    }
}

/// How a screen of `row_count` rows shows `n_todos` items: the number of rows
/// that show an item, and the number left blank below them.
pub fn body_layout(row_count: u16, has_error: bool, n_todos: usize) -> (r: (usize, usize))
    ensures
        r.0 + r.1 == body_rows_of(row_count as int, has_error),
        r.0 == if n_todos < body_rows_of(row_count as int, has_error) {
            n_todos as int
        } else {
            body_rows_of(row_count as int, has_error)
        },
{
    let taken: usize = if has_error {
        HEADER_LINES + FOOTER_LINES + 1 + ERROR_LINES
    } else {
        HEADER_LINES + FOOTER_LINES + 1
    };
    let rows = row_count as usize;
    let body: usize = if rows > taken {
        rows - taken
    } else {
        0
    };
    let shown: usize = if n_todos < body {
        n_todos
    } else {
        body
    };
    (shown, body - shown)
}

} // verus!
