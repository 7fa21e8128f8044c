//! What the persistent store reports when asked to complete an item.
use vstd::prelude::*;
use vstd::string::*;

verus! {

/// Why an item could not be marked complete.
#[derive(Debug)]
pub enum MarkCompleteError {
    /// The store failed; the text describes the fault.
    PersistError(String),
    /// No stored item has the given id.
    TodoNotFound,
}

/// The text that describes a completion failure.
pub open spec fn mark_complete_error_text(e: MarkCompleteError) -> Seq<char> {
    match e {
        MarkCompleteError::PersistError(m) => "SQLXError: "@ + m@,
        MarkCompleteError::TodoNotFound => "Todo not found"@,
    }
}

impl MarkCompleteError {
    /// Describes the failure in words.
    pub fn message(&self) -> (r: String)
        ensures
            r@ == mark_complete_error_text(*self),
    {
        let mut r = String::new();
        match self {
            MarkCompleteError::PersistError(m) => {
                r.append("SQLXError: ");
                r.append(m.as_str());
            },
            MarkCompleteError::TodoNotFound => {
                r.append("Todo not found");
            },
        }
        r
    }
}

/// The outcome of a completion from the number of stored rows that it
/// changed: exactly one row means success; none, or several, means no single
/// item has the id.
pub fn completion_outcome(rows: u64) -> (r: Result<(), MarkCompleteError>)
    ensures
        rows == 1 <==> r is Ok,
        rows != 1 ==> r matches Err(MarkCompleteError::TodoNotFound),
{
    if rows == 1 {
        Ok(())
    } else {
        Err(MarkCompleteError::TodoNotFound)
    }
}

impl PartialEq for MarkCompleteError {
    /// Two errors are equal when they are of the same kind.
    fn eq(&self, o: &MarkCompleteError) -> (r: bool) {
        match (self, o) {
            (MarkCompleteError::PersistError(_), MarkCompleteError::PersistError(_)) => true,
            (MarkCompleteError::TodoNotFound, MarkCompleteError::TodoNotFound) => true,
            _ => false,
        }
    }
}

impl vstd::std_specs::cmp::PartialEqSpecImpl for MarkCompleteError {
    open spec fn obeys_eq_spec() -> bool {
        true
    }

    open spec fn eq_spec(&self, o: &MarkCompleteError) -> bool {
        (self is PersistError && o is PersistError) || (self is TodoNotFound && o is TodoNotFound)
    }
}

} // verus!
