//! A todo list whose state coordinator and list ordering are verified.
//!
//! The persistent store, the terminal drawing and the event loop are
//! collaborators outside this crate; this crate holds the item model, the
//! ordering of the relevant list and the decisions that the coordinator takes
//! on each event and on each store outcome.
pub mod controller;
pub mod relevant;
pub mod render;
pub mod store;

use vstd::prelude::*;

verus! {

/// The largest value of an `i64`, as an `int`.
pub open spec fn i64_max() -> int {
    0x7fff_ffff_ffff_ffff
}

/// One item of the list.
#[derive(Debug, Clone, PartialEq, Eq)]
pub struct Todo {
    /// Opaque identifier, generated when the item is created.
    pub id: String,
    /// User-supplied text.
    pub content: String,
    /// Unix timestamp, in seconds.
    pub created_at: i64,
    /// Unix timestamp, in seconds; absent until the item is completed.
    pub completed_at: Option<i64>,
}

/// The timestamp that a reading of the system clock stands for: whole seconds
/// since the Unix epoch, 0 for a clock before the epoch, and the largest `i64`
/// for a reading that does not fit.
pub open spec fn timestamp_of(secs: Option<u64>) -> int {
    match secs {
        Some(s) => if s <= i64_max() { s as int } else { i64_max() },
        None => 0,
    }
}

/// The system clock's reading type.
#[verifier::external_type_specification]
#[verifier::external_body]
pub struct ExSystemTime(std::time::SystemTime);

/// What `SystemTime::duration_since` returns when the clock reads earlier.
#[verifier::external_type_specification]
#[verifier::external_body]
pub struct ExSystemTimeError(std::time::SystemTimeError);

/// Relies on `std::time::SystemTime::now`: the clock's current reading, of
/// which nothing can be promised.
pub assume_specification[ std::time::SystemTime::now ]() -> std::time::SystemTime;

/// Relies on `std::time::SystemTime::duration_since`: the time elapsed since
/// `earlier`, or an error when `earlier` is later; which of the two depends on
/// the clock.
pub assume_specification[ std::time::SystemTime::duration_since ](
    t: &std::time::SystemTime,
    earlier: std::time::SystemTime,
) -> Result<std::time::Duration, std::time::SystemTimeError>;

/// Relies on `std::time::Duration::as_secs`: the whole seconds of a duration.
pub assume_specification[ std::time::Duration::as_secs ](d: &std::time::Duration) -> u64;

/// Relies on `std::time::UNIX_EPOCH`: the reading of 1970-01-01 00:00:00 UTC.
#[verifier::external_body]
fn unix_epoch() -> std::time::SystemTime {
    std::time::UNIX_EPOCH
}

/// Whole seconds since the Unix epoch, or `None` when the clock reads earlier.
fn seconds_since_epoch() -> Option<u64> {
    match std::time::SystemTime::now().duration_since(unix_epoch()) {
        Ok(d) => Some(d.as_secs()),
        Err(_) => None,
    }
}

/// Relies on `cuid2::cuid`: a fresh collision-resistant identifier, whose
/// first character is a letter drawn at random, so it is never empty.
#[verifier::external_body]
fn fresh_id() -> (r: String)
    ensures
        r@.len() > 0,
{
    cuid2::cuid()
}

impl Todo {
    /// A new, incomplete item with a fresh id, created now.
    pub fn new(content: String) -> (r: Todo)
        ensures
            r.content@ == content@,
            r.completed_at is None,
            r.id@.len() > 0,
            r.created_at >= 0,
    {
        let created_at = Todo::get_timestamp_now();
        Todo { id: fresh_id(), content, created_at, completed_at: None }
    }

    /// The current Unix timestamp in seconds.
    pub fn get_timestamp_now() -> (r: i64)
        ensures
            r >= 0,
    {
        Todo::timestamp_from_secs(seconds_since_epoch())
    }

    /// Turns a reading of the clock into a timestamp, as `timestamp_of` says.
    pub fn timestamp_from_secs(secs: Option<u64>) -> (r: i64)
        ensures
            r == timestamp_of(secs),
            r >= 0,
    {
        match secs {
            Some(s) => {
                if s <= 0x7fff_ffff_ffff_ffffu64 {
                    s as i64
                } else {
                    0x7fff_ffff_ffff_ffffi64
                }
            },
            None => 0,
        }
    }
}

} // verus!
