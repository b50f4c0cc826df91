//! What can stop a synchronisation cycle.

use crate::text::{decimal_text, push_decimal};
use vstd::prelude::*;

verus! {

/// A failure that ends the current cycle.
#[derive(Clone, Copy, Debug, PartialEq, Eq, Structural)]
pub enum SyncError {
    /// An Asana task with neither a due date nor a due time reached the
    /// point where its due date is written out.
    MissingDue,
    /// Asana reported that more tasks follow on a further page, which this
    /// library does not fetch.
    UnsupportedPagination,
    /// No Google task list with an id bears the expected title.
    ListNotFound,
    /// A read request was answered with a status outside 200..=299.
    FetchFailed { status: u16 },
    /// An update request was answered with a status outside 200..=299.
    PutFailed { status: u16 },
}

/// The text of an error, as it is shown to an operator.
pub open spec fn message_text(error: SyncError) -> Seq<char> {
    match error {
        SyncError::MissingDue => "Somehow got to gtask with no due date"@,
        SyncError::UnsupportedPagination => "Asana reported a further page of tasks, which is not supported"@,
        SyncError::ListNotFound => "No Google task list named Asana"@,
        SyncError::FetchFailed { status } => "Failed to fetch. Status: "@ + decimal_text(
            status as nat,
        ),
        SyncError::PutFailed { status } => "Failed to put. Status: "@ + decimal_text(
            status as nat,
        ),
    }
}

impl SyncError {
    /// The text of this error.
    pub fn message(&self) -> (text: String)
        ensures
            text@ == message_text(*self),
    {
        match self {
            SyncError::MissingDue => "Somehow got to gtask with no due date".to_owned(),
            SyncError::UnsupportedPagination => "Asana reported a further page of tasks, which is not supported".to_owned(),
            SyncError::ListNotFound => "No Google task list named Asana".to_owned(),
            SyncError::FetchFailed { status } => {
                let mut text = "Failed to fetch. Status: ".to_owned();
                push_decimal(&mut text, *status);
                text
            },
            SyncError::PutFailed { status } => {
                let mut text = "Failed to put. Status: ".to_owned();
                push_decimal(&mut text, *status);
                text
            },
        }
    }
}

} // verus!
