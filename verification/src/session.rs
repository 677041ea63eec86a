//! A client's session: what to do next after each thing that happens.
use crate::model::{Command, CommandResult, Response};
use vstd::prelude::*;

verus! {

/// Something that happened in a session.
pub enum Event {
    /// A request was read.
    Requested(Command),
    /// What was read is no request; this is the answer to it.
    Rejected(Response),
    /// The client closed the connection, or reading failed.
    Ended,
    /// An answer was written, or writing failed.
    Written(bool),
    /// The server answered a request.
    Answered(CommandResult),
    /// The answer to a waiting request came, or will not come.
    Delivered(Option<Response>),
    /// The server is gone.
    Deserted,
}

/// What a session does next.
pub enum Action {
    /// Read a request.
    Read,
    /// Hand a request to the server.
    Submit(Command),
    /// Write an answer.
    Write(Response),
    /// Wait for the answer with this ticket.
    Await(u64),
    /// Tell the server that the connection is closed, and stop.
    Leave,
}

/// What a session does after an event.
pub open spec fn after(event: Event) -> Action {
    match event {
        Event::Requested(cmd) => Action::Submit(cmd),
        Event::Rejected(r) => Action::Write(r),
        Event::Ended => Action::Leave,
        Event::Written(ok) => if ok {
            Action::Read
        } else {
            Action::Leave
        },
        Event::Answered(CommandResult::Immediate(r)) => Action::Write(r),
        Event::Answered(CommandResult::Pending(ticket)) => Action::Await(ticket),
        Event::Answered(CommandResult::Close) => Action::Leave,
        Event::Delivered(Some(r)) => Action::Write(r),
        Event::Delivered(None) => Action::Leave,
        Event::Deserted => Action::Leave,
    }
}

/// What a session does after an event.
pub fn next_action(event: Event) -> (r: Action)
    ensures
        r == after(event),
{
    match event {
        Event::Requested(cmd) => Action::Submit(cmd),
        Event::Rejected(r) => Action::Write(r),
        Event::Ended => Action::Leave,
        Event::Written(ok) => if ok {
            Action::Read
        } else {
            Action::Leave
        },
        Event::Answered(result) => match result {
            CommandResult::Immediate(r) => Action::Write(r),
            CommandResult::Pending(ticket) => Action::Await(ticket),
            CommandResult::Close => Action::Leave,
        },
        Event::Delivered(response) => match response {
            Some(r) => Action::Write(r),
            None => Action::Leave,
        },
        Event::Deserted => Action::Leave,
    }
}

} // verus!
