//! How answers of the remote service are classified, and when repeated
//! failures take the client offline.

use vstd::prelude::*;

verus! {

#[derive(Clone, Copy, Debug, PartialEq, Eq, Structural)]
pub enum RemoteError {
    NotFound,
    Unauthorized,
    /// The server refused a write because its version differs (a conflict).
    Conflict,
    /// The request did not get an answer.
    Transport,
    Server,
}

pub open spec fn status_class(status: u16) -> Option<RemoteError> {
    if 200 <= status && status < 300 {
        None
    } else if status == 404 {
        Some(RemoteError::NotFound)
    } else if status == 401 || status == 403 {
        Some(RemoteError::Unauthorized)
    } else if status == 409 || status == 412 {
        Some(RemoteError::Conflict)
    } else {
        Some(RemoteError::Server)
    }
}

/// Classifies an HTTP status: `None` for success.
pub fn classify_status(status: u16) -> (r: Option<RemoteError>)
    ensures
        r == status_class(status),
{
    if 200 <= status && status < 300 {
        None
    } else if status == 404 {
        Some(RemoteError::NotFound)
    } else if status == 401 || status == 403 {
        Some(RemoteError::Unauthorized)
    } else if status == 409 || status == 412 {
        Some(RemoteError::Conflict)
    } else {
        Some(RemoteError::Server)
    }
}

/// Transport and server failures take the client offline when they repeat.
pub open spec fn counts_as_failure(outcome: Option<RemoteError>) -> bool {
    outcome == Some(RemoteError::Transport) || outcome == Some(RemoteError::Server)
}

/// Counts transport and server failures in a row.
pub struct FailureCounter {
    pub consecutive: u32,
    pub threshold: u32,
}

impl FailureCounter {
    pub fn new(threshold: u32) -> (r: FailureCounter)
        ensures
            r.consecutive == 0,
            r.threshold == threshold,
    {
        FailureCounter { consecutive: 0, threshold }
    }

    /// Takes the outcome of one request (`None` for success); true when the
    /// failures in a row have reached the threshold and the client should
    /// go offline.
    pub fn record(&mut self, outcome: Option<RemoteError>) -> (r: bool)
        ensures
            final(self).threshold == old(self).threshold,
            outcome is None ==> final(self).consecutive == 0,
            counts_as_failure(outcome) ==> final(self).consecutive == (if old(self).consecutive == u32::MAX {
                u32::MAX
            } else {
                (old(self).consecutive + 1) as u32
            }),
            outcome is Some && !counts_as_failure(outcome) ==> final(self).consecutive == old(self).consecutive,
            r == (final(self).consecutive >= final(self).threshold && final(self).consecutive > 0),
    {
        match outcome {
            None => {
                self.consecutive = 0;
            },
            Some(RemoteError::Transport) | Some(RemoteError::Server) => {
                self.consecutive = self.consecutive.saturating_add(1);
            },
            Some(_) => {},
        }
        self.consecutive >= self.threshold && self.consecutive > 0
    }
}

} // verus!
