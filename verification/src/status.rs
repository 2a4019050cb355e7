//! The lifecycle status of a job.

use crate::text::{lowercase, lowercased, str_eq};
use vstd::prelude::*;

verus! {

/// Where a job stands in its lifecycle.
#[derive(Debug, Clone, Copy, PartialEq, Eq, Structural)]
pub enum Status {
    Pending,
    Running,
    Completed,
    Failed,
    Stopped,
    Interrupted,
}

/// The status that a lowercase name stands for, if any.
pub open spec fn status_named(name: Seq<char>) -> Option<Status> {
    if name == "pending"@ {
        Some(Status::Pending)
    } else if name == "running"@ {
        Some(Status::Running)
    } else if name == "completed"@ {
        Some(Status::Completed)
    } else if name == "failed"@ {
        Some(Status::Failed)
    } else if name == "stopped"@ {
        Some(Status::Stopped)
    } else if name == "interrupted"@ {
        Some(Status::Interrupted)
    } else {
        None
    }
}

/// The status that was asked for by a name that no status has.
#[derive(Debug, Clone, Copy, PartialEq, Eq, Structural)]
pub struct UnknownStatus;

impl Status {
    /// A status is terminal when the job can never leave it.
    pub open spec fn terminal(self) -> bool {
        self is Completed || self is Failed || self is Stopped || self is Interrupted
    }

    /// The lowercase name of the status.
    pub open spec fn name(self) -> Seq<char> {
        match self {
            Status::Pending => "pending"@,
            Status::Running => "running"@,
            Status::Completed => "completed"@,
            Status::Failed => "failed"@,
            Status::Stopped => "stopped"@,
            Status::Interrupted => "interrupted"@,
        }
    }

    #[must_use]
    pub fn as_str(self) -> (s: &'static str)
        ensures
            s@ == self.name(),
    {
        match self {
            Status::Pending => "pending",
            Status::Running => "running",
            Status::Completed => "completed",
            Status::Failed => "failed",
            Status::Stopped => "stopped",
            Status::Interrupted => "interrupted",
        }
    }

    #[must_use]
    pub fn is_terminal(self) -> (r: bool)
        ensures
            r == self.terminal(),
    {
        match self {
            Status::Completed | Status::Failed | Status::Stopped | Status::Interrupted => true,
            Status::Pending | Status::Running => false,
        }
    }

    /// The name of the status as an owned string.
    pub fn to_string(&self) -> (s: String)
        ensures
            s@ == self.name(),
    {
        self.as_str().to_string()
    }

    /// The status with exactly this lowercase name.
    pub fn from_name(name: &str) -> (r: Option<Status>)
        ensures
            r == status_named(name@),
    {
        if str_eq(name, "pending") {
            Some(Status::Pending)
        } else if str_eq(name, "running") {
            Some(Status::Running)
        } else if str_eq(name, "completed") {
            Some(Status::Completed)
        } else if str_eq(name, "failed") {
            Some(Status::Failed)
        } else if str_eq(name, "stopped") {
            Some(Status::Stopped)
        } else if str_eq(name, "interrupted") {
            Some(Status::Interrupted)
        } else {
            None
        }
    }

    /// The status that `s` names, whatever the case of its letters.
    pub fn parse(s: &str) -> (r: Result<Status, UnknownStatus>)
        ensures
            r == match status_named(lowercased(s@)) {
                Some(status) => Ok::<Status, UnknownStatus>(status),
                None => Err::<Status, UnknownStatus>(UnknownStatus),
            },
    {
        let lower = lowercase(s);
        match Status::from_name(lower.as_str()) {
            Some(status) => Ok(status),
            None => Err(UnknownStatus),
        }
    }
}

impl std::str::FromStr for Status {
    type Err = UnknownStatus;

    fn from_str(s: &str) -> (r: Result<Self, Self::Err>)
        ensures
            r == match status_named(lowercased(s@)) {
                Some(status) => Ok::<Status, UnknownStatus>(status),
                None => Err::<Status, UnknownStatus>(UnknownStatus),
            },
    {
        Status::parse(s)
    }
}

/// Every status is found again by its own name.
pub proof fn lemma_name_round_trip(status: Status)
    ensures
        status_named(status.name()) == Some(status),
{
    reveal_strlit("pending");
    reveal_strlit("running");
    reveal_strlit("completed");
    reveal_strlit("failed");
    reveal_strlit("stopped");
    reveal_strlit("interrupted");
    match status {
        Status::Pending => {},
        Status::Running => {
            assert("running"@.len() != "pending"@.len() || "running"@[0] != "pending"@[0]);
        },
        Status::Completed => {
            assert("completed"@.len() == 9);
        },
        Status::Failed => {
            assert("failed"@.len() == 6);
        },
        Status::Stopped => {
            assert("stopped"@[0] == 's');
            assert("pending"@[0] == 'p');
            assert("running"@[0] == 'r');
        },
        Status::Interrupted => {
            assert("interrupted"@.len() == 11);
        },
    }
}

} // verus!
