//! The health endpoint.

use vstd::prelude::*;

verus! {

/// Body of a health response.
pub struct Status {
    pub status: String,
}

impl View for Status {
    type V = Seq<char>;

    /// The text of the status.
    open spec fn view(&self) -> Seq<char> {
        self.status@
    }
}

/// The status of a service that is up.
pub open spec fn available() -> Seq<char> {
    "Available"@
}

/// Answers a health check. The answer depends on nothing: not on the pool,
/// not on the load, not on earlier calls.
pub fn healthcheck() -> (answer: Status)
    ensures
        answer@ == available(),
{
    Status { status: "Available".to_owned() }
}

/// Health checks are idempotent: any two answers carry the same text.
pub proof fn lemma_health_is_idempotent(first: Status, second: Status)
    requires
        first@ == available(),
        second@ == available(),
    ensures
        first@ == second@,
        first@.len() == 9,
{
    reveal_strlit("Available");
}

} // verus!
