//! What the two HTTP endpoints answer.

use vstd::prelude::*;

verus! {

/// An answer to a request: the status code and the body text.
#[derive(Debug, Clone, PartialEq, Eq)]
pub struct Reply {
    pub status: u16,
    pub body: String,
}

/// The body of the liveness report.
#[derive(Debug, Clone, PartialEq, Eq)]
pub struct HealthResponse {
    pub status: String,
}

/// The answer of the liveness endpoint: the status code and the body.
#[derive(Debug, Clone, PartialEq, Eq)]
pub struct HealthReply {
    pub status: u16,
    pub body: HealthResponse,
}

/// The liveness report: the success status and the fixed status text `ok`,
/// whatever the state of the repository or of earlier requests.
pub fn health() -> (reply: HealthReply)
    ensures
        reply.status == 200,
        reply.body.status@ == "ok"@,
{
    HealthReply { status: 200, body: HealthResponse { status: "ok".to_owned() } }
}

/// The answer to a notification once the pipeline has run: always the
/// success status and the fixed acknowledgment, whatever the steps found.
pub fn acknowledge() -> (reply: Reply)
    ensures
        reply.status == 200,
        reply.body@ == "Webhook processed"@,
{
    Reply { status: 200, body: "Webhook processed".to_owned() }
}

} // verus!
