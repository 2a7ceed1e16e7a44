//! Decision logic of the node admin surface: the responses handed back by the
//! metrics endpoint and the identity probe. The HTTP and gRPC plumbing around
//! these decisions lives outside the library.

use vstd::prelude::*;

verus! {

/// Node liveness as reported by the identity probe.
#[derive(Clone, Copy, Debug, PartialEq, Eq, Structural)]
pub enum NodeStatus {
    Unknown,
    Alive,
}

/// Reply of the identity probe.
#[derive(Clone, Copy, Debug, PartialEq, Eq, Structural)]
pub struct IdentResponse {
    pub status: NodeStatus,
}

/// Shared state of the node admin handlers: whether a metrics recorder was
/// installed at startup.
#[derive(Clone, Copy, Debug, PartialEq, Eq, Structural)]
pub struct NodeAdminHandlerState {
    pub prometheus_enabled: bool,
}

/// Handler backing the node admin gRPC service.
pub struct NodeAdminHandler {
    pub state: NodeAdminHandlerState,
}

impl NodeAdminHandler {
    pub fn new(state: NodeAdminHandlerState) -> (r: Self)
        ensures
            r.state == state,
    {
        Self { state }
    }

    /// The identity probe always reports the node as alive while the service
    /// is able to answer at all.
    pub fn get_ident(&self) -> (r: IdentResponse)
        ensures
            r.status == NodeStatus::Alive,
    {
        IdentResponse { status: NodeStatus::Alive }
    }
}

/// Status code and body of the metrics endpoint, given the text the installed
/// recorder rendered, or `None` when metric collection is disabled. Scraping a
/// node without a recorder must fail visibly, so that case answers with 422
/// (a semantically invalid request) rather than an empty success.
pub fn render_metrics(rendered: Option<String>) -> (r: (u16, String))
    ensures
        rendered is Some ==> r.0 == 200 && r.1@ == rendered->0@,
        rendered is None ==> r.0 == 422,
{
    match rendered {
        Some(body) => (200, body),
        None => (422, metrics_disabled_message()),
    }
}

/// Body answered by the metrics endpoint when no recorder is installed.
pub fn metrics_disabled_message() -> String {
    String::from_str("Prometheus metric collection is not enabled.")
}

/// Status code and body answered for a route the admin surface does not know.
pub fn handler_404() -> (r: (u16, String))
    ensures
        r.0 == 404,
{
    (404, String::from_str("Unknown route on the node admin surface."))
}

} // verus!
