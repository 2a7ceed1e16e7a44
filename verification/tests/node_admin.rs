//! The node admin surface's decisions.

use workflow_core::node_admin::{
    handler_404, render_metrics, NodeAdminHandler, NodeAdminHandlerState, NodeStatus,
};

#[test]
fn identity_probe_reports_alive() {
    let handler = NodeAdminHandler::new(NodeAdminHandlerState { prometheus_enabled: true });
    assert_eq!(handler.get_ident().status, NodeStatus::Alive);
}

#[test]
fn metrics_render_or_fail_visibly() {
    let (status, body) = render_metrics(Some("counter 1".to_string()));
    assert_eq!(status, 200);
    assert_eq!(body, "counter 1".to_string());

    // Scraping a node without a recorder must fail visibly.
    let (status, _) = render_metrics(None);
    assert_eq!(status, 422);
}

#[test]
fn unknown_routes_answer_not_found() {
    let (status, _) = handler_404();
    assert_eq!(status, 404);
}
