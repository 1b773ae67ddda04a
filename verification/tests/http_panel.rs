use common_http_server_rs::http_panel::{
    escape_html, panel_snapshot, render_dashboard_html, websocket_info_reply, HttpPanelConfig,
};
use common_http_server_rs::websocket::hub::HubState;

#[test]
fn config_interval_has_lower_bound() {
    let config = HttpPanelConfig::new().refresh_interval_ms(10);
    assert_eq!(config.refresh_interval_ms, 250);
}

#[test]
fn html_render_respects_escape_and_raw_section_switch() {
    let config = HttpPanelConfig::new()
        .title("Ops <Panel>")
        .show_raw_snapshot(false);

    let html = render_dashboard_html(&config);
    assert!(html.contains("<title>Ops &lt;Panel&gt;</title>"));
    assert!(!html.contains("id=\"snapshot\""));
    assert!(html.contains("const apiBasePath = panelBasePath === \"/\" ? \"\" : panelBasePath;"));
    assert!(html.contains("fetch(apiBasePath + \"/api/snapshot\""));
}

#[test]
fn default_config_values() {
    let config = HttpPanelConfig::new();
    assert_eq!(config.title, "HTTP Panel");
    assert_eq!(config.refresh_interval_ms, 2000);
    assert!(config.show_raw_snapshot);
}

#[test]
fn interval_at_or_above_bound_is_kept() {
    assert_eq!(HttpPanelConfig::new().refresh_interval_ms(250).refresh_interval_ms, 250);
    assert_eq!(HttpPanelConfig::new().refresh_interval_ms(1500).refresh_interval_ms, 1500);
    assert_eq!(HttpPanelConfig::new().refresh_interval_ms(0).refresh_interval_ms, 250);
}

#[test]
fn escape_html_replaces_each_special_character() {
    assert_eq!(escape_html("a&b<c>d\"e'f"), "a&amp;b&lt;c&gt;d&quot;e&#39;f");
    assert_eq!(escape_html("plain text"), "plain text");
    assert_eq!(escape_html(""), "");
    assert_eq!(escape_html("&amp;"), "&amp;amp;");
}

#[test]
fn rendered_page_shows_interval_flag_and_raw_section() {
    let html = render_dashboard_html(&HttpPanelConfig::new().refresh_interval_ms(1500));
    assert!(html.contains("value=\"1500\""));
    assert!(html.contains("intervalMs: 1500,"));
    assert!(html.contains("showRawSnapshot: true,"));
    assert!(html.contains("<pre id=\"snapshot\">-</pre>"));
    assert!(html.contains("<h1>HTTP Panel</h1>"));
    assert!(html.starts_with("<!doctype html>"));
    assert!(html.ends_with("</html>\n"));
}

#[test]
fn rendered_page_script_uses_single_braces() {
    let html = render_dashboard_html(&HttpPanelConfig::new().show_raw_snapshot(false));
    assert!(html.contains("showRawSnapshot: false,"));
    assert!(html.contains("function setStatus(text, level) {"));
    assert!(!html.contains("{{"));
}

#[test]
fn websocket_info_without_hub_is_not_found() {
    let (status, payload) = websocket_info_reply(None);
    assert_eq!(status, 404);
    assert!(!payload.enabled);
    assert!(payload.snapshot.is_none());
    assert_eq!(payload.message.as_deref(), Some("websocket hub is not configured"));
}

#[test]
fn websocket_info_with_hub_carries_the_inspection() {
    let mut hub = HubState::new();
    let _ = hub.register(None);
    let (status, payload) = websocket_info_reply(Some(hub.inspect()));
    assert_eq!(status, 200);
    assert!(payload.enabled);
    assert!(payload.message.is_none());
    let snapshot = payload.snapshot.unwrap();
    assert_eq!(snapshot.total_connections, 1);
    assert_eq!(snapshot.total_groups, 0);
}

/// The HTTP figures of a service that has served nothing yet.
struct HttpFigures {
    total_requests: u64,
}

#[test]
fn snapshot_without_websocket_hub_sets_none() {
    let snapshot = panel_snapshot(HttpFigures { total_requests: 0 }, None);
    assert!(snapshot.websocket.is_none());
    assert_eq!(snapshot.http.total_requests, 0);
    assert!(snapshot.generated_at.ends_with("+00:00"));
    assert!(snapshot.generated_at.len() >= 25);
}

#[test]
fn snapshot_with_websocket_hub_includes_connection_counts() {
    let mut hub = HubState::new();
    let _ = hub.register(None);
    let snapshot = panel_snapshot(HttpFigures { total_requests: 0 }, Some(hub.inspect()));
    let websocket = snapshot.websocket.expect("websocket snapshot should exist");
    assert_eq!(websocket.total_connections, 1);
    assert_eq!(websocket.total_groups, 0);
}
