//! The dashboard page of the HTTP panel and its settings.
use vstd::prelude::*;
use crate::text::{chars_of, push_char};
use crate::websocket::hub::HubInspection;

verus! {

/// Settings of the panel page.
#[derive(Debug, Clone)]
pub struct HttpPanelConfig {
    pub title: String,
    pub refresh_interval_ms: u64,
    pub show_raw_snapshot: bool,
}

impl Default for HttpPanelConfig {
    /// Title `"HTTP Panel"`, refresh every 2000 ms, raw snapshot shown.
    fn default() -> (res: Self)
        ensures
            res.title@ == "HTTP Panel"@,
            res.refresh_interval_ms == 2000,
            res.show_raw_snapshot,
    {
        HttpPanelConfig {
            title: String::from_str("HTTP Panel"),
            refresh_interval_ms: 2000,
            show_raw_snapshot: true,
        }
    }
}

impl HttpPanelConfig {
    /// The default settings.
    pub fn new() -> (res: Self)
        ensures
            res.title@ == "HTTP Panel"@,
            res.refresh_interval_ms == 2000,
            res.show_raw_snapshot,
    {
        Self::default()
    }

    /// Sets the page title.
    pub fn title(self, title: &str) -> (res: Self)
        ensures
            res.title@ == title@,
            res.refresh_interval_ms == self.refresh_interval_ms,
            res.show_raw_snapshot == self.show_raw_snapshot,
    {
        let mut s = self;
        s.title = String::from_str(title);
        s
    }

    /// Sets the refresh interval, at least 250 ms.
    pub fn refresh_interval_ms(self, interval_ms: u64) -> (res: Self)
        ensures
            res.refresh_interval_ms == if interval_ms >= 250 { interval_ms } else { 250 },
            res.title == self.title,
            res.show_raw_snapshot == self.show_raw_snapshot,
    {
        let mut s = self;
        s.refresh_interval_ms = if interval_ms >= 250 { interval_ms } else { 250 };
        s
    }

    /// Shows or hides the raw snapshot JSON.
    pub fn show_raw_snapshot(self, enabled: bool) -> (res: Self)
        ensures
            res.show_raw_snapshot == enabled,
            res.title == self.title,
            res.refresh_interval_ms == self.refresh_interval_ms,
    {
        let mut s = self;
        s.show_raw_snapshot = enabled;
        s
    }
}

/// The HTML text that stands for `c`: `&`, `<`, `>`, `"` and `'` become
/// entities, every other character stands for itself.
pub open spec fn html_escape_char(c: char) -> Seq<char> {
    if c == '&' {
        "&amp;"@
    } else if c == '<' {
        "&lt;"@
    } else if c == '>' {
        "&gt;"@
    } else if c == '"' {
        "&quot;"@
    } else if c == '\'' {
        "&#39;"@
    } else {
        seq![c]
    }
}

/// The HTML-escaped text of `s`, character by character.
pub open spec fn html_escaped(s: Seq<char>) -> Seq<char>
    decreases s.len(),
{
    if s.len() == 0 {
        Seq::empty()
    } else {
        html_escaped(s.drop_last()) + html_escape_char(s.last())
    }
}

/// Escapes `value` for HTML text and attributes (see [`html_escaped`]).
pub fn escape_html(value: &str) -> (res: String)
    ensures
        res@ == html_escaped(value@),
{
    let chars = chars_of(value);
    let mut out = String::new();
    let mut i: usize = 0;
    while i < chars.len()
        invariant
            i <= chars@.len(),
            chars@ == value@,
            out@ == html_escaped(chars@.subrange(0, i as int)),
        decreases chars.len() - i,
    {
        let c = chars[i];
        if c == '&' {
            out.append("&amp;");
        } else if c == '<' {
            out.append("&lt;");
        } else if c == '>' {
            out.append("&gt;");
        } else if c == '"' {
            out.append("&quot;");
        } else if c == '\'' {
            out.append("&#39;");
        } else {
            push_char(&mut out, c);
        }
        assert(chars@.subrange(0, i + 1).drop_last() =~= chars@.subrange(0, i as int));
        i += 1;
    }
    assert(chars@.subrange(0, chars@.len() as int) =~= chars@);
    out
}

/// The decimal digit of `d` (below 10).
pub open spec fn digit_char(d: nat) -> char {
    ((48 + d) as u32) as char
}

/// The decimal text of `n`.
pub open spec fn decimal(n: nat) -> Seq<char>
    decreases n,
{
    if n < 10 {
        seq![digit_char(n)]
    } else {
        decimal(n / 10).push(digit_char(n % 10))
    }
}

/// Appends the decimal text of `n` to `s`.
pub fn push_decimal(s: &mut String, n: u64)
    ensures
        final(s)@ == old(s)@ + decimal(n as nat),
    decreases n,
{
    if n >= 10 {
        push_decimal(s, n / 10);
    }
    let d = (n % 10) as u8;
    let c = (48u8 + d) as char;
    assert(c == digit_char((n % 10) as nat));
    push_char(s, c);
}

/// The text of a boolean: `"true"` or `"false"`.
pub open spec fn bool_text(b: bool) -> Seq<char> {
    if b { "true"@ } else { "false"@ }
}

/// The page up to the title.
pub const PAGE_HEAD: &'static str = r#"<!doctype html>
<html lang="en">
<head>
<meta charset="utf-8" />
<meta name="viewport" content="width=device-width, initial-scale=1" />
<title>"#;

/// From the end of the title to the heading.
pub const PAGE_AFTER_TITLE: &'static str = r#"</title>
<style>
  body { font-family: -apple-system, BlinkMacSystemFont, "Segoe UI", Arial, sans-serif; margin: 16px; background: #f7f8fa; color: #1f2937; }
  h1 { margin: 0 0 4px 0; }
  h2 { margin: 18px 0 10px 0; }
  .muted { color: #6b7280; font-size: 12px; }
  .toolbar { display: flex; gap: 8px; align-items: center; flex-wrap: wrap; margin: 10px 0 6px 0; }
  .toolbar button { border: 1px solid #d1d5db; background: #ffffff; border-radius: 6px; padding: 6px 10px; cursor: pointer; }
  .toolbar input { border: 1px solid #d1d5db; border-radius: 6px; padding: 6px 8px; width: 100px; }
  .row { display: grid; grid-template-columns: repeat(auto-fit, minmax(180px, 1fr)); gap: 10px; }
  .card { background: #fff; border: 1px solid #e5e7eb; border-radius: 8px; padding: 10px; }
  .label { font-size: 12px; color: #4b5563; }
  .value { font-size: 22px; font-weight: 700; margin-top: 2px; }
  .table-wrap { background: #fff; border: 1px solid #e5e7eb; border-radius: 8px; overflow: auto; }
  table { width: 100%; border-collapse: collapse; }
  th, td { border-bottom: 1px solid #f1f5f9; text-align: left; padding: 8px; font-size: 13px; vertical-align: top; }
  th { color: #374151; background: #f9fafb; position: sticky; top: 0; }
  pre { background: #111827; color: #e5e7eb; padding: 12px; border-radius: 8px; overflow: auto; }
  .ok { color: #16a34a; }
  .warn { color: #b45309; }
  .err { color: #dc2626; }
</style>
</head>
<body>
  <h1>"#;

/// From the end of the heading to the interval input value.
pub const PAGE_AFTER_HEADING: &'static str = r#"</h1>
  <div class="muted">Operational dashboard for HTTP + WebSocket inspection</div>
  <div class="toolbar">
    <button id="refresh_now" type="button">Refresh Now</button>
    <button id="toggle_pause" type="button">Pause</button>
    <label for="interval_input" class="muted">Interval(ms)</label>
    <input id="interval_input" type="number" min="250" step="250" value=""#;

/// From the interval input value to the raw snapshot section.
pub const PAGE_AFTER_INTERVAL_INPUT: &'static str = r#"" />
    <button id="apply_interval" type="button">Apply</button>
  </div>
  <div id="status" class="muted">loading...</div>

  <h2>HTTP Metrics</h2>
  <div class="row">
    <div class="card"><div class="label">Uptime</div><div id="uptime_seconds" class="value">-</div></div>
    <div class="card"><div class="label">Total Requests</div><div id="total_requests" class="value">-</div></div>
    <div class="card"><div class="label">Error Requests</div><div id="error_requests" class="value">-</div></div>
    <div class="card"><div class="label">Request Rate</div><div id="request_rate" class="value">-</div></div>
    <div class="card"><div class="label">Error Rate</div><div id="error_rate" class="value">-</div></div>
    <div class="card"><div class="label">Active Connections</div><div id="active_connections" class="value">-</div></div>
    <div class="card"><div class="label">CPU Usage</div><div id="system_cpu_usage" class="value">-</div></div>
    <div class="card"><div class="label">Memory Usage</div><div id="system_memory_usage" class="value">-</div></div>
  </div>

  <h2>WebSocket Inspection</h2>
  <div class="row">
    <div class="card"><div class="label">Inspection Enabled</div><div id="ws_enabled" class="value">-</div></div>
    <div class="card"><div class="label">Total Connections</div><div id="ws_total_connections" class="value">-</div></div>
    <div class="card"><div class="label">Total Groups</div><div id="ws_total_groups" class="value">-</div></div>
  </div>

  <h2>WebSocket Groups</h2>
  <div class="table-wrap">
    <table>
      <thead>
        <tr><th>Group</th><th>Members</th><th>Connection IDs</th></tr>
      </thead>
      <tbody id="groups_rows">
        <tr><td colspan="3" class="muted">No data</td></tr>
      </tbody>
    </table>
  </div>

  <h2>WebSocket Connections</h2>
  <div class="table-wrap">
    <table>
      <thead>
        <tr><th>Connection ID</th><th>User</th><th>Auth</th><th>Groups</th></tr>
      </thead>
      <tbody id="connections_rows">
        <tr><td colspan="4" class="muted">No data</td></tr>
      </tbody>
    </table>
  </div>
"#;

/// From the raw snapshot section to the script state interval.
pub const PAGE_SCRIPT_START: &'static str = r#"
  <script>
    const panelBasePath = window.location.pathname.replace(/\/+$/, "") || "/";
    const apiBasePath = panelBasePath === "/" ? "" : panelBasePath;
    const state = {
      intervalMs: "#;

/// From the script state interval to the raw-snapshot flag.
pub const PAGE_SCRIPT_STATE: &'static str = r#",
      paused: false,
      timer: null,
      showRawSnapshot: "#;

/// The rest of the script and page.
pub const PAGE_SCRIPT_REST: &'static str = r#",
    };

    function setStatus(text, level) {
      const el = document.getElementById("status");
      el.textContent = text;
      el.className = level ? "muted " + level : "muted";
    }

    function fmt(value, digits = 2) {
      if (typeof value !== "number" || !Number.isFinite(value)) return "-";
      return value.toFixed(digits);
    }

    function setText(id, value) {
      const el = document.getElementById(id);
      if (el) el.textContent = value;
    }

    function escapeHtml(value) {
      return String(value)
        .replaceAll("&", "&amp;")
        .replaceAll("<", "&lt;")
        .replaceAll(">", "&gt;")
        .replaceAll('"', "&quot;")
        .replaceAll("'", "&#39;");
    }

    function renderWsRows(websocket) {
      const groupsRows = document.getElementById("groups_rows");
      const connectionsRows = document.getElementById("connections_rows");

      if (!websocket) {
        groupsRows.innerHTML = '<tr><td colspan="3" class="muted">WebSocket inspection not enabled</td></tr>';
        connectionsRows.innerHTML = '<tr><td colspan="4" class="muted">WebSocket inspection not enabled</td></tr>';
        return;
      }

      if (!websocket.groups || websocket.groups.length === 0) {
        groupsRows.innerHTML = '<tr><td colspan="3" class="muted">No groups</td></tr>';
      } else {
        groupsRows.innerHTML = websocket.groups.map((item) => {
          const members = (item.members || []).map((id) => escapeHtml(id)).join("<br/>");
          return `<tr><td>${escapeHtml(item.group)}</td><td>${item.member_count ?? 0}</td><td>${members || "-"}</td></tr>`;
        }).join("");
      }

      if (!websocket.connections || websocket.connections.length === 0) {
        connectionsRows.innerHTML = '<tr><td colspan="4" class="muted">No connections</td></tr>';
      } else {
        connectionsRows.innerHTML = websocket.connections.map((item) => {
          const groups = (item.groups || []).map((g) => escapeHtml(g)).join(", ");
          const user = `${escapeHtml(item.username || "-")} (${escapeHtml(item.user_id || "-")})`;
          return `<tr><td>${escapeHtml(item.connection_id || "-")}</td><td>${user}</td><td>${escapeHtml(item.auth_type || "-")}</td><td>${groups || "-"}</td></tr>`;
        }).join("");
      }
    }

    function renderSnapshot(data) {
      const http = data.http || {};
      setText("uptime_seconds", fmt(http.uptime_seconds, 1) + "s");
      setText("total_requests", http.total_requests ?? "-");
      setText("error_requests", http.error_requests ?? "-");
      setText("request_rate", fmt(http.request_rate, 2) + "/s");
      setText("error_rate", fmt(http.error_rate, 2) + "%");
      setText("active_connections", fmt(http.active_connections, 0));
      setText("system_cpu_usage", fmt(http.system_cpu_usage, 2) + "%");
      setText("system_memory_usage", fmt(http.system_memory_usage, 2) + "%");

      const websocket = data.websocket;
      setText("ws_enabled", websocket ? "yes" : "no");
      setText("ws_total_connections", websocket ? websocket.total_connections : "-");
      setText("ws_total_groups", websocket ? websocket.total_groups : "-");
      renderWsRows(websocket);

      if (state.showRawSnapshot) {
        const snapshotEl = document.getElementById("snapshot");
        if (snapshotEl) snapshotEl.textContent = JSON.stringify(data, null, 2);
      }
      setStatus("updated: " + (data.generated_at || "-"), "ok");
    }

    async function refreshPanel() {
      if (state.paused) return;
      try {
        const resp = await fetch(apiBasePath + "/api/snapshot", { cache: "no-store" });
        if (!resp.ok) throw new Error("HTTP " + resp.status);
        const data = await resp.json();
        renderSnapshot(data);
      } catch (err) {
        setStatus("refresh failed: " + err, "err");
      }
    }

    function reschedule() {
      if (state.timer) clearInterval(state.timer);
      state.timer = setInterval(refreshPanel, state.intervalMs);
    }

    document.getElementById("refresh_now").addEventListener("click", () => {
      refreshPanel();
    });
    document.getElementById("toggle_pause").addEventListener("click", (event) => {
      state.paused = !state.paused;
      event.target.textContent = state.paused ? "Resume" : "Pause";
      setStatus(state.paused ? "paused" : "running", state.paused ? "warn" : "ok");
      if (!state.paused) refreshPanel();
    });
    document.getElementById("apply_interval").addEventListener("click", () => {
      const value = Number(document.getElementById("interval_input").value);
      state.intervalMs = Number.isFinite(value) ? Math.max(250, Math.floor(value)) : state.intervalMs;
      document.getElementById("interval_input").value = String(state.intervalMs);
      reschedule();
      setStatus("interval updated: " + state.intervalMs + "ms", "ok");
    });

    refreshPanel();
    reschedule();
  </script>
</body>
</html>
"#;

/// The section that shows the raw snapshot JSON.
pub const RAW_SNAPSHOT_SECTION: &'static str = r#"
  <details open>
    <summary>Raw Snapshot JSON</summary>
    <pre id="snapshot">-</pre>
  </details>
"#;

/// The dashboard page for `config`: the escaped title (in the page title and
/// the heading), the refresh interval (in the interval input and the script
/// state), the raw snapshot section when shown, and the raw-snapshot flag.
pub open spec fn dashboard_html(config: HttpPanelConfig) -> Seq<char> {
    let title = html_escaped(config.title@);
    let interval = decimal(config.refresh_interval_ms as nat);
    let raw = if config.show_raw_snapshot { RAW_SNAPSHOT_SECTION@ } else { Seq::empty() };
    PAGE_HEAD@ + title + PAGE_AFTER_TITLE@ + title + PAGE_AFTER_HEADING@ + interval
        + PAGE_AFTER_INTERVAL_INPUT@ + raw + PAGE_SCRIPT_START@ + interval + PAGE_SCRIPT_STATE@
        + bool_text(config.show_raw_snapshot) + PAGE_SCRIPT_REST@
}

/// Renders the dashboard page for `config` (see [`dashboard_html`]).
pub fn render_dashboard_html(config: &HttpPanelConfig) -> (res: String)
    ensures
        res@ == dashboard_html(*config),
{
    let title = escape_html(config.title.as_str());
    let mut html = String::from_str(PAGE_HEAD);
    html.append(title.as_str());
    html.append(PAGE_AFTER_TITLE);
    html.append(title.as_str());
    html.append(PAGE_AFTER_HEADING);
    push_decimal(&mut html, config.refresh_interval_ms);
    html.append(PAGE_AFTER_INTERVAL_INPUT);
    if config.show_raw_snapshot {
        html.append(RAW_SNAPSHOT_SECTION);
    }
    html.append(PAGE_SCRIPT_START);
    push_decimal(&mut html, config.refresh_interval_ms);
    html.append(PAGE_SCRIPT_STATE);
    if config.show_raw_snapshot {
        html.append("true");
    } else {
        html.append("false");
    }
    html.append(PAGE_SCRIPT_REST);
    html
}

/// Escaped text holds no `<`, `>`, `"` or `'`, so it cannot open a tag or
/// close an attribute; and escaping is the identity on text without `&`,
/// `<`, `>`, `"` and `'`.
pub proof fn lemma_escaped_has_no_markup(s: Seq<char>)
    ensures
        forall|i: int| 0 <= i < html_escaped(s).len() ==> {
            let c = #[trigger] html_escaped(s)[i];
            c != '<' && c != '>' && c != '"' && c != '\''
        },
        (forall|i: int| 0 <= i < s.len() ==> {
            let c = #[trigger] s[i];
            c != '&' && c != '<' && c != '>' && c != '"' && c != '\''
        }) ==> html_escaped(s) == s,
    decreases s.len(),
{
    reveal_strlit("&amp;");
    reveal_strlit("&lt;");
    reveal_strlit("&gt;");
    reveal_strlit("&quot;");
    reveal_strlit("&#39;");
    if s.len() > 0 {
        lemma_escaped_has_no_markup(s.drop_last());
        let prev = html_escaped(s.drop_last());
        let last = html_escape_char(s.last());
        assert forall|i: int| 0 <= i < html_escaped(s).len() implies {
            let c = #[trigger] html_escaped(s)[i];
            c != '<' && c != '>' && c != '"' && c != '\''
        } by {
            if i < prev.len() {
                assert(html_escaped(s)[i] == prev[i]);
            } else {
                assert(html_escaped(s)[i] == last[i - prev.len()]);
            }
        }
        if forall|i: int| 0 <= i < s.len() ==> {
            let c = #[trigger] s[i];
            c != '&' && c != '<' && c != '>' && c != '"' && c != '\''
        } {
            assert forall|i: int| 0 <= i < s.drop_last().len() implies {
                let c = #[trigger] s.drop_last()[i];
                c != '&' && c != '<' && c != '>' && c != '"' && c != '\''
            } by {
                assert(s.drop_last()[i] == s[i]);
            }
            assert(s[s.len() - 1] == s.last());
            assert(html_escaped(s) =~= s);
        }
    } else {
        assert(html_escaped(s) =~= s);
    }
}

/// The body of the panel's WebSocket inspection endpoint.
pub struct WebSocketInspectionPayload {
    pub enabled: bool,
    pub snapshot: Option<HubInspection>,
    pub message: Option<String>,
}

/// The reply of the panel's WebSocket inspection endpoint, as status and
/// body: 404 with an explanation when no hub is configured (`snapshot` is
/// `None`), else 200 with the hub's inspection.
pub fn websocket_info_reply(snapshot: Option<HubInspection>) -> (res: (u16, WebSocketInspectionPayload))
    ensures
        snapshot is None ==> res.0 == 404 && !res.1.enabled && res.1.snapshot is None
            && (res.1.message matches Some(m) && m@ == "websocket hub is not configured"@),
        snapshot is Some ==> res.0 == 200 && res.1.enabled && res.1.snapshot == snapshot && res.1.message is None,
{
    match snapshot {
        Some(inspection) => (200, WebSocketInspectionPayload {
            enabled: true,
            snapshot: Some(inspection),
            message: None,
        }),
        None => (404, WebSocketInspectionPayload {
            enabled: false,
            snapshot: None,
            message: Some(String::from_str("websocket hub is not configured")),
        }),
    }
}

/// Whether `s` has the shape of an RFC 3339 UTC time as chrono writes it
/// with a numeric offset: at least `YYYY-MM-DDTHH:MM:SS+00:00` (25
/// characters), made of digits and the signs `-`, `+`, `T`, `:`, `.`, and
/// ending in `+00:00`.
pub open spec fn is_utc_offset_timestamp_text(s: Seq<char>) -> bool {
    &&& s.len() >= 25
    &&& s.subrange(s.len() - 6, s.len() as int) == "+00:00"@
    &&& forall|i: int| 0 <= i < s.len() ==> {
        let c = #[trigger] s[i];
        ('0' <= c && c <= '9') || c == '-' || c == '+' || c == 'T' || c == ':' || c == '.'
    }
}

/// The current UTC time in RFC 3339 form with a numeric offset
/// (`chrono::Utc::now().to_rfc3339()`): a date (four-digit year, or a signed
/// one beyond 0 to 9999), `T`, the time to the second, a fraction of 3, 6 or
/// 9 digits when it is not zero, and `+00:00`. Which instant comes out is
/// left open.
#[verifier::external_body]
fn utc_now_rfc3339_offset() -> (res: String)
    ensures
        is_utc_offset_timestamp_text(res@),
{
    chrono::Utc::now().to_rfc3339()
}

/// A snapshot of the panel: when it was taken, the HTTP figures `http`, and
/// the WebSocket inspection when a hub is configured.
pub struct HttpPanelSnapshot<H> {
    pub generated_at: String,
    pub http: H,
    pub websocket: Option<HubInspection>,
}

/// A snapshot of the panel taken now, of the HTTP figures `http` and the
/// WebSocket inspection `websocket`.
pub fn panel_snapshot<H>(http: H, websocket: Option<HubInspection>) -> (res: HttpPanelSnapshot<H>)
    ensures
        res.http == http,
        res.websocket == websocket,
        is_utc_offset_timestamp_text(res.generated_at@),
{
    HttpPanelSnapshot { generated_at: utc_now_rfc3339_offset(), http, websocket }
}

} // verus!
