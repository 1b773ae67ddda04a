//! The WebSocket hub: connections, group membership, event fan-out and the
//! handling of client messages, with the names and errors of the protocol.
use vstd::prelude::*;
use crate::auth::{AuthType, AuthUser};
use crate::text::{
    all_space, chars_of, chars_eq_ignore_ascii_case, eq_ignore_ascii_case, is_space, lemma_trim_ignores_padding, trim,
    trim_range,
};
use crate::websocket::protocol::{EventActor, ServerMessage, WS_SUBPROTOCOL_MSGPACK_LEGACY, WS_SUBPROTOCOL_MSGPACK_V1};

verus! {

/// The framing of outgoing messages on one connection.
#[derive(Debug, Clone, Copy, PartialEq, Eq, Structural)]
pub enum WebSocketFrameFormat {
    TextJson,
    BinaryMessagePack,
}

/// The format stored as `value`: 1 is MessagePack, anything else JSON.
pub open spec fn frame_format_of(value: u8) -> WebSocketFrameFormat {
    if value == 1 {
        WebSocketFrameFormat::BinaryMessagePack
    } else {
        WebSocketFrameFormat::TextJson
    }
}

/// The number that stores `f`: 0 for JSON, 1 for MessagePack.
pub open spec fn frame_format_code(f: WebSocketFrameFormat) -> u8 {
    match f {
        WebSocketFrameFormat::TextJson => 0,
        WebSocketFrameFormat::BinaryMessagePack => 1,
    }
}

/// Storing a format as its number and reading it back gives the format.
pub proof fn lemma_frame_format_round_trip(f: WebSocketFrameFormat)
    ensures
        frame_format_of(frame_format_code(f)) == f,
{
}

impl WebSocketFrameFormat {
    /// The format stored as `value` (see [`frame_format_of`]).
    pub fn from_u8(value: u8) -> (res: Self)
        ensures
            res == frame_format_of(value),
    {
        match value {
            1 => WebSocketFrameFormat::BinaryMessagePack,
            _ => WebSocketFrameFormat::TextJson,
        }
    }

    /// The number that stores this format (see [`frame_format_code`]).
    pub fn as_u8(self) -> (res: u8)
        ensures
            res == frame_format_code(self),
    {
        match self {
            WebSocketFrameFormat::TextJson => 0,
            WebSocketFrameFormat::BinaryMessagePack => 1,
        }
    }
}

/// Errors of hub operations.
#[derive(Debug, Clone)]
pub enum WebSocketError {
    ConnectionNotFound,
    InvalidGroup,
    InvalidEvent,
    GroupNotFound { group: String },
    NotInGroup { group: String },
    OutboundQueueFull { connection_id: String },
}

/// The protocol code of an error.
pub open spec fn error_code(e: WebSocketError) -> Seq<char> {
    match e {
        WebSocketError::ConnectionNotFound => "connection_not_found"@,
        WebSocketError::InvalidGroup => "invalid_group"@,
        WebSocketError::InvalidEvent => "invalid_event"@,
        WebSocketError::GroupNotFound { .. } => "group_not_found"@,
        WebSocketError::NotInGroup { .. } => "not_in_group"@,
        WebSocketError::OutboundQueueFull { .. } => "outbound_queue_full"@,
    }
}

/// The human-readable text of an error.
pub open spec fn error_text(e: WebSocketError) -> Seq<char> {
    match e {
        WebSocketError::ConnectionNotFound => "connection not found"@,
        WebSocketError::InvalidGroup => "invalid group name"@,
        WebSocketError::InvalidEvent => "invalid event name"@,
        WebSocketError::GroupNotFound { group } => "group '"@ + group@ + "' not found"@,
        WebSocketError::NotInGroup { group } => "connection is not in group '"@ + group@ + "'"@,
        WebSocketError::OutboundQueueFull { connection_id } =>
            "outbound queue is full for connection '"@ + connection_id@ + "'"@,
    }
}

impl WebSocketError {
    /// The protocol code of this error.
    pub fn code(&self) -> (res: &'static str)
        ensures
            res@ == error_code(*self),
    {
        match self {
            WebSocketError::ConnectionNotFound => "connection_not_found",
            WebSocketError::InvalidGroup => "invalid_group",
            WebSocketError::InvalidEvent => "invalid_event",
            WebSocketError::GroupNotFound { .. } => "group_not_found",
            WebSocketError::NotInGroup { .. } => "not_in_group",
            WebSocketError::OutboundQueueFull { .. } => "outbound_queue_full",
        }
    }

    /// The human-readable text of this error.
    pub fn message(&self) -> (res: String)
        ensures
            res@ == error_text(*self),
    {
        match self {
            WebSocketError::ConnectionNotFound => String::from_str("connection not found"),
            WebSocketError::InvalidGroup => String::from_str("invalid group name"),
            WebSocketError::InvalidEvent => String::from_str("invalid event name"),
            WebSocketError::GroupNotFound { group } => {
                let mut s = String::from_str("group '");
                s.append(group.as_str());
                s.append("' not found");
                s
            },
            WebSocketError::NotInGroup { group } => {
                let mut s = String::from_str("connection is not in group '");
                s.append(group.as_str());
                s.append("'");
                s
            },
            WebSocketError::OutboundQueueFull { connection_id } => {
                let mut s = String::from_str("outbound queue is full for connection '");
                s.append(connection_id.as_str());
                s.append("'");
                s
            },
        }
    }

    /// The error message sent to a client for this error.
    pub fn to_server_message(&self) -> (res: ServerMessage)
        ensures
            res matches ServerMessage::Error { code, message }
                && code@ == error_code(*self) && message@ == error_text(*self),
    {
        ServerMessage::Error { code: String::from_str(self.code()), message: self.message() }
    }
}

/// Which authentication a WebSocket route demands.
#[derive(Debug, Clone, Copy, PartialEq, Eq, Structural)]
pub enum WebSocketAuthMode {
    /// No authentication: connections join anonymously unless a user is attached.
    NoAuth,
    Basic,
    ApiKey,
    Jwt,
}

impl Default for WebSocketAuthMode {
    /// API-key authentication.
    fn default() -> (res: Self)
        ensures
            res == WebSocketAuthMode::ApiKey,
    {
        WebSocketAuthMode::ApiKey
    }
}

/// Settings of a hub: the capacity of each connection's outgoing queue.
#[derive(Debug, Clone, Copy)]
pub struct WebSocketHubConfig {
    outbound_queue_capacity: usize,
}

impl Default for WebSocketHubConfig {
    /// Outgoing queues of 256 messages.
    fn default() -> (res: Self)
        ensures
            res.queue_capacity_view() == 256,
    {
        WebSocketHubConfig { outbound_queue_capacity: 256 }
    }
}

impl WebSocketHubConfig {
    #[verifier::type_invariant]
    spec fn capacity_is_positive(self) -> bool {
        self.outbound_queue_capacity >= 1
    }

    /// The capacity of each outgoing queue.
    pub closed spec fn queue_capacity_view(&self) -> usize {
        self.outbound_queue_capacity
    }

    /// The default settings.
    pub fn new() -> (res: Self)
        ensures
            res.queue_capacity_view() == 256,
    {
        Self::default()
    }

    /// Sets the queue capacity, at least 1.
    pub fn outbound_queue_capacity(self, capacity: usize) -> (res: Self)
        ensures
            res.queue_capacity_view() == if capacity >= 1 { capacity } else { 1 },
    {
        WebSocketHubConfig { outbound_queue_capacity: if capacity >= 1 { capacity } else { 1 } }
    }

    /// The capacity of each outgoing queue, at least 1.
    pub fn queue_capacity(&self) -> (res: usize)
        ensures
            res == self.queue_capacity_view(),
            res >= 1,
    {
        proof { use_type_invariant(self); }
        self.outbound_queue_capacity
    }
}

/// Whether `c` may appear in a group or event name: an ASCII letter or
/// digit, or one of `_ - . :`.
pub open spec fn is_name_char(c: char) -> bool {
    ||| ('a' <= c && c <= 'z')
    ||| ('A' <= c && c <= 'Z')
    ||| ('0' <= c && c <= '9')
    ||| c == '_' || c == '-' || c == '.' || c == ':'
}

/// Whether `s` is a valid group or event name: 1 to 64 name characters.
pub open spec fn is_valid_name(s: Seq<char>) -> bool {
    &&& 0 < s.len() <= 64
    &&& forall|i: int| 0 <= i < s.len() ==> is_name_char(#[trigger] s[i])
}

/// Whether `s` is a valid group or event name (see [`is_valid_name`]).
fn name_is_valid(s: &str) -> (res: bool)
    ensures
        res == is_valid_name(s@),
{
    let chars = chars_of(s);
    if chars.len() == 0 || chars.len() > 64 {
        return false;
    }
    let mut i: usize = 0;
    while i < chars.len()
        invariant
            i <= chars@.len(),
            chars@ == s@,
            forall|j: int| 0 <= j < i ==> is_name_char(#[trigger] chars@[j]),
        decreases chars.len() - i,
    {
        let c = chars[i];
        let ok = ('a' <= c && c <= 'z') || ('A' <= c && c <= 'Z') || ('0' <= c && c <= '9') || c == '_'
            || c == '-' || c == '.' || c == ':';
        if !ok {
            assert(!is_name_char(chars@[i as int]));
            return false;
        }
        i += 1;
    }
    true
}

/// Checks a group name.
pub fn validate_group_name(group: &str) -> (res: Result<(), WebSocketError>)
    ensures
        res is Ok <==> is_valid_name(group@),
        res is Err ==> res matches Err(WebSocketError::InvalidGroup),
{
    if name_is_valid(group) {
        Ok(())
    } else {
        Err(WebSocketError::InvalidGroup)
    }
}

/// Checks an event name.
pub fn validate_event_name(event: &str) -> (res: Result<(), WebSocketError>)
    ensures
        res is Ok <==> is_valid_name(event@),
        res is Err ==> res matches Err(WebSocketError::InvalidEvent),
{
    if name_is_valid(event) {
        Ok(())
    } else {
        Err(WebSocketError::InvalidEvent)
    }
}

/// The label of an authentication type.
pub open spec fn auth_type_label(t: AuthType) -> Seq<char> {
    match t {
        AuthType::Basic => "basic"@,
        AuthType::ApiKey => "api_key"@,
        AuthType::Jwt => "jwt"@,
    }
}

/// Whether `a` is the actor of connection `connection_id` authenticated as
/// `user`: the user's id, name and authentication label, or, with no user,
/// `"anonymous:<connection id>"`, `"anonymous"` and `"none"`.
pub open spec fn is_actor_of(a: EventActor, connection_id: Seq<char>, user: Option<AuthUser>) -> bool {
    match user {
        Some(u) => {
            &&& a.user_id@ == u.user.id@
            &&& a.username@ == u.user.username@
            &&& a.auth_type@ == auth_type_label(u.auth_type)
        },
        None => {
            &&& a.user_id@ == "anonymous:"@ + connection_id
            &&& a.username@ == "anonymous"@
            &&& a.auth_type@ == "none"@
        },
    }
}

/// The actor of an authenticated user.
pub fn event_actor_from_auth_user(auth_user: &AuthUser) -> (res: EventActor)
    ensures
        is_actor_of(res, Seq::empty(), Some(*auth_user)),
{
    let auth_type = match auth_user.auth_type {
        AuthType::Basic => "basic",
        AuthType::ApiKey => "api_key",
        AuthType::Jwt => "jwt",
    };
    EventActor {
        user_id: auth_user.user.id.clone(),
        username: auth_user.user.username.clone(),
        auth_type: String::from_str(auth_type),
    }
}

/// The actor of an unauthenticated connection.
pub fn anonymous_actor(connection_id: &str) -> (res: EventActor)
    ensures
        is_actor_of(res, connection_id@, None),
{
    let mut user_id = String::from_str("anonymous:");
    user_id.append(connection_id);
    EventActor {
        user_id,
        username: String::from_str("anonymous"),
        auth_type: String::from_str("none"),
    }
}

/// The actor of connection `connection_id` authenticated as `auth_user`.
pub fn actor_for(connection_id: &str, auth_user: &Option<AuthUser>) -> (res: EventActor)
    ensures
        is_actor_of(res, connection_id@, *auth_user),
{
    match auth_user {
        Some(u) => event_actor_from_auth_user(u),
        None => anonymous_actor(connection_id),
    }
}

/// Whether `s[lo..hi]` is one of the comma-separated pieces of `s`.
pub open spec fn is_comma_piece(s: Seq<char>, lo: int, hi: int) -> bool {
    &&& 0 <= lo <= hi <= s.len()
    &&& (lo == 0 || s[lo - 1] == ',')
    &&& (hi == s.len() || s[hi] == ',')
    &&& forall|k: int| lo <= k < hi ==> s[k] != ','
}

/// Whether `t` names MessagePack (`chs.v1.msgpack`, `msgpack` or
/// `messagepack`, up to ASCII case).
pub open spec fn names_msgpack(t: Seq<char>) -> bool {
    ||| eq_ignore_ascii_case(t, WS_SUBPROTOCOL_MSGPACK_V1@)
    ||| eq_ignore_ascii_case(t, WS_SUBPROTOCOL_MSGPACK_LEGACY@)
    ||| eq_ignore_ascii_case(t, "messagepack"@)
}

/// Whether a `Sec-WebSocket-Protocol` value offers MessagePack: one of its
/// comma-separated pieces, trimmed, names it.
pub open spec fn offers_msgpack(s: Seq<char>) -> bool {
    exists|lo: int, hi: int| is_comma_piece(s, lo, hi) && #[trigger] names_msgpack(trim(s.subrange(lo, hi)))
}

/// A header value that holds no comma is a single token: it offers
/// MessagePack exactly when, trimmed of white space, it names it; white
/// space around the token changes nothing.
pub proof fn lemma_single_token_offer(w1: Seq<char>, t: Seq<char>, w2: Seq<char>)
    requires
        forall|k: int| 0 <= k < t.len() ==> t[k] != ',',
        all_space(w1),
        all_space(w2),
    ensures
        offers_msgpack(t) <==> names_msgpack(trim(t)),
        offers_msgpack(w1 + t + w2) <==> names_msgpack(trim(t)),
{
    lemma_no_comma_offer(t);
    let u = w1 + t + w2;
    assert forall|k: int| 0 <= k < u.len() implies u[k] != ',' by {
        if k < w1.len() {
            assert(is_space(w1[k]));
        } else if k < w1.len() + t.len() {
            assert(u[k] == t[k - w1.len()]);
        } else {
            assert(is_space(w2[k - w1.len() - t.len()]));
        }
    }
    lemma_no_comma_offer(u);
    lemma_trim_ignores_padding(w1, t, w2);
}

/// A comma-free value offers MessagePack exactly when, trimmed, it names it.
proof fn lemma_no_comma_offer(t: Seq<char>)
    requires
        forall|k: int| 0 <= k < t.len() ==> t[k] != ',',
    ensures
        offers_msgpack(t) <==> names_msgpack(trim(t)),
{
    assert(t.subrange(0, t.len() as int) =~= t);
    assert(is_comma_piece(t, 0, t.len() as int));
    if offers_msgpack(t) {
        let (lo, hi) = choose|lo: int, hi: int| is_comma_piece(t, lo, hi) && #[trigger] names_msgpack(trim(t.subrange(lo, hi)));
        assert(lo == 0);
        assert(hi == t.len());
    }
    if names_msgpack(trim(t)) {
        assert(names_msgpack(trim(t.subrange(0, t.len() as int))));
    }
}

/// A list offers MessagePack exactly when one of its parts does: whatever
/// comes before or after a comma, and in whichever place.
pub proof fn lemma_offer_of_list(s1: Seq<char>, s2: Seq<char>)
    ensures
        offers_msgpack(s1 + seq![','] + s2) <==> (offers_msgpack(s1) || offers_msgpack(s2)),
        offers_msgpack(s1 + seq![','] + s2) == offers_msgpack(s2 + seq![','] + s1),
{
    lemma_offer_of_list_one_way(s1, s2);
    lemma_offer_of_list_one_way(s2, s1);
}

/// The pieces of `s1 , s2` are those of `s1` and those of `s2`.
proof fn lemma_offer_of_list_one_way(s1: Seq<char>, s2: Seq<char>)
    ensures
        offers_msgpack(s1 + seq![','] + s2) <==> (offers_msgpack(s1) || offers_msgpack(s2)),
{
    let s = s1 + seq![','] + s2;
    let n1 = s1.len() as int;
    assert(s[n1] == ',');
    if offers_msgpack(s1) {
        let (lo, hi) = choose|lo: int, hi: int| is_comma_piece(s1, lo, hi) && #[trigger] names_msgpack(trim(s1.subrange(lo, hi)));
        assert(s.subrange(lo, hi) =~= s1.subrange(lo, hi));
        if lo > 0 {
            assert(s[lo - 1] == s1[lo - 1]);
        }
        if hi < n1 {
            assert(s[hi] == s1[hi]);
        }
        assert forall|k: int| lo <= k < hi implies s[k] != ',' by {
            assert(s[k] == s1[k]);
        }
        assert(is_comma_piece(s, lo, hi));
        assert(names_msgpack(trim(s.subrange(lo, hi))));
    }
    if offers_msgpack(s2) {
        let (lo, hi) = choose|lo: int, hi: int| is_comma_piece(s2, lo, hi) && #[trigger] names_msgpack(trim(s2.subrange(lo, hi)));
        let d = n1 + 1;
        assert(s.subrange(lo + d, hi + d) =~= s2.subrange(lo, hi));
        if lo > 0 {
            assert(s[lo + d - 1] == s2[lo - 1]);
        }
        if hi < s2.len() {
            assert(s[hi + d] == s2[hi]);
        }
        assert forall|k: int| lo + d <= k < hi + d implies s[k] != ',' by {
            assert(s[k] == s2[k - d]);
        }
        assert(is_comma_piece(s, lo + d, hi + d));
        assert(names_msgpack(trim(s.subrange(lo + d, hi + d))));
    }
    if offers_msgpack(s) {
        let (lo, hi) = choose|lo: int, hi: int| is_comma_piece(s, lo, hi) && #[trigger] names_msgpack(trim(s.subrange(lo, hi)));
        if hi <= n1 {
            assert(s.subrange(lo, hi) =~= s1.subrange(lo, hi));
            if lo > 0 {
                assert(s[lo - 1] == s1[lo - 1]);
            }
            if hi < n1 {
                assert(s[hi] == s1[hi]);
            }
            assert forall|k: int| lo <= k < hi implies s1[k] != ',' by {
                assert(s[k] == s1[k]);
            }
            assert(is_comma_piece(s1, lo, hi));
            assert(names_msgpack(trim(s1.subrange(lo, hi))));
        } else if lo > n1 {
            let d = n1 + 1;
            assert(s.subrange(lo, hi) =~= s2.subrange(lo - d, hi - d));
            if lo - d > 0 {
                assert(s[lo - 1] == s2[lo - d - 1]);
            }
            if hi - d < s2.len() {
                assert(s[hi] == s2[hi - d]);
            }
            assert forall|k: int| lo - d <= k < hi - d implies s2[k] != ',' by {
                assert(s[k + d] == s2[k]);
            }
            assert(is_comma_piece(s2, lo - d, hi - d));
            assert(names_msgpack(trim(s2.subrange(lo - d, hi - d))));
        } else {
            assert(lo <= n1 < hi);
            assert(s[n1] != ',');
        }
    }
}

/// The first framing of a connection, from the text of its
/// `Sec-WebSocket-Protocol` header (if present and readable): MessagePack
/// when the header offers it, else JSON.
pub fn detect_initial_frame_format(protocol_header: Option<&str>) -> (res: WebSocketFrameFormat)
    ensures
        res == (if protocol_header matches Some(raw) && offers_msgpack(raw@) {
            WebSocketFrameFormat::BinaryMessagePack
        } else {
            WebSocketFrameFormat::TextJson
        }),
{
    let raw = match protocol_header {
        Some(raw) => raw,
        None => {
            return WebSocketFrameFormat::TextJson;
        },
    };
    let chars = chars_of(raw);
    let versioned = chars_of(WS_SUBPROTOCOL_MSGPACK_V1);
    let short = chars_of(WS_SUBPROTOCOL_MSGPACK_LEGACY);
    let long = chars_of("messagepack");
    let n = chars.len();
    let mut start: usize = 0;
    loop
        invariant
            protocol_header == Some(raw),
            chars@ == raw@,
            versioned@ == WS_SUBPROTOCOL_MSGPACK_V1@,
            short@ == WS_SUBPROTOCOL_MSGPACK_LEGACY@,
            long@ == "messagepack"@,
            n == chars@.len(),
            start <= n,
            start == 0 || chars@[start - 1] == ',',
            forall|lo: int, hi: int| is_comma_piece(chars@, lo, hi) && lo < start
                ==> !#[trigger] names_msgpack(trim(chars@.subrange(lo, hi))),
        decreases n - start,
    {
        let mut end = start;
        while end < n && chars[end] != ','
            invariant
                start <= end <= n == chars@.len(),
                forall|k: int| start <= k < end ==> chars@[k] != ',',
            decreases n - end,
        {
            end += 1;
        }
        assert(is_comma_piece(chars@, start as int, end as int));
        let (a, b) = trim_range(&chars, start, end);
        if chars_eq_ignore_ascii_case(&chars, a, b, &versioned) || chars_eq_ignore_ascii_case(&chars, a, b, &short)
            || chars_eq_ignore_ascii_case(&chars, a, b, &long) {
            assert(names_msgpack(trim(chars@.subrange(start as int, end as int))));
            return WebSocketFrameFormat::BinaryMessagePack;
        }
        assert forall|lo: int, hi: int| is_comma_piece(chars@, lo, hi) && lo < end + 1
            implies !#[trigger] names_msgpack(trim(chars@.subrange(lo, hi))) by {
            if lo >= start {
                if lo > start {
                    assert(chars@[lo - 1] == ',');
                }
                assert(lo == start);
                if hi > end {
                    assert(chars@[end as int] == ',');
                }
                if hi < end {
                    assert(chars@[hi] == ',');
                }
                assert(hi == end);
            }
        }
        if end == n {
            assert forall|lo: int, hi: int| is_comma_piece(chars@, lo, hi)
                implies !#[trigger] names_msgpack(trim(chars@.subrange(lo, hi))) by {
                if lo > end {
                    assert(false);
                }
            }
            return WebSocketFrameFormat::TextJson;
        }
        start = end + 1;
    }
}

/// The subprotocols a server accepts, MessagePack first.
pub fn server_subprotocols() -> (res: Vec<&'static str>)
    ensures
        res@.len() == 4,
        res@[0]@ == WS_SUBPROTOCOL_MSGPACK_V1@,
        res@[1]@ == WS_SUBPROTOCOL_MSGPACK_LEGACY@,
        res@[2]@ == crate::websocket::protocol::WS_SUBPROTOCOL_JSON_V1@,
        res@[3]@ == crate::websocket::protocol::WS_SUBPROTOCOL_JSON_LEGACY@,
{
    let mut res: Vec<&'static str> = Vec::new();
    res.push(WS_SUBPROTOCOL_MSGPACK_V1);
    res.push(WS_SUBPROTOCOL_MSGPACK_LEGACY);
    res.push(crate::websocket::protocol::WS_SUBPROTOCOL_JSON_V1);
    res.push(crate::websocket::protocol::WS_SUBPROTOCOL_JSON_LEGACY);
    res
}

/// Why a WebSocket upgrade is refused.
#[derive(Debug, Clone, Copy, PartialEq, Eq, Structural)]
pub enum UpgradeRefusal {
    /// The route demands authentication and no authenticated user came with
    /// the request.
    MissingAuthHeader,
}

/// The user a session runs as: the authenticated user that came with the
/// upgrade request, if any; none (an anonymous session) under `NoAuth`;
/// otherwise the upgrade is refused.
pub fn session_user(mode: WebSocketAuthMode, auth_user: Option<AuthUser>) -> (res: Result<Option<AuthUser>, UpgradeRefusal>)
    ensures
        auth_user is Some ==> res == Ok::<Option<AuthUser>, UpgradeRefusal>(auth_user),
        auth_user is None && mode == WebSocketAuthMode::NoAuth ==> res == Ok::<Option<AuthUser>, UpgradeRefusal>(None),
        auth_user is None && mode != WebSocketAuthMode::NoAuth ==> res == Err::<Option<AuthUser>, UpgradeRefusal>(
            UpgradeRefusal::MissingAuthHeader),
{
    match auth_user {
        Some(user) => Ok(Some(user)),
        None => match mode {
            WebSocketAuthMode::NoAuth => Ok(None),
            _ => Err(UpgradeRefusal::MissingAuthHeader),
        },
    }
}

/// The framing of a connection is settled at the handshake: a frame of the
/// other framing is answered with a `frame_format_mismatch` error (the
/// session then closes the connection, see `HubState::session_step`); a
/// frame of the settled framing is accepted.
pub fn check_frame_format(negotiated: WebSocketFrameFormat, incoming: WebSocketFrameFormat) -> (res: Option<ServerMessage>)
    ensures
        negotiated == incoming ==> res is None,
        negotiated != incoming ==> (res matches Some(ServerMessage::Error { code, message })
            && code@ == "frame_format_mismatch"@
            && message@ == "frame format does not match the negotiated subprotocol"@),
{
    if negotiated == incoming {
        None
    } else {
        Some(ServerMessage::Error {
            code: String::from_str("frame_format_mismatch"),
            message: String::from_str("frame format does not match the negotiated subprotocol"),
        })
    }
}

} // verus!
