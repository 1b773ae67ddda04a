use common_http_server_rs::websocket::client::{
    basic_authorization_value, bearer_authorization_value, HandshakeError, WebSocketClientAuth,
    WebSocketClientBuilder, WebSocketFrameFormat,
};

#[test]
fn api_key_auth_sets_bearer_header() {
    let headers = WebSocketClientBuilder::new("ws://localhost:3000/ws")
        .with_api_key_auth("dev-api-key")
        .handshake_headers()
        .expect("request should be built");

    assert_eq!(headers.authorization.as_deref(), Some("Bearer dev-api-key"));
}

#[test]
fn basic_auth_sets_basic_header() {
    let headers = WebSocketClientBuilder::new("ws://localhost:3000/ws")
        .with_basic_auth("alice", "secret")
        .handshake_headers()
        .expect("request should be built");

    assert_eq!(headers.authorization.as_deref(), Some("Basic YWxpY2U6c2VjcmV0"));
}

#[test]
fn without_auth_clears_authorization_header() {
    let headers = WebSocketClientBuilder::new("ws://localhost:3000/ws")
        .with_api_key_auth("dev-api-key")
        .without_auth()
        .handshake_headers()
        .expect("request should be built");

    assert!(headers.authorization.is_none());
}

#[test]
fn binary_messagepack_sets_subprotocol_header() {
    let headers = WebSocketClientBuilder::new("ws://localhost:3000/ws")
        .with_binary_messagepack()
        .handshake_headers()
        .expect("request should be built");

    assert_eq!(headers.subprotocol.as_deref(), Some("msgpack"));
}

#[test]
fn text_json_sets_no_subprotocol_header() {
    let headers = WebSocketClientBuilder::new("ws://localhost:3000/ws")
        .with_binary_messagepack()
        .with_text_json()
        .handshake_headers()
        .expect("request should be built");
    assert!(headers.subprotocol.is_none());
}

#[test]
fn builder_defaults() {
    let b = WebSocketClientBuilder::new("ws://h/ws");
    assert_eq!(b.url, "ws://h/ws");
    assert_eq!(b.frame_format, WebSocketFrameFormat::TextJson);
    assert_eq!(WebSocketFrameFormat::default(), WebSocketFrameFormat::TextJson);
    assert!(matches!(b.auth, WebSocketClientAuth::NoAuth));
}

#[test]
fn jwt_and_bearer_auth_use_bearer_scheme() {
    let jwt = WebSocketClientBuilder::new("ws://h/ws").with_jwt_auth("a.b.c");
    assert_eq!(jwt.auth.authorization_header_value().as_deref(), Some("Bearer a.b.c"));
    let bearer = WebSocketClientBuilder::new("ws://h/ws").with_bearer_auth("tok");
    assert_eq!(bearer.auth.authorization_header_value().as_deref(), Some("Bearer tok"));
}

#[test]
fn basic_auth_encodes_non_ascii_credentials_as_utf8() {
    let b = WebSocketClientBuilder::new("ws://h/ws").with_basic_auth("é", "");
    // "é:" is C3 A9 3A in UTF-8.
    assert_eq!(b.auth.authorization_header_value().as_deref(), Some("Basic w6k6"));
}

#[test]
fn control_characters_in_token_are_refused() {
    let b = WebSocketClientBuilder::new("ws://h/ws").with_bearer_auth("bad\ntoken");
    assert!(matches!(b.handshake_headers(), Err(HandshakeError::InvalidHeaderValue)));
    let ok = WebSocketClientBuilder::new("ws://h/ws").with_bearer_auth("tab\tis fine");
    assert!(ok.handshake_headers().is_ok());
}

#[test]
fn authorization_value_helpers() {
    assert_eq!(bearer_authorization_value("x"), "Bearer x");
    assert_eq!(basic_authorization_value("YQ=="), "Basic YQ==");
}

#[test]
fn basic_auth_with_control_characters_still_builds() {
    let headers = WebSocketClientBuilder::new("ws://h/ws")
        .with_basic_auth("a\nb", "\u{7f}")
        .handshake_headers()
        .unwrap();
    assert_eq!(headers.authorization.as_deref(), Some("Basic YQpiOn8="));
}
