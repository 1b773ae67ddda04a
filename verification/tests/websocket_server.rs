use tokio::sync::mpsc;

use common_http_server_rs::auth::{AuthType, AuthUser, User};
use common_http_server_rs::websocket::hub::{
    decode_error_message, delivery_outcome, HubState, Reservation, SessionAction, SessionFrame, SessionStep,
};
use common_http_server_rs::websocket::outbound::OutboundQueues;
use common_http_server_rs::websocket::protocol::{
    is_json_subprotocol, is_msgpack_subprotocol, ClientMessage, ServerMessage,
};
use common_http_server_rs::websocket::server::{
    anonymous_actor, check_frame_format, detect_initial_frame_format, event_actor_from_auth_user, server_subprotocols, validate_event_name,
    validate_group_name, session_user, UpgradeRefusal, WebSocketAuthMode, WebSocketError, WebSocketFrameFormat, WebSocketHubConfig,
};

fn auth_user(name: &str) -> AuthUser {
    AuthUser {
        user: User {
            id: format!("{}_id", name),
            username: name.to_string(),
            roles: vec!["user".to_string()],
            permissions: vec![],
        },
        auth_type: AuthType::ApiKey,
    }
}

fn payload() -> serde_json::Value {
    serde_json::from_str(r#"{"text":"hello"}"#).unwrap()
}

/// Registers a connection with an outgoing queue of the configured capacity,
/// holding its greeting.
fn connect(
    hub: &mut HubState,
    queues: &mut OutboundQueues,
    config: &WebSocketHubConfig,
    user: Option<AuthUser>,
) -> (String, mpsc::Receiver<ServerMessage>) {
    let (tx, rx) = mpsc::channel(config.queue_capacity());
    let (connection_id, greeting) = hub.register(user);
    queues.insert(connection_id.clone(), tx);
    queues.send_to(&connection_id, greeting).unwrap();
    (connection_id, rx)
}

#[test]
fn group_join_and_leave_updates_member_count() {
    let mut hub = HubState::new();
    let (connection_id, _connected) = hub.register(Some(auth_user("alice")));

    hub.join_group(&connection_id, "chat.room").unwrap();
    assert_eq!(hub.group_member_count("chat.room"), 1);

    hub.leave_group(&connection_id, "chat.room").unwrap();
    assert_eq!(hub.group_member_count("chat.room"), 0);
}

#[test]
fn emit_event_broadcasts_json_message() {
    let config = WebSocketHubConfig::new();
    let mut hub = HubState::new();
    let mut queues = OutboundQueues::new();
    let (alice_id, mut alice_rx) = connect(&mut hub, &mut queues, &config, Some(auth_user("alice")));
    let _ = alice_rx.try_recv();
    let (bob_id, mut bob_rx) = connect(&mut hub, &mut queues, &config, Some(auth_user("bob")));
    let _ = bob_rx.try_recv();

    hub.join_group(&alice_id, "team.dev").unwrap();
    hub.join_group(&bob_id, "team.dev").unwrap();

    let action = hub.process_client_message(
        &alice_id,
        ClientMessage::Event { group: "team.dev".to_string(), event: "message.new".to_string(), payload: payload() },
        "2026-02-19T00:00:00Z".to_string(),
    );
    let delivered = match action {
        SessionAction::Deliver { recipients, message } => queues.deliver(&recipients, message),
        SessionAction::Reply(_) => panic!("expected a delivery"),
    };
    assert_eq!(delivered.unwrap(), 2);

    let alice_msg = alice_rx.try_recv().unwrap();
    let bob_msg = bob_rx.try_recv().unwrap();
    for message in [alice_msg, bob_msg] {
        match message {
            ServerMessage::Event { group, event, payload: p, from, .. } => {
                assert_eq!(group, "team.dev");
                assert_eq!(event, "message.new");
                assert_eq!(p, payload());
                assert_eq!(from.username, "alice");
                assert_eq!(from.auth_type, "api_key");
            }
            _ => panic!("expected event messages"),
        }
    }
}

#[test]
fn emit_requires_membership() {
    let mut hub = HubState::new();
    let (connection_id, _) = hub.register(Some(auth_user("alice")));

    let error = hub.emit_plan(&connection_id, "team.dev", "message.new").unwrap_err();
    assert!(matches!(error, WebSocketError::GroupNotFound { .. }));
}

#[test]
fn emit_rejects_when_any_recipient_queue_is_full() {
    let config = WebSocketHubConfig::new().outbound_queue_capacity(1);
    let mut hub = HubState::new();
    let mut queues = OutboundQueues::new();
    let (alice_id, mut alice_rx) = connect(&mut hub, &mut queues, &config, Some(auth_user("alice")));
    let _ = alice_rx.try_recv();
    let (bob_id, _bob_rx) = connect(&mut hub, &mut queues, &config, Some(auth_user("bob")));

    hub.join_group(&alice_id, "team.dev").unwrap();
    hub.join_group(&bob_id, "team.dev").unwrap();

    let action = hub.process_client_message(
        &alice_id,
        ClientMessage::Event { group: "team.dev".to_string(), event: "message.new".to_string(), payload: payload() },
        "2026-02-19T00:00:00Z".to_string(),
    );
    let error = match action {
        SessionAction::Deliver { recipients, message } => queues.deliver(&recipients, message).unwrap_err(),
        SessionAction::Reply(_) => panic!("expected a delivery"),
    };

    assert!(matches!(error, WebSocketError::OutboundQueueFull { .. }));
    // Delivery is all or nothing: Alice's queue got nothing either.
    assert!(alice_rx.try_recv().is_err());
}

#[test]
fn group_name_with_surrounding_whitespace_is_rejected() {
    let mut hub = HubState::new();
    let (connection_id, _) = hub.register(Some(auth_user("alice")));

    let error = hub.join_group(&connection_id, " team.dev ").unwrap_err();
    assert!(matches!(error, WebSocketError::InvalidGroup));
}

#[test]
fn event_name_with_surrounding_whitespace_is_rejected() {
    let mut hub = HubState::new();
    let (connection_id, _) = hub.register(Some(auth_user("alice")));
    hub.join_group(&connection_id, "team.dev").unwrap();

    let error = hub.emit_plan(&connection_id, "team.dev", " message.new ").unwrap_err();
    assert!(matches!(error, WebSocketError::InvalidEvent));
}

#[test]
fn detect_msgpack_subprotocol_as_binary_format() {
    assert_eq!(detect_initial_frame_format(Some("json,msgpack")), WebSocketFrameFormat::BinaryMessagePack);
}

#[test]
fn anonymous_registration_sets_none_auth_actor() {
    let mut hub = HubState::new();
    let (connection_id, connected) = hub.register(None);

    match connected {
        ServerMessage::Connected { actor, connection_id: id } => {
            assert_eq!(actor.auth_type, "none");
            assert_eq!(actor.username, "anonymous");
            assert_eq!(actor.user_id, format!("anonymous:{}", connection_id));
            assert_eq!(id, connection_id);
        }
        _ => panic!("expected connected message"),
    }
}

#[test]
fn detect_frame_format_variants() {
    assert_eq!(detect_initial_frame_format(None), WebSocketFrameFormat::TextJson);
    assert_eq!(detect_initial_frame_format(Some("json")), WebSocketFrameFormat::TextJson);
    assert_eq!(detect_initial_frame_format(Some("")), WebSocketFrameFormat::TextJson);
    assert_eq!(detect_initial_frame_format(Some(" MessagePack , json")), WebSocketFrameFormat::BinaryMessagePack);
    assert_eq!(detect_initial_frame_format(Some("chs.v1.msgpack")), WebSocketFrameFormat::BinaryMessagePack);
    assert_eq!(detect_initial_frame_format(Some("chs.v1.json, json")), WebSocketFrameFormat::TextJson);
    assert_eq!(detect_initial_frame_format(Some("msgpack2")), WebSocketFrameFormat::TextJson);
}

#[test]
fn frame_format_numbers_round_trip() {
    for f in [WebSocketFrameFormat::TextJson, WebSocketFrameFormat::BinaryMessagePack] {
        assert_eq!(WebSocketFrameFormat::from_u8(f.as_u8()), f);
    }
    assert_eq!(WebSocketFrameFormat::from_u8(7), WebSocketFrameFormat::TextJson);
    assert_eq!(WebSocketFrameFormat::BinaryMessagePack.as_u8(), 1);
}

#[test]
fn subprotocol_names_ignore_ascii_case() {
    assert!(is_msgpack_subprotocol("CHS.V1.MSGPACK"));
    assert!(is_msgpack_subprotocol("msgpack"));
    assert!(!is_msgpack_subprotocol("json"));
    assert!(is_json_subprotocol("Json"));
    assert!(is_json_subprotocol("chs.v1.json"));
    assert!(!is_json_subprotocol("chs.v1.json "));
}

#[test]
fn name_validation_rules() {
    assert!(validate_group_name("a").is_ok());
    assert!(validate_group_name(&"x".repeat(64)).is_ok());
    assert!(matches!(validate_group_name(&"x".repeat(65)), Err(WebSocketError::InvalidGroup)));
    assert!(matches!(validate_group_name(""), Err(WebSocketError::InvalidGroup)));
    assert!(validate_group_name("A-z_0.9:x").is_ok());
    assert!(matches!(validate_group_name("é"), Err(WebSocketError::InvalidGroup)));
    assert!(matches!(validate_event_name("a/b"), Err(WebSocketError::InvalidEvent)));
    assert!(validate_event_name("message.new").is_ok());
}

#[test]
fn error_codes_and_messages() {
    let cases = vec![
        (WebSocketError::ConnectionNotFound, "connection_not_found", "connection not found"),
        (WebSocketError::InvalidGroup, "invalid_group", "invalid group name"),
        (WebSocketError::InvalidEvent, "invalid_event", "invalid event name"),
        (WebSocketError::GroupNotFound { group: "g".into() }, "group_not_found", "group 'g' not found"),
        (WebSocketError::NotInGroup { group: "g".into() }, "not_in_group", "connection is not in group 'g'"),
        (
            WebSocketError::OutboundQueueFull { connection_id: "c".into() },
            "outbound_queue_full",
            "outbound queue is full for connection 'c'",
        ),
    ];
    for (e, code, text) in cases {
        assert_eq!(e.code(), code);
        assert_eq!(e.message(), text);
        match e.to_server_message() {
            ServerMessage::Error { code: c, message: m } => {
                assert_eq!(c, code);
                assert_eq!(m, text);
            }
            _ => panic!("expected error message"),
        }
    }
}

#[test]
fn hub_config_defaults_and_bounds() {
    assert_eq!(WebSocketHubConfig::new().queue_capacity(), 256);
    assert_eq!(WebSocketHubConfig::new().outbound_queue_capacity(0).queue_capacity(), 1);
    assert_eq!(WebSocketAuthMode::default(), WebSocketAuthMode::ApiKey);
}

#[test]
fn actors_of_users() {
    let mut u = auth_user("carol");
    u.auth_type = AuthType::Jwt;
    let a = event_actor_from_auth_user(&u);
    assert_eq!(a.user_id, "carol_id");
    assert_eq!(a.username, "carol");
    assert_eq!(a.auth_type, "jwt");
    u.auth_type = AuthType::Basic;
    assert_eq!(event_actor_from_auth_user(&u).auth_type, "basic");
    let anon = anonymous_actor("abc");
    assert_eq!(anon.user_id, "anonymous:abc");
}

#[test]
fn join_requires_a_connection() {
    let mut hub = HubState::new();
    assert!(matches!(hub.join_group("missing", "room"), Err(WebSocketError::ConnectionNotFound)));
    assert!(matches!(hub.leave_group("missing", "room"), Err(WebSocketError::ConnectionNotFound)));
    assert!(matches!(hub.leave_group("missing", "bad name"), Err(WebSocketError::InvalidGroup)));
}

#[test]
fn unregister_removes_memberships_and_empty_groups() {
    let mut hub = HubState::new();
    let (a, _) = hub.register(None);
    let (b, _) = hub.register(None);
    hub.join_group(&a, "r1").unwrap();
    hub.join_group(&a, "r2").unwrap();
    hub.join_group(&b, "r1").unwrap();
    hub.join_group(&a, "r1").unwrap();
    assert_eq!(hub.group_member_count("r1"), 2);
    assert_eq!(hub.peer_count(), 2);
    hub.unregister(&a);
    assert_eq!(hub.group_member_count("r1"), 1);
    assert_eq!(hub.group_member_count("r2"), 0);
    assert!(!hub.has_peer(&a));
    assert!(hub.has_peer(&b));
    assert_eq!(hub.peer_count(), 1);
    assert!(matches!(hub.emit_plan(&b, "r2", "e"), Err(WebSocketError::GroupNotFound { .. })));
    hub.unregister("not-there");
    assert_eq!(hub.peer_count(), 1);
}

#[test]
fn emit_by_non_member_is_refused() {
    let mut hub = HubState::new();
    let (a, _) = hub.register(None);
    let (b, _) = hub.register(None);
    hub.join_group(&a, "room").unwrap();
    assert!(matches!(hub.emit_plan(&b, "room", "e"), Err(WebSocketError::NotInGroup { group }) if group == "room"));
}

#[test]
fn process_join_leave_ping_replies() {
    let mut hub = HubState::new();
    let (a, _) = hub.register(None);
    match hub.process_client_message(&a, ClientMessage::Join { group: "binary.room".into() }, String::new()) {
        SessionAction::Reply(ServerMessage::Joined { group }) => assert_eq!(group, "binary.room"),
        _ => panic!("expected joined ack"),
    }
    match hub.process_client_message(&a, ClientMessage::Join { group: "bad name".into() }, String::new()) {
        SessionAction::Reply(ServerMessage::Error { code, .. }) => assert_eq!(code, "invalid_group"),
        _ => panic!("expected error"),
    }
    match hub.process_client_message(&a, ClientMessage::Leave { group: "binary.room".into() }, String::new()) {
        SessionAction::Reply(ServerMessage::Left { group }) => assert_eq!(group, "binary.room"),
        _ => panic!("expected left ack"),
    }
    assert_eq!(hub.group_member_count("binary.room"), 0);
    match hub.process_client_message(&a, ClientMessage::Ping { nonce: Some("n1".into()) }, String::new()) {
        SessionAction::Reply(ServerMessage::Pong { nonce }) => assert_eq!(nonce.as_deref(), Some("n1")),
        _ => panic!("expected pong"),
    }
}

#[test]
fn process_direct_message() {
    let mut hub = HubState::new();
    let (a, _) = hub.register(Some(auth_user("alice")));
    let (b, _) = hub.register(None);
    match hub.process_client_message(
        &a,
        ClientMessage::Direct { to_connection_id: b.clone(), event: "direct.notice".into(), payload: payload() },
        "t".into(),
    ) {
        SessionAction::Deliver { recipients, message: ServerMessage::Direct { from_connection_id, event, from, timestamp, .. } } => {
            assert_eq!(recipients, vec![b.clone()]);
            assert_eq!(from_connection_id, a);
            assert_eq!(event, "direct.notice");
            assert_eq!(from.username, "alice");
            assert_eq!(timestamp, "t");
        }
        _ => panic!("expected a direct delivery"),
    }
    match hub.process_client_message(
        &a,
        ClientMessage::Direct { to_connection_id: "nobody".into(), event: "direct.notice".into(), payload: payload() },
        "t".into(),
    ) {
        SessionAction::Reply(ServerMessage::Error { code, .. }) => assert_eq!(code, "connection_not_found"),
        _ => panic!("expected error"),
    }
}

#[test]
fn delivery_stops_at_first_failure() {
    let recipients = vec!["a".to_string(), "b".to_string(), "c".to_string()];
    assert!(matches!(
        delivery_outcome(&recipients, &vec![Reservation::Reserved, Reservation::Closed]),
        Err(WebSocketError::ConnectionNotFound)
    ));
    match delivery_outcome(&recipients, &vec![Reservation::Reserved, Reservation::QueueFull]) {
        Err(WebSocketError::OutboundQueueFull { connection_id }) => assert_eq!(connection_id, "b"),
        _ => panic!("expected a full queue"),
    }
    assert_eq!(delivery_outcome(&recipients, &vec![Reservation::Reserved; 3]).unwrap(), 3);
}

#[test]
fn registered_ids_are_hyphenated_uuids() {
    let mut hub = HubState::new();
    let (a, _) = hub.register(None);
    let (b, _) = hub.register(None);
    assert_eq!(a.len(), 36);
    assert_ne!(a, b);
}

#[test]
fn insert_peer_replaces_and_clears_memberships() {
    let mut hub = HubState::new();
    hub.insert_peer("fixed".to_string(), None);
    hub.join_group("fixed", "room").unwrap();
    hub.insert_peer("fixed".to_string(), Some(auth_user("dave")));
    assert_eq!(hub.peer_count(), 1);
    assert_eq!(hub.group_member_count("room"), 0);
    assert_eq!(hub.peer_actor("fixed").unwrap().username, "dave");
}

#[test]
fn group_names_and_count_follow_memberships() {
    let mut hub = HubState::new();
    let (a, _) = hub.register(None);
    let (b, _) = hub.register(None);
    assert_eq!(hub.group_count(), 0);
    hub.join_group(&a, "x").unwrap();
    hub.join_group(&b, "x").unwrap();
    hub.join_group(&b, "y").unwrap();
    assert_eq!(hub.group_count(), 2);
    let mut names = hub.group_names();
    names.sort();
    assert_eq!(names, vec!["x".to_string(), "y".to_string()]);
    hub.unregister(&b);
    assert_eq!(hub.group_names(), vec!["x".to_string()]);
}

#[test]
fn frame_format_is_fixed_by_the_handshake() {
    assert!(check_frame_format(WebSocketFrameFormat::TextJson, WebSocketFrameFormat::TextJson).is_none());
    match check_frame_format(WebSocketFrameFormat::BinaryMessagePack, WebSocketFrameFormat::TextJson) {
        Some(ServerMessage::Error { code, .. }) => assert_eq!(code, "frame_format_mismatch"),
        _ => panic!("expected a mismatch error"),
    }
    assert_eq!(server_subprotocols(), vec!["chs.v1.msgpack", "msgpack", "chs.v1.json", "json"]);
}

#[test]
fn direct_to_malformed_connection_id_is_refused() {
    let mut hub = HubState::new();
    let (a, _) = hub.register(None);
    hub.insert_peer("has space".to_string(), None);
    match hub.process_client_message(
        &a,
        ClientMessage::Direct { to_connection_id: "has space".into(), event: "e".into(), payload: payload() },
        "t".into(),
    ) {
        SessionAction::Reply(ServerMessage::Error { code, .. }) => assert_eq!(code, "connection_not_found"),
        _ => panic!("expected error"),
    }
    match hub.process_client_message(
        &a,
        ClientMessage::Direct { to_connection_id: a.clone(), event: "bad event".into(), payload: payload() },
        "t".into(),
    ) {
        SessionAction::Reply(ServerMessage::Error { code, .. }) => assert_eq!(code, "invalid_event"),
        _ => panic!("expected error"),
    }
}

#[test]
fn mismatched_frame_closes_and_unregisters_without_processing() {
    let mut hub = HubState::new();
    let (a, _) = hub.register(None);
    hub.join_group(&a, "room").unwrap();
    let step = hub.session_step(
        &a,
        WebSocketFrameFormat::BinaryMessagePack,
        SessionFrame::Data {
            format: WebSocketFrameFormat::TextJson,
            decoded: Ok(ClientMessage::Join { group: "other".to_string() }),
        },
        "t".to_string(),
    );
    match step {
        SessionStep::CloseWith(ServerMessage::Error { code, message }) => {
            assert_eq!(code, "frame_format_mismatch");
            assert_eq!(message, "frame format does not match the negotiated subprotocol");
        }
        _ => panic!("expected the connection to be closed with an error"),
    }
    assert!(!hub.has_peer(&a));
    assert_eq!(hub.group_count(), 0);
}

#[test]
fn matching_frame_is_processed() {
    let mut hub = HubState::new();
    let (a, _) = hub.register(None);
    let step = hub.session_step(
        &a,
        WebSocketFrameFormat::TextJson,
        SessionFrame::Data {
            format: WebSocketFrameFormat::TextJson,
            decoded: Ok(ClientMessage::Join { group: "room".to_string() }),
        },
        "t".to_string(),
    );
    match step {
        SessionStep::Act(SessionAction::Reply(ServerMessage::Joined { group })) => assert_eq!(group, "room"),
        _ => panic!("expected a joined reply"),
    }
    assert_eq!(hub.group_member_count("room"), 1);
}

#[test]
fn undecodable_frame_is_answered_with_its_error() {
    let mut hub = HubState::new();
    let (a, _) = hub.register(None);
    let step = hub.session_step(
        &a,
        WebSocketFrameFormat::BinaryMessagePack,
        SessionFrame::Data { format: WebSocketFrameFormat::BinaryMessagePack, decoded: Err("bad".to_string()) },
        "t".to_string(),
    );
    match step {
        SessionStep::Act(SessionAction::Reply(ServerMessage::Error { code, message })) => {
            assert_eq!(code, "invalid_binary");
            assert_eq!(message, "Failed to parse MessagePack frame: bad");
        }
        _ => panic!("expected a decoding error"),
    }
    assert!(hub.has_peer(&a));
    match decode_error_message(WebSocketFrameFormat::TextJson, "eof") {
        ServerMessage::Error { code, message } => {
            assert_eq!(code, "invalid_json");
            assert_eq!(message, "Failed to parse JSON message: eof");
        }
        _ => panic!("expected an error message"),
    }
}

#[test]
fn control_frames_are_ignored_and_end_unregisters() {
    let mut hub = HubState::new();
    let (a, _) = hub.register(None);
    hub.join_group(&a, "room").unwrap();
    assert!(matches!(
        hub.session_step(&a, WebSocketFrameFormat::TextJson, SessionFrame::Control, "t".to_string()),
        SessionStep::Ignore
    ));
    assert!(hub.has_peer(&a));
    assert!(matches!(
        hub.session_step(&a, WebSocketFrameFormat::TextJson, SessionFrame::End, "t".to_string()),
        SessionStep::Close
    ));
    assert!(!hub.has_peer(&a));
    assert_eq!(hub.group_member_count("room"), 0);
}

#[test]
fn session_user_requires_a_user_unless_no_auth() {
    let user = auth_user("alice");
    assert!(matches!(session_user(WebSocketAuthMode::NoAuth, None), Ok(None)));
    assert_eq!(session_user(WebSocketAuthMode::NoAuth, Some(user.clone())).unwrap().unwrap().user.username, "alice");
    assert_eq!(session_user(WebSocketAuthMode::Jwt, Some(user)).unwrap().unwrap().user.username, "alice");
    assert_eq!(session_user(WebSocketAuthMode::ApiKey, None).unwrap_err(), UpgradeRefusal::MissingAuthHeader);
    assert_eq!(session_user(WebSocketAuthMode::Basic, None).unwrap_err(), UpgradeRefusal::MissingAuthHeader);
}

#[test]
fn inspection_lists_groups_and_connections() {
    let mut hub = HubState::new();
    let (a, _) = hub.register(Some(auth_user("alice")));
    let (b, _) = hub.register(None);
    hub.join_group(&a, "x").unwrap();
    hub.join_group(&b, "x").unwrap();
    hub.join_group(&b, "y").unwrap();

    let snapshot = hub.inspect();
    assert_eq!(snapshot.total_connections, 2);
    assert_eq!(snapshot.total_groups, 2);
    let x = snapshot.groups.iter().find(|g| g.group == "x").unwrap();
    assert_eq!(x.member_count, 2);
    let mut members = x.members.clone();
    members.sort();
    let mut expected = vec![a.clone(), b.clone()];
    expected.sort();
    assert_eq!(members, expected);
    let y = snapshot.groups.iter().find(|g| g.group == "y").unwrap();
    assert_eq!(y.members, vec![b.clone()]);

    let alice = snapshot.connections.iter().find(|c| c.connection_id == a).unwrap();
    assert_eq!(alice.actor.username, "alice");
    assert_eq!(alice.groups, vec!["x".to_string()]);
    let anonymous = snapshot.connections.iter().find(|c| c.connection_id == b).unwrap();
    assert_eq!(anonymous.actor.auth_type, "none");
    let mut groups = anonymous.groups.clone();
    groups.sort();
    assert_eq!(groups, vec!["x".to_string(), "y".to_string()]);
}

#[test]
fn delivery_to_a_connection_without_queue_sends_nothing() {
    let config = WebSocketHubConfig::new();
    let mut hub = HubState::new();
    let mut queues = OutboundQueues::new();
    let (a, mut a_rx) = connect(&mut hub, &mut queues, &config, None);
    let _ = a_rx.try_recv();
    let recipients = vec![a.clone(), "gone".to_string()];
    let error = queues.deliver(&recipients, ServerMessage::Pong { nonce: None }).unwrap_err();
    assert!(matches!(error, WebSocketError::ConnectionNotFound));
    assert!(a_rx.try_recv().is_err());

    assert!(matches!(
        queues.send_to("gone", ServerMessage::Pong { nonce: None }),
        Err(WebSocketError::ConnectionNotFound)
    ));
    assert_eq!(queues.deliver(&vec![a.clone()], ServerMessage::Pong { nonce: None }).unwrap(), 1);
    assert!(matches!(a_rx.try_recv().unwrap(), ServerMessage::Pong { nonce: None }));
}

#[test]
fn full_and_closed_queues_are_refused() {
    let config = WebSocketHubConfig::new().outbound_queue_capacity(1);
    let mut hub = HubState::new();
    let mut queues = OutboundQueues::new();
    let (a, _a_rx) = connect(&mut hub, &mut queues, &config, None);
    match queues.send_to(&a, ServerMessage::Pong { nonce: None }) {
        Err(WebSocketError::OutboundQueueFull { connection_id }) => assert_eq!(connection_id, a),
        _ => panic!("expected a full queue"),
    }
    let (b, b_rx) = connect(&mut hub, &mut queues, &config, None);
    drop(b_rx);
    assert!(matches!(
        queues.deliver(&vec![b.clone()], ServerMessage::Pong { nonce: None }),
        Err(WebSocketError::ConnectionNotFound)
    ));
    assert!(queues.has_queue(&b));
    queues.remove(&b);
    assert!(!queues.has_queue(&b));
}
