use p2p_chat_server::codec::{parse_client_frame, serialize_server, ParseFault};
use p2p_chat_server::envelope::{ClientEnvelope, RouteKind, ServerEnvelope, UserInfo};
use p2p_chat_server::hub::Hub;
use p2p_chat_server::session::handle_frame;

#[test]
fn parses_register_frame() {
    let env = parse_client_frame(b"{\"type\":\"register\",\"display_name\":\"alice\"}").unwrap();
    match env {
        ClientEnvelope::Register { display_name } => assert_eq!(display_name, b"alice".to_vec()),
        _ => panic!("expected register"),
    }
}

#[test]
fn parses_members_in_any_order_with_whitespace() {
    let env =
        parse_client_frame(b" { \"display_name\" : \"bob\" , \"type\" : \"register\" } ").unwrap();
    match env {
        ClientEnvelope::Register { display_name } => assert_eq!(display_name, b"bob".to_vec()),
        _ => panic!("expected register"),
    }
    assert!(matches!(
        parse_client_frame(b"{\"type\":\"discover\"}").unwrap(),
        ClientEnvelope::Discover
    ));
}

#[test]
fn decodes_string_escapes() {
    let env = parse_client_frame(
        b"{\"type\":\"register\",\"display_name\":\"\\u0041\\n\\\"x\\\\\"}",
    )
    .unwrap();
    match env {
        ClientEnvelope::Register { display_name } => {
            assert_eq!(display_name, b"A\n\"x\\".to_vec())
        }
        _ => panic!("expected register"),
    }
}

#[test]
fn decodes_surrogate_pair_to_utf8() {
    let env = parse_client_frame(
        b"{\"type\":\"register\",\"display_name\":\"\\ud83d\\ude00\"}",
    )
    .unwrap();
    match env {
        ClientEnvelope::Register { display_name } => {
            assert_eq!(display_name, vec![0xF0, 0x9F, 0x98, 0x80])
        }
        _ => panic!("expected register"),
    }
}

#[test]
fn keeps_payload_bytes_verbatim() {
    let env = parse_client_frame(
        b"{\"type\":\"offer\",\"target_user_id\":\"B\",\"offer\": {  \"sdp\" : [1,2.5e3,true,null] }}",
    )
    .unwrap();
    match env {
        ClientEnvelope::Route { kind, target_user_id, payload } => {
            assert_eq!(kind, RouteKind::Offer);
            assert_eq!(target_user_id, b"B".to_vec());
            assert_eq!(payload, b"{  \"sdp\" : [1,2.5e3,true,null] }".to_vec());
        }
        _ => panic!("expected offer"),
    }
}

#[test]
fn parses_answer_and_ice_candidate() {
    match parse_client_frame(b"{\"type\":\"answer\",\"target_user_id\":\"B\",\"answer\":42}")
        .unwrap()
    {
        ClientEnvelope::Route { kind, payload, .. } => {
            assert_eq!(kind, RouteKind::Answer);
            assert_eq!(payload, b"42".to_vec());
        }
        _ => panic!("expected answer"),
    }
    match parse_client_frame(
        b"{\"type\":\"ice_candidate\",\"target_user_id\":\"B\",\"candidate\":\"c0\"}",
    )
    .unwrap()
    {
        ClientEnvelope::Route { kind, payload, .. } => {
            assert_eq!(kind, RouteKind::IceCandidate);
            assert_eq!(payload, b"\"c0\"".to_vec());
        }
        _ => panic!("expected ice candidate"),
    }
}

#[test]
fn ignores_unknown_members() {
    let env = parse_client_frame(
        b"{\"type\":\"register\",\"extra\":{\"deep\":[]},\"display_name\":\"a\"}",
    )
    .unwrap();
    assert!(matches!(env, ClientEnvelope::Register { .. }));
}

#[test]
fn rejects_malformed_frames_with_a_reason() {
    assert!(matches!(
        parse_client_frame(b"hello"),
        Err(ParseFault::MalformedJson)
    ));
    assert!(matches!(
        parse_client_frame(b""),
        Err(ParseFault::MalformedJson)
    ));
    assert!(matches!(
        parse_client_frame(b"{\"type\":\"register\""),
        Err(ParseFault::MalformedJson)
    ));
    assert!(matches!(
        parse_client_frame(b"{\"type\":\"nonsense\"}"),
        Err(ParseFault::UnknownType)
    ));
    assert!(matches!(
        parse_client_frame(b"{}"),
        Err(ParseFault::MissingType)
    ));
    assert!(matches!(
        parse_client_frame(b"{\"display_name\":\"a\"}"),
        Err(ParseFault::MissingType)
    ));
    assert!(matches!(
        parse_client_frame(b"{\"type\":\"register\"}"),
        Err(ParseFault::MissingField)
    ));
    assert!(matches!(
        parse_client_frame(b"{\"type\":\"offer\",\"target_user_id\":\"B\"}"),
        Err(ParseFault::MissingField)
    ));
    assert!(matches!(
        parse_client_frame(b"{\"type\":\"discover\"}x"),
        Err(ParseFault::MalformedJson)
    ));
    assert!(matches!(
        parse_client_frame(b"{\"type\":\"discover\",\"type\":\"discover\"}"),
        Err(ParseFault::MalformedJson)
    ));
    assert!(matches!(
        parse_client_frame(b"{\"type\":\"register\",\"display_name\":\"\\ud83d\"}"),
        Err(ParseFault::MalformedJson)
    ));
    assert!(matches!(
        parse_client_frame(b"{\"type\":\"register\",\"display_name\":\"\x01\"}"),
        Err(ParseFault::MalformedJson)
    ));
    assert!(matches!(
        parse_client_frame(b"{\"type\":\"offer\",\"target_user_id\":\"B\",\"offer\":01}"),
        Err(ParseFault::MalformedJson)
    ));
    assert!(matches!(
        parse_client_frame(b"{\"type\":\"offer\",\"target_user_id\":\"B\",\"offer\":tru}"),
        Err(ParseFault::MalformedJson)
    ));
}

#[test]
fn rejects_overdeep_nesting() {
    let mut frame = String::from("{\"type\":\"offer\",\"target_user_id\":\"B\",\"offer\":");
    frame.push_str(&"[".repeat(200));
    frame.push_str(&"]".repeat(200));
    frame.push('}');
    assert!(matches!(
        parse_client_frame(frame.as_bytes()),
        Err(ParseFault::MalformedJson)
    ));
    // moderate nesting is fine
    let mut ok = String::from("{\"type\":\"offer\",\"target_user_id\":\"B\",\"offer\":");
    ok.push_str(&"[".repeat(20));
    ok.push_str(&"]".repeat(20));
    ok.push('}');
    assert!(parse_client_frame(ok.as_bytes()).is_ok());
}

#[test]
fn serializes_each_envelope_exactly() {
    assert_eq!(
        serialize_server(&ServerEnvelope::Registered { user_id: b"A".to_vec() }),
        b"{\"type\":\"registered\",\"user_id\":\"A\"}".to_vec()
    );
    assert_eq!(
        serialize_server(&ServerEnvelope::UserList {
            users: vec![
                UserInfo { user_id: b"A".to_vec(), display_name: b"alice".to_vec() },
                UserInfo { user_id: b"B".to_vec(), display_name: b"bob".to_vec() },
            ]
        }),
        b"{\"type\":\"user_list\",\"users\":[{\"user_id\":\"A\",\"display_name\":\"alice\"},{\"user_id\":\"B\",\"display_name\":\"bob\"}]}"
            .to_vec()
    );
    assert_eq!(
        serialize_server(&ServerEnvelope::UserJoined {
            user_id: b"B".to_vec(),
            display_name: b"bob".to_vec(),
        }),
        b"{\"type\":\"user_joined\",\"user_id\":\"B\",\"display_name\":\"bob\"}".to_vec()
    );
    assert_eq!(
        serialize_server(&ServerEnvelope::UserLeft { user_id: b"B".to_vec() }),
        b"{\"type\":\"user_left\",\"user_id\":\"B\"}".to_vec()
    );
    assert_eq!(
        serialize_server(&ServerEnvelope::Routed {
            kind: RouteKind::Offer,
            from_user_id: b"A".to_vec(),
            payload: b"{\"sdp\":\"X\"}".to_vec(),
        }),
        b"{\"type\":\"offer\",\"from_user_id\":\"A\",\"offer\":{\"sdp\":\"X\"}}".to_vec()
    );
    assert_eq!(
        serialize_server(&ServerEnvelope::Routed {
            kind: RouteKind::Answer,
            from_user_id: b"A".to_vec(),
            payload: b"7".to_vec(),
        }),
        b"{\"type\":\"answer\",\"from_user_id\":\"A\",\"answer\":7}".to_vec()
    );
    assert_eq!(
        serialize_server(&ServerEnvelope::Routed {
            kind: RouteKind::IceCandidate,
            from_user_id: b"A".to_vec(),
            payload: b"null".to_vec(),
        }),
        b"{\"type\":\"ice_candidate\",\"from_user_id\":\"A\",\"candidate\":null}".to_vec()
    );
    assert_eq!(
        serialize_server(&ServerEnvelope::Error { message: b"Not registered".to_vec() }),
        b"{\"type\":\"error\",\"message\":\"Not registered\"}".to_vec()
    );
}

#[test]
fn serializer_escapes_string_content() {
    let bytes = serialize_server(&ServerEnvelope::UserJoined {
        user_id: b"A".to_vec(),
        display_name: b"a\"b\\c\nd\x01".to_vec(),
    });
    assert_eq!(
        bytes,
        b"{\"type\":\"user_joined\",\"user_id\":\"A\",\"display_name\":\"a\\\"b\\\\c\\nd\\u0001\"}"
            .to_vec()
    );
}

#[test]
fn wire_level_relay_is_byte_identical() {
    let mut hub = Hub::new();
    hub.attach(b"A".to_vec());
    hub.attach(b"B".to_vec());
    handle_frame(&mut hub, b"A", b"{\"type\":\"register\",\"display_name\":\"alice\"}");
    handle_frame(&mut hub, b"B", b"{\"type\":\"register\",\"display_name\":\"bob\"}");
    while hub.pop_outbox(b"A").is_some() {}
    while hub.pop_outbox(b"B").is_some() {}
    let payload = b"{ \"sdp\" : \"v=0 o=- 46117 2\" }";
    let mut frame = b"{\"type\":\"offer\",\"target_user_id\":\"B\",\"offer\":".to_vec();
    frame.extend_from_slice(payload);
    frame.push(b'}');
    handle_frame(&mut hub, b"A", &frame);
    let delivered = hub.pop_outbox(b"B").unwrap();
    let wire = serialize_server(&delivered);
    let mut expected = b"{\"type\":\"offer\",\"from_user_id\":\"A\",\"offer\":".to_vec();
    expected.extend_from_slice(payload);
    expected.push(b'}');
    assert_eq!(wire, expected);
}

#[test]
fn invalid_frame_is_answered_with_protocol_error() {
    let mut hub = Hub::new();
    hub.attach(b"A".to_vec());
    handle_frame(&mut hub, b"A", b"this is not json");
    match hub.pop_outbox(b"A").unwrap() {
        ServerEnvelope::Error { message } => {
            assert_eq!(message, b"Invalid message format: malformed JSON".to_vec());
            assert!(message.starts_with(b"Invalid message format: "));
        }
        _ => panic!("expected error"),
    }
    handle_frame(&mut hub, b"A", b"{\"type\":\"warp\"}");
    match hub.pop_outbox(b"A").unwrap() {
        ServerEnvelope::Error { message } => {
            assert_eq!(
                message,
                b"Invalid message format: unknown message type".to_vec()
            )
        }
        _ => panic!("expected error"),
    }
    handle_frame(&mut hub, b"A", b"{\"type\":\"register\"}");
    match hub.pop_outbox(b"A").unwrap() {
        ServerEnvelope::Error { message } => {
            assert_eq!(
                message,
                b"Invalid message format: missing required field".to_vec()
            )
        }
        _ => panic!("expected error"),
    }
    // the session survives: a later register still works
    handle_frame(&mut hub, b"A", b"{\"type\":\"register\",\"display_name\":\"a\"}");
    assert!(matches!(
        hub.pop_outbox(b"A").unwrap(),
        ServerEnvelope::Registered { .. }
    ));
}

#[test]
fn discover_before_register_is_rejected_via_frames() {
    let mut hub = Hub::new();
    hub.attach(b"C".to_vec());
    handle_frame(&mut hub, b"C", b"{\"type\":\"discover\"}");
    match hub.pop_outbox(b"C").unwrap() {
        ServerEnvelope::Error { message } => assert_eq!(message, b"Not registered".to_vec()),
        _ => panic!("expected error"),
    }
    assert!(hub.pop_outbox(b"C").is_none());
}
