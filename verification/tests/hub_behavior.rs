use p2p_chat_server::envelope::{RouteKind, ServerEnvelope};
use p2p_chat_server::hub::Hub;

fn drain(hub: &mut Hub, id: &[u8]) -> Vec<ServerEnvelope> {
    let mut out = Vec::new();
    while let Some(e) = hub.pop_outbox(id) {
        out.push(e);
    }
    out
}

#[test]
fn register_emits_registered_then_roster() {
    let mut hub = Hub::new();
    assert!(hub.attach(b"A".to_vec()));
    assert!(hub.register(b"A", b"alice".to_vec()));
    let got = drain(&mut hub, b"A");
    assert_eq!(got.len(), 2);
    match &got[0] {
        ServerEnvelope::Registered { user_id } => assert_eq!(user_id, &b"A".to_vec()),
        _ => panic!("expected registered first"),
    }
    match &got[1] {
        ServerEnvelope::UserList { users } => {
            assert_eq!(users.len(), 1);
            assert_eq!(users[0].user_id, b"A".to_vec());
            assert_eq!(users[0].display_name, b"alice".to_vec());
        }
        _ => panic!("expected user_list second"),
    }
}

#[test]
fn second_peer_join_notifies_first_but_not_itself() {
    let mut hub = Hub::new();
    hub.attach(b"A".to_vec());
    hub.register(b"A", b"alice".to_vec());
    drain(&mut hub, b"A");
    hub.attach(b"B".to_vec());
    hub.register(b"B", b"bob".to_vec());
    let a_got = drain(&mut hub, b"A");
    assert_eq!(a_got.len(), 1);
    match &a_got[0] {
        ServerEnvelope::UserJoined { user_id, display_name } => {
            assert_eq!(user_id, &b"B".to_vec());
            assert_eq!(display_name, &b"bob".to_vec());
        }
        _ => panic!("expected user_joined for B"),
    }
    let b_got = drain(&mut hub, b"B");
    assert_eq!(b_got.len(), 2);
    assert!(matches!(&b_got[0], ServerEnvelope::Registered { .. }));
    match &b_got[1] {
        ServerEnvelope::UserList { users } => assert_eq!(users.len(), 2),
        _ => panic!("expected user_list"),
    }
    // no user_joined for B's own identity anywhere in B's outbox
    for e in &b_got {
        if let ServerEnvelope::UserJoined { user_id, .. } = e {
            assert_ne!(user_id, &b"B".to_vec());
        }
    }
}

#[test]
fn second_register_is_ignored() {
    let mut hub = Hub::new();
    hub.attach(b"A".to_vec());
    assert!(hub.register(b"A", b"alice".to_vec()));
    drain(&mut hub, b"A");
    assert!(!hub.register(b"A", b"again".to_vec()));
    assert!(drain(&mut hub, b"A").is_empty());
}

#[test]
fn directed_route_reaches_target_only() {
    let mut hub = Hub::new();
    hub.attach(b"A".to_vec());
    hub.register(b"A", b"alice".to_vec());
    hub.attach(b"B".to_vec());
    hub.register(b"B", b"bob".to_vec());
    drain(&mut hub, b"A");
    drain(&mut hub, b"B");
    hub.route(b"A", RouteKind::Offer, b"B", b"{\"sdp\":\"X\"}".to_vec());
    let b_got = drain(&mut hub, b"B");
    assert_eq!(b_got.len(), 1);
    match &b_got[0] {
        ServerEnvelope::Routed { kind, from_user_id, payload } => {
            assert_eq!(*kind, RouteKind::Offer);
            assert_eq!(from_user_id, &b"A".to_vec());
            assert_eq!(payload, &b"{\"sdp\":\"X\"}".to_vec());
        }
        _ => panic!("expected routed offer"),
    }
    assert!(drain(&mut hub, b"A").is_empty());
}

#[test]
fn missing_target_answers_error_to_caller() {
    let mut hub = Hub::new();
    hub.attach(b"A".to_vec());
    hub.register(b"A", b"alice".to_vec());
    hub.attach(b"B".to_vec());
    hub.register(b"B", b"bob".to_vec());
    drain(&mut hub, b"A");
    drain(&mut hub, b"B");
    hub.route(b"A", RouteKind::Offer, b"ghost", b"1".to_vec());
    let a_got = drain(&mut hub, b"A");
    assert_eq!(a_got.len(), 1);
    match &a_got[0] {
        ServerEnvelope::Error { message } => {
            assert_eq!(message, &b"Target user not found".to_vec())
        }
        _ => panic!("expected error"),
    }
    assert!(drain(&mut hub, b"B").is_empty());
}

#[test]
fn unregistered_peer_is_told_so() {
    let mut hub = Hub::new();
    hub.attach(b"C".to_vec());
    hub.discover(b"C");
    let c_got = drain(&mut hub, b"C");
    assert_eq!(c_got.len(), 1);
    match &c_got[0] {
        ServerEnvelope::Error { message } => assert_eq!(message, &b"Not registered".to_vec()),
        _ => panic!("expected error"),
    }
    hub.route(b"C", RouteKind::Answer, b"A", b"2".to_vec());
    let c_got = drain(&mut hub, b"C");
    assert_eq!(c_got.len(), 1);
    assert!(matches!(&c_got[0], ServerEnvelope::Error { .. }));
}

#[test]
fn detach_notifies_others_exactly_once() {
    let mut hub = Hub::new();
    hub.attach(b"A".to_vec());
    hub.register(b"A", b"alice".to_vec());
    hub.attach(b"B".to_vec());
    hub.register(b"B", b"bob".to_vec());
    drain(&mut hub, b"A");
    drain(&mut hub, b"B");
    hub.detach(b"B");
    let a_got = drain(&mut hub, b"A");
    assert_eq!(a_got.len(), 1);
    match &a_got[0] {
        ServerEnvelope::UserLeft { user_id } => assert_eq!(user_id, &b"B".to_vec()),
        _ => panic!("expected user_left"),
    }
    // idempotent: a second detach changes nothing
    hub.detach(b"B");
    assert!(drain(&mut hub, b"A").is_empty());
    // roster no longer holds B
    hub.discover(b"A");
    let a_got = drain(&mut hub, b"A");
    match &a_got[0] {
        ServerEnvelope::UserList { users } => {
            assert_eq!(users.len(), 1);
            assert_eq!(users[0].user_id, b"A".to_vec());
        }
        _ => panic!("expected user_list"),
    }
}

#[test]
fn detach_of_unregistered_peer_is_silent() {
    let mut hub = Hub::new();
    hub.attach(b"A".to_vec());
    hub.register(b"A", b"alice".to_vec());
    drain(&mut hub, b"A");
    hub.attach(b"C".to_vec());
    hub.detach(b"C");
    assert!(drain(&mut hub, b"A").is_empty());
}

#[test]
fn outbox_preserves_order() {
    let mut hub = Hub::new();
    hub.attach(b"A".to_vec());
    hub.register(b"A", b"alice".to_vec());
    hub.attach(b"B".to_vec());
    hub.register(b"B", b"bob".to_vec());
    drain(&mut hub, b"A");
    drain(&mut hub, b"B");
    for i in 0..5u8 {
        hub.route(b"A", RouteKind::IceCandidate, b"B", vec![48 + i]);
    }
    let b_got = drain(&mut hub, b"B");
    assert_eq!(b_got.len(), 5);
    for (i, e) in b_got.iter().enumerate() {
        match e {
            ServerEnvelope::Routed { payload, .. } => {
                assert_eq!(payload, &vec![48 + i as u8])
            }
            _ => panic!("expected routed"),
        }
    }
}

#[test]
fn saturated_outbox_drops_newest_and_isolates_others() {
    let mut hub = Hub::new();
    for id in [&b"A"[..], &b"B"[..], &b"C"[..]] {
        hub.attach(id.to_vec());
        hub.register(id, id.to_vec());
    }
    drain(&mut hub, b"A");
    drain(&mut hub, b"B");
    drain(&mut hub, b"C");
    // saturate B far beyond the outbox bound
    for _ in 0..150 {
        hub.route(b"A", RouteKind::Offer, b"B", b"0".to_vec());
    }
    // routing from A to C is unaffected by B's saturation
    hub.route(b"A", RouteKind::Answer, b"C", b"7".to_vec());
    let c_got = drain(&mut hub, b"C");
    assert_eq!(c_got.len(), 1);
    // B received exactly the outbox capacity; the newest were dropped
    // and counted
    assert_eq!(hub.dropped_count(b"B"), 50);
    assert_eq!(hub.dropped_count(b"C"), 0);
    let b_got = drain(&mut hub, b"B");
    assert_eq!(b_got.len(), 100);
    assert!(hub.pop_outbox(b"B").is_none());
}

#[test]
fn attach_of_live_identity_is_refused() {
    let mut hub = Hub::new();
    assert!(hub.attach(b"A".to_vec()));
    assert!(!hub.attach(b"A".to_vec()));
}
