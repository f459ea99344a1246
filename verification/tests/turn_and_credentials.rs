use p2p_chat_server::credentials::SimpleAuthHandler;
use p2p_chat_server::session::open_session;
use p2p_chat_server::hub::Hub;
use p2p_chat_server::turn::{descriptor_json, TurnConfig, TurnConnectionDetails};

#[test]
fn descriptor_lists_udp_and_tcp_urls() {
    let config = TurnConfig {
        public_ip: "203.0.113.7".to_string(),
        port: 3478,
        realm: "example.org".to_string(),
        users: vec![("u".to_string(), "p".to_string())],
    };
    let d = config.connection_details();
    assert_eq!(d.urls, vec![
        "turn:203.0.113.7:3478".to_string(),
        "turn:203.0.113.7:3478?transport=tcp".to_string(),
    ]);
    assert_eq!(d.username, "u");
    assert_eq!(d.credential, "p");
}

#[test]
fn descriptor_json_matches_wire_format() {
    let config = TurnConfig {
        public_ip: "203.0.113.7".to_string(),
        port: 3478,
        realm: "example.org".to_string(),
        users: vec![("u".to_string(), "p".to_string())],
    };
    let body = descriptor_json(&config.connection_details());
    assert_eq!(
        body,
        b"{\"urls\":[\"turn:203.0.113.7:3478\",\"turn:203.0.113.7:3478?transport=tcp\"],\"username\":\"u\",\"credential\":\"p\"}"
            .to_vec()
    );
}

#[test]
fn descriptor_without_users_is_empty_credentials() {
    let config = TurnConfig {
        public_ip: "10.0.0.1".to_string(),
        port: 65535,
        realm: "r".to_string(),
        users: vec![],
    };
    let d = config.connection_details();
    assert_eq!(d.urls[0], "turn:10.0.0.1:65535");
    assert_eq!(d.username, "");
    assert_eq!(d.credential, "");
}

#[test]
fn default_config_carries_the_builtin_credential() {
    let config = TurnConfig::default();
    assert_eq!(config.public_ip, "0.0.0.0");
    assert_eq!(config.port, 3478);
    assert_eq!(config.realm, "coyote.technology");
    assert_eq!(config.users, vec![("p2pchat".to_string(), "p2pchat-password".to_string())]);
}

#[test]
fn stored_key_is_the_long_term_credential_digest() {
    let mut handler = SimpleAuthHandler::new();
    handler.add_credential("u".to_string(), "example.org".to_string(), "secret".to_string());
    let key = handler.lookup("u", "example.org", "198.51.100.1:40000").unwrap();
    let expected = webrtc_turn::auth::generate_auth_key("u", "example.org", "secret");
    assert_eq!(key, expected);
    assert_eq!(key.len(), 16);
}

#[test]
fn lookup_fails_for_unknown_pairs() {
    let mut handler = SimpleAuthHandler::new();
    handler.add_credential("u".to_string(), "r1".to_string(), "p".to_string());
    assert!(handler.lookup("u", "r2", "src").is_none());
    assert!(handler.lookup("v", "r1", "src").is_none());
    assert!(handler.lookup("u", "r1", "src").is_some());
}

#[test]
fn reinstall_replaces_the_key() {
    let mut handler = SimpleAuthHandler::new();
    handler.add_credential("u".to_string(), "r".to_string(), "old".to_string());
    handler.add_credential("u".to_string(), "r".to_string(), "new".to_string());
    let key = handler.lookup("u", "r", "src").unwrap();
    assert_eq!(key, webrtc_turn::auth::generate_auth_key("u", "r", "new"));
    assert_ne!(key, webrtc_turn::auth::generate_auth_key("u", "r", "old"));
}

#[test]
fn source_address_does_not_affect_lookup() {
    let mut handler = SimpleAuthHandler::new();
    handler.add_credential("u".to_string(), "r".to_string(), "p".to_string());
    let a = handler.lookup("u", "r", "192.0.2.1:1");
    let b = handler.lookup("u", "r", "198.51.100.9:65000");
    assert_eq!(a, b);
}

#[test]
fn open_session_attaches_a_fresh_identity() {
    let mut hub = Hub::new();
    let id = open_session(&mut hub).unwrap();
    assert_eq!(id.len(), 36);
    // the identity is live: registering under it works
    assert!(hub.register(&id, b"alice".to_vec()));
    // two sessions get distinct identities
    let id2 = open_session(&mut hub).unwrap();
    assert_ne!(id, id2);
}

#[test]
fn descriptor_fields_survive_construction() {
    let d = TurnConnectionDetails {
        urls: vec!["turn:h:1".to_string()],
        username: "user\"x".to_string(),
        credential: "p".to_string(),
    };
    // a quote in the username is escaped in the JSON body
    let body = descriptor_json(&d);
    assert_eq!(
        body,
        b"{\"urls\":[\"turn:h:1\"],\"username\":\"user\\\"x\",\"credential\":\"p\"}".to_vec()
    );
}
