use p2p_chat_server::assets::{asset_response, content_type_for, verify_embedded_assets, AssetResponse};
use p2p_chat_server::supervisor::{
    supervisor_step, SupervisorAction, SupervisorEvent, SupervisorState,
};

#[test]
fn content_types_follow_the_extension() {
    assert_eq!(content_type_for(b"app.js"), "application/javascript");
    assert_eq!(content_type_for(b"mod_bg.wasm"), "application/wasm");
    assert_eq!(content_type_for(b"index.html"), "text/html");
    assert_eq!(content_type_for(b"style.css"), "text/css");
    assert_eq!(content_type_for(b"logo.png"), "image/png");
    assert_eq!(content_type_for(b"photo.jpg"), "image/jpeg");
    assert_eq!(content_type_for(b"photo.jpeg"), "image/jpeg");
    assert_eq!(content_type_for(b"icon.svg"), "image/svg+xml");
    assert_eq!(content_type_for(b"data.json"), "application/json");
    assert_eq!(content_type_for(b"archive.tar.gz"), "application/octet-stream");
    assert_eq!(content_type_for(b"noextension"), "application/octet-stream");
    assert_eq!(content_type_for(b"dir.d/file.css"), "text/css");
}

#[test]
fn asset_response_carries_bytes_and_type() {
    match asset_response(Some(b"body".to_vec()), b"a.json") {
        AssetResponse::Asset { content, content_type } => {
            assert_eq!(content, b"body".to_vec());
            assert_eq!(content_type, "application/json");
        }
        AssetResponse::NotFound => panic!("expected asset"),
    }
    assert!(matches!(asset_response(None, b"a.json"), AssetResponse::NotFound));
}

#[test]
fn embedded_asset_check_requires_all_three_files() {
    let complete = vec![
        b"index.html".to_vec(),
        b"assets/p2p_chat_wasm.js".to_vec(),
        b"assets/p2p_chat_wasm_bg.wasm".to_vec(),
        b"assets/extra.css".to_vec(),
    ];
    assert!(verify_embedded_assets(&complete));
    let missing_wasm = vec![b"index.html".to_vec(), b"assets/p2p_chat_wasm.js".to_vec()];
    assert!(!verify_embedded_assets(&missing_wasm));
    assert!(!verify_embedded_assets(&vec![]));
}

#[test]
fn lifecycle_walks_through_its_states() {
    let (s, a) = supervisor_step(SupervisorState::Constructed, SupervisorEvent::StartRequested);
    assert_eq!(s, SupervisorState::Bound);
    assert_eq!(a, SupervisorAction::Bind);
    let (s, a) = supervisor_step(s, SupervisorEvent::BindSucceeded);
    assert_eq!(s, SupervisorState::Serving);
    assert_eq!(a, SupervisorAction::Serve);
    let (s, a) = supervisor_step(s, SupervisorEvent::StopRequested);
    assert_eq!(s, SupervisorState::Stopping);
    assert_eq!(a, SupervisorAction::CancelListener);
    let (s, a) = supervisor_step(s, SupervisorEvent::Halted);
    assert_eq!(s, SupervisorState::Stopped);
    assert_eq!(a, SupervisorAction::Idle);
}

#[test]
fn bind_failure_and_listener_error_are_fatal() {
    let (s, a) = supervisor_step(SupervisorState::Bound, SupervisorEvent::BindFailed);
    assert_eq!(s, SupervisorState::Stopped);
    assert_eq!(a, SupervisorAction::FailFatal);
    let (s, a) = supervisor_step(SupervisorState::Serving, SupervisorEvent::ListenerError);
    assert_eq!(s, SupervisorState::Stopped);
    assert_eq!(a, SupervisorAction::FailFatal);
}

#[test]
fn stop_after_stopped_is_a_no_op() {
    let (s, a) = supervisor_step(SupervisorState::Stopped, SupervisorEvent::StopRequested);
    assert_eq!(s, SupervisorState::Stopped);
    assert_eq!(a, SupervisorAction::Idle);
}
