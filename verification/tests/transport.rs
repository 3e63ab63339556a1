use txrace::orchestrator::{validate_push_endpoint, RunError};
use txrace::transport::{resolve_transport, TransportKind};

#[test]
fn ws_address_resolves_to_persistent_socket() {
    let kind = resolve_transport("ws://127.0.0.1:8546");
    assert_eq!(kind, TransportKind::PersistentSocket);
    assert!(kind.supports_subscriptions());
}

#[test]
fn wss_address_resolves_to_persistent_socket() {
    let kind = resolve_transport("wss://node.example.com:443");
    assert_eq!(kind, TransportKind::PersistentSocket);
    assert!(kind.supports_subscriptions());
}

#[test]
fn http_address_resolves_to_request_only() {
    let kind = resolve_transport("http://127.0.0.1:8545");
    assert_eq!(kind, TransportKind::RequestOnly);
    assert!(!kind.supports_subscriptions());
}

#[test]
fn https_address_resolves_to_request_only() {
    let kind = resolve_transport("https://node.example.com");
    assert_eq!(kind, TransportKind::RequestOnly);
    assert!(!kind.supports_subscriptions());
}

#[test]
fn filesystem_path_resolves_to_local_socket() {
    let kind = resolve_transport("/var/run/geth.ipc");
    assert_eq!(kind, TransportKind::LocalSocket);
    assert!(kind.supports_subscriptions());
}

#[test]
fn other_scheme_resolves_to_local_socket() {
    let kind = resolve_transport("file:///var/run/geth.ipc");
    assert_eq!(kind, TransportKind::LocalSocket);
}

#[test]
fn push_endpoint_accepts_socket_addresses() {
    assert_eq!(
        validate_push_endpoint("ws://127.0.0.1:8546"),
        Ok(TransportKind::PersistentSocket)
    );
    assert_eq!(
        validate_push_endpoint("/var/run/reth.ipc"),
        Ok(TransportKind::LocalSocket)
    );
}

#[test]
fn push_endpoint_rejects_request_only_addresses() {
    assert_eq!(
        validate_push_endpoint("http://127.0.0.1:8545"),
        Err(RunError::PushUnsupported)
    );
    assert_eq!(
        validate_push_endpoint("https://node.example.com"),
        Err(RunError::PushUnsupported)
    );
}
