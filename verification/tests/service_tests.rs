use mango_workspaces::service::{
    dispatch_command, dispatch_outcome, focused_client, get_focusing_client_command,
    get_tags_command, request_line, skips_line, watch_focusing_client_command, watch_tags_command,
    MangoClient, MangoService, ServiceError, ServiceErrorKind,
};

fn client(id: Option<u64>) -> MangoClient {
    MangoClient {
        id,
        title: Some("Terminal".into()),
        app_id: Some("foot".into()),
        monitor: "DP-1".into(),
        tags: vec![2],
        is_focused: true,
        is_urgent: false,
    }
}

#[test]
fn service_needs_the_signature_and_the_socket() {
    let err = MangoService::new(None, true).err().unwrap();
    assert_eq!(err, ServiceError::SignatureMissing);
    assert_eq!(err.message(), "MANGO_INSTANCE_SIGNATURE not set");
    assert_eq!(err.kind(), ServiceErrorKind::NotFound);

    let err = MangoService::new(Some("/run/mango.sock".into()), false).err().unwrap();
    assert_eq!(err.message(), "Mango socket not found: /run/mango.sock");
    assert_eq!(err.kind(), ServiceErrorKind::NotFound);

    let service = MangoService::new(Some("/run/mango.sock".into()), true).ok().unwrap();
    assert_eq!(service.socket_path(), "/run/mango.sock");
}

#[test]
fn builds_commands() {
    assert_eq!(get_tags_command("DP-1"), "get tags DP-1");
    assert_eq!(get_tags_command(""), "get tags ");
    assert_eq!(get_focusing_client_command(), "get focusing-client");
    assert_eq!(dispatch_command("view,3"), "dispatch view,3");
    assert_eq!(watch_tags_command("HDMI-A-1"), "watch tags HDMI-A-1");
    assert_eq!(watch_focusing_client_command(), "watch focusing-client");
    assert_eq!(request_line("get focusing-client"), "get focusing-client\n");
}

#[test]
fn dispatch_fails_when_the_answer_mentions_error() {
    assert_eq!(dispatch_outcome("ok"), Ok(()));
    assert_eq!(dispatch_outcome(""), Ok(()));
    let err = dispatch_outcome("error: no such tag").unwrap_err();
    assert_eq!(err, ServiceError::DispatchFailed("error: no such tag".into()));
    assert_eq!(err.message(), "Mango dispatch failed: error: no such tag");
    assert_eq!(err.kind(), ServiceErrorKind::Other);
    assert!(dispatch_outcome("{\"errors\":[]}").is_err());
    assert!(dispatch_outcome("Error").is_ok());
}

#[test]
fn focused_client_needs_an_id() {
    assert!(focused_client(client(None)).is_none());
    let c = focused_client(client(Some(4))).unwrap();
    assert_eq!(c.id, Some(4));
    assert_eq!(c.title.as_deref(), Some("Terminal"));
}

#[test]
fn blank_lines_are_skipped() {
    assert!(skips_line(""));
    assert!(skips_line("   "));
    assert!(!skips_line("{\"monitor\":\"DP-1\"}"));
}
