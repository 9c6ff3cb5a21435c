use lsp_core::dispatch::DispatchOutcome;
use lsp_core::dispatch::Dispatcher;
use lsp_core::dispatch::RequestHandler;
use lsp_core::message::DecodeError;
use lsp_core::message::Message;
use lsp_core::requests::InitializeRequest;
use lsp_core::server::run_task;
use lsp_core::sink::Logger;
use lsp_core::sink::Severity;

fn registry() -> Dispatcher {
    let mut d = Dispatcher::new();
    d.register("initialize".to_owned());
    d
}

#[test]
fn unknown_method_is_unimplemented() {
    let mut sink = Logger::new();
    let o = run_task(
        br#"{"method":"foo/bar","params":{}}"#.to_vec(),
        &registry(),
        &mut sink,
    );
    assert!(matches!(o, DispatchOutcome::Unimplemented(m) if m == "foo/bar"));
    assert_eq!(sink.records.len(), 1);
    assert_eq!(sink.records[0].severity, Severity::Info);
    assert_eq!(sink.records[0].text, "Request type foo/bar is not yet implemented");
}

#[test]
fn missing_method_is_unrecognized() {
    let mut sink = Logger::new();
    let o = run_task(br#"{"params":{}}"#.to_vec(), &registry(), &mut sink);
    assert!(matches!(o, DispatchOutcome::Unrecognized));
    assert_eq!(sink.records.len(), 1);
    assert_eq!(sink.records[0].severity, Severity::Error);
    assert_eq!(sink.records[0].text, "Request type could not be recognized");
}

#[test]
fn non_string_method_is_unrecognized() {
    let mut sink = Logger::new();
    let o = run_task(br#"{"method":17}"#.to_vec(), &registry(), &mut sink);
    assert!(matches!(o, DispatchOutcome::Unrecognized));
}

#[test]
fn malformed_json_is_a_syntax_failure() {
    let mut sink = Logger::new();
    let o = run_task(br#"{"method":"#.to_vec(), &registry(), &mut sink);
    assert!(matches!(o, DispatchOutcome::DecodeFailed(DecodeError::Syntax)));
    assert_eq!(sink.records.len(), 1);
    assert_eq!(sink.records[0].severity, Severity::Error);
    assert_eq!(sink.records[0].text, "Error in parsing the request to json");
}

#[test]
fn invalid_utf8_is_an_encoding_failure() {
    let mut sink = Logger::new();
    let o = run_task(vec![0xff, 0xfe, 0x80], &registry(), &mut sink);
    assert!(matches!(o, DispatchOutcome::DecodeFailed(DecodeError::Encoding)));
    assert_eq!(sink.records.len(), 1);
    assert_eq!(sink.records[0].severity, Severity::Error);
    assert_eq!(sink.records[0].text, "Error in parsing request from bytes to string");
}

#[test]
fn initialize_is_handled() {
    let mut sink = Logger::new();
    let o = run_task(
        br#"{"method":"initialize","params":{"rootUri":"file:///x"}}"#.to_vec(),
        &registry(),
        &mut sink,
    );
    assert!(matches!(o, DispatchOutcome::Handled(m) if m == "initialize"));
    assert_eq!(sink.records.len(), 1);
    assert_eq!(sink.records[0].severity, Severity::Info);
    assert_eq!(sink.records[0].text, "Request type initialize received");
}

#[test]
fn initialize_payload_tolerates_absent_fields() {
    let msg = Message::decode(
        br#"{"method":"initialize","params":{"rootUri":"file:///x"}}"#.to_vec(),
    )
    .unwrap();
    let payload = InitializeRequest::from_params(&msg).unwrap();
    assert_eq!(payload.root_uri, Some("file:///x".to_owned()));
    assert_eq!(payload.process_id, None);
    assert!(payload.client_info.is_none());
    assert_eq!(payload.locale, None);
    assert_eq!(payload.root_path, None);
}

#[test]
fn initialize_payload_reads_every_field() {
    let body = br#"{"method":"initialize","params":{
        "processId": 42,
        "clientInfo": {"name": "editor", "version": "1.2"},
        "locale": "en-GB",
        "rootPath": "/tmp/project",
        "rootUri": "file:///tmp/project",
        "unknownExtra": [1, 2, 3]
    }}"#;
    let msg = Message::decode(body.to_vec()).unwrap();
    let payload = InitializeRequest::from_params(&msg).unwrap();
    assert_eq!(payload.process_id, Some(42));
    let ci = payload.client_info.unwrap();
    assert_eq!(ci.name, "editor");
    assert_eq!(ci.version, Some("1.2".to_owned()));
    assert_eq!(payload.locale, Some("en-GB".to_owned()));
    assert_eq!(payload.root_path, Some("/tmp/project".to_owned()));
    assert_eq!(payload.root_uri, Some("file:///tmp/project".to_owned()));
}

#[test]
fn wrong_field_type_is_a_payload_mismatch() {
    let mut sink = Logger::new();
    let o = run_task(
        br#"{"method":"initialize","params":{"processId":"not a number"}}"#.to_vec(),
        &registry(),
        &mut sink,
    );
    assert!(matches!(o, DispatchOutcome::PayloadMismatch));
    assert_eq!(sink.records.len(), 1);
    assert_eq!(sink.records[0].severity, Severity::Error);
    assert_eq!(sink.records[0].text, "Error in decoding the request params");
}

#[test]
fn missing_params_is_a_payload_mismatch() {
    let mut sink = Logger::new();
    let o = run_task(br#"{"method":"initialize"}"#.to_vec(), &registry(), &mut sink);
    assert!(matches!(o, DispatchOutcome::PayloadMismatch));
}

#[test]
fn client_info_without_name_is_a_payload_mismatch() {
    let msg = Message::decode(
        br#"{"method":"initialize","params":{"clientInfo":{"version":"1"}}}"#.to_vec(),
    )
    .unwrap();
    assert!(InitializeRequest::from_params(&msg).is_err());
}

#[test]
fn handler_reports_through_its_own_task() {
    let mut sink = Logger::new();
    let handler = RequestHandler::new(r#"{"method":"shutdown"}"#.to_owned());
    let o = handler.handle(&registry(), &mut sink);
    assert!(matches!(o, DispatchOutcome::Unimplemented(m) if m == "shutdown"));
    assert_eq!(sink.records.len(), 1);
}

#[test]
fn unregistered_registry_treats_initialize_as_unimplemented() {
    let mut sink = Logger::new();
    let empty = Dispatcher::new();
    let o = run_task(br#"{"method":"initialize","params":{}}"#.to_vec(), &empty, &mut sink);
    assert!(matches!(o, DispatchOutcome::Unimplemented(m) if m == "initialize"));
}
