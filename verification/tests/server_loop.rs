use lsp_core::dispatch::DispatchOutcome;
use lsp_core::dispatch::Dispatcher;
use lsp_core::frame::encode_frame;
use lsp_core::message::DecodeError;
use lsp_core::server::run_server;
use lsp_core::sink::Logger;
use lsp_core::sink::Severity;

fn registry() -> Dispatcher {
    let mut d = Dispatcher::new();
    d.register("initialize".to_owned());
    d
}

#[test]
fn loop_processes_frames_in_arrival_order() {
    let mut wire: Vec<u8> = Vec::new();
    wire.extend_from_slice(&encode_frame(br#"{"method":"initialize","params":{}}"#));
    wire.extend_from_slice(&encode_frame(br#"{"method":"foo/bar","params":{}}"#));
    let mut sink = Logger::new();
    let outcomes = run_server(&wire, &registry(), &mut sink);
    assert_eq!(outcomes.len(), 2);
    assert!(matches!(&outcomes[0], DispatchOutcome::Handled(m) if m == "initialize"));
    assert!(matches!(&outcomes[1], DispatchOutcome::Unimplemented(m) if m == "foo/bar"));
    assert_eq!(sink.records.len(), 2);
}

#[test]
fn loop_survives_a_malformed_body_and_reads_the_next_frame() {
    let mut wire: Vec<u8> = Vec::new();
    wire.extend_from_slice(&encode_frame(br#"{"method":"#));
    wire.extend_from_slice(&encode_frame(br#"{"method":"initialize","params":{}}"#));
    let mut sink = Logger::new();
    let outcomes = run_server(&wire, &registry(), &mut sink);
    assert_eq!(outcomes.len(), 2);
    assert!(matches!(outcomes[0], DispatchOutcome::DecodeFailed(DecodeError::Syntax)));
    assert!(matches!(&outcomes[1], DispatchOutcome::Handled(m) if m == "initialize"));
}

#[test]
fn loop_resynchronizes_after_a_corrupt_header() {
    let mut wire: Vec<u8> = b"this line is not a header\n".to_vec();
    wire.extend_from_slice(&encode_frame(br#"{"method":"initialize","params":{}}"#));
    let mut sink = Logger::new();
    let outcomes = run_server(&wire, &registry(), &mut sink);
    assert_eq!(outcomes.len(), 1);
    assert!(matches!(&outcomes[0], DispatchOutcome::Handled(m) if m == "initialize"));
    assert_eq!(sink.records.len(), 2);
    assert_eq!(sink.records[0].severity, Severity::Error);
    assert_eq!(sink.records[0].text, "Error in reading the request header");
    assert_eq!(sink.records[1].severity, Severity::Info);
}

#[test]
fn loop_reports_a_truncated_final_body() {
    let wire = b"Content-Length: 99\r\n\r\ntoo short".to_vec();
    let mut sink = Logger::new();
    let outcomes = run_server(&wire, &registry(), &mut sink);
    assert_eq!(outcomes.len(), 0);
    assert_eq!(sink.records.len(), 1);
    assert_eq!(sink.records[0].severity, Severity::Error);
    assert_eq!(sink.records[0].text, "Error in reading the request body");
}

#[test]
fn loop_on_an_empty_stream_does_nothing() {
    let mut sink = Logger::new();
    let outcomes = run_server(b"", &registry(), &mut sink);
    assert_eq!(outcomes.len(), 0);
    assert_eq!(sink.records.len(), 0);
}
