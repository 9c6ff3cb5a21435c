use lsp_core::sink::Logger;
use lsp_core::sink::Severity;

#[test]
fn each_severity_has_its_own_entry_point() {
    let mut sink = Logger::new();
    sink.info("all is well");
    sink.warning("this looks odd");
    sink.error("this went wrong");
    assert_eq!(sink.len(), 3);
    assert_eq!(sink.records[0].severity, Severity::Info);
    assert_eq!(sink.records[0].text, "all is well");
    assert_eq!(sink.records[1].severity, Severity::Warning);
    assert_eq!(sink.records[1].text, "this looks odd");
    assert_eq!(sink.records[2].severity, Severity::Error);
    assert_eq!(sink.records[2].text, "this went wrong");
}

#[test]
fn append_reports_success_and_stores_the_record() {
    let mut sink = Logger::new();
    let r = sink.append(Severity::Warning, "kept whole".to_owned());
    assert!(r.is_ok());
    assert_eq!(sink.len(), 1);
    assert_eq!(sink.records[0].text, "kept whole");
}

#[test]
fn many_interleaved_appends_lose_and_corrupt_nothing() {
    // Several tasks' worth of appends, interleaved: every record arrives
    // whole and the count is exact.
    let tasks = 4;
    let per_task = 25;
    let mut sink = Logger::new();
    for round in 0..per_task {
        for task in 0..tasks {
            sink.append(
                Severity::Info,
                format!("task {} message {}", task, round),
            )
            .unwrap();
        }
    }
    assert_eq!(sink.len(), tasks * per_task);
    for round in 0..per_task {
        for task in 0..tasks {
            let rec = &sink.records[round * tasks + task];
            assert_eq!(rec.text, format!("task {} message {}", task, round));
        }
    }
}

#[test]
fn severity_tags_render_as_the_log_shows_them() {
    assert_eq!(Severity::Info.tag(), "INFO");
    assert_eq!(Severity::Warning.tag(), "WARNING");
    assert_eq!(Severity::Error.tag(), "ERROR");
}
