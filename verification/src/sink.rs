//! The append-only sink of operational records.
//!
//! Request tasks report what happened to them here. The sink is the one
//! resource that many tasks share, so its whole interface is a single
//! `append`-style operation: one call adds exactly one record and never
//! disturbs the records already stored.

use vstd::prelude::*;

verus! {

/// How important a record is.
#[derive(Clone, Copy, Debug, PartialEq, Eq, Structural)]
pub enum Severity {
    Info,
    Warning,
    Error,
}

/// The tag a rendered log line shows for each severity.
pub open spec fn severity_label(s: Severity) -> Seq<char> {
    match s {
        Severity::Info => "INFO"@,
        Severity::Warning => "WARNING"@,
        Severity::Error => "ERROR"@,
    }
}

impl Severity {
    /// The tag a rendered log line shows for this severity.
    pub fn tag(&self) -> (r: &'static str)
        ensures
            r@ == severity_label(*self),
    {
        match self {
            Severity::Info => "INFO",
            Severity::Warning => "WARNING",
            Severity::Error => "ERROR",
        }
    }
}

/// The mathematical content of one record: its severity and its text.
pub ghost struct RecordModel {
    pub severity: Severity,
    pub text: Seq<char>,
}

/// One stored record. Records have no identity beyond their order of arrival.
#[derive(Debug, Clone)]
pub struct SinkRecord {
    pub severity: Severity,
    pub text: String,
}

impl View for SinkRecord {
    type V = RecordModel;

    open spec fn view(&self) -> RecordModel {
        RecordModel { severity: self.severity, text: self.text@ }
    }
}

/// Failure to store a record. Callers must treat it as non-fatal: a task
/// that cannot report still finishes. The in-memory sink below never
/// produces one.
#[derive(Debug, Clone, Copy, PartialEq, Eq, Structural)]
pub struct SinkError;

/// The in-memory sink. Its model is the sequence of records appended so
/// far, oldest first.
pub struct Logger {
    pub records: Vec<SinkRecord>,
}

impl View for Logger {
    type V = Seq<RecordModel>;

    open spec fn view(&self) -> Seq<RecordModel> {
        self.records@.map_values(|r: SinkRecord| r@)
    }
}

impl Logger {
    /// A sink holding no records yet.
    pub fn new() -> (s: Self)
        ensures
            s@ =~= Seq::<RecordModel>::empty(),
    {
        Logger { records: Vec::new() }
    }

    /// Append one record. Every record stored before stays exactly as it
    /// was; the new record arrives after all of them, uncorrupted.
    pub fn append(&mut self, severity: Severity, text: String) -> (r: Result<(), SinkError>)
        ensures
            r is Ok,
            final(self)@ =~= old(self)@.push(RecordModel { severity, text: text@ }),
    {
        self.records.push(SinkRecord { severity, text });
        Ok(())
    }

    /// Report a failure.
    pub fn error(&mut self, message: &str)
        ensures
            final(self)@ =~= old(self)@.push(
                RecordModel { severity: Severity::Error, text: message@ },
            ),
    {
        let _ = self.append(Severity::Error, message.to_owned());
    }

    /// Report something suspicious that stopped nothing.
    pub fn warning(&mut self, message: &str)
        ensures
            final(self)@ =~= old(self)@.push(
                RecordModel { severity: Severity::Warning, text: message@ },
            ),
    {
        let _ = self.append(Severity::Warning, message.to_owned());
    }

    /// Report ordinary progress.
    pub fn info(&mut self, message: &str)
        ensures
            final(self)@ =~= old(self)@.push(
                RecordModel { severity: Severity::Info, text: message@ },
            ),
    {
        let _ = self.append(Severity::Info, message.to_owned());
    }

    /// Append-integrity: one append adds exactly one record, whole, at
    /// the end, and every record already stored keeps its place and its
    /// content — so any number of appends, in whatever order they arrive,
    /// ends with exactly that many records and none corrupted.
    pub proof fn lemma_append_integrity(before: Seq<RecordModel>, rec: RecordModel)
        ensures
            before.push(rec).len() == before.len() + 1,
            forall|i: int| 0 <= i < before.len() ==> before.push(rec)[i] == before[i],
            before.push(rec)[before.len() as int] == rec,
    {
    }

    /// How many records have arrived.
    pub fn len(&self) -> (n: usize)
        ensures
            n == self@.len(),
    {
        self.records.len()
    }
}

} // verus!
