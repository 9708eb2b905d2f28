//! What is reported about a program besides the analysis itself.

use crate::ir::ids::FileId;
use vstd::prelude::*;

verus! {

/// How bad it is.
#[derive(Debug, Clone, Copy, PartialEq, Eq, Structural)]
pub enum DiagnosticSeverity {
    Error,
    Warning,
    Info,
}

/// One report.
#[derive(Debug)]
pub struct Diagnostic {
    pub severity: DiagnosticSeverity,
    pub file: Option<FileId>,
    pub line: u32,
    pub message: String,
    /// The stage that reports: `preprocess`, `parse` or `analysis`.
    pub stage: String,
}

/// The mathematical form of a [`Diagnostic`].
pub struct ReportV {
    pub severity: DiagnosticSeverity,
    pub file: Option<FileId>,
    pub line: u32,
    pub message: Seq<char>,
    pub stage: Seq<char>,
}

impl View for Diagnostic {
    type V = ReportV;

    open spec fn view(&self) -> ReportV {
        ReportV {
            severity: self.severity,
            file: self.file,
            line: self.line,
            message: self.message@,
            stage: self.stage@,
        }
    }
}

pub open spec fn reports_view(s: Seq<Diagnostic>) -> Seq<ReportV> {
    Seq::new(s.len(), |i: int| s[i]@)
}

/// Appends a report.
pub fn push_report(reports: &mut Vec<Diagnostic>, report: Diagnostic)
    ensures
        reports_view(final(reports)@) == reports_view(old(reports)@).push(report@),
{
    let ghost before = reports@;
    reports.push(report);
    assert(reports_view(reports@) =~= reports_view(before).push(report@));
}

} // verus!
