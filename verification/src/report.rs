//! Diagnostics accumulated by the analyses.
//!
//! A report carries a severity, a stable code, a human-readable message and
//! source labels. A label points into the original source text by file id
//! and byte range; the preprocessor keeps those offsets valid.

use vstd::prelude::*;

verus! {

/// Index into the external file registry kept by the driver.
pub type FileID = usize;

/// A byte range `[start, end)` in the original text of a file.
pub type FileLocation = (usize, usize);

/// How severe a diagnostic is.
#[derive(PartialEq, Eq, Structural, Clone, Copy, Debug)]
pub enum Severity {
    Warning,
    Error,
}

/// Stable identifier of the rule that produced a report.
#[derive(PartialEq, Eq, Structural, Clone, Copy, Debug)]
pub enum ReportCode {
    UnusedVariableValue,
    UnusedParameterValue,
    VariableWithoutSideEffect,
    UnconstrainedSignal,
    UnclosedComment,
}

/// A source label: a byte range `[start, end)` in the original text of one
/// file, with a note shown beside it.
#[derive(Debug)]
pub struct ReportLabel {
    pub file_id: FileID,
    pub start: usize,
    pub end: usize,
    pub message: String,
}

/// Ghost image of a label, used by contracts.
#[verifier::ext_equal]
pub struct LabelView {
    pub file_id: FileID,
    pub start: usize,
    pub end: usize,
    pub message: Seq<char>,
}

impl View for ReportLabel {
    type V = LabelView;

    open spec fn view(&self) -> LabelView {
        LabelView {
            file_id: self.file_id,
            start: self.start,
            end: self.end,
            message: self.message@,
        }
    }
}

/// One diagnostic.
#[derive(Debug)]
pub struct Report {
    pub severity: Severity,
    pub code: ReportCode,
    pub message: String,
    pub primary: Vec<ReportLabel>,
    pub secondary: Vec<ReportLabel>,
}

/// Ghost image of a report, used by contracts.
#[verifier::ext_equal]
pub struct ReportView {
    pub severity: Severity,
    pub code: ReportCode,
    pub message: Seq<char>,
    pub primary: Seq<LabelView>,
    pub secondary: Seq<LabelView>,
}

impl View for Report {
    type V = ReportView;

    open spec fn view(&self) -> ReportView {
        ReportView {
            severity: self.severity,
            code: self.code,
            message: self.message@,
            primary: self.primary@.map_values(|l: ReportLabel| l@),
            secondary: self.secondary@.map_values(|l: ReportLabel| l@),
        }
    }
}

impl Report {
    /// A warning with no labels yet.
    pub fn warning(message: String, code: ReportCode) -> (r: Report)
        ensures
            r@ == (ReportView {
                severity: Severity::Warning,
                code,
                message: message@,
                primary: Seq::<LabelView>::empty(),
                secondary: Seq::<LabelView>::empty(),
            }),
    {
        let r = Report {
            severity: Severity::Warning,
            code,
            message,
            primary: Vec::new(),
            secondary: Vec::new(),
        };
        proof {
            assert(r.primary@.map_values(|l: ReportLabel| l@) =~= Seq::<LabelView>::empty());
            assert(r.secondary@.map_values(|l: ReportLabel| l@) =~= Seq::<LabelView>::empty());
        }
        r
    }

    /// An error with no labels yet.
    pub fn error(message: String, code: ReportCode) -> (r: Report)
        ensures
            r@ == (ReportView {
                severity: Severity::Error,
                code,
                message: message@,
                primary: Seq::<LabelView>::empty(),
                secondary: Seq::<LabelView>::empty(),
            }),
    {
        let r = Report {
            severity: Severity::Error,
            code,
            message,
            primary: Vec::new(),
            secondary: Vec::new(),
        };
        proof {
            assert(r.primary@.map_values(|l: ReportLabel| l@) =~= Seq::<LabelView>::empty());
            assert(r.secondary@.map_values(|l: ReportLabel| l@) =~= Seq::<LabelView>::empty());
        }
        r
    }

    /// Appends a primary label pointing at `[start, end)` in `file_id`.
    pub fn add_primary(&mut self, start: usize, end: usize, file_id: FileID, message: String)
        ensures
            final(self)@ == (ReportView {
                primary: old(self)@.primary.push(
                    LabelView { file_id, start, end, message: message@ },
                ),
                ..old(self)@
            }),
    {
        let label = ReportLabel { file_id, start, end, message };
        let ghost l = label@;
        self.primary.push(label);
        proof {
            assert(self.primary@.map_values(|x: ReportLabel| x@) =~= old(
                self,
            )@.primary.push(l));
        }
    }
}

/// The reports produced by one analysis run.
pub type ReportCollection = Vec<Report>;

} // verus!
