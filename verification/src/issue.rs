//! Diagnostics, and the form in which they are reported.
use vstd::prelude::*;
use vstd::string::*;

verus! {

/// What a diagnostic is about.
#[derive(Clone, Copy, PartialEq, Eq, Structural, Debug, Hash)]
pub enum IssueKind {
    ImpossibleTypeComparison,
    RedundantTypeComparison,
    ImpossibleTruthinessCheck,
    RedundantTruthinessCheck,
    ImpossibleIssetCheck,
    RedundantIssetCheck,
}

/// The name of a kind of diagnostic.
pub open spec fn kind_name(kind: IssueKind) -> Seq<char> {
    match kind {
        IssueKind::ImpossibleTypeComparison => "ImpossibleTypeComparison"@,
        IssueKind::RedundantTypeComparison => "RedundantTypeComparison"@,
        IssueKind::ImpossibleTruthinessCheck => "ImpossibleTruthinessCheck"@,
        IssueKind::RedundantTruthinessCheck => "RedundantTruthinessCheck"@,
        IssueKind::ImpossibleIssetCheck => "ImpossibleIssetCheck"@,
        IssueKind::RedundantIssetCheck => "RedundantIssetCheck"@,
    }
}

impl IssueKind {
    /// The name of the kind.
    pub fn to_string(&self) -> (r: String)
        ensures
            r@ == kind_name(*self),
    {
        match self {
            IssueKind::ImpossibleTypeComparison => String::from_str("ImpossibleTypeComparison"),
            IssueKind::RedundantTypeComparison => String::from_str("RedundantTypeComparison"),
            IssueKind::ImpossibleTruthinessCheck => String::from_str("ImpossibleTruthinessCheck"),
            IssueKind::RedundantTruthinessCheck => String::from_str("RedundantTruthinessCheck"),
            IssueKind::ImpossibleIssetCheck => String::from_str("ImpossibleIssetCheck"),
            IssueKind::RedundantIssetCheck => String::from_str("RedundantIssetCheck"),
        }
    }
}

/// A place in a source file.
#[derive(Clone, Debug, PartialEq, Eq)]
pub struct HPos {
    pub file_path: String,
    pub start_offset: usize,
    pub end_offset: usize,
    pub start_line: usize,
    pub end_line: usize,
    pub start_column: usize,
    pub end_column: usize,
}

/// A diagnostic.
#[derive(Clone, Debug, PartialEq, Eq)]
pub struct Issue {
    pub kind: IssueKind,
    pub description: String,
    pub pos: HPos,
}

/// A diagnostic as a checkpoint file lists it.
#[derive(Clone, Debug, PartialEq, Eq)]
pub struct CheckPointEntry {
    pub case: String,
    pub level: String,
    pub filename: String,
    pub line: usize,
    pub output: String,
}

impl CheckPointEntry {
    /// The entry for a diagnostic: a failure at the line where the
    /// diagnostic starts, named by the kind of the diagnostic.
    pub fn from_issue(issue: &Issue) -> (r: Self)
        ensures
            r.output@ == issue.description@,
            r.level@ == "failure"@,
            r.filename@ == issue.pos.file_path@,
            r.line == issue.pos.start_line,
            r.case@ == kind_name(issue.kind),
    {
        Self {
            output: issue.description.clone(),
            level: String::from_str("failure"),
            filename: issue.pos.file_path.clone(),
            line: issue.pos.start_line,
            case: issue.kind.to_string(),
        }
    }
}

/// The mathematical value of a [`HPos`].
pub struct HPosView {
    pub file_path: Seq<char>,
    pub start_offset: usize,
    pub end_offset: usize,
    pub start_line: usize,
    pub end_line: usize,
    pub start_column: usize,
    pub end_column: usize,
}

/// The mathematical value of an [`Issue`].
pub struct IssueView {
    pub kind: IssueKind,
    pub description: Seq<char>,
    pub pos: HPosView,
}

impl View for HPos {
    type V = HPosView;

    open spec fn view(&self) -> HPosView {
        HPosView {
            file_path: self.file_path@,
            start_offset: self.start_offset,
            end_offset: self.end_offset,
            start_line: self.start_line,
            end_line: self.end_line,
            start_column: self.start_column,
            end_column: self.end_column,
        }
    }
}

impl View for Issue {
    type V = IssueView;

    open spec fn view(&self) -> IssueView {
        IssueView { kind: self.kind, description: self.description@, pos: self.pos@ }
    }
}

/// The values of a list of diagnostics.
pub open spec fn issue_views(s: Seq<Issue>) -> Seq<IssueView> {
    s.map_values(|i: Issue| i@)
}

impl HPos {
    /// A copy of the place.
    pub fn duplicate(&self) -> (r: HPos)
        ensures
            r@ == self@,
    {
        HPos {
            file_path: self.file_path.clone(),
            start_offset: self.start_offset,
            end_offset: self.end_offset,
            start_line: self.start_line,
            end_line: self.end_line,
            start_column: self.start_column,
            end_column: self.end_column,
        }
    }
}

} // verus!
