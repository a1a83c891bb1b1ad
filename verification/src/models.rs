//! Data model of the runner: repositories, scan functions, scan reports and
//! issues, as exchanged with the scheduler.

use vstd::prelude::*;

verus! {

/// A metric emitted by a scan function: an integer, a text or a boolean.
#[derive(Debug, Clone, PartialEq)]
pub enum MetricValue {
    Number(i64),
    Text(String),
    Boolean(bool),
}

/// A finding emitted by a scan function, back-referenced to its scan before
/// upload. The back-reference fields are absent while the issue still comes
/// straight from the result file.
#[derive(Debug, Clone, PartialEq)]
pub struct CodeIssue {
    pub name: String,
    pub severity: Option<String>,
    pub repository_id: Option<String>,
    pub function_id: Option<String>,
    pub scan_id: Option<String>,
}

/// The envelope used when uploading a batch of issues.
#[derive(Debug, Clone, PartialEq)]
pub struct MassIssues {
    pub issues: Vec<CodeIssue>,
}

/// A minimal scheduler response: an optional public identifier.
#[derive(Debug, Clone, PartialEq)]
pub struct GenericModel {
    pub public_id: Option<String>,
}

/// The report of running one scan function against one repository commit.
#[derive(Debug, Clone, PartialEq)]
pub struct Scan {
    pub function_id: String,
    pub repository_id: String,
    pub commit: GitCommit,
    pub has_failed: bool,
    pub logs: String,
    pub timing_ms: usize,
    pub results: Vec<ScanMetadata>,
}

/// One harvested metric of a scan, annotated with the declared description.
#[derive(Debug, Clone, PartialEq)]
pub struct ScanMetadata {
    pub key: String,
    pub description: String,
    pub value: MetricValue,
}

/// The execution environment of one stage.
#[derive(Debug, Clone, PartialEq)]
pub struct FunctionEnv {
    pub name: String,
    pub base_image: String,
    pub file_extension: String,
    pub executor: String,
    pub user: Option<String>,
}

/// What a scan function is allowed to reach while it runs.
#[derive(Debug, Clone, PartialEq)]
pub struct FunctionCapabilities {
    pub network: bool,
    pub filesystem: bool,
}

/// A scan recipe: an ordered list of stages plus the declared outputs.
#[derive(Debug, Clone, PartialEq)]
pub struct CodeFunction {
    pub public_id: String,
    pub name: String,
    pub capabilities: FunctionCapabilities,
    pub outputs: Vec<FunctionOutput>,
    pub stages: Vec<FunctionStage>,
}

/// One containerized execution step of a scan function.
#[derive(Debug, Clone, PartialEq)]
pub struct FunctionStage {
    pub environment: FunctionEnv,
    pub content: String,
}

/// A declared metric key together with its human description.
#[derive(Debug, Clone, PartialEq)]
pub struct FunctionOutput {
    pub key: String,
    pub description: String,
}

/// Repository metadata received from the scheduler.
#[derive(Debug, Clone, PartialEq)]
pub struct Repository {
    pub id: String,
    pub name: String,
    pub url: String,
    pub branch: Option<String>,
    pub directory: Option<String>,
}

/// The resolved tip of a repository after a sync.
#[derive(Debug, Clone, PartialEq)]
pub struct GitCommit {
    pub commit_id: String,
    pub message: Option<String>,
    pub branch: String,
}

/// The ghost image of a metric value.
pub enum MetricValueModel {
    Number(i64),
    Text(Seq<char>),
    Boolean(bool),
}

/// The ghost image of a commit.
pub struct GitCommitModel {
    pub commit_id: Seq<char>,
    pub message: Option<Seq<char>>,
    pub branch: Seq<char>,
}

/// The ghost image of one harvested metric.
pub struct ScanMetadataModel {
    pub key: Seq<char>,
    pub description: Seq<char>,
    pub value: MetricValueModel,
}

/// The ghost image of a scan report.
pub struct ScanModel {
    pub function_id: Seq<char>,
    pub repository_id: Seq<char>,
    pub commit: GitCommitModel,
    pub has_failed: bool,
    pub logs: Seq<char>,
    pub timing_ms: usize,
    pub results: Seq<ScanMetadataModel>,
}

/// The ghost image of an issue.
pub struct CodeIssueModel {
    pub name: Seq<char>,
    pub severity: Option<Seq<char>>,
    pub repository_id: Option<Seq<char>>,
    pub function_id: Option<Seq<char>>,
    pub scan_id: Option<Seq<char>>,
}

impl View for CodeIssue {
    type V = CodeIssueModel;

    open spec fn view(&self) -> CodeIssueModel {
        CodeIssueModel {
            name: self.name@,
            severity: match self.severity {
                Some(s) => Some(s@),
                None => None,
            },
            repository_id: match self.repository_id {
                Some(s) => Some(s@),
                None => None,
            },
            function_id: match self.function_id {
                Some(s) => Some(s@),
                None => None,
            },
            scan_id: match self.scan_id {
                Some(s) => Some(s@),
                None => None,
            },
        }
    }
}

impl View for MassIssues {
    type V = Seq<CodeIssueModel>;

    open spec fn view(&self) -> Seq<CodeIssueModel> {
        self.issues@.map_values(|i: CodeIssue| i@)
    }
}

impl View for MetricValue {
    type V = MetricValueModel;

    open spec fn view(&self) -> MetricValueModel {
        match self {
            MetricValue::Number(n) => MetricValueModel::Number(*n),
            MetricValue::Text(t) => MetricValueModel::Text(t@),
            MetricValue::Boolean(b) => MetricValueModel::Boolean(*b),
        }
    }
}

impl View for GitCommit {
    type V = GitCommitModel;

    open spec fn view(&self) -> GitCommitModel {
        GitCommitModel {
            commit_id: self.commit_id@,
            message: match self.message {
                Some(m) => Some(m@),
                None => None,
            },
            branch: self.branch@,
        }
    }
}

impl View for ScanMetadata {
    type V = ScanMetadataModel;

    open spec fn view(&self) -> ScanMetadataModel {
        ScanMetadataModel {
            key: self.key@,
            description: self.description@,
            value: self.value@,
        }
    }
}

impl View for Scan {
    type V = ScanModel;

    open spec fn view(&self) -> ScanModel {
        ScanModel {
            function_id: self.function_id@,
            repository_id: self.repository_id@,
            commit: self.commit@,
            has_failed: self.has_failed,
            logs: self.logs@,
            timing_ms: self.timing_ms,
            results: self.results@.map_values(|m: ScanMetadata| m@),
        }
    }
}

} // verus!
