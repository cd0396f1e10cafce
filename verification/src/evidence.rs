//! The shapes of collected evidence: scopes, tool overrides, command
//! failures and test rows.
use crate::vocabulary::Language;
use vstd::prelude::*;

verus! {

/// The part of a repository that a run covers.
pub struct Scope {
    pub workspace_root: String,
    pub path: Option<String>,
    pub package: Option<String>,
    pub file: Option<String>,
}

/// A repository-configured replacement for an adapter's default command.
pub struct ToolOverride {
    pub command: String,
    pub args: Vec<String>,
}

/// Why an external command did not succeed.
pub struct CommandFailure {
    pub category: String,
    pub classification: String,
    pub command: String,
    pub cwd: String,
    pub exit_code: Option<i32>,
    pub message: String,
}

/// One failing test, or the failing test command as a whole.
pub struct TestFailure {
    pub file: Option<String>,
    pub line: Option<u64>,
    pub message: String,
    pub test_name: Option<String>,
}

/// The measured part of a test row.
pub struct TestResult {
    pub total_tests: u64,
    pub passed: u64,
    pub failed: u64,
    pub duration_ms: Option<u64>,
    pub runner: String,
    pub failure: Option<CommandFailure>,
}

/// The test evidence of one target.
pub struct TestRow {
    pub language: Language,
    pub scope: Scope,
    pub pass: bool,
    pub result: TestResult,
    pub offenders: Vec<TestFailure>,
}


/// How a path changed between two revisions.
#[derive(Clone, Copy, Debug, PartialEq, Eq, Structural)]
pub enum ChangeKind {
    Added,
    Modified,
    Deleted,
    Renamed,
    Copied,
    TypeChanged,
}

/// One changed path; renames and copies also carry their source path.
#[derive(Debug, PartialEq, Eq)]
pub struct ChangedPath {
    pub kind: ChangeKind,
    pub path: String,
    pub previous_path: Option<String>,
}

} // verus!
