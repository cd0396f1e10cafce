//! Planning an analysis run and accounting for its completion: which
//! targets were expected, which ran, and what each issue says.
use crate::text::{
    chars_of, chars_replace, lemma_end_without_trailing_le, replace_char, string_from_chars,
    string_from_range, trim, trim_bounds, trim_end_char, trim_end_char_len,
};
use crate::vocabulary::{signal_kind_slug, spec_signal_slug, Checks, Language, SignalKind};
use vstd::prelude::*;

verus! {

broadcast use vstd::string::group_string_axioms;

/// Where a full check leaves its signals.
pub const SIGNALS_ARTIFACT: &'static str = ".ayni/last/signals.json";

/// Where a focused verification leaves its signals, apart from those of the
/// last full check.
pub const VERIFY_SIGNALS_ARTIFACT: &'static str = ".ayni/verify/last/signals.json";

/// The directory of the last full check's artifacts.
pub const ARTIFACTS_DIR: &'static str = ".ayni/last";

/// A configured root as a canonical relative path: trimmed, with `/`
/// separators, no trailing `/`, and `.` for the repository itself.
pub open spec fn spec_canonical_root(value: Seq<char>) -> Seq<char> {
    let normalized = trim_end_char(replace_char(trim(value), '\\', '/'), '/');
    if normalized.len() == 0 || normalized == "."@ {
        "."@
    } else {
        normalized
    }
}

pub fn canonicalize_relative_posix(value: &str) -> (r: String)
    ensures
        r@ == spec_canonical_root(value@),
{
    let v = chars_of(value);
    let (a, b) = trim_bounds(&v);
    let t = crate::text::sub_vec(&v, a, b);
    let w = chars_replace(&t, '\\', '/');
    let e = trim_end_char_len(&w, '/');
    proof {
        lemma_end_without_trailing_le(w@, '/', w@.len() as int);
    }
    let s = string_from_range(&w, 0, e);
    assert(s@ == trim_end_char(w@, '/'));
    if e == 0 || (e == 1 && w[0] == '.') {
        proof {
            if e == 1 {
                assert(s@ =~= seq!['.']);
                reveal_strlit(".");
            }
        }
        return String::from_str(".");
    }
    proof {
        reveal_strlit(".");
        if s@ == "."@ {
            assert(s@.len() == 1 && s@[0] == '.');
            assert(w@[0] == s@[0]);
        }
    }
    s
}

/// `normalize_configured_root`: a missing root is the repository itself.
pub open spec fn spec_normalize_root(root: Option<Seq<char>>) -> Seq<char> {
    match root {
        Some(r) => spec_canonical_root(r),
        None => "."@,
    }
}

pub fn normalize_configured_root(root: Option<&str>) -> (r: String)
    ensures
        r@ == spec_normalize_root(
            match root {
                Some(s) => Some(s@),
                None => None,
            },
        ),
{
    match root {
        Some(s) => canonicalize_relative_posix(s),
        None => String::from_str("."),
    }
}

/// The stage of a run at which a target dropped out.
#[derive(Clone, Copy, Debug, PartialEq, Eq, Structural)]
pub enum CompletionStage {
    Detection,
    Resolution,
    Selection,
    Scheduling,
    Collection,
}

pub open spec fn spec_stage_rank(stage: CompletionStage) -> u8 {
    match stage {
        CompletionStage::Detection => 0,
        CompletionStage::Resolution => 1,
        CompletionStage::Selection => 2,
        CompletionStage::Scheduling => 3,
        CompletionStage::Collection => 4,
    }
}

/// Stages in the order a run passes them.
pub fn stage_rank(stage: CompletionStage) -> (r: u8)
    ensures
        r == spec_stage_rank(stage),
{
    match stage {
        CompletionStage::Detection => 0,
        CompletionStage::Resolution => 1,
        CompletionStage::Selection => 2,
        CompletionStage::Scheduling => 3,
        CompletionStage::Collection => 4,
    }
}

/// Why a configured target did not complete.
pub struct CompletionIssue {
    pub language: Language,
    pub configured_root: String,
    pub stage: CompletionStage,
    pub message: String,
}

/// What a completion accounts for.
#[derive(Clone, Copy, Debug, PartialEq, Eq, Structural)]
pub enum CompletionScope {
    Repository,
    Requested,
}

#[derive(Clone, Copy, Debug, PartialEq, Eq, Structural)]
pub enum CompletionState {
    Complete,
    Incomplete,
}

/// How much of what a run was asked to do it did.
pub struct RunCompletion {
    pub scope: CompletionScope,
    pub state: CompletionState,
    pub expected_targets: u64,
    pub detected_targets: u64,
    pub completed_targets: u64,
    pub skipped_targets: u64,
    pub issues: Vec<CompletionIssue>,
}

/// A target a run will collect: its language, configured root and the
/// signals its policy enables.
pub struct AnalyzeTarget {
    pub language: Language,
    pub root: String,
    pub checks: Checks,
}

/// The targets of a run, how many were configured and detected, and the
/// issues of those that will not run.
pub struct AnalyzePlanning {
    pub targets: Vec<AnalyzeTarget>,
    pub expected_targets: u64,
    pub detected_targets: u64,
    pub issues: Vec<CompletionIssue>,
}

pub fn clone_issue(issue: &CompletionIssue) -> (r: CompletionIssue)
    ensures
        r == *issue,
{
    CompletionIssue {
        language: issue.language,
        configured_root: issue.configured_root.clone(),
        stage: issue.stage,
        message: issue.message.clone(),
    }
}

pub fn clone_issues(issues: &Vec<CompletionIssue>) -> (r: Vec<CompletionIssue>)
    ensures
        r@ == issues@,
{
    let mut out: Vec<CompletionIssue> = Vec::new();
    let mut i: usize = 0;
    while i < issues.len()
        invariant
            i <= issues@.len(),
            out@ == issues@.take(i as int),
        decreases issues@.len() - i,
    {
        out.push(clone_issue(&issues[i]));
        assert(issues@.take(i + 1) =~= issues@.take(i as int).push(issues@[i as int]));
        i = i + 1;
    }
    assert(issues@.take(issues@.len() as int) =~= issues@);
    out
}

impl AnalyzePlanning {
    /// The completion of a run in which `completed_targets` targets
    /// completed: the planned issues, then the additional ones; the run is
    /// complete when no expected target was skipped.
    pub fn completion(&self, scope: CompletionScope, completed_targets: u64, additional_issues: Vec<CompletionIssue>) -> (r: RunCompletion)
        requires
            completed_targets <= self.expected_targets,
        ensures
            r.scope == scope,
            r.issues@ == self.issues@ + additional_issues@,
            r.expected_targets == self.expected_targets,
            r.detected_targets == self.detected_targets,
            r.completed_targets == completed_targets,
            r.skipped_targets == self.expected_targets - completed_targets,
            r.state == (if r.skipped_targets == 0 {
                CompletionState::Complete
            } else {
                CompletionState::Incomplete
            }),
    {
        let mut issues = clone_issues(&self.issues);
        let mut more = additional_issues;
        issues.append(&mut more);
        let skipped_targets = self.expected_targets - completed_targets;
        RunCompletion {
            scope,
            state: if skipped_targets == 0 {
                CompletionState::Complete
            } else {
                CompletionState::Incomplete
            },
            expected_targets: self.expected_targets,
            detected_targets: self.detected_targets,
            completed_targets,
            skipped_targets,
            issues,
        }
    }

    /// One issue per runnable target, all at `stage` with `message`.
    pub fn runnable_failure_issues(&self, stage: CompletionStage, message: &str) -> (r: Vec<CompletionIssue>)
        ensures
            r@.len() == self.targets@.len(),
            forall|k: int| 0 <= k < r@.len() ==> (#[trigger] r@[k]).language == self.targets@[k].language
                && r@[k].configured_root@ == self.targets@[k].root@ && r@[k].stage == stage
                && r@[k].message@ == message@,
    {
        let mut out: Vec<CompletionIssue> = Vec::new();
        let mut i: usize = 0;
        while i < self.targets.len()
            invariant
                i <= self.targets@.len(),
                out@.len() == i,
                forall|k: int| 0 <= k < i ==> (#[trigger] out@[k]).language == self.targets@[k].language
                    && out@[k].configured_root@ == self.targets@[k].root@ && out@[k].stage == stage
                    && out@[k].message@ == message@,
            decreases self.targets@.len() - i,
        {
            out.push(
                CompletionIssue {
                    language: self.targets[i].language,
                    configured_root: self.targets[i].root.clone(),
                    stage,
                    message: String::from_str(message),
                },
            );
            i = i + 1;
        }
        out
    }
}

/// The identifier of one signal of one target: `language:root:signal`.
pub fn tool_id(language: Language, root: &str, kind: SignalKind) -> (r: String)
    ensures
        r@ == language.spec_name() + ":"@ + root@ + ":"@ + spec_signal_slug(kind),
{
    let mut out = String::from_str(language.as_str());
    out.append(":");
    out.append(root);
    out.append(":");
    out.append(signal_kind_slug(kind));
    out
}

/// The rows of each target's slot, in slot order; the first failure stops
/// the run: a target's error, or, once the run was aborted, a slot that
/// never filled.
pub open spec fn flattened<R>(slots: Seq<Option<Result<Vec<R>, String>>>, aborted: bool) -> Result<Seq<R>, Seq<char>>
    decreases slots.len(),
{
    if slots.len() == 0 {
        Ok(seq![])
    } else {
        match flattened(slots.drop_last(), aborted) {
            Err(e) => Err(e),
            Ok(rows) => match slots.last() {
                Some(Ok(more)) => Ok(rows + more@),
                Some(Err(e)) => Err(e@),
                None => if aborted {
                    Err("operation aborted"@)
                } else {
                    Ok(rows)
                },
            },
        }
    }
}

pub fn flatten_target_results<R>(slots: Vec<Option<Result<Vec<R>, String>>>, aborted: bool) -> (r: Result<Vec<R>, String>)
    ensures
        match flattened(slots@, aborted) {
            Ok(rows) => r matches Ok(v) && v@ == rows,
            Err(e) => r matches Err(m) && m@ == e,
        },
{
    let ghost all = slots@;
    let n = slots.len();
    let mut rest = slots;
    let mut rows: Vec<R> = Vec::new();
    let mut first_error: Option<String> = None;
    let mut i: usize = 0;
    while rest.len() > 0
        invariant
            n == all.len(),
            i <= all.len(),
            rest@ == all.skip(i as int),
            match flattened(all.take(i as int), aborted) {
                Ok(rs) => first_error is None && rows@ == rs,
                Err(e) => first_error matches Some(m) && m@ == e,
            },
        decreases rest@.len(),
    {
        let slot = rest.remove(0);
        proof {
            assert(slot == all[i as int]);
            assert(all.take(i + 1).drop_last() =~= all.take(i as int));
            assert(all.take(i + 1).last() == slot);
        }
        match slot {
            Some(Ok(target_rows)) => {
                if first_error.is_none() {
                    let mut more = target_rows;
                    rows.append(&mut more);
                }
            },
            Some(Err(error)) => {
                if first_error.is_none() {
                    first_error = Some(error);
                }
            },
            None => {
                if first_error.is_none() && aborted {
                    first_error = Some(String::from_str("operation aborted"));
                }
            },
        }
        assert(rest@ =~= all.skip(i + 1));
        i = i + 1;
    }
    assert(all.take(i as int) =~= all);
    match first_error {
        Some(error) => Err(error),
        None => Ok(rows),
    }
}

} // verus!
