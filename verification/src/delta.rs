//! The change of a signal row since the previous run: which row of the
//! previous run it is compared with, and how its status reads. The metric
//! values themselves are percentages and counts compared outside.
use crate::text::str_eq;
use crate::vocabulary::{Language, SignalKind};
use vstd::prelude::*;

verus! {

/// What identifies a row across runs: its signal, language and scope.
pub struct RowKey {
    pub kind: SignalKind,
    pub language: Language,
    pub workspace_root: String,
    pub path: Option<String>,
    pub package: Option<String>,
    pub file: Option<String>,
}

pub open spec fn opt_text(o: Option<String>) -> Option<Seq<char>> {
    match o {
        Some(s) => Some(s@),
        None => None,
    }
}

pub open spec fn key_view(k: RowKey) -> (SignalKind, Language, Seq<char>, Option<Seq<char>>, Option<Seq<char>>, Option<Seq<char>>) {
    (k.kind, k.language, k.workspace_root@, opt_text(k.path), opt_text(k.package), opt_text(k.file))
}

fn same_opt_text(a: &Option<String>, b: &Option<String>) -> (r: bool)
    ensures
        r == (opt_text(*a) == opt_text(*b)),
{
    match (a, b) {
        (Some(x), Some(y)) => str_eq(x.as_str(), y.as_str()),
        (None, None) => true,
        _ => false,
    }
}

/// Whether two rows are the same row of two runs.
pub fn same_row(a: &RowKey, b: &RowKey) -> (r: bool)
    ensures
        r == (key_view(*a) == key_view(*b)),
        r == (a.kind == b.kind && a.language == b.language && a.workspace_root@ == b.workspace_root@ && opt_text(
            a.path,
        ) == opt_text(b.path) && opt_text(a.package) == opt_text(b.package) && opt_text(a.file) == opt_text(
            b.file,
        )),
{
    proof {
        law_rows_match_on_every_field(*a, *b);
    }
    a.kind == b.kind && a.language == b.language && str_eq(a.workspace_root.as_str(), b.workspace_root.as_str())
        && same_opt_text(&a.path, &b.path) && same_opt_text(&a.package, &b.package) && same_opt_text(
        &a.file,
        &b.file,
    )
}

/// The row of the previous run that `current` is compared with: of the
/// previous rows with its key, the last one.
pub open spec fn previous_match(current: RowKey, previous: Seq<RowKey>) -> Option<int>
    decreases previous.len(),
{
    if previous.len() == 0 {
        None
    } else if key_view(previous.last()) == key_view(current) {
        Some(previous.len() - 1)
    } else {
        previous_match(current, previous.drop_last())
    }
}

pub fn find_previous_row(current: &RowKey, previous: &Vec<RowKey>) -> (r: Option<usize>)
    ensures
        match previous_match(*current, previous@) {
            Some(i) => r == Some(i as usize),
            None => r is None,
        },
        match r {
            Some(i) => i < previous@.len() && previous@[i as int].kind == current.kind && previous@[i as int].language
                == current.language && previous@[i as int].workspace_root@ == current.workspace_root@ && opt_text(
                previous@[i as int].path,
            ) == opt_text(current.path) && opt_text(previous@[i as int].package) == opt_text(current.package)
                && opt_text(previous@[i as int].file) == opt_text(current.file),
            None => forall|k: int|
                0 <= k < previous@.len() ==> !(previous@[k].kind == current.kind && previous@[k].language
                    == current.language && previous@[k].workspace_root@ == current.workspace_root@ && opt_text(
                    previous@[k].path,
                ) == opt_text(current.path) && opt_text(previous@[k].package) == opt_text(current.package)
                    && opt_text(previous@[k].file) == opt_text(current.file)),
        },
{
    proof {
        law_previous_row_has_the_same_key(*current, previous@);
    }
    let mut i: usize = previous.len();
    assert(previous@.take(i as int) =~= previous@);
    while i > 0
        invariant
            i <= previous@.len(),
            previous_match(*current, previous@) == previous_match(*current, previous@.take(i as int)),
        decreases i,
    {
        assert(previous@.take(i as int).drop_last() =~= previous@.take(i - 1));
        assert(previous@.take(i as int).last() == previous@[i - 1]);
        if same_row(&previous[i - 1], current) {
            return Some(i - 1);
        }
        i = i - 1;
    }
    None
}

/// How a row reads against the previous run.
#[derive(Clone, Copy, Debug, PartialEq, Eq, Structural)]
pub enum DeltaStatus {
    /// There is no previous run.
    NoPreviousRun,
    /// The previous run has no row with this key.
    NoPreviousTarget,
    /// The pass changed or some metric did.
    Changed,
    Unchanged,
}

impl DeltaStatus {
    pub fn as_str(&self) -> (r: &'static str) {
        match self {
            DeltaStatus::NoPreviousRun => "no_previous_run",
            DeltaStatus::NoPreviousTarget => "no_previous_target",
            DeltaStatus::Changed => "changed",
            DeltaStatus::Unchanged => "unchanged",
        }
    }
}

/// The status of a row: `previous_run` says whether there is a previous
/// run, `previous_pass` the pass of the matching previous row if there is
/// one, and `metrics_changed` whether some metric of the two rows differs.
pub fn delta_status(previous_run: bool, previous_pass: Option<bool>, current_pass: bool, metrics_changed: bool) -> (r: DeltaStatus)
    ensures
        r == (if !previous_run {
            DeltaStatus::NoPreviousRun
        } else {
            match previous_pass {
                None => DeltaStatus::NoPreviousTarget,
                Some(p) => if p != current_pass || metrics_changed {
                    DeltaStatus::Changed
                } else {
                    DeltaStatus::Unchanged
                },
            }
        }),
{
    if !previous_run {
        return DeltaStatus::NoPreviousRun;
    }
    match previous_pass {
        None => DeltaStatus::NoPreviousTarget,
        Some(p) => if p != current_pass || metrics_changed {
            DeltaStatus::Changed
        } else {
            DeltaStatus::Unchanged
        },
    }
}

/// Two rows are the same row of two runs exactly when they agree on the
/// signal, the language, the workspace root, the path, the package and the
/// file.
pub proof fn law_rows_match_on_every_field(a: RowKey, b: RowKey)
    ensures
        key_view(a) == key_view(b) <==> (a.kind == b.kind && a.language == b.language && a.workspace_root@
            == b.workspace_root@ && opt_text(a.path) == opt_text(b.path) && opt_text(a.package) == opt_text(
            b.package,
        ) && opt_text(a.file) == opt_text(b.file)),
{
}

/// The previous row a row is compared with has the same signal, language,
/// workspace root, path, package and file, and no later previous row does.
pub proof fn law_previous_row_has_the_same_key(current: RowKey, previous: Seq<RowKey>)
    ensures
        match previous_match(current, previous) {
            Some(i) => 0 <= i < previous.len() && previous[i].kind == current.kind && previous[i].language
                == current.language && previous[i].workspace_root@ == current.workspace_root@ && opt_text(
                previous[i].path,
            ) == opt_text(current.path) && opt_text(previous[i].package) == opt_text(current.package)
                && opt_text(previous[i].file) == opt_text(current.file),
            None => forall|k: int|
                0 <= k < previous.len() ==> !(previous[k].kind == current.kind && previous[k].language
                    == current.language && previous[k].workspace_root@ == current.workspace_root@ && opt_text(
                    previous[k].path,
                ) == opt_text(current.path) && opt_text(previous[k].package) == opt_text(current.package)
                    && opt_text(previous[k].file) == opt_text(current.file)),
        },
    decreases previous.len(),
{
    if previous.len() > 0 {
        law_previous_row_has_the_same_key(current, previous.drop_last());
        if key_view(previous.last()) != key_view(current) {
            if let Some(i) = previous_match(current, previous.drop_last()) {
                assert(previous.drop_last()[i] == previous[i]);
            } else {
                assert forall|k: int| 0 <= k < previous.len() implies !(previous[k].kind == current.kind
                    && previous[k].language == current.language && previous[k].workspace_root@
                    == current.workspace_root@ && opt_text(previous[k].path) == opt_text(current.path)
                    && opt_text(previous[k].package) == opt_text(current.package) && opt_text(previous[k].file)
                    == opt_text(current.file)) by {
                    if k < previous.len() - 1 {
                        assert(previous.drop_last()[k] == previous[k]);
                    }
                }
            }
        }
    }
}

} // verus!
