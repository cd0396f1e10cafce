//! Selected checks: the work that an impact plan asks for, and the Rust
//! contribution to such a plan.
use crate::evidence::{ChangeKind, ChangedPath};
use crate::impact::{
    affected_packages, change_path_list, fold_impacts, name_set, path_in_target, reverse_closure,
    spec_path_in_target, Package, PackageImpact, UncertaintyKind,
};
use crate::order::{compare_text, lemma_text_lt_transitive, lemma_text_total, text_lt, TextOrder};
use crate::signals::concat;
use crate::text::{chars_end_with, chars_of, ends_with, string_views};
use crate::vocabulary::{Language, SignalKind};
use vstd::prelude::*;

verus! {

/// Why a check was selected.
#[derive(Clone, Copy, Debug, PartialEq, Eq, Structural)]
pub enum ImpactReasonKind {
    ChangedFile,
    PackageOwnership,
    ReverseDependency,
    ConservativeBroadening,
    ContractChanged,
    EnvironmentChanged,
    UnsupportedCapability,
}

/// How sure the plan is that a check covers the change.
#[derive(Clone, Copy, Debug, PartialEq, Eq, Structural)]
pub enum ImpactConfidence {
    Certain,
    High,
    Medium,
    Unknown,
}

/// A reason and its human-readable detail.
pub struct ImpactReason {
    pub kind: ImpactReasonKind,
    pub detail: String,
}

/// One check that a plan selects: a signal of a language at a configured
/// root, narrowed to a package or a file where that is enough.
pub struct SelectedCheck {
    pub language: Language,
    pub configured_root: String,
    pub package: Option<String>,
    pub file: Option<String>,
    pub signal: SignalKind,
    pub reasons: Vec<ImpactReason>,
    pub confidence: ImpactConfidence,
}

/// The value of a `SelectedCheck`.
pub struct CheckView {
    pub language: Language,
    pub configured_root: Seq<char>,
    pub package: Option<Seq<char>>,
    pub file: Option<Seq<char>>,
    pub signal: SignalKind,
    pub reasons: Seq<(ImpactReasonKind, Seq<char>)>,
    pub confidence: ImpactConfidence,
}

pub open spec fn opt_string_view(o: Option<String>) -> Option<Seq<char>> {
    match o {
        Some(s) => Some(s@),
        None => None,
    }
}

pub open spec fn reason_view(r: ImpactReason) -> (ImpactReasonKind, Seq<char>) {
    (r.kind, r.detail@)
}

impl View for SelectedCheck {
    type V = CheckView;

    open spec fn view(&self) -> CheckView {
        CheckView {
            language: self.language,
            configured_root: self.configured_root@,
            package: opt_string_view(self.package),
            file: opt_string_view(self.file),
            signal: self.signal,
            reasons: self.reasons@.map_values(|r: ImpactReason| reason_view(r)),
            confidence: self.confidence,
        }
    }
}

pub open spec fn check_views(s: Seq<SelectedCheck>) -> Seq<CheckView> {
    s.map_values(|c: SelectedCheck| c@)
}

/// Something the plan could not map precisely.
pub struct ImpactUncertainty {
    pub kind: UncertaintyKind,
    pub detail: String,
}

/// What one language adapter adds to a plan for one configured root.
pub struct ImpactContribution {
    pub language: Language,
    pub configured_root: String,
    pub selected_checks: Vec<SelectedCheck>,
    pub uncertainties: Vec<ImpactUncertainty>,
}

pub open spec fn uncertainty_views(s: Seq<ImpactUncertainty>) -> Seq<(UncertaintyKind, Seq<char>)> {
    s.map_values(|u: ImpactUncertainty| (u.kind, u.detail@))
}

/// The check of a whole configured root, for one reason.
pub open spec fn root_check(
    language: Language,
    configured_root: Seq<char>,
    signal: SignalKind,
    reason: (ImpactReasonKind, Seq<char>),
    confidence: ImpactConfidence,
) -> CheckView {
    CheckView {
        language,
        configured_root,
        package: None,
        file: None,
        signal,
        reasons: seq![reason],
        confidence,
    }
}

impl SelectedCheck {
    /// The check of a whole configured root, for one reason.
    pub fn root(
        language: Language,
        configured_root: String,
        signal: SignalKind,
        reason: ImpactReason,
        confidence: ImpactConfidence,
    ) -> (r: SelectedCheck)
        ensures
            r@ == root_check(language, configured_root@, signal, reason_view(reason), confidence),
    {
        let ghost rv = reason_view(reason);
        let mut reasons: Vec<ImpactReason> = Vec::new();
        reasons.push(reason);
        let r = SelectedCheck {
            language,
            configured_root,
            package: None,
            file: None,
            signal,
            reasons,
            confidence,
        };
        assert(r@.reasons =~= seq![rv]);
        r
    }
}

/// A Rust root check kept because the change cannot be narrowed.
pub open spec fn broadened(configured_root: Seq<char>, signal: SignalKind, detail: Seq<char>) -> CheckView {
    root_check(
        Language::Rust,
        configured_root,
        signal,
        (ImpactReasonKind::ConservativeBroadening, detail),
        ImpactConfidence::Medium,
    )
}

fn broaden_one(configured_root: &str, signal: SignalKind, detail: &str) -> (r: SelectedCheck)
    ensures
        r@ == broadened(configured_root@, signal, detail@),
{
    SelectedCheck::root(
        Language::Rust,
        String::from_str(configured_root),
        signal,
        ImpactReason { kind: ImpactReasonKind::ConservativeBroadening, detail: String::from_str(detail) },
        ImpactConfidence::Medium,
    )
}

pub open spec fn broadened_all(configured_root: Seq<char>, signals: Seq<SignalKind>, detail: Seq<char>) -> Seq<CheckView> {
    signals.map_values(|s: SignalKind| broadened(configured_root, s, detail))
}

/// The contribution of a change that cannot be narrowed: one uncertainty,
/// and every enabled signal at the configured root.
pub fn broad_contribution(
    configured_root: &str,
    signals: &Vec<SignalKind>,
    kind: UncertaintyKind,
    detail: String,
) -> (r: ImpactContribution)
    ensures
        r.language == Language::Rust,
        r.configured_root@ == configured_root@,
        uncertainty_views(r.uncertainties@) == seq![(kind, detail@)],
        check_views(r.selected_checks@) == broadened_all(configured_root@, signals@, detail@),
{
    let mut checks: Vec<SelectedCheck> = Vec::new();
    let mut i: usize = 0;
    while i < signals.len()
        invariant
            i <= signals@.len(),
            check_views(checks@) == broadened_all(configured_root@, signals@.take(i as int), detail@),
        decreases signals@.len() - i,
    {
        let c = broaden_one(configured_root, signals[i], detail.as_str());
        let ghost before = checks@;
        checks.push(c);
        assert(check_views(checks@) =~= check_views(before).push(c@));
        assert(broadened_all(configured_root@, signals@.take(i + 1), detail@) =~= broadened_all(
            configured_root@,
            signals@.take(i as int),
            detail@,
        ).push(broadened(configured_root@, signals@[i as int], detail@)));
        i = i + 1;
    }
    assert(signals@.take(signals@.len() as int) =~= signals@);
    let ghost d = detail@;
    let mut uncertainties: Vec<ImpactUncertainty> = Vec::new();
    uncertainties.push(ImpactUncertainty { kind, detail });
    assert(uncertainty_views(uncertainties@) =~= seq![(kind, d)]);
    ImpactContribution {
        language: Language::Rust,
        configured_root: String::from_str(configured_root),
        selected_checks: checks,
        uncertainties,
    }
}

/// The reason a package check is selected: the package owns changed source,
/// or it depends, directly or not, on a package that does.
pub open spec fn package_reason(package: Seq<char>, direct: bool) -> (ImpactReasonKind, Seq<char>) {
    if direct {
        (ImpactReasonKind::PackageOwnership, "changed source belongs to "@ + package)
    } else {
        (
            ImpactReasonKind::ReverseDependency,
            package + " transitively reverse-depends on a changed package"@,
        )
    }
}

fn make_package_reason(package: &str, direct: bool) -> (r: ImpactReason)
    ensures
        reason_view(r) == package_reason(package@, direct),
{
    if direct {
        ImpactReason {
            kind: ImpactReasonKind::PackageOwnership,
            detail: concat("changed source belongs to ", package),
        }
    } else {
        ImpactReason {
            kind: ImpactReasonKind::ReverseDependency,
            detail: concat(package, " transitively reverse-depends on a changed package"),
        }
    }
}

pub open spec fn package_check(configured_root: Seq<char>, package: Seq<char>, signal: SignalKind, direct: bool) -> CheckView {
    CheckView {
        language: Language::Rust,
        configured_root,
        package: Some(package),
        file: None,
        signal,
        reasons: seq![package_reason(package, direct)],
        confidence: ImpactConfidence::High,
    }
}

pub open spec fn root_comparable_detail() -> Seq<char> {
    "coverage and mutation require root-comparable execution"@
}

/// What one signal asks of a package in the closure: tests and dependency
/// rules run for the package; coverage and mutation only compare at the
/// configured root; size and complexity follow the changed files instead.
pub open spec fn package_signal_checks(
    configured_root: Seq<char>,
    package: Seq<char>,
    signal: SignalKind,
    direct: bool,
) -> Seq<CheckView> {
    match signal {
        SignalKind::Test | SignalKind::Deps => seq![package_check(configured_root, package, signal, direct)],
        SignalKind::Coverage | SignalKind::Mutation => seq![broadened(configured_root, signal, root_comparable_detail())],
        SignalKind::Size | SignalKind::Complexity => seq![],
    }
}

pub open spec fn package_checks(
    configured_root: Seq<char>,
    package: Seq<char>,
    signals: Seq<SignalKind>,
    direct: bool,
) -> Seq<CheckView>
    decreases signals.len(),
{
    if signals.len() == 0 {
        seq![]
    } else {
        package_checks(configured_root, package, signals.drop_last(), direct)
            + package_signal_checks(configured_root, package, signals.last(), direct)
    }
}

/// The package checks of each package of `order`, in turn.
pub open spec fn closure_checks(
    configured_root: Seq<char>,
    order: Seq<Seq<char>>,
    signals: Seq<SignalKind>,
    affected: Set<Seq<char>>,
) -> Seq<CheckView>
    decreases order.len(),
{
    if order.len() == 0 {
        seq![]
    } else {
        closure_checks(configured_root, order.drop_last(), signals, affected)
            + package_checks(configured_root, order.last(), signals, affected.contains(order.last()))
    }
}

/// Every name of `s` before every later one, in code-point order.
pub open spec fn strictly_sorted(s: Seq<Seq<char>>) -> bool {
    forall|i: int, j: int| 0 <= i < j < s.len() ==> text_lt(#[trigger] s[i], #[trigger] s[j])
}

/// Inserts `x` into a strictly sorted list unless it is there already.
pub(crate) fn insert_sorted(v: &mut Vec<String>, x: String)
    requires
        strictly_sorted(string_views(old(v)@)),
    ensures
        strictly_sorted(string_views(final(v)@)),
        string_views(final(v)@).to_set() == string_views(old(v)@).to_set().insert(x@),
{
    let n = v.len();
    let mut p: usize = 0;
    while p < n
        invariant
            p <= n,
            n == v@.len(),
            v@ == old(v)@,
            forall|k: int| 0 <= k < p ==> text_lt(#[trigger] string_views(v@)[k], x@),
        ensures
            p <= n,
            v@ == old(v)@,
            forall|k: int| 0 <= k < p ==> text_lt(#[trigger] string_views(v@)[k], x@),
            p < n ==> !text_lt(string_views(v@)[p as int], x@),
        decreases n - p,
    {
        if compare_text(v[p].as_str(), x.as_str()) != TextOrder::Before {
            break;
        }
        p = p + 1;
    }
    let ghost old_views = string_views(old(v)@);
    if p < n && compare_text(v[p].as_str(), x.as_str()) == TextOrder::Same {
        assert(old_views.to_set().insert(x@) =~= old_views.to_set()) by {
            assert(old_views[p as int] == x@);
        }
        return;
    }
    proof {
        if p < n {
            lemma_text_total(old_views[p as int], x@);
        }
    }
    let ghost xv = x@;
    v.insert(p, x);
    let ghost new_views = string_views(v@);
    assert(new_views =~= old_views.take(p as int) + seq![xv] + old_views.skip(p as int));
    assert forall|i: int, j: int| 0 <= i < j < new_views.len() implies text_lt(
        #[trigger] new_views[i],
        #[trigger] new_views[j],
    ) by {
        if j < p {
        } else if j == p {
        } else if i < p {
            assert(new_views[j] == old_views[j - 1]);
            if p < j - 1 {
                lemma_text_lt_transitive(old_views[i], old_views[p as int], old_views[j - 1]);
            }
        } else if i == p {
            assert(new_views[j] == old_views[j - 1]);
            if p < j - 1 {
                lemma_text_lt_transitive(xv, old_views[p as int], old_views[j - 1]);
            }
        } else {
            assert(new_views[i] == old_views[i - 1]);
            assert(new_views[j] == old_views[j - 1]);
        }
    }
    assert(new_views.to_set() =~= old_views.to_set().insert(xv)) by {
        assert forall|y: Seq<char>| new_views.to_set().contains(y) implies old_views.to_set().insert(xv).contains(y) by {
            let k = choose|k: int| 0 <= k < new_views.len() && new_views[k] == y;
            if k < p {
                assert(old_views[k] == y);
            } else if k > p {
                assert(old_views[k - 1] == y);
            }
        }
        assert forall|y: Seq<char>| old_views.to_set().insert(xv).contains(y) implies new_views.to_set().contains(y) by {
            if y == xv {
                assert(new_views[p as int] == y);
            } else {
                let k = choose|k: int| 0 <= k < old_views.len() && old_views[k] == y;
                if k < p {
                    assert(new_views[k] == y);
                } else {
                    assert(new_views[k + 1] == y);
                }
            }
        }
    }
}

/// The names of `v`, once each, in code-point order.
pub(crate) fn sorted_names(v: &Vec<String>) -> (r: Vec<String>)
    ensures
        strictly_sorted(string_views(r@)),
        string_views(r@).to_set() == string_views(v@).to_set(),
{
    let mut out: Vec<String> = Vec::new();
    let mut i: usize = 0;
    while i < v.len()
        invariant
            i <= v@.len(),
            strictly_sorted(string_views(out@)),
            string_views(out@).to_set() == string_views(v@.take(i as int)).to_set(),
        decreases v@.len() - i,
    {
        insert_sorted(&mut out, v[i].clone());
        proof {
            assert(string_views(v@.take(i + 1)) =~= string_views(v@.take(i as int)).push(v@[i as int]@));
            string_views(v@.take(i as int)).lemma_push_to_set_commute(v@[i as int]@);
        }
        i = i + 1;
    }
    assert(v@.take(v@.len() as int) =~= v@);
    out
}

fn contains_name(v: &Vec<String>, name: &str) -> (r: bool)
    ensures
        r == string_views(v@).contains(name@),
{
    let mut i: usize = 0;
    while i < v.len()
        invariant
            i <= v@.len(),
            forall|k: int| 0 <= k < i ==> string_views(v@)[k] != name@,
        decreases v@.len() - i,
    {
        if compare_text(v[i].as_str(), name) == TextOrder::Same {
            assert(string_views(v@)[i as int] == name@);
            return true;
        }
        i = i + 1;
    }
    false
}

fn package_checks_exec(
    configured_root: &str,
    package: &str,
    signals: &Vec<SignalKind>,
    direct: bool,
    out: &mut Vec<SelectedCheck>,
)
    ensures
        check_views(final(out)@) == check_views(old(out)@) + package_checks(configured_root@, package@, signals@, direct),
{
    let mut i: usize = 0;
    while i < signals.len()
        invariant
            i <= signals@.len(),
            check_views(out@) == check_views(old(out)@) + package_checks(configured_root@, package@, signals@.take(i as int), direct),
        decreases signals@.len() - i,
    {
        let signal = signals[i];
        let ghost before = check_views(out@);
        proof {
            assert(signals@.take(i + 1).drop_last() =~= signals@.take(i as int));
        }
        match signal {
            SignalKind::Test | SignalKind::Deps => {
                let mut reasons: Vec<ImpactReason> = Vec::new();
                reasons.push(make_package_reason(package, direct));
                let c = SelectedCheck {
                    language: Language::Rust,
                    configured_root: String::from_str(configured_root),
                    package: Some(String::from_str(package)),
                    file: None,
                    signal,
                    reasons,
                    confidence: ImpactConfidence::High,
                };
                assert(c@.reasons =~= seq![package_reason(package@, direct)]);
                let ghost cv = c@;
                out.push(c);
                assert(check_views(out@) =~= before.push(cv));
            },
            SignalKind::Coverage | SignalKind::Mutation => {
                let c = broaden_one(configured_root, signal, "coverage and mutation require root-comparable execution");
                let ghost cv = c@;
                out.push(c);
                assert(check_views(out@) =~= before.push(cv));
            },
            SignalKind::Size | SignalKind::Complexity => {
                assert(check_views(out@) =~= before);
            },
        }
        assert(check_views(out@) =~= check_views(old(out)@) + package_checks(configured_root@, package@, signals@.take(i + 1), direct));
        i = i + 1;
    }
    assert(signals@.take(signals@.len() as int) =~= signals@);
}

/// The package checks of every package in `order`, each marked direct when
/// it is one of the affected packages.
fn add_package_checks(
    configured_root: &str,
    order: &Vec<String>,
    signals: &Vec<SignalKind>,
    affected: &Vec<String>,
    out: &mut Vec<SelectedCheck>,
)
    ensures
        check_views(final(out)@) == check_views(old(out)@) + closure_checks(
            configured_root@,
            string_views(order@),
            signals@,
            name_set(affected@),
        ),
{
    let mut i: usize = 0;
    while i < order.len()
        invariant
            i <= order@.len(),
            check_views(out@) == check_views(old(out)@) + closure_checks(
                configured_root@,
                string_views(order@.take(i as int)),
                signals@,
                name_set(affected@),
            ),
        decreases order@.len() - i,
    {
        let direct = contains_name(affected, order[i].as_str());
        let ghost before = check_views(out@);
        package_checks_exec(configured_root, order[i].as_str(), signals, direct, out);
        proof {
            let o1 = string_views(order@.take(i + 1));
            assert(o1 =~= string_views(order@.take(i as int)).push(order@[i as int]@));
            assert(o1.drop_last() =~= string_views(order@.take(i as int)));
            assert(check_views(out@) =~= check_views(old(out)@) + closure_checks(
                configured_root@,
                o1,
                signals@,
                name_set(affected@),
            ));
        }
        i = i + 1;
    }
    assert(order@.take(order@.len() as int) =~= order@);
}


/// Whether a changed path is a Rust source file inside the configured root.
pub open spec fn rust_file_in_target(path: Seq<char>, configured_root: Seq<char>) -> bool {
    match spec_path_in_target(path, configured_root) {
        Some(local) => ends_with(local, ".rs"@),
        None => false,
    }
}

/// An added or modified path that is a regular file now can be checked on
/// its own.
pub open spec fn focusable(c: ChangedPath, is_file: bool) -> bool {
    (c.kind == ChangeKind::Added || c.kind == ChangeKind::Modified) && is_file
}

pub open spec fn file_check(configured_root: Seq<char>, path: Seq<char>, signal: SignalKind) -> CheckView {
    CheckView {
        language: Language::Rust,
        configured_root,
        package: None,
        file: Some(path),
        signal,
        reasons: seq![(ImpactReasonKind::ChangedFile, path + " changed"@)],
        confidence: ImpactConfidence::High,
    }
}

/// The size and complexity checks of one changed file, as far as enabled.
pub open spec fn focused_checks(configured_root: Seq<char>, signals: Seq<SignalKind>, path: Seq<char>) -> Seq<CheckView> {
    (if signals.contains(SignalKind::Size) {
        seq![file_check(configured_root, path, SignalKind::Size)]
    } else {
        seq![]
    }) + (if signals.contains(SignalKind::Complexity) {
        seq![file_check(configured_root, path, SignalKind::Complexity)]
    } else {
        seq![]
    })
}

pub open spec fn file_accounting_detail() -> Seq<char> {
    "deleted, renamed, copied, or type-changed Rust files require root accounting"@
}

/// Size and complexity, as far as enabled, at the configured root.
pub open spec fn broadened_file_checks(configured_root: Seq<char>, signals: Seq<SignalKind>) -> Seq<CheckView> {
    (if signals.contains(SignalKind::Size) {
        seq![broadened(configured_root, SignalKind::Size, file_accounting_detail())]
    } else {
        seq![]
    }) + (if signals.contains(SignalKind::Complexity) {
        seq![broadened(configured_root, SignalKind::Complexity, file_accounting_detail())]
    } else {
        seq![]
    })
}

/// The focused file checks of the first `n` changes.
pub open spec fn file_checks_upto(
    configured_root: Seq<char>,
    signals: Seq<SignalKind>,
    changes: Seq<ChangedPath>,
    files: Seq<bool>,
    n: int,
) -> Seq<CheckView>
    decreases n,
{
    if n <= 0 {
        seq![]
    } else {
        let c = changes[n - 1];
        file_checks_upto(configured_root, signals, changes, files, n - 1) + (if rust_file_in_target(c.path@, configured_root)
            && focusable(c, files[n - 1]) {
            focused_checks(configured_root, signals, c.path@)
        } else {
            seq![]
        })
    }
}

/// Some Rust file of the target changed in a way that one file's checks
/// cannot account for.
pub open spec fn needs_file_accounting(configured_root: Seq<char>, changes: Seq<ChangedPath>, files: Seq<bool>) -> bool {
    exists|i: int|
        0 <= i < changes.len() && rust_file_in_target(#[trigger] changes[i].path@, configured_root) && !focusable(
            changes[i],
            files[i],
        )
}

/// The file checks of a set of changes: each changed Rust file that can be
/// checked on its own gets its size and complexity checks; any other changed
/// Rust file sends size and complexity to the configured root.
pub open spec fn file_checks(
    configured_root: Seq<char>,
    signals: Seq<SignalKind>,
    changes: Seq<ChangedPath>,
    files: Seq<bool>,
) -> Seq<CheckView> {
    file_checks_upto(configured_root, signals, changes, files, changes.len() as int) + (if needs_file_accounting(
        configured_root,
        changes,
        files,
    ) {
        broadened_file_checks(configured_root, signals)
    } else {
        seq![]
    })
}

fn has_signal(signals: &Vec<SignalKind>, signal: SignalKind) -> (r: bool)
    ensures
        r == signals@.contains(signal),
{
    let mut i: usize = 0;
    while i < signals.len()
        invariant
            i <= signals@.len(),
            forall|k: int| 0 <= k < i ==> signals@[k] != signal,
        decreases signals@.len() - i,
    {
        if signals[i] == signal {
            return true;
        }
        i = i + 1;
    }
    false
}

fn file_check_exec(configured_root: &str, path: &str, signal: SignalKind) -> (r: SelectedCheck)
    ensures
        r@ == file_check(configured_root@, path@, signal),
{
    let mut reasons: Vec<ImpactReason> = Vec::new();
    reasons.push(ImpactReason { kind: ImpactReasonKind::ChangedFile, detail: concat(path, " changed") });
    let r = SelectedCheck {
        language: Language::Rust,
        configured_root: String::from_str(configured_root),
        package: None,
        file: Some(String::from_str(path)),
        signal,
        reasons,
        confidence: ImpactConfidence::High,
    };
    assert(r@.reasons =~= seq![(ImpactReasonKind::ChangedFile, path@ + " changed"@)]);
    r
}

fn push_size_and_complexity(
    configured_root: &str,
    signals: &Vec<SignalKind>,
    path: Option<&str>,
    out: &mut Vec<SelectedCheck>,
)
    ensures
        check_views(final(out)@) == check_views(old(out)@) + match path {
            Some(p) => focused_checks(configured_root@, signals@, p@),
            None => broadened_file_checks(configured_root@, signals@),
        },
{
    let ghost start = check_views(out@);
    let ghost mut first: Seq<CheckView> = Seq::empty();
    if has_signal(signals, SignalKind::Size) {
        let c = match path {
            Some(p) => file_check_exec(configured_root, p, SignalKind::Size),
            None => broaden_one(
                configured_root,
                SignalKind::Size,
                "deleted, renamed, copied, or type-changed Rust files require root accounting",
            ),
        };
        let ghost cv = c@;
        out.push(c);
        proof {
            first = seq![cv];
        }
        assert(check_views(out@) =~= start + first);
    } else {
        assert(check_views(out@) =~= start + first);
    }
    let ghost mid = check_views(out@);
    if has_signal(signals, SignalKind::Complexity) {
        let c = match path {
            Some(p) => file_check_exec(configured_root, p, SignalKind::Complexity),
            None => broaden_one(
                configured_root,
                SignalKind::Complexity,
                "deleted, renamed, copied, or type-changed Rust files require root accounting",
            ),
        };
        let ghost cv = c@;
        out.push(c);
        assert(check_views(out@) =~= mid.push(cv));
    }
    assert(check_views(out@) =~= check_views(old(out)@) + match path {
        Some(p) => focused_checks(configured_root@, signals@, p@),
        None => broadened_file_checks(configured_root@, signals@),
    });
}

/// Adds the file checks of `changes` (see `file_checks`); `files[i]` says
/// whether the path of `changes[i]` is a regular file now.
fn add_file_checks(
    configured_root: &str,
    signals: &Vec<SignalKind>,
    changes: &Vec<ChangedPath>,
    files: &Vec<bool>,
    out: &mut Vec<SelectedCheck>,
)
    requires
        files@.len() == changes@.len(),
    ensures
        check_views(final(out)@) == check_views(old(out)@) + file_checks(configured_root@, signals@, changes@, files@),
{
    let mut broad = false;
    let mut i: usize = 0;
    while i < changes.len()
        invariant
            i <= changes@.len(),
            files@.len() == changes@.len(),
            check_views(out@) == check_views(old(out)@) + file_checks_upto(configured_root@, signals@, changes@, files@, i as int),
            broad == exists|k: int|
                0 <= k < i && rust_file_in_target(#[trigger] changes@[k].path@, configured_root@) && !focusable(
                    changes@[k],
                    files@[k],
                ),
        decreases changes@.len() - i,
    {
        let c = &changes[i];
        let ghost before = check_views(out@);
        let is_rust = match path_in_target(c.path.as_str(), configured_root) {
            Some(local) => chars_end_with(&chars_of(local.as_str()), &chars_of(".rs")),
            None => false,
        };
        let can_focus = (c.kind == ChangeKind::Added || c.kind == ChangeKind::Modified) && files[i];
        if is_rust {
            if can_focus {
                push_size_and_complexity(configured_root, signals, Some(c.path.as_str()), out);
            } else {
                broad = true;
            }
        }
        assert(check_views(out@) =~= check_views(old(out)@) + file_checks_upto(configured_root@, signals@, changes@, files@, i + 1));
        i = i + 1;
    }
    if broad {
        push_size_and_complexity(configured_root, signals, None, out);
    }
    assert(check_views(out@) =~= check_views(old(out)@) + file_checks(configured_root@, signals@, changes@, files@));
}

/// The least set that holds `seeds` and every package that depends on a
/// member of it.
pub open spec fn reverse_closure_set(packages: Seq<Package>, seeds: Set<Seq<char>>) -> Set<Seq<char>> {
    Set::new(
        |n: Seq<char>|
            forall|t: Set<Seq<char>>|
                #![trigger crate::impact::closed_under_dependents(packages, t)]
                seeds.subset_of(t) && crate::impact::closed_under_dependents(packages, t) ==> t.contains(n),
    )
}

/// The Rust contribution to an impact plan for one configured root.
///
/// - When a change cannot be narrowed (see `fold_impacts`), every enabled
///   signal runs at the configured root, and the reason is reported as the
///   one uncertainty.
/// - When no package is affected, nothing is selected.
/// - Otherwise each package of the reverse-dependency closure of the
///   affected packages, in code-point order, gets its package checks, and
///   the changed files get their file checks; `files[i]` says whether the
///   path of `changes[i]` is a regular file now.
pub fn rust_contribution(
    configured_root: &str,
    signals: &Vec<SignalKind>,
    changes: &Vec<ChangedPath>,
    files: &Vec<bool>,
    packages: &Vec<Package>,
    nonmember_dirs: &Vec<String>,
    topology_prefix: &str,
) -> (r: ImpactContribution)
    requires
        files@.len() == changes@.len(),
        strictly_sorted(crate::cargo_topology::package_names(packages@)),
    ensures
        r.language == Language::Rust,
        r.configured_root@ == configured_root@,
        ({
            let (broad, affected) = fold_impacts(
                configured_root@,
                packages@,
                nonmember_dirs@,
                topology_prefix@,
                change_path_list(changes@),
            );
            match broad {
                Some((k, d)) => {
                    &&& uncertainty_views(r.uncertainties@) == seq![(k, d)]
                    &&& check_views(r.selected_checks@) == broadened_all(configured_root@, signals@, d)
                },
                None => {
                    &&& r.uncertainties@.len() == 0
                    &&& affected == Set::<Seq<char>>::empty() ==> r.selected_checks@.len() == 0
                    &&& affected != Set::<Seq<char>>::empty() ==> exists|order: Seq<Seq<char>>|
                        #![trigger closure_checks(configured_root@, order, signals@, affected)]
                        strictly_sorted(order) && order.to_set() == reverse_closure_set(packages@, affected)
                            && check_views(r.selected_checks@) == closure_checks(
                            configured_root@,
                            order,
                            signals@,
                            affected,
                        ) + file_checks(configured_root@, signals@, changes@, files@)
                },
            }
        }),
{
    match affected_packages(configured_root, changes, packages, nonmember_dirs, topology_prefix) {
        PackageImpact::Broad(kind, detail) => broad_contribution(configured_root, signals, kind, detail),
        PackageImpact::Irrelevant => ImpactContribution {
            language: Language::Rust,
            configured_root: String::from_str(configured_root),
            selected_checks: Vec::new(),
            uncertainties: Vec::new(),
        },
        PackageImpact::Affected(names) => {
            let closure = reverse_closure(packages, &names);
            let order = sorted_names(&closure);
            proof {
                let seeds = name_set(names@);
                let got = name_set(closure@);
                let want = reverse_closure_set(packages@, seeds);
                assert(got =~= want) by {
                    assert forall|x: Seq<char>| got.contains(x) implies want.contains(x) by {
                        assert forall|t: Set<Seq<char>>|
                            #![trigger crate::impact::closed_under_dependents(packages@, t)]
                            seeds.subset_of(t) && crate::impact::closed_under_dependents(packages@, t) implies t.contains(x) by {}
                    }
                    assert forall|x: Seq<char>| want.contains(x) implies got.contains(x) by {
                        assert(crate::impact::closed_under_dependents(packages@, got));
                    }
                }
            }
            let mut checks: Vec<SelectedCheck> = Vec::new();
            add_package_checks(configured_root, &order, signals, &names, &mut checks);
            add_file_checks(configured_root, signals, changes, files, &mut checks);
            proof {
                let o = string_views(order@);
                assert(check_views(Seq::<SelectedCheck>::empty()) =~= Seq::<CheckView>::empty());
                assert(check_views(checks@) =~= closure_checks(configured_root@, o, signals@, name_set(names@))
                    + file_checks(configured_root@, signals@, changes@, files@));
            }
            ImpactContribution {
                language: Language::Rust,
                configured_root: String::from_str(configured_root),
                selected_checks: checks,
                uncertainties: Vec::new(),
            }
        },
    }
}

} // verus!
