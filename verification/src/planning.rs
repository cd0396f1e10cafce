//! Planning the configured targets of a run: which configured roots are
//! asked for, what became of each one's detection and execution, and the
//! targets that will run.
use crate::adapter::ExecutionResolution;
use crate::analysis::{AnalyzePlanning, AnalyzeTarget, CompletionIssue, CompletionStage};
use crate::collectors::{resolve_repo_path, spec_resolve_repo_path};
use crate::text::{string_views, u64_to_decimal};
use crate::vocabulary::{Checks, Language};
use vstd::prelude::*;

verus! {

/// Whether a language is asked for: an empty selection asks for every
/// enabled language.
pub open spec fn is_selected(selected: Seq<Language>, language: Language) -> bool {
    selected.len() == 0 || selected.contains(language)
}

/// The configured roots of the selected languages, language by language in
/// the policy's order.
pub open spec fn selected_roots_upto(
    configured: Seq<(Language, Vec<String>)>,
    selected: Seq<Language>,
    n: int,
) -> Seq<(Language, Seq<char>)>
    decreases n,
{
    if n <= 0 {
        seq![]
    } else {
        let (language, roots) = configured[n - 1];
        selected_roots_upto(configured, selected, n - 1) + if is_selected(selected, language) {
            string_views(roots@).map_values(|r: Seq<char>| (language, r))
        } else {
            seq![]
        }
    }
}

pub open spec fn pair_views(s: Seq<(Language, String)>) -> Seq<(Language, Seq<char>)> {
    s.map_values(|p: (Language, String)| (p.0, p.1@))
}

fn language_in(languages: &Vec<Language>, language: Language) -> (r: bool)
    ensures
        r == languages@.contains(language),
{
    let mut i: usize = 0;
    while i < languages.len()
        invariant
            i <= languages@.len(),
            forall|k: int| 0 <= k < i ==> languages@[k] != language,
        decreases languages@.len() - i,
    {
        if languages[i] == language {
            return true;
        }
        i = i + 1;
    }
    false
}

/// The configured roots to plan: for each enabled language in turn (given
/// with its roots), its roots when the language is selected.
pub fn selected_roots(configured: &Vec<(Language, Vec<String>)>, selected: &Vec<Language>) -> (r: Vec<(Language, String)>)
    ensures
        pair_views(r@) == selected_roots_upto(configured@, selected@, configured@.len() as int),
{
    let mut out: Vec<(Language, String)> = Vec::new();
    let mut i: usize = 0;
    while i < configured.len()
        invariant
            i <= configured@.len(),
            pair_views(out@) == selected_roots_upto(configured@, selected@, i as int),
        decreases configured@.len() - i,
    {
        let language = configured[i].0;
        let take = selected.len() == 0 || language_in(selected, language);
        if take {
            let roots = &configured[i].1;
            let ghost base = pair_views(out@);
            let mut j: usize = 0;
            while j < roots.len()
                invariant
                    j <= roots@.len(),
                    roots == &configured@[i as int].1,
                    language == configured@[i as int].0,
                    pair_views(out@) == base + string_views(roots@).take(j as int).map_values(
                        |r: Seq<char>| (language, r),
                    ),
                decreases roots@.len() - j,
            {
                let ghost before = pair_views(out@);
                out.push((language, roots[j].clone()));
                assert(pair_views(out@) =~= before.push((language, roots@[j as int]@)));
                assert(string_views(roots@).take(j + 1).map_values(|r: Seq<char>| (language, r))
                    =~= string_views(roots@).take(j as int).map_values(|r: Seq<char>| (language, r)).push(
                    (language, roots@[j as int]@),
                ));
                j = j + 1;
            }
            assert(string_views(roots@).take(roots@.len() as int) =~= string_views(roots@));
        }
        assert(pair_views(out@) =~= selected_roots_upto(configured@, selected@, i + 1));
        i = i + 1;
    }
    out
}

/// What probing one configured root found: whether its language has an
/// adapter, whether the adapter detected the root (and why not), and how
/// its commands run if that could be resolved.
pub struct RootProbe {
    pub adapter_available: bool,
    pub detected: bool,
    pub reason: Option<String>,
    pub execution: Option<ExecutionResolution>,
}

/// A configured target as planned: detected or not, with its execution
/// when it has one and the issue that keeps it from running when it has
/// one.
pub struct PlannedConfiguredTarget {
    pub language: Language,
    pub configured_root: String,
    pub detected: bool,
    pub execution: Option<ExecutionResolution>,
    pub issue: Option<CompletionIssue>,
}

pub open spec fn issue_view(i: CompletionIssue) -> (Language, Seq<char>, CompletionStage, Seq<char>) {
    (i.language, i.configured_root@, i.stage, i.message@)
}

/// The issue of a probed root, if it has one:
/// - no adapter: a detection issue, `{language} adapter is unavailable`;
/// - not detected: a detection issue with the adapter's reason, or
///   `configured {language} root was not detected at {path}`;
/// - detected but unresolved: a resolution issue.
pub open spec fn probe_issue(repo_root: Seq<char>, language: Language, root: Seq<char>, probe: RootProbe) -> Option<
    (Language, Seq<char>, CompletionStage, Seq<char>),
> {
    let path = spec_resolve_repo_path(repo_root, root);
    if !probe.adapter_available {
        Some((language, root, CompletionStage::Detection, language.spec_name() + " adapter is unavailable"@))
    } else if !probe.detected {
        Some(
            (
                language,
                root,
                CompletionStage::Detection,
                match probe.reason {
                    Some(r) => r@,
                    None => "configured "@ + language.spec_name() + " root was not detected at "@ + path,
                },
            ),
        )
    } else if probe.execution is None {
        Some(
            (
                language,
                root,
                CompletionStage::Resolution,
                "unable to resolve execution for configured "@ + language.spec_name() + " root "@ + path,
            ),
        )
    } else {
        None
    }
}

/// Plans one probed root without dropping it: an undetected or
/// unresolvable root is kept with its issue.
pub fn plan_configured_target(
    repo_root: &str,
    language: Language,
    configured_root: &str,
    probe: RootProbe,
) -> (r: PlannedConfiguredTarget)
    ensures
        r.language == language,
        r.configured_root@ == configured_root@,
        r.detected == (probe.adapter_available && probe.detected),
        r.execution == (if probe.adapter_available && probe.detected {
            probe.execution
        } else {
            None
        }),
        match r.issue {
            Some(i) => probe_issue(repo_root@, language, configured_root@, probe) == Some(issue_view(i)),
            None => probe_issue(repo_root@, language, configured_root@, probe) is None,
        },
{
    let ghost p = probe;
    if !probe.adapter_available {
        let mut message = String::from_str(language.as_str());
        message.append(" adapter is unavailable");
        return PlannedConfiguredTarget {
            language,
            configured_root: String::from_str(configured_root),
            detected: false,
            execution: None,
            issue: Some(
                CompletionIssue {
                    language,
                    configured_root: String::from_str(configured_root),
                    stage: CompletionStage::Detection,
                    message,
                },
            ),
        };
    }
    let path = resolve_repo_path(repo_root, configured_root);
    if !probe.detected {
        let message = match probe.reason {
            Some(reason) => reason,
            None => {
                let mut m = String::from_str("configured ");
                m.append(language.as_str());
                m.append(" root was not detected at ");
                m.append(path.as_str());
                m
            },
        };
        return PlannedConfiguredTarget {
            language,
            configured_root: String::from_str(configured_root),
            detected: false,
            execution: None,
            issue: Some(
                CompletionIssue {
                    language,
                    configured_root: String::from_str(configured_root),
                    stage: CompletionStage::Detection,
                    message,
                },
            ),
        };
    }
    let issue = if probe.execution.is_none() {
        let mut m = String::from_str("unable to resolve execution for configured ");
        m.append(language.as_str());
        m.append(" root ");
        m.append(path.as_str());
        Some(
            CompletionIssue {
                language,
                configured_root: String::from_str(configured_root),
                stage: CompletionStage::Resolution,
                message: m,
            },
        )
    } else {
        None
    };
    PlannedConfiguredTarget {
        language,
        configured_root: String::from_str(configured_root),
        detected: true,
        execution: probe.execution,
        issue,
    }
}

/// Plans the selected roots (see `selected_roots`) from their probes, one
/// planned target per root, in order.
pub fn plan_configured_targets_for_languages(
    repo_root: &str,
    roots: &Vec<(Language, String)>,
    probes: Vec<RootProbe>,
) -> (r: Vec<PlannedConfiguredTarget>)
    requires
        probes@.len() == roots@.len(),
    ensures
        r@.len() == roots@.len(),
        forall|k: int|
            0 <= k < roots@.len() ==> {
                let t = #[trigger] r@[k];
                let probe = probes@[k];
                &&& t.language == roots@[k].0
                &&& t.configured_root@ == roots@[k].1@
                &&& t.detected == (probe.adapter_available && probe.detected)
                &&& t.execution == (if probe.adapter_available && probe.detected {
                    probe.execution
                } else {
                    None
                })
                &&& match t.issue {
                    Some(i) => probe_issue(repo_root@, roots@[k].0, roots@[k].1@, probe) == Some(issue_view(i)),
                    None => probe_issue(repo_root@, roots@[k].0, roots@[k].1@, probe) is None,
                }
            },
{
    let ghost all = probes@;
    let n = probes.len();
    assert(all.len() == n);
    let mut rest = probes;
    let mut out: Vec<PlannedConfiguredTarget> = Vec::new();
    let mut i: usize = 0;
    while rest.len() > 0
        invariant
            all.len() == roots@.len(),
            all.len() <= usize::MAX,
            i <= all.len(),
            rest@ == all.skip(i as int),
            rest@.len() == all.len() - i,
            out@.len() == i,
            forall|k: int|
                0 <= k < i ==> {
                    let t = #[trigger] out@[k];
                    let probe = all[k];
                    &&& t.language == roots@[k].0
                    &&& t.configured_root@ == roots@[k].1@
                    &&& t.detected == (probe.adapter_available && probe.detected)
                    &&& t.execution == (if probe.adapter_available && probe.detected {
                        probe.execution
                    } else {
                        None
                    })
                    &&& match t.issue {
                        Some(i) => probe_issue(repo_root@, roots@[k].0, roots@[k].1@, probe) == Some(issue_view(i)),
                        None => probe_issue(repo_root@, roots@[k].0, roots@[k].1@, probe) is None,
                    }
                },
        decreases rest@.len(),
    {
        let probe = rest.remove(0);
        assert(probe == all[i as int]);
        assert(rest@ =~= all.skip(i + 1));
        let planned = plan_configured_target(repo_root, roots[i].0, roots[i].1.as_str(), probe);
        out.push(planned);
        i = i + 1;
    }
    out
}

pub open spec fn count_detected(planned: Seq<PlannedConfiguredTarget>) -> nat
    decreases planned.len(),
{
    if planned.len() == 0 {
        0
    } else {
        count_detected(planned.drop_last()) + if planned.last().detected {
            1nat
        } else {
            0nat
        }
    }
}

/// The issues of the planned targets, in order.
pub open spec fn planned_issues(planned: Seq<PlannedConfiguredTarget>) -> Seq<(Language, Seq<char>, CompletionStage, Seq<char>)>
    decreases planned.len(),
{
    if planned.len() == 0 {
        seq![]
    } else {
        planned_issues(planned.drop_last()) + match planned.last().issue {
            Some(i) => seq![issue_view(i)],
            None => seq![],
        }
    }
}

/// The planned targets that run: those with an execution, in order.
pub open spec fn runnable_targets(planned: Seq<PlannedConfiguredTarget>) -> Seq<(Language, Seq<char>)>
    decreases planned.len(),
{
    if planned.len() == 0 {
        seq![]
    } else {
        runnable_targets(planned.drop_last()) + if planned.last().execution is Some {
            seq![(planned.last().language, planned.last().configured_root@)]
        } else {
            seq![]
        }
    }
}

pub open spec fn target_views(targets: Seq<AnalyzeTarget>) -> Seq<(Language, Seq<char>)> {
    targets.map_values(|t: AnalyzeTarget| (t.language, t.root@))
}

/// The planning of a run from its planned targets: every configured target
/// is expected, the detected ones are counted, their issues are kept in
/// order, and those with an execution run under the policy's checks.
pub fn analyze_planning(planned: Vec<PlannedConfiguredTarget>, checks: Checks) -> (r: AnalyzePlanning)
    requires
        planned@.len() <= u64::MAX,
    ensures
        r.expected_targets == planned@.len(),
        r.detected_targets == count_detected(planned@),
        r.issues@.map_values(|i: CompletionIssue| issue_view(i)) == planned_issues(planned@),
        target_views(r.targets@) == runnable_targets(planned@),
        forall|k: int| 0 <= k < r.targets@.len() ==> (#[trigger] r.targets@[k]).checks == checks,
{
    let ghost all = planned@;
    let n = planned.len();
    assert(all.len() == n);
    let expected = planned.len() as u64;
    let mut detected: u64 = 0;
    let mut issues: Vec<CompletionIssue> = Vec::new();
    let mut targets: Vec<AnalyzeTarget> = Vec::new();
    let mut rest = planned;
    let mut i: usize = 0;
    while rest.len() > 0
        invariant
            all.len() <= u64::MAX,
            all.len() <= usize::MAX,
            i <= all.len(),
            rest@ == all.skip(i as int),
            rest@.len() == all.len() - i,
            detected == count_detected(all.take(i as int)),
            detected <= i,
            issues@.map_values(|x: CompletionIssue| issue_view(x)) == planned_issues(all.take(i as int)),
            target_views(targets@) == runnable_targets(all.take(i as int)),
            forall|k: int| 0 <= k < targets@.len() ==> (#[trigger] targets@[k]).checks == checks,
        decreases rest@.len(),
    {
        let t = rest.remove(0);
        proof {
            assert(t == all[i as int]);
            assert(rest@ =~= all.skip(i + 1));
            assert(all.take(i + 1).drop_last() =~= all.take(i as int));
            assert(all.take(i + 1).last() == t);
        }
        if t.detected {
            detected = detected + 1;
        }
        let ghost before_issues = issues@;
        let ghost before_targets = targets@;
        let language = t.language;
        let runs = t.execution.is_some();
        let root = t.configured_root;
        match t.issue {
            Some(issue) => {
                let ghost iv = issue_view(issue);
                issues.push(issue);
                assert(issues@.map_values(|x: CompletionIssue| issue_view(x)) =~= before_issues.map_values(
                    |x: CompletionIssue| issue_view(x),
                ).push(iv));
            },
            None => {},
        }
        if runs {
            let ghost rv = root@;
            targets.push(AnalyzeTarget { language, root, checks });
            assert(target_views(targets@) =~= target_views(before_targets).push((language, rv)));
        }
        i = i + 1;
    }
    assert(all.take(i as int) =~= all);
    AnalyzePlanning { targets, expected_targets: expected, detected_targets: detected, issues }
}

/// A requested language must be one the policy enables.
pub fn ensure_language_enabled(enabled: &Vec<Language>, requested: Option<Language>) -> (r: Result<(), String>)
    ensures
        match requested {
            Some(l) => if enabled@.contains(l) {
                r is Ok
            } else {
                r matches Err(m) && m@ == "requested language "@ + l.spec_name()
                    + " is not enabled in the configured policy"@
            },
            None => r is Ok,
        },
{
    match requested {
        Some(l) => {
            if language_in(enabled, l) {
                Ok(())
            } else {
                let mut m = String::from_str("requested language ");
                m.append(l.as_str());
                m.append(" is not enabled in the configured policy");
                Err(m)
            }
        },
        None => Ok(()),
    }
}

} // verus!
