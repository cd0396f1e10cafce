//! Reconciling what collectors emitted with the rows a run planned.
//!
//! Each runnable target is expected to emit exactly one row per requested
//! signal. Rows outside that set, and repeats, are not kept: their evidence
//! becomes a collection-stage issue of the target that answers for it, so
//! that an incomplete run never passes for a complete one.
use crate::analysis::{
    canonicalize_relative_posix, clone_issue, normalize_configured_root, spec_canonical_root,
    spec_normalize_root, spec_stage_rank, stage_rank, AnalyzePlanning, AnalyzeTarget,
    CompletionIssue, CompletionScope, CompletionStage, CompletionState, RunCompletion,
};
use crate::order::{compare_text, sort_list, sort_listed, text_lt, Listed, TextOrder};
use crate::text::{chars_of, decimal, join, join_range, str_eq, string_from_chars, u64_to_decimal, views};
use crate::vocabulary::{signal_kind_slug, spec_signal_slug, Checks, Language, SignalKind};
use vstd::prelude::*;

verus! {

broadcast use vstd::string::group_string_axioms;

/// A row a collector emitted, with what it claims to be: a language, a
/// scope path and a signal.
pub struct EmittedRow<R> {
    pub language: Language,
    pub path: Option<String>,
    pub kind: SignalKind,
    pub row: R,
}

pub open spec fn opt_view(o: Option<String>) -> Option<Seq<char>> {
    match o {
        Some(s) => Some(s@),
        None => None,
    }
}

/// The planned row a row answers to: its language, normalized root and
/// signal.
pub open spec fn row_key<R>(r: EmittedRow<R>) -> (Language, Seq<char>, SignalKind) {
    (r.language, spec_normalize_root(opt_view(r.path)), r.kind)
}

pub open spec fn row_keys<R>(rows: Seq<EmittedRow<R>>) -> Seq<(Language, Seq<char>, SignalKind)> {
    rows.map_values(|r: EmittedRow<R>| row_key(r))
}

pub open spec fn target_root(t: AnalyzeTarget) -> Seq<char> {
    spec_canonical_root(t.root@)
}

pub open spec fn check_enabled(checks: Checks, kind: SignalKind) -> bool {
    match kind {
        SignalKind::Test => checks.test,
        SignalKind::Coverage => checks.coverage,
        SignalKind::Size => checks.size,
        SignalKind::Complexity => checks.complexity,
        SignalKind::Deps => checks.deps,
        SignalKind::Mutation => checks.mutation,
    }
}

/// A target is asked for the requested signal, or, when none was
/// requested, for every signal its policy enables.
pub open spec fn kind_requested(t: AnalyzeTarget, requested: Option<SignalKind>, kind: SignalKind) -> bool {
    match requested {
        Some(k) => k == kind,
        None => check_enabled(t.checks, kind),
    }
}

pub open spec fn expects(t: AnalyzeTarget, requested: Option<SignalKind>, key: (Language, Seq<char>, SignalKind)) -> bool {
    t.language == key.0 && target_root(t) == key.1 && kind_requested(t, requested, key.2)
}

/// Whether some runnable target is expected to emit the row `key`.
pub open spec fn is_expected(
    targets: Seq<AnalyzeTarget>,
    requested: Option<SignalKind>,
    key: (Language, Seq<char>, SignalKind),
) -> bool {
    exists|i: int| 0 <= i < targets.len() && expects(#[trigger] targets[i], requested, key)
}

pub open spec fn runs_as(t: AnalyzeTarget, language: Language, root: Seq<char>) -> bool {
    t.language == language && target_root(t) == root
}

pub open spec fn is_runnable(targets: Seq<AnalyzeTarget>, language: Language, root: Seq<char>) -> bool {
    exists|i: int| 0 <= i < targets.len() && runs_as(#[trigger] targets[i], language, root)
}

/// How many of `keys` are `key`.
pub open spec fn key_count(keys: Seq<(Language, Seq<char>, SignalKind)>, key: (Language, Seq<char>, SignalKind)) -> nat
    decreases keys.len(),
{
    if keys.len() == 0 {
        0
    } else {
        key_count(keys.drop_last(), key) + if keys.last() == key {
            1nat
        } else {
            0nat
        }
    }
}

/// The rows kept: each expected row the first time it is emitted, in
/// emission order.
pub open spec fn kept_rows<R>(rows: Seq<EmittedRow<R>>, targets: Seq<AnalyzeTarget>, requested: Option<SignalKind>) -> Seq<EmittedRow<R>>
    decreases rows.len(),
{
    if rows.len() == 0 {
        seq![]
    } else {
        let prev = kept_rows(rows.drop_last(), targets, requested);
        let k = row_key(rows.last());
        if is_expected(targets, requested, k) && key_count(row_keys(rows.drop_last()), k) == 0 {
            prev.push(rows.last())
        } else {
            prev
        }
    }
}

pub open spec fn all_kinds() -> Seq<SignalKind> {
    seq![
        SignalKind::Test,
        SignalKind::Coverage,
        SignalKind::Size,
        SignalKind::Complexity,
        SignalKind::Deps,
        SignalKind::Mutation,
    ]
}

/// What an expected row that was emitted `count` times says: nothing when
/// it came once.
pub open spec fn count_messages(kind: SignalKind, count: nat) -> Seq<Seq<char>> {
    if count == 0 {
        seq!["missing expected "@ + spec_signal_slug(kind) + " row"@]
    } else if count > 1 {
        seq!["emitted "@ + decimal(count) + " "@ + spec_signal_slug(kind) + " rows"@]
    } else {
        seq![]
    }
}

/// The messages of a target's expected rows, for the first `n` signals in
/// their canonical order.
pub open spec fn expected_messages(
    targets: Seq<AnalyzeTarget>,
    requested: Option<SignalKind>,
    keys: Seq<(Language, Seq<char>, SignalKind)>,
    language: Language,
    root: Seq<char>,
    n: int,
) -> Seq<Seq<char>>
    decreases n,
{
    if n <= 0 {
        seq![]
    } else {
        let kind = all_kinds()[n - 1];
        expected_messages(targets, requested, keys, language, root, n - 1) + if is_expected(
            targets,
            requested,
            (language, root, kind),
        ) {
            count_messages(kind, key_count(keys, (language, root, kind)))
        } else {
            seq![]
        }
    }
}

/// `a` orders before `b`: by language, then by root text.
pub open spec fn target_before(a: (Language, Seq<char>), b: (Language, Seq<char>)) -> bool {
    a.0.spec_index() < b.0.spec_index() || (a.0 == b.0 && text_lt(a.1, b.1))
}

pub open spec fn target_key(t: AnalyzeTarget) -> (Language, Seq<char>) {
    (t.language, target_root(t))
}

/// The least runnable target, in language and root order.
pub open spec fn least_target(targets: Seq<AnalyzeTarget>) -> Option<(Language, Seq<char>)>
    decreases targets.len(),
{
    if targets.len() == 0 {
        None
    } else {
        let k = target_key(targets.last());
        match least_target(targets.drop_last()) {
            None => Some(k),
            Some(m) => if target_before(k, m) {
                Some(k)
            } else {
                Some(m)
            },
        }
    }
}

/// The target that answers for an unexpected row: the runnable target it
/// names, else the least runnable target (a row may name neither its
/// language nor its scope truthfully).
pub open spec fn responsible(targets: Seq<AnalyzeTarget>, language: Language, root: Seq<char>) -> Option<(Language, Seq<char>)> {
    if is_runnable(targets, language, root) {
        Some((language, root))
    } else {
        least_target(targets)
    }
}

pub open spec fn unexpected_message(key: (Language, Seq<char>, SignalKind)) -> Seq<char> {
    "emitted unexpected "@ + spec_signal_slug(key.2) + " row for "@ + key.0.spec_name() + ":"@ + key.1
}

/// The unexpected rows a target answers for, in emission order.
pub open spec fn unexpected_messages(
    targets: Seq<AnalyzeTarget>,
    requested: Option<SignalKind>,
    keys: Seq<(Language, Seq<char>, SignalKind)>,
    language: Language,
    root: Seq<char>,
) -> Seq<Seq<char>>
    decreases keys.len(),
{
    if keys.len() == 0 {
        seq![]
    } else {
        let k = keys.last();
        unexpected_messages(targets, requested, keys.drop_last(), language, root) + if !is_expected(
            targets,
            requested,
            k,
        ) && responsible(targets, k.0, k.1) == Some((language, root)) {
            seq![unexpected_message(k)]
        } else {
            seq![]
        }
    }
}

pub open spec fn target_messages(
    targets: Seq<AnalyzeTarget>,
    requested: Option<SignalKind>,
    keys: Seq<(Language, Seq<char>, SignalKind)>,
    language: Language,
    root: Seq<char>,
) -> Seq<Seq<char>> {
    expected_messages(targets, requested, keys, language, root, 6) + unexpected_messages(
        targets,
        requested,
        keys,
        language,
        root,
    )
}

/// The runnable targets, each once, in the order they first occur.
pub open spec fn distinct_targets(targets: Seq<AnalyzeTarget>) -> Seq<(Language, Seq<char>)>
    decreases targets.len(),
{
    if targets.len() == 0 {
        seq![]
    } else {
        let prev = distinct_targets(targets.drop_last());
        let k = target_key(targets.last());
        if prev.contains(k) {
            prev
        } else {
            prev.push(k)
        }
    }
}

/// One collection-stage issue per target with something to report, its
/// messages joined with `; `.
pub open spec fn collection_issues(
    targets: Seq<AnalyzeTarget>,
    requested: Option<SignalKind>,
    keys: Seq<(Language, Seq<char>, SignalKind)>,
    order: Seq<(Language, Seq<char>)>,
) -> Seq<(Language, Seq<char>, CompletionStage, Seq<char>)>
    decreases order.len(),
{
    if order.len() == 0 {
        seq![]
    } else {
        let t = order.last();
        let ms = target_messages(targets, requested, keys, t.0, t.1);
        collection_issues(targets, requested, keys, order.drop_last()) + if ms.len() > 0 {
            seq![(t.0, t.1, CompletionStage::Collection, join(ms, "; "@))]
        } else {
            seq![]
        }
    }
}

pub open spec fn issue_parts(i: CompletionIssue) -> (Language, Seq<char>, CompletionStage, Seq<char>) {
    (i.language, i.configured_root@, i.stage, i.message@)
}

/// Issues are listed by language, then normalized root, then stage.
impl Listed for CompletionIssue {
    open spec fn goes_before(self, other: Self) -> bool {
        let a = spec_canonical_root(self.configured_root@);
        let b = spec_canonical_root(other.configured_root@);
        ||| self.language.spec_index() < other.language.spec_index()
        ||| (self.language == other.language && text_lt(a, b))
        ||| (self.language == other.language && a == b && spec_stage_rank(self.stage) <= spec_stage_rank(
            other.stage,
        ))
    }

    fn may_precede(&self, other: &Self) -> (r: bool) {
        let a = self.language.index();
        let b = other.language.index();
        proof {
            crate::scheduler::lemma_index_injective(self.language, other.language);
        }
        if a != b {
            return a < b;
        }
        let ra = canonicalize_relative_posix(self.configured_root.as_str());
        let rb = canonicalize_relative_posix(other.configured_root.as_str());
        match compare_text(ra.as_str(), rb.as_str()) {
            TextOrder::Before => true,
            TextOrder::After => false,
            TextOrder::Same => stage_rank(self.stage) <= stage_rank(other.stage),
        }
    }

    proof fn lemma_total(a: Self, b: Self) {
        crate::scheduler::lemma_index_injective(a.language, b.language);
        crate::order::lemma_text_total(
            spec_canonical_root(a.configured_root@),
            spec_canonical_root(b.configured_root@),
        );
    }

    proof fn lemma_transitive(a: Self, b: Self, c: Self) {
        crate::scheduler::lemma_index_injective(a.language, b.language);
        crate::scheduler::lemma_index_injective(b.language, c.language);
        crate::scheduler::lemma_index_injective(a.language, c.language);
        let ra = spec_canonical_root(a.configured_root@);
        let rb = spec_canonical_root(b.configured_root@);
        let rc = spec_canonical_root(c.configured_root@);
        if text_lt(ra, rb) && text_lt(rb, rc) {
            crate::order::lemma_text_lt_transitive(ra, rb, rc);
        }
    }
}


pub open spec fn key_views(keys: Seq<(Language, String, SignalKind)>) -> Seq<(Language, Seq<char>, SignalKind)> {
    keys.map_values(|k: (Language, String, SignalKind)| (k.0, k.1@, k.2))
}

pub open spec fn target_views(ts: Seq<(Language, String)>) -> Seq<(Language, Seq<char>)> {
    ts.map_values(|t: (Language, String)| (t.0, t.1@))
}

pub open spec fn roots_match(targets: Seq<AnalyzeTarget>, roots: Seq<String>) -> bool {
    roots.len() == targets.len() && forall|i: int| 0 <= i < targets.len() ==> (#[trigger] roots[i])@ == target_root(targets[i])
}

fn target_roots(targets: &Vec<AnalyzeTarget>) -> (r: Vec<String>)
    ensures
        roots_match(targets@, r@),
{
    let mut out: Vec<String> = Vec::new();
    let mut i: usize = 0;
    while i < targets.len()
        invariant
            i <= targets@.len(),
            out@.len() == i,
            forall|k: int| 0 <= k < i ==> (#[trigger] out@[k])@ == target_root(targets@[k]),
        decreases targets@.len() - i,
    {
        out.push(canonicalize_relative_posix(targets[i].root.as_str()));
        i = i + 1;
    }
    out
}

fn kind_requested_exec(t: &AnalyzeTarget, requested: Option<SignalKind>, kind: SignalKind) -> (r: bool)
    ensures
        r == kind_requested(*t, requested, kind),
        requested is None ==> r == crate::vocabulary::spec_signal_enabled(t.checks, kind),
{
    proof {
        law_expected_signals_are_the_enabled_ones(*t, kind);
    }
    match requested {
        Some(k) => k == kind,
        None => match kind {
            SignalKind::Test => t.checks.test,
            SignalKind::Coverage => t.checks.coverage,
            SignalKind::Size => t.checks.size,
            SignalKind::Complexity => t.checks.complexity,
            SignalKind::Deps => t.checks.deps,
            SignalKind::Mutation => t.checks.mutation,
        },
    }
}

fn expected_exec(
    targets: &Vec<AnalyzeTarget>,
    roots: &Vec<String>,
    requested: Option<SignalKind>,
    language: Language,
    root: &str,
    kind: SignalKind,
) -> (r: bool)
    requires
        roots_match(targets@, roots@),
    ensures
        r == is_expected(targets@, requested, (language, root@, kind)),
{
    let mut i: usize = 0;
    while i < targets.len()
        invariant
            i <= targets@.len(),
            roots_match(targets@, roots@),
            forall|k: int| 0 <= k < i ==> !expects(#[trigger] targets@[k], requested, (language, root@, kind)),
        decreases targets@.len() - i,
    {
        if targets[i].language == language && str_eq(roots[i].as_str(), root) && kind_requested_exec(
            &targets[i],
            requested,
            kind,
        ) {
            assert(expects(targets@[i as int], requested, (language, root@, kind)));
            return true;
        }
        i = i + 1;
    }
    false
}

fn runnable_exec(targets: &Vec<AnalyzeTarget>, roots: &Vec<String>, language: Language, root: &str) -> (r: bool)
    requires
        roots_match(targets@, roots@),
    ensures
        r == is_runnable(targets@, language, root@),
{
    let mut i: usize = 0;
    while i < targets.len()
        invariant
            i <= targets@.len(),
            roots_match(targets@, roots@),
            forall|k: int| 0 <= k < i ==> !runs_as(#[trigger] targets@[k], language, root@),
        decreases targets@.len() - i,
    {
        if targets[i].language == language && str_eq(roots[i].as_str(), root) {
            assert(runs_as(targets@[i as int], language, root@));
            return true;
        }
        i = i + 1;
    }
    false
}

fn least_target_exec(targets: &Vec<AnalyzeTarget>, roots: &Vec<String>) -> (r: Option<(Language, String)>)
    requires
        roots_match(targets@, roots@),
    ensures
        match least_target(targets@) {
            Some(m) => r matches Some(x) && x.0 == m.0 && x.1@ == m.1,
            None => r is None,
        },
{
    let mut best: Option<(Language, String)> = None;
    let mut i: usize = 0;
    while i < targets.len()
        invariant
            i <= targets@.len(),
            roots_match(targets@, roots@),
            match least_target(targets@.take(i as int)) {
                Some(m) => best matches Some(x) && x.0 == m.0 && x.1@ == m.1,
                None => best is None,
            },
        decreases targets@.len() - i,
    {
        proof {
            assert(targets@.take(i + 1).drop_last() =~= targets@.take(i as int));
            assert(targets@.take(i + 1).last() == targets@[i as int]);
        }
        let language = targets[i].language;
        let replace = match &best {
            None => true,
            Some(m) => {
                let a = language.index();
                let b = m.0.index();
                proof {
                    crate::scheduler::lemma_index_injective(language, m.0);
                }
                a < b || (a == b && compare_text(roots[i].as_str(), m.1.as_str()) == TextOrder::Before)
            },
        };
        if replace {
            best = Some((language, roots[i].clone()));
        }
        i = i + 1;
    }
    assert(targets@.take(targets@.len() as int) =~= targets@);
    best
}

fn row_keys_exec<R>(rows: &Vec<EmittedRow<R>>) -> (r: Vec<(Language, String, SignalKind)>)
    ensures
        key_views(r@) == row_keys(rows@),
{
    let mut out: Vec<(Language, String, SignalKind)> = Vec::new();
    let mut i: usize = 0;
    while i < rows.len()
        invariant
            i <= rows@.len(),
            key_views(out@) == row_keys(rows@.take(i as int)),
        decreases rows@.len() - i,
    {
        let root = match &rows[i].path {
            Some(p) => normalize_configured_root(Some(p.as_str())),
            None => normalize_configured_root(None),
        };
        let ghost before = out@;
        out.push((rows[i].language, root, rows[i].kind));
        proof {
            assert(rows@.take(i + 1) =~= rows@.take(i as int).push(rows@[i as int]));
            assert(key_views(out@) =~= key_views(before).push(row_key(rows@[i as int])));
            assert(row_keys(rows@.take(i + 1)) =~= row_keys(rows@.take(i as int)).push(row_key(rows@[i as int])));
        }
        i = i + 1;
    }
    assert(rows@.take(rows@.len() as int) =~= rows@);
    out
}

proof fn lemma_key_count_le(keys: Seq<(Language, Seq<char>, SignalKind)>, key: (Language, Seq<char>, SignalKind))
    ensures
        key_count(keys, key) <= keys.len(),
    decreases keys.len(),
{
    if keys.len() > 0 {
        lemma_key_count_le(keys.drop_last(), key);
    }
}

fn count_key_upto(
    keys: &Vec<(Language, String, SignalKind)>,
    n: usize,
    language: Language,
    root: &str,
    kind: SignalKind,
) -> (r: usize)
    requires
        n <= keys@.len(),
    ensures
        r == key_count(key_views(keys@).take(n as int), (language, root@, kind)),
{
    let mut count: usize = 0;
    let mut i: usize = 0;
    while i < n
        invariant
            i <= n <= keys@.len(),
            count <= i,
            count == key_count(key_views(keys@).take(i as int), (language, root@, kind)),
        decreases n - i,
    {
        proof {
            assert(key_views(keys@).take(i + 1).drop_last() =~= key_views(keys@).take(i as int));
            assert(key_views(keys@).take(i + 1).last() == (keys@[i as int].0, keys@[i as int].1@, keys@[i as int].2));
        }
        if keys[i].0 == language && str_eq(keys[i].1.as_str(), root) && keys[i].2 == kind {
            count = count + 1;
        }
        i = i + 1;
    }
    count
}

fn push_text(v: &mut Vec<Vec<char>>, s: &str)
    ensures
        views(final(v)@) == views(old(v)@).push(s@),
{
    let ghost before = v@;
    v.push(chars_of(s));
    assert(views(v@) =~= views(before).push(s@));
}

fn kind_at(k: usize) -> (r: SignalKind)
    requires
        k < 6,
    ensures
        r == all_kinds()[k as int],
{
    if k == 0 {
        SignalKind::Test
    } else if k == 1 {
        SignalKind::Coverage
    } else if k == 2 {
        SignalKind::Size
    } else if k == 3 {
        SignalKind::Complexity
    } else if k == 4 {
        SignalKind::Deps
    } else {
        SignalKind::Mutation
    }
}

fn target_messages_exec(
    targets: &Vec<AnalyzeTarget>,
    roots: &Vec<String>,
    requested: Option<SignalKind>,
    keys: &Vec<(Language, String, SignalKind)>,
    least: &Option<(Language, String)>,
    language: Language,
    root: &str,
) -> (r: Vec<Vec<char>>)
    requires
        roots_match(targets@, roots@),
        match least_target(targets@) {
            Some(m) => *least matches Some(x) && x.0 == m.0 && x.1@ == m.1,
            None => least is None,
        },
    ensures
        views(r@) == target_messages(targets@, requested, key_views(keys@), language, root@),
{
    let ghost kv = key_views(keys@);
    let mut msgs: Vec<Vec<char>> = Vec::new();
    let mut k: usize = 0;
    while k < 6
        invariant
            k <= 6,
            roots_match(targets@, roots@),
            kv == key_views(keys@),
            views(msgs@) == expected_messages(targets@, requested, kv, language, root@, k as int),
        decreases 6 - k,
    {
        let kind = kind_at(k);
        if expected_exec(targets, roots, requested, language, root, kind) {
            let count = count_key_upto(keys, keys.len(), language, root, kind);
            assert(key_views(keys@).take(keys@.len() as int) =~= kv);
            if count == 0 {
                let mut m = String::from_str("missing expected ");
                m.append(signal_kind_slug(kind));
                m.append(" row");
                push_text(&mut msgs, m.as_str());
            } else if count > 1 {
                let mut m = String::from_str("emitted ");
                let d = u64_to_decimal(count as u64);
                m.append(d.as_str());
                m.append(" ");
                m.append(signal_kind_slug(kind));
                m.append(" rows");
                push_text(&mut msgs, m.as_str());
            }
        }
        k = k + 1;
    }
    let ghost head = views(msgs@);
    let mut j: usize = 0;
    while j < keys.len()
        invariant
            j <= keys@.len(),
            roots_match(targets@, roots@),
            kv == key_views(keys@),
            match least_target(targets@) {
                Some(m) => *least matches Some(x) && x.0 == m.0 && x.1@ == m.1,
                None => least is None,
            },
            head == expected_messages(targets@, requested, kv, language, root@, 6),
            views(msgs@) == head + unexpected_messages(targets@, requested, kv.take(j as int), language, root@),
        decreases keys@.len() - j,
    {
        proof {
            assert(kv.take(j + 1).drop_last() =~= kv.take(j as int));
            assert(kv.take(j + 1).last() == kv[j as int]);
        }
        let key = &keys[j];
        let expected = expected_exec(targets, roots, requested, key.0, key.1.as_str(), key.2);
        if !expected {
            let answers = if runnable_exec(targets, roots, key.0, key.1.as_str()) {
                key.0 == language && str_eq(key.1.as_str(), root)
            } else {
                match least {
                    Some(m) => m.0 == language && str_eq(m.1.as_str(), root),
                    None => false,
                }
            };
            if answers {
                let mut m = String::from_str("emitted unexpected ");
                m.append(signal_kind_slug(key.2));
                m.append(" row for ");
                m.append(key.0.as_str());
                m.append(":");
                m.append(key.1.as_str());
                let ghost before = views(msgs@);
                push_text(&mut msgs, m.as_str());
                assert(views(msgs@) =~= head + unexpected_messages(targets@, requested, kv.take(j + 1), language, root@));
            } else {
                assert(views(msgs@) =~= head + unexpected_messages(targets@, requested, kv.take(j + 1), language, root@));
            }
        } else {
            assert(views(msgs@) =~= head + unexpected_messages(targets@, requested, kv.take(j + 1), language, root@));
        }
        j = j + 1;
    }
    assert(kv.take(keys@.len() as int) =~= kv);
    msgs
}

fn distinct_targets_exec(targets: &Vec<AnalyzeTarget>, roots: &Vec<String>) -> (r: Vec<(Language, String)>)
    requires
        roots_match(targets@, roots@),
    ensures
        target_views(r@) == distinct_targets(targets@),
{
    let mut out: Vec<(Language, String)> = Vec::new();
    let mut i: usize = 0;
    while i < targets.len()
        invariant
            i <= targets@.len(),
            roots_match(targets@, roots@),
            target_views(out@) == distinct_targets(targets@.take(i as int)),
        decreases targets@.len() - i,
    {
        proof {
            assert(targets@.take(i + 1).drop_last() =~= targets@.take(i as int));
            assert(targets@.take(i + 1).last() == targets@[i as int]);
        }
        let language = targets[i].language;
        let mut found = false;
        let mut j: usize = 0;
        while j < out.len()
            invariant
                j <= out@.len(),
                i < targets@.len(),
                roots_match(targets@, roots@),
                found == exists|m: int| 0 <= m < j && (#[trigger] target_views(out@)[m]) == (language, roots@[i as int]@),
            decreases out@.len() - j,
        {
            if out[j].0 == language && str_eq(out[j].1.as_str(), roots[i].as_str()) {
                assert(target_views(out@)[j as int] == (language, roots@[i as int]@));
                found = true;
            }
            j = j + 1;
        }
        let ghost k = (language, roots@[i as int]@);
        assert(k == target_key(targets@[i as int]));
        proof {
            if target_views(out@).contains(k) {
                let m = choose|m: int| 0 <= m < target_views(out@).len() && target_views(out@)[m] == k;
                assert(found);
            }
        }
        if !found {
            let ghost before = out@;
            out.push((language, roots[i].clone()));
            assert(target_views(out@) =~= target_views(before).push(k));
        }
        i = i + 1;
    }
    assert(targets@.take(targets@.len() as int) =~= targets@);
    out
}



/// The emitted rows answer the plan one for one: every row is expected,
/// and every expected row was emitted exactly once.
pub open spec fn rows_answer_plan(
    targets: Seq<AnalyzeTarget>,
    requested: Option<SignalKind>,
    keys: Seq<(Language, Seq<char>, SignalKind)>,
) -> bool {
    &&& forall|i: int| 0 <= i < keys.len() ==> is_expected(targets, requested, #[trigger] keys[i])
    &&& forall|k: (Language, Seq<char>, SignalKind)|
        #![trigger is_expected(targets, requested, k)]
        is_expected(targets, requested, k) ==> key_count(keys, k) == 1
}

proof fn lemma_least_target_is_a_target(targets: Seq<AnalyzeTarget>)
    requires
        targets.len() > 0,
    ensures
        least_target(targets) is Some,
        exists|i: int| 0 <= i < targets.len() && Some(target_key(#[trigger] targets[i])) == least_target(targets),
    decreases targets.len(),
{
    let n = targets.len() as int;
    if n == 1 {
        assert(Some(target_key(targets[0])) == least_target(targets));
    } else {
        lemma_least_target_is_a_target(targets.drop_last());
        let i = choose|i: int|
            0 <= i < targets.drop_last().len() && Some(target_key(#[trigger] targets.drop_last()[i]))
                == least_target(targets.drop_last());
        assert(targets.drop_last()[i] == targets[i]);
        let m = least_target(targets.drop_last())->0;
        if target_before(target_key(targets.last()), m) {
            assert(Some(target_key(targets[n - 1])) == least_target(targets));
        } else {
            assert(Some(target_key(targets[i])) == least_target(targets));
        }
    }
}

proof fn lemma_distinct_targets_has(targets: Seq<AnalyzeTarget>, i: int)
    requires
        0 <= i < targets.len(),
    ensures
        distinct_targets(targets).contains(target_key(targets[i])),
    decreases targets.len(),
{
    let prev = distinct_targets(targets.drop_last());
    let k = target_key(targets.last());
    if i == targets.len() - 1 {
        if !prev.contains(k) {
            assert(prev.push(k)[prev.len() as int] == k);
        }
    } else {
        lemma_distinct_targets_has(targets.drop_last(), i);
        assert(targets.drop_last()[i] == targets[i]);
        let x = target_key(targets[i]);
        let j = choose|j: int| 0 <= j < prev.len() && prev[j] == x;
        if !prev.contains(k) {
            assert(prev.push(k)[j] == x);
        }
    }
}

proof fn lemma_collection_issues_nonempty(
    targets: Seq<AnalyzeTarget>,
    requested: Option<SignalKind>,
    keys: Seq<(Language, Seq<char>, SignalKind)>,
    order: Seq<(Language, Seq<char>)>,
    j: int,
)
    requires
        0 <= j < order.len(),
        target_messages(targets, requested, keys, order[j].0, order[j].1).len() > 0,
    ensures
        collection_issues(targets, requested, keys, order).len() > 0,
    decreases order.len(),
{
    if j < order.len() - 1 {
        assert(order.drop_last()[j] == order[j]);
        lemma_collection_issues_nonempty(targets, requested, keys, order.drop_last(), j);
    }
}

proof fn lemma_collection_issues_empty(
    targets: Seq<AnalyzeTarget>,
    requested: Option<SignalKind>,
    keys: Seq<(Language, Seq<char>, SignalKind)>,
    order: Seq<(Language, Seq<char>)>,
)
    requires
        forall|j: int|
            0 <= j < order.len() ==> target_messages(targets, requested, keys, (#[trigger] order[j]).0, order[j].1).len()
                == 0,
    ensures
        collection_issues(targets, requested, keys, order).len() == 0,
    decreases order.len(),
{
    if order.len() > 0 {
        assert forall|j: int| 0 <= j < order.drop_last().len() implies target_messages(
            targets,
            requested,
            keys,
            (#[trigger] order.drop_last()[j]).0,
            order.drop_last()[j].1,
        ).len() == 0 by {
            assert(order.drop_last()[j] == order[j]);
        }
        lemma_collection_issues_empty(targets, requested, keys, order.drop_last());
        assert(target_messages(targets, requested, keys, order[order.len() - 1].0, order[order.len() - 1].1).len() == 0);
    }
}

proof fn lemma_unexpected_nonempty(
    targets: Seq<AnalyzeTarget>,
    requested: Option<SignalKind>,
    keys: Seq<(Language, Seq<char>, SignalKind)>,
    language: Language,
    root: Seq<char>,
    i: int,
)
    requires
        0 <= i < keys.len(),
        !is_expected(targets, requested, keys[i]),
        responsible(targets, keys[i].0, keys[i].1) == Some((language, root)),
    ensures
        unexpected_messages(targets, requested, keys, language, root).len() > 0,
    decreases keys.len(),
{
    if i < keys.len() - 1 {
        assert(keys.drop_last()[i] == keys[i]);
        lemma_unexpected_nonempty(targets, requested, keys.drop_last(), language, root, i);
    }
}

proof fn lemma_unexpected_empty(
    targets: Seq<AnalyzeTarget>,
    requested: Option<SignalKind>,
    keys: Seq<(Language, Seq<char>, SignalKind)>,
    language: Language,
    root: Seq<char>,
)
    requires
        forall|i: int| 0 <= i < keys.len() ==> is_expected(targets, requested, #[trigger] keys[i]),
    ensures
        unexpected_messages(targets, requested, keys, language, root).len() == 0,
    decreases keys.len(),
{
    if keys.len() > 0 {
        assert forall|i: int| 0 <= i < keys.drop_last().len() implies is_expected(
            targets,
            requested,
            #[trigger] keys.drop_last()[i],
        ) by {
            assert(keys.drop_last()[i] == keys[i]);
        }
        lemma_unexpected_empty(targets, requested, keys.drop_last(), language, root);
        assert(is_expected(targets, requested, keys[keys.len() - 1]));
    }
}

proof fn lemma_expected_nonempty(
    targets: Seq<AnalyzeTarget>,
    requested: Option<SignalKind>,
    keys: Seq<(Language, Seq<char>, SignalKind)>,
    language: Language,
    root: Seq<char>,
    n: int,
    j: int,
)
    requires
        0 <= j < n,
        is_expected(targets, requested, (language, root, all_kinds()[j])),
        key_count(keys, (language, root, all_kinds()[j])) != 1,
    ensures
        expected_messages(targets, requested, keys, language, root, n).len() > 0,
    decreases n,
{
    if j < n - 1 {
        lemma_expected_nonempty(targets, requested, keys, language, root, n - 1, j);
    }
}

proof fn lemma_expected_empty(
    targets: Seq<AnalyzeTarget>,
    requested: Option<SignalKind>,
    keys: Seq<(Language, Seq<char>, SignalKind)>,
    language: Language,
    root: Seq<char>,
    n: int,
)
    requires
        forall|k: (Language, Seq<char>, SignalKind)|
            #![trigger is_expected(targets, requested, k)]
            is_expected(targets, requested, k) ==> key_count(keys, k) == 1,
    ensures
        expected_messages(targets, requested, keys, language, root, n).len() == 0,
    decreases n,
{
    if n > 0 {
        lemma_expected_empty(targets, requested, keys, language, root, n - 1);
        let k = (language, root, all_kinds()[n - 1]);
        if is_expected(targets, requested, k) {
            assert(key_count(keys, k) == 1);
        }
    }
}

/// Reconciliation fails closed: it adds collection issues exactly when the
/// emitted rows do not answer the plan one for one (a row that was not
/// planned, a planned row that is missing, or one emitted more than once),
/// provided there is a runnable target to answer for them.
pub proof fn law_issues_exactly_when_rows_do_not_answer_plan(
    targets: Seq<AnalyzeTarget>,
    requested: Option<SignalKind>,
    keys: Seq<(Language, Seq<char>, SignalKind)>,
)
    ensures
        rows_answer_plan(targets, requested, keys) ==> collection_issues(
            targets,
            requested,
            keys,
            distinct_targets(targets),
        ).len() == 0,
        targets.len() > 0 && !rows_answer_plan(targets, requested, keys) ==> collection_issues(
            targets,
            requested,
            keys,
            distinct_targets(targets),
        ).len() > 0,
{
    let order = distinct_targets(targets);
    if rows_answer_plan(targets, requested, keys) {
        assert forall|j: int| 0 <= j < order.len() implies target_messages(
            targets,
            requested,
            keys,
            (#[trigger] order[j]).0,
            order[j].1,
        ).len() == 0 by {
            lemma_expected_empty(targets, requested, keys, order[j].0, order[j].1, 6);
            lemma_unexpected_empty(targets, requested, keys, order[j].0, order[j].1);
        }
        lemma_collection_issues_empty(targets, requested, keys, order);
    }
    if targets.len() > 0 && !rows_answer_plan(targets, requested, keys) {
        if exists|i: int| 0 <= i < keys.len() && !is_expected(targets, requested, #[trigger] keys[i]) {
            let i = choose|i: int| 0 <= i < keys.len() && !is_expected(targets, requested, #[trigger] keys[i]);
            let k = keys[i];
            let x = if is_runnable(targets, k.0, k.1) {
                let t = choose|t: int| 0 <= t < targets.len() && runs_as(#[trigger] targets[t], k.0, k.1);
                assert(target_key(targets[t]) == (k.0, k.1));
                lemma_distinct_targets_has(targets, t);
                (k.0, k.1)
            } else {
                lemma_least_target_is_a_target(targets);
                let t = choose|t: int|
                    0 <= t < targets.len() && Some(target_key(#[trigger] targets[t])) == least_target(targets);
                lemma_distinct_targets_has(targets, t);
                target_key(targets[t])
            };
            assert(responsible(targets, k.0, k.1) == Some(x));
            let j = choose|j: int| 0 <= j < order.len() && order[j] == x;
            lemma_unexpected_nonempty(targets, requested, keys, x.0, x.1, i);
            lemma_collection_issues_nonempty(targets, requested, keys, order, j);
        } else {
            let k = choose|k: (Language, Seq<char>, SignalKind)|
                #![trigger is_expected(targets, requested, k)]
                is_expected(targets, requested, k) && key_count(keys, k) != 1;
            let t = choose|t: int| 0 <= t < targets.len() && expects(#[trigger] targets[t], requested, k);
            assert(target_key(targets[t]) == (k.0, k.1));
            lemma_distinct_targets_has(targets, t);
            let j = choose|j: int| 0 <= j < order.len() && order[j] == (k.0, k.1);
            let kind_index: int = match k.2 {
                SignalKind::Test => 0,
                SignalKind::Coverage => 1,
                SignalKind::Size => 2,
                SignalKind::Complexity => 3,
                SignalKind::Deps => 4,
                SignalKind::Mutation => 5,
            };
            assert(all_kinds()[kind_index] == k.2);
            assert((k.0, k.1, all_kinds()[kind_index]) == k);
            lemma_expected_nonempty(targets, requested, keys, k.0, k.1, 6, kind_index);
            lemma_collection_issues_nonempty(targets, requested, keys, order, j);
        }
    }
}

/// The issues of a reconciled run before they are listed: the planned
/// issues, then one collection issue per runnable target with something to
/// report.
pub open spec fn unlisted_issues(planned: Seq<CompletionIssue>, u: Seq<CompletionIssue>, added: Seq<(Language, Seq<char>, CompletionStage, Seq<char>)>) -> bool {
    &&& u.len() == planned.len() + added.len()
    &&& u.take(planned.len() as int) == planned
    &&& forall|k: int| 0 <= k < added.len() ==> issue_parts(#[trigger] u[planned.len() + k]) == added[k]
}

/// Reconciles emitted rows with the rows planned for the runnable targets.
/// Kept are the expected rows, each the first time it was emitted, in
/// emission order and one per key; every
/// missing, repeated or unexpected row becomes part of a collection-stage
/// issue of the target that answers for it. The issues are listed by
/// language, root and stage; every issue counts a skipped target.
#[verifier::spinoff_prover]
pub fn reconcile<R>(
    planning: &AnalyzePlanning,
    scope: CompletionScope,
    requested_kind: Option<SignalKind>,
    emitted_rows: Vec<EmittedRow<R>>,
) -> (r: (RunCompletion, Vec<EmittedRow<R>>))
    ensures
        r.1@ == kept_rows(emitted_rows@, planning.targets@, requested_kind),
        r.0.scope == scope,
        r.0.expected_targets == planning.expected_targets,
        r.0.detected_targets == planning.detected_targets,
        exists|u: Seq<CompletionIssue>| #![auto]
            unlisted_issues(
                planning.issues@,
                u,
                collection_issues(
                    planning.targets@,
                    requested_kind,
                    row_keys(emitted_rows@),
                    distinct_targets(planning.targets@),
                ),
            ) && r.0.issues@ == sort_listed(u),
        r.0.skipped_targets == r.0.issues@.len(),
        r.0.completed_targets == (if planning.expected_targets >= r.0.skipped_targets {
            planning.expected_targets - r.0.skipped_targets
        } else {
            0
        }),
        r.0.state == (if r.0.skipped_targets == 0 {
            CompletionState::Complete
        } else {
            CompletionState::Incomplete
        }),
        planning.targets@.len() > 0 && !rows_answer_plan(planning.targets@, requested_kind, row_keys(emitted_rows@))
            ==> r.0.state == CompletionState::Incomplete,
        rows_answer_plan(planning.targets@, requested_kind, row_keys(emitted_rows@)) ==> r.0.issues@.len()
            == planning.issues@.len(),
        crate::order::is_listed(r.0.issues@),
        forall|k: int| 0 <= k < planning.issues@.len() ==> r.0.issues@.contains(#[trigger] planning.issues@[k]),
        forall|i: CompletionIssue|
            #![trigger r.0.issues@.contains(i)]
            r.0.issues@.contains(i) && !planning.issues@.contains(i) ==> i.stage == CompletionStage::Collection,
        exists|idx: Seq<int>|
            idx.len() == r.1@.len() && (forall|i: int|
                0 <= i < idx.len() ==> 0 <= #[trigger] idx[i] < emitted_rows@.len() && r.1@[i] == emitted_rows@[idx[i]])
                && (forall|i: int, j: int| 0 <= i < j < idx.len() ==> #[trigger] idx[i] < #[trigger] idx[j]),
        forall|i: int|
            0 <= i < r.1@.len() ==> is_expected(planning.targets@, requested_kind, row_key(#[trigger] r.1@[i])),
        forall|i: int, j: int|
            0 <= i < j < r.1@.len() ==> row_key(#[trigger] r.1@[i]) != row_key(#[trigger] r.1@[j]),
        forall|j: int|
            0 <= j < emitted_rows@.len() && is_expected(planning.targets@, requested_kind, row_key(#[trigger] emitted_rows@[j]))
                && key_count(row_keys(emitted_rows@.take(j)), row_key(emitted_rows@[j])) == 0 ==> r.1@.contains(
                emitted_rows@[j],
            ),
        planning.targets@.len() > 0 ==> forall|j: int|
            0 <= j < emitted_rows@.len() && !is_expected(planning.targets@, requested_kind, row_key(#[trigger] emitted_rows@[j]))
                ==> exists|i: int, p: int|
                #![trigger r.0.issues@[i], crate::agents::occurs_at(r.0.issues@[i].message@, unexpected_message(row_key(emitted_rows@[j])), p)]
                0 <= i < r.0.issues@.len() && r.0.issues@[i].stage == CompletionStage::Collection && responsible(
                    planning.targets@,
                    row_key(emitted_rows@[j]).0,
                    row_key(emitted_rows@[j]).1,
                ) == Some((r.0.issues@[i].language, r.0.issues@[i].configured_root@)) && crate::agents::occurs_at(
                    r.0.issues@[i].message@,
                    unexpected_message(row_key(emitted_rows@[j])),
                    p,
                ),
{
    let ghost emitted = emitted_rows@;
    proof {
        law_kept_rows_are_first_expected_rows(emitted, planning.targets@, requested_kind);
    }
    let targets = &planning.targets;
    let roots = target_roots(targets);
    let keys = row_keys_exec(&emitted_rows);
    let ghost kv = key_views(keys@);
    let ghost all = emitted_rows@;
    let least = least_target_exec(targets, &roots);
    assert(kv.len() == keys@.len() && row_keys(all).len() == all.len());

    // Keep each expected row the first time it is emitted.
    let n = emitted_rows.len();
    let mut rest = emitted_rows;
    let mut rows: Vec<EmittedRow<R>> = Vec::new();
    let mut i: usize = 0;
    while rest.len() > 0
        invariant
            n == all.len(),
            keys@.len() == all.len(),
            kv == key_views(keys@),
            kv == row_keys(all),
            roots_match(targets@, roots@),
            i <= all.len(),
            rest@ == all.skip(i as int),
            rows@ == kept_rows(all.take(i as int), targets@, requested_kind),
        decreases rest@.len(),
    {
        let row = rest.remove(0);
        proof {
            assert(row == all[i as int]);
            assert(all.take(i + 1).drop_last() =~= all.take(i as int));
            assert(all.take(i + 1).last() == row);
            assert(kv[i as int] == row_key(all[i as int]));
            assert(kv[i as int] == (keys@[i as int].0, keys@[i as int].1@, keys@[i as int].2));
            assert(row_keys(all.take(i as int)) =~= kv.take(i as int));
        }
        let key = &keys[i];
        let keep = expected_exec(targets, &roots, requested_kind, key.0, key.1.as_str(), key.2)
            && count_key_upto(&keys, i, key.0, key.1.as_str(), key.2) == 0;
        if keep {
            rows.push(row);
        }
        assert(rest@ =~= all.skip(i + 1));
        i = i + 1;
    }
    assert(all.take(i as int) =~= all);

    // One collection issue per runnable target with something to report.
    let order = distinct_targets_exec(targets, &roots);
    let ghost ov = target_views(order@);
    let mut added: Vec<CompletionIssue> = Vec::new();
    let mut j: usize = 0;
    while j < order.len()
        invariant
            j <= order@.len(),
            ov == target_views(order@),
            kv == key_views(keys@),
            roots_match(targets@, roots@),
            match least_target(targets@) {
                Some(m) => least matches Some(x) && x.0 == m.0 && x.1@ == m.1,
                None => least is None,
            },
            added@.map_values(|i: CompletionIssue| issue_parts(i)) == collection_issues(
                targets@,
                requested_kind,
                kv,
                ov.take(j as int),
            ),
        decreases order@.len() - j,
    {
        proof {
            assert(ov.take(j + 1).drop_last() =~= ov.take(j as int));
            assert(ov.take(j + 1).last() == ov[j as int]);
        }
        let language = order[j].0;
        let msgs = target_messages_exec(targets, &roots, requested_kind, &keys, &least, language, order[j].1.as_str());
        if msgs.len() > 0 {
            let sep = chars_of("; ");
            let joined = join_range(&msgs, 0, msgs.len(), &sep);
            assert(views(msgs@).subrange(0, msgs@.len() as int) =~= views(msgs@));
            let issue = CompletionIssue {
                language,
                configured_root: order[j].1.clone(),
                stage: CompletionStage::Collection,
                message: string_from_chars(&joined),
            };
            let ghost before = added@;
            added.push(issue);
            assert(added@.map_values(|i: CompletionIssue| issue_parts(i)) =~= before.map_values(
                |i: CompletionIssue| issue_parts(i),
            ).push(issue_parts(issue)));
        } else {
            assert(added@.map_values(|i: CompletionIssue| issue_parts(i)) =~= collection_issues(
                targets@,
                requested_kind,
                kv,
                ov.take(j + 1),
            ));
        }
        j = j + 1;
    }
    assert(ov.take(order@.len() as int) =~= ov);

    let mut issues = crate::analysis::clone_issues(&planning.issues);
    let ghost planned = issues@;
    let ghost extra = added@;
    let mut more = added;
    issues.append(&mut more);
    let ghost u = issues@;
    proof {
        assert(u.take(planned.len() as int) =~= planned);
        assert forall|k: int| 0 <= k < extra.len() implies issue_parts(#[trigger] u[planned.len() + k])
            == collection_issues(targets@, requested_kind, kv, ov)[k] by {
            assert(u[planned.len() + k] == extra[k]);
            assert(extra.map_values(|i: CompletionIssue| issue_parts(i))[k] == issue_parts(extra[k]));
        }
        assert(unlisted_issues(planning.issues@, u, collection_issues(targets@, requested_kind, kv, ov)));
    }
    let listed = sort_list(issues);
    proof {
        crate::order::lemma_sort_listed(u);
        law_issues_exactly_when_rows_do_not_answer_plan(targets@, requested_kind, kv);
        lemma_collection_stage(targets@, requested_kind, kv, ov);
        lemma_issue_origins(planning.issues@, u, collection_issues(targets@, requested_kind, kv, ov), listed@);
    }
    let skipped_targets = listed.len() as u64;
    let completed_targets = if planning.expected_targets >= skipped_targets {
        planning.expected_targets - skipped_targets
    } else {
        0
    };
    let completion = RunCompletion {
        scope,
        state: if skipped_targets == 0 {
            CompletionState::Complete
        } else {
            CompletionState::Incomplete
        },
        expected_targets: planning.expected_targets,
        detected_targets: planning.detected_targets,
        completed_targets,
        skipped_targets,
        issues: listed,
    };
    proof {
        if planning.targets@.len() > 0 {
            lemma_unexpected_rows_in_listing(
                planning.targets@,
                requested_kind,
                all,
                kv,
                planning.issues@,
                u,
                completion.issues@,
            );
        }
    }
    (completion, rows)
}


proof fn lemma_key_count_zero(keys: Seq<(Language, Seq<char>, SignalKind)>, key: (Language, Seq<char>, SignalKind))
    ensures
        key_count(keys, key) == 0 <==> forall|i: int| 0 <= i < keys.len() ==> keys[i] != key,
    decreases keys.len(),
{
    if keys.len() > 0 {
        lemma_key_count_zero(keys.drop_last(), key);
        if key_count(keys, key) == 0 {
            assert forall|i: int| 0 <= i < keys.len() implies keys[i] != key by {
                if i < keys.len() - 1 {
                    assert(keys[i] == keys.drop_last()[i]);
                }
            }
        } else if keys.last() != key {
            let i = choose|i: int| 0 <= i < keys.drop_last().len() && keys.drop_last()[i] == key;
            assert(keys[i] == key);
        }
    }
}

/// The kept rows are the emitted rows at increasing positions `idx`.
proof fn lemma_kept_positions<R>(rows: Seq<EmittedRow<R>>, targets: Seq<AnalyzeTarget>, requested: Option<SignalKind>) -> (idx: Seq<int>)
    ensures
        idx.len() == kept_rows(rows, targets, requested).len(),
        forall|i: int| 0 <= i < idx.len() ==> 0 <= #[trigger] idx[i] < rows.len() && kept_rows(rows, targets, requested)[i] == rows[idx[i]],
        forall|i: int, j: int| 0 <= i < j < idx.len() ==> #[trigger] idx[i] < #[trigger] idx[j],
    decreases rows.len(),
{
    if rows.len() == 0 {
        seq![]
    } else {
        let prev = lemma_kept_positions(rows.drop_last(), targets, requested);
        let k = row_key(rows.last());
        if is_expected(targets, requested, k) && key_count(row_keys(rows.drop_last()), k) == 0 {
            let idx = prev.push(rows.len() - 1);
            assert forall|i: int| 0 <= i < idx.len() implies 0 <= #[trigger] idx[i] < rows.len()
                && kept_rows(rows, targets, requested)[i] == rows[idx[i]] by {
                if i < prev.len() {
                    assert(rows.drop_last()[prev[i]] == rows[prev[i]]);
                }
            }
            idx
        } else {
            assert forall|i: int| 0 <= i < prev.len() implies 0 <= #[trigger] prev[i] < rows.len()
                && kept_rows(rows, targets, requested)[i] == rows[prev[i]] by {
                assert(rows.drop_last()[prev[i]] == rows[prev[i]]);
            }
            prev
        }
    }
}

proof fn lemma_kept_rows_props<R>(rows: Seq<EmittedRow<R>>, targets: Seq<AnalyzeTarget>, requested: Option<SignalKind>)
    ensures
        forall|i: int|
            0 <= i < kept_rows(rows, targets, requested).len() ==> is_expected(
                targets,
                requested,
                row_key(#[trigger] kept_rows(rows, targets, requested)[i]),
            ),
        forall|i: int, j: int|
            0 <= i < j < kept_rows(rows, targets, requested).len() ==> row_key(
                #[trigger] kept_rows(rows, targets, requested)[i],
            ) != row_key(#[trigger] kept_rows(rows, targets, requested)[j]),
        forall|j: int|
            0 <= j < rows.len() && is_expected(targets, requested, row_key(#[trigger] rows[j])) && key_count(
                row_keys(rows.take(j)),
                row_key(rows[j]),
            ) == 0 ==> kept_rows(rows, targets, requested).contains(rows[j]),
    decreases rows.len(),
{
    if rows.len() > 0 {
        let rest = rows.drop_last();
        lemma_kept_rows_props(rest, targets, requested);
        let prev = kept_rows(rest, targets, requested);
        let kept = kept_rows(rows, targets, requested);
        let k = row_key(rows.last());
        let idx = lemma_kept_positions(rest, targets, requested);
        if is_expected(targets, requested, k) && key_count(row_keys(rest), k) == 0 {
            lemma_key_count_zero(row_keys(rest), k);
            assert forall|i: int, j: int| 0 <= i < j < kept.len() implies row_key(#[trigger] kept[i]) != row_key(
                #[trigger] kept[j],
            ) by {
                if j == kept.len() - 1 {
                    assert(kept[i] == rest[idx[i]]);
                    assert(row_keys(rest)[idx[i]] == row_key(kept[i]));
                } else {
                    assert(kept[i] == prev[i] && kept[j] == prev[j]);
                }
            }
        }
        assert forall|j: int|
            0 <= j < rows.len() && is_expected(targets, requested, row_key(#[trigger] rows[j])) && key_count(
                row_keys(rows.take(j)),
                row_key(rows[j]),
            ) == 0 implies kept.contains(rows[j]) by {
            if j < rows.len() - 1 {
                assert(rows.take(j) =~= rest.take(j));
                assert(rest[j] == rows[j]);
                assert(prev.contains(rest[j]));
                let t = choose|t: int| 0 <= t < prev.len() && prev[t] == rest[j];
                assert(kept[t] == prev[t]);
            } else {
                assert(rows.take(j) =~= rest);
                assert(kept.last() == rows[j]);
                assert(kept[kept.len() - 1] == rows[j]);
            }
        }
    }
}

/// The rows a reconciliation keeps are emitted rows in emission order, each
/// expected by the plan, no two with the same key; and every expected key
/// that was emitted keeps the first row emitted for it.
pub proof fn law_kept_rows_are_first_expected_rows<R>(
    rows: Seq<EmittedRow<R>>,
    targets: Seq<AnalyzeTarget>,
    requested: Option<SignalKind>,
)
    ensures
        exists|idx: Seq<int>|
            idx.len() == kept_rows(rows, targets, requested).len() && (forall|i: int|
                0 <= i < idx.len() ==> 0 <= #[trigger] idx[i] < rows.len() && kept_rows(rows, targets, requested)[i]
                    == rows[idx[i]]) && (forall|i: int, j: int| 0 <= i < j < idx.len() ==> #[trigger] idx[i] < #[trigger] idx[j]),
        forall|i: int|
            0 <= i < kept_rows(rows, targets, requested).len() ==> is_expected(
                targets,
                requested,
                row_key(#[trigger] kept_rows(rows, targets, requested)[i]),
            ),
        forall|i: int, j: int|
            0 <= i < j < kept_rows(rows, targets, requested).len() ==> row_key(
                #[trigger] kept_rows(rows, targets, requested)[i],
            ) != row_key(#[trigger] kept_rows(rows, targets, requested)[j]),
        forall|j: int|
            0 <= j < rows.len() && is_expected(targets, requested, row_key(#[trigger] rows[j])) && key_count(
                row_keys(rows.take(j)),
                row_key(rows[j]),
            ) == 0 ==> kept_rows(rows, targets, requested).contains(rows[j]),
{
    let idx = lemma_kept_positions(rows, targets, requested);
    lemma_kept_rows_props(rows, targets, requested);
}


proof fn lemma_collection_stage(
    targets: Seq<AnalyzeTarget>,
    requested: Option<SignalKind>,
    keys: Seq<(Language, Seq<char>, SignalKind)>,
    order: Seq<(Language, Seq<char>)>,
)
    ensures
        forall|k: int|
            0 <= k < collection_issues(targets, requested, keys, order).len() ==> (#[trigger] collection_issues(
                targets,
                requested,
                keys,
                order,
            )[k]).2 == CompletionStage::Collection,
    decreases order.len(),
{
    if order.len() > 0 {
        lemma_collection_stage(targets, requested, keys, order.drop_last());
    }
}

proof fn lemma_issue_origins(
    planned: Seq<CompletionIssue>,
    u: Seq<CompletionIssue>,
    added: Seq<(Language, Seq<char>, CompletionStage, Seq<char>)>,
    listed: Seq<CompletionIssue>,
)
    requires
        unlisted_issues(planned, u, added),
        forall|k: int| 0 <= k < added.len() ==> (#[trigger] added[k]).2 == CompletionStage::Collection,
        listed.to_multiset() == u.to_multiset(),
    ensures
        forall|k: int| 0 <= k < planned.len() ==> listed.contains(#[trigger] planned[k]),
        forall|i: CompletionIssue|
            #![trigger listed.contains(i)]
            listed.contains(i) && !planned.contains(i) ==> i.stage == CompletionStage::Collection,
{
    broadcast use vstd::seq_lib::group_to_multiset_ensures;

    assert forall|k: int| 0 <= k < planned.len() implies listed.contains(#[trigger] planned[k]) by {
        assert(u.take(planned.len() as int)[k] == u[k]);
        assert(u.contains(planned[k]));
        assert(u.to_multiset().count(planned[k]) > 0);
    }
    assert forall|i: CompletionIssue| #![trigger listed.contains(i)]
        listed.contains(i) && !planned.contains(i) implies i.stage == CompletionStage::Collection by {
        assert(listed.to_multiset().count(i) > 0);
        assert(u.contains(i));
        let p = choose|p: int| 0 <= p < u.len() && u[p] == i;
        if p < planned.len() {
            assert(u.take(planned.len() as int)[p] == u[p]);
            assert(planned[p] == i);
        } else {
            let k = p - planned.len();
            assert(issue_parts(u[planned.len() + k]) == added[k]);
        }
    }
}

proof fn lemma_unexpected_has(
    targets: Seq<AnalyzeTarget>,
    requested: Option<SignalKind>,
    keys: Seq<(Language, Seq<char>, SignalKind)>,
    language: Language,
    root: Seq<char>,
    i: int,
)
    requires
        0 <= i < keys.len(),
        !is_expected(targets, requested, keys[i]),
        responsible(targets, keys[i].0, keys[i].1) == Some((language, root)),
    ensures
        unexpected_messages(targets, requested, keys, language, root).contains(unexpected_message(keys[i])),
    decreases keys.len(),
{
    let prev = unexpected_messages(targets, requested, keys.drop_last(), language, root);
    if i < keys.len() - 1 {
        assert(keys.drop_last()[i] == keys[i]);
        lemma_unexpected_has(targets, requested, keys.drop_last(), language, root, i);
        let t = choose|t: int| 0 <= t < prev.len() && prev[t] == unexpected_message(keys[i]);
        assert(unexpected_messages(targets, requested, keys, language, root)[t] == prev[t]);
    } else {
        assert(unexpected_messages(targets, requested, keys, language, root)[prev.len() as int] == unexpected_message(
            keys[i],
        ));
    }
}

/// Each piece of a joined text occurs in it.
proof fn lemma_join_has(pieces: Seq<Seq<char>>, sep: Seq<char>, i: int) -> (p: int)
    requires
        0 <= i < pieces.len(),
    ensures
        crate::agents::occurs_at(join(pieces, sep), pieces[i], p),
    decreases pieces.len(),
{
    let whole = join(pieces, sep);
    if pieces.len() == 1 {
        assert(whole.subrange(0, pieces[0].len() as int) =~= pieces[0]);
        0
    } else if i == pieces.len() - 1 {
        let front = join(pieces.drop_last(), sep) + sep;
        assert(whole.subrange(front.len() as int, front.len() + pieces[i].len() as int) =~= pieces[i]);
        front.len() as int
    } else {
        assert(pieces.drop_last()[i] == pieces[i]);
        let q = lemma_join_has(pieces.drop_last(), sep, i);
        let front = join(pieces.drop_last(), sep);
        assert(whole.subrange(q, q + pieces[i].len()) =~= front.subrange(q, q + pieces[i].len()));
        q
    }
}

proof fn lemma_collection_issues_has(
    targets: Seq<AnalyzeTarget>,
    requested: Option<SignalKind>,
    keys: Seq<(Language, Seq<char>, SignalKind)>,
    order: Seq<(Language, Seq<char>)>,
    j: int,
) -> (k: int)
    requires
        0 <= j < order.len(),
        target_messages(targets, requested, keys, order[j].0, order[j].1).len() > 0,
    ensures
        0 <= k < collection_issues(targets, requested, keys, order).len(),
        collection_issues(targets, requested, keys, order)[k] == (
            order[j].0,
            order[j].1,
            CompletionStage::Collection,
            join(target_messages(targets, requested, keys, order[j].0, order[j].1), "; "@),
        ),
    decreases order.len(),
{
    let prev = collection_issues(targets, requested, keys, order.drop_last());
    if j < order.len() - 1 {
        assert(order.drop_last()[j] == order[j]);
        let k = lemma_collection_issues_has(targets, requested, keys, order.drop_last(), j);
        assert(collection_issues(targets, requested, keys, order)[k] == prev[k]);
        k
    } else {
        prev.len() as int
    }
}

/// A row that the plan does not expect is reported: when some target is
/// runnable, a collection issue of the target that answers for the row
/// (its own target when that one is runnable, otherwise the least runnable
/// target) says that the row was emitted unexpectedly.
pub proof fn law_unexpected_row_is_reported(
    targets: Seq<AnalyzeTarget>,
    requested: Option<SignalKind>,
    keys: Seq<(Language, Seq<char>, SignalKind)>,
    j: int,
)
    requires
        targets.len() > 0,
        0 <= j < keys.len(),
        !is_expected(targets, requested, keys[j]),
    ensures
        exists|k: int, p: int|
            #![trigger collection_issues(targets, requested, keys, distinct_targets(targets))[k], crate::agents::occurs_at(collection_issues(targets, requested, keys, distinct_targets(targets))[k].3, unexpected_message(keys[j]), p)]
            0 <= k < collection_issues(targets, requested, keys, distinct_targets(targets)).len() && {
                let c = collection_issues(targets, requested, keys, distinct_targets(targets))[k];
                &&& c.2 == CompletionStage::Collection
                &&& responsible(targets, keys[j].0, keys[j].1) == Some((c.0, c.1))
                &&& crate::agents::occurs_at(c.3, unexpected_message(keys[j]), p)
            },
{
    let key = keys[j];
    let order = distinct_targets(targets);
    let t: (Language, Seq<char>) = if is_runnable(targets, key.0, key.1) {
        let i = choose|i: int| 0 <= i < targets.len() && runs_as(#[trigger] targets[i], key.0, key.1);
        lemma_distinct_targets_has(targets, i);
        (key.0, key.1)
    } else {
        lemma_least_target_is_a_target(targets);
        let i = choose|i: int| 0 <= i < targets.len() && Some(target_key(#[trigger] targets[i])) == least_target(targets);
        lemma_distinct_targets_has(targets, i);
        target_key(targets[i])
    };
    assert(responsible(targets, key.0, key.1) == Some(t));
    assert(order.contains(t));
    let oj = choose|oj: int| 0 <= oj < order.len() && order[oj] == t;
    lemma_unexpected_has(targets, requested, keys, t.0, t.1, j);
    let un = unexpected_messages(targets, requested, keys, t.0, t.1);
    let ms = target_messages(targets, requested, keys, t.0, t.1);
    let e = expected_messages(targets, requested, keys, t.0, t.1, 6);
    let m = choose|m: int| 0 <= m < un.len() && un[m] == unexpected_message(key);
    assert(ms[e.len() + m] == unexpected_message(key));
    let k = lemma_collection_issues_has(targets, requested, keys, order, oj);
    let p = lemma_join_has(ms, "; "@, e.len() + m);
    let c = collection_issues(targets, requested, keys, order)[k];
    assert(c.2 == CompletionStage::Collection && responsible(targets, key.0, key.1) == Some((c.0, c.1))
        && crate::agents::occurs_at(c.3, unexpected_message(key), p));
}

/// Every added issue has its place in a listing of the issues.
proof fn lemma_listing_has_added(
    planned: Seq<CompletionIssue>,
    u: Seq<CompletionIssue>,
    added: Seq<(Language, Seq<char>, CompletionStage, Seq<char>)>,
    listed: Seq<CompletionIssue>,
    k: int,
) -> (i: int)
    requires
        unlisted_issues(planned, u, added),
        listed.to_multiset() == u.to_multiset(),
        0 <= k < added.len(),
    ensures
        0 <= i < listed.len(),
        issue_parts(listed[i]) == added[k],
{
    broadcast use vstd::seq_lib::group_to_multiset_ensures;

    let x = u[planned.len() + k];
    assert(u.contains(x));
    assert(u.to_multiset().count(x) > 0);
    assert(listed.contains(x));
    choose|i: int| 0 <= i < listed.len() && listed[i] == x
}

proof fn lemma_unexpected_rows_in_listing<R>(
    targets: Seq<AnalyzeTarget>,
    requested: Option<SignalKind>,
    all: Seq<EmittedRow<R>>,
    kv: Seq<(Language, Seq<char>, SignalKind)>,
    planned: Seq<CompletionIssue>,
    u: Seq<CompletionIssue>,
    listed: Seq<CompletionIssue>,
)
    requires
        targets.len() > 0,
        kv == row_keys(all),
        unlisted_issues(planned, u, collection_issues(targets, requested, kv, distinct_targets(targets))),
        listed.to_multiset() == u.to_multiset(),
    ensures
        forall|j: int|
            0 <= j < all.len() && !is_expected(targets, requested, row_key(#[trigger] all[j])) ==> exists|i: int, p: int|
                #![trigger listed[i], crate::agents::occurs_at(listed[i].message@, unexpected_message(row_key(all[j])), p)]
                0 <= i < listed.len() && listed[i].stage == CompletionStage::Collection && responsible(
                    targets,
                    row_key(all[j]).0,
                    row_key(all[j]).1,
                ) == Some((listed[i].language, listed[i].configured_root@)) && crate::agents::occurs_at(
                    listed[i].message@,
                    unexpected_message(row_key(all[j])),
                    p,
                ),
{
    let ov = distinct_targets(targets);
    assert forall|j: int| 0 <= j < all.len() && !is_expected(targets, requested, row_key(#[trigger] all[j])) implies exists|
        i: int,
        p: int,
    |
        #![trigger listed[i], crate::agents::occurs_at(listed[i].message@, unexpected_message(row_key(all[j])), p)]
        0 <= i < listed.len() && listed[i].stage == CompletionStage::Collection && responsible(
            targets,
            row_key(all[j]).0,
            row_key(all[j]).1,
        ) == Some((listed[i].language, listed[i].configured_root@)) && crate::agents::occurs_at(
            listed[i].message@,
            unexpected_message(row_key(all[j])),
            p,
        ) by {
        assert(kv[j] == row_key(all[j]));
        law_unexpected_row_is_reported(targets, requested, kv, j);
        let ci = collection_issues(targets, requested, kv, ov);
        let (k, p) = choose|k: int, p: int|
            #![trigger ci[k], crate::agents::occurs_at(ci[k].3, unexpected_message(kv[j]), p)]
            0 <= k < ci.len() && ci[k].2 == CompletionStage::Collection && responsible(targets, kv[j].0, kv[j].1)
                == Some((ci[k].0, ci[k].1)) && crate::agents::occurs_at(ci[k].3, unexpected_message(kv[j]), p);
        let i = lemma_listing_has_added(planned, u, ci, listed, k);
        assert(crate::agents::occurs_at(listed[i].message@, unexpected_message(row_key(all[j])), p));
    }
}

/// What `reconcile` reports of its issues, which it lists as
/// `sort_listed(u)` for the plan's issues `planned` followed, in `u`, by the
/// collection issues it adds: every planned issue is
/// kept; every other issue is at the collection stage; the issues are
/// listed by language, normalized root and stage; and, when some target is
/// runnable, a row the plan does not expect is not kept and is reported in
/// a collection issue of the target that answers for it (its own target
/// when runnable, otherwise the least runnable one) as emitted unexpectedly.
pub proof fn law_reconcile_issues<R>(
    planned: Seq<CompletionIssue>,
    u: Seq<CompletionIssue>,
    targets: Seq<AnalyzeTarget>,
    requested: Option<SignalKind>,
    rows: Seq<EmittedRow<R>>,
)
    requires
        unlisted_issues(planned, u, collection_issues(targets, requested, row_keys(rows), distinct_targets(targets))),
    ensures
        forall|k: int| 0 <= k < planned.len() ==> sort_listed(u).contains(#[trigger] planned[k]),
        forall|i: CompletionIssue|
            #![trigger sort_listed(u).contains(i)]
            sort_listed(u).contains(i) && !planned.contains(i) ==> i.stage == CompletionStage::Collection,
        crate::order::is_listed(sort_listed(u)),
        targets.len() > 0 ==> forall|j: int|
            0 <= j < rows.len() && !is_expected(targets, requested, row_key(#[trigger] rows[j])) ==> !kept_rows(
                rows,
                targets,
                requested,
            ).contains(rows[j]) && exists|i: int, p: int|
                #![trigger sort_listed(u)[i], crate::agents::occurs_at(sort_listed(u)[i].message@, unexpected_message(row_key(rows[j])), p)]
                0 <= i < sort_listed(u).len() && sort_listed(u)[i].stage == CompletionStage::Collection && responsible(
                    targets,
                    row_key(rows[j]).0,
                    row_key(rows[j]).1,
                ) == Some((sort_listed(u)[i].language, sort_listed(u)[i].configured_root@)) && crate::agents::occurs_at(
                    sort_listed(u)[i].message@,
                    unexpected_message(row_key(rows[j])),
                    p,
                ),
{
    let keys = row_keys(rows);
    let added = collection_issues(targets, requested, keys, distinct_targets(targets));
    let listed = sort_listed(u);
    crate::order::lemma_sort_listed(u);
    lemma_collection_stage(targets, requested, keys, distinct_targets(targets));
    lemma_issue_origins(planned, u, added, listed);
    if targets.len() > 0 {
        lemma_unexpected_rows_in_listing(targets, requested, rows, keys, planned, u, listed);
        law_kept_rows_are_first_expected_rows(rows, targets, requested);
        let kept = kept_rows(rows, targets, requested);
        assert forall|j: int| 0 <= j < rows.len() && !is_expected(targets, requested, row_key(#[trigger] rows[j])) implies !kept.contains(
            rows[j],
        ) by {
            if kept.contains(rows[j]) {
                let t = choose|t: int| 0 <= t < kept.len() && kept[t] == rows[j];
                assert(is_expected(targets, requested, row_key(kept[t])));
            }
        }
    }
}

/// With no requested signal a target expects exactly the signals its
/// policy enables, each by its own check; with one requested it expects
/// that signal alone.
pub proof fn law_expected_signals_are_the_enabled_ones(t: AnalyzeTarget, kind: SignalKind)
    ensures
        kind_requested(t, None, SignalKind::Test) == t.checks.test,
        kind_requested(t, None, SignalKind::Coverage) == t.checks.coverage,
        kind_requested(t, None, SignalKind::Size) == t.checks.size,
        kind_requested(t, None, SignalKind::Complexity) == t.checks.complexity,
        kind_requested(t, None, SignalKind::Deps) == t.checks.deps,
        kind_requested(t, None, SignalKind::Mutation) == t.checks.mutation,
        kind_requested(t, None, kind) == crate::vocabulary::spec_signal_enabled(t.checks, kind),
        forall|k: SignalKind| kind_requested(t, Some(k), kind) <==> k == kind,
{
}

/// With no requested signal, a row is expected exactly when some runnable
/// target of its language and root enables its signal.
pub proof fn law_rows_expected_for_enabled_signals(
    targets: Seq<AnalyzeTarget>,
    key: (Language, Seq<char>, SignalKind),
)
    ensures
        is_expected(targets, None, key) <==> exists|i: int|
            0 <= i < targets.len() && (#[trigger] targets[i]).language == key.0 && target_root(targets[i]) == key.1
                && crate::vocabulary::spec_signal_enabled(targets[i].checks, key.2),
{
    if is_expected(targets, None, key) {
        let i = choose|i: int| 0 <= i < targets.len() && expects(#[trigger] targets[i], None, key);
        law_expected_signals_are_the_enabled_ones(targets[i], key.2);
    }
    if exists|i: int|
        0 <= i < targets.len() && (#[trigger] targets[i]).language == key.0 && target_root(targets[i]) == key.1
            && crate::vocabulary::spec_signal_enabled(targets[i].checks, key.2) {
        let i = choose|i: int|
            0 <= i < targets.len() && (#[trigger] targets[i]).language == key.0 && target_root(targets[i]) == key.1
                && crate::vocabulary::spec_signal_enabled(targets[i].checks, key.2);
        law_expected_signals_are_the_enabled_ones(targets[i], key.2);
        assert(expects(targets[i], None, key));
    }
}

} // verus!
