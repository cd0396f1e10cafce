//! Scheduling collection jobs under a global worker limit and per-language
//! concurrency caps, and gathering their results in job order.
use crate::vocabulary::Language;
use vstd::prelude::*;

verus! {

/// The number of languages, and the length of every per-language table.
pub const LANGUAGE_COUNT: usize = 5;

/// A unit of collection work for one language.
pub struct ScheduledJob<T> {
    pub index: usize,
    pub language: Language,
    pub payload: T,
}

/// Optional concurrency caps, one slot per language.
pub struct LanguageCaps {
    pub caps: Vec<Option<usize>>,
}

impl LanguageCaps {
    pub open spec fn wf(&self) -> bool {
        self.caps@.len() == LANGUAGE_COUNT
    }

    /// The configured cap of `language`, if any.
    pub open spec fn cap_of(&self, language: Language) -> Option<usize> {
        self.caps@[language.spec_index() as int]
    }

    /// No cap is configured.
    pub fn new() -> (r: LanguageCaps)
        ensures
            r.wf(),
            forall|l: Language| r.cap_of(l) is None,
    {
        let mut caps = Vec::new();
        let mut i: usize = 0;
        while i < LANGUAGE_COUNT
            invariant
                i <= LANGUAGE_COUNT,
                caps@.len() == i,
                forall|k: int| 0 <= k < i ==> caps@[k] is None,
            decreases LANGUAGE_COUNT - i,
        {
            caps.push(None);
            i = i + 1;
        }
        LanguageCaps { caps }
    }

    /// Caps from `(language, cap)` pairs; a later pair for the same
    /// language replaces an earlier one, as in a map built from the pairs.
    pub fn from_pairs(pairs: &[(Language, usize)]) -> (r: LanguageCaps)
        ensures
            r.wf(),
            forall|l: Language|
                #![trigger r.cap_of(l)]
                r.cap_of(l) == last_cap(pairs@, l),
    {
        let mut r = LanguageCaps::new();
        let mut i: usize = 0;
        while i < pairs.len()
            invariant
                i <= pairs@.len(),
                r.wf(),
                forall|l: Language|
                    #![trigger r.cap_of(l)]
                    r.cap_of(l) == last_cap(pairs@.take(i as int), l),
            decreases pairs@.len() - i,
        {
            let (language, cap) = pairs[i];
            let slot = language.index();
            let ghost prev = r;
            r.caps.set(slot, Some(cap));
            proof {
                assert(pairs@.take(i + 1).drop_last() == pairs@.take(i as int));
                assert(pairs@.take(i + 1).last() == (language, cap));
                assert forall|l: Language| #[trigger] r.cap_of(l) == last_cap(pairs@.take(i + 1), l) by {
                    lemma_index_injective(l, language);
                    if l != language {
                        assert(r.cap_of(l) == prev.cap_of(l));
                    }
                }
            }
            i = i + 1;
        }
        assert(pairs@.take(pairs@.len() as int) == pairs@);
        r
    }

    pub fn get(&self, language: Language) -> (r: Option<usize>)
        requires
            self.wf(),
        ensures
            r == self.cap_of(language),
    {
        self.caps[language.index()]
    }
}

pub proof fn lemma_index_injective(a: Language, b: Language)
    ensures
        a.spec_index() == b.spec_index() <==> a == b,
{
}

/// The cap that the last pair for `language` sets.
pub open spec fn last_cap(pairs: Seq<(Language, usize)>, language: Language) -> Option<usize>
    decreases pairs.len(),
{
    if pairs.len() == 0 {
        None
    } else if pairs.last().0 == language {
        Some(pairs.last().1)
    } else {
        last_cap(pairs.drop_last(), language)
    }
}

/// The limit a job of `language` runs under: its cap (at least one) or no
/// limit at all.
pub open spec fn effective_cap(caps: LanguageCaps, language: Language) -> nat {
    match caps.cap_of(language) {
        Some(c) => if c == 0 {
            1
        } else {
            c as nat
        },
        None => usize::MAX as nat,
    }
}

/// Pending jobs and the number of running jobs per language.
pub struct SchedulerQueue<T> {
    pub pending: Vec<ScheduledJob<T>>,
    pub active: Vec<usize>,
}

/// Whether the first `k` pending jobs are all blocked by their caps.
pub open spec fn all_blocked<T>(
    pending: Seq<ScheduledJob<T>>,
    active: Seq<usize>,
    caps: LanguageCaps,
    k: int,
) -> bool {
    forall|j: int|
        0 <= j < k ==> active[pending[j].language.spec_index() as int] >= effective_cap(
            caps,
            #[trigger] pending[j].language,
        )
}

/// Running counts after one more job of `language` starts.
pub open spec fn bumped(active: Seq<usize>, language: Language) -> Seq<usize> {
    active.update(language.spec_index() as int, (active[language.spec_index() as int] + 1) as usize)
}

/// Running counts after one job of `language` finishes (never below zero).
pub open spec fn released(active: Seq<usize>, language: Language) -> Seq<usize> {
    let i = language.spec_index() as int;
    active.update(i, if active[i] == 0 { 0 } else { (active[i] - 1) as usize })
}

/// Every language runs at most as many jobs as its cap allows.
pub open spec fn within_caps(active: Seq<usize>, caps: LanguageCaps) -> bool {
    forall|l: Language|
        #![trigger effective_cap(caps, l)]
        active[l.spec_index() as int] <= effective_cap(caps, l)
}

pub open spec fn runnable<T>(job: ScheduledJob<T>, active: Seq<usize>, caps: LanguageCaps) -> bool {
    active[job.language.spec_index() as int] < effective_cap(caps, job.language)
}

impl<T> SchedulerQueue<T> {
    pub open spec fn wf(&self) -> bool {
        self.active@.len() == LANGUAGE_COUNT
    }

    /// The number of running jobs of `language`.
    pub open spec fn active_of(&self, language: Language) -> usize {
        self.active@[language.spec_index() as int]
    }

    /// A queue of all `jobs`, in order, with nothing running.
    pub fn new(jobs: Vec<ScheduledJob<T>>) -> (q: SchedulerQueue<T>)
        ensures
            q.wf(),
            q.pending@ == jobs@,
            forall|l: Language| #[trigger] q.active_of(l) == 0,
    {
        let mut active = Vec::new();
        let mut i: usize = 0;
        while i < LANGUAGE_COUNT
            invariant
                i <= LANGUAGE_COUNT,
                active@.len() == i,
                forall|k: int| 0 <= k < i ==> active@[k] == 0,
            decreases LANGUAGE_COUNT - i,
        {
            active.push(0);
            i = i + 1;
        }
        SchedulerQueue { pending: jobs, active }
    }

    /// Takes the first pending job whose language is below its cap, and
    /// counts it as running; `None`, with nothing changed, when every
    /// pending job is blocked.
    pub fn take_next(&mut self, caps: &LanguageCaps) -> (r: Option<ScheduledJob<T>>)
        requires
            old(self).wf(),
            caps.wf(),
        ensures
            final(self).wf(),
            r is None ==> final(self).pending@ == old(self).pending@ && final(self).active@
                == old(self).active@ && all_blocked(
                old(self).pending@,
                old(self).active@,
                *caps,
                old(self).pending@.len() as int,
            ),
            r matches Some(job) ==> exists|p: int|
                #![trigger old(self).pending@[p]]
                0 <= p < old(self).pending@.len() && all_blocked(
                    old(self).pending@,
                    old(self).active@,
                    *caps,
                    p,
                ) && runnable(old(self).pending@[p], old(self).active@, *caps) && job
                    == old(self).pending@[p] && final(self).pending@ == old(self).pending@.remove(
                    p,
                ) && final(self).active@ == bumped(old(self).active@, job.language),
            within_caps(old(self).active@, *caps) ==> within_caps(final(self).active@, *caps),
    {
        let mut p: usize = 0;
        while p < self.pending.len()
            invariant
                self.wf(),
                caps.wf(),
                self.pending@ == old(self).pending@,
                self.active@ == old(self).active@,
                p <= self.pending@.len(),
                all_blocked(self.pending@, self.active@, *caps, p as int),
            decreases self.pending@.len() - p,
        {
            let language = self.pending[p].language;
            let slot = language.index();
            let active = self.active[slot];
            let cap = match caps.get(language) {
                Some(c) => if c == 0 {
                    1
                } else {
                    c
                },
                None => usize::MAX,
            };
            if active < cap {
                let job = self.pending.remove(p);
                self.active.set(slot, active + 1);
                proof {
                    if within_caps(old(self).active@, *caps) {
                        assert forall|l: Language| #[trigger] effective_cap(*caps, l) >= 0 implies
                            self.active@[l.spec_index() as int] <= effective_cap(*caps, l) by {
                            lemma_index_injective(l, language);
                        }
                    }
                }
                return Some(job);
            }
            p = p + 1;
        }
        None
    }

    /// Counts one running job of `language` as finished.
    pub fn release(&mut self, language: Language)
        requires
            old(self).wf(),
        ensures
            final(self).wf(),
            final(self).pending@ == old(self).pending@,
            final(self).active@ == released(old(self).active@, language),
            forall|l: Language| #[trigger] final(self).active_of(l) <= old(self).active_of(l),
    {
        let slot = language.index();
        let active = self.active[slot];
        self.active.set(slot, active.saturating_sub(1));
        proof {
            assert forall|l: Language| #[trigger] self.active_of(l) <= old(self).active_of(l) by {
                lemma_index_injective(l, language);
            }
        }
    }
}

/// The number of jobs of `language`.
pub open spec fn count_language<T>(jobs: Seq<ScheduledJob<T>>, language: Language) -> nat
    decreases jobs.len(),
{
    if jobs.len() == 0 {
        0
    } else {
        count_language(jobs.drop_last(), language) + if jobs.last().language == language {
            1nat
        } else {
            0nat
        }
    }
}

/// How many jobs of `language` may run at once.
pub open spec fn language_capacity<T>(
    jobs: Seq<ScheduledJob<T>>,
    caps: LanguageCaps,
    language: Language,
) -> nat {
    let count = count_language(jobs, language);
    match caps.cap_of(language) {
        Some(c) => {
            let c1 = if c == 0 {
                1nat
            } else {
                c as nat
            };
            if count < c1 {
                count
            } else {
                c1
            }
        },
        None => count,
    }
}

pub open spec fn language_of_index(i: int) -> Language {
    if i == 0 {
        Language::Rust
    } else if i == 1 {
        Language::Go
    } else if i == 2 {
        Language::Node
    } else if i == 3 {
        Language::Python
    } else {
        Language::Kotlin
    }
}

/// The jobs that can run at once, summed over the first `k` languages.
pub open spec fn runnable_capacity_upto<T>(
    jobs: Seq<ScheduledJob<T>>,
    caps: LanguageCaps,
    k: int,
) -> nat
    decreases k,
{
    if k <= 0 {
        0
    } else {
        runnable_capacity_upto(jobs, caps, k - 1) + language_capacity(
            jobs,
            caps,
            language_of_index(k - 1),
        )
    }
}

pub open spec fn runnable_capacity<T>(jobs: Seq<ScheduledJob<T>>, caps: LanguageCaps) -> nat {
    runnable_capacity_upto(jobs, caps, LANGUAGE_COUNT as int)
}

pub open spec fn min_nat(a: nat, b: nat) -> nat {
    if a < b {
        a
    } else {
        b
    }
}

pub open spec fn max_one(a: nat) -> nat {
    if a == 0 {
        1
    } else {
        a
    }
}

/// The worker pool size: the limit (at least one), no more than the jobs,
/// and no more than the jobs that their caps let run at once.
pub open spec fn spec_effective_worker_count<T>(
    jobs: Seq<ScheduledJob<T>>,
    worker_limit: nat,
    caps: LanguageCaps,
) -> nat {
    min_nat(min_nat(max_one(worker_limit), jobs.len()), max_one(runnable_capacity(jobs, caps)))
}

pub proof fn lemma_count_language_le<T>(jobs: Seq<ScheduledJob<T>>, language: Language)
    ensures
        count_language(jobs, language) <= jobs.len(),
    decreases jobs.len(),
{
    if jobs.len() > 0 {
        lemma_count_language_le(jobs.drop_last(), language);
    }
}

/// The per-language counts add up to the number of jobs.
pub proof fn lemma_counts_sum<T>(jobs: Seq<ScheduledJob<T>>)
    ensures
        count_language(jobs, Language::Rust) + count_language(jobs, Language::Go) + count_language(
            jobs,
            Language::Node,
        ) + count_language(jobs, Language::Python) + count_language(jobs, Language::Kotlin)
            == jobs.len(),
    decreases jobs.len(),
{
    if jobs.len() > 0 {
        lemma_counts_sum(jobs.drop_last());
    }
}

/// Counts the jobs of each language.
fn language_counts<T>(jobs: &[ScheduledJob<T>]) -> (r: Vec<usize>)
    ensures
        r@.len() == LANGUAGE_COUNT,
        forall|l: Language| #[trigger] r@[l.spec_index() as int] == count_language(jobs@, l),
{
    let mut counts: Vec<usize> = Vec::new();
    let mut i: usize = 0;
    while i < LANGUAGE_COUNT
        invariant
            i <= LANGUAGE_COUNT,
            counts@.len() == i,
            forall|k: int| 0 <= k < i ==> counts@[k] == 0,
        decreases LANGUAGE_COUNT - i,
    {
        counts.push(0);
        i = i + 1;
    }
    assert(jobs@.take(0) =~= Seq::<ScheduledJob<T>>::empty());
    let mut j: usize = 0;
    while j < jobs.len()
        invariant
            j <= jobs@.len(),
            counts@.len() == LANGUAGE_COUNT,
            forall|l: Language|
                #[trigger] counts@[l.spec_index() as int] == count_language(jobs@.take(j as int), l),
        decreases jobs@.len() - j,
    {
        let slot = jobs[j].language.index();
        proof {
            assert(jobs@.take(j + 1).drop_last() == jobs@.take(j as int));
            lemma_count_language_le(jobs@.take(j as int), jobs@[j as int].language);
        }
        let c = counts[slot];
        counts.set(slot, c + 1);
        proof {
            assert forall|l: Language|
                #[trigger] counts@[l.spec_index() as int] == count_language(
                    jobs@.take(j + 1),
                    l,
                ) by {
                lemma_index_injective(l, jobs@[j as int].language);
            }
        }
        j = j + 1;
    }
    assert(jobs@.take(jobs@.len() as int) == jobs@);
    counts
}

/// The size of the worker pool for `jobs` (see
/// `spec_effective_worker_count`).
pub fn effective_worker_count<T>(
    jobs: &[ScheduledJob<T>],
    worker_limit: usize,
    language_caps: &LanguageCaps,
) -> (r: usize)
    requires
        language_caps.wf(),
    ensures
        r == spec_effective_worker_count(jobs@, worker_limit as nat, *language_caps),
{
    let counts = language_counts(jobs);
    let njobs = jobs.len();
    let mut total: usize = 0;
    let mut i: usize = 0;
    proof {
        lemma_counts_sum(jobs@);
    }
    while i < LANGUAGE_COUNT
        invariant
            i <= LANGUAGE_COUNT,
            language_caps.wf(),
            counts@.len() == LANGUAGE_COUNT,
            forall|l: Language| #[trigger] counts@[l.spec_index() as int] == count_language(jobs@, l),
            total == runnable_capacity_upto(jobs@, *language_caps, i as int),
            njobs == jobs@.len(),
            count_language(jobs@, Language::Rust) + count_language(jobs@, Language::Go)
                + count_language(jobs@, Language::Node) + count_language(jobs@, Language::Python)
                + count_language(jobs@, Language::Kotlin) == jobs@.len(),
        decreases LANGUAGE_COUNT - i,
    {
        let language = if i == 0 {
            Language::Rust
        } else if i == 1 {
            Language::Go
        } else if i == 2 {
            Language::Node
        } else if i == 3 {
            Language::Python
        } else {
            Language::Kotlin
        };
        assert(language == language_of_index(i as int));
        let count = counts[language.index()];
        let capacity = match language_caps.get(language) {
            Some(cap) => {
                let c1 = if cap == 0 {
                    1
                } else {
                    cap
                };
                if count < c1 {
                    count
                } else {
                    c1
                }
            },
            None => count,
        };
        proof {
            lemma_runnable_upto_le(jobs@, *language_caps, i + 1);
            assert(count == count_language(jobs@, language));
            assert(capacity == language_capacity(jobs@, *language_caps, language));
            assert(total + capacity == runnable_capacity_upto(jobs@, *language_caps, i + 1));
            assert(total + capacity <= njobs);
        }
        total = total + capacity;
        i = i + 1;
    }
    let limit = if worker_limit == 0 {
        1
    } else {
        worker_limit
    };
    let bounded = if limit < jobs.len() {
        limit
    } else {
        jobs.len()
    };
    let capacity = if total == 0 {
        1
    } else {
        total
    };
    if bounded < capacity {
        bounded
    } else {
        capacity
    }
}

/// The capacities of the first `k` languages never exceed their jobs.
pub proof fn lemma_runnable_le_count<T>(jobs: Seq<ScheduledJob<T>>, caps: LanguageCaps, k: int)
    ensures
        runnable_capacity_upto(jobs, caps, k) <= count_upto(jobs, k),
    decreases k,
{
    if k > 0 {
        lemma_runnable_le_count(jobs, caps, k - 1);
    }
}

/// A prefix of the per-language capacities never exceeds the jobs.
pub proof fn lemma_runnable_upto_le<T>(jobs: Seq<ScheduledJob<T>>, caps: LanguageCaps, k: int)
    requires
        0 <= k <= LANGUAGE_COUNT,
    ensures
        runnable_capacity_upto(jobs, caps, k) <= jobs.len(),
{
    lemma_runnable_le_count(jobs, caps, k);
    lemma_count_upto_mono(jobs, k);
    lemma_counts_sum(jobs);
    reveal_with_fuel(count_upto, 6);
}

/// The jobs of the first `k` languages.
pub open spec fn count_upto<T>(jobs: Seq<ScheduledJob<T>>, k: int) -> nat
    decreases k,
{
    if k <= 0 {
        0
    } else {
        count_upto(jobs, k - 1) + count_language(jobs, language_of_index(k - 1))
    }
}

pub proof fn lemma_count_upto_mono<T>(jobs: Seq<ScheduledJob<T>>, k: int)
    requires
        0 <= k <= LANGUAGE_COUNT,
    ensures
        count_upto(jobs, k) <= count_upto(jobs, LANGUAGE_COUNT as int),
    decreases LANGUAGE_COUNT - k,
{
    if k < LANGUAGE_COUNT {
        lemma_count_upto_mono(jobs, k + 1);
    }
}


/// A job that starts and then finishes leaves every running count as it
/// was.
pub proof fn law_release_undoes_take(active: Seq<usize>, language: Language)
    requires
        active.len() == LANGUAGE_COUNT,
        active[language.spec_index() as int] < usize::MAX,
    ensures
        released(bumped(active, language), language) == active,
{
    assert(released(bumped(active, language), language) =~= active);
}

/// The worker pool never exceeds the worker limit (taken as at least one),
/// the number of jobs, or the jobs that the caps let run at once; it has a
/// worker whenever there is a job.
pub proof fn law_worker_count_bounds<T>(
    jobs: Seq<ScheduledJob<T>>,
    worker_limit: nat,
    caps: LanguageCaps,
)
    ensures
        spec_effective_worker_count(jobs, worker_limit, caps) <= jobs.len(),
        spec_effective_worker_count(jobs, worker_limit, caps) <= max_one(worker_limit),
        spec_effective_worker_count(jobs, worker_limit, caps) <= max_one(
            runnable_capacity(jobs, caps),
        ),
        jobs.len() > 0 ==> spec_effective_worker_count(jobs, worker_limit, caps) >= 1,
{
}

} // verus!
