//! Mapping changed paths to the Cargo packages they affect.
use crate::text::{
    after_last, chars_concat, chars_end_with, chars_eq, chars_last_index_of, chars_of,
    chars_start_with, end_without_trailing, ends_with, last_index_of, lemma_last_index_of,
    lemma_split_chars_single, split_char, split_on, starts_with, string_from_chars,
    string_views, sub_vec, trim_end_char, trim_end_char_len, views,
};
use crate::evidence::ChangedPath;
use vstd::prelude::*;

verus! {

broadcast use vstd::string::group_string_axioms;

/// A workspace member: its package name, its repository-relative
/// directory, and the names of the workspace packages it depends on.
pub struct Package {
    pub name: String,
    pub dir: String,
    pub deps: Vec<String>,
}

/// Whether `path` lies in the directory `dir` (`.` holds everything).
pub open spec fn spec_contains_path(dir: Seq<char>, path: Seq<char>) -> bool {
    dir == "."@ || path == dir || starts_with(path, dir + "/"@)
}

pub fn contains_path(dir: &str, path: &str) -> (r: bool)
    ensures
        r == spec_contains_path(dir@, path@),
{
    let d = chars_of(dir);
    let p = chars_of(path);
    let dot = chars_of(".");
    if chars_eq(&d, &dot) || chars_eq(&p, &d) {
        return true;
    }
    let slash = chars_of("/");
    let prefix = chars_concat(&d, &slash);
    chars_start_with(&p, &prefix)
}

/// The number of `/`-separated components of a directory; `.` has none.
pub open spec fn spec_path_depth(path: Seq<char>) -> nat {
    if path == "."@ {
        0
    } else {
        split_char(path, '/').len()
    }
}

pub fn path_depth(path: &str) -> (r: usize)
    ensures
        r == spec_path_depth(path@),
{
    let p = chars_of(path);
    let dot = chars_of(".");
    if chars_eq(&p, &dot) {
        return 0;
    }
    let seps = ['/'];
    let pieces = split_on(&p, &seps);
    proof {
        assert(seps@ == seq!['/']);
        lemma_split_chars_single(p@, '/');
    }
    pieces.len()
}

/// A path relative to `configured_root`, when it lies under it.
pub open spec fn spec_path_in_target(path: Seq<char>, configured_root: Seq<char>) -> Option<
    Seq<char>,
> {
    if configured_root == "."@ {
        Some(path)
    } else if path == configured_root {
        Some("."@)
    } else if starts_with(path, configured_root + "/"@) {
        Some(path.skip(configured_root.len() + 1int))
    } else {
        None
    }
}

pub fn path_in_target(path: &str, configured_root: &str) -> (r: Option<String>)
    ensures
        r matches Some(s) ==> spec_path_in_target(path@, configured_root@) == Some(s@),
        r is None ==> spec_path_in_target(path@, configured_root@) is None,
{
    let p = chars_of(path);
    let root = chars_of(configured_root);
    let dot = chars_of(".");
    if chars_eq(&root, &dot) {
        return Some(String::from_str(path));
    }
    if chars_eq(&p, &root) {
        return Some(String::from_str("."));
    }
    let slash = chars_of("/");
    let prefix = chars_concat(&root, &slash);
    if chars_start_with(&p, &prefix) {
        let rest = sub_vec(&p, prefix.len(), p.len());
        proof {
            reveal_strlit("/");
            assert(rest@ == p@.skip(root@.len() + 1int));
        }
        Some(string_from_chars(&rest))
    } else {
        None
    }
}

/// A Cargo manifest or lock file.
pub open spec fn spec_is_manifest(path: Seq<char>) -> bool {
    ||| path == "Cargo.toml"@ || ends_with(path, "/Cargo.toml"@)
    ||| path == "Cargo.lock"@ || ends_with(path, "/Cargo.lock"@)
}

pub fn is_manifest(path: &str) -> (r: bool)
    ensures
        r == spec_is_manifest(path@),
        forall|d: Seq<char>, n: Seq<char>|
            #![trigger is_dir_prefix(d), is_manifest_name(n)]
            is_dir_prefix(d) && is_manifest_name(n) && path@ == d + n ==> r,
{
    proof {
        assert forall|d: Seq<char>, n: Seq<char>|
            #![trigger is_dir_prefix(d), is_manifest_name(n)]
            is_dir_prefix(d) && is_manifest_name(n) && path@ == d + n implies spec_is_manifest(path@) by {
            law_manifest_names_are_manifests(d, n);
        }
    }
    let p = chars_of(path);
    let a = chars_of("Cargo.toml");
    let a2 = chars_of("/Cargo.toml");
    let b = chars_of("Cargo.lock");
    let b2 = chars_of("/Cargo.lock");
    chars_eq(&p, &a) || chars_end_with(&p, &a2) || chars_eq(&p, &b) || chars_end_with(&p, &b2)
}

/// A change that can alter how Cargo or the toolchain treats the sources:
/// Cargo configuration, toolchain files, or a TOML, JSON or YAML file.
pub open spec fn spec_is_configuration_input(path: Seq<char>) -> bool {
    let name = after_last(path, '/');
    ||| path == ".cargo/config"@
    ||| ends_with(path, "/.cargo/config"@)
    ||| starts_with(name, "rust-toolchain"@)
    ||| ends_with(name, ".toml"@)
    ||| ends_with(name, ".json"@)
    ||| ends_with(name, ".yaml"@)
    ||| ends_with(name, ".yml"@)
}

fn last_component(p: &Vec<char>) -> (r: Vec<char>)
    ensures
        r@ == after_last(p@, '/'),
{
    match chars_last_index_of(p, '/') {
        Some(i) => {
            proof {
                lemma_last_index_of(p@, '/');
                assert(last_index_of(p@, '/') == Some(i as int));
            }
            let n = p.len();
            assert(i < n);
            sub_vec(p, i + 1, n)
        },
        None => {
            let r = sub_vec(p, 0, p.len());
            assert(p@.subrange(0, p@.len() as int) == p@);
            r
        },
    }
}

pub fn is_configuration_input(path: &str) -> (r: bool)
    ensures
        r == spec_is_configuration_input(path@),
{
    let p = chars_of(path);
    let name = last_component(&p);
    chars_eq(&p, &chars_of(".cargo/config")) || chars_end_with(&p, &chars_of("/.cargo/config"))
        || chars_start_with(&name, &chars_of("rust-toolchain")) || chars_end_with(
        &name,
        &chars_of(".toml"),
    ) || chars_end_with(&name, &chars_of(".json")) || chars_end_with(&name, &chars_of(".yaml"))
        || chars_end_with(&name, &chars_of(".yml"))
}

/// The directory that a governing Rust input (Cargo configuration or a
/// toolchain file) governs, if `path` is one.
pub open spec fn governing_dir(path: Seq<char>) -> Option<Seq<char>> {
    let name = after_last(path, '/');
    if ends_with(path, ".cargo/config"@) {
        Some(trim_end_char(path.take(path.len() - ".cargo/config"@.len()), '/'))
    } else if ends_with(path, ".cargo/config.toml"@) {
        Some(trim_end_char(path.take(path.len() - ".cargo/config.toml"@.len()), '/'))
    } else if name == "rust-toolchain"@ || name == "rust-toolchain.toml"@ {
        match last_index_of(path, '/') {
            Some(i) => Some(path.take(i)),
            None => Some("."@),
        }
    } else {
        None
    }
}

/// A Cargo configuration or toolchain file that governs the configured
/// root: it sits in the repository root, in the configured root, or in one
/// of its ancestors.
pub open spec fn spec_is_governing_rust_input(path: Seq<char>, configured_root: Seq<char>) -> bool {
    match governing_dir(path) {
        Some(dir) => dir.len() == 0 || dir == "."@ || configured_root == dir || starts_with(
            configured_root,
            dir + "/"@,
        ),
        None => false,
    }
}

fn strip_config_suffix(p: &Vec<char>, suffix_len: usize) -> (r: Vec<char>)
    requires
        suffix_len <= p@.len(),
    ensures
        r@ == trim_end_char(p@.take(p@.len() - suffix_len), '/'),
{
    let head = sub_vec(p, 0, p.len() - suffix_len);
    let n = trim_end_char_len(&head, '/');
    sub_vec(&head, 0, n)
}

fn governing_dir_of(p: &Vec<char>) -> (r: Option<Vec<char>>)
    ensures
        r matches Some(d) ==> governing_dir(p@) == Some(d@),
        r is None ==> governing_dir(p@) is None,
{
    let name = last_component(p);
    let cfg = chars_of(".cargo/config");
    let cfg_toml = chars_of(".cargo/config.toml");
    if chars_end_with(p, &cfg) {
        return Some(strip_config_suffix(p, cfg.len()));
    }
    if chars_end_with(p, &cfg_toml) {
        return Some(strip_config_suffix(p, cfg_toml.len()));
    }
    if chars_eq(&name, &chars_of("rust-toolchain")) || chars_eq(
        &name,
        &chars_of("rust-toolchain.toml"),
    ) {
        return match chars_last_index_of(p, '/') {
            Some(i) => {
                proof {
                    lemma_last_index_of(p@, '/');
                }
                Some(sub_vec(p, 0, i))
            },
            None => Some(chars_of(".")),
        };
    }
    None
}

pub fn is_governing_rust_input(path: &str, configured_root: &str) -> (r: bool)
    ensures
        r == spec_is_governing_rust_input(path@, configured_root@),
{
    let p = chars_of(path);
    let root = chars_of(configured_root);
    match governing_dir_of(&p) {
        Some(dir) => {
            let prefix = chars_concat(&dir, &chars_of("/"));
            dir.len() == 0 || chars_eq(&dir, &chars_of(".")) || chars_eq(&root, &dir)
                || chars_start_with(&root, &prefix)
        },
        None => false,
    }
}

/// The set of names in a list of strings.
pub open spec fn name_set(v: Seq<String>) -> Set<Seq<char>> {
    string_views(v).to_set()
}

/// Whether some dependency of `p` is in `s`.
pub open spec fn depends_on_any(p: Package, s: Set<Seq<char>>) -> bool {
    exists|k: int| 0 <= k < p.deps@.len() && s.contains(#[trigger] p.deps@[k]@)
}

/// Every package that depends on a member of `s` is itself in `s`.
pub open spec fn closed_under_dependents(packages: Seq<Package>, s: Set<Seq<char>>) -> bool {
    forall|i: int|
        0 <= i < packages.len() && depends_on_any(#[trigger] packages[i], s) ==> s.contains(
            packages[i].name@,
        )
}

/// Whether `v` holds a string equal to `s`.
pub fn contains_string(v: &Vec<String>, s: &String) -> (r: bool)
    ensures
        r == string_views(v@).contains(s@),
{
    let mut i: usize = 0;
    while i < v.len()
        invariant
            i <= v@.len(),
            forall|k: int| 0 <= k < i ==> v@[k]@ != s@,
        decreases v@.len() - i,
    {
        if v[i] == *s {
            assert(string_views(v@)[i as int] == s@);
            return true;
        }
        i = i + 1;
    }
    proof {
        if string_views(v@).contains(s@) {
            let k = choose|k: int| 0 <= k < string_views(v@).len() && string_views(v@)[k] == s@;
            assert(v@[k]@ == s@);
        }
    }
    false
}

fn depends_on_any_in(p: &Package, result: &Vec<String>) -> (r: bool)
    ensures
        r == depends_on_any(*p, name_set(result@)),
{
    let mut k: usize = 0;
    while k < p.deps.len()
        invariant
            k <= p.deps@.len(),
            forall|j: int| 0 <= j < k ==> !name_set(result@).contains(#[trigger] p.deps@[j]@),
        decreases p.deps@.len() - k,
    {
        if contains_string(result, &p.deps[k]) {
            assert(name_set(result@).contains(p.deps@[k as int]@));
            return true;
        }
        k = k + 1;
    }
    false
}

/// The number of packages whose name is in `s`.
pub open spec fn count_named_in(packages: Seq<Package>, s: Set<Seq<char>>) -> nat
    decreases packages.len(),
{
    if packages.len() == 0 {
        0
    } else {
        count_named_in(packages.drop_last(), s) + if s.contains(packages.last().name@) {
            1nat
        } else {
            0nat
        }
    }
}

pub proof fn lemma_count_named_bounds(packages: Seq<Package>, a: Set<Seq<char>>, b: Set<Seq<char>>)
    requires
        a.subset_of(b),
    ensures
        count_named_in(packages, a) <= count_named_in(packages, b),
        count_named_in(packages, b) <= packages.len(),
        (exists|i: int|
            0 <= i < packages.len() && b.contains(#[trigger] packages[i].name@) && !a.contains(
                packages[i].name@,
            )) ==> count_named_in(packages, a) < count_named_in(packages, b),
    decreases packages.len(),
{
    if packages.len() > 0 {
        let init = packages.drop_last();
        lemma_count_named_bounds(init, a, b);
        if exists|i: int|
            0 <= i < packages.len() && b.contains(#[trigger] packages[i].name@) && !a.contains(
                packages[i].name@,
            ) {
            let i = choose|i: int|
                0 <= i < packages.len() && b.contains(#[trigger] packages[i].name@) && !a.contains(
                    packages[i].name@,
                );
            if i < packages.len() - 1 {
                assert(init[i] == packages[i]);
            }
        }
    }
}

/// `seeds` without repeated names.
fn dedup_strings(seeds: &Vec<String>) -> (r: Vec<String>)
    ensures
        name_set(r@) == name_set(seeds@),
        string_views(r@).no_duplicates(),
{
    let mut r: Vec<String> = Vec::new();
    let mut i: usize = 0;
    while i < seeds.len()
        invariant
            i <= seeds@.len(),
            name_set(r@) == name_set(seeds@.take(i as int)),
            string_views(r@).no_duplicates(),
        decreases seeds@.len() - i,
    {
        let ghost before = r@;
        if !contains_string(&r, &seeds[i]) {
            r.push(seeds[i].clone());
        }
        proof {
            assert(seeds@.take(i + 1) == seeds@.take(i as int).push(seeds@[i as int]));
            assert(string_views(seeds@.take(i + 1)) =~= string_views(seeds@.take(i as int)).push(
                seeds@[i as int]@,
            ));
            assert(string_views(r@) =~= if string_views(before).contains(seeds@[i as int]@) {
                string_views(before)
            } else {
                string_views(before).push(seeds@[i as int]@)
            });
            string_views(seeds@.take(i as int)).lemma_push_to_set_commute(seeds@[i as int]@);
            if !string_views(before).contains(seeds@[i as int]@) {
                string_views(before).lemma_push_to_set_commute(seeds@[i as int]@);
                lemma_push_no_duplicates(string_views(before), seeds@[i as int]@);
            }
            assert(name_set(r@) =~= name_set(seeds@.take(i + 1)));
        }
        i = i + 1;
    }
    assert(seeds@.take(seeds@.len() as int) == seeds@);
    r
}

/// The seeds and every package that depends, directly or through other
/// packages, on one of them: the least set that holds the seeds and is
/// closed under reverse dependencies, which is the set of names that a
/// chain of dependents leads to from a seed. Each name appears once.
pub fn reverse_closure(packages: &Vec<Package>, seeds: &Vec<String>) -> (r: Vec<String>)
    ensures
        string_views(r@).no_duplicates(),
        name_set(seeds@).subset_of(name_set(r@)),
        closed_under_dependents(packages@, name_set(r@)),
        forall|t: Set<Seq<char>>|
            #![trigger closed_under_dependents(packages@, t)]
            name_set(seeds@).subset_of(t) && closed_under_dependents(packages@, t)
                ==> name_set(r@).subset_of(t),
        name_set(r@).subset_of(name_set(seeds@).union(crate::cargo_topology::package_names(packages@).to_set())),
        forall|n: Seq<char>| name_set(r@).contains(n) <==> reaches_seed(packages@, name_set(seeds@), n),
{
    let mut result = dedup_strings(seeds);
    let mut changed = true;
    while changed
        invariant
            string_views(result@).no_duplicates(),
            name_set(seeds@).subset_of(name_set(result@)),
            forall|t: Set<Seq<char>>|
                #![trigger closed_under_dependents(packages@, t)]
                name_set(seeds@).subset_of(t) && closed_under_dependents(packages@, t)
                    ==> name_set(result@).subset_of(t),
            !changed ==> closed_under_dependents(packages@, name_set(result@)),
        decreases packages@.len() - count_named_in(packages@, name_set(result@)),
            if changed {
                1int
            } else {
                0int
            },
    {
        let ghost start = name_set(result@);
        proof {
            lemma_count_named_bounds(packages@, start, start);
        }
        changed = false;
        let mut i: usize = 0;
        while i < packages.len()
            invariant
                i <= packages@.len(),
                string_views(result@).no_duplicates(),
                name_set(seeds@).subset_of(name_set(result@)),
                start.subset_of(name_set(result@)),
                forall|t: Set<Seq<char>>|
                    #![trigger closed_under_dependents(packages@, t)]
                    name_set(seeds@).subset_of(t) && closed_under_dependents(packages@, t)
                        ==> name_set(result@).subset_of(t),
                changed ==> count_named_in(packages@, start) < count_named_in(
                    packages@,
                    name_set(result@),
                ),
                !changed ==> name_set(result@) == start,
                !changed ==> forall|j: int|
                    0 <= j < i && depends_on_any(#[trigger] packages@[j], start) ==> start.contains(
                        packages@[j].name@,
                    ),
            decreases packages@.len() - i,
        {
            let p = &packages[i];
            if depends_on_any_in(p, &result) && !contains_string(&result, &p.name) {
                let ghost before = name_set(result@);
                let ghost before_views = string_views(result@);
                result.push(p.name.clone());
                proof {
                    assert(string_views(result@) =~= before_views.push(p.name@));
                    before_views.lemma_push_to_set_commute(p.name@);
                    lemma_push_no_duplicates(before_views, p.name@);
                    assert(name_set(result@) =~= before.insert(p.name@));
                    assert forall|t: Set<Seq<char>>|
                        #![trigger closed_under_dependents(packages@, t)]
                        name_set(seeds@).subset_of(t) && closed_under_dependents(packages@, t)
                            implies name_set(result@).subset_of(t) by {
                        let k = choose|k: int|
                            0 <= k < p.deps@.len() && before.contains(#[trigger] p.deps@[k]@);
                        assert(t.contains(p.deps@[k]@));
                        assert(depends_on_any(packages@[i as int], t));
                    }
                    assert(packages@[i as int].name@ == p.name@);
                    lemma_count_named_bounds(packages@, start, name_set(result@));
                }
                changed = true;
            }
            i = i + 1;
        }
        proof {
            lemma_count_named_bounds(packages@, start, name_set(result@));
        }
    }
    proof {
        law_reverse_closure_is_reachability(packages@, seeds@, result@);
    }
    result
}


pub proof fn lemma_push_no_duplicates(s: Seq<Seq<char>>, x: Seq<char>)
    requires
        s.no_duplicates(),
        !s.contains(x),
    ensures
        s.push(x).no_duplicates(),
{
    let t = s.push(x);
    assert forall|i: int, j: int| 0 <= i < t.len() && 0 <= j < t.len() && i != j implies t[i]
        != t[j] by {
        if i < s.len() && j < s.len() {
        } else if i == s.len() {
            assert(s[j] == t[j]);
        } else {
            assert(s[i] == t[i]);
        }
    }
}


/// The greatest depth among the packages whose directory holds `path`
/// (zero when none does).
pub open spec fn max_owner_depth(packages: Seq<Package>, path: Seq<char>) -> nat
    decreases packages.len(),
{
    if packages.len() == 0 {
        0
    } else {
        let m = max_owner_depth(packages.drop_last(), path);
        let p = packages.last();
        if spec_contains_path(p.dir@, path) && spec_path_depth(p.dir@) > m {
            spec_path_depth(p.dir@)
        } else {
            m
        }
    }
}

/// Names of the packages whose directory holds `path` at `depth`, in order.
pub open spec fn owners_at(packages: Seq<Package>, path: Seq<char>, depth: nat) -> Seq<Seq<char>>
    decreases packages.len(),
{
    if packages.len() == 0 {
        seq![]
    } else {
        let p = packages.last();
        owners_at(packages.drop_last(), path, depth) + if spec_contains_path(p.dir@, path)
            && spec_path_depth(p.dir@) == depth {
            seq![p.name@]
        } else {
            seq![]
        }
    }
}

/// The packages that own `path`: of those whose directory holds it, the
/// ones with the deepest directory.
pub open spec fn spec_package_owners(packages: Seq<Package>, path: Seq<char>) -> Seq<Seq<char>> {
    owners_at(packages, path, max_owner_depth(packages, path))
}

/// The packages that own `path`, in name order. The packages are listed by
/// name, each name once, as the workspace topology lists them.
pub fn package_owners(packages: &Vec<Package>, path: &str) -> (r: Vec<String>)
    requires
        crate::selection::strictly_sorted(crate::cargo_topology::package_names(packages@)),
    ensures
        string_views(r@) == spec_package_owners(packages@, path@),
        crate::selection::strictly_sorted(string_views(r@)),
{
    let mut deepest: usize = 0;
    let mut i: usize = 0;
    while i < packages.len()
        invariant
            i <= packages@.len(),
            deepest == max_owner_depth(packages@.take(i as int), path@),
        decreases packages@.len() - i,
    {
        let p = &packages[i];
        if contains_path(p.dir.as_str(), path) {
            let d = path_depth(p.dir.as_str());
            if d > deepest {
                deepest = d;
            }
        }
        assert(packages@.take(i + 1).drop_last() == packages@.take(i as int));
        i = i + 1;
    }
    assert(packages@.take(packages@.len() as int) == packages@);
    let mut owners: Vec<String> = Vec::new();
    let mut j: usize = 0;
    while j < packages.len()
        invariant
            j <= packages@.len(),
            deepest == max_owner_depth(packages@, path@),
            string_views(owners@) == owners_at(packages@.take(j as int), path@, deepest as nat),
        decreases packages@.len() - j,
    {
        let p = &packages[j];
        let ghost before = string_views(owners@);
        if contains_path(p.dir.as_str(), path) && path_depth(p.dir.as_str()) == deepest {
            owners.push(p.name.clone());
        }
        proof {
            assert(packages@.take(j + 1).drop_last() == packages@.take(j as int));
            assert(string_views(owners@) =~= owners_at(packages@.take(j + 1), path@, deepest as nat));
        }
        j = j + 1;
    }
    assert(packages@.take(packages@.len() as int) == packages@);
    proof {
        law_owners_in_key_order(packages@, path@);
    }
    owners
}

/// Why a change cannot be mapped to a precise set of checks.
#[derive(Clone, Copy, Debug, PartialEq, Eq, Structural)]
pub enum UncertaintyKind {
    ConfigurationChanged,
    TopologyChanged,
    UnknownPathOwnership,
    Unsupported,
}

/// What one changed path means for the Rust target.
pub enum PathImpact {
    Irrelevant,
    Affected(String),
    Broad(UncertaintyKind, String),
}

/// The spec-level value of a `PathImpact`.
pub enum PathImpactView {
    Irrelevant,
    Affected(Seq<char>),
    Broad(UncertaintyKind, Seq<char>),
}

impl PathImpact {
    pub open spec fn view(&self) -> PathImpactView {
        match self {
            PathImpact::Irrelevant => PathImpactView::Irrelevant,
            PathImpact::Affected(s) => PathImpactView::Affected(s@),
            PathImpact::Broad(k, d) => PathImpactView::Broad(*k, d@),
        }
    }
}

pub open spec fn holds_path(dirs: Seq<String>, path: Seq<char>) -> bool {
    exists|k: int| 0 <= k < dirs.len() && spec_contains_path(#[trigger] dirs[k]@, path)
}

/// Classifies one changed path:
/// - a governing Cargo or toolchain input, a manifest or a configuration
///   file of the Cargo topology broadens every check;
/// - a non-Rust file, or one outside the configured root, is irrelevant;
/// - a Rust file below a non-member manifest, or without exactly one
///   deepest owning package, has unknown ownership;
/// - otherwise it affects its owning package.
pub open spec fn spec_classify_path(
    configured_root: Seq<char>,
    packages: Seq<Package>,
    nonmember_dirs: Seq<String>,
    topology_prefix: Seq<char>,
    path: Seq<char>,
) -> PathImpactView {
    if spec_is_governing_rust_input(path, configured_root) {
        PathImpactView::Broad(
            UncertaintyKind::ConfigurationChanged,
            path + " is a governing Rust runtime or Cargo input"@,
        )
    } else if spec_path_in_target(path, topology_prefix) matches Some(local) && spec_is_manifest(
        local,
    ) {
        PathImpactView::Broad(UncertaintyKind::TopologyChanged, path + " changed Cargo topology"@)
    } else if spec_path_in_target(path, topology_prefix) matches Some(local)
        && spec_is_configuration_input(local) {
        PathImpactView::Broad(
            UncertaintyKind::ConfigurationChanged,
            path + " is a configuration-sensitive Rust input"@,
        )
    } else {
        match spec_path_in_target(path, configured_root) {
            None => PathImpactView::Irrelevant,
            Some(local) => if !ends_with(local, ".rs"@) {
                PathImpactView::Irrelevant
            } else if holds_path(nonmember_dirs, path) {
                PathImpactView::Broad(
                    UncertaintyKind::UnknownPathOwnership,
                    path + " is below a Cargo manifest outside declared workspace members"@,
                )
            } else {
                let owners = spec_package_owners(packages, path);
                if owners.len() == 1 {
                    PathImpactView::Affected(owners[0])
                } else {
                    PathImpactView::Broad(
                        UncertaintyKind::UnknownPathOwnership,
                        "cannot uniquely map "@ + path + " to a Cargo package"@,
                    )
                }
            },
        }
    }
}

fn str_concat(a: &str, b: &str) -> (r: String)
    ensures
        r@ == a@ + b@,
{
    let mut s = String::from_str(a);
    s.append(b);
    s
}

fn any_holds(dirs: &Vec<String>, path: &str) -> (r: bool)
    ensures
        r == holds_path(dirs@, path@),
{
    let mut k: usize = 0;
    while k < dirs.len()
        invariant
            k <= dirs@.len(),
            forall|j: int| 0 <= j < k ==> !spec_contains_path(#[trigger] dirs@[j]@, path@),
        decreases dirs@.len() - k,
    {
        if contains_path(dirs[k].as_str(), path) {
            return true;
        }
        k = k + 1;
    }
    false
}

pub fn classify_path(
    configured_root: &str,
    packages: &Vec<Package>,
    nonmember_dirs: &Vec<String>,
    topology_prefix: &str,
    path: &str,
) -> (r: PathImpact)
    requires
        crate::selection::strictly_sorted(crate::cargo_topology::package_names(packages@)),
    ensures
        r.view() == spec_classify_path(
            configured_root@,
            packages@,
            nonmember_dirs@,
            topology_prefix@,
            path@,
        ),
{
    if is_governing_rust_input(path, configured_root) {
        return PathImpact::Broad(
            UncertaintyKind::ConfigurationChanged,
            str_concat(path, " is a governing Rust runtime or Cargo input"),
        );
    }
    match path_in_target(path, topology_prefix) {
        Some(local) => {
            if is_manifest(local.as_str()) {
                return PathImpact::Broad(
                    UncertaintyKind::TopologyChanged,
                    str_concat(path, " changed Cargo topology"),
                );
            }
            if is_configuration_input(local.as_str()) {
                return PathImpact::Broad(
                    UncertaintyKind::ConfigurationChanged,
                    str_concat(path, " is a configuration-sensitive Rust input"),
                );
            }
        },
        None => {},
    }
    let local = match path_in_target(path, configured_root) {
        Some(local) => local,
        None => {
            return PathImpact::Irrelevant;
        },
    };
    let lv = chars_of(local.as_str());
    if !chars_end_with(&lv, &chars_of(".rs")) {
        return PathImpact::Irrelevant;
    }
    if any_holds(nonmember_dirs, path) {
        return PathImpact::Broad(
            UncertaintyKind::UnknownPathOwnership,
            str_concat(path, " is below a Cargo manifest outside declared workspace members"),
        );
    }
    let owners = package_owners(packages, path);
    if owners.len() == 1 {
        PathImpact::Affected(owners[0].clone())
    } else {
        let mut detail = String::from_str("cannot uniquely map ");
        detail.append(path);
        detail.append(" to a Cargo package");
        PathImpact::Broad(UncertaintyKind::UnknownPathOwnership, detail)
    }
}


/// Every path a change touches: its path, then its source path if any.
pub open spec fn change_path_list(changes: Seq<ChangedPath>) -> Seq<Seq<char>>
    decreases changes.len(),
{
    if changes.len() == 0 {
        seq![]
    } else {
        let c = changes.last();
        change_path_list(changes.drop_last()) + seq![c.path@] + match c.previous_path {
            Some(p) => seq![p@],
            None => seq![],
        }
    }
}

/// The first broadening reason met, and the packages met before it.
pub open spec fn fold_impacts(
    configured_root: Seq<char>,
    packages: Seq<Package>,
    nonmember_dirs: Seq<String>,
    topology_prefix: Seq<char>,
    paths: Seq<Seq<char>>,
) -> (Option<(UncertaintyKind, Seq<char>)>, Set<Seq<char>>)
    decreases paths.len(),
{
    if paths.len() == 0 {
        (None, Set::empty())
    } else {
        let (broad, affected) = fold_impacts(
            configured_root,
            packages,
            nonmember_dirs,
            topology_prefix,
            paths.drop_last(),
        );
        if broad is Some {
            (broad, affected)
        } else {
            match spec_classify_path(
                configured_root,
                packages,
                nonmember_dirs,
                topology_prefix,
                paths.last(),
            ) {
                PathImpactView::Broad(k, d) => (Some((k, d)), affected),
                PathImpactView::Affected(n) => (None, affected.insert(n)),
                PathImpactView::Irrelevant => (None, affected),
            }
        }
    }
}

/// What a set of changes means for the Rust target.
pub enum PackageImpact {
    Irrelevant,
    Affected(Vec<String>),
    Broad(UncertaintyKind, String),
}

/// The first changed path that broadens the checks decides; otherwise the
/// owning packages of the changed Rust files are affected, and with none
/// the changes are irrelevant.
#[verifier::rlimit(50)]
pub fn affected_packages(
    configured_root: &str,
    changes: &Vec<ChangedPath>,
    packages: &Vec<Package>,
    nonmember_dirs: &Vec<String>,
    topology_prefix: &str,
) -> (r: PackageImpact)
    requires
        crate::selection::strictly_sorted(crate::cargo_topology::package_names(packages@)),
    ensures
        ({
            let (broad, affected) = fold_impacts(
                configured_root@,
                packages@,
                nonmember_dirs@,
                topology_prefix@,
                change_path_list(changes@),
            );
            match r {
                PackageImpact::Broad(k, d) => broad == Some((k, d@)),
                PackageImpact::Affected(names) => broad is None && name_set(names@) == affected
                    && affected != Set::<Seq<char>>::empty() && string_views(names@).no_duplicates(),
                PackageImpact::Irrelevant => broad is None && affected == Set::<Seq<char>>::empty(),
            }
        }),
{
    let mut affected: Vec<String> = Vec::new();
    let mut i: usize = 0;
    while i < changes.len()
        invariant
            i <= changes@.len(),
            crate::selection::strictly_sorted(crate::cargo_topology::package_names(packages@)),
            string_views(affected@).no_duplicates(),
            fold_impacts(
                configured_root@,
                packages@,
                nonmember_dirs@,
                topology_prefix@,
                change_path_list(changes@.take(i as int)),
            ) == (None::<(UncertaintyKind, Seq<char>)>, name_set(affected@)),
        decreases changes@.len() - i,
    {
        let c = &changes[i];
        let ghost base = change_path_list(changes@.take(i as int));
        proof {
            assert(changes@.take(i + 1).drop_last() == changes@.take(i as int));
            assert(changes@.take(i + 1).last() == *c);
        }
        let first = classify_path(configured_root, packages, nonmember_dirs, topology_prefix, c.path.as_str());
        proof {
            let l1 = base + seq![c.path@];
            assert(l1.drop_last() == base);
        }
        match first {
            PathImpact::Broad(k, d) => {
                proof {
                    lemma_fold_broad_sticks(
                        configured_root@,
                        packages@,
                        nonmember_dirs@,
                        topology_prefix@,
                        base + seq![c.path@],
                        match &c.previous_path {
                            Some(p) => seq![p@],
                            None => seq![],
                        },
                    );
                    lemma_change_path_list_take(changes@, i as int);
                    lemma_change_path_list_prefix(changes@, i + 1, changes@.len() as int);
                    assert(changes@.take(changes@.len() as int) == changes@);
                    lemma_fold_broad_prefix(
                        configured_root@,
                        packages@,
                        nonmember_dirs@,
                        topology_prefix@,
                        change_path_list(changes@.take(i + 1)),
                        change_path_list(changes@),
                    );
                }
                return PackageImpact::Broad(k, d);
            },
            PathImpact::Affected(n) => {
                let ghost before = string_views(affected@);
                if !contains_string(&affected, &n) {
                    affected.push(n);
                    proof {
                        assert(string_views(affected@) =~= before.push(n@));
                        before.lemma_push_to_set_commute(n@);
                        lemma_push_no_duplicates(before, n@);
                    }
                } else {
                    proof {
                        before.lemma_push_to_set_commute(n@);
                        assert(name_set(affected@).insert(n@) =~= name_set(affected@));
                    }
                }
            },
            PathImpact::Irrelevant => {},
        }
        match &c.previous_path {
            Some(prev) => {
                let second = classify_path(
                    configured_root,
                    packages,
                    nonmember_dirs,
                    topology_prefix,
                    prev.as_str(),
                );
                proof {
                    let l2 = base + seq![c.path@] + seq![prev@];
                    assert(l2.drop_last() == base + seq![c.path@]);
                }
                match second {
                    PathImpact::Broad(k, d) => {
                        proof {
                            lemma_change_path_list_take(changes@, i as int);
                            lemma_change_path_list_prefix(changes@, i + 1, changes@.len() as int);
                            assert(changes@.take(changes@.len() as int) == changes@);
                            lemma_fold_broad_prefix(
                                configured_root@,
                                packages@,
                                nonmember_dirs@,
                                topology_prefix@,
                                change_path_list(changes@.take(i + 1)),
                                change_path_list(changes@),
                            );
                        }
                        return PackageImpact::Broad(k, d);
                    },
                    PathImpact::Affected(n) => {
                        let ghost before = string_views(affected@);
                        if !contains_string(&affected, &n) {
                            affected.push(n);
                            proof {
                                assert(string_views(affected@) =~= before.push(n@));
                                before.lemma_push_to_set_commute(n@);
                                lemma_push_no_duplicates(before, n@);
                            }
                        } else {
                            proof {
                                before.lemma_push_to_set_commute(n@);
                                assert(name_set(affected@).insert(n@) =~= name_set(affected@));
                            }
                        }
                    },
                    PathImpact::Irrelevant => {},
                }
            },
            None => {},
        }
        i = i + 1;
    }
    assert(changes@.take(changes@.len() as int) == changes@);
    if affected.len() == 0 {
        assert(name_set(affected@) =~= Set::<Seq<char>>::empty());
        PackageImpact::Irrelevant
    } else {
        proof {
            assert(string_views(affected@)[0] == affected@[0]@);
            assert(string_views(affected@).contains(affected@[0]@));
            assert(name_set(affected@).contains(affected@[0]@));
            assert(!Set::<Seq<char>>::empty().contains(affected@[0]@));
        }
        PackageImpact::Affected(affected)
    }
}

pub proof fn lemma_change_path_list_take(changes: Seq<ChangedPath>, i: int)
    requires
        0 <= i < changes.len(),
    ensures
        change_path_list(changes.take(i + 1)) == change_path_list(changes.take(i))
            + seq![changes[i].path@] + match changes[i].previous_path {
            Some(p) => seq![p@],
            None => seq![],
        },
{
    assert(changes.take(i + 1).drop_last() == changes.take(i));
}

/// The paths of a prefix of the changes start the paths of a longer prefix.
pub proof fn lemma_change_path_list_prefix(changes: Seq<ChangedPath>, k: int, m: int)
    requires
        0 <= k <= m <= changes.len(),
    ensures
        change_path_list(changes.take(k)).len() <= change_path_list(changes.take(m)).len(),
        change_path_list(changes.take(m)).take(change_path_list(changes.take(k)).len() as int)
            == change_path_list(changes.take(k)),
    decreases m - k,
{
    if m > k {
        lemma_change_path_list_prefix(changes, k, m - 1);
        lemma_change_path_list_take(changes, m - 1);
        let a = change_path_list(changes.take(k));
        let b = change_path_list(changes.take(m - 1));
        let c = change_path_list(changes.take(m));
        assert(c.take(a.len() as int) =~= b.take(a.len() as int));
    } else {
        assert(change_path_list(changes.take(m)).take(
            change_path_list(changes.take(k)).len() as int,
        ) == change_path_list(changes.take(m)));
    }
}

/// Once a broadening reason is met, later paths do not change the fold.
pub proof fn lemma_fold_broad_sticks(
    configured_root: Seq<char>,
    packages: Seq<Package>,
    nonmember_dirs: Seq<String>,
    topology_prefix: Seq<char>,
    a: Seq<Seq<char>>,
    b: Seq<Seq<char>>,
)
    requires
        fold_impacts(configured_root, packages, nonmember_dirs, topology_prefix, a).0 is Some,
    ensures
        fold_impacts(configured_root, packages, nonmember_dirs, topology_prefix, a + b).0
            == fold_impacts(configured_root, packages, nonmember_dirs, topology_prefix, a).0,
    decreases b.len(),
{
    if b.len() > 0 {
        lemma_fold_broad_sticks(
            configured_root,
            packages,
            nonmember_dirs,
            topology_prefix,
            a,
            b.drop_last(),
        );
        assert((a + b).drop_last() == a + b.drop_last());
    } else {
        assert(a + b == a);
    }
}

/// The change-path list of a prefix of the changes is a prefix of the whole
/// list, so a broadening reason met in it decides the whole fold.
pub proof fn lemma_fold_broad_prefix(
    configured_root: Seq<char>,
    packages: Seq<Package>,
    nonmember_dirs: Seq<String>,
    topology_prefix: Seq<char>,
    a: Seq<Seq<char>>,
    whole: Seq<Seq<char>>,
)
    requires
        fold_impacts(configured_root, packages, nonmember_dirs, topology_prefix, a).0 is Some,
        a.len() <= whole.len(),
        whole.take(a.len() as int) == a,
    ensures
        fold_impacts(configured_root, packages, nonmember_dirs, topology_prefix, whole).0
            == fold_impacts(configured_root, packages, nonmember_dirs, topology_prefix, a).0,
{
    let b = whole.skip(a.len() as int);
    assert(a + b == whole);
    lemma_fold_broad_sticks(configured_root, packages, nonmember_dirs, topology_prefix, a, b);
}


proof fn lemma_owners_are_names(packages: Seq<Package>, path: Seq<char>, depth: nat)
    ensures
        forall|i: int|
            0 <= i < owners_at(packages, path, depth).len() ==> exists|k: int|
                0 <= k < packages.len() && #[trigger] owners_at(packages, path, depth)[i] == packages[k].name@,
    decreases packages.len(),
{
    if packages.len() > 0 {
        let rest = packages.drop_last();
        lemma_owners_are_names(rest, path, depth);
        let o = owners_at(packages, path, depth);
        assert forall|i: int| 0 <= i < o.len() implies exists|k: int|
            0 <= k < packages.len() && #[trigger] o[i] == packages[k].name@ by {
            if i < owners_at(rest, path, depth).len() {
                let k = choose|k: int| 0 <= k < rest.len() && owners_at(rest, path, depth)[i] == rest[k].name@;
                assert(o[i] == packages[k].name@);
            } else {
                assert(o[i] == packages[packages.len() - 1].name@);
            }
        }
    }
}

proof fn lemma_owners_sorted(packages: Seq<Package>, path: Seq<char>, depth: nat)
    requires
        crate::selection::strictly_sorted(crate::cargo_topology::package_names(packages)),
    ensures
        crate::selection::strictly_sorted(owners_at(packages, path, depth)),
    decreases packages.len(),
{
    if packages.len() > 0 {
        let rest = packages.drop_last();
        let names = crate::cargo_topology::package_names(packages);
        assert(crate::cargo_topology::package_names(rest) =~= names.drop_last());
        lemma_owners_sorted(rest, path, depth);
        lemma_owners_are_names(rest, path, depth);
        let prev = owners_at(rest, path, depth);
        let last = packages.last().name@;
        assert forall|i: int| 0 <= i < prev.len() implies crate::order::text_lt(#[trigger] prev[i], last) by {
            let k = choose|k: int| 0 <= k < rest.len() && prev[i] == rest[k].name@;
            assert(names[k] == rest[k].name@ && names[packages.len() - 1] == last);
        }
    }
}

/// The owners of a path come in name order when the packages are listed by
/// name, each name once.
pub proof fn law_owners_in_key_order(packages: Seq<Package>, path: Seq<char>)
    requires
        crate::selection::strictly_sorted(crate::cargo_topology::package_names(packages)),
    ensures
        crate::selection::strictly_sorted(spec_package_owners(packages, path)),
{
    lemma_owners_sorted(packages, path, max_owner_depth(packages, path));
}


/// `name` is the name of a package that depends on `dep`.
pub open spec fn dependent_link(packages: Seq<Package>, dep: Seq<char>, name: Seq<char>) -> bool {
    exists|k: int, j: int|
        #![trigger packages[k].deps@[j]]
        0 <= k < packages.len() && 0 <= j < packages[k].deps@.len() && packages[k].name@ == name
            && packages[k].deps@[j]@ == dep
}

/// The step from position `i` of `chain` to the next is a dependent link.
pub open spec fn chain_step(packages: Seq<Package>, chain: Seq<Seq<char>>, i: int) -> bool {
    dependent_link(packages, chain[i], chain[i + 1])
}

/// A chain of dependents: each name after the first is the name of a
/// package that depends on the name before it.
pub open spec fn dependent_chain(packages: Seq<Package>, chain: Seq<Seq<char>>) -> bool {
    forall|i: int| 0 <= i < chain.len() - 1 ==> #[trigger] chain_step(packages, chain, i)
}

/// `name` is a seed or reaches one: a chain of dependents leads from a seed
/// to it.
pub open spec fn reaches_seed(packages: Seq<Package>, seeds: Set<Seq<char>>, name: Seq<char>) -> bool {
    exists|chain: Seq<Seq<char>>|
        #![trigger dependent_chain(packages, chain)]
        chain.len() > 0 && seeds.contains(chain[0]) && chain.last() == name && dependent_chain(packages, chain)
}

/// Every name on a chain of dependents that starts in a set closed under
/// dependents is in that set.
proof fn lemma_chain_stays_in_closed_set(packages: Seq<Package>, s: Set<Seq<char>>, chain: Seq<Seq<char>>, n: int)
    requires
        closed_under_dependents(packages, s),
        dependent_chain(packages, chain),
        chain.len() > 0,
        s.contains(chain[0]),
        0 <= n < chain.len(),
    ensures
        s.contains(chain[n]),
    decreases n,
{
    if n > 0 {
        lemma_chain_stays_in_closed_set(packages, s, chain, n - 1);
        assert(chain_step(packages, chain, n - 1));
        let (k, j) = choose|k: int, j: int|
            #![trigger packages[k].deps@[j]]
            0 <= k < packages.len() && 0 <= j < packages[k].deps@.len() && packages[k].name@ == chain[n]
                && packages[k].deps@[j]@ == chain[n - 1];
        assert(depends_on_any(packages[k], s));
    }
}

/// The reverse closure is reachability: a name is in the closure of the
/// seeds exactly when a chain of dependents leads to it from a seed; and
/// it holds no name but the seeds and the names of the packages.
pub proof fn law_reverse_closure_is_reachability(packages: Seq<Package>, seeds: Seq<String>, result: Seq<String>)
    requires
        name_set(seeds).subset_of(name_set(result)),
        closed_under_dependents(packages, name_set(result)),
        forall|t: Set<Seq<char>>|
            #![trigger closed_under_dependents(packages, t)]
            name_set(seeds).subset_of(t) && closed_under_dependents(packages, t) ==> name_set(result).subset_of(t),
    ensures
        forall|n: Seq<char>| name_set(result).contains(n) <==> reaches_seed(packages, name_set(seeds), n),
        name_set(result).subset_of(name_set(seeds).union(crate::cargo_topology::package_names(packages).to_set())),
{
    let seed_set = name_set(seeds);
    let known = seed_set.union(crate::cargo_topology::package_names(packages).to_set());
    assert forall|i: int| 0 <= i < packages.len() && depends_on_any(#[trigger] packages[i], known) implies known.contains(
        packages[i].name@,
    ) by {
        assert(crate::cargo_topology::package_names(packages)[i] == packages[i].name@);
    }
    assert(closed_under_dependents(packages, known));
    let reach = Set::new(|n: Seq<char>| reaches_seed(packages, seed_set, n));
    assert forall|n: Seq<char>| seed_set.contains(n) implies reach.contains(n) by {
        let chain = seq![n];
        assert(dependent_chain(packages, chain));
    }
    assert forall|i: int| 0 <= i < packages.len() && depends_on_any(#[trigger] packages[i], reach) implies reach.contains(
        packages[i].name@,
    ) by {
        let j = choose|j: int| 0 <= j < packages[i].deps@.len() && reach.contains(#[trigger] packages[i].deps@[j]@);
        let d = packages[i].deps@[j]@;
        let chain = choose|chain: Seq<Seq<char>>|
            #![trigger dependent_chain(packages, chain)]
            chain.len() > 0 && seed_set.contains(chain[0]) && chain.last() == d && dependent_chain(packages, chain);
        let longer = chain.push(packages[i].name@);
        assert forall|m: int| 0 <= m < longer.len() - 1 implies #[trigger] chain_step(packages, longer, m) by {
            if m < chain.len() - 1 {
                assert(chain_step(packages, chain, m));
                assert(longer[m] == chain[m] && longer[m + 1] == chain[m + 1]);
            } else {
                assert(longer[m] == d && longer[m + 1] == packages[i].name@);
                assert(packages[i].deps@[j]@ == d);
            }
        }
        assert(dependent_chain(packages, longer));
        assert(longer.last() == packages[i].name@);
    }
    assert(closed_under_dependents(packages, reach));
    assert forall|n: Seq<char>| reaches_seed(packages, seed_set, n) implies name_set(result).contains(n) by {
        let chain = choose|chain: Seq<Seq<char>>|
            #![trigger dependent_chain(packages, chain)]
            chain.len() > 0 && seed_set.contains(chain[0]) && chain.last() == n && dependent_chain(packages, chain);
        lemma_chain_stays_in_closed_set(packages, name_set(result), chain, chain.len() - 1);
    }
}

/// The two file names of a Cargo manifest and lock.
pub open spec fn is_manifest_name(name: Seq<char>) -> bool {
    name == "Cargo.toml"@ || name == "Cargo.lock"@
}

/// `dir` is the repository root (empty) or a directory path ending in `/`.
pub open spec fn is_dir_prefix(dir: Seq<char>) -> bool {
    dir.len() == 0 || dir.last() == '/'
}

/// A file named `Cargo.toml` or `Cargo.lock`, in any directory, is a
/// manifest.
pub proof fn law_manifest_names_are_manifests(dir: Seq<char>, name: Seq<char>)
    requires
        is_dir_prefix(dir),
        is_manifest_name(name),
    ensures
        spec_is_manifest(dir + name),
{
    reveal_strlit("Cargo.toml");
    reveal_strlit("Cargo.lock");
    reveal_strlit("/Cargo.toml");
    reveal_strlit("/Cargo.lock");
    let p = dir + name;
    if dir.len() == 0 {
        assert(p =~= name);
    } else {
        let slashed = seq!['/'] + name;
        assert(p.skip(p.len() - slashed.len()) =~= slashed);
        assert("/Cargo.toml"@ =~= seq!['/'] + "Cargo.toml"@);
        assert("/Cargo.lock"@ =~= seq!['/'] + "Cargo.lock"@);
    }
}

/// A manifest or lock file is never a governing Cargo configuration or
/// toolchain file.
proof fn lemma_manifest_not_governing(dir: Seq<char>, name: Seq<char>)
    requires
        is_manifest_name(name),
    ensures
        governing_dir(dir + name) is None,
{
    reveal_strlit("Cargo.toml");
    reveal_strlit("Cargo.lock");
    reveal_strlit(".cargo/config");
    reveal_strlit(".cargo/config.toml");
    reveal_strlit("rust-toolchain");
    reveal_strlit("rust-toolchain.toml");
    let p = dir + name;
    let n = p.len() as int;
    assert(p[n - 1] == name[9]);
    assert(p[n - 10] == name[0]);
    let cfg = ".cargo/config"@;
    let cfgt = ".cargo/config.toml"@;
    if ends_with(p, cfg) {
        assert(p[n - 1] == p.skip(n - cfg.len())[cfg.len() - 1]);
    }
    if ends_with(p, cfgt) {
        assert(p[n - 10] == p.skip(n - cfgt.len())[cfgt.len() - 10]);
        assert(p[n - 1] == p.skip(n - cfgt.len())[cfgt.len() - 1]);
    }
    let nm = crate::text::after_last(p, '/');
    crate::text::lemma_last_index_of(p, '/');
    let k: int = match crate::text::last_index_of(p, '/') {
        Some(i) => i + 1,
        None => 0,
    };
    assert(nm == p.skip(k));
    if nm == "rust-toolchain"@ {
        assert(p[n - 1] == nm[nm.len() - 1]);
    }
    if nm == "rust-toolchain.toml"@ {
        assert(p[n - 1] == nm[nm.len() - 1]);
        assert(p[n - 10] == nm[nm.len() - 10]);
    }
}

/// A change to a manifest or lock file within the Cargo topology broadens
/// every check of the target as a topology change.
pub proof fn law_manifest_change_broadens(
    configured_root: Seq<char>,
    packages: Seq<Package>,
    nonmember_dirs: Seq<String>,
    topology_prefix: Seq<char>,
    dir: Seq<char>,
    local_dir: Seq<char>,
    name: Seq<char>,
)
    requires
        is_manifest_name(name),
        is_dir_prefix(local_dir),
        spec_path_in_target(dir + name, topology_prefix) == Some(local_dir + name),
    ensures
        spec_classify_path(configured_root, packages, nonmember_dirs, topology_prefix, dir + name)
            == PathImpactView::Broad(UncertaintyKind::TopologyChanged, dir + name + " changed Cargo topology"@),
{
    lemma_manifest_not_governing(dir, name);
    law_manifest_names_are_manifests(local_dir, name);
}

} // verus!
