//! The Rust signal checks: their names, which crates a scope covers, and how
//! the offenders of the size, deps and mutation checks are found and listed.
use crate::order::{compare_text, sort_list, sort_listed, text_lt, Listed, TextOrder};
use crate::vocabulary::Level;
use crate::paths::{components, is_absolute, join_spec, path_join, strip_prefix_spec, path_strip_prefix};
use crate::text::{
    chars_of, chars_replace, lemma_split_chars_single, parse_u64, parse_u64_range, replace_char,
    split_char, split_on, starts_with, string_from_chars, string_from_range, str_eq, trim,
    trim_bounds, views,
};
use vstd::prelude::*;

verus! {

broadcast use vstd::string::group_string_axioms;

/// The checks the signal tool can run.
#[derive(Clone, Copy, Debug, PartialEq, Eq, Structural)]
pub enum SignalCheck {
    Size,
    Complexity,
    Deps,
    Mutation,
}

impl SignalCheck {
    pub open spec fn spec_name(self) -> Seq<char> {
        match self {
            SignalCheck::Size => "size"@,
            SignalCheck::Complexity => "complexity"@,
            SignalCheck::Deps => "deps"@,
            SignalCheck::Mutation => "mutation"@,
        }
    }

    /// The name under which a check is reported.
    pub fn as_str(self) -> (r: &'static str)
        ensures
            r@ == self.spec_name(),
    {
        match self {
            SignalCheck::Size => "size",
            SignalCheck::Complexity => "complexity",
            SignalCheck::Deps => "deps",
            SignalCheck::Mutation => "mutation",
        }
    }
}

/// What a run of the signal tool is narrowed to.
pub struct SignalScopeInput {
    pub scope: Option<String>,
    pub file: Option<String>,
    /// A package identifier: for Rust, first a crate name, then a package
    /// path.
    pub package: Option<String>,
}

impl Default for SignalScopeInput {
    fn default() -> (r: SignalScopeInput)
        ensures
            r.scope is None,
            r.file is None,
            r.package is None,
    {
        SignalScopeInput { scope: None, file: None, package: None }
    }
}

/// A `s` followed by `t`.
pub fn concat(s: &str, t: &str) -> (r: String)
    ensures
        r@ == s@ + t@,
{
    let mut out = String::from_str(s);
    out.append(t);
    out
}

/// Directory names that the checks never look into.
pub open spec fn is_ignored_part(c: Seq<char>) -> bool {
    c == ".git"@ || c == "target"@ || c == "node_modules"@ || c == "build"@
}

/// Whether a component of `path` is one that the checks never look into.
pub open spec fn has_ignored_part(path: Seq<char>) -> bool {
    exists|i: int| 0 <= i < components(path).len() && is_ignored_part(#[trigger] components(path)[i])
}

pub fn contains_ignored_part(path: &str) -> (r: bool)
    ensures
        r == has_ignored_part(path@),
{
    let cs = crate::paths::path_components(path);
    let ignored = [".git", "target", "node_modules", "build"];
    let mut i: usize = 0;
    while i < cs.len()
        invariant
            i <= cs@.len(),
            views(cs@) == components(path@),
            forall|k: int| 0 <= k < i ==> !is_ignored_part(#[trigger] components(path@)[k]),
        decreases cs@.len() - i,
    {
        let c = string_from_chars(&cs[i]);
        assert(views(cs@)[i as int] == cs@[i as int]@);
        if str_eq(c.as_str(), ".git") || str_eq(c.as_str(), "target") || str_eq(
            c.as_str(),
            "node_modules",
        ) || str_eq(c.as_str(), "build") {
            return true;
        }
        i = i + 1;
    }
    false
}

pub open spec fn spec_path_class(path: Seq<char>) -> Seq<char> {
    if path == "core"@ {
        "core"@
    } else if starts_with(path, "adapters/"@) {
        "adapters/*"@
    } else if path == "cli"@ {
        "cli"@
    } else {
        path
    }
}

/// The rule class of a crate path: `adapters/...` crates share one class,
/// every other path is its own class.
pub fn path_class(path: &str) -> (r: String)
    ensures
        r@ == spec_path_class(path@),
{
    if str_eq(path, "core") {
        return String::from_str("core");
    }
    let v = chars_of(path);
    let prefix = chars_of("adapters/");
    if crate::text::chars_start_with(&v, &prefix) {
        return String::from_str("adapters/*");
    }
    if str_eq(path, "cli") {
        return String::from_str("cli");
    }
    String::from_str(path)
}

/// `value` read as `file:line...`: the trimmed text before the first `:`
/// (which must not be empty) and the trimmed decimal line number after it,
/// up to the next `:`.
pub open spec fn spec_path_line_prefix(value: Seq<char>) -> Option<(Seq<char>, u64)> {
    let parts = split_char(value, ':');
    if parts.len() < 2 {
        None
    } else {
        let file = trim(parts[0]);
        match parse_u64(trim(parts[1])) {
            Some(line) => if file.len() == 0 {
                None
            } else {
                Some((file, line))
            },
            None => None,
        }
    }
}

pub fn parse_path_line_prefix(value: &str) -> (r: Option<(String, u64)>)
    ensures
        match spec_path_line_prefix(value@) {
            Some((file, line)) => r matches Some((f, l)) && f@ == file && l == line,
            None => r is None,
        },
{
    let v = chars_of(value);
    let colon = [':'];
    assert(colon@ == seq![':']);
    let parts = split_on(&v, &colon);
    proof {
        lemma_split_chars_single(v@, ':');
    }
    if parts.len() < 2 {
        return None;
    }
    assert(views(parts@)[0] == parts@[0]@);
    assert(views(parts@)[1] == parts@[1]@);
    let (a, b) = trim_bounds(&parts[1]);
    let line = match parse_u64_range(&parts[1], a, b) {
        Some(n) => n,
        None => return None,
    };
    let (c, d) = trim_bounds(&parts[0]);
    if c == d {
        return None;
    }
    let file = string_from_range(&parts[0], c, d);
    Some((file, line))
}

/// The message of a path that does not lie under the repository.
pub open spec fn outside_repo_message(path: Seq<char>, repo_root: Seq<char>) -> Seq<char> {
    "path "@ + path + " is outside repo "@ + repo_root + ": prefix not found"@
}

/// `path` relative to `repo_root`, with `/` separators.
pub open spec fn spec_relative_posix(repo_root: Seq<char>, path: Seq<char>) -> Result<Seq<char>, Seq<char>> {
    match strip_prefix_spec(path, repo_root) {
        Some(rest) => Ok(replace_char(rest, '\\', '/')),
        None => Err(outside_repo_message(path, repo_root)),
    }
}

pub fn to_relative_posix(repo_root: &str, path: &str) -> (r: Result<String, String>)
    ensures
        match spec_relative_posix(repo_root@, path@) {
            Ok(rel) => r matches Ok(s) && s@ == rel,
            Err(msg) => r matches Err(e) && e@ == msg,
        },
{
    match path_strip_prefix(path, repo_root) {
        Some(rest) => {
            let v = chars_of(rest.as_str());
            let w = chars_replace(&v, '\\', '/');
            Ok(string_from_chars(&w))
        },
        None => {
            let a = concat("path ", path);
            let b = concat(a.as_str(), " is outside repo ");
            let c = concat(b.as_str(), repo_root);
            let d = concat(c.as_str(), ": prefix not found");
            Err(d)
        },
    }
}


/// A dependency as a crate's manifest declares it: its name and, for a
/// path dependency, the repository-relative directory that the path
/// resolves to.
pub struct CrateDependency {
    pub name: String,
    pub path: Option<String>,
}

/// A crate of the repository: its package name, its repository-relative
/// directory, its manifest and its dependencies in manifest order.
pub struct CrateInfo {
    pub name: String,
    pub path: String,
    pub cargo_path: String,
    pub dependencies: Vec<CrateDependency>,
}

/// The part of the repository that a run of the checks covers.
pub struct ScopeContext {
    pub repo_root: String,
    pub root_relative: String,
    pub root_absolute: String,
    pub file: Option<String>,
    pub package: Option<String>,
    pub scope: Option<String>,
}

/// The directories of the crates named `name`, in order.
pub open spec fn crate_paths_named(crates: Seq<CrateInfo>, name: Seq<char>) -> Seq<Seq<char>>
    decreases crates.len(),
{
    if crates.len() == 0 {
        seq![]
    } else {
        let init = crate_paths_named(crates.drop_last(), name);
        if crates.last().name@ == name {
            init.push(crates.last().path@)
        } else {
            init
        }
    }
}

pub open spec fn multiple_crates_message(name: Seq<char>) -> Seq<char> {
    "multiple crates found for '"@ + name + "'"@
}

/// The directory of the one crate named `name`, if there is one; an error
/// when more than one crate has that name.
pub fn resolve_crate_path(name: &str, crates: &Vec<CrateInfo>) -> (r: Result<Option<String>, String>)
    ensures
        ({
            let found = crate_paths_named(crates@, name@);
            &&& found.len() > 1 ==> (r matches Err(e) && e@ == multiple_crates_message(name@))
            &&& found.len() == 1 ==> (r matches Ok(Some(p)) && p@ == found[0])
            &&& found.len() == 0 ==> (r matches Ok(None))
        }),
{
    let mut first: Option<String> = None;
    let mut count: usize = 0;
    let mut i: usize = 0;
    while i < crates.len()
        invariant
            i <= crates@.len(),
            count == crate_paths_named(crates@.take(i as int), name@).len(),
            count == 0 ==> first is None,
            count >= 1 ==> (first matches Some(f) && f@ == crate_paths_named(crates@.take(i as int), name@)[0]),
            count <= 1,
        decreases crates@.len() - i,
    {
        proof {
            assert(crates@.take(i + 1).drop_last() =~= crates@.take(i as int));
            lemma_crate_paths_named_prefix(crates@.take(i as int), crates@.take(i + 1), name@);
        }
        if str_eq(crates[i].name.as_str(), name) {
            if count == 1 {
                proof {
                    lemma_crate_paths_named_grows(crates@, name@, i + 1);
                }
                return Err(concat(concat("multiple crates found for '", name).as_str(), "'"));
            }
            first = Some(crates[i].path.clone());
            count = 1;
        }
        i = i + 1;
    }
    assert(crates@.take(i as int) =~= crates@);
    Ok(first)
}

proof fn lemma_crate_paths_named_prefix(a: Seq<CrateInfo>, b: Seq<CrateInfo>, name: Seq<char>)
    requires
        b.len() == a.len() + 1,
        b.drop_last() == a,
    ensures
        crate_paths_named(a, name).len() <= crate_paths_named(b, name).len(),
        forall|k: int| 0 <= k < crate_paths_named(a, name).len() ==> crate_paths_named(b, name)[k]
            == crate_paths_named(a, name)[k],
{
}

proof fn lemma_crate_paths_named_grows(crates: Seq<CrateInfo>, name: Seq<char>, i: int)
    requires
        0 <= i <= crates.len(),
    ensures
        crate_paths_named(crates.take(i), name).len() <= crate_paths_named(crates, name).len(),
    decreases crates.len() - i,
{
    if i < crates.len() {
        lemma_crate_paths_named_grows(crates, name, i + 1);
        assert(crates.take(i + 1).drop_last() =~= crates.take(i));
    } else {
        assert(crates.take(i) =~= crates);
    }
}

/// The scope root a request names: its file, else its scope, else its
/// package (as a crate name when one crate has it, else as a path), else
/// the repository itself.
pub open spec fn spec_scope_root(input: SignalScopeInput, crates: Seq<CrateInfo>) -> Result<Seq<char>, Seq<char>> {
    match input.file {
        Some(file) => Ok(file@),
        None => match input.scope {
            Some(scope) => Ok(scope@),
            None => match input.package {
                Some(package) => {
                    let found = crate_paths_named(crates, package@);
                    if found.len() > 1 {
                        Err(multiple_crates_message(package@))
                    } else if found.len() == 1 {
                        Ok(found[0])
                    } else {
                        Ok(package@)
                    }
                },
                None => Ok("."@),
            },
        },
    }
}

/// Resolves what a run covers.
pub fn resolve_scope(repo_root: &str, input: &SignalScopeInput, crates: &Vec<CrateInfo>) -> (r: Result<ScopeContext, String>)
    ensures
        match spec_scope_root(*input, crates@) {
            Ok(root) => r matches Ok(ctx) && ctx.root_relative@ == root && ctx.repo_root@ == repo_root@
                && ctx.root_absolute@ == (if is_absolute(root) {
                    root
                } else {
                    join_spec(repo_root@, root)
                }) && ctx.file == input.file && ctx.package == input.package && ctx.scope == input.scope,
            Err(message) => r matches Err(e) && e@ == message,
        },
{
    let root_relative = match &input.file {
        Some(file) => file.clone(),
        None => match &input.scope {
            Some(scope) => scope.clone(),
            None => match &input.package {
                Some(package) => match resolve_crate_path(package.as_str(), crates) {
                    Err(e) => return Err(e),
                    Ok(Some(path)) => path,
                    Ok(None) => package.clone(),
                },
                None => String::from_str("."),
            },
        },
    };
    let v = chars_of(root_relative.as_str());
    let root_absolute = if v.len() > 0 && v[0] == '/' {
        root_relative.clone()
    } else {
        path_join(repo_root, root_relative.as_str())
    };
    Ok(ScopeContext {
        repo_root: String::from_str(repo_root),
        root_relative,
        root_absolute,
        file: crate::text::clone_opt_string(&input.file),
        package: crate::text::clone_opt_string(&input.package),
        scope: crate::text::clone_opt_string(&input.scope),
    })
}

/// Whether the crate at `path` lies in the scope rooted at `root_relative`:
/// the whole repository, or a crate at, under or above the root.
pub open spec fn crate_in_scope(root_relative: Seq<char>, path: Seq<char>) -> bool {
    root_relative == "."@ || {
        let root = crate::text::trim_end_char(root_relative, '/');
        path == root || starts_with(path, root + "/"@) || starts_with(root, path + "/"@)
    }
}

/// The indices of the first `n` crates that lie in the scope.
pub open spec fn scoped_upto(root_relative: Seq<char>, crates: Seq<CrateInfo>, n: int) -> Seq<usize>
    decreases n,
{
    if n <= 0 {
        seq![]
    } else if crate_in_scope(root_relative, crates[n - 1].path@) {
        scoped_upto(root_relative, crates, n - 1).push((n - 1) as usize)
    } else {
        scoped_upto(root_relative, crates, n - 1)
    }
}

pub fn crate_in_scope_exec(root_relative: &str, path: &str) -> (r: bool)
    ensures
        r == crate_in_scope(root_relative@, path@),
{
    if str_eq(root_relative, ".") {
        return true;
    }
    let rv = chars_of(root_relative);
    let e = crate::text::trim_end_char_len(&rv, '/');
    let root = crate::text::sub_vec(&rv, 0, e);
    assert(root@ == crate::text::trim_end_char(root_relative@, '/'));
    let pv = chars_of(path);
    let root_slash = crate::text::chars_concat(&root, &['/']);
    let path_slash = crate::text::chars_concat(&pv, &['/']);
    assert(root_slash@ == root@ + "/"@) by {
        assert("/"@ =~= seq!['/']) by { reveal_strlit("/"); }
    }
    assert(path_slash@ == pv@ + "/"@) by {
        assert("/"@ =~= seq!['/']) by { reveal_strlit("/"); }
    }
    crate::text::chars_eq(&pv, &root) || crate::text::chars_start_with(&pv, &root_slash)
        || crate::text::chars_start_with(&root, &path_slash)
}

/// The crates that a run covers (`scoped_upto` over all of them).
pub fn scoped_crates(root_relative: &str, crates: &Vec<CrateInfo>) -> (r: Vec<usize>)
    ensures
        r@ == scoped_upto(root_relative@, crates@, crates@.len() as int),
{
    let mut out: Vec<usize> = Vec::new();
    let mut i: usize = 0;
    while i < crates.len()
        invariant
            i <= crates@.len(),
            out@ == scoped_upto(root_relative@, crates@, i as int),
        decreases crates@.len() - i,
    {
        if crate_in_scope_exec(root_relative, crates[i].path.as_str()) {
            out.push(i);
        }
        i = i + 1;
    }
    out
}


/// The directory of the last crate named `name`: among crates that share a
/// name, the later one stands for the name.
pub open spec fn last_path_named(crates: Seq<CrateInfo>, name: Seq<char>) -> Option<Seq<char>>
    decreases crates.len(),
{
    if crates.len() == 0 {
        None
    } else if crates.last().name@ == name {
        Some(crates.last().path@)
    } else {
        last_path_named(crates.drop_last(), name)
    }
}

/// The crate directory a dependency points to: the crate with its name,
/// else the directory of its path.
pub open spec fn dependency_target(crates: Seq<CrateInfo>, dep: CrateDependency) -> Option<Seq<char>> {
    match last_path_named(crates, dep.name@) {
        Some(path) => Some(path),
        None => match dep.path {
            Some(path) => Some(path@),
            None => None,
        },
    }
}

pub open spec fn path_is_scoped(crates: Seq<CrateInfo>, scoped: Seq<usize>, path: Seq<char>) -> bool {
    exists|k: int| 0 <= k < scoped.len() && (#[trigger] crates[scoped[k] as int]).path@ == path
}

/// The edges from the crate at `from` to scoped crates, in the order of its
/// dependencies.
pub open spec fn dependency_edges(
    crates: Seq<CrateInfo>,
    scoped: Seq<usize>,
    from: Seq<char>,
    deps: Seq<CrateDependency>,
) -> Seq<(Seq<char>, Seq<char>)>
    decreases deps.len(),
{
    if deps.len() == 0 {
        seq![]
    } else {
        let prev = dependency_edges(crates, scoped, from, deps.drop_last());
        match dependency_target(crates, deps.last()) {
            Some(to) => if path_is_scoped(crates, scoped, to) {
                prev.push((from, to))
            } else {
                prev
            },
            None => prev,
        }
    }
}

/// The edges out of the first `n` scoped crates.
pub open spec fn scope_edges(crates: Seq<CrateInfo>, scoped: Seq<usize>, n: int) -> Seq<(Seq<char>, Seq<char>)>
    decreases n,
{
    if n <= 0 {
        seq![]
    } else {
        let c = crates[scoped[n - 1] as int];
        scope_edges(crates, scoped, n - 1) + dependency_edges(crates, scoped, c.path@, c.dependencies@)
    }
}

pub open spec fn pair_views(v: Seq<(String, String)>) -> Seq<(Seq<char>, Seq<char>)> {
    v.map_values(|e: (String, String)| (e.0@, e.1@))
}

proof fn lemma_scoped_bounds(root: Seq<char>, crates: Seq<CrateInfo>, n: int)
    requires
        n <= crates.len() <= usize::MAX,
    ensures
        forall|k: int| 0 <= k < scoped_upto(root, crates, n).len() ==> (#[trigger] scoped_upto(root, crates, n)[k]) < n,
    decreases n,
{
    if n > 0 {
        lemma_scoped_bounds(root, crates, n - 1);
        let prev = scoped_upto(root, crates, n - 1);
        let cur = scoped_upto(root, crates, n);
        assert forall|k: int| 0 <= k < cur.len() implies (#[trigger] cur[k]) < n by {
            if k < prev.len() {
                assert(cur[k] == prev[k]);
            }
        }
    }
}

fn last_crate_path_named(crates: &Vec<CrateInfo>, name: &str) -> (r: Option<String>)
    ensures
        match last_path_named(crates@, name@) {
            Some(p) => r matches Some(s) && s@ == p,
            None => r is None,
        },
{
    let mut i = crates.len();
    assert(crates@.take(crates@.len() as int) =~= crates@);
    while i > 0
        invariant
            i <= crates@.len(),
            last_path_named(crates@, name@) == last_path_named(crates@.take(i as int), name@),
        decreases i,
    {
        assert(crates@.take(i as int).drop_last() =~= crates@.take(i - 1));
        assert(crates@.take(i as int).last() == crates@[i - 1]);
        if str_eq(crates[i - 1].name.as_str(), name) {
            return Some(crates[i - 1].path.clone());
        }
        i = i - 1;
    }
    None
}

fn path_in_scope_set(crates: &Vec<CrateInfo>, scoped: &Vec<usize>, path: &str) -> (r: bool)
    requires
        forall|k: int| 0 <= k < scoped@.len() ==> (#[trigger] scoped@[k]) < crates@.len(),
    ensures
        r == path_is_scoped(crates@, scoped@, path@),
{
    let mut k: usize = 0;
    while k < scoped.len()
        invariant
            k <= scoped@.len(),
            forall|j: int| 0 <= j < scoped@.len() ==> (#[trigger] scoped@[j]) < crates@.len(),
            forall|j: int| 0 <= j < k ==> (#[trigger] crates@[scoped@[j] as int]).path@ != path@,
        decreases scoped@.len() - k,
    {
        let idx = scoped[k];
        if str_eq(crates[idx].path.as_str(), path) {
            assert(crates@[scoped@[k as int] as int].path@ == path@);
            return true;
        }
        k = k + 1;
    }
    false
}

/// The edges between scoped crates, from each scoped crate in order.
pub fn scope_dependency_edges(crates: &Vec<CrateInfo>, scoped: &Vec<usize>) -> (r: Vec<(String, String)>)
    requires
        forall|k: int| 0 <= k < scoped@.len() ==> (#[trigger] scoped@[k]) < crates@.len(),
    ensures
        pair_views(r@) == scope_edges(crates@, scoped@, scoped@.len() as int),
{
    let mut edges: Vec<(String, String)> = Vec::new();
    let mut n: usize = 0;
    while n < scoped.len()
        invariant
            n <= scoped@.len(),
            forall|k: int| 0 <= k < scoped@.len() ==> (#[trigger] scoped@[k]) < crates@.len(),
            pair_views(edges@) == scope_edges(crates@, scoped@, n as int),
        decreases scoped@.len() - n,
    {
        let c = &crates[scoped[n]];
        let ghost base = pair_views(edges@);
        let mut j: usize = 0;
        while j < c.dependencies.len()
            invariant
                j <= c.dependencies@.len(),
                c == crates@[scoped@[n as int] as int],
                forall|k: int| 0 <= k < scoped@.len() ==> (#[trigger] scoped@[k]) < crates@.len(),
                pair_views(edges@) == base + dependency_edges(crates@, scoped@, c.path@, c.dependencies@.take(j as int)),
            decreases c.dependencies@.len() - j,
        {
            let dep = &c.dependencies[j];
            proof {
                assert(c.dependencies@.take(j + 1).drop_last() =~= c.dependencies@.take(j as int));
                assert(c.dependencies@.take(j + 1).last() == *dep);
            }
            let target = match last_crate_path_named(crates, dep.name.as_str()) {
                Some(p) => Some(p),
                None => crate::text::clone_opt_string(&dep.path),
            };
            match target {
                Some(to) => {
                    if path_in_scope_set(crates, scoped, to.as_str()) {
                        let ghost before = edges@;
                        edges.push((c.path.clone(), to));
                        proof {
                            assert(edges@ == before.push(edges@.last()));
                            assert(pair_views(edges@) =~= pair_views(before).push((c.path@, edges@.last().1@)));
                        }
                    }
                },
                None => {},
            }
            j = j + 1;
        }
        assert(c.dependencies@.take(c.dependencies@.len() as int) =~= c.dependencies@);
        n = n + 1;
    }
    edges
}

/// A forbidden dependency found by the deps check.
pub struct DepsViolation {
    pub file: String,
    pub value: String,
    pub from: String,
    pub to: String,
    pub rule: String,
    pub forbidden: String,
}

/// A violation by its source, target, rule class and forbidden pattern.
pub open spec fn violation_parts(v: DepsViolation) -> (Seq<char>, Seq<char>, Seq<char>, Seq<char>) {
    (v.from@, v.to@, v.rule@, v.forbidden@)
}

/// A violation reports the source's manifest and the edge as `from -> to`.
pub open spec fn violation_wf(v: DepsViolation) -> bool {
    v.file@ == v.from@ + "/Cargo.toml"@ && v.value@ == v.from@ + " -> "@ + v.to@
}

/// Violations are listed by their `from -> to` text, last first.
impl Listed for DepsViolation {
    open spec fn goes_before(self, other: Self) -> bool {
        !text_lt(self.value@, other.value@)
    }

    fn may_precede(&self, other: &Self) -> (r: bool) {
        compare_text(self.value.as_str(), other.value.as_str()) != TextOrder::Before
    }

    proof fn lemma_total(a: Self, b: Self) {
        if text_lt(a.value@, b.value@) {
            crate::order::lemma_text_lt_asymmetric(a.value@, b.value@);
        }
    }

    proof fn lemma_transitive(a: Self, b: Self, c: Self) {
        crate::order::lemma_text_total(a.value@, b.value@);
        crate::order::lemma_text_total(b.value@, c.value@);
        if text_lt(a.value@, c.value@) {
            if text_lt(b.value@, a.value@) && text_lt(c.value@, b.value@) {
                crate::order::lemma_text_lt_transitive(c.value@, b.value@, a.value@);
                crate::order::lemma_text_lt_asymmetric(a.value@, c.value@);
            }
        }
    }
}

/// The patterns the policy forbids for a rule class (the first entry with
/// that key).
pub open spec fn rule_patterns(forbidden: Seq<(String, Vec<String>)>, rule: Seq<char>) -> Option<Seq<String>>
    decreases forbidden.len(),
{
    if forbidden.len() == 0 {
        None
    } else if forbidden[0].0@ == rule {
        Some(forbidden[0].1@)
    } else {
        rule_patterns(forbidden.drop_first(), rule)
    }
}

pub open spec fn invalid_pattern_message(pattern: Seq<char>, error: Seq<char>) -> Seq<char> {
    "invalid forbidden deps pattern '"@ + pattern + "': "@ + error
}

/// The violations of one edge under the first `patterns`, or the error of
/// the first pattern that does not compile.
pub open spec fn pattern_violations(
    from: Seq<char>,
    to: Seq<char>,
    rule: Seq<char>,
    patterns: Seq<String>,
) -> Result<Seq<(Seq<char>, Seq<char>, Seq<char>, Seq<char>)>, Seq<char>>
    decreases patterns.len(),
{
    if patterns.len() == 0 {
        Ok(seq![])
    } else {
        match pattern_violations(from, to, rule, patterns.drop_last()) {
            Err(e) => Err(e),
            Ok(prev) => {
                let p = patterns.last()@;
                match crate::globs::glob_pattern_error(p) {
                    Some(m) => Err(invalid_pattern_message(p, m)),
                    None => if crate::globs::glob_matches(p, spec_path_class(to)) {
                        Ok(prev.push((from, to, rule, p)))
                    } else {
                        Ok(prev)
                    },
                }
            },
        }
    }
}

/// The violations of one edge: its source's class names the patterns that
/// the target's class must not match.
pub open spec fn edge_violations(
    edge: (Seq<char>, Seq<char>),
    forbidden: Seq<(String, Vec<String>)>,
) -> Result<Seq<(Seq<char>, Seq<char>, Seq<char>, Seq<char>)>, Seq<char>> {
    let rule = spec_path_class(edge.0);
    match rule_patterns(forbidden, rule) {
        None => Ok(seq![]),
        Some(patterns) => pattern_violations(edge.0, edge.1, rule, patterns),
    }
}

/// The violations of the first `n` edges, in edge order.
pub open spec fn violations_upto(
    edges: Seq<(Seq<char>, Seq<char>)>,
    forbidden: Seq<(String, Vec<String>)>,
    n: int,
) -> Result<Seq<(Seq<char>, Seq<char>, Seq<char>, Seq<char>)>, Seq<char>>
    decreases n,
{
    if n <= 0 {
        Ok(seq![])
    } else {
        match violations_upto(edges, forbidden, n - 1) {
            Err(e) => Err(e),
            Ok(prev) => match edge_violations(edges[n - 1], forbidden) {
                Err(e) => Err(e),
                Ok(vs) => Ok(prev + vs),
            },
        }
    }
}

fn rule_patterns_index(forbidden: &Vec<(String, Vec<String>)>, rule: &str) -> (r: Option<usize>)
    ensures
        match rule_patterns(forbidden@, rule@) {
            Some(ps) => r matches Some(i) && i < forbidden@.len() && forbidden@[i as int].1@ == ps,
            None => r is None,
        },
{
    let mut i: usize = 0;
    assert(forbidden@.skip(0) =~= forbidden@);
    while i < forbidden.len()
        invariant
            i <= forbidden@.len(),
            rule_patterns(forbidden@, rule@) == rule_patterns(forbidden@.skip(i as int), rule@),
        decreases forbidden@.len() - i,
    {
        assert(forbidden@.skip(i as int)[0] == forbidden@[i as int]);
        assert(forbidden@.skip(i as int).drop_first() =~= forbidden@.skip(i + 1));
        if str_eq(forbidden[i].0.as_str(), rule) {
            return Some(i);
        }
        i = i + 1;
    }
    None
}

/// What the deps check found.
pub struct DepsCheckOutcome {
    pub crate_count: u64,
    pub edge_count: u64,
    pub violations: Vec<DepsViolation>,
    pub pass: bool,
}

/// The deps check: the edges between the crates of the scope, and every
/// edge whose target class matches a pattern forbidden for its source
/// class, listed by their `from -> to` text from last to first.
pub fn run_deps_check(
    root_relative: &str,
    crates: &Vec<CrateInfo>,
    forbidden: &Vec<(String, Vec<String>)>,
) -> (r: Result<DepsCheckOutcome, String>)
    ensures
        ({
            let scoped = scoped_upto(root_relative@, crates@, crates@.len() as int);
            let edges = scope_edges(crates@, scoped, scoped.len() as int);
            match violations_upto(edges, forbidden@, edges.len() as int) {
                Err(message) => r matches Err(e) && e@ == message,
                Ok(found) => r matches Ok(out) && out.crate_count == scoped.len()
                    && out.edge_count == edges.len() && out.pass == (found.len() == 0)
                    && exists|u: Seq<DepsViolation>| #![auto]
                        u.map_values(|v: DepsViolation| violation_parts(v)) == found
                        && (forall|k: int| 0 <= k < u.len() ==> violation_wf(u[k]))
                        && out.violations@ == sort_listed(u),
            }
        }),
{
    let scoped = scoped_crates(root_relative, crates);
    let ncrates = crates.len();
    proof {
        lemma_scoped_bounds(root_relative@, crates@, crates@.len() as int);
    }
    let edges = scope_dependency_edges(crates, &scoped);
    let ghost ev = pair_views(edges@);
    let mut found: Vec<DepsViolation> = Vec::new();
    let mut i: usize = 0;
    while i < edges.len()
        invariant
            i <= edges@.len(),
            ev == pair_views(edges@),
            ev.len() == edges@.len(),
            ev == scope_edges(crates@, scoped@, scoped@.len() as int),
            scoped@ == scoped_upto(root_relative@, crates@, crates@.len() as int),
            violations_upto(ev, forbidden@, i as int) matches Ok(vs) && found@.map_values(
                |v: DepsViolation| violation_parts(v),
            ) == vs,
            forall|k: int| 0 <= k < found@.len() ==> violation_wf(#[trigger] found@[k]),
        decreases edges@.len() - i,
    {
        let from = &edges[i].0;
        let to = &edges[i].1;
        assert(ev[i as int] == (from@, to@));
        let rule = path_class(from.as_str());
        let ghost base = found@.map_values(|v: DepsViolation| violation_parts(v));
        match rule_patterns_index(forbidden, rule.as_str()) {
            None => {
                assert(found@.map_values(|v: DepsViolation| violation_parts(v)) =~= base + seq![]);
            },
            Some(idx) => {
                let patterns = &forbidden[idx].1;
                let to_class = path_class(to.as_str());
                let mut j: usize = 0;
                while j < patterns.len()
                    invariant
                        j <= patterns@.len(),
                        i < edges@.len(),
                        ev == pair_views(edges@),
                        ev.len() == edges@.len(),
                        ev == scope_edges(crates@, scoped@, scoped@.len() as int),
                        scoped@ == scoped_upto(root_relative@, crates@, crates@.len() as int),
                        ev[i as int] == (from@, to@),
                        violations_upto(ev, forbidden@, i as int) matches Ok(vs) && vs == base,
                        rule_patterns(forbidden@, rule@) == Some(patterns@),
                        rule@ == spec_path_class(from@),
                        to_class@ == spec_path_class(to@),
                        pattern_violations(from@, to@, rule@, patterns@.take(j as int)) matches Ok(cur)
                            && found@.map_values(|v: DepsViolation| violation_parts(v)) == base + cur,
                        forall|k: int| 0 <= k < found@.len() ==> violation_wf(#[trigger] found@[k]),
                    decreases patterns@.len() - j,
                {
                    proof {
                        assert(patterns@.take(j + 1).drop_last() =~= patterns@.take(j as int));
                        assert(patterns@.take(j + 1).last() == patterns@[j as int]);
                    }
                    let p = patterns[j].as_str();
                    match crate::globs::pattern_error(p) {
                        Some(m) => {
                            proof {
                                let msg = invalid_pattern_message(p@, m@);
                                assert(pattern_violations(from@, to@, rule@, patterns@.take(j + 1)) == Err::<
                                    Seq<(Seq<char>, Seq<char>, Seq<char>, Seq<char>)>,
                                    Seq<char>,
                                >(msg));
                                lemma_pattern_violations_err_extends(from@, to@, rule@, patterns@, j as int + 1);
                                assert(patterns@.take(patterns@.len() as int) =~= patterns@);
                                assert(edge_violations(ev[i as int], forbidden@) is Err);
                                assert(violations_upto(ev, forbidden@, i + 1) is Err);
                                lemma_violations_err_extends(ev, forbidden@, i as int + 1, ev.len() as int);
                            }
                            let a = concat("invalid forbidden deps pattern '", p);
                            let b = concat(a.as_str(), "': ");
                            return Err(concat(b.as_str(), m.as_str()));
                        },
                        None => {},
                    }
                    if crate::globs::pattern_matches(p, to_class.as_str()) {
                        let file = concat(from.as_str(), "/Cargo.toml");
                        let value = concat(concat(from.as_str(), " -> ").as_str(), to.as_str());
                        let v = DepsViolation {
                            file,
                            value,
                            from: from.clone(),
                            to: to.clone(),
                            rule: rule.clone(),
                            forbidden: String::from_str(p),
                        };
                        let ghost before = found@;
                        found.push(v);
                        proof {
                            assert(found@ == before.push(v));
                            assert(found@.map_values(|v: DepsViolation| violation_parts(v)) =~= before.map_values(
                                |v: DepsViolation| violation_parts(v),
                            ).push(violation_parts(v)));
                        }
                    }
                    j = j + 1;
                }
                assert(patterns@.take(patterns@.len() as int) =~= patterns@);
            },
        }
        i = i + 1;
    }
    let count = found.len();
    let ghost u = found@;
    let sorted = sort_list(found);
    assert(ev.len() == edges@.len());
    Ok(DepsCheckOutcome {
        crate_count: scoped.len() as u64,
        edge_count: edges.len() as u64,
        violations: sorted,
        pass: count == 0,
    })
}

proof fn lemma_pattern_violations_err_extends(
    from: Seq<char>,
    to: Seq<char>,
    rule: Seq<char>,
    patterns: Seq<String>,
    j: int,
)
    requires
        0 <= j <= patterns.len(),
        pattern_violations(from, to, rule, patterns.take(j)) is Err,
    ensures
        pattern_violations(from, to, rule, patterns) == pattern_violations(from, to, rule, patterns.take(j)),
    decreases patterns.len() - j,
{
    if j < patterns.len() {
        assert(patterns.take(j + 1).drop_last() =~= patterns.take(j));
        lemma_pattern_violations_err_extends(from, to, rule, patterns, j + 1);
    } else {
        assert(patterns.take(j) =~= patterns);
    }
}

proof fn lemma_violations_err_extends(
    edges: Seq<(Seq<char>, Seq<char>)>,
    forbidden: Seq<(String, Vec<String>)>,
    i: int,
    n: int,
)
    requires
        0 <= i <= n,
        violations_upto(edges, forbidden, i) is Err,
    ensures
        violations_upto(edges, forbidden, n) == violations_upto(edges, forbidden, i),
    decreases n - i,
{
    if i < n {
        lemma_violations_err_extends(edges, forbidden, i, n - 1);
    }
}


/// A Rust file over its line budget.
pub struct SizeOffender {
    pub file: String,
    pub value: u64,
    pub warn: u64,
    pub fail: u64,
    pub level: Level,
}

/// Offenders are listed by their line count, largest first.
impl Listed for SizeOffender {
    open spec fn goes_before(self, other: Self) -> bool {
        self.value >= other.value
    }

    fn may_precede(&self, other: &Self) -> (r: bool) {
        self.value >= other.value
    }

    proof fn lemma_total(a: Self, b: Self) {
    }

    proof fn lemma_transitive(a: Self, b: Self, c: Self) {
    }
}

/// The level of a file with `lines` lines: at `warn` or more it warns, at
/// `fail` or more it fails.
pub open spec fn size_level(lines: u64, warn: u64, fail: u64) -> Option<Level> {
    if lines >= warn {
        if lines >= fail {
            Some(Level::Fail)
        } else {
            Some(Level::Warn)
        }
    } else {
        None
    }
}

/// The offenders among the first `n` files, in file order.
pub open spec fn size_offenders_upto(files: Seq<(String, u64)>, warn: u64, fail: u64, n: int) -> Seq<(Seq<char>, u64, Level)>
    decreases n,
{
    if n <= 0 {
        seq![]
    } else {
        let prev = size_offenders_upto(files, warn, fail, n - 1);
        match size_level(files[n - 1].1, warn, fail) {
            Some(level) => prev.push((files[n - 1].0@, files[n - 1].1, level)),
            None => prev,
        }
    }
}

/// How many of the first `n` files are at `level`.
pub open spec fn size_level_count(files: Seq<(String, u64)>, warn: u64, fail: u64, n: int, level: Level) -> nat
    decreases n,
{
    if n <= 0 {
        0
    } else {
        size_level_count(files, warn, fail, n - 1, level) + if size_level(files[n - 1].1, warn, fail)
            == Some(level) {
            1nat
        } else {
            0nat
        }
    }
}

/// The largest line count among the first `n` files (0 for none).
pub open spec fn max_lines_upto(files: Seq<(String, u64)>, n: int) -> u64
    decreases n,
{
    if n <= 0 {
        0
    } else {
        let m = max_lines_upto(files, n - 1);
        if files[n - 1].1 > m {
            files[n - 1].1
        } else {
            m
        }
    }
}

pub open spec fn size_offender_parts(o: SizeOffender) -> (Seq<char>, u64, Level) {
    (o.file@, o.value, o.level)
}

/// What the size check found.
pub struct SizeFindings {
    pub offenders: Vec<SizeOffender>,
    pub max_lines: u64,
    pub total_files: u64,
    pub warn_count: u64,
    pub fail_count: u64,
    pub pass: bool,
}

proof fn lemma_size_level_count_le(files: Seq<(String, u64)>, warn: u64, fail: u64, n: int, level: Level)
    requires
        n >= 0,
    ensures
        size_level_count(files, warn, fail, n, level) <= n,
    decreases n,
{
    if n > 0 {
        lemma_size_level_count_le(files, warn, fail, n - 1, level);
    }
}

/// The size check over files and their line counts: every file with at
/// least `warn` lines is an offender (it fails with at least `fail` lines,
/// and warns otherwise), listed by line count, largest first.
pub fn run_size_check(files: &Vec<(String, u64)>, warn: u64, fail: u64) -> (r: SizeFindings)
    ensures
        r.total_files == files@.len(),
        r.max_lines == max_lines_upto(files@, files@.len() as int),
        r.warn_count == size_level_count(files@, warn, fail, files@.len() as int, Level::Warn),
        r.fail_count == size_level_count(files@, warn, fail, files@.len() as int, Level::Fail),
        r.pass == (r.fail_count == 0),
        exists|u: Seq<SizeOffender>| #![auto]
            u.map_values(|o: SizeOffender| size_offender_parts(o)) == size_offenders_upto(
                files@,
                warn,
                fail,
                files@.len() as int,
            ) && (forall|k: int| 0 <= k < u.len() ==> u[k].warn == warn && u[k].fail == fail)
                && r.offenders@ == sort_listed(u),
{
    let mut offenders: Vec<SizeOffender> = Vec::new();
    let mut max_lines: u64 = 0;
    let mut warn_count: u64 = 0;
    let mut fail_count: u64 = 0;
    let mut i: usize = 0;
    while i < files.len()
        invariant
            i <= files@.len(),
            max_lines == max_lines_upto(files@, i as int),
            warn_count == size_level_count(files@, warn, fail, i as int, Level::Warn),
            fail_count == size_level_count(files@, warn, fail, i as int, Level::Fail),
            offenders@.map_values(|o: SizeOffender| size_offender_parts(o)) == size_offenders_upto(files@, warn, fail, i as int),
            forall|k: int| 0 <= k < offenders@.len() ==> (#[trigger] offenders@[k]).warn == warn && offenders@[k].fail == fail,
        decreases files@.len() - i,
    {
        let lines = files[i].1;
        if lines > max_lines {
            max_lines = lines;
        }
        proof {
            lemma_size_level_count_le(files@, warn, fail, i as int, Level::Warn);
            lemma_size_level_count_le(files@, warn, fail, i as int, Level::Fail);
        }
        if lines >= warn {
            let level = if lines >= fail {
                fail_count = fail_count + 1;
                Level::Fail
            } else {
                warn_count = warn_count + 1;
                Level::Warn
            };
            let o = SizeOffender { file: files[i].0.clone(), value: lines, warn, fail, level };
            let ghost before = offenders@;
            offenders.push(o);
            assert(offenders@.map_values(|o: SizeOffender| size_offender_parts(o)) =~= before.map_values(
                |o: SizeOffender| size_offender_parts(o),
            ).push(size_offender_parts(o)));
        }
        i = i + 1;
    }
    let total = files.len() as u64;
    let sorted = sort_list(offenders);
    SizeFindings {
        offenders: sorted,
        max_lines,
        total_files: total,
        warn_count,
        fail_count,
        pass: fail_count == 0,
    }
}

/// A mutant that the tests did not kill: its report line, its level and,
/// when the line starts with `file:line`, that location.
pub struct MutantOffender {
    pub value: String,
    pub level: Level,
    pub location: Option<(String, u64)>,
}

pub open spec fn mutant_offender_wf(o: MutantOffender, line: Seq<char>, level: Level) -> bool {
    &&& o.value@ == line
    &&& o.level == level
    &&& match spec_path_line_prefix(line) {
        Some((file, n)) => o.location matches Some((f, l)) && f@ == file && l == n,
        None => o.location is None,
    }
}

pub fn mutant_offender(line: &str, level: Level) -> (r: MutantOffender)
    ensures
        mutant_offender_wf(r, line@, level),
{
    MutantOffender { value: String::from_str(line), level, location: parse_path_line_prefix(line) }
}

/// The entries of a mutants report: its lines, trimmed, blank ones left out.
pub open spec fn report_entries(ls: Seq<Seq<char>>) -> Seq<Seq<char>>
    decreases ls.len(),
{
    if ls.len() == 0 {
        seq![]
    } else {
        let prev = report_entries(ls.drop_last());
        let t = trim(ls.last());
        if t.len() == 0 {
            prev
        } else {
            prev.push(t)
        }
    }
}

pub fn mutants_report_lines(content: &str) -> (r: Vec<String>)
    ensures
        crate::text::string_views(r@) == report_entries(crate::text::lines(content@)),
{
    let v = chars_of(content);
    let ls = crate::text::lines_of(&v);
    let mut out: Vec<String> = Vec::new();
    let mut i: usize = 0;
    while i < ls.len()
        invariant
            i <= ls@.len(),
            views(ls@) == crate::text::lines(content@),
            crate::text::string_views(out@) == report_entries(views(ls@).take(i as int)),
        decreases ls@.len() - i,
    {
        proof {
            assert(views(ls@).take(i + 1).drop_last() =~= views(ls@).take(i as int));
            assert(views(ls@).take(i + 1).last() == ls@[i as int]@);
        }
        let (a, b) = trim_bounds(&ls[i]);
        if a < b {
            let t = string_from_range(&ls[i], a, b);
            let ghost before = out@;
            out.push(t);
            assert(crate::text::string_views(out@) =~= crate::text::string_views(before).push(t@));
        }
        i = i + 1;
    }
    assert(views(ls@).take(ls@.len() as int) =~= views(ls@));
    out
}

/// What the mutation check found.
pub struct MutationFindings {
    pub offenders: Vec<MutantOffender>,
    pub total_mutants: u64,
    pub caught_count: u64,
    pub missed_count: u64,
    pub timeout_count: u64,
    pub pass: bool,
}

/// Missed mutants fail, mutants that timed out warn; the check passes only
/// when there are neither.
pub fn run_mutation_check(missed: &Vec<String>, timeout: &Vec<String>, caught: &Vec<String>) -> (r: MutationFindings)
    requires
        missed@.len() + timeout@.len() + caught@.len() <= u64::MAX,
    ensures
        r.total_mutants == missed@.len() + timeout@.len() + caught@.len(),
        r.caught_count == caught@.len(),
        r.missed_count == missed@.len(),
        r.timeout_count == timeout@.len(),
        r.pass == (missed@.len() == 0 && timeout@.len() == 0),
        r.offenders@.len() == missed@.len() + timeout@.len(),
        forall|k: int| 0 <= k < missed@.len() ==> mutant_offender_wf(#[trigger] r.offenders@[k], missed@[k]@, Level::Fail),
        forall|k: int| 0 <= k < timeout@.len() ==> mutant_offender_wf(#[trigger] r.offenders@[missed@.len() + k], timeout@[k]@, Level::Warn),
{
    let mut offenders: Vec<MutantOffender> = Vec::new();
    let mut i: usize = 0;
    while i < missed.len()
        invariant
            i <= missed@.len(),
            offenders@.len() == i,
            forall|k: int| 0 <= k < i ==> mutant_offender_wf(#[trigger] offenders@[k], missed@[k]@, Level::Fail),
        decreases missed@.len() - i,
    {
        offenders.push(mutant_offender(missed[i].as_str(), Level::Fail));
        i = i + 1;
    }
    let mut j: usize = 0;
    while j < timeout.len()
        invariant
            j <= timeout@.len(),
            offenders@.len() == missed@.len() + j,
            forall|k: int| 0 <= k < missed@.len() ==> mutant_offender_wf(#[trigger] offenders@[k], missed@[k]@, Level::Fail),
            forall|k: int| 0 <= k < j ==> mutant_offender_wf(#[trigger] offenders@[missed@.len() + k], timeout@[k]@, Level::Warn),
        decreases timeout@.len() - j,
    {
        offenders.push(mutant_offender(timeout[j].as_str(), Level::Warn));
        j = j + 1;
    }
    let missed_count = missed.len() as u64;
    let timeout_count = timeout.len() as u64;
    let caught_count = caught.len() as u64;
    MutationFindings {
        offenders,
        total_mutants: missed_count + timeout_count + caught_count,
        caught_count,
        missed_count,
        timeout_count,
        pass: missed_count == 0 && timeout_count == 0,
    }
}

/// A metric's file as a repository path: `\` becomes `/`; under the
/// canonical repository root the root and the slashes after it are
/// dropped; otherwise leading `./` and surrounding whitespace are dropped.
pub open spec fn spec_metric_path(canonical_root: Option<Seq<char>>, path: Seq<char>) -> Seq<char> {
    let normalized = replace_char(path, '\\', '/');
    match canonical_root {
        Some(root) if starts_with(normalized, replace_char(root, '\\', '/')) => crate::text::trim_start_char(
            normalized.skip(root.len() as int),
            '/',
        ),
        _ => trim(crate::text::trim_start_text(normalized, "./"@)),
    }
}

pub fn repo_relative_metric_path(canonical_root: Option<&str>, path: &str) -> (r: String)
    ensures
        r@ == spec_metric_path(
            match canonical_root {
                Some(root) => Some(root@),
                None => None,
            },
            path@,
        ),
{
    let v = chars_of(path);
    let normalized = chars_replace(&v, '\\', '/');
    match canonical_root {
        Some(root) => {
            let rv = chars_of(root);
            let root_s = chars_replace(&rv, '\\', '/');
            if crate::text::chars_start_with(&normalized, &root_s) {
                let rest = crate::text::sub_vec(&normalized, root_s.len(), normalized.len());
                let k = crate::text::trim_start_char_len(&rest, '/');
                assert(rest@ == normalized@.skip(root@.len() as int));
                return string_from_range(&rest, k, rest.len());
            }
        },
        None => {},
    }
    let dot_slash = chars_of("./");
    let k = crate::text::trim_start_text_len(&normalized, &dot_slash);
    let rest = crate::text::sub_vec(&normalized, k, normalized.len());
    assert(rest@ == normalized@.skip(k as int));
    let (a, b) = trim_bounds(&rest);
    string_from_range(&rest, a, b)
}

/// The file of a metric, relative to the repository. Tools report paths
/// from their working directory `execution_cwd`, some already relative to
/// the repository: the path (with `/` separators and no leading `./`) is
/// kept when it is absolute and outside the repository, or relative and
/// already below the working directory's place in the repository;
/// otherwise it is joined to the working directory and taken relative to
/// `repo_root`, or kept when that fails.
pub open spec fn spec_metric_path_in_repo(repo_root: Seq<char>, execution_cwd: Seq<char>, path: Seq<char>) -> Seq<char> {
    let normalized = crate::text::trim_start_text(crate::text::replace_char(path, '\\', '/'), "./"@);
    if crate::paths::is_absolute(normalized) {
        match crate::paths::strip_prefix_spec(normalized, repo_root) {
            Some(rest) => crate::paths::display_spec(rest),
            None => normalized,
        }
    } else {
        match crate::paths::strip_prefix_spec(execution_cwd, repo_root) {
            Some(place) if place.len() > 0 && crate::paths::path_starts_with_spec(normalized, place) => normalized,
            _ => match crate::paths::strip_prefix_spec(crate::paths::join_spec(execution_cwd, normalized), repo_root) {
                Some(rest) => crate::paths::display_spec(rest),
                None => normalized,
            },
        }
    }
}

pub fn metric_path_in_repo(repo_root: &str, execution_cwd: &str, path: &str) -> (r: String)
    ensures
        r@ == spec_metric_path_in_repo(repo_root@, execution_cwd@, path@),
{
    let v = chars_of(path);
    let replaced = chars_replace(&v, '\\', '/');
    let dot_slash = chars_of("./");
    let k = crate::text::trim_start_text_len(&replaced, &dot_slash);
    let normalized = string_from_range(&replaced, k, replaced.len());
    assert(normalized@ =~= replaced@.skip(k as int));
    let nv = chars_of(normalized.as_str());
    if nv.len() > 0 && nv[0] == '/' {
        return match crate::paths::path_strip_prefix(normalized.as_str(), repo_root) {
            Some(rest) => crate::paths::display_path(rest.as_str()),
            None => normalized,
        };
    }
    if let Some(place) = crate::paths::path_strip_prefix(execution_cwd, repo_root) {
        let pv = chars_of(place.as_str());
        if pv.len() > 0 && crate::paths::path_starts_with(normalized.as_str(), place.as_str()) {
            return normalized;
        }
    }
    let joined = crate::paths::path_join(execution_cwd, normalized.as_str());
    match crate::paths::path_strip_prefix(joined.as_str(), repo_root) {
        Some(rest) => crate::paths::display_path(rest.as_str()),
        None => normalized,
    }
}

} // verus!
