//! The Cargo topology that impact planning reads: which manifests are
//! workspace members, the packages they declare, and the workspace
//! packages each depends on.
use crate::contract::{debug_quoted, debug_text};
use crate::globs::{glob_matches_path, glob_pattern_error, pattern_error, pattern_matches_path};
use crate::impact::Package;
use crate::order::{compare_text, lemma_text_lt_transitive, lemma_text_total, text_lt, TextOrder};
use crate::selection::{insert_sorted, strictly_sorted};
use crate::text::{chars_of, str_eq, string_from_range, string_views, trim_end_char, trim_end_char_len};
use crate::toolchain::{
    key_views, keys_with, parse_failure, spec_parse_failure, table_key_names, table_names, text_at, toml_field,
    toml_field_at, ManifestText, TomlField,
};
use vstd::prelude::*;

verus! {

/// One entry of a dependency table: its key, whether it says
/// `workspace = true`, and the `package` it renames, if any.
pub struct DependencyEntry {
    pub name: String,
    pub workspace: bool,
    pub package: Option<String>,
}

/// The package an alias of `[workspace.dependencies]` stands for, if the
/// alias is declared.
pub open spec fn alias_target(aliases: Seq<(String, String)>, name: Seq<char>) -> Option<Seq<char>>
    decreases aliases.len(),
{
    if aliases.len() == 0 {
        None
    } else if aliases[0].0@ == name {
        Some(aliases[0].1@)
    } else {
        alias_target(aliases.drop_first(), name)
    }
}

/// The workspace package a dependency entry names: a workspace entry goes
/// through its alias, which must be declared; any other entry names its
/// `package`, or else its key.
pub open spec fn dependency_name(entry: DependencyEntry, aliases: Seq<(String, String)>) -> Result<Seq<char>, Seq<char>> {
    if entry.workspace {
        match alias_target(aliases, entry.name@) {
            Some(p) => Ok(p),
            None => Err("workspace dependency alias "@ + debug_text(entry.name@) + " is not declared"@),
        }
    } else {
        match entry.package {
            Some(p) => Ok(p@),
            None => Ok(entry.name@),
        }
    }
}

fn lookup_alias(aliases: &Vec<(String, String)>, name: &str) -> (r: Option<String>)
    ensures
        match r {
            Some(p) => alias_target(aliases@, name@) == Some(p@),
            None => alias_target(aliases@, name@) is None,
        },
{
    let mut i: usize = 0;
    assert(aliases@.skip(0) =~= aliases@);
    while i < aliases.len()
        invariant
            i <= aliases@.len(),
            alias_target(aliases@, name@) == alias_target(aliases@.skip(i as int), name@),
        decreases aliases@.len() - i,
    {
        assert(aliases@.skip(i as int)[0] == aliases@[i as int]);
        assert(aliases@.skip(i as int).drop_first() =~= aliases@.skip(i + 1));
        if str_eq(aliases[i].0.as_str(), name) {
            return Some(aliases[i].1.clone());
        }
        i = i + 1;
    }
    None
}

pub fn resolve_dependency(entry: &DependencyEntry, aliases: &Vec<(String, String)>) -> (r: Result<String, String>)
    ensures
        match dependency_name(*entry, aliases@) {
            Ok(n) => r matches Ok(s) && s@ == n,
            Err(m) => r matches Err(s) && s@ == m,
        },
{
    if entry.workspace {
        match lookup_alias(aliases, entry.name.as_str()) {
            Some(p) => Ok(p),
            None => {
                let mut m = String::from_str("workspace dependency alias ");
                m.append(debug_quoted(entry.name.as_str()).as_str());
                m.append(" is not declared");
                Err(m)
            },
        }
    } else {
        match &entry.package {
            Some(p) => Ok(p.clone()),
            None => Ok(entry.name.clone()),
        }
    }
}

/// The workspace packages the first `n` entries name, or the first error.
pub open spec fn dependency_names_upto(
    entries: Seq<DependencyEntry>,
    aliases: Seq<(String, String)>,
    n: int,
) -> Result<Set<Seq<char>>, Seq<char>>
    decreases n,
{
    if n <= 0 {
        Ok(Set::empty())
    } else {
        match dependency_names_upto(entries, aliases, n - 1) {
            Err(m) => Err(m),
            Ok(names) => match dependency_name(entries[n - 1], aliases) {
                Err(m) => Err(m),
                Ok(d) => Ok(names.insert(d)),
            },
        }
    }
}

proof fn lemma_names_error_sticks(entries: Seq<DependencyEntry>, aliases: Seq<(String, String)>, i: int, n: int)
    requires
        0 <= i <= n,
        dependency_names_upto(entries, aliases, i) is Err,
    ensures
        dependency_names_upto(entries, aliases, n) == dependency_names_upto(entries, aliases, i),
    decreases n - i,
{
    if i < n {
        lemma_names_error_sticks(entries, aliases, i, n - 1);
    }
}

proof fn lemma_patterns_error_sticks(values: Seq<Option<String>>, i: int, n: int)
    requires
        0 <= i <= n,
        compiled_patterns_upto(values, i) is Err,
    ensures
        compiled_patterns_upto(values, n) == compiled_patterns_upto(values, i),
    decreases n - i,
{
    if i < n {
        lemma_patterns_error_sticks(values, i, n - 1);
    }
}

/// The workspace packages a manifest depends on (from its dependency,
/// dev-dependency and build-dependency tables, target-specific ones
/// included), once each and in code-point order; or the error of the first
/// entry whose alias is not declared.
pub fn package_dependencies(entries: &Vec<DependencyEntry>, aliases: &Vec<(String, String)>) -> (r: Result<Vec<String>, String>)
    ensures
        match dependency_names_upto(entries@, aliases@, entries@.len() as int) {
            Ok(names) => r matches Ok(v) && strictly_sorted(string_views(v@)) && string_views(v@).to_set() == names,
            Err(m) => r matches Err(s) && s@ == m,
        },
{
    let mut deps: Vec<String> = Vec::new();
    let mut i: usize = 0;
    assert(string_views(deps@).to_set() =~= Set::<Seq<char>>::empty());
    while i < entries.len()
        invariant
            i <= entries@.len(),
            strictly_sorted(string_views(deps@)),
            dependency_names_upto(entries@, aliases@, i as int) == Ok::<Set<Seq<char>>, Seq<char>>(
                string_views(deps@).to_set(),
            ),
        decreases entries@.len() - i,
    {
        match resolve_dependency(&entries[i], aliases) {
            Ok(name) => {
                insert_sorted(&mut deps, name);
            },
            Err(m) => {
                proof {
                    lemma_names_error_sticks(entries@, aliases@, i as int + 1, entries@.len() as int);
                }
                return Err(m);
            },
        }
        i = i + 1;
    }
    Ok(deps)
}

/// Each alias of `[workspace.dependencies]` with the package it names: its
/// `package` key, or else the alias itself.
pub fn workspace_dependency_aliases(entries: &Vec<(String, Option<String>)>) -> (r: Vec<(String, String)>)
    ensures
        r@.len() == entries@.len(),
        forall|k: int|
            0 <= k < entries@.len() ==> (#[trigger] r@[k]).0@ == entries@[k].0@ && r@[k].1@ == match entries@[k].1 {
                Some(p) => p@,
                None => entries@[k].0@,
            },
{
    let mut out: Vec<(String, String)> = Vec::new();
    let mut i: usize = 0;
    while i < entries.len()
        invariant
            i <= entries@.len(),
            out@.len() == i,
            forall|k: int|
                0 <= k < i ==> (#[trigger] out@[k]).0@ == entries@[k].0@ && out@[k].1@ == match entries@[k].1 {
                    Some(p) => p@,
                    None => entries@[k].0@,
                },
        decreases entries@.len() - i,
    {
        let alias = entries[i].0.clone();
        let package = match &entries[i].1 {
            Some(p) => p.clone(),
            None => entries[i].0.clone(),
        };
        out.push((alias, package));
        i = i + 1;
    }
    out
}

/// The `members` or `exclude` patterns of `[workspace]`, each without its
/// trailing `/`s, or the first error: an entry that is not a string, or a
/// pattern that glob refuses. An absent list has no patterns.
pub open spec fn compiled_patterns_upto(values: Seq<Option<String>>, n: int) -> Result<Seq<Seq<char>>, Seq<char>>
    decreases n,
{
    if n <= 0 {
        Ok(seq![])
    } else {
        match compiled_patterns_upto(values, n - 1) {
            Err(m) => Err(m),
            Ok(done) => match values[n - 1] {
                None => Err("Cargo workspace path pattern must be a string"@),
                Some(p) => {
                    let t = trim_end_char(p@, '/');
                    match glob_pattern_error(t) {
                        Some(m) => Err(m),
                        None => Ok(done.push(t)),
                    }
                },
            },
        }
    }
}

fn compile_pattern_list(vs: &Vec<Option<String>>) -> (r: Result<Vec<String>, String>)
    ensures
        match compiled_patterns_upto(vs@, vs@.len() as int) {
            Ok(ps) => r matches Ok(v) && string_views(v@) == ps,
            Err(m) => r matches Err(s) && s@ == m,
        },
        r matches Ok(v) ==> forall|k: int| 0 <= k < v@.len() ==> glob_pattern_error(#[trigger] v@[k]@) is None,
{
    let mut out: Vec<String> = Vec::new();
    let mut i: usize = 0;
    assert(string_views(out@) =~= Seq::<Seq<char>>::empty());
    while i < vs.len()
        invariant
            i <= vs@.len(),
            compiled_patterns_upto(vs@, i as int) == Ok::<Seq<Seq<char>>, Seq<char>>(string_views(out@)),
            forall|k: int| 0 <= k < out@.len() ==> glob_pattern_error(#[trigger] out@[k]@) is None,
        decreases vs@.len() - i,
    {
        match &vs[i] {
            None => {
                proof {
                    assert(vs@[i as int] is None);
                    assert(compiled_patterns_upto(vs@, i as int + 1) == Err::<Seq<Seq<char>>, Seq<char>>(
                        "Cargo workspace path pattern must be a string"@,
                    ));
                    lemma_patterns_error_sticks(vs@, i as int + 1, vs@.len() as int);
                }
                return Err(String::from_str("Cargo workspace path pattern must be a string"));
            },
            Some(p) => {
                let v = chars_of(p.as_str());
                let n = trim_end_char_len(&v, '/');
                let t = string_from_range(&v, 0, n);
                assert(v@.subrange(0, n as int) =~= v@.take(n as int));
                match pattern_error(t.as_str()) {
                    Some(m) => {
                        proof {
                            assert(vs@[i as int] == Some(*p));
                            assert(compiled_patterns_upto(vs@, i as int + 1) == Err::<Seq<Seq<char>>, Seq<char>>(m@));
                            lemma_patterns_error_sticks(vs@, i as int + 1, vs@.len() as int);
                        }
                        return Err(m);
                    },
                    None => {
                        let ghost before = string_views(out@);
                        out.push(t);
                        assert(string_views(out@) =~= before.push(trim_end_char(p@, '/')));
                    },
                }
            },
        }
        i = i + 1;
    }
    Ok(out)
}

pub fn compile_cargo_patterns(values: &Option<Vec<Option<String>>>) -> (r: Result<Vec<String>, String>)
    ensures
        match values {
            None => r matches Ok(v) && v@.len() == 0,
            Some(vs) => match compiled_patterns_upto(vs@, vs@.len() as int) {
                Ok(ps) => r matches Ok(v) && string_views(v@) == ps,
                Err(m) => r matches Err(s) && s@ == m,
            },
        },
        r matches Ok(v) ==> forall|k: int| 0 <= k < v@.len() ==> glob_pattern_error(#[trigger] v@[k]@) is None,
{
    match values {
        None => Ok(Vec::new()),
        Some(vs) => compile_pattern_list(vs),
    }
}

/// The member and exclusion patterns of a Cargo workspace, all accepted by
/// glob.
pub struct WorkspaceMembership {
    pub members: Vec<String>,
    pub excludes: Vec<String>,
}

impl WorkspaceMembership {
    pub open spec fn wf(&self) -> bool {
        &&& forall|k: int| 0 <= k < self.members@.len() ==> glob_pattern_error(#[trigger] self.members@[k]@) is None
        &&& forall|k: int| 0 <= k < self.excludes@.len() ==> glob_pattern_error(#[trigger] self.excludes@[k]@) is None
    }
}

pub open spec fn matches_any(patterns: Seq<String>, dir: Seq<char>) -> bool {
    exists|k: int| 0 <= k < patterns.len() && glob_matches_path(#[trigger] patterns[k]@, dir)
}

fn any_matches(patterns: &Vec<String>, dir: &str) -> (r: bool)
    requires
        forall|k: int| 0 <= k < patterns@.len() ==> glob_pattern_error(#[trigger] patterns@[k]@) is None,
    ensures
        r == matches_any(patterns@, dir@),
{
    let mut i: usize = 0;
    while i < patterns.len()
        invariant
            i <= patterns@.len(),
            forall|k: int| 0 <= k < patterns@.len() ==> glob_pattern_error(#[trigger] patterns@[k]@) is None,
            forall|k: int| 0 <= k < i ==> !glob_matches_path(#[trigger] patterns@[k]@, dir@),
        decreases patterns@.len() - i,
    {
        if pattern_matches_path(patterns[i].as_str(), dir) {
            return true;
        }
        i = i + 1;
    }
    false
}

/// A directory (relative to the workspace root) is a member: the root
/// itself, or a directory that some member pattern matches and no
/// exclusion does.
pub open spec fn spec_includes(m: WorkspaceMembership, dir: Seq<char>) -> bool {
    dir == "."@ || (!matches_any(m.excludes@, dir) && matches_any(m.members@, dir))
}

pub open spec fn spec_excludes(m: WorkspaceMembership, dir: Seq<char>) -> bool {
    matches_any(m.excludes@, dir)
}

impl WorkspaceMembership {
    pub fn includes(&self, dir: &str) -> (r: bool)
        requires
            self.wf(),
        ensures
            r == spec_includes(*self, dir@),
    {
        str_eq(dir, ".") || (!any_matches(&self.excludes, dir) && any_matches(&self.members, dir))
    }

    pub fn excludes(&self, dir: &str) -> (r: bool)
        requires
            self.wf(),
        ensures
            r == spec_excludes(*self, dir@),
    {
        any_matches(&self.excludes, dir)
    }
}

/// What a manifest says for the topology: its package name, if it
/// declares a package, and the entries of its dependency tables.
pub struct ManifestFacts {
    pub package_name: Option<String>,
    pub dependencies: Vec<DependencyEntry>,
}

/// What a manifest is to the workspace.
pub enum ManifestClassification {
    /// No package: a virtual manifest.
    Virtual,
    /// A package outside the members, with its repository directory.
    Nonmember(String),
    /// A member package.
    Member(Package),
}

/// Classifies a manifest found under the topology root, in the directory
/// `topology_dir` relative to that root and `repository_dir` relative to
/// the repository:
/// - an excluded directory is a non-member;
/// - a manifest without a package is virtual;
/// - a package outside the members is a non-member;
/// - otherwise it is a member with its dependencies (or the error of an
///   undeclared workspace alias).
pub fn classify_manifest(
    facts: &ManifestFacts,
    topology_dir: &str,
    repository_dir: &str,
    membership: &WorkspaceMembership,
    aliases: &Vec<(String, String)>,
) -> (r: Result<ManifestClassification, String>)
    requires
        membership.wf(),
    ensures
        spec_excludes(*membership, topology_dir@) ==> (r matches Ok(ManifestClassification::Nonmember(d))
            && d@ == repository_dir@),
        !spec_excludes(*membership, topology_dir@) && facts.package_name is None ==> (r matches Ok(
            ManifestClassification::Virtual,
        )),
        !spec_excludes(*membership, topology_dir@) && facts.package_name is Some && !spec_includes(
            *membership,
            topology_dir@,
        ) ==> (r matches Ok(ManifestClassification::Nonmember(d)) && d@ == repository_dir@),
        !spec_excludes(*membership, topology_dir@) && spec_includes(*membership, topology_dir@)
            && facts.package_name is Some ==> match dependency_names_upto(
            facts.dependencies@,
            aliases@,
            facts.dependencies@.len() as int,
        ) {
            Ok(names) => r matches Ok(ManifestClassification::Member(p)) && p.name@ == facts.package_name->0@
                && p.dir@ == repository_dir@ && strictly_sorted(string_views(p.deps@)) && string_views(
                p.deps@,
            ).to_set() == names,
            Err(m) => r matches Err(s) && s@ == m,
        },
{
    if membership.excludes(topology_dir) {
        return Ok(ManifestClassification::Nonmember(String::from_str(repository_dir)));
    }
    let name = match &facts.package_name {
        None => {
            return Ok(ManifestClassification::Virtual);
        },
        Some(n) => n.clone(),
    };
    if !membership.includes(topology_dir) {
        return Ok(ManifestClassification::Nonmember(String::from_str(repository_dir)));
    }
    let deps = match package_dependencies(&facts.dependencies, aliases) {
        Ok(d) => d,
        Err(m) => {
            return Err(m);
        },
    };
    Ok(ManifestClassification::Member(Package { name, dir: String::from_str(repository_dir), deps }))
}

/// The member packages by name: a later manifest of the same package name
/// replaces an earlier one.
pub open spec fn package_map(members: Seq<Package>) -> Map<Seq<char>, Package>
    decreases members.len(),
{
    if members.len() == 0 {
        Map::empty()
    } else {
        package_map(members.drop_last()).insert(members.last().name@, members.last())
    }
}

pub open spec fn package_names(ps: Seq<Package>) -> Seq<Seq<char>> {
    ps.map_values(|p: Package| p.name@)
}

/// `v` lists the map `m` by name: names strictly increasing, each with its
/// package, and no other.
pub open spec fn lists_map(v: Seq<Package>, m: Map<Seq<char>, Package>) -> bool {
    &&& strictly_sorted(package_names(v))
    &&& package_names(v).to_set() == m.dom()
    &&& forall|k: int| 0 <= k < v.len() ==> m[(#[trigger] v[k]).name@] == v[k]
}

fn insert_package(v: &mut Vec<Package>, p: Package)
    requires
        strictly_sorted(package_names(old(v)@)),
    ensures
        forall|m: Map<Seq<char>, Package>| lists_map(old(v)@, m) ==> lists_map(final(v)@, m.insert(p.name@, p)),
{
    let n = v.len();
    let mut i: usize = 0;
    while i < n
        invariant
            i <= n,
            n == v@.len(),
            v@ == old(v)@,
            forall|k: int| 0 <= k < i ==> text_lt(#[trigger] package_names(v@)[k], p.name@),
        ensures
            i <= n,
            v@ == old(v)@,
            forall|k: int| 0 <= k < i ==> text_lt(#[trigger] package_names(v@)[k], p.name@),
            i < n ==> !text_lt(package_names(v@)[i as int], p.name@),
        decreases n - i,
    {
        if compare_text(v[i].name.as_str(), p.name.as_str()) != TextOrder::Before {
            break;
        }
        i = i + 1;
    }
    let ghost old_v = old(v)@;
    let ghost names = package_names(old_v);
    let ghost pn = p.name@;
    let ghost pv = p;
    if i < n && compare_text(v[i].name.as_str(), p.name.as_str()) == TextOrder::Same {
        v.set(i, p);
        proof {
            let nv = v@;
            assert(package_names(nv) =~= names);
            assert forall|m: Map<Seq<char>, Package>| lists_map(old_v, m) implies lists_map(nv, m.insert(pn, pv)) by {
                assert(m.insert(pn, pv).dom() =~= m.dom()) by {
                    assert(names[i as int] == pn);
                    assert(names.to_set().contains(pn));
                }
                assert forall|k: int| 0 <= k < nv.len() implies m.insert(pn, pv)[(#[trigger] nv[k]).name@] == nv[k] by {
                    if k != i {
                        assert(nv[k] == old_v[k]);
                        if old_v[k].name@ == pn {
                            assert(names[k] == names[i as int]);
                            if k < i {
                                crate::order::lemma_text_lt_irreflexive(names[k]);
                            } else {
                                crate::order::lemma_text_lt_irreflexive(names[i as int]);
                            }
                        }
                    }
                }
            }
        }
        return;
    }
    proof {
        if i < n {
            lemma_text_total(names[i as int], pn);
        }
    }
    v.insert(i, p);
    proof {
        let nv = v@;
        let new_names = package_names(nv);
        assert(nv =~= old_v.take(i as int) + seq![pv] + old_v.skip(i as int));
        assert(new_names =~= names.take(i as int) + seq![pn] + names.skip(i as int));
        assert forall|a: int, b: int| 0 <= a < b < new_names.len() implies text_lt(
            #[trigger] new_names[a],
            #[trigger] new_names[b],
        ) by {
            if b < i {
            } else if b == i {
            } else if a < i {
                assert(new_names[b] == names[b - 1]);
                if i < b - 1 {
                    lemma_text_lt_transitive(names[a], names[i as int], names[b - 1]);
                }
            } else if a == i {
                assert(new_names[b] == names[b - 1]);
                if i < b - 1 {
                    lemma_text_lt_transitive(pn, names[i as int], names[b - 1]);
                }
            } else {
                assert(new_names[a] == names[a - 1]);
                assert(new_names[b] == names[b - 1]);
            }
        }
        assert forall|m: Map<Seq<char>, Package>| lists_map(old_v, m) implies lists_map(nv, m.insert(pn, pv)) by {
            assert(new_names.to_set() =~= m.insert(pn, pv).dom()) by {
                assert forall|y: Seq<char>| new_names.to_set().contains(y) implies m.insert(pn, pv).dom().contains(y) by {
                    let k = choose|k: int| 0 <= k < new_names.len() && new_names[k] == y;
                    if k < i {
                        assert(names[k] == y);
                    } else if k > i {
                        assert(names[k - 1] == y);
                    }
                }
                assert forall|y: Seq<char>| m.insert(pn, pv).dom().contains(y) implies new_names.to_set().contains(y) by {
                    if y == pn {
                        assert(new_names[i as int] == y);
                    } else {
                        assert(names.to_set().contains(y));
                        let k = choose|k: int| 0 <= k < names.len() && names[k] == y;
                        if k < i {
                            assert(new_names[k] == y);
                        } else {
                            assert(new_names[k + 1] == y);
                        }
                    }
                }
            }
            assert forall|k: int| 0 <= k < nv.len() implies m.insert(pn, pv)[(#[trigger] nv[k]).name@] == nv[k] by {
                if k < i {
                    assert(nv[k] == old_v[k]);
                    assert(text_lt(names[k], pn));
                    crate::order::lemma_text_lt_irreflexive(pn);
                    assert(names[k] != pn);
                    assert(old_v[k].name@ == names[k]);
                    assert(m[old_v[k].name@] == old_v[k]);
                } else if k > i {
                    assert(nv[k] == old_v[k - 1]);
                    assert(text_lt(pn, names[i as int]));
                    if i < k - 1 {
                        lemma_text_lt_transitive(pn, names[i as int], names[k - 1]);
                    }
                    assert(text_lt(pn, names[k - 1]));
                    crate::order::lemma_text_lt_irreflexive(pn);
                    assert(names[k - 1] != pn);
                    assert(old_v[k - 1].name@ == names[k - 1]);
                    assert(m[old_v[k - 1].name@] == old_v[k - 1]);
                } else {
                    assert(nv[k] == pv);
                }
            }
        }
    }
}

/// The workspace members and non-member directories of the classified
/// manifests: the members by name (see `package_map`), listed in code-point
/// order of their names, and the non-member directories once each in
/// code-point order.
pub fn assemble_packages(classified: Vec<ManifestClassification>) -> (r: (Vec<Package>, Vec<String>))
    ensures
        lists_map(r.0@, package_map(members_of(classified@))),
        strictly_sorted(string_views(r.1@)),
        string_views(r.1@).to_set() == nonmember_dirs_of(classified@).to_set(),
{
    let ghost all = classified@;
    let n = classified.len();
    assert(all.len() == n);
    let mut rest = classified;
    let mut packages: Vec<Package> = Vec::new();
    let mut dirs: Vec<String> = Vec::new();
    let mut i: usize = 0;
    proof {
        assert(package_names(packages@) =~= Seq::<Seq<char>>::empty());
        assert(package_names(packages@).to_set() =~= package_map(members_of(all.take(0))).dom());
    }
    while rest.len() > 0
        invariant
            all.len() == n,
            n <= usize::MAX,
            i <= n,
            rest@ == all.skip(i as int),
            rest@.len() == n - i,
            lists_map(packages@, package_map(members_of(all.take(i as int)))),
            strictly_sorted(string_views(dirs@)),
            string_views(dirs@).to_set() == nonmember_dirs_of(all.take(i as int)).to_set(),
        decreases rest@.len(),
    {
        let c = rest.remove(0);
        proof {
            assert(c == all[i as int]);
            assert(rest@ =~= all.skip(i + 1));
            assert(all.take(i + 1).drop_last() =~= all.take(i as int));
            assert(all.take(i + 1).last() == c);
        }
        match c {
            ManifestClassification::Nonmember(d) => {
                let ghost before = nonmember_dirs_of(all.take(i as int));
                let ghost dv = d@;
                insert_sorted(&mut dirs, d);
                proof {
                    assert(nonmember_dirs_of(all.take(i + 1)) =~= before.push(dv));
                    before.lemma_push_to_set_commute(dv);
                    assert(members_of(all.take(i + 1)) =~= members_of(all.take(i as int)));
                }
            },
            ManifestClassification::Member(p) => {
                let ghost prev = members_of(all.take(i as int));
                let ghost pv = p;
                insert_package(&mut packages, p);
                proof {
                    assert(members_of(all.take(i + 1)) =~= prev.push(pv));
                    assert(prev.push(pv).drop_last() =~= prev);
                    assert(package_map(prev.push(pv)) == package_map(prev).insert(pv.name@, pv));
                    assert(lists_map(packages@, package_map(prev).insert(pv.name@, pv)));
                    assert(nonmember_dirs_of(all.take(i + 1)) =~= nonmember_dirs_of(all.take(i as int)));
                }
            },
            ManifestClassification::Virtual => {
                proof {
                    assert(nonmember_dirs_of(all.take(i + 1)) =~= nonmember_dirs_of(all.take(i as int)));
                    assert(members_of(all.take(i + 1)) =~= members_of(all.take(i as int)));
                }
            },
        }
        i = i + 1;
    }
    assert(all.take(n as int) =~= all);
    (packages, dirs)
}

/// The member packages among classified manifests, in order.
pub open spec fn members_of(c: Seq<ManifestClassification>) -> Seq<Package>
    decreases c.len(),
{
    if c.len() == 0 {
        seq![]
    } else {
        members_of(c.drop_last()) + match c.last() {
            ManifestClassification::Member(p) => seq![p],
            _ => seq![],
        }
    }
}

/// The non-member directories among classified manifests, in order.
pub open spec fn nonmember_dirs_of(c: Seq<ManifestClassification>) -> Seq<Seq<char>>
    decreases c.len(),
{
    if c.len() == 0 {
        seq![]
    } else {
        nonmember_dirs_of(c.drop_last()) + match c.last() {
            ManifestClassification::Nonmember(d) => seq![d@],
            _ => seq![],
        }
    }
}

/// Directories the topology walk never enters.
pub open spec fn is_skipped_dir(name: Seq<char>) -> bool {
    name == ".git"@ || name == ".ayni"@ || name == "target"@ || name == "node_modules"@
}

/// Whether the topology walk looks at an entry: every file, and every
/// directory but the skipped ones (a name that is not UTF-8 is kept).
pub fn relevant_entry(is_dir: bool, name: Option<&str>) -> (r: bool)
    ensures
        r == (!is_dir || match name {
            Some(n) => !is_skipped_dir(n@),
            None => true,
        }),
{
    if !is_dir {
        return true;
    }
    match name {
        Some(n) => !(str_eq(n, ".git") || str_eq(n, ".ayni") || str_eq(n, "target") || str_eq(n, "node_modules")),
        None => true,
    }
}


pub open spec fn entry_view(e: DependencyEntry) -> (Seq<char>, bool, Option<Seq<char>>) {
    (e.name@, e.workspace, match e.package {
        Some(p) => Some(p@),
        None => None,
    })
}

pub open spec fn entry_views(es: Seq<DependencyEntry>) -> Seq<(Seq<char>, bool, Option<Seq<char>>)> {
    es.map_values(|e: DependencyEntry| entry_view(e))
}

/// The entry a manifest's dependency table at `table` holds under `name`.
pub open spec fn declared_entry(content: Seq<char>, table: Seq<Seq<char>>, name: Seq<char>) -> (Seq<char>, bool, Option<Seq<char>>) {
    (
        name,
        toml_field_at(content, table.push(name).push("workspace"@)) == TomlField::Flag(true),
        text_at(content, table.push(name).push("package"@)),
    )
}

pub open spec fn table_entries(content: Seq<char>, table: Seq<Seq<char>>) -> Seq<(Seq<char>, bool, Option<Seq<char>>)> {
    match toml_field_at(content, table) {
        TomlField::Table(names) => names@.map_values(|n: String| declared_entry(content, table, n@)),
        _ => seq![],
    }
}

pub open spec fn section_entries(content: Seq<char>, prefix: Seq<Seq<char>>) -> Seq<(Seq<char>, bool, Option<Seq<char>>)> {
    table_entries(content, prefix.push("dependencies"@)) + table_entries(content, prefix.push("dev-dependencies"@))
        + table_entries(content, prefix.push("build-dependencies"@))
}

pub open spec fn target_entries(content: Seq<char>, names: Seq<String>) -> Seq<(Seq<char>, bool, Option<Seq<char>>)>
    decreases names.len(),
{
    if names.len() == 0 {
        seq![]
    } else {
        target_entries(content, names.drop_last()) + section_entries(content, seq!["target"@, names.last()@])
    }
}

/// The entries of a manifest's dependency tables: its own, then those of
/// each `[target.*]` table, in key order.
pub open spec fn spec_dependency_entries(content: Seq<char>) -> Seq<(Seq<char>, bool, Option<Seq<char>>)> {
    section_entries(content, seq![]) + target_entries(content, table_names(content, seq!["target"@]))
}

fn push_table_entries(content: &str, table: &Vec<&str>, out: &mut Vec<DependencyEntry>)
    ensures
        entry_views(final(out)@) == entry_views(old(out)@) + table_entries(content@, key_views(table@)),
{
    let ghost t = key_views(table@);
    let names = match toml_field(content, table) {
        TomlField::Table(names) => names,
        _ => {
            assert(entry_views(out@) =~= entry_views(old(out)@) + seq![]);
            return;
        },
    };
    let ghost all = names@.map_values(|n: String| declared_entry(content@, t, n@));
    let mut i: usize = 0;
    while i < names.len()
        invariant
            toml_field_at(content@, t) == TomlField::Table(names),
            t == key_views(table@),
            all == names@.map_values(|n: String| declared_entry(content@, t, n@)),
            i <= names@.len(),
            entry_views(out@) == entry_views(old(out)@) + all.take(i as int),
        decreases names@.len() - i,
    {
        let flag_more = vec![names[i].as_str(), "workspace"];
        let flag_keys = keys_with(table, &flag_more);
        assert(key_views(flag_more@) =~= seq![names@[i as int]@, "workspace"@]);
        assert(key_views(flag_keys@) =~= t.push(names@[i as int]@).push("workspace"@));
        let workspace = match toml_field(content, &flag_keys) {
            TomlField::Flag(b) => b,
            _ => false,
        };
        let package_more = vec![names[i].as_str(), "package"];
        let package_keys = keys_with(table, &package_more);
        assert(key_views(package_more@) =~= seq![names@[i as int]@, "package"@]);
        assert(key_views(package_keys@) =~= t.push(names@[i as int]@).push("package"@));
        let package = match toml_field(content, &package_keys) {
            TomlField::Text(p) => Some(p),
            _ => None,
        };
        let ghost before = out@;
        out.push(DependencyEntry { name: names[i].clone(), workspace, package });
        assert(entry_view(out@.last()) == all[i as int]);
        assert(entry_views(out@) =~= entry_views(before).push(all[i as int]));
        assert(all.take(i + 1) =~= all.take(i as int).push(all[i as int]));
        i = i + 1;
    }
    assert(all.take(names@.len() as int) =~= all);
}

fn push_section_entries(content: &str, prefix: &Vec<&str>, out: &mut Vec<DependencyEntry>)
    ensures
        entry_views(final(out)@) == entry_views(old(out)@) + section_entries(content@, key_views(prefix@)),
{
    let ghost p = key_views(prefix@);
    let deps = keys_with(prefix, &vec!["dependencies"]);
    let dev = keys_with(prefix, &vec!["dev-dependencies"]);
    let build = keys_with(prefix, &vec!["build-dependencies"]);
    assert(key_views(deps@) =~= p.push("dependencies"@));
    assert(key_views(dev@) =~= p.push("dev-dependencies"@));
    assert(key_views(build@) =~= p.push("build-dependencies"@));
    push_table_entries(content, &deps, out);
    push_table_entries(content, &dev, out);
    push_table_entries(content, &build, out);
    assert(entry_views(out@) =~= entry_views(old(out)@) + section_entries(content@, p));
}

/// The dependency entries of a manifest (see `spec_dependency_entries`).
pub fn dependency_entries(content: &str) -> (r: Vec<DependencyEntry>)
    ensures
        entry_views(r@) == spec_dependency_entries(content@),
{
    let mut out: Vec<DependencyEntry> = Vec::new();
    let root: Vec<&str> = Vec::new();
    assert(key_views(root@) =~= seq![]);
    assert(entry_views(out@) =~= seq![]);
    push_section_entries(content, &root, &mut out);
    let target_key = vec!["target"];
    assert(key_views(target_key@) =~= seq!["target"@]);
    let targets = table_key_names(content, &target_key);
    let ghost after_root = entry_views(out@);
    let mut i: usize = 0;
    while i < targets.len()
        invariant
            i <= targets@.len(),
            entry_views(out@) == after_root + target_entries(content@, targets@.take(i as int)),
        decreases targets@.len() - i,
    {
        let prefix = vec!["target", targets[i].as_str()];
        assert(key_views(prefix@) =~= seq!["target"@, targets@[i as int]@]);
        push_section_entries(content, &prefix, &mut out);
        assert(targets@.take(i + 1).drop_last() =~= targets@.take(i as int));
        assert(targets@.take(i + 1).last() == targets@[i as int]);
        assert(entry_views(out@) =~= after_root + target_entries(content@, targets@.take(i + 1)));
        i = i + 1;
    }
    assert(targets@.take(targets@.len() as int) =~= targets@);
    out
}

/// What a manifest says for the topology (its package name and dependency
/// entries), or the error of a manifest that does not parse.
pub fn manifest_facts(m: &ManifestText) -> (r: Result<ManifestFacts, String>)
    ensures
        match spec_parse_failure(*m) {
            Some(e) => r matches Err(x) && x@ == e,
            None => r matches Ok(f) && opt_text_is(f.package_name, text_at(m.content@, seq!["package"@, "name"@]))
                && entry_views(f.dependencies@) == spec_dependency_entries(m.content@),
        },
{
    if let Some(e) = parse_failure(m) {
        return Err(e);
    }
    let name_keys = vec!["package", "name"];
    assert(key_views(name_keys@) =~= seq!["package"@, "name"@]);
    let package_name = match toml_field(m.content.as_str(), &name_keys) {
        TomlField::Text(n) => Some(n),
        _ => None,
    };
    Ok(ManifestFacts { package_name, dependencies: dependency_entries(m.content.as_str()) })
}

pub open spec fn opt_text_is(r: Option<String>, want: Option<Seq<char>>) -> bool {
    match want {
        None => r is None,
        Some(w) => r matches Some(s) && s@ == w,
    }
}

pub open spec fn opt_list_is(r: Option<Vec<Option<String>>>, f: TomlField) -> bool {
    match f {
        TomlField::List(items) => r == Some(items),
        _ => r is None,
    }
}

/// What a topology root's manifest says of its workspace: whether it has
/// one, its member and exclude lists as given, and the package each
/// `[workspace.dependencies]` alias names, if it names one.
pub struct WorkspaceFacts {
    pub declared: bool,
    pub members: Option<Vec<Option<String>>>,
    pub excludes: Option<Vec<Option<String>>>,
    pub aliases: Vec<(String, Option<String>)>,
}

pub open spec fn alias_views(es: Seq<(String, Option<String>)>) -> Seq<(Seq<char>, Option<Seq<char>>)> {
    es.map_values(|e: (String, Option<String>)| (e.0@, match e.1 {
        Some(p) => Some(p@),
        None => None,
    }))
}

pub open spec fn spec_alias_entries(content: Seq<char>) -> Seq<(Seq<char>, Option<Seq<char>>)> {
    table_names(content, seq!["workspace"@, "dependencies"@]).map_values(
        |n: String| (n@, text_at(content, seq!["workspace"@, "dependencies"@, n@, "package"@])),
    )
}

pub fn workspace_facts(m: &ManifestText) -> (r: Result<WorkspaceFacts, String>)
    ensures
        match spec_parse_failure(*m) {
            Some(e) => r matches Err(x) && x@ == e,
            None => r matches Ok(w) && w.declared == (toml_field_at(m.content@, seq!["workspace"@]) != TomlField::Missing)
                && opt_list_is(w.members, toml_field_at(m.content@, seq!["workspace"@, "members"@]))
                && opt_list_is(w.excludes, toml_field_at(m.content@, seq!["workspace"@, "exclude"@]))
                && alias_views(w.aliases@) == spec_alias_entries(m.content@),
        },
{
    if let Some(e) = parse_failure(m) {
        return Err(e);
    }
    let c = m.content.as_str();
    let ws = vec!["workspace"];
    assert(key_views(ws@) =~= seq!["workspace"@]);
    let declared = match toml_field(c, &ws) {
        TomlField::Missing => false,
        _ => true,
    };
    let member_keys = vec!["workspace", "members"];
    assert(key_views(member_keys@) =~= seq!["workspace"@, "members"@]);
    let members = match toml_field(c, &member_keys) {
        TomlField::List(items) => Some(items),
        _ => None,
    };
    let exclude_keys = vec!["workspace", "exclude"];
    assert(key_views(exclude_keys@) =~= seq!["workspace"@, "exclude"@]);
    let excludes = match toml_field(c, &exclude_keys) {
        TomlField::List(items) => Some(items),
        _ => None,
    };
    let alias_keys = vec!["workspace", "dependencies"];
    assert(key_views(alias_keys@) =~= seq!["workspace"@, "dependencies"@]);
    let names = table_key_names(c, &alias_keys);
    let ghost want = spec_alias_entries(m.content@);
    let mut aliases: Vec<(String, Option<String>)> = Vec::new();
    let mut i: usize = 0;
    while i < names.len()
        invariant
            c@ == m.content@,
            names@ == table_names(m.content@, seq!["workspace"@, "dependencies"@]),
            want == spec_alias_entries(m.content@),
            i <= names@.len(),
            alias_views(aliases@) == want.take(i as int),
        decreases names@.len() - i,
    {
        let keys = vec!["workspace", "dependencies", names[i].as_str(), "package"];
        assert(key_views(keys@) =~= seq!["workspace"@, "dependencies"@, names@[i as int]@, "package"@]);
        let package = match toml_field(c, &keys) {
            TomlField::Text(p) => Some(p),
            _ => None,
        };
        let ghost before = aliases@;
        aliases.push((names[i].clone(), package));
        assert(alias_views(aliases@) =~= alias_views(before).push(want[i as int]));
        assert(want.take(i + 1) =~= want.take(i as int).push(want[i as int]));
        i = i + 1;
    }
    assert(want.take(names@.len() as int) =~= want);
    Ok(WorkspaceFacts { declared, members, excludes, aliases })
}

} // verus!
