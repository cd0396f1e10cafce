//! The dependency rules between the members of a Cargo workspace: which
//! members a scope sees, which edges run between members, and which edges a
//! forbidden rule matches.
use crate::order::{compare_text, sort_list, sort_listed, text_lt, Listed, TextOrder};
use crate::paths::{components, path_starts_with, path_starts_with_spec, path_strip_prefix, same_path, strip_prefix_spec};
use crate::discovery::opt_view;
use crate::signals::concat;
use crate::text::{chars_of, chars_replace, replace_char, str_eq, string_from_chars};
use crate::vocabulary::Level;
use vstd::prelude::*;

verus! {

broadcast use vstd::string::group_string_axioms;

/// A workspace member: its package id and name, its directory relative to
/// the repository, and its canonical absolute directory.
pub struct MemberInfo {
    pub id: String,
    pub name: String,
    pub dir: String,
    pub dir_abs: String,
}

/// A node of `cargo metadata`'s resolve graph: a package id and the ids of
/// the packages it depends on.
pub struct MetadataNode {
    pub id: String,
    pub deps: Vec<String>,
}

/// A forbidden dependency between members.
pub struct DepsOffender {
    pub from: String,
    pub to: String,
    pub rule: String,
    /// Every forbidden edge fails.
    pub level: Level,
}

/// What the deps collector found.
pub struct DepsAnalysis {
    pub crate_count: u64,
    pub edge_count: u64,
    pub violation_count: u64,
    pub offenders: Vec<DepsOffender>,
}

pub open spec fn outside_root_message(dir_abs: Seq<char>, repo_root: Seq<char>) -> Seq<char> {
    "workspace member "@ + dir_abs + " is outside repo root "@ + repo_root + ": prefix not found"@
}

/// A member directory relative to the repository root, with `/`
/// separators; the root itself is `.`.
pub open spec fn spec_repo_relative_dir(repo_root: Seq<char>, dir_abs: Seq<char>) -> Result<Seq<char>, Seq<char>> {
    match strip_prefix_spec(dir_abs, repo_root) {
        Some(rel) => {
            let text = replace_char(rel, '\\', '/');
            if text.len() == 0 {
                Ok("."@)
            } else {
                Ok(text)
            }
        },
        None => Err(outside_root_message(dir_abs, repo_root)),
    }
}

pub fn repo_relative_dir(repo_root: &str, dir_abs: &str) -> (r: Result<String, String>)
    ensures
        match spec_repo_relative_dir(repo_root@, dir_abs@) {
            Ok(d) => r matches Ok(s) && s@ == d,
            Err(e) => r matches Err(m) && m@ == e,
        },
{
    match path_strip_prefix(dir_abs, repo_root) {
        Some(rel) => {
            let v = chars_of(rel.as_str());
            let w = chars_replace(&v, '\\', '/');
            if w.len() == 0 {
                Ok(String::from_str("."))
            } else {
                Ok(string_from_chars(&w))
            }
        },
        None => {
            let a = concat("workspace member ", dir_abs);
            let b = concat(a.as_str(), " is outside repo root ");
            let c = concat(b.as_str(), repo_root);
            Err(concat(c.as_str(), ": prefix not found"))
        },
    }
}

pub open spec fn package_missing_message(package: Seq<char>) -> Seq<char> {
    "package scope '"@ + package + "' was not found in cargo metadata"@
}

/// The first member named `package` or living at that directory.
pub open spec fn first_member_for(members: Seq<MemberInfo>, package: Seq<char>) -> Option<int>
    decreases members.len(),
{
    if members.len() == 0 {
        None
    } else if members[0].name@ == package || members[0].dir@ == package {
        Some(0)
    } else {
        match first_member_for(members.drop_first(), package) {
            Some(i) => Some(i + 1),
            None => None,
        }
    }
}

/// Whether a member is seen from a path scope: the scope lies in it, or it
/// lies in the scope.
pub open spec fn member_near(m: MemberInfo, target: Seq<char>) -> bool {
    path_starts_with_spec(target, m.dir_abs@) || path_starts_with_spec(m.dir_abs@, target)
}

/// Whether a member lies in the working directory of the run.
pub open spec fn member_in_root(m: MemberInfo, workdir: Seq<char>) -> bool {
    components(m.dir_abs@) == components(workdir) || path_starts_with_spec(m.dir_abs@, workdir)
}

/// The members a scope sees (as indices): the one a package scope names,
/// those near a path scope, else all of them.
pub open spec fn visible_upto(members: Seq<MemberInfo>, target: Option<Seq<char>>, n: int) -> Seq<usize>
    decreases n,
{
    if n <= 0 {
        seq![]
    } else {
        let prev = visible_upto(members, target, n - 1);
        match target {
            Some(t) => if member_near(members[n - 1], t) {
                prev.push((n - 1) as usize)
            } else {
                prev
            },
            None => prev.push((n - 1) as usize),
        }
    }
}

pub open spec fn spec_visible(members: Seq<MemberInfo>, package: Option<Seq<char>>, target: Option<Seq<char>>) -> Result<Seq<usize>, Seq<char>> {
    match package {
        Some(p) => match first_member_for(members, p) {
            Some(i) => Ok(seq![i as usize]),
            None => Err(package_missing_message(p)),
        },
        None => Ok(visible_upto(members, target, members.len() as int)),
    }
}

proof fn lemma_first_member_for(members: Seq<MemberInfo>, package: Seq<char>)
    ensures
        match first_member_for(members, package) {
            Some(i) => 0 <= i < members.len() && (members[i].name@ == package || members[i].dir@ == package)
                && forall|j: int| 0 <= j < i ==> !(members[j].name@ == package || members[j].dir@ == package),
            None => forall|j: int| 0 <= j < members.len() ==> !(members[j].name@ == package || members[j].dir@ == package),
        },
    decreases members.len(),
{
    if members.len() > 0 {
        lemma_first_member_for(members.drop_first(), package);
        match first_member_for(members.drop_first(), package) {
            Some(i) => {
                assert forall|j: int| 0 < j < i + 1 implies !(members[j].name@ == package || members[j].dir@ == package) by {
                    assert(members[j] == members.drop_first()[j - 1]);
                }
            },
            None => {
                assert forall|j: int| 0 < j < members.len() implies !(members[j].name@ == package || members[j].dir@ == package) by {
                    assert(members[j] == members.drop_first()[j - 1]);
                }
            },
        }
    }
}

/// The members a scope sees, as indices into `members`.
pub fn visible_members(members: &Vec<MemberInfo>, package: Option<&str>, target: Option<&str>) -> (r: Result<Vec<usize>, String>)
    ensures
        match spec_visible(members@, opt_view(package), opt_view(target)) {
            Ok(v) => r matches Ok(x) && x@ == v,
            Err(e) => r matches Err(m) && m@ == e,
        },
{
    match package {
        Some(p) => {
            proof {
                lemma_first_member_for(members@, p@);
            }
            let mut i: usize = 0;
            while i < members.len()
                invariant
                    i <= members@.len(),
                    opt_view(package) == Some(p@),
                    forall|j: int| 0 <= j < i ==> !(members@[j].name@ == p@ || members@[j].dir@ == p@),
                decreases members@.len() - i,
            {
                if str_eq(members[i].name.as_str(), p) || str_eq(members[i].dir.as_str(), p) {
                    let mut v: Vec<usize> = Vec::new();
                    v.push(i);
                    proof {
                        lemma_first_member_for(members@, p@);
                        match first_member_for(members@, p@) {
                            Some(k) => {
                                if k > i {
                                    assert(!(members@[i as int].name@ == p@ || members@[i as int].dir@ == p@));
                                }
                                assert(k == i);
                            },
                            None => {
                                assert(!(members@[i as int].name@ == p@ || members@[i as int].dir@ == p@));
                            },
                        }
                    }
                    assert(v@ =~= seq![i]);
                    assert(first_member_for(members@, p@) == Some(i as int));
                    assert(spec_visible(members@, opt_view(package), opt_view(target)) == Ok::<Seq<usize>, Seq<char>>(seq![i]));
                    return Ok(v);
                }
                i = i + 1;
            }
            proof {
                lemma_first_member_for(members@, p@);
                match first_member_for(members@, p@) {
                    Some(k) => {
                        assert(!(members@[k].name@ == p@ || members@[k].dir@ == p@));
                    },
                    None => {},
                }
            }
            let a = concat("package scope '", p);
            Err(concat(a.as_str(), "' was not found in cargo metadata"))
        },
        None => {
            let mut v: Vec<usize> = Vec::new();
            let mut i: usize = 0;
            while i < members.len()
                invariant
                    i <= members@.len(),
                    v@ == visible_upto(members@, opt_view(target), i as int),
                decreases members@.len() - i,
            {
                let keep = match target {
                    Some(t) => path_starts_with(t, members[i].dir_abs.as_str()) || path_starts_with(
                        members[i].dir_abs.as_str(),
                        t,
                    ),
                    None => true,
                };
                if keep {
                    v.push(i);
                }
                i = i + 1;
            }
            Ok(v)
        },
    }
}


/// The members (as indices) among the first `n` that lie in the working
/// directory.
pub open spec fn in_root_upto(members: Seq<MemberInfo>, workdir: Seq<char>, n: int) -> Seq<usize>
    decreases n,
{
    if n <= 0 {
        seq![]
    } else if member_in_root(members[n - 1], workdir) {
        in_root_upto(members, workdir, n - 1).push((n - 1) as usize)
    } else {
        in_root_upto(members, workdir, n - 1)
    }
}

/// Whether one of the members at `idxs` has the package id `id`.
pub open spec fn id_among(members: Seq<MemberInfo>, idxs: Seq<usize>, id: Seq<char>) -> bool {
    exists|k: int| 0 <= k < idxs.len() && (#[trigger] members[idxs[k] as int]).id@ == id
}

/// The visible members (among the first `n` of `visible`) that lie in the
/// working directory.
pub open spec fn visible_in_root(members: Seq<MemberInfo>, visible: Seq<usize>, root: Seq<usize>, n: int) -> Seq<usize>
    decreases n,
{
    if n <= 0 {
        seq![]
    } else if id_among(members, root, members[visible[n - 1] as int].id@) {
        visible_in_root(members, visible, root, n - 1).push(visible[n - 1])
    } else {
        visible_in_root(members, visible, root, n - 1)
    }
}

/// The member that an id names: among members sharing an id, the last.
pub open spec fn member_by_id(members: Seq<MemberInfo>, id: Seq<char>) -> Option<int>
    decreases members.len(),
{
    if members.len() == 0 {
        None
    } else if members.last().id@ == id {
        Some(members.len() - 1)
    } else {
        member_by_id(members.drop_last(), id)
    }
}

/// The edges of a node's first `n` dependencies: to members in the working
/// directory.
pub open spec fn dep_edges(members: Seq<MemberInfo>, root: Seq<usize>, from: Seq<char>, deps: Seq<String>) -> Seq<(Seq<char>, Seq<char>)>
    decreases deps.len(),
{
    if deps.len() == 0 {
        seq![]
    } else {
        let prev = dep_edges(members, root, from, deps.drop_last());
        match member_by_id(members, deps.last()@) {
            Some(t) => if id_among(members, root, members[t].id@) {
                prev.push((from, members[t].dir@))
            } else {
                prev
            },
            None => prev,
        }
    }
}

/// The edges out of the visible members, in the order of the resolve graph.
pub open spec fn raw_edges(members: Seq<MemberInfo>, visible: Seq<usize>, root: Seq<usize>, nodes: Seq<MetadataNode>) -> Seq<(Seq<char>, Seq<char>)>
    decreases nodes.len(),
{
    if nodes.len() == 0 {
        seq![]
    } else {
        let node = nodes.last();
        let prev = raw_edges(members, visible, root, nodes.drop_last());
        if id_among(members, visible, node.id@) {
            match member_by_id(members, node.id@) {
                Some(f) => prev + dep_edges(members, root, members[f].dir@, node.deps@),
                None => prev,
            }
        } else {
            prev
        }
    }
}

/// An edge between two member directories.
pub struct DirEdge {
    pub from: String,
    pub to: String,
}

pub open spec fn edge_parts(e: DirEdge) -> (Seq<char>, Seq<char>) {
    (e.from@, e.to@)
}

/// Edges are listed by source, then target, in code-point order.
impl Listed for DirEdge {
    open spec fn goes_before(self, other: Self) -> bool {
        text_lt(self.from@, other.from@) || (self.from@ == other.from@ && !text_lt(other.to@, self.to@))
    }

    fn may_precede(&self, other: &Self) -> (r: bool) {
        match compare_text(self.from.as_str(), other.from.as_str()) {
            TextOrder::Before => true,
            TextOrder::After => false,
            TextOrder::Same => compare_text(other.to.as_str(), self.to.as_str()) != TextOrder::Before,
        }
    }

    proof fn lemma_total(a: Self, b: Self) {
        crate::order::lemma_text_total(a.from@, b.from@);
        crate::order::lemma_text_total(a.to@, b.to@);
        if text_lt(a.to@, b.to@) {
            crate::order::lemma_text_lt_asymmetric(a.to@, b.to@);
        }
    }

    proof fn lemma_transitive(a: Self, b: Self, c: Self) {
        crate::order::lemma_text_total(a.from@, b.from@);
        crate::order::lemma_text_total(b.from@, c.from@);
        crate::order::lemma_text_total(a.to@, b.to@);
        crate::order::lemma_text_total(b.to@, c.to@);
        if text_lt(a.from@, b.from@) && text_lt(b.from@, c.from@) {
            crate::order::lemma_text_lt_transitive(a.from@, b.from@, c.from@);
        }
        if text_lt(b.to@, a.to@) && text_lt(c.to@, b.to@) {
            crate::order::lemma_text_lt_transitive(c.to@, b.to@, a.to@);
        }
        if text_lt(c.to@, a.to@) && a.from@ == c.from@ && a.from@ == b.from@ {
            if !text_lt(b.to@, a.to@) && !text_lt(c.to@, b.to@) {
                if a.to@ == b.to@ {
                } else if b.to@ == c.to@ {
                } else {
                    crate::order::lemma_text_lt_transitive(a.to@, b.to@, c.to@);
                    crate::order::lemma_text_lt_asymmetric(a.to@, c.to@);
                }
            }
        }
        if text_lt(a.from@, b.from@) && text_lt(c.from@, a.from@) {
            crate::order::lemma_text_lt_transitive(c.from@, a.from@, b.from@);
        }
    }
}

/// `s` with each run of equal neighbours kept once.
pub open spec fn dedup_pairs(s: Seq<(Seq<char>, Seq<char>)>) -> Seq<(Seq<char>, Seq<char>)>
    decreases s.len(),
{
    if s.len() <= 1 {
        s
    } else if s.last() == s.drop_last().last() {
        dedup_pairs(s.drop_last())
    } else {
        dedup_pairs(s.drop_last()).push(s.last())
    }
}

/// The rules of one forbidden entry, or the error of its first pattern that
/// does not compile (the source pattern first).
pub open spec fn entry_rules(from: Seq<char>, tos: Seq<String>) -> Result<Seq<(Seq<char>, Seq<char>)>, Seq<char>>
    decreases tos.len(),
{
    if tos.len() == 0 {
        match crate::globs::glob_pattern_error(from) {
            Some(m) => Err(crate::signals::invalid_pattern_message(from, m)),
            None => Ok(seq![]),
        }
    } else {
        match entry_rules(from, tos.drop_last()) {
            Err(e) => Err(e),
            Ok(prev) => {
                let t = tos.last()@;
                match crate::globs::glob_pattern_error(t) {
                    Some(m) => Err(crate::signals::invalid_pattern_message(t, m)),
                    None => Ok(prev.push((from, t))),
                }
            },
        }
    }
}

/// The rules of the first `n` forbidden entries, in order.
pub open spec fn compiled_rules(forbidden: Seq<(String, Vec<String>)>, n: int) -> Result<Seq<(Seq<char>, Seq<char>)>, Seq<char>>
    decreases n,
{
    if n <= 0 {
        Ok(seq![])
    } else {
        match compiled_rules(forbidden, n - 1) {
            Err(e) => Err(e),
            Ok(prev) => match entry_rules(forbidden[n - 1].0@, forbidden[n - 1].1@) {
                Err(e) => Err(e),
                Ok(more) => Ok(prev + more),
            },
        }
    }
}

pub open spec fn rules_valid(rules: Seq<(Seq<char>, Seq<char>)>) -> bool {
    forall|k: int| 0 <= k < rules.len() ==> crate::globs::glob_pattern_error((#[trigger] rules[k]).0) is None
        && crate::globs::glob_pattern_error(rules[k].1) is None
}

/// The offenders of one edge under the first `m` rules.
pub open spec fn rule_offenders(e: (Seq<char>, Seq<char>), rules: Seq<(Seq<char>, Seq<char>)>, m: int) -> Seq<(Seq<char>, Seq<char>, Seq<char>)>
    decreases m,
{
    if m <= 0 {
        seq![]
    } else {
        let rule = rules[m - 1];
        let prev = rule_offenders(e, rules, m - 1);
        if crate::globs::glob_matches(rule.0, e.0) && crate::globs::glob_matches(rule.1, e.1) {
            prev.push((e.0, e.1, rule.0 + " -> "@ + rule.1))
        } else {
            prev
        }
    }
}

/// The offenders of the first `n` edges.
pub open spec fn edge_offenders(edges: Seq<(Seq<char>, Seq<char>)>, rules: Seq<(Seq<char>, Seq<char>)>, n: int) -> Seq<(Seq<char>, Seq<char>, Seq<char>)>
    decreases n,
{
    if n <= 0 {
        seq![]
    } else {
        edge_offenders(edges, rules, n - 1) + rule_offenders(edges[n - 1], rules, rules.len() as int)
    }
}

pub open spec fn offender_parts(o: DepsOffender) -> (Seq<char>, Seq<char>, Seq<char>) {
    (o.from@, o.to@, o.rule@)
}

/// Offenders are listed by source, target and rule, in code-point order.
impl Listed for DepsOffender {
    open spec fn goes_before(self, other: Self) -> bool {
        ||| text_lt(self.from@, other.from@)
        ||| (self.from@ == other.from@ && text_lt(self.to@, other.to@))
        ||| (self.from@ == other.from@ && self.to@ == other.to@ && !text_lt(other.rule@, self.rule@))
    }

    fn may_precede(&self, other: &Self) -> (r: bool) {
        match compare_text(self.from.as_str(), other.from.as_str()) {
            TextOrder::Before => true,
            TextOrder::After => false,
            TextOrder::Same => match compare_text(self.to.as_str(), other.to.as_str()) {
                TextOrder::Before => true,
                TextOrder::After => false,
                TextOrder::Same => compare_text(other.rule.as_str(), self.rule.as_str()) != TextOrder::Before,
            },
        }
    }

    proof fn lemma_total(a: Self, b: Self) {
        crate::order::lemma_text_total(a.from@, b.from@);
        crate::order::lemma_text_total(a.to@, b.to@);
        crate::order::lemma_text_total(a.rule@, b.rule@);
        if text_lt(a.rule@, b.rule@) {
            crate::order::lemma_text_lt_asymmetric(a.rule@, b.rule@);
        }
    }

    proof fn lemma_transitive(a: Self, b: Self, c: Self) {
        crate::order::lemma_text_total(a.from@, b.from@);
        crate::order::lemma_text_total(b.from@, c.from@);
        crate::order::lemma_text_total(a.to@, b.to@);
        crate::order::lemma_text_total(b.to@, c.to@);
        crate::order::lemma_text_total(a.rule@, b.rule@);
        crate::order::lemma_text_total(b.rule@, c.rule@);
        crate::order::lemma_text_total(a.rule@, c.rule@);
        if text_lt(a.from@, b.from@) && text_lt(b.from@, c.from@) {
            crate::order::lemma_text_lt_transitive(a.from@, b.from@, c.from@);
        }
        if text_lt(a.to@, b.to@) && text_lt(b.to@, c.to@) {
            crate::order::lemma_text_lt_transitive(a.to@, b.to@, c.to@);
        }
        if text_lt(b.rule@, a.rule@) && text_lt(c.rule@, b.rule@) {
            crate::order::lemma_text_lt_transitive(c.rule@, b.rule@, a.rule@);
        }
        if text_lt(c.rule@, a.rule@) && !text_lt(b.rule@, a.rule@) && !text_lt(c.rule@, b.rule@) {
            if a.rule@ != b.rule@ && b.rule@ != c.rule@ {
                crate::order::lemma_text_lt_transitive(a.rule@, b.rule@, c.rule@);
                crate::order::lemma_text_lt_asymmetric(a.rule@, c.rule@);
            }
        }
        if text_lt(c.from@, a.from@) && text_lt(a.from@, b.from@) {
            crate::order::lemma_text_lt_transitive(c.from@, a.from@, b.from@);
        }
        if text_lt(c.to@, a.to@) && text_lt(a.to@, b.to@) {
            crate::order::lemma_text_lt_transitive(c.to@, a.to@, b.to@);
        }
        crate::order::lemma_text_lt_irreflexive(a.from@);
        crate::order::lemma_text_lt_irreflexive(a.to@);
    }
}


pub open spec fn indices_below(idxs: Seq<usize>, n: int) -> bool {
    forall|k: int| 0 <= k < idxs.len() ==> (#[trigger] idxs[k]) < n
}

proof fn lemma_visible_upto_below(members: Seq<MemberInfo>, target: Option<Seq<char>>, n: int)
    requires
        0 <= n <= members.len() <= usize::MAX,
    ensures
        indices_below(visible_upto(members, target, n), n),
    decreases n,
{
    if n > 0 {
        lemma_visible_upto_below(members, target, n - 1);
        let prev = visible_upto(members, target, n - 1);
        let cur = visible_upto(members, target, n);
        assert forall|k: int| 0 <= k < cur.len() implies (#[trigger] cur[k]) < n by {
            if k < prev.len() {
                assert(cur[k] == prev[k]);
            }
        }
    }
}

proof fn lemma_in_root_below(members: Seq<MemberInfo>, workdir: Seq<char>, n: int)
    requires
        0 <= n <= members.len() <= usize::MAX,
    ensures
        indices_below(in_root_upto(members, workdir, n), n),
    decreases n,
{
    if n > 0 {
        lemma_in_root_below(members, workdir, n - 1);
        let prev = in_root_upto(members, workdir, n - 1);
        let cur = in_root_upto(members, workdir, n);
        assert forall|k: int| 0 <= k < cur.len() implies (#[trigger] cur[k]) < n by {
            if k < prev.len() {
                assert(cur[k] == prev[k]);
            }
        }
    }
}

proof fn lemma_visible_in_root_below(members: Seq<MemberInfo>, visible: Seq<usize>, root: Seq<usize>, n: int, bound: int)
    requires
        0 <= n <= visible.len(),
        indices_below(visible, bound),
    ensures
        indices_below(visible_in_root(members, visible, root, n), bound),
        visible_in_root(members, visible, root, n).len() <= n,
    decreases n,
{
    if n > 0 {
        lemma_visible_in_root_below(members, visible, root, n - 1, bound);
        let prev = visible_in_root(members, visible, root, n - 1);
        let cur = visible_in_root(members, visible, root, n);
        assert forall|k: int| 0 <= k < cur.len() implies (#[trigger] cur[k]) < bound by {
            if k < prev.len() {
                assert(cur[k] == prev[k]);
            }
        }
    }
}

fn root_members(members: &Vec<MemberInfo>, workdir: &str) -> (r: Vec<usize>)
    ensures
        r@ == in_root_upto(members@, workdir@, members@.len() as int),
{
    let mut out: Vec<usize> = Vec::new();
    let mut i: usize = 0;
    while i < members.len()
        invariant
            i <= members@.len(),
            out@ == in_root_upto(members@, workdir@, i as int),
        decreases members@.len() - i,
    {
        if same_path(members[i].dir_abs.as_str(), workdir) || path_starts_with(members[i].dir_abs.as_str(), workdir) {
            out.push(i);
        }
        i = i + 1;
    }
    out
}

fn id_among_exec(members: &Vec<MemberInfo>, idxs: &Vec<usize>, id: &str) -> (r: bool)
    requires
        indices_below(idxs@, members@.len() as int),
    ensures
        r == id_among(members@, idxs@, id@),
{
    let mut k: usize = 0;
    while k < idxs.len()
        invariant
            k <= idxs@.len(),
            indices_below(idxs@, members@.len() as int),
            forall|j: int| 0 <= j < k ==> (#[trigger] members@[idxs@[j] as int]).id@ != id@,
        decreases idxs@.len() - k,
    {
        if str_eq(members[idxs[k]].id.as_str(), id) {
            assert(members@[idxs@[k as int] as int].id@ == id@);
            return true;
        }
        k = k + 1;
    }
    false
}

fn member_by_id_exec(members: &Vec<MemberInfo>, id: &str) -> (r: Option<usize>)
    ensures
        match member_by_id(members@, id@) {
            Some(k) => r matches Some(x) && x as int == k && 0 <= k < members@.len(),
            None => r is None,
        },
{
    let mut i = members.len();
    assert(members@.take(members@.len() as int) =~= members@);
    while i > 0
        invariant
            i <= members@.len(),
            member_by_id(members@, id@) == member_by_id(members@.take(i as int), id@),
        decreases i,
    {
        assert(members@.take(i as int).drop_last() =~= members@.take(i - 1));
        assert(members@.take(i as int).last() == members@[i - 1]);
        if str_eq(members[i - 1].id.as_str(), id) {
            return Some(i - 1);
        }
        i = i - 1;
    }
    None
}

proof fn lemma_member_by_id_bound(members: Seq<MemberInfo>, id: Seq<char>)
    ensures
        member_by_id(members, id) matches Some(k) ==> 0 <= k < members.len(),
    decreases members.len(),
{
    if members.len() > 0 {
        lemma_member_by_id_bound(members.drop_last(), id);
    }
}

pub open spec fn dir_edge_parts(v: Seq<DirEdge>) -> Seq<(Seq<char>, Seq<char>)> {
    v.map_values(|e: DirEdge| edge_parts(e))
}

fn raw_edges_exec(members: &Vec<MemberInfo>, visible: &Vec<usize>, root: &Vec<usize>, nodes: &Vec<MetadataNode>) -> (r: Vec<DirEdge>)
    requires
        indices_below(visible@, members@.len() as int),
        indices_below(root@, members@.len() as int),
    ensures
        dir_edge_parts(r@) == raw_edges(members@, visible@, root@, nodes@),
{
    let mut edges: Vec<DirEdge> = Vec::new();
    let mut n: usize = 0;
    while n < nodes.len()
        invariant
            n <= nodes@.len(),
            indices_below(visible@, members@.len() as int),
            indices_below(root@, members@.len() as int),
            dir_edge_parts(edges@) == raw_edges(members@, visible@, root@, nodes@.take(n as int)),
        decreases nodes@.len() - n,
    {
        proof {
            assert(nodes@.take(n + 1).drop_last() =~= nodes@.take(n as int));
            assert(nodes@.take(n + 1).last() == nodes@[n as int]);
        }
        let node = &nodes[n];
        if id_among_exec(members, visible, node.id.as_str()) {
            match member_by_id_exec(members, node.id.as_str()) {
                Some(f) => {
                    let ghost base = dir_edge_parts(edges@);
                    let mut j: usize = 0;
                    while j < node.deps.len()
                        invariant
                            j <= node.deps@.len(),
                            f < members@.len(),
                            indices_below(root@, members@.len() as int),
                            dir_edge_parts(edges@) == base + dep_edges(members@, root@, members@[f as int].dir@, node.deps@.take(j as int)),
                        decreases node.deps@.len() - j,
                    {
                        proof {
                            assert(node.deps@.take(j + 1).drop_last() =~= node.deps@.take(j as int));
                            assert(node.deps@.take(j + 1).last() == node.deps@[j as int]);
                        }
                        let ghost before = edges@;
                        match member_by_id_exec(members, node.deps[j].as_str()) {
                            Some(t) => {
                                assert(member_by_id(members@, node.deps@[j as int]@) == Some(t as int));
                                if id_among_exec(members, root, members[t].id.as_str()) {
                                    let e = DirEdge { from: members[f].dir.clone(), to: members[t].dir.clone() };
                                    assert(edge_parts(e) == (members@[f as int].dir@, members@[t as int].dir@));
                                    edges.push(e);
                                    assert(dir_edge_parts(edges@) =~= dir_edge_parts(before).push(edge_parts(e)));
                                } else {
                                    assert(dir_edge_parts(edges@) == dir_edge_parts(before));
                                }
                            },
                            None => {
                                assert(member_by_id(members@, node.deps@[j as int]@) is None);
                            },
                        }
                        j = j + 1;
                    }
                    assert(node.deps@.take(node.deps@.len() as int) =~= node.deps@);
                },
                None => {},
            }
        }
        n = n + 1;
    }
    assert(nodes@.take(nodes@.len() as int) =~= nodes@);
    edges
}

proof fn lemma_dedup_pairs_last(s: Seq<(Seq<char>, Seq<char>)>)
    requires
        s.len() > 0,
    ensures
        dedup_pairs(s).len() > 0,
        dedup_pairs(s).last() == s.last(),
    decreases s.len(),
{
    if s.len() > 1 {
        lemma_dedup_pairs_last(s.drop_last());
    }
}

/// The distinct edges in order (a `BTreeSet`'s order).
fn sorted_distinct_edges(edges: Vec<DirEdge>) -> (r: Vec<DirEdge>)
    ensures
        dir_edge_parts(r@) == dedup_pairs(dir_edge_parts(sort_listed(edges@))),
{
    let sorted = sort_list(edges);
    let ghost t = dir_edge_parts(sorted@);
    let mut out: Vec<DirEdge> = Vec::new();
    let mut i: usize = 0;
    while i < sorted.len()
        invariant
            i <= sorted@.len(),
            t == dir_edge_parts(sorted@),
            dir_edge_parts(out@) == dedup_pairs(t.take(i as int)),
        decreases sorted@.len() - i,
    {
        proof {
            assert(t.take(i + 1).drop_last() =~= t.take(i as int));
            assert(t.take(i + 1).last() == edge_parts(sorted@[i as int]));
            if i > 0 {
                lemma_dedup_pairs_last(t.take(i as int));
                assert(t.take(i as int).last() == t.take(i + 1).drop_last().last());
                assert(t[i - 1] == edge_parts(sorted@[i - 1]));
            }
        }
        let keep = if i == 0 {
            true
        } else {
            !(str_eq(sorted[i].from.as_str(), sorted[i - 1].from.as_str()) && str_eq(
                sorted[i].to.as_str(),
                sorted[i - 1].to.as_str(),
            ))
        };
        if keep {
            let e = DirEdge { from: sorted[i].from.clone(), to: sorted[i].to.clone() };
            let ghost before = out@;
            out.push(e);
            assert(dir_edge_parts(out@) =~= dir_edge_parts(before).push(edge_parts(e)));
            proof {
                if i == 0 {
                    assert(t.take(1) =~= seq![t[0]]);
                }
            }
        }
        i = i + 1;
    }
    assert(t.take(sorted@.len() as int) =~= t);
    out
}

proof fn lemma_entry_rules_from_err(from: Seq<char>, tos: Seq<String>)
    requires
        crate::globs::glob_pattern_error(from) is Some,
    ensures
        entry_rules(from, tos) == Err::<Seq<(Seq<char>, Seq<char>)>, Seq<char>>(
            crate::signals::invalid_pattern_message(from, crate::globs::glob_pattern_error(from)->Some_0),
        ),
    decreases tos.len(),
{
    if tos.len() > 0 {
        lemma_entry_rules_from_err(from, tos.drop_last());
    }
}

fn compile_entry(from: &str, tos: &Vec<String>) -> (r: Result<Vec<(String, String)>, String>)
    ensures
        match entry_rules(from@, tos@) {
            Ok(rules) => r matches Ok(v) && v@.map_values(|p: (String, String)| (p.0@, p.1@)) == rules,
            Err(e) => r matches Err(m) && m@ == e,
        },
{
    match crate::globs::pattern_error(from) {
        Some(m) => {
            proof {
                lemma_entry_rules_from_err(from@, tos@);
            }
            let a = concat("invalid forbidden deps pattern '", from);
            let b = concat(a.as_str(), "': ");
            return Err(concat(b.as_str(), m.as_str()));
        },
        None => {},
    }
    let mut out: Vec<(String, String)> = Vec::new();
    let mut j: usize = 0;
    assert(tos@.take(0) =~= Seq::<String>::empty());
    while j < tos.len()
        invariant
            j <= tos@.len(),
            crate::globs::glob_pattern_error(from@) is None,
            entry_rules(from@, tos@.take(j as int)) matches Ok(rules) && out@.map_values(
                |p: (String, String)| (p.0@, p.1@),
            ) == rules,
        decreases tos@.len() - j,
    {
        proof {
            assert(tos@.take(j + 1).drop_last() =~= tos@.take(j as int));
            assert(tos@.take(j + 1).last() == tos@[j as int]);
        }
        match crate::globs::pattern_error(tos[j].as_str()) {
            Some(m) => {
                proof {
                    lemma_entry_rules_err_extends(from@, tos@, j as int + 1);
                }
                let a = concat("invalid forbidden deps pattern '", tos[j].as_str());
                let b = concat(a.as_str(), "': ");
                return Err(concat(b.as_str(), m.as_str()));
            },
            None => {},
        }
        let ghost before = out@;
        out.push((String::from_str(from), tos[j].clone()));
        assert(out@.map_values(|p: (String, String)| (p.0@, p.1@)) =~= before.map_values(
            |p: (String, String)| (p.0@, p.1@),
        ).push((from@, tos@[j as int]@)));
        j = j + 1;
    }
    assert(tos@.take(tos@.len() as int) =~= tos@);
    Ok(out)
}

proof fn lemma_entry_rules_err_extends(from: Seq<char>, tos: Seq<String>, j: int)
    requires
        0 <= j <= tos.len(),
        entry_rules(from, tos.take(j)) is Err,
    ensures
        entry_rules(from, tos) == entry_rules(from, tos.take(j)),
    decreases tos.len() - j,
{
    if j < tos.len() {
        assert(tos.take(j + 1).drop_last() =~= tos.take(j));
        lemma_entry_rules_err_extends(from, tos, j + 1);
    } else {
        assert(tos.take(j) =~= tos);
    }
}

proof fn lemma_compiled_err_extends(forbidden: Seq<(String, Vec<String>)>, i: int, n: int)
    requires
        0 <= i <= n,
        compiled_rules(forbidden, i) is Err,
    ensures
        compiled_rules(forbidden, n) == compiled_rules(forbidden, i),
    decreases n - i,
{
    if i < n {
        lemma_compiled_err_extends(forbidden, i, n - 1);
    }
}

proof fn lemma_entry_rules_valid(from: Seq<char>, tos: Seq<String>)
    ensures
        entry_rules(from, tos) matches Ok(rules) ==> rules_valid(rules),
    decreases tos.len(),
{
    if tos.len() > 0 {
        lemma_entry_rules_valid(from, tos.drop_last());
        match entry_rules(from, tos.drop_last()) {
            Ok(prev) => {
                if entry_rules(from, tos) is Ok {
                    let rules = entry_rules(from, tos)->Ok_0;
                    assert forall|k: int| 0 <= k < rules.len() implies crate::globs::glob_pattern_error((#[trigger] rules[k]).0) is None
                        && crate::globs::glob_pattern_error(rules[k].1) is None by {
                        if k < prev.len() {
                            assert(rules[k] == prev[k]);
                        }
                        lemma_entry_rules_from_valid(from, tos);
                    }
                }
            },
            Err(_) => {},
        }
    }
}

proof fn lemma_entry_rules_from_valid(from: Seq<char>, tos: Seq<String>)
    ensures
        entry_rules(from, tos) is Ok ==> crate::globs::glob_pattern_error(from) is None,
    decreases tos.len(),
{
    if tos.len() > 0 {
        lemma_entry_rules_from_valid(from, tos.drop_last());
    }
}

/// The rules of the forbidden entries, in entry order.
pub fn compile_rules(forbidden: &Vec<(String, Vec<String>)>) -> (r: Result<Vec<(String, String)>, String>)
    ensures
        match compiled_rules(forbidden@, forbidden@.len() as int) {
            Ok(rules) => r matches Ok(v) && v@.map_values(|p: (String, String)| (p.0@, p.1@)) == rules && rules_valid(rules),
            Err(e) => r matches Err(m) && m@ == e,
        },
{
    let mut out: Vec<(String, String)> = Vec::new();
    let mut i: usize = 0;
    while i < forbidden.len()
        invariant
            i <= forbidden@.len(),
            compiled_rules(forbidden@, i as int) matches Ok(rules) && out@.map_values(
                |p: (String, String)| (p.0@, p.1@),
            ) == rules && rules_valid(rules),
        decreases forbidden@.len() - i,
    {
        match compile_entry(forbidden[i].0.as_str(), &forbidden[i].1) {
            Ok(more) => {
                proof {
                    lemma_entry_rules_valid(forbidden@[i as int].0@, forbidden@[i as int].1@);
                }
                let ghost before = out@;
                let mut m = more;
                out.append(&mut m);
                proof {
                    let f = |p: (String, String)| (p.0@, p.1@);
                    assert(out@.map_values(f) =~= before.map_values(f) + more@.map_values(f));
                    let rules = compiled_rules(forbidden@, i + 1)->Ok_0;
                    let prev = compiled_rules(forbidden@, i as int)->Ok_0;
                    let added = entry_rules(forbidden@[i as int].0@, forbidden@[i as int].1@)->Ok_0;
                    assert(rules == prev + added);
                    assert forall|k: int| 0 <= k < rules.len() implies crate::globs::glob_pattern_error((#[trigger] rules[k]).0) is None
                        && crate::globs::glob_pattern_error(rules[k].1) is None by {
                        if k < prev.len() {
                            assert(rules[k] == prev[k]);
                        } else {
                            assert(rules[k] == added[k - prev.len()]);
                        }
                    }
                }
            },
            Err(e) => {
                proof {
                    lemma_compiled_err_extends(forbidden@, i as int + 1, forbidden@.len() as int);
                }
                return Err(e);
            },
        }
        i = i + 1;
    }
    Ok(out)
}


pub open spec fn rule_views(v: Seq<(String, String)>) -> Seq<(Seq<char>, Seq<char>)> {
    v.map_values(|p: (String, String)| (p.0@, p.1@))
}

pub open spec fn deps_offender_parts(v: Seq<DepsOffender>) -> Seq<(Seq<char>, Seq<char>, Seq<char>)> {
    v.map_values(|o: DepsOffender| offender_parts(o))
}

fn edge_offenders_exec(edges: &Vec<DirEdge>, rules: &Vec<(String, String)>) -> (r: Vec<DepsOffender>)
    requires
        rules_valid(rule_views(rules@)),
    ensures
        deps_offender_parts(r@) == edge_offenders(dir_edge_parts(edges@), rule_views(rules@), edges@.len() as int),
        forall|k: int| 0 <= k < r@.len() ==> (#[trigger] r@[k]).level == Level::Fail,
{
    let ghost ev = dir_edge_parts(edges@);
    let ghost rv = rule_views(rules@);
    let mut out: Vec<DepsOffender> = Vec::new();
    let mut i: usize = 0;
    while i < edges.len()
        invariant
            i <= edges@.len(),
            ev == dir_edge_parts(edges@),
            rv == rule_views(rules@),
            rules_valid(rv),
            deps_offender_parts(out@) == edge_offenders(ev, rv, i as int),
            forall|k: int| 0 <= k < out@.len() ==> (#[trigger] out@[k]).level == Level::Fail,
        decreases edges@.len() - i,
    {
        let e = &edges[i];
        assert(ev[i as int] == (e.from@, e.to@));
        let ghost base = deps_offender_parts(out@);
        let mut m: usize = 0;
        while m < rules.len()
            invariant
                m <= rules@.len(),
                i < edges@.len(),
                ev == dir_edge_parts(edges@),
                ev[i as int] == (e.from@, e.to@),
                rv == rule_views(rules@),
                rules_valid(rv),
                deps_offender_parts(out@) == base + rule_offenders(ev[i as int], rv, m as int),
                forall|k: int| 0 <= k < out@.len() ==> (#[trigger] out@[k]).level == Level::Fail,
            decreases rules@.len() - m,
        {
            let rule = &rules[m];
            assert(rv[m as int] == (rule.0@, rule.1@));
            if crate::globs::pattern_matches(rule.0.as_str(), e.from.as_str()) && crate::globs::pattern_matches(
                rule.1.as_str(),
                e.to.as_str(),
            ) {
                let text = concat(concat(rule.0.as_str(), " -> ").as_str(), rule.1.as_str());
                let o = DepsOffender { from: e.from.clone(), to: e.to.clone(), rule: text, level: Level::Fail };
                let ghost before = out@;
                out.push(o);
                assert(deps_offender_parts(out@) =~= deps_offender_parts(before).push(offender_parts(o)));
            }
            m = m + 1;
        }
        i = i + 1;
    }
    out
}

/// What `analyze_deps` finds once the scope's members, edges and rules are
/// known: edges are the distinct edges listed in order; offenders are every
/// edge and rule whose patterns match it, listed by source, target and rule.
pub open spec fn deps_found(
    raw: Seq<(Seq<char>, Seq<char>)>,
    rules: Seq<(Seq<char>, Seq<char>)>,
    visible_count: nat,
    out: DepsAnalysis,
) -> bool {
    exists|u: Seq<DirEdge>, w: Seq<DepsOffender>| #![trigger dir_edge_parts(u), deps_offender_parts(w)]
        dir_edge_parts(u) == raw && {
            let edges = dedup_pairs(dir_edge_parts(sort_listed(u)));
            &&& out.edge_count == edges.len()
            &&& deps_offender_parts(w) == edge_offenders(edges, rules, edges.len() as int)
            &&& out.offenders@ == sort_listed(w)
            &&& out.violation_count == w.len()
            &&& out.crate_count == visible_count
        }
}

/// The deps signal of a workspace: the members that the scope sees within
/// the working directory (their number is the crate count), the distinct
/// edges from them to members of the working directory (their number is
/// the edge count), and the edges that a forbidden rule matches. Members
/// come with canonical directories; `scope_target` is the canonical path a
/// path scope names, `workdir` the canonical working directory.
pub fn analyze_deps(
    members: &Vec<MemberInfo>,
    nodes: &Option<Vec<MetadataNode>>,
    scope_package: Option<&str>,
    scope_target: Option<&str>,
    workdir: &str,
    forbidden: &Vec<(String, Vec<String>)>,
) -> (r: Result<DepsAnalysis, String>)
    ensures
        match spec_visible(members@, opt_view(scope_package), opt_view(scope_target)) {
            Err(e) => r matches Err(m) && m@ == e,
            Ok(visible) => {
                let root = in_root_upto(members@, workdir@, members@.len() as int);
                let seen = visible_in_root(members@, visible, root, visible.len() as int);
                let raw = match nodes {
                    Some(ns) => raw_edges(members@, seen, root, ns@),
                    None => seq![],
                };
                match compiled_rules(forbidden@, forbidden@.len() as int) {
                    Err(e) => r matches Err(m) && m@ == e,
                    Ok(rules) => r matches Ok(out) && deps_found(raw, rules, seen.len(), out)
                        && out.crate_count == seen.len() && out.edge_count == raw.to_set().len()
                        && forall|k: int|
                        0 <= k < out.offenders@.len() ==> raw.contains(
                            ((#[trigger] out.offenders@[k]).from@, out.offenders@[k].to@),
                        ) && member_edge(members@, seen, root, (out.offenders@[k].from@, out.offenders@[k].to@)),
                }
            },
        },
        r matches Ok(out) ==> out.violation_count == out.offenders@.len() && crate::order::is_listed(out.offenders@)
            && forall|k: int|
            0 <= k < out.offenders@.len() ==> (#[trigger] out.offenders@[k]).level == Level::Fail,
{
    let ncount = members.len();
    let visible = match visible_members(members, scope_package, scope_target) {
        Ok(v) => v,
        Err(e) => return Err(e),
    };
    proof {
        lemma_visible_upto_below(members@, opt_view(scope_target), members@.len() as int);
        lemma_first_member_for(members@, match scope_package {
            Some(p) => p@,
            None => seq![],
        });
    }
    assert(indices_below(visible@, members@.len() as int));
    let root = root_members(members, workdir);
    proof {
        lemma_in_root_below(members@, workdir@, members@.len() as int);
    }
    let mut seen: Vec<usize> = Vec::new();
    let mut i: usize = 0;
    while i < visible.len()
        invariant
            i <= visible@.len(),
            indices_below(visible@, members@.len() as int),
            indices_below(root@, members@.len() as int),
            seen@ == visible_in_root(members@, visible@, root@, i as int),
        decreases visible@.len() - i,
    {
        if id_among_exec(members, &root, members[visible[i]].id.as_str()) {
            seen.push(visible[i]);
        }
        i = i + 1;
    }
    proof {
        lemma_visible_in_root_below(members@, visible@, root@, visible@.len() as int, members@.len() as int);
    }
    let raw = match nodes {
        Some(ns) => raw_edges_exec(members, &seen, &root, ns),
        None => Vec::new(),
    };
    let ghost raw_view = dir_edge_parts(raw@);
    assert(raw_view == match nodes {
        Some(ns) => raw_edges(members@, seen@, root@, ns@),
        None => seq![],
    });
    let rules = match compile_rules(forbidden) {
        Ok(rs) => rs,
        Err(e) => return Err(e),
    };
    let ghost u = raw@;
    let edges = sorted_distinct_edges(raw);
    let offenders = edge_offenders_exec(&edges, &rules);
    let ghost w = offenders@;
    let violation_count = offenders.len() as u64;
    let listed = sort_list(offenders);
    let out = DepsAnalysis {
        crate_count: seen.len() as u64,
        edge_count: edges.len() as u64,
        violation_count,
        offenders: listed,
    };
    assert(deps_found(raw_view, rule_views(rules@), seen@.len(), out)) by {
        assert(dir_edge_parts(u) == raw_view);
    }
    proof {
        broadcast use vstd::seq_lib::group_to_multiset_ensures;

        crate::order::lemma_sort_listed(w);
        assert forall|k: int| 0 <= k < out.offenders@.len() implies (#[trigger] out.offenders@[k]).level == Level::Fail by {
            let o = out.offenders@[k];
            assert(out.offenders@.contains(o));
            assert(out.offenders@.to_multiset().count(o) > 0);
            assert(w.contains(o));
        }
        law_deps_counts_distinct_edges(raw_view, rule_views(rules@), seen@.len(), out);
        if let Some(ns) = nodes {
            lemma_raw_edges_members(members@, seen@, root@, ns@);
        }
        assert forall|k: int| 0 <= k < out.offenders@.len() implies member_edge(
            members@,
            seen@,
            root@,
            ((#[trigger] out.offenders@[k]).from@, out.offenders@[k].to@),
        ) by {
            let e = (out.offenders@[k].from@, out.offenders@[k].to@);
            assert(raw_view.contains(e));
            let x = choose|x: int| 0 <= x < raw_view.len() && raw_view[x] == e;
        }
    }
    Ok(out)
}

/// `a` stands no later than `b`: by source, then target, in code-point
/// order.
pub open spec fn pair_le(a: (Seq<char>, Seq<char>), b: (Seq<char>, Seq<char>)) -> bool {
    text_lt(a.0, b.0) || (a.0 == b.0 && !text_lt(b.1, a.1))
}

proof fn lemma_pair_antisymmetric(a: (Seq<char>, Seq<char>), b: (Seq<char>, Seq<char>))
    requires
        pair_le(a, b),
        pair_le(b, a),
    ensures
        a == b,
{
    if text_lt(a.0, b.0) {
        crate::order::lemma_text_lt_asymmetric(a.0, b.0);
        crate::order::lemma_text_lt_irreflexive(a.0);
    } else if text_lt(b.0, a.0) {
        crate::order::lemma_text_lt_irreflexive(b.0);
    } else {
        crate::order::lemma_text_total(a.1, b.1);
    }
}

proof fn lemma_dedup_pairs_shape(s: Seq<(Seq<char>, Seq<char>)>)
    ensures
        forall|x: (Seq<char>, Seq<char>)| dedup_pairs(s).contains(x) <==> s.contains(x),
        s.len() > 0 ==> dedup_pairs(s).len() > 0 && dedup_pairs(s).last() == s.last(),
    decreases s.len(),
{
    if s.len() > 1 {
        let t = s.drop_last();
        lemma_dedup_pairs_shape(t);
        assert forall|x: (Seq<char>, Seq<char>)| dedup_pairs(s).contains(x) <==> s.contains(x) by {
            if s.contains(x) {
                let d = dedup_pairs(t);
                let i = choose|i: int| 0 <= i < s.len() && s[i] == x;
                if i == s.len() - 1 && s.last() != t.last() {
                    assert(dedup_pairs(s)[d.len() as int] == x);
                } else {
                    if i < s.len() - 1 {
                        assert(t[i] == x);
                    } else {
                        assert(t[t.len() - 1] == x);
                    }
                    assert(t.contains(x));
                    assert(d.contains(x));
                    let k = choose|k: int| 0 <= k < d.len() && d[k] == x;
                    assert(dedup_pairs(s)[k] == x);
                }
            }
            if dedup_pairs(s).contains(x) {
                let d = dedup_pairs(t);
                if s.last() != t.last() && x == s.last() {
                    assert(s[s.len() - 1] == x);
                } else {
                    let i = choose|i: int| 0 <= i < dedup_pairs(s).len() && dedup_pairs(s)[i] == x;
                    if s.last() != t.last() {
                        assert(i < d.len());
                        assert(d[i] == x);
                    }
                    assert(d.contains(x));
                    assert(t.contains(x));
                    let k = choose|k: int| 0 <= k < t.len() && t[k] == x;
                    assert(s[k] == x);
                }
            }
        }
    }
}

/// Removing adjacent repeats from a listing in source and target order
/// leaves each edge once.
proof fn lemma_dedup_pairs_distinct(s: Seq<(Seq<char>, Seq<char>)>)
    requires
        forall|i: int, j: int| 0 <= i < j < s.len() ==> pair_le(#[trigger] s[i], #[trigger] s[j]),
    ensures
        dedup_pairs(s).no_duplicates(),
    decreases s.len(),
{
    if s.len() > 1 {
        let t = s.drop_last();
        assert forall|i: int, j: int| 0 <= i < j < t.len() implies pair_le(#[trigger] t[i], #[trigger] t[j]) by {
            assert(t[i] == s[i] && t[j] == s[j]);
        }
        lemma_dedup_pairs_distinct(t);
        lemma_dedup_pairs_shape(t);
        if s.last() != t.last() {
            let d = dedup_pairs(t);
            let n = s.len() - 1;
            if d.contains(s.last()) {
                assert(t.contains(s.last()));
                let i = choose|i: int| 0 <= i < t.len() && t[i] == s.last();
                assert(s[i] == s[n]);
                assert(t.last() == s[n - 1]);
                assert(i != n - 1);
                assert(pair_le(s[i], s[n - 1]));
                assert(pair_le(s[n - 1], s[n]));
                lemma_pair_antisymmetric(s[n - 1], s[n]);
            }
            assert forall|a: int, b: int| 0 <= a < b < dedup_pairs(s).len() implies dedup_pairs(s)[a] != dedup_pairs(
                s,
            )[b] by {
                if b == d.len() {
                    assert(d[a] == dedup_pairs(s)[a]);
                    assert(d.contains(d[a]));
                } else {
                    assert(d[a] == dedup_pairs(s)[a] && d[b] == dedup_pairs(s)[b]);
                }
            }
        }
    }
}

proof fn lemma_rule_offenders_edge(e: (Seq<char>, Seq<char>), rules: Seq<(Seq<char>, Seq<char>)>, m: int)
    ensures
        forall|k: int|
            0 <= k < rule_offenders(e, rules, m).len() ==> (#[trigger] rule_offenders(e, rules, m)[k]).0 == e.0
                && rule_offenders(e, rules, m)[k].1 == e.1,
    decreases m,
{
    if m > 0 {
        lemma_rule_offenders_edge(e, rules, m - 1);
        let prev = rule_offenders(e, rules, m - 1);
        assert forall|k: int| 0 <= k < rule_offenders(e, rules, m).len() implies (#[trigger] rule_offenders(
            e,
            rules,
            m,
        )[k]).0 == e.0 && rule_offenders(e, rules, m)[k].1 == e.1 by {
            if k < prev.len() {
                assert(rule_offenders(e, rules, m)[k] == prev[k]);
            }
        }
    }
}

proof fn lemma_edge_offenders_edges(edges: Seq<(Seq<char>, Seq<char>)>, rules: Seq<(Seq<char>, Seq<char>)>, n: int)
    requires
        n <= edges.len(),
    ensures
        forall|k: int|
            0 <= k < edge_offenders(edges, rules, n).len() ==> edges.contains(
                (#[trigger] edge_offenders(edges, rules, n)[k].0, edge_offenders(edges, rules, n)[k].1),
            ),
    decreases n,
{
    if n > 0 {
        lemma_edge_offenders_edges(edges, rules, n - 1);
        lemma_rule_offenders_edge(edges[n - 1], rules, rules.len() as int);
        let prev = edge_offenders(edges, rules, n - 1);
        let more = rule_offenders(edges[n - 1], rules, rules.len() as int);
        assert forall|k: int| 0 <= k < edge_offenders(edges, rules, n).len() implies edges.contains(
            (#[trigger] edge_offenders(edges, rules, n)[k].0, edge_offenders(edges, rules, n)[k].1),
        ) by {
            if k < prev.len() {
                assert(edge_offenders(edges, rules, n)[k] == prev[k]);
            } else {
                assert(edge_offenders(edges, rules, n)[k] == more[k - prev.len()]);
                assert(edges[n - 1] == (more[k - prev.len()].0, more[k - prev.len()].1));
            }
        }
    }
}

/// What the deps analysis reports, in terms of the edges it read: the edge
/// count is the number of distinct edges, and every offender is one of the
/// edges.
pub proof fn law_deps_counts_distinct_edges(
    raw: Seq<(Seq<char>, Seq<char>)>,
    rules: Seq<(Seq<char>, Seq<char>)>,
    visible_count: nat,
    out: DepsAnalysis,
)
    requires
        deps_found(raw, rules, visible_count, out),
    ensures
        out.edge_count == raw.to_set().len(),
        out.crate_count == visible_count,
        out.violation_count == out.offenders@.len(),
        forall|k: int|
            0 <= k < out.offenders@.len() ==> raw.contains(
                ((#[trigger] out.offenders@[k]).from@, out.offenders@[k].to@),
            ),
{
    broadcast use vstd::seq_lib::group_to_multiset_ensures;

    let (u, w) = choose|u: Seq<DirEdge>, w: Seq<DepsOffender>| #![trigger dir_edge_parts(u), deps_offender_parts(w)]
        dir_edge_parts(u) == raw && {
            let edges = dedup_pairs(dir_edge_parts(sort_listed(u)));
            &&& out.edge_count == edges.len()
            &&& deps_offender_parts(w) == edge_offenders(edges, rules, edges.len() as int)
            &&& out.offenders@ == sort_listed(w)
            &&& out.violation_count == w.len()
            &&& out.crate_count == visible_count
        };
    let sorted = sort_listed(u);
    let ps = dir_edge_parts(sorted);
    let edges = dedup_pairs(ps);
    crate::order::lemma_sort_listed(u);
    crate::order::lemma_sort_listed(w);
    assert forall|i: int, j: int| 0 <= i < j < ps.len() implies pair_le(#[trigger] ps[i], #[trigger] ps[j]) by {
        assert(sorted[i].goes_before(sorted[j]));
    }
    lemma_dedup_pairs_distinct(ps);
    lemma_dedup_pairs_shape(ps);
    assert forall|x: (Seq<char>, Seq<char>)| ps.contains(x) <==> raw.contains(x) by {
        if ps.contains(x) {
            let i = choose|i: int| 0 <= i < ps.len() && ps[i] == x;
            assert(sorted.contains(sorted[i]));
            assert(sorted.to_multiset().count(sorted[i]) > 0);
            assert(u.contains(sorted[i]));
            let j = choose|j: int| 0 <= j < u.len() && u[j] == sorted[i];
            assert(raw[j] == x);
        }
        if raw.contains(x) {
            let j = choose|j: int| 0 <= j < raw.len() && raw[j] == x;
            assert(u.contains(u[j]));
            assert(u.to_multiset().count(u[j]) > 0);
            assert(sorted.contains(u[j]));
            let i = choose|i: int| 0 <= i < sorted.len() && sorted[i] == u[j];
            assert(ps[i] == x);
        }
    }
    assert(edges.to_set() =~= raw.to_set());
    edges.unique_seq_to_set();
    lemma_edge_offenders_edges(edges, rules, edges.len() as int);
    assert forall|k: int| 0 <= k < out.offenders@.len() implies raw.contains(
        ((#[trigger] out.offenders@[k]).from@, out.offenders@[k].to@),
    ) by {
        let o = out.offenders@[k];
        assert(out.offenders@.contains(o));
        assert(out.offenders@.to_multiset().count(o) > 0);
        assert(w.contains(o));
        let t = choose|t: int| 0 <= t < w.len() && w[t] == o;
        let eo = edge_offenders(edges, rules, edges.len() as int);
        assert(deps_offender_parts(w)[t] == offender_parts(o));
        assert(eo[t] == (o.from@, o.to@, o.rule@));
        assert(edges.contains((eo[t].0, eo[t].1)));
        assert(edges.to_set().contains((o.from@, o.to@)));
    }
}

/// `e` runs from the directory of a member whose id is among `from_ids`
/// to the directory of a member whose id is among `to_ids`.
pub open spec fn member_edge(
    members: Seq<MemberInfo>,
    from_ids: Seq<usize>,
    to_ids: Seq<usize>,
    e: (Seq<char>, Seq<char>),
) -> bool {
    exists|f: int, t: int|
        #![trigger members[f], members[t]]
        0 <= f < members.len() && 0 <= t < members.len() && e.0 == members[f].dir@ && e.1 == members[t].dir@
            && id_among(members, from_ids, members[f].id@) && id_among(members, to_ids, members[t].id@)
}

proof fn lemma_member_by_id_names(members: Seq<MemberInfo>, id: Seq<char>)
    ensures
        member_by_id(members, id) matches Some(k) ==> 0 <= k < members.len() && members[k].id@ == id,
    decreases members.len(),
{
    if members.len() > 0 {
        lemma_member_by_id_names(members.drop_last(), id);
        if let Some(k) = member_by_id(members.drop_last(), id) {
            assert(members.drop_last()[k] == members[k]);
        }
    }
}

proof fn lemma_dep_edges_members(members: Seq<MemberInfo>, root: Seq<usize>, from: Seq<char>, deps: Seq<String>)
    ensures
        forall|k: int|
            0 <= k < dep_edges(members, root, from, deps).len() ==> (#[trigger] dep_edges(members, root, from, deps)[k]).0
                == from && exists|t: int|
                #![trigger members[t]]
                0 <= t < members.len() && dep_edges(members, root, from, deps)[k].1 == members[t].dir@ && id_among(
                    members,
                    root,
                    members[t].id@,
                ),
    decreases deps.len(),
{
    if deps.len() > 0 {
        lemma_dep_edges_members(members, root, from, deps.drop_last());
        lemma_member_by_id_names(members, deps.last()@);
        let prev = dep_edges(members, root, from, deps.drop_last());
        assert forall|k: int| 0 <= k < dep_edges(members, root, from, deps).len() implies (#[trigger] dep_edges(
            members,
            root,
            from,
            deps,
        )[k]).0 == from && exists|t: int|
            #![trigger members[t]]
            0 <= t < members.len() && dep_edges(members, root, from, deps)[k].1 == members[t].dir@ && id_among(
                members,
                root,
                members[t].id@,
            ) by {
            if k < prev.len() {
                assert(dep_edges(members, root, from, deps)[k] == prev[k]);
            } else {
                let t = member_by_id(members, deps.last()@)->0;
                assert(dep_edges(members, root, from, deps)[k].1 == members[t].dir@);
            }
        }
    }
}

/// Every edge the analysis reads runs from a member it sees to a member
/// of the working directory.
proof fn lemma_raw_edges_members(members: Seq<MemberInfo>, visible: Seq<usize>, root: Seq<usize>, nodes: Seq<MetadataNode>)
    ensures
        forall|k: int|
            0 <= k < raw_edges(members, visible, root, nodes).len() ==> member_edge(
                members,
                visible,
                root,
                #[trigger] raw_edges(members, visible, root, nodes)[k],
            ),
    decreases nodes.len(),
{
    if nodes.len() > 0 {
        let node = nodes.last();
        let prev = raw_edges(members, visible, root, nodes.drop_last());
        lemma_raw_edges_members(members, visible, root, nodes.drop_last());
        lemma_member_by_id_names(members, node.id@);
        if id_among(members, visible, node.id@) {
            if let Some(f) = member_by_id(members, node.id@) {
                let more = dep_edges(members, root, members[f].dir@, node.deps@);
                lemma_dep_edges_members(members, root, members[f].dir@, node.deps@);
                assert forall|k: int| 0 <= k < raw_edges(members, visible, root, nodes).len() implies member_edge(
                    members,
                    visible,
                    root,
                    #[trigger] raw_edges(members, visible, root, nodes)[k],
                ) by {
                    if k < prev.len() {
                        assert(raw_edges(members, visible, root, nodes)[k] == prev[k]);
                    } else {
                        let e = more[k - prev.len()];
                        assert(raw_edges(members, visible, root, nodes)[k] == e);
                        let t = choose|t: int|
                            #![trigger members[t]]
                            0 <= t < members.len() && e.1 == members[t].dir@ && id_among(members, root, members[t].id@);
                        assert(members[f].id@ == node.id@);
                        assert(e.0 == members[f].dir@);
                    }
                }
            }
        }
    }
}

} // verus!
