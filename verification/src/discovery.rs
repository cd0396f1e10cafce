//! Which directories of a repository are Rust targets, and how the
//! repository is laid out.
use crate::text::{str_eq, string_views};
use vstd::prelude::*;

verus! {

broadcast use vstd::string::group_string_axioms;

/// Whether `toml::from_str::<toml::Value>` accepts `content` and the value
/// it gives has the top-level key `key`.
pub uninterp spec fn toml_has_top_level_key(content: Seq<char>, key: Seq<char>) -> bool;

/// Parses `content` with `toml::from_str::<toml::Value>` and looks `key` up
/// with `toml::Value::get`. Trusted: the result is the named function of the
/// two texts; text that does not parse has no key.
#[verifier::external_body]
fn manifest_has_table(content: &str, key: &str) -> (r: bool)
    ensures
        r == toml_has_top_level_key(content@, key@),
{
    match toml::from_str::<toml::Value>(content) {
        Ok(value) => value.get(key).is_some(),
        Err(_) => false,
    }
}

/// How a repository's Rust crates are organized.
#[derive(Clone, Copy, Debug, PartialEq, Eq, Structural)]
pub enum ProjectLayout {
    /// One crate, at the repository root.
    SingleRoot,
    /// A root manifest declares a Cargo workspace.
    ControlledMonorepo,
    /// Several crates and no root workspace.
    UncontrolledMonorepo,
}

/// A directory that holds a `Cargo.toml`, and whether it is analyzed.
pub struct DiscoveredRoot {
    pub path: String,
    pub analyzable: bool,
}

/// The roots found in a repository and its layout.
pub struct ProjectDiscovery {
    pub layout: ProjectLayout,
    pub roots: Vec<DiscoveredRoot>,
}

/// The layout: a root workspace controls the repository; one crate at `.`
/// is a single root; anything else is an uncontrolled monorepo.
pub open spec fn spec_layout(roots: Seq<Seq<char>>, root_is_workspace: bool) -> ProjectLayout {
    if root_is_workspace {
        ProjectLayout::ControlledMonorepo
    } else if roots.len() == 1 && roots[0] == "."@ {
        ProjectLayout::SingleRoot
    } else {
        ProjectLayout::UncontrolledMonorepo
    }
}

/// Every root but `.` is analyzable; `.` is when its manifest has a package.
pub open spec fn root_analyzable(path: Seq<char>, root_has_package: bool) -> bool {
    path != "."@ || root_has_package
}

/// Whether a directory below which a manifest was found lies in build
/// output or installed packages.
pub open spec fn spec_excluded_root(parts: Seq<Seq<char>>) -> bool {
    parts.contains("target"@) || parts.contains("node_modules"@)
}

pub fn is_excluded_root(parts: &Vec<String>) -> (r: bool)
    ensures
        r == spec_excluded_root(string_views(parts@)),
{
    let mut i: usize = 0;
    while i < parts.len()
        invariant
            i <= parts@.len(),
            forall|k: int| 0 <= k < i ==> (#[trigger] parts@[k])@ != "target"@ && parts@[k]@ != "node_modules"@,
        decreases parts@.len() - i,
    {
        if str_eq(parts[i].as_str(), "target") || str_eq(parts[i].as_str(), "node_modules") {
            assert(string_views(parts@)[i as int] == parts@[i as int]@);
            return true;
        }
        i = i + 1;
    }
    proof {
        if string_views(parts@).contains("target"@) {
            let k = choose|k: int| 0 <= k < string_views(parts@).len() && string_views(parts@)[k] == "target"@;
            assert(parts@[k]@ == "target"@);
        }
        if string_views(parts@).contains("node_modules"@) {
            let k = choose|k: int| 0 <= k < string_views(parts@).len() && string_views(parts@)[k] == "node_modules"@;
            assert(parts@[k]@ == "node_modules"@);
        }
    }
    false
}

/// The discovery of a repository whose manifests were found at `roots`,
/// given what its root manifest declares.
pub fn project_discovery(roots: &Vec<String>, root_is_workspace: bool, root_has_package: bool) -> (r: ProjectDiscovery)
    ensures
        r.layout == spec_layout(string_views(roots@), root_is_workspace),
        r.roots@.len() == roots@.len(),
        forall|k: int| 0 <= k < roots@.len() ==> (#[trigger] r.roots@[k]).path@ == roots@[k]@ && r.roots@[k].analyzable
            == root_analyzable(roots@[k]@, root_has_package),
{
    let layout = if root_is_workspace {
        ProjectLayout::ControlledMonorepo
    } else if roots.len() == 1 && str_eq(roots[0].as_str(), ".") {
        ProjectLayout::SingleRoot
    } else {
        ProjectLayout::UncontrolledMonorepo
    };
    proof {
        if roots@.len() == 1 {
            assert(string_views(roots@)[0] == roots@[0]@);
        }
    }
    let mut out: Vec<DiscoveredRoot> = Vec::new();
    let mut i: usize = 0;
    while i < roots.len()
        invariant
            i <= roots@.len(),
            out@.len() == i,
            forall|k: int| 0 <= k < i ==> (#[trigger] out@[k]).path@ == roots@[k]@ && out@[k].analyzable
                == root_analyzable(roots@[k]@, root_has_package),
        decreases roots@.len() - i,
    {
        let analyzable = !str_eq(roots[i].as_str(), ".") || root_has_package;
        out.push(DiscoveredRoot { path: roots[i].clone(), analyzable });
        i = i + 1;
    }
    ProjectDiscovery { layout, roots: out }
}

/// The paths of the analyzable roots among `roots`, in order.
pub open spec fn analyzable_paths(roots: Seq<DiscoveredRoot>) -> Seq<Seq<char>>
    decreases roots.len(),
{
    if roots.len() == 0 {
        seq![]
    } else if roots.last().analyzable {
        analyzable_paths(roots.drop_last()).push(roots.last().path@)
    } else {
        analyzable_paths(roots.drop_last())
    }
}

impl ProjectDiscovery {
    pub fn analyzable_roots(&self) -> (r: Vec<String>)
        ensures
            string_views(r@) == analyzable_paths(self.roots@),
    {
        let mut out: Vec<String> = Vec::new();
        let mut i: usize = 0;
        while i < self.roots.len()
            invariant
                i <= self.roots@.len(),
                string_views(out@) == analyzable_paths(self.roots@.take(i as int)),
            decreases self.roots@.len() - i,
        {
            proof {
                assert(self.roots@.take(i + 1).drop_last() =~= self.roots@.take(i as int));
            }
            if self.roots[i].analyzable {
                let p = self.roots[i].path.clone();
                let ghost before = out@;
                out.push(p);
                assert(string_views(out@) =~= string_views(before).push(p@));
            }
            i = i + 1;
        }
        assert(self.roots@.take(self.roots@.len() as int) =~= self.roots@);
        out
    }
}

/// Whether the root manifest, if there is one, has the top-level table.
pub open spec fn root_manifest_has(root_manifest: Option<Seq<char>>, table: Seq<char>) -> bool {
    match root_manifest {
        Some(content) => toml_has_top_level_key(content, table),
        None => false,
    }
}

pub open spec fn opt_view(v: Option<&str>) -> Option<Seq<char>> {
    match v {
        Some(s) => Some(s@),
        None => None,
    }
}

/// The discovery of a repository whose manifests were found at `roots`
/// (excluded directories already left out) and whose root `Cargo.toml`
/// holds `root_manifest`, if it exists.
pub fn discover_project_roots(roots: &Vec<String>, root_manifest: Option<&str>) -> (r: ProjectDiscovery)
    ensures
        r.layout == spec_layout(string_views(roots@), root_manifest_has(opt_view(root_manifest), "workspace"@)),
        r.roots@.len() == roots@.len(),
        forall|k: int| 0 <= k < roots@.len() ==> (#[trigger] r.roots@[k]).path@ == roots@[k]@ && r.roots@[k].analyzable
            == root_analyzable(roots@[k]@, root_manifest_has(opt_view(root_manifest), "package"@)),
{
    let (controlled, root_analyzable) = match root_manifest {
        Some(content) => (manifest_has_table(content, "workspace"), manifest_has_table(content, "package")),
        None => (false, false),
    };
    project_discovery(roots, controlled, root_analyzable)
}

/// The analyzable Rust roots of a repository (see `discover_project_roots`).
pub fn discover_roots(roots: &Vec<String>, root_manifest: Option<&str>) -> (r: Vec<String>)
    ensures
        ({
            let has_package = root_manifest_has(opt_view(root_manifest), "package"@);
            &&& string_views(r@).len() <= roots@.len()
            &&& forall|p: Seq<char>| string_views(r@).contains(p) ==> string_views(roots@).contains(p)
                && root_analyzable(p, has_package)
            &&& forall|k: int| 0 <= k < roots@.len() && root_analyzable(string_views(roots@)[k], has_package) ==> string_views(r@).contains(
                #[trigger] string_views(roots@)[k])
        }),
        string_views(r@) == roots_kept(string_views(roots@), root_manifest_has(opt_view(root_manifest), "package"@)),
{
    let d = discover_project_roots(roots, root_manifest);
    let r = d.analyzable_roots();
    proof {
        let has_package = root_manifest_has(opt_view(root_manifest), "package"@);
        lemma_analyzable_paths(d.roots@, roots@, has_package, roots@.len() as int);
        assert(d.roots@.take(roots@.len() as int) =~= d.roots@);
        assert(roots@.take(roots@.len() as int) =~= roots@);
        lemma_roots_kept(string_views(roots@), has_package);
    }
    r
}

/// The roots kept when `.` is analyzable only with a package: all, in order.
pub open spec fn roots_kept(roots: Seq<Seq<char>>, root_has_package: bool) -> Seq<Seq<char>>
    decreases roots.len(),
{
    if roots.len() == 0 {
        seq![]
    } else if root_analyzable(roots.last(), root_has_package) {
        roots_kept(roots.drop_last(), root_has_package).push(roots.last())
    } else {
        roots_kept(roots.drop_last(), root_has_package)
    }
}

proof fn lemma_analyzable_paths(d: Seq<DiscoveredRoot>, roots: Seq<String>, has_package: bool, n: int)
    requires
        0 <= n <= roots.len() == d.len(),
        forall|k: int| 0 <= k < roots.len() ==> (#[trigger] d[k]).path@ == roots[k]@ && d[k].analyzable
            == root_analyzable(roots[k]@, has_package),
    ensures
        analyzable_paths(d.take(n)) == roots_kept(string_views(roots.take(n)), has_package),
    decreases n,
{
    if n > 0 {
        lemma_analyzable_paths(d, roots, has_package, n - 1);
        assert(d.take(n).drop_last() =~= d.take(n - 1));
        assert(string_views(roots.take(n)).drop_last() =~= string_views(roots.take(n - 1)));
        assert(string_views(roots.take(n)).last() == roots[n - 1]@);
    } else {
        assert(string_views(roots.take(0)) =~= Seq::<Seq<char>>::empty());
    }
}

proof fn lemma_roots_kept(roots: Seq<Seq<char>>, has_package: bool)
    ensures
        roots_kept(roots, has_package).len() <= roots.len(),
        forall|p: Seq<char>| roots_kept(roots, has_package).contains(p) ==> roots.contains(p) && root_analyzable(p, has_package),
        forall|k: int| 0 <= k < roots.len() && root_analyzable(roots[k], has_package) ==> roots_kept(roots, has_package).contains(
            #[trigger] roots[k]),
    decreases roots.len(),
{
    if roots.len() > 0 {
        let init = roots.drop_last();
        lemma_roots_kept(init, has_package);
        let kept = roots_kept(roots, has_package);
        let prev = roots_kept(init, has_package);
        assert forall|p: Seq<char>| kept.contains(p) implies roots.contains(p) && root_analyzable(p, has_package) by {
            if prev.contains(p) {
                assert(init.contains(p));
                let k = choose|k: int| 0 <= k < init.len() && init[k] == p;
                assert(init[k] == roots[k]);
                assert(roots.contains(p));
            } else {
                assert(p == roots.last());
                assert(roots[roots.len() - 1] == p);
            }
        }
        assert forall|k: int| 0 <= k < roots.len() && root_analyzable(roots[k], has_package) implies kept.contains(
            #[trigger] roots[k]) by {
            if k < roots.len() - 1 {
                assert(init[k] == roots[k]);
                let j = choose|j: int| 0 <= j < prev.len() && prev[j] == roots[k];
                assert(kept[j] == roots[k]);
            } else {
                assert(kept[kept.len() - 1] == roots[k]);
            }
        }
    }
}

} // verus!
