//! Preparing a Rust target's dependencies in the managed environment: the
//! lock inputs it owns, the locked fetch, the files Cargo needs to see, and
//! the build cache it writes to.
use crate::collectors::{resolve_repo_path, spec_resolve_repo_path};
use crate::environment_plan::{sha256_hex, sha256_text, DependencyLockText};
use crate::selection::{insert_sorted, strictly_sorted};
use crate::text::{
    chars_end_with, chars_last_index_of, chars_of, chars_replace, ends_with, last_index_of,
    lemma_last_index_of, replace_char, str_eq, string_from_chars, string_from_range, string_views,
    sub_vec, trim_start_text, trim_start_text_len,
};
use vstd::prelude::*;
use vstd::string::StrSliceExecFns;

verus! {

/// A lock file a preparation reads, with its digest and owning root.
pub struct PreparationInput {
    pub path: String,
    pub digest: String,
    pub owner_root: String,
}

/// The root whose locks a target's preparation uses: its workspace, or
/// else the target's own root.
pub fn preparation_owner(workspace: &Option<String>, root: &str) -> (r: String)
    ensures
        r@ == match workspace {
            Some(w) => w@,
            None => root@,
        },
{
    match workspace {
        Some(w) => w.clone(),
        None => String::from_str(root),
    }
}

/// The dependency locks the owner root owns, in order, as preparation
/// inputs.
pub fn preparation_inputs(owner: &str, locks: &Vec<DependencyLockText>) -> (r: Vec<PreparationInput>)
    ensures
        r@.map_values(|i: PreparationInput| (i.path@, i.digest@, i.owner_root@)) == owned_locks(
            owner@,
            locks@,
            locks@.len() as int,
        ),
{
    let mut out: Vec<PreparationInput> = Vec::new();
    let mut i: usize = 0;
    while i < locks.len()
        invariant
            i <= locks@.len(),
            out@.map_values(|x: PreparationInput| (x.path@, x.digest@, x.owner_root@)) == owned_locks(
                owner@,
                locks@,
                i as int,
            ),
        decreases locks@.len() - i,
    {
        let l = &locks[i];
        if str_eq(l.owner_root.as_str(), owner) {
            let input = PreparationInput {
                path: l.path.clone(),
                digest: l.digest.clone(),
                owner_root: l.owner_root.clone(),
            };
            let ghost before = out@;
            out.push(input);
            assert(out@.map_values(|x: PreparationInput| (x.path@, x.digest@, x.owner_root@)) =~= before.map_values(
                |x: PreparationInput| (x.path@, x.digest@, x.owner_root@),
            ).push((l.path@, l.digest@, l.owner_root@)));
        }
        i = i + 1;
    }
    out
}

/// The locks of `locks` (the first `n`) that `owner` owns.
pub open spec fn owned_locks(owner: Seq<char>, locks: Seq<DependencyLockText>, n: int) -> Seq<(Seq<char>, Seq<char>, Seq<char>)>
    decreases n,
{
    if n <= 0 {
        seq![]
    } else {
        let l = locks[n - 1];
        owned_locks(owner, locks, n - 1) + if l.owner_root@ == owner {
            seq![(l.path@, l.digest@, l.owner_root@)]
        } else {
            seq![]
        }
    }
}

/// The lock file a locked fetch needs: `{owner}/Cargo.lock`, without
/// leading `./`s.
pub open spec fn required_lock(owner: Seq<char>) -> Seq<char> {
    trim_start_text(owner + "/Cargo.lock"@, "./"@)
}

/// A Rust preparation runs `cargo fetch --locked`, so it needs the owner's
/// `Cargo.lock` among its inputs.
pub fn require_cargo_lock(owner: &str, inputs: &Vec<PreparationInput>) -> (r: Result<(), String>)
    ensures
        (exists|k: int| 0 <= k < inputs@.len() && #[trigger] inputs@[k].path@ == required_lock(owner@)) ==> r is Ok,
        !(exists|k: int| 0 <= k < inputs@.len() && #[trigger] inputs@[k].path@ == required_lock(owner@)) ==> (r matches Err(
            m,
        ) && m@ == "Cargo dependency preparation requires "@ + owner@ + "/Cargo.lock"@),
{
    let mut full = String::from_str(owner);
    full.append("/Cargo.lock");
    let v = chars_of(full.as_str());
    let k = trim_start_text_len(&v, &chars_of("./"));
    let lock = string_from_range(&v, k, v.len());
    assert(v@.subrange(k as int, v@.len() as int) =~= v@.skip(k as int));
    let mut i: usize = 0;
    while i < inputs.len()
        invariant
            i <= inputs@.len(),
            lock@ == required_lock(owner@),
            forall|j: int| 0 <= j < i ==> #[trigger] inputs@[j].path@ != required_lock(owner@),
        decreases inputs@.len() - i,
    {
        if str_eq(inputs[i].path.as_str(), lock.as_str()) {
            return Ok(());
        }
        i = i + 1;
    }
    let mut m = String::from_str("Cargo dependency preparation requires ");
    m.append(owner);
    m.append("/Cargo.lock");
    Err(m)
}

/// What a manifest among the inputs says about the files Cargo reads:
/// whether it declares a package, its `lib.path`, the `path` of each
/// `[[bin]]`, `[[example]]`, `[[test]]` and `[[bench]]` entry (in that
/// order), and its `package.build` script.
pub struct ScaffoldFacts {
    pub path: String,
    pub has_package: bool,
    pub lib_path: Option<String>,
    pub target_paths: Vec<String>,
    pub build: Option<String>,
}

/// The directory of a repository path: what precedes its last `/`, or
/// nothing.
pub open spec fn parent_dir(path: Seq<char>) -> Seq<char> {
    match last_index_of(path, '/') {
        Some(i) => path.take(i),
        None => Seq::empty(),
    }
}

fn parent_of(path: &str) -> (r: String)
    ensures
        r@ == parent_dir(path@),
{
    let v = chars_of(path);
    match chars_last_index_of(&v, '/') {
        Some(i) => {
            proof {
                lemma_last_index_of(v@, '/');
            }
            let p = sub_vec(&v, 0, i);
            assert(v@.subrange(0, i as int) =~= v@.take(i as int));
            string_from_chars(&p)
        },
        None => String::new(),
    }
}

/// The files a manifest's package builds from, relative to the manifest.
pub open spec fn scaffold_targets(f: ScaffoldFacts) -> Seq<Seq<char>> {
    seq!["src/lib.rs"@, "src/main.rs"@] + (match f.lib_path {
        Some(p) => seq![p@],
        None => seq![],
    }) + string_views(f.target_paths@) + match f.build {
        Some(b) => seq![b@],
        None => seq![],
    }
}

/// A scaffold path: a target joined to the manifest's directory, with `\`
/// written as `/`.
pub open spec fn scaffold_path(manifest: Seq<char>, target: Seq<char>) -> Seq<char> {
    replace_char(spec_resolve_repo_path(parent_dir(manifest), target), '\\', '/')
}

pub open spec fn manifest_scaffolds(f: ScaffoldFacts) -> Seq<Seq<char>> {
    if f.has_package && ends_with(f.path@, "Cargo.toml"@) {
        scaffold_targets(f).map_values(|t: Seq<char>| scaffold_path(f.path@, t))
    } else {
        seq![]
    }
}

pub open spec fn all_scaffolds(fs: Seq<ScaffoldFacts>) -> Seq<Seq<char>>
    decreases fs.len(),
{
    if fs.len() == 0 {
        seq![]
    } else {
        all_scaffolds(fs.drop_last()) + manifest_scaffolds(fs.last())
    }
}

fn push_scaffold(acc: &mut Vec<String>, parent: &str, target: &str, Ghost(seen): Ghost<Seq<Seq<char>>>, Ghost(manifest): Ghost<Seq<char>>)
    requires
        parent@ == parent_dir(manifest),
        strictly_sorted(string_views(old(acc)@)),
        string_views(old(acc)@).to_set() == seen.to_set(),
    ensures
        strictly_sorted(string_views(final(acc)@)),
        string_views(final(acc)@).to_set() == seen.push(scaffold_path(manifest, target@)).to_set(),
{
    let joined = resolve_repo_path(parent, target);
    let v = chars_of(joined.as_str());
    let fixed = chars_replace(&v, '\\', '/');
    let s = string_from_chars(&fixed);
    insert_sorted(acc, s);
    proof {
        seen.lemma_push_to_set_commute(scaffold_path(manifest, target@));
    }
}

/// The empty files a dependency preparation writes so that Cargo can read
/// each manifest that declares a package: its library, binary, and every
/// declared target and build script, once each and in code-point order.
pub fn cargo_scaffolds(manifests: &Vec<ScaffoldFacts>) -> (r: Vec<String>)
    ensures
        strictly_sorted(string_views(r@)),
        string_views(r@).to_set() == all_scaffolds(manifests@).to_set(),
{
    let mut acc: Vec<String> = Vec::new();
    let ghost mut seen: Seq<Seq<char>> = Seq::empty();
    assert(string_views(acc@).to_set() =~= seen.to_set());
    let mut i: usize = 0;
    while i < manifests.len()
        invariant
            i <= manifests@.len(),
            strictly_sorted(string_views(acc@)),
            seen == all_scaffolds(manifests@.take(i as int)),
            string_views(acc@).to_set() == seen.to_set(),
        decreases manifests@.len() - i,
    {
        let f = &manifests[i];
        let ghost start = seen;
        proof {
            assert(manifests@.take(i + 1).drop_last() =~= manifests@.take(i as int));
            assert(manifests@.take(i + 1).last() == manifests@[i as int]);
        }
        let cargo = chars_end_with(&chars_of(f.path.as_str()), &chars_of("Cargo.toml"));
        if f.has_package && cargo {
            let parent = parent_of(f.path.as_str());
            let ghost targets = scaffold_targets(*f);
            let ghost mp = f.path@;
            let mut fixed_targets: Vec<String> = Vec::new();
            fixed_targets.push(String::from_str("src/lib.rs"));
            fixed_targets.push(String::from_str("src/main.rs"));
            match &f.lib_path {
                Some(p) => fixed_targets.push(p.clone()),
                None => {},
            }
            let mut t: usize = 0;
            while t < f.target_paths.len()
                invariant
                    t <= f.target_paths@.len(),
                    string_views(fixed_targets@) == seq!["src/lib.rs"@, "src/main.rs"@] + (match f.lib_path {
                        Some(p) => seq![p@],
                        None => seq![],
                    }) + string_views(f.target_paths@).take(t as int),
                decreases f.target_paths@.len() - t,
            {
                let ghost before = string_views(fixed_targets@);
                fixed_targets.push(f.target_paths[t].clone());
                assert(string_views(fixed_targets@) =~= before.push(f.target_paths@[t as int]@));
                assert(string_views(f.target_paths@).take(t + 1) =~= string_views(f.target_paths@).take(t as int).push(
                    f.target_paths@[t as int]@,
                ));
                t = t + 1;
            }
            assert(string_views(f.target_paths@).take(f.target_paths@.len() as int) =~= string_views(f.target_paths@));
            match &f.build {
                Some(b) => fixed_targets.push(b.clone()),
                None => {},
            }
            assert(string_views(fixed_targets@) =~= targets);
            let mut k: usize = 0;
            while k < fixed_targets.len()
                invariant
                    k <= fixed_targets@.len(),
                    string_views(fixed_targets@) == targets,
                    parent@ == parent_dir(mp),
                    strictly_sorted(string_views(acc@)),
                    seen == start + targets.take(k as int).map_values(|x: Seq<char>| scaffold_path(mp, x)),
                    string_views(acc@).to_set() == seen.to_set(),
                decreases fixed_targets@.len() - k,
            {
                push_scaffold(&mut acc, parent.as_str(), fixed_targets[k].as_str(), Ghost(seen), Ghost(mp));
                proof {
                    assert(fixed_targets@[k as int]@ == targets[k as int]);
                    assert(targets.take(k + 1).map_values(|x: Seq<char>| scaffold_path(mp, x)) =~= targets.take(
                        k as int,
                    ).map_values(|x: Seq<char>| scaffold_path(mp, x)).push(scaffold_path(mp, targets[k as int])));
                    seen = seen.push(scaffold_path(mp, targets[k as int]));
                }
                k = k + 1;
            }
            assert(targets.take(targets.len() as int) =~= targets);
        }
        proof {
            assert(seen =~= all_scaffolds(manifests@.take(i + 1)));
        }
        i = i + 1;
    }
    assert(manifests@.take(manifests@.len() as int) =~= manifests@);
    acc
}

/// Where a target's Cargo build output is cached: a directory named by the
/// SHA-256 of its root, so each root has its own and keeps it.
pub open spec fn spec_cargo_target_directory(target_root: Seq<char>) -> Seq<char> {
    "/home/ayni/.cache/cargo/targets/"@ + sha256_hex(vstd::utf8::encode_utf8(target_root))
}

pub fn cargo_target_directory(target_root: &str) -> (r: String)
    ensures
        r@ == spec_cargo_target_directory(target_root@),
        r@.len() == "/home/ayni/.cache/cargo/targets/"@.len() + 64,
{
    let bytes = target_root.as_bytes_vec();
    let digest = sha256_text(bytes.as_slice());
    let mut out = String::from_str("/home/ayni/.cache/cargo/targets/");
    out.append(digest.as_str());
    out
}

/// The environment a preparation runs under: one Cargo job at a time,
/// offline, with the target's own build cache (sorted by name).
pub fn preparation_environment(target_root: &str) -> (r: Vec<(String, String)>)
    ensures
        r@.len() == 3,
        r@[0].0@ == "CARGO_BUILD_JOBS"@ && r@[0].1@ == "1"@,
        r@[1].0@ == "CARGO_NET_OFFLINE"@ && r@[1].1@ == "true"@,
        r@[2].0@ == "CARGO_TARGET_DIR"@ && r@[2].1@ == spec_cargo_target_directory(target_root@),
{
    let mut out: Vec<(String, String)> = Vec::new();
    out.push((String::from_str("CARGO_BUILD_JOBS"), String::from_str("1")));
    out.push((String::from_str("CARGO_NET_OFFLINE"), String::from_str("true")));
    out.push((String::from_str("CARGO_TARGET_DIR"), cargo_target_directory(target_root)));
    out
}

/// The command a preparation runs: `cargo fetch --locked` in the owner
/// root.
pub struct PreparationCommand {
    pub program: String,
    pub args: Vec<String>,
    pub cwd: String,
}

pub fn fetch_command(owner: &str) -> (r: PreparationCommand)
    ensures
        r.program@ == "cargo"@,
        string_views(r.args@) == seq!["fetch"@, "--locked"@],
        r.cwd@ == owner@,
{
    let mut args: Vec<String> = Vec::new();
    args.push(String::from_str("fetch"));
    args.push(String::from_str("--locked"));
    assert(string_views(args@) =~= seq!["fetch"@, "--locked"@]);
    PreparationCommand { program: String::from_str("cargo"), args, cwd: String::from_str(owner) }
}

} // verus!
