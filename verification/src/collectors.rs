//! The commands that the Rust collectors run, and the executables that a
//! host needs before they can run.
use crate::evidence::ToolOverride;
use crate::text::{chars_of, clone_strings, join, starts_with, str_eq, string_views};
use crate::vocabulary::{Language, SignalKind};
use vstd::prelude::*;

verus! {

/// The file stem of a path (`Path::file_stem`): the last component without
/// its extension. How a path splits into components depends on the build
/// target (on Windows `\` separates too), so this is a function of its
/// argument for one target.
pub uninterp spec fn path_file_stem(path: Seq<char>) -> Option<Seq<char>>;

/// Calls `std::path::Path::file_stem` and keeps the stem as text.
/// Trusted: the result is the named function of the path; what the stem is
/// for a given path is not stated.
#[verifier::external_body]
fn file_stem_of(path: &str) -> (r: Option<String>)
    ensures
        match r {
            Some(s) => path_file_stem(path@) == Some(s@),
            None => path_file_stem(path@) is None,
        },
{
    std::path::Path::new(path).file_stem().map(|stem| stem.to_string_lossy().into_owned())
}

/// `name` is `cargo` up to ASCII case.
pub open spec fn is_cargo_name(name: Seq<char>) -> bool {
    name.len() == 5 && forall|i: int| 0 <= i < 5 ==> name[i] == "cargo"@[i] || name[i] == "CARGO"@[i]
}

fn cargo_name(name: &str) -> (r: bool)
    ensures
        r == is_cargo_name(name@),
{
    let v = chars_of(name);
    let lower = chars_of("cargo");
    let upper = chars_of("CARGO");
    if v.len() != 5 {
        return false;
    }
    let mut i: usize = 0;
    while i < 5
        invariant
            i <= 5,
            v@ == name@,
            v@.len() == 5,
            lower@ == "cargo"@,
            upper@ == "CARGO"@,
            forall|k: int| 0 <= k < i ==> v@[k] == "cargo"@[k] || v@[k] == "CARGO"@[k],
        decreases 5 - i,
    {
        proof {
            reveal_strlit("cargo");
            reveal_strlit("CARGO");
        }
        if v[i] != lower[i] && v[i] != upper[i] {
            return false;
        }
        i = i + 1;
    }
    true
}

/// Whether `program` names Cargo: its file stem is `cargo` up to ASCII case.
pub open spec fn spec_is_cargo_program(program: Seq<char>) -> bool {
    match path_file_stem(program) {
        Some(stem) => is_cargo_name(stem),
        None => false,
    }
}

pub fn is_cargo_program(program: &str) -> (r: bool)
    ensures
        r == spec_is_cargo_program(program@),
{
    match file_stem_of(program) {
        Some(stem) => cargo_name(stem.as_str()),
        None => false,
    }
}

/// The Cargo options that take their value as the next argument.
pub open spec fn takes_separate_value(arg: Seq<char>) -> bool {
    arg == "--color"@ || arg == "--config"@ || arg == "--explain"@ || arg == "-C"@ || arg == "-Z"@
}

/// The Cargo subcommand among `args`, looking from `i`: options (and the
/// values of those that take one separately) are skipped; `--` ends the
/// search.
pub open spec fn subcommand_from(args: Seq<Seq<char>>, i: int) -> Option<Seq<char>>
    decreases args.len() - i,
{
    if i < 0 || i >= args.len() {
        None
    } else if args[i] == "--"@ {
        None
    } else if starts_with(args[i], "+"@) || starts_with(args[i], "-"@) {
        let next = if takes_separate_value(args[i]) {
            i + 2
        } else {
            i + 1
        };
        if next >= args.len() {
            None
        } else {
            subcommand_from(args, next)
        }
    } else {
        Some(args[i])
    }
}

fn is_option(arg: &str) -> (r: bool)
    ensures
        r == (starts_with(arg@, "+"@) || starts_with(arg@, "-"@)),
{
    let v = chars_of(arg);
    proof {
        reveal_strlit("+");
        reveal_strlit("-");
        assert("+"@ =~= seq!['+']);
        assert("-"@ =~= seq!['-']);
        if v@.len() > 0 {
            assert(v@.take(1) =~= seq![v@[0]]);
        }
    }
    if v.len() == 0 {
        return false;
    }
    let c = v[0];
    proof {
        if c == '+' {
            assert(starts_with(arg@, "+"@));
        } else if c == '-' {
            assert(starts_with(arg@, "-"@));
        } else {
            assert(arg@.take(1)[0] == c);
            assert("+"@[0] == '+');
            assert("-"@[0] == '-');
            if starts_with(arg@, "+"@) {
                assert(arg@.take(1)[0] == "+"@[0]);
            }
            if starts_with(arg@, "-"@) {
                assert(arg@.take(1)[0] == "-"@[0]);
            }
        }
    }
    c == '+' || c == '-'
}

/// The Cargo subcommand of an argument list.
pub fn cargo_subcommand(args: &Vec<String>) -> (r: Option<String>)
    ensures
        match r {
            Some(s) => subcommand_from(string_views(args@), 0) == Some(s@),
            None => subcommand_from(string_views(args@), 0) is None,
        },
{
    let ghost a = string_views(args@);
    let mut i: usize = 0;
    while i < args.len()
        invariant
            a == string_views(args@),
            subcommand_from(a, 0) == subcommand_from(a, i as int),
        decreases args@.len() - i,
    {
        let arg = args[i].as_str();
        if str_eq(arg, "--") {
            return None;
        }
        if is_option(arg) {
            let step: usize = if str_eq(arg, "--color") || str_eq(arg, "--config") || str_eq(arg, "--explain")
                || str_eq(arg, "-C") || str_eq(arg, "-Z") {
                2
            } else {
                1
            };
            if step >= args.len() - i {
                return None;
            }
            i = i + step;
        } else {
            return Some(args[i].clone());
        }
    }
    None
}

/// The Cargo plugin executable that a Cargo command needs: `cargo-llvm-cov`
/// or `cargo-nextest` when that is its subcommand, and `cargo-llvm-cov` for
/// a coverage command given without arguments.
pub open spec fn spec_subcommand_executable(kind: SignalKind, program: Seq<char>, args: Seq<Seq<char>>) -> Option<Seq<char>> {
    if !spec_is_cargo_program(program) {
        None
    } else {
        match subcommand_from(args, 0) {
            Some(s) if s == "llvm-cov"@ || s == "nextest"@ => Some("cargo-"@ + s),
            _ => if kind == SignalKind::Coverage && args.len() == 0 {
                Some("cargo-llvm-cov"@)
            } else {
                None
            },
        }
    }
}

pub fn cargo_subcommand_executable(kind: SignalKind, program: &str, args: &Vec<String>) -> (r: Option<String>)
    ensures
        match r {
            Some(s) => spec_subcommand_executable(kind, program@, string_views(args@)) == Some(s@),
            None => spec_subcommand_executable(kind, program@, string_views(args@)) is None,
        },
{
    if !is_cargo_program(program) {
        return None;
    }
    match cargo_subcommand(args) {
        Some(s) => {
            if str_eq(s.as_str(), "llvm-cov") || str_eq(s.as_str(), "nextest") {
                let mut out = String::from_str("cargo-");
                out.append(s.as_str());
                return Some(out);
            }
        },
        None => {},
    }
    if kind == SignalKind::Coverage && args.len() == 0 {
        Some(String::from_str("cargo-llvm-cov"))
    } else {
        None
    }
}

/// What a host must provide before a Rust signal can run: a configured
/// command and the Cargo plugin it needs; otherwise the default tools of
/// the signal (and Cargo too for a package-scoped complexity run).
pub open spec fn spec_required_executables(
    kind: SignalKind,
    tool: Option<(Seq<char>, Seq<Seq<char>>)>,
    has_package: bool,
) -> Seq<Seq<char>> {
    match tool {
        Some((command, args)) => seq![command] + match spec_subcommand_executable(kind, command, args) {
            Some(s) => seq![s],
            None => seq![],
        },
        None => match kind {
            SignalKind::Test => seq!["cargo"@],
            SignalKind::Coverage => seq!["cargo"@, "cargo-llvm-cov"@],
            SignalKind::Complexity => if has_package {
                seq!["rust-code-analysis-cli"@, "cargo"@]
            } else {
                seq!["rust-code-analysis-cli"@]
            },
            SignalKind::Deps => seq!["cargo"@],
            SignalKind::Size | SignalKind::Mutation => seq![],
        },
    }
}

pub open spec fn override_view(tool: Option<&ToolOverride>) -> Option<(Seq<char>, Seq<Seq<char>>)> {
    match tool {
        Some(t) => Some((t.command@, string_views(t.args@))),
        None => None,
    }
}

fn strings_of(items: &[&str]) -> (r: Vec<String>)
    ensures
        r@.len() == items@.len(),
        forall|k: int| 0 <= k < items@.len() ==> #[trigger] r@[k]@ == items@[k]@,
{
    let mut out: Vec<String> = Vec::new();
    let mut i: usize = 0;
    while i < items.len()
        invariant
            i <= items@.len(),
            out@.len() == i,
            forall|k: int| 0 <= k < i ==> #[trigger] out@[k]@ == items@[k]@,
        decreases items@.len() - i,
    {
        out.push(String::from_str(items[i]));
        i = i + 1;
    }
    out
}

pub fn required_host_executables(kind: SignalKind, tool: Option<&ToolOverride>, has_package: bool) -> (r: Vec<String>)
    ensures
        string_views(r@) == spec_required_executables(kind, override_view(tool), has_package),
{
    match tool {
        Some(t) => {
            let mut out: Vec<String> = Vec::new();
            out.push(t.command.clone());
            match cargo_subcommand_executable(kind, t.command.as_str(), &t.args) {
                Some(s) => {
                    out.push(s);
                },
                None => {},
            }
            assert(string_views(out@) =~= spec_required_executables(kind, override_view(tool), has_package));
            out
        },
        None => {
            let out = match kind {
                SignalKind::Test | SignalKind::Deps => strings_of(&["cargo"]),
                SignalKind::Coverage => strings_of(&["cargo", "cargo-llvm-cov"]),
                SignalKind::Complexity => if has_package {
                    strings_of(&["rust-code-analysis-cli", "cargo"])
                } else {
                    strings_of(&["rust-code-analysis-cli"])
                },
                SignalKind::Size | SignalKind::Mutation => Vec::new(),
            };
            assert(string_views(out@) =~= spec_required_executables(kind, override_view(tool), has_package));
            out
        },
    }
}

/// A command line as one text: the program, then its arguments, separated
/// by spaces.
pub open spec fn spec_format_command(program: Seq<char>, args: Seq<Seq<char>>) -> Seq<char> {
    if args.len() == 0 {
        program
    } else {
        program + " "@ + join(args, " "@)
    }
}

pub fn format_command(program: &str, args: &Vec<String>) -> (r: String)
    ensures
        r@ == spec_format_command(program@, string_views(args@)),
{
    let mut out = String::from_str(program);
    if args.len() == 0 {
        return out;
    }
    out.append(" ");
    let ghost prefix = program@ + " "@;
    let mut i: usize = 0;
    while i < args.len()
        invariant
            1 <= args@.len(),
            i <= args@.len(),
            prefix == program@ + " "@,
            i == 0 ==> out@ == prefix,
            i > 0 ==> out@ == prefix + join(string_views(args@).take(i as int), " "@),
        decreases args@.len() - i,
    {
        let ghost before = out@;
        if i > 0 {
            out.append(" ");
        }
        out.append(args[i].as_str());
        proof {
            let t = string_views(args@).take(i + 1);
            assert(t.drop_last() =~= string_views(args@).take(i as int));
            if i == 0 {
                assert(t.len() == 1);
                assert(join(t, " "@) == t[0]);
            }
        }
        i = i + 1;
    }
    assert(string_views(args@).take(args@.len() as int) =~= string_views(args@));
    out
}

/// The program, arguments and engine label of a collector command: a
/// configured command keeps its own arguments, or takes the default ones
/// when it has none, and is labelled by its command line; otherwise the
/// default command runs under its engine name.
pub open spec fn spec_collector_command(
    tool: Option<(Seq<char>, Seq<Seq<char>>)>,
    default_args: Seq<Seq<char>>,
    engine: Seq<char>,
) -> (Seq<char>, Seq<Seq<char>>, Seq<char>) {
    match tool {
        Some((command, args)) => {
            let used = if args.len() == 0 {
                default_args
            } else {
                args
            };
            (command, used, spec_format_command(command, used))
        },
        None => ("cargo"@, default_args, engine),
    }
}

pub open spec fn coverage_default_args() -> Seq<Seq<char>> {
    seq!["llvm-cov"@, "--workspace"@, "--json"@, "--summary-only"@]
}

pub open spec fn mutation_default_args() -> Seq<Seq<char>> {
    seq!["mutants"@, "--list"@]
}

fn collector_command(tool: Option<&ToolOverride>, default_args: Vec<String>, engine: &str) -> (r: (String, Vec<String>, String))
    ensures
        (r.0@, string_views(r.1@), r.2@) == spec_collector_command(override_view(tool), string_views(default_args@), engine@),
{
    match tool {
        Some(t) => {
            let args = if t.args.len() == 0 {
                default_args
            } else {
                clone_strings(&t.args)
            };
            let label = format_command(t.command.as_str(), &args);
            (t.command.clone(), args, label)
        },
        None => (String::from_str("cargo"), default_args, String::from_str(engine)),
    }
}

/// The coverage command: `cargo llvm-cov --workspace --json --summary-only`
/// under the engine name `cargo-llvm-cov`, unless the policy configures
/// another.
pub fn coverage_command(tool: Option<&ToolOverride>) -> (r: (String, Vec<String>, String))
    ensures
        (r.0@, string_views(r.1@), r.2@) == spec_collector_command(override_view(tool), coverage_default_args(), "cargo-llvm-cov"@),
{
    let defaults = strings_of(&["llvm-cov", "--workspace", "--json", "--summary-only"]);
    assert(string_views(defaults@) =~= coverage_default_args());
    collector_command(tool, defaults, "cargo-llvm-cov")
}

/// The mutation command: `cargo mutants --list` under the engine name
/// `cargo-mutants`, unless the policy configures another.
pub fn mutation_command(tool: Option<&ToolOverride>) -> (r: (String, Vec<String>, String))
    ensures
        (r.0@, string_views(r.1@), r.2@) == spec_collector_command(override_view(tool), mutation_default_args(), "cargo-mutants"@),
{
    let defaults = strings_of(&["mutants", "--list"]);
    assert(string_views(defaults@) =~= mutation_default_args());
    collector_command(tool, defaults, "cargo-mutants")
}

/// Directories that hold what tools write, never sources.
pub open spec fn is_known_output_dir(name: Seq<char>) -> bool {
    name == "target"@ || name == ".git"@ || name == ".ayni"@
}

/// Whether some `/`-separated component of `path` is a known output
/// directory.
pub open spec fn spec_is_known_output_path(path: Seq<char>) -> bool {
    exists|k: int|
        0 <= k < crate::text::split_char(path, '/').len() && is_known_output_dir(
            #[trigger] crate::text::split_char(path, '/')[k],
        )
}

pub fn is_adapter_known_output_path(path: &str) -> (r: bool)
    ensures
        r == spec_is_known_output_path(path@),
{
    let v = chars_of(path);
    let mut seps: Vec<char> = Vec::new();
    seps.push('/');
    assert(seps@ =~= seq!['/']);
    let parts = crate::text::split_on(&v, &seps);
    proof {
        crate::text::lemma_split_chars_single(path@, '/');
    }
    let mut i: usize = 0;
    while i < parts.len()
        invariant
            i <= parts@.len(),
            crate::text::views(parts@) == crate::text::split_char(path@, '/'),
            forall|k: int| 0 <= k < i ==> !is_known_output_dir(#[trigger] crate::text::views(parts@)[k]),
        decreases parts@.len() - i,
    {
        let p = crate::text::string_from_chars(&parts[i]);
        if str_eq(p.as_str(), "target") || str_eq(p.as_str(), ".git") || str_eq(p.as_str(), ".ayni") {
            assert(crate::text::views(parts@)[i as int] == p@);
            return true;
        }
        i = i + 1;
    }
    false
}

/// The arguments of `rust-code-analysis-cli` for a target: metrics of the
/// Rust sources as JSON; a directory is searched for `*.rs` files outside
/// the known output directories.
pub open spec fn spec_analysis_args(target: Seq<char>, is_dir: bool) -> Seq<Seq<char>> {
    seq!["--metrics"@, "--paths"@, target, "--language-type"@, "rust"@, "--output-format"@, "json"@] + if is_dir {
        seq![
            "--include"@,
            "*.rs"@,
            "--exclude"@,
            "**/target/**"@,
            "--exclude"@,
            "**/.git/**"@,
            "--exclude"@,
            "**/.ayni/**"@,
        ]
    } else {
        seq![]
    }
}

pub fn rust_code_analysis_args(target: &str, is_dir: bool) -> (r: Vec<String>)
    ensures
        string_views(r@) == spec_analysis_args(target@, is_dir),
{
    let mut out = strings_of(&["--metrics", "--paths"]);
    out.push(String::from_str(target));
    let tail = strings_of(&["--language-type", "rust", "--output-format", "json"]);
    let ghost head = string_views(out@);
    let mut i: usize = 0;
    while i < tail.len()
        invariant
            i <= tail@.len(),
            tail@.len() == 4,
            string_views(out@) == head + string_views(tail@).take(i as int),
        decreases tail@.len() - i,
    {
        let ghost before = string_views(out@);
        out.push(tail[i].clone());
        assert(string_views(out@) =~= before.push(tail@[i as int]@));
        assert(string_views(tail@).take(i + 1) =~= string_views(tail@).take(i as int).push(tail@[i as int]@));
        i = i + 1;
    }
    assert(string_views(tail@).take(4) =~= string_views(tail@));
    if is_dir {
        let extra = strings_of(&[
            "--include",
            "*.rs",
            "--exclude",
            "**/target/**",
            "--exclude",
            "**/.git/**",
            "--exclude",
            "**/.ayni/**",
        ]);
        let ghost mid = string_views(out@);
        let mut j: usize = 0;
        while j < extra.len()
            invariant
                j <= extra@.len(),
                string_views(out@) == mid + string_views(extra@).take(j as int),
            decreases extra@.len() - j,
        {
            let ghost before = string_views(out@);
            out.push(extra[j].clone());
            assert(string_views(out@) =~= before.push(extra@[j as int]@));
            assert(string_views(extra@).take(j + 1) =~= string_views(extra@).take(j as int).push(extra@[j as int]@));
            j = j + 1;
        }
        assert(string_views(extra@).take(extra@.len() as int) =~= string_views(extra@));
    }
    assert(string_views(out@) =~= spec_analysis_args(target@, is_dir));
    out
}

/// `value` against the repository root: an absolute path stays as it is,
/// a relative one is joined to the root with one `/` (`Path::join`).
pub open spec fn spec_resolve_repo_path(repo_root: Seq<char>, value: Seq<char>) -> Seq<char> {
    if starts_with(value, "/"@) {
        value
    } else if repo_root.len() == 0 || crate::text::ends_with(repo_root, "/"@) {
        repo_root + value
    } else {
        repo_root + "/"@ + value
    }
}

pub fn resolve_repo_path(repo_root: &str, value: &str) -> (r: String)
    ensures
        r@ == spec_resolve_repo_path(repo_root@, value@),
{
    let v = chars_of(value);
    let root = chars_of(repo_root);
    proof {
        reveal_strlit("/");
        assert("/"@ =~= seq!['/']);
        if v@.len() > 0 {
            assert(v@.take(1) =~= seq![v@[0]]);
        }
        if root@.len() > 0 {
            assert(root@.skip(root@.len() - 1) =~= seq![root@[root@.len() - 1]]);
        }
    }
    if v.len() > 0 && v[0] == '/' {
        return String::from_str(value);
    }
    proof {
        if v@.len() > 0 && starts_with(value@, "/"@) {
            assert(value@.take(1)[0] == "/"@[0]);
        }
    }
    let mut out = String::from_str(repo_root);
    let needs_slash = !(root.len() == 0 || root[root.len() - 1] == '/');
    proof {
        if root@.len() > 0 && crate::text::ends_with(repo_root@, "/"@) {
            assert(repo_root@.skip(repo_root@.len() - 1)[0] == "/"@[0]);
        }
    }
    if needs_slash {
        out.append("/");
    }
    out.append(value);
    out
}

/// What a complexity run analyses.
pub enum AnalysisTarget {
    File(String),
    Package(String),
    Path(String),
    Workdir,
}

/// A file scope wins over a package scope, which wins over a path scope;
/// with none of them the working directory is analysed.
pub fn analysis_target(file: &Option<String>, package: &Option<String>, path: &Option<String>) -> (r: AnalysisTarget)
    ensures
        match (file, package, path) {
            (Some(f), _, _) => r matches AnalysisTarget::File(x) && x@ == f@,
            (None, Some(p), _) => r matches AnalysisTarget::Package(x) && x@ == p@,
            (None, None, Some(p)) => r matches AnalysisTarget::Path(x) && x@ == p@,
            (None, None, None) => r is Workdir,
        },
{
    match (file, package, path) {
        (Some(f), _, _) => AnalysisTarget::File(f.clone()),
        (None, Some(p), _) => AnalysisTarget::Package(p.clone()),
        (None, None, Some(p)) => AnalysisTarget::Path(p.clone()),
        (None, None, None) => AnalysisTarget::Workdir,
    }
}


/// `String::from_utf8_lossy`: the text of the bytes, each invalid sequence
/// replaced by U+FFFD.
pub uninterp spec fn lossy_text(bytes: Seq<u8>) -> Seq<char>;

/// Calls `String::from_utf8_lossy`. Trusted: the text is the named
/// function of the bytes, and for valid UTF-8 it is the text the bytes
/// encode, as its documentation states.
#[verifier::external_body]
fn utf8_lossy(bytes: &[u8]) -> (r: String)
    ensures
        r@ == lossy_text(bytes@),
        vstd::utf8::valid_utf8(bytes@) ==> r@ == vstd::utf8::decode_utf8(bytes@),
{
    String::from_utf8_lossy(bytes).into_owned()
}

/// The first line that is not blank, trimmed.
pub open spec fn first_nonblank(ls: Seq<Seq<char>>) -> Option<Seq<char>>
    decreases ls.len(),
{
    if ls.len() == 0 {
        None
    } else if crate::text::trim(ls[0]).len() > 0 {
        Some(crate::text::trim(ls[0]))
    } else {
        first_nonblank(ls.drop_first())
    }
}

pub open spec fn silent_failure_message() -> Seq<char> {
    "command failed without stdout/stderr output"@
}

/// What a failed command said: its first non-blank line of standard error,
/// then of standard output, trimmed.
pub open spec fn spec_concise_failure(stderr: Seq<u8>, stdout: Seq<u8>) -> Seq<char> {
    match first_nonblank(crate::text::lines(lossy_text(stderr) + seq!['\n'] + lossy_text(stdout))) {
        Some(line) => line,
        None => silent_failure_message(),
    }
}

pub fn concise_failure_message(stderr: &[u8], stdout: &[u8]) -> (r: String)
    ensures
        r@ == spec_concise_failure(stderr@, stdout@),
{
    let mut text = utf8_lossy(stderr);
    text.append("\n");
    let out = utf8_lossy(stdout);
    text.append(out.as_str());
    proof {
        reveal_strlit("\n");
    }
    assert(text@ =~= lossy_text(stderr@) + seq!['\n'] + lossy_text(stdout@));
    let v = chars_of(text.as_str());
    let ls = crate::text::lines_of(&v);
    let ghost all = crate::text::views(ls@);
    let mut i: usize = 0;
    assert(all.skip(0) =~= all);
    while i < ls.len()
        invariant
            i <= ls@.len(),
            all == crate::text::views(ls@),
            all == crate::text::lines(lossy_text(stderr@) + seq!['\n'] + lossy_text(stdout@)),
            first_nonblank(all) == first_nonblank(all.skip(i as int)),
        decreases ls@.len() - i,
    {
        let (lo, hi) = crate::text::trim_bounds(&ls[i]);
        assert(all.skip(i as int)[0] == ls@[i as int]@);
        if lo < hi {
            assert(crate::text::trim(all.skip(i as int)[0]).len() > 0);
            return crate::text::string_from_range(&ls[i], lo, hi);
        }
        assert(all.skip(i as int).drop_first() =~= all.skip(i + 1));
        i = i + 1;
    }
    assert(all.skip(i as int).len() == 0);
    String::from_str("command failed without stdout/stderr output")
}

/// The failure of a collector command that exited unsuccessfully.
pub fn command_failure(
    category: &str,
    program: &str,
    args: &Vec<String>,
    cwd: &str,
    exit_code: Option<i32>,
    stderr: &[u8],
    stdout: &[u8],
) -> (r: crate::evidence::CommandFailure)
    ensures
        r.category@ == category@,
        r.classification@ == "command_error"@,
        r.command@ == spec_format_command(program@, string_views(args@)),
        r.cwd@ == cwd@,
        r.exit_code == exit_code,
        r.message@ == spec_concise_failure(stderr@, stdout@),
{
    crate::evidence::CommandFailure {
        category: String::from_str(category),
        classification: String::from_str("command_error"),
        command: format_command(program, args),
        cwd: String::from_str(cwd),
        exit_code,
        message: concise_failure_message(stderr, stdout),
    }
}

/// Why a collector declined a signal: the language and a message.
pub struct CollectionRefusal {
    pub language: Language,
    pub message: String,
}

/// The Rust collectors collect every signal but mutation, which they refuse
/// without running a tool.
pub fn rust_collection_support(kind: SignalKind) -> (r: Result<(), CollectionRefusal>)
    ensures
        r is Err <==> kind == SignalKind::Mutation,
        r matches Err(e) ==> e.language == Language::Rust && e.message@ == "mutation is not supported for Rust targets"@,
{
    match kind {
        SignalKind::Mutation => Err(
            CollectionRefusal {
                language: Language::Rust,
                message: String::from_str("mutation is not supported for Rust targets"),
            },
        ),
        _ => Ok(()),
    }
}

} // verus!
