//! What `install` tells and writes: how each catalog tool is installed,
//! the labels of configured roots, and the `.ayni/` entry of `.gitignore`.
use crate::contract::{debug_quoted, debug_text};
use crate::text::{chars_of, join, lines, lines_of, str_eq, string_from_range, string_views, trim, trim_bounds, views};
use crate::vocabulary::Language;
use vstd::prelude::*;

verus! {

/// How a catalog tool gets onto a machine.
pub enum Installer {
    Bundled,
    Cargo { crate_name: String, version: Option<String> },
    Rustup { component: String },
    GoInstall { module: String, version: Option<String> },
    NpmGlobal { package: String, version: Option<String> },
    NodePackage { package: String, version: Option<String>, dev: bool },
    PythonPackage { package: String, version: Option<String>, dev: bool },
    UvTool { package: String, version: Option<String> },
    GradleTask { task: String },
    PythonRuntime,
    Custom { program: String, args: Vec<String> },
}

/// How a tool's presence and version are checked: a command whose success,
/// or whose output holding a text, shows the tool is there.
pub struct VersionCheck {
    pub command: String,
    pub args: Vec<String>,
    pub contains: Option<String>,
}

pub open spec fn opt_view(o: Option<String>) -> Option<Seq<char>> {
    match o {
        Some(s) => Some(s@),
        None => None,
    }
}

pub open spec fn spec_cargo_install(crate_name: Seq<char>, version: Option<Seq<char>>) -> Seq<char> {
    match version {
        Some(v) => "install: cargo install "@ + crate_name + " --version "@ + v,
        None => "install: cargo install "@ + crate_name,
    }
}

pub open spec fn spec_go_install(module: Seq<char>, version: Option<Seq<char>>) -> Seq<char> {
    "install: go install "@ + module + "@"@ + match version {
        Some(v) => v,
        None => "latest"@,
    }
}

pub open spec fn spec_npm_global(package: Seq<char>, version: Option<Seq<char>>) -> Seq<char> {
    match version {
        Some(v) => "install: npm install -g "@ + package + "@"@ + v,
        None => "install: npm install -g "@ + package,
    }
}

pub open spec fn dependency_scope(dev: bool) -> Seq<char> {
    if dev {
        "devDependency"@
    } else {
        "dependency"@
    }
}

pub open spec fn spec_node_package(package: Seq<char>, version: Option<Seq<char>>, dev: bool) -> Seq<char> {
    match version {
        Some(v) => "install: add "@ + dependency_scope(dev) + " "@ + package + "@"@ + v + " via package manager"@,
        None => "install: add "@ + dependency_scope(dev) + " "@ + package + " via package manager"@,
    }
}

pub open spec fn spec_python_package(package: Seq<char>, version: Option<Seq<char>>, dev: bool) -> Seq<char> {
    match version {
        Some(v) => "install: add Python "@ + dependency_scope(dev) + " "@ + package + "=="@ + v
            + " via package manager"@,
        None => "install: add Python "@ + dependency_scope(dev) + " "@ + package + " via package manager"@,
    }
}

pub open spec fn spec_uv_tool(package: Seq<char>, version: Option<Seq<char>>) -> Seq<char> {
    match version {
        Some(v) => "install: uv tool install "@ + package + "=="@ + v,
        None => "install: uv tool install "@ + package,
    }
}

pub fn fmt_cargo_install(crate_name: &str, version: Option<&str>) -> (r: String)
    ensures
        r@ == spec_cargo_install(
            crate_name@,
            match version {
                Some(v) => Some(v@),
                None => None,
            },
        ),
{
    let mut out = String::from_str("install: cargo install ");
    out.append(crate_name);
    match version {
        Some(v) => {
            out.append(" --version ");
            out.append(v);
        },
        None => {},
    }
    out
}

pub fn fmt_go_install(module: &str, version: Option<&str>) -> (r: String)
    ensures
        r@ == spec_go_install(
            module@,
            match version {
                Some(v) => Some(v@),
                None => None,
            },
        ),
{
    let mut out = String::from_str("install: go install ");
    out.append(module);
    out.append("@");
    match version {
        Some(v) => out.append(v),
        None => out.append("latest"),
    }
    out
}

pub fn fmt_npm_global(package: &str, version: Option<&str>) -> (r: String)
    ensures
        r@ == spec_npm_global(
            package@,
            match version {
                Some(v) => Some(v@),
                None => None,
            },
        ),
{
    let mut out = String::from_str("install: npm install -g ");
    out.append(package);
    match version {
        Some(v) => {
            out.append("@");
            out.append(v);
        },
        None => {},
    }
    out
}

pub fn fmt_node_package(package: &str, version: Option<&str>, dev: bool) -> (r: String)
    ensures
        r@ == spec_node_package(
            package@,
            match version {
                Some(v) => Some(v@),
                None => None,
            },
            dev,
        ),
{
    let mut out = String::from_str("install: add ");
    out.append(if dev {
        "devDependency"
    } else {
        "dependency"
    });
    out.append(" ");
    out.append(package);
    match version {
        Some(v) => {
            out.append("@");
            out.append(v);
        },
        None => {},
    }
    out.append(" via package manager");
    out
}

pub fn fmt_python_package(package: &str, version: Option<&str>, dev: bool) -> (r: String)
    ensures
        r@ == spec_python_package(
            package@,
            match version {
                Some(v) => Some(v@),
                None => None,
            },
            dev,
        ),
{
    let mut out = String::from_str("install: add Python ");
    out.append(if dev {
        "devDependency"
    } else {
        "dependency"
    });
    out.append(" ");
    out.append(package);
    match version {
        Some(v) => {
            out.append("==");
            out.append(v);
        },
        None => {},
    }
    out.append(" via package manager");
    out
}

pub fn fmt_uv_tool(package: &str, version: Option<&str>) -> (r: String)
    ensures
        r@ == spec_uv_tool(
            package@,
            match version {
                Some(v) => Some(v@),
                None => None,
            },
        ),
{
    let mut out = String::from_str("install: uv tool install ");
    out.append(package);
    match version {
        Some(v) => {
            out.append("==");
            out.append(v);
        },
        None => {},
    }
    out
}

/// What the requirement list says of an installer.
pub open spec fn spec_installer_summary(inst: Installer) -> Seq<char> {
    match inst {
        Installer::Bundled => "install: (bundled with toolchain)"@,
        Installer::Cargo { crate_name, version } => spec_cargo_install(crate_name@, opt_view(version)),
        Installer::Rustup { component } => "install: rustup component add "@ + component@,
        Installer::GoInstall { module, version } => spec_go_install(module@, opt_view(version)),
        Installer::NpmGlobal { package, version } => spec_npm_global(package@, opt_view(version)),
        Installer::NodePackage { package, version, dev } => spec_node_package(package@, opt_view(version), dev),
        Installer::PythonPackage { package, version, dev } => spec_python_package(package@, opt_view(version), dev),
        Installer::UvTool { package, version } => spec_uv_tool(package@, opt_view(version)),
        Installer::GradleTask { task } => "install: provided by Gradle task `"@ + task@ + "`"@,
        Installer::PythonRuntime => "install: (python runtime on PATH)"@,
        Installer::Custom { program, args } => "install: "@ + program@ + " "@ + join(string_views(args@), " "@),
    }
}

fn opt_str(o: &Option<String>) -> (r: Option<&str>)
    ensures
        match r {
            Some(s) => opt_view(*o) == Some(s@),
            None => o is None,
        },
{
    match o {
        Some(s) => Some(s.as_str()),
        None => None,
    }
}

/// `items` joined by `sep` (`[String]::join`).
pub fn join_strings(items: &Vec<String>, sep: &str) -> (r: String)
    ensures
        r@ == join(string_views(items@), sep@),
{
    let mut out = String::new();
    let mut i: usize = 0;
    while i < items.len()
        invariant
            i <= items@.len(),
            out@ == join(string_views(items@).take(i as int), sep@),
        decreases items@.len() - i,
    {
        if i > 0 {
            out.append(sep);
        }
        out.append(items[i].as_str());
        proof {
            let t = string_views(items@).take(i + 1);
            assert(t.drop_last() =~= string_views(items@).take(i as int));
            if i == 0 {
                assert(join(string_views(items@).take(0), sep@) =~= Seq::<char>::empty());
            }
            assert(out@ =~= join(t, sep@));
        }
        i = i + 1;
    }
    assert(string_views(items@).take(items@.len() as int) =~= string_views(items@));
    out
}

pub fn installer_summary(inst: &Installer) -> (r: String)
    ensures
        r@ == spec_installer_summary(*inst),
{
    match inst {
        Installer::Bundled => String::from_str("install: (bundled with toolchain)"),
        Installer::Cargo { crate_name, version } => fmt_cargo_install(crate_name.as_str(), opt_str(version)),
        Installer::Rustup { component } => {
            let mut out = String::from_str("install: rustup component add ");
            out.append(component.as_str());
            out
        },
        Installer::GoInstall { module, version } => fmt_go_install(module.as_str(), opt_str(version)),
        Installer::NpmGlobal { package, version } => fmt_npm_global(package.as_str(), opt_str(version)),
        Installer::NodePackage { package, version, dev } => fmt_node_package(package.as_str(), opt_str(version), *dev),
        Installer::PythonPackage { package, version, dev } => fmt_python_package(
            package.as_str(),
            opt_str(version),
            *dev,
        ),
        Installer::UvTool { package, version } => fmt_uv_tool(package.as_str(), opt_str(version)),
        Installer::GradleTask { task } => {
            let mut out = String::from_str("install: provided by Gradle task `");
            out.append(task.as_str());
            out.append("`");
            out
        },
        Installer::PythonRuntime => String::from_str("install: (python runtime on PATH)"),
        Installer::Custom { program, args } => {
            let mut out = String::from_str("install: ");
            out.append(program.as_str());
            out.append(" ");
            let joined = join_strings(args, " ");
            out.append(joined.as_str());
            out
        },
    }
}

/// What the requirement list says of a version check.
pub open spec fn spec_version_check_summary(check: VersionCheck) -> Seq<char> {
    let cmd = check.command@ + " "@ + join(string_views(check.args@), " "@);
    match check.contains {
        Some(s) => "check `"@ + cmd + "` → stdout contains "@ + debug_text(s@),
        None => "check `"@ + cmd + "` → succeeds"@,
    }
}

pub fn version_check_summary(check: &VersionCheck) -> (r: String)
    ensures
        r@ == spec_version_check_summary(*check),
{
    let mut out = String::from_str("check `");
    out.append(check.command.as_str());
    out.append(" ");
    let joined = join_strings(&check.args, " ");
    out.append(joined.as_str());
    match &check.contains {
        Some(s) => {
            out.append("` → stdout contains ");
            let q = debug_quoted(s.as_str());
            out.append(q.as_str());
        },
        None => {
            out.append("` → succeeds");
        },
    }
    out
}

/// The note of a catalog entry: its version check, when it has one, and
/// its installer, separated by ` · `.
pub open spec fn spec_requirement_note(check: Option<VersionCheck>, installer: Installer) -> Seq<char> {
    match check {
        Some(c) => spec_version_check_summary(c) + " · "@ + spec_installer_summary(installer),
        None => spec_installer_summary(installer),
    }
}

pub fn catalog_entry_requirement_note(check: &Option<VersionCheck>, installer: &Installer) -> (r: String)
    ensures
        r@ == spec_requirement_note(*check, *installer),
{
    match check {
        Some(c) => {
            let mut out = version_check_summary(c);
            out.append(" · ");
            let inst = installer_summary(installer);
            out.append(inst.as_str());
            out
        },
        None => installer_summary(installer),
    }
}

/// The label of a configured root in install output.
pub fn root_label_for_install(root_entry: &str) -> (r: String)
    ensures
        r@ == if root_entry@ == "."@ {
            "workspace root"@
        } else {
            root_entry@
        },
{
    if str_eq(root_entry, ".") {
        String::from_str("workspace root")
    } else {
        String::from_str(root_entry)
    }
}

/// Each `/` and `\` of a root becomes `__`.
pub open spec fn slug(s: Seq<char>) -> Seq<char>
    decreases s.len(),
{
    if s.len() == 0 {
        Seq::empty()
    } else {
        slug(s.drop_last()) + if s.last() == '/' || s.last() == '\\' {
            "__"@
        } else {
            seq![s.last()]
        }
    }
}

/// The file-name slug of a configured root: `workspace` for the
/// repository itself.
pub fn root_slug_for_path(root_entry: &str) -> (r: String)
    ensures
        r@ == if root_entry@ == "."@ {
            "workspace"@
        } else {
            slug(root_entry@)
        },
{
    if str_eq(root_entry, ".") {
        return String::from_str("workspace");
    }
    let v = chars_of(root_entry);
    let mut out = String::new();
    let mut i: usize = 0;
    while i < v.len()
        invariant
            i <= v@.len(),
            v@ == root_entry@,
            out@ == slug(v@.take(i as int)),
        decreases v@.len() - i,
    {
        proof {
            assert(v@.take(i + 1).drop_last() =~= v@.take(i as int));
        }
        if v[i] == '/' || v[i] == '\\' {
            out.append("__");
        } else {
            crate::text::push_char(&mut out, v[i]);
        }
        i = i + 1;
    }
    assert(v@.take(v@.len() as int) =~= v@);
    out
}

/// Whether `install` skips a language: another language was asked for, or
/// the policy does not enable it.
pub fn should_skip_install_language(language: Language, enabled: bool, language_filter: Option<Language>) -> (r: bool)
    ensures
        r == ((language_filter matches Some(f) && f != language) || !enabled),
{
    match language_filter {
        Some(f) => f != language || !enabled,
        None => !enabled,
    }
}

/// Whether some line of `content`, trimmed, is `.ayni/` or `.ayni`.
pub open spec fn ignores_ayni(content: Seq<char>) -> bool {
    exists|i: int|
        0 <= i < lines(content).len() && (trim(#[trigger] lines(content)[i]) == ".ayni/"@ || trim(
            lines(content)[i],
        ) == ".ayni"@)
}

/// `.gitignore` content with the `.ayni/` entry: unchanged (`None`) when a
/// line already ignores it; otherwise the entry is appended on a line of
/// its own.
pub open spec fn spec_with_ayni_entry(content: Seq<char>) -> Option<Seq<char>> {
    if ignores_ayni(content) {
        None
    } else if content.len() > 0 && content.last() != '\n' {
        Some(content + "\n"@ + ".ayni/\n"@)
    } else {
        Some(content + ".ayni/\n"@)
    }
}

pub fn gitignore_with_ayni_entry(content: &str) -> (r: Option<String>)
    ensures
        match r {
            Some(s) => spec_with_ayni_entry(content@) == Some(s@),
            None => spec_with_ayni_entry(content@) is None,
        },
{
    let v = chars_of(content);
    let ls = lines_of(&v);
    let mut i: usize = 0;
    while i < ls.len()
        invariant
            i <= ls@.len(),
            v@ == content@,
            views(ls@) == lines(content@),
            forall|k: int|
                0 <= k < i ==> trim(#[trigger] lines(content@)[k]) != ".ayni/"@ && trim(lines(content@)[k])
                    != ".ayni"@,
        decreases ls@.len() - i,
    {
        let (a, b) = trim_bounds(&ls[i]);
        let t = string_from_range(&ls[i], a, b);
        assert(views(ls@)[i as int] == ls@[i as int]@);
        if str_eq(t.as_str(), ".ayni/") || str_eq(t.as_str(), ".ayni") {
            return None;
        }
        i = i + 1;
    }
    let mut out = String::from_str(content);
    if v.len() > 0 && v[v.len() - 1] != '\n' {
        out.append("\n");
    }
    out.append(".ayni/\n");
    Some(out)
}

/// Splitting text that follows a separator (or nothing) continues the
/// pieces of what came before.
proof fn lemma_split_after_separator(a: Seq<char>, b: Seq<char>, sep: char)
    requires
        a.len() == 0 || a.last() == sep,
    ensures
        crate::text::split_char(a + b, sep) == crate::text::split_char(a, sep).drop_last()
            + crate::text::split_char(b, sep),
    decreases b.len(),
{
    let sa = crate::text::split_char(a, sep);
    if b.len() == 0 {
        assert(a + b =~= a);
        if a.len() > 0 {
            assert(sa == crate::text::split_char(a.drop_last(), sep).push(Seq::<char>::empty()));
        }
        assert(sa.drop_last() + crate::text::split_char(b, sep) =~= sa);
    } else {
        let ab = a + b;
        assert(ab.drop_last() =~= a + b.drop_last());
        assert(ab.last() == b.last());
        lemma_split_after_separator(a, b.drop_last(), sep);
        crate::text::lemma_split_char_nonempty(b.drop_last(), sep);
        let x = sa.drop_last();
        let y = crate::text::split_char(b.drop_last(), sep);
        if b.last() == sep {
            assert((x + y).push(Seq::<char>::empty()) =~= x + y.push(Seq::<char>::empty()));
        } else {
            let init = x + y;
            assert(init.update(init.len() - 1, init.last().push(b.last())) =~= x + y.update(
                y.len() - 1,
                y.last().push(b.last()),
            ));
        }
    }
}

/// Text without the separator is one piece.
proof fn lemma_split_without_separator(s: Seq<char>, sep: char)
    requires
        forall|i: int| 0 <= i < s.len() ==> s[i] != sep,
    ensures
        crate::text::split_char(s, sep) == seq![s],
    decreases s.len(),
{
    if s.len() == 0 {
        assert(s =~= Seq::<char>::empty());
    } else {
        lemma_split_without_separator(s.drop_last(), sep);
        assert(s.drop_last().push(s.last()) =~= s);
        assert(seq![s.drop_last()].update(0, s.drop_last().push(s.last())) =~= seq![s]);
    }
}

/// Adding the entry once is enough: what comes out already ignores
/// `.ayni/`, so a second pass leaves it alone.
pub proof fn law_ayni_entry_is_idempotent(content: Seq<char>)
    requires
        spec_with_ayni_entry(content) is Some,
    ensures
        spec_with_ayni_entry(spec_with_ayni_entry(content)->0) is None,
{
    let out = spec_with_ayni_entry(content)->0;
    let head = if content.len() > 0 && content.last() != '\n' {
        content + "\n"@
    } else {
        content
    };
    let entry = ".ayni/\n"@;
    reveal_strlit("\n");
    reveal_strlit(".ayni/\n");
    reveal_strlit(".ayni/");
    assert(out =~= head + entry);
    assert("\n"@ =~= seq!['\n']);
    assert(head.len() == 0 || head.last() == '\n');
    lemma_split_after_separator(head, entry, '\n');
    let piece = ".ayni/"@;
    assert(crate::text::split_char(entry, '\n') =~= seq![piece, Seq::<char>::empty()]) by {
        assert(entry.drop_last() =~= piece);
        assert(entry.last() == '\n');
        assert forall|i: int| 0 <= i < piece.len() implies piece[i] != '\n' by {}
        lemma_split_without_separator(piece, '\n');
    }
    let x = crate::text::split_char(head, '\n').drop_last();
    let p = crate::text::split_char(out, '\n');
    assert(p =~= x + seq![piece, Seq::<char>::empty()]);
    let k = x.len() as int;
    assert(p[k] == piece);
    assert(crate::text::strip_cr(piece) == piece);
    assert(lines(out)[k] == piece);
    assert(trim(piece) =~= piece) by {
        assert(crate::text::first_non_ws_from(piece, 0) == 0);
        assert(crate::text::end_non_ws_before(piece, 6) == 6);
    }
    assert(ignores_ayni(out));
}


/// What a probe found of a catalog tool on the machine.
#[derive(Clone, Copy, Debug, PartialEq, Eq, Structural)]
pub enum ToolStatus {
    Missing,
    Outdated,
    Current,
}

/// Whether an install requirement is met.
#[derive(Clone, Copy, Debug, PartialEq, Eq, Structural)]
pub enum InstallRequirementStatus {
    Missing,
    Outdated,
    Current,
}

/// A missing tool is a missing requirement, an outdated one an outdated
/// requirement; only a current tool meets it.
pub open spec fn spec_readiness_status(status: ToolStatus) -> InstallRequirementStatus {
    match status {
        ToolStatus::Missing => InstallRequirementStatus::Missing,
        ToolStatus::Outdated => InstallRequirementStatus::Outdated,
        ToolStatus::Current => InstallRequirementStatus::Current,
    }
}

pub fn readiness_status(status: ToolStatus) -> (r: InstallRequirementStatus)
    ensures
        r == spec_readiness_status(status),
{
    match status {
        ToolStatus::Missing => InstallRequirementStatus::Missing,
        ToolStatus::Outdated => InstallRequirementStatus::Outdated,
        ToolStatus::Current => InstallRequirementStatus::Current,
    }
}

pub open spec fn spec_readiness_status_name(status: InstallRequirementStatus) -> Seq<char> {
    match status {
        InstallRequirementStatus::Missing => "missing"@,
        InstallRequirementStatus::Outdated => "outdated"@,
        InstallRequirementStatus::Current => "current"@,
    }
}

pub fn readiness_status_name(status: InstallRequirementStatus) -> (r: &'static str)
    ensures
        r@ == spec_readiness_status_name(status),
{
    match status {
        InstallRequirementStatus::Missing => "missing",
        InstallRequirementStatus::Outdated => "outdated",
        InstallRequirementStatus::Current => "current",
    }
}

} // verus!
