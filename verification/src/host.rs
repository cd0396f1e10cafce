//! What host execution needs on the machine: which configured tools name an
//! executable, where a search-path entry points, and how missing
//! executables are reported.
use crate::order::{sort_list, sort_listed, text_lt, Listed, TextOrder};
use crate::paths::{is_absolute, join_spec, path_join};
use crate::text::{chars_contain, chars_of, join, string_views, str_eq};
use crate::vocabulary::{spec_signal_slug, signal_kind_slug, Language, SignalKind};
use vstd::prelude::*;

verus! {

broadcast use vstd::string::group_string_axioms;

/// A tool name names an executable unless it is a qualified Mise
/// coordinate (a backend prefix such as `npm:` or a path-like name).
pub open spec fn spec_is_unqualified_tool_name(tool: Seq<char>) -> bool {
    !tool.contains(':') && !tool.contains('/') && !tool.contains('\\')
}

pub fn is_unqualified_tool_name(tool: &str) -> (r: bool)
    ensures
        r == spec_is_unqualified_tool_name(tool@),
{
    let v = chars_of(tool);
    !chars_contain(&v, ':') && !chars_contain(&v, '/') && !chars_contain(&v, '\\')
}

/// A search-path entry as a directory: an empty or relative entry is taken
/// from the execution directory.
pub open spec fn spec_path_directory(directory: Seq<char>, cwd: Seq<char>) -> Seq<char> {
    if directory.len() == 0 || !is_absolute(directory) {
        join_spec(cwd, directory)
    } else {
        directory
    }
}

pub fn path_directory_from_exec_cwd(directory: &str, cwd: &str) -> (r: String)
    ensures
        r@ == spec_path_directory(directory@, cwd@),
{
    let v = chars_of(directory);
    if v.len() == 0 || v[0] != '/' {
        path_join(cwd, directory)
    } else {
        String::from_str(directory)
    }
}

/// How a command is looked up on the host.
#[derive(Clone, Copy, Debug, PartialEq, Eq, Structural)]
pub enum CommandLookup {
    /// An absolute path, used as it is.
    Absolute,
    /// A path with a separator, taken from the execution directory.
    FromExecutionDirectory,
    /// A bare name, searched on `PATH`.
    SearchPath,
}

pub open spec fn spec_command_lookup(command: Seq<char>) -> CommandLookup {
    if is_absolute(command) {
        CommandLookup::Absolute
    } else if command.contains('/') || command.contains('\\') {
        CommandLookup::FromExecutionDirectory
    } else {
        CommandLookup::SearchPath
    }
}

pub fn command_lookup(command: &str) -> (r: CommandLookup)
    ensures
        r == spec_command_lookup(command@),
{
    let v = chars_of(command);
    if v.len() > 0 && v[0] == '/' {
        CommandLookup::Absolute
    } else if chars_contain(&v, '/') || chars_contain(&v, '\\') {
        CommandLookup::FromExecutionDirectory
    } else {
        CommandLookup::SearchPath
    }
}

/// The report entry of a configured tool that is not on the host.
pub open spec fn spec_tool_entry(tool: Seq<char>) -> Seq<char> {
    "environment.tools."@ + tool + " (`"@ + tool + "`)"@
}

pub fn missing_tool_entry(tool: &str) -> (r: String)
    ensures
        r@ == spec_tool_entry(tool@),
{
    let mut out = String::from_str("environment.tools.");
    out.append(tool);
    out.append(" (`");
    out.append(tool);
    out.append("`)");
    out
}

/// The report entry of a collector command that is not on the host.
pub open spec fn spec_command_entry(command: Seq<char>, language: Language, root: Seq<char>, signal: SignalKind) -> Seq<char> {
    "`"@ + command + "` ("@ + language.spec_name() + ":"@ + root + " "@ + spec_signal_slug(signal) + ")"@
}

pub fn missing_command_entry(command: &str, language: Language, root: Option<&str>, signal: SignalKind) -> (r: String)
    ensures
        r@ == spec_command_entry(
            command@,
            language,
            match root {
                Some(r) => r@,
                None => "."@,
            },
            signal,
        ),
{
    let mut out = String::from_str("`");
    out.append(command);
    out.append("` (");
    out.append(language.as_str());
    out.append(":");
    match root {
        Some(r) => out.append(r),
        None => out.append("."),
    }
    out.append(" ");
    out.append(signal_kind_slug(signal));
    out.append(")");
    out
}

/// Text listed in code-point order.
pub struct Entry {
    pub text: String,
}

impl Listed for Entry {
    open spec fn goes_before(self, other: Self) -> bool {
        !text_lt(other.text@, self.text@)
    }

    fn may_precede(&self, other: &Self) -> (r: bool) {
        crate::order::compare_text(other.text.as_str(), self.text.as_str()) != TextOrder::Before
    }

    proof fn lemma_total(a: Self, b: Self) {
        if text_lt(b.text@, a.text@) {
            crate::order::lemma_text_lt_asymmetric(b.text@, a.text@);
        }
    }

    proof fn lemma_transitive(a: Self, b: Self, c: Self) {
        crate::order::lemma_text_total(a.text@, b.text@);
        crate::order::lemma_text_total(b.text@, c.text@);
        if text_lt(c.text@, a.text@) {
            if text_lt(a.text@, b.text@) && text_lt(b.text@, c.text@) {
                crate::order::lemma_text_lt_transitive(a.text@, b.text@, c.text@);
                crate::order::lemma_text_lt_asymmetric(a.text@, c.text@);
            }
        }
    }
}

pub open spec fn entry_texts(s: Seq<Entry>) -> Seq<Seq<char>> {
    s.map_values(|e: Entry| e.text@)
}

/// `s` with each run of equal neighbours kept once (`Vec::dedup`).
pub open spec fn dedup_adjacent(s: Seq<Seq<char>>) -> Seq<Seq<char>>
    decreases s.len(),
{
    if s.len() <= 1 {
        s
    } else if s.last() == s.drop_last().last() {
        dedup_adjacent(s.drop_last())
    } else {
        dedup_adjacent(s.drop_last()).push(s.last())
    }
}

proof fn lemma_dedup_last(s: Seq<Seq<char>>)
    requires
        s.len() > 0,
    ensures
        dedup_adjacent(s).len() > 0,
        dedup_adjacent(s).last() == s.last(),
    decreases s.len(),
{
    if s.len() > 1 {
        lemma_dedup_last(s.drop_last());
    }
}

/// The distinct texts of `entries` in code-point order (a `BTreeSet`'s
/// order).
pub open spec fn sorted_distinct(entries: Seq<Entry>) -> Seq<Seq<char>> {
    dedup_adjacent(entry_texts(sort_listed(entries)))
}

pub fn sort_distinct(entries: Vec<Entry>) -> (r: Vec<String>)
    ensures
        string_views(r@) == sorted_distinct(entries@),
{
    let sorted = sort_list(entries);
    let ghost t = entry_texts(sorted@);
    let mut out: Vec<String> = Vec::new();
    let mut i: usize = 0;
    while i < sorted.len()
        invariant
            i <= sorted@.len(),
            t == entry_texts(sorted@),
            string_views(out@) == dedup_adjacent(t.take(i as int)),
        decreases sorted@.len() - i,
    {
        proof {
            assert(t.take(i + 1).drop_last() =~= t.take(i as int));
            assert(t.take(i + 1).last() == sorted@[i as int].text@);
            if i > 0 {
                lemma_dedup_last(t.take(i as int));
                assert(t.take(i as int).last() == t.take(i + 1).drop_last().last());
            }
        }
        let keep = if i == 0 {
            true
        } else {
            !str_eq(sorted[i].text.as_str(), sorted[i - 1].text.as_str())
        };
        if keep {
            let s = sorted[i].text.clone();
            let ghost before = out@;
            out.push(s);
            assert(string_views(out@) =~= string_views(before).push(s@));
            proof {
                if i == 0 {
                    assert(t.take(1) =~= seq![t[0]]);
                } else {
                    lemma_dedup_last(t.take(i as int));
                }
            }
        } else {
            proof {
                lemma_dedup_last(t.take(i as int));
                assert(t[i - 1] == t.take(i as int).last());
            }
        }
        i = i + 1;
    }
    assert(t.take(sorted@.len() as int) =~= t);
    out
}

pub open spec fn missing_message(entries: Seq<Seq<char>>) -> Seq<char> {
    "host execution is missing required executable(s): "@ + join(entries, ", "@)
        + ". `--host` runs collectors using the host filesystem and PATH; install the required executable(s), or rerun without `--host` to use the locked managed environment"@
}

/// Host execution may proceed when nothing is missing; otherwise the
/// missing entries, distinct and in order, are reported together.
pub fn host_prerequisites_result(missing: Vec<Entry>) -> (r: Result<(), String>)
    ensures
        missing@.len() == 0 <==> r is Ok,
        r matches Err(e) ==> e@ == missing_message(sorted_distinct(missing@)),
{
    if missing.len() == 0 {
        return Ok(());
    }
    let listed = sort_distinct(missing);
    let mut pieces: Vec<Vec<char>> = Vec::new();
    let mut i: usize = 0;
    while i < listed.len()
        invariant
            i <= listed@.len(),
            crate::text::views(pieces@) == string_views(listed@).take(i as int),
        decreases listed@.len() - i,
    {
        let ghost before = pieces@;
        pieces.push(chars_of(listed[i].as_str()));
        assert(crate::text::views(pieces@) =~= crate::text::views(before).push(listed@[i as int]@));
        assert(string_views(listed@).take(i + 1) =~= string_views(listed@).take(i as int).push(listed@[i as int]@));
        i = i + 1;
    }
    let sep = chars_of(", ");
    let joined = crate::text::join_range(&pieces, 0, pieces.len(), &sep);
    assert(crate::text::views(pieces@).subrange(0, pieces@.len() as int) =~= string_views(listed@));
    let mut out = String::from_str("host execution is missing required executable(s): ");
    let joined_text = crate::text::string_from_chars(&joined);
    out.append(joined_text.as_str());
    out.append(
        ". `--host` runs collectors using the host filesystem and PATH; install the required executable(s), or rerun without `--host` to use the locked managed environment",
    );
    Err(out)
}

} // verus!
