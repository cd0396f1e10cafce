//! Reading the outcome of `cargo test` and building the test row.
use crate::text::{
    all_digits, chars_end_with, chars_of, chars_start_with, ends_with, join, join_range,
    last_word, last_word_range, lines, lines_of, parse_u64, parse_u64_range, skip_ws_from,
    split_chars, split_on, starts_with, string_from_chars, sub_vec, trim, trim_bounds,
    trim_start, views,
};
use crate::evidence::{CommandFailure, Scope, TestFailure, TestResult, TestRow, ToolOverride};
use crate::text::{clone_strings, string_views};
use crate::vocabulary::Language;
use vstd::prelude::*;

verus! {

broadcast use vstd::string::group_string_axioms;

/// Lines of standard error kept in a failure message.
pub const STDERR_TAIL_LINES: usize = 20;

pub open spec fn passed_word() -> Seq<char> {
    seq!['p', 'a', 's', 's', 'e', 'd']
}

pub open spec fn failed_word() -> Seq<char> {
    seq!['f', 'a', 'i', 'l', 'e', 'd']
}

pub open spec fn result_marker() -> Seq<char> {
    seq!['t', 'e', 's', 't', ' ', 'r', 'e', 's', 'u', 'l', 't', ':']
}

/// A count segment such as `5 passed`: the segment ends with the word, and
/// the last whitespace-separated token before the word is a `u64`.
pub open spec fn count_segment(segment: Seq<char>, word: Seq<char>) -> Option<u64> {
    if ends_with(segment, word) {
        match last_word(trim(segment.take(segment.len() - word.len()))) {
            Some(w) => parse_u64(w),
            None => None,
        }
    } else {
        None
    }
}

/// The count of the last segment that states one.
pub open spec fn last_count(segments: Seq<Seq<char>>, word: Seq<char>) -> Option<u64>
    decreases segments.len(),
{
    if segments.len() == 0 {
        None
    } else {
        match count_segment(trim(segments.last()), word) {
            Some(v) => Some(v),
            None => last_count(segments.drop_last(), word),
        }
    }
}

/// `(total, passed, failed)` of one `test result:` line, when the line
/// states both counts; the total saturates.
pub open spec fn single_result(line: Seq<char>) -> Option<(u64, u64, u64)> {
    let segments = split_chars(line, seq![';', ',']);
    match (last_count(segments, passed_word()), last_count(segments, failed_word())) {
        (Some(p), Some(f)) => Some((p.saturating_add(f), p, f)),
        _ => None,
    }
}

pub open spec fn is_result_line(line: Seq<char>) -> bool {
    starts_with(trim_start(line), result_marker())
}

/// Whether any result line was read, and the saturating sums of its counts.
pub open spec fn totals(lines: Seq<Seq<char>>) -> (bool, u64, u64)
    decreases lines.len(),
{
    if lines.len() == 0 {
        (false, 0, 0)
    } else {
        let (any, p, f) = totals(lines.drop_last());
        let line = lines.last();
        if is_result_line(line) {
            match single_result(line) {
                Some((_, lp, lf)) => (true, p.saturating_add(lp), f.saturating_add(lf)),
                None => (any, p, f),
            }
        } else {
            (any, p, f)
        }
    }
}

/// The summed `(total, passed, failed)` over every result line of `stdout`.
pub open spec fn all_results(stdout: Seq<char>) -> Option<(u64, u64, u64)> {
    let (any, p, f) = totals(lines(stdout));
    if any {
        Some((p.saturating_add(f), p, f))
    } else {
        None
    }
}

fn count_in(segment: &[char], word: &[char]) -> (r: Option<u64>)
    ensures
        r == count_segment(segment@, word@),
{
    if !chars_end_with(segment, word) {
        return None;
    }
    let inner = sub_vec(segment, 0, segment.len() - word.len());
    let (a, b) = trim_bounds(&inner);
    let trimmed = sub_vec(&inner, a, b);
    match last_word_range(&trimmed, 0, trimmed.len()) {
        None => {
            assert(trimmed@.subrange(0, trimmed@.len() as int) == trimmed@);
            None
        },
        Some((wa, wb)) => {
            assert(trimmed@.subrange(0, trimmed@.len() as int) == trimmed@);
            parse_u64_range(&trimmed, wa, wb)
        },
    }
}

/// The count that `segment` states for `suffix` (`5 passed` gives 5).
pub fn parse_count_segment(segment: &str, suffix: &str) -> (r: Option<u64>)
    ensures
        r == count_segment(segment@, suffix@),
{
    let s = chars_of(segment);
    let w = chars_of(suffix);
    count_in(&s, &w)
}

fn trimmed_piece(p: &Vec<char>) -> (r: Vec<char>)
    ensures
        r@ == trim(p@),
{
    let (a, b) = trim_bounds(p);
    sub_vec(p, a, b)
}

fn single_in(line: &[char]) -> (r: Option<(u64, u64, u64)>)
    ensures
        r == single_result(line@),
{
    let seps = [';', ','];
    let segments = split_on(line, &seps);
    assert(seps@ == seq![';', ',']);
    let passed_w = ['p', 'a', 's', 's', 'e', 'd'];
    let failed_w = ['f', 'a', 'i', 'l', 'e', 'd'];
    assert(passed_w@ == passed_word());
    assert(failed_w@ == failed_word());
    let mut passed: Option<u64> = None;
    let mut failed: Option<u64> = None;
    let mut i: usize = 0;
    while i < segments.len()
        invariant
            i <= segments@.len(),
            views(segments@) == split_chars(line@, seq![';', ',']),
            passed_w@ == passed_word(),
            failed_w@ == failed_word(),
            passed == last_count(views(segments@).take(i as int), passed_word()),
            failed == last_count(views(segments@).take(i as int), failed_word()),
        decreases segments@.len() - i,
    {
        let t = trimmed_piece(&segments[i]);
        let p = count_in(&t, &passed_w);
        if p.is_some() {
            passed = p;
        }
        let f = count_in(&t, &failed_w);
        if f.is_some() {
            failed = f;
        }
        proof {
            let w = views(segments@);
            assert(w.take(i + 1).drop_last() == w.take(i as int));
            assert(w.take(i + 1).last() == segments@[i as int]@);
        }
        i = i + 1;
    }
    assert(views(segments@).take(segments@.len() as int) == views(segments@));
    match (passed, failed) {
        (Some(p), Some(f)) => Some((p.saturating_add(f), p, f)),
        _ => None,
    }
}

/// `(total, passed, failed)` of one `test result:` line; `None` unless the
/// line states both a `passed` and a `failed` count.
pub fn parse_single_test_result_line(line: &str) -> (r: Option<(u64, u64, u64)>)
    ensures
        r == single_result(line@),
{
    let v = chars_of(line);
    single_in(&v)
}

fn is_result_line_in(line: &[char]) -> (r: bool)
    ensures
        r == is_result_line(line@),
{
    let lo = skip_ws_from(line, 0);
    let rest = sub_vec(line, lo, line.len());
    let marker = ['t', 'e', 's', 't', ' ', 'r', 'e', 's', 'u', 'l', 't', ':'];
    assert(marker@ == result_marker());
    assert(rest@ == trim_start(line@));
    chars_start_with(&rest, &marker)
}

/// Sums every `test result:` line (`cargo test` prints one per crate and
/// phase); `None` when no such line states both counts.
pub fn parse_all_test_result_lines(stdout: &str) -> (r: Option<(u64, u64, u64)>)
    ensures
        r == all_results(stdout@),
{
    let v = chars_of(stdout);
    let ls = lines_of(&v);
    let mut any = false;
    let mut passed_sum: u64 = 0;
    let mut failed_sum: u64 = 0;
    let mut i: usize = 0;
    while i < ls.len()
        invariant
            i <= ls@.len(),
            views(ls@) == lines(stdout@),
            (any, passed_sum, failed_sum) == totals(views(ls@).take(i as int)),
        decreases ls@.len() - i,
    {
        let line = &ls[i];
        if is_result_line_in(line) {
            match single_in(line) {
                Some((_total, p, f)) => {
                    any = true;
                    passed_sum = passed_sum.saturating_add(p);
                    failed_sum = failed_sum.saturating_add(f);
                },
                None => {},
            }
        }
        proof {
            let w = views(ls@);
            assert(w.take(i + 1).drop_last() == w.take(i as int));
            assert(w.take(i + 1).last() == ls@[i as int]@);
        }
        i = i + 1;
    }
    assert(views(ls@).take(ls@.len() as int) == views(ls@));
    if any {
        Some((passed_sum.saturating_add(failed_sum), passed_sum, failed_sum))
    } else {
        None
    }
}

/// The last `line_count` lines of `stderr`, joined with newlines.
pub open spec fn spec_stderr_tail(stderr: Seq<char>, line_count: nat) -> Seq<char> {
    let ls = lines(stderr);
    let start = if ls.len() > line_count { ls.len() - line_count } else { 0 };
    join(ls.subrange(start as int, ls.len() as int), seq!['\n'])
}

pub fn stderr_tail(stderr: &str, line_count: usize) -> (r: String)
    ensures
        r@ == spec_stderr_tail(stderr@, line_count as nat),
{
    let v = chars_of(stderr);
    let ls = lines_of(&v);
    let start = ls.len().saturating_sub(line_count);
    let nl = ['\n'];
    assert(nl@ == seq!['\n']);
    let joined = join_range(&ls, start, ls.len(), &nl);
    string_from_chars(&joined)
}


/// The program and arguments of the test command: `cargo test`, or the
/// configured override, whose empty argument list means `test`.
pub open spec fn spec_test_command(test_override: Option<&ToolOverride>) -> (
    Seq<char>,
    Seq<Seq<char>>,
) {
    match test_override {
        Some(o) => (o.command@, if o.args@.len() == 0 {
            seq!["test"@]
        } else {
            string_views(o.args@)
        }),
        None => ("cargo"@, seq!["test"@]),
    }
}

pub fn test_command(test_override: Option<&ToolOverride>) -> (r: (String, Vec<String>))
    ensures
        (r.0@, string_views(r.1@)) == spec_test_command(test_override),
{
    match test_override {
        Some(o) => {
            let args = if o.args.len() == 0 {
                let mut a = Vec::new();
                a.push(String::from_str("test"));
                assert(string_views(a@) =~= seq!["test"@]);
                a
            } else {
                clone_strings(&o.args)
            };
            (o.command.clone(), args)
        },
        None => {
            let mut a = Vec::new();
            a.push(String::from_str("test"));
            assert(string_views(a@) =~= seq!["test"@]);
            (String::from_str("cargo"), a)
        },
    }
}

pub open spec fn file_selection_unsupported() -> Seq<char> {
    "Rust source-file selection is unsupported; use --package and optional --name"@
}

/// The focused test command: the test command, then `--package <package>`
/// when the scope names one, then the test-name filter when given.
pub open spec fn spec_selected_test_args(
    scope: &Scope,
    test_override: Option<&ToolOverride>,
    name: Option<String>,
) -> Seq<Seq<char>> {
    spec_test_command(test_override).1 + (match scope.package {
        Some(p) => seq!["--package"@, p@],
        None => seq![],
    }) + (match name {
        Some(n) => seq![n@],
        None => seq![],
    })
}

/// Cargo selects tests by package and name, never by source file: a file
/// scope is refused.
pub fn selected_test_command(
    scope: &Scope,
    test_override: Option<&ToolOverride>,
    name: &Option<String>,
) -> (r: Result<(String, Vec<String>), String>)
    ensures
        scope.file is Some <==> r is Err,
        r matches Err(e) ==> e@ == file_selection_unsupported(),
        r matches Ok((program, args)) ==> program@ == spec_test_command(test_override).0
            && string_views(args@) == spec_selected_test_args(scope, test_override, *name),
{
    if scope.file.is_some() {
        return Err(
            String::from_str(
                "Rust source-file selection is unsupported; use --package and optional --name",
            ),
        );
    }
    let (program, mut args) = test_command(test_override);
    let ghost base = string_views(args@);
    match &scope.package {
        Some(package) => {
            args.push(String::from_str("--package"));
            args.push(package.clone());
        },
        None => {},
    }
    let ghost mid = string_views(args@);
    assert(mid =~= base + (match scope.package {
        Some(p) => seq!["--package"@, p@],
        None => seq![],
    }));
    match name {
        Some(n) => {
            args.push(n.clone());
        },
        None => {},
    }
    assert(string_views(args@) =~= mid + (match *name {
        Some(n) => seq![n@],
        None => seq![],
    }));
    Ok((program, args))
}

/// The counts of a test row: the summed result lines, or zeros when there
/// were none.
pub open spec fn row_counts(stdout: Seq<char>) -> (u64, u64, u64) {
    match all_results(stdout) {
        Some(c) => c,
        None => (0, 0, 0),
    }
}

pub open spec fn failure_message_head() -> Seq<char> {
    "cargo test failed; stderr tail:\n"@
}

/// The test row for one `cargo test` run: it passes when the command
/// succeeded and no test failed; a failed command is kept as an offender and
/// as a command failure with its exit code and the tail of standard error.
pub fn build_test_row(
    scope: Scope,
    exec_cwd: &str,
    success: bool,
    exit_code: Option<i32>,
    stdout: &str,
    stderr: &str,
    runner: &str,
) -> (row: TestRow)
    ensures
        row.language == Language::Rust,
        row.scope == scope,
        (row.result.total_tests, row.result.passed, row.result.failed) == row_counts(stdout@),
        row.pass == (row.result.failed == 0 && success),
        row.result.duration_ms is None,
        row.result.runner@ == runner@,
        success ==> row.offenders@.len() == 0 && row.result.failure is None,
        !success ==> row.offenders@.len() == 1 && row.offenders@[0].message@
            == failure_message_head() + spec_stderr_tail(stderr@, STDERR_TAIL_LINES as nat)
            && row.offenders@[0].file is None && row.offenders@[0].line is None
            && row.offenders@[0].test_name is None,
        !success ==> (row.result.failure matches Some(f) && f.category@ == "repo_code_issue"@
            && f.classification@ == "command_error"@ && f.command@ == runner@ && f.cwd@
            == exec_cwd@ && f.exit_code == exit_code && f.message@ == spec_stderr_tail(
            stderr@,
            STDERR_TAIL_LINES as nat,
        )),
{
    let parsed = parse_all_test_result_lines(stdout);
    let (total_tests, passed, failed) = match parsed {
        Some(c) => c,
        None => (0, 0, 0),
    };
    let mut offenders: Vec<TestFailure> = Vec::new();
    let failure = if !success {
        let tail = stderr_tail(stderr, STDERR_TAIL_LINES);
        let mut message = String::from_str("cargo test failed; stderr tail:\n");
        message.append(tail.as_str());
        offenders.push(TestFailure { file: None, line: None, message, test_name: None });
        Some(
            CommandFailure {
                category: String::from_str("repo_code_issue"),
                classification: String::from_str("command_error"),
                command: String::from_str(runner),
                cwd: String::from_str(exec_cwd),
                exit_code,
                message: stderr_tail(stderr, STDERR_TAIL_LINES),
            },
        )
    } else {
        None
    };
    TestRow {
        language: Language::Rust,
        scope,
        pass: failed == 0 && success,
        result: TestResult {
            total_tests,
            passed,
            failed,
            duration_ms: None,
            runner: String::from_str(runner),
            failure,
        },
        offenders,
    }
}

/// `x + y`, held at `u64::MAX`.
pub open spec fn capped_sum(x: int, y: int) -> int {
    if x + y > u64::MAX {
        u64::MAX as int
    } else {
        x + y
    }
}

/// The counts of `cargo test` output add up over its parts: the output of
/// two runs one after the other reads some result line when either does,
/// and its passed and failed counts are the sums of the two (held at
/// `u64::MAX`). In particular no part's failures are lost.
pub proof fn law_result_counts_add_up(a: Seq<Seq<char>>, b: Seq<Seq<char>>)
    ensures
        totals(a + b).0 == (totals(a).0 || totals(b).0),
        totals(a + b).1 as int == capped_sum(totals(a).1 as int, totals(b).1 as int),
        totals(a + b).2 as int == capped_sum(totals(a).2 as int, totals(b).2 as int),
    decreases b.len(),
{
    if b.len() == 0 {
        assert(a + b =~= a);
    } else {
        law_result_counts_add_up(a, b.drop_last());
        assert((a + b).drop_last() =~= a + b.drop_last());
        assert((a + b).last() == b.last());
    }
}

/// A lone result line reads as its own counts.
pub proof fn law_one_result_line(line: Seq<char>)
    ensures
        is_result_line(line) ==> match single_result(line) {
            Some((_, p, f)) => totals(seq![line]) == (true, p, f),
            None => totals(seq![line]) == (false, 0u64, 0u64),
        },
        !is_result_line(line) ==> totals(seq![line]) == (false, 0u64, 0u64),
{
    assert(seq![line].drop_last() =~= Seq::<Seq<char>>::empty());
    assert(totals(Seq::<Seq<char>>::empty()) == (false, 0u64, 0u64));
    assert(seq![line].last() == line);
}

} // verus!
