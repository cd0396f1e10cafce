//! The managed guidance block in a repository's `AGENTS.md`.
use crate::text::{chars_of, join, string_from_chars, sub_vec};
use vstd::prelude::*;

verus! {

broadcast use vstd::string::group_string_axioms;

pub const MANAGED_BEGIN: &'static str = "<!-- AYNI:BEGIN -->";

pub const MANAGED_END: &'static str = "<!-- AYNI:END -->";

pub open spec fn begin_marker() -> Seq<char> {
    "<!-- AYNI:BEGIN -->"@
}

pub open spec fn end_marker() -> Seq<char> {
    "<!-- AYNI:END -->"@
}

/// Whether `p` occurs in `s` at index `i`.
pub open spec fn occurs_at(s: Seq<char>, p: Seq<char>, i: int) -> bool {
    0 <= i && i + p.len() <= s.len() && s.subrange(i, i + p.len()) == p
}

/// The first index at or after `i` where `p` occurs (`str::find` from `i`).
pub open spec fn find_from(s: Seq<char>, p: Seq<char>, i: int) -> Option<int>
    decreases s.len() + 1 - i,
{
    if i < 0 || i + p.len() > s.len() {
        None
    } else if occurs_at(s, p, i) {
        Some(i)
    } else {
        find_from(s, p, i + 1)
    }
}

/// `str::find`: the first index where `p` occurs.
pub open spec fn find(s: Seq<char>, p: Seq<char>) -> Option<int> {
    find_from(s, p, 0)
}

/// Non-empty text gets a final newline when it lacks one.
pub open spec fn with_final_newline(s: Seq<char>) -> Seq<char> {
    if s.len() == 0 || s.last() == '\n' {
        s
    } else {
        s.push('\n')
    }
}

/// Index of the first character at or after `i` that is not a newline.
pub open spec fn skip_newlines_from(s: Seq<char>, i: int) -> int
    decreases s.len() - i,
{
    if i < 0 || i >= s.len() {
        s.len() as int
    } else if s[i] != '\n' {
        i
    } else {
        skip_newlines_from(s, i + 1)
    }
}

/// `str::trim_start_matches('\n')`.
pub open spec fn trim_leading_newlines(s: Seq<char>) -> Seq<char> {
    s.skip(skip_newlines_from(s, 0))
}

/// The text that follows a replaced block: the rest of the file after the
/// end marker without its leading newlines, ending in a newline.
pub open spec fn tail_after_block(rest: Seq<char>) -> Seq<char> {
    let r = trim_leading_newlines(rest);
    if r.len() == 0 {
        r
    } else if r.last() == '\n' {
        r
    } else {
        r.push('\n')
    }
}

/// Inserting or refreshing the managed block:
/// - when the text holds the begin marker and, no earlier than it, the end
///   marker, the span from the first begin marker through the first end
///   marker is replaced by `managed`, and what followed it is kept;
/// - otherwise `managed` is appended after a blank line, or is the whole
///   result for empty text.
pub open spec fn spec_upsert(existing: Seq<char>, managed: Seq<char>) -> Seq<char> {
    let n = with_final_newline(existing);
    match (find(n, begin_marker()), find(n, end_marker())) {
        (Some(b), Some(e)) if b <= e => {
            let end_exclusive = e + end_marker().len();
            n.take(b) + managed + tail_after_block(n.skip(end_exclusive))
        },
        _ => if n.len() == 0 {
            managed
        } else {
            n + seq!['\n'] + managed
        },
    }
}

pub proof fn lemma_find_from_bounds(s: Seq<char>, p: Seq<char>, i: int)
    requires
        0 <= i,
    ensures
        find_from(s, p, i) matches Some(k) ==> i <= k && occurs_at(s, p, k) && forall|j: int|
            i <= j < k ==> !occurs_at(s, p, j),
        find_from(s, p, i) is None ==> forall|j: int| i <= j ==> !occurs_at(s, p, j),
    decreases s.len() + 1 - i,
{
    if i + p.len() > s.len() {
    } else if occurs_at(s, p, i) {
    } else {
        lemma_find_from_bounds(s, p, i + 1);
    }
}

/// The first index at or after `from` where `p` occurs in `v`.
pub fn find_chars_from(v: &[char], p: &[char], from: usize) -> (r: Option<usize>)
    requires
        from <= v@.len(),
    ensures
        r matches Some(k) ==> find_from(v@, p@, from as int) == Some(k as int),
        r is None ==> find_from(v@, p@, from as int) is None,
{
    let n = v.len();
    let m = p.len();
    if m > n {
        return None;
    }
    let mut i = from;
    while i <= n - m
        invariant
            n == v@.len(),
            m == p@.len(),
            m <= n,
            from <= i,
            find_from(v@, p@, from as int) == find_from(v@, p@, i as int),
        decreases n - i,
    {
        let mut k: usize = 0;
        let mut same = true;
        while k < m
            invariant
                i + m <= n == v@.len(),
                m == p@.len(),
                k <= m,
                same == (forall|j: int| 0 <= j < k ==> v@[i + j] == p@[j]),
            decreases m - k,
        {
            if v[i + k] != p[k] {
                same = false;
            }
            k = k + 1;
        }
        if same {
            assert(v@.subrange(i as int, i + m) =~= p@);
            return Some(i);
        } else {
            proof {
                let j = choose|j: int| 0 <= j < m && v@[i + j] != p@[j];
                assert(v@.subrange(i as int, i + m)[j] != p@[j]);
            }
        }
        i = i + 1;
    }
    None
}

/// `find_chars_from` from the start.
pub fn find_chars(v: &[char], p: &[char]) -> (r: Option<usize>)
    ensures
        r matches Some(k) ==> find(v@, p@) == Some(k as int),
        r is None ==> find(v@, p@) is None,
{
    find_chars_from(v, p, 0)
}

fn append_chars(out: &mut Vec<char>, v: &[char], lo: usize, hi: usize)
    requires
        lo <= hi <= v@.len(),
    ensures
        final(out)@ == old(out)@ + v@.subrange(lo as int, hi as int),
{
    let mut i = lo;
    while i < hi
        invariant
            lo <= i <= hi <= v@.len(),
            out@ == old(out)@ + v@.subrange(lo as int, i as int),
        decreases hi - i,
    {
        out.push(v[i]);
        assert(v@.subrange(lo as int, i + 1) == v@.subrange(lo as int, i as int).push(v@[i as int]));
        i = i + 1;
    }
}

/// `n[..b] + m + tail_after_block(n[end_exclusive..])`.
fn replace_span(n: &Vec<char>, m: &Vec<char>, b: usize, end_exclusive: usize) -> (r: Vec<char>)
    requires
        b <= end_exclusive <= n@.len(),
        n@.len() > 0 ==> n@.last() == '\n',
    ensures
        r@ == n@.take(b as int) + m@ + tail_after_block(n@.skip(end_exclusive as int)),
{
    let mut out: Vec<char> = Vec::new();
    append_chars(&mut out, n, 0, b);
    append_chars(&mut out, m, 0, m.len());
    let mut k = end_exclusive;
    while k < n.len() && n[k] == '\n'
        invariant
            end_exclusive <= k <= n@.len(),
            skip_newlines_from(n@.skip(end_exclusive as int), 0) == skip_newlines_from(
                n@.skip(end_exclusive as int),
                k - end_exclusive,
            ),
        decreases n@.len() - k,
    {
        k = k + 1;
    }
    proof {
        let rest = n@.skip(end_exclusive as int);
        lemma_skip_newlines_bounds(rest, k - end_exclusive);
        assert(trim_leading_newlines(rest) =~= n@.subrange(k as int, n@.len() as int));
    }
    append_chars(&mut out, n, k, n.len());
    if k < n.len() && n[n.len() - 1] != '\n' {
        out.push('\n');
    }
    proof {
        assert(m@.subrange(0, m@.len() as int) == m@);
        assert(n@.subrange(0, b as int) == n@.take(b as int));
        let rest = n@.skip(end_exclusive as int);
        let r = trim_leading_newlines(rest);
        assert(r == n@.subrange(k as int, n@.len() as int));
        if r.len() > 0 {
            assert(r.last() == n@.last());
        }
    }
    out
}

/// Replaces the managed block in `existing`, or appends it (see
/// `spec_upsert`). Text outside the block is kept.
pub fn upsert_managed_block(existing: &str, managed: &str) -> (r: String)
    ensures
        r@ == spec_upsert(existing@, managed@),
{
    let e = chars_of(existing);
    let mut n: Vec<char> = sub_vec(&e, 0, e.len());
    assert(e@.subrange(0, e@.len() as int) == e@);
    if n.len() > 0 && n[n.len() - 1] != '\n' {
        n.push('\n');
    }
    assert(n@ == with_final_newline(existing@));
    let m = chars_of(managed);
    let begin = chars_of(MANAGED_BEGIN);
    let end = chars_of(MANAGED_END);
    let b = find_chars(&n, &begin);
    let f = find_chars(&n, &end);
    if let (Some(bi), Some(ei)) = (b, f) {
        if bi <= ei {
            let nlen = n.len();
            proof {
                lemma_find_from_bounds(n@, end@, 0);
                assert(occurs_at(n@, end@, ei as int));
            }
            let end_exclusive = ei + end.len();
            let out = replace_span(&n, &m, bi, end_exclusive);
            return string_from_chars(&out);
        }
    }
    if n.len() == 0 {
        return String::from_str(managed);
    }
    let mut out: Vec<char> = Vec::new();
    append_chars(&mut out, &n, 0, n.len());
    out.push('\n');
    append_chars(&mut out, &m, 0, m.len());
    proof {
        assert(n@.subrange(0, n@.len() as int) == n@);
        assert(m@.subrange(0, m@.len() as int) == m@);
    }
    string_from_chars(&out)
}

pub proof fn lemma_skip_newlines_bounds(s: Seq<char>, i: int)
    requires
        0 <= i <= s.len(),
    ensures
        i <= skip_newlines_from(s, i) <= s.len(),
        skip_newlines_from(s, i) < s.len() ==> s[skip_newlines_from(s, i)] != '\n',
    decreases s.len() - i,
{
    if i < s.len() && s[i] == '\n' {
        lemma_skip_newlines_bounds(s, i + 1);
    }
}


/// The lines of the managed guidance block; joined with newlines they end
/// with a newline.
pub open spec fn managed_block_lines() -> Seq<Seq<char>> {
    seq![
        "<!-- AYNI:BEGIN -->"@,
        "## Code quality guidance for AI agents"@,
        ""@,
        "Discover the command surface with `ayni help`, `ayni help <command> [subcommand]`,"@,
        "or `ayni <command> --help`."@,
        ""@,
        "Treat `.ayni.toml` as the authoritative repository quality policy. Run"@,
        "`ayni contract show` for its validated effective summary, and inspect the"@,
        "policy itself before proposing a policy change."@,
        ""@,
        "During an edit, use the narrowest supported `ayni verify <signal>`:"@,
        ""@,
        "```sh"@,
        "ayni verify <signal> [selectors]"@,
        "```"@,
        ""@,
        "Use `ayni verify list` to list exact commands from the last repository artifact,"@,
        "then rerun the exact verification command supplied by a finding. For a change-scoped"@,
        "loop, run `ayni impact show --base <revision>` and then `ayni impact run`,"@,
        "copying the same explicit base. Impact success is not repository completion;"@,
        "run one unscoped `ayni check` at the caller's completion boundary."@,
        ""@,
        "Run quality commands directly; never wrap them in `ayni env run`. Treat `env"@,
        "shell` and `env run` as intentional advanced access because they mount the"@,
        "checkout read-write and do not produce normalized quality evidence."@,
        ""@,
        "Treat missing or incomplete artifacts as failure, and never loosen `.ayni.toml` merely"@,
        "to silence a finding."@,
        ""@,
        "Use the full repository analysis as the completion gate:"@,
        ""@,
        "```sh"@,
        "ayni check"@,
        "```"@,
        ""@,
        "A non-zero exit code means the quality contract was not satisfied: a signal"@,
        "may have failed, expected work may be incomplete, or setup may be invalid."@,
        "Read `.ayni/last/signals.json` when present for detailed, typed signal results,"@,
        "completion state and target accounting. For each finding, rerun its exact"@,
        "verification command and repair the listed offenders."@,
        "<!-- AYNI:END -->"@,
        ""@,
    ]
}

pub const MANAGED_BLOCK_LINE_COUNT: usize = 42;

/// The managed guidance block: the policy, focused verification, impact
/// and completion workflow, between the begin and end markers.
pub fn managed_block() -> (r: String)
    ensures
        r@ == join(managed_block_lines(), seq!['\n']),
{
    let lines: [&str; 42] = [
        "<!-- AYNI:BEGIN -->",
        "## Code quality guidance for AI agents",
        "",
        "Discover the command surface with `ayni help`, `ayni help <command> [subcommand]`,",
        "or `ayni <command> --help`.",
        "",
        "Treat `.ayni.toml` as the authoritative repository quality policy. Run",
        "`ayni contract show` for its validated effective summary, and inspect the",
        "policy itself before proposing a policy change.",
        "",
        "During an edit, use the narrowest supported `ayni verify <signal>`:",
        "",
        "```sh",
        "ayni verify <signal> [selectors]",
        "```",
        "",
        "Use `ayni verify list` to list exact commands from the last repository artifact,",
        "then rerun the exact verification command supplied by a finding. For a change-scoped",
        "loop, run `ayni impact show --base <revision>` and then `ayni impact run`,",
        "copying the same explicit base. Impact success is not repository completion;",
        "run one unscoped `ayni check` at the caller's completion boundary.",
        "",
        "Run quality commands directly; never wrap them in `ayni env run`. Treat `env",
        "shell` and `env run` as intentional advanced access because they mount the",
        "checkout read-write and do not produce normalized quality evidence.",
        "",
        "Treat missing or incomplete artifacts as failure, and never loosen `.ayni.toml` merely",
        "to silence a finding.",
        "",
        "Use the full repository analysis as the completion gate:",
        "",
        "```sh",
        "ayni check",
        "```",
        "",
        "A non-zero exit code means the quality contract was not satisfied: a signal",
        "may have failed, expected work may be incomplete, or setup may be invalid.",
        "Read `.ayni/last/signals.json` when present for detailed, typed signal results,",
        "completion state and target accounting. For each finding, rerun its exact",
        "verification command and repair the listed offenders.",
        "<!-- AYNI:END -->",
        "",
    ];
    let ghost want = managed_block_lines();
    assert(lines@.map_values(|l: &str| l@) =~= want);
    let mut out = String::new();
    let mut i: usize = 0;
    while i < 42
        invariant
            i <= 42,
            lines@.map_values(|l: &str| l@) == want,
            out@ == join(want.take(i as int), seq!['\n']),
        decreases 42 - i,
    {
        if i > 0 {
            out.append("\n");
        }
        out.append(lines[i]);
        proof {
            assert(want.take(i + 1).drop_last() == want.take(i as int));
            assert(want[i as int] == lines@[i as int]@);
            reveal_strlit("\n");
        }
        i = i + 1;
    }
    assert(want.take(42) == want);
    out
}


/// No character of `s` is `c`.
pub open spec fn lacks_char(s: Seq<char>, c: char) -> bool {
    forall|i: int| 0 <= i < s.len() ==> s[i] != c
}

/// The managed block as text.
pub open spec fn managed_text() -> Seq<char> {
    join(managed_block_lines(), seq!['\n'])
}

/// The shape of a managed block that makes a refresh find it again: it
/// opens with the begin marker, closes with the end marker and a newline,
/// and between its second character and the end marker holds no `!` (the
/// second character of both markers).
pub open spec fn block_shaped(m: Seq<char>) -> bool {
    &&& m.len() >= 37
    &&& m.take(19) == begin_marker()
    &&& m.skip(m.len() - 18) == end_marker().push('\n')
    &&& forall|t: int| 2 <= t <= m.len() - 18 ==> m[t] != '!'
}

/// The existing text has either no marker or a begin marker first found no
/// later than the first end marker.
pub open spec fn markers_in_order(existing: Seq<char>) -> bool {
    let n = with_final_newline(existing);
    match (find(n, begin_marker()), find(n, end_marker())) {
        (None, None) => true,
        (Some(b), Some(e)) => b <= e,
        _ => false,
    }
}

proof fn lemma_marker_chars()
    ensures
        begin_marker().len() == 19,
        end_marker().len() == 17,
        begin_marker()[1] == '!',
        end_marker()[1] == '!',
        begin_marker()[18] == '>',
        end_marker()[16] == '>',
        begin_marker()[10] != end_marker()[10],
        forall|k: int| 0 <= k < 18 ==> begin_marker()[k] != '>',
        forall|k: int| 2 <= k < 19 ==> begin_marker()[k] != '!',
{
    reveal_strlit("<!-- AYNI:BEGIN -->");
    reveal_strlit("<!-- AYNI:END -->");
}

proof fn lemma_find_from_exact(s: Seq<char>, p: Seq<char>, i: int, k: int)
    requires
        0 <= i <= k,
        occurs_at(s, p, k),
        forall|j: int| i <= j < k ==> !occurs_at(s, p, j),
    ensures
        find_from(s, p, i) == Some(k),
    decreases k - i,
{
    if i < k {
        lemma_find_from_exact(s, p, i + 1, k);
    }
}

/// The first begin and end markers of `pre + m + post` are those of the
/// block `m` when `pre` holds neither marker.
proof fn lemma_markers_of_placed_block(pre: Seq<char>, m: Seq<char>, post: Seq<char>)
    requires
        block_shaped(m),
        forall|j: int| !occurs_at(pre, begin_marker(), j),
        forall|j: int| !occurs_at(pre, end_marker(), j),
    ensures
        find(pre + m + post, begin_marker()) == Some(pre.len() as int),
        find(pre + m + post, end_marker()) == Some(pre.len() + m.len() - 18),
{
    lemma_marker_chars();
    let r = pre + m + post;
    let bm = begin_marker();
    let em = end_marker();
    let pl = pre.len() as int;
    assert(r.subrange(pl, pl + 19) =~= m.take(19));
    assert forall|j: int| 0 <= j < pl implies !occurs_at(r, bm, j) by {
        if occurs_at(r, bm, j) {
            if j + 19 <= pl {
                assert(pre.subrange(j, j + 19) =~= r.subrange(j, j + 19));
                assert(occurs_at(pre, bm, j));
            } else {
                assert(r.subrange(j, j + 19)[18] == bm[18]);
                assert(r[j + 18] == m[j + 18 - pl]);
                assert(m.take(19)[j + 18 - pl] == bm[j + 18 - pl]);
            }
        }
    }
    lemma_find_from_exact(r, bm, 0, pl);
    let q = pl + m.len() - 18;
    assert(r.subrange(q, q + 17) =~= m.skip(m.len() - 18).take(17));
    assert(end_marker().push('\n').take(17) =~= em);
    assert forall|j: int| 0 <= j < q implies !occurs_at(r, em, j) by {
        if occurs_at(r, em, j) {
            if j + 17 <= pl {
                assert(pre.subrange(j, j + 17) =~= r.subrange(j, j + 17));
                assert(occurs_at(pre, em, j));
            } else if j < pl {
                assert(r.subrange(j, j + 17)[16] == em[16]);
                assert(r[j + 16] == m[j + 16 - pl]);
                assert(m.take(19)[j + 16 - pl] == bm[j + 16 - pl]);
            } else if j == pl {
                assert(r.subrange(j, j + 17)[10] == em[10]);
                assert(r[j + 10] == m[10]);
                assert(m.take(19)[10] == bm[10]);
            } else {
                assert(r.subrange(j, j + 17)[1] == em[1]);
                assert(r[j + 1] == m[j + 1 - pl]);
            }
        }
    }
    lemma_find_from_exact(r, em, 0, q);
}

proof fn lemma_join_cons(a: Seq<char>, rest: Seq<Seq<char>>, sep: Seq<char>)
    requires
        rest.len() >= 1,
    ensures
        join(seq![a] + rest, sep) == a + sep + join(rest, sep),
    decreases rest.len(),
{
    let x = seq![a] + rest;
    assert(x.last() == rest.last());
    assert(join(seq![a], sep) == a);
    if rest.len() == 1 {
        assert(x.drop_last() =~= seq![a]);
        assert(join(rest, sep) == rest[0]);
    } else {
        assert(x.drop_last() =~= seq![a] + rest.drop_last());
        lemma_join_cons(a, rest.drop_last(), sep);
        assert(join(rest, sep) == join(rest.drop_last(), sep) + sep + rest.last());
        assert(a + sep + join(rest.drop_last(), sep) + sep + rest.last() =~= a + sep + (join(
            rest.drop_last(),
            sep,
        ) + sep + rest.last()));
    }
}

proof fn lemma_join_lacks_char(pieces: Seq<Seq<char>>, sep: Seq<char>, c: char)
    requires
        lacks_char(sep, c),
        forall|i: int| 0 <= i < pieces.len() ==> lacks_char(#[trigger] pieces[i], c),
    ensures
        lacks_char(join(pieces, sep), c),
    decreases pieces.len(),
{
    if pieces.len() > 1 {
        lemma_join_lacks_char(pieces.drop_last(), sep, c);
        let j = join(pieces.drop_last(), sep);
        assert forall|i: int| 0 <= i < (j + sep + pieces.last()).len() implies (j + sep
            + pieces.last())[i] != c by {
            if i >= j.len() + sep.len() {
                assert(lacks_char(pieces[pieces.len() - 1], c));
            }
        }
    } else if pieces.len() == 1 {
        assert(lacks_char(pieces[0], c));
    }
}

/// The guidance lines between the markers hold no `!`.
proof fn lemma_guidance_lacks_bang()
    ensures
        forall|i: int|
            1 <= i < 40 ==> lacks_char(#[trigger] managed_block_lines()[i], '!'),
{
    let lines = managed_block_lines();
    reveal_strlit("## Code quality guidance for AI agents");
    assert(lacks_char(lines[1], '!'));
    reveal_strlit("");
    assert(lacks_char(lines[2], '!'));
    reveal_strlit("Discover the command surface with `ayni help`, `ayni help <command> [subcommand]`,");
    assert(lacks_char(lines[3], '!'));
    reveal_strlit("or `ayni <command> --help`.");
    assert(lacks_char(lines[4], '!'));
    reveal_strlit("");
    assert(lacks_char(lines[5], '!'));
    reveal_strlit("Treat `.ayni.toml` as the authoritative repository quality policy. Run");
    assert(lacks_char(lines[6], '!'));
    reveal_strlit("`ayni contract show` for its validated effective summary, and inspect the");
    assert(lacks_char(lines[7], '!'));
    reveal_strlit("policy itself before proposing a policy change.");
    assert(lacks_char(lines[8], '!'));
    reveal_strlit("");
    assert(lacks_char(lines[9], '!'));
    reveal_strlit("During an edit, use the narrowest supported `ayni verify <signal>`:");
    assert(lacks_char(lines[10], '!'));
    reveal_strlit("");
    assert(lacks_char(lines[11], '!'));
    reveal_strlit("```sh");
    assert(lacks_char(lines[12], '!'));
    reveal_strlit("ayni verify <signal> [selectors]");
    assert(lacks_char(lines[13], '!'));
    reveal_strlit("```");
    assert(lacks_char(lines[14], '!'));
    reveal_strlit("");
    assert(lacks_char(lines[15], '!'));
    reveal_strlit("Use `ayni verify list` to list exact commands from the last repository artifact,");
    assert(lacks_char(lines[16], '!'));
    reveal_strlit("then rerun the exact verification command supplied by a finding. For a change-scoped");
    assert(lacks_char(lines[17], '!'));
    reveal_strlit("loop, run `ayni impact show --base <revision>` and then `ayni impact run`,");
    assert(lacks_char(lines[18], '!'));
    reveal_strlit("copying the same explicit base. Impact success is not repository completion;");
    assert(lacks_char(lines[19], '!'));
    reveal_strlit("run one unscoped `ayni check` at the caller's completion boundary.");
    assert(lacks_char(lines[20], '!'));
    reveal_strlit("");
    assert(lacks_char(lines[21], '!'));
    reveal_strlit("Run quality commands directly; never wrap them in `ayni env run`. Treat `env");
    assert(lacks_char(lines[22], '!'));
    reveal_strlit("shell` and `env run` as intentional advanced access because they mount the");
    assert(lacks_char(lines[23], '!'));
    reveal_strlit("checkout read-write and do not produce normalized quality evidence.");
    assert(lacks_char(lines[24], '!'));
    reveal_strlit("");
    assert(lacks_char(lines[25], '!'));
    reveal_strlit("Treat missing or incomplete artifacts as failure, and never loosen `.ayni.toml` merely");
    assert(lacks_char(lines[26], '!'));
    reveal_strlit("to silence a finding.");
    assert(lacks_char(lines[27], '!'));
    reveal_strlit("");
    assert(lacks_char(lines[28], '!'));
    reveal_strlit("Use the full repository analysis as the completion gate:");
    assert(lacks_char(lines[29], '!'));
    reveal_strlit("");
    assert(lacks_char(lines[30], '!'));
    reveal_strlit("```sh");
    assert(lacks_char(lines[31], '!'));
    reveal_strlit("ayni check");
    assert(lacks_char(lines[32], '!'));
    reveal_strlit("```");
    assert(lacks_char(lines[33], '!'));
    reveal_strlit("");
    assert(lacks_char(lines[34], '!'));
    reveal_strlit("A non-zero exit code means the quality contract was not satisfied: a signal");
    assert(lacks_char(lines[35], '!'));
    reveal_strlit("may have failed, expected work may be incomplete, or setup may be invalid.");
    assert(lacks_char(lines[36], '!'));
    reveal_strlit("Read `.ayni/last/signals.json` when present for detailed, typed signal results,");
    assert(lacks_char(lines[37], '!'));
    reveal_strlit("completion state and target accounting. For each finding, rerun its exact");
    assert(lacks_char(lines[38], '!'));
    reveal_strlit("verification command and repair the listed offenders.");
    assert(lacks_char(lines[39], '!'));
}

pub proof fn lemma_managed_text_is_block_shaped()
    ensures
        block_shaped(managed_text()),
{
    lemma_marker_chars();
    lemma_guidance_lacks_bang();
    let lines = managed_block_lines();
    let nl = seq!['\n'];
    let mid = lines.subrange(1, 40);
    let bm = begin_marker();
    let em = end_marker();
    assert(lines.drop_last() =~= lines.subrange(0, 41));
    assert(lines.subrange(0, 41).drop_last() =~= lines.subrange(0, 40));
    assert(lines.subrange(0, 40) =~= seq![bm] + mid);
    lemma_join_cons(bm, mid, nl);
    assert forall|i: int| 0 <= i < mid.len() implies lacks_char(#[trigger] mid[i], '!') by {
        assert(mid[i] == lines[i + 1]);
    }
    assert(lacks_char(nl, '!'));
    lemma_join_lacks_char(mid, nl, '!');
    let jm = join(mid, nl);
    let m = managed_text();
    assert(lines[41] == Seq::<char>::empty()) by {
        reveal_strlit("");
    }
    assert(lines.subrange(0, 41).last() == lines[40]);
    assert(lines[40] == em);
    assert(join(lines, nl) == join(lines.subrange(0, 41), nl) + nl + lines[41]);
    assert(join(lines.subrange(0, 41), nl) == join(lines.subrange(0, 40), nl) + nl + em);
    assert(m =~= bm + nl + jm + nl + em + nl);
    assert(m.take(19) =~= bm);
    assert(m.skip(m.len() - 18) =~= em.push('\n'));
    assert forall|t: int| 2 <= t <= m.len() - 18 implies m[t] != '!' by {
        if t < 19 {
            assert(m[t] == bm[t]);
        } else if t == 19 {
        } else if t < 20 + jm.len() {
            assert(m[t] == jm[t - 20]);
        } else if t == 20 + jm.len() {
        } else {
            assert(m[t] == em[0]);
            reveal_strlit("<!-- AYNI:END -->");
        }
    }
}

/// Refreshing the managed block is idempotent: a second refresh with the
/// same block leaves the text as the first left it, for any text whose
/// markers are absent or in order.
pub proof fn law_upsert_is_idempotent(existing: Seq<char>)
    requires
        markers_in_order(existing),
    ensures
        spec_upsert(spec_upsert(existing, managed_text()), managed_text()) == spec_upsert(
            existing,
            managed_text(),
        ),
{
    lemma_marker_chars();
    lemma_managed_text_is_block_shaped();
    let m = managed_text();
    let n = with_final_newline(existing);
    let bm = begin_marker();
    let em = end_marker();
    let r1 = spec_upsert(existing, m);
    lemma_find_from_bounds(n, bm, 0);
    lemma_find_from_bounds(n, em, 0);
    let pre: Seq<char> = match (find(n, bm), find(n, em)) {
        (Some(b), Some(e)) => n.take(b),
        _ => if n.len() == 0 { Seq::empty() } else { n + seq!['\n'] },
    };
    let post: Seq<char> = match (find(n, bm), find(n, em)) {
        (Some(b), Some(e)) => tail_after_block(n.skip(e + 17)),
        _ => Seq::empty(),
    };
    match (find(n, bm), find(n, em)) {
        (Some(b), Some(e)) => {
            assert(occurs_at(n, bm, b) && occurs_at(n, em, e) && b <= e);
            assert(pre.len() == b);
            assert forall|j: int| !occurs_at(pre, bm, j) by {
                if occurs_at(pre, bm, j) {
                    assert(n.subrange(j, j + 19) =~= pre.subrange(j, j + 19));
                    assert(occurs_at(n, bm, j) && 0 <= j < b);
                }
            }
            assert forall|j: int| !occurs_at(pre, em, j) by {
                if occurs_at(pre, em, j) {
                    assert(n.subrange(j, j + 17) =~= pre.subrange(j, j + 17));
                    assert(occurs_at(n, em, j) && 0 <= j < e);
                }
            }
            assert(r1 =~= pre + m + post);
        },
        _ => {
            assert(find(n, bm) is None && find(n, em) is None);
            assert forall|j: int| !occurs_at(pre, bm, j) by {
                if occurs_at(pre, bm, j) && n.len() > 0 {
                    if j + 19 <= n.len() {
                        assert(n.subrange(j, j + 19) =~= pre.subrange(j, j + 19));
                        assert(occurs_at(n, bm, j));
                    } else {
                        assert(pre.subrange(j, j + 19)[18] == bm[18]);
                        assert(pre[j + 18] == '\n');
                    }
                }
            }
            assert forall|j: int| !occurs_at(pre, em, j) by {
                if occurs_at(pre, em, j) && n.len() > 0 {
                    if j + 17 <= n.len() {
                        assert(n.subrange(j, j + 17) =~= pre.subrange(j, j + 17));
                        assert(occurs_at(n, em, j));
                    } else {
                        assert(pre.subrange(j, j + 17)[16] == em[16]);
                        assert(pre[j + 16] == '\n');
                    }
                }
            }
            if n.len() == 0 {
                assert(r1 =~= pre + m + post);
            } else {
                assert(r1 =~= pre + m + post);
            }
        },
    }
    lemma_tail_shape(n, post);
    lemma_markers_of_placed_block(pre, m, post);
    assert(m.last() == m.skip(m.len() - 18)[17]);
    if post.len() == 0 {
        assert(r1.last() == m.last());
    } else {
        assert(r1.last() == post.last());
    }
    assert(with_final_newline(r1) == r1);
    let q = pre.len() + m.len() - 18;
    assert(r1.take(pre.len() as int) =~= pre);
    assert(r1.skip(q + 17) =~= seq!['\n'] + post);
    lemma_tail_after_newline(post);
}

/// What follows a replaced block is empty, or starts with a character other
/// than a newline and ends with a newline.
proof fn lemma_tail_shape(n: Seq<char>, post: Seq<char>)
    requires
        post == Seq::<char>::empty() || exists|k: int|
            0 <= k <= n.len() && post == tail_after_block(#[trigger] n.skip(k)),
    ensures
        post.len() == 0 || (post[0] != '\n' && post.last() == '\n'),
{
    if post.len() > 0 {
        let k = choose|k: int| 0 <= k <= n.len() && post == tail_after_block(#[trigger] n.skip(k));
        let rest = n.skip(k);
        lemma_skip_newlines_bounds(rest, 0);
    }
}

proof fn lemma_tail_after_newline(post: Seq<char>)
    requires
        post.len() == 0 || (post[0] != '\n' && post.last() == '\n'),
    ensures
        tail_after_block(seq!['\n'] + post) == post,
{
    let x = seq!['\n'] + post;
    assert(skip_newlines_from(x, 1) == 1);
    assert(skip_newlines_from(x, 0) == 1);
    assert(x.skip(1) =~= post);
}

/// Text that holds no begin marker is kept whole: the managed block is
/// appended to it, so the result starts with the text and ends with the
/// block.
pub proof fn law_upsert_keeps_text_without_block(existing: Seq<char>, managed: Seq<char>)
    requires
        forall|i: int| !occurs_at(existing, begin_marker(), i),
    ensures
        existing.is_prefix_of(spec_upsert(existing, managed)),
        managed.is_suffix_of(spec_upsert(existing, managed)),
{
    lemma_marker_chars();
    let n = with_final_newline(existing);
    let bm = begin_marker();
    lemma_find_from_bounds(n, bm, 0);
    if let Some(b) = find(n, bm) {
        assert(occurs_at(n, bm, b));
        if b + 19 > existing.len() {
            assert(n[b + 18] == bm[18]);
            assert(n[b + 18] == '\n');
        }
        assert(existing.subrange(b, b + 19) =~= n.subrange(b, b + 19));
        assert(occurs_at(existing, bm, b));
    }
    let r = spec_upsert(existing, managed);
    if n.len() == 0 {
        assert(r == managed);
        assert(existing.len() == 0);
    } else {
        assert(r == n + seq!['\n'] + managed);
        assert(existing =~= r.subrange(0, existing.len() as int));
        assert(managed =~= r.subrange(r.len() - managed.len(), r.len() as int));
    }
}

} // verus!
