//! Reading the changes Git reports: `--name-status -z` records, untracked
//! paths, and their place in the configured workspace.
use crate::contract::{debug_text, quoted};
use crate::evidence::{ChangeKind, ChangedPath};
use crate::order::{compare_text, sort_list, sort_listed, text_lt, Listed, TextOrder};
use crate::signals::concat;
use crate::text::{chars_of, split_char, starts_with, str_eq, string_from_range, string_views, views};
use vstd::prelude::*;
use vstd::utf8::{decode_utf8, valid_utf8};

verus! {

broadcast use vstd::string::group_string_axioms;

/// The `Display` text of the error `std::str::from_utf8` gives for bytes
/// that are not valid UTF-8.
pub uninterp spec fn utf8_error_text(bytes: Seq<u8>) -> Seq<char>;

/// `std::str::from_utf8`: the text the bytes encode, when they are valid
/// UTF-8, else its error's `Display` text. Trusted: the text is
/// `decode_utf8` of valid bytes, as its documentation states, and the
/// error is the named function of the bytes.
#[verifier::external_body]
pub(crate) fn utf8_text(bytes: &[u8]) -> (r: Result<&str, String>)
    ensures
        match r {
            Ok(s) => valid_utf8(bytes@) && s@ == decode_utf8(bytes@),
            Err(e) => !valid_utf8(bytes@) && e@ == utf8_error_text(bytes@),
        },
{
    std::str::from_utf8(bytes).map_err(|error| error.to_string())
}

/// The text that `format!("{c:?}")` gives for a character: the character
/// in single quotes, escaped where it needs to be.
pub uninterp spec fn debug_char_text(c: char) -> Seq<char>;

/// Writes `c` with `format!("{c:?}")` (std's `Debug` for `char`).
/// Trusted: the result is the named function of the character.
#[verifier::external_body]
fn debug_char(c: char) -> (r: String)
    ensures
        r@ == debug_char_text(c),
{
    format!("{c:?}")
}

/// The pieces of `bytes` between NUL bytes, empty pieces left out.
pub open spec fn nul_pieces(bytes: Seq<u8>) -> Seq<Seq<u8>>
    decreases bytes.len(),
{
    if bytes.len() == 0 {
        seq![]
    } else {
        let prev = nul_pieces(bytes.drop_last());
        let cur = open_piece(bytes.drop_last());
        if bytes.last() == 0 {
            prev
        } else if cur.len() == 0 {
            prev.push(seq![bytes.last()])
        } else {
            prev.drop_last().push(cur.push(bytes.last()))
        }
    }
}

/// The bytes after the last NUL (the piece still being read).
pub open spec fn open_piece(bytes: Seq<u8>) -> Seq<u8>
    decreases bytes.len(),
{
    if bytes.len() == 0 {
        seq![]
    } else if bytes.last() == 0 {
        seq![]
    } else {
        open_piece(bytes.drop_last()).push(bytes.last())
    }
}

pub open spec fn non_utf8_path_message() -> Seq<char> {
    "Git returned a non-UTF-8 repository path"@
}

/// The NUL-separated texts, or an error when one is not UTF-8.
pub open spec fn spec_nul_strings(bytes: Seq<u8>) -> Result<Seq<Seq<char>>, Seq<char>> {
    let pieces = nul_pieces(bytes);
    if forall|k: int| 0 <= k < pieces.len() ==> valid_utf8(#[trigger] pieces[k]) {
        Ok(pieces.map_values(|p: Seq<u8>| decode_utf8(p)))
    } else {
        Err(non_utf8_path_message())
    }
}

proof fn lemma_open_piece_is_last(bytes: Seq<u8>)
    ensures
        open_piece(bytes).len() > 0 ==> nul_pieces(bytes).len() > 0 && nul_pieces(bytes).last() == open_piece(bytes),
        forall|k: int| 0 <= k < nul_pieces(bytes).len() ==> (#[trigger] nul_pieces(bytes)[k]).len() > 0,
    decreases bytes.len(),
{
    if bytes.len() > 0 {
        lemma_open_piece_is_last(bytes.drop_last());
        let prev = nul_pieces(bytes.drop_last());
        let cur = nul_pieces(bytes);
        assert forall|k: int| 0 <= k < cur.len() implies (#[trigger] cur[k]).len() > 0 by {
            if k < prev.len() - 1 || (k < prev.len() && bytes.last() == 0) || (k < prev.len() && open_piece(bytes.drop_last()).len() == 0) {
                assert(cur[k] == prev[k]);
            }
        }
    }
}

/// The pieces of `bytes` between NUL bytes.
pub(crate) fn split_nul(bytes: &[u8]) -> (r: Vec<Vec<u8>>)
    ensures
        r@.map_values(|p: Vec<u8>| p@) == nul_pieces(bytes@),
{
    let mut out: Vec<Vec<u8>> = Vec::new();
    let mut cur: Vec<u8> = Vec::new();
    let mut i: usize = 0;
    while i < bytes.len()
        invariant
            i <= bytes@.len(),
            cur@ == open_piece(bytes@.take(i as int)),
            (if cur@.len() > 0 {
                out@.map_values(|p: Vec<u8>| p@).push(cur@)
            } else {
                out@.map_values(|p: Vec<u8>| p@)
            }) == nul_pieces(bytes@.take(i as int)),
        decreases bytes@.len() - i,
    {
        proof {
            assert(bytes@.take(i + 1).drop_last() =~= bytes@.take(i as int));
            assert(bytes@.take(i + 1).last() == bytes@[i as int]);
            lemma_open_piece_is_last(bytes@.take(i as int));
        }
        let b = bytes[i];
        if b == 0 {
            if cur.len() > 0 {
                let done = cur;
                let ghost before = out@;
                out.push(done);
                cur = Vec::new();
                assert(out@.map_values(|p: Vec<u8>| p@) =~= before.map_values(|p: Vec<u8>| p@).push(done@));
            }
        } else {
            cur.push(b);
        }
        i = i + 1;
    }
    assert(bytes@.take(bytes@.len() as int) =~= bytes@);
    if cur.len() > 0 {
        let ghost before = out@;
        let done = cur;
        out.push(done);
        assert(out@.map_values(|p: Vec<u8>| p@) =~= before.map_values(|p: Vec<u8>| p@).push(done@));
    }
    out
}

/// The NUL-separated UTF-8 texts of `bytes` (Git's `-z` output).
pub fn nul_strings(bytes: &[u8]) -> (r: Result<Vec<String>, String>)
    ensures
        match spec_nul_strings(bytes@) {
            Ok(texts) => r matches Ok(v) && string_views(v@) == texts,
            Err(e) => r matches Err(m) && m@ == e,
        },
{
    let pieces = split_nul(bytes);
    let ghost pv = pieces@.map_values(|p: Vec<u8>| p@);
    let mut out: Vec<String> = Vec::new();
    let mut i: usize = 0;
    while i < pieces.len()
        invariant
            i <= pieces@.len(),
            pv == pieces@.map_values(|p: Vec<u8>| p@),
            pv == nul_pieces(bytes@),
            forall|k: int| 0 <= k < i ==> valid_utf8(#[trigger] pv[k]),
            string_views(out@) == pv.take(i as int).map_values(|p: Seq<u8>| decode_utf8(p)),
        decreases pieces@.len() - i,
    {
        assert(pv[i as int] == pieces@[i as int]@);
        match utf8_text(pieces[i].as_slice()) {
            Ok(s) => {
                let t = String::from_str(s);
                let ghost before = out@;
                out.push(t);
                assert(string_views(out@) =~= string_views(before).push(t@));
                assert(pv.take(i + 1) =~= pv.take(i as int).push(pv[i as int]));
                assert(pv.take(i + 1).map_values(|p: Seq<u8>| decode_utf8(p)) =~= pv.take(i as int).map_values(
                    |p: Seq<u8>| decode_utf8(p),
                ).push(decode_utf8(pv[i as int])));
            },
            Err(_) => {
                return Err(String::from_str("Git returned a non-UTF-8 repository path"));
            },
        }
        i = i + 1;
    }
    assert(pv.take(pv.len() as int) =~= pv);
    Ok(out)
}

pub open spec fn unsafe_path_message(path: Seq<char>) -> Seq<char> {
    "Git returned an unsafe path: "@ + debug_text(path)
}

/// A path Git may report: relative, with `/` separators, never leaving the
/// repository through `..`.
pub open spec fn is_safe_git_path(path: Seq<char>) -> bool {
    path.len() > 0 && !path.contains('\\') && path[0] != '/' && !split_char(path, '/').contains(".."@)
}

pub open spec fn spec_normalize_git_path(path: Seq<char>) -> Result<Seq<char>, Seq<char>> {
    if is_safe_git_path(path) {
        Ok(path)
    } else {
        Err(unsafe_path_message(path))
    }
}

fn safe_git_path(path: &str) -> (r: Result<String, String>)
    ensures
        match spec_normalize_git_path(path@) {
            Ok(p) => r matches Ok(s) && s@ == p,
            Err(e) => r matches Err(m) && m@ == e,
        },
{
    let v = chars_of(path);
    let slash = ['/'];
    assert(slash@ == seq!['/']);
    let parts = crate::text::split_on(&v, &slash);
    proof {
        crate::text::lemma_split_chars_single(v@, '/');
    }
    let mut dotdot = false;
    let mut k: usize = 0;
    let up = chars_of("..");
    while k < parts.len()
        invariant
            k <= parts@.len(),
            views(parts@) == split_char(v@, '/'),
            up@ == ".."@,
            dotdot == exists|j: int| 0 <= j < k && (#[trigger] views(parts@)[j]) == ".."@,
        decreases parts@.len() - k,
    {
        assert(views(parts@)[k as int] == parts@[k as int]@);
        if crate::text::chars_eq(&parts[k], &up) {
            dotdot = true;
        }
        k = k + 1;
    }
    proof {
        if split_char(v@, '/').contains(".."@) {
            let j = choose|j: int| 0 <= j < split_char(v@, '/').len() && split_char(v@, '/')[j] == ".."@;
            assert(views(parts@)[j] == ".."@);
        }
    }
    if v.len() == 0 || crate::text::chars_contain(&v, '\\') || v[0] == '/' || dotdot {
        let q = quoted(path);
        return Err(concat("Git returned an unsafe path: ", q.as_str()));
    }
    Ok(String::from_str(path))
}

/// A path of the repository as a path of the workspace at `prefix`.
pub open spec fn spec_path_for_workspace(path: Seq<char>, prefix: Seq<char>) -> Option<Seq<char>> {
    if prefix.len() == 0 {
        Some(path)
    } else if starts_with(path, prefix + "/"@) {
        Some(path.skip(prefix.len() + 1int))
    } else {
        None
    }
}

pub fn path_for_workspace(path: &str, prefix: &str) -> (r: Option<String>)
    ensures
        match spec_path_for_workspace(path@, prefix@) {
            Some(p) => r matches Some(s) && s@ == p,
            None => r is None,
        },
{
    let pv = chars_of(prefix);
    if pv.len() == 0 {
        return Some(String::from_str(path));
    }
    let v = chars_of(path);
    let with_slash = crate::text::chars_concat(&pv, &['/']);
    assert(with_slash@ == prefix@ + "/"@) by {
        reveal_strlit("/");
        assert("/"@ =~= seq!['/']);
    }
    if crate::text::chars_start_with(&v, &with_slash) {
        Some(string_from_range(&v, with_slash.len(), v.len()))
    } else {
        None
    }
}

pub open spec fn change_view(c: ChangedPath) -> (ChangeKind, Seq<char>, Option<Seq<char>>) {
    (
        c.kind,
        c.path@,
        match c.previous_path {
            Some(p) => Some(p@),
            None => None,
        },
    )
}

pub open spec fn change_views(v: Seq<ChangedPath>) -> Seq<(ChangeKind, Seq<char>, Option<Seq<char>>)> {
    v.map_values(|c: ChangedPath| change_view(c))
}

/// A change of the repository as changes of the workspace at `prefix`: a
/// rename or copy across the workspace boundary is the addition (or, for a
/// rename out of it, the deletion) of the path inside.
pub open spec fn spec_change_for_workspace(
    c: (ChangeKind, Seq<char>, Option<Seq<char>>),
    prefix: Seq<char>,
) -> Seq<(ChangeKind, Seq<char>, Option<Seq<char>>)> {
    let current = spec_path_for_workspace(c.1, prefix);
    let previous = match c.2 {
        Some(p) => spec_path_for_workspace(p, prefix),
        None => None,
    };
    let moved = c.0 == ChangeKind::Renamed || c.0 == ChangeKind::Copied;
    match (current, previous) {
        (Some(path), Some(prev)) if moved => seq![(c.0, path, Some(prev))],
        (Some(path), None) if moved => seq![(ChangeKind::Added, path, None)],
        (None, Some(prev)) if c.0 == ChangeKind::Renamed => seq![(ChangeKind::Deleted, prev, None)],
        (Some(path), _) => seq![(c.0, path, None)],
        _ => seq![],
    }
}

pub fn change_for_workspace(change: ChangedPath, prefix: &str) -> (r: Vec<ChangedPath>)
    ensures
        change_views(r@) == spec_change_for_workspace(change_view(change), prefix@),
{
    let current = path_for_workspace(change.path.as_str(), prefix);
    let previous = match &change.previous_path {
        Some(p) => path_for_workspace(p.as_str(), prefix),
        None => None,
    };
    let moved = change.kind == ChangeKind::Renamed || change.kind == ChangeKind::Copied;
    let mut out: Vec<ChangedPath> = Vec::new();
    match (current, previous) {
        (Some(path), Some(prev)) => {
            if moved {
                out.push(ChangedPath { kind: change.kind, path, previous_path: Some(prev) });
            } else {
                out.push(ChangedPath { kind: change.kind, path, previous_path: None });
            }
        },
        (Some(path), None) => {
            if moved {
                out.push(ChangedPath { kind: ChangeKind::Added, path, previous_path: None });
            } else {
                out.push(ChangedPath { kind: change.kind, path, previous_path: None });
            }
        },
        (None, Some(prev)) => {
            if change.kind == ChangeKind::Renamed {
                out.push(ChangedPath { kind: ChangeKind::Deleted, path: prev, previous_path: None });
            }
        },
        (None, None) => {},
    }
    assert(change_views(out@) =~= spec_change_for_workspace(change_view(change), prefix@));
    out
}


/// The first index of `c` in `s`.
pub open spec fn first_index_of(s: Seq<char>, c: char) -> Option<int>
    decreases s.len(),
{
    if s.len() == 0 {
        None
    } else if s[0] == c {
        Some(0)
    } else {
        match first_index_of(s.drop_first(), c) {
            Some(i) => Some(i + 1),
            None => None,
        }
    }
}

proof fn lemma_first_index_of(s: Seq<char>, c: char)
    ensures
        match first_index_of(s, c) {
            Some(i) => 0 <= i < s.len() && s[i] == c && forall|j: int| 0 <= j < i ==> s[j] != c,
            None => forall|j: int| 0 <= j < s.len() ==> s[j] != c,
        },
    decreases s.len(),
{
    if s.len() > 0 && s[0] != c {
        lemma_first_index_of(s.drop_first(), c);
        match first_index_of(s.drop_first(), c) {
            Some(i) => {
                assert forall|j: int| 0 <= j < i + 1 implies s[j] != c by {
                    if j > 0 {
                        assert(s[j] == s.drop_first()[j - 1]);
                    }
                }
            },
            None => {
                assert forall|j: int| 0 <= j < s.len() implies s[j] != c by {
                    if j > 0 {
                        assert(s[j] == s.drop_first()[j - 1]);
                    }
                }
            },
        }
    }
}

/// A record's status and, when it is written inline after a tab, its path.
pub open spec fn split_tab(token: Seq<char>) -> (Seq<char>, Option<Seq<char>>) {
    match first_index_of(token, '\t') {
        Some(i) => (token.take(i), Some(token.skip(i + 1))),
        None => (token, None),
    }
}

pub open spec fn simple_kind(code: char) -> ChangeKind {
    if code == 'A' {
        ChangeKind::Added
    } else if code == 'D' {
        ChangeKind::Deleted
    } else if code == 'T' {
        ChangeKind::TypeChanged
    } else {
        ChangeKind::Modified
    }
}

pub open spec fn unsupported_status_message(code: char) -> Seq<char> {
    "unsupported Git change status "@ + debug_char_text(code) + "; resolve the worktree state first"@
}

/// The changes of the records from token `i` on: each record is a status
/// (with its path inline after a tab, or as the next token); renames and
/// copies carry their destination as one more token.
pub open spec fn parse_from(tokens: Seq<Seq<char>>, i: int) -> Result<Seq<(ChangeKind, Seq<char>, Option<Seq<char>>)>, Seq<char>>
    decreases tokens.len() - i,
{
    if i < 0 || i >= tokens.len() {
        Ok(seq![])
    } else {
        let (status, inline) = split_tab(tokens[i]);
        if status.len() == 0 {
            Err("Git emitted an empty change status"@)
        } else {
            let code = status[0];
            let (first, next) = match inline {
                Some(p) => (Some(p), i + 1),
                None => if i + 1 < tokens.len() {
                    (Some(tokens[i + 1]), i + 2)
                } else {
                    (None, i + 1)
                },
            };
            match first {
                None => Err("Git change status is missing a path"@),
                Some(first_path) => if code == 'R' || code == 'C' {
                    if next >= tokens.len() {
                        Err("Git rename/copy status is missing a destination"@)
                    } else {
                        match spec_normalize_git_path(tokens[next]) {
                            Err(e) => Err(e),
                            Ok(dest) => match spec_normalize_git_path(first_path) {
                                Err(e) => Err(e),
                                Ok(prev) => match parse_from(tokens, next + 1) {
                                    Err(e) => Err(e),
                                    Ok(rest) => Ok(seq![(
                                        if code == 'R' {
                                            ChangeKind::Renamed
                                        } else {
                                            ChangeKind::Copied
                                        },
                                        dest,
                                        Some(prev),
                                    )] + rest),
                                },
                            },
                        }
                    }
                } else if code == 'A' || code == 'M' || code == 'D' || code == 'T' {
                    match spec_normalize_git_path(first_path) {
                        Err(e) => Err(e),
                        Ok(p) => match parse_from(tokens, next) {
                            Err(e) => Err(e),
                            Ok(rest) => Ok(seq![(simple_kind(code), p, None)] + rest),
                        },
                    }
                } else {
                    Err(unsupported_status_message(code))
                },
            }
        }
    }
}

pub open spec fn spec_parse_name_status(bytes: Seq<u8>) -> Result<Seq<(ChangeKind, Seq<char>, Option<Seq<char>>)>, Seq<char>> {
    match spec_nul_strings(bytes) {
        Err(e) => Err(e),
        Ok(tokens) => parse_from(tokens, 0),
    }
}

/// `done` followed by what is still to be parsed.
pub open spec fn after(
    done: Seq<(ChangeKind, Seq<char>, Option<Seq<char>>)>,
    rest: Result<Seq<(ChangeKind, Seq<char>, Option<Seq<char>>)>, Seq<char>>,
) -> Result<Seq<(ChangeKind, Seq<char>, Option<Seq<char>>)>, Seq<char>> {
    match rest {
        Ok(r) => Ok(done + r),
        Err(e) => Err(e),
    }
}

fn err_text(s: &str) -> (r: Result<Vec<ChangedPath>, String>)
    ensures
        r matches Err(m) && m@ == s@,
{
    Err(String::from_str(s))
}

/// The changes of a `git diff --name-status -z` output.
pub fn parse_name_status(bytes: &[u8]) -> (r: Result<Vec<ChangedPath>, String>)
    ensures
        match spec_parse_name_status(bytes@) {
            Ok(changes) => r matches Ok(v) && change_views(v@) == changes,
            Err(e) => r matches Err(m) && m@ == e,
        },
{
    let tokens = match nul_strings(bytes) {
        Ok(t) => t,
        Err(e) => return Err(e),
    };
    let ghost tv = string_views(tokens@);
    let mut changes: Vec<ChangedPath> = Vec::new();
    let mut index: usize = 0;
    while index < tokens.len()
        invariant
            index <= tokens@.len(),
            tv == string_views(tokens@),
            spec_parse_name_status(bytes@) == after(change_views(changes@), parse_from(tv, index as int)),
        decreases tokens@.len() - index,
    {
        let token = chars_of(tokens[index].as_str());
        assert(token@ == tv[index as int]);
        proof {
            lemma_first_index_of(token@, '\t');
        }
        let mut tab: usize = 0;
        while tab < token.len() && token[tab] != '\t'
            invariant
                tab <= token@.len(),
                forall|j: int| 0 <= j < tab ==> token@[j] != '\t',
            decreases token@.len() - tab,
        {
            tab = tab + 1;
        }
        proof {
            lemma_first_index_of(token@, '\t');
            match first_index_of(token@, '\t') {
                Some(k) => {
                    if k < tab {
                        assert(token@[k] != '\t');
                    }
                    if tab < token@.len() {
                        assert(token@[tab as int] == '\t');
                        if tab < k {
                        }
                    }
                },
                None => {
                    if tab < token@.len() {
                        assert(token@[tab as int] == '\t');
                    }
                },
            }
        }
        // The status is `token[..tab]`; a tab means the path follows inline.
        if tab == 0 {
            proof {
                if tab < token@.len() {
                    assert(first_index_of(token@, '\t') == Some(0int));
                }
            }
            return err_text("Git emitted an empty change status");
        }
        let code = token[0];
        let first_path: String;
        let mut next: usize;
        if tab < token.len() {
            assert(first_index_of(token@, '\t') == Some(tab as int));
            first_path = string_from_range(&token, tab + 1, token.len());
            assert(first_path@ == token@.skip(tab + 1));
            next = index + 1;
        } else {
            assert(first_index_of(token@, '\t') is None);
            if index + 1 < tokens.len() {
                first_path = tokens[index + 1].clone();
                assert(first_path@ == tv[index + 1]);
                next = index + 2;
            } else {
                return err_text("Git change status is missing a path");
            }
        }
        if code == 'R' || code == 'C' {
            if next >= tokens.len() {
                return err_text("Git rename/copy status is missing a destination");
            }
            assert(tv[next as int] == tokens@[next as int]@);
            let dest = match safe_git_path(tokens[next].as_str()) {
                Ok(d) => d,
                Err(e) => return Err(e),
            };
            let prev = match safe_git_path(first_path.as_str()) {
                Ok(p) => p,
                Err(e) => return Err(e),
            };
            let kind = if code == 'R' {
                ChangeKind::Renamed
            } else {
                ChangeKind::Copied
            };
            let c = ChangedPath { kind, path: dest, previous_path: Some(prev) };
            let ghost before = changes@;
            changes.push(c);
            assert(change_views(changes@) =~= change_views(before).push(change_view(c)));
            assert(change_views(before) + (seq![change_view(c)] + parse_from(tv, next + 1)->Ok_0) =~= change_views(
                changes@,
            ) + parse_from(tv, next + 1)->Ok_0);
            index = next + 1;
        } else if code == 'A' || code == 'M' || code == 'D' || code == 'T' {
            let path = match safe_git_path(first_path.as_str()) {
                Ok(p) => p,
                Err(e) => return Err(e),
            };
            let kind = if code == 'A' {
                ChangeKind::Added
            } else if code == 'D' {
                ChangeKind::Deleted
            } else if code == 'T' {
                ChangeKind::TypeChanged
            } else {
                ChangeKind::Modified
            };
            let c = ChangedPath { kind, path, previous_path: None };
            let ghost before = changes@;
            changes.push(c);
            assert(change_views(changes@) =~= change_views(before).push(change_view(c)));
            assert(change_views(before) + (seq![change_view(c)] + parse_from(tv, next as int)->Ok_0) =~= change_views(
                changes@,
            ) + parse_from(tv, next as int)->Ok_0);
            index = next;
        } else {
            let d = debug_char(code);
            let a = concat("unsupported Git change status ", d.as_str());
            return Err(concat(a.as_str(), "; resolve the worktree state first"));
        }
    }
    assert(change_views(changes@) + seq![] =~= change_views(changes@));
    Ok(changes)
}


pub open spec fn kind_rank(k: ChangeKind) -> int {
    match k {
        ChangeKind::Added => 0,
        ChangeKind::Modified => 1,
        ChangeKind::Deleted => 2,
        ChangeKind::Renamed => 3,
        ChangeKind::Copied => 4,
        ChangeKind::TypeChanged => 5,
    }
}

fn kind_rank_exec(k: ChangeKind) -> (r: u8)
    ensures
        r as int == kind_rank(k),
{
    match k {
        ChangeKind::Added => 0,
        ChangeKind::Modified => 1,
        ChangeKind::Deleted => 2,
        ChangeKind::Renamed => 3,
        ChangeKind::Copied => 4,
        ChangeKind::TypeChanged => 5,
    }
}

/// `a` orders no later than `b` as optional texts: nothing first.
pub open spec fn opt_text_le(a: Option<Seq<char>>, b: Option<Seq<char>>) -> bool {
    match (a, b) {
        (None, _) => true,
        (Some(_), None) => false,
        (Some(x), Some(y)) => !text_lt(y, x),
    }
}

/// Changes are listed by kind, then path, then previous path.
impl Listed for ChangedPath {
    open spec fn goes_before(self, other: Self) -> bool {
        let a = change_view(self);
        let b = change_view(other);
        ||| kind_rank(a.0) < kind_rank(b.0)
        ||| (kind_rank(a.0) == kind_rank(b.0) && text_lt(a.1, b.1))
        ||| (kind_rank(a.0) == kind_rank(b.0) && a.1 == b.1 && opt_text_le(a.2, b.2))
    }

    fn may_precede(&self, other: &Self) -> (r: bool) {
        let ka = kind_rank_exec(self.kind);
        let kb = kind_rank_exec(other.kind);
        if ka != kb {
            return ka < kb;
        }
        match compare_text(self.path.as_str(), other.path.as_str()) {
            TextOrder::Before => true,
            TextOrder::After => false,
            TextOrder::Same => match (&self.previous_path, &other.previous_path) {
                (None, _) => true,
                (Some(_), None) => false,
                (Some(x), Some(y)) => compare_text(y.as_str(), x.as_str()) != TextOrder::Before,
            },
        }
    }

    proof fn lemma_total(a: Self, b: Self) {
        crate::order::lemma_text_total(a.path@, b.path@);
        match (a.previous_path, b.previous_path) {
            (Some(x), Some(y)) => {
                crate::order::lemma_text_total(x@, y@);
                if text_lt(x@, y@) {
                    crate::order::lemma_text_lt_asymmetric(x@, y@);
                }
            },
            _ => {},
        }
    }

    proof fn lemma_transitive(a: Self, b: Self, c: Self) {
        crate::order::lemma_text_total(a.path@, b.path@);
        crate::order::lemma_text_total(b.path@, c.path@);
        if text_lt(a.path@, b.path@) && text_lt(b.path@, c.path@) {
            crate::order::lemma_text_lt_transitive(a.path@, b.path@, c.path@);
        }
        match (a.previous_path, b.previous_path, c.previous_path) {
            (Some(x), Some(y), Some(z)) => {
                crate::order::lemma_text_total(x@, y@);
                crate::order::lemma_text_total(y@, z@);
                if text_lt(z@, x@) && !text_lt(y@, x@) && !text_lt(z@, y@) {
                    if x@ != y@ && y@ != z@ {
                        crate::order::lemma_text_lt_transitive(x@, y@, z@);
                        crate::order::lemma_text_lt_asymmetric(x@, z@);
                    }
                }
            },
            _ => {},
        }
    }
}

/// `s` with each run of equal neighbours kept once (`Vec::dedup`).
pub open spec fn dedup_changes(s: Seq<(ChangeKind, Seq<char>, Option<Seq<char>>)>) -> Seq<(ChangeKind, Seq<char>, Option<Seq<char>>)>
    decreases s.len(),
{
    if s.len() <= 1 {
        s
    } else if s.last() == s.drop_last().last() {
        dedup_changes(s.drop_last())
    } else {
        dedup_changes(s.drop_last()).push(s.last())
    }
}

proof fn lemma_dedup_changes_last(s: Seq<(ChangeKind, Seq<char>, Option<Seq<char>>)>)
    requires
        s.len() > 0,
    ensures
        dedup_changes(s).len() > 0,
        dedup_changes(s).last() == s.last(),
    decreases s.len(),
{
    if s.len() > 1 {
        lemma_dedup_changes_last(s.drop_last());
    }
}

/// The workspace changes of the first `n` repository changes.
pub open spec fn committed_for_workspace(
    changes: Seq<(ChangeKind, Seq<char>, Option<Seq<char>>)>,
    prefix: Seq<char>,
    n: int,
) -> Seq<(ChangeKind, Seq<char>, Option<Seq<char>>)>
    decreases n,
{
    if n <= 0 {
        seq![]
    } else {
        committed_for_workspace(changes, prefix, n - 1) + spec_change_for_workspace(changes[n - 1], prefix)
    }
}

/// The additions of the first `n` untracked paths that lie in the
/// workspace, or the first unsafe path.
pub open spec fn uncommitted_for_workspace(untracked: Seq<Seq<char>>, prefix: Seq<char>, n: int) -> Result<Seq<(ChangeKind, Seq<char>, Option<Seq<char>>)>, Seq<char>>
    decreases n,
{
    if n <= 0 {
        Ok(seq![])
    } else {
        match uncommitted_for_workspace(untracked, prefix, n - 1) {
            Err(e) => Err(e),
            Ok(prev) => match spec_normalize_git_path(untracked[n - 1]) {
                Err(e) => Err(e),
                Ok(p) => match spec_path_for_workspace(p, prefix) {
                    Some(q) => Ok(prev.push((ChangeKind::Added, q, None))),
                    None => Ok(prev),
                },
            },
        }
    }
}

/// The workspace's changes before they are listed: the changes Git reports
/// against the base that lie in it, then its untracked files as additions.
pub open spec fn spec_workspace_changes(diff: Seq<u8>, untracked: Seq<Seq<char>>, prefix: Seq<char>) -> Result<Seq<(ChangeKind, Seq<char>, Option<Seq<char>>)>, Seq<char>> {
    match spec_parse_name_status(diff) {
        Err(e) => Err(e),
        Ok(changes) => match uncommitted_for_workspace(untracked, prefix, untracked.len() as int) {
            Err(e) => Err(e),
            Ok(added) => Ok(committed_for_workspace(changes, prefix, changes.len() as int) + added),
        },
    }
}

/// The changes of the workspace at `prefix`: each once, listed by kind,
/// path and previous path.
pub fn collect_workspace_changes(diff: &[u8], untracked: &Vec<String>, prefix: &str) -> (r: Result<Vec<ChangedPath>, String>)
    ensures
        match spec_workspace_changes(diff@, string_views(untracked@), prefix@) {
            Err(e) => r matches Err(m) && m@ == e,
            Ok(found) => r matches Ok(v) && exists|u: Seq<ChangedPath>| #[trigger] change_views(u) == found && change_views(v@) == dedup_changes(
                change_views(sort_listed(u)),
            ),
        },
{
    let parsed = match parse_name_status(diff) {
        Ok(p) => p,
        Err(e) => return Err(e),
    };
    let ghost pv = change_views(parsed@);
    let ghost pall = parsed@;
    let n = parsed.len();
    let mut rest = parsed;
    let mut changes: Vec<ChangedPath> = Vec::new();
    let mut i: usize = 0;
    while rest.len() > 0
        invariant
            n == pv.len(),
            n == pall.len(),
            pv == change_views(pall),
            spec_parse_name_status(diff@) == Ok::<Seq<(ChangeKind, Seq<char>, Option<Seq<char>>)>, Seq<char>>(pv),
            i <= n,
            rest@ == pall.skip(i as int),
            change_views(changes@) == committed_for_workspace(pv, prefix@, i as int),
        decreases rest@.len(),
    {
        let c = rest.remove(0);
        assert(c == pall[i as int]);
        assert(change_view(c) == pv[i as int]);
        let more = change_for_workspace(c, prefix);
        let ghost before = changes@;
        let mut m = more;
        changes.append(&mut m);
        assert(change_views(changes@) =~= change_views(before) + change_views(more@));
        assert(rest@ =~= pall.skip(i + 1));
        i = i + 1;
    }
    assert(rest@.len() == 0);
    assert(i == n);
    let ghost head = change_views(changes@);
    let ghost uv = string_views(untracked@);
    let mut j: usize = 0;
    while j < untracked.len()
        invariant
            j <= untracked@.len(),
            uv == string_views(untracked@),
            spec_parse_name_status(diff@) == Ok::<Seq<(ChangeKind, Seq<char>, Option<Seq<char>>)>, Seq<char>>(pv),
            head == committed_for_workspace(pv, prefix@, pv.len() as int),
            uncommitted_for_workspace(uv, prefix@, j as int) matches Ok(added) && change_views(changes@) == head + added,
        decreases untracked@.len() - j,
    {
        assert(uv[j as int] == untracked@[j as int]@);
        let normalized = match safe_git_path(untracked[j].as_str()) {
            Ok(p) => p,
            Err(e) => {
                proof {
                    lemma_untracked_err_extends(uv, prefix@, j as int + 1, uv.len() as int);
                }
                return Err(e);
            },
        };
        match path_for_workspace(normalized.as_str(), prefix) {
            Some(path) => {
                let c = ChangedPath { kind: ChangeKind::Added, path, previous_path: None };
                let ghost before = changes@;
                changes.push(c);
                assert(change_views(changes@) =~= change_views(before).push(change_view(c)));
            },
            None => {},
        }
        j = j + 1;
    }
    let ghost u = changes@;
    let sorted = sort_list(changes);
    let ghost t = change_views(sorted@);
    let mut out: Vec<ChangedPath> = Vec::new();
    let mut sorted_rest = sorted;
    let ghost all = sorted_rest@;
    let total = sorted_rest.len();
    let mut k: usize = 0;
    let mut last: Option<(ChangeKind, String, Option<String>)> = None;
    while sorted_rest.len() > 0
        invariant
            total == all.len(),
            t == change_views(all),
            k <= all.len(),
            sorted_rest@ == all.skip(k as int),
            change_views(out@) == dedup_changes(t.take(k as int)),
            k == 0 <==> last is None,
            last matches Some(l) ==> (l.0, l.1@, match l.2 {
                Some(p) => Some(p@),
                None => None,
            }) == t[k - 1],
        decreases sorted_rest@.len(),
    {
        let c = sorted_rest.remove(0);
        proof {
            assert(c == all[k as int]);
            assert(t.take(k + 1).drop_last() =~= t.take(k as int));
            assert(t.take(k + 1).last() == change_view(c));
            if k > 0 {
                lemma_dedup_changes_last(t.take(k as int));
                assert(t.take(k as int).last() == t[k - 1]);
            }
        }
        let same = match &last {
            None => false,
            Some(l) => l.0 == c.kind && str_eq(l.1.as_str(), c.path.as_str()) && match (&l.2, &c.previous_path) {
                (None, None) => true,
                (Some(x), Some(y)) => str_eq(x.as_str(), y.as_str()),
                _ => false,
            },
        };
        last = Some((c.kind, c.path.clone(), crate::text::clone_opt_string(&c.previous_path)));
        if !same {
            let ghost before = out@;
            out.push(c);
            assert(change_views(out@) =~= change_views(before).push(change_view(c)));
            proof {
                if k == 0 {
                    assert(t.take(1) =~= seq![t[0]]);
                }
            }
        }
        assert(sorted_rest@ =~= all.skip(k + 1));
        k = k + 1;
    }
    assert(t.take(k as int) =~= t);
    Ok(out)
}

proof fn lemma_untracked_err_extends(untracked: Seq<Seq<char>>, prefix: Seq<char>, i: int, n: int)
    requires
        0 <= i <= n,
        uncommitted_for_workspace(untracked, prefix, i) is Err,
    ensures
        uncommitted_for_workspace(untracked, prefix, n) == uncommitted_for_workspace(untracked, prefix, i),
    decreases n - i,
{
    if i < n {
        lemma_untracked_err_extends(untracked, prefix, i, n - 1);
    }
}


/// A path Git reported, checked to be a safe repository-relative path; an
/// unsafe one is an input error.
pub fn normalize_git_path(path: &str) -> (r: Result<String, crate::operations::ApplicationError>)
    ensures
        match spec_normalize_git_path(path@) {
            Ok(p) => r matches Ok(s) && s@ == p,
            Err(e) => r matches Err(x) && x.kind == crate::operations::ApplicationErrorKind::InvalidInput
                && x.message@ == e,
        },
{
    match safe_git_path(path) {
        Ok(p) => Ok(p),
        Err(m) => Err(crate::operations::ApplicationError::input(m)),
    }
}

} // verus!
