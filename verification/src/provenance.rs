//! The source fingerprint that records what a run looked at: the
//! repository's entries in path order, each framed with what it is, hashed
//! with SHA-256.
use crate::order::{
    compare_chars, lemma_text_lt_asymmetric, lemma_text_lt_irreflexive, lemma_text_lt_transitive,
    lemma_text_total, text_lt, Listed, TextOrder,
};
use crate::paths::{components, dot, path_components, root_component};
use crate::text::views;
use vstd::prelude::*;
use vstd::utf8::{decode_utf8, valid_utf8};

verus! {

broadcast use vstd::string::group_string_axioms;

/// How `std::path::Component` orders kinds of components: the root, `.`,
/// `..`, then names.
pub open spec fn component_rank(c: Seq<char>) -> int {
    if c == root_component() {
        1
    } else if c == dot() {
        2
    } else if c == ".."@ {
        3
    } else {
        4
    }
}

/// One component before another: by kind, then names in code-point order.
pub open spec fn component_lt(x: Seq<char>, y: Seq<char>) -> bool {
    component_rank(x) < component_rank(y) || (component_rank(x) == component_rank(y) && text_lt(x, y))
}

/// `Path`'s order: component sequences compared lexicographically.
pub open spec fn components_lt(a: Seq<Seq<char>>, b: Seq<Seq<char>>) -> bool
    decreases a.len(),
{
    if a.len() == 0 {
        b.len() > 0
    } else if b.len() == 0 {
        false
    } else if a[0] == b[0] {
        components_lt(a.drop_first(), b.drop_first())
    } else {
        component_lt(a[0], b[0])
    }
}

proof fn lemma_component_lt_order(x: Seq<char>, y: Seq<char>, z: Seq<char>)
    ensures
        !component_lt(x, x),
        component_lt(x, y) ==> !component_lt(y, x),
        x != y ==> component_lt(x, y) || component_lt(y, x),
        component_lt(x, y) && component_lt(y, z) ==> component_lt(x, z),
{
    lemma_text_lt_irreflexive(x);
    lemma_text_total(x, y);
    if text_lt(x, y) {
        lemma_text_lt_asymmetric(x, y);
    }
    if text_lt(x, y) && text_lt(y, z) {
        lemma_text_lt_transitive(x, y, z);
    }
}

proof fn lemma_components_lt_asymmetric(a: Seq<Seq<char>>, b: Seq<Seq<char>>)
    ensures
        components_lt(a, b) ==> !components_lt(b, a),
        !components_lt(a, a),
    decreases a.len(),
{
    if a.len() > 0 {
        lemma_components_lt_asymmetric(a.drop_first(), a.drop_first());
        if b.len() > 0 {
            lemma_component_lt_order(a[0], b[0], a[0]);
            if a[0] == b[0] {
                lemma_components_lt_asymmetric(a.drop_first(), b.drop_first());
            }
        }
    }
}

proof fn lemma_components_lt_total(a: Seq<Seq<char>>, b: Seq<Seq<char>>)
    ensures
        a == b || components_lt(a, b) || components_lt(b, a),
    decreases a.len(),
{
    if a.len() > 0 && b.len() > 0 {
        lemma_component_lt_order(a[0], b[0], a[0]);
        if a[0] == b[0] {
            lemma_components_lt_total(a.drop_first(), b.drop_first());
            if a.drop_first() == b.drop_first() {
                assert(a =~= seq![a[0]] + a.drop_first());
                assert(b =~= seq![b[0]] + b.drop_first());
            }
        }
    } else if a.len() == 0 && b.len() == 0 {
        assert(a =~= b);
    }
}

proof fn lemma_components_lt_transitive(a: Seq<Seq<char>>, b: Seq<Seq<char>>, c: Seq<Seq<char>>)
    requires
        components_lt(a, b),
        components_lt(b, c),
    ensures
        components_lt(a, c),
    decreases a.len(),
{
    if a.len() > 0 && b.len() > 0 && c.len() > 0 {
        lemma_component_lt_order(a[0], b[0], c[0]);
        lemma_component_lt_order(b[0], c[0], a[0]);
        lemma_component_lt_order(a[0], c[0], b[0]);
        if a[0] == b[0] && b[0] == c[0] {
            lemma_components_lt_transitive(a.drop_first(), b.drop_first(), c.drop_first());
        }
    }
}

/// A repository-relative path, listed in `Path` order (a stable sort keeps
/// paths with equal components in their input order).
pub struct SourcePath {
    pub text: String,
}

fn component_rank_exec(c: &Vec<char>) -> (r: u8)
    ensures
        r == component_rank(c@),
{
    let root = vec!['/'];
    let cur = vec!['.'];
    let parent = vec!['.', '.'];
    proof {
        reveal_strlit("..");
        assert(root@ == root_component());
        assert(cur@ == dot());
        assert(parent@ == ".."@);
    }
    if crate::text::chars_eq(c, &root) {
        1
    } else if crate::text::chars_eq(c, &cur) {
        2
    } else if crate::text::chars_eq(c, &parent) {
        3
    } else {
        4
    }
}

fn component_before(x: &Vec<char>, y: &Vec<char>) -> (r: bool)
    ensures
        r == component_lt(x@, y@),
{
    let rx = component_rank_exec(x);
    let ry = component_rank_exec(y);
    rx < ry || (rx == ry && compare_chars(x, y) == TextOrder::Before)
}

/// Whether the path `x` comes before the path `y`.
pub fn path_before(x: &str, y: &str) -> (r: bool)
    ensures
        r == components_lt(components(x@), components(y@)),
{
    let cx = path_components(x);
    let cy = path_components(y);
    let ghost a = views(cx@);
    let ghost b = views(cy@);
    let mut i: usize = 0;
    assert(a.skip(0) =~= a);
    assert(b.skip(0) =~= b);
    while i < cx.len() && i < cy.len()
        invariant
            a == views(cx@),
            b == views(cy@),
            a == components(x@),
            b == components(y@),
            i <= cx@.len(),
            i <= cy@.len(),
            components_lt(a, b) == components_lt(a.skip(i as int), b.skip(i as int)),
        decreases cx@.len() - i,
    {
        assert(a.skip(i as int)[0] == cx@[i as int]@);
        assert(b.skip(i as int)[0] == cy@[i as int]@);
        if !crate::text::chars_eq(&cx[i], &cy[i]) {
            assert(components_lt(a.skip(i as int), b.skip(i as int)) == component_lt(cx@[i as int]@, cy@[i as int]@));
            return component_before(&cx[i], &cy[i]);
        }
        assert(a.skip(i as int).drop_first() =~= a.skip(i + 1));
        assert(b.skip(i as int).drop_first() =~= b.skip(i + 1));
        i = i + 1;
    }
    assert(a.skip(i as int).len() == cx@.len() - i);
    assert(b.skip(i as int).len() == cy@.len() - i);
    i == cx.len() && i < cy.len()
}

impl Listed for SourcePath {
    open spec fn goes_before(self, other: Self) -> bool {
        !components_lt(components(other.text@), components(self.text@))
    }

    fn may_precede(&self, other: &Self) -> (r: bool) {
        !path_before(other.text.as_str(), self.text.as_str())
    }

    proof fn lemma_total(a: Self, b: Self) {
        lemma_components_lt_asymmetric(components(a.text@), components(b.text@));
    }

    proof fn lemma_transitive(a: Self, b: Self, c: Self) {
        let ca = components(a.text@);
        let cb = components(b.text@);
        let cc = components(c.text@);
        lemma_components_lt_total(ca, cb);
        if components_lt(cc, ca) && components_lt(ca, cb) {
            lemma_components_lt_transitive(cc, ca, cb);
        }
    }
}


/// `n` as eight big-endian bytes (`u64::to_be_bytes`).
pub open spec fn be_bytes(n: nat) -> Seq<u8> {
    seq![
        ((n / 0x100000000000000) % 256) as u8,
        ((n / 0x1000000000000) % 256) as u8,
        ((n / 0x10000000000) % 256) as u8,
        ((n / 0x100000000) % 256) as u8,
        ((n / 0x1000000) % 256) as u8,
        ((n / 0x10000) % 256) as u8,
        ((n / 0x100) % 256) as u8,
        (n % 256) as u8,
    ]
}

fn be_bytes_exec(n: u64) -> (r: Vec<u8>)
    ensures
        r@ == be_bytes(n as nat),
{
    let r = vec![
        ((n / 0x100000000000000) % 256) as u8,
        ((n / 0x1000000000000) % 256) as u8,
        ((n / 0x10000000000) % 256) as u8,
        ((n / 0x100000000) % 256) as u8,
        ((n / 0x1000000) % 256) as u8,
        ((n / 0x10000) % 256) as u8,
        ((n / 0x100) % 256) as u8,
        (n % 256) as u8,
    ];
    assert(r@ =~= be_bytes(n as nat));
    r
}

/// A byte string framed by its length.
pub open spec fn field(b: Seq<u8>) -> Seq<u8> {
    be_bytes(b.len()) + b
}

/// What is at a source path, as the fingerprint records it.
pub enum EntryState {
    /// Nothing is there.
    Missing,
    /// A symbolic link, with the bytes of its target.
    Symlink(Vec<u8>),
    /// A regular file: whether it is executable, and its bytes.
    File { executable: bool, contents: Vec<u8> },
    Directory,
    /// Anything else, with its kind (`block`, `char`, `fifo`, `socket` or
    /// `unknown`).
    Special(String),
}

/// A repository-relative path and what is there.
pub struct SourceEntry {
    pub path: String,
    pub state: EntryState,
}

pub open spec fn tag(t: Seq<char>) -> Seq<u8> {
    vstd::utf8::encode_utf8(t)
}

pub open spec fn state_bytes(s: EntryState) -> Seq<u8> {
    match s {
        EntryState::Missing => tag("missing"@),
        EntryState::Symlink(target) => tag("symlink"@) + field(target@),
        EntryState::File { executable, contents } => tag("file"@) + seq![if executable { 1u8 } else { 0u8 }] + be_bytes(
            contents@.len(),
        ) + contents@,
        EntryState::Directory => tag("directory"@),
        EntryState::Special(kind) => tag("special"@) + field(vstd::utf8::encode_utf8(kind@)),
    }
}

/// An entry framed: its path (with `/` separators), then what is there.
pub open spec fn entry_bytes(e: SourceEntry) -> Seq<u8> {
    field(vstd::utf8::encode_utf8(crate::paths::display_spec(e.path@))) + state_bytes(e.state)
}

pub open spec fn entries_bytes(es: Seq<SourceEntry>) -> Seq<u8>
    decreases es.len(),
{
    if es.len() == 0 {
        seq![]
    } else {
        entries_bytes(es.drop_last()) + entry_bytes(es.last())
    }
}

impl Listed for SourceEntry {
    open spec fn goes_before(self, other: Self) -> bool {
        !components_lt(components(other.path@), components(self.path@))
    }

    fn may_precede(&self, other: &Self) -> (r: bool) {
        !path_before(other.path.as_str(), self.path.as_str())
    }

    proof fn lemma_total(a: Self, b: Self) {
        lemma_components_lt_asymmetric(components(a.path@), components(b.path@));
    }

    proof fn lemma_transitive(a: Self, b: Self, c: Self) {
        let ca = components(a.path@);
        let cb = components(b.path@);
        let cc = components(c.path@);
        lemma_components_lt_total(ca, cb);
        if components_lt(cc, ca) && components_lt(ca, cb) {
            lemma_components_lt_transitive(cc, ca, cb);
        }
    }
}

/// Each run of neighbours with the same path components kept once, the
/// first of the run (`Vec::dedup` on paths).
pub open spec fn dedup_entries(s: Seq<SourceEntry>) -> Seq<SourceEntry>
    decreases s.len(),
{
    if s.len() <= 1 {
        s
    } else if components(s.last().path@) == components(s.drop_last().last().path@) {
        dedup_entries(s.drop_last())
    } else {
        dedup_entries(s.drop_last()).push(s.last())
    }
}

proof fn lemma_dedup_entries_last(s: Seq<SourceEntry>)
    requires
        s.len() > 0,
    ensures
        dedup_entries(s).len() > 0,
        components(dedup_entries(s).last().path@) == components(s.last().path@),
    decreases s.len(),
{
    if s.len() > 1 {
        lemma_dedup_entries_last(s.drop_last());
    }
}

/// The fingerprint of source entries: sorted by path and without repeats,
/// each framed, all hashed with SHA-256.
pub open spec fn spec_source_fingerprint(entries: Seq<SourceEntry>) -> Seq<char> {
    "sha256:"@ + crate::environment_plan::sha256_hex(entries_bytes(dedup_entries(crate::order::sort_listed(entries))))
}

fn append_bytes(out: &mut Vec<u8>, b: &[u8])
    ensures
        final(out)@ == old(out)@ + b@,
{
    let mut i: usize = 0;
    while i < b.len()
        invariant
            i <= b@.len(),
            out@ == old(out)@ + b@.take(i as int),
        decreases b@.len() - i,
    {
        out.push(b[i]);
        assert(out@ =~= old(out)@ + b@.take(i + 1));
        i = i + 1;
    }
    assert(b@.take(b@.len() as int) =~= b@);
}

fn append_field(out: &mut Vec<u8>, b: &[u8])
    ensures
        final(out)@ == old(out)@ + field(b@),
{
    let len = be_bytes_exec(b.len() as u64);
    append_bytes(out, len.as_slice());
    append_bytes(out, b);
    assert(out@ =~= old(out)@ + field(b@));
}

fn append_entry(out: &mut Vec<u8>, e: &SourceEntry)
    ensures
        final(out)@ == old(out)@ + entry_bytes(*e),
{
    let shown = crate::paths::display_path(e.path.as_str());
    append_field(out, shown.as_str().as_bytes());
    let ghost mid = out@;
    match &e.state {
        EntryState::Missing => {
            append_bytes(out, "missing".as_bytes());
        },
        EntryState::Symlink(target) => {
            append_bytes(out, "symlink".as_bytes());
            append_field(out, target.as_slice());
        },
        EntryState::File { executable, contents } => {
            append_bytes(out, "file".as_bytes());
            out.push(if *executable { 1u8 } else { 0u8 });
            let len = be_bytes_exec(contents.len() as u64);
            append_bytes(out, len.as_slice());
            append_bytes(out, contents.as_slice());
        },
        EntryState::Directory => {
            append_bytes(out, "directory".as_bytes());
        },
        EntryState::Special(kind) => {
            append_bytes(out, "special".as_bytes());
            append_field(out, kind.as_str().as_bytes());
        },
    }
    assert(out@ =~= old(out)@ + entry_bytes(*e));
}

/// The source fingerprint of `entries` (see `spec_source_fingerprint`).
pub fn source_fingerprint(entries: Vec<SourceEntry>) -> (r: String)
    ensures
        r@ == spec_source_fingerprint(entries@),
{
    let sorted = crate::order::sort_list(entries);
    let ghost kept = dedup_entries(sorted@);
    let mut out: Vec<u8> = Vec::new();
    let mut last: Option<usize> = None;
    let mut i: usize = 0;
    while i < sorted.len()
        invariant
            i <= sorted@.len(),
            out@ == entries_bytes(dedup_entries(sorted@.take(i as int))),
            i == 0 <==> last is None,
            last matches Some(j) ==> j < i && components(sorted@[j as int].path@) == components(
                sorted@[i - 1].path@,
            ),
        decreases sorted@.len() - i,
    {
        let e = &sorted[i];
        let repeat = match last {
            Some(j) => crate::paths::same_path(sorted[j].path.as_str(), e.path.as_str()),
            None => false,
        };
        proof {
            let t = sorted@.take(i + 1);
            assert(t.drop_last() =~= sorted@.take(i as int));
            assert(t.last() == sorted@[i as int]);
            if i > 0 {
                assert(t.drop_last().last() == sorted@[i - 1]);
                lemma_dedup_entries_last(sorted@.take(i as int));
            }
        }
        if !repeat {
            let ghost before = out@;
            append_entry(&mut out, e);
            proof {
                let t = sorted@.take(i + 1);
                assert(dedup_entries(t) == dedup_entries(t.drop_last()).push(t.last()));
                let d = dedup_entries(t);
                assert(d.drop_last() =~= dedup_entries(t.drop_last()));
            }
        }
        last = Some(i);
        i = i + 1;
    }
    assert(sorted@.take(sorted@.len() as int) =~= sorted@);
    let hex = crate::environment_plan::sha256_text(out.as_slice());
    let mut r = String::from_str("sha256:");
    r.append(hex.as_str());
    r
}


/// A path (with `/` separators) is one of the excluded outputs, or lies
/// below one.
pub open spec fn is_excluded(relative: Seq<char>, outputs: Seq<Seq<char>>) -> bool {
    exists|i: int|
        0 <= i < outputs.len() && (relative == #[trigger] outputs[i] || (crate::text::starts_with(relative, outputs[i])
            && relative.len() > outputs[i].len() && relative[outputs[i].len() as int] == '/'))
}

fn excluded_by(relative: &Vec<char>, output: &Vec<char>) -> (r: bool)
    ensures
        r == (relative@ == output@ || (crate::text::starts_with(relative@, output@) && relative@.len() > output@.len()
            && relative@[output@.len() as int] == '/')),
{
    if crate::text::chars_eq(relative, output) {
        return true;
    }
    crate::text::chars_start_with(relative, output) && relative.len() > output.len() && relative[output.len()] == '/'
}

pub fn is_excluded_output(relative: &str, outputs: &Vec<String>) -> (r: bool)
    ensures
        r == is_excluded(relative@, crate::text::string_views(outputs@)),
{
    let rel = crate::text::chars_of(relative);
    let ghost os = crate::text::string_views(outputs@);
    let mut i: usize = 0;
    while i < outputs.len()
        invariant
            i <= outputs@.len(),
            os == crate::text::string_views(outputs@),
            rel@ == relative@,
            forall|k: int|
                0 <= k < i ==> !(relative@ == #[trigger] os[k] || (crate::text::starts_with(relative@, os[k])
                    && relative@.len() > os[k].len() && relative@[os[k].len() as int] == '/')),
        decreases outputs@.len() - i,
    {
        let o = crate::text::chars_of(outputs[i].as_str());
        assert(os[i as int] == o@);
        if excluded_by(&rel, &o) {
            return true;
        }
        i = i + 1;
    }
    false
}

pub open spec fn kept_entry(outputs: Seq<Seq<char>>) -> spec_fn(SourceEntry) -> bool {
    |e: SourceEntry| !is_excluded(crate::paths::display_spec(e.path@), outputs)
}

/// The entries whose paths are not excluded outputs, in order.
pub fn without_outputs(entries: Vec<SourceEntry>, outputs: &Vec<String>) -> (r: Vec<SourceEntry>)
    ensures
        r@ == entries@.filter(kept_entry(crate::text::string_views(outputs@))),
{
    let ghost os = crate::text::string_views(outputs@);
    let ghost all = entries@;
    let ghost n = entries@.len();
    let mut rest = entries;
    let mut kept: Vec<SourceEntry> = Vec::new();
    assert(all.take(0).filter(kept_entry(os)) =~= seq![]) by {
        reveal(Seq::filter);
    }
    assert(all.skip(0) =~= all);
    while rest.len() > 0
        invariant
            os == crate::text::string_views(outputs@),
            n == all.len(),
            rest@.len() <= n,
            rest@ == all.skip(n - rest@.len()),
            kept@ == all.take(n - rest@.len()).filter(kept_entry(os)),
        decreases rest@.len(),
    {
        let ghost c = n - rest@.len();
        let e = rest.remove(0);
        proof {
            assert(e == all[c]);
            assert(rest@ =~= all.skip(c + 1));
            assert(all.take(c + 1) =~= all.take(c).push(e));
            all.take(c).lemma_filter_push(e, kept_entry(os));
        }
        let shown = crate::paths::display_path(e.path.as_str());
        let keep = !is_excluded_output(shown.as_str(), outputs);
        if keep {
            kept.push(e);
        }
    }
    assert(all.take(n as int) =~= all);
    kept
}


/// A relative path with only named components: no root, no `.` and no
/// `..`.
pub open spec fn is_normalized_relative(p: Seq<char>) -> bool {
    !crate::paths::is_absolute(p) && !components(p).contains(dot()) && !components(p).contains(".."@)
}

pub open spec fn non_utf8_manifest_message() -> Seq<char> {
    "managed workspace manifest requires UTF-8 paths"@
}

pub open spec fn non_normalized_manifest_message() -> Seq<char> {
    "managed workspace manifest contains a non-normalized path"@
}

/// The paths of a managed workspace manifest's NUL-separated entries, read
/// in order: the first that is not UTF-8, or not a normalized relative
/// path, fails them.
pub open spec fn spec_manifest_paths(pieces: Seq<Seq<u8>>) -> Result<Seq<Seq<char>>, Seq<char>>
    decreases pieces.len(),
{
    if pieces.len() == 0 {
        Ok(seq![])
    } else {
        match spec_manifest_paths(pieces.drop_last()) {
            Err(e) => Err(e),
            Ok(ps) => if !valid_utf8(pieces.last()) {
                Err(non_utf8_manifest_message())
            } else if !is_normalized_relative(decode_utf8(pieces.last())) {
                Err(non_normalized_manifest_message())
            } else {
                Ok(ps.push(decode_utf8(pieces.last())))
            },
        }
    }
}

pub open spec fn path_texts(ps: Seq<SourcePath>) -> Seq<Seq<char>> {
    ps.map_values(|p: SourcePath| p.text@)
}

/// Each run of neighbours with the same components kept once, the first.
pub open spec fn dedup_paths(s: Seq<SourcePath>) -> Seq<SourcePath>
    decreases s.len(),
{
    if s.len() <= 1 {
        s
    } else if components(s.last().text@) == components(s.drop_last().last().text@) {
        dedup_paths(s.drop_last())
    } else {
        dedup_paths(s.drop_last()).push(s.last())
    }
}

proof fn lemma_prefix_error(pieces: Seq<Seq<u8>>, n: int)
    requires
        0 <= n <= pieces.len(),
        spec_manifest_paths(pieces.take(n)) is Err,
    ensures
        spec_manifest_paths(pieces) == spec_manifest_paths(pieces.take(n)),
    decreases pieces.len() - n,
{
    if n < pieces.len() {
        assert(pieces.take(n + 1).drop_last() =~= pieces.take(n));
        lemma_prefix_error(pieces, n + 1);
    } else {
        assert(pieces.take(n) =~= pieces);
    }
}

fn is_normalized_exec(p: &str) -> (r: bool)
    ensures
        r == is_normalized_relative(p@),
{
    let v = crate::text::chars_of(p);
    if v.len() > 0 && v[0] == '/' {
        return false;
    }
    let cs = path_components(p);
    let cur = vec!['.'];
    let parent = vec!['.', '.'];
    proof {
        reveal_strlit("..");
        assert(cur@ == dot());
        assert(parent@ == ".."@);
    }
    let mut i: usize = 0;
    while i < cs.len()
        invariant
            i <= cs@.len(),
            views(cs@) == components(p@),
            cur@ == dot(),
            parent@ == ".."@,
            forall|k: int| 0 <= k < i ==> views(cs@)[k] != dot() && views(cs@)[k] != ".."@,
        decreases cs@.len() - i,
    {
        assert(views(cs@)[i as int] == cs@[i as int]@);
        if crate::text::chars_eq(&cs[i], &cur) || crate::text::chars_eq(&cs[i], &parent) {
            assert(components(p@).contains(cs@[i as int]@));
            return false;
        }
        i = i + 1;
    }
    true
}

/// The paths a managed workspace manifest lists (NUL-separated, empty
/// entries skipped), in `Path` order without repeats, or the error of the
/// first entry that is not UTF-8 or not a normalized relative path.
pub fn managed_manifest_paths(bytes: &[u8]) -> (r: Result<Vec<String>, String>)
    ensures
        match spec_manifest_paths(crate::git_changes::nul_pieces(bytes@)) {
            Err(e) => r matches Err(m) && m@ == e,
            Ok(ps) => r matches Ok(v) && exists|u: Seq<SourcePath>|
                #![auto]
                path_texts(u) == ps && crate::text::string_views(v@) == path_texts(
                    dedup_paths(crate::order::sort_listed(u)),
                ),
        },
{
    let pieces = crate::git_changes::split_nul(bytes);
    let ghost pv = pieces@.map_values(|p: Vec<u8>| p@);
    let mut paths: Vec<SourcePath> = Vec::new();
    let mut i: usize = 0;
    assert(pv.take(0) =~= seq![]);
    assert(path_texts(paths@) =~= seq![]);
    while i < pieces.len()
        invariant
            i <= pieces@.len(),
            pv == pieces@.map_values(|p: Vec<u8>| p@),
            pv == crate::git_changes::nul_pieces(bytes@),
            spec_manifest_paths(pv.take(i as int)) == Ok::<Seq<Seq<char>>, Seq<char>>(path_texts(paths@)),
        decreases pieces@.len() - i,
    {
        assert(pv[i as int] == pieces@[i as int]@);
        assert(pv.take(i + 1).drop_last() =~= pv.take(i as int));
        assert(pv.take(i + 1).last() == pv[i as int]);
        match crate::git_changes::utf8_text(pieces[i].as_slice()) {
            Err(_) => {
                proof {
                    lemma_prefix_error(pv, i + 1);
                }
                return Err(String::from_str("managed workspace manifest requires UTF-8 paths"));
            },
            Ok(text) => {
                if !is_normalized_exec(text) {
                    proof {
                        lemma_prefix_error(pv, i + 1);
                    }
                    return Err(String::from_str("managed workspace manifest contains a non-normalized path"));
                }
                let ghost before = paths@;
                paths.push(SourcePath { text: String::from_str(text) });
                assert(path_texts(paths@) =~= path_texts(before).push(text@));
            },
        }
        i = i + 1;
    }
    assert(pv.take(pieces@.len() as int) =~= pv);
    let ghost u = paths@;
    let sorted = crate::order::sort_list(paths);
    let mut out: Vec<String> = Vec::new();
    let mut k: usize = 0;
    assert(path_texts(dedup_paths(sorted@.take(0))) =~= seq![]);
    assert(crate::text::string_views(out@) =~= seq![]);
    while k < sorted.len()
        invariant
            k <= sorted@.len(),
            crate::text::string_views(out@) == path_texts(dedup_paths(sorted@.take(k as int))),
        decreases sorted@.len() - k,
    {
        let repeat = k > 0 && crate::paths::same_path(sorted[k - 1].text.as_str(), sorted[k].text.as_str());
        proof {
            let t = sorted@.take(k + 1);
            assert(t.drop_last() =~= sorted@.take(k as int));
            assert(t.last() == sorted@[k as int]);
            if k > 0 {
                assert(t.drop_last().last() == sorted@[k - 1]);
            }
        }
        if !repeat {
            let ghost before = out@;
            out.push(sorted[k].text.clone());
            proof {
                let t = sorted@.take(k + 1);
                assert(dedup_paths(t) == dedup_paths(t.drop_last()).push(t.last()));
                assert(crate::text::string_views(out@) =~= crate::text::string_views(before).push(sorted@[k as int].text@));
            }
        }
        k = k + 1;
    }
    assert(sorted@.take(sorted@.len() as int) =~= sorted@);
    Ok(out)
}


/// The fingerprint does not depend on the order in which the entries are
/// given, as long as entries with the same path are the same entry.
pub proof fn law_fingerprint_ignores_entry_order(a: Seq<SourceEntry>, b: Seq<SourceEntry>)
    requires
        a.to_multiset() == b.to_multiset(),
        forall|i: int, j: int|
            0 <= i < a.len() && 0 <= j < a.len() && components(a[i].path@) == components(a[j].path@) ==> a[i]
                == a[j],
    ensures
        spec_source_fingerprint(a) == spec_source_fingerprint(b),
{
    broadcast use vstd::seq_lib::group_to_multiset_ensures, vstd::multiset::group_multiset_axioms;

    crate::order::lemma_sort_listed(a);
    crate::order::lemma_sort_listed(b);
    let x = crate::order::sort_listed(a);
    let y = crate::order::sort_listed(b);
    assert forall|p: SourceEntry, q: SourceEntry|
        x.contains(p) && x.contains(q) && p.goes_before(q) && q.goes_before(p) implies p == q by {
        assert(x.to_multiset().count(p) > 0 && x.to_multiset().count(q) > 0);
        assert(a.contains(p) && a.contains(q));
        let i = choose|i: int| 0 <= i < a.len() && a[i] == p;
        let j = choose|j: int| 0 <= j < a.len() && a[j] == q;
        lemma_components_lt_total(components(p.path@), components(q.path@));
    }
    crate::order::lemma_listed_unique(x, y);
}

} // verus!
