//! Which version texts name one exact Rust toolchain or Cargo package
//! version, and which only select one.
use crate::text::{chars_of, lemma_split_chars_single, split_char, split_on, starts_with, views};
use vstd::prelude::*;

verus! {

broadcast use vstd::string::group_string_axioms;

/// Whether `semver::Version::parse` accepts `text`.
pub uninterp spec fn semver_version_parses(text: Seq<char>) -> bool;

/// Calls `semver::Version::parse` and keeps whether it succeeded. Trusted:
/// the result is the named function of the text.
#[verifier::external_body]
fn semver_parses(text: &str) -> (r: bool)
    ensures
        r == semver_version_parses(text@),
{
    semver::Version::parse(text).is_ok()
}

pub open spec fn all_ascii_digits(s: Seq<char>) -> bool {
    forall|i: int| 0 <= i < s.len() ==> '0' <= #[trigger] s[i] && s[i] <= '9'
}

/// A non-empty run of ASCII digits.
pub open spec fn is_number_part(s: Seq<char>) -> bool {
    s.len() > 0 && all_ascii_digits(s)
}

/// `major.minor.patch`, each a non-empty run of ASCII digits.
pub open spec fn is_numeric_triple(s: Seq<char>) -> bool {
    let parts = split_char(s, '.');
    parts.len() == 3 && is_number_part(parts[0]) && is_number_part(parts[1]) && is_number_part(parts[2])
}

/// `YYYY-MM-DD` in ASCII digits.
pub open spec fn spec_is_iso_date(s: Seq<char>) -> bool {
    let parts = split_char(s, '-');
    parts.len() == 3 && parts[0].len() == 4 && parts[1].len() == 2 && parts[2].len() == 2
        && all_ascii_digits(parts[0]) && all_ascii_digits(parts[1]) && all_ascii_digits(parts[2])
}

/// An exact Rust toolchain: a numeric release, or a nightly or beta channel
/// pinned to a date.
pub open spec fn spec_is_exact_rust_version(s: Seq<char>) -> bool {
    ||| is_numeric_triple(s)
    ||| (starts_with(s, "nightly-"@) && spec_is_iso_date(s.skip(8)))
    ||| (!starts_with(s, "nightly-"@) && starts_with(s, "beta-"@) && spec_is_iso_date(s.skip(5)))
}

fn all_digits_exec(v: &[char]) -> (r: bool)
    ensures
        r == all_ascii_digits(v@),
{
    let mut i: usize = 0;
    while i < v.len()
        invariant
            i <= v@.len(),
            forall|k: int| 0 <= k < i ==> '0' <= #[trigger] v@[k] && v@[k] <= '9',
        decreases v@.len() - i,
    {
        if !(v[i] >= '0' && v[i] <= '9') {
            return false;
        }
        i = i + 1;
    }
    true
}

fn numeric_triple(v: &[char]) -> (r: bool)
    ensures
        r == is_numeric_triple(v@),
{
    let dot = ['.'];
    assert(dot@ == seq!['.']);
    let parts = split_on(v, &dot);
    proof {
        lemma_split_chars_single(v@, '.');
    }
    if parts.len() != 3 {
        return false;
    }
    assert(views(parts@)[0] == parts@[0]@);
    assert(views(parts@)[1] == parts@[1]@);
    assert(views(parts@)[2] == parts@[2]@);
    parts[0].len() > 0 && all_digits_exec(&parts[0]) && parts[1].len() > 0 && all_digits_exec(&parts[1])
        && parts[2].len() > 0 && all_digits_exec(&parts[2])
}

fn iso_date_chars(v: &[char]) -> (r: bool)
    ensures
        r == spec_is_iso_date(v@),
{
    let dash = ['-'];
    assert(dash@ == seq!['-']);
    let parts = split_on(v, &dash);
    proof {
        lemma_split_chars_single(v@, '-');
    }
    if parts.len() != 3 {
        return false;
    }
    assert(views(parts@)[0] == parts@[0]@);
    assert(views(parts@)[1] == parts@[1]@);
    assert(views(parts@)[2] == parts@[2]@);
    parts[0].len() == 4 && parts[1].len() == 2 && parts[2].len() == 2 && all_digits_exec(&parts[0])
        && all_digits_exec(&parts[1]) && all_digits_exec(&parts[2])
}

/// Whether `value` is a date written `YYYY-MM-DD`.
pub fn is_iso_date(value: &str) -> (r: bool)
    ensures
        r == spec_is_iso_date(value@),
{
    let v = chars_of(value);
    iso_date_chars(&v)
}

/// Whether `value` names one exact Rust toolchain (a floating channel such
/// as `stable` or `nightly` does not).
pub fn is_exact_rust_version(value: &str) -> (r: bool)
    ensures
        r == spec_is_exact_rust_version(value@),
{
    let v = chars_of(value);
    if numeric_triple(&v) {
        return true;
    }
    let nightly = chars_of("nightly-");
    let beta = chars_of("beta-");
    proof {
        reveal_strlit("nightly-");
        reveal_strlit("beta-");
    }
    if crate::text::chars_start_with(&v, &nightly) {
        let rest = crate::text::sub_vec(&v, 8, v.len());
        assert(rest@ == v@.skip(8));
        return iso_date_chars(&rest);
    }
    if crate::text::chars_start_with(&v, &beta) {
        let rest = crate::text::sub_vec(&v, 5, v.len());
        assert(rest@ == v@.skip(5));
        return iso_date_chars(&rest);
    }
    false
}

/// Whether `value` is an exact Cargo package version (a full semantic
/// version, pre-release and build metadata allowed).
pub fn is_exact_cargo_version(value: &str) -> (r: bool)
    ensures
        r == semver_version_parses(value@),
{
    semver_parses(value)
}

/// How a toolchain selector reads.
#[derive(Clone, Copy, Debug, PartialEq, Eq, Structural)]
pub enum VersionKind {
    /// It names one exact toolchain.
    Exact,
    /// It selects a toolchain to be resolved later.
    Selector,
}

/// The first `-` of `s`, if any.
pub open spec fn first_dash(s: Seq<char>) -> Option<int> {
    if exists|i: int| 0 <= i < s.len() && s[i] == '-' {
        Some(choose|i: int| 0 <= i < s.len() && s[i] == '-' && forall|j: int| 0 <= j < i ==> s[j] != '-')
    } else {
        None
    }
}

/// A toolchain channel is exact when it is a numeric release, a numeric
/// release with a non-empty qualifier, or a nightly or beta channel pinned
/// to a date; anything else only selects a toolchain.
pub open spec fn spec_version_kind(s: Seq<char>) -> VersionKind {
    let qualified = match first_dash(s) {
        Some(i) => {
            let base = s.take(i);
            let qualifier = s.skip(i + 1);
            (qualifier.len() > 0 && is_numeric_triple(base)) || ((base == "nightly"@ || base == "beta"@)
                && spec_is_iso_date(qualifier))
        },
        None => false,
    };
    if is_numeric_triple(s) || qualified {
        VersionKind::Exact
    } else {
        VersionKind::Selector
    }
}

pub fn version_kind(value: &str) -> (r: VersionKind)
    ensures
        r == spec_version_kind(value@),
        spec_is_exact_rust_version(value@) ==> r == VersionKind::Exact,
{
    proof {
        if spec_is_exact_rust_version(value@) {
            law_exact_versions_read_as_exact(value@);
        }
    }
    let v = chars_of(value);
    if numeric_triple(&v) {
        return VersionKind::Exact;
    }
    let mut i: usize = 0;
    while i < v.len() && v[i] != '-'
        invariant
            i <= v@.len(),
            forall|j: int| 0 <= j < i ==> v@[j] != '-',
        decreases v@.len() - i,
    {
        i = i + 1;
    }
    if i == v.len() {
        assert(!(exists|k: int| 0 <= k < v@.len() && v@[k] == '-'));
        return VersionKind::Selector;
    }
    proof {
        assert(v@[i as int] == '-');
        let c = choose|k: int| 0 <= k < v@.len() && v@[k] == '-' && forall|j: int| 0 <= j < k ==> v@[j] != '-';
        assert(c == i) by {
            if c < i {
                assert(v@[c] != '-');
            }
            if c > i {
                assert(v@[i as int] != '-');
            }
        }
    }
    let base = crate::text::sub_vec(&v, 0, i);
    let qualifier = crate::text::sub_vec(&v, i + 1, v.len());
    assert(base@ == v@.take(i as int));
    assert(qualifier@ == v@.skip(i + 1));
    let numeric_base = qualifier.len() > 0 && numeric_triple(&base);
    let named = crate::text::chars_eq(&base, &chars_of("nightly")) || crate::text::chars_eq(&base, &chars_of("beta"));
    if numeric_base || (named && iso_date_chars(&qualifier)) {
        VersionKind::Exact
    } else {
        VersionKind::Selector
    }
}

/// `base` followed by `-` and `date`: when `base` holds no `-`, the first
/// `-` is the one after it.
proof fn lemma_first_dash_after(base: Seq<char>, date: Seq<char>)
    requires
        forall|k: int| 0 <= k < base.len() ==> base[k] != '-',
    ensures
        first_dash(base + "-"@ + date) == Some(base.len() as int),
        (base + "-"@ + date).take(base.len() as int) == base,
        (base + "-"@ + date).skip(base.len() + 1int) == date,
{
    reveal_strlit("-");
    let s = base + "-"@ + date;
    let n = base.len() as int;
    assert(s[n] == '-');
    assert(forall|j: int| 0 <= j < n ==> s[j] == base[j]);
    assert(exists|i: int| 0 <= i < s.len() && s[i] == '-');
    let c = choose|i: int| 0 <= i < s.len() && s[i] == '-' && forall|j: int| 0 <= j < i ==> s[j] != '-';
    if c < n {
        assert(s[c] == base[c]);
    } else if c > n {
        assert(s[n] == '-');
    }
    assert(s.take(n) =~= base);
    assert(s.skip(n + 1) =~= date);
}

proof fn lemma_dated_channel_exact(base: Seq<char>, date: Seq<char>)
    requires
        base == "nightly"@ || base == "beta"@,
        forall|k: int| 0 <= k < base.len() ==> base[k] != '-',
        spec_is_iso_date(date),
    ensures
        spec_version_kind(base + "-"@ + date) == VersionKind::Exact,
{
    lemma_first_dash_after(base, date);
    let s = base + "-"@ + date;
    let i = base.len() as int;
    assert(first_dash(s) == Some(i));
    assert(s.take(i) == base);
    assert(s.skip(i + 1) == date);
}

/// A nightly or beta channel pinned to a date names one exact toolchain.
pub proof fn law_dated_channels_are_exact(date: Seq<char>)
    requires
        spec_is_iso_date(date),
    ensures
        spec_version_kind("nightly"@ + "-"@ + date) == VersionKind::Exact,
        spec_version_kind("beta"@ + "-"@ + date) == VersionKind::Exact,
{
    reveal_strlit("nightly");
    reveal_strlit("beta");
    lemma_dated_channel_exact("nightly"@, date);
    lemma_dated_channel_exact("beta"@, date);
}

proof fn lemma_prefixed_dated_channel(s: Seq<char>, base: Seq<char>)
    requires
        base == "nightly"@ || base == "beta"@,
        forall|k: int| 0 <= k < base.len() ==> base[k] != '-',
        starts_with(s, base + "-"@),
        spec_is_iso_date(s.skip(base.len() + 1int)),
    ensures
        spec_version_kind(s) == VersionKind::Exact,
{
    reveal_strlit("-");
    let d = s.skip(base.len() + 1int);
    assert(s =~= base + "-"@ + d);
    lemma_dated_channel_exact(base, d);
}

/// Every text that names one exact Rust toolchain reads as exact: the
/// kind of a channel agrees with `is_exact_rust_version`.
pub proof fn law_exact_versions_read_as_exact(s: Seq<char>)
    requires
        spec_is_exact_rust_version(s),
    ensures
        spec_version_kind(s) == VersionKind::Exact,
{
    reveal_strlit("nightly-");
    reveal_strlit("beta-");
    reveal_strlit("nightly");
    reveal_strlit("beta");
    reveal_strlit("-");
    assert("nightly-"@ =~= "nightly"@ + "-"@);
    assert("beta-"@ =~= "beta"@ + "-"@);
    if is_numeric_triple(s) {
    } else if starts_with(s, "nightly-"@) {
        lemma_prefixed_dated_channel(s, "nightly"@);
    } else {
        lemma_prefixed_dated_channel(s, "beta"@);
    }
}

} // verus!
