//! Character-level text operations with their mathematical meaning.
//!
//! Every executable helper here works on `char` sequences and states its
//! result through the spec functions of this module, which follow the
//! documented behaviour of the corresponding `str` methods.
use vstd::prelude::*;

verus! {

broadcast use vstd::string::group_string_axioms;

/// Unicode `White_Space`, the property that `char::is_whitespace` tests.
pub open spec fn is_ws(c: char) -> bool {
    ||| c == '\t' || c == '\n' || c == '\u{0B}' || c == '\u{0C}' || c == '\r' || c == ' '
    ||| c == '\u{85}' || c == '\u{A0}' || c == '\u{1680}'
    ||| ('\u{2000}' <= c && c <= '\u{200A}')
    ||| c == '\u{2028}' || c == '\u{2029}' || c == '\u{202F}' || c == '\u{205F}' || c == '\u{3000}'
}

pub fn is_whitespace(c: char) -> (r: bool)
    ensures
        r == is_ws(c),
{
    c == '\t' || c == '\n' || c == '\u{0B}' || c == '\u{0C}' || c == '\r' || c == ' ' || c
        == '\u{85}' || c == '\u{A0}' || c == '\u{1680}' || ('\u{2000}' <= c && c <= '\u{200A}')
        || c == '\u{2028}' || c == '\u{2029}' || c == '\u{202F}' || c == '\u{205F}' || c
        == '\u{3000}'
}

pub open spec fn is_digit(c: char) -> bool {
    '0' <= c && c <= '9'
}

/// The first index at or after `i` that holds no whitespace (or the length).
pub open spec fn first_non_ws_from(s: Seq<char>, i: int) -> int
    decreases s.len() - i,
{
    if i < 0 || i >= s.len() {
        s.len() as int
    } else if !is_ws(s[i]) {
        i
    } else {
        first_non_ws_from(s, i + 1)
    }
}

/// The end of the prefix of `s.take(j)` that does not end in whitespace.
pub open spec fn end_non_ws_before(s: Seq<char>, j: int) -> int
    decreases j,
{
    if j <= 0 || j > s.len() {
        0
    } else if !is_ws(s[j - 1]) {
        j
    } else {
        end_non_ws_before(s, j - 1)
    }
}

/// `str::trim_start`.
pub open spec fn trim_start(s: Seq<char>) -> Seq<char> {
    s.skip(first_non_ws_from(s, 0))
}

/// `str::trim_end`.
pub open spec fn trim_end(s: Seq<char>) -> Seq<char> {
    s.take(end_non_ws_before(s, s.len() as int))
}

/// `str::trim`.
pub open spec fn trim(s: Seq<char>) -> Seq<char> {
    trim_end(trim_start(s))
}

pub open spec fn starts_with(s: Seq<char>, p: Seq<char>) -> bool {
    p.len() <= s.len() && s.take(p.len() as int) == p
}

pub open spec fn ends_with(s: Seq<char>, p: Seq<char>) -> bool {
    p.len() <= s.len() && s.skip(s.len() - p.len()) == p
}

/// `str::split` on one separator character: the pieces between separators,
/// empty pieces included, always at least one piece.
pub open spec fn split_char(s: Seq<char>, sep: char) -> Seq<Seq<char>>
    decreases s.len(),
{
    if s.len() == 0 {
        seq![Seq::<char>::empty()]
    } else {
        let init = split_char(s.drop_last(), sep);
        if s.last() == sep {
            init.push(Seq::<char>::empty())
        } else {
            init.update(init.len() - 1, init.last().push(s.last()))
        }
    }
}

pub proof fn lemma_split_char_nonempty(s: Seq<char>, sep: char)
    ensures
        split_char(s, sep).len() >= 1,
    decreases s.len(),
{
    if s.len() > 0 {
        lemma_split_char_nonempty(s.drop_last(), sep);
    }
}

/// A line piece that was followed by a newline loses one trailing `\r`.
pub open spec fn strip_cr(p: Seq<char>) -> Seq<char> {
    if p.len() > 0 && p.last() == '\r' {
        p.drop_last()
    } else {
        p
    }
}

/// `str::lines`: split at `\n`, drop a final empty piece, and strip one
/// trailing `\r` from every piece that ended at a `\n`.
pub open spec fn lines(s: Seq<char>) -> Seq<Seq<char>> {
    let p = split_char(s, '\n');
    let n = p.len() as int;
    if p[n - 1].len() == 0 {
        Seq::new((n - 1) as nat, |i: int| strip_cr(p[i]))
    } else {
        Seq::new(n as nat, |i: int| if i < n - 1 { strip_cr(p[i]) } else { p[i] })
    }
}

/// The characters of `s`, in order.
pub fn chars_of(s: &str) -> (v: Vec<char>)
    ensures
        v@ == s@,
{
    let mut v: Vec<char> = Vec::new();
    for c in it: s.chars()
        invariant
            it.seq() == s@,
            v@ == it.seq().take(it.index() as int),
    {
        v.push(c);
    }
    v
}

/// Appends one character (`String::push`).
#[verifier::external_body]
pub fn push_char(s: &mut String, c: char)
    ensures
        final(s)@ == old(s)@.push(c),
{
    s.push(c);
}

/// The string holding exactly the characters `v[lo..hi]`.
pub fn string_from_range(v: &[char], lo: usize, hi: usize) -> (s: String)
    requires
        lo <= hi <= v@.len(),
    ensures
        s@ == v@.subrange(lo as int, hi as int),
{
    let mut s = String::new();
    let mut i = lo;
    while i < hi
        invariant
            lo <= i <= hi <= v@.len(),
            s@ == v@.subrange(lo as int, i as int),
        decreases hi - i,
    {
        push_char(&mut s, v[i]);
        assert(v@.subrange(lo as int, i + 1) == v@.subrange(lo as int, i as int).push(v@[i as int]));
        i = i + 1;
    }
    s
}

/// The string holding exactly the characters of `v`.
pub fn string_from_chars(v: &[char]) -> (s: String)
    ensures
        s@ == v@,
{
    let s = string_from_range(v, 0, v.len());
    assert(v@.subrange(0, v@.len() as int) == v@);
    s
}

/// Index of the first non-whitespace character at or after `from`.
pub fn skip_ws_from(v: &[char], from: usize) -> (r: usize)
    requires
        from <= v@.len(),
    ensures
        r == first_non_ws_from(v@, from as int),
        from <= r <= v@.len(),
{
    let mut i = from;
    while i < v.len() && is_whitespace(v[i])
        invariant
            from <= i <= v@.len(),
            first_non_ws_from(v@, from as int) == first_non_ws_from(v@, i as int),
        decreases v@.len() - i,
    {
        i = i + 1;
    }
    i
}

/// End of the range `v[..to]` once trailing whitespace is removed.
pub fn trim_end_before(v: &[char], to: usize) -> (r: usize)
    requires
        to <= v@.len(),
    ensures
        r == end_non_ws_before(v@, to as int),
        r <= to,
{
    let mut j = to;
    while j > 0 && is_whitespace(v[j - 1])
        invariant
            j <= to <= v@.len(),
            end_non_ws_before(v@, to as int) == end_non_ws_before(v@, j as int),
        decreases j,
    {
        j = j - 1;
    }
    j
}

pub proof fn lemma_end_non_ws_before_le(s: Seq<char>, j: int)
    ensures
        0 <= end_non_ws_before(s, j),
        j >= 0 ==> end_non_ws_before(s, j) <= j,
    decreases j,
{
    if j > 0 && j <= s.len() && is_ws(s[j - 1]) {
        lemma_end_non_ws_before_le(s, j - 1);
    }
}

/// `end_non_ws_before` only looks at the characters before `j`.
pub proof fn lemma_end_non_ws_before_take(s: Seq<char>, j: int, k: int)
    requires
        0 <= j <= k <= s.len(),
    ensures
        end_non_ws_before(s, j) == end_non_ws_before(s.take(k), j),
    decreases j,
{
    if j > 0 && is_ws(s[j - 1]) {
        lemma_end_non_ws_before_take(s, j - 1, k);
    }
}

/// `first_non_ws_from` only looks at the characters from `i` on.
pub proof fn lemma_first_non_ws_skip(s: Seq<char>, i: int, k: int)
    requires
        0 <= k <= i <= s.len(),
    ensures
        first_non_ws_from(s, i) == first_non_ws_from(s.skip(k), i - k) + k,
    decreases s.len() - i,
{
    if i < s.len() && is_ws(s[i]) {
        lemma_first_non_ws_skip(s, i + 1, k);
    }
}

pub proof fn lemma_first_non_ws_bounds(s: Seq<char>, i: int)
    requires
        0 <= i <= s.len(),
    ensures
        i <= first_non_ws_from(s, i) <= s.len(),
    decreases s.len() - i,
{
    if i < s.len() && is_ws(s[i]) {
        lemma_first_non_ws_bounds(s, i + 1);
    }
}

/// Bounds `(lo, hi)` such that `v[lo..hi]` is `trim(v)`.
pub fn trim_bounds(v: &[char]) -> (r: (usize, usize))
    ensures
        r.0 <= r.1 <= v@.len(),
        v@.subrange(r.0 as int, r.1 as int) == trim(v@),
{
    let lo = skip_ws_from(v, 0);
    let hi0 = trim_end_before(v, v.len());
    proof {
        let t = v@.skip(lo as int);
        lemma_end_non_ws_before_le(v@, v@.len() as int);
        lemma_end_non_ws_before_le(t, t.len() as int);
    }
    let hi = if hi0 < lo { lo } else { hi0 };
    proof {
        let s = v@;
        let t = s.skip(lo as int);
        assert(trim_start(s) == t);
        lemma_trim_end_skip(s, lo as int);
    }
    (lo, hi)
}

/// Trimming the end of a suffix that starts at the first non-whitespace
/// character agrees with trimming the end of the whole sequence.
pub proof fn lemma_trim_end_skip(s: Seq<char>, lo: int)
    requires
        lo == first_non_ws_from(s, 0),
        0 <= lo <= s.len(),
    ensures
        ({
            let hi0 = end_non_ws_before(s, s.len() as int);
            let hi = if hi0 < lo { lo } else { hi0 };
            &&& lo <= hi <= s.len()
            &&& s.subrange(lo, hi) == trim_end(s.skip(lo))
        }),
{
    let t = s.skip(lo);
    lemma_end_non_ws_before_le(s, s.len() as int);
    lemma_end_non_ws_shift(s, lo, s.len() as int);
    let hi0 = end_non_ws_before(s, s.len() as int);
    let e = end_non_ws_before(t, t.len() as int);
    assert(t.take(e) == s.subrange(lo, if hi0 < lo { lo } else { hi0 }));
}

/// Relates the trailing-whitespace scan on `s` and on `s.skip(lo)` when
/// every character before `lo` is whitespace.
pub proof fn lemma_end_non_ws_shift(s: Seq<char>, lo: int, j: int)
    requires
        lo == first_non_ws_from(s, 0),
        0 <= lo <= j <= s.len(),
    ensures
        ({
            let a = end_non_ws_before(s, j);
            let b = end_non_ws_before(s.skip(lo), j - lo);
            &&& a < lo ==> b == 0
            &&& a >= lo ==> b == a - lo
        }),
    decreases j,
{
    lemma_first_non_ws_prefix(s, 0);
    if j > lo {
        if is_ws(s[j - 1]) {
            lemma_end_non_ws_shift(s, lo, j - 1);
        }
    } else {
        lemma_end_non_ws_all_ws(s, j);
    }
}

/// Every character before `first_non_ws_from(s, i)` (from `i`) is whitespace.
pub proof fn lemma_first_non_ws_prefix(s: Seq<char>, i: int)
    requires
        0 <= i <= s.len(),
    ensures
        forall|k: int| i <= k < first_non_ws_from(s, i) ==> is_ws(#[trigger] s[k]),
        first_non_ws_from(s, i) < s.len() ==> !is_ws(s[first_non_ws_from(s, i)]),
    decreases s.len() - i,
{
    if i < s.len() && is_ws(s[i]) {
        lemma_first_non_ws_prefix(s, i + 1);
    }
}

/// Over a prefix made only of whitespace, the trailing scan reaches zero.
pub proof fn lemma_end_non_ws_all_ws(s: Seq<char>, j: int)
    requires
        0 <= j <= s.len(),
        forall|k: int| 0 <= k < j ==> is_ws(#[trigger] s[k]),
    ensures
        end_non_ws_before(s, j) == 0,
    decreases j,
{
    if j > 0 {
        lemma_end_non_ws_all_ws(s, j - 1);
    }
}


/// `str::split` with a set of separator characters.
pub open spec fn split_chars(s: Seq<char>, seps: Seq<char>) -> Seq<Seq<char>>
    decreases s.len(),
{
    if s.len() == 0 {
        seq![Seq::<char>::empty()]
    } else {
        let init = split_chars(s.drop_last(), seps);
        if seps.contains(s.last()) {
            init.push(Seq::<char>::empty())
        } else {
            init.update(init.len() - 1, init.last().push(s.last()))
        }
    }
}

pub proof fn lemma_split_chars_nonempty(s: Seq<char>, seps: Seq<char>)
    ensures
        split_chars(s, seps).len() >= 1,
    decreases s.len(),
{
    if s.len() > 0 {
        lemma_split_chars_nonempty(s.drop_last(), seps);
    }
}

pub open spec fn views(v: Seq<Vec<char>>) -> Seq<Seq<char>> {
    v.map_values(|p: Vec<char>| p@)
}

/// `str::split` on any of the characters in `seps`, as owned pieces.
pub fn split_on(v: &[char], seps: &[char]) -> (r: Vec<Vec<char>>)
    ensures
        views(r@) == split_chars(v@, seps@),
{
    let mut pieces: Vec<Vec<char>> = Vec::new();
    let mut cur: Vec<char> = Vec::new();
    let mut i: usize = 0;
    while i < v.len()
        invariant
            i <= v@.len(),
            views(pieces@).push(cur@) == split_chars(v@.take(i as int), seps@),
        decreases v@.len() - i,
    {
        let c = v[i];
        let mut is_sep = false;
        let mut k: usize = 0;
        while k < seps.len()
            invariant
                k <= seps@.len(),
                is_sep == (exists|m: int| 0 <= m < k && seps@[m] == c),
            decreases seps@.len() - k,
        {
            if seps[k] == c {
                is_sep = true;
            }
            k = k + 1;
        }
        proof {
            let t = v@.take(i + 1);
            assert(t.drop_last() == v@.take(i as int));
            assert(t.last() == c);
            if is_sep {
                let m = choose|m: int| 0 <= m < k && seps@[m] == c;
                assert(seps@.contains(c));
            } else {
                if seps@.contains(c) {
                    let m = choose|m: int| 0 <= m < seps@.len() && seps@[m] == c;
                    assert(false);
                }
            }
        }
        if is_sep {
            let done = cur;
            pieces.push(done);
            cur = Vec::new();
            proof {
                assert(views(pieces@).push(cur@) == views(pieces@.drop_last()).push(done@).push(
                    Seq::<char>::empty(),
                ));
                assert(pieces@.drop_last() =~= pieces@.take(pieces@.len() - 1));
            }
        } else {
            let ghost before = views(pieces@).push(cur@);
            cur.push(c);
            proof {
                assert(views(pieces@).push(cur@) == before.update(
                    before.len() - 1,
                    before.last().push(c),
                ));
            }
        }
        i = i + 1;
    }
    pieces.push(cur);
    assert(v@.take(v@.len() as int) == v@);
    pieces
}

/// `str::lines` as owned pieces.
pub fn lines_of(v: &[char]) -> (r: Vec<Vec<char>>)
    ensures
        views(r@) == lines(v@),
{
    let nl = ['\n'];
    let pieces = split_on(v, &nl);
    proof {
        assert(nl@ == seq!['\n']);
        lemma_split_chars_single(v@, '\n');
        lemma_split_chars_nonempty(v@, nl@);
    }
    let n = pieces.len();
    let last_empty = pieces[n - 1].len() == 0;
    let keep = if last_empty { n - 1 } else { n };
    let mut out: Vec<Vec<char>> = Vec::new();
    let mut i: usize = 0;
    while i < keep
        invariant
            keep <= n == pieces@.len(),
            views(pieces@) == split_char(v@, '\n'),
            last_empty == (views(pieces@)[n - 1].len() == 0),
            keep == if last_empty { (n - 1) as usize } else { n },
            i <= keep,
            views(out@) == Seq::new(
                i as nat,
                |j: int|
                    if last_empty || j < n - 1 {
                        strip_cr(views(pieces@)[j])
                    } else {
                        views(pieces@)[j]
                    },
            ),
        decreases keep - i,
    {
        let p = &pieces[i];
        let plen = p.len();
        let strip = (last_empty || i < n - 1) && plen > 0 && p[plen - 1] == '\r';
        let hi = if strip { plen - 1 } else { plen };
        let mut q: Vec<char> = Vec::new();
        let mut k: usize = 0;
        while k < hi
            invariant
                hi <= plen == p@.len(),
                k <= hi,
                q@ == p@.take(k as int),
            decreases hi - k,
        {
            q.push(p[k]);
            k = k + 1;
        }
        proof {
            assert(views(pieces@)[i as int] == p@);
            if strip {
                assert(q@ == p@.drop_last());
            } else {
                assert(q@ == p@);
            }
        }
        let ghost prev = views(out@);
        out.push(q);
        proof {
            assert(views(out@) == prev.push(q@));
            assert(views(out@) =~= Seq::new(
                (i + 1) as nat,
                |j: int|
                    if last_empty || j < n - 1 {
                        strip_cr(views(pieces@)[j])
                    } else {
                        views(pieces@)[j]
                    },
            ));
        }
        i = i + 1;
    }
    out
}

pub proof fn lemma_split_chars_single(s: Seq<char>, c: char)
    ensures
        split_chars(s, seq![c]) == split_char(s, c),
    decreases s.len(),
{
    if s.len() > 0 {
        lemma_split_chars_single(s.drop_last(), c);
        assert(seq![c].contains(s.last()) == (s.last() == c)) by {
            if s.last() == c {
                assert(seq![c][0] == c);
            }
        }
    }
}

/// Value of a run of decimal digits.
pub open spec fn digits_value(s: Seq<char>) -> nat
    decreases s.len(),
{
    if s.len() == 0 {
        0
    } else {
        digits_value(s.drop_last()) * 10 + ((s.last() as int - '0' as int) as nat)
    }
}

pub open spec fn all_digits(s: Seq<char>) -> bool {
    forall|i: int| 0 <= i < s.len() ==> is_digit(#[trigger] s[i])
}

/// `u64::from_str`: an optional `+`, then at least one decimal digit, with a
/// value that fits in a `u64`.
pub open spec fn parse_u64(s: Seq<char>) -> Option<u64> {
    let d = if s.len() > 0 && s[0] == '+' {
        s.drop_first()
    } else {
        s
    };
    if d.len() > 0 && all_digits(d) && digits_value(d) <= u64::MAX {
        Some(digits_value(d) as u64)
    } else {
        None
    }
}

pub proof fn lemma_digits_value_grows(s: Seq<char>, k: int)
    requires
        0 <= k <= s.len(),
        all_digits(s),
    ensures
        digits_value(s.take(k)) <= digits_value(s),
    decreases s.len() - k,
{
    if k < s.len() {
        lemma_digits_value_grows(s, k + 1);
        assert(s.take(k + 1).drop_last() == s.take(k));
    } else {
        assert(s.take(k) == s);
    }
}

/// Parses `v[lo..hi]` as `u64::from_str` does.
pub fn parse_u64_range(v: &[char], lo: usize, hi: usize) -> (r: Option<u64>)
    requires
        lo <= hi <= v@.len(),
    ensures
        r == parse_u64(v@.subrange(lo as int, hi as int)),
{
    let ghost s = v@.subrange(lo as int, hi as int);
    let start = if lo < hi && v[lo] == '+' { lo + 1 } else { lo };
    let ghost d = v@.subrange(start as int, hi as int);
    assert(d == (if s.len() > 0 && s[0] == '+' { s.drop_first() } else { s }));
    if start == hi {
        return None;
    }
    let mut i = start;
    while i < hi
        invariant
            lo <= start <= i <= hi <= v@.len(),
            s == v@.subrange(lo as int, hi as int),
            d == v@.subrange(start as int, hi as int),
            d == (if s.len() > 0 && s[0] == '+' { s.drop_first() } else { s }),
            forall|m: int| start <= m < i ==> is_digit(#[trigger] v@[m]),
        decreases hi - i,
    {
        if !(v[i] >= '0' && v[i] <= '9') {
            assert(!is_digit(d[i - start]));
            return None;
        }
        i = i + 1;
    }
    assert(all_digits(d));
    let mut acc: u64 = 0;
    let mut j = start;
    while j < hi
        invariant
            lo <= start <= j <= hi <= v@.len(),
            s == v@.subrange(lo as int, hi as int),
            d == v@.subrange(start as int, hi as int),
            d == (if s.len() > 0 && s[0] == '+' { s.drop_first() } else { s }),
            all_digits(d),
            acc as nat == digits_value(d.take(j - start)),
        decreases hi - j,
    {
        proof {
            assert(d.take(j - start + 1).drop_last() == d.take(j - start));
            assert(d.take(j - start + 1).last() == v@[j as int]);
            assert(is_digit(d[j - start]));
        }
        let digit = (v[j] as u32 - '0' as u32) as u64;
        assert(digits_value(d.take(j - start + 1)) == acc * 10 + digit);
        match acc.checked_mul(10) {
            Some(m) => match m.checked_add(digit) {
                Some(a) => {
                    acc = a;
                },
                None => {
                    proof {
                        lemma_digits_value_grows(d, j - start + 1);
                    }
                    return None;
                },
            },
            None => {
                proof {
                    lemma_digits_value_grows(d, j - start + 1);
                }
                return None;
            },
        }
        j = j + 1;
    }
    assert(d.take(hi - start) == d);
    Some(acc)
}

/// Start of the last non-whitespace run that ends at `e`.
pub open spec fn word_start_before(s: Seq<char>, e: int) -> int
    decreases e,
{
    if e <= 0 || e > s.len() {
        0
    } else if is_ws(s[e - 1]) {
        e
    } else {
        word_start_before(s, e - 1)
    }
}

/// `str::split_whitespace().last()`.
pub open spec fn last_word(s: Seq<char>) -> Option<Seq<char>> {
    let e = end_non_ws_before(s, s.len() as int);
    if e == 0 {
        None
    } else {
        Some(s.subrange(word_start_before(s, e), e))
    }
}

pub proof fn lemma_word_start_le(s: Seq<char>, e: int)
    ensures
        0 <= word_start_before(s, e),
        e >= 0 ==> word_start_before(s, e) <= e,
    decreases e,
{
    if e > 0 && e <= s.len() && !is_ws(s[e - 1]) {
        lemma_word_start_le(s, e - 1);
    }
}

/// Bounds of `last_word(v[lo..hi])` within `v`, if there is one.
pub fn last_word_range(v: &[char], lo: usize, hi: usize) -> (r: Option<(usize, usize)>)
    requires
        lo <= hi <= v@.len(),
    ensures
        match last_word(v@.subrange(lo as int, hi as int)) {
            None => r is None,
            Some(w) => r matches Some((a, b)) && lo <= a <= b <= hi && v@.subrange(
                a as int,
                b as int,
            ) == w,
        },
{
    let ghost s = v@.subrange(lo as int, hi as int);
    let mut e = hi;
    while e > lo && is_whitespace(v[e - 1])
        invariant
            lo <= e <= hi <= v@.len(),
            s == v@.subrange(lo as int, hi as int),
            end_non_ws_before(s, s.len() as int) == end_non_ws_before(s, e - lo),
        decreases e,
    {
        assert(s[e - lo - 1] == v@[e - 1]);
        e = e - 1;
    }
    proof {
        if e > lo {
            assert(s[e - lo - 1] == v@[e - 1]);
        }
    }
    if e == lo {
        return None;
    }
    let mut b = e;
    while b > lo && !is_whitespace(v[b - 1])
        invariant
            lo <= b <= e <= hi <= v@.len(),
            s == v@.subrange(lo as int, hi as int),
            word_start_before(s, e - lo) == word_start_before(s, b - lo),
        decreases b,
    {
        assert(s[b - lo - 1] == v@[b - 1]);
        b = b - 1;
    }
    proof {
        if b > lo {
            assert(s[b - lo - 1] == v@[b - 1]);
        }
        assert(v@.subrange(b as int, e as int) == s.subrange(b - lo, e - lo));
    }
    Some((b, e))
}


/// `a == b` for string slices.
pub fn str_eq(a: &str, b: &str) -> (r: bool)
    ensures
        r == (a@ == b@),
{
    let x = chars_of(a);
    let y = chars_of(b);
    chars_eq(&x, &y)
}

/// `a == b` for character slices.
pub fn chars_eq(x: &[char], y: &[char]) -> (r: bool)
    ensures
        r == (x@ == y@),
{
    if x.len() != y.len() {
        return false;
    }
    let mut i: usize = 0;
    while i < x.len()
        invariant
            x@.len() == y@.len(),
            i <= x@.len(),
            forall|k: int| 0 <= k < i ==> x@[k] == y@[k],
        decreases x@.len() - i,
    {
        if x[i] != y[i] {
            return false;
        }
        i = i + 1;
    }
    assert(x@ =~= y@);
    true
}


/// A copy of `v[lo..hi]`.
pub fn sub_vec(v: &[char], lo: usize, hi: usize) -> (r: Vec<char>)
    requires
        lo <= hi <= v@.len(),
    ensures
        r@ == v@.subrange(lo as int, hi as int),
{
    let mut r: Vec<char> = Vec::new();
    let mut i = lo;
    while i < hi
        invariant
            lo <= i <= hi <= v@.len(),
            r@ == v@.subrange(lo as int, i as int),
        decreases hi - i,
    {
        r.push(v[i]);
        assert(v@.subrange(lo as int, i + 1) == v@.subrange(lo as int, i as int).push(v@[i as int]));
        i = i + 1;
    }
    r
}

/// `str::starts_with` for character slices.
pub fn chars_start_with(v: &[char], p: &[char]) -> (r: bool)
    ensures
        r == starts_with(v@, p@),
{
    if p.len() > v.len() {
        return false;
    }
    let mut i: usize = 0;
    while i < p.len()
        invariant
            p@.len() <= v@.len(),
            i <= p@.len(),
            forall|k: int| 0 <= k < i ==> v@[k] == p@[k],
        decreases p@.len() - i,
    {
        if v[i] != p[i] {
            assert(v@.take(p@.len() as int)[i as int] != p@[i as int]);
            return false;
        }
        i = i + 1;
    }
    assert(v@.take(p@.len() as int) =~= p@);
    true
}

/// `str::ends_with` for character slices.
pub fn chars_end_with(v: &[char], p: &[char]) -> (r: bool)
    ensures
        r == ends_with(v@, p@),
{
    if p.len() > v.len() {
        return false;
    }
    let n = v.len();
    let off = n - p.len();
    let mut i: usize = 0;
    while i < p.len()
        invariant
            p@.len() <= v@.len(),
            off == v@.len() - p@.len(),
            off + p@.len() == n,
            n == v@.len(),
            i <= p@.len(),
            forall|k: int| 0 <= k < i ==> v@[off + k] == p@[k],
        decreases p@.len() - i,
    {
        if v[off + i] != p[i] {
            assert(v@.skip(off as int)[i as int] != p@[i as int]);
            return false;
        }
        i = i + 1;
    }
    assert(v@.skip(off as int) =~= p@);
    true
}

/// `pieces` joined with `sep` between neighbours (`[T]::join`).
pub open spec fn join(pieces: Seq<Seq<char>>, sep: Seq<char>) -> Seq<char>
    decreases pieces.len(),
{
    if pieces.len() == 0 {
        Seq::empty()
    } else if pieces.len() == 1 {
        pieces[0]
    } else {
        join(pieces.drop_last(), sep) + sep + pieces.last()
    }
}

/// `pieces[lo..hi]` joined with `sep`.
pub fn join_range(pieces: &Vec<Vec<char>>, lo: usize, hi: usize, sep: &[char]) -> (r: Vec<char>)
    requires
        lo <= hi <= pieces@.len(),
    ensures
        r@ == join(views(pieces@).subrange(lo as int, hi as int), sep@),
{
    let mut r: Vec<char> = Vec::new();
    let mut i = lo;
    while i < hi
        invariant
            lo <= i <= hi <= pieces@.len(),
            r@ == join(views(pieces@).subrange(lo as int, i as int), sep@),
        decreases hi - i,
    {
        let ghost before = r@;
        if i > lo {
            let mut k: usize = 0;
            while k < sep.len()
                invariant
                    k <= sep@.len(),
                    r@ == before + sep@.take(k as int),
                decreases sep@.len() - k,
            {
                r.push(sep[k]);
                assert(sep@.take(k + 1) == sep@.take(k as int).push(sep@[k as int]));
                k = k + 1;
            }
            assert(sep@.take(sep@.len() as int) == sep@);
        }
        let ghost mid = r@;
        let p = &pieces[i];
        let mut k: usize = 0;
        while k < p.len()
            invariant
                k <= p@.len(),
                r@ == mid + p@.take(k as int),
            decreases p@.len() - k,
        {
            r.push(p[k]);
            assert(p@.take(k + 1) == p@.take(k as int).push(p@[k as int]));
            k = k + 1;
        }
        proof {
            assert(p@.take(p@.len() as int) == p@);
            let w = views(pieces@);
            let a = w.subrange(lo as int, i + 1);
            assert(a.drop_last() == w.subrange(lo as int, i as int));
            assert(a.last() == p@);
            if i == lo {
                assert(a.len() == 1);
            }
        }
        i = i + 1;
    }
    r
}


pub open spec fn string_views(v: Seq<String>) -> Seq<Seq<char>> {
    v.map_values(|s: String| s@)
}

/// An element-wise copy of a list of strings.
pub fn clone_strings(v: &Vec<String>) -> (r: Vec<String>)
    ensures
        string_views(r@) == string_views(v@),
{
    let mut r: Vec<String> = Vec::new();
    let mut i: usize = 0;
    while i < v.len()
        invariant
            i <= v@.len(),
            string_views(r@) == string_views(v@.take(i as int)),
        decreases v@.len() - i,
    {
        let c = v[i].clone();
        assert(c@ == v@[i as int]@);
        let ghost before = r@;
        r.push(c);
        assert(v@.take(i + 1) == v@.take(i as int).push(v@[i as int]));
        assert(r@ == before.push(c));
        assert(string_views(r@) =~= string_views(before).push(c@));
        assert(string_views(v@.take(i + 1)) =~= string_views(v@.take(i as int)).push(v@[i as int]@));
        i = i + 1;
    }
    assert(v@.take(v@.len() as int) == v@);
    r
}

/// A copy of an optional string.
pub fn clone_opt_string(v: &Option<String>) -> (r: Option<String>)
    ensures
        r == *v,
{
    match v {
        Some(s) => Some(s.clone()),
        None => None,
    }
}


/// The last index of `c` in `s`, if any.
pub open spec fn last_index_of(s: Seq<char>, c: char) -> Option<int>
    decreases s.len(),
{
    if s.len() == 0 {
        None
    } else if s.last() == c {
        Some(s.len() - 1)
    } else {
        last_index_of(s.drop_last(), c)
    }
}

pub proof fn lemma_last_index_of(s: Seq<char>, c: char)
    ensures
        last_index_of(s, c) matches Some(i) ==> 0 <= i < s.len() && s[i] == c && forall|j: int|
            i < j < s.len() ==> s[j] != c,
        last_index_of(s, c) is None ==> forall|j: int| 0 <= j < s.len() ==> s[j] != c,
    decreases s.len(),
{
    if s.len() > 0 && s.last() != c {
        lemma_last_index_of(s.drop_last(), c);
        let t = s.drop_last();
        assert forall|j: int| 0 <= j < t.len() implies s[j] == t[j] by {}
    }
}

pub fn chars_last_index_of(v: &[char], c: char) -> (r: Option<usize>)
    ensures
        r matches Some(i) ==> last_index_of(v@, c) == Some(i as int),
        r is None ==> last_index_of(v@, c) is None,
{
    let mut j = v.len();
    assert(v@.take(j as int) == v@);
    while j > 0
        invariant
            j <= v@.len(),
            last_index_of(v@, c) == last_index_of(v@.take(j as int), c),
        decreases j,
    {
        assert(v@.take(j as int).drop_last() == v@.take(j - 1));
        if v[j - 1] == c {
            return Some(j - 1);
        }
        j = j - 1;
    }
    None
}

/// `str::rsplit(c).next()`: the text after the last `c`, or all of it.
pub open spec fn after_last(s: Seq<char>, c: char) -> Seq<char> {
    match last_index_of(s, c) {
        Some(i) => s.skip(i + 1),
        None => s,
    }
}

/// Length of `s` once every trailing `c` is removed.
pub open spec fn end_without_trailing(s: Seq<char>, c: char, j: int) -> int
    decreases j,
{
    if j <= 0 || j > s.len() {
        0
    } else if s[j - 1] != c {
        j
    } else {
        end_without_trailing(s, c, j - 1)
    }
}

/// `str::trim_end_matches(c)`.
pub open spec fn trim_end_char(s: Seq<char>, c: char) -> Seq<char> {
    s.take(end_without_trailing(s, c, s.len() as int))
}

pub proof fn lemma_end_without_trailing_le(s: Seq<char>, c: char, j: int)
    ensures
        0 <= end_without_trailing(s, c, j),
        j >= 0 ==> end_without_trailing(s, c, j) <= j,
    decreases j,
{
    if j > 0 && j <= s.len() && s[j - 1] == c {
        lemma_end_without_trailing_le(s, c, j - 1);
    }
}

pub fn trim_end_char_len(v: &[char], c: char) -> (r: usize)
    ensures
        r == end_without_trailing(v@, c, v@.len() as int),
        r <= v@.len(),
{
    let mut j = v.len();
    while j > 0 && v[j - 1] == c
        invariant
            j <= v@.len(),
            end_without_trailing(v@, c, v@.len() as int) == end_without_trailing(v@, c, j as int),
        decreases j,
    {
        j = j - 1;
    }
    j
}

/// Characters of `s` with every `from` replaced by `to` (`str::replace`
/// with single-character patterns).
pub open spec fn replace_char(s: Seq<char>, from: char, to: char) -> Seq<char> {
    s.map_values(|x: char| if x == from { to } else { x })
}

pub fn chars_replace(v: &[char], from: char, to: char) -> (r: Vec<char>)
    ensures
        r@ == replace_char(v@, from, to),
{
    let mut r: Vec<char> = Vec::new();
    let mut i: usize = 0;
    while i < v.len()
        invariant
            i <= v@.len(),
            r@ == replace_char(v@.take(i as int), from, to),
        decreases v@.len() - i,
    {
        let x = v[i];
        r.push(if x == from { to } else { x });
        assert(v@.take(i + 1) == v@.take(i as int).push(x));
        assert(r@ =~= replace_char(v@.take(i + 1), from, to));
        i = i + 1;
    }
    assert(v@.take(v@.len() as int) == v@);
    r
}

/// Whether `c` occurs in `v`.
pub fn chars_contain(v: &[char], c: char) -> (r: bool)
    ensures
        r == v@.contains(c),
{
    let mut i: usize = 0;
    while i < v.len()
        invariant
            i <= v@.len(),
            forall|k: int| 0 <= k < i ==> v@[k] != c,
        decreases v@.len() - i,
    {
        if v[i] == c {
            assert(v@[i as int] == c);
            return true;
        }
        i = i + 1;
    }
    false
}

/// `v` followed by `w`.
pub fn chars_concat(v: &[char], w: &[char]) -> (r: Vec<char>)
    ensures
        r@ == v@ + w@,
{
    let mut r = sub_vec(v, 0, v.len());
    assert(v@.subrange(0, v@.len() as int) == v@);
    let mut i: usize = 0;
    while i < w.len()
        invariant
            i <= w@.len(),
            r@ == v@ + w@.take(i as int),
        decreases w@.len() - i,
    {
        r.push(w[i]);
        assert(w@.take(i + 1) == w@.take(i as int).push(w@[i as int]));
        i = i + 1;
    }
    assert(w@.take(w@.len() as int) == w@);
    r
}


/// The first index at or after `i` that does not hold `c` (or the length).
pub open spec fn start_without_leading(s: Seq<char>, c: char, i: int) -> int
    decreases s.len() - i,
{
    if i < 0 || i >= s.len() {
        s.len() as int
    } else if s[i] != c {
        i
    } else {
        start_without_leading(s, c, i + 1)
    }
}

/// `str::trim_start_matches(c)`.
pub open spec fn trim_start_char(s: Seq<char>, c: char) -> Seq<char> {
    s.skip(start_without_leading(s, c, 0))
}

pub fn trim_start_char_len(v: &[char], c: char) -> (r: usize)
    ensures
        r == start_without_leading(v@, c, 0),
        r <= v@.len(),
{
    let mut i: usize = 0;
    while i < v.len() && v[i] == c
        invariant
            i <= v@.len(),
            start_without_leading(v@, c, 0) == start_without_leading(v@, c, i as int),
        decreases v@.len() - i,
    {
        i = i + 1;
    }
    i
}

/// `str::trim_start_matches(p)` for a text pattern: every leading copy of
/// `p` is removed.
pub open spec fn trim_start_text(s: Seq<char>, p: Seq<char>) -> Seq<char>
    decreases s.len(),
{
    if p.len() > 0 && starts_with(s, p) {
        trim_start_text(s.skip(p.len() as int), p)
    } else {
        s
    }
}

/// The index at which `trim_start_text(v, p)` begins.
pub fn trim_start_text_len(v: &[char], p: &[char]) -> (r: usize)
    ensures
        r <= v@.len(),
        v@.skip(r as int) == trim_start_text(v@, p@),
{
    let mut i: usize = 0;
    assert(v@.skip(0) =~= v@);
    if p.len() == 0 {
        return 0;
    }
    while i < v.len()
        invariant
            p@.len() > 0,
            i <= v@.len(),
            trim_start_text(v@, p@) == trim_start_text(v@.skip(i as int), p@),
        decreases v@.len() - i,
    {
        let rest = sub_vec(v, i, v.len());
        assert(rest@ =~= v@.skip(i as int));
        if !chars_start_with(&rest, p) {
            return i;
        }
        assert(v@.skip(i as int).skip(p@.len() as int) =~= v@.skip(i + p@.len()));
        i = i + p.len();
    }
    i
}


pub open spec fn digit_char(d: nat) -> char {
    if d == 0 { '0' } else if d == 1 { '1' } else if d == 2 { '2' } else if d == 3 { '3' } else if d == 4 {
        '4'
    } else if d == 5 { '5' } else if d == 6 { '6' } else if d == 7 { '7' } else if d == 8 { '8' } else { '9' }
}

/// The decimal text of `n` (`{}` of an unsigned integer).
pub open spec fn decimal(n: nat) -> Seq<char>
    decreases n,
{
    if n < 10 {
        seq![digit_char(n)]
    } else {
        decimal(n / 10).push(digit_char(n % 10))
    }
}

fn digit_exec(d: u64) -> (c: char)
    requires
        d < 10,
    ensures
        c == digit_char(d as nat),
{
    if d == 0 { '0' } else if d == 1 { '1' } else if d == 2 { '2' } else if d == 3 { '3' } else if d == 4 {
        '4'
    } else if d == 5 { '5' } else if d == 6 { '6' } else if d == 7 { '7' } else if d == 8 { '8' } else { '9' }
}

fn decimal_chars(n: u64) -> (r: Vec<char>)
    ensures
        r@ == decimal(n as nat),
    decreases n,
{
    if n < 10 {
        let mut v: Vec<char> = Vec::new();
        v.push(digit_exec(n));
        assert(v@ =~= seq![digit_char(n as nat)]);
        v
    } else {
        let mut v = decimal_chars(n / 10);
        v.push(digit_exec(n % 10));
        v
    }
}

/// `n` written in decimal.
pub fn u64_to_decimal(n: u64) -> (r: String)
    ensures
        r@ == decimal(n as nat),
{
    let v = decimal_chars(n);
    string_from_chars(&v)
}


pub open spec fn spaces(n: int) -> Seq<char> {
    Seq::new(if n > 0 { n as nat } else { 0 }, |i: int| ' ')
}

/// `format!("{s:<w}")`: `s` followed by spaces up to `w` characters.
pub open spec fn pad_right(s: Seq<char>, w: int) -> Seq<char> {
    s + spaces(w - s.len())
}

/// `format!("{s:>w}")`: spaces up to `w` characters, then `s`.
pub open spec fn pad_left(s: Seq<char>, w: int) -> Seq<char> {
    spaces(w - s.len()) + s
}

fn spaces_exec(n: usize) -> (r: Vec<char>)
    ensures
        r@ == spaces(n as int),
{
    let mut v: Vec<char> = Vec::new();
    let mut i: usize = 0;
    while i < n
        invariant
            i <= n,
            v@ == spaces(i as int),
        decreases n - i,
    {
        v.push(' ');
        assert(v@ =~= spaces(i + 1));
        i = i + 1;
    }
    v
}

pub fn padded_right(s: &str, w: usize) -> (r: String)
    ensures
        r@ == pad_right(s@, w as int),
{
    let v = chars_of(s);
    let pad = if v.len() < w { w - v.len() } else { 0 };
    let sp = spaces_exec(pad);
    assert(sp@ =~= spaces(w - s@.len()));
    let out = chars_concat(&v, &sp);
    string_from_chars(&out)
}

pub fn padded_left(s: &str, w: usize) -> (r: String)
    ensures
        r@ == pad_left(s@, w as int),
{
    let v = chars_of(s);
    let pad = if v.len() < w { w - v.len() } else { 0 };
    let sp = spaces_exec(pad);
    assert(sp@ =~= spaces(w - s@.len()));
    let out = chars_concat(&sp, &v);
    string_from_chars(&out)
}

/// Lines, each ended by a newline.
pub open spec fn lines_text(ls: Seq<Seq<char>>) -> Seq<char>
    decreases ls.len(),
{
    if ls.len() == 0 {
        seq![]
    } else {
        lines_text(ls.drop_last()) + ls.last() + seq!['\n']
    }
}

/// Writes each line followed by a newline (`writeln!` line by line).
pub fn write_lines(ls: &Vec<String>) -> (r: String)
    ensures
        r@ == lines_text(string_views(ls@)),
{
    let mut out = String::new();
    let mut i: usize = 0;
    while i < ls.len()
        invariant
            i <= ls@.len(),
            out@ == lines_text(string_views(ls@).take(i as int)),
        decreases ls@.len() - i,
    {
        out.append(ls[i].as_str());
        out.append("\n");
        proof {
            reveal_strlit("\n");
            assert(string_views(ls@).take(i + 1).drop_last() =~= string_views(ls@).take(i as int));
            assert(string_views(ls@).take(i + 1).last() == ls@[i as int]@);
        }
        i = i + 1;
    }
    assert(string_views(ls@).take(ls@.len() as int) =~= string_views(ls@));
    out
}

} // verus!
