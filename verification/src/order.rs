//! Orders used to sort reports: text in code-point order, and a stable sort
//! over any type that states its own order.
use vstd::prelude::*;

verus! {

/// `a` comes before `b` in code-point order (`str::cmp` order: for UTF-8
/// text, byte order and code-point order agree).
pub open spec fn text_lt(a: Seq<char>, b: Seq<char>) -> bool
    decreases a.len(),
{
    if b.len() == 0 {
        false
    } else if a.len() == 0 {
        true
    } else if a[0] != b[0] {
        a[0] < b[0]
    } else {
        text_lt(a.drop_first(), b.drop_first())
    }
}

pub proof fn lemma_text_lt_irreflexive(a: Seq<char>)
    ensures
        !text_lt(a, a),
    decreases a.len(),
{
    if a.len() > 0 {
        lemma_text_lt_irreflexive(a.drop_first());
    }
}

pub proof fn lemma_text_total(a: Seq<char>, b: Seq<char>)
    ensures
        text_lt(a, b) || text_lt(b, a) || a == b,
    decreases a.len(),
{
    if a.len() > 0 && b.len() > 0 && a[0] == b[0] {
        lemma_text_total(a.drop_first(), b.drop_first());
        if a.drop_first() == b.drop_first() {
            assert(a =~= seq![a[0]] + a.drop_first());
            assert(b =~= seq![b[0]] + b.drop_first());
        }
    } else if a.len() == 0 && b.len() == 0 {
        assert(a =~= b);
    }
}

pub proof fn lemma_text_lt_asymmetric(a: Seq<char>, b: Seq<char>)
    requires
        text_lt(a, b),
    ensures
        !text_lt(b, a),
    decreases a.len(),
{
    if a.len() > 0 && b.len() > 0 && a[0] == b[0] {
        lemma_text_lt_asymmetric(a.drop_first(), b.drop_first());
    }
}

pub proof fn lemma_text_lt_transitive(a: Seq<char>, b: Seq<char>, c: Seq<char>)
    requires
        text_lt(a, b),
        text_lt(b, c),
    ensures
        text_lt(a, c),
    decreases a.len(),
{
    if a.len() > 0 && b.len() > 0 && c.len() > 0 && a[0] == b[0] && b[0] == c[0] {
        lemma_text_lt_transitive(a.drop_first(), b.drop_first(), c.drop_first());
    }
}

/// The result of comparing two texts.
#[derive(Clone, Copy, Debug, PartialEq, Eq, Structural)]
pub enum TextOrder {
    Before,
    Same,
    After,
}

/// Compares two texts in code-point order.
pub fn compare_text(a: &str, b: &str) -> (r: TextOrder)
    ensures
        r == TextOrder::Before <==> text_lt(a@, b@),
        r == TextOrder::Same <==> a@ == b@,
        r == TextOrder::After <==> text_lt(b@, a@),
{
    let x = crate::text::chars_of(a);
    let y = crate::text::chars_of(b);
    compare_chars(&x, &y)
}

/// Compares two character slices in code-point order.
pub fn compare_chars(x: &[char], y: &[char]) -> (r: TextOrder)
    ensures
        r == TextOrder::Before <==> text_lt(x@, y@),
        r == TextOrder::Same <==> x@ == y@,
        r == TextOrder::After <==> text_lt(y@, x@),
{
    let mut i: usize = 0;
    while i < x.len() && i < y.len()
        invariant
            i <= x@.len(),
            i <= y@.len(),
            x@.take(i as int) == y@.take(i as int),
        decreases x@.len() - i,
    {
        if x[i] != y[i] {
            proof {
                lemma_text_lt_common_prefix(x@, y@, i as int);
                lemma_text_lt_common_prefix(y@, x@, i as int);
            }
            if x[i] < y[i] {
                return TextOrder::Before;
            } else {
                return TextOrder::After;
            }
        }
        assert(x@.take(i + 1) =~= x@.take(i as int).push(x@[i as int]));
        assert(y@.take(i + 1) =~= y@.take(i as int).push(y@[i as int]));
        i = i + 1;
    }
    proof {
        lemma_text_lt_common_prefix(x@, y@, i as int);
        lemma_text_lt_common_prefix(y@, x@, i as int);
        lemma_text_lt_irreflexive(x@);
        if i == x@.len() && i == y@.len() {
            assert(x@ =~= x@.take(i as int));
            assert(y@ =~= y@.take(i as int));
        }
    }
    if i == x.len() && i == y.len() {
        TextOrder::Same
    } else if i == x.len() {
        TextOrder::Before
    } else {
        TextOrder::After
    }
}

/// Texts that agree on their first `i` characters compare as their rests do.
proof fn lemma_text_lt_common_prefix(a: Seq<char>, b: Seq<char>, i: int)
    requires
        0 <= i <= a.len(),
        i <= b.len(),
        a.take(i) == b.take(i),
    ensures
        text_lt(a, b) == text_lt(a.skip(i), b.skip(i)),
    decreases i,
{
    if i > 0 {
        assert(a[0] == a.take(i)[0]);
        assert(b[0] == b.take(i)[0]);
        assert(a.drop_first().take(i - 1) =~= a.take(i).drop_first());
        assert(b.drop_first().take(i - 1) =~= b.take(i).drop_first());
        lemma_text_lt_common_prefix(a.drop_first(), b.drop_first(), i - 1);
        assert(a.drop_first().skip(i - 1) =~= a.skip(i));
        assert(b.drop_first().skip(i - 1) =~= b.skip(i));
    } else {
        assert(a.skip(0) =~= a);
        assert(b.skip(0) =~= b);
    }
}

/// A type that states the order in which its values are listed: `a` may
/// stand before `b` when `a.goes_before(b)`. The order is total and
/// transitive; values that may stand either way keep their input order.
pub trait Listed: Sized {
    spec fn goes_before(self, other: Self) -> bool;

    fn may_precede(&self, other: &Self) -> (r: bool)
        ensures
            r == self.goes_before(*other),
    ;

    proof fn lemma_total(a: Self, b: Self)
        ensures
            a.goes_before(b) || b.goes_before(a),
    ;

    proof fn lemma_transitive(a: Self, b: Self, c: Self)
        requires
            a.goes_before(b),
            b.goes_before(c),
        ensures
            a.goes_before(c),
    ;
}

/// `x` inserted into `s` after every leading value that may stand before it.
pub open spec fn insert_listed<T: Listed>(s: Seq<T>, x: T) -> Seq<T>
    decreases s.len(),
{
    if s.len() == 0 {
        seq![x]
    } else if !s[0].goes_before(x) {
        seq![x] + s
    } else {
        seq![s[0]] + insert_listed(s.drop_first(), x)
    }
}

/// The stable sort of `s`: each value, in input order, inserted after the
/// values already listed that may stand before it.
pub open spec fn sort_listed<T: Listed>(s: Seq<T>) -> Seq<T>
    decreases s.len(),
{
    if s.len() == 0 {
        seq![]
    } else {
        insert_listed(sort_listed(s.drop_last()), s.last())
    }
}

pub open spec fn is_listed<T: Listed>(s: Seq<T>) -> bool {
    forall|i: int, j: int| 0 <= i < j < s.len() ==> (#[trigger] s[i]).goes_before(#[trigger] s[j])
}

proof fn lemma_insert_at<T: Listed>(s: Seq<T>, x: T, p: int)
    requires
        0 <= p <= s.len(),
        forall|k: int| 0 <= k < p ==> (#[trigger] s[k]).goes_before(x),
        p < s.len() ==> !s[p].goes_before(x),
    ensures
        insert_listed(s, x) == s.take(p) + seq![x] + s.skip(p),
    decreases p,
{
    if p == 0 {
        assert(s.skip(0) =~= s);
        if s.len() == 0 {
            assert(s.take(0) + seq![x] + s.skip(0) =~= seq![x]);
        } else {
            assert(s.take(0) + seq![x] + s.skip(0) =~= seq![x] + s);
        }
    } else {
        let t = s.drop_first();
        assert forall|k: int| 0 <= k < p - 1 implies (#[trigger] t[k]).goes_before(x) by {
            assert(t[k] == s[k + 1]);
        }
        if p < s.len() {
            assert(t[p - 1] == s[p]);
        }
        lemma_insert_at(t, x, p - 1);
        assert(s[0].goes_before(x));
        assert(seq![s[0]] + (t.take(p - 1) + seq![x] + t.skip(p - 1)) =~= s.take(p) + seq![x]
            + s.skip(p));
    }
}

/// Inserts `x` into `v` as `insert_listed` does.
pub fn insert_in_list<T: Listed>(v: &mut Vec<T>, x: T)
    ensures
        final(v)@ == insert_listed(old(v)@, x),
{
    let mut p: usize = 0;
    let n = v.len();
    while p < n
        invariant
            p <= n,
            n == v@.len(),
            v@ == old(v)@,
            forall|k: int| 0 <= k < p ==> (#[trigger] v@[k]).goes_before(x),
        ensures
            p <= n,
            v@ == old(v)@,
            forall|k: int| 0 <= k < p ==> (#[trigger] v@[k]).goes_before(x),
            p < n ==> !v@[p as int].goes_before(x),
        decreases n - p,
    {
        if !v[p].may_precede(&x) {
            break;
        }
        p = p + 1;
    }
    proof {
        lemma_insert_at(v@, x, p as int);
    }
    v.insert(p, x);
    assert(final(v)@ =~= old(v)@.take(p as int) + seq![x] + old(v)@.skip(p as int));
}

/// The stable sort of `items` (see `sort_listed`).
pub fn sort_list<T: Listed>(items: Vec<T>) -> (r: Vec<T>)
    ensures
        r@ == sort_listed(items@),
{
    let mut rest = items;
    let mut out: Vec<T> = Vec::new();
    let ghost all = rest@;
    let n = rest.len();
    let mut i: usize = 0;
    while rest.len() > 0
        invariant
            n == all.len(),
            i <= all.len(),
            rest@ == all.skip(i as int),
            out@ == sort_listed(all.take(i as int)),
        decreases rest@.len(),
    {
        let x = rest.remove(0);
        proof {
            assert(x == all[i as int]);
            assert(all.take(i + 1).drop_last() =~= all.take(i as int));
            assert(all.take(i + 1).last() == x);
        }
        insert_in_list(&mut out, x);
        assert(rest@ =~= all.skip(i + 1));
        i = i + 1;
    }
    assert(all.take(i as int) =~= all);
    out
}

/// Inserting into a listed sequence keeps it listed, and adds just `x`.
pub proof fn lemma_insert_keeps_listed<T: Listed>(s: Seq<T>, x: T)
    requires
        is_listed(s),
    ensures
        is_listed(insert_listed(s, x)),
        insert_listed(s, x).to_multiset() == s.to_multiset().insert(x),
        insert_listed(s, x).len() == s.len() + 1,
    decreases s.len(),
{
    broadcast use vstd::seq_lib::group_to_multiset_ensures, vstd::multiset::group_multiset_axioms, vstd::seq_lib::lemma_multiset_commutative;

    if s.len() == 0 {
        assert(insert_listed(s, x) =~= Seq::<T>::empty().push(x));
        assert(s =~= Seq::<T>::empty());
    } else if !s[0].goes_before(x) {
        let r = seq![x] + s;
        T::lemma_total(s[0], x);
        assert forall|i: int, j: int| 0 <= i < j < r.len() implies (#[trigger] r[i]).goes_before(
            #[trigger] r[j],
        ) by {
            if i == 0 {
                if j > 1 {
                    assert(s[0].goes_before(s[j - 1]));
                    T::lemma_transitive(x, s[0], s[j - 1]);
                }
            } else {
                assert(s[i - 1].goes_before(s[j - 1]));
            }
        }
        assert(seq![x] =~= Seq::<T>::empty().push(x));
        assert(r.to_multiset() =~= s.to_multiset().insert(x));
    } else {
        let t = s.drop_first();
        assert(is_listed(t)) by {
            assert forall|i: int, j: int| 0 <= i < j < t.len() implies (#[trigger] t[i]).goes_before(
                #[trigger] t[j],
            ) by {
                assert(s[i + 1].goes_before(s[j + 1]));
            }
        }
        lemma_insert_keeps_listed(t, x);
        let u = insert_listed(t, x);
        let r = seq![s[0]] + u;
        assert(r == insert_listed(s, x));
        assert forall|i: int, j: int| 0 <= i < j < r.len() implies (#[trigger] r[i]).goes_before(
            #[trigger] r[j],
        ) by {
            if i == 0 {
                let y = u[j - 1];
                assert(u.contains(y));
                assert(u.to_multiset().count(y) > 0);
                if y != x {
                    assert(t.to_multiset().count(y) > 0);
                    assert(t.contains(y));
                    let k = choose|k: int| 0 <= k < t.len() && t[k] == y;
                    assert(s[0].goes_before(s[k + 1]));
                }
            } else {
                assert(r[i] == u[i - 1]);
                assert(r[j] == u[j - 1]);
            }
        }
        assert(s =~= seq![s[0]] + t);
        assert(seq![s[0]] =~= Seq::<T>::empty().push(s[0]));
        assert(r.to_multiset() =~= s.to_multiset().insert(x));
    }
}

/// The stable sort lists its input in order and keeps every value.
pub proof fn lemma_sort_listed<T: Listed>(s: Seq<T>)
    ensures
        is_listed(sort_listed(s)),
        sort_listed(s).to_multiset() == s.to_multiset(),
        sort_listed(s).len() == s.len(),
    decreases s.len(),
{
    broadcast use vstd::seq_lib::group_to_multiset_ensures, vstd::multiset::group_multiset_axioms;

    if s.len() == 0 {
        assert(sort_listed(s) =~= s);
    } else {
        lemma_sort_listed(s.drop_last());
        lemma_insert_keeps_listed(sort_listed(s.drop_last()), s.last());
        assert(s =~= s.drop_last().push(s.last()));
        assert(sort_listed(s).to_multiset() =~= s.to_multiset());
    }
}


/// Two listings of the same values are the same listing when values that
/// may stand either way round are equal.
pub proof fn lemma_listed_unique<T: Listed>(x: Seq<T>, y: Seq<T>)
    requires
        is_listed(x),
        is_listed(y),
        x.to_multiset() == y.to_multiset(),
        forall|a: T, b: T| x.contains(a) && x.contains(b) && a.goes_before(b) && b.goes_before(a) ==> a == b,
    ensures
        x == y,
    decreases x.len(),
{
    broadcast use vstd::seq_lib::group_to_multiset_ensures, vstd::multiset::group_multiset_axioms;

    assert(x.len() == x.to_multiset().len());
    assert(y.len() == y.to_multiset().len());
    if x.len() == 0 {
        assert(x =~= y);
    } else {
        assert(x.contains(x[0]));
        assert(x.to_multiset().count(x[0]) > 0);
        assert(y.contains(x[0]));
        let k = choose|k: int| 0 <= k < y.len() && y[k] == x[0];
        assert(y.contains(y[0]));
        assert(y.to_multiset().count(y[0]) > 0);
        assert(x.contains(y[0]));
        let j = choose|j: int| 0 <= j < x.len() && x[j] == y[0];
        if k > 0 && j > 0 {
            assert(y[0].goes_before(y[k]));
            assert(x[0].goes_before(x[j]));
        }
        assert(x[0] == y[0]);
        assert(x.drop_first() =~= x.remove(0));
        assert(y.drop_first() =~= y.remove(0));
        assert(x.remove(0).to_multiset() == x.to_multiset().remove(x[0]));
        assert(y.remove(0).to_multiset() == y.to_multiset().remove(y[0]));
        let xs = x.drop_first();
        let ys = y.drop_first();
        assert forall|i: int, jj: int| 0 <= i < jj < xs.len() implies (#[trigger] xs[i]).goes_before(#[trigger] xs[jj]) by {
            assert(xs[i] == x[i + 1] && xs[jj] == x[jj + 1]);
        }
        assert forall|i: int, jj: int| 0 <= i < jj < ys.len() implies (#[trigger] ys[i]).goes_before(#[trigger] ys[jj]) by {
            assert(ys[i] == y[i + 1] && ys[jj] == y[jj + 1]);
        }
        assert forall|a: T| xs.contains(a) implies x.contains(a) by {
            let i = choose|i: int| 0 <= i < xs.len() && xs[i] == a;
            assert(x[i + 1] == a);
        }
        lemma_listed_unique(xs, ys);
        assert(x =~= y) by {
            assert forall|i: int| 0 <= i < x.len() implies x[i] == y[i] by {
                if i > 0 {
                    assert(x[i] == xs[i - 1] && y[i] == ys[i - 1]);
                }
            }
        }
    }
}

} // verus!
