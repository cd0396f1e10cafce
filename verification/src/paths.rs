//! Unix paths as text, at the level of their components.
//!
//! A path is read as `std::path::Path` reads it on Unix: a leading `/` is
//! the root, empty pieces and `.` pieces are dropped except for a leading
//! `.` of a relative path, and `..` is kept. Paths that an operation builds
//! are rendered from their components with one `/` between them.
use crate::text::{
    chars_concat, chars_eq, chars_of, chars_replace, join, join_range, lemma_split_chars_single,
    replace_char, split_char, split_on, string_from_chars, views,
};
use vstd::prelude::*;

verus! {

broadcast use vstd::string::group_string_axioms;

pub open spec fn dot() -> Seq<char> {
    seq!['.']
}

pub open spec fn root_component() -> Seq<char> {
    seq!['/']
}

/// The pieces that name something: neither empty nor `.`.
pub open spec fn named_pieces(pieces: Seq<Seq<char>>) -> Seq<Seq<char>>
    decreases pieces.len(),
{
    if pieces.len() == 0 {
        seq![]
    } else {
        let p = pieces.last();
        named_pieces(pieces.drop_last()) + if p.len() == 0 || p == dot() {
            seq![]
        } else {
            seq![p]
        }
    }
}

pub open spec fn is_absolute(p: Seq<char>) -> bool {
    p.len() > 0 && p[0] == '/'
}

/// `Path::components`: the root (`/`) for an absolute path, a leading `.`
/// for a relative path that starts with one, then the named pieces.
pub open spec fn components(p: Seq<char>) -> Seq<Seq<char>> {
    let pieces = split_char(p, '/');
    if is_absolute(p) {
        seq![root_component()] + named_pieces(pieces)
    } else if pieces[0] == dot() {
        seq![dot()] + named_pieces(pieces.skip(1))
    } else {
        named_pieces(pieces)
    }
}

/// The path text of a component list.
pub open spec fn render(cs: Seq<Seq<char>>) -> Seq<char> {
    if cs.len() > 0 && cs[0] == root_component() {
        root_component() + join(cs.skip(1), seq!['/'])
    } else {
        join(cs, seq!['/'])
    }
}

/// `Path::starts_with`: `base`'s components begin `p`'s.
pub open spec fn path_starts_with_spec(p: Seq<char>, base: Seq<char>) -> bool {
    let a = components(p);
    let b = components(base);
    b.len() <= a.len() && a.take(b.len() as int) == b
}

/// `Path::strip_prefix`, rendered from the remaining components.
pub open spec fn strip_prefix_spec(p: Seq<char>, base: Seq<char>) -> Option<Seq<char>> {
    if path_starts_with_spec(p, base) {
        Some(join(components(p).skip(components(base).len() as int), seq!['/']))
    } else {
        None
    }
}

/// `Path::join`: an absolute `rel` replaces `base`; otherwise `rel` is
/// appended after a `/` unless `base` is empty or already ends in one.
pub open spec fn join_spec(base: Seq<char>, rel: Seq<char>) -> Seq<char> {
    if is_absolute(rel) {
        rel
    } else if base.len() == 0 || base.last() == '/' {
        base + rel
    } else {
        base + seq!['/'] + rel
    }
}

/// `Path::parent`: none for the root or an empty path, else the path of all
/// components but the last.
pub open spec fn parent_spec(p: Seq<char>) -> Option<Seq<char>> {
    let cs = components(p);
    if cs.len() == 0 || (cs.len() == 1 && cs[0] == root_component()) {
        None
    } else {
        Some(render(cs.drop_last()))
    }
}

/// A path shown with `/` separators (`\` becomes `/`).
pub open spec fn display_spec(p: Seq<char>) -> Seq<char> {
    replace_char(p, '\\', '/')
}

fn named_pieces_exec(pieces: &Vec<Vec<char>>, from: usize) -> (r: Vec<Vec<char>>)
    requires
        from <= pieces@.len(),
    ensures
        views(r@) == named_pieces(views(pieces@).skip(from as int)),
{
    let mut r: Vec<Vec<char>> = Vec::new();
    let mut i = from;
    let d = ['.'];
    assert(d@ == dot());
    while i < pieces.len()
        invariant
            from <= i <= pieces@.len(),
            d@ == dot(),
            views(r@) == named_pieces(views(pieces@).subrange(from as int, i as int)),
        decreases pieces@.len() - i,
    {
        let p = &pieces[i];
        let keep = p.len() > 0 && !chars_eq(p, &d);
        let ghost before = views(r@);
        if keep {
            let mut q: Vec<char> = Vec::new();
            let mut k: usize = 0;
            while k < p.len()
                invariant
                    k <= p@.len(),
                    q@ == p@.take(k as int),
                decreases p@.len() - k,
            {
                q.push(p[k]);
                k = k + 1;
            }
            assert(q@ == p@);
            r.push(q);
        }
        proof {
            let w = views(pieces@);
            assert(w.subrange(from as int, i + 1).drop_last() == w.subrange(from as int, i as int));
            assert(w.subrange(from as int, i + 1).last() == p@);
            assert(views(r@) =~= named_pieces(w.subrange(from as int, i + 1)));
        }
        i = i + 1;
    }
    assert(views(pieces@).subrange(from as int, pieces@.len() as int) == views(pieces@).skip(
        from as int,
    ));
    r
}

/// The components of a path (see `components`).
pub fn path_components(p: &str) -> (r: Vec<Vec<char>>)
    ensures
        views(r@) == components(p@),
{
    let v = chars_of(p);
    let seps = ['/'];
    let pieces = split_on(&v, &seps);
    proof {
        assert(seps@ == seq!['/']);
        lemma_split_chars_single(v@, '/');
        crate::text::lemma_split_char_nonempty(v@, '/');
    }
    let d = ['.'];
    assert(d@ == dot());
    if v.len() > 0 && v[0] == '/' {
        let mut r: Vec<Vec<char>> = Vec::new();
        r.push(vec!['/']);
        let rest = named_pieces_exec(&pieces, 0);
        let ghost head = views(r@);
        let mut i: usize = 0;
        let mut out = r;
        while i < rest.len()
            invariant
                i <= rest@.len(),
                views(out@) == head + views(rest@).take(i as int),
            decreases rest@.len() - i,
        {
            let piece = clone_chars(&rest[i]);
            let ghost prev = out@;
            out.push(piece);
            assert(views(out@) =~= views(prev).push(rest@[i as int]@));
            assert(views(rest@).take(i + 1) == views(rest@).take(i as int).push(rest@[i as int]@));
            assert(views(out@) =~= head + views(rest@).take(i + 1));
            i = i + 1;
        }
        proof {
            assert(views(rest@).take(rest@.len() as int) == views(rest@));
            assert(views(pieces@).skip(0) == views(pieces@));
            assert(head =~= seq![root_component()]);
        }
        out
    } else if chars_eq(&pieces[0], &d) {
        let rest = named_pieces_exec(&pieces, 1);
        let mut out: Vec<Vec<char>> = Vec::new();
        out.push(vec!['.']);
        let ghost head = views(out@);
        let mut i: usize = 0;
        while i < rest.len()
            invariant
                i <= rest@.len(),
                views(out@) == head + views(rest@).take(i as int),
            decreases rest@.len() - i,
        {
            let piece = clone_chars(&rest[i]);
            let ghost prev = out@;
            out.push(piece);
            assert(views(out@) =~= views(prev).push(rest@[i as int]@));
            assert(views(rest@).take(i + 1) == views(rest@).take(i as int).push(rest@[i as int]@));
            assert(views(out@) =~= head + views(rest@).take(i + 1));
            i = i + 1;
        }
        proof {
            assert(views(rest@).take(rest@.len() as int) == views(rest@));
            assert(head =~= seq![dot()]);
            assert(views(pieces@)[0] == pieces@[0]@);
        }
        out
    } else {
        let r = named_pieces_exec(&pieces, 0);
        assert(views(pieces@).skip(0) == views(pieces@));
        proof {
            assert(views(pieces@)[0] == pieces@[0]@);
        }
        r
    }
}

/// A copy of a character vector.
pub fn clone_chars(v: &Vec<char>) -> (r: Vec<char>)
    ensures
        r@ == v@,
{
    let mut r: Vec<char> = Vec::new();
    let mut k: usize = 0;
    while k < v.len()
        invariant
            k <= v@.len(),
            r@ == v@.take(k as int),
        decreases v@.len() - k,
    {
        r.push(v[k]);
        k = k + 1;
    }
    assert(v@.take(v@.len() as int) == v@);
    r
}


/// A path shown with `/` separators.
pub fn display_path(p: &str) -> (r: String)
    ensures
        r@ == display_spec(p@),
{
    let v = chars_of(p);
    let w = chars_replace(&v, '\\', '/');
    string_from_chars(&w)
}

/// `Path::join` (see `join_spec`).
pub fn path_join(base: &str, rel: &str) -> (r: String)
    ensures
        r@ == join_spec(base@, rel@),
{
    let b = chars_of(base);
    let r = chars_of(rel);
    if r.len() > 0 && r[0] == '/' {
        return String::from_str(rel);
    }
    if b.len() == 0 || b[b.len() - 1] == '/' {
        let out = chars_concat(&b, &r);
        return string_from_chars(&out);
    }
    let with_sep = chars_concat(&b, &['/']);
    let out = chars_concat(&with_sep, &r);
    string_from_chars(&out)
}

/// Whether `a[..b.len()]` equals `b`, as component lists.
fn components_prefix(a: &Vec<Vec<char>>, b: &Vec<Vec<char>>) -> (r: bool)
    ensures
        r == (views(b@).len() <= views(a@).len() && views(a@).take(views(b@).len() as int)
            == views(b@)),
{
    if b.len() > a.len() {
        return false;
    }
    let mut i: usize = 0;
    while i < b.len()
        invariant
            b@.len() <= a@.len(),
            i <= b@.len(),
            forall|k: int| 0 <= k < i ==> a@[k]@ == b@[k]@,
        decreases b@.len() - i,
    {
        if !chars_eq(&a[i], &b[i]) {
            assert(views(a@).take(b@.len() as int)[i as int] != views(b@)[i as int]);
            return false;
        }
        i = i + 1;
    }
    assert(views(a@).take(views(b@).len() as int) =~= views(b@));
    true
}

/// `Path::starts_with`.
pub fn path_starts_with(p: &str, base: &str) -> (r: bool)
    ensures
        r == path_starts_with_spec(p@, base@),
{
    let a = path_components(p);
    let b = path_components(base);
    components_prefix(&a, &b)
}

/// `Path::strip_prefix` (see `strip_prefix_spec`).
pub fn path_strip_prefix(p: &str, base: &str) -> (r: Option<String>)
    ensures
        r matches Some(s) ==> strip_prefix_spec(p@, base@) == Some(s@),
        r is None ==> strip_prefix_spec(p@, base@) is None,
{
    let a = path_components(p);
    let b = path_components(base);
    if !components_prefix(&a, &b) {
        return None;
    }
    let sep = ['/'];
    assert(sep@ == seq!['/']);
    let rest = join_range(&a, b.len(), a.len(), &sep);
    proof {
        assert(views(a@).subrange(b@.len() as int, a@.len() as int) == views(a@).skip(
            b@.len() as int,
        ));
    }
    Some(string_from_chars(&rest))
}

/// `Path::parent` (see `parent_spec`).
pub fn path_parent(p: &str) -> (r: Option<String>)
    ensures
        r matches Some(s) ==> parent_spec(p@) == Some(s@),
        r is None ==> parent_spec(p@) is None,
{
    let cs = path_components(p);
    let n = cs.len();
    let root = ['/'];
    assert(root@ == root_component());
    if n == 0 || (n == 1 && chars_eq(&cs[0], &root)) {
        proof {
            if n == 1 {
                assert(views(cs@)[0] == cs@[0]@);
            }
        }
        return None;
    }
    let ghost init = views(cs@).drop_last();
    if chars_eq(&cs[0], &root) {
        let joined = join_range(&cs, 1, n - 1, &['/']);
        let out = chars_concat(&root, &joined);
        proof {
            assert(views(cs@)[0] == cs@[0]@);
            assert(init[0] == root_component());
            assert(views(cs@).subrange(1, n - 1) == init.skip(1));
        }
        Some(string_from_chars(&out))
    } else {
        let joined = join_range(&cs, 0, n - 1, &['/']);
        proof {
            assert(views(cs@)[0] == cs@[0]@);
            assert(views(cs@).subrange(0, n - 1) == init);
            if init.len() > 0 {
                assert(init[0] == views(cs@)[0]);
            }
        }
        Some(string_from_chars(&joined))
    }
}


/// `Path == Path`: two paths are equal when their components are.
pub fn same_path(a: &str, b: &str) -> (r: bool)
    ensures
        r == (components(a@) == components(b@)),
{
    let x = path_components(a);
    let y = path_components(b);
    if x.len() != y.len() {
        return false;
    }
    let same = components_prefix(&x, &y);
    proof {
        assert(views(x@).len() == x@.len());
        assert(views(y@).len() == y@.len());
        if same {
            assert(views(x@).take(views(y@).len() as int) =~= views(x@));
        } else if views(x@) == views(y@) {
            assert(views(x@).take(views(y@).len() as int) =~= views(x@));
        }
    }
    same
}

} // verus!
