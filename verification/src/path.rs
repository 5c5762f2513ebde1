use crate::text::{chars_of, owned, push_text, same_text, string_from, string_of};
use vstd::prelude::*;

verus! {

// Paths are Unix paths held as text: `/` separates components, and a path that starts with
// `/` is absolute.

/// `p` is absolute.
pub open spec fn has_root(p: Seq<char>) -> bool {
    p.len() > 0 && p[0] == '/'
}

/// `base` joined with `rel`, as `PathBuf::push` does on Unix: an absolute `rel` replaces
/// `base`; otherwise a separator is put between them unless `base` is empty or already ends
/// with one.
pub open spec fn join_path(base: Seq<char>, rel: Seq<char>) -> Seq<char> {
    if has_root(rel) {
        rel
    } else if base.len() == 0 || base.last() == '/' {
        base + rel
    } else {
        base.push('/') + rel
    }
}

/// Joins `rel` onto `base`.
pub fn join(base: &str, rel: &str) -> (r: String)
    ensures
        r@ == join_path(base@, rel@),
{
    let b = chars_of(base);
    let r = chars_of(rel);
    if r.len() > 0 && r[0] == '/' {
        return owned(rel);
    }
    let mut out = owned(base);
    if b.len() > 0 && b[b.len() - 1] != '/' {
        out.push('/');
    }
    push_text(&mut out, rel);
    out
}

/// The length of the first `n` characters of `p` without the separators at their end.
pub open spec fn strip_slashes(p: Seq<char>, n: int) -> int
    decreases n,
{
    if n > 0 && p[n - 1] == '/' {
        strip_slashes(p, n - 1)
    } else {
        n
    }
}

/// The position of the last separator among the first `n` characters of `p`, or -1.
pub open spec fn last_slash_before(p: Seq<char>, n: int) -> int
    decreases n,
{
    if n <= 0 {
        -1
    } else if p[n - 1] == '/' {
        n - 1
    } else {
        last_slash_before(p, n - 1)
    }
}

/// The parent of `p`, as `Path::parent` gives it: `p` without its last component and the
/// separators before it, `/` for a component right under the root, the empty path for a single
/// relative component, and nothing for the root or the empty path.
pub open spec fn parent_path(p: Seq<char>) -> Option<Seq<char>> {
    let e = strip_slashes(p, p.len() as int);
    if e == 0 {
        None
    } else {
        let k = last_slash_before(p, e);
        if k < 0 {
            Some(Seq::empty())
        } else {
            let m = strip_slashes(p, k);
            if m == 0 {
                Some(seq!['/'])
            } else {
                Some(p.subrange(0, m))
            }
        }
    }
}

/// The last component of `p`, if `p` has one.
pub open spec fn file_name(p: Seq<char>) -> Option<Seq<char>> {
    let e = strip_slashes(p, p.len() as int);
    if e == 0 {
        None
    } else {
        Some(p.subrange(last_slash_before(p, e) + 1, e))
    }
}

fn strip_slashes_exec(v: &Vec<char>, n: usize) -> (m: usize)
    requires
        n <= v@.len(),
    ensures
        m == strip_slashes(v@, n as int),
        m <= n,
{
    let mut m = n;
    while m > 0 && v[m - 1] == '/'
        invariant
            m <= n <= v@.len(),
            strip_slashes(v@, m as int) == strip_slashes(v@, n as int),
        decreases m,
    {
        m -= 1;
    }
    m
}

fn last_slash_exec(v: &Vec<char>, n: usize) -> (k: Option<usize>)
    requires
        n <= v@.len(),
    ensures
        k matches Some(i) ==> i == last_slash_before(v@, n as int) && i < n,
        k is None ==> last_slash_before(v@, n as int) == -1,
{
    let mut m = n;
    while m > 0 && v[m - 1] != '/'
        invariant
            m <= n <= v@.len(),
            last_slash_before(v@, m as int) == last_slash_before(v@, n as int),
        decreases m,
    {
        m -= 1;
    }
    if m == 0 {
        None
    } else {
        Some(m - 1)
    }
}

/// The parent of `p`.
pub fn parent(p: &str) -> (r: Option<String>)
    ensures
        r matches Some(s) ==> parent_path(p@) == Some(s@),
        r is None ==> parent_path(p@) is None,
{
    let v = chars_of(p);
    let e = strip_slashes_exec(&v, v.len());
    if e == 0 {
        return None;
    }
    match last_slash_exec(&v, e) {
        None => Some(String::new()),
        Some(k) => {
            let m = strip_slashes_exec(&v, k);
            if m == 0 {
                let mut s = String::new();
                s.push('/');
                proof {
                    assert(s@ =~= seq!['/']);
                }
                Some(s)
            } else {
                Some(string_of(&v, 0, m))
            }
        },
    }
}

/// The last component of `p`.
pub fn file_name_of(p: &str) -> (r: Option<String>)
    ensures
        r matches Some(s) ==> file_name(p@) == Some(s@),
        r is None ==> file_name(p@) is None,
{
    let v = chars_of(p);
    let e = strip_slashes_exec(&v, v.len());
    if e == 0 {
        return None;
    }
    let start = match last_slash_exec(&v, e) {
        None => 0,
        Some(k) => k + 1,
    };
    Some(string_of(&v, start, e))
}

/// `p` with every `\` turned into `/`.
pub open spec fn forward_slashes(p: Seq<char>) -> Seq<char> {
    Seq::new(p.len(), |i: int| if p[i] == '\\' { '/' } else { p[i] })
}

/// Turns every `\` of `p` into `/`.
pub fn normalize_separators(p: &str) -> (r: String)
    ensures
        r@ == forward_slashes(p@),
{
    let v = chars_of(p);
    let mut r = String::new();
    let mut i: usize = 0;
    while i < v.len()
        invariant
            v@ == p@,
            0 <= i <= v@.len(),
            r@ == forward_slashes(p@).take(i as int),
        decreases v@.len() - i,
    {
        let c = if v[i] == '\\' {
            '/'
        } else {
            v[i]
        };
        r.push(c);
        proof {
            assert(forward_slashes(p@).take(i + 1) == forward_slashes(p@).take(i as int).push(c));
        }
        i += 1;
    }
    proof {
        assert(forward_slashes(p@).take(v@.len() as int) == forward_slashes(p@));
    }
    r
}

/// The pieces of `s` between the occurrences of `sep`, as `str::split` gives them (empty pieces
/// included).
pub open spec fn split_on(s: Seq<char>, sep: char) -> Seq<Seq<char>>
    decreases s.len(),
{
    if s.len() == 0 {
        seq![Seq::<char>::empty()]
    } else {
        let rest = split_on(s.drop_last(), sep);
        if s.last() == sep {
            rest.push(Seq::empty())
        } else {
            rest.update(rest.len() - 1, rest.last().push(s.last()))
        }
    }
}

pub proof fn lemma_split_nonempty(s: Seq<char>, sep: char)
    ensures
        split_on(s, sep).len() >= 1,
    decreases s.len(),
{
    if s.len() > 0 {
        lemma_split_nonempty(s.drop_last(), sep);
    }
}

/// The pieces of `text` between the `sep` characters.
pub fn split_text(text: &str, sep: char) -> (r: Vec<String>)
    ensures
        r@.map_values(|p: String| p@) == split_on(text@, sep),
{
    let v = chars_of(text);
    let mut r: Vec<String> = Vec::new();
    let mut start: usize = 0;
    let mut i: usize = 0;
    proof {
        assert(v@.take(0) =~= Seq::<char>::empty());
        assert(r@.map_values(|p: String| p@).push(v@.subrange(0, 0)) =~= seq![Seq::<char>::empty()]);
    }
    while i < v.len()
        invariant
            v@ == text@,
            0 <= start <= i <= v@.len(),
            r@.map_values(|p: String| p@).push(v@.subrange(start as int, i as int)) == split_on(v@.take(i as int), sep),
        decreases v@.len() - i,
    {
        proof {
            lemma_split_nonempty(v@.take(i as int), sep);
            assert(v@.take(i + 1).drop_last() =~= v@.take(i as int));
            assert(v@.take(i + 1).last() == v@[i as int]);
        }
        if v[i] == sep {
            let piece = string_of(&v, start, i);
            proof {
                assert(r@.push(piece).map_values(|p: String| p@) =~= r@.map_values(|p: String| p@).push(piece@));
                assert(v@.subrange(i + 1, i + 1) =~= Seq::<char>::empty());
            }
            r.push(piece);
            start = i + 1;
        } else {
            proof {
                assert(v@.subrange(start as int, i + 1) =~= v@.subrange(start as int, i as int).push(v@[i as int]));
            }
        }
        i += 1;
    }
    let piece = string_of(&v, start, i);
    proof {
        assert(v@.take(i as int) =~= text@);
        assert(r@.push(piece).map_values(|p: String| p@) =~= r@.map_values(|p: String| p@).push(piece@));
    }
    r.push(piece);
    r
}


/// The components of the path `p` as `std::path::Path` compares them: whether it starts at the
/// root, whether it starts with a `.` component, and its other pieces between `/` separators,
/// leaving out empty pieces (repeated or trailing separators) and `.` pieces.
pub open spec fn path_components(p: Seq<char>) -> (bool, bool, Seq<Seq<char>>) {
    let pieces = split_on(p, '/');
    let root = p.len() > 0 && p[0] == '/';
    (root, !root && pieces[0] == seq!['.'], pieces.filter(|x: Seq<char>| kept_component(x)))
}

/// A piece between separators that is a component of its own: neither empty nor `.`.
pub open spec fn kept_component(x: Seq<char>) -> bool {
    x.len() > 0 && x != seq!['.']
}

proof fn lemma_filter_push_seq(s: Seq<Seq<char>>, x: Seq<char>, pred: spec_fn(Seq<char>) -> bool)
    ensures
        s.push(x).filter(pred) == (if pred(x) { s.filter(pred).push(x) } else { s.filter(pred) }),
{
    reveal(Seq::filter);
    assert(s.push(x).drop_last() =~= s);
}

fn is_dot(v: &String) -> (b: bool)
    ensures
        b == (v@ == seq!['.']),
{
    let c = chars_of(v);
    let b = c.len() == 1 && c[0] == '.';
    proof {
        if c@.len() == 1 && c@[0] == '.' {
            assert(c@ =~= seq!['.']);
        }
    }
    b
}

/// The pieces of `p` between `/` separators that are components of their own, in order.
fn kept_pieces(p: &str) -> (r: (Vec<String>, bool))
    ensures
        r.0@.map_values(|x: String| x@) == split_on(p@, '/').filter(|x: Seq<char>| kept_component(x)),
        r.1 == (split_on(p@, '/')[0] == seq!['.']),
{
    let pieces = split_text(p, '/');
    let ghost pv = pieces@.map_values(|x: String| x@);
    proof {
        lemma_split_nonempty(p@, '/');
    }
    let first_dot = is_dot(&pieces[0]);
    let mut r: Vec<String> = Vec::new();
    let mut i: usize = 0;
    proof {
        reveal(Seq::filter);
        assert(pv.take(0) =~= Seq::<Seq<char>>::empty());
    }
    while i < pieces.len()
        invariant
            pv == pieces@.map_values(|x: String| x@),
            pv == split_on(p@, '/'),
            0 <= i <= pieces@.len(),
            r@.map_values(|x: String| x@) == pv.take(i as int).filter(|x: Seq<char>| kept_component(x)),
        decreases pieces@.len() - i,
    {
        let x = &pieces[i];
        let keep = chars_of(x).len() > 0 && !is_dot(x);
        proof {
            assert(pv.take(i + 1) =~= pv.take(i as int).push(pv[i as int]));
            assert(pv[i as int] == x@);
            lemma_filter_push_seq(pv.take(i as int), x@, |y: Seq<char>| kept_component(y));
        }
        if keep {
            let c = x.clone();
            proof {
                assert(r@.push(c).map_values(|y: String| y@) =~= r@.map_values(|y: String| y@).push(c@));
            }
            r.push(c);
        }
        i += 1;
    }
    proof {
        assert(pv.take(pieces@.len() as int) =~= pv);
    }
    (r, first_dot)
}

/// Returns `true` when the paths `a` and `b` have the same components: they agree once
/// repeated and trailing separators and `.` components past the start are left out.
pub fn same_path(a: &str, b: &str) -> (r: bool)
    ensures
        r == (path_components(a@) == path_components(b@)),
{
    let (pa, dot_a) = kept_pieces(a);
    let (pb, dot_b) = kept_pieces(b);
    let ca = chars_of(a);
    let cb = chars_of(b);
    let root_a = ca.len() > 0 && ca[0] == '/';
    let root_b = cb.len() > 0 && cb[0] == '/';
    let ghost va = pa@.map_values(|x: String| x@);
    let ghost vb = pb@.map_values(|x: String| x@);
    if root_a != root_b || (!root_a && dot_a) != (!root_b && dot_b) || pa.len() != pb.len() {
        proof {
            if path_components(a@) == path_components(b@) {
                assert(va.len() == vb.len());
            }
        }
        return false;
    }
    let mut i: usize = 0;
    while i < pa.len()
        invariant
            va == pa@.map_values(|x: String| x@),
            vb == pb@.map_values(|x: String| x@),
            va == path_components(a@).2,
            vb == path_components(b@).2,
            path_components(a@).0 == path_components(b@).0,
            path_components(a@).1 == path_components(b@).1,
            pa@.len() == pb@.len(),
            0 <= i <= pa@.len(),
            forall|j: int| 0 <= j < i ==> va[j] == vb[j],
        decreases pa@.len() - i,
    {
        if !same_text(&pa[i], &pb[i]) {
            proof {
                assert(va[i as int] != vb[i as int]);
                assert(va != vb);
                assert(path_components(a@).2 == va);
                assert(path_components(b@).2 == vb);
            }
            return false;
        }
        i += 1;
    }
    proof {
        assert(va =~= vb);
    }
    true
}

} // verus!
