use vstd::prelude::*;
use vstd::string::StringExecFns;

verus! {

/// Appending a character to a `String` extends its characters by that character.
pub assume_specification[ String::push ](s: &mut String, ch: char)
    ensures
        final(s)@ == old(s)@.push(ch),
;

/// `c` is white space in the sense of `char::is_whitespace` (the Unicode `White_Space`
/// property).
pub open spec fn is_ws(c: char) -> bool {
    ||| c == ' '
    ||| ('\u{9}' <= c && c <= '\u{d}')
    ||| c == '\u{85}'
    ||| c == '\u{a0}'
    ||| c == '\u{1680}'
    ||| ('\u{2000}' <= c && c <= '\u{200a}')
    ||| c == '\u{2028}'
    ||| c == '\u{2029}'
    ||| c == '\u{202f}'
    ||| c == '\u{205f}'
    ||| c == '\u{3000}'
}

/// Returns `true` if `c` is white space.
pub fn is_white_space(c: char) -> (b: bool)
    ensures
        b == is_ws(c),
{
    c == ' ' || ('\u{9}' <= c && c <= '\u{d}') || c == '\u{85}' || c == '\u{a0}' || c == '\u{1680}'
        || ('\u{2000}' <= c && c <= '\u{200a}') || c == '\u{2028}' || c == '\u{2029}' || c == '\u{202f}'
        || c == '\u{205f}' || c == '\u{3000}'
}

/// `lo` is the number of leading white-space characters of `s`.
pub open spec fn leading_ws(s: Seq<char>, lo: int) -> bool {
    &&& 0 <= lo <= s.len()
    &&& forall|j: int| 0 <= j < lo ==> is_ws(#[trigger] s[j])
    &&& (lo == s.len() || !is_ws(s[lo]))
}

/// `hi` is the length of `s` without its trailing white-space characters.
pub open spec fn trailing_ws(s: Seq<char>, hi: int) -> bool {
    &&& 0 <= hi <= s.len()
    &&& forall|j: int| hi <= j < s.len() ==> is_ws(#[trigger] s[j])
    &&& (hi == 0 || !is_ws(s[hi - 1]))
}

/// The number of leading white-space characters of `s`.
pub open spec fn trim_lo(s: Seq<char>) -> int {
    choose|lo: int| leading_ws(s, lo)
}

/// The length of `s` without its trailing white-space characters.
pub open spec fn trim_hi(s: Seq<char>) -> int {
    choose|hi: int| trailing_ws(s, hi)
}

/// `s` without leading and trailing white space, as `str::trim` gives it.
pub open spec fn trimmed(s: Seq<char>) -> Seq<char> {
    if trim_lo(s) < trim_hi(s) {
        s.subrange(trim_lo(s), trim_hi(s))
    } else {
        Seq::empty()
    }
}

proof fn lemma_leading_unique(s: Seq<char>, a: int, b: int)
    requires
        leading_ws(s, a),
        leading_ws(s, b),
    ensures
        a == b,
{
    if a < b {
        assert(is_ws(s[a]));
    } else if b < a {
        assert(is_ws(s[b]));
    }
}

proof fn lemma_trailing_unique(s: Seq<char>, a: int, b: int)
    requires
        trailing_ws(s, a),
        trailing_ws(s, b),
    ensures
        a == b,
{
    if a < b {
        assert(is_ws(s[b - 1]));
    } else if b < a {
        assert(is_ws(s[a - 1]));
    }
}

/// The characters of `s`.
pub fn chars_of(s: &str) -> (v: Vec<char>)
    ensures
        v@ == s@,
{
    let mut v: Vec<char> = Vec::new();
    for c in it: s.chars()
        invariant
            it.seq() == s@,
            v@ == it.seq().take(it.index() as int),
    {
        v.push(c);
    }
    v
}

/// The string made of the characters of `v` from position `lo` up to (not including) `hi`.
pub fn string_of(v: &Vec<char>, lo: usize, hi: usize) -> (s: String)
    requires
        lo <= hi <= v@.len(),
    ensures
        s@ == v@.subrange(lo as int, hi as int),
{
    let mut s = String::new();
    let mut i = lo;
    while i < hi
        invariant
            lo <= i <= hi <= v@.len(),
            s@ == v@.subrange(lo as int, i as int),
        decreases hi - i,
    {
        s.push(v[i]);
        proof {
            assert(v@.subrange(lo as int, i + 1) == v@.subrange(lo as int, i as int).push(v@[i as int]));
        }
        i += 1;
    }
    s
}

/// The string made of the characters of `v`.
pub fn string_from(v: &Vec<char>) -> (s: String)
    ensures
        s@ == v@,
{
    let s = string_of(v, 0, v.len());
    proof {
        assert(v@.subrange(0, v@.len() as int) == v@);
    }
    s
}

/// Copies `s` into a new `String`.
pub fn owned(s: &str) -> (r: String)
    ensures
        r@ == s@,
{
    String::from_str(s)
}

/// Appends `t` to `s`.
pub fn push_text(s: &mut String, t: &str)
    ensures
        final(s)@ == old(s)@ + t@,
{
    s.append(t)
}

/// Returns `s` without leading and trailing white space.
pub fn trim(s: &str) -> (r: String)
    ensures
        r@ == trimmed(s@),
{
    let v = chars_of(s);
    let n = v.len();
    let mut lo: usize = 0;
    while lo < n && is_white_space(v[lo])
        invariant
            0 <= lo <= n == v@.len(),
            forall|j: int| 0 <= j < lo ==> is_ws(#[trigger] v@[j]),
        decreases n - lo,
    {
        lo += 1;
    }
    let mut hi: usize = n;
    while hi > 0 && is_white_space(v[hi - 1])
        invariant
            0 <= hi <= n == v@.len(),
            forall|j: int| hi <= j < n ==> is_ws(#[trigger] v@[j]),
        decreases hi,
    {
        hi -= 1;
    }
    proof {
        assert(leading_ws(s@, lo as int));
        assert(trailing_ws(s@, hi as int));
        lemma_leading_unique(s@, lo as int, trim_lo(s@));
        lemma_trailing_unique(s@, hi as int, trim_hi(s@));
    }
    if lo < hi {
        string_of(&v, lo, hi)
    } else {
        String::new()
    }
}

/// `s` starts with `prefix`.
pub open spec fn starts_with(s: Seq<char>, prefix: Seq<char>) -> bool {
    prefix.len() <= s.len() && s.subrange(0, prefix.len() as int) == prefix
}

/// Returns `true` if the characters of `v` start with `prefix`.
pub fn has_prefix(v: &Vec<char>, prefix: &str) -> (b: bool)
    ensures
        b == starts_with(v@, prefix@),
{
    let p = chars_of(prefix);
    if p.len() > v.len() {
        return false;
    }
    let mut i: usize = 0;
    while i < p.len()
        invariant
            p@ == prefix@,
            p@.len() <= v@.len(),
            0 <= i <= p@.len(),
            forall|j: int| 0 <= j < i ==> v@[j] == p@[j],
        decreases p@.len() - i,
    {
        if v[i] != p[i] {
            proof {
                assert(v@.subrange(0, p@.len() as int)[i as int] != p@[i as int]);
            }
            return false;
        }
        i += 1;
    }
    proof {
        assert(v@.subrange(0, p@.len() as int) =~= p@);
    }
    true
}

/// The lowercase form of `c` where it is a single character that can equal an ASCII one:
/// ASCII capitals and the Kelvin sign map to ASCII lowercase letters. Every other character
/// is kept; its lowercase form is never an ASCII letter.
pub open spec fn lower(c: char) -> char {
    if 'A' <= c && c <= 'Z' {
        ((c as u8) + 32) as u8 as char
    } else if c == '\u{212a}' {
        'k'
    } else {
        c
    }
}

/// Lowercases one character as [`lower`] describes.
pub fn lower_char(c: char) -> (r: char)
    ensures
        r == lower(c),
{
    if 'A' <= c && c <= 'Z' {
        let b: u8 = c as u8;
        (b + 32) as char
    } else if c == '\u{212a}' {
        'k'
    } else {
        c
    }
}

/// Each character of `s` lowercased by [`lower`].
pub open spec fn lowered(s: Seq<char>) -> Seq<char> {
    Seq::new(s.len(), |i: int| lower(s[i]))
}

/// Returns `s` with each character lowercased by [`lower`].
pub fn to_lower(s: &str) -> (r: String)
    ensures
        r@ == lowered(s@),
{
    let v = chars_of(s);
    let mut r = String::new();
    let mut i: usize = 0;
    while i < v.len()
        invariant
            v@ == s@,
            0 <= i <= v@.len(),
            r@ == lowered(s@).take(i as int),
        decreases v@.len() - i,
    {
        let c = lower_char(v[i]);
        r.push(c);
        proof {
            assert(lowered(s@).take(i + 1) == lowered(s@).take(i as int).push(lower(v@[i as int])));
        }
        i += 1;
    }
    proof {
        assert(lowered(s@).take(v@.len() as int) == lowered(s@));
    }
    r
}

/// Drops a `\r` at the end of `line`.
pub open spec fn strip_cr(line: Seq<char>) -> Seq<char> {
    if line.len() > 0 && line.last() == '\r' {
        line.drop_last()
    } else {
        line
    }
}

/// The lines of `s` after the partial line `cur`, as `str::lines` splits them: at each `\n`,
/// dropping a `\r` right before it; a last line without a `\n` is kept when it is not empty.
pub open spec fn lines_from(s: Seq<char>, cur: Seq<char>) -> Seq<Seq<char>>
    decreases s.len(),
{
    if s.len() == 0 {
        if cur.len() == 0 {
            Seq::empty()
        } else {
            seq![cur]
        }
    } else if s[0] == '\n' {
        seq![strip_cr(cur)] + lines_from(s.drop_first(), Seq::empty())
    } else {
        lines_from(s.drop_first(), cur.push(s[0]))
    }
}

/// The lines of `s`, as `str::lines` splits them.
pub open spec fn text_lines(s: Seq<char>) -> Seq<Seq<char>> {
    lines_from(s, Seq::empty())
}

/// Splits `s` into lines as `str::lines` does.
pub fn split_lines(s: &str) -> (lines: Vec<String>)
    ensures
        lines@.len() == text_lines(s@).len(),
        forall|i: int| 0 <= i < lines@.len() ==> (#[trigger] lines@[i])@ == text_lines(s@)[i],
{
    let v = chars_of(s);
    let n = v.len();
    let mut lines: Vec<String> = Vec::new();
    let mut cur: Vec<char> = Vec::new();
    let mut i: usize = 0;
    let ghost views: Seq<Seq<char>> = Seq::empty();
    proof {
        assert(v@.subrange(0, n as int) =~= s@);
        assert(cur@ =~= Seq::<char>::empty());
        assert(views + text_lines(s@) =~= text_lines(s@));
    }
    while i < n
        invariant
            v@ == s@,
            n == v@.len(),
            0 <= i <= n,
            views.len() == lines@.len(),
            forall|j: int| 0 <= j < lines@.len() ==> (#[trigger] lines@[j])@ == views[j],
            views + lines_from(v@.subrange(i as int, n as int), cur@) == text_lines(s@),
        decreases n - i,
    {
        let ghost rest = v@.subrange(i as int, n as int);
        proof {
            assert(rest.drop_first() =~= v@.subrange(i + 1, n as int));
            assert(rest[0] == v@[i as int]);
        }
        if v[i] == '\n' {
            let k = cur.len();
            let line = if k > 0 && cur[k - 1] == '\r' {
                string_of(&cur, 0, k - 1)
            } else {
                string_from(&cur)
            };
            proof {
                if k > 0 && cur@[k - 1] == '\r' {
                    assert(cur@.subrange(0, k - 1) =~= cur@.drop_last());
                }
                assert(line@ == strip_cr(cur@));
                assert(views.push(line@) + lines_from(v@.subrange(i + 1, n as int), Seq::empty()) =~= views + (seq![
                    strip_cr(cur@)] + lines_from(v@.subrange(i + 1, n as int), Seq::empty())));
                views = views.push(line@);
            }
            lines.push(line);
            cur = Vec::new();
        } else {
            cur.push(v[i]);
        }
        i += 1;
    }
    proof {
        assert(v@.subrange(n as int, n as int).len() == 0);
    }
    if cur.len() > 0 {
        let line = string_from(&cur);
        proof {
            assert(views.push(line@) =~= views + seq![cur@]);
            views = views.push(line@);
        }
        lines.push(line);
    } else {
        proof {
            assert(views + Seq::<Seq<char>>::empty() =~= views);
        }
    }
    lines
}

/// The position of the first `c` in `s`, if there is one.
pub open spec fn first_index_of(s: Seq<char>, c: char) -> Option<int> {
    if exists|i: int| 0 <= i < s.len() && s[i] == c && forall|j: int| 0 <= j < i ==> s[j] != c {
        Some(choose|i: int| 0 <= i < s.len() && s[i] == c && forall|j: int| 0 <= j < i ==> s[j] != c)
    } else {
        None
    }
}

/// Finds the first `c` in `v`.
pub fn find_char(v: &Vec<char>, c: char) -> (r: Option<usize>)
    ensures
        r matches Some(i) ==> first_index_of(v@, c) == Some(i as int) && i < v@.len() && v@[i as int] == c,
        r is None ==> first_index_of(v@, c) is None,
        r is None ==> forall|j: int| 0 <= j < v@.len() ==> v@[j] != c,
{
    let mut i: usize = 0;
    while i < v.len()
        invariant
            0 <= i <= v@.len(),
            forall|j: int| 0 <= j < i ==> v@[j] != c,
        decreases v@.len() - i,
    {
        if v[i] == c {
            proof {
                let k = choose|k: int| 0 <= k < v@.len() && v@[k] == c && forall|j: int| 0 <= j < k ==> v@[j] != c;
                if k < i {
                    assert(v@[k] != c);
                } else if k > i {
                    assert(v@[i as int] != c);
                }
            }
            return Some(i);
        }
        i += 1;
    }
    None
}

/// Returns `true` if `a` and `b` hold the same characters.
pub fn same_text(a: &str, b: &str) -> (r: bool)
    ensures
        r == (a@ == b@),
{
    let x = chars_of(a);
    let y = chars_of(b);
    if x.len() != y.len() {
        return false;
    }
    let mut i: usize = 0;
    while i < x.len()
        invariant
            x@ == a@,
            y@ == b@,
            x@.len() == y@.len(),
            0 <= i <= x@.len(),
            forall|j: int| 0 <= j < i ==> x@[j] == y@[j],
        decreases x@.len() - i,
    {
        if x[i] != y[i] {
            return false;
        }
        i += 1;
    }
    proof {
        assert(x@ =~= y@);
    }
    true
}

/// A position from which on no white space remains at the front of `s`.
proof fn leading_witness(s: Seq<char>, i: int) -> (lo: int)
    requires
        0 <= i <= s.len(),
        forall|j: int| 0 <= j < i ==> is_ws(#[trigger] s[j]),
    ensures
        leading_ws(s, lo),
    decreases s.len() - i,
{
    if i == s.len() || !is_ws(s[i]) {
        i
    } else {
        leading_witness(s, i + 1)
    }
}

/// A length up to which no white space remains at the end of `s`.
proof fn trailing_witness(s: Seq<char>, i: int) -> (hi: int)
    requires
        0 <= i <= s.len(),
        forall|j: int| i <= j < s.len() ==> is_ws(#[trigger] s[j]),
    ensures
        trailing_ws(s, hi),
    decreases i,
{
    if i == 0 || !is_ws(s[i - 1]) {
        i
    } else {
        trailing_witness(s, i - 1)
    }
}

/// The bounds that trimming uses are the white-space bounds of `s`.
pub proof fn lemma_trim_bounds(s: Seq<char>)
    ensures
        leading_ws(s, trim_lo(s)),
        trailing_ws(s, trim_hi(s)),
{
    let lo = leading_witness(s, 0);
    let hi = trailing_witness(s, s.len() as int);
    assert(leading_ws(s, lo));
    assert(trailing_ws(s, hi));
}

/// Text that neither starts nor ends with white space is its own trimmed form.
pub proof fn lemma_trimmed_self(s: Seq<char>)
    requires
        s.len() == 0 || (!is_ws(s[0]) && !is_ws(s.last())),
    ensures
        trimmed(s) == s,
{
    lemma_trim_bounds(s);
    assert(leading_ws(s, 0));
    assert(trailing_ws(s, s.len() as int));
    lemma_leading_unique(s, 0, trim_lo(s));
    lemma_trailing_unique(s, s.len() as int, trim_hi(s));
    assert(s.subrange(0, s.len() as int) =~= s);
}

/// Non-empty text that is its own trimmed form neither starts nor ends with white space.
pub proof fn lemma_trimmed_edges(s: Seq<char>)
    requires
        trimmed(s) == s,
        s.len() > 0,
    ensures
        !is_ws(s[0]),
        !is_ws(s.last()),
{
    lemma_trim_bounds(s);
    let lo = trim_lo(s);
    let hi = trim_hi(s);
    if lo < hi {
        assert(s.subrange(lo, hi).len() == s.len());
        assert(lo == 0 && hi == s.len());
    }
}

/// The first `c` of `s` is at `i` when `s[i]` is `c` and no earlier character is.
pub proof fn lemma_first_index_at(s: Seq<char>, c: char, i: int)
    requires
        0 <= i < s.len(),
        s[i] == c,
        forall|j: int| 0 <= j < i ==> s[j] != c,
    ensures
        first_index_of(s, c) == Some(i),
{
    let k = choose|k: int| 0 <= k < s.len() && s[k] == c && forall|j: int| 0 <= j < k ==> s[j] != c;
    if k < i {
        assert(s[k] != c);
    } else if k > i {
        assert(s[i] != c);
    }
}

/// Splitting a text that ends a line, followed by more text, gives the lines of each part.
pub proof fn lemma_lines_append(a: Seq<char>, b: Seq<char>, cur: Seq<char>)
    requires
        a.len() > 0,
        a.last() == '\n',
    ensures
        lines_from(a + b, cur) == lines_from(a, cur) + lines_from(b, Seq::empty()),
    decreases a.len(),
{
    let ab = a + b;
    assert(ab[0] == a[0]);
    assert(ab.drop_first() =~= a.drop_first() + b);
    if a[0] == '\n' {
        if a.len() == 1 {
            assert(a.drop_first() + b =~= b);
            assert(lines_from(a.drop_first(), Seq::empty()) =~= Seq::<Seq<char>>::empty());
            assert(lines_from(a, cur) =~= seq![strip_cr(cur)]);
        } else {
            lemma_lines_append(a.drop_first(), b, Seq::empty());
            assert(seq![strip_cr(cur)] + (lines_from(a.drop_first(), Seq::empty()) + lines_from(b, Seq::empty()))
                =~= seq![strip_cr(cur)] + lines_from(a.drop_first(), Seq::empty()) + lines_from(b, Seq::empty()));
        }
    } else {
        lemma_lines_append(a.drop_first(), b, cur.push(a[0]));
    }
}

/// A line without `\n`, ended by one, is a single line.
pub proof fn lemma_one_line(l: Seq<char>, cur: Seq<char>)
    requires
        forall|j: int| 0 <= j < l.len() ==> l[j] != '\n',
    ensures
        lines_from(l.push('\n'), cur) == seq![strip_cr(cur + l)],
    decreases l.len(),
{
    let t = l.push('\n');
    if l.len() == 0 {
        assert(t.drop_first() =~= Seq::<char>::empty());
        assert(cur + l =~= cur);
        assert(lines_from(t.drop_first(), Seq::empty()) =~= Seq::<Seq<char>>::empty());
    } else {
        assert(t[0] == l[0]);
        assert(t.drop_first() =~= l.drop_first().push('\n'));
        lemma_one_line(l.drop_first(), cur.push(l[0]));
        assert(cur.push(l[0]) + l.drop_first() =~= cur + l);
    }
}

} // verus!
