use crate::io::parsed_plugins::{eq_ignore_ascii_case, is_esm, extension, same_ignoring_ascii_case};
use crate::text::{
    chars_of, find_char, first_index_of, has_prefix, is_ws, lemma_first_index_at, lemma_lines_append, lemma_one_line,
    lemma_trimmed_self, lines_from, split_lines, starts_with, string_of, strip_cr, text_lines, trim, trimmed,
};
use vstd::prelude::*;

verus! {

/// An entry of the `[Game Files]` section of `Morrowind.ini`, as text.
pub enum GameFileView {
    /// `GameFile<digits>=<name>`: the plugin name, without surrounding quotes.
    Plugin(Seq<char>),
    /// Any other line of the section, trimmed.
    Junk(Seq<char>),
}

/// An entry of the `[Game Files]` section of `Morrowind.ini`.
#[derive(Debug, PartialEq, Eq)]
pub enum GameFileLine {
    /// `GameFile<digits>=<name>`: the plugin name, without surrounding quotes.
    Plugin(String),
    /// Any other line of the section, trimmed.
    Junk(String),
}

impl View for GameFileLine {
    type V = GameFileView;

    open spec fn view(&self) -> GameFileView {
        match self {
            GameFileLine::Plugin(p) => GameFileView::Plugin(p@),
            GameFileLine::Junk(j) => GameFileView::Junk(j@),
        }
    }
}

/// `c` is a quote character around plugin names.
pub open spec fn is_quote(c: char) -> bool {
    c == '\'' || c == '"'
}

/// The number of quote characters at the start of `s`.
pub open spec fn leading_quotes(s: Seq<char>) -> int
    decreases s.len(),
{
    if s.len() > 0 && is_quote(s[0]) {
        1 + leading_quotes(s.drop_first())
    } else {
        0
    }
}

/// The number of quote characters at the end of `s`.
pub open spec fn trailing_quotes(s: Seq<char>) -> int
    decreases s.len(),
{
    if s.len() > 0 && is_quote(s.last()) {
        1 + trailing_quotes(s.drop_last())
    } else {
        0
    }
}

/// `s` without its leading quote characters and then without its trailing ones.
pub open spec fn unquoted_name(s: Seq<char>) -> Seq<char> {
    let rest = s.subrange(leading_quotes(s), s.len() as int);
    rest.subrange(0, rest.len() - trailing_quotes(rest))
}

/// `s` is one or more ASCII digits.
pub open spec fn all_digits(s: Seq<char>) -> bool {
    s.len() > 0 && forall|i: int| 0 <= i < s.len() ==> '0' <= #[trigger] s[i] && s[i] <= '9'
}

/// The entry that the trimmed line `t` of the `[Game Files]` section makes.
pub open spec fn game_file_entry(t: Seq<char>) -> GameFileView {
    match first_index_of(t, '=') {
        None => GameFileView::Junk(t),
        Some(eq) => {
            let key = t.subrange(0, eq);
            if starts_with(key, "GameFile"@) && all_digits(key.subrange(8, key.len() as int)) {
                GameFileView::Plugin(unquoted_name(trimmed(t.subrange(eq + 1, t.len() as int))))
            } else {
                GameFileView::Junk(t)
            }
        },
    }
}

/// The entries of the `[Game Files]` sections among `lines`, where `in_section` tells whether
/// the lines start inside such a section. Blank lines and `;` comments are skipped; a line
/// `[Game Files]` opens the section and any other `[...]` line closes it.
pub open spec fn game_files_from(lines: Seq<Seq<char>>, in_section: bool) -> Seq<GameFileView>
    decreases lines.len(),
{
    if lines.len() == 0 {
        Seq::empty()
    } else {
        let t = trimmed(lines[0]);
        let rest = lines.drop_first();
        if t.len() == 0 || t[0] == ';' {
            game_files_from(rest, in_section)
        } else if t == "[Game Files]"@ {
            game_files_from(rest, true)
        } else if t[0] == '[' {
            game_files_from(rest, false)
        } else if in_section {
            seq![game_file_entry(t)] + game_files_from(rest, true)
        } else {
            game_files_from(rest, false)
        }
    }
}

/// In a `[Game Files]` section, `GameFile<n>=<name>` is a plugin entry for `name` for every
/// index `n` of one or more ASCII digits, however many: a `Morrowind.ini` holding just that
/// entry loads exactly that plugin.
pub proof fn law_game_file_any_index(n: Seq<char>, p: Seq<char>)
    requires
        n.len() > 0,
        forall|i: int| 0 <= i < n.len() ==> '0' <= #[trigger] n[i] && n[i] <= '9',
        forall|i: int| 0 <= i < p.len() ==> #[trigger] p[i] != '\n',
        p.len() > 0 ==> !is_ws(p[0]) && !is_ws(p.last()) && !is_quote(p[0]) && !is_quote(p.last()),
    ensures
        game_files_from(text_lines("[Game Files]\n"@ + "GameFile"@ + n + "="@ + p + "\n"@), false) == seq![GameFileView::Plugin(p)],
{
    reveal_strlit("[Game Files]\n");
    reveal_strlit("[Game Files]");
    reveal_strlit("GameFile");
    reveal_strlit("=");
    reveal_strlit("\n");
    let head = "[Game Files]"@;
    let line = "GameFile"@ + n + "="@ + p;
    let eq: int = 8 + n.len() as int;
    assert(line.len() == 9 + n.len() + p.len());
    assert(forall|i: int| 0 <= i < 8 ==> #[trigger] line[i] == "GameFile"@[i]);
    assert(forall|i: int| 0 <= i < n.len() ==> #[trigger] line[8 + i] == n[i]);
    assert(line[eq] == '=');
    assert(forall|i: int| 0 <= i < p.len() ==> #[trigger] line[eq + 1 + i] == p[i]);
    let text = "[Game Files]\n"@ + "GameFile"@ + n + "="@ + p + "\n"@;
    assert(text =~= head.push('\n') + line.push('\n'));
    assert forall|j: int| 0 <= j < line.len() implies #[trigger] line[j] != '\n' by {
        if j >= eq + 1 {
            assert(line[j] == p[j - eq - 1]);
        } else if 8 <= j < eq {
            assert(line[j] == n[j - 8]);
        }
    }
    lemma_lines_append(head.push('\n'), line.push('\n'), Seq::empty());
    lemma_one_line(head, Seq::empty());
    lemma_one_line(line, Seq::empty());
    assert(Seq::<char>::empty() + head =~= head);
    assert(Seq::<char>::empty() + line =~= line);
    assert(strip_cr(head) == head);
    assert(line.last() != '\r') by {
        if p.len() > 0 {
            assert(line.last() == p.last());
        }
    }
    assert(strip_cr(line) == line);
    assert(text_lines(text) =~= seq![head, line]);
    lemma_trimmed_self(head);
    assert(line[0] == 'G');
    lemma_trimmed_self(line);
    let lines = seq![head, line];
    assert(lines.drop_first() =~= seq![line]);
    assert(seq![line].drop_first() =~= Seq::<Seq<char>>::empty());
    assert(line != head) by {
        assert(line[0] != head[0]);
    }
    assert forall|j: int| 0 <= j < eq implies #[trigger] line[j] != '=' by {
        if 8 <= j {
            assert(line[j] == n[j - 8]);
        }
    }
    lemma_first_index_at(line, '=', eq);
    let key = line.subrange(0, eq);
    assert(key.subrange(0, 8) =~= "GameFile"@);
    assert(key.subrange(8, key.len() as int) =~= n);
    let value = line.subrange(eq + 1, line.len() as int);
    assert(value =~= p);
    lemma_trimmed_self(p);
    assert(leading_quotes(p) == 0);
    assert(p.subrange(0, p.len() as int) =~= p);
    assert(trailing_quotes(p) == 0);
    assert(unquoted_name(p) =~= p);
    assert(game_file_entry(line) == GameFileView::Plugin(p));
    let sl = seq![line];
    assert(sl[0] == line);
    assert(trimmed(sl[0]) == line);
    assert(line[0] != ';' && line[0] != '[');
    assert(game_files_from(sl.drop_first(), true) == Seq::<GameFileView>::empty());
    assert(game_files_from(sl, true) == seq![game_file_entry(line)] + Seq::<GameFileView>::empty());
    assert(seq![game_file_entry(line)] + Seq::<GameFileView>::empty() =~= seq![GameFileView::Plugin(p)]);
}

proof fn lemma_leading_quotes_prefix(q: Seq<char>, r: Seq<char>)
    requires
        forall|i: int| 0 <= i < q.len() ==> is_quote(#[trigger] q[i]),
        r.len() == 0 || !is_quote(r[0]),
    ensures
        leading_quotes(q + r) == q.len(),
    decreases q.len(),
{
    if q.len() == 0 {
        assert(q + r =~= r);
    } else {
        assert((q + r)[0] == q[0]);
        assert((q + r).drop_first() =~= q.drop_first() + r);
        lemma_leading_quotes_prefix(q.drop_first(), r);
    }
}

proof fn lemma_trailing_quotes_suffix(r: Seq<char>, q: Seq<char>)
    requires
        forall|i: int| 0 <= i < q.len() ==> is_quote(#[trigger] q[i]),
        r.len() == 0 || !is_quote(r.last()),
    ensures
        trailing_quotes(r + q) == q.len(),
    decreases q.len(),
{
    if q.len() == 0 {
        assert(r + q =~= r);
    } else {
        assert((r + q).last() == q.last());
        assert((r + q).drop_last() =~= r + q.drop_last());
        lemma_trailing_quotes_suffix(r, q.drop_last());
    }
}

/// A `GameFile<n>=` entry names its plugin without the quote characters around it: for any
/// index `n` of ASCII digits, quotes `q1` before the name and `q2` after it are dropped.
pub proof fn law_game_file_quotes_dropped(n: Seq<char>, q1: Seq<char>, p: Seq<char>, q2: Seq<char>)
    requires
        n.len() > 0,
        forall|i: int| 0 <= i < n.len() ==> '0' <= #[trigger] n[i] && n[i] <= '9',
        forall|i: int| 0 <= i < q1.len() ==> is_quote(#[trigger] q1[i]),
        forall|i: int| 0 <= i < q2.len() ==> is_quote(#[trigger] q2[i]),
        p.len() > 0,
        !is_ws(p[0]) && !is_ws(p.last()) && !is_quote(p[0]) && !is_quote(p.last()),
    ensures
        game_file_entry("GameFile"@ + n + "="@ + q1 + p + q2) == GameFileView::Plugin(p),
{
    reveal_strlit("GameFile");
    reveal_strlit("=");
    let v = q1 + p + q2;
    let line = "GameFile"@ + n + "="@ + v;
    let eq: int = 8 + n.len() as int;
    assert(forall|i: int| 0 <= i < 8 ==> #[trigger] line[i] == "GameFile"@[i]);
    assert(forall|i: int| 0 <= i < n.len() ==> #[trigger] line[8 + i] == n[i]);
    assert(line[eq] == '=');
    assert forall|j: int| 0 <= j < eq implies #[trigger] line[j] != '=' by {
        if 8 <= j {
            assert(line[j] == n[j - 8]);
        } else {
            assert(line[j] == "GameFile"@[j]);
        }
    }
    lemma_first_index_at(line, '=', eq);
    let key = line.subrange(0, eq);
    assert(key.subrange(0, 8) =~= "GameFile"@);
    assert(key.subrange(8, key.len() as int) =~= n);
    assert(line.subrange(eq + 1, line.len() as int) =~= v);
    assert(v[0] == (if q1.len() > 0 { q1[0] } else { p[0] }));
    assert(v.last() == (if q2.len() > 0 { q2.last() } else { p.last() }));
    assert(!is_ws(v[0]) && !is_ws(v.last()));
    lemma_trimmed_self(v);
    assert(v =~= q1 + (p + q2));
    assert((p + q2)[0] == p[0]);
    lemma_leading_quotes_prefix(q1, p + q2);
    let rest = v.subrange(q1.len() as int, v.len() as int);
    assert(rest =~= p + q2);
    lemma_trailing_quotes_suffix(p, q2);
    assert(rest.subrange(0, rest.len() - q2.len()) =~= p);
    assert(unquoted_name(v) == p);
    assert(game_file_entry(line) == GameFileView::Plugin(p));
    assert(line =~= "GameFile"@ + n + "="@ + q1 + p + q2);
}

/// A `Morrowind.ini` text whose lines never open a `[Game Files]` section loads no plugin.
pub proof fn law_no_section_no_entries(lines: Seq<Seq<char>>)
    requires
        forall|i: int| 0 <= i < lines.len() ==> trimmed(#[trigger] lines[i]) != "[Game Files]"@,
    ensures
        game_files_from(lines, false).len() == 0,
    decreases lines.len(),
{
    if lines.len() > 0 {
        assert(trimmed(lines[0]) != "[Game Files]"@);
        assert forall|i: int| 0 <= i < lines.drop_first().len() implies trimmed(#[trigger] lines.drop_first()[i]) != "[Game Files]"@ by {
            assert(lines.drop_first()[i] == lines[i + 1]);
        }
        law_no_section_no_entries(lines.drop_first());
    }
}

proof fn lemma_leading_quotes_bound(s: Seq<char>)
    ensures
        0 <= leading_quotes(s) <= s.len(),
        forall|i: int| 0 <= i < leading_quotes(s) ==> is_quote(#[trigger] s[i]),
        leading_quotes(s) < s.len() ==> !is_quote(s[leading_quotes(s)]),
    decreases s.len(),
{
    if s.len() > 0 && is_quote(s[0]) {
        lemma_leading_quotes_bound(s.drop_first());
        assert forall|i: int| 0 <= i < leading_quotes(s) implies is_quote(#[trigger] s[i]) by {
            if i > 0 {
                assert(s[i] == s.drop_first()[i - 1]);
            }
        }
    }
}

proof fn lemma_leading_quotes_at(s: Seq<char>, k: int)
    requires
        0 <= k <= s.len(),
        forall|i: int| 0 <= i < k ==> is_quote(#[trigger] s[i]),
        k < s.len() ==> !is_quote(s[k]),
    ensures
        leading_quotes(s) == k,
    decreases s.len(),
{
    if k > 0 {
        assert forall|i: int| 0 <= i < k - 1 implies is_quote(#[trigger] s.drop_first()[i]) by {
            assert(s.drop_first()[i] == s[i + 1]);
        }
        lemma_leading_quotes_at(s.drop_first(), k - 1);
    }
}

proof fn lemma_trailing_quotes_at(s: Seq<char>, k: int)
    requires
        0 <= k <= s.len(),
        forall|i: int| s.len() - k <= i < s.len() ==> is_quote(#[trigger] s[i]),
        k < s.len() ==> !is_quote(s[s.len() - k - 1]),
    ensures
        trailing_quotes(s) == k,
    decreases s.len(),
{
    if k > 0 {
        assert forall|i: int| s.drop_last().len() - (k - 1) <= i < s.drop_last().len() implies is_quote(#[trigger] s.drop_last()[i]) by {
            assert(s.drop_last()[i] == s[i]);
        }
        lemma_trailing_quotes_at(s.drop_last(), k - 1);
    }
}

/// Removes the quote characters around a name.
fn strip_quotes(s: &str) -> (r: String)
    ensures
        r@ == unquoted_name(s@),
{
    let v = chars_of(s);
    let n = v.len();
    let mut lo: usize = 0;
    while lo < n && (v[lo] == '\'' || v[lo] == '"')
        invariant
            0 <= lo <= n == v@.len(),
            forall|j: int| 0 <= j < lo ==> is_quote(#[trigger] v@[j]),
        decreases n - lo,
    {
        lo += 1;
    }
    proof {
        lemma_leading_quotes_at(s@, lo as int);
    }
    let mut hi: usize = n;
    while hi > lo && (v[hi - 1] == '\'' || v[hi - 1] == '"')
        invariant
            lo <= hi <= n == v@.len(),
            forall|j: int| hi <= j < n ==> is_quote(#[trigger] v@[j]),
        decreases hi,
    {
        hi -= 1;
    }
    proof {
        let rest = s@.subrange(lo as int, n as int);
        assert forall|i: int| rest.len() - (n - hi) <= i < rest.len() implies is_quote(#[trigger] rest[i]) by {
            assert(rest[i] == v@[lo + i]);
        }
        if hi > lo {
            assert(rest[rest.len() - (n - hi) - 1] == v@[hi - 1]);
        }
        lemma_trailing_quotes_at(rest, (n - hi) as int);
        assert(rest.subrange(0, rest.len() - (n - hi)) =~= v@.subrange(lo as int, hi as int));
    }
    string_of(&v, lo, hi)
}

fn digits_only(v: &Vec<char>, lo: usize, hi: usize) -> (b: bool)
    requires
        lo <= hi <= v@.len(),
    ensures
        b == all_digits(v@.subrange(lo as int, hi as int)),
{
    if lo == hi {
        return false;
    }
    let mut i = lo;
    while i < hi
        invariant
            lo <= i <= hi <= v@.len(),
            forall|j: int| lo <= j < i ==> '0' <= #[trigger] v@[j] && v@[j] <= '9',
        decreases hi - i,
    {
        if !('0' <= v[i] && v[i] <= '9') {
            proof {
                assert(v@.subrange(lo as int, hi as int)[i - lo] == v@[i as int]);
            }
            return false;
        }
        i += 1;
    }
    proof {
        assert forall|j: int| 0 <= j < v@.subrange(lo as int, hi as int).len() implies '0' <= #[trigger] v@.subrange(lo as int, hi as int)[j]
            && v@.subrange(lo as int, hi as int)[j] <= '9' by {
            assert(v@.subrange(lo as int, hi as int)[j] == v@[lo + j]);
        }
    }
    true
}

/// The entry that a trimmed line of the `[Game Files]` section makes.
fn entry_of(t: &String) -> (r: GameFileLine)
    ensures
        r@ == game_file_entry(t@),
{
    let v = chars_of(t);
    match find_char(&v, '=') {
        None => GameFileLine::Junk(t.clone()),
        Some(eq) => {
            let key = string_of(&v, 0, eq);
            let kv = chars_of(&key);
            proof {
                reveal_strlit("GameFile");
            }
            if has_prefix(&kv, "GameFile") && digits_only(&kv, 8, kv.len()) {
                let n = v.len();
                let value = string_of(&v, eq + 1, n);
                let name = strip_quotes(&trim(&value));
                GameFileLine::Plugin(name)
            } else {
                GameFileLine::Junk(t.clone())
            }
        },
    }
}

/// The entries of the `[Game Files]` sections of the `Morrowind.ini` text `text`, in order.
pub fn parse_game_files(text: &str) -> (r: Vec<GameFileLine>)
    ensures
        r@.map_values(|l: GameFileLine| l@) == game_files_from(text_lines(text@), false),
{
    let lines = split_lines(text);
    let ghost all = text_lines(text@);
    proof {
        assert(lines@.map_values(|l: String| l@) =~= all);
    }
    let mut r: Vec<GameFileLine> = Vec::new();
    let mut in_section = false;
    let mut i: usize = 0;
    proof {
        assert(all.subrange(0, all.len() as int) =~= all);
        assert(r@.map_values(|l: GameFileLine| l@) =~= Seq::<GameFileView>::empty());
        assert(Seq::<GameFileView>::empty() + game_files_from(all, false) =~= game_files_from(all, false));
    }
    while i < lines.len()
        invariant
            all == text_lines(text@),
            lines@.len() == all.len(),
            forall|j: int| 0 <= j < lines@.len() ==> (#[trigger] lines@[j])@ == all[j],
            0 <= i <= lines@.len(),
            r@.map_values(|l: GameFileLine| l@) + game_files_from(all.subrange(i as int, all.len() as int), in_section)
                == game_files_from(all, false),
        decreases lines@.len() - i,
    {
        let ghost here = all.subrange(i as int, all.len() as int);
        proof {
            assert(here[0] == lines@[i as int]@);
            assert(here.drop_first() =~= all.subrange(i + 1, all.len() as int));
            reveal_strlit("[Game Files]");
        }
        let t = trim(&lines[i]);
        let tv = chars_of(&t);
        if tv.len() == 0 || tv[0] == ';' {
        } else if crate::text::same_text(&t, "[Game Files]") {
            in_section = true;
        } else if tv[0] == '[' {
            in_section = false;
        } else if in_section {
            let e = entry_of(&t);
            proof {
                let before = r@.map_values(|l: GameFileLine| l@);
                assert(r@.push(e).map_values(|l: GameFileLine| l@) =~= before.push(e@));
                assert(before.push(e@) + game_files_from(here.drop_first(), true) =~= before + (seq![e@] + game_files_from(here.drop_first(), true)));
            }
            r.push(e);
        }
        i += 1;
    }
    proof {
        assert(game_files_from(all.subrange(i as int, all.len() as int), in_section) =~= Seq::<GameFileView>::empty());
        assert(r@.map_values(|l: GameFileLine| l@) + Seq::<GameFileView>::empty() =~= r@.map_values(|l: GameFileLine| l@));
    }
    r
}

/// The plugin names of the first `n` entries of `lines` whose flag in `exists` is set, in
/// order; junk entries are skipped.
pub open spec fn existing_names(lines: Seq<GameFileView>, exists: Seq<bool>, n: int) -> Seq<Seq<char>>
    decreases n,
{
    if n <= 0 {
        Seq::empty()
    } else {
        let rest = existing_names(lines, exists, n - 1);
        match lines[n - 1] {
            GameFileView::Plugin(p) => if exists[n - 1] {
                rest.push(p)
            } else {
                rest
            },
            GameFileView::Junk(_) => rest,
        }
    }
}

/// The plugins of the `[Game Files]` entries `lines` that exist, in order: `exists` tells, for
/// each entry, whether its plugin is found in some data directory (its value is not read for
/// junk entries).
pub fn existing_game_files(lines: &Vec<GameFileLine>, exists: &Vec<bool>) -> (r: Vec<String>)
    requires
        exists@.len() == lines@.len(),
    ensures
        r@.map_values(|s: String| s@) == existing_names(lines@.map_values(|l: GameFileLine| l@), exists@, lines@.len() as int),
{
    let ghost lv = lines@.map_values(|l: GameFileLine| l@);
    let mut r: Vec<String> = Vec::new();
    let mut i: usize = 0;
    while i < lines.len()
        invariant
            lv == lines@.map_values(|l: GameFileLine| l@),
            exists@.len() == lines@.len(),
            0 <= i <= lines@.len(),
            r@.map_values(|s: String| s@) == existing_names(lv, exists@, i as int),
        decreases lines@.len() - i,
    {
        match &lines[i] {
            GameFileLine::Plugin(name) => {
                if exists[i] {
                    let n = name.clone();
                    proof {
                        assert(lv[i as int] == GameFileView::Plugin(name@));
                        assert(r@.push(n).map_values(|s: String| s@) =~= r@.map_values(|s: String| s@).push(name@));
                    }
                    r.push(n);
                } else {
                    proof {
                        assert(lv[i as int] == GameFileView::Plugin(name@));
                    }
                }
            },
            GameFileLine::Junk(j) => {
                proof {
                    assert(lv[i as int] == GameFileView::Junk(j@));
                }
            },
        }
        i += 1;
    }
    r
}

/// The text of each name.
pub open spec fn texts(v: Seq<String>) -> Seq<Seq<char>> {
    v.map_values(|s: String| s@)
}

/// Some plugin's header names `name` as a master (ignoring ASCII case).
pub open spec fn named_as_master(header_masters: Seq<Seq<String>>, name: Seq<char>) -> bool {
    exists|k: int, j: int|
        0 <= k < header_masters.len() && 0 <= j < header_masters[k].len()
            && eq_ignore_ascii_case(#[trigger] header_masters[k][j]@, name)
}

/// `name` is loaded as a master: it has the `.esm` extension, or another plugin's header
/// declares it as a master.
pub open spec fn loads_as_master(header_masters: Seq<Seq<String>>, name: Seq<char>) -> bool {
    (extension(name) matches Some(e) && eq_ignore_ascii_case(e, "esm"@)) || named_as_master(header_masters, name)
}

fn declared_master(header_masters: &Vec<Vec<String>>, name: &String) -> (b: bool)
    ensures
        b == named_as_master(header_masters@.map_values(|m: Vec<String>| m@), name@),
{
    let ghost hm = header_masters@.map_values(|m: Vec<String>| m@);
    let mut k: usize = 0;
    while k < header_masters.len()
        invariant
            hm == header_masters@.map_values(|m: Vec<String>| m@),
            0 <= k <= header_masters@.len(),
            forall|a: int, j: int| 0 <= a < k && 0 <= j < hm[a].len() ==> !eq_ignore_ascii_case(#[trigger] hm[a][j]@, name@),
        decreases header_masters@.len() - k,
    {
        let masters = &header_masters[k];
        let mut j: usize = 0;
        while j < masters.len()
            invariant
                hm == header_masters@.map_values(|m: Vec<String>| m@),
                0 <= k < header_masters@.len(),
                masters == &header_masters@[k as int],
                0 <= j <= masters@.len(),
                forall|a: int, b: int| 0 <= a < k && 0 <= b < hm[a].len() ==> !eq_ignore_ascii_case(#[trigger] hm[a][b]@, name@),
                forall|b: int| 0 <= b < j ==> !eq_ignore_ascii_case(#[trigger] masters@[b]@, name@),
            decreases masters@.len() - j,
        {
            if same_ignoring_ascii_case(&masters[j], name) {
                proof {
                    assert(hm[k as int][j as int] == masters@[j as int]);
                }
                return true;
            }
            j += 1;
        }
        proof {
            assert forall|a: int, b: int| 0 <= a < k + 1 && 0 <= b < hm[a].len() implies !eq_ignore_ascii_case(#[trigger] hm[a][b]@, name@) by {
                if a == k {
                    assert(hm[a][b] == masters@[b]);
                }
            }
        }
        k += 1;
    }
    false
}

/// For each plugin of the load order `names`, whether it is loaded as a master. `header_masters`
/// holds, for each plugin, the masters its header declares.
pub fn master_flags_of(names: &Vec<String>, header_masters: &Vec<Vec<String>>) -> (r: Vec<bool>)
    ensures
        r@.len() == names@.len(),
        forall|i: int| 0 <= i < r@.len() ==> #[trigger] r@[i] == loads_as_master(header_masters@.map_values(|m: Vec<String>| m@), names@[i]@),
{
    let mut r: Vec<bool> = Vec::new();
    let mut i: usize = 0;
    while i < names.len()
        invariant
            0 <= i <= names@.len(),
            r@.len() == i,
            forall|j: int| 0 <= j < i ==> #[trigger] r@[j] == loads_as_master(header_masters@.map_values(|m: Vec<String>| m@), names@[j]@),
        decreases names@.len() - i,
    {
        let b = is_esm(&names[i]) || declared_master(header_masters, &names[i]);
        r.push(b);
        i += 1;
    }
    r
}

/// Where a declared master stands in the load order relative to the plugin that declares it.
#[derive(Debug, Clone, Copy, PartialEq, Eq, Structural)]
pub enum MasterPlacement {
    /// The master loads before the plugin.
    Before,
    /// The master loads at this position, not before the plugin.
    NotBefore(usize),
    /// The master is not in the load order.
    Missing,
}

/// The last position of `name` (ignoring ASCII case) in the load order `names`.
pub open spec fn last_position(names: Seq<Seq<char>>, name: Seq<char>) -> Option<int>
    decreases names.len(),
{
    if names.len() == 0 {
        None
    } else if eq_ignore_ascii_case(names.last(), name) {
        Some(names.len() - 1)
    } else {
        last_position(names.drop_last(), name)
    }
}

/// Where `master` stands relative to the plugin at position `plugin`.
pub open spec fn placement(names: Seq<Seq<char>>, master: Seq<char>, plugin: int) -> MasterPlacement {
    match last_position(names, master) {
        None => MasterPlacement::Missing,
        Some(p) => if p < plugin { MasterPlacement::Before } else { MasterPlacement::NotBefore(p as usize) },
    }
}

fn find_last(names: &Vec<String>, name: &String) -> (r: Option<usize>)
    ensures
        r matches Some(p) ==> last_position(texts(names@), name@) == Some(p as int),
        r is None ==> last_position(texts(names@), name@) is None,
{
    let ghost t = texts(names@);
    let mut i: usize = names.len();
    proof {
        assert(t.take(i as int) =~= t);
    }
    while i > 0
        invariant
            t == texts(names@),
            0 <= i <= names@.len(),
            last_position(t.take(i as int), name@) == last_position(t, name@),
        decreases i,
    {
        proof {
            assert(t.take(i as int).drop_last() =~= t.take(i - 1));
            assert(t.take(i as int).last() == names@[i - 1]@);
        }
        if same_ignoring_ascii_case(&names[i - 1], name) {
            return Some(i - 1);
        }
        i -= 1;
    }
    proof {
        assert(t.take(0) =~= Seq::<Seq<char>>::empty());
    }
    None
}

/// `OpenMW` loads content in the given order, so each plugin's masters must come before it.
/// For each plugin of `names` and each master its header declares (`header_masters`), where
/// that master stands: before the plugin, at a position not before it, or missing. Names are
/// compared ignoring ASCII case; a name listed twice counts at its last position.
pub fn master_placements(names: &Vec<String>, header_masters: &Vec<Vec<String>>) -> (r: Vec<Vec<MasterPlacement>>)
    requires
        header_masters@.len() == names@.len(),
    ensures
        r@.len() == names@.len(),
        forall|i: int| 0 <= i < r@.len() ==> (#[trigger] r@[i])@.len() == header_masters@[i]@.len(),
        forall|i: int, j: int|
            0 <= i < r@.len() && 0 <= j < header_masters@[i]@.len()
                ==> #[trigger] r@[i]@[j] == placement(texts(names@), header_masters@[i]@[j]@, i),
{
    let mut r: Vec<Vec<MasterPlacement>> = Vec::new();
    let mut i: usize = 0;
    while i < names.len()
        invariant
            header_masters@.len() == names@.len(),
            0 <= i <= names@.len(),
            r@.len() == i,
            forall|a: int| 0 <= a < i ==> (#[trigger] r@[a])@.len() == header_masters@[a]@.len(),
            forall|a: int, b: int|
                0 <= a < i && 0 <= b < header_masters@[a]@.len()
                    ==> #[trigger] r@[a]@[b] == placement(texts(names@), header_masters@[a]@[b]@, a),
        decreases names@.len() - i,
    {
        let masters = &header_masters[i];
        let mut row: Vec<MasterPlacement> = Vec::new();
        let mut j: usize = 0;
        while j < masters.len()
            invariant
                header_masters@.len() == names@.len(),
                0 <= i < names@.len(),
                masters == &header_masters@[i as int],
                0 <= j <= masters@.len(),
                row@.len() == j,
                forall|b: int| 0 <= b < j ==> #[trigger] row@[b] == placement(texts(names@), masters@[b]@, i as int),
            decreases masters@.len() - j,
        {
            let p = match find_last(names, &masters[j]) {
                None => MasterPlacement::Missing,
                Some(p) => if p < i { MasterPlacement::Before } else { MasterPlacement::NotBefore(p) },
            };
            row.push(p);
            j += 1;
        }
        r.push(row);
        i += 1;
    }
    r
}

/// `OpenMW` can load the plugins in the given order: every declared master loads before the
/// plugin that declares it.
pub open spec fn load_order_valid(placements: Seq<Seq<MasterPlacement>>) -> bool {
    forall|i: int, j: int| 0 <= i < placements.len() && 0 <= j < placements[i].len() ==> #[trigger] placements[i][j] == MasterPlacement::Before
}

/// A declared master that is missing from the load order, or that loads at or after the
/// plugin declaring it, makes the load order invalid.
pub proof fn law_misplaced_master_invalidates(placements: Seq<Seq<MasterPlacement>>, i: int, j: int)
    requires
        0 <= i < placements.len(),
        0 <= j < placements[i].len(),
        placements[i][j] is Missing || placements[i][j] is NotBefore,
    ensures
        !load_order_valid(placements),
{
    assert(placements[i][j] != MasterPlacement::Before);
}

/// A load order in which every declared master loads before its plugin is valid.
pub proof fn law_masters_before_is_valid(placements: Seq<Seq<MasterPlacement>>)
    requires
        forall|i: int, j: int| 0 <= i < placements.len() && 0 <= j < placements[i].len() ==> (#[trigger] placements[i][j]) is Before,
    ensures
        load_order_valid(placements),
{
}

/// A master that no name of the load order matches (ignoring ASCII case) is missing, and then
/// the plugins' load order is invalid.
pub proof fn law_absent_master_is_missing(names: Seq<Seq<char>>, master: Seq<char>, plugin: int)
    requires
        forall|k: int| 0 <= k < names.len() ==> !eq_ignore_ascii_case(#[trigger] names[k], master),
    ensures
        placement(names, master, plugin) is Missing,
    decreases names.len(),
{
    if names.len() > 0 {
        assert(!eq_ignore_ascii_case(names[names.len() - 1], master));
        assert forall|k: int| 0 <= k < names.drop_last().len() implies !eq_ignore_ascii_case(#[trigger] names.drop_last()[k], master) by {
            assert(names.drop_last()[k] == names[k]);
        }
        law_absent_master_is_missing(names.drop_last(), master, plugin);
    }
}

/// The placements of declared masters, as [`master_placements`] gives them.
pub open spec fn placements_view(p: Seq<Vec<MasterPlacement>>) -> Seq<Seq<MasterPlacement>> {
    p.map_values(|row: Vec<MasterPlacement>| row@)
}

/// Returns `true` when every declared master loads before the plugin that declares it; a
/// master that is missing or loads later is a load order problem that stops the merge.
pub fn openmw_load_order_is_valid(placements: &Vec<Vec<MasterPlacement>>) -> (b: bool)
    ensures
        b == load_order_valid(placements_view(placements@)),
{
    let ghost pv = placements_view(placements@);
    let mut i: usize = 0;
    while i < placements.len()
        invariant
            pv == placements_view(placements@),
            0 <= i <= placements@.len(),
            forall|a: int, b: int| 0 <= a < i && 0 <= b < pv[a].len() ==> #[trigger] pv[a][b] == MasterPlacement::Before,
        decreases placements@.len() - i,
    {
        let row = &placements[i];
        let mut j: usize = 0;
        while j < row.len()
            invariant
                pv == placements_view(placements@),
                0 <= i < placements@.len(),
                row == &placements@[i as int],
                0 <= j <= row@.len(),
                forall|a: int, b: int| 0 <= a < i && 0 <= b < pv[a].len() ==> #[trigger] pv[a][b] == MasterPlacement::Before,
                forall|b: int| 0 <= b < j ==> #[trigger] row@[b] == MasterPlacement::Before,
            decreases row@.len() - j,
        {
            if row[j] != MasterPlacement::Before {
                proof {
                    assert(pv[i as int][j as int] == row@[j as int]);
                }
                return false;
            }
            j += 1;
        }
        proof {
            assert forall|a: int, b: int| 0 <= a < i + 1 && 0 <= b < pv[a].len() implies #[trigger] pv[a][b] == MasterPlacement::Before by {
                if a == i {
                    assert(pv[a][b] == row@[b]);
                }
            }
        }
        i += 1;
    }
    true
}

/// The names among the first `n` of `names` whose flag in `flags` is `want`, in order.
pub open spec fn names_flagged(names: Seq<Seq<char>>, flags: Seq<bool>, want: bool, n: int) -> Seq<Seq<char>>
    decreases n,
{
    if n <= 0 {
        Seq::empty()
    } else {
        let rest = names_flagged(names, flags, want, n - 1);
        if flags[n - 1] == want {
            rest.push(names[n - 1])
        } else {
            rest
        }
    }
}

/// Splitting the load order puts each name with the wanted flag, and only those, on that side,
/// and every name goes to exactly one side.
pub proof fn law_split_partitions(names: Seq<Seq<char>>, flags: Seq<bool>, want: bool, n: int)
    requires
        0 <= n <= names.len(),
        n <= flags.len(),
    ensures
        forall|x: Seq<char>| #[trigger] names_flagged(names, flags, want, n).contains(x)
            <==> exists|i: int| 0 <= i < n && flags[i] == want && names[i] == x,
        names_flagged(names, flags, true, n).len() + names_flagged(names, flags, false, n).len() == n,
    decreases n,
{
    if n > 0 {
        law_split_partitions(names, flags, want, n - 1);
        let rest = names_flagged(names, flags, want, n - 1);
        let r = names_flagged(names, flags, want, n);
        assert forall|x: Seq<char>| #[trigger] r.contains(x) <==> exists|i: int| 0 <= i < n && flags[i] == want && names[i] == x by {
            if r.contains(x) {
                let j = choose|j: int| 0 <= j < r.len() && r[j] == x;
                if flags[n - 1] == want && j == r.len() - 1 {
                    assert(flags[n - 1] == want && names[n - 1] == x);
                } else {
                    assert(rest[j] == x);
                    assert(rest.contains(x));
                }
            }
            if exists|i: int| 0 <= i < n && flags[i] == want && names[i] == x {
                let i = choose|i: int| 0 <= i < n && flags[i] == want && names[i] == x;
                if i == n - 1 {
                    assert(r[r.len() - 1] == x);
                } else {
                    assert(rest.contains(x));
                    let j = choose|j: int| 0 <= j < rest.len() && rest[j] == x;
                    assert(r[j] == x);
                }
            }
        }
    }
}

/// A plugin loads as a master when its extension is `.esm` (in any ASCII case) or when the
/// header of some plugin declares it as a master, whatever its own extension; otherwise not.
pub proof fn law_master_when_esm_or_declared(header_masters: Seq<Seq<String>>, name: Seq<char>, k: int, j: int)
    ensures
        (extension(name) matches Some(e) && eq_ignore_ascii_case(e, "esm"@)) ==> loads_as_master(header_masters, name),
        (0 <= k < header_masters.len() && 0 <= j < header_masters[k].len() && eq_ignore_ascii_case(header_masters[k][j]@, name))
            ==> loads_as_master(header_masters, name),
        (!(extension(name) matches Some(e) && eq_ignore_ascii_case(e, "esm"@))
            && forall|a: int, b: int| 0 <= a < header_masters.len() && 0 <= b < header_masters[a].len()
                ==> !eq_ignore_ascii_case(#[trigger] header_masters[a][b]@, name)) ==> !loads_as_master(header_masters, name),
{
}

/// Splits the load order `names` into the masters (whose flag in `is_master` is set) and the
/// other plugins, each in load order.
pub fn split_masters(names: &Vec<String>, is_master: &Vec<bool>) -> (r: (Vec<String>, Vec<String>))
    requires
        is_master@.len() == names@.len(),
    ensures
        texts(r.0@) == names_flagged(texts(names@), is_master@, true, names@.len() as int),
        texts(r.1@) == names_flagged(texts(names@), is_master@, false, names@.len() as int),
{
    let ghost nv = texts(names@);
    let mut masters: Vec<String> = Vec::new();
    let mut plugins: Vec<String> = Vec::new();
    let mut i: usize = 0;
    while i < names.len()
        invariant
            nv == texts(names@),
            is_master@.len() == names@.len(),
            0 <= i <= names@.len(),
            texts(masters@) == names_flagged(nv, is_master@, true, i as int),
            texts(plugins@) == names_flagged(nv, is_master@, false, i as int),
        decreases names@.len() - i,
    {
        let n = names[i].clone();
        proof {
            assert(nv[i as int] == n@);
        }
        if is_master[i] {
            proof {
                assert(texts(masters@.push(n)) =~= texts(masters@).push(n@));
            }
            masters.push(n);
        } else {
            proof {
                assert(texts(plugins@.push(n)) =~= texts(plugins@).push(n@));
            }
            plugins.push(n);
        }
        i += 1;
    }
    (masters, plugins)
}

/// The names of `s`, each kept at its first occurrence, in order.
pub open spec fn first_occurrences(s: Seq<Seq<char>>) -> Seq<Seq<char>>
    decreases s.len(),
{
    if s.len() == 0 {
        Seq::empty()
    } else {
        let d = first_occurrences(s.drop_last());
        if d.contains(s.last()) {
            d
        } else {
            d.push(s.last())
        }
    }
}

fn contains_name(v: &Vec<String>, name: &String) -> (b: bool)
    ensures
        b == texts(v@).contains(name@),
{
    let mut i: usize = 0;
    while i < v.len()
        invariant
            0 <= i <= v@.len(),
            forall|j: int| 0 <= j < i ==> texts(v@)[j] != name@,
        decreases v@.len() - i,
    {
        if crate::text::same_text(&v[i], name) {
            proof {
                assert(texts(v@)[i as int] == name@);
            }
            return true;
        }
        i += 1;
    }
    false
}

/// The plugins that the merged plugin depends on, each once: the plugins that contribute
/// textures (`texture_plugins`) and those that contribute land (`land_plugins`), in the order
/// in which they first appear. They are sorted into load order before being written as masters.
pub fn plugin_dependencies(texture_plugins: &Vec<String>, land_plugins: &Vec<String>) -> (r: Vec<String>)
    ensures
        texts(r@) == first_occurrences(texts(texture_plugins@) + texts(land_plugins@)),
{
    let ghost all = texts(texture_plugins@) + texts(land_plugins@);
    let ghost t = texture_plugins@.len();
    let mut r: Vec<String> = Vec::new();
    proof {
        assert(all.take(0) =~= Seq::<Seq<char>>::empty());
    }
    let mut i: usize = 0;
    while i < texture_plugins.len()
        invariant
            all == texts(texture_plugins@) + texts(land_plugins@),
            t == texture_plugins@.len(),
            0 <= i <= t,
            texts(r@) == first_occurrences(all.take(i as int)),
        decreases t - i,
    {
        let name = &texture_plugins[i];
        proof {
            assert(all[i as int] == name@);
            assert(all.take(i + 1).drop_last() =~= all.take(i as int));
        }
        if !contains_name(&r, name) {
            let c = name.clone();
            proof {
                assert(texts(r@.push(c)) =~= texts(r@).push(c@));
            }
            r.push(c);
        }
        i += 1;
    }
    let mut j: usize = 0;
    while j < land_plugins.len()
        invariant
            all == texts(texture_plugins@) + texts(land_plugins@),
            t == texture_plugins@.len(),
            0 <= j <= land_plugins@.len(),
            texts(r@) == first_occurrences(all.take(t + j as int)),
        decreases land_plugins@.len() - j,
    {
        let name = &land_plugins[j];
        proof {
            assert(all[t + j as int] == name@);
            assert(all.take(t + j + 1).drop_last() =~= all.take(t + j as int));
        }
        if !contains_name(&r, name) {
            let c = name.clone();
            proof {
                assert(texts(r@.push(c)) =~= texts(r@).push(c@));
            }
            r.push(c);
        }
        j += 1;
    }
    proof {
        assert(all.take(t + land_plugins@.len() as int) =~= all);
    }
    r
}

} // verus!
