use crate::config::configuration::{
    file_of, here, named_file, LoadErr, load_entry_effect, load_line_effect, load_lines_effect, meta_of, not_encoding, pushed, settings_text,
    setting_text, FileKind, LoadState, SettingView,
};
use crate::config::setting::{dir_setting, encoding_name, encoding_named, split_game_setting, DirsView};
use crate::text::{
    first_index_of, is_ws, lemma_first_index_at, lemma_lines_append, lemma_one_line, lemma_trimmed_edges,
    lemma_trimmed_self, lines_from, strip_cr, text_lines, trimmed,
};
use vstd::prelude::*;

verus! {

/// `s` holds no `c`.
pub open spec fn free_of(s: Seq<char>, c: char) -> bool {
    forall|j: int| 0 <= j < s.len() ==> s[j] != c
}

/// `s` is a single line that reads back as itself: no line break, and no white space at
/// either end.
pub open spec fn clean_value(s: Seq<char>) -> bool {
    free_of(s, '\n') && trimmed(s) == s
}

/// A line of a comment block that reads back as itself: empty (a blank line), or a line whose
/// trimmed form starts with `#`, without a line break or a `\r` at its end.
pub open spec fn comment_line_ok(l: Seq<char>) -> bool {
    &&& free_of(l, '\n')
    &&& (l.len() == 0 || (trimmed(l).len() > 0 && trimmed(l)[0] == '#'))
    &&& !(l.len() > 0 && l.last() == '\r')
}

/// A comment block that reads back as itself: a sequence of good comment lines, each ended by
/// `\n`.
pub open spec fn comment_ok(c: Seq<char>) -> bool
    decreases c.len(),
{
    if c.len() == 0 {
        true
    } else {
        match first_index_of(c, '\n') {
            None => false,
            Some(i) => {
                if 0 <= i < c.len() {
                    comment_line_ok(c.take(i)) && comment_ok(c.skip(i + 1))
                } else {
                    false
                }
            },
        }
    }
}

/// The keys that `openmw.cfg` gives a meaning of their own.
pub open spec fn special_key(k: Seq<char>) -> bool {
    ||| k == "content"@
    ||| k == "groundcover"@
    ||| k == "fallback-archive"@
    ||| k == "fallback"@
    ||| k == "encoding"@
    ||| k == "config"@
    ||| k == "data"@
    ||| k == "resources"@
    ||| k == "user-data"@
    ||| k == "data-local"@
    ||| k == "replace"@
}

/// The key of the line that writes `v`.
pub open spec fn line_key(v: SettingView) -> Seq<char> {
    match v {
        SettingView::Encoding(_) => "encoding"@,
        SettingView::UserData(_) => "user-data"@,
        SettingView::DataLocal(_) => "data-local"@,
        SettingView::Resources(_) => "resources"@,
        SettingView::GameSetting(_) => "fallback"@,
        SettingView::DataDirectory(_) => "data"@,
        SettingView::SubConfiguration(_) => "config"@,
        SettingView::Generic(g) => g.key,
        SettingView::ContentFile(_) => "content"@,
        SettingView::BethArchive(_) => "fallback-archive"@,
        SettingView::Groundcover(_) => "groundcover"@,
    }
}

/// The value of the line that writes `v`.
pub open spec fn line_value(v: SettingView) -> Seq<char> {
    match v {
        SettingView::Encoding(e) => encoding_name(e.value),
        SettingView::UserData(d) => d.original,
        SettingView::DataLocal(d) => d.original,
        SettingView::Resources(d) => d.original,
        SettingView::GameSetting(g) => g.key + ","@ + g.value,
        SettingView::DataDirectory(d) => d.original,
        SettingView::SubConfiguration(d) => d.original,
        SettingView::Generic(g) => g.value,
        SettingView::ContentFile(f) => f.value,
        SettingView::BethArchive(f) => f.value,
        SettingView::Groundcover(f) => f.value,
    }
}

/// The `key=value` line that writes `v`, without its comment block and line break.
pub open spec fn setting_line(v: SettingView) -> Seq<char> {
    line_key(v) + "="@ + line_value(v)
}

/// The setting `v`, read from the configuration file `dir` with the tokens `dirs`, reads back
/// as itself when written: it came from `dir`, its comment block and values are single clean
/// lines, a directory entry holds what its text resolves to, a game setting's key has no `,`,
/// and a generic key is none of the keys with a meaning of their own.
pub open spec fn writable(v: SettingView, dir: Seq<char>, dirs: DirsView) -> bool {
    &&& meta_of(v).source_config == dir
    &&& comment_ok(meta_of(v).comment)
    &&& match v {
        SettingView::ContentFile(f) => clean_value(f.value),
        SettingView::BethArchive(f) => clean_value(f.value),
        SettingView::Groundcover(f) => clean_value(f.value),
        SettingView::GameSetting(g) => clean_value(g.key + ","@ + g.value) && free_of(g.key, ','),
        SettingView::Generic(g) => {
            &&& clean_value(g.key)
            &&& clean_value(g.value)
            &&& free_of(g.key, '=')
            &&& !special_key(g.key)
            &&& !(g.key.len() > 0 && g.key[0] == '#')
        },
        SettingView::Encoding(_) => true,
        SettingView::DataDirectory(d) => clean_value(d.original) && d == dir_setting(d.original, dir, d.meta.comment, dirs),
        SettingView::Resources(d) => clean_value(d.original) && d == dir_setting(d.original, dir, d.meta.comment, dirs),
        SettingView::UserData(d) => clean_value(d.original) && d == dir_setting(d.original, dir, d.meta.comment, dirs),
        SettingView::DataLocal(d) => clean_value(d.original) && d == dir_setting(d.original, dir, d.meta.comment, dirs),
        SettingView::SubConfiguration(d) => clean_value(d.original),
    }
}

/// No file name appears twice for one kind of entry, and there is at most one `encoding=`.
pub open spec fn no_repeats(s: Seq<SettingView>) -> bool {
    &&& forall|i: int, j: int, k: FileKind|
        0 <= i < j < s.len() && #[trigger] file_of(s[i], k) is Some && #[trigger] file_of(s[j], k) is Some
            ==> file_of(s[i], k)->0.value != file_of(s[j], k)->0.value
    &&& forall|i: int, j: int| 0 <= i < j < s.len() ==> !(#[trigger] s[i] is Encoding && #[trigger] s[j] is Encoding)
}

/// What reading the written settings `s` gives: each setting in order, except that a
/// `config=` entry becomes a pending entry (its text and comment) of the chain.
pub open spec fn reloaded(s: Seq<SettingView>) -> LoadState
    decreases s.len(),
{
    if s.len() == 0 {
        LoadState { settings: Seq::empty(), comment: Seq::empty(), subs: Seq::empty() }
    } else {
        let st = reloaded(s.drop_last());
        match s.last() {
            SettingView::SubConfiguration(d) => LoadState {
                settings: st.settings,
                comment: Seq::empty(),
                subs: st.subs.push((d.original, d.meta.comment)),
            },
            v => LoadState { settings: st.settings.push(v), comment: Seq::empty(), subs: st.subs },
        }
    }
}

/// Reading lines one after the other is reading the first lines and then the rest.
proof fn lemma_effect_append(st: LoadState, a: Seq<Seq<char>>, b: Seq<Seq<char>>, dir: Seq<char>, dirs: DirsView)
    ensures
        load_lines_effect(st, a + b, dir, dirs) == match load_lines_effect(st, a, dir, dirs) {
            Ok(mid) => load_lines_effect(mid, b, dir, dirs),
            Err(e) => Err(e),
        },
    decreases a.len(),
{
    if a.len() == 0 {
        assert(a + b =~= b);
    } else {
        assert((a + b)[0] == a[0]);
        assert((a + b).drop_first() =~= a.drop_first() + b);
        match load_line_effect(st, a[0], dir, dirs) {
            Ok(next) => lemma_effect_append(next, a.drop_first(), b, dir, dirs),
            Err(_) => {},
        }
    }
}

/// The settings read so far come from the settings written.
proof fn lemma_reloaded_members(s: Seq<SettingView>)
    ensures
        reloaded(s).comment == Seq::<char>::empty(),
        forall|t: int| 0 <= t < reloaded(s).settings.len() ==> exists|i: int| 0 <= i < s.len() && s[i] == #[trigger] reloaded(s).settings[t],
    decreases s.len(),
{
    if s.len() > 0 {
        let p = s.drop_last();
        lemma_reloaded_members(p);
        assert forall|t: int| 0 <= t < reloaded(s).settings.len() implies exists|i: int| 0 <= i < s.len() && s[i] == #[trigger] reloaded(s).settings[t] by {
            if t < reloaded(p).settings.len() {
                assert(reloaded(s).settings[t] == reloaded(p).settings[t]);
                let i = choose|i: int| 0 <= i < p.len() && p[i] == reloaded(p).settings[t];
                assert(s[i] == p[i]);
            } else {
                assert(reloaded(s).settings[t] == s.last());
                assert(s[s.len() - 1] == s.last());
            }
        }
    }
}

/// A comment block splits at its first line break into its first line and the rest.
proof fn lemma_comment_split(c: Seq<char>) -> (i: int)
    requires
        comment_ok(c),
        c.len() > 0,
    ensures
        0 <= i < c.len(),
        c[i] == '\n',
        comment_line_ok(c.take(i)),
        comment_ok(c.skip(i + 1)),
        c =~= c.take(i).push('\n') + c.skip(i + 1),
{
    let i = first_index_of(c, '\n')->0;
    assert(exists|k: int| 0 <= k < c.len() && c[k] == '\n' && forall|j: int| 0 <= j < k ==> c[j] != '\n');
    i
}

/// A comment block is empty or ends with a line break.
proof fn lemma_comment_ends(c: Seq<char>)
    requires
        comment_ok(c),
        c.len() > 0,
    ensures
        c.last() == '\n',
    decreases c.len(),
{
    let i = lemma_comment_split(c);
    let rest = c.skip(i + 1);
    if rest.len() > 0 {
        lemma_comment_ends(rest);
        assert(c.last() == rest.last());
    }
}

/// Reading the lines of a comment block adds the block to the queued comment.
proof fn lemma_comment_effect(st: LoadState, c: Seq<char>, dir: Seq<char>, dirs: DirsView)
    requires
        comment_ok(c),
    ensures
        load_lines_effect(st, text_lines(c), dir, dirs)
            == Ok::<LoadState, crate::config::configuration::LoadErr>(LoadState { settings: st.settings, comment: st.comment + c, subs: st.subs }),
    decreases c.len(),
{
    if c.len() == 0 {
        assert(st.comment + c =~= st.comment);
        assert(text_lines(c) =~= Seq::<Seq<char>>::empty());
        assert(LoadState { settings: st.settings, comment: st.comment + c, subs: st.subs } == st);
    } else {
        let i = lemma_comment_split(c);
        let l = c.take(i);
        let rest = c.skip(i + 1);
        lemma_lines_append(l.push('\n'), rest, Seq::empty());
        lemma_one_line(l, Seq::empty());
        assert(Seq::<char>::empty() + l =~= l);
        assert(strip_cr(l) == l);
        assert(text_lines(c) =~= seq![l] + text_lines(rest));
        let next = LoadState { settings: st.settings, comment: st.comment + l.push('\n'), subs: st.subs };
        if l.len() == 0 {
            lemma_trimmed_self(l);
            assert(st.comment.push('\n') =~= st.comment + l.push('\n'));
        }
        assert(load_line_effect(st, l, dir, dirs) == Ok::<LoadState, crate::config::configuration::LoadErr>(next));
        lemma_effect_append(st, seq![l], text_lines(rest), dir, dirs);
        assert(seq![l].drop_first() =~= Seq::<Seq<char>>::empty());
        assert(load_lines_effect(next, seq![l].drop_first(), dir, dirs) == Ok::<LoadState, crate::config::configuration::LoadErr>(next));
        assert(load_lines_effect(st, seq![l], dir, dirs) == Ok::<LoadState, crate::config::configuration::LoadErr>(next));
        lemma_comment_effect(next, rest, dir, dirs);
        assert(st.comment + l.push('\n') + rest =~= st.comment + c);
        assert(load_lines_effect(st, text_lines(c), dir, dirs) == load_lines_effect(next, text_lines(rest), dir, dirs));
    }
}

/// The state after reading the line that writes `v`.
pub open spec fn step(st: LoadState, v: SettingView) -> LoadState {
    match v {
        SettingView::SubConfiguration(d) => LoadState { settings: st.settings, comment: Seq::empty(), subs: st.subs.push((d.original, st.comment)) },
        _ => pushed(st, v),
    }
}

/// The parts in which a `key=value` line reads.
proof fn lemma_line_parts(key: Seq<char>, value: Seq<char>)
    requires
        free_of(key, '='),
        free_of(key, '\n'),
        trimmed(key) == key,
        clean_value(value),
        !(key.len() > 0 && key[0] == '#'),
    ensures
        ({
            let line = key + "="@ + value;
            &&& trimmed(line) == line
            &&& line.len() > 0
            &&& line[0] != '#'
            &&& first_index_of(line, '=') == Some(key.len() as int)
            &&& trimmed(line.subrange(0, key.len() as int)) == key
            &&& trimmed(line.subrange(key.len() as int + 1, line.len() as int)) == value
            &&& free_of(line, '\n')
            &&& line.last() != '\r'
        }),
{
    reveal_strlit("=");
    let line = key + "="@ + value;
    assert(line[key.len() as int] == '=');
    if key.len() > 0 {
        lemma_trimmed_edges(key);
        assert(line[0] == key[0]);
    }
    if value.len() > 0 {
        lemma_trimmed_edges(value);
        assert(line.last() == value.last());
    }
    lemma_trimmed_self(line);
    assert forall|j: int| 0 <= j < key.len() implies line[j] != '=' by {
        assert(line[j] == key[j]);
    }
    lemma_first_index_at(line, '=', key.len() as int);
    assert(line.subrange(0, key.len() as int) =~= key);
    assert(line.subrange(key.len() as int + 1, line.len() as int) =~= value);
    assert forall|j: int| 0 <= j < line.len() implies line[j] != '\n' by {
        if j < key.len() {
            assert(line[j] == key[j]);
        } else if j > key.len() {
            assert(line[j] == value[j - key.len() - 1]);
        }
    }
}

/// A key written as a literal reads as a key.
proof fn lemma_literal_key(key: Seq<char>)
    requires
        key.len() > 0,
        !is_ws(key[0]),
        !is_ws(key.last()),
        free_of(key, '='),
        free_of(key, '\n'),
        key[0] != '#',
    ensures
        trimmed(key) == key,
{
    lemma_trimmed_self(key);
}

/// With no `encoding=` entry, removing them changes nothing.
proof fn lemma_no_encoding_filter(s: Seq<SettingView>)
    requires
        forall|i: int| 0 <= i < s.len() ==> !(#[trigger] s[i] is Encoding),
    ensures
        s.filter(|v: SettingView| not_encoding(v)) == s,
    decreases s.len(),
{
    reveal(Seq::filter);
    if s.len() > 0 {
        lemma_no_encoding_filter(s.drop_last());
        assert(s.drop_last().push(s.last()) =~= s);
    }
}

/// The text that writes a setting is its comment block, its line and a line break.
proof fn lemma_setting_text_split(v: SettingView)
    ensures
        setting_text(v) == meta_of(v).comment + setting_line(v) + "\n"@,
{
    reveal_strlit("=");
    reveal_strlit(",");
    reveal_strlit("\n");
    reveal_strlit("encoding");
    reveal_strlit("encoding=");
    reveal_strlit("user-data");
    reveal_strlit("user-data=");
    reveal_strlit("data-local");
    reveal_strlit("data-local=");
    reveal_strlit("resources");
    reveal_strlit("resources=");
    reveal_strlit("fallback");
    reveal_strlit("fallback=");
    reveal_strlit("data");
    reveal_strlit("data=");
    reveal_strlit("config");
    reveal_strlit("config=");
    reveal_strlit("content");
    reveal_strlit("content=");
    reveal_strlit("fallback-archive");
    reveal_strlit("fallback-archive=");
    reveal_strlit("groundcover");
    reveal_strlit("groundcover=");
    match v {
        SettingView::Encoding(e) => {
            assert(setting_text(v) =~= meta_of(v).comment + setting_line(v) + "\n"@);
        },
        SettingView::UserData(d) => {
            assert(setting_text(v) =~= meta_of(v).comment + setting_line(v) + "\n"@);
        },
        SettingView::DataLocal(d) => {
            assert(setting_text(v) =~= meta_of(v).comment + setting_line(v) + "\n"@);
        },
        SettingView::Resources(d) => {
            assert(setting_text(v) =~= meta_of(v).comment + setting_line(v) + "\n"@);
        },
        SettingView::GameSetting(g) => {
            assert(setting_text(v) =~= meta_of(v).comment + setting_line(v) + "\n"@);
        },
        SettingView::DataDirectory(d) => {
            assert(setting_text(v) =~= meta_of(v).comment + setting_line(v) + "\n"@);
        },
        SettingView::SubConfiguration(d) => {
            assert(setting_text(v) =~= meta_of(v).comment + setting_line(v) + "\n"@);
        },
        SettingView::Generic(g) => {
            assert(setting_text(v) =~= meta_of(v).comment + setting_line(v) + "\n"@);
        },
        SettingView::ContentFile(f) => {
            assert(setting_text(v) =~= meta_of(v).comment + setting_line(v) + "\n"@);
        },
        SettingView::BethArchive(f) => {
            assert(setting_text(v) =~= meta_of(v).comment + setting_line(v) + "\n"@);
        },
        SettingView::Groundcover(f) => {
            assert(setting_text(v) =~= meta_of(v).comment + setting_line(v) + "\n"@);
        },
    }
}

/// The line that writes a writable setting reads as its key and value.
proof fn lemma_line_reads(st: LoadState, v: SettingView, dir: Seq<char>, dirs: DirsView)
    requires
        writable(v, dir, dirs),
    ensures
        load_line_effect(st, setting_line(v), dir, dirs) == load_entry_effect(st, line_key(v), line_value(v), dir, dirs),
        free_of(setting_line(v), '\n'),
        setting_line(v).len() > 0,
        setting_line(v).last() != '\r',
{
    reveal_strlit("encoding");
    reveal_strlit("user-data");
    reveal_strlit("data-local");
    reveal_strlit("resources");
    reveal_strlit("fallback");
    reveal_strlit("data");
    reveal_strlit("config");
    reveal_strlit("content");
    reveal_strlit("fallback-archive");
    reveal_strlit("groundcover");
    let key = line_key(v);
    let value = line_value(v);
    match v {
        SettingView::Generic(g) => {},
        _ => {
            lemma_literal_key(key);
        },
    }
    match v {
        SettingView::Encoding(e) => {
            lemma_trimmed_self(value);
        },
        _ => {},
    }
    lemma_line_parts(key, value);
}

/// The keys with a meaning of their own are different from each other.
proof fn lemma_keys_distinct()
    ensures
        "groundcover"@ != "content"@,
        "fallback-archive"@ != "content"@,
        "fallback-archive"@ != "groundcover"@,
        "fallback"@ != "content"@,
        "fallback"@ != "groundcover"@,
        "fallback"@ != "fallback-archive"@,
        "encoding"@ != "content"@,
        "encoding"@ != "groundcover"@,
        "encoding"@ != "fallback-archive"@,
        "encoding"@ != "fallback"@,
        "config"@ != "content"@,
        "config"@ != "groundcover"@,
        "config"@ != "fallback-archive"@,
        "config"@ != "fallback"@,
        "config"@ != "encoding"@,
        "data"@ != "content"@,
        "data"@ != "groundcover"@,
        "data"@ != "fallback-archive"@,
        "data"@ != "fallback"@,
        "data"@ != "encoding"@,
        "data"@ != "config"@,
        "resources"@ != "content"@,
        "resources"@ != "groundcover"@,
        "resources"@ != "fallback-archive"@,
        "resources"@ != "fallback"@,
        "resources"@ != "encoding"@,
        "resources"@ != "config"@,
        "resources"@ != "data"@,
        "user-data"@ != "content"@,
        "user-data"@ != "groundcover"@,
        "user-data"@ != "fallback-archive"@,
        "user-data"@ != "fallback"@,
        "user-data"@ != "encoding"@,
        "user-data"@ != "config"@,
        "user-data"@ != "data"@,
        "user-data"@ != "resources"@,
        "data-local"@ != "content"@,
        "data-local"@ != "groundcover"@,
        "data-local"@ != "fallback-archive"@,
        "data-local"@ != "fallback"@,
        "data-local"@ != "encoding"@,
        "data-local"@ != "config"@,
        "data-local"@ != "data"@,
        "data-local"@ != "resources"@,
        "data-local"@ != "user-data"@,
        "replace"@ != "content"@,
        "replace"@ != "groundcover"@,
        "replace"@ != "fallback-archive"@,
        "replace"@ != "fallback"@,
        "replace"@ != "encoding"@,
        "replace"@ != "config"@,
        "replace"@ != "data"@,
        "replace"@ != "resources"@,
        "replace"@ != "user-data"@,
        "replace"@ != "data-local"@,
{
    reveal_strlit("content");
    assert("content"@.len() == 7);
    assert("content"@[0] == 'c');
    reveal_strlit("groundcover");
    assert("groundcover"@.len() == 11);
    assert("groundcover"@[0] == 'g');
    reveal_strlit("fallback-archive");
    assert("fallback-archive"@.len() == 16);
    assert("fallback-archive"@[0] == 'f');
    reveal_strlit("fallback");
    assert("fallback"@.len() == 8);
    assert("fallback"@[0] == 'f');
    reveal_strlit("encoding");
    assert("encoding"@.len() == 8);
    assert("encoding"@[0] == 'e');
    reveal_strlit("config");
    assert("config"@.len() == 6);
    assert("config"@[0] == 'c');
    reveal_strlit("data");
    assert("data"@.len() == 4);
    assert("data"@[0] == 'd');
    reveal_strlit("resources");
    assert("resources"@.len() == 9);
    assert("resources"@[0] == 'r');
    reveal_strlit("user-data");
    assert("user-data"@.len() == 9);
    assert("user-data"@[0] == 'u');
    reveal_strlit("data-local");
    assert("data-local"@.len() == 10);
    assert("data-local"@[0] == 'd');
    reveal_strlit("replace");
    assert("replace"@.len() == 7);
    assert("replace"@[0] == 'r');
    assert("groundcover"@ != "content"@);
    assert("fallback-archive"@ != "content"@);
    assert("fallback-archive"@ != "groundcover"@);
    assert("fallback"@ != "content"@);
    assert("fallback"@ != "groundcover"@);
    assert("fallback"@ != "fallback-archive"@);
    assert("encoding"@ != "content"@);
    assert("encoding"@ != "groundcover"@);
    assert("encoding"@ != "fallback-archive"@);
    assert("encoding"@ != "fallback"@);
    assert("config"@ != "content"@);
    assert("config"@ != "groundcover"@);
    assert("config"@ != "fallback-archive"@);
    assert("config"@ != "fallback"@);
    assert("config"@ != "encoding"@);
    assert("data"@ != "content"@);
    assert("data"@ != "groundcover"@);
    assert("data"@ != "fallback-archive"@);
    assert("data"@ != "fallback"@);
    assert("data"@ != "encoding"@);
    assert("data"@ != "config"@);
    assert("resources"@ != "content"@);
    assert("resources"@ != "groundcover"@);
    assert("resources"@ != "fallback-archive"@);
    assert("resources"@ != "fallback"@);
    assert("resources"@ != "encoding"@);
    assert("resources"@ != "config"@);
    assert("resources"@ != "data"@);
    assert("user-data"@ != "content"@);
    assert("user-data"@ != "groundcover"@);
    assert("user-data"@ != "fallback-archive"@);
    assert("user-data"@ != "fallback"@);
    assert("user-data"@ != "encoding"@);
    assert("user-data"@ != "config"@);
    assert("user-data"@ != "data"@);
    assert("user-data"@ != "resources"@);
    assert("data-local"@ != "content"@);
    assert("data-local"@ != "groundcover"@);
    assert("data-local"@ != "fallback-archive"@);
    assert("data-local"@ != "fallback"@);
    assert("data-local"@ != "encoding"@);
    assert("data-local"@ != "config"@);
    assert("data-local"@ != "data"@);
    assert("data-local"@ != "resources"@);
    assert("data-local"@ != "user-data"@);
    assert("replace"@ != "content"@);
    assert("replace"@ != "groundcover"@);
    assert("replace"@ != "fallback-archive"@);
    assert("replace"@ != "fallback"@);
    assert("replace"@ != "encoding"@);
    assert("replace"@ != "config"@);
    assert("replace"@ != "data"@);
    assert("replace"@ != "resources"@);
    assert("replace"@ != "user-data"@);
    assert("replace"@ != "data-local"@);
}

/// Reading the key and value of a writable setting from the state in which its comment block
/// is queued gives the state with that setting added, when it repeats no file name read
/// before and, for `encoding=`, no encoding was read before.
proof fn lemma_entry_reads(st: LoadState, v: SettingView, dir: Seq<char>, dirs: DirsView)
    requires
        writable(v, dir, dirs),
        st.comment == meta_of(v).comment,
        forall|k: FileKind, i: int| 0 <= i < st.settings.len() && #[trigger] file_of(v, k) is Some
            ==> !named_file(#[trigger] st.settings[i], k, file_of(v, k)->0.value),
        v is Encoding ==> forall|i: int| 0 <= i < st.settings.len() ==> !(#[trigger] st.settings[i] is Encoding),
    ensures
        load_entry_effect(st, line_key(v), line_value(v), dir, dirs) == Ok::<LoadState, LoadErr>(step(st, v)),
{
    lemma_keys_distinct();
    reveal_strlit("encoding");
    reveal_strlit("user-data");
    reveal_strlit("data-local");
    reveal_strlit("resources");
    reveal_strlit("fallback");
    reveal_strlit("data");
    reveal_strlit("config");
    reveal_strlit("content");
    reveal_strlit("fallback-archive");
    reveal_strlit("groundcover");
    reveal_strlit("replace");
    reveal_strlit(",");
    match v {
        SettingView::ContentFile(f) => {
            assert(file_of(v, FileKind::Content) is Some);
            assert(!exists|i: int| 0 <= i < st.settings.len() && named_file(st.settings[i], FileKind::Content, f.value));
            assert(f.meta == here(st, dir));
        },
        SettingView::Groundcover(f) => {
            assert(file_of(v, FileKind::Groundcover) is Some);
            assert(!exists|i: int| 0 <= i < st.settings.len() && named_file(st.settings[i], FileKind::Groundcover, f.value));
            assert(f.meta == here(st, dir));
        },
        SettingView::BethArchive(f) => {
            assert(file_of(v, FileKind::Archive) is Some);
            assert(!exists|i: int| 0 <= i < st.settings.len() && named_file(st.settings[i], FileKind::Archive, f.value));
            assert(f.meta == here(st, dir));
        },
        SettingView::GameSetting(g) => {
            let kv = g.key + ","@ + g.value;
            assert(kv[g.key.len() as int] == ',');
            assert forall|j: int| 0 <= j < g.key.len() implies kv[j] != ',' by {
                assert(kv[j] == g.key[j]);
            }
            lemma_first_index_at(kv, ',', g.key.len() as int);
            assert(kv.subrange(0, g.key.len() as int) =~= g.key);
            assert(kv.subrange(g.key.len() as int + 1, kv.len() as int) =~= g.value);
        },
        SettingView::Encoding(e) => {
            lemma_no_encoding_filter(st.settings);
        },
        _ => {},
    }
}

/// The text that writes settings is empty or ends with a line break.
proof fn lemma_settings_text_ends(s: Seq<SettingView>)
    ensures
        settings_text(s).len() == 0 || settings_text(s).last() == '\n',
    decreases s.len(),
{
    if s.len() > 0 {
        lemma_setting_text_split(s.last());
        reveal_strlit("\n");
        let t = meta_of(s.last()).comment + setting_line(s.last()) + "\n"@;
        assert(t.last() == '\n');
        assert((settings_text(s.drop_last()) + t).last() == '\n');
    }
}

/// The lines of the text that writes a writable setting: those of its comment block, then its
/// line.
proof fn lemma_setting_lines(v: SettingView, dir: Seq<char>, dirs: DirsView)
    requires
        writable(v, dir, dirs),
    ensures
        text_lines(setting_text(v)) == text_lines(meta_of(v).comment) + seq![setting_line(v)],
{
    reveal_strlit("\n");
    lemma_setting_text_split(v);
    lemma_line_reads(LoadState { settings: Seq::empty(), comment: Seq::empty(), subs: Seq::empty() }, v, dir, dirs);
    let c = meta_of(v).comment;
    let line = setting_line(v);
    assert(c + line + "\n"@ =~= c + line.push('\n'));
    lemma_one_line(line, Seq::empty());
    assert(Seq::<char>::empty() + line =~= line);
    assert(strip_cr(line) == line);
    if c.len() > 0 {
        lemma_comment_ends(c);
        lemma_lines_append(c, line.push('\n'), Seq::empty());
    } else {
        assert(c + line.push('\n') =~= line.push('\n'));
        assert(text_lines(c) =~= Seq::<Seq<char>>::empty());
        assert(text_lines(c) + seq![line] =~= seq![line]);
    }
}

/// Law (round trip of the text of a configuration file): writing settings that came from the
/// configuration file `dir` as `openmw.cfg` text and reading that text back as the file `dir`
/// gives back the same settings, comments included, in the same order; a `config=` entry
/// comes back as a pending entry of the chain. This holds for settings whose texts are single
/// lines without surrounding white space, whose comments are blank or `#` lines, with no file
/// name repeated for one kind and at most one `encoding=`; directory entries must hold what
/// their text resolves to, game setting keys no `,`, and generic keys none of the keys with a
/// meaning of their own.
pub proof fn law_written_settings_read_back(s: Seq<SettingView>, dir: Seq<char>, dirs: DirsView)
    requires
        forall|i: int| 0 <= i < s.len() ==> writable(#[trigger] s[i], dir, dirs),
        no_repeats(s),
    ensures
        load_lines_effect(
            LoadState { settings: Seq::empty(), comment: Seq::empty(), subs: Seq::empty() },
            text_lines(settings_text(s)),
            dir,
            dirs,
        ) == Ok::<LoadState, LoadErr>(reloaded(s)),
    decreases s.len(),
{
    let st0 = LoadState { settings: Seq::empty(), comment: Seq::empty(), subs: Seq::empty() };
    if s.len() == 0 {
        assert(text_lines(settings_text(s)) =~= Seq::<Seq<char>>::empty());
    } else {
        let p = s.drop_last();
        let v = s.last();
        let j = s.len() - 1;
        assert(v == s[j]);
        assert forall|i: int| 0 <= i < p.len() implies writable(#[trigger] p[i], dir, dirs) by {
            assert(p[i] == s[i]);
        }
        assert forall|a: int, b: int, k: FileKind|
            0 <= a < b < p.len() && #[trigger] file_of(p[a], k) is Some && #[trigger] file_of(p[b], k) is Some
                implies file_of(p[a], k)->0.value != file_of(p[b], k)->0.value by {
            assert(p[a] == s[a] && p[b] == s[b]);
        }
        assert forall|a: int, b: int| 0 <= a < b < p.len() implies !(#[trigger] p[a] is Encoding && #[trigger] p[b] is Encoding) by {
            assert(p[a] == s[a] && p[b] == s[b]);
        }
        law_written_settings_read_back(p, dir, dirs);
        let r = reloaded(p);
        lemma_reloaded_members(p);

        // The lines of the whole text.
        let pt = settings_text(p);
        let vt = setting_text(v);
        lemma_settings_text_ends(p);
        if pt.len() > 0 {
            lemma_lines_append(pt, vt, Seq::empty());
        } else {
            assert(pt + vt =~= vt);
            assert(text_lines(pt) =~= Seq::<Seq<char>>::empty());
            assert(text_lines(pt) + text_lines(vt) =~= text_lines(vt));
        }
        lemma_setting_lines(v, dir, dirs);
        let c = meta_of(v).comment;
        let line = setting_line(v);

        // Reading them.
        lemma_effect_append(st0, text_lines(pt), text_lines(vt), dir, dirs);
        lemma_effect_append(r, text_lines(c), seq![line], dir, dirs);
        lemma_comment_effect(r, c, dir, dirs);
        let st1 = LoadState { settings: r.settings, comment: r.comment + c, subs: r.subs };
        assert(r.comment + c =~= c);
        assert forall|k: FileKind, i: int| 0 <= i < st1.settings.len() && #[trigger] file_of(v, k) is Some
            implies !named_file(#[trigger] st1.settings[i], k, file_of(v, k)->0.value) by {
            let a = choose|a: int| 0 <= a < p.len() && p[a] == r.settings[i];
            assert(s[a] == p[a]);
            if named_file(st1.settings[i], k, file_of(v, k)->0.value) {
                assert(file_of(s[a], k) is Some);
                assert(file_of(s[j], k) is Some);
            }
        }
        if v is Encoding {
            assert forall|i: int| 0 <= i < st1.settings.len() implies !(#[trigger] st1.settings[i] is Encoding) by {
                let a = choose|a: int| 0 <= a < p.len() && p[a] == r.settings[i];
                assert(s[a] == p[a]);
                assert(!(s[a] is Encoding && s[j] is Encoding));
            }
        }
        lemma_line_reads(st1, v, dir, dirs);
        lemma_entry_reads(st1, v, dir, dirs);
        assert(seq![line].drop_first() =~= Seq::<Seq<char>>::empty());
        assert(seq![line][0] == line);
        assert(load_line_effect(st1, line, dir, dirs) == Ok::<LoadState, LoadErr>(step(st1, v)));
        assert(load_lines_effect(step(st1, v), Seq::<Seq<char>>::empty(), dir, dirs) == Ok::<LoadState, LoadErr>(step(st1, v)));
        assert(load_lines_effect(st1, seq![line], dir, dirs) == Ok::<LoadState, LoadErr>(step(st1, v)));
        assert(step(st1, v) == reloaded(s));
    }
}

} // verus!
