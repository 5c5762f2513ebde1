use crate::config::configuration::{
    load_entry_effect, load_line_effect, load_lines_effect, replaced, LoadState,
    files_in, file_of, first_named, game_of, last_game_with, latest_games, named_file, new_file, new_files, not_file_kind, with_file_added, with_file_removed, FileKind, SettingView,
};
use crate::config::setting::{DirsView, FileView, MetaView, PairView};
use vstd::prelude::*;

verus! {

/// Law: after adding a file name entry, whether the add succeeded or the name was already
/// present, an entry of that kind with that name is among the settings.
pub proof fn law_added_file_is_present(s: Seq<SettingView>, k: FileKind, name: Seq<char>, source_config: Seq<char>)
    ensures
        exists|i: int| 0 <= i < with_file_added(s, k, name, source_config).len()
            && named_file(#[trigger] with_file_added(s, k, name, source_config)[i], k, name),
{
    let after = with_file_added(s, k, name, source_config);
    match first_named(s, k, name) {
        Some(_) => {
            assert(exists|j: int| 0 <= j < s.len() && named_file(s[j], k, name));
            let j = choose|j: int| 0 <= j < s.len() && named_file(s[j], k, name);
            assert(named_file(after[j], k, name));
        },
        None => {
            let last = s.len() as int;
            assert(after[last] == new_file(name, source_config, k));
            assert(named_file(after[last], k, name));
        },
    }
}

/// Law: after removing a file name entry, no entry of that kind with that name is left.
pub proof fn law_removed_file_is_absent(s: Seq<SettingView>, k: FileKind, name: Seq<char>)
    ensures
        forall|i: int| 0 <= i < with_file_removed(s, k, name).len()
            ==> !named_file(#[trigger] with_file_removed(s, k, name)[i], k, name),
{
    broadcast use vstd::seq_lib::group_filter_ensures;
    let pred = |v: SettingView| !named_file(v, k, name);
    assert forall|i: int| 0 <= i < with_file_removed(s, k, name).len()
        implies !named_file(#[trigger] with_file_removed(s, k, name)[i], k, name) by {
        assert(pred(s.filter(pred)[i]));
    }
}

/// Filtering a sequence whose elements all satisfy the predicate changes nothing.
proof fn lemma_filter_all(s: Seq<SettingView>, pred: spec_fn(SettingView) -> bool)
    requires
        forall|i: int| 0 <= i < s.len() ==> pred(#[trigger] s[i]),
    ensures
        s.filter(pred) == s,
    decreases s.len(),
{
    reveal(Seq::filter);
    if s.len() > 0 {
        lemma_filter_all(s.drop_last(), pred);
        assert(s.drop_last().push(s.last()) =~= s);
    }
}

/// Law: removing a file name that was not present before it was added gives back the
/// settings as they were before the add.
pub proof fn law_remove_undoes_add(s: Seq<SettingView>, k: FileKind, name: Seq<char>, source_config: Seq<char>)
    requires
        first_named(s, k, name) is None,
    ensures
        with_file_removed(with_file_added(s, k, name, source_config), k, name) == s,
{
    reveal(Seq::filter);
    let pred = |v: SettingView| !named_file(v, k, name);
    let added = s.push(new_file(name, source_config, k));
    assert(added.drop_last() =~= s);
    assert(!pred(new_file(name, source_config, k)));
    assert forall|i: int| 0 <= i < s.len() implies pred(#[trigger] s[i]) by {
        if named_file(s[i], k, name) {
            assert(exists|j: int| 0 <= j < s.len() && named_file(s[j], k, name));
        }
    }
    lemma_filter_all(s, pred);
    assert(added.filter(pred) == s.filter(pred));
}

/// Law: the game setting written last is the one read back for its key.
pub proof fn law_game_setting_read_after_write(s: Seq<SettingView>, g: PairView)
    ensures
        last_game_with(s.push(SettingView::GameSetting(g)), g.key) == Some(g),
{
    let t = s.push(SettingView::GameSetting(g));
    assert(t.last() == SettingView::GameSetting(g));
}

/// The keys of a sequence of game settings.
pub open spec fn keys_of(games: Seq<PairView>) -> Seq<Seq<char>> {
    games.map_values(|p: PairView| p.key)
}

/// The last game setting with a key, looked up in a sequence with one more setting in front.
proof fn lemma_last_game_prepend(a: SettingView, t: Seq<SettingView>, key: Seq<char>)
    ensures
        last_game_with(seq![a] + t, key) == (if last_game_with(t, key) is Some {
            last_game_with(t, key)
        } else if game_of(a) matches Some(g) && g.key == key {
            game_of(a)
        } else {
            None
        }),
    decreases t.len(),
{
    let u = seq![a] + t;
    if t.len() == 0 {
        assert(u =~= seq![a]);
        assert(u.drop_last() =~= Seq::<SettingView>::empty());
    } else {
        assert(u.drop_last() =~= seq![a] + t.drop_last());
        assert(u.last() == t.last());
        lemma_last_game_prepend(a, t.drop_last(), key);
    }
}

/// A key is among the keys of the latest game settings exactly when some game setting has it.
proof fn lemma_latest_keys(s: Seq<SettingView>, key: Seq<char>)
    ensures
        keys_of(latest_games(s)).contains(key) == (last_game_with(s, key) is Some),
    decreases s.len(),
{
    if s.len() > 0 {
        let rest = s.drop_first();
        assert(s =~= seq![s[0]] + rest);
        lemma_latest_keys(rest, key);
        lemma_last_game_prepend(s[0], rest, key);
        let lr = latest_games(rest);
        match game_of(s[0]) {
            Some(g) => {
                if !keys_of(lr).contains(g.key) {
                    let ls = lr.push(g);
                    assert(keys_of(ls) =~= keys_of(lr).push(g.key));
                    if keys_of(ls).contains(key) && key != g.key {
                        let j = choose|j: int| 0 <= j < keys_of(ls).len() && keys_of(ls)[j] == key;
                        assert(keys_of(lr)[j] == key);
                    }
                    if keys_of(lr).contains(key) {
                        let j = choose|j: int| 0 <= j < keys_of(lr).len() && keys_of(lr)[j] == key;
                        assert(keys_of(ls)[j] == key);
                    }
                    if key == g.key {
                        assert(keys_of(ls)[lr.len() as int] == key);
                    }
                } else {
                    lemma_latest_keys(rest, g.key);
                }
            },
            None => {},
        }
    }
}

/// Law: the game settings listed by key hold each key once.
pub proof fn law_latest_games_unique_keys(s: Seq<SettingView>)
    ensures
        forall|i: int, j: int|
            0 <= i < j < latest_games(s).len() ==> (#[trigger] latest_games(s)[i]).key != (#[trigger] latest_games(s)[j]).key,
    decreases s.len(),
{
    if s.len() > 0 {
        let rest = s.drop_first();
        law_latest_games_unique_keys(rest);
        let lr = latest_games(rest);
        match game_of(s[0]) {
            Some(g) => {
                if !keys_of(lr).contains(g.key) {
                    let ls = lr.push(g);
                    assert forall|i: int, j: int| 0 <= i < j < ls.len() implies (#[trigger] ls[i]).key != (#[trigger] ls[j]).key by {
                        if j == lr.len() {
                            if ls[i].key == ls[j].key {
                                assert(keys_of(lr)[i] == g.key);
                            }
                        } else {
                            assert(ls[i] == lr[i] && ls[j] == lr[j]);
                        }
                    }
                }
            },
            None => {},
        }
    }
}

/// Law: each game setting listed by key is the last setting of that key (last-defined wins),
/// and every key that some game setting has is listed.
pub proof fn law_latest_games_last_wins(s: Seq<SettingView>)
    ensures
        forall|i: int| 0 <= i < latest_games(s).len()
            ==> last_game_with(s, (#[trigger] latest_games(s)[i]).key) == Some(latest_games(s)[i]),
        forall|key: Seq<char>| #[trigger] last_game_with(s, key) is Some ==> keys_of(latest_games(s)).contains(key),
    decreases s.len(),
{
    assert forall|key: Seq<char>| #[trigger] last_game_with(s, key) is Some implies keys_of(latest_games(s)).contains(key) by {
        lemma_latest_keys(s, key);
    }
    if s.len() > 0 {
        let rest = s.drop_first();
        assert(s =~= seq![s[0]] + rest);
        law_latest_games_last_wins(rest);
        let lr = latest_games(rest);
        let ls = latest_games(s);
        assert forall|i: int| 0 <= i < ls.len() implies last_game_with(s, (#[trigger] ls[i]).key) == Some(ls[i]) by {
            if i < lr.len() {
                assert(ls[i] == lr[i]);
                assert(last_game_with(rest, lr[i].key) == Some(lr[i]));
                lemma_last_game_prepend(s[0], rest, lr[i].key);
            } else {
                let g = game_of(s[0])->0;
                assert(ls[i] == g);
                assert(!keys_of(lr).contains(g.key));
                lemma_latest_keys(rest, g.key);
                lemma_last_game_prepend(s[0], rest, g.key);
            }
        }
    }
}

/// Keeping the file name entries of a concatenation keeps those of each part.
proof fn lemma_files_in_append(a: Seq<SettingView>, b: Seq<SettingView>, k: FileKind)
    ensures
        files_in(a + b, k) == files_in(a, k) + files_in(b, k),
    decreases b.len(),
{
    if b.len() == 0 {
        assert(a + b =~= a);
        assert(files_in(a, k) + files_in(b, k) =~= files_in(a, k));
    } else {
        lemma_files_in_append(a, b.drop_last(), k);
        assert((a + b).drop_last() =~= a + b.drop_last());
        assert((a + b).last() == b.last());
        match file_of(b.last(), k) {
            Some(f) => {
                assert(files_in(a, k) + files_in(b.drop_last(), k) + seq![f] =~= files_in(a, k) + (files_in(b.drop_last(), k) + seq![f]));
            },
            None => {},
        }
    }
}

/// Once the entries of kind `k` are filtered out, none is left.
proof fn lemma_files_in_cleared(s: Seq<SettingView>, k: FileKind)
    ensures
        files_in(s.filter(|v: SettingView| not_file_kind(v, k)), k) == Seq::<FileView>::empty(),
    decreases s.len(),
{
    reveal(Seq::filter);
    if s.len() > 0 {
        lemma_files_in_cleared(s.drop_last(), k);
        let pred = |v: SettingView| not_file_kind(v, k);
        let rest = s.drop_last().filter(pred);
        if pred(s.last()) {
            assert(rest.push(s.last()).drop_last() =~= rest);
        }
    }
}

/// The entries that a list of file names makes, as file name entries.
pub open spec fn listed_files(names: Seq<String>, source_config: Seq<char>) -> Seq<FileView> {
    Seq::new(names.len(), |i: int| FileView { meta: MetaView { source_config, comment: Seq::empty() }, value: names[i]@ })
}

proof fn lemma_files_in_new(names: Seq<String>, source_config: Seq<char>, k: FileKind)
    ensures
        files_in(new_files(names, source_config, k), k) == listed_files(names, source_config),
    decreases names.len(),
{
    if names.len() > 0 {
        let n = names.drop_last();
        lemma_files_in_new(n, source_config, k);
        assert(new_files(names, source_config, k).drop_last() =~= new_files(n, source_config, k));
        assert(listed_files(n, source_config) + seq![listed_files(names, source_config).last()] =~= listed_files(names, source_config));
    } else {
        assert(new_files(names, source_config, k) =~= Seq::<SettingView>::empty());
        assert(listed_files(names, source_config) =~= Seq::<FileView>::empty());
    }
}

/// Law: after replacing the file name entries of a kind by a list of names, the entries of
/// that kind are exactly the listed names, in order.
pub proof fn law_set_files_lists_exactly(s: Seq<SettingView>, names: Seq<String>, source_config: Seq<char>, k: FileKind)
    ensures
        files_in(s.filter(|v: SettingView| not_file_kind(v, k)) + new_files(names, source_config, k), k)
            == listed_files(names, source_config),
{
    let cleared = s.filter(|v: SettingView| not_file_kind(v, k));
    lemma_files_in_append(cleared, new_files(names, source_config, k), k);
    lemma_files_in_cleared(s, k);
    lemma_files_in_new(names, source_config, k);
    assert(Seq::<FileView>::empty() + listed_files(names, source_config) =~= listed_files(names, source_config));
}

/// The entry `v` names no file that an entry of `before` of the same kind already names.
pub open spec fn fresh_file(before: Seq<SettingView>, v: SettingView) -> bool {
    forall|k: FileKind| (#[trigger] file_of(v, k)) is Some ==> !(exists|i: int| 0 <= i < before.len() && named_file(before[i], k, file_of(v, k)->0.value))
}

/// No file name entry of `s` repeats the name of an earlier entry of the same kind.
pub open spec fn files_distinct(s: Seq<SettingView>) -> bool
    decreases s.len(),
{
    s.len() == 0 || (files_distinct(s.drop_last()) && fresh_file(s.drop_last(), s.last()))
}

proof fn lemma_distinct_push(s: Seq<SettingView>, v: SettingView)
    requires
        files_distinct(s),
        fresh_file(s, v),
    ensures
        files_distinct(s.push(v)),
{
    assert(s.push(v).drop_last() =~= s);
}

proof fn lemma_distinct_filter(s: Seq<SettingView>, p: spec_fn(SettingView) -> bool)
    requires
        files_distinct(s),
    ensures
        files_distinct(s.filter(p)),
    decreases s.len(),
{
    reveal(Seq::filter);
    if s.len() > 0 {
        let sub = s.drop_last();
        let x = s.last();
        lemma_distinct_filter(sub, p);
        assert(s.filter(p) == (if p(x) { sub.filter(p).push(x) } else { sub.filter(p) }));
        if p(x) {
            let f = sub.filter(p);
            assert forall|k: FileKind| (#[trigger] file_of(x, k)) is Some implies !(exists|i: int| 0 <= i < f.len() && named_file(f[i], k, file_of(x, k)->0.value)) by {
                let n = file_of(x, k)->0.value;
                if exists|i: int| 0 <= i < f.len() && named_file(f[i], k, n) {
                    let i = choose|i: int| 0 <= i < f.len() && named_file(f[i], k, n);
                    assert(f.contains(f[i]));
                    sub.lemma_filter_contains_rev(p, f[i]);
                    let j = choose|j: int| 0 <= j < sub.len() && sub[j] == f[i];
                    assert(named_file(sub[j], k, n));
                }
            }
            lemma_distinct_push(f, x);
        }
    }
}

proof fn lemma_distinct_filters(s: Seq<SettingView>)
    requires
        files_distinct(s),
    ensures
        forall|p: spec_fn(SettingView) -> bool| files_distinct(#[trigger] s.filter(p)),
{
    assert forall|p: spec_fn(SettingView) -> bool| files_distinct(#[trigger] s.filter(p)) by {
        lemma_distinct_filter(s, p);
    }
}

proof fn lemma_distinct_replaced(s: Seq<SettingView>, what: Seq<char>)
    requires
        files_distinct(s),
    ensures
        files_distinct(replaced(s, what)),
{
    lemma_distinct_filters(s);
}

proof fn lemma_distinct_entry(st: LoadState, key: Seq<char>, value: Seq<char>, dir: Seq<char>, dirs: DirsView)
    requires
        files_distinct(st.settings),
        load_entry_effect(st, key, value, dir, dirs) is Ok,
    ensures
        files_distinct(load_entry_effect(st, key, value, dir, dirs)->Ok_0.settings),
{
    let r = load_entry_effect(st, key, value, dir, dirs)->Ok_0;
    if key == "content"@ || key == "groundcover"@ || key == "fallback-archive"@ {
        assert(r.settings == st.settings.push(r.settings.last()));
        lemma_distinct_push(st.settings, r.settings.last());
    } else if key == "fallback"@ {
        assert(r.settings == st.settings.push(r.settings.last()));
        lemma_distinct_push(st.settings, r.settings.last());
    } else if key == "encoding"@ {
        let kept = st.settings.filter(|v: SettingView| crate::config::configuration::not_encoding(v));
        lemma_distinct_filter(st.settings, |v: SettingView| crate::config::configuration::not_encoding(v));
        assert(r.settings == kept.push(r.settings.last()));
        lemma_distinct_push(kept, r.settings.last());
    } else if key == "config"@ {
    } else if key == "data"@ || key == "resources"@ || key == "user-data"@ || key == "data-local"@ {
        assert(r.settings == st.settings.push(r.settings.last()));
        lemma_distinct_push(st.settings, r.settings.last());
    } else if key == "replace"@ {
        lemma_distinct_replaced(st.settings, crate::text::lowered(value));
    } else {
        assert(r.settings == st.settings.push(r.settings.last()));
        lemma_distinct_push(st.settings, r.settings.last());
    }
}

proof fn lemma_distinct_lines(st: LoadState, lines: Seq<Seq<char>>, dir: Seq<char>, dirs: DirsView)
    requires
        files_distinct(st.settings),
        load_lines_effect(st, lines, dir, dirs) is Ok,
    ensures
        files_distinct(load_lines_effect(st, lines, dir, dirs)->Ok_0.settings),
    decreases lines.len(),
{
    if lines.len() > 0 {
        let line = lines[0];
        let next = load_line_effect(st, line, dir, dirs)->Ok_0;
        let t = crate::text::trimmed(line);
        if t.len() != 0 && t[0] != '#' {
            let eq = crate::text::first_index_of(t, '=')->0;
            lemma_distinct_entry(st, crate::text::trimmed(t.subrange(0, eq)), crate::text::trimmed(t.subrange(eq + 1, t.len() as int)), dir, dirs);
        }
        lemma_distinct_lines(next, lines.drop_first(), dir, dirs);
    }
}

/// Law: loading the lines of a configuration file into settings whose file name entries are
/// distinct keeps them distinct: a `content=`, `groundcover=` or `fallback-archive=` entry
/// that repeats a name of its kind already loaded (and not cleared by `replace=`) is refused.
/// A chain of configuration files is loaded file after file, so its loaded entries are
/// distinct too.
pub proof fn law_loaded_files_distinct(st: LoadState, lines: Seq<Seq<char>>, dir: Seq<char>, dirs: DirsView)
    requires
        files_distinct(st.settings),
        load_lines_effect(st, lines, dir, dirs) is Ok,
    ensures
        files_distinct(load_lines_effect(st, lines, dir, dirs)->Ok_0.settings),
{
    lemma_distinct_lines(st, lines, dir, dirs);
}

} // verus!
