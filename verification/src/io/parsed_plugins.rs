use crate::config::configuration::{dirs_in, files_in, last_dir, DirKind, FileKind, OpenMWConfiguration};
use crate::path::{file_name, file_name_of, join, join_path};
use crate::text::{chars_of, owned, push_text, string_of};
use vstd::prelude::*;

verus! {

/// How plugins are sorted before merging.
#[derive(Clone, Copy, Debug, PartialEq, Eq, Structural)]
pub enum SortOrder {
    /// Masters first, then by last modification time.
    Default,
    /// Kept in the order given (`none` on the command line).
    Unsorted,
}

/// The directories in which plugins and their meta files are found, lowest priority first.
/// Later directories win (the last-wins rule of `OpenMW`'s virtual file system).
#[derive(Debug)]
pub struct DataDirs {
    dirs: Vec<String>,
}

/// `DataDirs::from_ordered` was given no directory.
#[derive(Debug, PartialEq, Eq)]
pub struct NoDataDirectories;

impl DataDirs {
    /// The directories, lowest priority first.
    pub closed spec fn dirs(&self) -> Seq<Seq<char>> {
        self.dirs@.map_values(|d: String| d@)
    }

    /// There is at least one directory.
    #[verifier::type_invariant]
    spec fn nonempty(self) -> bool {
        self.dirs@.len() > 0
    }

    /// The single directory `dir` (the classic Morrowind layout).
    pub fn single(dir: String) -> (r: DataDirs)
        ensures
            r.dirs() == seq![dir@],
    {
        let mut dirs: Vec<String> = Vec::new();
        dirs.push(dir);
        let r = DataDirs { dirs };
        proof {
            assert(r.dirs() =~= seq![r.dirs@[0]@]);
        }
        r
    }

    /// The directories `dirs`, lowest priority first. Fails when `dirs` is empty.
    pub fn from_ordered(dirs: Vec<String>) -> (r: Result<DataDirs, NoDataDirectories>)
        ensures
            dirs@.len() == 0 ==> r is Err,
            dirs@.len() > 0 ==> (r matches Ok(d) && d.dirs() == dirs@.map_values(|s: String| s@)),
    {
        if dirs.len() == 0 {
            return Err(NoDataDirectories);
        }
        Ok(DataDirs { dirs })
    }

    /// The directory of highest priority: the last one.
    pub fn primary(&self) -> (r: &String)
        ensures
            self.dirs().len() > 0,
            r@ == self.dirs().last(),
    {
        proof {
            use_type_invariant(self);
        }
        &self.dirs[self.dirs.len() - 1]
    }

    /// The directories, lowest priority first.
    pub fn iter(&self) -> (r: Vec<&String>)
        ensures
            r@.len() == self.dirs().len(),
            forall|i: int| 0 <= i < r@.len() ==> (#[trigger] r@[i])@ == self.dirs()[i],
    {
        let mut r: Vec<&String> = Vec::new();
        let mut i: usize = 0;
        while i < self.dirs.len()
            invariant
                0 <= i <= self.dirs@.len(),
                r@.len() == i,
                forall|j: int| 0 <= j < i ==> (#[trigger] r@[j])@ == self.dirs()[j],
            decreases self.dirs@.len() - i,
        {
            r.push(&self.dirs[i]);
            i += 1;
        }
        r
    }

    /// Finds `name` in the directories, highest priority first: the first path `dir/name` for
    /// which `is_file` answers `true`. Every path of higher priority was asked and refused.
    pub fn resolve<F: Fn(&String) -> bool>(&self, name: &str, is_file: F) -> (r: Option<String>)
        requires
            forall|p: &String| #[trigger] is_file.requires((p,)),
        ensures
            r matches Some(p) ==> exists|k: int| #![trigger self.dirs()[k]] 0 <= k < self.dirs().len()
                && p@ == join_path(self.dirs()[k], name@)
                && is_file.ensures((&p,), true)
                && forall|j: int| k < j < self.dirs().len() ==> refused(is_file, join_path(#[trigger] self.dirs()[j], name@)),
            r is None ==> forall|j: int| 0 <= j < self.dirs().len() ==> refused(is_file, join_path(#[trigger] self.dirs()[j], name@)),
    {
        let n = self.dirs.len();
        let mut i: usize = n;
        while i > 0
            invariant
                n == self.dirs@.len(),
                n == self.dirs().len(),
                0 <= i <= n,
                forall|p: &String| #[trigger] is_file.requires((p,)),
                forall|j: int| i <= j < n ==> refused(is_file, join_path(#[trigger] self.dirs()[j], name@)),
            decreases i,
        {
            let candidate = join(&self.dirs[i - 1], name);
            let found = is_file(&candidate);
            proof {
                assert(self.dirs()[i - 1] == self.dirs@[i - 1]@);
            }
            if found {
                return Some(candidate);
            }
            proof {
                assert(refused(is_file, join_path(self.dirs()[i - 1], name@)));
            }
            i -= 1;
        }
        None
    }
}

/// `is_file` was asked about a path with the text `p` and answered `false`.
pub open spec fn refused<F: Fn(&String) -> bool>(is_file: F, p: Seq<char>) -> bool {
    exists|s: String| s@ == p && is_file.ensures((&s,), false)
}

/// Where the ordered list of plugins comes from.
#[derive(Debug)]
pub enum PluginListSource {
    /// The `[Game Files]` section of `Morrowind.ini` next to the primary data directory.
    MorrowindIni,
    /// This list, as it is.
    Explicit(Vec<String>),
}

/// Where the `OpenMW` configuration is loaded from.
#[derive(Debug)]
pub enum OpenMWCfgSource {
    /// The `OPENMW_CONFIG` / `OPENMW_CONFIG_DIR` environment variables, then the platform's
    /// default location.
    Default,
    /// This file or directory.
    Path(String),
}

/// What the merge needs from an `OpenMW` configuration.
#[derive(Debug)]
pub struct LoadedOpenMWConfig {
    /// The data directories, in the order of the configuration.
    pub data_dirs: DataDirs,
    /// The `content=` entries, in load order.
    pub plugins: Vec<String>,
    /// The directory of the merged output: the last `data-local=` directory, or `data` under
    /// the user data directory.
    pub data_local: String,
}

/// Extracts what the merge needs from the loaded configuration `config`: its data
/// directories, its content files and its `data-local` directory. Fails when the
/// configuration has no `data=` directory.
pub fn load_openmw_cfg(config: &OpenMWConfiguration) -> (r: Result<LoadedOpenMWConfig, NoDataDirectories>)
    ensures
        dirs_in(config.settings_view(), DirKind::Data).len() == 0 ==> r is Err,
        dirs_in(config.settings_view(), DirKind::Data).len() > 0 ==> (r matches Ok(l) && {
            &&& l.data_dirs.dirs() == dirs_in(config.settings_view(), DirKind::Data).map_values(|d: crate::config::setting::DirView| d.parsed)
            &&& l.plugins@.map_values(|p: String| p@) == files_in(config.settings_view(), FileKind::Content).map_values(|f: crate::config::setting::FileView| f.value)
            &&& l.data_local@ == match last_dir(config.settings_view(), DirKind::DataLocal) {
                Some(d) => d.parsed,
                None => join_path(config.dirs_view().userdata, "data"@),
            }
        }),
{
    let data = config.data_directories_iter();
    let mut dirs: Vec<String> = Vec::new();
    let mut i: usize = 0;
    while i < data.len()
        invariant
            0 <= i <= data@.len(),
            dirs@.len() == i,
            forall|j: int| 0 <= j < i ==> (#[trigger] dirs@[j])@ == data@[j]@.parsed,
        decreases data@.len() - i,
    {
        dirs.push(data[i].parsed().clone());
        i += 1;
    }
    let content = config.content_files_iter();
    let mut plugins: Vec<String> = Vec::new();
    let mut i: usize = 0;
    while i < content.len()
        invariant
            0 <= i <= content@.len(),
            plugins@.len() == i,
            forall|j: int| 0 <= j < i ==> (#[trigger] plugins@[j])@ == content@[j]@.value,
        decreases content@.len() - i,
    {
        plugins.push(content[i].value().clone());
        i += 1;
    }
    let data_local = match config.data_local() {
        Some(d) => d.parsed().clone(),
        None => join(&config.platform_dirs().userdata, "data"),
    };
    proof {
        assert(dirs@.map_values(|s: String| s@) =~= dirs_in(config.settings_view(), DirKind::Data).map_values(|d: crate::config::setting::DirView| d.parsed));
        assert(plugins@.map_values(|p: String| p@) =~= files_in(config.settings_view(), FileKind::Content).map_values(|f: crate::config::setting::FileView| f.value));
    }
    match DataDirs::from_ordered(dirs) {
        Ok(data_dirs) => Ok(LoadedOpenMWConfig { data_dirs, plugins, data_local }),
        Err(e) => Err(e),
    }
}

/// The position of the last `c` among the first `n` characters of `s`, or -1.
pub open spec fn last_index_before(s: Seq<char>, c: char, n: int) -> int
    decreases n,
{
    if n <= 0 {
        -1
    } else if s[n - 1] == c {
        n - 1
    } else {
        last_index_before(s, c, n - 1)
    }
}

/// The extension of the path `p`: what follows the last `.` of its file name, when that `.`
/// is not the name's first character.
pub open spec fn extension(p: Seq<char>) -> Option<Seq<char>> {
    match file_name(p) {
        None => None,
        Some(f) => {
            let k = last_index_before(f, '.', f.len() as int);
            if k > 0 {
                Some(f.subrange(k + 1, f.len() as int))
            } else {
                None
            }
        },
    }
}

/// The file name of the path `p` without its extension.
pub open spec fn file_stem(p: Seq<char>) -> Option<Seq<char>> {
    match file_name(p) {
        None => None,
        Some(f) => {
            let k = last_index_before(f, '.', f.len() as int);
            if k > 0 {
                Some(f.subrange(0, k))
            } else {
                Some(f)
            }
        },
    }
}

/// The ASCII lowercase form of `c`.
pub open spec fn ascii_lower(c: char) -> char {
    if 'A' <= c && c <= 'Z' {
        ((c as u8) + 32) as u8 as char
    } else {
        c
    }
}

/// `a` and `b` are equal up to ASCII case.
pub open spec fn eq_ignore_ascii_case(a: Seq<char>, b: Seq<char>) -> bool {
    a.len() == b.len() && forall|i: int| 0 <= i < a.len() ==> ascii_lower(#[trigger] a[i]) == ascii_lower(b[i])
}

fn ascii_lower_exec(c: char) -> (r: char)
    ensures
        r == ascii_lower(c),
{
    if 'A' <= c && c <= 'Z' {
        let b: u8 = c as u8;
        (b + 32) as char
    } else {
        c
    }
}

/// Returns `true` if `a` and `b` are equal up to ASCII case.
pub fn same_ignoring_ascii_case(a: &str, b: &str) -> (r: bool)
    ensures
        r == eq_ignore_ascii_case(a@, b@),
{
    let x = chars_of(a);
    let y = chars_of(b);
    if x.len() != y.len() {
        return false;
    }
    let mut i: usize = 0;
    while i < x.len()
        invariant
            x@ == a@,
            y@ == b@,
            x@.len() == y@.len(),
            0 <= i <= x@.len(),
            forall|j: int| 0 <= j < i ==> ascii_lower(#[trigger] x@[j]) == ascii_lower(y@[j]),
        decreases x@.len() - i,
    {
        if ascii_lower_exec(x[i]) != ascii_lower_exec(y[i]) {
            return false;
        }
        i += 1;
    }
    true
}

fn last_dot(v: &Vec<char>) -> (k: Option<usize>)
    ensures
        k matches Some(i) ==> i == last_index_before(v@, '.', v@.len() as int) && i < v@.len(),
        k is None ==> last_index_before(v@, '.', v@.len() as int) == -1,
{
    let mut m = v.len();
    while m > 0 && v[m - 1] != '.'
        invariant
            m <= v@.len(),
            last_index_before(v@, '.', m as int) == last_index_before(v@, '.', v@.len() as int),
        decreases m,
    {
        m -= 1;
    }
    if m == 0 {
        None
    } else {
        Some(m - 1)
    }
}

/// The extension of the path `path`, if it has one.
pub fn extension_of(path: &str) -> (r: Option<String>)
    ensures
        r matches Some(e) ==> extension(path@) == Some(e@),
        r is None ==> extension(path@) is None,
{
    match file_name_of(path) {
        None => None,
        Some(f) => {
            let v = chars_of(&f);
            let n = v.len();
            match last_dot(&v) {
                Some(k) => if k > 0 {
                    assert(k < n);
                    Some(string_of(&v, k + 1, n))
                } else {
                    None
                },
                None => None,
            }
        },
    }
}

/// Returns `true` if `path` has the extension `esm`, ignoring ASCII case.
pub fn is_esm(path: &str) -> (b: bool)
    ensures
        b == (extension(path@) matches Some(e) && eq_ignore_ascii_case(e, "esm"@)),
{
    match extension_of(path) {
        Some(e) => same_ignoring_ascii_case(&e, "esm"),
        None => false,
    }
}

/// Returns `true` if `path` has the extension `esp`, ignoring ASCII case.
pub fn is_esp(path: &str) -> (b: bool)
    ensures
        b == (extension(path@) matches Some(e) && eq_ignore_ascii_case(e, "esp"@)),
{
    match extension_of(path) {
        Some(e) => same_ignoring_ascii_case(&e, "esp"),
        None => false,
    }
}

/// The name of the meta file of the plugin `name`: its file name with the extension replaced
/// by `.mergedlands.toml`.
pub fn meta_name(name: &str) -> (r: String)
    requires
        file_name(name@) is Some,
    ensures
        r@ == file_stem(name@)->0 + ".mergedlands.toml"@,
{
    let f = match file_name_of(name) {
        Some(f) => f,
        None => String::new(),
    };
    let v = chars_of(&f);
    let mut stem = match last_dot(&v) {
        Some(k) => if k > 0 {
            string_of(&v, 0, k)
        } else {
            owned(&f)
        },
        None => owned(&f),
    };
    push_text(&mut stem, ".mergedlands.toml");
    stem
}

/// Positions as integers.
pub open spec fn as_ints(s: Seq<usize>) -> Seq<int> {
    s.map_values(|v: usize| v as int)
}

/// Whether each plugin of `names` is a master: its extension is `esm`, ignoring ASCII case.
pub open spec fn master_flags(names: Seq<String>) -> Seq<bool> {
    Seq::new(names.len(), |i: int| extension(names[i]@) matches Some(e) && eq_ignore_ascii_case(e, "esm"@))
}

/// Plugin `a` comes before plugin `b`: masters before the rest, then older before newer
/// (`modified`), then by position.
pub open spec fn plugin_key_before(masters: Seq<bool>, modified: Seq<i128>, a: int, b: int) -> bool {
    ||| (masters[a] && !masters[b])
    ||| (masters[a] == masters[b] && modified[a] < modified[b])
    ||| (masters[a] == masters[b] && modified[a] == modified[b] && a < b)
}

/// `order` lists positions so that each comes before the next by [`plugin_key_before`].
pub open spec fn sorted_by_key(order: Seq<int>, masters: Seq<bool>, modified: Seq<i128>) -> bool {
    forall|a: int, b: int| 0 <= a < b < order.len() ==> plugin_key_before(masters, modified, #[trigger] order[a], #[trigger] order[b])
}

/// In a sorted load order every master comes before every plugin that is not one.
pub proof fn law_sorted_masters_first(order: Seq<int>, masters: Seq<bool>, modified: Seq<i128>, a: int, b: int)
    requires
        sorted_by_key(order, masters, modified),
        0 <= a < order.len(),
        0 <= b < order.len(),
        masters[order[a]],
        !masters[order[b]],
    ensures
        a < b,
{
    if b < a {
        assert(plugin_key_before(masters, modified, order[b], order[a]));
    }
}

/// In a sorted load order, of two masters or two plugins that are not masters, the one
/// modified earlier comes first.
pub proof fn law_sorted_older_first(order: Seq<int>, masters: Seq<bool>, modified: Seq<i128>, a: int, b: int)
    requires
        sorted_by_key(order, masters, modified),
        0 <= a < order.len(),
        0 <= b < order.len(),
        masters[order[a]] == masters[order[b]],
        modified[order[a]] < modified[order[b]],
    ensures
        a < b,
{
    if b < a {
        assert(plugin_key_before(masters, modified, order[b], order[a]));
    }
}

proof fn lemma_key_strict(masters: Seq<bool>, modified: Seq<i128>, a: int, b: int)
    ensures
        a != b ==> (plugin_key_before(masters, modified, a, b) || plugin_key_before(masters, modified, b, a)),
        !(plugin_key_before(masters, modified, a, b) && plugin_key_before(masters, modified, b, a)),
        !plugin_key_before(masters, modified, a, a),
{
}

proof fn lemma_key_trans(masters: Seq<bool>, modified: Seq<i128>, a: int, b: int, c: int)
    requires
        plugin_key_before(masters, modified, a, b),
        plugin_key_before(masters, modified, b, c),
    ensures
        plugin_key_before(masters, modified, a, c),
{
}

fn key_before(masters: &Vec<bool>, modified: &Vec<i128>, a: usize, b: usize) -> (r: bool)
    requires
        a < masters@.len(),
        b < masters@.len(),
        masters@.len() == modified@.len(),
    ensures
        r == plugin_key_before(masters@, modified@, a as int, b as int),
{
    (masters[a] && !masters[b]) || (masters[a] == masters[b] && modified[a] < modified[b])
        || (masters[a] == masters[b] && modified[a] == modified[b] && a < b)
}

/// Sorts `plugin_list` for merging: with [`SortOrder::Default`], masters (`.esm`, ignoring
/// case) come first, then plugins by their last modification time `modified[i]`, oldest first;
/// plugins with equal keys keep their order. With [`SortOrder::Unsorted`] the list is kept.
pub fn sort_plugins(plugin_list: &mut Vec<String>, modified: &Vec<i128>, sort_order: SortOrder)
    requires
        sort_order == SortOrder::Default ==> modified@.len() == old(plugin_list)@.len(),
    ensures
        sort_order == SortOrder::Unsorted ==> final(plugin_list)@ == old(plugin_list)@,
        sort_order == SortOrder::Default ==> exists|order: Seq<int>| {
            &&& order.len() == old(plugin_list)@.len()
            &&& final(plugin_list)@.len() == order.len()
            &&& (forall|k: int| 0 <= k < order.len() ==> 0 <= #[trigger] order[k] < order.len())
            &&& (forall|x: int| 0 <= x < order.len() ==> #[trigger] order.contains(x))
            &&& sorted_by_key(order, master_flags(old(plugin_list)@), modified@)
            &&& forall|k: int| 0 <= k < order.len() ==> #[trigger] final(plugin_list)@[k] == old(plugin_list)@[order[k]]
        },
{
    if sort_order == SortOrder::Unsorted {
        return;
    }
    let n = plugin_list.len();
    let ghost names = plugin_list@;
    let mut masters: Vec<bool> = Vec::new();
    let mut i: usize = 0;
    while i < n
        invariant
            n == plugin_list@.len(),
            names == plugin_list@,
            0 <= i <= n,
            masters@.len() == i,
            forall|j: int| 0 <= j < i ==> #[trigger] masters@[j] == master_flags(names)[j],
        decreases n - i,
    {
        masters.push(is_esm(&plugin_list[i]));
        i += 1;
    }
    proof {
        assert(masters@ =~= master_flags(names));
    }
    let mut order: Vec<usize> = Vec::new();
    let mut i: usize = 0;
    proof {
        assert(as_ints(order@) =~= Seq::<int>::empty());
    }
    while i < n
        invariant
            n == names.len(),
            modified@.len() == n,
            masters@ == master_flags(names),
            0 <= i <= n,
            order@.len() == i,
            forall|k: int| 0 <= k < i ==> #[trigger] order@[k] < i,
            forall|x: int| 0 <= x < i ==> #[trigger] as_ints(order@).contains(x),
            sorted_by_key(as_ints(order@), masters@, modified@),
        decreases n - i,
    {
        let mut p: usize = 0;
        while p < order.len() && !key_before(&masters, modified, i, order[p])
            invariant
                n == names.len(),
                modified@.len() == n,
                masters@.len() == n,
                i < n,
                order@.len() == i,
                forall|k: int| 0 <= k < i ==> #[trigger] order@[k] < i,
                0 <= p <= order@.len(),
                forall|k: int| 0 <= k < p ==> plugin_key_before(masters@, modified@, #[trigger] order@[k] as int, i as int),
            decreases order@.len() - p,
        {
            proof {
                lemma_key_strict(masters@, modified@, order@[p as int] as int, i as int);
            }
            p += 1;
        }
        let ghost before = as_ints(order@);
        order.insert(p, i);
        proof {
            let after = as_ints(order@);
            assert(after =~= before.insert(p as int, i as int));
            assert forall|a: int, b: int| 0 <= a < b < after.len() implies plugin_key_before(masters@, modified@, #[trigger] after[a], #[trigger] after[b]) by {
                if b < p {
                    assert(after[a] == before[a] && after[b] == before[b]);
                } else if a > p {
                    assert(after[a] == before[a - 1] && after[b] == before[b - 1]);
                } else if a == p {
                    assert(after[b] == before[b - 1]);
                    if b - 1 > p {
                        lemma_key_trans(masters@, modified@, i as int, before[p as int], before[b - 1]);
                    }
                } else if b == p {
                    assert(after[a] == before[a]);
                } else {
                    assert(after[a] == before[a] && after[b] == before[b - 1]);
                    lemma_key_trans(masters@, modified@, before[a], i as int, before[p as int]);
                    if b - 1 > p {
                        lemma_key_trans(masters@, modified@, before[a], before[p as int], before[b - 1]);
                    }
                }
            }
            assert forall|x: int| 0 <= x < i + 1 implies #[trigger] after.contains(x) by {
                if x == i {
                    assert(after[p as int] == i);
                } else {
                    assert(before.contains(x));
                    let k = choose|k: int| 0 <= k < before.len() && before[k] == x;
                    if k < p {
                        assert(after[k] == x);
                    } else {
                        assert(after[k + 1] == x);
                    }
                }
            }
        }
        i += 1;
    }
    let mut sorted: Vec<String> = Vec::new();
    let mut k: usize = 0;
    while k < n
        invariant
            n == names.len(),
            names == plugin_list@,
            order@.len() == n,
            forall|j: int| 0 <= j < n ==> #[trigger] order@[j] < n,
            0 <= k <= n,
            sorted@.len() == k,
            forall|j: int| 0 <= j < k ==> #[trigger] sorted@[j] == names[order@[j] as int],
        decreases n - k,
    {
        sorted.push(plugin_list[order[k]].clone());
        k += 1;
    }
    proof {
        let ord = as_ints(order@);
        assert forall|j: int| 0 <= j < ord.len() implies #[trigger] sorted@[j] == names[ord[j]] by {
            assert(sorted@[j] == names[order@[j] as int]);
        }
        assert forall|j: int| 0 <= j < ord.len() implies 0 <= #[trigger] ord[j] < ord.len() by {
            assert(order@[j] < n);
        }
    }
    *plugin_list = sorted;
}

} // verus!
