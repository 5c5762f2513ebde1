use crate::cli::Cli;
use crate::io::app_config::{resolved_against, MergedLandsConfig};
use crate::io::parsed_plugins::{eq_ignore_ascii_case, same_ignoring_ascii_case, DataDirs, LoadedOpenMWConfig, OpenMWCfgSource, PluginListSource, SortOrder};
use crate::path::{parent, parent_path};
use crate::text::same_text;
use vstd::prelude::*;

verus! {

/// Where the merge reads its plugins from, and in which order it takes them.
#[derive(Debug)]
pub struct MergeInputs {
    /// The data directories, lowest priority first.
    pub data_dirs: DataDirs,
    /// Where the list of plugins comes from.
    pub plugin_source: PluginListSource,
    /// How the plugins are ordered before merging.
    pub sort_order: SortOrder,
    /// `OpenMW`'s `data-local` directory, in `OpenMW` mode.
    pub data_local: Option<String>,
}

/// The text of each name.
pub open spec fn names_of(v: Seq<String>) -> Seq<Seq<char>> {
    v.map_values(|s: String| s@)
}

fn copy_names(v: &Vec<String>) -> (r: Vec<String>)
    ensures
        names_of(r@) == names_of(v@),
{
    let mut r: Vec<String> = Vec::new();
    let mut i: usize = 0;
    while i < v.len()
        invariant
            0 <= i <= v@.len(),
            r@.len() == i,
            forall|j: int| 0 <= j < i ==> (#[trigger] r@[j])@ == v@[j]@,
        decreases v@.len() - i,
    {
        r.push(v[i].clone());
        i += 1;
    }
    proof {
        assert(names_of(r@) =~= names_of(v@));
    }
    r
}

/// The plugin list source is the explicit list `names`.
pub open spec fn lists(source: PluginListSource, names: Seq<String>) -> bool {
    source matches PluginListSource::Explicit(l) && names_of(l@) == names_of(names)
}

/// Decides the inputs of the merge. In `OpenMW` mode (`openmw` holds what the loaded
/// `openmw.cfg` gives) the data directories and `data-local` come from the configuration, and
/// the plugins from the command line if it names any (sorted as asked) or else from the
/// `content=` entries, whose order is the user's load order and is kept. In classic mode the
/// single data directory comes from the command line, and the plugins from the command line
/// or else from `Morrowind.ini`, sorted as asked.
pub fn plan_inputs(cli: &Cli, openmw: Option<LoadedOpenMWConfig>) -> (r: MergeInputs)
    ensures
        openmw matches Some(cfg) ==> {
            &&& r.data_dirs.dirs() == cfg.data_dirs.dirs()
            &&& r.data_local matches Some(d) && d@ == cfg.data_local@
            &&& cli.input_file_names@.len() > 0 ==> lists(r.plugin_source, cli.input_file_names@) && r.sort_order == cli.sort_order
            &&& cli.input_file_names@.len() == 0 ==> lists(r.plugin_source, cfg.plugins@) && r.sort_order == SortOrder::Unsorted
        },
        openmw is None ==> {
            &&& r.data_dirs.dirs() == seq![cli.data_files_dir@]
            &&& r.data_local is None
            &&& r.sort_order == cli.sort_order
            &&& cli.input_file_names@.len() > 0 ==> lists(r.plugin_source, cli.input_file_names@)
            &&& cli.input_file_names@.len() == 0 ==> r.plugin_source matches PluginListSource::MorrowindIni
        },
{
    match openmw {
        Some(cfg) => match cli.plugins() {
            Some(list) => MergeInputs {
                data_dirs: cfg.data_dirs,
                plugin_source: PluginListSource::Explicit(copy_names(list)),
                sort_order: cli.sort_order,
                data_local: Some(cfg.data_local),
            },
            None => {
                let plugins = cfg.plugins;
                proof {
                    assert(names_of(plugins@) == names_of(plugins@));
                }
                MergeInputs {
                    data_dirs: cfg.data_dirs,
                    plugin_source: PluginListSource::Explicit(plugins),
                    sort_order: SortOrder::Unsorted,
                    data_local: Some(cfg.data_local),
                }
            },
        },
        None => {
            let source = match cli.plugins() {
                Some(list) => PluginListSource::Explicit(copy_names(list)),
                None => PluginListSource::MorrowindIni,
            };
            MergeInputs {
                data_dirs: DataDirs::single(cli.data_files_dir().clone()),
                plugin_source: source,
                sort_order: cli.sort_order,
                data_local: None,
            }
        },
    }
}

/// Where the merged plugin is written, and why.
#[derive(Debug)]
pub enum OutputDir {
    /// `--output-file-dir`, which must exist.
    Override(String),
    /// The `output_file_dir` of `merged_lands.toml`, created when missing.
    Configured(String),
    /// `OpenMW`'s `data-local`, created when missing.
    DataLocal(String),
    /// The `Data Files` directory of classic mode, which must exist.
    DataFiles(String),
}

/// Chooses the output directory, first that applies: `--output-file-dir`; the
/// `output_file_dir` of `merged_lands.toml` (read relative to the merged lands directory);
/// `OpenMW`'s `data-local` in `OpenMW` mode; the `Data Files` directory in classic mode.
pub fn choose_output_dir(cli: &Cli, app_config: Option<&MergedLandsConfig>, data_local: Option<&String>) -> (r: OutputDir)
    requires
        cli.output_file_dir is None && !(app_config matches Some(c) && c.output_file_dir is Some) && !cli.vanilla
            ==> data_local is Some,
    ensures
        cli.output_file_dir matches Some(d) ==> (r matches OutputDir::Override(o) && o@ == d@),
        cli.output_file_dir is None && (app_config matches Some(c) && c.output_file_dir is Some)
            ==> (r matches OutputDir::Configured(o) && o@ == resolved_against(cli.merged_lands_dir@, app_config->0.output_file_dir->0@)),
        cli.output_file_dir is None && !(app_config matches Some(c) && c.output_file_dir is Some) && !cli.vanilla
            ==> (r matches OutputDir::DataLocal(o) && o@ == data_local->0@),
        cli.output_file_dir is None && !(app_config matches Some(c) && c.output_file_dir is Some) && cli.vanilla
            ==> (r matches OutputDir::DataFiles(o) && o@ == cli.data_files_dir@),
{
    if let Some(d) = cli.output_file_dir_override() {
        return OutputDir::Override(d.clone());
    }
    let configured = match app_config {
        Some(c) => c.output_file_dir(&cli.merged_lands_dir),
        None => None,
    };
    match configured {
        Some(dir) => OutputDir::Configured(dir),
        None => if cli.is_openmw_mode() {
            match data_local {
                Some(d) => OutputDir::DataLocal(d.clone()),
                None => OutputDir::DataFiles(cli.data_files_dir().clone()),
            }
        } else {
            OutputDir::DataFiles(cli.data_files_dir().clone())
        },
    }
}

/// Where the `OpenMW` configuration comes from, with `merged_lands.toml` read as well: nothing
/// in classic Morrowind mode, the `--openmw-cfg` path when given, else the `openmw_cfg` of
/// `merged_lands.toml` when it names one, and the default location otherwise.
pub fn openmw_cfg_source_with(cli: &Cli, config: Option<&MergedLandsConfig>) -> (r: Option<OpenMWCfgSource>)
    ensures
        cli.vanilla ==> r is None,
        !cli.vanilla && cli.openmw_cfg is Some ==> (r matches Some(OpenMWCfgSource::Path(p)) && p@ == cli.openmw_cfg->0@),
        !cli.vanilla && cli.openmw_cfg is None ==> match config {
            Some(c) => match c.openmw_cfg {
                Some(q) => r matches Some(OpenMWCfgSource::Path(p)) && p@ == q@,
                None => r matches Some(OpenMWCfgSource::Default),
            },
            None => r matches Some(OpenMWCfgSource::Default),
        },
{
    if cli.vanilla {
        return None;
    }
    match &cli.openmw_cfg {
        Some(p) => Some(OpenMWCfgSource::Path(p.clone())),
        None => match config {
            Some(c) => match &c.openmw_cfg {
                Some(q) => Some(OpenMWCfgSource::Path(q.clone())),
                None => Some(OpenMWCfgSource::Default),
            },
            None => Some(OpenMWCfgSource::Default),
        },
    }
}

/// The plugin `name`, found at `resolved` if it was found, is skipped: `ignore` names it
/// (ignoring ASCII case), or it was found in one of the directories `ignore_dirs`.
pub open spec fn ignored_plugin(name: Seq<char>, resolved: Option<Seq<char>>, ignore: Seq<Seq<char>>, ignore_dirs: Seq<Seq<char>>) -> bool {
    ||| exists|k: int| 0 <= k < ignore.len() && eq_ignore_ascii_case(#[trigger] ignore[k], name)
    ||| (resolved matches Some(p) && parent_path(p) matches Some(d) && exists|k: int| 0 <= k < ignore_dirs.len() && #[trigger] ignore_dirs[k] == d)
}

/// The first `n` plugin names that are not skipped, in order.
pub open spec fn plugins_kept(
    names: Seq<Seq<char>>,
    resolved: Seq<Option<Seq<char>>>,
    ignore: Seq<Seq<char>>,
    ignore_dirs: Seq<Seq<char>>,
    n: int,
) -> Seq<Seq<char>>
    decreases n,
{
    if n <= 0 {
        Seq::empty()
    } else {
        let rest = plugins_kept(names, resolved, ignore, ignore_dirs, n - 1);
        if ignored_plugin(names[n - 1], resolved[n - 1], ignore, ignore_dirs) {
            rest
        } else {
            rest.push(names[n - 1])
        }
    }
}

/// No plugin that `ignore` names (ignoring ASCII case) is merged, and every plugin that is
/// neither named there nor found in an ignored directory is.
pub proof fn law_ignored_plugins_skipped(
    names: Seq<Seq<char>>,
    resolved: Seq<Option<Seq<char>>>,
    ignore: Seq<Seq<char>>,
    ignore_dirs: Seq<Seq<char>>,
    n: int,
)
    requires
        0 <= n <= names.len(),
        n <= resolved.len(),
    ensures
        forall|x: Seq<char>, k: int| #[trigger] plugins_kept(names, resolved, ignore, ignore_dirs, n).contains(x) && 0 <= k < ignore.len()
            ==> !eq_ignore_ascii_case(#[trigger] ignore[k], x),
        forall|i: int| 0 <= i < n && !ignored_plugin(names[i], resolved[i], ignore, ignore_dirs)
            ==> #[trigger] plugins_kept(names, resolved, ignore, ignore_dirs, n).contains(names[i]),
    decreases n,
{
    if n > 0 {
        law_ignored_plugins_skipped(names, resolved, ignore, ignore_dirs, n - 1);
        let rest = plugins_kept(names, resolved, ignore, ignore_dirs, n - 1);
        let r = plugins_kept(names, resolved, ignore, ignore_dirs, n);
        assert forall|x: Seq<char>, k: int| #[trigger] r.contains(x) && 0 <= k < ignore.len() implies !eq_ignore_ascii_case(#[trigger] ignore[k], x) by {
            let j = choose|j: int| 0 <= j < r.len() && r[j] == x;
            if !ignored_plugin(names[n - 1], resolved[n - 1], ignore, ignore_dirs) && j == r.len() - 1 {
                assert(x == names[n - 1]);
            } else {
                assert(rest[j] == x);
                assert(rest.contains(x));
            }
        }
        assert forall|i: int| 0 <= i < n && !ignored_plugin(names[i], resolved[i], ignore, ignore_dirs) implies #[trigger] r.contains(names[i]) by {
            if i == n - 1 {
                assert(r[r.len() - 1] == names[i]);
            } else {
                assert(rest.contains(names[i]));
                let j = choose|j: int| 0 <= j < rest.len() && rest[j] == names[i];
                assert(r[j] == names[i]);
            }
        }
    }
}

/// The text of each found path.
pub open spec fn found_paths(v: Seq<Option<String>>) -> Seq<Option<Seq<char>>> {
    v.map_values(|o: Option<String>| match o {
        Some(p) => Some(p@),
        None => None,
    })
}

fn named_in(ignore: &Vec<String>, name: &String) -> (b: bool)
    ensures
        b == exists|k: int| 0 <= k < ignore@.len() && eq_ignore_ascii_case(#[trigger] names_of(ignore@)[k], name@),
{
    let mut k: usize = 0;
    while k < ignore.len()
        invariant
            0 <= k <= ignore@.len(),
            forall|j: int| 0 <= j < k ==> !eq_ignore_ascii_case(#[trigger] names_of(ignore@)[j], name@),
        decreases ignore@.len() - k,
    {
        if same_ignoring_ascii_case(&ignore[k], name) {
            proof {
                assert(names_of(ignore@)[k as int] == ignore@[k as int]@);
            }
            return true;
        }
        k += 1;
    }
    false
}

fn in_dir_list(dirs: &Vec<String>, dir: &String) -> (b: bool)
    ensures
        b == exists|k: int| 0 <= k < dirs@.len() && #[trigger] names_of(dirs@)[k] == dir@,
{
    let mut k: usize = 0;
    while k < dirs.len()
        invariant
            0 <= k <= dirs@.len(),
            forall|j: int| 0 <= j < k ==> #[trigger] names_of(dirs@)[j] != dir@,
        decreases dirs@.len() - k,
    {
        if same_text(&dirs[k], dir) {
            proof {
                assert(names_of(dirs@)[k as int] == dirs@[k as int]@);
            }
            return true;
        }
        k += 1;
    }
    false
}

/// The plugins of `names` that `merged_lands.toml` does not skip, in order: `resolved` holds,
/// for each name, the path where it was found (if it was), `ignore` the plugin names to skip
/// (compared ignoring ASCII case) and `ignore_dirs` the directories whose plugins are skipped.
pub fn plugins_to_merge(names: &Vec<String>, resolved: &Vec<Option<String>>, ignore: &Vec<String>, ignore_dirs: &Vec<String>) -> (r: Vec<String>)
    requires
        resolved@.len() == names@.len(),
    ensures
        names_of(r@) == plugins_kept(names_of(names@), found_paths(resolved@), names_of(ignore@), names_of(ignore_dirs@), names@.len() as int),
{
    let ghost nv = names_of(names@);
    let ghost rv = found_paths(resolved@);
    let mut r: Vec<String> = Vec::new();
    let mut i: usize = 0;
    while i < names.len()
        invariant
            nv == names_of(names@),
            rv == found_paths(resolved@),
            resolved@.len() == names@.len(),
            0 <= i <= names@.len(),
            names_of(r@) == plugins_kept(nv, rv, names_of(ignore@), names_of(ignore_dirs@), i as int),
        decreases names@.len() - i,
    {
        let by_name = named_in(ignore, &names[i]);
        let by_dir = match &resolved[i] {
            Some(p) => match parent(p) {
                Some(d) => in_dir_list(ignore_dirs, &d),
                None => false,
            },
            None => false,
        };
        proof {
            assert(nv[i as int] == names@[i as int]@);
            assert(rv[i as int] == match resolved@[i as int] {
                Some(p) => Some(p@),
                None => None::<Seq<char>>,
            });
        }
        if !(by_name || by_dir) {
            let n = names[i].clone();
            proof {
                assert(names_of(r@.push(n)) =~= names_of(r@).push(n@));
            }
            r.push(n);
        }
        i += 1;
    }
    r
}

} // verus!
