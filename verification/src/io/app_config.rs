use crate::io::parsed_plugins::{eq_ignore_ascii_case, same_ignoring_ascii_case};
use crate::path::{has_root, join, join_path};
use crate::text::{chars_of, owned, same_text};
use vstd::prelude::*;

verus! {

/// Where the directory of `merged_lands.toml` was found.
#[derive(Debug, Copy, Clone, PartialEq, Eq, Structural)]
pub enum AppConfigSource {
    /// Given on the command line.
    Explicit,
    /// The directory of the `OpenMW` configuration.
    OpenMWConfig,
    /// The directory of the executable.
    ExecutableDir,
}

/// The directory of `merged_lands.toml` and where it was found.
#[derive(Debug)]
pub struct AppConfigLocation {
    dir: String,
    source: AppConfigSource,
}

impl AppConfigLocation {
    /// The directory.
    pub closed spec fn dir_view(&self) -> Seq<char> {
        self.dir@
    }

    /// Where it was found.
    pub closed spec fn source_view(&self) -> AppConfigSource {
        self.source
    }

    /// The directory of `merged_lands.toml`.
    pub fn dir(&self) -> (r: &String)
        ensures
            r@ == self.dir_view(),
    {
        &self.dir
    }

    /// Where the directory was found.
    pub fn source(&self) -> (r: AppConfigSource)
        ensures
            r == self.source_view(),
    {
        self.source
    }
}

/// Why no directory could hold `merged_lands.toml`, with the failure that the directory
/// preparation reported.
#[derive(Debug)]
pub enum LocationError {
    /// The directory given on the command line cannot be used.
    Explicit(String),
    /// The directory of the executable is unknown.
    NoExecutableDir(String),
    /// The directory of the executable cannot be used.
    ExecutableDir(String),
}

/// A loaded or newly created `merged_lands.toml`.
#[derive(Debug)]
pub struct LoadedMergedLandsConfig {
    /// The configuration.
    pub config: MergedLandsConfig,
    /// The file did not exist and must be saved.
    pub created: bool,
}

/// The application settings kept in `merged_lands.toml`.
#[derive(Debug)]
pub struct MergedLandsConfig {
    /// The `openmw.cfg` to use in `OpenMW` mode.
    pub openmw_cfg: Option<String>,
    /// The directory of the output plugin.
    pub output_file_dir: Option<String>,
    /// Plugin names that are never merged.
    pub ignore_plugins: Vec<String>,
    /// Paths of plugins that are never merged.
    pub ignore_plugins_from_path: Vec<String>,
    /// The directory where the output plugin was last written.
    pub generated_output_dir: Option<String>,
    /// The names of output plugins written so far.
    pub generated_output_files: Vec<String>,
}

/// `path` read relative to `base`: kept when absolute, joined onto `base` otherwise.
pub open spec fn resolved_against(base: Seq<char>, path: Seq<char>) -> Seq<char> {
    if has_root(path) {
        path
    } else {
        join_path(base, path)
    }
}

fn resolve_against(base: &str, path: &String) -> (r: String)
    ensures
        r@ == resolved_against(base@, path@),
{
    let v = chars_of(path);
    if v.len() > 0 && v[0] == '/' {
        path.clone()
    } else {
        join(base, path)
    }
}

/// The name of the generated output directory that stands for `OpenMW`'s `data-local`.
pub open spec fn default_generated_dir() -> Seq<char> {
    "default_data_local"@
}

/// The views of a list of names.
pub open spec fn names_view(s: Seq<String>) -> Seq<Seq<char>> {
    s.map_values(|n: String| n@)
}

/// `is_file` was asked about a path with the text `p` and answered `b`.
pub open spec fn answered<F: Fn(&String) -> bool>(is_file: F, p: Seq<char>, b: bool) -> bool {
    exists|s: String| s@ == p && is_file.ensures((&s,), b)
}

/// The names of `names` whose entry in `keep` is `true`, in order.
pub open spec fn kept_names(names: Seq<Seq<char>>, keep: Seq<bool>) -> Seq<Seq<char>>
    decreases names.len(),
{
    if names.len() == 0 {
        Seq::empty()
    } else {
        let rest = kept_names(names.drop_last(), keep);
        if keep[names.len() - 1] {
            rest.push(names.last())
        } else {
            rest
        }
    }
}

proof fn lemma_kept_prefix(names: Seq<Seq<char>>, a: Seq<bool>, b: Seq<bool>)
    requires
        a.len() >= names.len(),
        b.len() >= names.len(),
        forall|i: int| 0 <= i < names.len() ==> a[i] == b[i],
    ensures
        kept_names(names, a) == kept_names(names, b),
    decreases names.len(),
{
    if names.len() > 0 {
        lemma_kept_prefix(names.drop_last(), a, b);
    }
}

/// `prepare` was asked about the directory with the text `dir` and answered with success
/// exactly when `ok`.
pub open spec fn prepared<P: Fn(&String) -> Result<(), String>>(prepare: P, dir: Seq<char>, ok: bool) -> bool {
    exists|s: String, r: Result<(), String>| s@ == dir && prepare.ensures((&s,), r) && (r is Ok) == ok
}

impl MergedLandsConfig {
    /// An empty configuration.
    pub fn default() -> (r: MergedLandsConfig)
        ensures
            r.openmw_cfg is None,
            r.output_file_dir is None,
            r.ignore_plugins@.len() == 0,
            r.ignore_plugins_from_path@.len() == 0,
            r.generated_output_dir is None,
            r.generated_output_files@.len() == 0,
    {
        MergedLandsConfig {
            openmw_cfg: None,
            output_file_dir: None,
            ignore_plugins: Vec::new(),
            ignore_plugins_from_path: Vec::new(),
            generated_output_dir: None,
            generated_output_files: Vec::new(),
        }
    }

    /// The names of the plugins that a new configuration ignores: outputs of other merging
    /// tools and plugins that are no useful merge input.
    pub open spec fn default_ignored_plugins() -> Seq<Seq<char>> {
        seq![
            "delta-merged.omwaddon"@,
            "deleted_groundcover.omwaddon"@,
            "S3LightFixes.omwaddon"@,
            "distant_seafloor_2.00.esm"@,
            "OMWLLFMod.omwaddon"@,
            "merged.omwaddon"@,
            "Merged Objects.esp"@,
        ]
    }

    /// This is the configuration of a new `merged_lands.toml`: no `openmw.cfg` and no output
    /// directory of its own, the default ignored plugins and no ignored directories, output
    /// to `OpenMW`'s `data-local`, and no output written yet.
    pub open spec fn is_new_default(&self) -> bool {
        &&& self.openmw_cfg is None
        &&& self.output_file_dir is None
        &&& names_view(self.ignore_plugins@) == Self::default_ignored_plugins()
        &&& self.ignore_plugins_from_path@.len() == 0
        &&& self.generated_output_dir matches Some(d) && d@ == default_generated_dir()
        &&& self.generated_output_files@.len() == 0
    }

    /// A new configuration that ignores the plugins that are no useful merge input (the
    /// outputs of other merging tools) and writes its output to `OpenMW`'s `data-local`.
    pub fn with_default_ignored_plugins() -> (r: MergedLandsConfig)
        ensures
            r.is_new_default(),
    {
        let mut ignore: Vec<String> = Vec::new();
        ignore.push(owned("delta-merged.omwaddon"));
        ignore.push(owned("deleted_groundcover.omwaddon"));
        ignore.push(owned("S3LightFixes.omwaddon"));
        ignore.push(owned("distant_seafloor_2.00.esm"));
        ignore.push(owned("OMWLLFMod.omwaddon"));
        ignore.push(owned("merged.omwaddon"));
        ignore.push(owned("Merged Objects.esp"));
        let r = MergedLandsConfig {
            openmw_cfg: None,
            output_file_dir: None,
            ignore_plugins: ignore,
            ignore_plugins_from_path: Vec::new(),
            generated_output_dir: Some(owned("default_data_local")),
            generated_output_files: Vec::new(),
        };
        proof {
            assert(names_view(r.ignore_plugins@) =~= seq![
                "delta-merged.omwaddon"@,
                "deleted_groundcover.omwaddon"@,
                "S3LightFixes.omwaddon"@,
                "distant_seafloor_2.00.esm"@,
                "OMWLLFMod.omwaddon"@,
                "merged.omwaddon"@,
                "Merged Objects.esp"@,
            ]);
        }
        r
    }

    /// The configuration `loaded` from `merged_lands.toml` if there was one, or else a new one
    /// with the default ignored plugins, which the caller saves.
    pub fn load_or_create(loaded: Option<MergedLandsConfig>) -> (r: LoadedMergedLandsConfig)
        ensures
            loaded matches Some(c) ==> r.config == c && !r.created,
            loaded is None ==> r.created && r.config.is_new_default(),
    {
        match loaded {
            Some(config) => LoadedMergedLandsConfig { config, created: false },
            None => {
                let config = Self::with_default_ignored_plugins();
                LoadedMergedLandsConfig { config, created: true }
            },
        }
    }

    /// The directory of the output plugin, read relative to `merged_lands_dir`.
    pub fn output_file_dir(&self, merged_lands_dir: &str) -> (r: Option<String>)
        ensures
            self.output_file_dir is None ==> r is None,
            self.output_file_dir matches Some(d) ==> (r matches Some(p) && p@ == resolved_against(merged_lands_dir@, d@)),
    {
        match &self.output_file_dir {
            Some(d) => Some(resolve_against(merged_lands_dir, d)),
            None => None,
        }
    }

    /// The `openmw.cfg` to use in `OpenMW` mode, if one was saved.
    pub fn openmw_cfg(&self) -> (r: Option<&String>)
        ensures
            r == match &self.openmw_cfg {
                Some(p) => Some(p),
                None => None::<&String>,
            },
    {
        match &self.openmw_cfg {
            Some(p) => Some(p),
            None => None,
        }
    }

    /// Records `path` as the `openmw.cfg` for later runs.
    pub fn set_openmw_cfg(&mut self, path: &str)
        ensures
            final(self).openmw_cfg matches Some(p) && p@ == path@,
            final(self).output_file_dir == old(self).output_file_dir,
            final(self).ignore_plugins == old(self).ignore_plugins,
            final(self).ignore_plugins_from_path == old(self).ignore_plugins_from_path,
            final(self).generated_output_dir == old(self).generated_output_dir,
            final(self).generated_output_files == old(self).generated_output_files,
    {
        self.openmw_cfg = Some(owned(path));
    }

    /// Records the directory and name of a written output plugin, so that later runs skip it.
    /// A name that is already recorded (ignoring ASCII case) is not added again.
    pub fn record_generated_output(&mut self, output_file_dir: &str, output_file_name: &str)
        ensures
            final(self).generated_output_dir matches Some(d) && d@ == output_file_dir@,
            (exists|i: int| 0 <= i < old(self).generated_output_files@.len()
                && eq_ignore_ascii_case(#[trigger] old(self).generated_output_files@[i]@, output_file_name@))
                ==> final(self).generated_output_files@ == old(self).generated_output_files@,
            !(exists|i: int| 0 <= i < old(self).generated_output_files@.len()
                && eq_ignore_ascii_case(#[trigger] old(self).generated_output_files@[i]@, output_file_name@))
                ==> names_view(final(self).generated_output_files@) == names_view(old(self).generated_output_files@).push(output_file_name@),
            final(self).openmw_cfg == old(self).openmw_cfg,
            final(self).output_file_dir == old(self).output_file_dir,
            final(self).ignore_plugins == old(self).ignore_plugins,
            final(self).ignore_plugins_from_path == old(self).ignore_plugins_from_path,
    {
        self.generated_output_dir = Some(owned(output_file_dir));
        let mut found = false;
        let mut i: usize = 0;
        while i < self.generated_output_files.len()
            invariant
                0 <= i <= self.generated_output_files@.len(),
                self.generated_output_files@ == old(self).generated_output_files@,
                found == exists|j: int| 0 <= j < i && eq_ignore_ascii_case(#[trigger] self.generated_output_files@[j]@, output_file_name@),
            decreases self.generated_output_files@.len() - i,
        {
            if same_ignoring_ascii_case(&self.generated_output_files[i], output_file_name) {
                found = true;
            }
            i += 1;
        }
        if !found {
            let ghost before = self.generated_output_files@;
            self.generated_output_files.push(owned(output_file_name));
            proof {
                assert(names_view(self.generated_output_files@) =~= names_view(before).push(output_file_name@));
            }
        }
    }

    /// The directory where output plugins were written, read relative to `config_dir`;
    /// nothing when none was recorded or when it is `OpenMW`'s `data-local`
    /// (`default_data_local`).
    pub fn generated_output_dir(&self, config_dir: &str) -> (r: Option<String>)
        ensures
            self.generated_output_dir is None ==> r is None,
            (self.generated_output_dir matches Some(d) && d@ == default_generated_dir()) ==> r is None,
            (self.generated_output_dir matches Some(d) && d@ != default_generated_dir())
                ==> (r matches Some(p) && p@ == resolved_against(config_dir@, self.generated_output_dir->0@)),
    {
        match &self.generated_output_dir {
            Some(d) => {
                if same_text(d, "default_data_local") {
                    None
                } else {
                    Some(resolve_against(config_dir, d))
                }
            },
            None => None,
        }
    }

    /// The recorded output plugin names for which `is_file` confirms a file in the recorded
    /// output directory (or in `current_output_file_dir` when none is recorded), in order.
    pub fn generated_output_files_that_exist<F: Fn(&String) -> bool>(
        &self,
        current_output_file_dir: &str,
        config_dir: &str,
        is_file: F,
    ) -> (r: Vec<String>)
        requires
            forall|p: &String| #[trigger] is_file.requires((p,)),
        ensures
            exists|dir: Seq<char>, found: Seq<bool>|
                #![trigger found.len(), dir.len()]
                (dir == match &self.generated_output_dir {
                    Some(d) => if d@ == default_generated_dir() { current_output_file_dir@ } else { resolved_against(config_dir@, d@) },
                    None => current_output_file_dir@,
                })
                && found.len() == self.generated_output_files@.len()
                && (forall|i: int| 0 <= i < found.len() ==> answered(is_file, join_path(dir, self.generated_output_files@[i]@), #[trigger] found[i]))
                && names_view(r@) == kept_names(names_view(self.generated_output_files@), found),
    {
        let dir = match self.generated_output_dir(config_dir) {
            Some(d) => d,
            None => owned(current_output_file_dir),
        };
        let ghost mut found: Seq<bool> = Seq::empty();
        let mut r: Vec<String> = Vec::new();
        let mut i: usize = 0;
        let ghost names = names_view(self.generated_output_files@);
        while i < self.generated_output_files.len()
            invariant
                names == names_view(self.generated_output_files@),
                0 <= i <= self.generated_output_files@.len(),
                forall|p: &String| #[trigger] is_file.requires((p,)),
                found.len() == i,
                forall|j: int| 0 <= j < i ==> answered(is_file, join_path(dir@, self.generated_output_files@[j]@), #[trigger] found[j]),
                names_view(r@) == kept_names(names.take(i as int), found),
            decreases self.generated_output_files@.len() - i,
        {
            let name = &self.generated_output_files[i];
            let path = join(&dir, name);
            let b = is_file(&path);
            proof {
                assert(answered(is_file, join_path(dir@, name@), b));
                assert(names.take(i + 1).drop_last() =~= names.take(i as int));
                lemma_kept_prefix(names.take(i as int), found, found.push(b));
                found = found.push(b);
            }
            if b {
                let ghost before = r@;
                r.push(name.clone());
                proof {
                    assert(names_view(r@) =~= names_view(before).push(name@));
                }
            }
            i += 1;
        }
        proof {
            assert(names.take(names.len() as int) =~= names);
        }
        r
    }

    /// Plugin names that are never merged.
    pub fn ignore_plugins(&self) -> (r: &Vec<String>)
        ensures
            r == &self.ignore_plugins,
    {
        &self.ignore_plugins
    }

    /// Paths of plugins that are never merged, read relative to `config_dir`.
    pub fn ignore_plugins_from_path(&self, config_dir: &str) -> (r: Vec<String>)
        ensures
            r@.len() == self.ignore_plugins_from_path@.len(),
            forall|i: int| 0 <= i < r@.len() ==> (#[trigger] r@[i])@ == resolved_against(config_dir@, self.ignore_plugins_from_path@[i]@),
    {
        let mut r: Vec<String> = Vec::new();
        let mut i: usize = 0;
        while i < self.ignore_plugins_from_path.len()
            invariant
                0 <= i <= self.ignore_plugins_from_path@.len(),
                r@.len() == i,
                forall|j: int| 0 <= j < i ==> (#[trigger] r@[j])@ == resolved_against(config_dir@, self.ignore_plugins_from_path@[j]@),
            decreases self.ignore_plugins_from_path@.len() - i,
        {
            r.push(resolve_against(config_dir, &self.ignore_plugins_from_path[i]));
            i += 1;
        }
        r
    }

    /// Chooses the directory of `merged_lands.toml`: the directory given on the command line,
    /// which `prepare` must accept; else the `OpenMW` configuration directory if `prepare`
    /// accepts it; else the directory of the executable, which `prepare` must accept.
    pub fn resolve_location<P: Fn(&String) -> Result<(), String>>(
        explicit_dir: Option<String>,
        openmw_config_dir: Option<String>,
        executable_dir: Result<String, String>,
        prepare: P,
    ) -> (r: Result<AppConfigLocation, LocationError>)
        requires
            forall|d: &String| #[trigger] prepare.requires((d,)),
        ensures
            explicit_dir matches Some(e) ==> (
                (r matches Ok(l) && l.dir_view() == e@ && l.source_view() == AppConfigSource::Explicit && prepared(prepare, e@, true))
                || (r matches Err(LocationError::Explicit(_)) && prepared(prepare, e@, false))),
            explicit_dir is None && (openmw_config_dir matches Some(o) && (r matches Ok(l) && l.source_view() == AppConfigSource::OpenMWConfig))
                ==> (r matches Ok(l) && l.dir_view() == openmw_config_dir->0@ && prepared(prepare, openmw_config_dir->0@, true)),
            explicit_dir is None && (openmw_config_dir is None || !(r matches Ok(l) && l.source_view() == AppConfigSource::OpenMWConfig)) ==> {
                &&& (openmw_config_dir matches Some(o) ==> prepared(prepare, o@, false))
                &&& (executable_dir matches Err(_) ==> r matches Err(LocationError::NoExecutableDir(_)))
                &&& (executable_dir matches Ok(x) ==> (
                    (r matches Ok(l) && l.dir_view() == x@ && l.source_view() == AppConfigSource::ExecutableDir && prepared(prepare, x@, true))
                    || (r matches Err(LocationError::ExecutableDir(_)) && prepared(prepare, x@, false))))
            },
    {
        if let Some(dir) = explicit_dir {
            let res = prepare(&dir);
            proof {
                assert(prepared(prepare, dir@, res is Ok));
            }
            return match res {
                Ok(()) => Ok(AppConfigLocation { dir, source: AppConfigSource::Explicit }),
                Err(e) => Err(LocationError::Explicit(e)),
            };
        }
        if let Some(dir) = openmw_config_dir {
            let res = prepare(&dir);
            proof {
                assert(prepared(prepare, dir@, res is Ok));
            }
            if res.is_ok() {
                return Ok(AppConfigLocation { dir, source: AppConfigSource::OpenMWConfig });
            }
        }
        match executable_dir {
            Err(e) => Err(LocationError::NoExecutableDir(e)),
            Ok(dir) => {
                let res = prepare(&dir);
                proof {
                    assert(prepared(prepare, dir@, res is Ok));
                }
                match res {
                    Ok(()) => Ok(AppConfigLocation { dir, source: AppConfigSource::ExecutableDir }),
                    Err(e) => Err(LocationError::ExecutableDir(e)),
                }
            },
        }
    }
}

} // verus!
