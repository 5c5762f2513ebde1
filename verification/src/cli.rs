use crate::io::parsed_plugins::{OpenMWCfgSource, SortOrder};
use crate::text::owned;
use vstd::prelude::*;

verus! {

/// How much is logged.
#[derive(Copy, PartialEq, Eq, Debug, Hash, Clone, Structural)]
pub enum CliLevelFilter {
    Off,
    Error,
    Warn,
    Info,
    Debug,
    Trace,
}

/// The command line of the tool.
#[derive(Debug)]
pub struct Cli {
    /// The directory of the `Conflicts` folder, the log file and `merged_lands.toml`.
    pub merged_lands_dir: String,
    /// The `Data Files` folder of the plugins, used in classic Morrowind mode.
    pub data_files_dir: String,
    /// Classic Morrowind mode (`Data Files` and `Morrowind.ini`) instead of `OpenMW` mode.
    pub vanilla: bool,
    /// The `openmw.cfg` to use instead of the platform's default.
    pub openmw_cfg: Option<String>,
    /// The name of the output plugin.
    pub output_file: Option<String>,
    /// The directory of the output plugin.
    pub output_file_dir: Option<String>,
    /// The plugins to merge, in order.
    pub input_file_names: Vec<String>,
    /// How plugins are sorted.
    pub sort_order: SortOrder,
    /// The name of the log file in `merged_lands_dir`.
    pub log_file: String,
    /// How much is logged.
    pub log_level: CliLevelFilter,
    /// The size of the worker's stack, in MiB.
    pub stack_size_mb: u8,
    /// Remove every CELL record.
    pub remove_cell_records: bool,
    /// Color the LAND vertex colors to show conflicts.
    pub add_debug_vertex_colors: bool,
    /// Wait for ENTER before closing.
    pub wait_for_exit: bool,
}

impl Cli {
    /// The command line with no arguments given.
    pub fn default() -> (r: Cli)
        ensures
            r.merged_lands_dir@ == "."@,
            r.data_files_dir@ == "Data Files"@,
            !r.vanilla,
            r.openmw_cfg is None,
            r.output_file is None,
            r.output_file_dir is None,
            r.input_file_names@.len() == 0,
            r.sort_order == SortOrder::Default,
            r.log_file@ == "merged_lands.log"@,
            r.log_level == CliLevelFilter::Debug,
            r.stack_size_mb == 8,
            !r.remove_cell_records,
            !r.add_debug_vertex_colors,
            !r.wait_for_exit,
    {
        Cli {
            merged_lands_dir: owned("."),
            data_files_dir: owned("Data Files"),
            vanilla: false,
            openmw_cfg: None,
            output_file: None,
            output_file_dir: None,
            input_file_names: Vec::new(),
            sort_order: SortOrder::Default,
            log_file: owned("merged_lands.log"),
            log_level: CliLevelFilter::Debug,
            stack_size_mb: 8,
            remove_cell_records: false,
            add_debug_vertex_colors: false,
            wait_for_exit: false,
        }
    }

    /// The plugins given on the command line, if any.
    pub fn plugins(&self) -> (r: Option<&Vec<String>>)
        ensures
            self.input_file_names@.len() == 0 ==> r is None,
            self.input_file_names@.len() > 0 ==> r == Some(&self.input_file_names),
    {
        if self.input_file_names.len() == 0 {
            None
        } else {
            Some(&self.input_file_names)
        }
    }

    /// Returns `true` unless logging is off.
    pub fn should_write_log_file(&self) -> (b: bool)
        ensures
            b == (self.log_level != CliLevelFilter::Off),
    {
        self.log_level != CliLevelFilter::Off
    }

    /// The directory of the `Conflicts` folder, the log file and `merged_lands.toml`.
    pub fn merged_lands_dir(&self) -> (r: String)
        ensures
            r@ == self.merged_lands_dir@,
    {
        self.merged_lands_dir.clone()
    }

    /// The `Data Files` folder of classic Morrowind mode. Whether it exists is checked by the
    /// caller.
    pub fn data_files_dir(&self) -> (r: &String)
        ensures
            r == &self.data_files_dir,
    {
        &self.data_files_dir
    }

    /// Returns `true` unless classic Morrowind mode was asked for.
    pub fn is_openmw_mode(&self) -> (b: bool)
        ensures
            b == !self.vanilla,
    {
        !self.vanilla
    }

    /// Where the `OpenMW` configuration comes from: nothing in classic Morrowind mode, the
    /// `--openmw-cfg` path when given, the default location otherwise.
    pub fn openmw_cfg_source(&self) -> (r: Option<OpenMWCfgSource>)
        ensures
            self.vanilla ==> r is None,
            !self.vanilla && self.openmw_cfg is None ==> r matches Some(OpenMWCfgSource::Default),
            !self.vanilla && self.openmw_cfg is Some ==> (r matches Some(OpenMWCfgSource::Path(p)) && p@ == self.openmw_cfg->0@),
    {
        if self.vanilla {
            None
        } else {
            match &self.openmw_cfg {
                Some(p) => Some(OpenMWCfgSource::Path(p.clone())),
                None => Some(OpenMWCfgSource::Default),
            }
        }
    }

    /// The output directory given on the command line, if any.
    pub fn output_file_dir_override(&self) -> (r: Option<&String>)
        ensures
            r == match &self.output_file_dir {
                Some(d) => Some(d),
                None => None::<&String>,
            },
    {
        match &self.output_file_dir {
            Some(d) => Some(d),
            None => None,
        }
    }

    /// The name of the output plugin: the one given, or `Merged Lands.omwaddon` in `OpenMW`
    /// mode and `Merged Lands.esp` in classic Morrowind mode.
    pub fn output_file_name(&self) -> (r: &str)
        ensures
            self.output_file matches Some(f) ==> r@ == f@,
            self.output_file is None && !self.vanilla ==> r@ == "Merged Lands.omwaddon"@,
            self.output_file is None && self.vanilla ==> r@ == "Merged Lands.esp"@,
    {
        match &self.output_file {
            Some(f) => f.as_str(),
            None => if !self.vanilla {
                "Merged Lands.omwaddon"
            } else {
                "Merged Lands.esp"
            },
        }
    }

    /// The output directory of classic Morrowind mode: the one given, or the `Data Files`
    /// folder. Whether it exists is checked by the caller.
    pub fn output_file_dir(&self) -> (r: &String)
        ensures
            self.output_file_dir matches Some(d) ==> r == &d,
            self.output_file_dir is None ==> r == &self.data_files_dir,
    {
        match &self.output_file_dir {
            Some(d) => d,
            None => &self.data_files_dir,
        }
    }

    /// The size of the worker's stack, in bytes.
    pub fn stack_size(&self) -> (r: usize)
        ensures
            r == self.stack_size_mb * 1024 * 1024,
    {
        (self.stack_size_mb as usize) * 1024 * 1024
    }
}

} // verus!
