use vstd::prelude::*;
use vstd::std_specs::convert::FromSpecImpl;

verus! {

/// A failure of the I/O layer, carried through unchanged.
#[verifier::external_type_specification]
#[verifier::external_body]
pub struct ExIoError(std::io::Error);

/// Every way of loading or changing an `OpenMW` configuration can fail. Paths are given as
/// text.
#[derive(Debug)]
pub enum ConfigError {
    /// Reading or writing a file failed.
    Io(std::io::Error),
    /// The configuration path does not exist, or the directory holds no `openmw.cfg`.
    CannotFind(String),
    /// The path is neither a file nor a directory.
    NotFileOrDirectory(String),
    /// The `config=` chain is deeper than the limit.
    MaxDepthExceeded(String),
    /// A line that is neither blank, a comment, nor `key=value`.
    InvalidLine { line: String, config: String },
    /// A `content=` file appears twice while loading.
    DuplicateContentFile { file: String, config: String },
    /// A `groundcover=` file appears twice while loading.
    DuplicateGroundcoverFile { file: String, config: String },
    /// A `fallback-archive=` file appears twice while loading.
    DuplicateArchiveFile { file: String, config: String },
    /// A content file that is already in the configuration was added.
    CannotAddContentFile { file: String, config: String },
    /// A groundcover file that is already in the configuration was added.
    CannotAddGroundcoverFile { file: String, config: String },
    /// An archive that is already in the configuration was added.
    CannotAddArchiveFile { file: String, config: String },
    /// A `fallback=` value that is not `Key,Value`.
    InvalidGameSetting { value: String, config: String },
    /// An `encoding=` value other than `win1250`, `win1251` or `win1252`.
    BadEncoding { value: String, config: String },
    /// The configuration file cannot be written.
    NotWritable(String),
    /// The directory is not a `config=` entry of the loaded chain.
    SubconfigNotLoaded(String),
}

impl From<std::io::Error> for ConfigError {
    fn from(e: std::io::Error) -> (r: ConfigError) {
        ConfigError::Io(e)
    }
}

impl FromSpecImpl<std::io::Error> for ConfigError {
    open spec fn obeys_from_spec() -> bool {
        true
    }

    open spec fn from_spec(e: std::io::Error) -> ConfigError {
        ConfigError::Io(e)
    }
}

} // verus!
