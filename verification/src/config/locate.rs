use crate::config::error::ConfigError;
use crate::config::setting::cfg_name;
use crate::path::{has_root, join, join_path, split_on, split_text};
use crate::text::{chars_of, owned, string_of};
use vstd::prelude::*;

verus! {

/// `p` starts with a `~` that `shellexpand::tilde` may replace by the home directory: the `~`
/// is the whole text or is followed by a separator.
pub open spec fn starts_with_home(p: Seq<char>) -> bool {
    p.len() > 0 && p[0] == '~' && (p.len() == 1 || p[1] == '/' || p[1] == '\\')
}

/// Calls `shellexpand::tilde`, which replaces a leading `~` (alone or followed by a
/// separator) by the user's home directory when the platform knows one, and returns any other
/// text unchanged. What the home directory is depends on the environment, so of an expanded
/// text only its shape is stated.
#[verifier::external_body]
fn expand_tilde(input: &str) -> (r: String)
    ensures
        !starts_with_home(input@) ==> r@ == input@,
        starts_with_home(input@) ==> r@ == input@ || exists|home: Seq<char>| r@ == home + input@.subrange(1, input@.len() as int),
{
    shellexpand::tilde(input).into_owned()
}

/// `e` is `p`, or `p` with its leading `~` replaced by some home directory.
pub open spec fn home_expanded(e: Seq<char>, p: Seq<char>) -> bool {
    e == p || exists|home: Seq<char>| e == home + p.subrange(1, p.len() as int)
}

/// Where the environment says the configuration is.
#[derive(Debug)]
pub enum ConfigLocation {
    /// `OPENMW_CONFIG` names this file or directory (after `~` expansion); a relative path is
    /// read from the current directory.
    Explicit(String),
    /// `OPENMW_CONFIG_DIR` lists these directories (after `~` expansion), in order: the first
    /// that holds an `openmw.cfg` is used, and the platform's default when none does.
    Search(Vec<String>),
    /// Neither variable is set: the platform's default location.
    Default,
}

/// Reads the values of the `OPENMW_CONFIG` and `OPENMW_CONFIG_DIR` environment variables, the
/// first taking precedence. The directory list is separated by `:`. Fails with
/// [`ConfigError::NotFileOrDirectory`] when `OPENMW_CONFIG` expands to nothing.
pub fn locate_from_env(openmw_config: Option<String>, openmw_config_dir: Option<String>) -> (r: Result<ConfigLocation, ConfigError>)
    ensures
        openmw_config matches Some(p) ==> (!starts_with_home(p@) ==> (
            (p@.len() == 0 ==> (r matches Err(ConfigError::NotFileOrDirectory(e)) && e@ == p@))
            && (p@.len() > 0 ==> (r matches Ok(ConfigLocation::Explicit(e)) && e@ == p@)))),
        openmw_config matches Some(p) ==> (starts_with_home(p@) ==> (
            (r matches Ok(ConfigLocation::Explicit(e)) && e@.len() > 0 && home_expanded(e@, p@))
            || (r matches Err(ConfigError::NotFileOrDirectory(e)) && e@.len() == 0 && home_expanded(e@, p@)))),
        openmw_config is None && openmw_config_dir is Some ==> (r matches Ok(ConfigLocation::Search(dirs))
            && dirs@.len() == split_on(openmw_config_dir->0@, ':').len()
            && forall|i: int| 0 <= i < dirs@.len() ==> (!starts_with_home(split_on(openmw_config_dir->0@, ':')[i])
                ==> (#[trigger] dirs@[i])@ == split_on(openmw_config_dir->0@, ':')[i])
            && forall|i: int| 0 <= i < dirs@.len() ==> (starts_with_home(split_on(openmw_config_dir->0@, ':')[i])
                ==> home_expanded((#[trigger] dirs@[i])@, split_on(openmw_config_dir->0@, ':')[i]))),
        openmw_config is None && openmw_config_dir is None ==> r matches Ok(ConfigLocation::Default),
{
    if let Some(p) = openmw_config {
        let e = expand_tilde(&p);
        if chars_of(&e).len() == 0 {
            return Err(ConfigError::NotFileOrDirectory(e));
        }
        return Ok(ConfigLocation::Explicit(e));
    }
    match openmw_config_dir {
        Some(list) => {
            let pieces = split_text(&list, ':');
            let ghost parts = split_on(openmw_config_dir->0@, ':');
            let mut dirs: Vec<String> = Vec::new();
            let mut i: usize = 0;
            while i < pieces.len()
                invariant
                    pieces@.map_values(|p: String| p@) == parts,
                    0 <= i <= pieces@.len(),
                    dirs@.len() == i,
                    forall|j: int| 0 <= j < i ==> (!starts_with_home(parts[j]) ==> (#[trigger] dirs@[j])@ == parts[j]),
                    forall|j: int| 0 <= j < i ==> (starts_with_home(parts[j]) ==> home_expanded((#[trigger] dirs@[j])@, parts[j])),
                decreases pieces@.len() - i,
            {
                proof {
                    assert(parts[i as int] == pieces@[i as int]@);
                }
                dirs.push(expand_tilde(&pieces[i]));
                i += 1;
            }
            Ok(ConfigLocation::Search(dirs))
        },
        None => Ok(ConfigLocation::Default),
    }
}

/// What the file system holds at a configuration path.
#[derive(Debug, Clone, Copy, PartialEq, Eq, Structural)]
pub enum PathKind {
    /// A directory; `has_cfg` tells whether it holds an `openmw.cfg` file (or link).
    Directory { has_cfg: bool },
    /// A file, or a link.
    File,
    /// Something else.
    Other,
    /// Nothing.
    Missing,
}

/// The `openmw.cfg` that a configuration path stands for, given what the file system holds
/// there: the `openmw.cfg` inside a directory, or the file itself. Fails with
/// [`ConfigError::NotFileOrDirectory`] for an empty, missing or special path, and with
/// [`ConfigError::CannotFind`] for a directory without `openmw.cfg`.
pub fn config_file_for(path: &str, kind: PathKind) -> (r: Result<String, ConfigError>)
    ensures
        path@.len() == 0 ==> (r matches Err(ConfigError::NotFileOrDirectory(p)) && p@ == path@),
        path@.len() > 0 ==> match kind {
            PathKind::Directory { has_cfg: true } => r matches Ok(f) && f@ == join_path(path@, cfg_name()),
            PathKind::Directory { has_cfg: false } => r matches Err(ConfigError::CannotFind(p)) && p@ == path@,
            PathKind::File => r matches Ok(f) && f@ == path@,
            _ => r matches Err(ConfigError::NotFileOrDirectory(p)) && p@ == path@,
        },
{
    if chars_of(path).len() == 0 {
        return Err(ConfigError::NotFileOrDirectory(owned(path)));
    }
    proof {
        reveal_strlit("openmw.cfg");
        assert("openmw.cfg"@ =~= cfg_name());
    }
    match kind {
        PathKind::Directory { has_cfg } => if has_cfg {
            Ok(join(path, "openmw.cfg"))
        } else {
            Err(ConfigError::CannotFind(owned(path)))
        },
        PathKind::File => Ok(owned(path)),
        _ => Err(ConfigError::NotFileOrDirectory(owned(path))),
    }
}

/// A configuration path given relative to the current directory needs resolving before use.
pub fn needs_canonical_form(path: &str) -> (b: bool)
    ensures
        b == (path@.len() > 0 && !has_root(path@)),
{
    let v = chars_of(path);
    v.len() > 0 && v[0] != '/'
}

} // verus!
