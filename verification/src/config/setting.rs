use crate::config::error::ConfigError;
use crate::path::{file_name, file_name_of, forward_slashes, has_root, join, join_path, normalize_separators, parent, parent_path};
use crate::text::{chars_of, has_prefix, owned, starts_with, string_of, string_from, find_char, first_index_of, same_text};
use vstd::prelude::*;

verus! {

/// Where a setting came from: the configuration file that defined it, and the comment lines
/// that preceded it there.
#[derive(Clone, Debug)]
pub struct GameSettingMeta {
    /// The configuration file (or directory) that defined the setting.
    pub source_config: String,
    /// The blank and comment lines right before the setting, each ending in `\n`.
    pub comment: String,
}

/// The text of a [`GameSettingMeta`].
pub struct MetaView {
    pub source_config: Seq<char>,
    pub comment: Seq<char>,
}

impl View for GameSettingMeta {
    type V = MetaView;

    open spec fn view(&self) -> MetaView {
        MetaView { source_config: self.source_config@, comment: self.comment@ }
    }
}

impl GameSettingMeta {
    /// Creates metadata for `source_config`, taking the queued `comment` and leaving it empty.
    pub fn take(source_config: &str, comment: &mut String) -> (r: GameSettingMeta)
        ensures
            r@ == (MetaView { source_config: source_config@, comment: old(comment)@ }),
            final(comment)@ == Seq::<char>::empty(),
    {
        let mut taken = String::new();
        std::mem::swap(&mut taken, comment);
        GameSettingMeta { source_config: owned(source_config), comment: taken }
    }

    /// A copy of this metadata.
    pub fn copy(&self) -> (r: GameSettingMeta)
        ensures
            r@ == self@,
    {
        GameSettingMeta { source_config: self.source_config.clone(), comment: self.comment.clone() }
    }
}

/// The directories that `?userdata?` and `?userconfig?` stand for.
#[derive(Clone, Debug)]
pub struct PlatformDirs {
    /// The user data directory (`?userdata?`).
    pub userdata: String,
    /// The user configuration directory (`?userconfig?`).
    pub userconfig: String,
}

/// The text of a [`PlatformDirs`].
pub struct DirsView {
    pub userdata: Seq<char>,
    pub userconfig: Seq<char>,
}

impl View for PlatformDirs {
    type V = DirsView;

    open spec fn view(&self) -> DirsView {
        DirsView { userdata: self.userdata@, userconfig: self.userconfig@ }
    }
}

impl PlatformDirs {
    /// A copy of these directories.
    pub fn copy(&self) -> (r: PlatformDirs)
        ensures
            r@ == self@,
    {
        PlatformDirs { userdata: self.userdata.clone(), userconfig: self.userconfig.clone() }
    }
}

/// The user's configuration directory of the platform, as the `dirs` crate finds it.
#[verifier::external_body]
fn platform_preference_dir() -> (r: Option<String>) {
    dirs::preference_dir().map(|p| p.to_string_lossy().to_string())
}

/// The user's data directory of the platform, as the `dirs` crate finds it.
#[verifier::external_body]
fn platform_data_dir() -> (r: Option<String>) {
    dirs::data_dir().map(|p| p.to_string_lossy().to_string())
}

/// The name of the engine's own directories.
pub open spec fn openmw_name() -> Seq<char> {
    seq!['o', 'p', 'e', 'n', 'm', 'w']
}

/// The name of a configuration file.
pub open spec fn cfg_name() -> Seq<char> {
    seq!['o', 'p', 'e', 'n', 'm', 'w', '.', 'c', 'f', 'g']
}

/// The engine's own directory `openmw` under the platform directory `base`, when the platform
/// has one.
pub fn openmw_dir_in(base: Option<String>) -> (r: Option<String>)
    ensures
        r is None <==> base is None,
        base matches Some(b) ==> r matches Some(p) && p@ == join_path(b@, openmw_name()),
{
    match base {
        Some(base) => {
            proof {
                reveal_strlit("openmw");
                assert("openmw"@ =~= openmw_name());
            }
            let p = join(&base, "openmw");
            Some(p)
        },
        None => None,
    }
}

/// The directory of the engine's configuration (input bindings and `openmw.cfg`): `openmw`
/// under the platform's configuration directory, if the platform has one.
pub fn default_config_path() -> (r: Option<String>)
    ensures
        r matches Some(p) ==> exists|base: Seq<char>| p@ == join_path(base, openmw_name()),
{
    openmw_dir_in(platform_preference_dir())
}

/// The directory of saves, screenshots and `data-local`: `openmw` under the platform's data
/// directory, if the platform has one.
pub fn default_userdata_path() -> (r: Option<String>)
    ensures
        r matches Some(p) ==> exists|base: Seq<char>| p@ == join_path(base, openmw_name()),
{
    openmw_dir_in(platform_data_dir())
}

/// The `data-local` directory `data` under the user data directory `userdata`, when there is
/// one.
pub fn data_local_in(userdata: Option<String>) -> (r: Option<String>)
    ensures
        r is None <==> userdata is None,
        userdata matches Some(u) ==> r matches Some(p) && p@ == join_path(u@, seq!['d', 'a', 't', 'a']),
{
    match userdata {
        Some(u) => {
            proof {
                reveal_strlit("data");
                assert("data"@ =~= seq!['d', 'a', 't', 'a']);
            }
            let p = join(&u, "data");
            Some(p)
        },
        None => None,
    }
}

/// The engine's default `data-local` directory: `data` under the user data directory.
pub fn default_data_local_path() -> (r: Option<String>)
    ensures
        r matches Some(p) ==> exists|base: Seq<char>| p@ == join_path(join_path(base, openmw_name()), seq!['d', 'a', 't', 'a']),
{
    let u = default_userdata_path();
    let ghost uv = u;
    let r = data_local_in(u);
    proof {
        if let Some(x) = uv {
            let base = choose|base: Seq<char>| x@ == join_path(base, openmw_name());
            assert(r->0@ == join_path(join_path(base, openmw_name()), seq!['d', 'a', 't', 'a']));
        }
    }
    r
}

impl PlatformDirs {
    /// The directories from the user data directory `userdata` and the user configuration
    /// directory `userconfig`, when there are both.
    pub fn from_found(userdata: Option<String>, userconfig: Option<String>) -> (r: Option<PlatformDirs>)
        ensures
            r is Some <==> (userdata is Some && userconfig is Some),
            r matches Some(d) ==> d.userdata@ == userdata->0@ && d.userconfig@ == userconfig->0@,
    {
        match (userdata, userconfig) {
            (Some(userdata), Some(userconfig)) => Some(PlatformDirs { userdata, userconfig }),
            _ => None,
        }
    }

    /// The platform's user data and configuration directories, if the platform has both.
    pub fn detect() -> (r: Option<PlatformDirs>)
        ensures
            r matches Some(d) ==> (exists|base: Seq<char>| d.userdata@ == join_path(base, openmw_name()))
                && (exists|base: Seq<char>| d.userconfig@ == join_path(base, openmw_name())),
    {
        Self::from_found(default_userdata_path(), default_config_path())
    }
}

/// The characters of a quoted value after its opening quote, as `OpenMW` reads them: `&`
/// escapes the next character, and an unescaped `"` ends the value.
pub open spec fn unquote_from(s: Seq<char>) -> Seq<char>
    decreases s.len(),
{
    if s.len() == 0 {
        Seq::empty()
    } else if s[0] == '&' {
        if s.len() >= 2 {
            seq![s[1]] + unquote_from(s.subrange(2, s.len() as int))
        } else {
            Seq::empty()
        }
    } else if s[0] == '"' {
        Seq::empty()
    } else {
        seq![s[0]] + unquote_from(s.drop_first())
    }
}

/// `s` without the separators (`/` or `\`) at its start.
pub open spec fn strip_leading_separators(s: Seq<char>) -> Seq<char>
    decreases s.len(),
{
    if s.len() > 0 && (s[0] == '/' || s[0] == '\\') {
        strip_leading_separators(s.drop_first())
    } else {
        s
    }
}

/// The `?userdata?` token.
pub open spec fn userdata_token() -> Seq<char> {
    seq!['?', 'u', 's', 'e', 'r', 'd', 'a', 't', 'a', '?']
}

/// The `?userconfig?` token.
pub open spec fn userconfig_token() -> Seq<char> {
    seq!['?', 'u', 's', 'e', 'r', 'c', 'o', 'n', 'f', 'i', 'g', '?']
}

/// The value with its quotes resolved, when it starts with a quote.
pub open spec fn unquoted(value: Seq<char>) -> Seq<char> {
    if value.len() > 0 && value[0] == '"' {
        unquote_from(value.drop_first())
    } else {
        value
    }
}

/// The value with a leading `?userdata?` or `?userconfig?` token replaced by its directory.
pub open spec fn detokenized(value: Seq<char>, dirs: DirsView) -> Seq<char> {
    if starts_with(value, userdata_token()) {
        join_path(dirs.userdata, strip_leading_separators(value.subrange(10, value.len() as int)))
    } else if starts_with(value, userconfig_token()) {
        join_path(dirs.userconfig, strip_leading_separators(value.subrange(12, value.len() as int)))
    } else {
        value
    }
}

/// The directory that a `data=`-style value names, read relative to `config_dir`: quotes
/// resolved, tokens replaced, `\` turned into `/`, and a relative result joined onto
/// `config_dir`.
pub open spec fn parsed_directory(config_dir: Seq<char>, value: Seq<char>, dirs: DirsView) -> Seq<char> {
    let p = forward_slashes(detokenized(unquoted(value), dirs));
    if has_root(p) {
        p
    } else {
        join_path(config_dir, p)
    }
}

fn unquote_exec(v: &Vec<char>) -> (r: String)
    requires
        v@.len() > 0,
    ensures
        r@ == unquote_from(v@.drop_first()),
{
    let mut out = String::new();
    let mut i: usize = 1;
    let n = v.len();
    let mut done = false;
    proof {
        assert(v@.subrange(1, n as int) =~= v@.drop_first());
        assert(out@ + unquote_from(v@.drop_first()) =~= unquote_from(v@.drop_first()));
    }
    while i < n && !done
        invariant
            n == v@.len(),
            1 <= i <= n,
            !done ==> out@ + unquote_from(v@.subrange(i as int, n as int)) == unquote_from(v@.drop_first()),
            done ==> out@ == unquote_from(v@.drop_first()),
        decreases n - i + (if done { 0int } else { 1int }),
    {
        let ghost rest = v@.subrange(i as int, n as int);
        let ghost out0 = out@;
        proof {
            assert(rest[0] == v@[i as int]);
        }
        if v[i] == '&' {
            if i + 1 < n {
                out.push(v[i + 1]);
                proof {
                    assert(rest[1] == v@[i + 1]);
                    assert(rest.subrange(2, rest.len() as int) =~= v@.subrange(i + 2, n as int));
                    assert(out@ + unquote_from(v@.subrange(i + 2, n as int)) =~= out0 + unquote_from(rest));
                }
                i += 2;
            } else {
                proof {
                    assert(out0 + unquote_from(rest) =~= out0);
                }
                done = true;
            }
        } else if v[i] == '"' {
            proof {
                assert(out0 + unquote_from(rest) =~= out0);
            }
            done = true;
        } else {
            out.push(v[i]);
            proof {
                assert(rest.drop_first() =~= v@.subrange(i + 1, n as int));
                assert(out@ + unquote_from(v@.subrange(i + 1, n as int)) =~= out0 + unquote_from(rest));
            }
            i += 1;
        }
    }
    if !done {
        proof {
            assert(v@.subrange(n as int, n as int) =~= Seq::<char>::empty());
            assert(out@ + Seq::<char>::empty() =~= out@);
        }
    }
    out
}

fn strip_leading_exec(v: &Vec<char>, from: usize) -> (r: String)
    requires
        from <= v@.len(),
    ensures
        r@ == strip_leading_separators(v@.subrange(from as int, v@.len() as int)),
{
    let n = v.len();
    let mut i = from;
    while i < n && (v[i] == '/' || v[i] == '\\')
        invariant
            from <= i <= n == v@.len(),
            strip_leading_separators(v@.subrange(i as int, n as int)) == strip_leading_separators(v@.subrange(from as int, n as int)),
        decreases n - i,
    {
        proof {
            assert(v@.subrange(i as int, n as int).drop_first() =~= v@.subrange(i + 1, n as int));
        }
        i += 1;
    }
    string_of(v, i, n)
}

/// Resolves a `data=`-style `value` relative to `config_dir`, with `dirs` standing for the
/// tokens.
pub fn parse_data_directory(config_dir: &str, value: &str, dirs: &PlatformDirs) -> (r: String)
    ensures
        r@ == parsed_directory(config_dir@, value@, dirs@),
{
    let raw = chars_of(value);
    let unq = if raw.len() > 0 && raw[0] == '"' {
        unquote_exec(&raw)
    } else {
        string_from(&raw)
    };
    let u = chars_of(&unq);
    proof {
        reveal_strlit("?userdata?");
        reveal_strlit("?userconfig?");
        assert("?userdata?"@ =~= userdata_token());
        assert("?userconfig?"@ =~= userconfig_token());
        assert(unq@ == unquoted(value@));
    }
    let detok = if has_prefix(&u, "?userdata?") {
        let suffix = strip_leading_exec(&u, 10);
        join(&dirs.userdata, &suffix)
    } else if has_prefix(&u, "?userconfig?") {
        let suffix = strip_leading_exec(&u, 12);
        join(&dirs.userconfig, &suffix)
    } else {
        unq
    };
    proof {
        assert(detok@ == detokenized(unquoted(value@), dirs@));
    }
    let p = normalize_separators(&detok);
    let pv = chars_of(&p);
    if pv.len() > 0 && pv[0] == '/' {
        p
    } else {
        join(config_dir, &p)
    }
}

/// The directory against which a value from `source_config` is read: the directory of
/// `source_config` when it names an `openmw.cfg` file, `source_config` itself otherwise.
pub open spec fn setting_base(source_config: Seq<char>) -> Seq<char> {
    if file_name(source_config) == Some(cfg_name()) {
        match parent_path(source_config) {
            Some(p) => p,
            None => source_config,
        }
    } else {
        source_config
    }
}

fn setting_base_exec(source_config: &str) -> (r: String)
    ensures
        r@ == setting_base(source_config@),
{
    proof {
        reveal_strlit("openmw.cfg");
        assert("openmw.cfg"@ =~= cfg_name());
    }
    let is_cfg = match file_name_of(source_config) {
        Some(f) => same_text(&f, "openmw.cfg"),
        None => false,
    };
    if is_cfg {
        match parent(source_config) {
            Some(p) => p,
            None => owned(source_config),
        }
    } else {
        owned(source_config)
    }
}

/// A directory entry of an `openmw.cfg` file (`data=`, `config=`, `user-data=`, ...): the text
/// as it appeared in the file, and the directory it names.
#[derive(Clone, Debug)]
pub struct DirectorySetting {
    /// Where the entry came from.
    pub meta: GameSettingMeta,
    original: String,
    parsed: String,
}

/// The text of a [`DirectorySetting`].
pub struct DirView {
    pub meta: MetaView,
    pub original: Seq<char>,
    pub parsed: Seq<char>,
}

impl View for DirectorySetting {
    type V = DirView;

    closed spec fn view(&self) -> DirView {
        DirView { meta: self.meta@, original: self.original@, parsed: self.parsed@ }
    }
}

/// The directory entry that `value` makes when read from `source_config` after `comment`.
pub open spec fn dir_setting(value: Seq<char>, source_config: Seq<char>, comment: Seq<char>, dirs: DirsView) -> DirView {
    DirView {
        meta: MetaView { source_config, comment },
        original: value,
        parsed: parsed_directory(setting_base(source_config), value, dirs),
    }
}

impl DirectorySetting {
    /// Reads `value` as a directory relative to `source_config` (or to its directory when it
    /// names an `openmw.cfg` file), taking the queued `comment` and leaving it empty.
    pub fn new(value: &str, source_config: &str, comment: &mut String, dirs: &PlatformDirs) -> (r: DirectorySetting)
        ensures
            r@ == dir_setting(value@, source_config@, old(comment)@, dirs@),
            final(comment)@ == Seq::<char>::empty(),
    {
        let base = setting_base_exec(source_config);
        let parsed = parse_data_directory(&base, value, dirs);
        let meta = GameSettingMeta::take(source_config, comment);
        DirectorySetting { meta, original: owned(value), parsed }
    }

    /// The text exactly as it appeared in the file, quotes included.
    pub fn original(&self) -> (r: &String)
        ensures
            r@ == self@.original,
    {
        &self.original
    }

    /// The directory that the entry names.
    pub fn parsed(&self) -> (r: &String)
        ensures
            r@ == self@.parsed,
    {
        &self.parsed
    }

    /// Where the entry came from.
    pub fn meta(&self) -> (r: &GameSettingMeta)
        ensures
            r@ == self@.meta,
    {
        &self.meta
    }

    /// A copy of this entry.
    pub fn copy(&self) -> (r: DirectorySetting)
        ensures
            r@ == self@,
    {
        DirectorySetting { meta: self.meta.copy(), original: self.original.clone(), parsed: self.parsed.clone() }
    }
}

/// A file name entry of an `openmw.cfg` file (`content=`, `fallback-archive=`,
/// `groundcover=`).
#[derive(Clone, Debug)]
pub struct FileSetting {
    meta: GameSettingMeta,
    value: String,
}

/// The text of a [`FileSetting`].
pub struct FileView {
    pub meta: MetaView,
    pub value: Seq<char>,
}

impl View for FileSetting {
    type V = FileView;

    closed spec fn view(&self) -> FileView {
        FileView { meta: self.meta@, value: self.value@ }
    }
}

impl FileSetting {
    /// A file entry for `value` from `source_config`, taking the queued `comment` and leaving
    /// it empty.
    pub fn new(value: &str, source_config: &str, comment: &mut String) -> (r: FileSetting)
        ensures
            r@ == (FileView { meta: MetaView { source_config: source_config@, comment: old(comment)@ }, value: value@ }),
            final(comment)@ == Seq::<char>::empty(),
    {
        let meta = GameSettingMeta::take(source_config, comment);
        FileSetting { meta, value: owned(value) }
    }

    /// The file name as it appeared in the file.
    pub fn value(&self) -> (r: &String)
        ensures
            r@ == self@.value,
    {
        &self.value
    }

    /// Where the entry came from.
    pub fn meta(&self) -> (r: &GameSettingMeta)
        ensures
            r@ == self@.meta,
    {
        &self.meta
    }
}

/// An entry of an unknown key, kept as it was.
#[derive(Clone, Debug)]
pub struct GenericSetting {
    meta: GameSettingMeta,
    key: String,
    value: String,
}

/// The text of a key and value entry.
pub struct PairView {
    pub meta: MetaView,
    pub key: Seq<char>,
    pub value: Seq<char>,
}

impl View for GenericSetting {
    type V = PairView;

    closed spec fn view(&self) -> PairView {
        PairView { meta: self.meta@, key: self.key@, value: self.value@ }
    }
}

impl GenericSetting {
    /// An entry of `key` and `value` from `source_config`, taking the queued `comment` and
    /// leaving it empty.
    pub fn new(key: &str, value: &str, source_config: &str, comment: &mut String) -> (r: GenericSetting)
        ensures
            r@ == (PairView { meta: MetaView { source_config: source_config@, comment: old(comment)@ }, key: key@, value: value@ }),
            final(comment)@ == Seq::<char>::empty(),
    {
        let meta = GameSettingMeta::take(source_config, comment);
        GenericSetting { meta, key: owned(key), value: owned(value) }
    }

    /// The key.
    pub fn key(&self) -> (r: &String)
        ensures
            r@ == self@.key,
    {
        &self.key
    }

    /// The value.
    pub fn value(&self) -> (r: &String)
        ensures
            r@ == self@.value,
    {
        &self.value
    }

    /// Where the entry came from.
    pub fn meta(&self) -> (r: &GameSettingMeta)
        ensures
            r@ == self@.meta,
    {
        &self.meta
    }
}

/// A `fallback=` entry: a key and its value, written `Key,Value`.
#[derive(Clone, Debug)]
pub struct GameSettingType {
    meta: GameSettingMeta,
    key: String,
    value: String,
}

impl View for GameSettingType {
    type V = PairView;

    closed spec fn view(&self) -> PairView {
        PairView { meta: self.meta@, key: self.key@, value: self.value@ }
    }
}

/// The key and value of a `fallback=` value: the text before its first comma and the text
/// after it; nothing when there is no comma.
pub open spec fn split_game_setting(text: Seq<char>) -> Option<(Seq<char>, Seq<char>)> {
    match first_index_of(text, ',') {
        Some(i) => Some((text.subrange(0, i), text.subrange(i + 1, text.len() as int))),
        None => None,
    }
}

impl GameSettingType {
    /// Reads a `fallback=` value from `source_config`, taking the queued `comment`.
    pub fn parse(text: &str, source_config: &str, comment: &mut String) -> (r: Result<GameSettingType, ConfigError>)
        ensures
            split_game_setting(text@) matches Some(kv) ==> (r matches Ok(g) && g@ == (PairView {
                meta: MetaView { source_config: source_config@, comment: old(comment)@ },
                key: kv.0,
                value: kv.1,
            }) && final(comment)@ == Seq::<char>::empty()),
            split_game_setting(text@) is None ==> (r matches Err(ConfigError::InvalidGameSetting { value, config })
                && value@ == text@ && config@ == source_config@),
    {
        let v = chars_of(text);
        let n = v.len();
        match find_char(&v, ',') {
            Some(i) => {
                assert(i < n);
                let key = string_of(&v, 0, i);
                let value = string_of(&v, i + 1, v.len());
                let meta = GameSettingMeta::take(source_config, comment);
                Ok(GameSettingType { meta, key, value })
            },
            None => Err(ConfigError::InvalidGameSetting { value: owned(text), config: owned(source_config) }),
        }
    }

    /// The key: the text before the first comma.
    pub fn key(&self) -> (r: &String)
        ensures
            r@ == self@.key,
    {
        &self.key
    }

    /// The value: the text after the first comma.
    pub fn value(&self) -> (r: &String)
        ensures
            r@ == self@.value,
    {
        &self.value
    }

    /// Where the entry came from.
    pub fn meta(&self) -> (r: &GameSettingMeta)
        ensures
            r@ == self@.meta,
    {
        &self.meta
    }
}

/// The text encodings that `OpenMW` reads plugins in.
#[derive(Clone, Copy, Debug, PartialEq, Eq, Structural)]
pub enum EncodingType {
    /// Central and Eastern European (`win1250`).
    WIN1250,
    /// Cyrillic (`win1251`).
    WIN1251,
    /// Western European (`win1252`).
    WIN1252,
}

/// An `encoding=` entry.
#[derive(Clone, Debug)]
pub struct EncodingSetting {
    meta: GameSettingMeta,
    value: EncodingType,
}

/// The content of an [`EncodingSetting`].
pub struct EncView {
    pub meta: MetaView,
    pub value: EncodingType,
}

impl View for EncodingSetting {
    type V = EncView;

    closed spec fn view(&self) -> EncView {
        EncView { meta: self.meta@, value: self.value }
    }
}

/// The encoding that `text` names, if it names one.
pub open spec fn encoding_named(text: Seq<char>) -> Option<EncodingType> {
    if text == seq!['w', 'i', 'n', '1', '2', '5', '0'] {
        Some(EncodingType::WIN1250)
    } else if text == seq!['w', 'i', 'n', '1', '2', '5', '1'] {
        Some(EncodingType::WIN1251)
    } else if text == seq!['w', 'i', 'n', '1', '2', '5', '2'] {
        Some(EncodingType::WIN1252)
    } else {
        None
    }
}

/// The name of an encoding as `openmw.cfg` writes it.
pub open spec fn encoding_name(e: EncodingType) -> Seq<char> {
    match e {
        EncodingType::WIN1250 => seq!['w', 'i', 'n', '1', '2', '5', '0'],
        EncodingType::WIN1251 => seq!['w', 'i', 'n', '1', '2', '5', '1'],
        EncodingType::WIN1252 => seq!['w', 'i', 'n', '1', '2', '5', '2'],
    }
}

impl EncodingSetting {
    /// Reads an `encoding=` value from `source_config`, taking the queued `comment`.
    pub fn parse(text: &str, source_config: &str, comment: &mut String) -> (r: Result<EncodingSetting, ConfigError>)
        ensures
            encoding_named(text@) matches Some(e) ==> (r matches Ok(s) && s@ == (EncView {
                meta: MetaView { source_config: source_config@, comment: old(comment)@ },
                value: e,
            }) && final(comment)@ == Seq::<char>::empty()),
            encoding_named(text@) is None ==> (r matches Err(ConfigError::BadEncoding { value, config })
                && value@ == text@ && config@ == source_config@),
    {
        proof {
            reveal_strlit("win1250");
            reveal_strlit("win1251");
            reveal_strlit("win1252");
            assert("win1250"@ =~= seq!['w', 'i', 'n', '1', '2', '5', '0']);
            assert("win1251"@ =~= seq!['w', 'i', 'n', '1', '2', '5', '1']);
            assert("win1252"@ =~= seq!['w', 'i', 'n', '1', '2', '5', '2']);
        }
        let e = if same_text(text, "win1250") {
            EncodingType::WIN1250
        } else if same_text(text, "win1251") {
            EncodingType::WIN1251
        } else if same_text(text, "win1252") {
            EncodingType::WIN1252
        } else {
            return Err(ConfigError::BadEncoding { value: owned(text), config: owned(source_config) });
        };
        let meta = GameSettingMeta::take(source_config, comment);
        Ok(EncodingSetting { meta, value: e })
    }

    /// The encoding.
    pub fn value(&self) -> (r: EncodingType)
        ensures
            r == self@.value,
    {
        self.value
    }

    /// Where the entry came from.
    pub fn meta(&self) -> (r: &GameSettingMeta)
        ensures
            r@ == self@.meta,
    {
        &self.meta
    }
}

} // verus!
