use crate::config::error::ConfigError;
use crate::config::setting::{
    cfg_name, encoding_name, encoding_named, split_game_setting, dir_setting, DirView, DirectorySetting, DirsView, EncView, EncodingSetting, FileSetting,
    FileView, GameSettingMeta, GameSettingType, GenericSetting, MetaView, PairView, PlatformDirs,
};
use crate::path::{forward_slashes, join, join_path, normalize_separators, parent, parent_path, path_components, same_path};
use crate::text::{first_index_of, lowered, owned, same_text, text_lines, trimmed};
use vstd::prelude::*;

verus! {

/// One entry of an `openmw.cfg` file. The variant decides the key that the entry has in the
/// file and how its value is read. Unknown keys are kept as [`SettingValue::Generic`].
#[derive(Clone, Debug)]
pub enum SettingValue {
    /// A `data=` entry: a data directory of the virtual file system.
    DataDirectory(DirectorySetting),
    /// A `fallback=` entry: a `Key,Value` pair of `Morrowind.ini` style.
    GameSetting(GameSettingType),
    /// A `user-data=` entry.
    UserData(DirectorySetting),
    /// A `data-local=` entry: the data directory of highest priority.
    DataLocal(DirectorySetting),
    /// A `resources=` entry: the engine's resources directory.
    Resources(DirectorySetting),
    /// An `encoding=` entry.
    Encoding(EncodingSetting),
    /// A `config=` entry: another directory of the configuration chain.
    SubConfiguration(DirectorySetting),
    /// Any other `key=value` entry, kept as it was.
    Generic(GenericSetting),
    /// A `content=` entry: a plugin.
    ContentFile(FileSetting),
    /// A `fallback-archive=` entry: a BSA archive.
    BethArchive(FileSetting),
    /// A `groundcover=` entry: a groundcover plugin.
    Groundcover(FileSetting),
}

/// The content of a [`SettingValue`].
pub enum SettingView {
    DataDirectory(DirView),
    GameSetting(PairView),
    UserData(DirView),
    DataLocal(DirView),
    Resources(DirView),
    Encoding(EncView),
    SubConfiguration(DirView),
    Generic(PairView),
    ContentFile(FileView),
    BethArchive(FileView),
    Groundcover(FileView),
}

impl View for SettingValue {
    type V = SettingView;

    open spec fn view(&self) -> SettingView {
        match self {
            SettingValue::DataDirectory(d) => SettingView::DataDirectory(d@),
            SettingValue::GameSetting(g) => SettingView::GameSetting(g@),
            SettingValue::UserData(d) => SettingView::UserData(d@),
            SettingValue::DataLocal(d) => SettingView::DataLocal(d@),
            SettingValue::Resources(d) => SettingView::Resources(d@),
            SettingValue::Encoding(e) => SettingView::Encoding(e@),
            SettingValue::SubConfiguration(d) => SettingView::SubConfiguration(d@),
            SettingValue::Generic(g) => SettingView::Generic(g@),
            SettingValue::ContentFile(f) => SettingView::ContentFile(f@),
            SettingValue::BethArchive(f) => SettingView::BethArchive(f@),
            SettingValue::Groundcover(f) => SettingView::Groundcover(f@),
        }
    }
}

/// Where a setting came from.
pub open spec fn meta_of(v: SettingView) -> MetaView {
    match v {
        SettingView::DataDirectory(d) => d.meta,
        SettingView::GameSetting(g) => g.meta,
        SettingView::UserData(d) => d.meta,
        SettingView::DataLocal(d) => d.meta,
        SettingView::Resources(d) => d.meta,
        SettingView::Encoding(e) => e.meta,
        SettingView::SubConfiguration(d) => d.meta,
        SettingView::Generic(g) => g.meta,
        SettingView::ContentFile(f) => f.meta,
        SettingView::BethArchive(f) => f.meta,
        SettingView::Groundcover(f) => f.meta,
    }
}

impl SettingValue {
    /// Where the setting came from.
    pub fn meta(&self) -> (r: &GameSettingMeta)
        ensures
            r@ == meta_of(self@),
    {
        match self {
            SettingValue::DataDirectory(d) => d.meta(),
            SettingValue::GameSetting(g) => g.meta(),
            SettingValue::UserData(d) => d.meta(),
            SettingValue::DataLocal(d) => d.meta(),
            SettingValue::Resources(d) => d.meta(),
            SettingValue::Encoding(e) => e.meta(),
            SettingValue::SubConfiguration(d) => d.meta(),
            SettingValue::Generic(g) => g.meta(),
            SettingValue::ContentFile(f) => f.meta(),
            SettingValue::BethArchive(f) => f.meta(),
            SettingValue::Groundcover(f) => f.meta(),
        }
    }
}

/// The kinds of file name entries.
#[derive(Clone, Copy, Debug, PartialEq, Eq, Structural)]
pub enum FileKind {
    /// `content=`
    Content,
    /// `fallback-archive=`
    Archive,
    /// `groundcover=`
    Groundcover,
}

/// The kinds of directory entries.
#[derive(Clone, Copy, Debug, PartialEq, Eq, Structural)]
pub enum DirKind {
    /// `data=`
    Data,
    /// `user-data=`
    UserData,
    /// `data-local=`
    DataLocal,
    /// `resources=`
    Resources,
    /// `config=`
    SubConfig,
}

/// The file name entry that `v` is, when it is one of kind `k`.
pub open spec fn file_of(v: SettingView, k: FileKind) -> Option<FileView> {
    match v {
        SettingView::ContentFile(f) => if k == FileKind::Content { Some(f) } else { None },
        SettingView::BethArchive(f) => if k == FileKind::Archive { Some(f) } else { None },
        SettingView::Groundcover(f) => if k == FileKind::Groundcover { Some(f) } else { None },
        _ => None,
    }
}

/// The directory entry that `v` is, when it is one of kind `k`.
pub open spec fn dir_of(v: SettingView, k: DirKind) -> Option<DirView> {
    match v {
        SettingView::DataDirectory(d) => if k == DirKind::Data { Some(d) } else { None },
        SettingView::UserData(d) => if k == DirKind::UserData { Some(d) } else { None },
        SettingView::DataLocal(d) => if k == DirKind::DataLocal { Some(d) } else { None },
        SettingView::Resources(d) => if k == DirKind::Resources { Some(d) } else { None },
        SettingView::SubConfiguration(d) => if k == DirKind::SubConfig { Some(d) } else { None },
        _ => None,
    }
}

/// The game setting that `v` is, if it is one.
pub open spec fn game_of(v: SettingView) -> Option<PairView> {
    match v {
        SettingView::GameSetting(g) => Some(g),
        _ => None,
    }
}

/// The file name entries of kind `k` among `s`, in order.
pub open spec fn files_in(s: Seq<SettingView>, k: FileKind) -> Seq<FileView> {
    s.filter_map(|v: SettingView| file_of(v, k))
}

/// The directory entries of kind `k` among `s`, in order.
pub open spec fn dirs_in(s: Seq<SettingView>, k: DirKind) -> Seq<DirView> {
    s.filter_map(|v: SettingView| dir_of(v, k))
}

/// The file name entry of kind `k` in `v`, if `v` is one.
fn file_ref(v: &SettingValue, k: FileKind) -> (r: Option<&FileSetting>)
    ensures
        r matches Some(f) ==> file_of(v@, k) == Some(f@),
        r is None ==> file_of(v@, k) is None,
{
    match v {
        SettingValue::ContentFile(f) => if k == FileKind::Content { Some(f) } else { None },
        SettingValue::BethArchive(f) => if k == FileKind::Archive { Some(f) } else { None },
        SettingValue::Groundcover(f) => if k == FileKind::Groundcover { Some(f) } else { None },
        _ => None,
    }
}

/// The directory entry of kind `k` in `v`, if `v` is one.
fn dir_ref(v: &SettingValue, k: DirKind) -> (r: Option<&DirectorySetting>)
    ensures
        r matches Some(d) ==> dir_of(v@, k) == Some(d@),
        r is None ==> dir_of(v@, k) is None,
{
    match v {
        SettingValue::DataDirectory(d) => if k == DirKind::Data { Some(d) } else { None },
        SettingValue::UserData(d) => if k == DirKind::UserData { Some(d) } else { None },
        SettingValue::DataLocal(d) => if k == DirKind::DataLocal { Some(d) } else { None },
        SettingValue::Resources(d) => if k == DirKind::Resources { Some(d) } else { None },
        SettingValue::SubConfiguration(d) => if k == DirKind::SubConfig { Some(d) } else { None },
        _ => None,
    }
}

/// The directory entry `d` as a setting of kind `k`.
fn dir_value(d: DirectorySetting, k: DirKind) -> (r: SettingValue)
    ensures
        dir_of(r@, k) == Some(d@),
        r@ == dir_view_as(d@, k),
{
    match k {
        DirKind::Data => SettingValue::DataDirectory(d),
        DirKind::UserData => SettingValue::UserData(d),
        DirKind::DataLocal => SettingValue::DataLocal(d),
        DirKind::Resources => SettingValue::Resources(d),
        DirKind::SubConfig => SettingValue::SubConfiguration(d),
    }
}

/// The file entry `f` as a setting of kind `k`.
fn file_value(f: FileSetting, k: FileKind) -> (r: SettingValue)
    ensures
        file_of(r@, k) == Some(f@),
        r@ == file_view_as(f@, k),
{
    match k {
        FileKind::Content => SettingValue::ContentFile(f),
        FileKind::Archive => SettingValue::BethArchive(f),
        FileKind::Groundcover => SettingValue::Groundcover(f),
    }
}

/// The setting of kind `k` holding the directory entry `d`.
pub open spec fn dir_view_as(d: DirView, k: DirKind) -> SettingView {
    match k {
        DirKind::Data => SettingView::DataDirectory(d),
        DirKind::UserData => SettingView::UserData(d),
        DirKind::DataLocal => SettingView::DataLocal(d),
        DirKind::Resources => SettingView::Resources(d),
        DirKind::SubConfig => SettingView::SubConfiguration(d),
    }
}

/// The setting of kind `k` holding the file entry `f`.
pub open spec fn file_view_as(f: FileView, k: FileKind) -> SettingView {
    match k {
        FileKind::Content => SettingView::ContentFile(f),
        FileKind::Archive => SettingView::BethArchive(f),
        FileKind::Groundcover => SettingView::Groundcover(f),
    }
}

/// The last directory entry of kind `k` among `s`, if there is one.
pub open spec fn last_dir(s: Seq<SettingView>, k: DirKind) -> Option<DirView> {
    let d = dirs_in(s, k);
    if d.len() == 0 {
        None
    } else {
        Some(d.last())
    }
}

/// The views of a sequence of settings.
pub open spec fn views_of(s: Seq<SettingValue>) -> Seq<SettingView> {
    s.map_values(|v: SettingValue| v@)
}

/// A resolved configuration chain: the root `openmw.cfg` and every setting of every file of
/// the chain, in the order in which they were read.
#[derive(Clone, Debug)]
pub struct OpenMWConfiguration {
    root_config: String,
    settings: Vec<SettingValue>,
    dirs: PlatformDirs,
}

impl OpenMWConfiguration {
    /// The root configuration file has a parent directory.
    pub open spec fn wf(&self) -> bool {
        parent_path(self.root()) is Some
    }

    /// The path of the root configuration file.
    pub closed spec fn root(&self) -> Seq<char> {
        self.root_config@
    }

    /// The settings of the chain, in order.
    pub closed spec fn settings_values(&self) -> Seq<SettingValue> {
        self.settings@
    }

    /// The content of the settings of the chain, in order.
    pub open spec fn settings_view(&self) -> Seq<SettingView> {
        views_of(self.settings_values())
    }

    /// The directories that the tokens of directory entries stand for.
    pub closed spec fn dirs_view(&self) -> DirsView {
        self.dirs@
    }

    /// The directory of the root configuration file.
    pub open spec fn root_dir(&self) -> Seq<char> {
        parent_path(self.root())->0
    }

    /// The directory of the user configuration: that of the last `config=` entry, or the
    /// directory of the root configuration file when there is none.
    pub open spec fn user_dir(&self) -> Seq<char> {
        match last_dir(self.settings_view(), DirKind::SubConfig) {
            Some(d) => d.parsed,
            None => self.root_dir(),
        }
    }

    /// The user configuration file, to which new settings are attributed.
    pub open spec fn user_cfg(&self) -> Seq<char> {
        join_path(self.user_dir(), cfg_name())
    }

    /// `other` has the same root and token directories as `self`.
    pub open spec fn same_frame(&self, other: &Self) -> bool {
        &&& other.root() == self.root()
        &&& other.dirs_view() == self.dirs_view()
    }

    /// A configuration chain rooted at `root_config` with no settings yet.
    pub fn rooted(root_config: &str, dirs: PlatformDirs) -> (r: OpenMWConfiguration)
        requires
            parent_path(root_config@) is Some,
        ensures
            r.wf(),
            r.root() == root_config@,
            r.settings_view() == Seq::<SettingView>::empty(),
            r.dirs_view() == dirs@,
    {
        let r = OpenMWConfiguration { root_config: owned(root_config), settings: Vec::new(), dirs };
        proof {
            assert(views_of(r.settings@) =~= Seq::<SettingView>::empty());
        }
        r
    }

    /// The directories that the tokens of directory entries stand for.
    pub fn platform_dirs(&self) -> (r: &PlatformDirs)
        ensures
            r@ == self.dirs_view(),
    {
        &self.dirs
    }

    /// The path of the configuration file at the root of the chain.
    pub fn root_config_file(&self) -> (r: &String)
        ensures
            r@ == self.root(),
    {
        &self.root_config
    }

    /// The directory of the configuration file at the root of the chain.
    pub fn root_config_dir(&self) -> (r: String)
        requires
            self.wf(),
        ensures
            r@ == self.root_dir(),
    {
        match parent(&self.root_config) {
            Some(p) => p,
            None => String::new(),
        }
    }

    /// The directory entries of kind `k`, in order.
    fn dirs_of_kind(&self, k: DirKind) -> (r: Vec<&DirectorySetting>)
        ensures
            r@.len() == dirs_in(self.settings_view(), k).len(),
            forall|i: int| 0 <= i < r@.len() ==> (#[trigger] r@[i])@ == dirs_in(self.settings_view(), k)[i],
    {
        let mut r: Vec<&DirectorySetting> = Vec::new();
        let mut i: usize = 0;
        let ghost s = self.settings_view();
        while i < self.settings.len()
            invariant
                s == views_of(self.settings@),
                0 <= i <= self.settings@.len(),
                r@.len() == dirs_in(s.take(i as int), k).len(),
                forall|j: int| 0 <= j < r@.len() ==> (#[trigger] r@[j])@ == dirs_in(s.take(i as int), k)[j],
            decreases self.settings@.len() - i,
        {
            proof {
                assert(s.take(i + 1).drop_last() =~= s.take(i as int));
                assert(s.take(i + 1).last() == s[i as int]);
            }
            if let Some(d) = dir_ref(&self.settings[i], k) {
                r.push(d);
            }
            i += 1;
        }
        proof {
            assert(s.take(self.settings@.len() as int) =~= s);
        }
        r
    }

    /// The file name entries of kind `k`, in order.
    fn files_of_kind(&self, k: FileKind) -> (r: Vec<&FileSetting>)
        ensures
            r@.len() == files_in(self.settings_view(), k).len(),
            forall|i: int| 0 <= i < r@.len() ==> (#[trigger] r@[i])@ == files_in(self.settings_view(), k)[i],
    {
        let mut r: Vec<&FileSetting> = Vec::new();
        let mut i: usize = 0;
        let ghost s = self.settings_view();
        while i < self.settings.len()
            invariant
                s == views_of(self.settings@),
                0 <= i <= self.settings@.len(),
                r@.len() == files_in(s.take(i as int), k).len(),
                forall|j: int| 0 <= j < r@.len() ==> (#[trigger] r@[j])@ == files_in(s.take(i as int), k)[j],
            decreases self.settings@.len() - i,
        {
            proof {
                assert(s.take(i + 1).drop_last() =~= s.take(i as int));
                assert(s.take(i + 1).last() == s[i as int]);
            }
            if let Some(f) = file_ref(&self.settings[i], k) {
                r.push(f);
            }
            i += 1;
        }
        proof {
            assert(s.take(self.settings@.len() as int) =~= s);
        }
        r
    }

    /// The last directory entry of kind `k`, if there is one.
    fn last_of_kind(&self, k: DirKind) -> (r: Option<&DirectorySetting>)
        ensures
            r matches Some(d) ==> last_dir(self.settings_view(), k) == Some(d@),
            r is None ==> last_dir(self.settings_view(), k) is None,
    {
        let all = self.dirs_of_kind(k);
        if all.len() == 0 {
            None
        } else {
            Some(all[all.len() - 1])
        }
    }

    /// The `config=` entries of the chain, in order.
    pub fn sub_configs(&self) -> (r: Vec<&DirectorySetting>)
        ensures
            r@.len() == dirs_in(self.settings_view(), DirKind::SubConfig).len(),
            forall|i: int| 0 <= i < r@.len() ==> (#[trigger] r@[i])@ == dirs_in(self.settings_view(), DirKind::SubConfig)[i],
    {
        self.dirs_of_kind(DirKind::SubConfig)
    }

    /// The `data=` entries of the chain, in order.
    pub fn data_directories_iter(&self) -> (r: Vec<&DirectorySetting>)
        ensures
            r@.len() == dirs_in(self.settings_view(), DirKind::Data).len(),
            forall|i: int| 0 <= i < r@.len() ==> (#[trigger] r@[i])@ == dirs_in(self.settings_view(), DirKind::Data)[i],
    {
        self.dirs_of_kind(DirKind::Data)
    }

    /// The `content=` entries of the chain, in order.
    pub fn content_files_iter(&self) -> (r: Vec<&FileSetting>)
        ensures
            r@.len() == files_in(self.settings_view(), FileKind::Content).len(),
            forall|i: int| 0 <= i < r@.len() ==> (#[trigger] r@[i])@ == files_in(self.settings_view(), FileKind::Content)[i],
    {
        self.files_of_kind(FileKind::Content)
    }

    /// The `groundcover=` entries of the chain, in order.
    pub fn groundcover_iter(&self) -> (r: Vec<&FileSetting>)
        ensures
            r@.len() == files_in(self.settings_view(), FileKind::Groundcover).len(),
            forall|i: int| 0 <= i < r@.len() ==> (#[trigger] r@[i])@ == files_in(self.settings_view(), FileKind::Groundcover)[i],
    {
        self.files_of_kind(FileKind::Groundcover)
    }

    /// The `fallback-archive=` entries of the chain, in order.
    pub fn fallback_archives_iter(&self) -> (r: Vec<&FileSetting>)
        ensures
            r@.len() == files_in(self.settings_view(), FileKind::Archive).len(),
            forall|i: int| 0 <= i < r@.len() ==> (#[trigger] r@[i])@ == files_in(self.settings_view(), FileKind::Archive)[i],
    {
        self.files_of_kind(FileKind::Archive)
    }

    /// The directory of the user configuration: that of the last `config=` entry, or the
    /// directory of the root configuration file when the chain has none.
    pub fn user_config_path(&self) -> (r: String)
        requires
            self.wf(),
        ensures
            r@ == self.user_dir(),
    {
        match self.last_of_kind(DirKind::SubConfig) {
            Some(d) => d.parsed().clone(),
            None => self.root_config_dir(),
        }
    }

    /// Returns `true` if the root configuration is the user configuration: the directory of
    /// the root file is the user configuration directory (compared as text).
    pub fn is_user_config(&self) -> (b: bool)
        requires
            self.wf(),
        ensures
            b == (self.root_dir() == self.user_dir()),
    {
        let root = self.root_config_dir();
        let user = self.user_config_path();
        same_text(&root, &user)
    }

    /// The user configuration: this configuration itself when it is the user configuration,
    /// otherwise what `load` gives for the user configuration directory.
    pub fn user_config<F: FnOnce(String) -> Result<OpenMWConfiguration, ConfigError>>(self, load: F) -> (r: Result<
        OpenMWConfiguration,
        ConfigError,
    >)
        requires
            self.wf(),
            forall|p: String| load.requires((p,)),
        ensures
            self.root_dir() == self.user_dir() ==> r == Ok::<OpenMWConfiguration, ConfigError>(self),
            self.root_dir() != self.user_dir() ==> exists|p: String| p@ == self.user_dir() && #[trigger] load.ensures((p,), r),
    {
        if self.is_user_config() {
            Ok(self)
        } else {
            let user = self.user_config_path();
            load(user)
        }
    }
}


/// `v` is a `data=` entry naming the directory `path`, compared by path components.
pub open spec fn names_data_dir(v: SettingView, path: Seq<char>) -> bool {
    dir_of(v, DirKind::Data) matches Some(d) && path_components(d.parsed) == path_components(path)
}

/// `v` is a file name entry of kind `k` named `name`.
pub open spec fn named_file(v: SettingView, k: FileKind, name: Seq<char>) -> bool {
    file_of(v, k) matches Some(f) && f.value == name
}

/// The position of the first file name entry of kind `k` named `name` among `s`.
pub open spec fn first_named(s: Seq<SettingView>, k: FileKind, name: Seq<char>) -> Option<int> {
    if exists|i: int| 0 <= i < s.len() && named_file(s[i], k, name) {
        Some(choose|i: int| 0 <= i < s.len() && named_file(s[i], k, name) && forall|j: int| 0 <= j < i ==> !named_file(s[j], k, name))
    } else {
        None
    }
}

/// The settings after adding a file name entry of kind `k` for `name`, attributed to
/// `source_config`: unchanged when an entry with that name exists, else the new entry appended.
pub open spec fn with_file_added(s: Seq<SettingView>, k: FileKind, name: Seq<char>, source_config: Seq<char>) -> Seq<SettingView> {
    if first_named(s, k, name) is Some {
        s
    } else {
        s.push(new_file(name, source_config, k))
    }
}

/// The settings after removing every file name entry of kind `k` named `name`.
pub open spec fn with_file_removed(s: Seq<SettingView>, k: FileKind, name: Seq<char>) -> Seq<SettingView> {
    s.filter(|v: SettingView| !named_file(v, k, name))
}

/// `e` is the error for adding file `file` of kind `k` that `config` already names.
pub open spec fn add_error(e: ConfigError, k: FileKind, file: Seq<char>, config: Seq<char>) -> bool {
    match e {
        ConfigError::CannotAddContentFile { file: f, config: c } => k == FileKind::Content && f@ == file && c@ == config,
        ConfigError::CannotAddGroundcoverFile { file: f, config: c } => k == FileKind::Groundcover && f@ == file && c@ == config,
        ConfigError::CannotAddArchiveFile { file: f, config: c } => k == FileKind::Archive && f@ == file && c@ == config,
        _ => false,
    }
}

/// A new file name entry of kind `k` for `name`, attributed to `source_config` with no comment.
pub open spec fn new_file(name: Seq<char>, source_config: Seq<char>, k: FileKind) -> SettingView {
    file_view_as(FileView { meta: MetaView { source_config, comment: Seq::empty() }, value: name }, k)
}

/// `v` is not a file name entry of kind `k`.
pub open spec fn not_file_kind(v: SettingView, k: FileKind) -> bool {
    file_of(v, k) is None
}

/// `v` is not a directory entry of kind `k`.
pub open spec fn not_dir_kind(v: SettingView, k: DirKind) -> bool {
    dir_of(v, k) is None
}

/// `v` is not a game setting.
pub open spec fn not_game(v: SettingView) -> bool {
    game_of(v) is None
}

proof fn lemma_filter_push(s: Seq<SettingView>, x: SettingView, pred: spec_fn(SettingView) -> bool)
    ensures
        s.push(x).filter(pred) == (if pred(x) { s.filter(pred).push(x) } else { s.filter(pred) }),
{
    reveal(Seq::filter);
    assert(s.push(x).drop_last() =~= s);
}

/// Filtering that keeps every directory entry of kind `k` keeps the directory entries of that
/// kind.
proof fn lemma_filter_keeps_dirs(s: Seq<SettingView>, pred: spec_fn(SettingView) -> bool, k: DirKind)
    requires
        forall|v: SettingView| dir_of(v, k) is Some ==> #[trigger] pred(v),
    ensures
        dirs_in(s.filter(pred), k) == dirs_in(s, k),
    decreases s.len(),
{
    reveal(Seq::filter);
    if s.len() > 0 {
        let sub = s.drop_last();
        lemma_filter_keeps_dirs(sub, pred, k);
        let x = s.last();
        assert(s.filter(pred) == (if pred(x) { sub.filter(pred).push(x) } else { sub.filter(pred) }));
        assert(sub.filter(pred).push(x).drop_last() =~= sub.filter(pred));
        if dir_of(x, k) is Some {
            assert(pred(x));
        }
    }
}

proof fn lemma_views_push(s: Seq<SettingValue>, x: SettingValue)
    ensures
        views_of(s.push(x)) == views_of(s).push(x@),
{
    assert(views_of(s.push(x)) =~= views_of(s).push(x@));
}

impl OpenMWConfiguration {
    /// Keeps the settings for which `keep` returns `true`, in order.
    fn retain_where<F: Fn(&SettingValue) -> bool>(&mut self, keep: F, Ghost(pred): Ghost<spec_fn(SettingView) -> bool>)
        requires
            forall|s: &SettingValue| #[trigger] keep.requires((s,)),
            forall|s: &SettingValue, b: bool| keep.ensures((s,), b) ==> b == pred(s@),
        ensures
            final(self).settings_view() == old(self).settings_view().filter(pred),
            old(self).same_frame(final(self)),
    {
        let mut old_settings: Vec<SettingValue> = Vec::new();
        std::mem::swap(&mut old_settings, &mut self.settings);
        let ghost s0 = views_of(old_settings@);
        let ghost all = old_settings@;
        let mut kept: Vec<SettingValue> = Vec::new();
        proof {
            reveal(Seq::filter);
            assert(views_of(kept@) =~= s0.take(0).filter(pred));
        }
        for x in it: old_settings.into_iter()
            invariant
                it.seq() == all,
                s0 == views_of(all),
                forall|s: &SettingValue| #[trigger] keep.requires((s,)),
                forall|s: &SettingValue, b: bool| keep.ensures((s,), b) ==> b == pred(s@),
                views_of(kept@) == s0.take(it.index() as int).filter(pred),
        {
            let ghost i = it.index();
            proof {
                assert(s0.take(i + 1) =~= s0.take(i as int).push(x@));
                lemma_filter_push(s0.take(i as int), x@, pred);
            }
            let b = keep(&x);
            if b {
                proof {
                    lemma_views_push(kept@, x);
                }
                kept.push(x);
            }
        }
        proof {
            assert(s0.take(s0.len() as int) =~= s0);
        }
        self.settings = kept;
    }

    /// Removes every setting for which `predicate` returns `true`. `removed[i]` is what
    /// `predicate` answered for the `i`-th setting.
    pub fn clear_matching<P: Fn(&SettingValue) -> bool>(&mut self, predicate: P)
        requires
            forall|s: &SettingValue| #[trigger] predicate.requires((s,)),
        ensures
            old(self).same_frame(final(self)),
            exists|removed: Seq<bool>|
                #![trigger removed.len()]
                removed.len() == old(self).settings_view().len()
                && (forall|i: int| 0 <= i < removed.len() ==> predicate.ensures((&old(self).settings_values()[i],), #[trigger] removed[i]))
                && final(self).settings_view() == masked(old(self).settings_view(), removed),
    {
        let mut old_settings: Vec<SettingValue> = Vec::new();
        std::mem::swap(&mut old_settings, &mut self.settings);
        let ghost all = old_settings@;
        let ghost mut removed: Seq<bool> = Seq::empty();
        let mut kept: Vec<SettingValue> = Vec::new();
        for x in it: old_settings.into_iter()
            invariant
                it.seq() == all,
                forall|s: &SettingValue| #[trigger] predicate.requires((s,)),
                removed.len() == it.index(),
                forall|i: int| 0 <= i < removed.len() ==> predicate.ensures((&all[i],), #[trigger] removed[i]),
                views_of(kept@) == masked(views_of(all).take(it.index() as int), removed),
        {
            let ghost i = it.index();
            let b = predicate(&x);
            proof {
                assert(views_of(all).take(i + 1) =~= views_of(all).take(i as int).push(x@));
                lemma_masked_push(views_of(all).take(i as int), removed, x@, b);
                removed = removed.push(b);
            }
            if !b {
                proof {
                    lemma_views_push(kept@, x);
                }
                kept.push(x);
            }
        }
        proof {
            assert(views_of(all).take(all.len() as int) =~= views_of(all));
            assert(removed.len() == views_of(all).len());
        }
        self.settings = kept;
    }

    /// The settings for which `predicate` returns `true`, in order. `matched[i]` is what
    /// `predicate` answered for the `i`-th setting.
    pub fn settings_matching<P: Fn(&SettingValue) -> bool>(&self, predicate: P) -> (r: Vec<&SettingValue>)
        requires
            forall|s: &SettingValue| #[trigger] predicate.requires((s,)),
        ensures
            exists|matched: Seq<bool>|
                #![trigger matched.len()]
                matched.len() == self.settings_view().len()
                && (forall|i: int| 0 <= i < matched.len() ==> predicate.ensures((&self.settings_values()[i],), #[trigger] matched[i]))
                && views_of_refs(r@) == masked(self.settings_view(), negated(matched)),
    {
        let mut r: Vec<&SettingValue> = Vec::new();
        let ghost mut matched: Seq<bool> = Seq::empty();
        let ghost s = self.settings_view();
        let mut i: usize = 0;
        while i < self.settings.len()
            invariant
                s == views_of(self.settings@),
                0 <= i <= self.settings@.len(),
                forall|t: &SettingValue| #[trigger] predicate.requires((t,)),
                matched.len() == i,
                forall|j: int| 0 <= j < matched.len() ==> predicate.ensures((&self.settings@[j],), #[trigger] matched[j]),
                views_of_refs(r@) == masked(s.take(i as int), negated(matched)),
            decreases self.settings@.len() - i,
        {
            let b = predicate(&self.settings[i]);
            proof {
                assert(s.take(i + 1) =~= s.take(i as int).push(s[i as int]));
                assert(negated(matched.push(b)) =~= negated(matched).push(!b));
                lemma_masked_push(s.take(i as int), negated(matched), s[i as int], !b);
                matched = matched.push(b);
            }
            if b {
                proof {
                    assert(views_of_refs(r@.push(&self.settings[i as int])) =~= views_of_refs(r@).push(s[i as int]));
                }
                r.push(&self.settings[i]);
            }
            i += 1;
        }
        proof {
            assert(s.take(self.settings@.len() as int) =~= s);
        }
        r
    }

    /// Returns `true` if some entry of kind `k` names `name`.
    fn has_file(&self, k: FileKind, name: &str) -> (b: bool)
        ensures
            b == exists|i: int| 0 <= i < self.settings_view().len() && named_file(self.settings_view()[i], k, name@),
    {
        let ghost s = self.settings_view();
        let mut i: usize = 0;
        while i < self.settings.len()
            invariant
                s == views_of(self.settings@),
                0 <= i <= self.settings@.len(),
                forall|j: int| 0 <= j < i ==> !named_file(s[j], k, name@),
            decreases self.settings@.len() - i,
        {
            if let Some(f) = file_ref(&self.settings[i], k) {
                if same_text(f.value(), name) {
                    proof {
                        assert(s[i as int] == self.settings@[i as int]@);
                        assert(named_file(s[i as int], k, name@));
                        assert(s == self.settings_view());
                        assert(named_file(self.settings_view()[i as int], k, name@));
                    }
                    return true;
                }
            }
            i += 1;
        }
        false
    }

    /// Returns `true` if `file_name` is among the `content=` entries.
    pub fn has_content_file(&self, file_name: &str) -> (b: bool)
        ensures
            b == exists|i: int| 0 <= i < self.settings_view().len() && named_file(self.settings_view()[i], FileKind::Content, file_name@),
    {
        self.has_file(FileKind::Content, file_name)
    }

    /// Returns `true` if `file_name` is among the `groundcover=` entries.
    pub fn has_groundcover_file(&self, file_name: &str) -> (b: bool)
        ensures
            b == exists|i: int| 0 <= i < self.settings_view().len() && named_file(self.settings_view()[i], FileKind::Groundcover, file_name@),
    {
        self.has_file(FileKind::Groundcover, file_name)
    }

    /// Returns `true` if `file_name` is among the `fallback-archive=` entries.
    pub fn has_archive_file(&self, file_name: &str) -> (b: bool)
        ensures
            b == exists|i: int| 0 <= i < self.settings_view().len() && named_file(self.settings_view()[i], FileKind::Archive, file_name@),
    {
        self.has_file(FileKind::Archive, file_name)
    }

    /// Returns `true` if some `data=` entry names the directory `file_name`, once its `\`
    /// are turned into `/` (compared by path components).
    pub fn has_data_dir(&self, file_name: &str) -> (b: bool)
        ensures
            b == exists|i: int| 0 <= i < self.settings_view().len() && names_data_dir(self.settings_view()[i], forward_slashes(file_name@)),
    {
        let query = normalize_separators(file_name);
        let ghost s = self.settings_view();
        let mut i: usize = 0;
        while i < self.settings.len()
            invariant
                s == views_of(self.settings@),
                query@ == forward_slashes(file_name@),
                0 <= i <= self.settings@.len(),
                forall|j: int| 0 <= j < i ==> !names_data_dir(s[j], forward_slashes(file_name@)),
            decreases self.settings@.len() - i,
        {
            if let Some(d) = dir_ref(&self.settings[i], DirKind::Data) {
                if same_path(d.parsed(), &query) {
                    proof {
                        assert(s[i as int] == self.settings@[i as int]@);
                        assert(names_data_dir(s[i as int], forward_slashes(file_name@)));
                        assert(s == self.settings_view());
                        assert(names_data_dir(self.settings_view()[i as int], forward_slashes(file_name@)));
                    }
                    return true;
                }
            }
            i += 1;
        }
        false
    }

    /// The user configuration file, to which new settings are attributed.
    fn user_cfg_path(&self) -> (r: String)
        requires
            self.wf(),
        ensures
            r@ == self.user_cfg(),
    {
        let dir = self.user_config_path();
        proof {
            reveal_strlit("openmw.cfg");
            assert("openmw.cfg"@ =~= cfg_name());
        }
        join(&dir, "openmw.cfg")
    }

    /// Adds a file name entry of kind `k`, unless one with that name exists.
    fn add_file(&mut self, k: FileKind, name: &str) -> (r: Result<(), ConfigError>)
        requires
            old(self).wf(),
        ensures
            old(self).same_frame(final(self)),
            first_named(old(self).settings_view(), k, name@) matches Some(i) ==> (r matches Err(e)
                && add_error(e, k, name@, meta_of(old(self).settings_view()[i]).source_config)
                && final(self).settings_view() == old(self).settings_view()),
            first_named(old(self).settings_view(), k, name@) is None ==> (r is Ok
                && final(self).settings_view() == old(self).settings_view().push(new_file(name@, old(self).user_cfg(), k))),
    {
        let ghost s = self.settings_view();
        let mut i: usize = 0;
        while i < self.settings.len()
            invariant
                s == views_of(self.settings@),
                0 <= i <= self.settings@.len(),
                forall|j: int| 0 <= j < i ==> !named_file(s[j], k, name@),
            decreases self.settings@.len() - i,
        {
            if let Some(f) = file_ref(&self.settings[i], k) {
                if same_text(f.value(), name) {
                    let file = owned(name);
                    let config = f.meta().source_config.clone();
                    proof {
                        assert(named_file(s[i as int], k, name@));
                        let c = choose|c: int| 0 <= c < s.len() && named_file(s[c], k, name@) && forall|j: int| 0 <= j < c ==> !named_file(s[j], k, name@);
                        if c < i {
                            assert(!named_file(s[c], k, name@));
                        } else if c > i {
                            assert(!named_file(s[i as int], k, name@));
                        }
                    }
                    let e = match k {
                        FileKind::Content => ConfigError::CannotAddContentFile { file, config },
                        FileKind::Groundcover => ConfigError::CannotAddGroundcoverFile { file, config },
                        FileKind::Archive => ConfigError::CannotAddArchiveFile { file, config },
                    };
                    return Err(e);
                }
            }
            i += 1;
        }
        let cfg = self.user_cfg_path();
        let mut empty = String::new();
        let f = FileSetting::new(name, &cfg, &mut empty);
        let v = file_value(f, k);
        proof {
            lemma_views_push(self.settings@, v);
            assert(v@ == new_file(name@, s_user_cfg(self), k));
        }
        self.settings.push(v);
        Ok(())
    }

    /// Adds a `content=` entry for `content_file`, attributed to the user configuration.
    /// Fails with [`ConfigError::CannotAddContentFile`] if the name is already present.
    pub fn add_content_file(&mut self, content_file: &str) -> (r: Result<(), ConfigError>)
        requires
            old(self).wf(),
        ensures
            old(self).same_frame(final(self)),
            first_named(old(self).settings_view(), FileKind::Content, content_file@) matches Some(i) ==> (r matches Err(e)
                && add_error(e, FileKind::Content, content_file@, meta_of(old(self).settings_view()[i]).source_config)
                && final(self).settings_view() == old(self).settings_view()),
            first_named(old(self).settings_view(), FileKind::Content, content_file@) is None ==> (r is Ok
                && final(self).settings_view() == old(self).settings_view().push(new_file(content_file@, old(self).user_cfg(), FileKind::Content))),
            final(self).settings_view() == with_file_added(old(self).settings_view(), FileKind::Content, content_file@, old(self).user_cfg()),
    {
        self.add_file(FileKind::Content, content_file)
    }

    /// Adds a `groundcover=` entry for `content_file`, attributed to the user configuration.
    /// Fails with [`ConfigError::CannotAddGroundcoverFile`] if the name is already present.
    pub fn add_groundcover_file(&mut self, content_file: &str) -> (r: Result<(), ConfigError>)
        requires
            old(self).wf(),
        ensures
            old(self).same_frame(final(self)),
            first_named(old(self).settings_view(), FileKind::Groundcover, content_file@) matches Some(i) ==> (r matches Err(e)
                && add_error(e, FileKind::Groundcover, content_file@, meta_of(old(self).settings_view()[i]).source_config)
                && final(self).settings_view() == old(self).settings_view()),
            first_named(old(self).settings_view(), FileKind::Groundcover, content_file@) is None ==> (r is Ok
                && final(self).settings_view() == old(self).settings_view().push(new_file(content_file@, old(self).user_cfg(), FileKind::Groundcover))),
            final(self).settings_view() == with_file_added(old(self).settings_view(), FileKind::Groundcover, content_file@, old(self).user_cfg()),
    {
        self.add_file(FileKind::Groundcover, content_file)
    }

    /// Adds a `fallback-archive=` entry for `archive_file`, attributed to the user
    /// configuration. Fails with [`ConfigError::CannotAddArchiveFile`] if the name is already
    /// present.
    pub fn add_archive_file(&mut self, archive_file: &str) -> (r: Result<(), ConfigError>)
        requires
            old(self).wf(),
        ensures
            old(self).same_frame(final(self)),
            first_named(old(self).settings_view(), FileKind::Archive, archive_file@) matches Some(i) ==> (r matches Err(e)
                && add_error(e, FileKind::Archive, archive_file@, meta_of(old(self).settings_view()[i]).source_config)
                && final(self).settings_view() == old(self).settings_view()),
            first_named(old(self).settings_view(), FileKind::Archive, archive_file@) is None ==> (r is Ok
                && final(self).settings_view() == old(self).settings_view().push(new_file(archive_file@, old(self).user_cfg(), FileKind::Archive))),
            final(self).settings_view() == with_file_added(old(self).settings_view(), FileKind::Archive, archive_file@, old(self).user_cfg()),
    {
        self.add_file(FileKind::Archive, archive_file)
    }

    /// Removes every entry of kind `k` named `name`.
    fn remove_file(&mut self, k: FileKind, name: &str)
        ensures
            old(self).same_frame(final(self)),
            final(self).settings_view() == old(self).settings_view().filter(|v: SettingView| !named_file(v, k, name@)),
    {
        let ghost pred = |v: SettingView| !named_file(v, k, name@);
        let keep = (|s: &SettingValue| -> (b: bool)
            ensures
                b == !named_file(s@, k, name@),
            {
                match file_ref(s, k) {
                    Some(f) => !same_text(f.value(), name),
                    None => true,
                }
            });
        self.retain_where(keep, Ghost(pred));
    }

    /// Removes every `content=` entry named `file_name`.
    pub fn remove_content_file(&mut self, file_name: &str)
        ensures
            old(self).same_frame(final(self)),
            final(self).settings_view() == old(self).settings_view().filter(|v: SettingView| !named_file(v, FileKind::Content, file_name@)),
            final(self).settings_view() == with_file_removed(old(self).settings_view(), FileKind::Content, file_name@),
    {
        self.remove_file(FileKind::Content, file_name)
    }

    /// Removes every `groundcover=` entry named `file_name`.
    pub fn remove_groundcover_file(&mut self, file_name: &str)
        ensures
            old(self).same_frame(final(self)),
            final(self).settings_view() == old(self).settings_view().filter(|v: SettingView| !named_file(v, FileKind::Groundcover, file_name@)),
            final(self).settings_view() == with_file_removed(old(self).settings_view(), FileKind::Groundcover, file_name@),
    {
        self.remove_file(FileKind::Groundcover, file_name)
    }

    /// Removes every `fallback-archive=` entry named `file_name`.
    pub fn remove_archive_file(&mut self, file_name: &str)
        ensures
            old(self).same_frame(final(self)),
            final(self).settings_view() == old(self).settings_view().filter(|v: SettingView| !named_file(v, FileKind::Archive, file_name@)),
            final(self).settings_view() == with_file_removed(old(self).settings_view(), FileKind::Archive, file_name@),
    {
        self.remove_file(FileKind::Archive, file_name)
    }
}

/// The settings of `s` whose entry in `removed` is `false`, in order.
pub open spec fn masked(s: Seq<SettingView>, removed: Seq<bool>) -> Seq<SettingView>
    decreases s.len(),
{
    if s.len() == 0 {
        Seq::empty()
    } else {
        let rest = masked(s.drop_last(), removed);
        if removed[s.len() - 1] {
            rest
        } else {
            rest.push(s.last())
        }
    }
}

/// Each flag of `m` inverted.
pub open spec fn negated(m: Seq<bool>) -> Seq<bool> {
    Seq::new(m.len(), |i: int| !m[i])
}

/// The views of a sequence of setting references.
pub open spec fn views_of_refs(s: Seq<&SettingValue>) -> Seq<SettingView> {
    s.map_values(|v: &SettingValue| v@)
}

proof fn lemma_masked_prefix(s: Seq<SettingView>, removed: Seq<bool>, extra: Seq<bool>)
    requires
        removed.len() >= s.len(),
        extra.len() >= s.len(),
        forall|i: int| 0 <= i < s.len() ==> removed[i] == extra[i],
    ensures
        masked(s, removed) == masked(s, extra),
    decreases s.len(),
{
    if s.len() > 0 {
        lemma_masked_prefix(s.drop_last(), removed, extra);
    }
}

proof fn lemma_masked_push(s: Seq<SettingView>, removed: Seq<bool>, x: SettingView, b: bool)
    requires
        removed.len() == s.len(),
    ensures
        masked(s.push(x), removed.push(b)) == (if b { masked(s, removed) } else { masked(s, removed).push(x) }),
{
    assert(s.push(x).drop_last() =~= s);
    lemma_masked_prefix(s, removed, removed.push(b));
}

spec fn s_user_cfg(c: &OpenMWConfiguration) -> Seq<char> {
    c.user_cfg()
}

/// New file name entries of kind `k` for `names`, attributed to `source_config`.
pub open spec fn new_files(names: Seq<String>, source_config: Seq<char>, k: FileKind) -> Seq<SettingView> {
    Seq::new(names.len(), |i: int| new_file(names[i]@, source_config, k))
}

/// New `data=` entries for `dirs_named`, attributed to `source_config`.
pub open spec fn new_data_dirs(dirs_named: Seq<String>, source_config: Seq<char>, dirs: DirsView) -> Seq<SettingView> {
    Seq::new(dirs_named.len(), |i: int| SettingView::DataDirectory(dir_setting(dirs_named[i]@, source_config, Seq::empty(), dirs)))
}

/// The `fallback=` entry that `text` makes when attributed to `source_config`.
pub open spec fn game_view(text: Seq<char>, source_config: Seq<char>) -> SettingView {
    let kv = split_game_setting(text)->0;
    SettingView::GameSetting(PairView { meta: MetaView { source_config, comment: Seq::empty() }, key: kv.0, value: kv.1 })
}

/// The position of the first text of `texts` that is not `Key,Value`.
pub open spec fn first_bad_game_setting(texts: Seq<String>) -> Option<int> {
    if exists|i: int| 0 <= i < texts.len() && split_game_setting(texts[i]@) is None {
        Some(choose|i: int| 0 <= i < texts.len() && split_game_setting(texts[i]@) is None
            && forall|j: int| 0 <= j < i ==> split_game_setting(texts[j]@) is Some)
    } else {
        None
    }
}

/// The `fallback=` entries for the first `n` texts of `texts`, attributed to `source_config`.
pub open spec fn new_games(texts: Seq<String>, n: int, source_config: Seq<char>) -> Seq<SettingView> {
    Seq::new(n as nat, |i: int| game_view(texts[i]@, source_config))
}

/// `v` is a `data=` entry whose directory is `path` (compared by path components) or whose
/// original text is `path`.
pub open spec fn data_dir_named(v: SettingView, path: Seq<char>) -> bool {
    dir_of(v, DirKind::Data) matches Some(d) && (path_components(d.parsed) == path_components(path) || d.original == path)
}

/// The game settings of `s`, each key once with its last value: the last game setting first,
/// then each earlier one whose key has not been seen yet.
pub open spec fn latest_games(s: Seq<SettingView>) -> Seq<PairView>
    decreases s.len(),
{
    if s.len() == 0 {
        Seq::empty()
    } else {
        let rest = latest_games(s.drop_first());
        match game_of(s[0]) {
            Some(g) => if rest.map_values(|p: PairView| p.key).contains(g.key) {
                rest
            } else {
                rest.push(g)
            },
            None => rest,
        }
    }
}

/// The last game setting of `s` with key `key`, if there is one.
pub open spec fn last_game_with(s: Seq<SettingView>, key: Seq<char>) -> Option<PairView>
    decreases s.len(),
{
    if s.len() == 0 {
        None
    } else {
        match game_of(s.last()) {
            Some(g) => if g.key == key {
                Some(g)
            } else {
                last_game_with(s.drop_last(), key)
            },
            None => last_game_with(s.drop_last(), key),
        }
    }
}

/// The encoding entry that `v` is, if it is one.
pub open spec fn encoding_of(v: SettingView) -> Option<EncView> {
    match v {
        SettingView::Encoding(e) => Some(e),
        _ => None,
    }
}

/// The last encoding entry of `s`, if there is one.
pub open spec fn last_encoding(s: Seq<SettingView>) -> Option<EncView> {
    let e = s.filter_map(|v: SettingView| encoding_of(v));
    if e.len() == 0 {
        None
    } else {
        Some(e.last())
    }
}

/// `v` is not an encoding entry.
pub open spec fn not_encoding(v: SettingView) -> bool {
    encoding_of(v) is None
}

impl OpenMWConfiguration {
    /// Removes every directory entry of kind `k`.
    fn clear_dirs(&mut self, k: DirKind)
        ensures
            old(self).same_frame(final(self)),
            final(self).settings_view() == old(self).settings_view().filter(|v: SettingView| not_dir_kind(v, k)),
    {
        let ghost pred = |v: SettingView| not_dir_kind(v, k);
        let keep = (|s: &SettingValue| -> (b: bool)
            ensures
                b == not_dir_kind(s@, k),
            {
                dir_ref(s, k).is_none()
            });
        self.retain_where(keep, Ghost(pred));
    }

    /// Removes every file name entry of kind `k`.
    fn clear_files(&mut self, k: FileKind)
        ensures
            old(self).same_frame(final(self)),
            final(self).settings_view() == old(self).settings_view().filter(|v: SettingView| not_file_kind(v, k)),
    {
        let ghost pred = |v: SettingView| not_file_kind(v, k);
        let keep = (|s: &SettingValue| -> (b: bool)
            ensures
                b == not_file_kind(s@, k),
            {
                file_ref(s, k).is_none()
            });
        self.retain_where(keep, Ghost(pred));
    }

    /// Replaces the file name entries of kind `k` by entries for `names`, attributed to the
    /// user configuration; with no names, removes them.
    fn set_files(&mut self, k: FileKind, names: Option<Vec<String>>)
        requires
            old(self).wf(),
        ensures
            old(self).same_frame(final(self)),
            final(self).settings_view() == old(self).settings_view().filter(|v: SettingView| not_file_kind(v, k)) + match names {
                Some(l) => new_files(l@, old(self).user_cfg(), k),
                None => Seq::<SettingView>::empty(),
            },
    {
        let ghost s0 = self.settings_view();
        let ghost cfg0 = self.user_cfg();
        self.clear_files(k);
        proof {
            lemma_filter_keeps_dirs(s0, |v: SettingView| not_file_kind(v, k), DirKind::SubConfig);
        }
        let ghost cleared = self.settings_view();
        match names {
            Some(list) => {
                let cfg = self.user_cfg_path();
                let mut empty = String::new();
                let mut i: usize = 0;
                while i < list.len()
                    invariant
                        0 <= i <= list@.len(),
                        cfg@ == cfg0,
                        empty@ == Seq::<char>::empty(),
                        self.wf(),
                        self.root() == old(self).root(),
                        self.dirs_view() == old(self).dirs_view(),
                        self.settings_view() == cleared + new_files(list@.take(i as int), cfg0, k),
                    decreases list@.len() - i,
                {
                    let f = FileSetting::new(&list[i], &cfg, &mut empty);
                    let v = file_value(f, k);
                    proof {
                        lemma_views_push(self.settings@, v);
                        assert(new_files(list@.take(i + 1), cfg0, k) =~= new_files(list@.take(i as int), cfg0, k).push(v@));
                    }
                    self.settings.push(v);
                    i += 1;
                }
                proof {
                    assert(list@.take(list@.len() as int) =~= list@);
                }
            },
            None => {
                proof {
                    assert(cleared + Seq::<SettingView>::empty() =~= cleared);
                }
            },
        }
    }

    /// Replaces every `content=` entry by entries for `plugins`, attributed to the user
    /// configuration; with `None`, removes them all. Duplicates are not checked.
    pub fn set_content_files(&mut self, plugins: Option<Vec<String>>)
        requires
            old(self).wf(),
        ensures
            old(self).same_frame(final(self)),
            final(self).settings_view() == old(self).settings_view().filter(|v: SettingView| not_file_kind(v, FileKind::Content)) + match plugins {
                Some(l) => new_files(l@, old(self).user_cfg(), FileKind::Content),
                None => Seq::<SettingView>::empty(),
            },
    {
        self.set_files(FileKind::Content, plugins)
    }

    /// Replaces every `fallback-archive=` entry by entries for `archives`, attributed to the
    /// user configuration; with `None`, removes them all. Duplicates are not checked.
    pub fn set_fallback_archives(&mut self, archives: Option<Vec<String>>)
        requires
            old(self).wf(),
        ensures
            old(self).same_frame(final(self)),
            final(self).settings_view() == old(self).settings_view().filter(|v: SettingView| not_file_kind(v, FileKind::Archive)) + match archives {
                Some(l) => new_files(l@, old(self).user_cfg(), FileKind::Archive),
                None => Seq::<SettingView>::empty(),
            },
    {
        self.set_files(FileKind::Archive, archives)
    }

    /// Replaces every `data=` entry by entries for `dirs`, attributed to the user
    /// configuration; with `None`, removes them all. Duplicates are not checked.
    pub fn set_data_directories(&mut self, dirs: Option<Vec<String>>)
        requires
            old(self).wf(),
        ensures
            old(self).same_frame(final(self)),
            final(self).settings_view() == old(self).settings_view().filter(|v: SettingView| not_dir_kind(v, DirKind::Data)) + match dirs {
                Some(l) => new_data_dirs(l@, old(self).user_cfg(), old(self).dirs_view()),
                None => Seq::<SettingView>::empty(),
            },
    {
        let ghost s0 = self.settings_view();
        let ghost cfg0 = self.user_cfg();
        self.clear_dirs(DirKind::Data);
        proof {
            lemma_filter_keeps_dirs(s0, |v: SettingView| not_dir_kind(v, DirKind::Data), DirKind::SubConfig);
        }
        let ghost cleared = self.settings_view();
        match dirs {
            Some(list) => {
                let cfg = self.user_cfg_path();
                let mut empty = String::new();
                let mut i: usize = 0;
                while i < list.len()
                    invariant
                        0 <= i <= list@.len(),
                        cfg@ == cfg0,
                        empty@ == Seq::<char>::empty(),
                        self.wf(),
                        self.root() == old(self).root(),
                        self.dirs_view() == old(self).dirs_view(),
                        self.settings_view() == cleared + new_data_dirs(list@.take(i as int), cfg0, old(self).dirs_view()),
                    decreases list@.len() - i,
                {
                    let d = DirectorySetting::new(&list[i], &cfg, &mut empty, &self.dirs);
                    let v = SettingValue::DataDirectory(d);
                    proof {
                        lemma_views_push(self.settings@, v);
                        assert(new_data_dirs(list@.take(i + 1), cfg0, old(self).dirs_view()) =~= new_data_dirs(list@.take(i as int), cfg0, old(self).dirs_view()).push(v@));
                    }
                    self.settings.push(v);
                    i += 1;
                }
                proof {
                    assert(list@.take(list@.len() as int) =~= list@);
                }
            },
            None => {
                proof {
                    assert(cleared + Seq::<SettingView>::empty() =~= cleared);
                }
            },
        }
    }

    /// Adds a `data=` entry for `dir`, attributed to the user configuration. Duplicates are not
    /// checked.
    pub fn add_data_directory(&mut self, dir: &str)
        requires
            old(self).wf(),
        ensures
            old(self).same_frame(final(self)),
            final(self).settings_view() == old(self).settings_view().push(
                SettingView::DataDirectory(dir_setting(dir@, old(self).user_cfg(), Seq::empty(), old(self).dirs_view())),
            ),
    {
        let cfg = self.user_cfg_path();
        let mut empty = String::new();
        let d = DirectorySetting::new(dir, &cfg, &mut empty, &self.dirs);
        let v = SettingValue::DataDirectory(d);
        proof {
            lemma_views_push(self.settings@, v);
        }
        self.settings.push(v);
    }

    /// Removes every `data=` entry whose directory (compared by path components) or original text is
    /// `data_dir`.
    pub fn remove_data_directory(&mut self, data_dir: &str)
        ensures
            old(self).same_frame(final(self)),
            final(self).settings_view() == old(self).settings_view().filter(|v: SettingView| !data_dir_named(v, data_dir@)),
    {
        let ghost pred = |v: SettingView| !data_dir_named(v, data_dir@);
        let keep = (|s: &SettingValue| -> (b: bool)
            ensures
                b == !data_dir_named(s@, data_dir@),
            {
                match dir_ref(s, DirKind::Data) {
                    Some(d) => !(same_path(d.parsed(), data_dir) || same_text(d.original(), data_dir)),
                    None => true,
                }
            });
        self.retain_where(keep, Ghost(pred));
    }

    /// Adds a `fallback=` entry read from `base_value` (`Key,Value`), attributed to
    /// `config_path` or, without one, to the user configuration; takes the queued `comment`.
    pub fn set_game_setting(&mut self, base_value: &str, config_path: Option<String>, comment: &mut String) -> (r: Result<(), ConfigError>)
        requires
            old(self).wf(),
        ensures
            old(self).same_frame(final(self)),
            ({
                let source = match config_path {
                    Some(p) => p@,
                    None => old(self).user_cfg(),
                };
                match split_game_setting(base_value@) {
                    Some(kv) => r is Ok && final(comment)@ == Seq::<char>::empty() && final(self).settings_view() == old(self).settings_view().push(
                        SettingView::GameSetting(PairView { meta: MetaView { source_config: source, comment: old(comment)@ }, key: kv.0, value: kv.1 }),
                    ),
                    None => (r matches Err(ConfigError::InvalidGameSetting { value, config }) && value@ == base_value@ && config@ == source)
                        && final(self).settings_view() == old(self).settings_view(),
                }
            }),
    {
        let source = match config_path {
            Some(p) => p,
            None => self.user_cfg_path(),
        };
        let g = GameSettingType::parse(base_value, &source, comment)?;
        let v = SettingValue::GameSetting(g);
        proof {
            lemma_views_push(self.settings@, v);
        }
        self.settings.push(v);
        Ok(())
    }

    /// Replaces every `fallback=` entry by entries read from `settings`, attributed to the user
    /// configuration; with `None`, removes them all. Stops at the first text that is not
    /// `Key,Value`, keeping the entries read before it.
    pub fn set_game_settings(&mut self, settings: Option<Vec<String>>) -> (r: Result<(), ConfigError>)
        requires
            old(self).wf(),
        ensures
            old(self).same_frame(final(self)),
            ({
                let cleared = old(self).settings_view().filter(|v: SettingView| not_game(v));
                let cfg = old(self).user_cfg();
                match settings {
                    None => r is Ok && final(self).settings_view() == cleared,
                    Some(l) => match first_bad_game_setting(l@) {
                        None => r is Ok && final(self).settings_view() == cleared + new_games(l@, l@.len() as int, cfg),
                        Some(k) => (r matches Err(ConfigError::InvalidGameSetting { value, config }) && value@ == l@[k]@ && config@ == cfg)
                            && final(self).settings_view() == cleared + new_games(l@, k, cfg),
                    },
                }
            }),
    {
        let ghost s0 = self.settings_view();
        let ghost cfg0 = self.user_cfg();
        let ghost pred = |v: SettingView| not_game(v);
        let keep = (|s: &SettingValue| -> (b: bool)
            ensures
                b == not_game(s@),
            {
                match s {
                    SettingValue::GameSetting(_) => false,
                    _ => true,
                }
            });
        self.retain_where(keep, Ghost(pred));
        proof {
            lemma_filter_keeps_dirs(s0, pred, DirKind::SubConfig);
        }
        let ghost cleared = self.settings_view();
        match settings {
            Some(list) => {
                let cfg = self.user_cfg_path();
                let mut empty = String::new();
                let mut i: usize = 0;
                while i < list.len()
                    invariant
                        0 <= i <= list@.len(),
                        cfg@ == cfg0,
                        empty@ == Seq::<char>::empty(),
                        self.root() == old(self).root(),
                        self.dirs_view() == old(self).dirs_view(),
                        forall|j: int| 0 <= j < i ==> split_game_setting(list@[j]@) is Some,
                        cleared == old(self).settings_view().filter(|v: SettingView| not_game(v)),
                        cfg0 == old(self).user_cfg(),
                        settings == Some(list),
                        self.settings_view() == cleared + new_games(list@, i as int, cfg0),
                    decreases list@.len() - i,
                {
                    match GameSettingType::parse(&list[i], &cfg, &mut empty) {
                        Ok(g) => {
                            let v = SettingValue::GameSetting(g);
                            proof {
                                lemma_views_push(self.settings@, v);
                                assert(new_games(list@, i + 1, cfg0) =~= new_games(list@, i as int, cfg0).push(v@));
                            }
                            self.settings.push(v);
                        },
                        Err(e) => {
                            proof {
                                assert(split_game_setting(list@[i as int]@) is None);
                                assert(exists|k: int| 0 <= k < list@.len() && split_game_setting(list@[k]@) is None);
                                let k = choose|k: int| 0 <= k < list@.len() && split_game_setting(list@[k]@) is None
                                    && forall|j: int| 0 <= j < k ==> split_game_setting(list@[j]@) is Some;
                                if k < i {
                                    assert(split_game_setting(list@[k]@) is Some);
                                } else if k > i {
                                    assert(split_game_setting(list@[i as int]@) is Some);
                                }
                                assert(k == i);
                                assert(first_bad_game_setting(list@) == Some(i as int));
                            }
                            return Err(e);
                        },
                    }
                    i += 1;
                }
                proof {
                    assert(first_bad_game_setting(list@) is None);
                }
            },
            None => {},
        }
        Ok(())
    }

    /// The `fallback=` entries, each key once with its last-defined value: the last entry
    /// first, then each earlier one whose key has not come yet.
    pub fn game_settings(&self) -> (r: Vec<&GameSettingType>)
        ensures
            r@.len() == latest_games(self.settings_view()).len(),
            forall|i: int| 0 <= i < r@.len() ==> (#[trigger] r@[i])@ == latest_games(self.settings_view())[i],
    {
        let ghost s = self.settings_view();
        let mut r: Vec<&GameSettingType> = Vec::new();
        let mut i: usize = self.settings.len();
        proof {
            assert(s.subrange(i as int, i as int) =~= Seq::<SettingView>::empty());
        }
        while i > 0
            invariant
                s == views_of(self.settings@),
                0 <= i <= self.settings@.len(),
                r@.len() == latest_games(s.subrange(i as int, s.len() as int)).len(),
                forall|j: int| 0 <= j < r@.len() ==> (#[trigger] r@[j])@ == latest_games(s.subrange(i as int, s.len() as int))[j],
            decreases i,
        {
            let ghost rest = s.subrange(i as int, s.len() as int);
            let ghost here = s.subrange(i - 1, s.len() as int);
            proof {
                assert(here.drop_first() =~= rest);
                assert(here[0] == s[i - 1]);
            }
            if let SettingValue::GameSetting(g) = &self.settings[i - 1] {
                let mut seen = false;
                let mut j: usize = 0;
                while j < r.len()
                    invariant
                        0 <= j <= r@.len(),
                        r@.len() == latest_games(rest).len(),
                        forall|t: int| 0 <= t < r@.len() ==> (#[trigger] r@[t])@ == latest_games(rest)[t],
                        seen == exists|t: int| 0 <= t < j && r@[t]@.key == g@.key,
                    decreases r@.len() - j,
                {
                    if same_text(r[j].key(), g.key()) {
                        seen = true;
                    }
                    j += 1;
                }
                proof {
                    let keys = latest_games(rest).map_values(|p: PairView| p.key);
                    if seen {
                        let t = choose|t: int| 0 <= t < r@.len() && r@[t]@.key == g@.key;
                        assert(keys[t] == g@.key);
                        assert(keys.contains(g@.key));
                    } else {
                        assert forall|t: int| 0 <= t < keys.len() implies keys[t] != g@.key by {
                            assert(r@[t]@.key != g@.key);
                        }
                        assert(!keys.contains(g@.key));
                    }
                }
                if !seen {
                    r.push(g);
                }
            }
            i -= 1;
        }
        proof {
            assert(s.subrange(0, s.len() as int) =~= s);
        }
        r
    }

    /// The last `fallback=` entry whose key is `key`, if there is one. Keys are compared
    /// exactly, with case.
    pub fn get_game_setting(&self, key: &str) -> (r: Option<&GameSettingType>)
        ensures
            r matches Some(g) ==> last_game_with(self.settings_view(), key@) == Some(g@),
            r is None ==> last_game_with(self.settings_view(), key@) is None,
    {
        let ghost s = self.settings_view();
        let mut i: usize = self.settings.len();
        proof {
            assert(s.take(i as int) =~= s);
        }
        while i > 0
            invariant
                s == views_of(self.settings@),
                0 <= i <= self.settings@.len(),
                last_game_with(s.take(i as int), key@) == last_game_with(s, key@),
            decreases i,
        {
            proof {
                assert(s.take(i as int).drop_last() =~= s.take(i - 1));
                assert(s.take(i as int).last() == s[i - 1]);
            }
            if let SettingValue::GameSetting(g) = &self.settings[i - 1] {
                if same_text(g.key(), key) {
                    return Some(g);
                }
            }
            i -= 1;
        }
        None
    }

    /// The last `user-data=` entry, if there is one.
    pub fn userdata(&self) -> (r: Option<&DirectorySetting>)
        ensures
            r matches Some(d) ==> last_dir(self.settings_view(), DirKind::UserData) == Some(d@),
            r is None ==> last_dir(self.settings_view(), DirKind::UserData) is None,
    {
        self.last_of_kind(DirKind::UserData)
    }

    /// The last `resources=` entry, if there is one.
    pub fn resources(&self) -> (r: Option<&DirectorySetting>)
        ensures
            r matches Some(d) ==> last_dir(self.settings_view(), DirKind::Resources) == Some(d@),
            r is None ==> last_dir(self.settings_view(), DirKind::Resources) is None,
    {
        self.last_of_kind(DirKind::Resources)
    }

    /// The last `data-local=` entry, if there is one.
    pub fn data_local(&self) -> (r: Option<&DirectorySetting>)
        ensures
            r matches Some(d) ==> last_dir(self.settings_view(), DirKind::DataLocal) == Some(d@),
            r is None ==> last_dir(self.settings_view(), DirKind::DataLocal) is None,
    {
        self.last_of_kind(DirKind::DataLocal)
    }

    /// The last `encoding=` entry, if there is one.
    pub fn encoding(&self) -> (r: Option<&EncodingSetting>)
        ensures
            r matches Some(e) ==> last_encoding(self.settings_view()) == Some(e@),
            r is None ==> last_encoding(self.settings_view()) is None,
    {
        let ghost s = self.settings_view();
        let mut found: Option<&EncodingSetting> = None;
        let mut i: usize = 0;
        proof {
            assert(s.take(0).filter_map(|v: SettingView| encoding_of(v)) =~= Seq::<EncView>::empty());
        }
        while i < self.settings.len()
            invariant
                s == views_of(self.settings@),
                0 <= i <= self.settings@.len(),
                found matches Some(e) ==> last_encoding(s.take(i as int)) == Some(e@),
                found is None ==> last_encoding(s.take(i as int)) is None,
            decreases self.settings@.len() - i,
        {
            proof {
                assert(s.take(i + 1).drop_last() =~= s.take(i as int));
                assert(s.take(i + 1).last() == s[i as int]);
            }
            if let SettingValue::Encoding(e) = &self.settings[i] {
                found = Some(e);
            }
            i += 1;
        }
        proof {
            assert(s.take(self.settings@.len() as int) =~= s);
        }
        found
    }

    /// Replaces the directory entries of kind `k` by `value`, if given.
    fn set_single_dir(&mut self, k: DirKind, value: Option<DirectorySetting>)
        ensures
            old(self).same_frame(final(self)),
            final(self).settings_view() == old(self).settings_view().filter(|v: SettingView| not_dir_kind(v, k)) + match value {
                Some(d) => seq![dir_view_as(d@, k)],
                None => Seq::<SettingView>::empty(),
            },
    {
        self.clear_dirs(k);
        let ghost cleared = self.settings_view();
        match value {
            Some(d) => {
                let v = dir_value(d, k);
                proof {
                    lemma_views_push(self.settings@, v);
                    assert(cleared.push(v@) =~= cleared + seq![v@]);
                }
                self.settings.push(v);
            },
            None => {
                proof {
                    assert(cleared + Seq::<SettingView>::empty() =~= cleared);
                }
            },
        }
    }

    /// Replaces every `user-data=` entry by `value`, if given.
    pub fn set_userdata(&mut self, value: Option<DirectorySetting>)
        ensures
            old(self).same_frame(final(self)),
            final(self).settings_view() == old(self).settings_view().filter(|v: SettingView| not_dir_kind(v, DirKind::UserData)) + match value {
                Some(d) => seq![SettingView::UserData(d@)],
                None => Seq::<SettingView>::empty(),
            },
    {
        self.set_single_dir(DirKind::UserData, value)
    }

    /// Replaces every `resources=` entry by `value`, if given.
    pub fn set_resources(&mut self, value: Option<DirectorySetting>)
        ensures
            old(self).same_frame(final(self)),
            final(self).settings_view() == old(self).settings_view().filter(|v: SettingView| not_dir_kind(v, DirKind::Resources)) + match value {
                Some(d) => seq![SettingView::Resources(d@)],
                None => Seq::<SettingView>::empty(),
            },
    {
        self.set_single_dir(DirKind::Resources, value)
    }

    /// Replaces every `data-local=` entry by `value`, if given.
    pub fn set_data_local(&mut self, value: Option<DirectorySetting>)
        ensures
            old(self).same_frame(final(self)),
            final(self).settings_view() == old(self).settings_view().filter(|v: SettingView| not_dir_kind(v, DirKind::DataLocal)) + match value {
                Some(d) => seq![SettingView::DataLocal(d@)],
                None => Seq::<SettingView>::empty(),
            },
    {
        self.set_single_dir(DirKind::DataLocal, value)
    }

    /// Replaces every `encoding=` entry by `value`, if given.
    pub fn set_encoding(&mut self, value: Option<EncodingSetting>)
        ensures
            old(self).same_frame(final(self)),
            final(self).settings_view() == old(self).settings_view().filter(|v: SettingView| not_encoding(v)) + match value {
                Some(e) => seq![SettingView::Encoding(e@)],
                None => Seq::<SettingView>::empty(),
            },
    {
        let ghost pred = |v: SettingView| not_encoding(v);
        let keep = (|s: &SettingValue| -> (b: bool)
            ensures
                b == not_encoding(s@),
            {
                match s {
                    SettingValue::Encoding(_) => false,
                    _ => true,
                }
            });
        self.retain_where(keep, Ghost(pred));
        let ghost cleared = self.settings_view();
        match value {
            Some(e) => {
                let v = SettingValue::Encoding(e);
                proof {
                    lemma_views_push(self.settings@, v);
                    assert(cleared.push(v@) =~= cleared + seq![v@]);
                }
                self.settings.push(v);
            },
            None => {
                proof {
                    assert(cleared + Seq::<SettingView>::empty() =~= cleared);
                }
            },
        }
    }
}

/// What reading lines of a configuration file has produced so far: the settings, the comment
/// lines waiting for the next setting, and the `config=` entries (value and comment) to follow
/// once the file is read.
pub struct LoadState {
    pub settings: Seq<SettingView>,
    pub comment: Seq<char>,
    pub subs: Seq<(Seq<char>, Seq<char>)>,
}

/// Why reading a configuration file stops.
pub enum LoadErr {
    /// A line that is neither blank, a comment, nor `key=value`; with the trimmed line.
    InvalidLine(Seq<char>),
    /// A `content=` file that is already loaded.
    DuplicateContent(Seq<char>),
    /// A `groundcover=` file that is already loaded.
    DuplicateGroundcover(Seq<char>),
    /// A `fallback-archive=` file that is already loaded.
    DuplicateArchive(Seq<char>),
    /// A `fallback=` value that is not `Key,Value`.
    InvalidGameSetting(Seq<char>),
    /// An `encoding=` value that names no encoding.
    BadEncoding(Seq<char>),
}

/// `e` reports `le` for the configuration file `dir`.
pub open spec fn reports(e: ConfigError, le: LoadErr, dir: Seq<char>) -> bool {
    match le {
        LoadErr::InvalidLine(l) => e matches ConfigError::InvalidLine { line, config } && line@ == l && config@ == dir,
        LoadErr::DuplicateContent(f) => e matches ConfigError::DuplicateContentFile { file, config } && file@ == f && config@ == dir,
        LoadErr::DuplicateGroundcover(f) => e matches ConfigError::DuplicateGroundcoverFile { file, config } && file@ == f && config@ == dir,
        LoadErr::DuplicateArchive(f) => e matches ConfigError::DuplicateArchiveFile { file, config } && file@ == f && config@ == dir,
        LoadErr::InvalidGameSetting(v) => e matches ConfigError::InvalidGameSetting { value, config } && value@ == v && config@ == dir,
        LoadErr::BadEncoding(v) => e matches ConfigError::BadEncoding { value, config } && value@ == v && config@ == dir,
    }
}

/// `st` after a setting `v` that takes the queued comment.
pub open spec fn pushed(st: LoadState, v: SettingView) -> LoadState {
    LoadState { settings: st.settings.push(v), comment: Seq::empty(), subs: st.subs }
}

/// Where a setting read now from `dir` comes from.
pub open spec fn here(st: LoadState, dir: Seq<char>) -> MetaView {
    MetaView { source_config: dir, comment: st.comment }
}

/// The settings left by `replace=what` (lowercased).
pub open spec fn replaced(s: Seq<SettingView>, what: Seq<char>) -> Seq<SettingView> {
    if what == "content"@ {
        s.filter(|v: SettingView| not_file_kind(v, FileKind::Content))
    } else if what == "data"@ {
        s.filter(|v: SettingView| not_dir_kind(v, DirKind::Data))
    } else if what == "fallback"@ {
        s.filter(|v: SettingView| not_game(v))
    } else if what == "fallback-archives"@ {
        s.filter(|v: SettingView| not_file_kind(v, FileKind::Archive))
    } else if what == "groundcover"@ {
        s.filter(|v: SettingView| not_file_kind(v, FileKind::Groundcover))
    } else if what == "data-local"@ {
        s.filter(|v: SettingView| not_dir_kind(v, DirKind::DataLocal))
    } else if what == "resources"@ {
        s.filter(|v: SettingView| not_dir_kind(v, DirKind::Resources))
    } else if what == "user-data"@ {
        s.filter(|v: SettingView| not_dir_kind(v, DirKind::UserData))
    } else if what == "config"@ {
        Seq::empty()
    } else {
        s
    }
}

/// The keys and `replace=` targets of configuration entries are distinct texts.
proof fn lemma_replace_names_distinct()
    ensures
        "replace"@ != "content"@,
        "replace"@ != "groundcover"@,
        "replace"@ != "fallback-archive"@,
        "replace"@ != "fallback"@,
        "replace"@ != "encoding"@,
        "replace"@ != "config"@,
        "replace"@ != "data"@,
        "replace"@ != "resources"@,
        "replace"@ != "user-data"@,
        "replace"@ != "data-local"@,
        "content"@.len() == 7,
        "data"@.len() == 4,
        "fallback"@.len() == 8,
        "fallback-archives"@.len() == 17,
        "groundcover"@.len() == 11,
        "data-local"@.len() == 10,
        "resources"@.len() == 9,
        "user-data"@.len() == 9,
        "config"@.len() == 6,
        "resources"@ != "user-data"@,
{
    reveal_strlit("content");
    reveal_strlit("groundcover");
    reveal_strlit("fallback-archive");
    reveal_strlit("fallback");
    reveal_strlit("encoding");
    reveal_strlit("config");
    reveal_strlit("data");
    reveal_strlit("resources");
    reveal_strlit("user-data");
    reveal_strlit("data-local");
    reveal_strlit("replace");
    reveal_strlit("fallback-archives");
    assert("replace"@[0] != "content"@[0]);
    assert("resources"@[0] != "user-data"@[0]);
    assert("replace"@[2] != "resources"@[2]);
}

/// A `content=`, `groundcover=` or `fallback-archive=` entry naming a file that its list does
/// not hold yet adds that file at the end of the settings, attributed to the file being read,
/// and keeps every setting read before in place; one naming a file that its list already holds
/// is refused with the duplicate error of that list.
pub proof fn law_file_entry_appends_or_refuses(st: LoadState, key: Seq<char>, value: Seq<char>, dir: Seq<char>, dirs: DirsView, k: FileKind)
    requires
        (k == FileKind::Content && key == "content"@) || (k == FileKind::Groundcover && key == "groundcover"@)
            || (k == FileKind::Archive && key == "fallback-archive"@),
    ensures
        (exists|i: int| 0 <= i < st.settings.len() && (#[trigger] file_of(st.settings[i], k) matches Some(f) && f.value == value)) ==> {
            &&& k == FileKind::Content ==> load_entry_effect(st, key, value, dir, dirs) == Err::<LoadState, LoadErr>(LoadErr::DuplicateContent(value))
            &&& k == FileKind::Groundcover ==> load_entry_effect(st, key, value, dir, dirs) == Err::<LoadState, LoadErr>(LoadErr::DuplicateGroundcover(value))
            &&& k == FileKind::Archive ==> load_entry_effect(st, key, value, dir, dirs) == Err::<LoadState, LoadErr>(LoadErr::DuplicateArchive(value))
        },
        !(exists|i: int| 0 <= i < st.settings.len() && (#[trigger] file_of(st.settings[i], k) matches Some(f) && f.value == value))
            ==> (load_entry_effect(st, key, value, dir, dirs) matches Ok(next) && {
                &&& next.settings.len() == st.settings.len() + 1
                &&& next.settings.take(st.settings.len() as int) == st.settings
                &&& file_of(next.settings.last(), k) matches Some(f) && f.value == value && f.meta.source_config == dir
            }),
{
    reveal_strlit("content");
    reveal_strlit("groundcover");
    reveal_strlit("fallback-archive");
    assert("content"@[0] != "groundcover"@[0]);
    assert("content"@.len() != "fallback-archive"@.len());
    assert("groundcover"@.len() != "fallback-archive"@.len());
    if exists|i: int| 0 <= i < st.settings.len() && (#[trigger] file_of(st.settings[i], k) matches Some(f) && f.value == value) {
        let i = choose|i: int| 0 <= i < st.settings.len() && (#[trigger] file_of(st.settings[i], k) matches Some(f) && f.value == value);
        assert(named_file(st.settings[i], k, value));
    } else {
        assert(forall|i: int| 0 <= i < st.settings.len() ==> !named_file(st.settings[i], k, value));
        let next = load_entry_effect(st, key, value, dir, dirs)->Ok_0;
        assert(next.settings.take(st.settings.len() as int) =~= st.settings);
    }
}

/// `replace=` naming a file list (`content`, `fallback-archives` or `groundcover`, in any
/// ASCII case) removes every entry of that list read so far and nothing else: no entry of that
/// kind is left, every entry of another kind stays, and nothing is added.
pub proof fn law_replace_clears_file_list(st: LoadState, value: Seq<char>, dir: Seq<char>, dirs: DirsView, k: FileKind, name: Seq<char>)
    requires
        (k == FileKind::Content && name == "content"@) || (k == FileKind::Archive && name == "fallback-archives"@)
            || (k == FileKind::Groundcover && name == "groundcover"@),
        lowered(value) == name,
    ensures
        load_entry_effect(st, "replace"@, value, dir, dirs) matches Ok(next) && {
            &&& forall|i: int| 0 <= i < next.settings.len() ==> file_of(#[trigger] next.settings[i], k) is None
            &&& forall|i: int| 0 <= i < st.settings.len() && file_of(st.settings[i], k) is None ==> next.settings.contains(#[trigger] st.settings[i])
            &&& forall|v: SettingView| #[trigger] next.settings.contains(v) ==> st.settings.contains(v)
        },
{
    lemma_replace_names_distinct();
    broadcast use vstd::seq_lib::group_filter_ensures, Seq::lemma_filter_contains_rev;
    let next = load_entry_effect(st, "replace"@, value, dir, dirs)->Ok_0;
    let pred = |v: SettingView| not_file_kind(v, k);
    assert(next.settings =~= st.settings.filter(pred));
}

/// `replace=` naming a directory list (`data`, `data-local`, `resources` or `user-data`, in
/// any ASCII case) removes every entry of that list read so far and nothing else.
pub proof fn law_replace_clears_dir_list(st: LoadState, value: Seq<char>, dir: Seq<char>, dirs: DirsView, k: DirKind, name: Seq<char>)
    requires
        (k == DirKind::Data && name == "data"@) || (k == DirKind::DataLocal && name == "data-local"@)
            || (k == DirKind::Resources && name == "resources"@) || (k == DirKind::UserData && name == "user-data"@),
        lowered(value) == name,
    ensures
        load_entry_effect(st, "replace"@, value, dir, dirs) matches Ok(next) && {
            &&& forall|i: int| 0 <= i < next.settings.len() ==> dir_of(#[trigger] next.settings[i], k) is None
            &&& forall|i: int| 0 <= i < st.settings.len() && dir_of(st.settings[i], k) is None ==> next.settings.contains(#[trigger] st.settings[i])
            &&& forall|v: SettingView| #[trigger] next.settings.contains(v) ==> st.settings.contains(v)
        },
{
    lemma_replace_names_distinct();
    broadcast use vstd::seq_lib::group_filter_ensures, Seq::lemma_filter_contains_rev;
    let next = load_entry_effect(st, "replace"@, value, dir, dirs)->Ok_0;
    let pred = |v: SettingView| not_dir_kind(v, k);
    assert(next.settings =~= st.settings.filter(pred));
}

/// `replace=fallback` (in any ASCII case) removes every game setting read so far and nothing
/// else.
pub proof fn law_replace_clears_game_settings(st: LoadState, value: Seq<char>, dir: Seq<char>, dirs: DirsView)
    requires
        lowered(value) == "fallback"@,
    ensures
        load_entry_effect(st, "replace"@, value, dir, dirs) matches Ok(next) && {
            &&& forall|i: int| 0 <= i < next.settings.len() ==> game_of(#[trigger] next.settings[i]) is None
            &&& forall|i: int| 0 <= i < st.settings.len() && game_of(st.settings[i]) is None ==> next.settings.contains(#[trigger] st.settings[i])
            &&& forall|v: SettingView| #[trigger] next.settings.contains(v) ==> st.settings.contains(v)
        },
{
    lemma_replace_names_distinct();
    broadcast use vstd::seq_lib::group_filter_ensures, Seq::lemma_filter_contains_rev;
    let next = load_entry_effect(st, "replace"@, value, dir, dirs)->Ok_0;
    let pred = |v: SettingView| not_game(v);
    assert(next.settings =~= st.settings.filter(pred));
}

/// `replace=config` (in any ASCII case) drops every setting read so far.
pub proof fn law_replace_config_clears_all(st: LoadState, value: Seq<char>, dir: Seq<char>, dirs: DirsView)
    requires
        lowered(value) == "config"@,
    ensures
        load_entry_effect(st, "replace"@, value, dir, dirs) matches Ok(next) && next.settings.len() == 0,
{
    lemma_replace_names_distinct();
    broadcast use vstd::seq_lib::group_filter_ensures, Seq::lemma_filter_contains_rev;
}

/// The effect of the entry `key=value` of the configuration file `dir` on `st`.
pub open spec fn load_entry_effect(st: LoadState, key: Seq<char>, value: Seq<char>, dir: Seq<char>, dirs: DirsView) -> Result<LoadState, LoadErr> {
    if key == "content"@ {
        if exists|i: int| 0 <= i < st.settings.len() && named_file(st.settings[i], FileKind::Content, value) {
            Err(LoadErr::DuplicateContent(value))
        } else {
            Ok(pushed(st, SettingView::ContentFile(FileView { meta: here(st, dir), value })))
        }
    } else if key == "groundcover"@ {
        if exists|i: int| 0 <= i < st.settings.len() && named_file(st.settings[i], FileKind::Groundcover, value) {
            Err(LoadErr::DuplicateGroundcover(value))
        } else {
            Ok(pushed(st, SettingView::Groundcover(FileView { meta: here(st, dir), value })))
        }
    } else if key == "fallback-archive"@ {
        if exists|i: int| 0 <= i < st.settings.len() && named_file(st.settings[i], FileKind::Archive, value) {
            Err(LoadErr::DuplicateArchive(value))
        } else {
            Ok(pushed(st, SettingView::BethArchive(FileView { meta: here(st, dir), value })))
        }
    } else if key == "fallback"@ {
        match split_game_setting(value) {
            Some(kv) => Ok(pushed(st, SettingView::GameSetting(PairView { meta: here(st, dir), key: kv.0, value: kv.1 }))),
            None => Err(LoadErr::InvalidGameSetting(value)),
        }
    } else if key == "encoding"@ {
        match encoding_named(value) {
            Some(e) => Ok(LoadState {
                settings: st.settings.filter(|v: SettingView| not_encoding(v)).push(SettingView::Encoding(EncView { meta: here(st, dir), value: e })),
                comment: Seq::empty(),
                subs: st.subs,
            }),
            None => Err(LoadErr::BadEncoding(value)),
        }
    } else if key == "config"@ {
        Ok(LoadState { settings: st.settings, comment: Seq::empty(), subs: st.subs.push((value, st.comment)) })
    } else if key == "data"@ {
        Ok(pushed(st, SettingView::DataDirectory(dir_setting(value, dir, st.comment, dirs))))
    } else if key == "resources"@ {
        Ok(pushed(st, SettingView::Resources(dir_setting(value, dir, st.comment, dirs))))
    } else if key == "user-data"@ {
        Ok(pushed(st, SettingView::UserData(dir_setting(value, dir, st.comment, dirs))))
    } else if key == "data-local"@ {
        Ok(pushed(st, SettingView::DataLocal(dir_setting(value, dir, st.comment, dirs))))
    } else if key == "replace"@ {
        Ok(LoadState { settings: replaced(st.settings, lowered(value)), comment: st.comment, subs: st.subs })
    } else {
        Ok(pushed(st, SettingView::Generic(PairView { meta: here(st, dir), key, value })))
    }
}

/// The effect of one line of the configuration file `dir` on `st`: a blank line or a comment
/// line joins the queued comment; any other line must be `key=value` (both trimmed).
pub open spec fn load_line_effect(st: LoadState, line: Seq<char>, dir: Seq<char>, dirs: DirsView) -> Result<LoadState, LoadErr> {
    let t = trimmed(line);
    if t.len() == 0 {
        Ok(LoadState { settings: st.settings, comment: st.comment.push('\n'), subs: st.subs })
    } else if t[0] == '#' {
        Ok(LoadState { settings: st.settings, comment: st.comment + line.push('\n'), subs: st.subs })
    } else {
        match first_index_of(t, '=') {
            None => Err(LoadErr::InvalidLine(t)),
            Some(eq) => load_entry_effect(st, trimmed(t.subrange(0, eq)), trimmed(t.subrange(eq + 1, t.len() as int)), dir, dirs),
        }
    }
}

/// The effect of the lines `lines` of the configuration file `dir` on `st`, stopping at the
/// first line in error.
pub open spec fn load_lines_effect(st: LoadState, lines: Seq<Seq<char>>, dir: Seq<char>, dirs: DirsView) -> Result<LoadState, LoadErr>
    decreases lines.len(),
{
    if lines.len() == 0 {
        Ok(st)
    } else {
        match load_line_effect(st, lines[0], dir, dirs) {
            Ok(next) => load_lines_effect(next, lines.drop_first(), dir, dirs),
            Err(e) => Err(e),
        }
    }
}

/// The views of the pending `config=` entries.
pub open spec fn subs_view(subs: Seq<(String, String)>) -> Seq<(Seq<char>, Seq<char>)> {
    subs.map_values(|p: (String, String)| (p.0@, p.1@))
}

impl OpenMWConfiguration {
    /// Fails with [`ConfigError::MaxDepthExceeded`] when a configuration file is reached
    /// through more than sixteen `config=` entries.
    pub fn check_depth(config_dir: &str, depth: usize) -> (r: Result<(), ConfigError>)
        ensures
            depth <= 16 ==> r is Ok,
            depth > 16 ==> (r matches Err(ConfigError::MaxDepthExceeded(p)) && p@ == config_dir@),
    {
        if depth > 16 {
            Err(ConfigError::MaxDepthExceeded(owned(config_dir)))
        } else {
            Ok(())
        }
    }

    /// Applies the entry `key=value` of the configuration file `config_dir`.
    fn load_entry(&mut self, key: &str, value: &str, config_dir: &str, comment: &mut String, subs: &mut Vec<(String, String)>) -> (r: Result<(), ConfigError>)
        requires
            old(self).wf(),
        ensures
            old(self).same_frame(final(self)),
            match load_entry_effect(LoadState { settings: old(self).settings_view(), comment: old(comment)@, subs: subs_view(old(subs)@) }, key@, value@, config_dir@, old(self).dirs_view()) {
                Ok(st) => r is Ok && final(self).settings_view() == st.settings && final(comment)@ == st.comment && subs_view(final(subs)@) == st.subs,
                Err(le) => r matches Err(e) && reports(e, le, config_dir@),
            },
    {
        let ghost s0 = self.settings_view();
        if same_text(key, "content") {
            if self.has_file(FileKind::Content, value) {
                return Err(ConfigError::DuplicateContentFile { file: owned(value), config: owned(config_dir) });
            }
            let v = SettingValue::ContentFile(FileSetting::new(value, config_dir, comment));
            proof { lemma_views_push(self.settings@, v); }
            self.settings.push(v);
        } else if same_text(key, "groundcover") {
            if self.has_file(FileKind::Groundcover, value) {
                return Err(ConfigError::DuplicateGroundcoverFile { file: owned(value), config: owned(config_dir) });
            }
            let v = SettingValue::Groundcover(FileSetting::new(value, config_dir, comment));
            proof { lemma_views_push(self.settings@, v); }
            self.settings.push(v);
        } else if same_text(key, "fallback-archive") {
            if self.has_file(FileKind::Archive, value) {
                return Err(ConfigError::DuplicateArchiveFile { file: owned(value), config: owned(config_dir) });
            }
            let v = SettingValue::BethArchive(FileSetting::new(value, config_dir, comment));
            proof { lemma_views_push(self.settings@, v); }
            self.settings.push(v);
        } else if same_text(key, "fallback") {
            self.set_game_setting(value, Some(owned(config_dir)), comment)?;
        } else if same_text(key, "encoding") {
            let e = EncodingSetting::parse(value, config_dir, comment)?;
            self.set_encoding(Some(e));
            proof {
                assert(s0.filter(|v: SettingView| not_encoding(v)) + seq![SettingView::Encoding(e@)] =~= s0.filter(|v: SettingView| not_encoding(v)).push(SettingView::Encoding(e@)));
            }
        } else if same_text(key, "config") {
            let mut taken = String::new();
            std::mem::swap(&mut taken, comment);
            let entry = (owned(value), taken);
            proof {
                assert(subs_view(subs@.push(entry)) =~= subs_view(subs@).push((value@, old(comment)@)));
            }
            subs.push(entry);
        } else if same_text(key, "data") {
            let d = DirectorySetting::new(value, config_dir, comment, &self.dirs);
            let v = SettingValue::DataDirectory(d);
            proof { lemma_views_push(self.settings@, v); }
            self.settings.push(v);
        } else if same_text(key, "resources") {
            let d = DirectorySetting::new(value, config_dir, comment, &self.dirs);
            let v = SettingValue::Resources(d);
            proof { lemma_views_push(self.settings@, v); }
            self.settings.push(v);
        } else if same_text(key, "user-data") {
            let d = DirectorySetting::new(value, config_dir, comment, &self.dirs);
            let v = SettingValue::UserData(d);
            proof { lemma_views_push(self.settings@, v); }
            self.settings.push(v);
        } else if same_text(key, "data-local") {
            let d = DirectorySetting::new(value, config_dir, comment, &self.dirs);
            let v = SettingValue::DataLocal(d);
            proof { lemma_views_push(self.settings@, v); }
            self.settings.push(v);
        } else if same_text(key, "replace") {
            let what = crate::text::to_lower(value);
            if same_text(&what, "content") {
                self.clear_files(FileKind::Content);
            } else if same_text(&what, "data") {
                self.clear_dirs(DirKind::Data);
            } else if same_text(&what, "fallback") {
                let ghost pred = |v: SettingView| not_game(v);
                let keep = (|s: &SettingValue| -> (b: bool)
                    ensures
                        b == not_game(s@),
                    {
                        match s {
                            SettingValue::GameSetting(_) => false,
                            _ => true,
                        }
                    });
                self.retain_where(keep, Ghost(pred));
            } else if same_text(&what, "fallback-archives") {
                self.clear_files(FileKind::Archive);
            } else if same_text(&what, "groundcover") {
                self.clear_files(FileKind::Groundcover);
            } else if same_text(&what, "data-local") {
                self.clear_dirs(DirKind::DataLocal);
            } else if same_text(&what, "resources") {
                self.clear_dirs(DirKind::Resources);
            } else if same_text(&what, "user-data") {
                self.clear_dirs(DirKind::UserData);
            } else if same_text(&what, "config") {
                self.settings.clear();
                proof {
                    assert(views_of(self.settings@) =~= Seq::<SettingView>::empty());
                }
            }
        } else {
            let v = SettingValue::Generic(GenericSetting::new(key, value, config_dir, comment));
            proof { lemma_views_push(self.settings@, v); }
            self.settings.push(v);
        }
        Ok(())
    }

    /// Reads the text of the configuration file `config_dir` into the chain: every setting is
    /// added in order and attributed to `config_dir` with the comment lines before it. Returns
    /// the `config=` entries of the file (value and comment), which are loaded after it.
    pub fn load(&mut self, config_dir: &str, text: &str) -> (r: Result<Vec<(String, String)>, ConfigError>)
        requires
            old(self).wf(),
        ensures
            old(self).same_frame(final(self)),
            match load_lines_effect(LoadState { settings: old(self).settings_view(), comment: Seq::empty(), subs: Seq::empty() }, text_lines(text@), config_dir@, old(self).dirs_view()) {
                Ok(st) => r matches Ok(subs) && final(self).settings_view() == st.settings && subs_view(subs@) == st.subs,
                Err(le) => r matches Err(e) && reports(e, le, config_dir@),
            },
    {
        let lines = crate::text::split_lines(text);
        let ghost all = text_lines(text@);
        let ghost start = LoadState { settings: self.settings_view(), comment: Seq::empty(), subs: Seq::empty() };
        let mut comment = String::new();
        let mut subs: Vec<(String, String)> = Vec::new();
        let mut i: usize = 0;
        proof {
            assert(all.subrange(0, all.len() as int) =~= all);
            assert(subs_view(subs@) =~= Seq::<(Seq<char>, Seq<char>)>::empty());
        }
        while i < lines.len()
            invariant
                all == text_lines(text@),
                start == (LoadState { settings: old(self).settings_view(), comment: Seq::empty(), subs: Seq::empty() }),
                lines@.len() == all.len(),
                forall|j: int| 0 <= j < lines@.len() ==> (#[trigger] lines@[j])@ == all[j],
                0 <= i <= lines@.len(),
                self.wf(),
                old(self).same_frame(self),
                load_lines_effect(start, all, config_dir@, old(self).dirs_view())
                    == load_lines_effect(LoadState { settings: self.settings_view(), comment: comment@, subs: subs_view(subs@) },
                        all.subrange(i as int, all.len() as int), config_dir@, old(self).dirs_view()),
            decreases lines@.len() - i,
        {
            let ghost st = LoadState { settings: self.settings_view(), comment: comment@, subs: subs_view(subs@) };
            let ghost rest = all.subrange(i as int, all.len() as int);
            proof {
                assert(rest[0] == all[i as int]);
                assert(rest.drop_first() =~= all.subrange(i + 1, all.len() as int));
            }
            let line = &lines[i];
            let t = crate::text::trim(line);
            let tv = crate::text::chars_of(&t);
            if tv.len() == 0 {
                comment.push('\n');
            } else if tv[0] == '#' {
                crate::text::push_text(&mut comment, line);
                comment.push('\n');
                proof {
                    assert(st.comment + line@.push('\n') =~= (st.comment + line@).push('\n'));
                }
            } else {
                match crate::text::find_char(&tv, '=') {
                    None => {
                        proof {
                            assert(load_line_effect(st, all[i as int], config_dir@, old(self).dirs_view()) == Err::<LoadState, LoadErr>(LoadErr::InvalidLine(t@)));
                            assert(load_lines_effect(st, rest, config_dir@, old(self).dirs_view()) == Err::<LoadState, LoadErr>(LoadErr::InvalidLine(t@)));
                        }
                        return Err(ConfigError::InvalidLine { line: t, config: owned(config_dir) });
                    },
                    Some(eq) => {
                        let key = crate::text::trim(&crate::text::string_of(&tv, 0, eq));
                        let value = crate::text::trim(&crate::text::string_of(&tv, eq + 1, tv.len()));
                        proof {
                            assert(load_line_effect(st, all[i as int], config_dir@, old(self).dirs_view())
                                == load_entry_effect(st, key@, value@, config_dir@, old(self).dirs_view()));
                        }
                        match self.load_entry(&key, &value, config_dir, &mut comment, &mut subs) {
                            Ok(()) => {},
                            Err(e) => {
                                proof {
                                    let le = load_entry_effect(st, key@, value@, config_dir@, old(self).dirs_view())->Err_0;
                                    assert(load_lines_effect(st, rest, config_dir@, old(self).dirs_view()) == Err::<LoadState, LoadErr>(le));
                                }
                                return Err(e);
                            },
                        }
                    },
                }
            }
            i += 1;
        }
        Ok(subs)
    }

    /// The `config=` entry for the value `value` of the configuration file `config_dir`,
    /// taking its comment.
    pub fn sub_config_setting(&self, value: &str, config_dir: &str, comment: &mut String) -> (r: DirectorySetting)
        ensures
            r@ == dir_setting(value@, config_dir@, old(comment)@, self.dirs_view()),
            final(comment)@ == Seq::<char>::empty(),
    {
        DirectorySetting::new(value, config_dir, comment, &self.dirs)
    }

    /// Adds a loaded `config=` entry to the chain.
    pub fn push_sub_configuration(&mut self, setting: DirectorySetting)
        ensures
            old(self).same_frame(final(self)),
            final(self).settings_view() == old(self).settings_view().push(SettingView::SubConfiguration(setting@)),
    {
        let v = SettingValue::SubConfiguration(setting);
        proof {
            lemma_views_push(self.settings@, v);
        }
        self.settings.push(v);
    }

    /// Completes a loaded chain as the engine sees it: the last `data-local=` directory is
    /// added as the last data directory, and the `vfs` directory under the last `resources=`
    /// directory is put first.
    pub fn finish_loading(&mut self)
        ensures
            old(self).same_frame(final(self)),
            ({
                let with_local = match last_dir(old(self).settings_view(), DirKind::DataLocal) {
                    Some(d) => old(self).settings_view().push(SettingView::DataDirectory(d)),
                    None => old(self).settings_view(),
                };
                final(self).settings_view() == match last_dir(old(self).settings_view(), DirKind::Resources) {
                    Some(res) => seq![SettingView::DataDirectory(dir_setting(
                        join_path(res.parsed, "vfs"@),
                        res.meta.source_config,
                        res.meta.comment,
                        old(self).dirs_view(),
                    ))] + with_local,
                    None => with_local,
                }
            }),
    {
        let ghost s0 = self.settings_view();
        let local = match self.data_local() {
            Some(d) => Some(d.copy()),
            None => None,
        };
        if let Some(d) = local {
            let v = SettingValue::DataDirectory(d);
            proof {
                lemma_views_push(self.settings@, v);
            }
            self.settings.push(v);
        }
        let ghost s1 = self.settings_view();
        proof {
            if local is Some {
                assert(s1.drop_last() =~= s0);
                assert(dirs_in(s1, DirKind::Resources) == dirs_in(s0, DirKind::Resources));
            }
        }
        let vfs = match self.resources() {
            Some(res) => {
                let path = join(res.parsed(), "vfs");
                let meta = res.meta();
                let mut comment = meta.comment.clone();
                Some(DirectorySetting::new(&path, &meta.source_config, &mut comment, &self.dirs))
            },
            None => None,
        };
        if let Some(d) = vfs {
            let v = SettingValue::DataDirectory(d);
            proof {
                assert(views_of(self.settings@.insert(0, v)) =~= seq![v@] + views_of(self.settings@));
            }
            self.settings.insert(0, v);
        }
    }
}

/// The line (with the comment lines before it) that writes `v` in an `openmw.cfg` file.
pub open spec fn setting_text(v: SettingView) -> Seq<char> {
    match v {
        SettingView::Encoding(e) => e.meta.comment + "encoding="@ + encoding_name(e.value) + "\n"@,
        SettingView::UserData(d) => d.meta.comment + "user-data="@ + d.original + "\n"@,
        SettingView::DataLocal(d) => d.meta.comment + "data-local="@ + d.original + "\n"@,
        SettingView::Resources(d) => d.meta.comment + "resources="@ + d.original + "\n"@,
        SettingView::GameSetting(g) => g.meta.comment + "fallback="@ + g.key + ","@ + g.value + "\n"@,
        SettingView::DataDirectory(d) => d.meta.comment + "data="@ + d.original + "\n"@,
        SettingView::SubConfiguration(d) => d.meta.comment + "config="@ + d.original + "\n"@,
        SettingView::Generic(g) => g.meta.comment + g.key + "="@ + g.value + "\n"@,
        SettingView::ContentFile(f) => f.meta.comment + "content="@ + f.value + "\n"@,
        SettingView::BethArchive(f) => f.meta.comment + "fallback-archive="@ + f.value + "\n"@,
        SettingView::Groundcover(f) => f.meta.comment + "groundcover="@ + f.value + "\n"@,
    }
}

/// The lines that write the settings `s`, in order.
pub open spec fn settings_text(s: Seq<SettingView>) -> Seq<char>
    decreases s.len(),
{
    if s.len() == 0 {
        Seq::empty()
    } else {
        settings_text(s.drop_last()) + setting_text(s.last())
    }
}

/// The line that closes a written configuration.
pub open spec fn serializer_line() -> Seq<char> {
    "# OpenMW-Config Serializer Version: 0.1.93\n"@
}

/// `v` came from the configuration file `cfg`.
pub open spec fn from_file(v: SettingView, cfg: Seq<char>) -> bool {
    meta_of(v).source_config == cfg
}

/// `v` is a `config=` entry naming `dir`, by its directory (compared by path components) or
/// its original text.
pub open spec fn sub_config_named(v: SettingView, dir: Seq<char>) -> bool {
    dir_of(v, DirKind::SubConfig) matches Some(d) && (path_components(d.parsed) == path_components(dir) || d.original == dir)
}

fn push_line(out: &mut String, comment: &String, key: &str, value: &String)
    ensures
        final(out)@ == old(out)@ + (comment@ + key@ + value@ + "\n"@),
{
    crate::text::push_text(out, comment);
    crate::text::push_text(out, key);
    crate::text::push_text(out, value);
    crate::text::push_text(out, "\n");
    proof {
        assert(old(out)@ + comment@ + key@ + value@ + "\n"@ =~= old(out)@ + (comment@ + key@ + value@ + "\n"@));
    }
}

impl SettingValue {
    /// Appends the line that writes this setting (with the comment lines before it) to `out`.
    pub fn write_to(&self, out: &mut String)
        ensures
            final(out)@ == old(out)@ + setting_text(self@),
    {
        match self {
            SettingValue::Encoding(e) => {
                let name = match e.value() {
                    crate::config::setting::EncodingType::WIN1250 => "win1250",
                    crate::config::setting::EncodingType::WIN1251 => "win1251",
                    crate::config::setting::EncodingType::WIN1252 => "win1252",
                };
                proof {
                    reveal_strlit("win1250");
                    reveal_strlit("win1251");
                    reveal_strlit("win1252");
                    assert(name@ == encoding_name(e@.value));
                }
                let n = owned(name);
                push_line(out, &e.meta().comment, "encoding=", &n);
            },
            SettingValue::UserData(d) => push_line(out, &d.meta().comment, "user-data=", d.original()),
            SettingValue::DataLocal(d) => push_line(out, &d.meta().comment, "data-local=", d.original()),
            SettingValue::Resources(d) => push_line(out, &d.meta().comment, "resources=", d.original()),
            SettingValue::GameSetting(g) => {
                let mut kv = g.key().clone();
                crate::text::push_text(&mut kv, ",");
                crate::text::push_text(&mut kv, g.value());
                push_line(out, &g.meta().comment, "fallback=", &kv);
                proof {
                    assert(g@.meta.comment + "fallback="@ + (g@.key + ","@ + g@.value) + "\n"@ =~= g@.meta.comment + "fallback="@ + g@.key + ","@ + g@.value + "\n"@);
                }
            },
            SettingValue::DataDirectory(d) => push_line(out, &d.meta().comment, "data=", d.original()),
            SettingValue::SubConfiguration(d) => push_line(out, &d.meta().comment, "config=", d.original()),
            SettingValue::Generic(g) => {
                let mut kv = g.key().clone();
                crate::text::push_text(&mut kv, "=");
                crate::text::push_text(&mut kv, g.value());
                push_line(out, &g.meta().comment, "", &kv);
                proof {
                    reveal_strlit("");
                    assert(g@.meta.comment + ""@ + (g@.key + "="@ + g@.value) + "\n"@ =~= g@.meta.comment + g@.key + "="@ + g@.value + "\n"@);
                }
            },
            SettingValue::ContentFile(f) => push_line(out, &f.meta().comment, "content=", f.value()),
            SettingValue::BethArchive(f) => push_line(out, &f.meta().comment, "fallback-archive=", f.value()),
            SettingValue::Groundcover(f) => push_line(out, &f.meta().comment, "groundcover=", f.value()),
        }
    }

    /// The line that writes this setting, with the comment lines before it.
    pub fn to_text(&self) -> (r: String)
        ensures
            r@ == setting_text(self@),
    {
        let mut out = String::new();
        self.write_to(&mut out);
        proof {
            assert(Seq::<char>::empty() + setting_text(self@) =~= setting_text(self@));
        }
        out
    }
}

impl DirectorySetting {
    /// The `openmw.cfg` file inside the directory that the entry names.
    pub fn config_file(&self) -> (r: String)
        ensures
            r@ == join_path(self@.parsed, cfg_name()),
    {
        proof {
            reveal_strlit("openmw.cfg");
            assert("openmw.cfg"@ =~= cfg_name());
        }
        join(self.parsed(), "openmw.cfg")
    }
}

impl OpenMWConfiguration {
    /// The text of the settings for which `from_file(_, cfg)` holds, in order.
    fn text_from(&self, cfg: &str) -> (r: String)
        ensures
            r@ == settings_text(self.settings_view().filter(|v: SettingView| from_file(v, cfg@))),
    {
        let ghost s = self.settings_view();
        let ghost pred = |v: SettingView| from_file(v, cfg@);
        let mut out = String::new();
        let mut i: usize = 0;
        proof {
            reveal(Seq::filter);
            assert(s.take(0).filter(pred) =~= Seq::<SettingView>::empty());
        }
        while i < self.settings.len()
            invariant
                s == views_of(self.settings@),
                pred == (|v: SettingView| from_file(v, cfg@)),
                0 <= i <= self.settings@.len(),
                out@ == settings_text(s.take(i as int).filter(pred)),
            decreases self.settings@.len() - i,
        {
            proof {
                assert(s.take(i + 1) =~= s.take(i as int).push(s[i as int]));
                lemma_filter_push(s.take(i as int), s[i as int], pred);
                assert(s.take(i as int).filter(pred).push(s[i as int]).drop_last() =~= s.take(i as int).filter(pred));
            }
            let item = &self.settings[i];
            if same_text(&item.meta().source_config, cfg) {
                item.write_to(&mut out);
            }
            i += 1;
        }
        proof {
            assert(s.take(self.settings@.len() as int) =~= s);
        }
        out
    }

    /// The whole chain written as one `openmw.cfg` text: every setting with its comment lines,
    /// then a closing line naming the serializer version.
    pub fn to_text(&self) -> (r: String)
        ensures
            r@ == settings_text(self.settings_view()) + serializer_line(),
    {
        let ghost s = self.settings_view();
        let mut out = String::new();
        let mut i: usize = 0;
        while i < self.settings.len()
            invariant
                s == views_of(self.settings@),
                0 <= i <= self.settings@.len(),
                out@ == settings_text(s.take(i as int)),
            decreases self.settings@.len() - i,
        {
            proof {
                assert(s.take(i + 1).drop_last() =~= s.take(i as int));
                assert(s.take(i + 1).last() == s[i as int]);
            }
            self.settings[i].write_to(&mut out);
            i += 1;
        }
        proof {
            assert(s.take(self.settings@.len() as int) =~= s);
        }
        crate::text::push_text(&mut out, "# OpenMW-Config Serializer Version: 0.1.93\n");
        out
    }

    /// The text of the user configuration file: the settings that came from it, in order.
    pub fn user_settings_text(&self) -> (r: String)
        requires
            self.wf(),
        ensures
            r@ == settings_text(self.settings_view().filter(|v: SettingView| from_file(v, self.user_cfg()))),
    {
        let cfg = self.user_cfg_path();
        self.text_from(&cfg)
    }

    /// The text of the `openmw.cfg` file of the loaded `config=` directory `target_dir`: the
    /// settings that came from it, in order. Fails with [`ConfigError::SubconfigNotLoaded`]
    /// when no `config=` entry names `target_dir` (by directory or original text).
    pub fn subconfig_text(&self, target_dir: &str) -> (r: Result<String, ConfigError>)
        ensures
            (exists|i: int| 0 <= i < self.settings_view().len() && sub_config_named(self.settings_view()[i], target_dir@))
                ==> (r matches Ok(t) && t@ == settings_text(self.settings_view().filter(|v: SettingView| from_file(v, join_path(target_dir@, cfg_name()))))),
            !(exists|i: int| 0 <= i < self.settings_view().len() && sub_config_named(self.settings_view()[i], target_dir@))
                ==> (r matches Err(ConfigError::SubconfigNotLoaded(p)) && p@ == target_dir@),
    {
        let ghost s = self.settings_view();
        let mut loaded = false;
        let mut i: usize = 0;
        while i < self.settings.len()
            invariant
                s == views_of(self.settings@),
                0 <= i <= self.settings@.len(),
                loaded == exists|j: int| 0 <= j < i && sub_config_named(s[j], target_dir@),
            decreases self.settings@.len() - i,
        {
            if let Some(d) = dir_ref(&self.settings[i], DirKind::SubConfig) {
                if same_path(d.parsed(), target_dir) || same_text(d.original(), target_dir) {
                    proof {
                        assert(sub_config_named(s[i as int], target_dir@));
                    }
                    loaded = true;
                }
            }
            i += 1;
        }
        if !loaded {
            return Err(ConfigError::SubconfigNotLoaded(owned(target_dir)));
        }
        proof {
            reveal_strlit("openmw.cfg");
            assert("openmw.cfg"@ =~= cfg_name());
        }
        let cfg = join(target_dir, "openmw.cfg");
        Ok(self.text_from(&cfg))
    }
}

} // verus!
