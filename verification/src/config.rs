//! What is backed up, and where to.
use vstd::prelude::*;

use crate::path;
use crate::path::FsPath;

verus! {

/// A directory that is watched for changes.
#[derive(Debug)]
pub struct WatchPath {
    path: FsPath,
    ignore_patterns: Vec<String>,
}

/// The contents of a `WatchPath`.
#[verifier::ext_equal]
pub struct WatchPathView {
    pub path: Seq<u8>,
    pub ignore_patterns: Seq<String>,
}

impl View for WatchPath {
    type V = WatchPathView;

    closed spec fn view(&self) -> WatchPathView {
        WatchPathView { path: self.path@, ignore_patterns: self.ignore_patterns@ }
    }
}

impl Clone for WatchPath {
    fn clone(&self) -> (r: Self)
        ensures
            r@ == self@,
    {
        let mut ignore_patterns: Vec<String> = Vec::new();
        let mut i: usize = 0;
        while i < self.ignore_patterns.len()
            invariant
                i <= self.ignore_patterns@.len(),
                ignore_patterns@ == self.ignore_patterns@.take(i as int),
            decreases self.ignore_patterns@.len() - i,
        {
            ignore_patterns.push(self.ignore_patterns[i].clone());
            i = i + 1;
            assert(ignore_patterns@ =~= self.ignore_patterns@.take(i as int));
        }
        assert(ignore_patterns@ =~= self.ignore_patterns@);
        WatchPath { path: self.path.clone(), ignore_patterns }
    }
}

impl WatchPath {
    /// The directory `path`, with patterns of files to pass over.
    pub fn new(path: FsPath, ignore_patterns: Vec<String>) -> (r: WatchPath)
        ensures
            r@ == (WatchPathView { path: path@, ignore_patterns: ignore_patterns@ }),
    {
        WatchPath { path, ignore_patterns }
    }

    /// The directory's path.
    pub fn path(&self) -> (r: &FsPath)
        ensures
            r@ == self@.path,
    {
        &self.path
    }
}

/// The settings of the backup utility.
#[derive(Debug)]
pub struct Config {
    /// The directories to back up.
    pub watch_paths: Vec<WatchPath>,
    /// The directory that holds the backups and the journal.
    pub backup_path: FsPath,
    /// How long to wait for the file system, in seconds.
    pub fs_refresh_timeout_secs: u64,
}

/// The contents of a `Config`.
#[verifier::ext_equal]
pub struct ConfigView {
    pub watch_paths: Seq<WatchPathView>,
    pub backup_path: Seq<u8>,
    pub fs_refresh_timeout_secs: u64,
}

impl View for Config {
    type V = ConfigView;

    open spec fn view(&self) -> ConfigView {
        ConfigView {
            watch_paths: self.watch_paths@.map_values(|w: WatchPath| w@),
            backup_path: self.backup_path@,
            fs_refresh_timeout_secs: self.fs_refresh_timeout_secs,
        }
    }
}

/// The index of the first of `watch_paths`, from `from` on, that `needle` lies under.
pub open spec fn first_watching(watch_paths: Seq<WatchPathView>, needle: Seq<u8>, from: int) -> Option<
    int,
>
    decreases watch_paths.len() - from,
{
    if from < 0 || from >= watch_paths.len() {
        None
    } else if path::is_under(needle, watch_paths[from].path) {
        Some(from)
    } else {
        first_watching(watch_paths, needle, from + 1)
    }
}

/// `first_watching` gives the least index that fits, and nothing only where none fits.
pub proof fn lemma_first_watching(watch_paths: Seq<WatchPathView>, needle: Seq<u8>, from: int)
    requires
        0 <= from,
    ensures
        match first_watching(watch_paths, needle, from) {
            Some(i) => {
                &&& from <= i < watch_paths.len()
                &&& path::is_under(needle, watch_paths[i].path)
                &&& forall|j: int|
                    from <= j < i ==> !path::is_under(needle, (#[trigger] watch_paths[j]).path)
            },
            None => forall|j: int|
                from <= j < watch_paths.len() ==> !path::is_under(
                    needle,
                    (#[trigger] watch_paths[j]).path,
                ),
        },
    decreases watch_paths.len() - from,
{
    if from < watch_paths.len() && !path::is_under(needle, watch_paths[from].path) {
        lemma_first_watching(watch_paths, needle, from + 1);
    }
}

impl ConfigView {
    /// The watched directory that `needle` lies under: the first, where there are several.
    pub open spec fn watching(self, needle: Seq<u8>) -> Option<WatchPathView> {
        match first_watching(self.watch_paths, needle, 0) {
            Some(i) => Some(self.watch_paths[i]),
            None => None,
        }
    }
}

impl Clone for Config {
    fn clone(&self) -> (r: Self)
        ensures
            r@ == self@,
    {
        let mut watch_paths: Vec<WatchPath> = Vec::new();
        let mut i: usize = 0;
        while i < self.watch_paths.len()
            invariant
                i <= self.watch_paths@.len(),
                watch_paths@.len() == i,
                forall|j: int| 0 <= j < i ==> (#[trigger] watch_paths@[j])@ == self.watch_paths@[j]@,
            decreases self.watch_paths@.len() - i,
        {
            watch_paths.push(self.watch_paths[i].clone());
            i = i + 1;
        }
        assert(watch_paths@.map_values(|w: WatchPath| w@) =~= self@.watch_paths);
        Config {
            watch_paths,
            backup_path: self.backup_path.clone(),
            fs_refresh_timeout_secs: self.fs_refresh_timeout_secs,
        }
    }
}

impl Config {
    /// The wait for the file system where the settings give none, in seconds.
    pub fn default_fs_refresh_timeout_secs() -> (r: u64)
        ensures
            r == 60,
    {
        60
    }

    /// The watched directory that `needle` lies under: the first, where there are several.
    pub fn find_watch_path(&self, needle: &FsPath) -> (r: Option<&WatchPath>)
        ensures
            match r {
                Some(w) => self@.watching(needle@) == Some(w@) && path::is_under(needle@, w@.path),
                None => self@.watching(needle@) is None,
            },
    {
        let mut i: usize = 0;
        while i < self.watch_paths.len()
            invariant
                i <= self.watch_paths@.len(),
                first_watching(self@.watch_paths, needle@, 0) == first_watching(
                    self@.watch_paths,
                    needle@,
                    i as int,
                ),
            decreases self.watch_paths@.len() - i,
        {
            if needle.starts_with(&self.watch_paths[i].path) {
                return Some(&self.watch_paths[i]);
            }
            i = i + 1;
        }
        None
    }

    /// The file that keeps the journal: ".backdown.journal.json" among the backups.
    pub fn journal_path(&self) -> (r: FsPath)
        ensures
            r@ == path::joined(
                self.backup_path@,
                vstd::utf8::encode_utf8(".backdown.journal.json"@),
            ),
    {
        self.backup_path.join(&FsPath::from_text(".backdown.journal.json"))
    }
}

/// The spelling of the path of the settings file.
pub open spec fn location(
    debug: bool,
    xdg_config_dir: Option<Seq<char>>,
    home: Option<Seq<char>>,
) -> Seq<char> {
    if debug {
        "./config.ron"@
    } else {
        let base = match (xdg_config_dir, home) {
            (Some(dir), _) => dir,
            (None, Some(dir)) => dir + "/.config"@,
            (None, None) => "/etc"@,
        };
        base + "/backdown/config.ron"@
    }
}

/// The settings file: "config.ron" in the working directory of a debug build, else below
/// `xdg_config_dir`, ".config" in `home`, or "/etc", the first of these that there is.
pub fn config_location(debug: bool, xdg_config_dir: Option<String>, home: Option<String>) -> (r:
    FsPath)
    ensures
        r@ == vstd::utf8::encode_utf8(
            location(
                debug,
                match xdg_config_dir {
                    Some(dir) => Some(dir@),
                    None => None,
                },
                match home {
                    Some(dir) => Some(dir@),
                    None => None,
                },
            ),
        ),
{
    if debug {
        return FsPath::from_text("./config.ron");
    }
    let base: String = match (xdg_config_dir, home) {
        (Some(dir), _) => dir,
        (None, Some(dir)) => dir.concat("/.config"),
        (None, None) => "/etc".to_owned(),
    };
    FsPath::from_text(base.concat("/backdown/config.ron").as_str())
}

/// The watched directory of a path is the first whose components are the first of the path's.
pub proof fn lemma_watching(config: ConfigView, needle: Seq<u8>, i: int)
    requires
        0 <= i < config.watch_paths.len(),
        path::parts(config.watch_paths[i].path).is_prefix_of(path::parts(needle)),
        forall|j: int|
            0 <= j < i ==> !path::parts(
                (#[trigger] config.watch_paths[j]).path,
            ).is_prefix_of(path::parts(needle)),
    ensures
        config.watching(needle) == Some(config.watch_paths[i]),
{
    lemma_first_watching(config.watch_paths, needle, 0);
    let first = first_watching(config.watch_paths, needle, 0);
    assert(path::is_under(needle, config.watch_paths[i].path));
    if let Some(k) = first {
        if k < i {
            assert(path::is_under(needle, config.watch_paths[k].path));
        }
    }
}

/// A path has no watched directory only where it lies under none.
pub proof fn lemma_unwatched(config: ConfigView, needle: Seq<u8>)
    ensures
        config.watching(needle) is None <==> forall|i: int|
            0 <= i < config.watch_paths.len() ==> !path::parts(
                (#[trigger] config.watch_paths[i]).path,
            ).is_prefix_of(path::parts(needle)),
{
    lemma_first_watching(config.watch_paths, needle, 0);
    if let Some(k) = first_watching(config.watch_paths, needle, 0) {
        assert(path::is_under(needle, config.watch_paths[k].path));
    } else {
        assert forall|i: int| 0 <= i < config.watch_paths.len() implies !path::parts(
            (#[trigger] config.watch_paths[i]).path,
        ).is_prefix_of(path::parts(needle)) by {
            assert(!path::is_under(needle, config.watch_paths[i].path));
        }
    }
}

/// The settings hold each watched directory, in order.
pub proof fn lemma_config_view(config: Config)
    ensures
        config@.watch_paths.len() == config.watch_paths@.len(),
        forall|i: int|
            0 <= i < config.watch_paths@.len() ==> #[trigger] config@.watch_paths[i]
                == config.watch_paths@[i]@,
        config@.backup_path == config.backup_path@,
        config@.fs_refresh_timeout_secs == config.fs_refresh_timeout_secs,
{
}

/// Outside of debug builds the settings file lies below the configuration directory that the
/// environment names, else below the home directory, else below "/etc".
pub proof fn lemma_location(
    xdg_config_dir: Option<Seq<char>>,
    home: Option<Seq<char>>,
    dir: Seq<char>,
)
    ensures
        location(true, xdg_config_dir, home) == "./config.ron"@,
        location(false, Some(dir), home) == dir + "/backdown/config.ron"@,
        location(false, None, Some(dir)) == dir + "/.config"@ + "/backdown/config.ron"@,
        location(false, None, None) == "/etc"@ + "/backdown/config.ron"@,
{
}

} // verus!
