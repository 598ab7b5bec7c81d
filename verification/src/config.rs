//! The settings of the file system, with defaults for those left unset.
use vstd::prelude::*;
use crate::file::copy_strings;

verus! {

/// The settings of the file system. Every setting may be left unset; the
/// getters give the default of an unset one.
#[derive(Clone, Debug)]
pub struct Config {
    /// Show additional logging info?
    pub debug: Option<bool>,
    /// Perform a mount check and fail early if it fails.
    pub mount_check: Option<bool>,
    /// How long, in seconds, to cache the contents of a file after it has been accessed.
    pub cache_max_seconds: Option<u64>,
    /// How many files to cache.
    pub cache_max_items: Option<u64>,
    /// How long, in seconds, to cache the size and capacity of the file system.
    pub cache_statfs_seconds: Option<u64>,
    /// How many seconds to wait before checking for remote changes and updating them locally.
    pub sync_interval: Option<u64>,
    /// Mount options.
    pub mount_options: Option<Vec<String>>,
    /// Config directory (see XDG_CONFIG_HOME).
    pub config_dir: Option<String>,
    /// Session name.
    pub session_name: Option<String>,
    /// If true, authorize by pasting a code instead of a local redirect.
    pub authorize_using_code: Option<bool>,
    /// If true, files of one directory with identical names get increasing numeric suffixes.
    pub rename_identical_files: Option<bool>,
    /// If true, Google documents get an extension that tells their kind, e.g. "#.ods" for spreadsheets.
    pub add_extensions_to_special_files: Option<bool>,
    /// If true, deleted files and folders skip the trash and are deleted permanently.
    pub skip_trash: Option<bool>,
    /// The Google OAuth client secret for the Google Drive APIs.
    pub client_secret: Option<String>,
    /// Port for the OAuth redirect during authentication.
    pub auth_port: Option<u16>,
}

impl Default for Config {
    fn default() -> (r: Config)
        ensures
            r.debug is None && r.mount_check is None && r.cache_max_seconds is None
                && r.cache_max_items is None && r.cache_statfs_seconds is None && r.sync_interval is None
                && r.mount_options is None && r.config_dir is None && r.session_name is None
                && r.authorize_using_code is None && r.rename_identical_files is None
                && r.add_extensions_to_special_files is None && r.skip_trash is None
                && r.client_secret is None && r.auth_port is None,
    {
        Config {
            debug: None,
            mount_check: None,
            cache_max_seconds: None,
            cache_max_items: None,
            cache_statfs_seconds: None,
            sync_interval: None,
            mount_options: None,
            config_dir: None,
            session_name: None,
            authorize_using_code: None,
            rename_identical_files: None,
            add_extensions_to_special_files: None,
            skip_trash: None,
            client_secret: None,
            auth_port: None,
        }
    }
}

/// A setting, or its default when unset.
pub open spec fn or_default<T>(o: Option<T>, d: T) -> T {
    match o {
        Some(x) => x,
        None => d,
    }
}

/// Whether `name` is an absolute path on Unix.
pub open spec fn is_absolute(name: Seq<char>) -> bool {
    name.len() > 0 && name[0] == '/'
}

/// Whether `Path::join` of `dir` and `name` is settled by its documentation
/// to be `dir`, a separator and `name`: `name` is relative and not empty,
/// and `dir` is not empty and does not end in a separator.
pub open spec fn plain_join(dir: Seq<char>, name: Seq<char>) -> bool {
    !is_absolute(name) && name.len() > 0 && dir.len() > 0 && dir.last() != '/'
}

/// The path of `name` under `dir` (`Path::join`), on Unix. As `Path::join`
/// documents it: an absolute `name` replaces `dir`, and a relative one
/// follows `dir` after a separator. What it gives for an empty `dir`, or
/// one that ends in a separator, is left unsaid.
#[verifier::external_body]
fn join_path(dir: &str, name: &str) -> (r: String)
    ensures
        is_absolute(name@) ==> r@ == name@,
        plain_join(dir@, name@) ==> r@ == dir@ + seq!['/'] + name@,
{
    std::path::Path::new(dir).join(name).to_string_lossy().into_owned()
}

impl Config {
    /// Whether to show additional logging info. Default: false.
    pub fn debug(&self) -> (r: bool)
        ensures
            r == or_default(self.debug, false),
    {
        match self.debug { Some(b) => b, None => false }
    }

    /// Whether to perform a mount check first and fail early if it fails. Default: true.
    pub fn mount_check(&self) -> (r: bool)
        ensures
            r == or_default(self.mount_check, true),
    {
        match self.mount_check { Some(b) => b, None => true }
    }

    /// How many seconds to cache the contents of a file after it has been accessed. Default: 10.
    pub fn cache_max_seconds(&self) -> (r: u64)
        ensures
            r == or_default(self.cache_max_seconds, 10),
    {
        match self.cache_max_seconds { Some(s) => s, None => 10 }
    }

    /// How many files to cache. Default: 10.
    pub fn cache_max_items(&self) -> (r: u64)
        ensures
            r == or_default(self.cache_max_items, 10),
    {
        match self.cache_max_items { Some(s) => s, None => 10 }
    }

    /// How many seconds to cache the size and capacity of the file system
    /// (the values reported by `df`). Default: 100.
    pub fn cache_statfs_seconds(&self) -> (r: u64)
        ensures
            r == or_default(self.cache_statfs_seconds, 100),
    {
        match self.cache_statfs_seconds { Some(s) => s, None => 100 }
    }

    /// How many seconds to wait before checking for remote changes. Default: 10.
    pub fn sync_interval(&self) -> (r: u64)
        ensures
            r == or_default(self.sync_interval, 10),
    {
        match self.sync_interval { Some(s) => s, None => 10 }
    }

    /// The mount options. Default: none.
    pub fn mount_options(&self) -> (r: Vec<String>)
        ensures
            match self.mount_options {
                Some(o) => r@ == o@,
                None => r@ == Seq::<String>::empty(),
            },
    {
        match &self.mount_options {
            Some(options) => copy_strings(options),
            None => Vec::new(),
        }
    }

    /// The session name, which must be set.
    pub fn session_name(&self) -> (r: &String)
        requires
            self.session_name is Some,
        ensures
            *r == self.session_name.unwrap(),
    {
        self.session_name.as_ref().unwrap()
    }

    /// The path of the token file that authorizes access to a Drive account:
    /// the session name under the config directory, which must both be set,
    /// joined by `Path::join` (see `join_path` for what that settles).
    pub fn token_file(&self) -> (r: String)
        requires
            self.config_dir is Some,
            self.session_name is Some,
        ensures
            is_absolute(self.session_name.unwrap()@) ==> r@ == self.session_name.unwrap()@,
            plain_join(self.config_dir.unwrap()@, self.session_name.unwrap()@)
                ==> r@ == self.config_dir.unwrap()@ + seq!['/'] + self.session_name.unwrap()@,
    {
        join_path(self.config_dir().as_str(), self.session_name().as_str())
    }

    /// The config directory, which must be set.
    pub fn config_dir(&self) -> (r: &String)
        requires
            self.config_dir is Some,
        ensures
            *r == self.config_dir.unwrap(),
    {
        self.config_dir.as_ref().unwrap()
    }

    /// Whether Google Drive gives a code to paste after authorization, rather
    /// than redirecting to GCSF directly. Default: true.
    pub fn authorize_using_code(&self) -> (r: bool)
        ensures
            r == or_default(self.authorize_using_code, true),
    {
        match self.authorize_using_code { Some(b) => b, None => true }
    }

    /// Whether files of one directory with identical names get increasing
    /// numeric suffixes. Default: false.
    pub fn rename_identical_files(&self) -> (r: bool)
        ensures
            r == or_default(self.rename_identical_files, false),
    {
        match self.rename_identical_files { Some(b) => b, None => false }
    }

    /// Whether Google documents get an extension that tells their kind. Default: false.
    pub fn add_extensions_to_special_files(&self) -> (r: bool)
        ensures
            r == or_default(self.add_extensions_to_special_files, false),
    {
        match self.add_extensions_to_special_files { Some(b) => b, None => false }
    }

    /// Whether deleted files skip the trash and are deleted permanently. Default: false.
    pub fn skip_trash(&self) -> (r: bool)
        ensures
            r == or_default(self.skip_trash, false),
    {
        match self.skip_trash { Some(b) => b, None => false }
    }

    /// The Google OAuth client secret, which must be set.
    pub fn client_secret(&self) -> (r: &String)
        requires
            self.client_secret is Some,
        ensures
            *r == self.client_secret.unwrap(),
    {
        self.client_secret.as_ref().unwrap()
    }

    /// The port for the OAuth redirect during authentication. Default: 8081.
    pub fn auth_port(&self) -> (r: u16)
        ensures
            r == or_default(self.auth_port, 8081),
    {
        match self.auth_port { Some(p) => p, None => 8081 }
    }
}

} // verus!
