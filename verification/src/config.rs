use vstd::prelude::*;

use crate::alerter::AlertRule;
use crate::tagger::CategoryRule;
use crate::text::copy_str;

verus! {

/// A sequence of category-to-patterns rules (stored as a mapping in the
/// configuration file).
#[derive(Debug, Clone)]
pub struct TagRules(pub Vec<CategoryRule>);

impl TagRules {
    /// Returns `true` when the rules list is empty.
    pub fn is_empty(&self) -> (r: bool)
        ensures
            r == (self.0@.len() == 0),
    {
        self.0.len() == 0
    }
}

impl Default for TagRules {
    fn default() -> (r: Self)
        ensures
            r.0@.len() == 0,
    {
        TagRules(Vec::new())
    }
}

/// Application configuration.
#[derive(Debug, Clone)]
pub struct Config {
    /// Enable Banking application ID (OAuth `client_id`).
    pub application_id: String,
    /// Path to the PEM-encoded RSA private key.
    pub key_path: String,
    /// OAuth redirect URL.
    pub redirect_url: String,
    /// Local port for the OAuth callback server.
    pub callback_port: u16,
    /// Default bank name used when `--bank` is omitted.
    pub default_bank: String,
    /// Log level: `trace`, `debug`, `info`, `warn`, `error`.
    pub log_level: String,
    /// Category-to-patterns mapping for transaction tagging.
    pub tag_rules: TagRules,
    /// Alert rule definitions.
    pub alert_rules: Vec<AlertRule>,
}

pub open spec fn default_redirect_url_spec() -> Seq<char> {
    "http://localhost:19876/callback"@
}

pub fn default_redirect_url() -> (r: String)
    ensures
        r@ == default_redirect_url_spec(),
{
    copy_str("http://localhost:19876/callback")
}

pub fn default_callback_port() -> (r: u16)
    ensures
        r == 19876,
{
    19876
}

pub fn default_log_level() -> (r: String)
    ensures
        r@ == "info"@,
{
    copy_str("info")
}

/// The configuration with every field at its default.
pub open spec fn is_default_config(c: Config) -> bool {
    &&& c.application_id@.len() == 0
    &&& c.key_path@.len() == 0
    &&& c.redirect_url@ == default_redirect_url_spec()
    &&& c.callback_port == 19876
    &&& c.default_bank@.len() == 0
    &&& c.log_level@ == "info"@
    &&& c.tag_rules.0@.len() == 0
    &&& c.alert_rules@.len() == 0
}

/// Returns a `Config` populated with sensible defaults.
pub fn default_config() -> (r: Config)
    ensures
        is_default_config(r),
{
    Config {
        application_id: String::new(),
        key_path: String::new(),
        redirect_url: default_redirect_url(),
        callback_port: default_callback_port(),
        default_bank: String::new(),
        log_level: default_log_level(),
        tag_rules: TagRules::default(),
        alert_rules: Vec::new(),
    }
}

impl Default for Config {
    fn default() -> (r: Self)
        ensures
            is_default_config(r),
    {
        default_config()
    }
}

// ---------------------------------------------------------------------------
// Paths
// ---------------------------------------------------------------------------

/// What `Path::join` gives for a base path and a relative component.
pub uninterp spec fn path_joined(base: Seq<char>, name: Seq<char>) -> Seq<char>;

/// What `Path::file_name` gives for a path.
pub uninterp spec fn path_file_name(p: Seq<char>) -> Option<Seq<char>>;

/// Calls `Path::join`. Claimed: the named result. The separator it puts
/// between the parts depends on the platform, so nothing more is stated.
#[verifier::external_body]
pub(crate) fn path_join(base: &str, name: &str) -> (r: String)
    ensures
        r@ == path_joined(base@, name@),
{
    std::path::Path::new(base).join(name).to_string_lossy().into_owned()
}

/// Calls `Path::file_name`. Claimed: the named result.
#[verifier::external_body]
fn file_name_of(p: &str) -> (r: Option<String>)
    ensures
        match r {
            Some(n) => path_file_name(p@) == Some(n@),
            None => path_file_name(p@) is None,
        },
{
    std::path::Path::new(p).file_name().map(|n| n.to_string_lossy().into_owned())
}

/// Calls `dirs::config_dir`. The user's configuration directory depends on
/// the environment, so nothing is stated of it.
#[verifier::external_body]
fn user_config_dir() -> (r: Option<String>) {
    dirs::config_dir().map(|p| p.to_string_lossy().into_owned())
}

/// Calls `dirs::home_dir`. The home directory depends on the environment, so
/// nothing is stated of it.
#[verifier::external_body]
fn user_home_dir() -> (r: Option<String>) {
    dirs::home_dir().map(|p| p.to_string_lossy().into_owned())
}

/// The application directory for a given configuration directory and home
/// directory: `banqline` inside the configuration directory, else inside
/// `~/.config`, else the relative `banqline`.
pub open spec fn app_dir_spec(config_dir: Option<Seq<char>>, home_dir: Option<Seq<char>>) -> Seq<char> {
    let base = match config_dir {
        Some(c) => c,
        None => match home_dir {
            Some(h) => path_joined(h, ".config"@),
            None => Seq::<char>::empty(),
        },
    };
    path_joined(base, "banqline"@)
}

pub open spec fn opt_str_view(o: Option<String>) -> Option<Seq<char>> {
    match o {
        Some(s) => Some(s@),
        None => None,
    }
}

/// The application directory, from the directories the environment gives.
pub fn app_dir_from(config_dir: Option<String>, home_dir: Option<String>) -> (r: String)
    ensures
        r@ == app_dir_spec(opt_str_view(config_dir), opt_str_view(home_dir)),
{
    let base = match config_dir {
        Some(c) => c,
        None => match home_dir {
            Some(h) => path_join(h.as_str(), ".config"),
            None => String::new(),
        },
    };
    path_join(base.as_str(), "banqline")
}

/// Banqline's fixed application directory, whatever the environment.
pub fn default_app_dir() -> (r: String)
    ensures
        exists|c: Option<Seq<char>>, h: Option<Seq<char>>| r@ == app_dir_spec(c, h),
{
    let c = user_config_dir();
    let h = user_home_dir();
    app_dir_from(c, h)
}

/// The error for a key path that is not set.
pub open spec fn key_not_set_error() -> Seq<char> {
    "key_path is not set"@
}

/// The error for a key path without a file name.
pub open spec fn key_no_file_name_error() -> Seq<char> {
    "key_path must contain a file name"@
}

/// Where the private key lives, for a key path and an application directory:
/// the key path's file name inside the application directory.
pub open spec fn key_path_in(key_path: Seq<char>, app_dir: Seq<char>) -> Result<Seq<char>, Seq<char>> {
    if key_path.len() == 0 {
        Err(key_not_set_error())
    } else {
        match path_file_name(key_path) {
            Some(n) => if n.len() > 0 {
                Ok(path_joined(app_dir, n))
            } else {
                Err(key_no_file_name_error())
            },
            None => Err(key_no_file_name_error()),
        }
    }
}

pub open spec fn result_view(r: Result<String, String>) -> Result<Seq<char>, Seq<char>> {
    match r {
        Ok(s) => Ok(s@),
        Err(e) => Err(e@),
    }
}

/// Resolves a key path to a file inside the given application directory.
pub fn key_path_inside(key_path: &str, app_dir: &str) -> (r: Result<String, String>)
    ensures
        result_view(r) == key_path_in(key_path@, app_dir@),
{
    if key_path.is_empty() {
        return Err(copy_str("key_path is not set"));
    }
    match file_name_of(key_path) {
        Some(n) => {
            if n.as_str().is_empty() {
                Err(copy_str("key_path must contain a file name"))
            } else {
                Ok(path_join(app_dir, n.as_str()))
            }
        },
        None => Err(copy_str("key_path must contain a file name")),
    }
}

impl Config {
    /// Returns the expected path of the config YAML file.
    pub fn config_path(&self) -> (r: String)
        ensures
            exists|c: Option<Seq<char>>, h: Option<Seq<char>>| r@ == path_joined(app_dir_spec(c, h), "config.yaml"@),
    {
        let d = default_app_dir();
        path_join(d.as_str(), "config.yaml")
    }

    /// Returns Banqline's fixed application data directory.
    pub fn app_dir(&self) -> (r: String)
        ensures
            exists|c: Option<Seq<char>>, h: Option<Seq<char>>| r@ == app_dir_spec(c, h),
    {
        default_app_dir()
    }

    /// Returns the expected path of the session JSON file inside the data
    /// directory.
    pub fn session_path(&self) -> (r: String)
        ensures
            exists|c: Option<Seq<char>>, h: Option<Seq<char>>| r@ == path_joined(app_dir_spec(c, h), "session.json"@),
    {
        let d = self.app_dir();
        path_join(d.as_str(), "session.json")
    }

    /// Returns the expected path of the local SQLite database.
    pub fn data_path(&self) -> (r: String)
        ensures
            exists|c: Option<Seq<char>>, h: Option<Seq<char>>| r@ == path_joined(app_dir_spec(c, h), "data.db"@),
    {
        let d = self.app_dir();
        path_join(d.as_str(), "data.db")
    }

    /// Resolves `key_path` to a file inside Banqline's fixed app directory:
    /// only the file name of `key_path` is used. An empty key path, or one
    /// without a file name, is an error.
    pub fn key_abs_path(&self) -> (r: Result<String, String>)
        ensures
            self.key_path@.len() == 0 ==> result_view(r) == Err::<Seq<char>, Seq<char>>(key_not_set_error()),
            exists|c: Option<Seq<char>>, h: Option<Seq<char>>| result_view(r) == key_path_in(
                self.key_path@,
                app_dir_spec(c, h),
            ),
    {
        let d = self.app_dir();
        key_path_inside(self.key_path.as_str(), d.as_str())
    }
}

} // verus!
