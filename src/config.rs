//! The client's settings and the rules that check them.

use vstd::prelude::*;
use vstd::string::*;
use crate::paths::str_eq;
use crate::paths::{base_name, basename};

verus! {

/// File name of the settings file.
pub const CONFFILENAME: &'static str = "conf.ini";

/// File name of the exclude list in the metadata directory.
pub const EXCLUDEFILENAME: &'static str = "exclude";

/// The host must be reached over TLS.
pub const SSL_PATTERN: &'static str = "^https://.*";

/// What the regex crate decides for a pattern and a text: `None` where the
/// pattern does not compile, else whether the pattern matches somewhere in
/// the text.
pub uninterp spec fn regex_match(pattern: Seq<char>, text: Seq<char>) -> Option<bool>;

/// Relies on `regex::Regex::new` (compiles a pattern, or fails) and
/// `regex::Regex::is_match`, which depend on their two strings alone.
#[verifier::external_body]
fn regex_is_match(pattern: &str, text: &str) -> (r: Option<bool>)
    ensures
        r == regex_match(pattern@, text@),
{
    match regex::Regex::new(pattern) {
        Ok(re) => Some(re.is_match(text)),
        Err(_) => None,
    }
}

/// How much the client logs.
#[derive(Clone, Copy, Debug, PartialEq, Eq, Structural)]
pub enum LogLevel {
    Off,
    Error,
    Warn,
    Info,
    Debug,
    Trace,
}

pub open spec fn ascii_lower(c: char) -> char {
    if 'A' <= c && c <= 'Z' {
        ((c as u32) + 32) as char
    } else {
        c
    }
}

/// Equal but for the case of ASCII letters.
pub open spec fn eq_ignore_ascii_case(a: Seq<char>, b: Seq<char>) -> bool {
    a.len() == b.len() && forall|i: int| 0 <= i < a.len() ==> ascii_lower(#[trigger] a[i]) == ascii_lower(b[i])
}

pub open spec fn level_name(l: LogLevel) -> Seq<char> {
    match l {
        LogLevel::Off => "OFF"@,
        LogLevel::Error => "ERROR"@,
        LogLevel::Warn => "WARN"@,
        LogLevel::Info => "INFO"@,
        LogLevel::Debug => "DEBUG"@,
        LogLevel::Trace => "TRACE"@,
    }
}

/// The level whose name `s` is, in any case of letters.
pub open spec fn level_named(s: Seq<char>) -> Option<LogLevel> {
    if eq_ignore_ascii_case(s, "OFF"@) {
        Some(LogLevel::Off)
    } else if eq_ignore_ascii_case(s, "ERROR"@) {
        Some(LogLevel::Error)
    } else if eq_ignore_ascii_case(s, "WARN"@) {
        Some(LogLevel::Warn)
    } else if eq_ignore_ascii_case(s, "INFO"@) {
        Some(LogLevel::Info)
    } else if eq_ignore_ascii_case(s, "DEBUG"@) {
        Some(LogLevel::Debug)
    } else if eq_ignore_ascii_case(s, "TRACE"@) {
        Some(LogLevel::Trace)
    } else {
        None
    }
}

/// Relies on `<log::LevelFilter as FromStr>::from_str`, which compares the
/// text with "OFF", "ERROR", "WARN", "INFO", "DEBUG", "TRACE" in that order,
/// ignoring the case of ASCII letters.
#[verifier::external_body]
fn parse_level_filter(s: &str) -> (r: Option<LogLevel>)
    ensures
        r == level_named(s@),
{
    match <log::LevelFilter as std::str::FromStr>::from_str(s) {
        Ok(log::LevelFilter::Off) => Some(LogLevel::Off),
        Ok(log::LevelFilter::Error) => Some(LogLevel::Error),
        Ok(log::LevelFilter::Warn) => Some(LogLevel::Warn),
        Ok(log::LevelFilter::Info) => Some(LogLevel::Info),
        Ok(log::LevelFilter::Debug) => Some(LogLevel::Debug),
        Ok(log::LevelFilter::Trace) => Some(LogLevel::Trace),
        Err(_) => None,
    }
}

/// Relies on `log::LevelFilter::as_str`, which gives the upper-case name.
#[verifier::external_body]
fn level_filter_name(l: LogLevel) -> (r: &'static str)
    ensures
        r@ == level_name(l),
{
    let f = match l {
        LogLevel::Off => log::LevelFilter::Off,
        LogLevel::Error => log::LevelFilter::Error,
        LogLevel::Warn => log::LevelFilter::Warn,
        LogLevel::Info => log::LevelFilter::Info,
        LogLevel::Debug => log::LevelFilter::Debug,
        LogLevel::Trace => log::LevelFilter::Trace,
    };
    f.as_str()
}

impl LogLevel {
    /// The level named by `s`, if any.
    pub fn parse(s: &str) -> (r: Option<LogLevel>)
        ensures
            r == level_named(s@),
    {
        parse_level_filter(s)
    }

    /// The level named by `s`, or `default` when `s` names none.
    pub fn parse_or(s: &str, default: LogLevel) -> (r: LogLevel)
        ensures
            r == (match level_named(s@) {
                Some(l) => l,
                None => default,
            }),
    {
        match parse_level_filter(s) {
            Some(l) => l,
            None => default,
        }
    }

    /// The level's name, in upper case.
    pub fn name(&self) -> (r: String)
        ensures
            r@ == level_name(*self),
    {
        level_filter_name(*self).to_owned()
    }
}

#[derive(Clone, Copy, Debug, PartialEq, Eq, Structural)]
pub enum ValidateResult {
    Valid,
    RootPathError,
    DontUseSSLError,
    NetworkError,
}

/// A setting that the settings file must hold.
#[derive(Clone, Copy, Debug, PartialEq, Eq, Structural)]
pub enum ConfKey {
    NcHost,
    NcUsername,
    NcPassword,
    LocalRoot,
}

#[derive(Clone, Copy, Debug, PartialEq, Eq, Structural)]
pub enum ConfigError {
    /// The settings file lacks this key.
    Missing(ConfKey),
}

pub open spec fn conf_key_name(k: ConfKey) -> Seq<char> {
    match k {
        ConfKey::NcHost => "NC_HOST"@,
        ConfKey::NcUsername => "NC_USERNAME"@,
        ConfKey::NcPassword => "NC_PASSWORD"@,
        ConfKey::LocalRoot => "LOCAL_ROOT"@,
    }
}

impl ConfKey {
    /// The key as the settings file writes it.
    pub fn name(&self) -> (r: String)
        ensures
            r@ == conf_key_name(*self),
    {
        proof {
            reveal_strlit("NC_HOST");
            reveal_strlit("NC_USERNAME");
            reveal_strlit("NC_PASSWORD");
            reveal_strlit("LOCAL_ROOT");
        }
        match self {
            ConfKey::NcHost => "NC_HOST".to_owned(),
            ConfKey::NcUsername => "NC_USERNAME".to_owned(),
            ConfKey::NcPassword => "NC_PASSWORD".to_owned(),
            ConfKey::LocalRoot => "LOCAL_ROOT".to_owned(),
        }
    }
}

pub struct Config {
    pub nc_host: String,
    pub nc_username: String,
    pub nc_password: String,
    pub local_root: String,
    pub rust_log: LogLevel,
    pub proxy: Option<String>,
}

/// Whether a host is reached over TLS.
pub open spec fn host_uses_tls(host: Seq<char>) -> bool {
    regex_match(SSL_PATTERN@, host) == Some(true)
}

/// The outcome of the checks, in the order they are made.
pub open spec fn validation_result(root_path_ready: bool, tls: bool, network_ok: bool) -> ValidateResult {
    if !root_path_ready {
        ValidateResult::RootPathError
    } else if !tls {
        ValidateResult::DontUseSSLError
    } else if !network_ok {
        ValidateResult::NetworkError
    } else {
        ValidateResult::Valid
    }
}

/// The settings that a settings file holding these values gives.
pub open spec fn conf_result(
    nc_host: Option<String>,
    nc_username: Option<String>,
    nc_password: Option<String>,
    local_root: Option<String>,
) -> Option<ConfKey> {
    if nc_host is None {
        Some(ConfKey::NcHost)
    } else if nc_username is None {
        Some(ConfKey::NcUsername)
    } else if nc_password is None {
        Some(ConfKey::NcPassword)
    } else if local_root is None {
        Some(ConfKey::LocalRoot)
    } else {
        None
    }
}

/// The level that a settings file's `RUST_LOG` value gives.
pub open spec fn log_setting(rust_log: Option<String>) -> LogLevel {
    match rust_log {
        Some(s) => match level_named(s@) {
            Some(l) => l,
            None => LogLevel::Off,
        },
        None => LogLevel::Off,
    }
}

/// The outcome of the checks from their results: the local root is ready,
/// the host uses TLS, the host answered with success.
pub fn validation_outcome(root_path_ready: bool, tls: bool, network_ok: bool) -> (r: ValidateResult)
    ensures
        r == validation_result(root_path_ready, tls, network_ok),
{
    if !root_path_ready {
        ValidateResult::RootPathError
    } else if !tls {
        ValidateResult::DontUseSSLError
    } else if !network_ok {
        ValidateResult::NetworkError
    } else {
        ValidateResult::Valid
    }
}

impl Config {
    /// Builds the settings from the values that the settings file holds for
    /// each key. A missing level, or one that names no level, turns logging off.
    pub fn from_conf_values(
        nc_host: Option<String>,
        nc_username: Option<String>,
        nc_password: Option<String>,
        local_root: Option<String>,
        rust_log: Option<String>,
        proxy: Option<String>,
    ) -> (r: Result<Config, ConfigError>)
        ensures
            conf_result(nc_host, nc_username, nc_password, local_root) matches Some(k) ==> r == Err::<
                Config,
                ConfigError,
            >(ConfigError::Missing(k)),
            conf_result(nc_host, nc_username, nc_password, local_root) is None ==> r is Ok,
            r matches Ok(c) ==> {
                &&& c.nc_host == nc_host.unwrap()
                &&& c.nc_username == nc_username.unwrap()
                &&& c.nc_password == nc_password.unwrap()
                &&& c.local_root == local_root.unwrap()
                &&& c.proxy == proxy
                &&& c.rust_log == log_setting(rust_log)
            },
    {
        let nc_host = match nc_host {
            Some(v) => v,
            None => {
                return Err(ConfigError::Missing(ConfKey::NcHost));
            },
        };
        let nc_username = match nc_username {
            Some(v) => v,
            None => {
                return Err(ConfigError::Missing(ConfKey::NcUsername));
            },
        };
        let nc_password = match nc_password {
            Some(v) => v,
            None => {
                return Err(ConfigError::Missing(ConfKey::NcPassword));
            },
        };
        let local_root = match local_root {
            Some(v) => v,
            None => {
                return Err(ConfigError::Missing(ConfKey::LocalRoot));
            },
        };
        let level = match &rust_log {
            Some(s) => LogLevel::parse_or(s.as_str(), LogLevel::Off),
            None => LogLevel::Off,
        };
        Ok(Config { nc_host, nc_username, nc_password, local_root, rust_log: level, proxy })
    }

    /// The key and value pairs that the settings file is written with.
    pub fn conf_entries(&self) -> (r: Vec<(String, String)>)
        ensures
            r@.len() == 5,
            r@[0].0@ == "NC_HOST"@ && r@[0].1@ == self.nc_host@,
            r@[1].0@ == "NC_USERNAME"@ && r@[1].1@ == self.nc_username@,
            r@[2].0@ == "NC_PASSWORD"@ && r@[2].1@ == self.nc_password@,
            r@[3].0@ == "LOCAL_ROOT"@ && r@[3].1@ == self.local_root@,
            r@[4].0@ == "RUST_LOG"@ && r@[4].1@ == level_name(self.rust_log),
    {
        let mut r: Vec<(String, String)> = Vec::new();
        r.push(("NC_HOST".to_owned(), self.nc_host.clone()));
        r.push(("NC_USERNAME".to_owned(), self.nc_username.clone()));
        r.push(("NC_PASSWORD".to_owned(), self.nc_password.clone()));
        r.push(("LOCAL_ROOT".to_owned(), self.local_root.clone()));
        r.push(("RUST_LOG".to_owned(), self.rust_log.name()));
        r
    }

    /// Whether the host is reached over TLS.
    pub fn uses_tls(&self) -> (r: bool)
        ensures
            r == host_uses_tls(self.nc_host@),
    {
        regex_is_match(SSL_PATTERN, self.nc_host.as_str()) == Some(true)
    }

    /// Checks the settings: the local root must exist or have been created,
    /// the host must use TLS, and the host must have answered with success.
    pub fn validation(&self, root_path_ready: bool, network_ok: bool) -> (r: ValidateResult)
        ensures
            r == validation_result(root_path_ready, host_uses_tls(self.nc_host@), network_ok),
    {
        let tls = root_path_ready && self.uses_tls();
        validation_outcome(root_path_ready, tls, network_ok)
    }
}

/// What a change in the metadata directory, or beside the settings file, asks for.
#[derive(Clone, Copy, Debug, PartialEq, Eq, Structural)]
pub enum MetaRoute {
    UpdateExcFile,
    UpdateConfigFile,
    Ignore,
}

pub open spec fn under_stash(rel: Seq<char>) -> bool {
    rel.len() >= 7 && rel.take(7) == ".stash/"@
}

pub open spec fn meta_route(rel: Seq<char>) -> MetaRoute {
    if under_stash(rel) {
        MetaRoute::Ignore
    } else if basename(rel) == EXCLUDEFILENAME@ {
        MetaRoute::UpdateExcFile
    } else if basename(rel) == CONFFILENAME@ {
        MetaRoute::UpdateConfigFile
    } else {
        MetaRoute::Ignore
    }
}

/// Routes a created, written or removed file, given by its path relative to
/// the metadata directory (or to the settings file's directory), with `/`
/// between segments.
pub fn route_meta_event(rel: &str) -> (r: MetaRoute)
    ensures
        r == meta_route(rel@),
{
    let n = rel.unicode_len();
    proof {
        reveal_strlit(".stash/");
    }
    if n >= 7 && str_eq(rel.substring_char(0, 7), ".stash/") {
        return MetaRoute::Ignore;
    }
    let base = base_name(rel);
    if str_eq(base.as_str(), EXCLUDEFILENAME) {
        MetaRoute::UpdateExcFile
    } else if str_eq(base.as_str(), CONFFILENAME) {
        MetaRoute::UpdateConfigFile
    } else {
        MetaRoute::Ignore
    }
}

} // verus!
