//! Configuration in three layers.
//!
//! An option can be given on the command line, in the configuration file, or
//! not at all. The command line overrides the file, and the file overrides
//! the built-in defaults. `get_config` merges the layers once, into a value
//! in which every option is settled; nothing else in this crate reads
//! options from anywhere. Reading the command line and the file are the
//! caller's business.
//!
//! The two addresses to look up are no options: they are questions, asked on
//! the command line or not at all. The file and the defaults never supply
//! one.

use vstd::prelude::*;
use crate::address::Family;
use crate::builder::BuildOptions;

verus! {

/// The capacity hint for IPv4 databases when none is given.
pub const DEFAULT_IPV4_LEN: usize = 200_000;

/// The capacity hint for IPv6 databases when none is given.
pub const DEFAULT_IPV6_LEN: usize = 60_000;

/// The comment marker when none is given.
pub const DEFAULT_COMMENT: char = '#';

/// The server port when none is given.
pub const DEFAULT_PORT: u16 = 26_000;

/// Where the IPv4 database is looked for when no path is given.
pub open spec fn default_ipv4_path() -> Seq<char> {
    "/usr/share/tor/geoip"@
}

/// Where the IPv6 database is looked for when no path is given.
pub open spec fn default_ipv6_path() -> Seq<char> {
    "/usr/share/tor/geoip6"@
}

/// One layer of options: each is given or not.
#[derive(Clone, Debug, PartialEq, Eq)]
pub struct Settings {
    pub config_path: Option<String>,
    pub ipv4_addr: Option<u32>,
    pub ipv4_path: Option<String>,
    pub ipv4_len: Option<usize>,
    pub ipv4_comment: Option<char>,
    pub ipv6_addr: Option<u128>,
    pub ipv6_path: Option<String>,
    pub ipv6_len: Option<usize>,
    pub ipv6_comment: Option<char>,
    pub server: Option<bool>,
    pub port: Option<u16>,
}

/// The options in force: every option settled. The two addresses to look up
/// have no default and stay optional.
#[derive(Clone, Debug, PartialEq, Eq)]
pub struct Config {
    pub config_path: String,
    pub ipv4_addr: Option<u32>,
    pub ipv4_path: String,
    pub ipv4_len: usize,
    pub ipv4_comment: char,
    pub ipv6_addr: Option<u128>,
    pub ipv6_path: String,
    pub ipv6_len: usize,
    pub ipv6_comment: char,
    pub server: bool,
    pub port: u16,
}

/// The first of `a`, `b` that is given, and `c` when neither is.
pub open spec fn first_of<T>(a: Option<T>, b: Option<T>, c: T) -> T {
    match a {
        Some(x) => x,
        None => match b {
            Some(y) => y,
            None => c,
        },
    }
}

/// The text of a string that may be absent.
pub open spec fn text_of(s: Option<String>) -> Option<Seq<char>> {
    match s {
        Some(x) => Some(x@),
        None => None,
    }
}

/// The mathematical model of [`Settings`]: paths are texts.
pub struct Layer {
    pub config_path: Option<Seq<char>>,
    pub ipv4_addr: Option<u32>,
    pub ipv4_path: Option<Seq<char>>,
    pub ipv4_len: Option<usize>,
    pub ipv4_comment: Option<char>,
    pub ipv6_addr: Option<u128>,
    pub ipv6_path: Option<Seq<char>>,
    pub ipv6_len: Option<usize>,
    pub ipv6_comment: Option<char>,
    pub server: Option<bool>,
    pub port: Option<u16>,
}

/// The mathematical model of a [`Config`]: paths are texts.
pub struct Resolved {
    pub config_path: Seq<char>,
    pub ipv4_addr: Option<u32>,
    pub ipv4_path: Seq<char>,
    pub ipv4_len: usize,
    pub ipv4_comment: char,
    pub ipv6_addr: Option<u128>,
    pub ipv6_path: Seq<char>,
    pub ipv6_len: usize,
    pub ipv6_comment: char,
    pub server: bool,
    pub port: u16,
}

impl View for Settings {
    type V = Layer;

    open spec fn view(&self) -> Layer {
        Layer {
            config_path: text_of(self.config_path),
            ipv4_addr: self.ipv4_addr,
            ipv4_path: text_of(self.ipv4_path),
            ipv4_len: self.ipv4_len,
            ipv4_comment: self.ipv4_comment,
            ipv6_addr: self.ipv6_addr,
            ipv6_path: text_of(self.ipv6_path),
            ipv6_len: self.ipv6_len,
            ipv6_comment: self.ipv6_comment,
            server: self.server,
            port: self.port,
        }
    }
}

impl View for Config {
    type V = Resolved;

    open spec fn view(&self) -> Resolved {
        Resolved {
            config_path: self.config_path@,
            ipv4_addr: self.ipv4_addr,
            ipv4_path: self.ipv4_path@,
            ipv4_len: self.ipv4_len,
            ipv4_comment: self.ipv4_comment,
            ipv6_addr: self.ipv6_addr,
            ipv6_path: self.ipv6_path@,
            ipv6_len: self.ipv6_len,
            ipv6_comment: self.ipv6_comment,
            server: self.server,
            port: self.port,
        }
    }
}

impl Resolved {
    /// The layer that gives every option as this configuration has it, and
    /// each address as this configuration has it.
    pub open spec fn as_layer(self) -> Layer {
        Layer {
            config_path: Some(self.config_path),
            ipv4_addr: self.ipv4_addr,
            ipv4_path: Some(self.ipv4_path),
            ipv4_len: Some(self.ipv4_len),
            ipv4_comment: Some(self.ipv4_comment),
            ipv6_addr: self.ipv6_addr,
            ipv6_path: Some(self.ipv6_path),
            ipv6_len: Some(self.ipv6_len),
            ipv6_comment: Some(self.ipv6_comment),
            server: Some(self.server),
            port: Some(self.port),
        }
    }
}

/// The options in force when `arguments` come from the command line and
/// `file` from the configuration file.
///
/// Every option is the first that is given of the command line's, the
/// file's and the default. The two addresses are the command line's, given
/// or not.
pub open spec fn merged(arguments: Layer, file: Layer, default_config_path: Seq<char>) -> Resolved {
    Resolved {
        config_path: first_of(arguments.config_path, file.config_path, default_config_path),
        ipv4_addr: arguments.ipv4_addr,
        ipv4_path: first_of(arguments.ipv4_path, file.ipv4_path, default_ipv4_path()),
        ipv4_len: first_of(arguments.ipv4_len, file.ipv4_len, DEFAULT_IPV4_LEN),
        ipv4_comment: first_of(arguments.ipv4_comment, file.ipv4_comment, DEFAULT_COMMENT),
        ipv6_addr: arguments.ipv6_addr,
        ipv6_path: first_of(arguments.ipv6_path, file.ipv6_path, default_ipv6_path()),
        ipv6_len: first_of(arguments.ipv6_len, file.ipv6_len, DEFAULT_IPV6_LEN),
        ipv6_comment: first_of(arguments.ipv6_comment, file.ipv6_comment, DEFAULT_COMMENT),
        server: first_of(arguments.server, file.server, false),
        port: first_of(arguments.port, file.port, DEFAULT_PORT),
    }
}

/// The address that is looked up is the one asked for on the command line,
/// and none is looked up when none is asked for there, whatever the file
/// holds.
pub proof fn lemma_addresses_as_asked(arguments: Layer, file: Layer, default_config_path: Seq<char>)
    ensures
        merged(arguments, file, default_config_path).ipv4_addr == arguments.ipv4_addr,
        merged(arguments, file, default_config_path).ipv6_addr == arguments.ipv6_addr,
{
}

/// Merging a configuration again changes nothing: handed back as the command
/// line's layer, it comes out as it went in, whatever the file and the
/// default path have become in the meantime.
pub proof fn lemma_merged_again(config: Resolved, file: Layer, default_config_path: Seq<char>)
    ensures
        merged(config.as_layer(), file, default_config_path) == config,
{
}

impl Settings {
    /// The layer in which nothing is given.
    pub open spec fn nothing() -> Settings {
        Settings {
            config_path: None,
            ipv4_addr: None,
            ipv4_path: None,
            ipv4_len: None,
            ipv4_comment: None,
            ipv6_addr: None,
            ipv6_path: None,
            ipv6_len: None,
            ipv6_comment: None,
            server: None,
            port: None,
        }
    }

    /// The layer in which nothing is given.
    pub fn empty() -> (s: Settings)
        ensures
            s == Settings::nothing(),
    {
        Settings {
            config_path: None,
            ipv4_addr: None,
            ipv4_path: None,
            ipv4_len: None,
            ipv4_comment: None,
            ipv6_addr: None,
            ipv6_path: None,
            ipv6_len: None,
            ipv6_comment: None,
            server: None,
            port: None,
        }
    }
}

/// The layer that a file contributes: its settings, or nothing when there is
/// no readable file.
pub open spec fn layer(from_file: Option<Settings>) -> Settings {
    match from_file {
        Some(s) => s,
        None => Settings::nothing(),
    }
}

/// The first of `a`, `b` that is given, and `c` when neither is.
pub fn pick<T>(a: Option<T>, b: Option<T>, c: T) -> (r: T)
    ensures
        r == first_of(a, b, c),
{
    match a {
        Some(x) => x,
        None => match b {
            Some(y) => y,
            None => c,
        },
    }
}

/// Merges the command line, the configuration file and the defaults into the
/// options in force.
///
/// For every option the value from `arguments` wins; where `arguments` gives
/// none, the value from `from_file` does; where neither gives one, the
/// default does. `default_config_path` is the default for the path of the
/// configuration file, which depends on the user's environment. The two
/// addresses are taken from `arguments` alone.
pub fn get_config(arguments: Settings, from_file: Option<Settings>, default_config_path: String) -> (config:
    Config)
    ensures
        config@ == merged(arguments@, layer(from_file)@, default_config_path@),
{
    let file = match from_file {
        Some(s) => s,
        None => Settings::empty(),
    };
    Config {
        config_path: pick(arguments.config_path, file.config_path, default_config_path),
        ipv4_addr: arguments.ipv4_addr,
        ipv4_path: pick(arguments.ipv4_path, file.ipv4_path, "/usr/share/tor/geoip".to_owned()),
        ipv4_len: pick(arguments.ipv4_len, file.ipv4_len, DEFAULT_IPV4_LEN),
        ipv4_comment: pick(arguments.ipv4_comment, file.ipv4_comment, DEFAULT_COMMENT),
        ipv6_addr: arguments.ipv6_addr,
        ipv6_path: pick(arguments.ipv6_path, file.ipv6_path, "/usr/share/tor/geoip6".to_owned()),
        ipv6_len: pick(arguments.ipv6_len, file.ipv6_len, DEFAULT_IPV6_LEN),
        ipv6_comment: pick(arguments.ipv6_comment, file.ipv6_comment, DEFAULT_COMMENT),
        server: pick(arguments.server, file.server, false),
        port: pick(arguments.port, file.port, DEFAULT_PORT),
    }
}

impl Config {
    /// The configuration as a layer that gives every option, to be merged
    /// again.
    pub fn to_settings(&self) -> (s: Settings)
        ensures
            s@ == self@.as_layer(),
    {
        Settings {
            config_path: Some(self.config_path.clone()),
            ipv4_addr: self.ipv4_addr,
            ipv4_path: Some(self.ipv4_path.clone()),
            ipv4_len: Some(self.ipv4_len),
            ipv4_comment: Some(self.ipv4_comment),
            ipv6_addr: self.ipv6_addr,
            ipv6_path: Some(self.ipv6_path.clone()),
            ipv6_len: Some(self.ipv6_len),
            ipv6_comment: Some(self.ipv6_comment),
            server: Some(self.server),
            port: Some(self.port),
        }
    }

    /// The options for a tolerant build of the database of `family`: its
    /// comment marker and its capacity hint, and `sample_limit` samples in
    /// the report.
    pub fn build_options(&self, family: Family, sample_limit: usize) -> (options: BuildOptions)
        ensures
            options == (BuildOptions {
                family,
                comment: match family {
                    Family::V4 => self.ipv4_comment,
                    Family::V6 => self.ipv6_comment,
                },
                strict: false,
                capacity_hint: match family {
                    Family::V4 => self.ipv4_len,
                    Family::V6 => self.ipv6_len,
                },
                sample_limit,
            }),
    {
        match family {
            Family::V4 => BuildOptions {
                family,
                comment: self.ipv4_comment,
                strict: false,
                capacity_hint: self.ipv4_len,
                sample_limit,
            },
            Family::V6 => BuildOptions {
                family,
                comment: self.ipv6_comment,
                strict: false,
                capacity_hint: self.ipv6_len,
                sample_limit,
            },
        }
    }
}

} // verus!
