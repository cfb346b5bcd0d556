use crate::ip::{digits_value, is_dec_digit};
use crate::text::{chars_equal, chars_of, lower_of, lowercase};
use vstd::prelude::*;
use vstd::string::StringExecFns;

verus! {

/// How much the process logs.
#[derive(Clone, Copy, Debug, PartialEq, Eq)]
pub enum LevelFilter {
    Off,
    Error,
    Warn,
    Info,
    Debug,
    Trace,
}

/// The upstream server, GeoIP credentials, path policies and cache settings.
#[derive(Clone, Debug)]
pub struct Server {
    pub uri: String,
    pub maxmind_id: String,
    pub maxmind_password: String,
    pub maxmind_path_inclusions: String,
    pub ip_path_inclusions: String,
    pub path_exclusions: Option<String>,
    pub cache_capacity: usize,
    pub cache_duration_secs: u64,
    pub forwarded_ip_header: Option<String>,
    pub use_forwarded_ip_header_only: bool,
}

/// Where the proxy listens.
#[derive(Clone, Debug)]
pub struct Listener {
    pub port: u16,
}

#[derive(Clone, Debug)]
pub struct Settings {
    pub loglevel: String,
    pub server: Server,
    pub listener: Listener,
}

pub const DEFAULT_PORT: u16 = 7479;

pub const DEFAULT_CACHE_CAPACITY: usize = 20480;

pub const DEFAULT_CACHE_DURATION_SECS: u64 = 1440;

impl Default for Listener {
    fn default() -> (r: Listener)
        ensures
            r.port == DEFAULT_PORT,
    {
        Listener { port: DEFAULT_PORT }
    }
}

impl Default for Settings {
    fn default() -> (r: Settings)
        ensures
            r.loglevel@ == "info"@,
            r.server.uri@.len() == 0,
            r.server.maxmind_id@.len() == 0,
            r.server.maxmind_password@.len() == 0,
            r.server.maxmind_path_inclusions@.len() == 0,
            r.server.ip_path_inclusions@.len() == 0,
            r.server.path_exclusions is None,
            r.server.cache_capacity == DEFAULT_CACHE_CAPACITY,
            r.server.cache_duration_secs == DEFAULT_CACHE_DURATION_SECS,
            r.server.forwarded_ip_header is None,
            !r.server.use_forwarded_ip_header_only,
            r.listener.port == DEFAULT_PORT,
    {
        Settings {
            loglevel: String::from_str("info"),
            server: Server {
                uri: String::new(),
                maxmind_id: String::new(),
                maxmind_password: String::new(),
                maxmind_path_inclusions: String::new(),
                ip_path_inclusions: String::new(),
                path_exclusions: None,
                cache_capacity: DEFAULT_CACHE_CAPACITY,
                cache_duration_secs: DEFAULT_CACHE_DURATION_SECS,
                forwarded_ip_header: None,
                use_forwarded_ip_header_only: false,
            },
            listener: Listener::default(),
        }
    }
}

/// The level named by a lower-case word; unknown words switch logging off.
pub open spec fn level_named(s: Seq<char>) -> LevelFilter {
    if s == "error"@ {
        LevelFilter::Error
    } else if s == "warn"@ {
        LevelFilter::Warn
    } else if s == "info"@ {
        LevelFilter::Info
    } else if s == "debug"@ {
        LevelFilter::Debug
    } else if s == "trace"@ {
        LevelFilter::Trace
    } else {
        LevelFilter::Off
    }
}

/// The level named by a lower-case word.
pub fn level_from_name(lowered: &Vec<char>) -> (r: LevelFilter)
    ensures
        r == level_named(lowered@),
{
    if chars_equal(lowered, &chars_of("error")) {
        LevelFilter::Error
    } else if chars_equal(lowered, &chars_of("warn")) {
        LevelFilter::Warn
    } else if chars_equal(lowered, &chars_of("info")) {
        LevelFilter::Info
    } else if chars_equal(lowered, &chars_of("debug")) {
        LevelFilter::Debug
    } else if chars_equal(lowered, &chars_of("trace")) {
        LevelFilter::Trace
    } else {
        LevelFilter::Off
    }
}

impl Settings {
    /// The configured log level, its name read without regard to case.
    pub fn level_filter(&self) -> (r: LevelFilter)
        ensures
            r == level_named(lower_of(self.loglevel@)),
    {
        let name = chars_of(self.loglevel.as_str());
        level_from_name(&lowercase(&name))
    }
}

/// The number that a port argument names: optionally `+`, then decimal
/// digits, the value fitting in 16 bits.
pub open spec fn port_value(s: Seq<char>) -> Option<u16> {
    let d = port_digits(s);
    if d.len() > 0 && (forall|i: int| 0 <= i < d.len() ==> is_dec_digit(#[trigger] d[i]))
        && digits_value(d, 10) <= 65535 {
        Some(digits_value(d, 10) as u16)
    } else {
        None
    }
}

/// The digits of a port argument: without a leading `+`.
pub open spec fn port_digits(s: Seq<char>) -> Seq<char> {
    if s.len() > 0 && s[0] == '+' {
        s.drop_first()
    } else {
        s
    }
}

proof fn lemma_digits_nonneg(d: Seq<char>)
    requires
        forall|i: int| 0 <= i < d.len() ==> is_dec_digit(#[trigger] d[i]),
    ensures
        digits_value(d, 10) >= 0,
    decreases d.len(),
{
    if d.len() > 0 {
        lemma_digits_nonneg(d.drop_last());
    }
}

/// Reads a port number: an optional `+`, then decimal digits whose value
/// fits in 16 bits, as `str::parse::<u16>` reads it.
pub fn parse_port(s: &str) -> (r: Option<u16>)
    ensures
        r == port_value(s@),
{
    let t = chars_of(s);
    let start: usize = if t.len() > 0 && t[0] == '+' {
        1
    } else {
        0
    };
    let ghost d = port_digits(s@);
    assert(d =~= t@.subrange(start as int, t@.len() as int));
    if start >= t.len() {
        return None;
    }
    let mut v: u32 = 0;
    let mut i: usize = start;
    while i < t.len()
        invariant
            start <= i <= t@.len(),
            d == port_digits(s@),
            d =~= t@.subrange(start as int, t@.len() as int),
            forall|j: int| 0 <= j < i - start ==> is_dec_digit(#[trigger] d[j]),
            v == if digits_value(d.take(i - start), 10) >= 65536 {
                65536
            } else {
                digits_value(d.take(i - start), 10)
            },
        decreases t.len() - i,
    {
        let c = t[i];
        if c < '0' || c > '9' {
            assert(d[i - start] == c);
            assert(!is_dec_digit(d[i - start]));
            assert(!(forall|j: int| 0 <= j < d.len() ==> is_dec_digit(#[trigger] d[j])));
            return None;
        }
        proof {
            assert(d.take(i - start + 1).drop_last() =~= d.take(i - start));
            assert forall|j: int| 0 <= j < i - start ==> is_dec_digit(#[trigger] d.take(i - start)[j]) by {}
            lemma_digits_nonneg(d.take(i - start));
        }
        let digit = (c as u32) - ('0' as u32);
        v = if v >= 65536 {
            65536
        } else if v * 10 + digit >= 65536 {
            65536
        } else {
            v * 10 + digit
        };
        i = i + 1;
    }
    assert(d.take(d.len() as int) =~= d);
    if v > 65535 {
        None
    } else {
        Some(v as u16)
    }
}

/// Values given on the command line; each replaces the configured one.
pub struct CommandLine {
    pub maxmind_id: Option<String>,
    pub maxmind_password: Option<String>,
    pub log_level: Option<String>,
    pub port: Option<String>,
    pub server_uri: Option<String>,
}

/// The port given on the command line is not a 16-bit number.
#[derive(Debug, Clone, PartialEq, Eq)]
pub struct PortError(pub String);

pub open spec fn overridden(configured: String, given: Option<String>) -> String {
    match given {
        Some(v) => v,
        None => configured,
    }
}

/// How a configuration is saved.
#[derive(Clone, Copy, Debug, PartialEq, Eq)]
pub enum ConfigFormat {
    Toml,
    Yaml,
    Json,
}

pub open spec fn format_named(s: Seq<char>) -> Option<ConfigFormat> {
    if s == "TOML"@ {
        Some(ConfigFormat::Toml)
    } else if s == "YAML"@ {
        Some(ConfigFormat::Yaml)
    } else if s == "JSON"@ {
        Some(ConfigFormat::Json)
    } else {
        None
    }
}

impl ConfigFormat {
    /// The format named by `TOML`, `YAML` or `JSON`.
    pub fn from_name(name: &str) -> (r: Option<ConfigFormat>)
        ensures
            r == format_named(name@),
    {
        let n = chars_of(name);
        if chars_equal(&n, &chars_of("TOML")) {
            Some(ConfigFormat::Toml)
        } else if chars_equal(&n, &chars_of("YAML")) {
            Some(ConfigFormat::Yaml)
        } else if chars_equal(&n, &chars_of("JSON")) {
            Some(ConfigFormat::Json)
        } else {
            None
        }
    }

    /// The file extension of a saved configuration.
    pub fn extension(self) -> (r: &'static str)
        ensures
            r@ == match self {
                ConfigFormat::Toml => "toml"@,
                ConfigFormat::Yaml => "yaml"@,
                ConfigFormat::Json => "json"@,
            },
    {
        match self {
            ConfigFormat::Toml => "toml",
            ConfigFormat::Yaml => "yaml",
            ConfigFormat::Json => "json",
        }
    }
}

impl Settings {
    /// Applies the command-line values. A port that is not a 16-bit number
    /// is an error, and then nothing changes.
    pub fn apply_command_line(&mut self, cl: CommandLine) -> (r: Result<(), PortError>)
        ensures
            match cl.port {
                Some(p) => r is Err <==> port_value(p@) is None,
                None => r is Ok,
            },
            r is Err ==> *final(self) == *old(self),
            r is Ok ==> {
                &&& final(self).server.maxmind_id == overridden(old(self).server.maxmind_id, cl.maxmind_id)
                &&& final(self).server.maxmind_password == overridden(
                    old(self).server.maxmind_password,
                    cl.maxmind_password,
                )
                &&& final(self).loglevel == overridden(old(self).loglevel, cl.log_level)
                &&& final(self).server.uri == overridden(old(self).server.uri, cl.server_uri)
                &&& final(self).listener.port == match cl.port {
                    Some(p) => port_value(p@)->0,
                    None => old(self).listener.port,
                }
                &&& final(self).server.maxmind_path_inclusions == old(self).server.maxmind_path_inclusions
                &&& final(self).server.ip_path_inclusions == old(self).server.ip_path_inclusions
                &&& final(self).server.path_exclusions == old(self).server.path_exclusions
                &&& final(self).server.cache_capacity == old(self).server.cache_capacity
                &&& final(self).server.cache_duration_secs == old(self).server.cache_duration_secs
                &&& final(self).server.forwarded_ip_header == old(self).server.forwarded_ip_header
                &&& final(self).server.use_forwarded_ip_header_only == old(
                    self,
                ).server.use_forwarded_ip_header_only
            },
    {
        let port = match &cl.port {
            Some(p) => match parse_port(p.as_str()) {
                Some(v) => v,
                None => {
                    return Err(PortError(p.clone()));
                },
            },
            None => self.listener.port,
        };
        self.listener.port = port;
        match cl.maxmind_id {
            Some(v) => self.server.maxmind_id = v,
            None => {},
        }
        match cl.maxmind_password {
            Some(v) => self.server.maxmind_password = v,
            None => {},
        }
        match cl.log_level {
            Some(v) => self.loglevel = v,
            None => {},
        }
        match cl.server_uri {
            Some(v) => self.server.uri = v,
            None => {},
        }
        Ok(())
    }
}

} // verus!
