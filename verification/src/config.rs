//! Run configuration: what to test, how hard, and how to present it.
//!
//! Reading and writing the persisted configuration file is I/O and lives
//! with the surrounding application; the library owns the configuration
//! values themselves, their defaults, and how command-line overrides merge
//! into them.

use vstd::prelude::*;
use vstd::string::*;

use crate::dns::{IpVersion, Protocol};
use crate::error::Error;
use crate::output::OutputFormat;
use crate::text::{chars_eq, lower_seq, str_chars, to_lower};
use crate::{DEFAULT_DOMAIN, DEFAULT_REQUESTS, DEFAULT_TIMEOUT_SECS, DEFAULT_WORKERS};

verus! {

broadcast use vstd::string::group_string_axioms;

/// Table output styles.
#[derive(Debug, Clone, Copy, PartialEq, Eq, Structural)]
pub enum TableStyle {
    Empty,
    Blank,
    Ascii,
    Psql,
    Markdown,
    Modern,
    Sharp,
    Rounded,
    ModernRounded,
    Extended,
    Dots,
    ReStructuredText,
    AsciiRounded,
}

impl Default for TableStyle {
    fn default() -> (r: Self)
        ensures
            r == TableStyle::Rounded,
    {
        TableStyle::Rounded
    }
}

/// The style named by an already-lowercased keyword, if any.
pub open spec fn style_keyword(l: Seq<char>) -> Option<TableStyle> {
    if l == "empty"@ {
        Some(TableStyle::Empty)
    } else if l == "blank"@ {
        Some(TableStyle::Blank)
    } else if l == "ascii"@ {
        Some(TableStyle::Ascii)
    } else if l == "psql"@ {
        Some(TableStyle::Psql)
    } else if l == "markdown"@ || l == "md"@ {
        Some(TableStyle::Markdown)
    } else if l == "modern"@ {
        Some(TableStyle::Modern)
    } else if l == "sharp"@ {
        Some(TableStyle::Sharp)
    } else if l == "rounded"@ {
        Some(TableStyle::Rounded)
    } else if l == "modern-rounded"@ || l == "modernrounded"@ {
        Some(TableStyle::ModernRounded)
    } else if l == "extended"@ {
        Some(TableStyle::Extended)
    } else if l == "dots"@ {
        Some(TableStyle::Dots)
    } else if l == "rst"@ || l == "restructuredtext"@ {
        Some(TableStyle::ReStructuredText)
    } else if l == "ascii-rounded"@ || l == "asciirounded"@ {
        Some(TableStyle::AsciiRounded)
    } else {
        None
    }
}

impl TableStyle {
    /// Parse a style name, case-insensitively.
    pub fn from_str(s: &str) -> (r: Result<TableStyle, Error>)
        ensures
            (match style_keyword(lower_seq(s@)) {
                Some(st) => r == Ok::<TableStyle, Error>(st),
                None => r is Err,
            }),
            r is Ok <==> style_keyword(lower_seq(s@)) is Some,
            r is Err ==> (r matches Err(Error::InvalidArgument(m)) && m@
                == "Invalid table style: "@ + s@),
    {
        proof {
            reveal_strlit("empty");
            reveal_strlit("blank");
            reveal_strlit("ascii");
            reveal_strlit("psql");
            reveal_strlit("markdown");
            reveal_strlit("md");
            reveal_strlit("modern");
            reveal_strlit("sharp");
            reveal_strlit("rounded");
            reveal_strlit("modern-rounded");
            reveal_strlit("modernrounded");
            reveal_strlit("extended");
            reveal_strlit("dots");
            reveal_strlit("rst");
            reveal_strlit("restructuredtext");
            reveal_strlit("ascii-rounded");
            reveal_strlit("asciirounded");
            assert("empty"@.len() == 5 && "empty"@[0] == 'e');
            assert("blank"@.len() == 5 && "blank"@[0] == 'b');
            assert("ascii"@.len() == 5 && "ascii"@[0] == 'a');
            assert("psql"@.len() == 4 && "psql"@[0] == 'p');
            assert("markdown"@.len() == 8 && "markdown"@[0] == 'm');
            assert("md"@.len() == 2);
            assert("modern"@.len() == 6);
            assert("sharp"@.len() == 5 && "sharp"@[0] == 's');
            assert("rounded"@.len() == 7);
            assert("modern-rounded"@.len() == 14);
            assert("modernrounded"@.len() == 13 && "modernrounded"@[0] == 'm');
            assert("extended"@.len() == 8 && "extended"@[0] == 'e');
            assert("dots"@.len() == 4 && "dots"@[0] == 'd');
            assert("rst"@.len() == 3);
            assert("restructuredtext"@.len() == 16);
            assert("ascii-rounded"@.len() == 13 && "ascii-rounded"@[0] == 'a');
            assert("asciirounded"@.len() == 12);
        }
        let lc = to_lower(&str_chars(s));
        if chars_eq(&lc, &str_chars("empty")) {
            Ok(TableStyle::Empty)
        } else if chars_eq(&lc, &str_chars("blank")) {
            Ok(TableStyle::Blank)
        } else if chars_eq(&lc, &str_chars("ascii")) {
            Ok(TableStyle::Ascii)
        } else if chars_eq(&lc, &str_chars("psql")) {
            Ok(TableStyle::Psql)
        } else if chars_eq(&lc, &str_chars("markdown")) || chars_eq(&lc, &str_chars("md")) {
            Ok(TableStyle::Markdown)
        } else if chars_eq(&lc, &str_chars("modern")) {
            Ok(TableStyle::Modern)
        } else if chars_eq(&lc, &str_chars("sharp")) {
            Ok(TableStyle::Sharp)
        } else if chars_eq(&lc, &str_chars("rounded")) {
            Ok(TableStyle::Rounded)
        } else if chars_eq(&lc, &str_chars("modern-rounded")) || chars_eq(
            &lc,
            &str_chars("modernrounded"),
        ) {
            Ok(TableStyle::ModernRounded)
        } else if chars_eq(&lc, &str_chars("extended")) {
            Ok(TableStyle::Extended)
        } else if chars_eq(&lc, &str_chars("dots")) {
            Ok(TableStyle::Dots)
        } else if chars_eq(&lc, &str_chars("rst")) || chars_eq(
            &lc,
            &str_chars("restructuredtext"),
        ) {
            Ok(TableStyle::ReStructuredText)
        } else if chars_eq(&lc, &str_chars("ascii-rounded")) || chars_eq(
            &lc,
            &str_chars("asciirounded"),
        ) {
            Ok(TableStyle::AsciiRounded)
        } else {
            Err(Error::InvalidArgument(String::from_str("Invalid table style: ").concat(s)))
        }
    }
}

/// Application configuration.
#[derive(Debug, Clone)]
pub struct Config {
    /// Domain to test resolution.
    pub domain: String,
    /// Number of concurrent workers.
    pub workers: u16,
    /// Number of requests per server.
    pub requests: u16,
    /// Timeout in seconds.
    pub timeout: u64,
    /// DNS protocol (UDP or TCP).
    pub protocol: Protocol,
    /// IP version for name servers.
    pub name_server_ip: IpVersion,
    /// IP version for lookups.
    pub lookup_ip: IpVersion,
    /// Output format.
    pub format: OutputFormat,
    /// Table style (for human-readable output).
    pub style: TableStyle,
    /// Path to a custom servers file.
    pub custom_servers: Option<String>,
    /// Skip system DNS detection.
    pub skip_system: bool,
    /// Skip gateway detection.
    pub skip_gateway: bool,
    /// Disable adaptive timeout.
    pub disable_adaptive_timeout: bool,
}

impl Default for Config {
    fn default() -> (r: Self)
        ensures
            r.domain@ == DEFAULT_DOMAIN@,
            r.workers == DEFAULT_WORKERS,
            r.requests == DEFAULT_REQUESTS,
            r.timeout == DEFAULT_TIMEOUT_SECS,
            r.protocol == Protocol::Udp,
            r.name_server_ip == IpVersion::V4,
            r.lookup_ip == IpVersion::V4,
            r.format == OutputFormat::Table,
            r.style == TableStyle::Rounded,
            r.custom_servers is None,
            !r.skip_system,
            !r.skip_gateway,
            !r.disable_adaptive_timeout,
    {
        Config {
            domain: String::from_str(DEFAULT_DOMAIN),
            workers: DEFAULT_WORKERS,
            requests: DEFAULT_REQUESTS,
            timeout: DEFAULT_TIMEOUT_SECS,
            protocol: Protocol::Udp,
            name_server_ip: IpVersion::V4,
            lookup_ip: IpVersion::V4,
            format: OutputFormat::Table,
            style: TableStyle::Rounded,
            custom_servers: None,
            skip_system: false,
            skip_gateway: false,
            disable_adaptive_timeout: false,
        }
    }
}

impl Config {
    /// Start building a configuration from the defaults.
    pub fn builder() -> (r: ConfigBuilder)
        ensures
            r.config.domain@ == DEFAULT_DOMAIN@,
            r.config.workers == DEFAULT_WORKERS,
            r.config.requests == DEFAULT_REQUESTS,
            r.config.timeout == DEFAULT_TIMEOUT_SECS,
            r.config.protocol == Protocol::Udp,
            r.config.name_server_ip == IpVersion::V4,
            r.config.lookup_ip == IpVersion::V4,
            r.config.format == OutputFormat::Table,
            r.config.style == TableStyle::Rounded,
            r.config.custom_servers is None,
            !r.config.skip_system,
            !r.config.skip_gateway,
            !r.config.disable_adaptive_timeout,
    {
        ConfigBuilder { config: Config::default() }
    }

    /// Merge command-line overrides into this configuration; a set override
    /// wins over the current value, and the boolean switches only ever turn
    /// on.
    #[verifier::rlimit(100)]
    pub fn merge(&mut self, other: &ConfigOverrides)
        ensures
            final(self).domain == (match other.domain {
                Some(d) => d,
                None => old(self).domain,
            }),
            final(self).workers == (match other.workers {
                Some(w) => w,
                None => old(self).workers,
            }),
            final(self).requests == (match other.requests {
                Some(q) => q,
                None => old(self).requests,
            }),
            final(self).timeout == (match other.timeout {
                Some(t) => t,
                None => old(self).timeout,
            }),
            final(self).protocol == (match other.protocol {
                Some(p) => p,
                None => old(self).protocol,
            }),
            final(self).name_server_ip == (match other.name_server_ip {
                Some(v) => v,
                None => old(self).name_server_ip,
            }),
            final(self).lookup_ip == (match other.lookup_ip {
                Some(v) => v,
                None => old(self).lookup_ip,
            }),
            final(self).format == (match other.format {
                Some(f) => f,
                None => old(self).format,
            }),
            final(self).style == (match other.style {
                Some(st) => st,
                None => old(self).style,
            }),
            final(self).custom_servers == (match other.custom_servers {
                Some(p) => Some(p),
                None => old(self).custom_servers,
            }),
            final(self).skip_system == (old(self).skip_system || other.skip_system),
            final(self).skip_gateway == (old(self).skip_gateway || other.skip_gateway),
            final(self).disable_adaptive_timeout == (old(self).disable_adaptive_timeout
                || other.disable_adaptive_timeout),
    {
        let domain: String = match &other.domain {
            Some(d) => d.clone(),
            None => self.domain.clone(),
        };
        let custom_servers: Option<String> = match &other.custom_servers {
            Some(p) => Some(p.clone()),
            None => match &self.custom_servers {
                Some(q) => Some(q.clone()),
                None => None,
            },
        };
        let workers: u16 = match other.workers {
            Some(w) => w,
            None => self.workers,
        };
        let requests: u16 = match other.requests {
            Some(q) => q,
            None => self.requests,
        };
        let timeout: u64 = match other.timeout {
            Some(t) => t,
            None => self.timeout,
        };
        let protocol: Protocol = match other.protocol {
            Some(p) => p,
            None => self.protocol,
        };
        let name_server_ip: IpVersion = match other.name_server_ip {
            Some(v) => v,
            None => self.name_server_ip,
        };
        let lookup_ip: IpVersion = match other.lookup_ip {
            Some(v) => v,
            None => self.lookup_ip,
        };
        let format: OutputFormat = match other.format {
            Some(f) => f,
            None => self.format,
        };
        let style: TableStyle = match other.style {
            Some(st) => st,
            None => self.style,
        };
        let skip_system = self.skip_system || other.skip_system;
        let skip_gateway = self.skip_gateway || other.skip_gateway;
        let disable_adaptive_timeout = self.disable_adaptive_timeout
            || other.disable_adaptive_timeout;
        *self = Config {
            domain,
            workers,
            requests,
            timeout,
            protocol,
            name_server_ip,
            lookup_ip,
            format,
            style,
            custom_servers,
            skip_system,
            skip_gateway,
            disable_adaptive_timeout,
        };
    }

    /// The per-request timeout in milliseconds.
    pub fn timeout_ms(&self) -> (r: u64)
        requires
            self.timeout * 1000 <= u64::MAX,
        ensures
            r == self.timeout * 1000,
    {
        self.timeout * 1000
    }
}

/// Configuration overrides (all optional).
#[derive(Debug, Clone, Default)]
pub struct ConfigOverrides {
    pub domain: Option<String>,
    pub workers: Option<u16>,
    pub requests: Option<u16>,
    pub timeout: Option<u64>,
    pub protocol: Option<Protocol>,
    pub name_server_ip: Option<IpVersion>,
    pub lookup_ip: Option<IpVersion>,
    pub format: Option<OutputFormat>,
    pub style: Option<TableStyle>,
    pub custom_servers: Option<String>,
    pub skip_system: bool,
    pub skip_gateway: bool,
    pub disable_adaptive_timeout: bool,
}

/// Builder for creating a `Config`.
#[derive(Debug)]
pub struct ConfigBuilder {
    pub config: Config,
}

impl ConfigBuilder {
    pub fn domain(self, domain: String) -> (r: Self)
        ensures
            r.config == (Config { domain, ..self.config }),
    {
        ConfigBuilder { config: Config { domain, ..self.config } }
    }

    pub fn workers(self, workers: u16) -> (r: Self)
        ensures
            r.config == (Config { workers, ..self.config }),
    {
        ConfigBuilder { config: Config { workers, ..self.config } }
    }

    pub fn requests(self, requests: u16) -> (r: Self)
        ensures
            r.config == (Config { requests, ..self.config }),
    {
        ConfigBuilder { config: Config { requests, ..self.config } }
    }

    pub fn timeout(self, timeout: u64) -> (r: Self)
        ensures
            r.config == (Config { timeout, ..self.config }),
    {
        ConfigBuilder { config: Config { timeout, ..self.config } }
    }

    pub fn protocol(self, protocol: Protocol) -> (r: Self)
        ensures
            r.config == (Config { protocol, ..self.config }),
    {
        ConfigBuilder { config: Config { protocol, ..self.config } }
    }

    pub fn name_server_ip(self, name_server_ip: IpVersion) -> (r: Self)
        ensures
            r.config == (Config { name_server_ip, ..self.config }),
    {
        ConfigBuilder { config: Config { name_server_ip, ..self.config } }
    }

    pub fn lookup_ip(self, lookup_ip: IpVersion) -> (r: Self)
        ensures
            r.config == (Config { lookup_ip, ..self.config }),
    {
        ConfigBuilder { config: Config { lookup_ip, ..self.config } }
    }

    pub fn format(self, format: OutputFormat) -> (r: Self)
        ensures
            r.config == (Config { format, ..self.config }),
    {
        ConfigBuilder { config: Config { format, ..self.config } }
    }

    pub fn style(self, style: TableStyle) -> (r: Self)
        ensures
            r.config == (Config { style, ..self.config }),
    {
        ConfigBuilder { config: Config { style, ..self.config } }
    }

    pub fn custom_servers(self, path: String) -> (r: Self)
        ensures
            r.config == (Config { custom_servers: Some(path), ..self.config }),
    {
        ConfigBuilder { config: Config { custom_servers: Some(path), ..self.config } }
    }

    pub fn skip_system(self, skip: bool) -> (r: Self)
        ensures
            r.config == (Config { skip_system: skip, ..self.config }),
    {
        ConfigBuilder { config: Config { skip_system: skip, ..self.config } }
    }

    pub fn skip_gateway(self, skip: bool) -> (r: Self)
        ensures
            r.config == (Config { skip_gateway: skip, ..self.config }),
    {
        ConfigBuilder { config: Config { skip_gateway: skip, ..self.config } }
    }

    pub fn disable_adaptive_timeout(self, disable: bool) -> (r: Self)
        ensures
            r.config == (Config { disable_adaptive_timeout: disable, ..self.config }),
    {
        ConfigBuilder { config: Config { disable_adaptive_timeout: disable, ..self.config } }
    }

    pub fn build(self) -> (r: Config)
        ensures
            r == self.config,
    {
        self.config
    }
}

} // verus!
