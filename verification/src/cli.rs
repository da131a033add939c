//! Command-line option values.
//!
//! Argument parsing itself is the surrounding application's business; the
//! library owns the parsed values and how they become configuration
//! overrides.

use vstd::prelude::*;

use crate::config::{ConfigOverrides, TableStyle};
use crate::dns::{IpVersion, Protocol};
use crate::output::OutputFormat;

verus! {

/// Top-level command line: benchmark options plus an optional subcommand.
#[derive(Debug)]
pub struct Cli {
    pub options: BenchOptions,
    pub command: Option<Command>,
}

/// Benchmark options.
#[derive(Debug)]
pub struct BenchOptions {
    /// Domain to test DNS resolution.
    pub domain: Option<String>,
    /// Number of concurrent workers.
    pub workers: Option<u16>,
    /// Number of requests per DNS server.
    pub requests: Option<u16>,
    /// Timeout in seconds for each request.
    pub timeout: Option<u64>,
    /// DNS protocol to use.
    pub protocol: Option<CliProtocol>,
    /// IP version for name servers.
    pub name_server_ip: Option<CliIpVersion>,
    /// IP version for lookups.
    pub lookup_ip: Option<CliIpVersion>,
    /// Output format.
    pub format: Option<CliFormat>,
    /// Table style (for table output).
    pub style: Option<CliStyle>,
    /// Path to a custom DNS server list file.
    pub custom_servers: Option<String>,
    /// Skip system DNS detection.
    pub skip_system: bool,
    /// Skip gateway DNS detection.
    pub skip_gateway: bool,
    /// Disable adaptive timeout optimization.
    pub no_adaptive_timeout: bool,
    /// Save current options to the config file.
    pub save_config: bool,
}

/// Subcommands.
#[derive(Debug)]
pub enum Command {
    /// Configuration management.
    Config(ConfigCommand),
}

/// Config subcommands.
#[derive(Debug)]
pub enum ConfigCommand {
    /// Initialize the config file with default values.
    Init,
    /// Display the current configuration.
    Show,
    /// Update configuration values.
    SetValues(ConfigSetArgs),
    /// Reset the configuration to defaults.
    Reset,
    /// Delete the configuration file.
    Delete,
    /// Show the config file path.
    Path,
}

/// Arguments of the config set command.
#[derive(Debug)]
pub struct ConfigSetArgs {
    pub options: BenchOptions,
}

/// Protocol choice as given on the command line.
#[derive(Debug, Clone, Copy, PartialEq, Eq, Structural)]
pub enum CliProtocol {
    Udp,
    Tcp,
}

impl CliProtocol {
    /// The protocol this choice names.
    pub open spec fn spec_protocol(self) -> Protocol {
        match self {
            CliProtocol::Udp => Protocol::Udp,
            CliProtocol::Tcp => Protocol::Tcp,
        }
    }

    /// Convert to the library's protocol type.
    pub fn to_protocol(&self) -> (r: Protocol)
        ensures
            r == self.spec_protocol(),
    {
        match self {
            CliProtocol::Udp => Protocol::Udp,
            CliProtocol::Tcp => Protocol::Tcp,
        }
    }
}

/// IP version choice as given on the command line.
#[derive(Debug, Clone, Copy, PartialEq, Eq, Structural)]
pub enum CliIpVersion {
    V4,
    V6,
}

impl CliIpVersion {
    /// The IP version this choice names.
    pub open spec fn spec_ip_version(self) -> IpVersion {
        match self {
            CliIpVersion::V4 => IpVersion::V4,
            CliIpVersion::V6 => IpVersion::V6,
        }
    }

    /// Convert to the library's IP version type.
    pub fn to_ip_version(&self) -> (r: IpVersion)
        ensures
            r == self.spec_ip_version(),
    {
        match self {
            CliIpVersion::V4 => IpVersion::V4,
            CliIpVersion::V6 => IpVersion::V6,
        }
    }
}

/// Output format choice as given on the command line.
#[derive(Debug, Clone, Copy, PartialEq, Eq, Structural)]
pub enum CliFormat {
    Table,
    Json,
    Xml,
    Csv,
}

impl CliFormat {
    /// The output format this choice names.
    pub open spec fn spec_format(self) -> OutputFormat {
        match self {
            CliFormat::Table => OutputFormat::Table,
            CliFormat::Json => OutputFormat::Json,
            CliFormat::Xml => OutputFormat::Xml,
            CliFormat::Csv => OutputFormat::Csv,
        }
    }

    /// Convert to the library's output format type.
    pub fn to_format(&self) -> (r: OutputFormat)
        ensures
            r == self.spec_format(),
    {
        match self {
            CliFormat::Table => OutputFormat::Table,
            CliFormat::Json => OutputFormat::Json,
            CliFormat::Xml => OutputFormat::Xml,
            CliFormat::Csv => OutputFormat::Csv,
        }
    }
}

/// Table style choice as given on the command line.
#[derive(Debug, Clone, Copy, PartialEq, Eq, Structural)]
pub enum CliStyle {
    Empty,
    Blank,
    Ascii,
    Psql,
    Markdown,
    Modern,
    Sharp,
    Rounded,
    ModernRounded,
    Extended,
    Dots,
    Rst,
    AsciiRounded,
}

impl CliStyle {
    /// The table style this choice names.
    pub open spec fn spec_style(self) -> TableStyle {
        match self {
            CliStyle::Empty => TableStyle::Empty,
            CliStyle::Blank => TableStyle::Blank,
            CliStyle::Ascii => TableStyle::Ascii,
            CliStyle::Psql => TableStyle::Psql,
            CliStyle::Markdown => TableStyle::Markdown,
            CliStyle::Modern => TableStyle::Modern,
            CliStyle::Sharp => TableStyle::Sharp,
            CliStyle::Rounded => TableStyle::Rounded,
            CliStyle::ModernRounded => TableStyle::ModernRounded,
            CliStyle::Extended => TableStyle::Extended,
            CliStyle::Dots => TableStyle::Dots,
            CliStyle::Rst => TableStyle::ReStructuredText,
            CliStyle::AsciiRounded => TableStyle::AsciiRounded,
        }
    }

    /// Convert to the library's table style type.
    pub fn to_style(&self) -> (r: TableStyle)
        ensures
            r == self.spec_style(),
    {
        match self {
            CliStyle::Empty => TableStyle::Empty,
            CliStyle::Blank => TableStyle::Blank,
            CliStyle::Ascii => TableStyle::Ascii,
            CliStyle::Psql => TableStyle::Psql,
            CliStyle::Markdown => TableStyle::Markdown,
            CliStyle::Modern => TableStyle::Modern,
            CliStyle::Sharp => TableStyle::Sharp,
            CliStyle::Rounded => TableStyle::Rounded,
            CliStyle::ModernRounded => TableStyle::ModernRounded,
            CliStyle::Extended => TableStyle::Extended,
            CliStyle::Dots => TableStyle::Dots,
            CliStyle::Rst => TableStyle::ReStructuredText,
            CliStyle::AsciiRounded => TableStyle::AsciiRounded,
        }
    }
}

impl BenchOptions {
    /// Turn these options into configuration overrides.
    #[verifier::rlimit(50)]
    pub fn to_overrides(&self) -> (r: ConfigOverrides)
        ensures
            r.domain == self.domain,
            r.workers == self.workers,
            r.requests == self.requests,
            r.timeout == self.timeout,
            r.protocol == (match self.protocol {
                Some(p) => Some(p.spec_protocol()),
                None => None::<Protocol>,
            }),
            r.name_server_ip == (match self.name_server_ip {
                Some(v) => Some(v.spec_ip_version()),
                None => None::<IpVersion>,
            }),
            r.lookup_ip == (match self.lookup_ip {
                Some(v) => Some(v.spec_ip_version()),
                None => None::<IpVersion>,
            }),
            r.format == (match self.format {
                Some(f) => Some(f.spec_format()),
                None => None::<OutputFormat>,
            }),
            r.style == (match self.style {
                Some(st) => Some(st.spec_style()),
                None => None::<TableStyle>,
            }),
            r.custom_servers == self.custom_servers,
            r.skip_system == self.skip_system,
            r.skip_gateway == self.skip_gateway,
            r.disable_adaptive_timeout == self.no_adaptive_timeout,
    {
        ConfigOverrides {
            domain: match &self.domain {
                Some(d) => Some(d.clone()),
                None => None,
            },
            workers: self.workers,
            requests: self.requests,
            timeout: self.timeout,
            protocol: match self.protocol {
                Some(p) => Some(p.to_protocol()),
                None => None,
            },
            name_server_ip: match self.name_server_ip {
                Some(v) => Some(v.to_ip_version()),
                None => None,
            },
            lookup_ip: match self.lookup_ip {
                Some(v) => Some(v.to_ip_version()),
                None => None,
            },
            format: match self.format {
                Some(f) => Some(f.to_format()),
                None => None,
            },
            style: match self.style {
                Some(st) => Some(st.to_style()),
                None => None,
            },
            custom_servers: match &self.custom_servers {
                Some(p) => Some(p.clone()),
                None => None,
            },
            skip_system: self.skip_system,
            skip_gateway: self.skip_gateway,
            disable_adaptive_timeout: self.no_adaptive_timeout,
        }
    }
}

} // verus!
