//! The settings of the service, and what they decide about logging and
//! about the database connection.

use crate::error::RapidCronError;
use vstd::prelude::*;
use vstd::string::StringExecFns;

verus! {

#[derive(Clone, Debug)]
pub struct Config {
    pub server: ServerConfig,
    pub logging: LoggingConfig,
    pub database: DatabaseConfig,
    pub rabbitmq: RabbitMQConfig,
    pub etcd: EtcdConfig,
    pub metrics: MetricsConfig,
}

#[derive(Clone, Debug)]
pub struct ServerConfig {
    pub name: String,
    pub host: String,
    pub http_port: u16,
    pub grpc_port: u16,
}

#[derive(Clone, Debug)]
pub struct LoggingConfig {
    pub level: String,
    pub format: String,
    pub output: String,
    pub log_file: String,
}

#[derive(Clone, Debug)]
pub struct DatabaseConfig {
    pub uri: String,
    pub database_name: String,
    pub username: String,
    pub password: String,
}

#[derive(Clone, Debug)]
pub struct RabbitMQConfig {
    pub host: String,
    pub port: u16,
    pub username: String,
    pub password: String,
}

#[derive(Clone, Debug)]
pub struct EtcdConfig {
    pub host: String,
    pub port: u16,
}

#[derive(Clone, Debug)]
pub struct MetricsConfig {
    pub enabled: bool,
    pub port: u16,
}

/// Where log lines go.
#[derive(Clone, Copy, Debug, PartialEq, Eq, Structural)]
pub enum LogOutput {
    Stdout,
    File,
    Both,
}

/// How log lines are laid out.
#[derive(Clone, Copy, Debug, PartialEq, Eq, Structural)]
pub enum LogFormat {
    Json,
    Plain,
}

impl LogOutput {
    /// Whether a log directory is needed.
    pub fn writes_file(&self) -> (r: bool)
        ensures
            r == (*self == LogOutput::File || *self == LogOutput::Both),
    {
        match self {
            LogOutput::Stdout => false,
            LogOutput::File | LogOutput::Both => true,
        }
    }
}

impl DatabaseConfig {
    /// Whether the connection authenticates: only with both a user name
    /// and a password.
    pub fn uses_credentials(&self) -> (r: bool)
        ensures
            r == (self.username@.len() > 0 && self.password@.len() > 0),
    {
        !self.username.as_str().is_empty() && !self.password.as_str().is_empty()
    }
}

impl LoggingConfig {
    /// The output that the setting names, if it names one.
    pub open spec fn output_of(self) -> Option<LogOutput> {
        if self.output@ == "stdout"@ {
            Some(LogOutput::Stdout)
        } else if self.output@ == "file"@ {
            Some(LogOutput::File)
        } else if self.output@ == "both"@ {
            Some(LogOutput::Both)
        } else {
            None
        }
    }

    /// The format that the setting names, if it names one.
    pub open spec fn format_of(self) -> Option<LogFormat> {
        if self.format@ == "json"@ {
            Some(LogFormat::Json)
        } else if self.format@ == "plain"@ {
            Some(LogFormat::Plain)
        } else {
            None
        }
    }

    /// Reads the `output` setting: `stdout`, `file` or `both`. Anything
    /// else is a configuration error that quotes the setting.
    pub fn output_kind(&self) -> (res: Result<LogOutput, RapidCronError>)
        ensures
            match res {
                Ok(o) => self.output_of() == Some(o),
                Err(e) => self.output_of() is None && (e matches RapidCronError::Config(d) && d@
                    == "Unsupported log output: "@ + self.output@),
            },
    {
        if self.output == String::from_str("stdout") {
            Ok(LogOutput::Stdout)
        } else if self.output == String::from_str("file") {
            Ok(LogOutput::File)
        } else if self.output == String::from_str("both") {
            Ok(LogOutput::Both)
        } else {
            Err(
                RapidCronError::Config(
                    String::from_str("Unsupported log output: ").concat(self.output.as_str()),
                ),
            )
        }
    }

    /// Reads the `format` setting: `json` or `plain`. Anything else is a
    /// configuration error that quotes the setting.
    pub fn format_kind(&self) -> (res: Result<LogFormat, RapidCronError>)
        ensures
            match res {
                Ok(f) => self.format_of() == Some(f),
                Err(e) => self.format_of() is None && (e matches RapidCronError::Config(d) && d@
                    == "Unsupported log format: "@ + self.format@),
            },
    {
        if self.format == String::from_str("json") {
            Ok(LogFormat::Json)
        } else if self.format == String::from_str("plain") {
            Ok(LogFormat::Plain)
        } else {
            Err(
                RapidCronError::Config(
                    String::from_str("Unsupported log format: ").concat(self.format.as_str()),
                ),
            )
        }
    }

    /// The filter directive used when the environment sets none: this
    /// service's log target at the configured level.
    pub fn default_directive(&self) -> (text: String)
        ensures
            text@ == "rapidcron="@ + self.level@,
    {
        String::from_str("rapidcron=").concat(self.level.as_str())
    }
}

} // verus!
