//! The command line of the server, as plain values, and what follows from
//! it for the configuration.

use crate::acl::GlobalPolicy;
use vstd::prelude::*;
use vstd::string::*;

verus! {

/// The file that the configuration is read from where none is named.
pub const CONFIG_FILE: &'static str = "rustic_server.toml";

/// The `start` subcommand: it launches the server and has no options of
/// its own.
#[derive(Clone, Copy, Debug, PartialEq, Eq, Structural)]
pub struct StartCmd {}

/// The subcommands of the server.
#[derive(Clone, Copy, Debug, PartialEq, Eq, Structural)]
pub enum RusticServerCmd {
    /// The `start` subcommand.
    Start(StartCmd),
}

/// How much is logged.
#[derive(Clone, Copy, Debug, PartialEq, Eq, Structural)]
pub enum LogLevel {
    Off,
    Error,
    Warn,
    Info,
    Debug,
    Trace,
}

/// The options of the command line.
#[derive(Debug)]
pub struct EntryPoint {
    pub cmd: RusticServerCmd,
    /// Enable verbose logging.
    pub verbose: bool,
    /// Use the specified config file.
    pub config: Option<String>,
    /// The address to listen on.
    pub listen: String,
    /// The data directory.
    pub path: String,
    /// Disable authentication.
    pub no_auth: bool,
    /// The file to read the access rules from.
    pub acl: Option<String>,
    /// Cap every grant on objects at `Append`.
    pub append_only: bool,
    /// Open a repository without rules to its owner only.
    pub private_repo: bool,
    /// Turn on TLS.
    pub tls: bool,
    /// The path of the TLS certificate.
    pub cert: Option<String>,
    /// The path of the TLS key.
    pub key: Option<String>,
    /// The logging level.
    pub log: LogLevel,
}

impl EntryPoint {
    /// The name of the configuration file to look for: the one given on
    /// the command line, else [`CONFIG_FILE`].
    pub open spec fn config_file_of(&self) -> Seq<char> {
        match self.config {
            Some(name) => name@,
            None => CONFIG_FILE@,
        }
    }

    /// The name of the configuration file to look for.
    pub fn config_file(&self) -> (r: String)
        ensures
            r@ == self.config_file_of(),
    {
        match &self.config {
            Some(name) => name.clone(),
            None => CONFIG_FILE.to_owned(),
        }
    }

    /// The configuration file to load, given whether the file of
    /// [`EntryPoint::config_file`] exists: that file, or none, so that a
    /// missing file is no error.
    pub fn config_path(&self, exists: bool) -> (r: Option<String>)
        ensures
            match r {
                Some(name) => exists && name@ == self.config_file_of(),
                None => !exists,
            },
    {
        if exists {
            Some(self.config_file())
        } else {
            None
        }
    }

    /// The switches of the access policy that the options ask for.
    pub fn policy(&self) -> (r: GlobalPolicy)
        ensures
            r == (GlobalPolicy {
                authentication_required: !self.no_auth,
                append_only: self.append_only,
                private_repositories: self.private_repo,
            }),
    {
        GlobalPolicy {
            authentication_required: !self.no_auth,
            append_only: self.append_only,
            private_repositories: self.private_repo,
        }
    }
}

} // verus!
