//! Mode resolution: from the configured mode and ports to the upstream target.

use vstd::prelude::*;
use vstd::string::StringExecFns;

verus! {

/// The backend a configuration selects.
#[derive(Clone, Copy, Debug, PartialEq, Eq, Structural)]
pub enum Mode {
    /// The development server, which also offers the live-reload socket.
    Dev,
    /// The production server.
    Prod,
}

/// The backend host and port a request is forwarded to.
#[derive(Clone, Debug, PartialEq, Eq)]
pub struct UpstreamTarget {
    pub host: String,
    pub port: u16,
}

/// The mathematical value of an [`UpstreamTarget`].
pub struct TargetModel {
    pub host: Seq<char>,
    pub port: u16,
}

impl View for UpstreamTarget {
    type V = TargetModel;

    open spec fn view(&self) -> TargetModel {
        TargetModel { host: self.host@, port: self.port }
    }
}

/// The host every upstream target names.
pub open spec fn upstream_host() -> Seq<char> {
    "localhost"@
}

/// The mode an indicator text stands for: `DEV` and `PROD` are recognized,
/// every other text is not.
pub open spec fn mode_of(indicator: Seq<char>) -> Option<Mode> {
    if indicator == "DEV"@ {
        Some(Mode::Dev)
    } else if indicator == "PROD"@ {
        Some(Mode::Prod)
    } else {
        None
    }
}

/// The mode an optional indicator stands for; an absent one stands for none.
pub open spec fn configured_mode(indicator: Option<Seq<char>>) -> Option<Mode> {
    match indicator {
        Some(text) => mode_of(text),
        None => None,
    }
}

/// The port that belongs to a mode.
pub open spec fn port_of(mode: Mode, dev_port: u16, prod_port: u16) -> u16 {
    match mode {
        Mode::Dev => dev_port,
        Mode::Prod => prod_port,
    }
}

/// The target of a mode, or none where no mode is active.
pub open spec fn target_of(mode: Option<Mode>, dev_port: u16, prod_port: u16) -> Option<
    TargetModel,
> {
    match mode {
        Some(m) => Some(TargetModel { host: upstream_host(), port: port_of(m, dev_port, prod_port) }),
        None => None,
    }
}

/// Reads a mode indicator.
pub fn parse_mode(indicator: &str) -> (mode: Option<Mode>)
    ensures
        mode == mode_of(indicator@),
{
    let text = String::from_str(indicator);
    if text == String::from_str("DEV") {
        Some(Mode::Dev)
    } else if text == String::from_str("PROD") {
        Some(Mode::Prod)
    } else {
        None
    }
}

/// The configuration the proxy is built with: the active mode, if any, and
/// one port for each mode. It is a plain value; a dispatcher never changes it.
#[derive(Clone, Copy, Debug, PartialEq, Eq, Structural)]
pub struct ProxyConfig {
    pub mode: Option<Mode>,
    pub dev_port: u16,
    pub prod_port: u16,
}

impl ProxyConfig {
    /// The target this configuration selects.
    pub open spec fn target(self) -> Option<TargetModel> {
        target_of(self.mode, self.dev_port, self.prod_port)
    }

    /// Builds a configuration from the raw mode indicator and the two ports.
    pub fn new(indicator: Option<&str>, dev_port: u16, prod_port: u16) -> (config: ProxyConfig)
        ensures
            config.mode == configured_mode(
                match indicator {
                    Some(text) => Some(text@),
                    None => None,
                },
            ),
            config.dev_port == dev_port,
            config.prod_port == prod_port,
    {
        let mode = match indicator {
            Some(text) => parse_mode(text),
            None => None,
        };
        ProxyConfig { mode, dev_port, prod_port }
    }

    /// Resolves the upstream target of the current request: `localhost` and
    /// the port of the active mode, or nothing where no mode is active.
    pub fn resolve(&self) -> (target: Option<UpstreamTarget>)
        ensures
            match target {
                Some(t) => self.target() == Some(t@),
                None => self.target() is None,
            },
    {
        match self.mode {
            Some(Mode::Dev) => Some(
                UpstreamTarget { host: String::from_str("localhost"), port: self.dev_port },
            ),
            Some(Mode::Prod) => Some(
                UpstreamTarget { host: String::from_str("localhost"), port: self.prod_port },
            ),
            None => None,
        }
    }
}

} // verus!
