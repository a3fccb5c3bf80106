//! Process configuration, read once at startup and immutable thereafter,
//! and the structured error payload returned to interactive submitters.

use crate::timelimits::TimeLimits;
use vstd::prelude::*;

verus! {

/// The raw configuration as read from the config file; any field may be
/// missing.
#[derive(Clone, Debug)]
pub struct RawConfig {
    pub listen: Option<String>,
    pub device: Option<String>,
    pub svg_dir: Option<String>,
    pub interval_seconds: Option<u64>,
    pub time_limits: Option<TimeLimits>,
}

/// An active configuration: device, drawing directory and interval are all
/// present, so the process may drive the robot.
///
/// Note: this struct can be queried over the network, so be careful with
/// sensitive data.
#[derive(Clone, Debug)]
pub struct Config {
    pub listen: String,
    pub device: String,
    pub svg_dir: String,
    pub interval_seconds: u64,
    pub time_limits: Option<TimeLimits>,
}

/// The listen address used when the config file names none.
pub open spec fn spec_default_listen() -> Seq<char> {
    "127.0.0.1:8080"@
}

impl Config {
    /// Promote a raw configuration to an active one. Succeeds exactly when
    /// the device, the drawing directory and the interval are all present; a
    /// missing listen address falls back to the default. A raw configuration
    /// refused here leaves the process in preview-only mode — a designed
    /// fallback, not an error.
    pub fn from(config: RawConfig) -> (r: Option<Config>)
        ensures
            r is Some <==> (config.device is Some && config.svg_dir is Some
                && config.interval_seconds is Some),
            r matches Some(c) ==> {
                &&& (config.listen matches Some(l) ==> c.listen == l)
                &&& (config.listen is None ==> c.listen@ == spec_default_listen())
                &&& (config.device matches Some(d) && c.device == d)
                &&& (config.svg_dir matches Some(s) && c.svg_dir == s)
                &&& (config.interval_seconds matches Some(i) && c.interval_seconds == i)
                &&& c.time_limits == config.time_limits
            },
    {
        let listen = match config.listen {
            Option::Some(val) => val,
            Option::None => "127.0.0.1:8080".to_string(),
        };
        let device = match config.device {
            Option::Some(val) => val,
            Option::None => {
                return Option::None;
            },
        };
        let svg_dir = match config.svg_dir {
            Option::Some(val) => val,
            Option::None => {
                return Option::None;
            },
        };
        let interval_seconds = match config.interval_seconds {
            Option::Some(val) => val,
            Option::None => {
                return Option::None;
            },
        };
        let time_limits = config.time_limits;
        Option::Some(Config { listen, device, svg_dir, interval_seconds, time_limits })
    }
}

/// Configuration for preview-only mode (no robot attached).
#[derive(Clone, Debug)]
pub struct PreviewConfig {
    pub listen: String,
}

impl PreviewConfig {
    /// Every raw configuration yields a preview configuration; a missing
    /// listen address falls back to the literal `listen`.
    pub fn from(config: RawConfig) -> (r: PreviewConfig)
        ensures
            config.listen matches Some(l) ==> r.listen == l,
            config.listen is None ==> r.listen@ == "listen"@,
    {
        let listen = match config.listen {
            Option::Some(val) => val,
            Option::None => "listen".to_string(),
        };
        PreviewConfig { listen }
    }
}

/// Payload of a structured error answer to an interactive submitter.
#[derive(Clone, Debug)]
pub struct ErrorDetails {
    pub details: String,
}

impl ErrorDetails {
    /// Wrap a message into an error payload.
    pub fn from(details: String) -> (r: ErrorDetails)
        ensures
            r.details == details,
    {
        ErrorDetails { details }
    }
}

/// A structured error answer for an interactive submitter, distinguishing a
/// fault in the submitted input from a fault on the server's side.
#[derive(Clone, Debug)]
pub enum JsonError {
    ServerError(ErrorDetails),
    ClientError(ErrorDetails),
}

impl JsonError {
    /// The payload, whichever side caused the fault.
    pub fn details(&self) -> (r: &ErrorDetails)
        ensures
            *self matches JsonError::ServerError(d) ==> *r == d,
            *self matches JsonError::ClientError(d) ==> *r == d,
    {
        match self {
            JsonError::ServerError(d) => d,
            JsonError::ClientError(d) => d,
        }
    }

    /// Whether the submitter's input caused the fault.
    pub fn is_client_error(&self) -> (r: bool)
        ensures
            r == (*self is ClientError),
    {
        match self {
            JsonError::ClientError(_) => true,
            JsonError::ServerError(_) => false,
        }
    }
}

} // verus!
