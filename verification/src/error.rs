//! The ways in which the daemon fails.

use crate::ini_file::SyntaxError;
use crate::text::NumberFault;
use vstd::prelude::*;

verus! {

/// Why the system did not do as it was asked.
#[derive(Clone, Copy, Debug, PartialEq, Eq, Structural)]
pub enum IoCause {
    /// The system's own number for the failure.
    Os(i32),
    /// The failure has no number.
    Other,
}

/// A failure of the daemon.
#[derive(Debug)]
pub enum Error {
    /// The daemon does not run as root.
    NotRoot,
    /// Another daemon holds the PID file.
    AlreadyRunning,
    /// The PID file could not be read.
    PidRead(IoCause),
    /// The PID file could not be written.
    PidWrite(IoCause),
    /// The PID file could not be removed.
    PidDelete(IoCause),
    /// A search pattern is malformed.
    Glob(String),
    /// A signal handler could not be registered.
    Signal(IoCause),
    /// There is no fan to control.
    NoFan,
    /// There is no CPU temperature sensor.
    NoCpu,
    /// A configured sensor does not exist.
    SensorNotFound(String),
    /// Every fan is left to the SMC.
    AllFansAuto,
    /// The configuration file could not be read.
    ConfigRead(IoCause),
    /// The configuration file could not be created.
    ConfigCreate(IoCause),
    /// The configuration file is no INI file.
    ConfigParse(SyntaxError),
    /// The configuration has no section for this fan.
    MissingFanConfig(usize),
    /// A fan's section lacks this key.
    MissingConfigValue(&'static str),
    /// A fan's section has an unusable value for this key.
    InvalidConfigValue(&'static str),
    /// A reload would change what only a restart can change.
    ConfigStructureChanged(String),
    /// A temperature could not be read.
    TempRead(IoCause),
    /// A temperature is not UTF-8.
    TempUtf8,
    /// A temperature is no number.
    TempParse(NumberFault),
    /// A GPU's temperature could not be read.
    NvmlRead(String),
    /// A fan's least speed could not be read.
    MinSpeedRead(IoCause),
    /// A fan's least speed is no number.
    MinSpeedParse(NumberFault),
    /// A fan's greatest speed could not be read.
    MaxSpeedRead(IoCause),
    /// A fan's greatest speed is no number.
    MaxSpeedParse(NumberFault),
    /// A fan or a sensor could not be opened.
    FanOpen(IoCause),
    /// A fan could not be set.
    FanWrite(IoCause),
    /// The kernel does not let fans be set.
    FanControlDisabled,
}

} // verus!
