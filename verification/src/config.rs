//! Open-time configuration of a keyer and the rules it has to meet.
use crate::duration::nanos_of;
use crate::error::Error;
use crate::timing::{
    valid_weighting, valid_wpm, MAX_WEIGHTING, MAX_WPM, MIN_WEIGHTING, MIN_WPM, NOMINAL_WEIGHTING,
};
use std::path::PathBuf;
use std::time::Duration;
use vstd::prelude::*;

verus! {

/// `std::path::PathBuf`, carried through unread.
#[verifier::external_type_specification]
#[verifier::external_body]
pub struct ExPathBuf(PathBuf);

/// `PathBuf::clone`: a copy that is equal to the path.
pub assume_specification[ <PathBuf as Clone>::clone ](path: &PathBuf) -> (copy: PathBuf)
    ensures
        copy == *path,
;

pub const DEFAULT_BAUD_RATE: u32 = 9600;

pub const DEFAULT_WPM: u8 = 24;

pub const DEFAULT_WEIGHTING: u8 = NOMINAL_WEIGHTING;

/// Serial modem-control line used for output.
#[derive(Debug, Clone, Copy, PartialEq, Eq, Structural)]
pub enum ControlLine {
    Dtr,
    Rts,
}

/// Open-time serial keyer configuration.
#[derive(Debug)]
pub struct Config {
    pub path: PathBuf,
    pub baud_rate: u32,
    pub key_line: ControlLine,
    pub ptt_line: Option<ControlLine>,
    pub wpm: u8,
    pub weighting: u8,
    pub ptt_lead: Duration,
    pub ptt_tail: Duration,
}

impl Clone for Config {
    fn clone(&self) -> (copy: Config)
        ensures
            copy == *self,
    {
        Config {
            path: self.path.clone(),
            baud_rate: self.baud_rate,
            key_line: self.key_line,
            ptt_line: self.ptt_line,
            wpm: self.wpm,
            weighting: self.weighting,
            ptt_lead: self.ptt_lead,
            ptt_tail: self.ptt_tail,
        }
    }
}

/// Whether a configuration is the one that a path alone stands for: 9600
/// baud, keying on DTR without a PTT line, 24 words per minute at nominal
/// weighting, and no PTT lead or tail.
pub open spec fn is_default_config(config: Config, path: PathBuf) -> bool {
    &&& config.path == path
    &&& config.baud_rate == 9600
    &&& config.key_line == ControlLine::Dtr
    &&& config.ptt_line is None
    &&& config.wpm == 24
    &&& config.weighting == 50
    &&& nanos_of(config.ptt_lead) == 0
    &&& nanos_of(config.ptt_tail) == 0
}

impl Config {
    /// The device at `path` at 9600 baud, keyed on DTR without a PTT line, at
    /// 24 words per minute with nominal weighting and no PTT lead or tail.
    pub fn new(path: PathBuf) -> (config: Config)
        ensures
            is_default_config(config, path),
            valid_config(config),
    {
        Config {
            path,
            baud_rate: DEFAULT_BAUD_RATE,
            key_line: ControlLine::Dtr,
            ptt_line: None,
            wpm: DEFAULT_WPM,
            weighting: DEFAULT_WEIGHTING,
            ptt_lead: Duration::from_nanos(0),
            ptt_tail: Duration::from_nanos(0),
        }
    }

    pub fn baud_rate(self, baud_rate: u32) -> (config: Config)
        ensures
            config == (Config { baud_rate, ..self }),
    {
        Config { baud_rate, ..self }
    }

    pub fn key_line(self, line: ControlLine) -> (config: Config)
        ensures
            config == (Config { key_line: line, ..self }),
    {
        Config { key_line: line, ..self }
    }

    pub fn ptt_line(self, line: Option<ControlLine>) -> (config: Config)
        ensures
            config == (Config { ptt_line: line, ..self }),
    {
        Config { ptt_line: line, ..self }
    }

    pub fn wpm(self, wpm: u8) -> (config: Config)
        ensures
            config == (Config { wpm, ..self }),
    {
        Config { wpm, ..self }
    }

    pub fn weighting(self, weighting: u8) -> (config: Config)
        ensures
            config == (Config { weighting, ..self }),
    {
        Config { weighting, ..self }
    }

    pub fn ptt_lead_tail(self, lead: Duration, tail: Duration) -> (config: Config)
        ensures
            config == (Config { ptt_lead: lead, ptt_tail: tail, ..self }),
    {
        Config { ptt_lead: lead, ptt_tail: tail, ..self }
    }
}

/// Whether the configuration uses one line for the key and for PTT.
pub open spec fn lines_conflict(config: Config) -> bool {
    config.ptt_line == Some(config.key_line)
}

/// Whether a keyer may be opened with the configuration.
pub open spec fn valid_config(config: Config) -> bool {
    &&& !lines_conflict(config)
    &&& valid_wpm(config.wpm)
    &&& valid_weighting(config.weighting)
}

/// The verdict on a configuration: the lines count first, then the speed, then
/// the weighting.
pub open spec fn config_verdict(config: Config) -> Result<(), Error> {
    if lines_conflict(config) {
        Err(Error::ConflictingLines)
    } else if !valid_wpm(config.wpm) {
        Err(Error::InvalidWpm(config.wpm))
    } else if !valid_weighting(config.weighting) {
        Err(Error::InvalidWeighting(config.weighting))
    } else {
        Ok(())
    }
}

/// Checks that a keyer may be opened with a configuration.
pub fn validate_config(config: &Config) -> (checked: Result<(), Error>)
    ensures
        checked == config_verdict(*config),
        checked is Ok <==> valid_config(*config),
{
    if let Some(ptt) = config.ptt_line {
        if ptt == config.key_line {
            return Err(Error::ConflictingLines);
        }
    }
    check_wpm(config.wpm)?;
    check_weighting(config.weighting)
}

/// Checks that a speed lies in the range `5..=99`.
pub fn check_wpm(wpm: u8) -> (checked: Result<(), Error>)
    ensures
        checked == (if valid_wpm(wpm) {
            Ok(())
        } else {
            Err(Error::InvalidWpm(wpm))
        }),
{
    if wpm < MIN_WPM || wpm > MAX_WPM {
        Err(Error::InvalidWpm(wpm))
    } else {
        Ok(())
    }
}

/// Checks that a weighting lies in the range `10..=90`.
pub fn check_weighting(weighting: u8) -> (checked: Result<(), Error>)
    ensures
        checked == (if valid_weighting(weighting) {
            Ok(())
        } else {
            Err(Error::InvalidWeighting(weighting))
        }),
{
    if weighting < MIN_WEIGHTING || weighting > MAX_WEIGHTING {
        Err(Error::InvalidWeighting(weighting))
    } else {
        Ok(())
    }
}

/// A configuration is accepted exactly if its speed is from 5 to 99 words per
/// minute, its weighting from 10 to 90 and its PTT line, if it has one, is not
/// the key line. Otherwise the first of these that fails is told: the lines,
/// then the speed, then the weighting.
pub proof fn configuration_limits(config: Config)
    ensures
        ({
            let apart = match config.ptt_line {
                Some(ControlLine::Dtr) => config.key_line == ControlLine::Rts,
                Some(ControlLine::Rts) => config.key_line == ControlLine::Dtr,
                None => true,
            };
            let speed = 5 <= config.wpm <= 99;
            let weighting = 10 <= config.weighting <= 90;
            &&& valid_config(config) == (apart && speed && weighting)
            &&& config_verdict(config) is Ok == (apart && speed && weighting)
            &&& !apart ==> config_verdict(config) == Err::<(), Error>(Error::ConflictingLines)
            &&& apart && !speed ==> config_verdict(config) == Err::<(), Error>(
                Error::InvalidWpm(config.wpm),
            )
            &&& apart && speed && !weighting ==> config_verdict(config) == Err::<(), Error>(
                Error::InvalidWeighting(config.weighting),
            )
        }),
{
}

/// What a path alone stands for.
pub proof fn defaults_are_9600_baud_on_dtr_at_24_wpm(config: Config, path: PathBuf)
    requires
        is_default_config(config, path),
    ensures
        config.path == path,
        config.baud_rate == 9600,
        config.key_line == ControlLine::Dtr,
        config.ptt_line is None,
        config.wpm == 24,
        config.weighting == 50,
        nanos_of(config.ptt_lead) == 0,
        nanos_of(config.ptt_tail) == 0,
{
}

} // verus!
