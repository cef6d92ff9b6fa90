//! The handle of a keyer: the commands it sends and what it makes of the
//! replies.
use crate::config::{check_weighting, check_wpm, config_verdict, is_default_config, Config};
use crate::duration::nanos_of;
use crate::error::Error;
use crate::model::{key, CommandModel, Status};
use crate::timing::{valid_weighting, valid_wpm};
use crate::worker::{initial_state, Action, CommandKind, Worker};
use std::path::PathBuf;
use std::time::Duration;
use vstd::prelude::*;

verus! {

/// How long a reply may take, unless set otherwise.
pub const DEFAULT_TIMEOUT_NANOS: u64 = 500_000_000;

/// How long to wait before the status is asked for again.
pub const POLL_DELAY_NANOS: u64 = 20_000_000;

/// What became of a command that was sent to the worker.
#[derive(Debug)]
pub enum Reply<T> {
    /// The worker takes no more commands.
    NotTaken,
    /// No reply came in time.
    Late,
    /// The worker went away without a reply.
    Dropped,
    /// The reply.
    Given(T),
}

/// What a reply amounts to.
pub open spec fn reply_result<T>(reply: Reply<T>) -> Result<T, Error> {
    match reply {
        Reply::NotTaken => Err(Error::Closed),
        Reply::Late => Err(Error::Timeout),
        Reply::Dropped => Err(Error::Closed),
        Reply::Given(value) => Ok(value),
    }
}

/// How waiting for an idle keyer goes on.
#[derive(Debug)]
pub enum IdleWait {
    /// The wait is over.
    Done(Result<(), Error>),
    /// Sleep for so long and ask for the status again.
    Again(Duration),
}

/// Handle for a background serial-line Morse keyer.
pub struct SerialKeyer {
    timeout: Duration,
}

/// A keyer that is being opened: the configuration with the port to open, the
/// handle, the worker and the first thing that the worker wants done.
pub struct Opening {
    pub config: Config,
    pub keyer: SerialKeyer,
    pub worker: Worker,
    pub action: Action,
}

/// Whether a keyer was opened as the configuration says.
pub open spec fn opened(opening: Opening, config: Config) -> bool {
    &&& opening.config == config
    &&& opening.keyer.timeout_nanos() == DEFAULT_TIMEOUT_NANOS
    &&& opening.worker.wf()
    &&& opening.worker@ == initial_state(config)
    &&& opening.action@ == key(initial_state(config), false)
}

impl SerialKeyer {
    /// How long a reply may take, in nanoseconds.
    pub closed spec fn timeout_nanos(&self) -> u128 {
        nanos_of(self.timeout)
    }

    /// Opens a keyer that uses DTR for CW keying and no PTT line.
    pub fn open(path: PathBuf) -> (opening: Result<Opening, Error>)
        ensures
            opening matches Ok(opening) && is_default_config(opening.config, path) && opened(
                opening,
                opening.config,
            ),
    {
        Self::open_with_config(Config::new(path))
    }

    /// Opens a keyer with explicit key/PTT line configuration.
    pub fn open_with_config(config: Config) -> (opening: Result<Opening, Error>)
        ensures
            match opening {
                Ok(opening) => config_verdict(config) is Ok && opened(opening, config),
                Err(error) => config_verdict(config) == Err::<(), Error>(error),
            },
    {
        let (worker, action) = Worker::start(&config)?;
        let keyer = SerialKeyer { timeout: Duration::from_nanos(DEFAULT_TIMEOUT_NANOS) };
        Ok(Opening { config, keyer, worker, action })
    }

    pub fn set_timeout(&mut self, timeout: Duration)
        ensures
            final(self).timeout_nanos() == nanos_of(timeout),
    {
        self.timeout = timeout;
    }

    /// How long a reply may take.
    pub fn timeout(&self) -> (timeout: Duration)
        ensures
            nanos_of(timeout) == self.timeout_nanos(),
    {
        self.timeout
    }

    /// The command that queues text for transmission.
    pub fn send_text(&self, text: &str) -> (command: CommandKind)
        ensures
            command@ == CommandModel::SendText(text@),
    {
        CommandKind::SendText(text.to_string())
    }

    /// The command that aborts current sending, clears queued text and returns
    /// the lines off. It is acknowledged with the first error of a line that
    /// could not be switched.
    pub fn clear_buffer(&self) -> (command: CommandKind)
        ensures
            command@ == CommandModel::ClearBuffer,
    {
        CommandKind::ClearBuffer
    }

    /// The command that sets the speed, if it lies in the range `5..=99`.
    pub fn set_wpm(&self, wpm: u8) -> (command: Result<CommandKind, Error>)
        ensures
            match command {
                Ok(command) => valid_wpm(wpm) && command@ == CommandModel::SetWpm(wpm),
                Err(error) => !valid_wpm(wpm) && error == Error::InvalidWpm(wpm),
            },
    {
        check_wpm(wpm)?;
        Ok(CommandKind::SetWpm(wpm))
    }

    /// The command that sets weighting as a keyer-style percentage, if it lies
    /// in the range `10..=90`. 50 is nominal.
    pub fn set_weighting(&self, weighting: u8) -> (command: Result<CommandKind, Error>)
        ensures
            match command {
                Ok(command) => valid_weighting(weighting) && command@
                    == CommandModel::SetWeighting(weighting),
                Err(error) => !valid_weighting(weighting) && error == Error::InvalidWeighting(
                    weighting,
                ),
            },
    {
        check_weighting(weighting)?;
        Ok(CommandKind::SetWeighting(weighting))
    }

    /// The command that sets the PTT lead and tail times.
    pub fn set_ptt_lead_tail(&self, lead: Duration, tail: Duration) -> (command: CommandKind)
        ensures
            command@ == (CommandModel::SetPttLeadTail {
                lead: nanos_of(lead),
                tail: nanos_of(tail),
            }),
    {
        CommandKind::SetPttLeadTail { lead, tail }
    }

    /// The command that asks for the status.
    pub fn status(&self) -> (command: CommandKind)
        ensures
            command@ == CommandModel::Status,
    {
        CommandKind::Status
    }

    /// The command that ends the worker.
    pub fn close(&self) -> (command: CommandKind)
        ensures
            command@ == CommandModel::Close,
    {
        CommandKind::Close
    }

    /// What the reply to a command amounts to.
    pub fn settle<T>(reply: Reply<T>) -> (result: Result<T, Error>)
        ensures
            result == reply_result(reply),
            match reply {
                Reply::NotTaken | Reply::Dropped => result == Err::<T, Error>(Error::Closed),
                Reply::Late => result == Err::<T, Error>(Error::Timeout),
                Reply::Given(value) => result == Ok::<T, Error>(value),
            },
    {
        match reply {
            Reply::NotTaken => Err(Error::Closed),
            Reply::Late => Err(Error::Timeout),
            Reply::Dropped => Err(Error::Closed),
            Reply::Given(value) => Ok(value),
        }
    }

    /// What the acknowledgement of a command amounts to.
    pub fn call_ack(reply: Reply<Result<(), Error>>) -> (result: Result<(), Error>)
        ensures
            result == (match reply_result(reply) {
                Ok(result) => result,
                Err(error) => Err(error),
            }),
            match reply {
                Reply::NotTaken | Reply::Dropped => result == Err::<(), Error>(Error::Closed),
                Reply::Late => result == Err::<(), Error>(Error::Timeout),
                Reply::Given(given) => result == given,
            },
    {
        match Self::settle(reply) {
            Ok(result) => result,
            Err(error) => Err(error),
        }
    }

    /// Whether a status, or a failure to get one, ends the wait for an idle
    /// keyer. A status that is late does not: a worker that is keying a
    /// character answers when it is over.
    pub fn wait_until_idle(status: Result<Status, Error>) -> (wait: IdleWait)
        ensures
            match status {
                Ok(status) => if status.busy {
                    wait matches IdleWait::Again(delay) && nanos_of(delay) == POLL_DELAY_NANOS
                } else {
                    wait == IdleWait::Done(Ok(()))
                },
                Err(Error::Timeout) => wait matches IdleWait::Again(delay) && nanos_of(delay)
                    == POLL_DELAY_NANOS,
                Err(error) => wait == IdleWait::Done(Err(error)),
            },
    {
        match status {
            Ok(status) => {
                if status.busy {
                    IdleWait::Again(Duration::from_nanos(POLL_DELAY_NANOS))
                } else {
                    IdleWait::Done(Ok(()))
                }
            },
            Err(Error::Timeout) => IdleWait::Again(Duration::from_nanos(POLL_DELAY_NANOS)),
            Err(error) => IdleWait::Done(Err(error)),
        }
    }
}

} // verus!
