//! Verified core of a Morse/CW keyer on serial port control lines.
//!
//! One dit is `1200 / wpm` ms, dashes are three dits, gaps are one dit within a
//! character, three dits between characters, and seven dits between words.
//!
//! The core decides and computes; it does no input or output. [`morse`] and
//! [`plan`] turn a text into steps, [`timing`] says how long they last, and
//! [`worker`] walks through them while it takes commands: it tells its owner
//! which line to switch, how long to sleep and what to answer, and is told what
//! became of it. [`keyer`] is the other side, which makes the commands and reads
//! the replies. What holds of all this is proved in the modules that end in
//! `_laws` and beside the definitions in [`timing`] and [`plan`].
pub mod call_laws;
pub mod config;
pub mod delivery_laws;
pub mod double;
pub mod duration;
pub mod error;
pub mod gap_laws;
pub mod keyer;
pub mod model;
pub mod morse;
pub mod morse_laws;
pub mod plan;
pub mod plan_laws;
pub mod proxy;
pub mod proxy_laws;
pub mod sending_laws;
pub mod settings_laws;
pub mod silence_laws;
pub mod sleep;
pub mod status_laws;
pub mod step_laws;
pub mod stopping_laws;
pub mod timing;
pub mod worker;
pub mod worker_laws;

pub use crate::config::{validate_config, Config, ControlLine};
pub use crate::error::Error;
pub use crate::keyer::SerialKeyer;
pub use crate::model::Status;
pub use crate::morse::{morse, tokenize, Token};
