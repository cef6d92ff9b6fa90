//! What can go wrong with a keyer.
use serialport::Error as SerialError;
use vstd::prelude::*;
use vstd::std_specs::convert::FromSpec;
use vstd::string::{to_string_from_display_ensures, StringExecFns};

verus! {

/// The error of the `serialport` crate, carried through unread.
#[verifier::external_type_specification]
#[verifier::external_body]
pub struct ExSerialError(SerialError);

/// The error of `std::io`, carried through unread.
#[verifier::external_type_specification]
#[verifier::external_body]
pub struct ExIoError(std::io::Error);

#[derive(Debug)]
pub enum Error {
    /// The serial port could not be opened or driven.
    Serial(SerialError),
    /// Some other input or output failed.
    Io(std::io::Error),
    /// The worker that drives the lines is gone.
    Closed,
    /// The worker did not answer in time.
    Timeout,
    /// The speed is out of range.
    InvalidWpm(u8),
    /// The weighting is out of range.
    InvalidWeighting(u8),
    /// The key and PTT lines are one and the same.
    ConflictingLines,
}

impl From<SerialError> for Error {
    fn from(error: SerialError) -> (wrapped: Error) {
        Error::Serial(error)
    }
}

impl vstd::std_specs::convert::FromSpecImpl<SerialError> for Error {
    open spec fn obeys_from_spec() -> bool {
        true
    }

    open spec fn from_spec(error: SerialError) -> Error {
        Error::Serial(error)
    }
}

impl From<std::io::Error> for Error {
    fn from(error: std::io::Error) -> (wrapped: Error) {
        Error::Io(error)
    }
}

impl vstd::std_specs::convert::FromSpecImpl<std::io::Error> for Error {
    open spec fn obeys_from_spec() -> bool {
        true
    }

    open spec fn from_spec(error: std::io::Error) -> Error {
        Error::Io(error)
    }
}

/// A digit as text.
pub open spec fn digit_text(digit: nat) -> Seq<char> {
    if digit == 0 {
        "0"@
    } else if digit == 1 {
        "1"@
    } else if digit == 2 {
        "2"@
    } else if digit == 3 {
        "3"@
    } else if digit == 4 {
        "4"@
    } else if digit == 5 {
        "5"@
    } else if digit == 6 {
        "6"@
    } else if digit == 7 {
        "7"@
    } else if digit == 8 {
        "8"@
    } else {
        "9"@
    }
}

/// A number as decimal text, without leading zeros.
pub open spec fn decimal_text(number: nat) -> Seq<char>
    decreases number,
{
    if number < 10 {
        digit_text(number)
    } else {
        decimal_text(number / 10) + digit_text(number % 10)
    }
}

fn digit(value: u8) -> (text: &'static str)
    requires
        value < 10,
    ensures
        text@ == digit_text(value as nat),
{
    match value {
        0 => "0",
        1 => "1",
        2 => "2",
        3 => "3",
        4 => "4",
        5 => "5",
        6 => "6",
        7 => "7",
        8 => "8",
        _ => "9",
    }
}

fn decimal(number: u8) -> (text: String)
    ensures
        text@ == decimal_text(number as nat),
    decreases number,
{
    if number < 10 {
        digit(number).to_string()
    } else {
        decimal(number / 10).concat(digit(number % 10))
    }
}

/// The text of an error, where `cause` is the text of the error it carries.
pub open spec fn error_text(error: Error, cause: Seq<char>) -> Seq<char> {
    match error {
        Error::Serial(_) => "serial port error: "@ + cause,
        Error::Io(_) => "I/O error: "@ + cause,
        Error::Closed => "keyer worker thread stopped"@,
        Error::Timeout => "operation timed out"@,
        Error::InvalidWpm(wpm) => "WPM must be in the range 5..=99, got "@ + decimal_text(
            wpm as nat,
        ),
        Error::InvalidWeighting(weighting) => "weighting must be in the range 10..=90, got "@
            + decimal_text(weighting as nat),
        Error::ConflictingLines => "key and PTT lines must be different when both are enabled"@,
    }
}

/// The text of an error of the serial port, given the text of its cause.
pub fn serial_text(cause: &str) -> (text: String)
    ensures
        text@ == "serial port error: "@ + cause@,
{
    "serial port error: ".to_string().concat(cause)
}

/// The text of an input or output error, given the text of its cause.
pub fn io_text(cause: &str) -> (text: String)
    ensures
        text@ == "I/O error: "@ + cause@,
{
    "I/O error: ".to_string().concat(cause)
}

impl Error {
    /// The text of this error, where `cause` is the text of the error that it
    /// carries; an error that carries none leaves `cause` unread.
    pub fn describe(&self, cause: &str) -> (text: String)
        ensures
            text@ == error_text(*self, cause@),
    {
        match self {
            Error::Serial(_) => serial_text(cause),
            Error::Io(_) => io_text(cause),
            Error::Closed => "keyer worker thread stopped".to_string(),
            Error::Timeout => "operation timed out".to_string(),
            Error::InvalidWpm(wpm) => "WPM must be in the range 5..=99, got ".to_string().concat(
                decimal(*wpm).as_str(),
            ),
            Error::InvalidWeighting(weighting) =>
                "weighting must be in the range 10..=90, got ".to_string().concat(
                decimal(*weighting).as_str(),
            ),
            Error::ConflictingLines =>
                "key and PTT lines must be different when both are enabled".to_string(),
        }
    }

    /// The text of this error, with that of the error it carries.
    pub fn to_string(&self) -> (text: String)
        ensures
            match *self {
                Error::Serial(inner) => exists|cause: String|
                    #[trigger] to_string_from_display_ensures(&inner, cause) && text@ == error_text(
                        *self,
                        cause@,
                    ),
                Error::Io(inner) => exists|cause: String|
                    #[trigger] to_string_from_display_ensures(&inner, cause) && text@ == error_text(
                        *self,
                        cause@,
                    ),
                _ => text@ == error_text(*self, seq![]),
            },
    {
        match self {
            Error::Serial(inner) => {
                let cause: String = inner.to_string();
                self.describe(cause.as_str())
            },
            Error::Io(inner) => {
                let cause: String = inner.to_string();
                self.describe(cause.as_str())
            },
            _ => self.describe(""),
        }
    }
}

/// The error of the serial port becomes one of the serial port, and that of
/// `std::io` one of input and output; both carry what they were made from.
pub proof fn errors_carry_what_they_were_made_from(serial: SerialError, io: std::io::Error)
    ensures
        <Error as FromSpec<SerialError>>::from_spec(serial) == Error::Serial(serial),
        <Error as FromSpec<std::io::Error>>::from_spec(io) == Error::Io(io),
{
}

/// The number that decimal digits stand for.
pub open spec fn decimal_value(text: Seq<char>) -> nat
    decreases text.len(),
{
    if text.len() == 0 {
        0
    } else {
        10 * decimal_value(text.drop_last()) + (text.last() as u32 - 48) as nat
    }
}

/// A number is written in decimal digits that read back as the number, without
/// leading zeros.
pub proof fn decimal_text_reads_back(number: nat)
    ensures
        decimal_value(decimal_text(number)) == number,
        decimal_text(number).len() > 0,
        forall|i: int|
            0 <= i < decimal_text(number).len() ==> '0' <= #[trigger] decimal_text(number)[i]
                <= '9',
        number > 0 ==> decimal_text(number)[0] != '0',
    decreases number,
{
    reveal_strlit("0");
    reveal_strlit("1");
    reveal_strlit("2");
    reveal_strlit("3");
    reveal_strlit("4");
    reveal_strlit("5");
    reveal_strlit("6");
    reveal_strlit("7");
    reveal_strlit("8");
    reveal_strlit("9");
    if number < 10 {
        reveal_with_fuel(decimal_value, 2);
        assert(decimal_text(number).drop_last() =~= seq![]);
    } else {
        let high = decimal_text(number / 10);
        decimal_text_reads_back(number / 10);
        assert(decimal_text(number).drop_last() =~= high);
        assert(decimal_text(number)[0] == high[0]);
    }
}

/// Every error says what it is, one that names a value ends in its digits, and
/// one that carries another error ends in the text of that.
pub proof fn errors_end_in_what_they_name(error: Error, cause: Seq<char>)
    ensures
        ({
            let text = error_text(error, cause);
            let wpm_start = "WPM must be in the range 5..=99, got "@;
            let weighting_start = "weighting must be in the range 10..=90, got "@;
            match error {
                Error::Serial(_) => text == "serial port error: "@ + cause,
                Error::Io(_) => text == "I/O error: "@ + cause,
                Error::Closed => text == "keyer worker thread stopped"@,
                Error::Timeout => text == "operation timed out"@,
                Error::InvalidWpm(wpm) => {
                    &&& text.take(wpm_start.len() as int) == wpm_start
                    &&& decimal_value(text.skip(wpm_start.len() as int)) == wpm
                },
                Error::InvalidWeighting(weighting) => {
                    &&& text.take(weighting_start.len() as int) == weighting_start
                    &&& decimal_value(text.skip(weighting_start.len() as int)) == weighting
                },
                Error::ConflictingLines => text
                    == "key and PTT lines must be different when both are enabled"@,
            }
        }),
{
    let text = error_text(error, cause);
    match error {
        Error::InvalidWpm(wpm) => {
            let start = "WPM must be in the range 5..=99, got "@;
            decimal_text_reads_back(wpm as nat);
            assert(text.take(start.len() as int) =~= start);
            assert(text.skip(start.len() as int) =~= decimal_text(wpm as nat));
        },
        Error::InvalidWeighting(weighting) => {
            let start = "weighting must be in the range 10..=90, got "@;
            decimal_text_reads_back(weighting as nat);
            assert(text.take(start.len() as int) =~= start);
            assert(text.skip(start.len() as int) =~= decimal_text(weighting as nat));
        },
        _ => {},
    }
}

} // verus!
