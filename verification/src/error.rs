//! Error values of the transport and the panel driver.
use vstd::prelude::*;

verus! {

/// A digital line or the serial bus refused an operation.
#[derive(Clone, Copy, Debug, PartialEq, Eq, Structural)]
pub enum TransportError {
    /// The serial bus did not accept a write.
    Bus,
    /// A digital output could not be driven.
    Output,
    /// The busy input could not be sampled.
    Input,
}

/// The busy line stayed active for longer than allowed.
///
/// Both fields are nanoseconds.
#[derive(Clone, Copy, Debug, PartialEq, Eq, Structural)]
pub struct TimeOutError {
    /// The bound that the caller configured.
    pub timeout: u64,
    /// The time spent waiting when the wait was given up.
    pub elapsed: u64,
}

/// Failure of a transport or panel operation.
#[derive(Clone, Copy, Debug, PartialEq, Eq, Structural)]
pub enum Error {
    /// The busy line did not clear in time.
    TimeOut(TimeOutError),
    /// The hardware reported a failure; it is handed on unchanged.
    Transport(TransportError),
    /// The operation needs an awake panel, and the panel is in deep sleep.
    DeepSleep,
}

impl TimeOutError {
    /// Text form: both durations in nanoseconds.
    pub fn message(&self) -> (text: String)
        ensures
            text@ == timeout_message(self.timeout, self.elapsed),
    {
        let mut text = String::from_str("timeout: ");
        text.append(decimal_text(self.timeout).as_str());
        text.append("ns, elapsed: ");
        text.append(decimal_text(self.elapsed).as_str());
        text.append("ns");
        text
    }
}

/// The character of a decimal digit.
pub open spec fn digit(d: nat) -> char {
    if d == 0 {
        '0'
    } else if d == 1 {
        '1'
    } else if d == 2 {
        '2'
    } else if d == 3 {
        '3'
    } else if d == 4 {
        '4'
    } else if d == 5 {
        '5'
    } else if d == 6 {
        '6'
    } else if d == 7 {
        '7'
    } else if d == 8 {
        '8'
    } else {
        '9'
    }
}

/// A number in decimal digits, without leading zeros.
pub open spec fn decimal(n: nat) -> Seq<char>
    decreases n,
{
    if n < 10 {
        seq![digit(n)]
    } else {
        decimal(n / 10).push(digit(n % 10))
    }
}

/// The text of a timeout: both durations in nanoseconds, in decimal digits.
pub open spec fn timeout_message(timeout: u64, elapsed: u64) -> Seq<char> {
    "timeout: "@ + decimal(timeout as nat) + "ns, elapsed: "@ + decimal(elapsed as nat) + "ns"@
}

/// One decimal digit as text.
fn digit_text(d: u64) -> (text: &'static str)
    requires
        d < 10,
    ensures
        text@ == seq![digit(d as nat)],
{
    proof {
        reveal_strlit("0");
        reveal_strlit("1");
        reveal_strlit("2");
        reveal_strlit("3");
        reveal_strlit("4");
        reveal_strlit("5");
        reveal_strlit("6");
        reveal_strlit("7");
        reveal_strlit("8");
        reveal_strlit("9");
    }
    let text = if d == 0 {
        "0"
    } else if d == 1 {
        "1"
    } else if d == 2 {
        "2"
    } else if d == 3 {
        "3"
    } else if d == 4 {
        "4"
    } else if d == 5 {
        "5"
    } else if d == 6 {
        "6"
    } else if d == 7 {
        "7"
    } else if d == 8 {
        "8"
    } else {
        "9"
    };
    assert(text@ =~= seq![digit(d as nat)]);
    text
}

/// A number in decimal digits, without leading zeros.
fn decimal_text(n: u64) -> (text: String)
    ensures
        text@ == decimal(n as nat),
    decreases n,
{
    if n < 10 {
        String::from_str(digit_text(n))
    } else {
        let mut text = decimal_text(n / 10);
        text.append(digit_text(n % 10));
        assert(text@ =~= decimal(n as nat));
        text
    }
}

} // verus!
