//! The control plane's decisions: parsing a UDP datagram into a command, and
//! applying a command to the shared state. The socket loop outside the
//! library receives each datagram, calls in, performs what the outcome says
//! (log the dump, stop), and acknowledges the sender.
use vstd::prelude::*;

verus! {

use vstd::utf8::{valid_utf8, decode_utf8};
use crate::appguts::UnsafeAppGuts;
use crate::text::{trim_of, decode_utf8_vec, chars_of, trim, chars_eq_str};
use crate::transcript::dump_of;

/// A recognized control command.
#[derive(Debug, Clone, PartialEq, Eq, Structural)]
pub enum Command {
    ChangeState,
    ShowDb,
    Stop,
}

/// Why a datagram carries no command: it is not UTF-8, or its text matches no
/// command.
#[derive(Debug, Clone, PartialEq, Eq, Structural)]
pub enum ControlParseError {
    NotUtf8,
    UnknownCommand,
}

/// The command a datagram carries: decode it as UTF-8, trim surrounding
/// whitespace, and compare against the fixed command set.
pub open spec fn parse_spec(bytes: Seq<u8>) -> Result<Command, ControlParseError> {
    if !valid_utf8(bytes) {
        Err(ControlParseError::NotUtf8)
    } else {
        let t = trim_of(decode_utf8(bytes));
        if t == "change state"@ {
            Ok(Command::ChangeState)
        } else if t == "show db"@ {
            Ok(Command::ShowDb)
        } else if t == "stop"@ {
            Ok(Command::Stop)
        } else {
            Err(ControlParseError::UnknownCommand)
        }
    }
}

/// Parses one control datagram.
pub fn parse_datagram(buf: &Vec<u8>) -> (r: Result<Command, ControlParseError>)
    ensures
        r == parse_spec(buf@),
{
    let text = match decode_utf8_vec(buf) {
        Some(s) => s,
        None => {
            return Err(ControlParseError::NotUtf8);
        },
    };
    let chars = chars_of(text.as_str());
    let trimmed = trim(&chars);
    if chars_eq_str(&trimmed, "change state") {
        Ok(Command::ChangeState)
    } else if chars_eq_str(&trimmed, "show db") {
        Ok(Command::ShowDb)
    } else if chars_eq_str(&trimmed, "stop") {
        Ok(Command::Stop)
    } else {
        Err(ControlParseError::UnknownCommand)
    }
}

/// What the control loop must do after a command was applied.
pub enum ControlOutcome {
    /// Keep listening; nothing to report.
    Proceed,
    /// Keep listening; write this transcript dump to the log.
    Dump(String),
    /// Shut the control loop down.
    Shutdown,
}

/// Applies one parsed command to the shared state: `ChangeState` toggles the
/// mode, `ShowDb` renders the transcript and changes nothing, `Stop` changes
/// nothing and asks for shutdown. The transcript is never touched.
pub fn apply_command(guts: &mut UnsafeAppGuts, cmd: &Command) -> (r: ControlOutcome)
    requires
        old(guts).wf(),
    ensures
        final(guts).wf(),
        final(guts).records() == old(guts).records(),
        (cmd is ChangeState ==> (final(guts).mode() is Record <==> old(guts).mode() is Replay)
            && r is Proceed),
        (cmd is ShowDb ==> final(guts).mode() == old(guts).mode() && (r matches
        ControlOutcome::Dump(d) && d@ == dump_of(old(guts).records()))),
        (cmd is Stop ==> final(guts).mode() == old(guts).mode() && r is Shutdown),
{
    match cmd {
        Command::ChangeState => {
            guts.change_state();
            ControlOutcome::Proceed
        },
        Command::ShowDb => ControlOutcome::Dump(guts.show_data()),
        Command::Stop => ControlOutcome::Shutdown,
    }
}

} // verus!
