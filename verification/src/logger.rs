//! Coloured status messages on the terminal.
//!
//! The terminal writes go through crossterm behind trusted wrappers; the
//! message assembly and the fallback decision are verified.

use vstd::prelude::*;
use vstd::string::StringExecFns;
use crossterm::QueueableCommand;
use std::io::Write;

verus! {

/// The colours the logger uses.
pub enum LogColour {
    Yellow,
    Green,
    Red,
}

/// Relies on crossterm's `QueueableCommand::queue` with
/// `style::SetForegroundColor`: queues a foreground-colour change on stdout.
#[verifier::external_body]
fn queue_foreground_colour(colour: &LogColour) -> bool {
    let c = match colour {
        LogColour::Yellow => crossterm::style::Color::Yellow,
        LogColour::Green => crossterm::style::Color::Green,
        LogColour::Red => crossterm::style::Color::Red,
    };
    std::io::stdout().queue(crossterm::style::SetForegroundColor(c)).is_ok()
}

/// Relies on crossterm's `QueueableCommand::queue` with `style::Print`:
/// queues the text on stdout.
#[verifier::external_body]
fn queue_text(message: &str) -> bool {
    std::io::stdout().queue(crossterm::style::Print(message)).is_ok()
}

/// Relies on crossterm's `QueueableCommand::queue` with `style::ResetColor`:
/// queues a reset of the terminal colours.
#[verifier::external_body]
fn queue_colour_reset() -> bool {
    std::io::stdout().queue(crossterm::style::ResetColor).is_ok()
}

/// Relies on `std::io::Write::flush` for stdout: makes the queued writes
/// visible.
#[verifier::external_body]
fn flush_stdout() -> bool {
    std::io::stdout().flush().is_ok()
}

/// Relies on the `writeln` macro over stdout: writes the text and a newline.
#[verifier::external_body]
fn write_line(message: &str) {
    let _ = writeln!(std::io::stdout(), "{}", message);
}

pub struct Logger;

impl Logger {
    fn log_with_colour(colour: LogColour, message: &str) -> (ok: bool) {
        queue_foreground_colour(&colour) && queue_text(message) && queue_colour_reset()
            && flush_stdout()
    }

    fn log_without_color(message: &str) {
        write_line(message);
    }

    pub fn log_info(info: &str) {
        let mut message = "INFO: ".to_owned();
        message.append(info);
        message.append("\n");
        if !Self::log_with_colour(LogColour::Yellow, message.as_str()) {
            Self::log_without_color(message.as_str());
        }
    }

    pub fn log_success(success: &str) {
        let mut message = "Success: ".to_owned();
        message.append(success);
        message.append("\n");
        if !Self::log_with_colour(LogColour::Green, message.as_str()) {
            Self::log_without_color(message.as_str());
        }
    }

    pub fn log_error(error: &str) {
        let mut message = "ERROR: ".to_owned();
        message.append(error);
        message.append("\n");
        if !Self::log_with_colour(LogColour::Red, message.as_str()) {
            Self::log_without_color(message.as_str());
        }
    }
}

} // verus!
