//! The decisions of the dashboard's event loop: when to quit, how a failed
//! collection step is reported, and how much room the error panel takes.

use vstd::prelude::*;

verus! {

/// The collection step that failed.
pub enum ErrorSource {
    Hwmon,
    PmInfo,
    GemInfo,
    Mclk,
}

/// The prefix under which an error of `source` is shown and logged.
pub open spec fn error_label(source: ErrorSource) -> Seq<char> {
    match source {
        ErrorSource::Hwmon => "[hwmon error] "@,
        ErrorSource::PmInfo => "[pm error] "@,
        ErrorSource::GemInfo => "[gem error] "@,
        ErrorSource::Mclk => "[mclk error] "@,
    }
}

/// The line that reports `message` from `source`.
pub fn error_line(source: ErrorSource, message: &str) -> (r: String)
    ensures
        r@ == error_label(source) + message@,
{
    let mut line = match source {
        ErrorSource::Hwmon => String::from_str("[hwmon error] "),
        ErrorSource::PmInfo => String::from_str("[pm error] "),
        ErrorSource::GemInfo => String::from_str("[gem error] "),
        ErrorSource::Mclk => String::from_str("[mclk error] "),
    };
    line.append(message);
    line
}

/// Whether a key event ends the dashboard: a press of `q`.
pub fn is_quit_key(is_press: bool, key: Option<char>) -> (b: bool)
    ensures
        b == (is_press && key == Some('q')),
{
    match key {
        Some(c) => is_press && c == 'q',
        None => false,
    }
}

/// The height of the error panel: three rows when there are errors to show,
/// none otherwise.
pub fn error_panel_height(errors: &Vec<String>) -> (h: u16)
    ensures
        h == (if errors.len() == 0 { 0u16 } else { 3u16 }),
{
    if errors.len() == 0 {
        0
    } else {
        3
    }
}

} // verus!
