//! The lines that a scan writes: one for each open port, and one for each
//! reason not to scan at all.

use vstd::prelude::*;
use vstd::string::StringExecFns;
use crate::decimal::{append_decimal, decimal_text};
use crate::range::RangeError;

verus! {

/// The line that reports `port` as open.
pub open spec fn open_port_text(port: u16) -> Seq<char> {
    "Port "@ + decimal_text(port as nat) + " is open."@
}

/// The line that reports a refused port range.
pub open spec fn range_error_text(error: RangeError) -> Seq<char> {
    "Invalid port range: "@ + error.message_text()
}

/// The line that reports a target that is no IP address.
pub open spec fn address_error_text() -> Seq<char> {
    "Invalid IP address."@
}

/// The line that tells how to call the program.
pub open spec fn usage_text() -> Seq<char> {
    "Usage: ./port_scanner <ip> <port-range>"@
}

/// The line that reports `port` as open.
pub fn open_port_line(port: u16) -> (line: String)
    ensures
        line@ == open_port_text(port),
{
    let mut line = String::from_str("Port ");
    append_decimal(&mut line, port);
    line.append(" is open.");
    line
}

/// The line that reports a refused port range, with the reason.
pub fn range_error_line(error: RangeError) -> (line: String)
    ensures
        line@ == range_error_text(error),
{
    let mut line = String::from_str("Invalid port range: ");
    line.append(error.message());
    line
}

/// The line that reports a target that is no IP address.
pub fn address_error_line() -> (line: &'static str)
    ensures
        line@ == address_error_text(),
{
    "Invalid IP address."
}

/// The line that tells how to call the program, for a call with the wrong
/// number of arguments.
pub fn usage_line() -> (line: &'static str)
    ensures
        line@ == usage_text(),
{
    "Usage: ./port_scanner <ip> <port-range>"
}

} // verus!
