//! What a call of the program asks for: a scan, or a line that says why
//! there will be none. Everything is decided before the first probe.

use vstd::prelude::*;
use vstd::string::StringExecFns;
use crate::range::{parse_range, range_of, PortRange, RangeError};
use crate::report::{
    address_error_line, address_error_text, range_error_line, range_error_text, usage_line,
    usage_text,
};

verus! {

/// How many arguments a call has: the program's name, the target address
/// and the port range.
pub const ARGUMENT_COUNT: usize = 3;

/// The line that refuses a call, if it is refused. The argument count is
/// looked at first, then the address, then the port range; a call that
/// passes all three is not refused.
pub open spec fn refusal_text(
    argument_count: nat,
    address_is_valid: bool,
    range_text: Seq<char>,
) -> Option<Seq<char>> {
    if argument_count != ARGUMENT_COUNT {
        Some(usage_text())
    } else if !address_is_valid {
        Some(address_error_text())
    } else {
        match range_of(range_text) {
            Err(error) => Some(range_error_text(error)),
            Ok(_) => None,
        }
    }
}

/// The text of the range argument; empty where the call has none.
pub open spec fn range_argument(args: Seq<String>) -> Seq<char> {
    if args.len() == ARGUMENT_COUNT {
        args[2]@
    } else {
        Seq::empty()
    }
}

/// Decides what a call asks for. `args` holds the program's name and its
/// arguments; `address_is_valid` says whether the first argument is an IP
/// address, and is not looked at unless the argument count is right. The
/// result is the range to scan, or the one line to write before ending
/// without a single probe.
pub fn validate(args: &Vec<String>, address_is_valid: bool) -> (plan: Result<PortRange, String>)
    ensures
        match plan {
            Ok(range) => {
                &&& refusal_text(args@.len(), address_is_valid, range_argument(args@)) is None
                &&& range_of(range_argument(args@)) == Ok::<PortRange, RangeError>(range)
                &&& range.wf()
            },
            Err(line) => refusal_text(args@.len(), address_is_valid, range_argument(args@))
                == Some(line@),
        },
{
    if args.len() != ARGUMENT_COUNT {
        return Err(String::from_str(usage_line()));
    }
    if !address_is_valid {
        return Err(String::from_str(address_error_line()));
    }
    match parse_range(args[2].as_str()) {
        Ok(range) => Ok(range),
        Err(error) => Err(range_error_line(error)),
    }
}

} // verus!
