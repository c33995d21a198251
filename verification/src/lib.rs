//! Verified core of a TCP port scanner: the port-range grammar, the walk over
//! the ports of a range, and the lines that a scan reports.

pub mod cli;
pub mod decimal;
pub mod range;
pub mod report;
pub mod scan;
