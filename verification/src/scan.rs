//! The walk over the ports of a range: which port to probe next, and what to
//! report once a probe has come back.

use vstd::prelude::*;
use crate::range::{lemma_port_span_ascending, PortRange};
use crate::report::{open_port_line, open_port_text};

verus! {

/// How long one connection attempt may take, in seconds. Each port has this
/// time to itself.
pub const PROBE_TIMEOUT_SECS: u64 = 5;

/// What one connection attempt showed.
#[derive(Clone, Copy, Debug, PartialEq, Eq, Structural)]
pub enum ProbeOutcome {
    /// The connection was established in time.
    Open,
    /// The attempt failed in time: refused, or no route to the target.
    Closed,
    /// Nothing came back before the time was up.
    TimedOut,
}

impl ProbeOutcome {
    /// Only an established connection counts as open.
    pub fn is_open(&self) -> (open: bool)
        ensures
            open == (*self is Open),
    {
        match self {
            ProbeOutcome::Open => true,
            ProbeOutcome::Closed => false,
            ProbeOutcome::TimedOut => false,
        }
    }
}

/// A scan in progress: the range, how many of its ports have been probed, and
/// the open ports found among them.
pub struct Scan {
    pub range: PortRange,
    pub probed: u32,
    pub open: Vec<u16>,
}

/// The state of a scan as plain values.
pub struct ScanState {
    pub range: PortRange,
    pub probed: nat,
    pub open: Seq<u16>,
}

impl View for Scan {
    type V = ScanState;

    open spec fn view(&self) -> ScanState {
        ScanState { range: self.range, probed: self.probed as nat, open: self.open@ }
    }
}

impl ScanState {
    /// The state before the first probe.
    pub open spec fn start(range: PortRange) -> ScanState {
        ScanState { range, probed: 0, open: Seq::empty() }
    }

    /// The port to probe next; none once every port of the range was probed.
    pub open spec fn pending(self) -> Option<u16> {
        if self.probed < self.range.span().len() {
            Some(self.range.span()[self.probed as int])
        } else {
            None
        }
    }

    /// The state after the pending port's probe came back with `outcome`. A
    /// finished scan stays as it is.
    pub open spec fn step(self, outcome: ProbeOutcome) -> ScanState {
        match self.pending() {
            Some(port) => ScanState {
                range: self.range,
                probed: self.probed + 1,
                open: if outcome is Open {
                    self.open.push(port)
                } else {
                    self.open
                },
            },
            None => self,
        }
    }

    /// The line to write when the pending port's probe came back with
    /// `outcome`: one for an open port, none otherwise.
    pub open spec fn report(self, outcome: ProbeOutcome) -> Option<Seq<char>> {
        match self.pending() {
            Some(port) if outcome is Open => Some(open_port_text(port)),
            _ => None,
        }
    }

    /// The state after the probes of the first ports of the range came back
    /// with `outcomes`, in that order.
    pub open spec fn run(range: PortRange, outcomes: Seq<ProbeOutcome>) -> ScanState
        decreases outcomes.len(),
    {
        if outcomes.len() == 0 {
            ScanState::start(range)
        } else {
            ScanState::run(range, outcomes.drop_last()).step(outcomes.last())
        }
    }

    /// A state that a scan can be in: no more ports probed than the range
    /// has, and the open ports strictly ascending among the probed ones.
    pub open spec fn wf(self) -> bool {
        &&& self.range.wf()
        &&& self.probed <= self.range.span().len()
        &&& forall|i: int|
            0 <= i < self.open.len() ==> self.range.start <= #[trigger] self.open[i]
                < self.range.start + self.probed
        &&& forall|i: int, j: int|
            0 <= i < j < self.open.len() ==> self.open[i] < self.open[j]
    }
}

impl Scan {
    /// A scan of `range` that has not probed any port yet.
    pub fn new(range: PortRange) -> (scan: Scan)
        requires
            range.wf(),
        ensures
            scan@ == ScanState::start(range),
            scan@.wf(),
    {
        Scan { range, probed: 0, open: Vec::new() }
    }

    /// The port to probe next; none once every port of the range was probed.
    pub fn next_port(&self) -> (port: Option<u16>)
        requires
            self@.wf(),
        ensures
            port == self@.pending(),
    {
        let len: u32 = (self.range.end - self.range.start) as u32 + 1;
        if self.probed < len {
            Some((self.range.start as u32 + self.probed) as u16)
        } else {
            None
        }
    }

    /// Takes the outcome of the pending port's probe: moves on to the next
    /// port and gives the line to write, if the port was open.
    pub fn record(&mut self, outcome: ProbeOutcome) -> (line: Option<String>)
        requires
            old(self)@.wf(),
        ensures
            final(self)@ == old(self)@.step(outcome),
            final(self)@.wf(),
            match line {
                Some(text) => old(self)@.report(outcome) == Some(text@),
                None => old(self)@.report(outcome) is None,
            },
    {
        match self.next_port() {
            Some(port) => {
                self.probed = self.probed + 1;
                if outcome.is_open() {
                    self.open.push(port);
                    Some(open_port_line(port))
                } else {
                    None
                }
            },
            None => None,
        }
    }

    /// The open ports found so far, ascending.
    pub fn open_ports(&self) -> (ports: &Vec<u16>)
        ensures
            ports@ == self@.open,
    {
        &self.open
    }
}

/// Whether `port` is one of the ports whose probe, among the first of the
/// range, came back open.
pub open spec fn found_open(range: PortRange, outcomes: Seq<ProbeOutcome>, port: u16) -> bool {
    exists|i: int|
        0 <= i < outcomes.len() && i < range.span().len() && range.span()[i] == port
            && #[trigger] outcomes[i] is Open
}

/// A scan probes the ports of its range one by one in ascending order, one
/// outcome per port, and is finished exactly when every port has had its
/// outcome; whatever the outcomes are, none ends it early. The ports it
/// reports are exactly those whose probe came back open, strictly ascending.
/// Outcomes that arrive after the last port change nothing.
pub proof fn law_scan_reports_open_ports(range: PortRange, outcomes: Seq<ProbeOutcome>)
    requires
        range.wf(),
    ensures
        ScanState::run(range, outcomes).wf(),
        ScanState::run(range, outcomes).range == range,
        ScanState::run(range, outcomes).probed == if outcomes.len() <= range.span().len() {
            outcomes.len()
        } else {
            range.span().len()
        },
        ScanState::run(range, outcomes).pending() is None <==> outcomes.len()
            >= range.span().len(),
        forall|port: u16| #[trigger]
            found_open(range, outcomes, port) <==> ScanState::run(range, outcomes).open.contains(
                port,
            ),
    decreases outcomes.len(),
{
    lemma_port_span_ascending(range.start, range.end);
    let after = ScanState::run(range, outcomes);
    if outcomes.len() > 0 {
        let earlier = outcomes.drop_last();
        let before = ScanState::run(range, earlier);
        law_scan_reports_open_ports(range, earlier);
        let at = before.probed as int;
        assert forall|p: u16| after.open.contains(p) <==> found_open(range, outcomes, p) by {
            if after.open.contains(p) {
                let k = choose|k: int| 0 <= k < after.open.len() && after.open[k] == p;
                if k < before.open.len() {
                    assert(before.open[k] == p);
                    assert(before.open.contains(p));
                    assert(found_open(range, earlier, p));
                    let i = choose|i: int|
                        0 <= i < earlier.len() && i < range.span().len() && range.span()[i] == p
                            && #[trigger] earlier[i] is Open;
                    assert(outcomes[i] is Open);
                } else {
                    assert(before.pending() == Some(p));
                    assert(at == earlier.len());
                    assert(outcomes[at] is Open);
                }
            }
            if found_open(range, outcomes, p) {
                let i = choose|i: int|
                    0 <= i < outcomes.len() && i < range.span().len() && range.span()[i] == p
                        && #[trigger] outcomes[i] is Open;
                if i < earlier.len() {
                    assert(earlier[i] is Open);
                    assert(found_open(range, earlier, p));
                    assert(before.open.contains(p));
                    let k = choose|k: int| 0 <= k < before.open.len() && before.open[k] == p;
                    assert(after.open[k] == p);
                } else {
                    assert(before.pending() == Some(p));
                    assert(after.open[after.open.len() - 1] == p);
                }
            }
        }
    } else {
        assert forall|p: u16| after.open.contains(p) <==> found_open(range, outcomes, p) by {}
    }
}

} // verus!
