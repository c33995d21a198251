use port_scanner::range::{parse_range, PortRange};
use port_scanner::report::{address_error_line, open_port_line, range_error_line, usage_line};
use port_scanner::range::RangeError;
use port_scanner::scan::{ProbeOutcome, Scan, PROBE_TIMEOUT_SECS};

fn run(range: PortRange, outcome_of: fn(u16) -> ProbeOutcome) -> (Vec<u16>, Vec<String>, Scan) {
    let mut scan = Scan::new(range);
    let mut probed = Vec::new();
    let mut lines = Vec::new();
    while let Some(port) = scan.next_port() {
        probed.push(port);
        if let Some(line) = scan.record(outcome_of(port)) {
            lines.push(line);
        }
    }
    (probed, lines, scan)
}

fn only_ssh(port: u16) -> ProbeOutcome {
    if port == 22 {
        ProbeOutcome::Open
    } else {
        ProbeOutcome::Closed
    }
}

fn nothing_answers(_port: u16) -> ProbeOutcome {
    ProbeOutcome::TimedOut
}

fn even_ports(port: u16) -> ProbeOutcome {
    if port % 2 == 0 {
        ProbeOutcome::Open
    } else if port % 3 == 0 {
        ProbeOutcome::TimedOut
    } else {
        ProbeOutcome::Closed
    }
}

#[test]
fn probe_timeout_is_five_seconds() {
    assert_eq!(PROBE_TIMEOUT_SECS, 5);
}

#[test]
fn only_an_established_connection_is_open() {
    assert!(ProbeOutcome::Open.is_open());
    assert!(!ProbeOutcome::Closed.is_open());
    assert!(!ProbeOutcome::TimedOut.is_open());
}

#[test]
fn open_port_line_names_the_port() {
    assert_eq!(open_port_line(22), "Port 22 is open.");
    assert_eq!(open_port_line(0), "Port 0 is open.");
    assert_eq!(open_port_line(65535), "Port 65535 is open.");
    assert_eq!(open_port_line(8080), "Port 8080 is open.");
}

#[test]
fn range_error_line_carries_the_reason() {
    assert_eq!(
        range_error_line(RangeError::Order),
        "Invalid port range: Start port must be less than or equal to end port."
    );
    assert_eq!(
        range_error_line(RangeError::Format),
        "Invalid port range: Invalid port range format."
    );
    assert_eq!(
        range_error_line(RangeError::StartPort),
        "Invalid port range: Invalid start port."
    );
    assert_eq!(range_error_line(RangeError::EndPort), "Invalid port range: Invalid end port.");
}

#[test]
fn reversed_range_gives_its_error_line_and_no_scan() {
    let error = parse_range("10-1").unwrap_err();
    assert_eq!(
        range_error_line(error),
        "Invalid port range: Start port must be less than or equal to end port."
    );
}

#[test]
fn address_error_line_is_fixed() {
    assert_eq!(address_error_line(), "Invalid IP address.");
}

#[test]
fn usage_line_names_both_arguments() {
    assert_eq!(usage_line(), "Usage: ./port_scanner <ip> <port-range>");
}

#[test]
fn single_open_port_gives_one_line() {
    let range = parse_range("22-22").unwrap();
    let (probed, lines, scan) = run(range, only_ssh);
    assert_eq!(probed, vec![22]);
    assert_eq!(lines, vec![String::from("Port 22 is open.")]);
    assert_eq!(scan.open_ports(), &vec![22]);
    assert_eq!(scan.next_port(), None);
}

#[test]
fn silent_range_gives_no_line_and_probes_every_port() {
    let range = parse_range("50000-50010").unwrap();
    let (probed, lines, scan) = run(range, nothing_answers);
    assert_eq!(probed, (50000..=50010).collect::<Vec<u16>>());
    assert_eq!(probed.len(), 11);
    assert!(lines.is_empty());
    assert!(scan.open_ports().is_empty());
}

#[test]
fn open_ports_are_reported_in_ascending_order_without_stopping_early() {
    let range = parse_range("1-10").unwrap();
    let (probed, lines, scan) = run(range, even_ports);
    assert_eq!(probed, vec![1, 2, 3, 4, 5, 6, 7, 8, 9, 10]);
    assert_eq!(
        lines,
        vec![
            String::from("Port 2 is open."),
            String::from("Port 4 is open."),
            String::from("Port 6 is open."),
            String::from("Port 8 is open."),
            String::from("Port 10 is open."),
        ]
    );
    assert_eq!(scan.open_ports(), &vec![2, 4, 6, 8, 10]);
}

#[test]
fn scan_reaches_the_last_port_and_stops() {
    let range = PortRange::new(65534, 65535).unwrap();
    let (probed, lines, scan) = run(range, even_ports);
    assert_eq!(probed, vec![65534, 65535]);
    assert_eq!(lines, vec![String::from("Port 65534 is open.")]);
    assert_eq!(scan.probed, 2);
}

#[test]
fn same_outcomes_give_the_same_report() {
    let range = parse_range("20-30").unwrap();
    let (first_probed, first_lines, _) = run(range, only_ssh);
    let (second_probed, second_lines, _) = run(range, only_ssh);
    assert_eq!(first_probed, second_probed);
    assert_eq!(first_lines, second_lines);
}

#[test]
fn finished_scan_ignores_further_outcomes() {
    let range = PortRange::new(7, 7).unwrap();
    let mut scan = Scan::new(range);
    assert_eq!(scan.next_port(), Some(7));
    assert_eq!(scan.record(ProbeOutcome::Closed), None);
    assert_eq!(scan.next_port(), None);
    assert_eq!(scan.record(ProbeOutcome::Open), None);
    assert_eq!(scan.probed, 1);
    assert!(scan.open_ports().is_empty());
}

#[test]
fn full_range_scan_probes_all_ports() {
    let range = parse_range("0-65535").unwrap();
    let (probed, lines, scan) = run(range, nothing_answers);
    assert_eq!(probed.len(), 65536);
    assert_eq!(probed[65535], 65535);
    assert!(lines.is_empty());
    assert_eq!(scan.probed, 65536);
}
