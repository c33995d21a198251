use port_scanner::cli::{validate, ARGUMENT_COUNT};
use port_scanner::range::PortRange;

fn call(args: &[&str]) -> Vec<String> {
    let mut all = vec![String::from("port_scanner")];
    for arg in args {
        all.push(String::from(*arg));
    }
    all
}

#[test]
fn a_call_has_three_arguments_with_the_program_name() {
    assert_eq!(ARGUMENT_COUNT, 3);
}

#[test]
fn address_alone_gives_the_usage_line() {
    assert_eq!(
        validate(&call(&["127.0.0.1"]), true),
        Err(String::from("Usage: ./port_scanner <ip> <port-range>"))
    );
}

#[test]
fn no_argument_or_too_many_give_the_usage_line() {
    let usage = Err(String::from("Usage: ./port_scanner <ip> <port-range>"));
    assert_eq!(validate(&call(&[]), false), usage);
    assert_eq!(validate(&Vec::new(), false), usage);
    assert_eq!(validate(&call(&["127.0.0.1", "1-10", "extra"]), true), usage);
}

#[test]
fn bad_address_is_refused_before_the_range_is_read() {
    assert_eq!(
        validate(&call(&["not-an-ip", "1-10"]), false),
        Err(String::from("Invalid IP address."))
    );
    assert_eq!(
        validate(&call(&["not-an-ip", "10-1"]), false),
        Err(String::from("Invalid IP address."))
    );
}

#[test]
fn reversed_range_is_refused_with_its_reason() {
    assert_eq!(
        validate(&call(&["127.0.0.1", "10-1"]), true),
        Err(String::from(
            "Invalid port range: Start port must be less than or equal to end port."
        ))
    );
}

#[test]
fn malformed_ranges_are_refused_with_their_reasons() {
    assert_eq!(
        validate(&call(&["::1", "80"]), true),
        Err(String::from("Invalid port range: Invalid port range format."))
    );
    assert_eq!(
        validate(&call(&["::1", "x-80"]), true),
        Err(String::from("Invalid port range: Invalid start port."))
    );
    assert_eq!(
        validate(&call(&["::1", "80-65536"]), true),
        Err(String::from("Invalid port range: Invalid end port."))
    );
}

#[test]
fn good_call_gives_the_range_to_scan() {
    assert_eq!(
        validate(&call(&["127.0.0.1", "22-22"]), true),
        Ok(PortRange { start: 22, end: 22 })
    );
    assert_eq!(
        validate(&call(&["127.0.0.1", "50000-50010"]), true),
        Ok(PortRange { start: 50000, end: 50010 })
    );
}
