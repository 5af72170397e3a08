use platformer_net::netaddr::parse_ipv4;
use platformer_net::netaddr::select_client_port;
use platformer_net::netaddr::BindError;
use platformer_net::netaddr::PortBinder;
use platformer_net::CLIENT_PORT;

#[test]
fn parse_accepts_a_plain_address() {
    assert_eq!(parse_ipv4("127.0.0.1"), Ok((127, 0, 0, 1)));
    assert_eq!(parse_ipv4("255.255.255.255"), Ok((255, 255, 255, 255)));
    assert_eq!(parse_ipv4("0.0.0.0"), Ok((0, 0, 0, 0)));
}

#[test]
fn parse_rejects_the_wrong_field_count_as_format() {
    assert_eq!(parse_ipv4(""), Err(BindError::Format));
    assert_eq!(parse_ipv4("1.2.3"), Err(BindError::Format));
    assert_eq!(parse_ipv4("1.2.3.4.5"), Err(BindError::Format));
    assert_eq!(parse_ipv4("1234"), Err(BindError::Format));
}

#[test]
fn parse_rejects_bad_fields_as_server() {
    assert_eq!(parse_ipv4("256.0.0.1"), Err(BindError::Server));
    assert_eq!(parse_ipv4("1..2.3"), Err(BindError::Server));
    assert_eq!(parse_ipv4("a.b.c.d"), Err(BindError::Server));
    assert_eq!(parse_ipv4("1.2.3."), Err(BindError::Server));
    assert_eq!(parse_ipv4("1.2.3.4567"), Err(BindError::Server));
}

#[test]
fn port_fallback_skips_an_occupied_base_port() {
    // another simulated session holds the base port
    let occupied = vec![CLIENT_PORT];
    assert_eq!(select_client_port(CLIENT_PORT, &occupied), Ok(CLIENT_PORT + 1));
}

#[test]
fn port_fallback_finds_the_first_gap() {
    let occupied = vec![5001, 5002, 5003, 5005];
    assert_eq!(select_client_port(5001, &occupied), Ok(5004));
}

#[test]
fn port_fallback_fails_cleanly_when_the_window_is_full() {
    let mut occupied = Vec::new();
    for i in 0..16u16 {
        occupied.push(CLIENT_PORT + i);
    }
    assert_eq!(
        select_client_port(CLIENT_PORT, &occupied),
        Err(BindError::Client)
    );
}

#[test]
fn binder_walks_the_window_in_order() {
    let mut binder = PortBinder::new(CLIENT_PORT);
    let mut seen = Vec::new();
    while !binder.exhausted() {
        seen.push(binder.current_port());
        binder.fail();
    }
    let expected: Vec<u16> = (0..16u16).map(|i| CLIENT_PORT + i).collect();
    assert_eq!(seen, expected);
}
