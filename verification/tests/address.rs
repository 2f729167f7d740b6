use udp_ticket_distribution::address::AddressSelection;

#[test]
fn auto_is_any_address_and_any_port() {
    assert_eq!(AddressSelection::Auto.socket_address(), "0.0.0.0:0");
}

#[test]
fn manual_is_the_address_as_written() {
    let selection = AddressSelection::Manual("1.2.3.4:12345".to_string());
    assert_eq!(selection.socket_address(), "1.2.3.4:12345");
    assert_eq!(selection.clone().socket_address(), "1.2.3.4:12345");
}
