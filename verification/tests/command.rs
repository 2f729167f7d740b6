use udp_ticket_distribution::command::{
    distributor_command, parse_number, passenger_command, DistributorCommand, PassengerCommand,
};

fn words(line: &str) -> Vec<String> {
    line.split_whitespace().map(str::to_owned).collect()
}

#[test]
fn the_commands_of_a_passenger() {
    assert_eq!(passenger_command(&words("fetch flights")), PassengerCommand::FetchFlights);
    assert_eq!(passenger_command(&words("  fetch   flights \n")), PassengerCommand::FetchFlights);
    assert_eq!(passenger_command(&words("ticketfor 1")), PassengerCommand::TicketFor(1));
    assert_eq!(passenger_command(&words("ticketfor +17")), PassengerCommand::TicketFor(17));
    assert_eq!(passenger_command(&words("ticketfor 007")), PassengerCommand::TicketFor(7));
    assert_eq!(
        passenger_command(&words("ticketfor 4294967295")),
        PassengerCommand::TicketFor(u32::MAX)
    );
    assert_eq!(passenger_command(&words("ticketfor 4294967296")), PassengerCommand::InvalidNumber);
    assert_eq!(passenger_command(&words("ticketfor -1")), PassengerCommand::InvalidNumber);
    assert_eq!(passenger_command(&words("ticketfor one")), PassengerCommand::InvalidNumber);
    assert_eq!(passenger_command(&words("ticketfor flights")), PassengerCommand::InvalidNumber);
    assert_eq!(passenger_command(&words("exit")), PassengerCommand::Exit);
    for line in [
        "",
        "fetch",
        "flights fetch",
        "fetch flights now",
        "Fetch flights",
        "ticketfor",
        "ticketfor 1 2",
        "exit now",
        "see flights",
        "genflight 3",
    ] {
        assert_eq!(passenger_command(&words(line)), PassengerCommand::Invalid);
    }
}

#[test]
fn the_commands_of_a_distributor() {
    assert_eq!(distributor_command(&words("see flights")), DistributorCommand::SeeFlights);
    assert_eq!(distributor_command(&words("genflight 1")), DistributorCommand::GenFlight(1));
    assert_eq!(distributor_command(&words("genflight 0")), DistributorCommand::GenFlight(0));
    assert_eq!(distributor_command(&words("genflight 42")), DistributorCommand::GenFlight(42));
    assert_eq!(distributor_command(&words("genflight 255")), DistributorCommand::GenFlight(255));
    assert_eq!(distributor_command(&words("genflight 256")), DistributorCommand::InvalidNumber);
    assert_eq!(distributor_command(&words("genflight many")), DistributorCommand::InvalidNumber);
    assert_eq!(distributor_command(&words("genflight +")), DistributorCommand::InvalidNumber);
    assert_eq!(distributor_command(&words("exit")), DistributorCommand::Exit);
    for line in ["", "see", "see flights now", "genflight", "genflight 1 2", "fetch flights"] {
        assert_eq!(distributor_command(&words(line)), DistributorCommand::Invalid);
    }
}

#[test]
fn numbers_are_read_as_the_standard_library_reads_them() {
    let mut samples: Vec<String> = [
        "", "+", "-", "0", "+0", "-0", "00", "1", "+1", "++1", "1+", " 1", "1 ", "9", "10", "255",
        "256", "0255", "+255", "+256", "65535", "65536", "4294967295", "4294967296",
        "18446744073709551615", "18446744073709551616", "99999999999999999999999999",
        "000000000000000000000000000000000000001", "1a", "a1", "1_000", "0x10", "1e3", "١٢٣",
        "１２", "1.0", "١",
    ]
    .iter()
    .map(|s| s.to_string())
    .collect();
    for n in 0..2000u32 {
        samples.push(n.to_string());
        samples.push(format!("+{}", n.wrapping_mul(2654435761)));
        samples.push(format!("0{}", n.wrapping_mul(40503)));
    }
    for sample in samples.iter() {
        assert_eq!(parse_number(sample, u8::MAX as u64), sample.parse::<u8>().ok().map(u64::from));
        assert_eq!(
            parse_number(sample, u32::MAX as u64),
            sample.parse::<u32>().ok().map(u64::from)
        );
        assert_eq!(parse_number(sample, u64::MAX), sample.parse::<u64>().ok());
    }
    assert_eq!(parse_number("7", 6), None);
    assert_eq!(parse_number("7", 7), Some(7));
    assert_eq!(parse_number("0", 0), Some(0));
    assert_eq!(parse_number("1", 0), None);
}
