use udp_ticket_distribution::distr::Distributor;
use udp_ticket_distribution::flight::{convert_to_bytes, FlightInfo};
use udp_ticket_distribution::packet::{PacketRequest, PacketResponse, UdpPacket};
use udp_ticket_distribution::packet_data::IntegrityError;
use udp_ticket_distribution::pass::{Passenger, PassengerError};

#[test]
fn a_new_passenger_has_no_tickets() {
    let passenger = Passenger::new();
    assert!(passenger.acquired_tickets().is_empty());
}

#[test]
fn the_requests_of_a_passenger() {
    let flights = Passenger::flights_request();
    assert_eq!(flights.request(), PacketRequest::GetFlights);
    assert_eq!(flights.response(), PacketResponse::NoReply);
    assert_eq!(flights.try_retrieve_data(), Err(IntegrityError::MissingData));

    let ticket = Passenger::ticket_request(0x0a0b0c0d);
    assert_eq!(ticket.request(), PacketRequest::RequestTicket);
    assert_eq!(ticket.response(), PacketResponse::NoReply);
    assert_eq!(ticket.try_retrieve_data(), Ok(vec![0x0d, 0x0c, 0x0b, 0x0a]));
    assert_eq!(Passenger::ticket_request(1).try_retrieve_data(), Ok(vec![1, 0, 0, 0]));
}

#[test]
fn flights_are_read_out_of_an_okay() {
    let flights =
        vec![FlightInfo { num: 1, seats_num: 6 }, FlightInfo { num: 2, seats_num: 252 }];
    let reply = Passenger::flights_request()
        .set_response(PacketResponse::Okay)
        .set_data(&convert_to_bytes(&flights));
    assert_eq!(Passenger::read_flights(&reply), Ok(flights));
}

#[test]
fn flights_are_not_read_out_of_anything_else() {
    let flights = vec![FlightInfo { num: 1, seats_num: 6 }];
    for response in
        [PacketResponse::NoReply, PacketResponse::ErrorInRequest, PacketResponse::TicketsSold]
    {
        let reply = Passenger::flights_request()
            .set_response(response)
            .set_data(&convert_to_bytes(&flights));
        assert_eq!(Passenger::read_flights(&reply), Err(PassengerError::ResponseInvalid));
    }
    let bare = Passenger::flights_request().set_response(PacketResponse::Okay);
    assert_eq!(
        Passenger::read_flights(&bare),
        Err(PassengerError::Payload(IntegrityError::MissingData))
    );
    let nonsense = Passenger::flights_request().set_response(PacketResponse::Okay).set_data(b"F1");
    assert_eq!(Passenger::read_flights(&nonsense), Err(PassengerError::DataInvalid));
}

#[test]
fn a_ticket_is_read_out_of_an_okay_and_kept() {
    let mut passenger = Passenger::new();
    let reply = Passenger::ticket_request(7).set_response(PacketResponse::Okay).set_data(b"F1");
    assert_eq!(passenger.accept_ticket(7, &reply), Ok(Some("F1".to_string())));
    let reply = Passenger::ticket_request(9).set_response(PacketResponse::Okay).set_data(b"C12");
    assert_eq!(passenger.accept_ticket(9, &reply), Ok(Some("C12".to_string())));

    let tickets = passenger.acquired_tickets();
    assert_eq!(tickets.len(), 2);
    assert_eq!(tickets[0].flight_num, 7);
    assert_eq!(tickets[0].ticket, "F1");
    assert_eq!(tickets[1].flight_num, 9);
    assert_eq!(tickets[1].ticket, "C12");
    let copy = tickets[1].clone();
    assert_eq!(copy.flight_num, 9);
    assert_eq!(copy.ticket, "C12");
}

#[test]
fn no_ticket_where_none_is_brought() {
    let mut passenger = Passenger::new();
    for response in [PacketResponse::NoReply, PacketResponse::TicketsSold] {
        let reply = Passenger::ticket_request(7).set_response(response);
        assert_eq!(passenger.accept_ticket(7, &reply), Ok(None));
    }
    let reply = Passenger::ticket_request(7).set_response(PacketResponse::ErrorInRequest);
    assert_eq!(passenger.accept_ticket(7, &reply), Err(PassengerError::ResponseInvalid));

    let bare = UdpPacket::new_with_request(PacketRequest::RequestTicket)
        .set_response(PacketResponse::Okay);
    assert_eq!(
        passenger.accept_ticket(7, &bare),
        Err(PassengerError::Payload(IntegrityError::MissingData))
    );
    let not_text = Passenger::ticket_request(7)
        .set_response(PacketResponse::Okay)
        .set_data(&[b'F', 0xff, b'1']);
    assert_eq!(passenger.accept_ticket(7, &not_text), Err(PassengerError::DataInvalid));

    assert!(passenger.acquired_tickets().is_empty());
}

#[test]
fn a_ticket_of_more_than_ascii() {
    let mut passenger = Passenger::new();
    let text = "Sitz Ä1 → 座席";
    let reply =
        Passenger::ticket_request(3).set_response(PacketResponse::Okay).set_data(text.as_bytes());
    assert_eq!(passenger.accept_ticket(3, &reply), Ok(Some(text.to_string())));
}

#[test]
fn what_the_distributor_issues_is_what_the_passenger_gets() {
    let mut distr = Distributor::new();
    distr.gen_fake_flight(2);
    let mut passenger = Passenger::new();
    for expected in ["F2", "E2", "D2", "C2", "B2", "A2", "F1", "E1", "D1", "C1", "B1", "A1"] {
        let reply = distr.process(Passenger::ticket_request(1));
        assert_eq!(passenger.accept_ticket(1, &reply), Ok(Some(expected.to_string())));
    }
    let reply = distr.process(Passenger::ticket_request(1));
    assert_eq!(passenger.accept_ticket(1, &reply), Ok(None));
    let tickets = passenger.acquired_tickets();
    assert_eq!(tickets.len(), 12);
    assert!(tickets.iter().all(|t| t.flight_num == 1));

    let listed = Passenger::read_flights(&distr.process(Passenger::flights_request()));
    assert_eq!(listed, Ok(vec![FlightInfo { num: 1, seats_num: 0 }]));
}
