//! The passenger's side: the requests it makes, what it reads out of the
//! answers, and the tickets it has got.

use vstd::prelude::*;
use vstd::utf8::{decode_utf8, encode_utf8_decode_utf8, encode_utf8_valid_utf8, valid_utf8};
use crate::distr::{answer, ledger_after, requested_flight, sealed};
use crate::flight::{
    convert_to_flightinfo, flights_decoding, lemma_flights_decoding_undoes_encoding,
    lemma_number_bytes, number_bytes, number_to_bytes, FlightInfo,
};
use crate::ledger::{after_reserve, issued, ledger_wf, summaries, FlightView};
use crate::packet::{PacketRequest, PacketResponse, PacketView, UdpPacket, SECRET};
use crate::packet_data::IntegrityError;

verus! {

/// A ticket that a passenger has got.
#[derive(Clone)]
pub struct FlightTicket {
    /// The number of the flight.
    pub flight_num: u32,
    /// The code of the seat.
    pub ticket: String,
}

impl View for FlightTicket {
    type V = (u32, Seq<char>);

    open spec fn view(&self) -> (u32, Seq<char>) {
        (self.flight_num, self.ticket@)
    }
}

/// The flight numbers and seat codes of the tickets.
pub open spec fn tickets_view(tickets: Seq<FlightTicket>) -> Seq<(u32, Seq<char>)> {
    tickets.map_values(|t: FlightTicket| t@)
}

/// Why nothing could be read out of an answer.
#[derive(Debug, Clone, Copy, PartialEq, Eq, Structural)]
pub enum PassengerError {
    /// The response is not one that the request can get.
    ResponseInvalid,
    /// The payload could not be retrieved.
    Payload(IntegrityError),
    /// The payload is not what the response promises.
    DataInvalid,
}

/// The packet that asks for the list of flights.
pub open spec fn flights_request_view() -> PacketView {
    PacketView {
        secret: SECRET,
        request: PacketRequest::GetFlights,
        response: PacketResponse::NoReply,
        payload: None,
    }
}

/// What the answer `p` says of the flights: the list in its payload where
/// the response is `Okay`.
pub open spec fn flights_in(p: PacketView) -> Result<Seq<FlightInfo>, PassengerError> {
    if p.response != PacketResponse::Okay {
        Err(PassengerError::ResponseInvalid)
    } else {
        match p.retrieval() {
            Err(e) => Err(PassengerError::Payload(e)),
            Ok(bytes) => match flights_decoding(bytes) {
                Some(flights) => Ok(flights),
                None => Err(PassengerError::DataInvalid),
            },
        }
    }
}

/// The packet that asks for one ticket of flight `flight_num`: its payload
/// is the number in four bytes, the lowest first.
pub open spec fn ticket_request_view(flight_num: u32) -> PacketView {
    PacketView {
        secret: SECRET,
        request: PacketRequest::RequestTicket,
        response: PacketResponse::NoReply,
        payload: sealed(number_bytes(flight_num)),
    }
}

/// What the answer `p` says of the ticket: the seat code in its payload
/// where the response is `Okay`, and no ticket where it is `TicketsSold`
/// or `NoReply`.
pub open spec fn ticket_in(p: PacketView) -> Result<Option<Seq<char>>, PassengerError> {
    match p.response {
        PacketResponse::NoReply => Ok(None),
        PacketResponse::TicketsSold => Ok(None),
        PacketResponse::ErrorInRequest => Err(PassengerError::ResponseInvalid),
        PacketResponse::Okay => match p.retrieval() {
            Err(e) => Err(PassengerError::Payload(e)),
            Ok(bytes) => if valid_utf8(bytes) {
                Ok(Some(decode_utf8(bytes)))
            } else {
                Err(PassengerError::DataInvalid)
            },
        },
    }
}

/// A request for a ticket names the flight that it was made for.
pub proof fn lemma_ticket_request_names_flight(flight_num: u32)
    ensures
        requested_flight(ticket_request_view(flight_num)) == Some(flight_num),
{
    lemma_number_bytes(flight_num, Seq::empty());
}

/// What the passenger reads out of the distributor's answer to its request
/// for a ticket is what the ledger issues: the seat where one is issued, no
/// ticket where none is. The ledger changes as it does by the reservation.
pub proof fn lemma_ticket_exchange(l: Seq<FlightView>, flight_num: u32)
    requires
        ledger_wf(l),
    ensures
        ticket_in(answer(l, ticket_request_view(flight_num))) == Ok::<
            Option<Seq<char>>,
            PassengerError,
        >(issued(l, flight_num)),
        ledger_after(l, ticket_request_view(flight_num)) == after_reserve(l, flight_num),
{
    lemma_ticket_request_names_flight(flight_num);
    if let Some(seat) = issued(l, flight_num) {
        encode_utf8_valid_utf8(seat);
        encode_utf8_decode_utf8(seat);
    }
}

/// What the passenger reads out of the distributor's answer to its request
/// for the flights is what passengers may know of the flights of the
/// ledger.
pub proof fn lemma_flights_exchange(l: Seq<FlightView>)
    requires
        ledger_wf(l),
    ensures
        flights_in(answer(l, flights_request_view())) == Ok::<Seq<FlightInfo>, PassengerError>(
            summaries(l),
        ),
        ledger_after(l, flights_request_view()) == l,
{
    lemma_flights_decoding_undoes_encoding(summaries(l));
}

/// Calls `String::from_utf8`. As std documents it: the bytes become a
/// string exactly where they are valid UTF-8, and the string then holds
/// the text that they encode.
#[verifier::external_body]
fn string_from_utf8(bytes: Vec<u8>) -> (res: Option<String>)
    ensures
        res matches Some(s) ==> valid_utf8(bytes@) && s@ == decode_utf8(bytes@),
        res is None ==> !valid_utf8(bytes@),
{
    String::from_utf8(bytes).ok()
}

/// A passenger: the tickets it has got so far.
pub struct Passenger {
    acquired_tickets: Vec<FlightTicket>,
}

impl View for Passenger {
    type V = Seq<(u32, Seq<char>)>;

    closed spec fn view(&self) -> Seq<(u32, Seq<char>)> {
        tickets_view(self.acquired_tickets@)
    }
}

impl Passenger {
    /// A passenger without tickets.
    pub fn new() -> (passenger: Passenger)
        ensures
            passenger@ == Seq::<(u32, Seq<char>)>::empty(),
    {
        let passenger = Passenger { acquired_tickets: Vec::new() };
        passenger
    }

    /// All the tickets that the passenger has got, oldest first.
    pub fn acquired_tickets(&self) -> (tickets: Vec<FlightTicket>)
        ensures
            tickets_view(tickets@) == self@,
    {
        let mut tickets: Vec<FlightTicket> = Vec::new();
        let mut i: usize = 0;
        while i < self.acquired_tickets.len()
            invariant
                i <= self.acquired_tickets@.len(),
                tickets_view(tickets@) == tickets_view(self.acquired_tickets@.take(i as int)),
            decreases self.acquired_tickets@.len() - i,
        {
            let t = &self.acquired_tickets[i];
            let ghost before = tickets@;
            let copy = FlightTicket { flight_num: t.flight_num, ticket: t.ticket.clone() };
            tickets.push(copy);
            assert(tickets_view(tickets@) =~= tickets_view(before).push(copy@));
            i += 1;
        }
        tickets
    }

    /// The packet that asks for the list of flights.
    pub fn flights_request() -> (packet: UdpPacket)
        ensures
            packet@ == flights_request_view(),
    {
        UdpPacket::new_with_request(PacketRequest::GetFlights)
    }

    /// Reads the list of flights out of the answer to a request for it.
    pub fn read_flights(reply: &UdpPacket) -> (res: Result<Vec<FlightInfo>, PassengerError>)
        ensures
            match res {
                Ok(flights) => flights_in(reply@) == Ok::<Seq<FlightInfo>, PassengerError>(
                    flights@,
                ),
                Err(e) => flights_in(reply@) == Err::<Seq<FlightInfo>, PassengerError>(e),
            },
    {
        match reply.response() {
            PacketResponse::Okay => {
                let data = match reply.try_retrieve_data() {
                    Ok(data) => data,
                    Err(e) => {
                        return Err(PassengerError::Payload(e));
                    },
                };
                match convert_to_flightinfo(&data) {
                    Some(flights) => Ok(flights),
                    None => Err(PassengerError::DataInvalid),
                }
            },
            _ => Err(PassengerError::ResponseInvalid),
        }
    }

    /// The packet that asks for one ticket of flight `flight_num`.
    pub fn ticket_request(flight_num: u32) -> (packet: UdpPacket)
        ensures
            packet@ == ticket_request_view(flight_num),
    {
        let bytes = number_to_bytes(flight_num);
        UdpPacket::new_with_request(PacketRequest::RequestTicket).set_data(bytes.as_slice())
    }

    /// Reads the ticket out of the answer to a request for one of flight
    /// `flight_num`, and keeps it. Where the answer brings no ticket, the
    /// passenger's tickets stay as they are.
    pub fn accept_ticket(&mut self, flight_num: u32, reply: &UdpPacket) -> (res: Result<
        Option<String>,
        PassengerError,
    >)
        ensures
            match res {
                Ok(Some(ticket)) => ticket_in(reply@) == Ok::<
                    Option<Seq<char>>,
                    PassengerError,
                >(Some(ticket@)) && final(self)@ == old(self)@.push((flight_num, ticket@)),
                Ok(None) => ticket_in(reply@) == Ok::<Option<Seq<char>>, PassengerError>(None)
                    && final(self)@ == old(self)@,
                Err(e) => ticket_in(reply@) == Err::<Option<Seq<char>>, PassengerError>(e)
                    && final(self)@ == old(self)@,
            },
    {
        match reply.response() {
            PacketResponse::NoReply | PacketResponse::TicketsSold => Ok(None),
            PacketResponse::Okay => {
                let data = match reply.try_retrieve_data() {
                    Ok(data) => data,
                    Err(e) => {
                        return Err(PassengerError::Payload(e));
                    },
                };
                let ticket = match string_from_utf8(data) {
                    Some(ticket) => ticket,
                    None => {
                        return Err(PassengerError::DataInvalid);
                    },
                };
                self.acquired_tickets.push(FlightTicket { flight_num, ticket: ticket.clone() });
                Ok(Some(ticket))
            },
            PacketResponse::ErrorInRequest => Err(PassengerError::ResponseInvalid),
        }
    }
}

} // verus!
