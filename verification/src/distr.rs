//! The distributor's side: the ledger of flights and the answer to every
//! request.

use vstd::prelude::*;
use vstd::utf8::encode_utf8;
use crate::checksum::crc16_ibm_sdlc;
use crate::flight::{
    convert_to_bytes, flights_wire, number_from_bytes, number_of_bytes, FlightInfo,
};
use crate::ledger::{
    after_reserve, clamp_rows, flight_wf, generated, is_open, issued, ledger_wf,
    lemma_after_reserve_wf, lemma_first_seats_drop_last, lemma_generated_wf, lemma_max_number,
    lemma_open_index, max_number, new_flight, summaries, summary, FlightView,
};
use crate::packet::{PacketRequest, PacketResponse, PacketView, UdpPacket};
use crate::seat::{
    first_seats, is_seat_code, lemma_nth_seat_is_code, make_seat_code, MAX_ROWS, SEATS_PER_ROW,
};

verus! {

/// One flight of the ledger: what passengers may know of it, and the codes
/// of the seats that are still to be had.
#[derive(Clone)]
pub struct FlightDB {
    /// Flight info.
    pub info: FlightInfo,
    /// Available seats.
    pub seats: Vec<String>,
}

/// The codes that the strings hold.
pub open spec fn seat_codes(seats: Seq<String>) -> Seq<Seq<char>> {
    seats.map_values(|s: String| s@)
}

impl View for FlightDB {
    type V = FlightView;

    open spec fn view(&self) -> FlightView {
        FlightView { num: self.info.num, seats: seat_codes(self.seats@) }
    }
}

impl FlightDB {
    /// The number of seats that passengers are told is the number of seats
    /// that are left, and these are what is left of the seats of a plane.
    pub open spec fn wf(&self) -> bool {
        &&& self.info.seats_num == self.seats@.len()
        &&& flight_wf(self@)
    }
}

/// The payload that holds `bytes` under their checksum.
pub open spec fn sealed(bytes: Seq<u8>) -> Option<(u16, Seq<u8>)> {
    Some((crc16_ibm_sdlc(bytes), bytes))
}

/// The flight number that a request for a ticket names: its payload, if
/// that can be retrieved and is four bytes long, read with the lowest byte
/// first.
pub open spec fn requested_flight(p: PacketView) -> Option<u32> {
    match p.retrieval() {
        Ok(bytes) => if bytes.len() == 4 {
            Some(number_of_bytes(bytes))
        } else {
            None
        },
        Err(_) => None,
    }
}

/// The answer of a distributor with ledger `l` to the packet `p`.
///
/// A ping is answered with `Okay`; a request for the flights with `Okay`
/// and the list of flights as payload; a request for a ticket with `Okay`
/// and the issued seat code as payload, with `TicketsSold` where no seat
/// is issued, and with `ErrorInRequest` where it names no flight.
pub open spec fn answer(l: Seq<FlightView>, p: PacketView) -> PacketView {
    match p.request {
        PacketRequest::Ping => PacketView { response: PacketResponse::Okay, ..p },
        PacketRequest::GetFlights => PacketView {
            response: PacketResponse::Okay,
            payload: sealed(flights_wire(summaries(l))),
            ..p
        },
        PacketRequest::RequestTicket => match requested_flight(p) {
            None => PacketView { response: PacketResponse::ErrorInRequest, ..p },
            Some(num) => match issued(l, num) {
                Some(seat) => PacketView {
                    response: PacketResponse::Okay,
                    payload: sealed(encode_utf8(seat)),
                    ..p
                },
                None => PacketView { response: PacketResponse::TicketsSold, ..p },
            },
        },
    }
}

/// The ledger after the distributor has answered the packet `p`: only a
/// request for a ticket that names a flight can change it.
pub open spec fn ledger_after(l: Seq<FlightView>, p: PacketView) -> Seq<FlightView> {
    if p.request == PacketRequest::RequestTicket && requested_flight(p) is Some {
        after_reserve(l, requested_flight(p).unwrap())
    } else {
        l
    }
}

/// The distributor: the ledger of its flights.
pub struct Distributor {
    db_storage: Vec<FlightDB>,
}

impl View for Distributor {
    type V = Seq<FlightView>;

    closed spec fn view(&self) -> Seq<FlightView> {
        self.db_storage@.map_values(|f: FlightDB| f@)
    }
}

impl Distributor {
    /// The ledger is well formed, and so is each of its records.
    pub closed spec fn wf(&self) -> bool {
        &&& ledger_wf(self@)
        &&& forall|i: int| 0 <= i < self.db_storage@.len() ==> (#[trigger] self.db_storage@[i]).wf()
    }

    /// A distributor without flights.
    pub fn new() -> (distr: Distributor)
        ensures
            distr.wf(),
            distr@ == Seq::<FlightView>::empty(),
    {
        let distr = Distributor { db_storage: Vec::new() };
        distr
    }

    /// The records of the ledger, to look at.
    pub fn db_storage(&self) -> (records: &Vec<FlightDB>)
        requires
            self.wf(),
        ensures
            records@.len() == self@.len(),
            forall|i: int| 0 <= i < records@.len() ==> (#[trigger] records@[i])@ == self@[i],
            forall|i: int| 0 <= i < records@.len() ==> (#[trigger] records@[i]).wf(),
    {
        &self.db_storage
    }

    /// What passengers may know of the flights, in the order of their
    /// generation.
    pub fn list_flights(&self) -> (flights: Vec<FlightInfo>)
        requires
            self.wf(),
        ensures
            flights@ == summaries(self@),
    {
        let mut flights: Vec<FlightInfo> = Vec::new();
        let mut i: usize = 0;
        while i < self.db_storage.len()
            invariant
                self.wf(),
                i <= self.db_storage@.len(),
                flights@ == summaries(self@.take(i as int)),
            decreases self.db_storage@.len() - i,
        {
            let info = self.db_storage[i].info;
            flights.push(info);
            i += 1;
        }
        flights
    }

    /// Brings a new flight into the ledger and tells what passengers may
    /// know of it.
    ///
    /// The flight gets the number after the greatest there is (1 in an
    /// empty ledger) and all the seats of `rows` rows, where `rows` is
    /// first brought into the range from 1 to 42.
    pub fn gen_fake_flight(&mut self, rows: u8) -> (info: FlightInfo)
        requires
            old(self).wf(),
            old(self)@.len() < u32::MAX,
        ensures
            final(self).wf(),
            final(self)@ == generated(old(self)@, rows),
            info == summary(new_flight(old(self)@, rows)),
            info.num == old(self)@.len() + 1,
            info.seats_num == clamp_rows(rows) * 6,
    {
        proof {
            lemma_generated_wf(self@, rows);
            lemma_max_number(self@);
        }
        let mut num: u32 = 1;
        let mut max_num: u32 = 0;
        let mut i: usize = 0;
        while i < self.db_storage.len()
            invariant
                i <= self.db_storage@.len(),
                max_num == max_number(self@.take(i as int)),
            decreases self.db_storage@.len() - i,
        {
            let n = self.db_storage[i].info.num;
            assert(self@.take(i + 1).drop_last() =~= self@.take(i as int));
            if n > max_num {
                max_num = n;
            }
            i += 1;
        }
        assert(self@.take(self@.len() as int) =~= self@);
        num = num + max_num;

        let rows: u8 = if rows > MAX_ROWS {
            MAX_ROWS
        } else if rows == 0 {
            1
        } else {
            rows
        };

        let mut seats: Vec<String> = Vec::new();
        let mut row: u8 = 1;
        while row <= rows
            invariant
                1 <= row <= rows + 1,
                rows <= MAX_ROWS,
                seat_codes(seats@) == first_seats(((row - 1) * 6) as nat),
            decreases rows + 1 - row,
        {
            let mut letter: u8 = 0;
            while letter < SEATS_PER_ROW
                invariant
                    1 <= row <= rows <= MAX_ROWS,
                    letter <= SEATS_PER_ROW,
                    seat_codes(seats@) == first_seats(((row - 1) * 6 + letter) as nat),
                decreases SEATS_PER_ROW - letter,
            {
                let code = make_seat_code(letter, row);
                let ghost before = seats@;
                seats.push(code);
                assert(seat_codes(seats@) =~= seat_codes(before).push(code@));
                letter += 1;
            }
            row += 1;
        }
        let info = FlightInfo { num, seats_num: rows * 6 };
        let record = FlightDB { info, seats };
        self.db_storage.push(record);
        assert(self@ =~= generated(old(self)@, rows));
        info
    }

    /// Issues one seat of the flight with number `flight_num`: takes the
    /// last of its seats out of the ledger and hands it out. Where no
    /// flight bears the number, or the flight has no seat left, nothing is
    /// issued and the ledger stays as it is.
    pub fn reserve_seat(&mut self, flight_num: u32) -> (seat: Option<String>)
        requires
            old(self).wf(),
        ensures
            final(self).wf(),
            final(self)@ == after_reserve(old(self)@, flight_num),
            match seat {
                Some(code) => issued(old(self)@, flight_num) == Some(code@),
                None => issued(old(self)@, flight_num) is None,
            },
            seat is Some <==> 1 <= flight_num <= old(self)@.len() && old(self)@[flight_num
                - 1].seats.len() > 0,
            seat matches Some(code) ==> code@ == old(self)@[flight_num - 1].seats.last()
                && final(self)@ == old(self)@.update(
                flight_num - 1,
                FlightView {
                    num: flight_num,
                    seats: old(self)@[flight_num - 1].seats.drop_last(),
                },
            ),
            seat is None ==> final(self)@ == old(self)@,
            seat matches Some(code) ==> is_seat_code(code@),
    {
        proof {
            lemma_open_index(self@, flight_num);
            lemma_after_reserve_wf(self@, flight_num);
        }
        let mut i: usize = 0;
        while i < self.db_storage.len()
            invariant
                self.wf(),
                *self == *old(self),
                i <= self.db_storage@.len(),
                forall|j: int| 0 <= j < i ==> !is_open(#[trigger] self@[j], flight_num),
            decreases self.db_storage@.len() - i,
        {
            assert(self@[i as int] == self.db_storage@[i as int]@);
            if self.db_storage[i].info.num == flight_num && self.db_storage[i].info.seats_num > 0 {
                let flight = &mut self.db_storage[i];
                let ghost before = flight.seats@;
                let seat = flight.seats.pop();
                flight.info.seats_num = flight.info.seats_num - 1;
                proof {
                    assert(seat_codes(flight.seats@) =~= seat_codes(before).drop_last());
                    lemma_first_seats_drop_last(before.len());
                }
                assert(self@ =~= after_reserve(old(self)@, flight_num));
                proof {
                    let left = old(self)@[flight_num - 1].seats.len();
                    lemma_nth_seat_is_code(left - 1);
                }
                return seat;
            }
            i += 1;
        }
        None
    }

    /// Answers a packet that asks for no ticket; the ledger is only read.
    pub fn process_query(&self, packet: UdpPacket) -> (reply: UdpPacket)
        requires
            self.wf(),
            packet@.request != PacketRequest::RequestTicket,
        ensures
            reply@ == answer(self@, packet@),
    {
        match packet.request() {
            PacketRequest::GetFlights => {
                let flights = self.list_flights();
                let bytes = convert_to_bytes(&flights);
                packet.set_response(PacketResponse::Okay).set_data(bytes.as_slice())
            },
            _ => packet.set_response(PacketResponse::Okay),
        }
    }

    /// Answers a packet, whatever it asks for.
    pub fn process(&mut self, packet: UdpPacket) -> (reply: UdpPacket)
        requires
            old(self).wf(),
        ensures
            final(self).wf(),
            reply@ == answer(old(self)@, packet@),
            final(self)@ == ledger_after(old(self)@, packet@),
    {
        match packet.request() {
            PacketRequest::RequestTicket => {
                let flight_num = match packet.try_retrieve_data() {
                    Ok(bytes) => {
                        if bytes.len() == 4 {
                            number_from_bytes(bytes.as_slice())
                        } else {
                            return packet.set_response(PacketResponse::ErrorInRequest);
                        }
                    },
                    Err(_) => {
                        return packet.set_response(PacketResponse::ErrorInRequest);
                    },
                };
                match self.reserve_seat(flight_num) {
                    Some(ticket) => {
                        let bytes = ticket.as_str().as_bytes();
                        packet.set_response(PacketResponse::Okay).set_data(bytes)
                    },
                    None => packet.set_response(PacketResponse::TicketsSold),
                }
            },
            _ => self.process_query(packet),
        }
    }
}

} // verus!
