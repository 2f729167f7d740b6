//! The packet: the one record that travels between the peers, and its
//! binary form.

use vstd::prelude::*;
use crate::checksum::crc16_ibm_sdlc;
use crate::packet_data::{
    lemma_payload_unique, payload_fits, payload_view, payload_wire, read_payload, write_payload,
    IntegrityError, PacketData,
};
use crate::wire::{
    expect_text, has_at, head, lemma_has_at_concat, lemma_has_at_whole, lemma_head_unique,
    read_head, text, write_head, write_text, MAJOR_MAP, MAJOR_UINT,
};

verus! {

/// The tag that every packet of this protocol carries.
pub const SECRET: u8 = 51;

/// What a passenger asks for.
#[derive(Debug, PartialEq, Eq, Clone, Copy, Structural)]
pub enum PacketRequest {
    /// Is anybody there?
    Ping,
    /// The list of flights.
    GetFlights,
    /// One ticket for a flight.
    RequestTicket,
}

/// What the distributor answers.
#[derive(Debug, PartialEq, Eq, Clone, Copy, Structural)]
pub enum PacketResponse {
    /// No answer: a packet with this response is never sent back.
    NoReply,
    /// The request was served.
    Okay,
    /// The request could not be understood.
    ErrorInRequest,
    /// No ticket is left.
    TicketsSold,
}

impl PacketRequest {
    /// The number that stands for the request on the wire.
    pub open spec fn wire_code(self) -> u8 {
        match self {
            PacketRequest::Ping => 1,
            PacketRequest::GetFlights => 2,
            PacketRequest::RequestTicket => 3,
        }
    }

    /// The number that stands for the request on the wire.
    pub fn code(&self) -> (code: u8)
        ensures
            code == self.wire_code(),
    {
        match self {
            PacketRequest::Ping => 1,
            PacketRequest::GetFlights => 2,
            PacketRequest::RequestTicket => 3,
        }
    }

    /// The request that `code` stands for, if it stands for one.
    pub fn from_code(code: u64) -> (res: Option<PacketRequest>)
        ensures
            res matches Some(request) ==> request.wire_code() == code,
            res is None ==> forall|request: PacketRequest| request.wire_code() != code,
    {
        if code == 1 {
            Some(PacketRequest::Ping)
        } else if code == 2 {
            Some(PacketRequest::GetFlights)
        } else if code == 3 {
            Some(PacketRequest::RequestTicket)
        } else {
            None
        }
    }
}

impl PacketResponse {
    /// The number that stands for the response on the wire.
    pub open spec fn wire_code(self) -> u8 {
        match self {
            PacketResponse::NoReply => 0,
            PacketResponse::Okay => 1,
            PacketResponse::ErrorInRequest => 2,
            PacketResponse::TicketsSold => 3,
        }
    }

    /// The number that stands for the response on the wire.
    pub fn code(&self) -> (code: u8)
        ensures
            code == self.wire_code(),
    {
        match self {
            PacketResponse::NoReply => 0,
            PacketResponse::Okay => 1,
            PacketResponse::ErrorInRequest => 2,
            PacketResponse::TicketsSold => 3,
        }
    }

    /// The response that `code` stands for, if it stands for one.
    pub fn from_code(code: u64) -> (res: Option<PacketResponse>)
        ensures
            res matches Some(response) ==> response.wire_code() == code,
            res is None ==> forall|response: PacketResponse| response.wire_code() != code,
    {
        if code == 0 {
            Some(PacketResponse::NoReply)
        } else if code == 1 {
            Some(PacketResponse::Okay)
        } else if code == 2 {
            Some(PacketResponse::ErrorInRequest)
        } else if code == 3 {
            Some(PacketResponse::TicketsSold)
        } else {
            None
        }
    }
}

/// The model of a packet.
pub struct PacketView {
    /// The tag.
    pub secret: u8,
    /// What was asked for.
    pub request: PacketRequest,
    /// What was answered.
    pub response: PacketResponse,
    /// The stored integrity code and the stored bytes, if the packet
    /// carries data.
    pub payload: Option<(u16, Seq<u8>)>,
}

impl PacketView {
    /// The payload is short enough for its length to be written down.
    pub open spec fn fits(self) -> bool {
        payload_fits(self.payload)
    }

    /// What retrieving the payload yields: the tag is checked first, then
    /// the presence of a payload, then its integrity code.
    pub open spec fn retrieval(self) -> Result<Seq<u8>, IntegrityError> {
        if self.secret != SECRET {
            Err(IntegrityError::FormatMismatch)
        } else {
            match self.payload {
                None => Err(IntegrityError::MissingData),
                Some((crc, bytes)) => if crc == crc16_ibm_sdlc(bytes) {
                    Ok(bytes)
                } else {
                    Err(IntegrityError::CorruptData)
                },
            }
        }
    }
}

/// The binary form of a packet: a map of the tag under "secret", the codes
/// of request and response under "request" and "response", and the payload
/// under "data".
pub open spec fn packet_wire(v: PacketView) -> Seq<u8> {
    head(MAJOR_MAP, 4) + text("secret") + head(MAJOR_UINT, v.secret as u64) + text("request")
        + head(MAJOR_UINT, v.request.wire_code() as u64) + text("response") + head(
        MAJOR_UINT,
        v.response.wire_code() as u64,
    ) + text("data") + payload_wire(v.payload)
}

/// The packet that `bytes` are the binary form of, if they are the binary
/// form of one.
pub open spec fn packet_decoding(bytes: Seq<u8>) -> Option<PacketView> {
    if exists|v: PacketView| v.fits() && packet_wire(v) == bytes {
        Some(choose|v: PacketView| v.fits() && packet_wire(v) == bytes)
    } else {
        None
    }
}

/// Where the parts of the binary form of a packet stand.
pub proof fn lemma_packet_layout(s: Seq<u8>, v: PacketView)
    ensures
        ({
            let at_secret_key = head(MAJOR_MAP, 4).len() as int;
            let at_secret = at_secret_key + text("secret").len();
            let at_request_key = at_secret + head(MAJOR_UINT, v.secret as u64).len();
            let at_request = at_request_key + text("request").len();
            let at_response_key = at_request + head(
                MAJOR_UINT,
                v.request.wire_code() as u64,
            ).len();
            let at_response = at_response_key + text("response").len();
            let at_data_key = at_response + head(MAJOR_UINT, v.response.wire_code() as u64).len();
            let at_payload = at_data_key + text("data").len();
            s == packet_wire(v) <==> {
                &&& has_at(s, 0, head(MAJOR_MAP, 4))
                &&& has_at(s, at_secret_key, text("secret"))
                &&& has_at(s, at_secret, head(MAJOR_UINT, v.secret as u64))
                &&& has_at(s, at_request_key, text("request"))
                &&& has_at(s, at_request, head(MAJOR_UINT, v.request.wire_code() as u64))
                &&& has_at(s, at_response_key, text("response"))
                &&& has_at(s, at_response, head(MAJOR_UINT, v.response.wire_code() as u64))
                &&& has_at(s, at_data_key, text("data"))
                &&& has_at(s, at_payload, payload_wire(v.payload))
                &&& s.len() == at_payload + payload_wire(v.payload).len()
            }
        }),
{
    let w1 = head(MAJOR_MAP, 4);
    let w2 = w1 + text("secret");
    let w3 = w2 + head(MAJOR_UINT, v.secret as u64);
    let w4 = w3 + text("request");
    let w5 = w4 + head(MAJOR_UINT, v.request.wire_code() as u64);
    let w6 = w5 + text("response");
    let w7 = w6 + head(MAJOR_UINT, v.response.wire_code() as u64);
    let w8 = w7 + text("data");
    lemma_has_at_whole(s, packet_wire(v));
    lemma_has_at_concat(s, 0, w1, text("secret"));
    lemma_has_at_concat(s, 0, w2, head(MAJOR_UINT, v.secret as u64));
    lemma_has_at_concat(s, 0, w3, text("request"));
    lemma_has_at_concat(s, 0, w4, head(MAJOR_UINT, v.request.wire_code() as u64));
    lemma_has_at_concat(s, 0, w5, text("response"));
    lemma_has_at_concat(s, 0, w6, head(MAJOR_UINT, v.response.wire_code() as u64));
    lemma_has_at_concat(s, 0, w7, text("data"));
    lemma_has_at_concat(s, 0, w8, payload_wire(v.payload));
}

/// Two packets with the same binary form are the same packet.
pub proof fn lemma_packet_wire_injective(a: PacketView, b: PacketView)
    requires
        a.fits(),
        b.fits(),
        packet_wire(a) == packet_wire(b),
    ensures
        a == b,
{
    let s = packet_wire(a);
    lemma_packet_layout(s, a);
    lemma_packet_layout(s, b);
    let at_secret: int = head(MAJOR_MAP, 4).len() as int + text("secret").len();
    lemma_head_unique(s, at_secret, MAJOR_UINT, a.secret as u64, b.secret as u64);
    let at_request: int = at_secret + head(MAJOR_UINT, a.secret as u64).len() + text(
        "request",
    ).len();
    lemma_head_unique(
        s,
        at_request,
        MAJOR_UINT,
        a.request.wire_code() as u64,
        b.request.wire_code() as u64,
    );
    let at_response: int = at_request + head(MAJOR_UINT, a.request.wire_code() as u64).len() + text(
        "response",
    ).len();
    lemma_head_unique(
        s,
        at_response,
        MAJOR_UINT,
        a.response.wire_code() as u64,
        b.response.wire_code() as u64,
    );
    let at_payload: int = at_response + head(MAJOR_UINT, a.response.wire_code() as u64).len()
        + text("data").len();
    lemma_payload_unique(s, at_payload, a.payload, b.payload);
}

/// Decoding undoes encoding: the binary form of a packet is the binary form
/// of that packet and of no other, so it decodes to the same tag, request,
/// response and payload.
pub proof fn lemma_decoding_undoes_encoding(v: PacketView)
    requires
        v.fits(),
    ensures
        packet_decoding(packet_wire(v)) == Some(v),
{
    let found = choose|w: PacketView| w.fits() && packet_wire(w) == packet_wire(v);
    lemma_packet_wire_injective(found, v);
}

/// Encoding undoes decoding: bytes that decode to a packet are its binary
/// form.
pub proof fn lemma_encoding_undoes_decoding(bytes: Seq<u8>)
    ensures
        packet_decoding(bytes) matches Some(v) ==> v.fits() && packet_wire(v) == bytes,
{
}

/// Altered data does not pass: where the stored bytes are no longer those
/// that the integrity code was computed over, and their checksum differs,
/// retrieval reports corrupt data.
pub proof fn lemma_corruption_is_reported(v: PacketView, altered: Seq<u8>)
    requires
        v.secret == SECRET,
        v.payload matches Some((crc, bytes)) && crc == crc16_ibm_sdlc(bytes) && crc16_ibm_sdlc(
            altered,
        ) != crc,
    ensures
        (PacketView { payload: Some((v.payload.unwrap().0, altered)), ..v }).retrieval() == Err::<
            Seq<u8>,
            IntegrityError,
        >(IntegrityError::CorruptData),
{
}

/// What retrieval hands out is what the packet stores, under the integrity
/// code that is its checksum.
pub proof fn lemma_retrieved_is_intact(v: PacketView)
    ensures
        v.retrieval() matches Ok(bytes) ==> v.secret == SECRET && v.payload == Some(
            (crc16_ibm_sdlc(bytes), bytes),
        ),
{
}

/// One packet: a request, the response to it, and optional data sealed with
/// an integrity code.
pub struct UdpPacket {
    secret: u8,
    request: PacketRequest,
    response: PacketResponse,
    data: Option<PacketData>,
}

impl View for UdpPacket {
    type V = PacketView;

    closed spec fn view(&self) -> PacketView {
        PacketView {
            secret: self.secret,
            request: self.request,
            response: self.response,
            payload: payload_view(self.data),
        }
    }
}

impl UdpPacket {
    /// A packet that carries `request`, the tag of the protocol, no answer
    /// yet and no data.
    pub fn new_with_request(request: PacketRequest) -> (packet: UdpPacket)
        ensures
            packet@ == (PacketView {
                secret: SECRET,
                request,
                response: PacketResponse::NoReply,
                payload: None,
            }),
    {
        UdpPacket { secret: SECRET, request, response: PacketResponse::NoReply, data: None }
    }

    /// The packet with `payload` as its payload, under the integrity code
    /// that `payload` brings.
    pub fn set_payload(self, payload: PacketData) -> (packet: UdpPacket)
        ensures
            packet@ == (PacketView { payload: Some(payload@), ..self@ }),
    {
        let mut packet = self;
        packet.data = Some(payload);
        packet
    }

    /// The packet with a copy of `data` as its payload, sealed with the
    /// checksum of `data`.
    pub fn set_data(self, data: &[u8]) -> (packet: UdpPacket)
        ensures
            packet@ == (PacketView { payload: Some((crc16_ibm_sdlc(data@), data@)), ..self@ }),
    {
        self.set_payload(PacketData::new_with_data(data))
    }

    /// The payload as it is stored, if the packet carries the tag of the
    /// protocol and a payload; else the first of the two that fails.
    /// Whether the integrity code is the checksum of the bytes is not asked
    /// here.
    pub fn stored_payload(&self) -> (res: Result<&PacketData, IntegrityError>)
        ensures
            match res {
                Ok(payload) => self@.secret == SECRET && self@.payload == Some(payload@),
                Err(IntegrityError::FormatMismatch) => self@.secret != SECRET,
                Err(IntegrityError::MissingData) => self@.secret == SECRET && self@.payload
                    is None,
                Err(IntegrityError::CorruptData) => false,
            },
    {
        if self.secret != SECRET {
            return Err(IntegrityError::FormatMismatch);
        }
        match &self.data {
            None => Err(IntegrityError::MissingData),
            Some(data) => Ok(data),
        }
    }

    /// A copy of the payload, if the packet carries the tag of the protocol
    /// and a payload whose integrity code is the checksum of its bytes;
    /// else the first of these three that fails.
    pub fn try_retrieve_data(&self) -> (res: Result<Vec<u8>, IntegrityError>)
        ensures
            match res {
                Ok(bytes) => self@.retrieval() == Ok::<Seq<u8>, IntegrityError>(bytes@),
                Err(e) => self@.retrieval() == Err::<Seq<u8>, IntegrityError>(e),
            },
    {
        match self.stored_payload() {
            Err(e) => Err(e),
            Ok(payload) => match payload.try_retrieve_data() {
                Ok(bytes) => Ok(bytes.clone()),
                Err(e) => Err(e),
            },
        }
    }

    /// The packet with `response` as its answer.
    pub fn set_response(self, response: PacketResponse) -> (packet: UdpPacket)
        ensures
            packet@ == (PacketView { response, ..self@ }),
    {
        let mut packet = self;
        packet.response = response;
        packet
    }

    /// The answer that the packet carries.
    pub fn response(&self) -> (response: PacketResponse)
        ensures
            response == self@.response,
    {
        self.response
    }

    /// The request that the packet carries.
    pub fn request(&self) -> (request: PacketRequest)
        ensures
            request == self@.request,
    {
        self.request
    }

    /// The binary form of the packet.
    pub fn to_bytes(&self) -> (bytes: Vec<u8>)
        ensures
            bytes@ == packet_wire(self@),
            packet_decoding(bytes@) == Some(self@),
    {
        let mut out: Vec<u8> = Vec::new();
        write_head(&mut out, MAJOR_MAP, 4);
        write_text(&mut out, "secret");
        write_head(&mut out, MAJOR_UINT, self.secret as u64);
        write_text(&mut out, "request");
        write_head(&mut out, MAJOR_UINT, self.request.code() as u64);
        write_text(&mut out, "response");
        write_head(&mut out, MAJOR_UINT, self.response.code() as u64);
        write_text(&mut out, "data");
        write_payload(&mut out, &self.data);
        proof {
            self.lemma_fits();
            lemma_decoding_undoes_encoding(self@);
        }
        out
    }

    /// The packet that `bytes` are the binary form of; `None` exactly where
    /// they are the binary form of no packet.
    pub fn from_bytes(bytes: &[u8]) -> (res: Option<UdpPacket>)
        ensures
            res matches Some(packet) ==> packet_decoding(bytes@) == Some(packet@),
            res is None ==> packet_decoding(bytes@) is None,
    {
        let res = Self::parse(bytes);
        proof {
            if res is Some {
                let found = res.unwrap()@;
                res.unwrap().lemma_fits();
                let chosen = choose|w: PacketView| w.fits() && packet_wire(w) == bytes@;
                lemma_packet_wire_injective(found, chosen);
            }
        }
        res
    }

    /// The payload of a packet in memory always fits.
    proof fn lemma_fits(&self)
        ensures
            self@.fits(),
    {
        if let Some(d) = self.data {
            assert(d.data@.len() == d.data.len());
        }
    }

    /// Reads the binary form of a packet; fails only where `bytes` are the
    /// binary form of none.
    fn parse(bytes: &[u8]) -> (res: Option<UdpPacket>)
        ensures
            res matches Some(packet) ==> packet_wire(packet@) == bytes@,
            res is None ==> forall|v: PacketView| v.fits() ==> #[trigger] packet_wire(v) != bytes@,
    {
        proof {
            assert forall|v: PacketView| #[trigger] packet_wire(v) == bytes@ implies {
                let at_secret_key = head(MAJOR_MAP, 4).len() as int;
                let at_secret = at_secret_key + text("secret").len();
                let at_request_key = at_secret + head(MAJOR_UINT, v.secret as u64).len();
                let at_request = at_request_key + text("request").len();
                let at_response_key = at_request + head(
                    MAJOR_UINT,
                    v.request.wire_code() as u64,
                ).len();
                let at_response = at_response_key + text("response").len();
                let at_data_key = at_response + head(
                    MAJOR_UINT,
                    v.response.wire_code() as u64,
                ).len();
                let at_payload = at_data_key + text("data").len();
                &&& has_at(bytes@, 0, head(MAJOR_MAP, 4))
                &&& has_at(bytes@, at_secret_key, text("secret"))
                &&& has_at(bytes@, at_secret, head(MAJOR_UINT, v.secret as u64))
                &&& has_at(bytes@, at_request_key, text("request"))
                &&& has_at(bytes@, at_request, head(MAJOR_UINT, v.request.wire_code() as u64))
                &&& has_at(bytes@, at_response_key, text("response"))
                &&& has_at(bytes@, at_response, head(MAJOR_UINT, v.response.wire_code() as u64))
                &&& has_at(bytes@, at_data_key, text("data"))
                &&& has_at(bytes@, at_payload, payload_wire(v.payload))
                &&& bytes@.len() == at_payload + payload_wire(v.payload).len()
            } by {
                lemma_packet_layout(bytes@, v);
            }
        }
        let at_secret_key = match read_head(bytes, 0, MAJOR_MAP) {
            Some((4, next)) => next,
            _ => {
                return None;
            },
        };
        let at_secret = match expect_text(bytes, at_secret_key, "secret") {
            Some(next) => next,
            None => {
                return None;
            },
        };
        let (secret, at_request_key) = match read_head(bytes, at_secret, MAJOR_UINT) {
            Some((value, next)) if value <= 0xff => (value as u8, next),
            _ => {
                return None;
            },
        };
        let at_request = match expect_text(bytes, at_request_key, "request") {
            Some(next) => next,
            None => {
                return None;
            },
        };
        let (request_code, at_response_key) = match read_head(bytes, at_request, MAJOR_UINT) {
            Some(found) => found,
            None => {
                return None;
            },
        };
        let request = match PacketRequest::from_code(request_code) {
            Some(request) => request,
            None => {
                return None;
            },
        };
        let at_response = match expect_text(bytes, at_response_key, "response") {
            Some(next) => next,
            None => {
                return None;
            },
        };
        let (response_code, at_data_key) = match read_head(bytes, at_response, MAJOR_UINT) {
            Some(found) => found,
            None => {
                return None;
            },
        };
        let response = match PacketResponse::from_code(response_code) {
            Some(response) => response,
            None => {
                return None;
            },
        };
        let at_payload = match expect_text(bytes, at_data_key, "data") {
            Some(next) => next,
            None => {
                return None;
            },
        };
        let (data, end) = match read_payload(bytes, at_payload) {
            Some(found) => found,
            None => {
                return None;
            },
        };
        if end != bytes.len() {
            return None;
        }
        let packet = UdpPacket { secret, request, response, data };
        proof {
            lemma_packet_layout(bytes@, packet@);
        }
        Some(packet)
    }
}

} // verus!
