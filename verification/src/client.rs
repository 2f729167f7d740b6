//! The passenger's end of the transport: one session with one distributor.
//!
//! The session decides; the socket is somebody else's. Connecting is a
//! handshake of one ping and one reply, awaited for a bounded time. Once
//! connected, every exchange is one datagram out and one datagram in.

use vstd::prelude::*;
use crate::distr::answer;
use crate::ledger::FlightView;
use crate::packet::{
    lemma_decoding_undoes_encoding, packet_decoding, packet_wire, PacketRequest, PacketResponse,
    PacketView, UdpPacket, SECRET,
};
use crate::server::reply_of;

verus! {

/// How many seconds the reply to the ping of a handshake is awaited.
pub const PING_TIMEOUT_SECS: u64 = 1;

/// The size of the buffer that a datagram is received into.
pub const RECV_BUFFER_LEN: usize = 1024;

/// Why a handshake failed.
#[derive(Debug, Clone, Copy, PartialEq, Eq, Structural)]
pub enum ConnectError {
    /// No reply came in time.
    Timeout,
    /// A reply came, but not the one that a distributor gives to a ping.
    RefusedOrWrongResponse,
}

/// Why an exchange failed without the socket being at fault.
#[derive(Debug, Clone, Copy, PartialEq, Eq, Structural)]
pub enum TransportError {
    /// No handshake has succeeded.
    NotConnected,
    /// The datagram that came back is the binary form of no packet.
    MalformedReply,
}

/// The packet that opens a handshake.
pub open spec fn ping_view() -> PacketView {
    PacketView {
        secret: SECRET,
        request: PacketRequest::Ping,
        response: PacketResponse::NoReply,
        payload: None,
    }
}

/// What a handshake comes to: `reply` is the datagram that came back, or
/// `None` where none came in time.
pub open spec fn handshake_outcome(reply: Option<Seq<u8>>) -> Result<(), ConnectError> {
    match reply {
        None => Err(ConnectError::Timeout),
        Some(bytes) => match packet_decoding(bytes) {
            Some(packet) => if packet.response == PacketResponse::Okay {
                Ok(())
            } else {
                Err(ConnectError::RefusedOrWrongResponse)
            },
            None => Err(ConnectError::RefusedOrWrongResponse),
        },
    }
}

/// A handshake goes as the server answers the ping: where the server sends
/// nothing, because what it made of the ping has the response `NoReply`,
/// the handshake times out; where it sends `Okay`, the handshake
/// succeeds; any other answer refuses it.
pub proof fn lemma_handshake_follows_the_answer(handled: PacketView)
    requires
        handled.fits(),
    ensures
        handshake_outcome(reply_of(handled)) == match handled.response {
            PacketResponse::NoReply => Err::<(), ConnectError>(ConnectError::Timeout),
            PacketResponse::Okay => Ok::<(), ConnectError>(()),
            _ => Err::<(), ConnectError>(ConnectError::RefusedOrWrongResponse),
        },
{
    lemma_decoding_undoes_encoding(handled);
}

/// A handshake with a distributor succeeds, whatever its ledger holds.
pub proof fn lemma_distributor_accepts_handshake(l: Seq<FlightView>)
    ensures
        handshake_outcome(reply_of(answer(l, ping_view()))) == Ok::<(), ConnectError>(()),
{
    lemma_handshake_follows_the_answer(answer(l, ping_view()));
}

/// One session of a passenger.
pub struct ClientSide {
    is_connected: bool,
}

impl ClientSide {
    /// The last handshake has succeeded.
    pub closed spec fn connected(&self) -> bool {
        self.is_connected
    }

    /// A session that is not connected.
    pub fn new() -> (client: ClientSide)
        ensures
            !client.connected(),
    {
        ClientSide { is_connected: false }
    }

    /// Tells whether the session is connected: whether the distributor has
    /// answered the ping of the last handshake with `Okay`.
    pub fn connection_status(&self) -> (status: bool)
        ensures
            status == self.connected(),
    {
        self.is_connected
    }

    /// Opens a handshake: the datagram to send is a ping. Until the
    /// handshake is closed with success the session is not connected.
    pub fn begin_connect(&mut self) -> (datagram: Vec<u8>)
        ensures
            !final(self).connected(),
            datagram@ == packet_wire(ping_view()),
    {
        self.is_connected = false;
        UdpPacket::new_with_request(PacketRequest::Ping).to_bytes()
    }

    /// Closes a handshake. `reply` is the datagram that came back, or
    /// `None` where none came in time. The session is connected afterwards
    /// exactly where the handshake succeeded.
    pub fn finish_connect(&mut self, reply: Option<&[u8]>) -> (res: Result<(), ConnectError>)
        ensures
            res == handshake_outcome(
                match reply {
                    Some(bytes) => Some(bytes@),
                    None => None,
                },
            ),
            final(self).connected() == res is Ok,
    {
        let res = match reply {
            None => Err(ConnectError::Timeout),
            Some(bytes) => match UdpPacket::from_bytes(bytes) {
                Some(packet) => {
                    if packet.response() == PacketResponse::Okay {
                        Ok(())
                    } else {
                        Err(ConnectError::RefusedOrWrongResponse)
                    }
                },
                None => Err(ConnectError::RefusedOrWrongResponse),
            },
        };
        self.is_connected = res.is_ok();
        res
    }

    /// Gives the session up: it is not connected afterwards.
    pub fn disconnect(&mut self)
        ensures
            !final(self).connected(),
    {
        self.is_connected = false;
    }

    /// The datagram to send for `packet`; none where the session is not
    /// connected.
    pub fn outgoing(&self, packet: &UdpPacket) -> (res: Result<Vec<u8>, TransportError>)
        ensures
            self.connected() ==> res is Ok && res.unwrap()@ == packet_wire(packet@),
            !self.connected() ==> res == Err::<Vec<u8>, TransportError>(
                TransportError::NotConnected,
            ),
    {
        if !self.is_connected {
            return Err(TransportError::NotConnected);
        }
        Ok(packet.to_bytes())
    }

    /// The packet that came back in `datagram`.
    pub fn incoming(datagram: &[u8]) -> (res: Result<UdpPacket, TransportError>)
        ensures
            match res {
                Ok(packet) => packet_decoding(datagram@) == Some(packet@),
                Err(e) => e == TransportError::MalformedReply && packet_decoding(datagram@) is None,
            },
    {
        match UdpPacket::from_bytes(datagram) {
            Some(packet) => Ok(packet),
            None => Err(TransportError::MalformedReply),
        }
    }
}

} // verus!
