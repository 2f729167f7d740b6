//! The distributor's end of the transport: what becomes of each datagram
//! that comes in, and whether the receive loop runs.

use vstd::prelude::*;
use crate::packet::{packet_decoding, packet_wire, PacketResponse, PacketView, UdpPacket};

verus! {

/// The datagram that answers with the packet `v`: its binary form, and
/// none at all where its response is `NoReply`.
pub open spec fn reply_of(v: PacketView) -> Option<Seq<u8>> {
    if v.response == PacketResponse::NoReply {
        None
    } else {
        Some(packet_wire(v))
    }
}

/// The bytes of an optional datagram.
pub open spec fn datagram_view(d: Option<Vec<u8>>) -> Option<Seq<u8>> {
    match d {
        Some(bytes) => Some(bytes@),
        None => None,
    }
}

/// The server of a distributor.
pub struct ServerSide {
    is_running: bool,
}

impl ServerSide {
    /// A receive loop is meant to run.
    pub closed spec fn running(&self) -> bool {
        self.is_running
    }

    /// A server whose receive loop does not run.
    pub fn new() -> (server: ServerSide)
        ensures
            !server.running(),
    {
        ServerSide { is_running: false }
    }

    /// Tells whether the receive loop is meant to run.
    pub fn is_running(&self) -> (status: bool)
        ensures
            status == self.running(),
    {
        self.is_running
    }

    /// Starts a receive loop. Tells whether a loop that was started before
    /// has to be cancelled first, so that at most one runs.
    pub fn start(&mut self) -> (cancel_previous: bool)
        ensures
            final(self).running(),
            cancel_previous == old(self).running(),
    {
        let cancel_previous = self.stop();
        self.is_running = true;
        cancel_previous
    }

    /// Stops the receive loop. Tells whether there is a loop to cancel;
    /// there is none where the server was stopped already.
    pub fn stop(&mut self) -> (cancel: bool)
        ensures
            !final(self).running(),
            cancel == old(self).running(),
    {
        let cancel = self.is_running;
        self.is_running = false;
        cancel
    }

    /// What a server does with a packet where nobody has told it what to
    /// do: it answers `Okay`.
    pub fn default_processing(packet: UdpPacket) -> (reply: UdpPacket)
        ensures
            reply@ == (PacketView { response: PacketResponse::Okay, ..packet@ }),
    {
        packet.set_response(PacketResponse::Okay)
    }

    /// The datagram to send back for a packet that was handled. This is
    /// the one place where answers leave: a packet whose response is
    /// `NoReply` gets no datagram.
    pub fn reply_datagram(handled: &UdpPacket) -> (datagram: Option<Vec<u8>>)
        ensures
            datagram_view(datagram) == reply_of(handled@),
    {
        if handled.response() == PacketResponse::NoReply {
            None
        } else {
            Some(handled.to_bytes())
        }
    }

    /// What becomes of one datagram: it is decoded, handed to
    /// `processing_fn`, and the datagram for what that returns is given
    /// back. A datagram that is the binary form of no packet is passed
    /// over without a word.
    pub fn process_recieved_packet<F: Fn(UdpPacket) -> UdpPacket>(
        data: &[u8],
        processing_fn: &F,
    ) -> (datagram: Option<Vec<u8>>)
        requires
            forall|packet: UdpPacket| processing_fn.requires((packet,)),
        ensures
            packet_decoding(data@) is None ==> datagram is None,
            packet_decoding(data@) is Some ==> exists|packet: UdpPacket, handled: UdpPacket|
                packet_decoding(data@) == Some(packet@) && processing_fn.ensures(
                    (packet,),
                    handled,
                ) && datagram_view(datagram) == reply_of(handled@),
    {
        match UdpPacket::from_bytes(data) {
            None => None,
            Some(packet) => {
                let handled = processing_fn(packet);
                Self::reply_datagram(&handled)
            },
        }
    }
}

} // verus!
