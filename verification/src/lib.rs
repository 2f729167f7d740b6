//! Ticket distribution over an unreliable datagram transport: the packet
//! codec, the reservation ledger of the distributor and the session logic of
//! both peers, each with a machine-checked contract.

pub mod checksum;
pub mod wire;
pub mod packet_data;
pub mod packet;
pub mod flight;
pub mod seat;
pub mod ledger;
pub mod distr;
pub mod address;
pub mod client;
pub mod server;
pub mod pass;
pub mod menu;
pub mod command;

pub use address::AddressSelection;
pub use client::{ClientSide, ConnectError, TransportError};
pub use distr::{Distributor, FlightDB};
pub use flight::{convert_to_bytes, convert_to_flightinfo, FlightInfo};
pub use menu::{build_menu, CLMenu, CLMenuPage, CLPageOption};
pub use packet::{PacketRequest, PacketResponse, UdpPacket};
pub use packet_data::{IntegrityError, PacketData};
pub use pass::{FlightTicket, Passenger, PassengerError};
pub use server::ServerSide;
