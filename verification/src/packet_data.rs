//! A payload together with its integrity code, and its place on the wire.

use vstd::prelude::*;
use crate::checksum::{crc16_ibm_sdlc, make_crc};
use crate::wire::{
    byte_items, expect_text, has_at, head, lemma_byte_items_agree, lemma_has_at_concat,
    lemma_has_at_whole, lemma_head_parts, lemma_head_unique, read_byte_items, read_head, text,
    write_byte_items, write_head, write_text, MAJOR_ARRAY, MAJOR_MAP, MAJOR_UINT, NULL_ITEM,
};

verus! {

/// Why a payload could not be handed out.
#[derive(Debug, Clone, Copy, PartialEq, Eq, Structural)]
pub enum IntegrityError {
    /// The packet does not carry the tag of this protocol.
    FormatMismatch,
    /// The packet carries no payload.
    MissingData,
    /// The stored integrity code is not the checksum of the stored bytes.
    CorruptData,
}

impl IntegrityError {
    /// The text that names the error.
    pub open spec fn message_text(self) -> Seq<char> {
        match self {
            IntegrityError::FormatMismatch => "Secret is invalid!"@,
            IntegrityError::MissingData => "Data is None!"@,
            IntegrityError::CorruptData => "Crc error!"@,
        }
    }

    /// The text that names the error.
    pub fn message(&self) -> (text: String)
        ensures
            text@ == self.message_text(),
    {
        match self {
            IntegrityError::FormatMismatch => "Secret is invalid!".to_owned(),
            IntegrityError::MissingData => "Data is None!".to_owned(),
            IntegrityError::CorruptData => "Crc error!".to_owned(),
        }
    }
}

/// Bytes and the integrity code that was stored with them.
pub struct PacketData {
    /// The integrity code.
    pub crc: u16,
    /// The bytes.
    pub data: Vec<u8>,
}

impl View for PacketData {
    type V = (u16, Seq<u8>);

    open spec fn view(&self) -> (u16, Seq<u8>) {
        (self.crc, self.data@)
    }
}

/// The model of an optional payload: the stored code and the stored bytes.
pub open spec fn payload_view(data: Option<PacketData>) -> Option<(u16, Seq<u8>)> {
    match data {
        Some(d) => Some(d@),
        None => None,
    }
}

/// The payload is short enough for its length to be written down.
pub open spec fn payload_fits(payload: Option<(u16, Seq<u8>)>) -> bool {
    payload matches Some((_, bytes)) ==> bytes.len() <= u64::MAX
}

/// What stands on the wire for an optional payload: the null item, or a map
/// of the code under "crc" and the array of the bytes under "data".
pub open spec fn payload_wire(payload: Option<(u16, Seq<u8>)>) -> Seq<u8> {
    match payload {
        None => seq![NULL_ITEM],
        Some((crc, bytes)) => head(MAJOR_MAP, 2) + text("crc") + head(MAJOR_UINT, crc as u64)
            + text("data") + head(MAJOR_ARRAY, bytes.len() as u64) + byte_items(bytes),
    }
}

/// Where the parts of a present payload stand.
pub proof fn lemma_payload_layout(s: Seq<u8>, pos: int, crc: u16, bytes: Seq<u8>)
    ensures
        ({
            let at_key = pos + head(MAJOR_MAP, 2).len();
            let at_crc = at_key + text("crc").len();
            let at_data_key = at_crc + head(MAJOR_UINT, crc as u64).len();
            let at_count = at_data_key + text("data").len();
            let at_items = at_count + head(MAJOR_ARRAY, bytes.len() as u64).len();
            &&& payload_wire(Some((crc, bytes))).len() == at_items + byte_items(bytes).len() - pos
            &&& has_at(s, pos, payload_wire(Some((crc, bytes)))) <==> {
                &&& has_at(s, pos, head(MAJOR_MAP, 2))
                &&& has_at(s, at_key, text("crc"))
                &&& has_at(s, at_crc, head(MAJOR_UINT, crc as u64))
                &&& has_at(s, at_data_key, text("data"))
                &&& has_at(s, at_count, head(MAJOR_ARRAY, bytes.len() as u64))
                &&& has_at(s, at_items, byte_items(bytes))
            }
        }),
{
    let w1 = head(MAJOR_MAP, 2);
    let w2 = w1 + text("crc");
    let w3 = w2 + head(MAJOR_UINT, crc as u64);
    let w4 = w3 + text("data");
    let w5 = w4 + head(MAJOR_ARRAY, bytes.len() as u64);
    lemma_has_at_concat(s, pos, w1, text("crc"));
    lemma_has_at_concat(s, pos, w2, head(MAJOR_UINT, crc as u64));
    lemma_has_at_concat(s, pos, w3, text("data"));
    lemma_has_at_concat(s, pos, w4, head(MAJOR_ARRAY, bytes.len() as u64));
    lemma_has_at_concat(s, pos, w5, byte_items(bytes));
}

/// At one place at most one payload can stand.
pub proof fn lemma_payload_unique(
    s: Seq<u8>,
    pos: int,
    a: Option<(u16, Seq<u8>)>,
    b: Option<(u16, Seq<u8>)>,
)
    requires
        payload_fits(a),
        payload_fits(b),
        has_at(s, pos, payload_wire(a)),
        has_at(s, pos, payload_wire(b)),
    ensures
        a == b,
{
    lemma_head_parts(MAJOR_MAP, 2);
    match (a, b) {
        (Some((crc_a, bytes_a)), Some((crc_b, bytes_b))) => {
            lemma_payload_layout(s, pos, crc_a, bytes_a);
            lemma_payload_layout(s, pos, crc_b, bytes_b);
            let at_crc = pos + head(MAJOR_MAP, 2).len() + text("crc").len();
            lemma_head_unique(s, at_crc, MAJOR_UINT, crc_a as u64, crc_b as u64);
            let at_count = at_crc + head(MAJOR_UINT, crc_a as u64).len() + text("data").len();
            lemma_head_unique(
                s,
                at_count,
                MAJOR_ARRAY,
                bytes_a.len() as u64,
                bytes_b.len() as u64,
            );
            let at_items = at_count + head(MAJOR_ARRAY, bytes_a.len() as u64).len();
            lemma_byte_items_agree(s, at_items, bytes_a, bytes_b, bytes_a.len() as int);
            assert(bytes_a.take(bytes_a.len() as int) =~= bytes_a);
        },
        (Some((crc, bytes)), None) => {
            lemma_payload_layout(s, pos, crc, bytes);
        },
        (None, Some((crc, bytes))) => {
            lemma_payload_layout(s, pos, crc, bytes);
        },
        (None, None) => {},
    }
}

impl PacketData {
    /// The stored code is the checksum of the stored bytes.
    pub open spec fn is_intact(&self) -> bool {
        self.crc == crc16_ibm_sdlc(self.data@)
    }

    /// Stores `data` under the code `crc`, whatever the code is.
    pub fn new_with_crc(data: Vec<u8>, crc: u16) -> (packet: PacketData)
        ensures
            packet@ == (crc, data@),
    {
        PacketData { crc, data }
    }

    /// Copies `data` and seals the copy with its checksum.
    pub fn new_with_data(data: &[u8]) -> (packet: PacketData)
        ensures
            packet@ == (crc16_ibm_sdlc(data@), data@),
            packet.is_intact(),
    {
        let data = vstd::slice::slice_to_vec(data);
        let crc = make_crc(&data);
        Self::new_with_crc(data, crc)
    }

    /// Hands out the bytes if the stored code is `crc`, and reports
    /// corrupt data if it is not.
    pub fn retrieve_if_code_is(&self, crc: u16) -> (res: Result<&Vec<u8>, IntegrityError>)
        ensures
            self.crc == crc ==> res == Ok::<&Vec<u8>, IntegrityError>(&self.data),
            self.crc != crc ==> res == Err::<&Vec<u8>, IntegrityError>(
                IntegrityError::CorruptData,
            ),
    {
        if self.crc == crc {
            Ok(&self.data)
        } else {
            Err(IntegrityError::CorruptData)
        }
    }

    /// Hands out the bytes if the stored code is their checksum, and
    /// reports corrupt data if it is not.
    pub fn try_retrieve_data(&self) -> (res: Result<&Vec<u8>, IntegrityError>)
        ensures
            self.is_intact() ==> res == Ok::<&Vec<u8>, IntegrityError>(&self.data),
            !self.is_intact() ==> res == Err::<&Vec<u8>, IntegrityError>(
                IntegrityError::CorruptData,
            ),
    {
        self.retrieve_if_code_is(make_crc(&self.data))
    }

    /// The binary form of the payload: a map of the code under "crc" and
    /// the array of the bytes under "data".
    pub fn to_bytes(&self) -> (bytes: Vec<u8>)
        ensures
            bytes@ == payload_wire(Some(self@)),
    {
        let mut out: Vec<u8> = Vec::new();
        write_packet_data(&mut out, self);
        out
    }

    /// The payload that `bytes` are the binary form of; `None` exactly
    /// where they are the binary form of none. Whether the code is the
    /// checksum of the bytes is not asked here.
    pub fn from_bytes(bytes: &[u8]) -> (res: Option<PacketData>)
        ensures
            res matches Some(packet) ==> payload_wire(Some(packet@)) == bytes@,
            res is None ==> forall|crc: u16, data: Seq<u8>|
                data.len() <= u64::MAX ==> #[trigger] payload_wire(Some((crc, data))) != bytes@,
    {
        let len = bytes.len();
        let found = read_payload(bytes, 0);
        proof {
            assert forall|p: Option<(u16, Seq<u8>)>| #[trigger]
                payload_wire(p) == bytes@ implies has_at(bytes@, 0, payload_wire(p)) by {
                lemma_has_at_whole(bytes@, payload_wire(p));
            }
            if found is Some {
                lemma_has_at_whole(bytes@, payload_wire(payload_view(found.unwrap().0)));
            }
        }
        match found {
            Some((Some(packet), end)) => {
                if end == len {
                    Some(packet)
                } else {
                    None
                }
            },
            _ => None,
        }
    }
}

/// Appends what stands on the wire for an optional payload.
pub(crate) fn write_payload(out: &mut Vec<u8>, data: &Option<PacketData>)
    ensures
        final(out)@ == old(out)@ + payload_wire(payload_view(*data)),
{
    match data {
        None => {
            out.push(NULL_ITEM);
        },
        Some(d) => {
            write_packet_data(out, d);
        },
    }
}

/// Appends what stands on the wire for a present payload.
fn write_packet_data(out: &mut Vec<u8>, d: &PacketData)
    ensures
        final(out)@ == old(out)@ + payload_wire(Some(d@)),
{
    write_head(out, MAJOR_MAP, 2);
    write_text(out, "crc");
    write_head(out, MAJOR_UINT, d.crc as u64);
    write_text(out, "data");
    write_head(out, MAJOR_ARRAY, d.data.len() as u64);
    write_byte_items(out, d.data.as_slice());
}

/// Reads the optional payload that stands at `pos`, if one does: the
/// payload and the offset behind it.
pub(crate) fn read_payload(buf: &[u8], pos: usize) -> (res: Option<(Option<PacketData>, usize)>)
    ensures
        res matches Some((data, next)) ==> has_at(
            buf@,
            pos as int,
            payload_wire(payload_view(data)),
        ) && next == pos + payload_wire(payload_view(data)).len(),
        forall|p: Option<(u16, Seq<u8>)>|
            payload_fits(p) && #[trigger] has_at(buf@, pos as int, payload_wire(p)) ==> res is Some
                && payload_view(res.unwrap().0) == p,
{
    let res = read_payload_once(buf, pos);
    proof {
        if res is Some {
            let found = payload_view(res.unwrap().0);
            assert forall|p: Option<(u16, Seq<u8>)>|
                payload_fits(p) && #[trigger] has_at(
                    buf@,
                    pos as int,
                    payload_wire(p),
                ) implies found == p by {
                lemma_payload_unique(buf@, pos as int, p, found);
            }
        }
    }
    res
}

/// What an occurrence of a payload at `pos` says of the bytes there.
proof fn lemma_payload_candidates(s: Seq<u8>, pos: int)
    ensures
        forall|p: Option<(u16, Seq<u8>)>| #[trigger]
            has_at(s, pos, payload_wire(p)) ==> {
                &&& 0 <= pos < s.len()
                &&& p is None <==> s[pos] == NULL_ITEM
                &&& p matches Some((crc, bytes)) ==> {
                    let at_key = pos + head(MAJOR_MAP, 2).len();
                    let at_crc = at_key + text("crc").len();
                    let at_data_key = at_crc + head(MAJOR_UINT, crc as u64).len();
                    let at_count = at_data_key + text("data").len();
                    let at_items = at_count + head(MAJOR_ARRAY, bytes.len() as u64).len();
                    &&& has_at(s, pos, head(MAJOR_MAP, 2))
                    &&& has_at(s, at_key, text("crc"))
                    &&& has_at(s, at_crc, head(MAJOR_UINT, crc as u64))
                    &&& has_at(s, at_data_key, text("data"))
                    &&& has_at(s, at_count, head(MAJOR_ARRAY, bytes.len() as u64))
                    &&& has_at(s, at_items, byte_items(bytes))
                }
            },
{
    lemma_head_parts(MAJOR_MAP, 2);
    assert forall|p: Option<(u16, Seq<u8>)>| #[trigger]
        has_at(s, pos, payload_wire(p)) implies {
        &&& 0 <= pos < s.len()
        &&& p is None <==> s[pos] == NULL_ITEM
        &&& p matches Some((crc, bytes)) ==> {
            let at_key = pos + head(MAJOR_MAP, 2).len();
            let at_crc = at_key + text("crc").len();
            let at_data_key = at_crc + head(MAJOR_UINT, crc as u64).len();
            let at_count = at_data_key + text("data").len();
            let at_items = at_count + head(MAJOR_ARRAY, bytes.len() as u64).len();
            &&& has_at(s, pos, head(MAJOR_MAP, 2))
            &&& has_at(s, at_key, text("crc"))
            &&& has_at(s, at_crc, head(MAJOR_UINT, crc as u64))
            &&& has_at(s, at_data_key, text("data"))
            &&& has_at(s, at_count, head(MAJOR_ARRAY, bytes.len() as u64))
            &&& has_at(s, at_items, byte_items(bytes))
        }
    } by {
        match p {
            None => {
                assert(s.subrange(pos, pos + 1)[0] == s[pos]);
            },
            Some((crc, bytes)) => {
                lemma_payload_layout(s, pos, crc, bytes);
            },
        }
    }
}

/// Reads the optional payload that stands at `pos`; fails only where none
/// stands there.
fn read_payload_once(buf: &[u8], pos: usize) -> (res: Option<(Option<PacketData>, usize)>)
    ensures
        res matches Some((data, next)) ==> payload_fits(payload_view(data)) && has_at(
            buf@,
            pos as int,
            payload_wire(payload_view(data)),
        ) && next == pos + payload_wire(payload_view(data)).len(),
        res is None ==> forall|p: Option<(u16, Seq<u8>)>|
            payload_fits(p) ==> !#[trigger] has_at(buf@, pos as int, payload_wire(p)),
{
    proof {
        lemma_payload_candidates(buf@, pos as int);
    }
    if pos >= buf.len() {
        return None;
    }
    if buf[pos] == NULL_ITEM {
        assert(buf@.subrange(pos as int, pos + 1) =~= seq![NULL_ITEM]);
        return Some((None, pos + 1));
    }
    let at_key = match read_head(buf, pos, MAJOR_MAP) {
        Some((2, next)) => next,
        _ => {
            return None;
        },
    };
    let at_crc = match expect_text(buf, at_key, "crc") {
        Some(next) => next,
        None => {
            return None;
        },
    };
    let (crc, at_data_key) = match read_head(buf, at_crc, MAJOR_UINT) {
        Some((value, next)) if value <= 0xffff => (value as u16, next),
        _ => {
            return None;
        },
    };
    let at_count = match expect_text(buf, at_data_key, "data") {
        Some(next) => next,
        None => {
            return None;
        },
    };
    let (count, at_items) = match read_head(buf, at_count, MAJOR_ARRAY) {
        Some(found) => found,
        None => {
            return None;
        },
    };
    let (data, next) = match read_byte_items(buf, at_items, count) {
        Some(found) => found,
        None => {
            return None;
        },
    };
    proof {
        lemma_payload_layout(buf@, pos as int, crc, data@);
    }
    Some((Some(PacketData { crc, data }), next))
}

} // verus!
