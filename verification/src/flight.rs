//! What a passenger may know of a flight, and the binary form of a list of
//! flights.

use vstd::prelude::*;
use crate::wire::{
    expect_text, has_at, head, join, lemma_has_at_concat, lemma_has_at_whole, lemma_head_parts,
    lemma_head_unique, lemma_join_push, lemma_join_step, read_head, text, write_head, write_text,
    MAJOR_ARRAY, MAJOR_MAP, MAJOR_UINT,
};

verus! {

/// The public state of a flight.
#[derive(Debug, Clone, Copy, PartialEq, Eq, Structural)]
pub struct FlightInfo {
    /// Flight number.
    pub num: u32,
    /// Number of seats that are still to be had: at most 42 rows of 6.
    pub seats_num: u8,
}

/// A flight number in four bytes, the lowest first.
pub open spec fn number_bytes(num: u32) -> Seq<u8> {
    seq![
        (num % 0x100) as u8,
        (num / 0x100 % 0x100) as u8,
        (num / 0x1_0000 % 0x100) as u8,
        (num / 0x100_0000) as u8,
    ]
}

/// The flight number that four bytes stand for, the lowest first.
pub open spec fn number_of_bytes(bytes: Seq<u8>) -> u32
    recommends
        bytes.len() == 4,
{
    (bytes[0] + bytes[1] * 0x100 + bytes[2] * 0x1_0000 + bytes[3] * 0x100_0000) as u32
}

/// The four bytes of a flight number stand for that number, and four bytes
/// are the bytes of the number that they stand for.
pub proof fn lemma_number_bytes(num: u32, bytes: Seq<u8>)
    ensures
        number_bytes(num).len() == 4,
        number_of_bytes(number_bytes(num)) == num,
        bytes.len() == 4 ==> number_bytes(number_of_bytes(bytes)) == bytes,
{
    if bytes.len() == 4 {
        assert(number_bytes(number_of_bytes(bytes)) =~= bytes);
    }
}

/// A flight number in four bytes, the lowest first.
pub fn number_to_bytes(num: u32) -> (bytes: Vec<u8>)
    ensures
        bytes@ == number_bytes(num),
{
    let mut bytes: Vec<u8> = Vec::new();
    bytes.push((num % 0x100) as u8);
    bytes.push((num / 0x100 % 0x100) as u8);
    bytes.push((num / 0x1_0000 % 0x100) as u8);
    bytes.push((num / 0x100_0000) as u8);
    assert(bytes@ =~= number_bytes(num));
    bytes
}

/// The flight number that four bytes stand for, the lowest first.
pub fn number_from_bytes(bytes: &[u8]) -> (num: u32)
    requires
        bytes@.len() == 4,
    ensures
        num == number_of_bytes(bytes@),
{
    bytes[0] as u32 + bytes[1] as u32 * 0x100 + bytes[2] as u32 * 0x1_0000 + bytes[3] as u32
        * 0x100_0000
}

/// The binary form of one flight: a map of the number under "num" and the
/// number of seats under "seats_num".
pub open spec fn flight_wire(f: FlightInfo) -> Seq<u8> {
    head(MAJOR_MAP, 2) + text("num") + head(MAJOR_UINT, f.num as u64) + text("seats_num") + head(
        MAJOR_UINT,
        f.seats_num as u64,
    )
}

/// The binary forms of the flights, one after another.
pub open spec fn flight_items(flights: Seq<FlightInfo>) -> Seq<u8> {
    join(flights.map_values(|f: FlightInfo| flight_wire(f)))
}

/// The binary form of a list of flights: an array of the flights.
pub open spec fn flights_wire(flights: Seq<FlightInfo>) -> Seq<u8> {
    head(MAJOR_ARRAY, flights.len() as u64) + flight_items(flights)
}

/// The list of flights that `bytes` are the binary form of, if they are the
/// binary form of one.
pub open spec fn flights_decoding(bytes: Seq<u8>) -> Option<Seq<FlightInfo>> {
    if exists|fs: Seq<FlightInfo>| fs.len() <= u64::MAX && flights_wire(fs) == bytes {
        Some(choose|fs: Seq<FlightInfo>| fs.len() <= u64::MAX && flights_wire(fs) == bytes)
    } else {
        None
    }
}

/// Where the parts of the binary form of a flight stand.
pub proof fn lemma_flight_layout(s: Seq<u8>, pos: int, f: FlightInfo)
    ensures
        ({
            let at_num_key = pos + head(MAJOR_MAP, 2).len();
            let at_num = at_num_key + text("num").len();
            let at_seats_key = at_num + head(MAJOR_UINT, f.num as u64).len();
            let at_seats = at_seats_key + text("seats_num").len();
            &&& flight_wire(f).len() == at_seats + head(MAJOR_UINT, f.seats_num as u64).len() - pos
            &&& flight_wire(f).len() > 0
            &&& has_at(s, pos, flight_wire(f)) <==> {
                &&& has_at(s, pos, head(MAJOR_MAP, 2))
                &&& has_at(s, at_num_key, text("num"))
                &&& has_at(s, at_num, head(MAJOR_UINT, f.num as u64))
                &&& has_at(s, at_seats_key, text("seats_num"))
                &&& has_at(s, at_seats, head(MAJOR_UINT, f.seats_num as u64))
            }
        }),
{
    let w1 = head(MAJOR_MAP, 2);
    let w2 = w1 + text("num");
    let w3 = w2 + head(MAJOR_UINT, f.num as u64);
    let w4 = w3 + text("seats_num");
    lemma_head_parts(MAJOR_MAP, 2);
    lemma_has_at_concat(s, pos, w1, text("num"));
    lemma_has_at_concat(s, pos, w2, head(MAJOR_UINT, f.num as u64));
    lemma_has_at_concat(s, pos, w3, text("seats_num"));
    lemma_has_at_concat(s, pos, w4, head(MAJOR_UINT, f.seats_num as u64));
}

/// At one place at most one flight can stand.
pub proof fn lemma_flight_unique(s: Seq<u8>, pos: int, a: FlightInfo, b: FlightInfo)
    requires
        has_at(s, pos, flight_wire(a)),
        has_at(s, pos, flight_wire(b)),
    ensures
        a == b,
{
    lemma_flight_layout(s, pos, a);
    lemma_flight_layout(s, pos, b);
    let at_num: int = pos + head(MAJOR_MAP, 2).len() + text("num").len();
    lemma_head_unique(s, at_num, MAJOR_UINT, a.num as u64, b.num as u64);
    let at_seats: int = at_num + head(MAJOR_UINT, a.num as u64).len() + text("seats_num").len();
    lemma_head_unique(s, at_seats, MAJOR_UINT, a.seats_num as u64, b.seats_num as u64);
}

/// One more flight appends its binary form.
pub proof fn lemma_flight_items_push(flights: Seq<FlightInfo>, f: FlightInfo)
    ensures
        flight_items(flights.push(f)) == flight_items(flights) + flight_wire(f),
{
    let w = |f: FlightInfo| flight_wire(f);
    assert(flights.push(f).map_values(w) =~= flights.map_values(w).push(w(f)));
    lemma_join_push(flights.map_values(w), w(f));
}

/// Where the binary forms of `flights` stand, that of flight `i` stands
/// right behind those of the first `i` flights.
pub proof fn lemma_flight_items_step(s: Seq<u8>, pos: int, flights: Seq<FlightInfo>, i: int)
    requires
        has_at(s, pos, flight_items(flights)),
        0 <= i < flights.len(),
    ensures
        flight_items(flights.take(i + 1)) == flight_items(flights.take(i)) + flight_wire(
            flights[i],
        ),
        has_at(s, pos, flight_items(flights.take(i))),
        has_at(s, pos + flight_items(flights.take(i)).len(), flight_wire(flights[i])),
{
    let w = |f: FlightInfo| flight_wire(f);
    let items = flights.map_values(w);
    lemma_join_step(s, pos, items, i);
    assert(items.take(i) =~= flights.take(i).map_values(w));
    assert(items.take(i + 1) =~= flights.take(i + 1).map_values(w));
}

/// Two lists of flights whose binary forms stand at one place agree on
/// every prefix that both have.
pub proof fn lemma_flight_items_agree(
    s: Seq<u8>,
    pos: int,
    a: Seq<FlightInfo>,
    b: Seq<FlightInfo>,
    k: int,
)
    requires
        has_at(s, pos, flight_items(a)),
        has_at(s, pos, flight_items(b)),
        0 <= k <= a.len(),
        k <= b.len(),
    ensures
        a.take(k) == b.take(k),
    decreases k,
{
    if k > 0 {
        lemma_flight_items_agree(s, pos, a, b, k - 1);
        lemma_flight_items_step(s, pos, a, k - 1);
        lemma_flight_items_step(s, pos, b, k - 1);
        lemma_flight_unique(s, pos + flight_items(a.take(k - 1)).len(), a[k - 1], b[k - 1]);
    }
}

/// Two lists of flights with the same binary form are the same list.
pub proof fn lemma_flights_wire_injective(a: Seq<FlightInfo>, b: Seq<FlightInfo>)
    requires
        a.len() <= u64::MAX,
        b.len() <= u64::MAX,
        flights_wire(a) == flights_wire(b),
    ensures
        a == b,
{
    let s = flights_wire(a);
    lemma_has_at_whole(s, flights_wire(a));
    lemma_has_at_whole(s, flights_wire(b));
    lemma_has_at_concat(s, 0, head(MAJOR_ARRAY, a.len() as u64), flight_items(a));
    lemma_has_at_concat(s, 0, head(MAJOR_ARRAY, b.len() as u64), flight_items(b));
    lemma_head_unique(s, 0, MAJOR_ARRAY, a.len() as u64, b.len() as u64);
    let at_items = head(MAJOR_ARRAY, a.len() as u64).len() as int;
    lemma_flight_items_agree(s, at_items, a, b, a.len() as int);
    assert(a.take(a.len() as int) =~= a);
}

/// Decoding undoes encoding: the binary form of a list of flights decodes
/// to that list.
pub proof fn lemma_flights_decoding_undoes_encoding(flights: Seq<FlightInfo>)
    requires
        flights.len() <= u64::MAX,
    ensures
        flights_decoding(flights_wire(flights)) == Some(flights),
{
    let found = choose|fs: Seq<FlightInfo>|
        fs.len() <= u64::MAX && flights_wire(fs) == flights_wire(flights);
    lemma_flights_wire_injective(found, flights);
}

/// Appends the binary form of one flight.
fn write_flight(out: &mut Vec<u8>, f: &FlightInfo)
    ensures
        final(out)@ == old(out)@ + flight_wire(*f),
{
    write_head(out, MAJOR_MAP, 2);
    write_text(out, "num");
    write_head(out, MAJOR_UINT, f.num as u64);
    write_text(out, "seats_num");
    write_head(out, MAJOR_UINT, f.seats_num as u64);
}

/// What an occurrence of a flight at `pos` says of the bytes there.
proof fn lemma_flight_candidates(s: Seq<u8>, pos: int)
    ensures
        forall|f: FlightInfo| #[trigger]
            has_at(s, pos, flight_wire(f)) ==> {
                let at_num_key = pos + head(MAJOR_MAP, 2).len();
                let at_num = at_num_key + text("num").len();
                let at_seats_key = at_num + head(MAJOR_UINT, f.num as u64).len();
                let at_seats = at_seats_key + text("seats_num").len();
                &&& has_at(s, pos, head(MAJOR_MAP, 2))
                &&& has_at(s, at_num_key, text("num"))
                &&& has_at(s, at_num, head(MAJOR_UINT, f.num as u64))
                &&& has_at(s, at_seats_key, text("seats_num"))
                &&& has_at(s, at_seats, head(MAJOR_UINT, f.seats_num as u64))
            },
{
    assert forall|f: FlightInfo| #[trigger] has_at(s, pos, flight_wire(f)) implies {
        let at_num_key = pos + head(MAJOR_MAP, 2).len();
        let at_num = at_num_key + text("num").len();
        let at_seats_key = at_num + head(MAJOR_UINT, f.num as u64).len();
        let at_seats = at_seats_key + text("seats_num").len();
        &&& has_at(s, pos, head(MAJOR_MAP, 2))
        &&& has_at(s, at_num_key, text("num"))
        &&& has_at(s, at_num, head(MAJOR_UINT, f.num as u64))
        &&& has_at(s, at_seats_key, text("seats_num"))
        &&& has_at(s, at_seats, head(MAJOR_UINT, f.seats_num as u64))
    } by {
        lemma_flight_layout(s, pos, f);
    }
}

/// Reads the flight that stands at `pos`, if one does: the flight and the
/// offset behind it.
fn read_flight(buf: &[u8], pos: usize) -> (res: Option<(FlightInfo, usize)>)
    ensures
        res matches Some((f, next)) ==> has_at(buf@, pos as int, flight_wire(f)) && next == pos
            + flight_wire(f).len() && next > pos,
        res is None ==> forall|f: FlightInfo| !#[trigger] has_at(buf@, pos as int, flight_wire(f)),
{
    proof {
        lemma_flight_candidates(buf@, pos as int);
    }
    let at_num_key = match read_head(buf, pos, MAJOR_MAP) {
        Some((2, next)) => next,
        _ => {
            return None;
        },
    };
    let at_num = match expect_text(buf, at_num_key, "num") {
        Some(next) => next,
        None => {
            return None;
        },
    };
    let (num, at_seats_key) = match read_head(buf, at_num, MAJOR_UINT) {
        Some((value, next)) if value <= 0xffff_ffff => (value as u32, next),
        _ => {
            return None;
        },
    };
    let at_seats = match expect_text(buf, at_seats_key, "seats_num") {
        Some(next) => next,
        None => {
            return None;
        },
    };
    let (seats_num, next) = match read_head(buf, at_seats, MAJOR_UINT) {
        Some((value, next)) if value <= 0xff => (value as u8, next),
        _ => {
            return None;
        },
    };
    let f = FlightInfo { num, seats_num };
    proof {
        lemma_flight_layout(buf@, pos as int, f);
    }
    Some((f, next))
}

/// The binary form of a list of flights.
pub fn convert_to_bytes(data: &Vec<FlightInfo>) -> (bytes: Vec<u8>)
    ensures
        bytes@ == flights_wire(data@),
        flights_decoding(bytes@) == Some(data@),
{
    let mut out: Vec<u8> = Vec::new();
    write_head(&mut out, MAJOR_ARRAY, data.len() as u64);
    let ghost start = out@;
    let mut i: usize = 0;
    while i < data.len()
        invariant
            i <= data@.len(),
            out@ == start + flight_items(data@.take(i as int)),
        decreases data@.len() - i,
    {
        write_flight(&mut out, &data[i]);
        proof {
            lemma_flight_items_push(data@.take(i as int), data@[i as int]);
            assert(data@.take(i + 1) =~= data@.take(i as int).push(data@[i as int]));
        }
        i += 1;
    }
    proof {
        assert(data@.take(data@.len() as int) =~= data@);
        lemma_flights_decoding_undoes_encoding(data@);
    }
    out
}

/// The list of flights that `data` are the binary form of; `None` exactly
/// where they are the binary form of no list.
pub fn convert_to_flightinfo(data: &Vec<u8>) -> (res: Option<Vec<FlightInfo>>)
    ensures
        res matches Some(flights) ==> flights_decoding(data@) == Some(flights@),
        res is None ==> flights_decoding(data@) is None,
{
    let res = parse_flights(data.as_slice());
    proof {
        if res is Some {
            let found = res.unwrap()@;
            assert(found.len() == res.unwrap().len());
            let chosen = choose|fs: Seq<FlightInfo>|
                fs.len() <= u64::MAX && flights_wire(fs) == data@;
            lemma_flights_wire_injective(found, chosen);
        }
    }
    res
}

/// Reads the binary form of a list of flights; fails only where `buf` is
/// the binary form of none.
fn parse_flights(buf: &[u8]) -> (res: Option<Vec<FlightInfo>>)
    ensures
        res matches Some(flights) ==> flights_wire(flights@) == buf@,
        res is None ==> forall|fs: Seq<FlightInfo>|
            fs.len() <= u64::MAX ==> #[trigger] flights_wire(fs) != buf@,
{
    proof {
        assert forall|fs: Seq<FlightInfo>| #[trigger] flights_wire(fs) == buf@ implies has_at(
            buf@,
            0,
            head(MAJOR_ARRAY, fs.len() as u64),
        ) && has_at(
            buf@,
            head(MAJOR_ARRAY, fs.len() as u64).len() as int,
            flight_items(fs),
        ) && buf@.len() == head(MAJOR_ARRAY, fs.len() as u64).len() + flight_items(fs).len() by {
            lemma_has_at_whole(buf@, flights_wire(fs));
            lemma_has_at_concat(buf@, 0, head(MAJOR_ARRAY, fs.len() as u64), flight_items(fs));
        }
    }
    let (count, start) = match read_head(buf, 0, MAJOR_ARRAY) {
        Some(found) => found,
        None => {
            return None;
        },
    };
    let len = buf.len();
    let mut out: Vec<FlightInfo> = Vec::new();
    let mut cur: usize = start;
    let mut i: u64 = 0;
    proof {
        assert(buf@.subrange(start as int, start as int) =~= Seq::<u8>::empty());
    }
    while i < count
        invariant
            i <= count,
            start <= cur <= buf@.len() <= usize::MAX,
            out@.len() == i,
            start + i <= cur,
            cur == start + flight_items(out@).len(),
            has_at(buf@, start as int, flight_items(out@)),
            forall|fs: Seq<FlightInfo>|
                fs.len() == count && #[trigger] has_at(buf@, start as int, flight_items(fs))
                    ==> fs.take(i as int) == out@,
            has_at(buf@, 0, head(MAJOR_ARRAY, count)),
            start == head(MAJOR_ARRAY, count).len(),
            forall|fs: Seq<FlightInfo>| #[trigger]
                flights_wire(fs) == buf@ ==> has_at(buf@, 0, head(MAJOR_ARRAY, fs.len() as u64))
                    && has_at(
                    buf@,
                    head(MAJOR_ARRAY, fs.len() as u64).len() as int,
                    flight_items(fs),
                ) && buf@.len() == head(MAJOR_ARRAY, fs.len() as u64).len() + flight_items(
                    fs,
                ).len(),
        decreases count - i,
    {
        let item = read_flight(buf, cur);
        proof {
            if item is None {
                assert forall|fs: Seq<FlightInfo>| fs.len() == count implies !#[trigger] has_at(
                    buf@,
                    start as int,
                    flight_items(fs),
                ) by {
                    if has_at(buf@, start as int, flight_items(fs)) {
                        lemma_flight_items_step(buf@, start as int, fs, i as int);
                    }
                }
                assert forall|fs: Seq<FlightInfo>|
                    fs.len() <= u64::MAX implies #[trigger] flights_wire(fs) != buf@ by {
                    if flights_wire(fs) == buf@ {
                        lemma_head_unique(buf@, 0, MAJOR_ARRAY, fs.len() as u64, count);
                    }
                }
            }
        }
        match item {
            Some((f, next)) => {
                proof {
                    lemma_flight_items_push(out@, f);
                    lemma_has_at_concat(buf@, start as int, flight_items(out@), flight_wire(f));
                    assert forall|fs: Seq<FlightInfo>|
                        fs.len() == count && #[trigger] has_at(
                            buf@,
                            start as int,
                            flight_items(fs),
                        ) implies fs.take(i + 1) == out@.push(f) by {
                        lemma_flight_items_step(buf@, start as int, fs, i as int);
                        lemma_flight_unique(buf@, cur as int, fs[i as int], f);
                    }
                }
                out.push(f);
                cur = next;
                i += 1;
            },
            None => {
                return None;
            },
        }
    }
    proof {
        assert forall|fs: Seq<FlightInfo>|
            fs.len() <= u64::MAX && #[trigger] flights_wire(fs) == buf@ implies fs == out@ by {
            lemma_head_unique(buf@, 0, MAJOR_ARRAY, fs.len() as u64, count);
        }
    }
    if cur != len {
        return None;
    }
    proof {
        lemma_has_at_whole(buf@, flights_wire(out@));
        lemma_has_at_concat(buf@, 0, head(MAJOR_ARRAY, count), flight_items(out@));
    }
    Some(out)
}

} // verus!
