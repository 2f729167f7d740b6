//! The model of the reservation ledger: flights, each with the seats that
//! are still to be had, and what generating a flight and reserving a seat
//! do to them.

use vstd::prelude::*;
use crate::flight::FlightInfo;
use crate::seat::{first_seats, lemma_nth_seat_injective, nth_seat, MAX_ROWS, MAX_SEATS};

verus! {

/// The model of one flight of the ledger.
pub struct FlightView {
    /// Flight number.
    pub num: u32,
    /// The codes of the seats that are still to be had; the last one is
    /// the next to go.
    pub seats: Seq<Seq<char>>,
}

/// The seats of a flight are the first seats of a plane, in their order:
/// what is left of the seats that the flight was generated with.
pub open spec fn flight_wf(f: FlightView) -> bool {
    &&& f.seats.len() <= MAX_SEATS
    &&& f.seats == first_seats(f.seats.len())
}

/// Flights are numbered from 1 in the order of their generation, and each
/// is well formed.
pub open spec fn ledger_wf(l: Seq<FlightView>) -> bool {
    &&& l.len() <= u32::MAX
    &&& forall|i: int| 0 <= i < l.len() ==> (#[trigger] l[i]).num == i + 1 && flight_wf(l[i])
}

/// What a passenger may know of a flight.
pub open spec fn summary(f: FlightView) -> FlightInfo {
    FlightInfo { num: f.num, seats_num: f.seats.len() as u8 }
}

/// What a passenger may know of the flights.
pub open spec fn summaries(l: Seq<FlightView>) -> Seq<FlightInfo> {
    l.map_values(|f: FlightView| summary(f))
}

/// The greatest flight number of the ledger, 0 if it holds no flight.
pub open spec fn max_number(l: Seq<FlightView>) -> nat
    decreases l.len(),
{
    if l.len() == 0 {
        0
    } else {
        let rest = max_number(l.drop_last());
        if l.last().num > rest {
            l.last().num as nat
        } else {
            rest
        }
    }
}

/// The number of rows asked for, brought into the range from 1 to 42.
pub open spec fn clamp_rows(rows: u8) -> u8 {
    if rows == 0 {
        1
    } else if rows > MAX_ROWS {
        MAX_ROWS
    } else {
        rows
    }
}

/// The flight that generating adds: its number is one more than the
/// greatest there is, and it has all the seats of its rows.
pub open spec fn new_flight(l: Seq<FlightView>, rows: u8) -> FlightView {
    FlightView { num: (max_number(l) + 1) as u32, seats: first_seats(clamp_rows(rows) as nat * 6) }
}

/// The ledger after a flight of `rows` rows was generated.
pub open spec fn generated(l: Seq<FlightView>, rows: u8) -> Seq<FlightView> {
    l.push(new_flight(l, rows))
}

/// The flight bears the number and has a seat left.
pub open spec fn is_open(f: FlightView, num: u32) -> bool {
    f.num == num && f.seats.len() > 0
}

/// Some flight of the ledger bears the number and has a seat left.
pub open spec fn has_open(l: Seq<FlightView>, num: u32) -> bool {
    exists|i: int| 0 <= i < l.len() && is_open(#[trigger] l[i], num)
}

/// The place of a flight that bears the number and has a seat left.
pub open spec fn open_index(l: Seq<FlightView>, num: u32) -> int {
    choose|i: int| 0 <= i < l.len() && is_open(#[trigger] l[i], num)
}

/// The seat that a reservation for flight `num` issues: the last seat of
/// the flight with that number, if there is such a flight and it has a seat
/// left.
pub open spec fn issued(l: Seq<FlightView>, num: u32) -> Option<Seq<char>> {
    if has_open(l, num) {
        Some(l[open_index(l, num)].seats.last())
    } else {
        None
    }
}

/// The ledger after a reservation for flight `num`: the issued seat is
/// gone from its flight, and nothing else has changed.
pub open spec fn after_reserve(l: Seq<FlightView>, num: u32) -> Seq<FlightView> {
    if has_open(l, num) {
        let i = open_index(l, num);
        l.update(i, FlightView { num: l[i].num, seats: l[i].seats.drop_last() })
    } else {
        l
    }
}

/// Some flight of the ledger bears the number and has no seat left.
pub open spec fn sold_out(l: Seq<FlightView>, num: u32) -> bool {
    exists|i: int| 0 <= i < l.len() && (#[trigger] l[i]).num == num && l[i].seats.len() == 0
}

/// In a well-formed ledger the greatest flight number is the number of
/// flights.
pub proof fn lemma_max_number(l: Seq<FlightView>)
    requires
        ledger_wf(l),
    ensures
        max_number(l) == l.len(),
    decreases l.len(),
{
    if l.len() > 0 {
        let rest = l.drop_last();
        lemma_max_number(rest);
    }
}

/// In a well-formed ledger the flight with number `num` stands at place
/// `num - 1`, and nowhere else.
pub proof fn lemma_open_index(l: Seq<FlightView>, num: u32)
    requires
        ledger_wf(l),
    ensures
        has_open(l, num) <==> (1 <= num <= l.len() && l[num - 1].seats.len() > 0),
        has_open(l, num) ==> open_index(l, num) == num - 1,
        sold_out(l, num) <==> (1 <= num <= l.len() && l[num - 1].seats.len() == 0),
{
}

/// Dropping the last of the first seats leaves the first seats.
pub proof fn lemma_first_seats_drop_last(count: nat)
    requires
        count > 0,
    ensures
        first_seats(count).drop_last() == first_seats((count - 1) as nat),
        first_seats(count).last() == nth_seat(count - 1),
{
}

/// Generating a flight keeps the ledger well formed.
pub proof fn lemma_generated_wf(l: Seq<FlightView>, rows: u8)
    requires
        ledger_wf(l),
        l.len() < u32::MAX,
    ensures
        ledger_wf(generated(l, rows)),
        new_flight(l, rows).num == l.len() + 1,
        new_flight(l, rows).seats.len() == clamp_rows(rows) * 6,
{
    lemma_max_number(l);
}

/// Reserving a seat keeps the ledger well formed, and changes neither the
/// number of flights nor their numbers.
pub proof fn lemma_after_reserve_wf(l: Seq<FlightView>, num: u32)
    requires
        ledger_wf(l),
    ensures
        ledger_wf(after_reserve(l, num)),
        after_reserve(l, num).len() == l.len(),
        issued(l, num) matches Some(seat) ==> seat == nth_seat(l[num - 1].seats.len() - 1),
{
    lemma_open_index(l, num);
    if has_open(l, num) {
        let k = l[num - 1].seats.len();
        lemma_first_seats_drop_last(k);
    }
}

/// One change of the ledger.
pub enum LedgerStep {
    /// A flight of `rows` rows is generated.
    Generate { rows: u8 },
    /// A seat of flight `flight_num` is asked for.
    Reserve { flight_num: u32 },
}

/// The ledger after one step.
pub open spec fn after_step(l: Seq<FlightView>, step: LedgerStep) -> Seq<FlightView> {
    match step {
        LedgerStep::Generate { rows } => generated(l, rows),
        LedgerStep::Reserve { flight_num } => after_reserve(l, flight_num),
    }
}

/// The ledger after the steps, taken one after another.
pub open spec fn after_steps(l: Seq<FlightView>, steps: Seq<LedgerStep>) -> Seq<FlightView>
    decreases steps.len(),
{
    if steps.len() == 0 {
        l
    } else {
        after_step(after_steps(l, steps.drop_last()), steps.last())
    }
}

/// Every flight of the steps is generated in a ledger that has a number
/// left for it.
pub open spec fn steps_allowed(l: Seq<FlightView>, steps: Seq<LedgerStep>) -> bool
    decreases steps.len(),
{
    if steps.len() == 0 {
        true
    } else {
        &&& steps_allowed(l, steps.drop_last())
        &&& steps.last() is Generate ==> after_steps(l, steps.drop_last()).len() < u32::MAX
    }
}

/// The seat that step `k` of the steps issues, where it asks for a seat
/// and gets one.
pub open spec fn issued_at(l: Seq<FlightView>, steps: Seq<LedgerStep>, k: int) -> Option<
    Seq<char>,
> {
    match steps[k] {
        LedgerStep::Generate { .. } => None,
        LedgerStep::Reserve { flight_num } => issued(after_steps(l, steps.take(k)), flight_num),
    }
}

/// Steps taken in two parts come to the same as taken in one.
pub proof fn lemma_after_steps_concat(l: Seq<FlightView>, a: Seq<LedgerStep>, b: Seq<LedgerStep>)
    ensures
        after_steps(l, a + b) == after_steps(after_steps(l, a), b),
        steps_allowed(l, a + b) <==> steps_allowed(l, a) && steps_allowed(after_steps(l, a), b),
    decreases b.len(),
{
    if b.len() > 0 {
        assert((a + b).drop_last() =~= a + b.drop_last());
        lemma_after_steps_concat(l, a, b.drop_last());
    }
}

/// Whatever the steps, the ledger stays well formed, no flight leaves it,
/// and no flight gains a seat.
pub proof fn lemma_steps_only_take(l: Seq<FlightView>, steps: Seq<LedgerStep>)
    requires
        ledger_wf(l),
        steps_allowed(l, steps),
    ensures
        ledger_wf(after_steps(l, steps)),
        after_steps(l, steps).len() >= l.len(),
        forall|i: int|
            0 <= i < l.len() ==> (#[trigger] after_steps(l, steps)[i]).seats.len()
                <= l[i].seats.len(),
    decreases steps.len(),
{
    if steps.len() > 0 {
        let before = after_steps(l, steps.drop_last());
        lemma_steps_only_take(l, steps.drop_last());
        match steps.last() {
            LedgerStep::Generate { rows } => {
                lemma_generated_wf(before, rows);
            },
            LedgerStep::Reserve { flight_num } => {
                lemma_after_reserve_wf(before, flight_num);
                lemma_open_index(before, flight_num);
            },
        }
    }
}

/// Sold out stays sold out: once a flight has no seat left, no reservation
/// for it issues a seat, whatever has happened to the ledger in between.
pub proof fn lemma_sold_out_stays(l: Seq<FlightView>, flight_num: u32, steps: Seq<LedgerStep>)
    requires
        ledger_wf(l),
        steps_allowed(l, steps),
        sold_out(l, flight_num),
    ensures
        sold_out(after_steps(l, steps), flight_num),
        issued(after_steps(l, steps), flight_num) is None,
        after_reserve(after_steps(l, steps), flight_num) == after_steps(l, steps),
{
    lemma_steps_only_take(l, steps);
    lemma_open_index(l, flight_num);
    let later = after_steps(l, steps);
    lemma_open_index(later, flight_num);
}

/// No seat is issued twice: two reservations for one flight, at different
/// steps of any course of the ledger, never issue the same seat.
pub proof fn lemma_no_double_booking(
    l: Seq<FlightView>,
    steps: Seq<LedgerStep>,
    i: int,
    j: int,
    flight_num: u32,
)
    requires
        ledger_wf(l),
        steps_allowed(l, steps),
        0 <= i < j < steps.len(),
        steps[i] == (LedgerStep::Reserve { flight_num }),
        steps[j] == (LedgerStep::Reserve { flight_num }),
        issued_at(l, steps, i) is Some,
        issued_at(l, steps, j) is Some,
    ensures
        issued_at(l, steps, i) != issued_at(l, steps, j),
{
    let first = steps.take(i);
    let through = steps.take(i + 1);
    let between = steps.subrange(i + 1, j);
    assert(steps.take(j) =~= through + between);
    assert(steps =~= steps.take(j) + steps.skip(j));
    assert(through.drop_last() =~= first);
    lemma_after_steps_concat(l, steps.take(j), steps.skip(j));
    lemma_after_steps_concat(l, through, between);

    let at_i = after_steps(l, first);
    let past_i = after_steps(l, through);
    let at_j = after_steps(l, steps.take(j));
    lemma_steps_only_take(l, first);
    lemma_after_reserve_wf(at_i, flight_num);
    lemma_open_index(at_i, flight_num);
    lemma_steps_only_take(past_i, between);
    lemma_after_reserve_wf(at_j, flight_num);
    lemma_open_index(at_j, flight_num);

    let left_i = at_i[flight_num - 1].seats.len();
    let left_j = at_j[flight_num - 1].seats.len();
    if nth_seat(left_i - 1) == nth_seat(left_j - 1) {
        lemma_nth_seat_injective(left_i - 1, left_j - 1);
    }
}

/// Every seat that is issued was there to be had: a reservation issues one
/// of the seats that its flight held at the start, where the flight was in
/// the ledger then.
pub proof fn lemma_issued_was_held(
    l: Seq<FlightView>,
    steps: Seq<LedgerStep>,
    k: int,
    flight_num: u32,
)
    requires
        ledger_wf(l),
        steps_allowed(l, steps),
        0 <= k < steps.len(),
        steps[k] == (LedgerStep::Reserve { flight_num }),
        1 <= flight_num <= l.len(),
        issued_at(l, steps, k) is Some,
    ensures
        l[flight_num - 1].seats.contains(issued_at(l, steps, k).unwrap()),
{
    let first = steps.take(k);
    assert(steps =~= first + steps.skip(k));
    lemma_after_steps_concat(l, first, steps.skip(k));
    lemma_steps_only_take(l, first);
    let at_k = after_steps(l, first);
    lemma_after_reserve_wf(at_k, flight_num);
    lemma_open_index(at_k, flight_num);
    let left = at_k[flight_num - 1].seats.len();
    assert(l[flight_num - 1].seats[left - 1] == nth_seat(left - 1));
}

} // verus!
