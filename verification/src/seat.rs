//! Seat codes: a letter from A to F and the row in decimal, as in "C17".

use vstd::prelude::*;
use vstd::string::StringExecFns;

verus! {

/// Seats in one row.
pub const SEATS_PER_ROW: u8 = 6;

/// The most rows a flight can have.
pub const MAX_ROWS: u8 = 42;

/// The most seats a flight can have.
pub const MAX_SEATS: u8 = 252;

/// The letter of the seat at place `index` of a row.
pub open spec fn seat_letter(index: int) -> char {
    if index == 0 {
        'A'
    } else if index == 1 {
        'B'
    } else if index == 2 {
        'C'
    } else if index == 3 {
        'D'
    } else if index == 4 {
        'E'
    } else {
        'F'
    }
}

/// The character of the decimal digit `d`.
pub open spec fn digit_char(d: int) -> char {
    if d == 0 {
        '0'
    } else if d == 1 {
        '1'
    } else if d == 2 {
        '2'
    } else if d == 3 {
        '3'
    } else if d == 4 {
        '4'
    } else if d == 5 {
        '5'
    } else if d == 6 {
        '6'
    } else if d == 7 {
        '7'
    } else if d == 8 {
        '8'
    } else {
        '9'
    }
}

/// `n` in decimal, without leading zeros.
pub open spec fn decimal(n: nat) -> Seq<char>
    decreases n,
{
    if n < 10 {
        seq![digit_char(n as int)]
    } else {
        decimal(n / 10).push(digit_char((n % 10) as int))
    }
}

/// The code of the seat at place `letter` of row `row`.
pub open spec fn seat_code(letter: int, row: int) -> Seq<char> {
    seq![seat_letter(letter)] + decimal(row as nat)
}

/// The code of seat `j` of a flight, counted row by row from the front:
/// A1, B1, ..., F1, A2, ...
pub open spec fn nth_seat(j: int) -> Seq<char> {
    seat_code(j % 6, j / 6 + 1)
}

/// The codes of the first `count` seats of a flight.
pub open spec fn first_seats(count: nat) -> Seq<Seq<char>> {
    Seq::new(count, |j: int| nth_seat(j))
}

/// The code follows the pattern: one letter from A to F, then one or more
/// decimal digits, the first of which is not 0.
pub open spec fn is_seat_code(code: Seq<char>) -> bool {
    &&& code.len() >= 2
    &&& 'A' <= code[0] <= 'F'
    &&& '1' <= code[1] <= '9'
    &&& forall|i: int| 2 <= i < code.len() ==> '0' <= #[trigger] code[i] <= '9'
}

/// The decimal form of a number is never empty, starts with a digit from 1
/// to 9 unless the number is 0, and holds digits only.
pub proof fn lemma_decimal_shape(n: nat)
    ensures
        decimal(n).len() >= 1,
        n < 10 <==> decimal(n).len() == 1,
        n > 0 ==> '1' <= decimal(n)[0] <= '9',
        forall|i: int| 0 <= i < decimal(n).len() ==> '0' <= #[trigger] decimal(n)[i] <= '9',
    decreases n,
{
    if n >= 10 {
        lemma_decimal_shape(n / 10);
    }
}

/// Different numbers have different decimal forms.
pub proof fn lemma_decimal_injective(a: nat, b: nat)
    requires
        decimal(a) == decimal(b),
    ensures
        a == b,
    decreases a,
{
    lemma_decimal_shape(a);
    lemma_decimal_shape(b);
    if a >= 10 {
        let da = decimal(a / 10);
        let db = decimal(b / 10);
        assert(da.push(digit_char((a % 10) as int)).last() == digit_char((a % 10) as int));
        assert(da.push(digit_char((a % 10) as int)).drop_last() =~= da);
        assert(db.push(digit_char((b % 10) as int)).drop_last() =~= db);
        lemma_decimal_injective(a / 10, b / 10);
    }
}

/// Every seat of a flight has a code of the pattern.
pub proof fn lemma_nth_seat_is_code(j: int)
    requires
        0 <= j,
    ensures
        is_seat_code(nth_seat(j)),
{
    let row = (j / 6 + 1) as nat;
    lemma_decimal_shape(row);
}

/// Different seats of a flight have different codes.
pub proof fn lemma_nth_seat_injective(i: int, j: int)
    requires
        0 <= i,
        0 <= j,
        nth_seat(i) == nth_seat(j),
    ensures
        i == j,
{
    let a = nth_seat(i);
    let b = nth_seat(j);
    assert(a[0] == seat_letter(i % 6));
    assert(a.subrange(1, a.len() as int) =~= decimal((i / 6 + 1) as nat));
    assert(b.subrange(1, b.len() as int) =~= decimal((j / 6 + 1) as nat));
    lemma_decimal_injective((i / 6 + 1) as nat, (j / 6 + 1) as nat);
}

/// The letter of the seat at place `index` of a row, as a string.
fn letter_str(index: u8) -> (s: &'static str)
    requires
        index < 6,
    ensures
        s@ == seq![seat_letter(index as int)],
{
    proof {
        reveal_strlit("A");
        reveal_strlit("B");
        reveal_strlit("C");
        reveal_strlit("D");
        reveal_strlit("E");
        reveal_strlit("F");
    }
    let s = if index == 0 {
        "A"
    } else if index == 1 {
        "B"
    } else if index == 2 {
        "C"
    } else if index == 3 {
        "D"
    } else if index == 4 {
        "E"
    } else {
        "F"
    };
    s
}

/// The decimal digit `d`, as a string.
fn digit_str(d: u8) -> (s: &'static str)
    requires
        d < 10,
    ensures
        s@ == seq![digit_char(d as int)],
{
    proof {
        reveal_strlit("0");
        reveal_strlit("1");
        reveal_strlit("2");
        reveal_strlit("3");
        reveal_strlit("4");
        reveal_strlit("5");
        reveal_strlit("6");
        reveal_strlit("7");
        reveal_strlit("8");
        reveal_strlit("9");
    }
    let s = if d == 0 {
        "0"
    } else if d == 1 {
        "1"
    } else if d == 2 {
        "2"
    } else if d == 3 {
        "3"
    } else if d == 4 {
        "4"
    } else if d == 5 {
        "5"
    } else if d == 6 {
        "6"
    } else if d == 7 {
        "7"
    } else if d == 8 {
        "8"
    } else {
        "9"
    };
    s
}

/// The code of the seat at place `letter` of row `row`.
pub fn make_seat_code(letter: u8, row: u8) -> (code: String)
    requires
        letter < 6,
    ensures
        code@ == seat_code(letter as int, row as int),
{
    let mut code = String::from_str(letter_str(letter));
    if row >= 100 {
        code.append(digit_str(row / 100));
    }
    if row >= 10 {
        code.append(digit_str(row / 10 % 10));
    }
    code.append(digit_str(row % 10));
    proof {
        reveal_with_fuel(decimal, 3);
    }
    code
}

} // verus!
