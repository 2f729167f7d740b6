//! The commands that the two roles take at the prompt, read from the words
//! of a line.

use vstd::prelude::*;
use vstd::string::StrSliceExecFns;

verus! {

/// What a passenger can tell the program to do.
#[derive(Debug, Clone, Copy, PartialEq, Eq, Structural)]
pub enum PassengerCommand {
    /// "fetch flights": ask the distributor for the flights.
    FetchFlights,
    /// "ticketfor N": ask the distributor for a ticket of flight N.
    TicketFor(u32),
    /// "ticketfor" with a word that is no flight number.
    InvalidNumber,
    /// "exit": leave the role.
    Exit,
    /// Anything else.
    Invalid,
}

/// What a distributor can tell the program to do.
#[derive(Debug, Clone, Copy, PartialEq, Eq, Structural)]
pub enum DistributorCommand {
    /// "see flights": show the flights of the ledger.
    SeeFlights,
    /// "genflight N": generate a flight of N rows.
    GenFlight(u8),
    /// "genflight" with a word that is no number of rows.
    InvalidNumber,
    /// "exit": leave the role.
    Exit,
    /// Anything else.
    Invalid,
}

/// The character is a decimal digit.
pub open spec fn is_digit(c: char) -> bool {
    '0' <= c <= '9'
}

/// The number that a string of decimal digits stands for.
pub open spec fn digits_value(s: Seq<char>) -> nat
    decreases s.len(),
{
    if s.len() == 0 {
        0
    } else {
        10 * digits_value(s.drop_last()) + (s.last() as nat - '0' as nat) as nat
    }
}

/// The word without the plus sign before it, if it has one.
pub open spec fn unsigned_part(s: Seq<char>) -> Seq<char> {
    if s.len() > 0 && s[0] == '+' {
        s.skip(1)
    } else {
        s
    }
}

/// The number that a word stands for: the word is one or more decimal
/// digits, with or without a plus sign before them, and the number is not
/// above `max`.
pub open spec fn number_in(s: Seq<char>, max: nat) -> Option<nat> {
    let digits = unsigned_part(s);
    if digits.len() > 0 && (forall|i: int| 0 <= i < digits.len() ==> is_digit(#[trigger] digits[i]))
        && digits_value(digits) <= max {
        Some(digits_value(digits))
    } else {
        None
    }
}

/// The command of a passenger that the words of a line spell.
pub open spec fn passenger_command_of(words: Seq<Seq<char>>) -> PassengerCommand {
    if words.len() == 2 && words[0] == "fetch"@ && words[1] == "flights"@ {
        PassengerCommand::FetchFlights
    } else if words.len() == 2 && words[0] == "ticketfor"@ {
        match number_in(words[1], u32::MAX as nat) {
            Some(n) => PassengerCommand::TicketFor(n as u32),
            None => PassengerCommand::InvalidNumber,
        }
    } else if words.len() == 1 && words[0] == "exit"@ {
        PassengerCommand::Exit
    } else {
        PassengerCommand::Invalid
    }
}

/// The command of a distributor that the words of a line spell.
pub open spec fn distributor_command_of(words: Seq<Seq<char>>) -> DistributorCommand {
    if words.len() == 2 && words[0] == "see"@ && words[1] == "flights"@ {
        DistributorCommand::SeeFlights
    } else if words.len() == 2 && words[0] == "genflight"@ {
        match number_in(words[1], u8::MAX as nat) {
            Some(n) => DistributorCommand::GenFlight(n as u8),
            None => DistributorCommand::InvalidNumber,
        }
    } else if words.len() == 1 && words[0] == "exit"@ {
        DistributorCommand::Exit
    } else {
        DistributorCommand::Invalid
    }
}

/// What the strings hold.
pub open spec fn words_view(words: Seq<String>) -> Seq<Seq<char>> {
    words.map_values(|w: String| w@)
}

/// More digits never make a smaller number.
pub proof fn lemma_digits_value_grows(s: Seq<char>, k: int)
    requires
        0 <= k <= s.len(),
        forall|i: int| 0 <= i < s.len() ==> is_digit(#[trigger] s[i]),
    ensures
        digits_value(s.take(k)) <= digits_value(s),
    decreases s.len(),
{
    if k < s.len() {
        assert(s.drop_last().take(k) =~= s.take(k));
        lemma_digits_value_grows(s.drop_last(), k);
    } else {
        assert(s.take(k) =~= s);
    }
}

/// Reads a number that is not above `max` out of a word.
pub fn parse_number(s: &str, max: u64) -> (res: Option<u64>)
    ensures
        match res {
            Some(n) => number_in(s@, max as nat) == Some(n as nat),
            None => number_in(s@, max as nat) is None,
        },
{
    let len = s.unicode_len();
    if len == 0 {
        return None;
    }
    let start: usize = if s.get_char(0) == '+' {
        1
    } else {
        0
    };
    if start == len {
        return None;
    }
    let ghost digits = unsigned_part(s@);
    assert(digits =~= s@.skip(start as int));
    let mut value: u64 = 0;
    assert(digits.take(0) =~= Seq::<char>::empty());
    let mut i: usize = start;
    while i < len
        invariant
            start <= i <= len == s@.len(),
            digits == unsigned_part(s@),
            digits == s@.skip(start as int),
            value == digits_value(digits.take(i - start)),
            value <= max,
            forall|k: int| 0 <= k < i - start ==> is_digit(#[trigger] digits[k]),
        decreases len - i,
    {
        let c = s.get_char(i);
        assert(c == digits[i - start]);
        if c < '0' || c > '9' {
            return None;
        }
        let d = (c as u32 - '0' as u32) as u64;
        proof {
            assert(digits.take(i + 1 - start).drop_last() =~= digits.take(i - start));
            if 10 * value + d > max {
                if forall|k: int| 0 <= k < digits.len() ==> is_digit(#[trigger] digits[k]) {
                    lemma_digits_value_grows(digits, i + 1 - start);
                }
            }
        }
        if d > max || value > (max - d) / 10 {
            return None;
        }
        value = value * 10 + d;
        i += 1;
    }
    assert(digits.take(len - start) =~= digits);
    Some(value)
}

/// Tells whether the word is the given text.
fn word_is(word: &String, text: &str) -> (same: bool)
    ensures
        same == (word@ == text@),
{
    *word == text.to_owned()
}

/// Reads the command of a passenger out of the words of a line.
pub fn passenger_command(words: &Vec<String>) -> (command: PassengerCommand)
    ensures
        command == passenger_command_of(words_view(words@)),
{
    if words.len() == 2 && word_is(&words[0], "fetch") && word_is(&words[1], "flights") {
        PassengerCommand::FetchFlights
    } else if words.len() == 2 && word_is(&words[0], "ticketfor") {
        match parse_number(words[1].as_str(), 0xffff_ffff) {
            Some(n) => PassengerCommand::TicketFor(n as u32),
            None => PassengerCommand::InvalidNumber,
        }
    } else if words.len() == 1 && word_is(&words[0], "exit") {
        PassengerCommand::Exit
    } else {
        PassengerCommand::Invalid
    }
}

/// Reads the command of a distributor out of the words of a line.
pub fn distributor_command(words: &Vec<String>) -> (command: DistributorCommand)
    ensures
        command == distributor_command_of(words_view(words@)),
{
    if words.len() == 2 && word_is(&words[0], "see") && word_is(&words[1], "flights") {
        DistributorCommand::SeeFlights
    } else if words.len() == 2 && word_is(&words[0], "genflight") {
        match parse_number(words[1].as_str(), 0xff) {
            Some(n) => DistributorCommand::GenFlight(n as u8),
            None => DistributorCommand::InvalidNumber,
        }
    } else if words.len() == 1 && word_is(&words[0], "exit") {
        DistributorCommand::Exit
    } else {
        DistributorCommand::Invalid
    }
}

} // verus!
