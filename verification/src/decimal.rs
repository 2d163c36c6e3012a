//! Numbers in base ten: the digits of a number, and the number of some
//! digits.

use vstd::prelude::*;
use vstd::string::StringExecFns;

verus! {

/// `c` is one of the characters `0` to `9`.
pub open spec fn is_digit(c: char) -> bool {
    '0' <= c && c <= '9'
}

/// The number that the digit `c` stands for.
pub open spec fn digit_value(c: char) -> nat {
    (c as int - '0' as int) as nat
}

/// The number that a sequence of digits denotes in base ten; the empty sequence
/// denotes zero.
pub open spec fn decimal_value(digits: Seq<char>) -> nat
    decreases digits.len(),
{
    if digits.len() == 0 {
        0
    } else {
        10 * decimal_value(digits.drop_last()) + digit_value(digits.last())
    }
}

/// Every character of `text` is a digit.
pub open spec fn all_digits(text: Seq<char>) -> bool {
    forall|i: int| 0 <= i < text.len() ==> is_digit(#[trigger] text[i])
}

/// A numeral without the `+` that may stand in front of its digits.
pub open spec fn unsigned_part(numeral: Seq<char>) -> Seq<char> {
    if numeral.len() > 0 && numeral[0] == '+' {
        numeral.drop_first()
    } else {
        numeral
    }
}

/// The number that a numeral denotes: an optional `+`, then one digit or more,
/// read in base ten. Any other text denotes nothing.
pub open spec fn numeral_value(numeral: Seq<char>) -> Option<nat> {
    let digits = unsigned_part(numeral);
    if digits.len() > 0 && all_digits(digits) {
        Some(decimal_value(digits))
    } else {
        None
    }
}

/// The number that a numeral denotes, if it fits in 64 bits.
pub open spec fn numeral_u64(numeral: Seq<char>) -> Option<u64> {
    match numeral_value(numeral) {
        Some(value) => if value <= u64::MAX {
            Some(value as u64)
        } else {
            None
        },
        None => None,
    }
}

/// The character that stands for a digit below ten.
pub open spec fn digit_char(digit: nat) -> char {
    ('0' as nat + digit) as char
}

/// A number written in base ten, without leading zeros.
pub open spec fn decimal_digits(number: nat) -> Seq<char>
    decreases number,
{
    if number < 10 {
        seq![digit_char(number)]
    } else {
        decimal_digits(number / 10).push(digit_char(number % 10))
    }
}

/// A number written in base ten is one digit or more, holds nothing but
/// digits, and denotes that number.
pub proof fn lemma_decimal_digits(number: nat)
    ensures
        decimal_digits(number).len() > 0,
        all_digits(decimal_digits(number)),
        decimal_value(decimal_digits(number)) == number,
        decimal_digits(number)[0] != '+',
    decreases number,
{
    let digits = decimal_digits(number);
    if number < 10 {
        assert(decimal_value(digits.drop_last()) == 0);
    } else {
        lemma_decimal_digits(number / 10);
        assert(digits.drop_last() =~= decimal_digits(number / 10));
    }
}

/// A number written in base ten is a numeral, and denotes that number.
pub proof fn lemma_numeral_of_digits(number: nat)
    ensures
        numeral_value(decimal_digits(number)) == Some(number),
{
    lemma_decimal_digits(number);
}

/// The text of one digit.
pub fn digit_text(digit: u64) -> (text: &'static str)
    requires
        digit < 10,
    ensures
        text@ == seq![digit_char(digit as nat)],
{
    proof {
        reveal_strlit("0");
        reveal_strlit("1");
        reveal_strlit("2");
        reveal_strlit("3");
        reveal_strlit("4");
        reveal_strlit("5");
        reveal_strlit("6");
        reveal_strlit("7");
        reveal_strlit("8");
        reveal_strlit("9");
    }
    match digit {
        0 => "0",
        1 => "1",
        2 => "2",
        3 => "3",
        4 => "4",
        5 => "5",
        6 => "6",
        7 => "7",
        8 => "8",
        _ => "9",
    }
}

/// Writes `number` in base ten at the end of `text`.
pub fn push_decimal(text: &mut String, number: u64)
    ensures
        final(text)@ == old(text)@ + decimal_digits(number as nat),
    decreases number,
{
    if number >= 10 {
        push_decimal(text, number / 10);
    }
    text.append(digit_text(number % 10));
}

/// The characters read so far can still grow into a numeral of 64 bits.
spec fn may_become_numeral(start: Seq<char>) -> bool {
    all_digits(unsigned_part(start)) && decimal_value(unsigned_part(start)) <= u64::MAX
}

/// How one more character changes the digits of a numeral.
proof fn lemma_numeral_push(start: Seq<char>, c: char)
    requires
        !(start.len() == 0 && c == '+'),
    ensures
        unsigned_part(start.push(c)) == unsigned_part(start).push(c),
        decimal_value(unsigned_part(start.push(c))) == 10 * decimal_value(unsigned_part(start))
            + digit_value(c),
        all_digits(unsigned_part(start.push(c))) == (all_digits(unsigned_part(start)) && is_digit(
            c,
        )),
{
    let digits = unsigned_part(start);
    let longer = unsigned_part(start.push(c));
    assert(longer.drop_last() =~= digits);
    if all_digits(longer) {
        assert(is_digit(longer[longer.len() - 1]));
        assert forall|i: int| 0 <= i < digits.len() implies is_digit(#[trigger] digits[i]) by {
            assert(digits[i] == longer[i]);
        }
    }
}

/// Reads a numeral one character at a time.
pub(crate) struct NumeralReader {
    sound: bool,
    value: u64,
    has_digits: bool,
    at_start: bool,
}

impl NumeralReader {
    /// The reader has read exactly the characters of `start`.
    pub(crate) closed spec fn has_read(&self, start: Seq<char>) -> bool {
        &&& self.sound == may_become_numeral(start)
        &&& self.sound ==> {
            &&& self.value == decimal_value(unsigned_part(start))
            &&& self.has_digits == (unsigned_part(start).len() > 0)
            &&& self.at_start == (start.len() == 0)
        }
    }

    /// A reader that has read nothing.
    pub(crate) fn new() -> (reader: NumeralReader)
        ensures
            reader.has_read(Seq::empty()),
    {
        NumeralReader { sound: true, value: 0, has_digits: false, at_start: true }
    }

    /// Reads one more character, which follows the characters of `start`.
    pub(crate) fn push(&mut self, c: char, Ghost(start): Ghost<Seq<char>>)
        requires
            old(self).has_read(start),
        ensures
            final(self).has_read(start.push(c)),
    {
        proof {
            if !(start.len() == 0 && c == '+') {
                lemma_numeral_push(start, c);
            }
        }
        if !self.sound {
            return ;
        }
        if c == '+' && self.at_start {
            self.at_start = false;
        } else if c >= '0' && c <= '9' {
            let digit: u64 = (c as u32 - '0' as u32) as u64;
            match self.value.checked_mul(10) {
                None => {
                    self.sound = false;
                },
                Some(tens) => match tens.checked_add(digit) {
                    None => {
                        self.sound = false;
                    },
                    Some(sum) => {
                        self.value = sum;
                    },
                },
            }
            self.has_digits = true;
            self.at_start = false;
        } else {
            self.sound = false;
        }
    }

    /// The number that the characters read denote, if they are a numeral of
    /// 64 bits.
    pub(crate) fn finish(&self, Ghost(numeral): Ghost<Seq<char>>) -> (value: Option<u64>)
        requires
            self.has_read(numeral),
        ensures
            value == numeral_u64(numeral),
    {
        if self.sound && self.has_digits {
            Some(self.value)
        } else {
            None
        }
    }
}

/// Reads a numeral: an optional `+`, then one digit or more. Returns its
/// number if the text is of that form and the number fits in 64 bits, and
/// nothing otherwise.
pub fn parse_u64(input: &str) -> (value: Option<u64>)
    ensures
        value == numeral_u64(input@),
{
    let mut reader = NumeralReader::new();
    for c in it: input.chars()
        invariant
            it.seq() == input@,
            reader.has_read(input@.take(it.index())),
    {
        proof {
            assert(input@.take(it.index() + 1) =~= input@.take(it.index()).push(c));
        }
        reader.push(c, Ghost(input@.take(it.index())));
    }
    proof {
        assert(input@.take(input@.len() as int) =~= input@);
    }
    reader.finish(Ghost(input@))
}

} // verus!
