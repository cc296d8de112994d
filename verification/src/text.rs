//! Numbers as text.

use vstd::prelude::*;
use vstd::string::StringExecFns;

verus! {

/// The decimal digit of `d`.
pub open spec fn digit(d: int) -> char {
    (48 + d) as char
}

/// `n` in decimal.
pub open spec fn digits(n: nat) -> Seq<char>
    decreases n,
{
    if n < 10 {
        seq![digit(n as int)]
    } else {
        digits(n / 10).push(digit((n % 10) as int))
    }
}

/// `n` in decimal, with its sign where it is negative.
pub open spec fn signed_digits(n: int) -> Seq<char> {
    if n < 0 {
        seq!['-'] + digits((-n) as nat)
    } else {
        digits(n as nat)
    }
}

fn digit_str(d: u64) -> (s: &'static str)
    requires
        d < 10,
    ensures
        s@ == seq![digit(d as int)],
{
    proof {
        reveal_strlit("0");
        reveal_strlit("1");
        reveal_strlit("2");
        reveal_strlit("3");
        reveal_strlit("4");
        reveal_strlit("5");
        reveal_strlit("6");
        reveal_strlit("7");
        reveal_strlit("8");
        reveal_strlit("9");
        assert("0"@ == seq!['0']);
        assert("1"@ == seq!['1']);
        assert("2"@ == seq!['2']);
        assert("3"@ == seq!['3']);
        assert("4"@ == seq!['4']);
        assert("5"@ == seq!['5']);
        assert("6"@ == seq!['6']);
        assert("7"@ == seq!['7']);
        assert("8"@ == seq!['8']);
        assert("9"@ == seq!['9']);
    }
    match d {
        0 => "0",
        1 => "1",
        2 => "2",
        3 => "3",
        4 => "4",
        5 => "5",
        6 => "6",
        7 => "7",
        8 => "8",
        _ => "9",
    }
}

/// `n` in decimal.
pub fn decimal(n: u64) -> (s: String)
    ensures
        s@ == digits(n as nat),
    decreases n,
{
    if n < 10 {
        String::from_str(digit_str(n))
    } else {
        let mut s = decimal(n / 10);
        s.append(digit_str(n % 10));
        s
    }
}

/// `n` in decimal, with its sign where it is negative.
pub fn signed_decimal(n: i32) -> (s: String)
    ensures
        s@ == signed_digits(n as int),
{
    if n < 0 {
        proof {
            reveal_strlit("-");
        }
        let mut s = String::from_str("-");
        let magnitude: u64 = (-(n as i64)) as u64;
        s.append(decimal(magnitude).as_str());
        s
    } else {
        decimal(n as u64)
    }
}

/// The number that decimal digits spell, the first highest.
pub open spec fn spelled(s: Seq<char>) -> int
    decreases s.len(),
{
    if s.len() == 0 {
        0
    } else {
        10 * spelled(s.drop_last()) + (s.last() as int - '0' as int)
    }
}

/// A number in decimal spells that number, in digits, without zeros in front.
pub proof fn decimal_digits_spell_the_number(n: nat)
    ensures
        spelled(digits(n)) == n,
        digits(n).len() > 0,
        forall|i: int| 0 <= i < digits(n).len() ==> '0' <= #[trigger] digits(n)[i] <= '9',
        digits(n)[0] == '0' ==> n == 0,
    decreases n,
{
    if n < 10 {
        assert(digits(n).drop_last() == Seq::<char>::empty());
        assert(spelled(digits(n).drop_last()) == 0);
    } else {
        decimal_digits_spell_the_number(n / 10);
        assert(digits(n).drop_last() == digits(n / 10));
        assert(digits(n)[0] == digits(n / 10)[0]);
    }
}

/// A negative number has a sign before the digits of its opposite; another has
/// none.
pub proof fn only_negative_numbers_have_a_sign(n: int)
    ensures
        n < 0 ==> signed_digits(n)[0] == '-' && spelled(signed_digits(n).drop_first()) == -n,
        n >= 0 ==> spelled(signed_digits(n)) == n && signed_digits(n)[0] != '-',
{
    if n < 0 {
        decimal_digits_spell_the_number((-n) as nat);
        assert(signed_digits(n).drop_first() == digits((-n) as nat));
    } else {
        decimal_digits_spell_the_number(n as nat);
        assert('0' <= digits(n as nat)[0]);
    }
}

} // verus!
