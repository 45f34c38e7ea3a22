//! Decimal text of integers.

use vstd::prelude::*;
use crate::ops::concat;

verus! {

pub open spec fn digit_char(d: nat) -> char {
    if d == 0 { '0' }
    else if d == 1 { '1' }
    else if d == 2 { '2' }
    else if d == 3 { '3' }
    else if d == 4 { '4' }
    else if d == 5 { '5' }
    else if d == 6 { '6' }
    else if d == 7 { '7' }
    else if d == 8 { '8' }
    else { '9' }
}

/// Decimal digits of `n`, most significant first, without leading zeros.
pub open spec fn nat_text(n: nat) -> Seq<char>
    decreases n,
{
    if n < 10 {
        seq![digit_char(n)]
    } else {
        nat_text(n / 10).push(digit_char(n % 10))
    }
}

/// Decimal text of `n`, with a leading `-` when it is negative.
pub open spec fn int_text(n: int) -> Seq<char> {
    if n < 0 {
        seq!['-'] + nat_text((-n) as nat)
    } else {
        nat_text(n as nat)
    }
}

fn digit_str(d: u64) -> (r: &'static str)
    requires
        d < 10,
    ensures
        r@ == seq![digit_char(d as nat)],
{
    if d == 0 { proof { reveal_strlit("0"); } assert("0"@ =~= seq!['0']); "0" }
    else if d == 1 { proof { reveal_strlit("1"); } assert("1"@ =~= seq!['1']); "1" }
    else if d == 2 { proof { reveal_strlit("2"); } assert("2"@ =~= seq!['2']); "2" }
    else if d == 3 { proof { reveal_strlit("3"); } assert("3"@ =~= seq!['3']); "3" }
    else if d == 4 { proof { reveal_strlit("4"); } assert("4"@ =~= seq!['4']); "4" }
    else if d == 5 { proof { reveal_strlit("5"); } assert("5"@ =~= seq!['5']); "5" }
    else if d == 6 { proof { reveal_strlit("6"); } assert("6"@ =~= seq!['6']); "6" }
    else if d == 7 { proof { reveal_strlit("7"); } assert("7"@ =~= seq!['7']); "7" }
    else if d == 8 { proof { reveal_strlit("8"); } assert("8"@ =~= seq!['8']); "8" }
    else { proof { reveal_strlit("9"); } assert("9"@ =~= seq!['9']); "9" }
}

pub fn nat_to_text(n: u64) -> (r: String)
    ensures
        r@ == nat_text(n as nat),
    decreases n,
{
    if n < 10 {
        digit_str(n).to_owned()
    } else {
        let head = nat_to_text(n / 10);
        concat(head.as_str(), digit_str(n % 10))
    }
}

/// Decimal text of `n`.
pub fn int_to_text(n: i64) -> (r: String)
    ensures
        r@ == int_text(n as int),
{
    if n < 0 {
        let m: i128 = -(n as i128);
        let digits = nat_to_text(m as u64);
        proof { reveal_strlit("-"); }
        assert("-"@ =~= seq!['-']);
        concat("-", digits.as_str())
    } else {
        nat_to_text(n as u64)
    }
}

} // verus!
