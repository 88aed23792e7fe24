//! The texts that the ledger composes: the decimal form of a number and the
//! ids of the records it creates.

use crate::identity::{Identity, principal_text};
use vstd::prelude::*;
use vstd::string::*;

verus! {

/// The character of a decimal digit.
pub open spec fn digit(d: nat) -> char {
    if d == 0 {
        '0'
    } else if d == 1 {
        '1'
    } else if d == 2 {
        '2'
    } else if d == 3 {
        '3'
    } else if d == 4 {
        '4'
    } else if d == 5 {
        '5'
    } else if d == 6 {
        '6'
    } else if d == 7 {
        '7'
    } else if d == 8 {
        '8'
    } else {
        '9'
    }
}

/// The decimal form of a number, without leading zeros.
pub open spec fn decimal(n: nat) -> Seq<char>
    decreases n,
{
    if n < 10 {
        seq![digit(n)]
    } else {
        decimal(n / 10).push(digit(n % 10))
    }
}

/// The characters of a list of digits.
pub open spec fn digits(list: Seq<u8>) -> Seq<char> {
    Seq::new(list.len(), |i: int| digit(list[i] as nat))
}

/// The id of a record that `caller` has created at the time `now`: the time
/// in decimal form, a hyphen, and the text of the identity.
pub open spec fn record_id(now: u64, caller: Seq<u8>) -> Seq<char> {
    decimal(now as nat) + "-"@ + principal_text(caller)
}

fn digit_text(d: u8) -> (text: &'static str)
    requires
        d < 10,
    ensures
        text@ == seq![digit(d as nat)],
{
    proof {
        reveal_strlit("0");
        reveal_strlit("1");
        reveal_strlit("2");
        reveal_strlit("3");
        reveal_strlit("4");
        reveal_strlit("5");
        reveal_strlit("6");
        reveal_strlit("7");
        reveal_strlit("8");
        reveal_strlit("9");
    }
    let text = if d == 0 {
        "0"
    } else if d == 1 {
        "1"
    } else if d == 2 {
        "2"
    } else if d == 3 {
        "3"
    } else if d == 4 {
        "4"
    } else if d == 5 {
        "5"
    } else if d == 6 {
        "6"
    } else if d == 7 {
        "7"
    } else if d == 8 {
        "8"
    } else {
        "9"
    };
    assert(text@ =~= seq![digit(d as nat)]);
    text
}

/// The decimal form of a number.
pub fn decimal_text(n: u64) -> (text: String)
    ensures
        text@ == decimal(n as nat),
{
    let mut rest: u64 = n;
    let mut low: Vec<u8> = Vec::new();
    while rest >= 10
        invariant
            forall|i: int| 0 <= i < low@.len() ==> low@[i] < 10,
            decimal(n as nat) == decimal(rest as nat) + digits(low@.reverse()),
        decreases rest,
    {
        let d = (rest % 10) as u8;
        let ghost before = low@;
        low.push(d);
        proof {
            assert(low@.reverse() =~= seq![d] + before.reverse());
            assert(digits(low@.reverse()) =~= seq![digit(d as nat)] + digits(before.reverse()));
            assert(decimal(rest as nat) == decimal((rest / 10) as nat).push(digit(d as nat)));
            assert(decimal(rest as nat) + digits(before.reverse()) =~= decimal(
                (rest / 10) as nat,
            ) + digits(low@.reverse()));
        }
        rest = rest / 10;
    }
    let mut text = String::from_str(digit_text(rest as u8));
    let mut i: usize = low.len();
    while i > 0
        invariant
            i <= low@.len(),
            rest < 10,
            forall|j: int| 0 <= j < low@.len() ==> low@[j] < 10,
            text@ == decimal(rest as nat) + digits(low@.reverse()).take(low@.len() - i),
        decreases i,
    {
        i -= 1;
        let ghost before = text@;
        text.append(digit_text(low[i]));
        proof {
            let all = digits(low@.reverse());
            assert(all[low@.len() - i - 1] == digit(low@[i as int] as nat));
            assert(all.take(low@.len() - i) =~= all.take(low@.len() - i - 1).push(
                digit(low@[i as int] as nat),
            ));
            assert(text@ =~= decimal(rest as nat) + all.take(low@.len() - i));
        }
    }
    proof {
        let all = digits(low@.reverse());
        assert(all.take(low@.len() as int) =~= all);
    }
    text
}

/// The id of a record that `caller` creates at the time `now`.
pub fn generate_id(now: u64, caller: &Identity) -> (id: String)
    ensures
        id@ == record_id(now, caller@),
{
    let mut id = decimal_text(now);
    id.append("-");
    let text = caller.to_text();
    id.append(text.as_str());
    id
}

/// The two texts one after the other.
pub fn joined(first: &str, second: &String) -> (text: String)
    ensures
        text@ == first@ + second@,
{
    let mut text = String::from_str(first);
    text.append(second.as_str());
    text
}

} // verus!
