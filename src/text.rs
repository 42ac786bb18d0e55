//! Decimal text of integers.
use vstd::prelude::*;

verus! {

/// The character of a decimal digit.
pub open spec fn digit_char(d: int) -> char {
    if d == 0 {
        '0'
    } else if d == 1 {
        '1'
    } else if d == 2 {
        '2'
    } else if d == 3 {
        '3'
    } else if d == 4 {
        '4'
    } else if d == 5 {
        '5'
    } else if d == 6 {
        '6'
    } else if d == 7 {
        '7'
    } else if d == 8 {
        '8'
    } else {
        '9'
    }
}

/// Decimal digits of a natural number, most significant first, without leading zeros.
pub open spec fn digits(n: nat) -> Seq<char>
    decreases n,
{
    if n < 10 {
        seq![digit_char(n as int)]
    } else {
        digits(n / 10) + seq![digit_char((n % 10) as int)]
    }
}

/// Decimal text of an integer, with a leading `-` when it is negative.
pub open spec fn decimal(n: int) -> Seq<char> {
    if n < 0 {
        seq!['-'] + digits((-n) as nat)
    } else {
        digits(n as nat)
    }
}

/// The one-character text of the digit `d`.
fn digit_text(d: u64) -> (r: &'static str)
    requires
        d < 10,
    ensures
        r@ == seq![digit_char(d as int)],
{
    let all = "0123456789";
    proof {
        reveal_strlit("0123456789");
    }
    let r = all.substring_char(d as usize, (d + 1) as usize);
    proof {
        assert(r@ =~= seq![digit_char(d as int)]);
    }
    r
}

/// The decimal digits of `n`.
fn nat_text(n: u64) -> (r: String)
    ensures
        r@ == digits(n as nat),
{
    let mut m = n;
    let mut r = String::new();
    while m >= 10
        invariant
            digits(n as nat) == digits(m as nat) + r@,
        decreases m,
    {
        let d = m % 10;
        let mut t = String::from_str(digit_text(d));
        t.append(r.as_str());
        proof {
            assert(digits(m as nat) == digits((m / 10) as nat) + seq![digit_char((m % 10) as int)]);
            assert(digits((m / 10) as nat) + t@ =~= digits(m as nat) + r@);
        }
        r = t;
        m = m / 10;
    }
    let mut t = String::from_str(digit_text(m));
    t.append(r.as_str());
    proof {
        assert(digits(m as nat) == seq![digit_char(m as int)]);
        assert(t@ =~= digits(m as nat) + r@);
    }
    t
}

/// The decimal text of an `i32`.
pub(crate) fn int_text(x: i32) -> (r: String)
    ensures
        r@ == decimal(x as int),
{
    if x < 0 {
        let m = (-(x as i64)) as u64;
        let mut r = String::from_str("-");
        proof {
            reveal_strlit("-");
        }
        r.append(nat_text(m).as_str());
        proof {
            assert(r@ =~= seq!['-'] + digits((-(x as int)) as nat));
        }
        r
    } else {
        nat_text(x as u64)
    }
}

/// The decimal text of a `u16`.
pub(crate) fn port_text(x: u16) -> (r: String)
    ensures
        r@ == decimal(x as int),
{
    nat_text(x as u64)
}

/// A copy of a list of strings.
pub fn copy_strings(v: &Vec<String>) -> (r: Vec<String>)
    ensures
        r@ == v@,
{
    let mut r: Vec<String> = Vec::new();
    let mut i: usize = 0;
    while i < v.len()
        invariant
            i <= v.len(),
            r@ == v@.subrange(0, i as int),
        decreases v.len() - i,
    {
        r.push(v[i].clone());
        i += 1;
        proof {
            assert(r@ =~= v@.subrange(0, i as int));
        }
    }
    proof {
        assert(v@.subrange(0, v.len() as int) =~= v@);
    }
    r
}

} // verus!
