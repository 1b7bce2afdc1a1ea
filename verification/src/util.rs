//! Small numeric and string helpers shared by the whole crate.

use vstd::prelude::*;
use vstd::arithmetic::power2::pow2;
use vstd::assert_seqs_equal;

use crate::Positive;

verus! {

/// Ceiling of the base-two logarithm: the number of bits needed to
/// address `n` distinct values.
pub open spec fn clog2(n: nat) -> nat
    decreases n,
{
    if n <= 1 {
        0
    } else {
        1 + clog2(((n + 1) / 2) as nat)
    }
}

pub proof fn lemma_clog2_bound(n: nat, k: nat)
    requires
        n <= pow2(k),
    ensures
        clog2(n) <= k,
    decreases k,
{
    if n <= 1 {
    } else {
        vstd::arithmetic::power2::lemma2_to64();
        assert(k > 0) by {
            if k == 0 {
                assert(pow2(0) == 1);
            }
        };
        vstd::arithmetic::power2::lemma_pow2_unfold(k);
        lemma_clog2_bound(((n + 1) / 2) as nat, (k - 1) as nat);
    }
}

/// Computes the ceiling of the base-two logarithm of a positive number.
pub fn log2_ceil(n: Positive) -> (r: u32)
    ensures
        r == clog2(n@ as nat),
{
    let n0 = n.get();
    let mut x: u32 = n0;
    let mut r: u32 = 0;
    proof {
        vstd::arithmetic::power2::lemma2_to64();
        lemma_clog2_bound(n0 as nat, 32);
    }
    while x > 1
        invariant
            x >= 1,
            r + clog2(x as nat) == clog2(n0 as nat),
            clog2(n0 as nat) <= 32,
        decreases x,
    {
        x = x / 2 + x % 2;
        r = r + 1;
    }
    r
}

/// The character for a single decimal digit.
pub open spec fn digit_char(d: nat) -> char {
    if d == 0 {
        '0'
    } else if d == 1 {
        '1'
    } else if d == 2 {
        '2'
    } else if d == 3 {
        '3'
    } else if d == 4 {
        '4'
    } else if d == 5 {
        '5'
    } else if d == 6 {
        '6'
    } else if d == 7 {
        '7'
    } else if d == 8 {
        '8'
    } else {
        '9'
    }
}

/// The decimal rendering of a non-negative integer.
pub open spec fn dec_str(n: nat) -> Seq<char>
    decreases n,
{
    if n < 10 {
        seq![digit_char(n)]
    } else {
        dec_str(n / 10) + seq![digit_char(n % 10)]
    }
}

/// The decimal rendering of an integer, with a leading minus sign when negative.
pub open spec fn dec_str_int(n: int) -> Seq<char> {
    if n < 0 {
        seq!['-'] + dec_str((-n) as nat)
    } else {
        dec_str(n as nat)
    }
}

fn digit_str(d: u32) -> (r: &'static str)
    requires
        d < 10,
    ensures
        r@ == seq![digit_char(d as nat)],
{
    proof {
        reveal_strlit("0");
        reveal_strlit("1");
        reveal_strlit("2");
        reveal_strlit("3");
        reveal_strlit("4");
        reveal_strlit("5");
        reveal_strlit("6");
        reveal_strlit("7");
        reveal_strlit("8");
        reveal_strlit("9");
    }
    let r = if d == 0 {
        "0"
    } else if d == 1 {
        "1"
    } else if d == 2 {
        "2"
    } else if d == 3 {
        "3"
    } else if d == 4 {
        "4"
    } else if d == 5 {
        "5"
    } else if d == 6 {
        "6"
    } else if d == 7 {
        "7"
    } else if d == 8 {
        "8"
    } else {
        "9"
    };
    proof {
        assert_seqs_equal!(r@, seq![digit_char(d as nat)]);
    }
    r
}

/// Renders a number in decimal.
pub fn u32_string(n: u32) -> (r: String)
    ensures
        r@ == dec_str(n as nat),
    decreases n,
{
    if n < 10 {
        String::from_str(digit_str(n))
    } else {
        let mut s = u32_string(n / 10);
        s.append(digit_str(n % 10));
        s
    }
}

/// Renders a signed number in decimal.
pub fn i32_string(n: i32) -> (r: String)
    ensures
        r@ == dec_str_int(n as int),
{
    if n < 0 {
        let mag = (-(n as i64)) as u32;
        let mut s = String::from_str("-");
        s.append(u32_string(mag).as_str());
        proof {
            reveal_strlit("-");
            assert_seqs_equal!(s@, dec_str_int(n as int));
        }
        s
    } else {
        u32_string(n as u32)
    }
}

/// Joins two identifier parts with an underscore, skipping empty parts.
pub open spec fn cat_spec(a: Seq<char>, b: Seq<char>) -> Seq<char> {
    if a.len() == 0 {
        b
    } else if b.len() == 0 {
        a
    } else {
        a + "_"@ + b
    }
}

/// Joins two identifier parts with an underscore, skipping empty parts.
pub fn cat(a: &str, b: &str) -> (r: String)
    ensures
        r@ == cat_spec(a@, b@),
{
    if a.unicode_len() == 0 {
        String::from_str(b)
    } else if b.unicode_len() == 0 {
        String::from_str(a)
    } else {
        let mut s = String::from_str(a);
        s.append("_");
        s.append(b);
        s
    }
}

/// Joins three identifier parts with underscores, skipping empty parts.
pub fn cat3(a: &str, b: &str, c: &str) -> (r: String)
    ensures
        r@ == cat_spec(cat_spec(a@, b@), c@),
{
    let ab = cat(a, b);
    cat(ab.as_str(), c)
}

} // verus!
