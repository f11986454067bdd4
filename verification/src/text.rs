//! Numbers as decimal text.

use vstd::prelude::*;
use vstd::string::*;

verus! {

/// The character of the decimal digit `d`.
pub open spec fn digit_char(d: nat) -> char {
    if d == 0 {
        '0'
    } else if d == 1 {
        '1'
    } else if d == 2 {
        '2'
    } else if d == 3 {
        '3'
    } else if d == 4 {
        '4'
    } else if d == 5 {
        '5'
    } else if d == 6 {
        '6'
    } else if d == 7 {
        '7'
    } else if d == 8 {
        '8'
    } else {
        '9'
    }
}

/// `n` in decimal digits, without leading zeros.
pub open spec fn nat_text(n: nat) -> Seq<char>
    decreases n,
{
    if n < 10 {
        seq![digit_char(n)]
    } else {
        nat_text(n / 10).push(digit_char(n % 10))
    }
}

/// `i` in decimal digits, with `-` before a negative number.
pub open spec fn int_text(i: int) -> Seq<char> {
    if i < 0 {
        seq!['-'] + nat_text((-i) as nat)
    } else {
        nat_text(i as nat)
    }
}

/// Appends the decimal digits of `n` to `out`.
pub fn push_nat(out: &mut String, n: u64)
    ensures
        final(out)@ == old(out)@ + nat_text(n as nat),
    decreases n,
{
    if n >= 10 {
        push_nat(out, n / 10);
    }
    let d: usize = (n % 10) as usize;
    proof {
        reveal_strlit("0123456789");
    }
    let digit: &str = "0123456789".substring_char(d, d + 1);
    out.append(digit);
    proof {
        reveal_strlit("0123456789");
        assert(digit@ =~= seq![digit_char(d as nat)]);
        if n >= 10 {
            assert(old(out)@ + nat_text((n / 10) as nat) + seq![digit_char(d as nat)] =~= old(
                out,
            )@ + nat_text((n / 10) as nat).push(digit_char((n % 10) as nat)));
        }
    }
}

/// Appends the decimal text of `i` to `out`.
pub fn push_int(out: &mut String, i: i64)
    ensures
        final(out)@ == old(out)@ + int_text(i as int),
{
    if i < 0 {
        out.append("-");
        proof {
            reveal_strlit("-");
            assert("-"@ =~= seq!['-']);
        }
        let magnitude: u64 = if i == -0x8000_0000_0000_0000 {
            0x8000_0000_0000_0000
        } else {
            (-i) as u64
        };
        push_nat(out, magnitude);
        proof {
            assert(old(out)@ + seq!['-'] + nat_text(magnitude as nat) =~= old(out)@ + (seq!['-']
                + nat_text((-i) as nat)));
        }
    } else {
        push_nat(out, i as u64);
    }
}


/// `n` zeros.
pub open spec fn zeros(n: nat) -> Seq<char> {
    Seq::new(n, |i: int| '0')
}

/// The digits after the point of a number with a fraction: `frac` in `digits` digits,
/// with zeros at the front where `frac` has fewer; `frac` as it is where it has more.
pub open spec fn fraction_text(frac: nat, digits: nat) -> Seq<char> {
    if digits > nat_text(frac).len() {
        zeros((digits - nat_text(frac).len()) as nat) + nat_text(frac)
    } else {
        nat_text(frac)
    }
}

/// The number of decimal digits of `n`, which is at most 20.
pub fn digit_count(n: u64) -> (count: usize)
    ensures
        count == nat_text(n as nat).len(),
        1 <= count <= 20,
    decreases n,
{
    if n >= 10 {
        let front: usize = digit_count(n / 10);
        proof {
            lemma_count_bound(n as nat);
        }
        front + 1
    } else {
        proof {
            lemma_count_bound(n as nat);
        }
        1
    }
}

/// Ten to the `k`.
pub open spec fn ten_to(k: nat) -> nat
    decreases k,
{
    if k == 0 {
        1
    } else {
        10 * ten_to((k - 1) as nat)
    }
}

/// A number has as many digits as the least power of ten above it has zeros.
pub proof fn lemma_count_bound(n: nat)
    ensures
        nat_text(n).len() >= 1,
        n < ten_to(nat_text(n).len()),
        n < 0x1_0000_0000_0000_0000 ==> nat_text(n).len() <= 20,
    decreases n,
{
    if n >= 10 {
        lemma_count_bound(n / 10);
        assert(nat_text(n).len() == nat_text(n / 10).len() + 1);
        assert(ten_to(nat_text(n).len()) == 10 * ten_to(nat_text(n / 10).len()));
        if n < 0x1_0000_0000_0000_0000 && nat_text(n).len() > 20 {
            lemma_ten_to_grows(20, nat_text(n / 10).len());
            lemma_count_least(n / 10);
            assert(ten_to(20) == 100_000_000_000_000_000_000) by {
                reveal_with_fuel(ten_to, 21);
            }
        }
    } else {
        assert(nat_text(n).len() == 1);
        assert(ten_to(1) == 10) by {
            reveal_with_fuel(ten_to, 2);
        }
    }
}

/// A number of more than one digit is at least the power of ten with as many zeros as
/// it has digits but one.
pub proof fn lemma_count_least(n: nat)
    ensures
        nat_text(n).len() > 1 ==> n >= ten_to((nat_text(n).len() - 1) as nat),
    decreases n,
{
    if n >= 10 {
        lemma_count_least(n / 10);
        assert(nat_text(n).len() == nat_text(n / 10).len() + 1);
        if nat_text(n / 10).len() == 1 {
            assert(ten_to(1) == 10) by {
                reveal_with_fuel(ten_to, 2);
            }
        } else {
            assert(ten_to((nat_text(n).len() - 1) as nat) == 10 * ten_to(
                (nat_text(n / 10).len() - 1) as nat,
            ));
        }
    } else {
        assert(nat_text(n).len() == 1);
    }
}

/// A greater power of ten is a greater number.
pub proof fn lemma_ten_to_grows(a: nat, b: nat)
    requires
        a <= b,
    ensures
        ten_to(a) <= ten_to(b),
    decreases b,
{
    if a < b {
        lemma_ten_to_grows(a, (b - 1) as nat);
    }
}

/// Appends `n` zeros to `out`.
pub fn push_zeros(out: &mut String, n: usize)
    ensures
        final(out)@ == old(out)@ + zeros(n as nat),
{
    let mut i: usize = 0;
    proof {
        reveal_strlit("0");
        assert(out@ + zeros(0) =~= out@);
    }
    while i < n
        invariant
            0 <= i <= n,
            out@ == old(out)@ + zeros(i as nat),
        decreases n - i,
    {
        out.append("0");
        proof {
            reveal_strlit("0");
            assert(old(out)@ + zeros(i as nat) + "0"@ =~= old(out)@ + zeros((i + 1) as nat));
        }
        i = i + 1;
    }
}

/// Appends `frac` in `digits` digits to `out`.
pub fn push_fraction(out: &mut String, frac: u64, digits: usize)
    ensures
        final(out)@ == old(out)@ + fraction_text(frac as nat, digits as nat),
{
    let count: usize = digit_count(frac);
    if digits > count {
        push_zeros(out, digits - count);
    }
    push_nat(out, frac);
    proof {
        if digits > count {
            assert(old(out)@ + zeros((digits - count) as nat) + nat_text(frac as nat) =~= old(
                out,
            )@ + (zeros((digits - count) as nat) + nat_text(frac as nat)));
        }
    }
}

} // verus!
