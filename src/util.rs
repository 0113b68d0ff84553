use vstd::prelude::*;

verus! {

/// The character that writes the decimal digit `d`.
pub open spec fn digit_char(d: nat) -> char {
    seq!['0', '1', '2', '3', '4', '5', '6', '7', '8', '9'][d as int]
}

/// `n` written in decimal, most significant digit first, without leading zeros.
pub open spec fn decimal(n: nat) -> Seq<char>
    decreases n,
{
    if n < 10 {
        seq![digit_char(n)]
    } else {
        decimal(n / 10).push(digit_char(n % 10))
    }
}

/// The three digits of `r` (below 1000), zero-padded.
pub open spec fn three_digits(r: nat) -> Seq<char> {
    seq![digit_char(r / 100), digit_char((r / 10) % 10), digit_char(r % 10)]
}

/// `n` in decimal with a comma between each group of three digits, counted from the right.
pub open spec fn grouped(n: nat) -> Seq<char>
    decreases n,
{
    if n < 1000 {
        decimal(n)
    } else {
        grouped(n / 1000) + seq![','] + three_digits(n % 1000)
    }
}

/// Appends the one-character string of digit `d`.
fn push_digit(out: &mut String, d: usize)
    requires
        d < 10,
    ensures
        final(out)@ == old(out)@.push(digit_char(d as nat)),
{
    let s: &str = match d {
        0 => {
            proof { reveal_strlit("0"); }
            "0"
        },
        1 => {
            proof { reveal_strlit("1"); }
            "1"
        },
        2 => {
            proof { reveal_strlit("2"); }
            "2"
        },
        3 => {
            proof { reveal_strlit("3"); }
            "3"
        },
        4 => {
            proof { reveal_strlit("4"); }
            "4"
        },
        5 => {
            proof { reveal_strlit("5"); }
            "5"
        },
        6 => {
            proof { reveal_strlit("6"); }
            "6"
        },
        7 => {
            proof { reveal_strlit("7"); }
            "7"
        },
        8 => {
            proof { reveal_strlit("8"); }
            "8"
        },
        _ => {
            proof { reveal_strlit("9"); }
            "9"
        },
    };
    assert(s@ =~= seq![digit_char(d as nat)]);
    out.append(s);
}

/// Appends `n` in decimal.
pub(crate) fn push_decimal(out: &mut String, n: u128)
    ensures
        final(out)@ == old(out)@ + decimal(n as nat),
    decreases n,
{
    if n < 10 {
        push_digit(out, n as usize);
        assert(decimal(n as nat) =~= seq![digit_char(n as nat)]);
    } else {
        push_decimal(out, n / 10);
        push_digit(out, (n % 10) as usize);
    }
    assert(final(out)@ =~= old(out)@ + decimal(n as nat));
}

fn push_grouped(out: &mut String, n: usize)
    ensures
        final(out)@ == old(out)@ + grouped(n as nat),
    decreases n,
{
    if n < 1000 {
        push_decimal(out, n as u128);
    } else {
        push_grouped(out, n / 1000);
        proof { reveal_strlit(","); }
        out.append(",");
        let r = n % 1000;
        push_digit(out, r / 100);
        push_digit(out, (r / 10) % 10);
        push_digit(out, r % 10);
    }
    assert(final(out)@ =~= old(out)@ + grouped(n as nat));
}

/// Writes `num` in decimal with commas between groups of three digits
/// (`10231024` becomes `10,231,024`).
pub fn pretty_print_number(num: usize) -> (r: String)
    ensures
        r@ == grouped(num as nat),
{
    let mut out = String::new();
    push_grouped(&mut out, num);
    assert(out@ =~= grouped(num as nat));
    out
}


/// The power of 1024 that picks the unit for `n` bytes: the largest whose
/// power does not exceed `n`, at most 3 (gibibytes).
pub open spec fn unit_exponent(n: nat) -> nat {
    if n >= 1073741824 {
        3
    } else if n >= 1048576 {
        2
    } else if n >= 1024 {
        1
    } else {
        0
    }
}

pub open spec fn unit_power(e: nat) -> nat {
    if e == 3 {
        1073741824
    } else if e == 2 {
        1048576
    } else if e == 1 {
        1024
    } else {
        1
    }
}

pub open spec fn unit_name(e: nat) -> Seq<char> {
    if e == 3 {
        seq!['G', 'i', 'B']
    } else if e == 2 {
        seq!['M', 'i', 'B']
    } else if e == 1 {
        seq!['k', 'i', 'B']
    } else {
        seq!['B']
    }
}

/// `a / d` rounded to the nearest integer, ties to the even one.
pub open spec fn round_half_even(a: nat, d: nat) -> nat
    recommends
        d > 0,
{
    let q = a / d;
    let r = a % d;
    if 2 * r > d || (2 * r == d && q % 2 == 1) {
        q + 1
    } else {
        q
    }
}

/// `n` bytes in the chosen unit, in hundredths, rounded.
pub open spec fn hundredths(n: nat) -> nat {
    round_half_even(n * 100, unit_power(unit_exponent(n)))
}

/// A byte count written with two decimals and its binary unit
/// (`1024` becomes `1.00 kiB`); zero is written `0 B`.
pub open spec fn readable_bytes(n: nat) -> Seq<char> {
    if n == 0 {
        seq!['0', ' ', 'B']
    } else {
        let h = hundredths(n);
        decimal(h / 100) + seq!['.', digit_char((h / 10) % 10), digit_char(h % 10), ' ']
            + unit_name(unit_exponent(n))
    }
}

/// Writes a byte count with two decimals in B, kiB, MiB or GiB.
pub fn human_readable_bytes(num: usize) -> (r: String)
    ensures
        r@ == readable_bytes(num as nat),
{
    let mut out = String::new();
    if num < 1 {
        proof { reveal_strlit("0 B"); }
        out.append("0 B");
        assert(out@ =~= readable_bytes(num as nat));
        return out;
    }
    let n = num as u128;
    let (power, unit): (u128, &str) = if n >= 1073741824 {
        proof { reveal_strlit("GiB"); }
        (1073741824, "GiB")
    } else if n >= 1048576 {
        proof { reveal_strlit("MiB"); }
        (1048576, "MiB")
    } else if n >= 1024 {
        proof { reveal_strlit("kiB"); }
        (1024, "kiB")
    } else {
        proof { reveal_strlit("B"); }
        (1, "B")
    };
    assert(power as nat == unit_power(unit_exponent(num as nat)));
    assert(unit@ =~= unit_name(unit_exponent(num as nat)));
    let a = n * 100;
    let q = a / power;
    let rem = a % power;
    let h = if 2 * rem > power || (2 * rem == power && q % 2 == 1) {
        q + 1
    } else {
        q
    };
    assert(h as nat == hundredths(num as nat));
    push_decimal(&mut out, h / 100);
    proof { reveal_strlit("."); }
    out.append(".");
    push_digit(&mut out, ((h / 10) % 10) as usize);
    push_digit(&mut out, (h % 10) as usize);
    proof { reveal_strlit(" "); }
    out.append(" ");
    out.append(unit);
    assert(out@ =~= readable_bytes(num as nat));
    out
}

} // verus!
