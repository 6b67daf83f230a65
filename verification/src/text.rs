//! Decimal numerals, for the lines of text that describe the arm.

use vstd::prelude::*;

verus! {

/// `String::push` appends the character to the end of the string.
pub assume_specification[ String::push ](s: &mut String, ch: char)
    ensures
        final(s)@ == old(s)@.push(ch),
;

/// The texts that a list of strings holds.
pub open spec fn texts(lines: Seq<String>) -> Seq<Seq<char>> {
    lines.map_values(|line: String| line@)
}

/// The character for a single decimal digit.
pub open spec fn digit_char(d: nat) -> char {
    if d == 0 {
        '0'
    } else if d == 1 {
        '1'
    } else if d == 2 {
        '2'
    } else if d == 3 {
        '3'
    } else if d == 4 {
        '4'
    } else if d == 5 {
        '5'
    } else if d == 6 {
        '6'
    } else if d == 7 {
        '7'
    } else if d == 8 {
        '8'
    } else {
        '9'
    }
}

/// The decimal numeral of `n`, without leading zeros.
pub open spec fn decimal(n: nat) -> Seq<char>
    decreases n,
{
    if n < 10 {
        seq![digit_char(n)]
    } else {
        decimal(n / 10).push(digit_char(n % 10))
    }
}

/// The decimal numeral of `v`, with a minus sign where `v` is negative.
pub open spec fn signed_decimal(v: int) -> Seq<char> {
    if v < 0 {
        seq!['-'] + decimal((-v) as nat)
    } else {
        decimal(v as nat)
    }
}

/// The character for the digit `d`.
pub fn digit(d: u64) -> (c: char)
    requires
        d < 10,
    ensures
        c == digit_char(d as nat),
{
    if d == 0 {
        '0'
    } else if d == 1 {
        '1'
    } else if d == 2 {
        '2'
    } else if d == 3 {
        '3'
    } else if d == 4 {
        '4'
    } else if d == 5 {
        '5'
    } else if d == 6 {
        '6'
    } else if d == 7 {
        '7'
    } else if d == 8 {
        '8'
    } else {
        '9'
    }
}

/// Appends the decimal numeral of `n` to `line`.
pub fn push_decimal(line: &mut String, n: u64)
    ensures
        final(line)@ == old(line)@ + decimal(n as nat),
{
    let mut low: Vec<char> = Vec::new();
    let mut rest: u64 = n;
    while rest >= 10
        invariant
            decimal(n as nat) == decimal(rest as nat) + low@.reverse(),
        decreases rest,
    {
        proof {
            let d = digit_char((rest % 10) as nat);
            assert(low@.push(d).reverse() =~= seq![d] + low@.reverse());
            assert(decimal(rest as nat) == decimal((rest / 10) as nat).push(d));
            assert(decimal((rest / 10) as nat).push(d) + low@.reverse() =~= decimal(
                (rest / 10) as nat,
            ) + (seq![d] + low@.reverse()));
        }
        low.push(digit(rest % 10));
        rest = rest / 10;
    }
    line.push(digit(rest));
    let ghost head = line@;
    let mut k: usize = low.len();
    while k > 0
        invariant
            k <= low.len(),
            line@ == head + low@.reverse().take(low.len() - k),
        decreases k,
    {
        k -= 1;
        line.push(low[k]);
        proof {
            let r = low@.reverse();
            assert(r.take(low.len() - k) =~= r.take(low.len() - k - 1).push(low@[k as int]));
        }
    }
    proof {
        assert(low@.reverse().take(low.len() as int) =~= low@.reverse());
        assert(old(line)@.push(digit_char(rest as nat)) + low@.reverse() =~= old(line)@ + (seq![
            digit_char(rest as nat),
        ] + low@.reverse()));
    }
}

/// Appends the decimal numeral of `v`, with its sign, to `line`.
pub fn push_signed_decimal(line: &mut String, v: i32)
    ensures
        final(line)@ == old(line)@ + signed_decimal(v as int),
{
    if v < 0 {
        line.push('-');
        let magnitude: u64 = (-(v as i64)) as u64;
        push_decimal(line, magnitude);
        proof {
            assert(old(line)@.push('-') + decimal(magnitude as nat) =~= old(line)@ + (seq!['-']
                + decimal(magnitude as nat)));
        }
    } else {
        push_decimal(line, v as u64);
    }
}

} // verus!
