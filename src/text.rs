//! The textual form of a bit-write directive: `u <value> <width>bit`.

use vstd::prelude::*;

verus! {

/// The ASCII character of a decimal digit.
pub open spec fn digit_char(d: nat) -> char {
    if d == 0 { '0' }
    else if d == 1 { '1' }
    else if d == 2 { '2' }
    else if d == 3 { '3' }
    else if d == 4 { '4' }
    else if d == 5 { '5' }
    else if d == 6 { '6' }
    else if d == 7 { '7' }
    else if d == 8 { '8' }
    else { '9' }
}

/// The decimal notation of `n`, most significant digit first, with no
/// leading zeros (zero itself is `"0"`).
pub open spec fn decimal(n: nat) -> Seq<char>
    decreases n,
{
    if n < 10 {
        seq![digit_char(n)]
    } else {
        decimal(n / 10).push(digit_char(n % 10))
    }
}

/// The directive that writes `value` using exactly `width` bits.
pub open spec fn directive(value: nat, width: nat) -> Seq<char> {
    seq!['u', ' '] + decimal(value) + seq![' '] + decimal(width) + seq!['b', 'i', 't']
}

fn digit_str(d: u8) -> (r: &'static str)
    requires
        d < 10,
    ensures
        r@ == seq![digit_char(d as nat)],
{
    proof {
        reveal_strlit("0");
        reveal_strlit("1");
        reveal_strlit("2");
        reveal_strlit("3");
        reveal_strlit("4");
        reveal_strlit("5");
        reveal_strlit("6");
        reveal_strlit("7");
        reveal_strlit("8");
        reveal_strlit("9");
    }
    match d {
        0 => "0",
        1 => "1",
        2 => "2",
        3 => "3",
        4 => "4",
        5 => "5",
        6 => "6",
        7 => "7",
        8 => "8",
        _ => "9",
    }
}

/// Appends the decimal notation of `n` to `out`.
pub fn push_decimal(out: &mut String, n: u128)
    ensures
        final(out)@ == old(out)@ + decimal(n as nat),
    decreases n,
{
    if n >= 10 {
        push_decimal(out, n / 10);
    }
    out.append(digit_str((n % 10) as u8));
    assert(old(out)@ + decimal(n as nat) =~= final(out)@);
}

/// The directive that writes `value` using exactly `width` bits.
pub fn write_directive(value: u128, width: u32) -> (r: String)
    ensures
        r@ == directive(value as nat, width as nat),
{
    proof {
        reveal_strlit("u ");
        reveal_strlit(" ");
        reveal_strlit("bit");
    }
    let mut s = String::from_str("u ");
    push_decimal(&mut s, value);
    s.append(" ");
    push_decimal(&mut s, width as u128);
    s.append("bit");
    s
}

/// `2` raised to the power `w`: the values that `w` bits can hold.
pub open spec fn bit_limit(w: nat) -> nat
    decreases w,
{
    if w == 0 {
        1
    } else {
        2 * bit_limit((w - 1) as nat)
    }
}

proof fn lemma_bit_limit_grows(a: nat, b: nat)
    requires
        a <= b,
    ensures
        bit_limit(a) <= bit_limit(b),
    decreases b,
{
    if a < b {
        lemma_bit_limit_grows(a, (b - 1) as nat);
    }
}

/// Whether `value` can be written in `width` bits.
pub fn fits_in_bits(value: u64, width: u32) -> (r: bool)
    ensures
        r == (value < bit_limit(width as nat)),
{
    proof {
        reveal_with_fuel(bit_limit, 65);
        assert(bit_limit(64) == 0x1_0000_0000_0000_0000nat);
    }
    if width >= 64 {
        proof {
            lemma_bit_limit_grows(64, width as nat);
        }
        return true;
    }
    let mut limit: u128 = 1;
    let mut k: u32 = 0;
    while k < width
        invariant
            k <= width < 64,
            limit == bit_limit(k as nat),
            bit_limit(64) == 0x1_0000_0000_0000_0000nat,
        decreases width - k,
    {
        proof {
            lemma_bit_limit_grows((k + 1) as nat, 64);
        }
        limit = limit * 2;
        k = k + 1;
    }
    (value as u128) < limit
}

} // verus!
