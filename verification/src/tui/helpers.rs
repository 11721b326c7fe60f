//! Texts for the screen.

use vstd::prelude::*;
use vstd::string::*;

verus! {

/// The bytes of a kilobyte.
pub const KB: u64 = 1024;

/// The bytes of a megabyte.
pub const MB: u64 = KB * 1024;

/// The bytes of a gigabyte.
pub const GB: u64 = MB * 1024;

/// The least number that 53 bits cannot hold.
pub const EXACT_LIMIT: u64 = 0x20_0000_0000_0000;

/// The text of one decimal digit.
pub open spec fn digit_text(d: nat) -> Seq<char>
    recommends
        d < 10,
{
    if d == 0 {
        "0"@
    } else if d == 1 {
        "1"@
    } else if d == 2 {
        "2"@
    } else if d == 3 {
        "3"@
    } else if d == 4 {
        "4"@
    } else if d == 5 {
        "5"@
    } else if d == 6 {
        "6"@
    } else if d == 7 {
        "7"@
    } else if d == 8 {
        "8"@
    } else {
        "9"@
    }
}

/// The decimal digits of a number, without leading zeros.
pub open spec fn decimal(n: nat) -> Seq<char>
    decreases n,
{
    if n < 10 {
        digit_text(n)
    } else {
        decimal(n / 10) + digit_text(n % 10)
    }
}

/// The first of `u`, `2 * u`, `4 * u`, ... by which `size` must be divided
/// to fit into 53 bits.
pub open spec fn spacing_from(size: nat, u: nat) -> nat
    decreases size - u,
{
    if u == 0 || size < EXACT_LIMIT * u {
        u
    } else {
        spacing_from(size, 2 * u)
    }
}

/// The powers of two up to 2048.
pub open spec fn is_small_power_of_two(u: nat) -> bool {
    ||| u == 1
    ||| u == 2
    ||| u == 4
    ||| u == 8
    ||| u == 16
    ||| u == 32
    ||| u == 64
    ||| u == 128
    ||| u == 256
    ||| u == 512
    ||| u == 1024
    ||| u == 2048
}

/// The distance between the numbers of 53 significant bits around `size`.
pub open spec fn spacing(size: nat) -> nat {
    spacing_from(size, 1)
}

/// `a / d`, rounded to the nearest whole number, a tie to the even one.
pub open spec fn div_half_even(a: nat, d: nat) -> nat
    recommends
        d > 0,
{
    let q = a / d;
    let r = a % d;
    if 2 * r > d || (2 * r == d && q % 2 == 1) {
        q + 1
    } else {
        q
    }
}

/// The number of 53 significant bits nearest to `size`, a tie to the one
/// whose last bit is 0. Sizes below 2^53 are their own.
pub open spec fn nearest_53_bits(size: nat) -> nat {
    let u = spacing(size);
    let q = size / u;
    let r = size % u;
    if 2 * r > u || (2 * r == u && q % 2 == 1) {
        (size - r + u) as nat
    } else {
        (size - r) as nat
    }
}

/// The unit in which a size is shown: the largest of GB, MB and KB that the
/// size reaches, the byte below a kilobyte.
pub open spec fn unit_of(size: nat) -> nat {
    if size >= GB {
        GB as nat
    } else if size >= MB {
        MB as nat
    } else if size >= KB {
        KB as nat
    } else {
        1
    }
}

/// The name of that unit, after a space.
pub open spec fn unit_label(size: nat) -> Seq<char> {
    if size >= GB {
        " GB"@
    } else if size >= MB {
        " MB"@
    } else if size >= KB {
        " KB"@
    } else {
        " B"@
    }
}

/// A size of a kilobyte or more in tenths of its unit: the size, held in 53
/// significant bits, divided by a tenth of the unit, a tie to the even tenth.
pub open spec fn tenths_of_unit(size: nat) -> nat {
    div_half_even(nearest_53_bits(size) * 10, unit_of(size))
}

/// The text of a size. Below a kilobyte: the bytes and ` B`. From a
/// kilobyte on: the size in its unit with one decimal, and the unit's name.
pub open spec fn size_text(size: nat) -> Seq<char> {
    if size >= KB {
        decimal(tenths_of_unit(size) / 10) + "."@ + digit_text(tenths_of_unit(size) % 10)
            + unit_label(size)
    } else {
        decimal(size) + " B"@
    }
}

fn digit_str(d: u64) -> (r: &'static str)
    requires
        d < 10,
    ensures
        r@ == digit_text(d as nat),
{
    if d == 0 {
        "0"
    } else if d == 1 {
        "1"
    } else if d == 2 {
        "2"
    } else if d == 3 {
        "3"
    } else if d == 4 {
        "4"
    } else if d == 5 {
        "5"
    } else if d == 6 {
        "6"
    } else if d == 7 {
        "7"
    } else if d == 8 {
        "8"
    } else {
        "9"
    }
}

/// Appends the decimal digits of `n` to `out`.
fn push_decimal(out: &mut String, n: u64)
    ensures
        final(out)@ == old(out)@ + decimal(n as nat),
    decreases n,
{
    if n >= 10 {
        push_decimal(out, n / 10);
    }
    out.append(digit_str(n % 10));
    proof {
        if n >= 10 {
            assert(old(out)@ + decimal(n as nat) =~= (old(out)@ + decimal((n / 10) as nat))
                + digit_text((n % 10) as nat));
        }
    }
}

fn spacing_of(size: u64) -> (u: u64)
    ensures
        u == spacing(size as nat),
        is_small_power_of_two(u as nat),
{
    let mut u: u64 = 1;
    while u < 2048 && size >= EXACT_LIMIT * u
        invariant
            is_small_power_of_two(u as nat),
            spacing(size as nat) == spacing_from(size as nat, u as nat),
        decreases 2048 - u,
    {
        u = u * 2;
    }
    u
}

fn round_to_53_bits(size: u64) -> (r: u128)
    ensures
        r == nearest_53_bits(size as nat),
        r <= size + 2048,
{
    let u = spacing_of(size);
    let q = size / u;
    let r = size % u;
    if 2 * r > u || (2 * r == u && q % 2 == 1) {
        (size - r) as u128 + u as u128
    } else {
        (size - r) as u128
    }
}

fn tenths(size: u64) -> (t: u64)
    requires
        size >= KB,
    ensures
        t == tenths_of_unit(size as nat),
{
    let unit: u128 = if size >= GB {
        GB as u128
    } else if size >= MB {
        MB as u128
    } else {
        KB as u128
    };
    let a: u128 = round_to_53_bits(size) * 10;
    let q = a / unit;
    let r = a % unit;
    let t = if 2 * r > unit || (2 * r == unit && q % 2 == 1) {
        q + 1
    } else {
        q
    };
    t as u64
}

/// The text of a size in bytes, for people to read.
pub fn format_file_size(size: u64) -> (r: String)
    ensures
        r@ == size_text(size as nat),
{
    let mut out = String::new();
    if size >= KB {
        let t = tenths(size);
        push_decimal(&mut out, t / 10);
        out.append(".");
        out.append(digit_str(t % 10));
        if size >= GB {
            out.append(" GB");
        } else if size >= MB {
            out.append(" MB");
        } else {
            out.append(" KB");
        }
    } else {
        push_decimal(&mut out, size);
        out.append(" B");
    }
    proof {
        assert(out@ =~= size_text(size as nat));
    }
    out
}

} // verus!
