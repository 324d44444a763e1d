//! Sizes in bytes as people read them.

use vstd::prelude::*;
use vstd::string::StringExecFns;

use crate::text::{decimal, decimal_text, digit, digit_char};

verus! {

/// The unit of the given rank.
pub open spec fn unit_name(rank: nat) -> Seq<char> {
    if rank == 0 {
        "B"@
    } else if rank == 1 {
        "KB"@
    } else if rank == 2 {
        "MB"@
    } else if rank == 3 {
        "GB"@
    } else {
        "TB"@
    }
}

/// The bytes in one unit of the given rank.
pub open spec fn unit_size(rank: nat) -> nat
    decreases rank,
{
    if rank == 0 {
        1
    } else {
        1024 * unit_size((rank - 1) as nat)
    }
}

/// The rank of the largest unit, up to the fourth, that the bytes fill.
pub open spec fn unit_rank(bytes: nat) -> nat {
    if bytes >= unit_size(4) {
        4
    } else if bytes >= unit_size(3) {
        3
    } else if bytes >= unit_size(2) {
        2
    } else if bytes >= unit_size(1) {
        1
    } else {
        0
    }
}

/// The integer nearest to `n / d`, the even one of two that are equally near.
pub open spec fn round_half_even(n: nat, d: nat) -> nat
    recommends
        d > 0,
{
    let down = n / d;
    let rest = n % d;
    if 2 * rest < d || (2 * rest == d && down % 2 == 0) {
        down
    } else {
        down + 1
    }
}

/// The distance between neighbouring numbers of 53 significant bits around `n`.
pub open spec fn spacing(n: nat) -> nat
    decreases n,
{
    if n < 0x20_0000_0000_0000 {
        1
    } else {
        2 * spacing(n / 2)
    }
}

/// The number of at most 53 significant bits that is nearest to `n`: what `n` is as a
/// double-precision number.
pub open spec fn to_double(n: nat) -> nat {
    round_half_even(n, spacing(n)) * spacing(n)
}

/// The size in hundredths of the unit it is given in.
pub open spec fn hundredths(bytes: nat) -> nat {
    round_half_even(to_double(bytes) * 100, unit_size(unit_rank(bytes)))
}

/// A size as people read it: plain bytes below the first unit, and two decimals of the
/// largest unit that it fills above.
pub open spec fn size_text(bytes: nat) -> Seq<char> {
    let rank = unit_rank(bytes);
    if rank == 0 {
        decimal(bytes) + " "@ + unit_name(rank)
    } else {
        let h = hundredths(bytes);
        decimal(h / 100).push('.').push(digit((h / 10) % 10)).push(digit(h % 10)) + " "@
            + unit_name(rank)
    }
}

/// The integer nearest to `n / d`, the even one of two that are equally near.
fn rounded_quotient(n: u128, d: u128) -> (r: u128)
    requires
        0 < d <= 0x1_0000_0000_0000_0000,
        n <= 0x100_0000_0000_0000_0000,
    ensures
        r == round_half_even(n as nat, d as nat),
{
    let down: u128 = n / d;
    let rest: u128 = n % d;
    proof {
        assert(down <= n) by (nonlinear_arith)
            requires
                d > 0,
                down == n / d,
        ;
    }
    if 2 * rest < d || (2 * rest == d && down % 2 == 0) {
        down
    } else {
        down + 1
    }
}

/// The distance between neighbouring numbers of 53 significant bits around `n`.
fn spacing_at(n: u64) -> (r: u64)
    ensures
        r == spacing(n as nat),
        0 < r <= 0x1000,
        r as nat * 0x10_0000_0000_0000 <= n || r == 1,
    decreases n,
{
    if n < 0x20_0000_0000_0000 {
        1
    } else {
        let half = spacing_at(n / 2);
        assert(2 * half * 0x10_0000_0000_0000 <= n);
        2 * half
    }
}

/// Writes a size as people read it.
pub fn format_bytes(bytes: u64) -> (r: String)
    ensures
        r@ == size_text(bytes as nat),
{
    assert(unit_size(1) == 1024 && unit_size(2) == 0x10_0000 && unit_size(3) == 0x4000_0000
        && unit_size(4) == 0x100_0000_0000) by {
        reveal_with_fuel(unit_size, 5);
    }
    let (unit, name): (u128, &str) = if bytes >= 0x100_0000_0000 {
        (0x100_0000_0000, "TB")
    } else if bytes >= 0x4000_0000 {
        (0x4000_0000, "GB")
    } else if bytes >= 0x10_0000 {
        (0x10_0000, "MB")
    } else if bytes >= 1024 {
        (1024, "KB")
    } else {
        (1, "B")
    };
    if bytes < 1024 {
        return decimal_text(bytes).concat(" ").concat(name);
    }
    let step = spacing_at(bytes);
    let steps = rounded_quotient(bytes as u128, step as u128);
    proof {
        assert(steps * step <= bytes + step) by (nonlinear_arith)
            requires
                step > 0,
                steps <= bytes as int / step as int + 1,
        ;
    }
    let double: u128 = steps * step as u128;
    let h: u128 = rounded_quotient(double * 100, unit);
    proof {
        assert(h <= 0x4000_0000_0000_0000) by (nonlinear_arith)
            requires
                h <= (double * 100) as int / unit as int + 1,
                unit >= 1024,
                double * 100 <= 0x80_0000_0000_0000_0000,
        ;
    }
    let h: u64 = h as u64;
    let mut out = decimal_text(h / 100);
    out.push('.');
    out.push(digit_char((h / 10) % 10));
    out.push(digit_char(h % 10));
    out.concat(" ").concat(name)
}

/// Rounding gives the nearest integer, and of two that are equally near the even one.
proof fn lemma_rounding_is_near(n: nat, d: nat)
    requires
        d > 0,
    ensures
        -(d as int) <= 2 * (d * round_half_even(n, d) - n) <= d,
        2 * (d * round_half_even(n, d) - n) == d || 2 * (d * round_half_even(n, d) - n) == -(
        d as int) ==> round_half_even(n, d) % 2 == 0,
{
    let down = n / d;
    let rest = n % d;
    vstd::arithmetic::div_mod::lemma_fundamental_div_mod(n as int, d as int);
    assert(n == d * down + rest);
    assert(rest < d);
    assert(d * (down + 1) == d * down + d) by (nonlinear_arith);
}

/// Neighbouring numbers of 53 significant bits below two to the 64th are less than 4096 apart.
proof fn lemma_spacing_is_small(n: nat)
    ensures
        spacing(n) >= 1,
        spacing(n) == 1 || spacing(n) * 0x10_0000_0000_0000 <= n,
        n < 0x20_0000_0000_0000 ==> spacing(n) == 1,
    decreases n,
{
    if n >= 0x20_0000_0000_0000 {
        lemma_spacing_is_small(n / 2);
    }
}

/// A double-precision number is near the integer it stands for, and equal to it where 53 bits
/// are enough.
proof fn lemma_double_is_near(n: nat)
    requires
        n < 0x1_0000_0000_0000_0000,
    ensures
        -4096 < 2 * (to_double(n) - n) < 4096,
        n < 0x20_0000_0000_0000 ==> to_double(n) == n,
{
    let step = spacing(n);
    lemma_spacing_is_small(n);
    lemma_rounding_is_near(n, step);
    assert(to_double(n) == step * round_half_even(n, step)) by (nonlinear_arith)
        requires
            to_double(n) == round_half_even(n, step) * step,
    ;
}

/// How a size is written: plain below a kilobyte, and above as a number of hundredths of the
/// largest unit up to the terabyte that it fills, the nearest to the size and of two that are
/// equally near the even one. Where the size needs more than 53 bits the number may be off by
/// what a double-precision number is.
pub proof fn law_size_in_hundredths_of_its_unit(bytes: nat)
    requires
        bytes < 0x1_0000_0000_0000_0000,
    ensures
        bytes < 1024 ==> size_text(bytes) == decimal(bytes) + " B"@,
        1024 <= bytes < 1024 * 1024 ==> exists|h: nat|
            {
                &&& size_text(bytes) == #[trigger] decimal(h / 100) + "."@ + decimal((h / 10) % 10)
                    + decimal(h % 10) + " KB"@
                &&& -1024 <= 2 * (1024 * h - 100 * bytes) <= 1024
                &&& 2 * (1024 * h - 100 * bytes) == 1024 || 2 * (1024 * h - 100 * bytes) == -1024
                    ==> h % 2 == 0
            },
        1024 * 1024 <= bytes < 0x4000_0000 ==> exists|h: nat|
            {
                &&& size_text(bytes) == #[trigger] decimal(h / 100) + "."@ + decimal((h / 10) % 10)
                    + decimal(h % 10) + " MB"@
                &&& -0x10_0000 <= 2 * (0x10_0000 * h - 100 * bytes) <= 0x10_0000
                &&& 2 * (0x10_0000 * h - 100 * bytes) == 0x10_0000 || 2 * (0x10_0000 * h - 100
                    * bytes) == -0x10_0000 ==> h % 2 == 0
            },
        0x4000_0000 <= bytes < 0x100_0000_0000 ==> exists|h: nat|
            {
                &&& size_text(bytes) == #[trigger] decimal(h / 100) + "."@ + decimal((h / 10) % 10)
                    + decimal(h % 10) + " GB"@
                &&& -0x4000_0000 <= 2 * (0x4000_0000 * h - 100 * bytes) <= 0x4000_0000
                &&& 2 * (0x4000_0000 * h - 100 * bytes) == 0x4000_0000 || 2 * (0x4000_0000 * h - 100
                    * bytes) == -0x4000_0000 ==> h % 2 == 0
            },
        bytes >= 0x100_0000_0000 ==> exists|h: nat|
            {
                let off = if bytes < 0x20_0000_0000_0000 {
                    0int
                } else {
                    409_600int
                };
                &&& size_text(bytes) == #[trigger] decimal(h / 100) + "."@ + decimal((h / 10) % 10)
                    + decimal(h % 10) + " TB"@
                &&& -0x100_0000_0000 - off <= 2 * (0x100_0000_0000 * h - 100 * bytes)
                    <= 0x100_0000_0000 + off
                &&& off == 0 && (2 * (0x100_0000_0000 * h - 100 * bytes) == 0x100_0000_0000 || 2 * (
                0x100_0000_0000 * h - 100 * bytes) == -0x100_0000_0000) ==> h % 2 == 0
            },
{
    assert(unit_size(1) == 1024 && unit_size(2) == 0x10_0000 && unit_size(3) == 0x4000_0000
        && unit_size(4) == 0x100_0000_0000) by {
        reveal_with_fuel(unit_size, 5);
    }
    reveal_strlit(" ");
    reveal_strlit(".");
    reveal_strlit("B");
    reveal_strlit("KB");
    reveal_strlit("MB");
    reveal_strlit("GB");
    reveal_strlit("TB");
    reveal_strlit(" B");
    reveal_strlit(" KB");
    reveal_strlit(" MB");
    reveal_strlit(" GB");
    reveal_strlit(" TB");
    assert(" "@ + "B"@ == " B"@);
    assert(" "@ + "KB"@ == " KB"@);
    assert(" "@ + "MB"@ == " MB"@);
    assert(" "@ + "GB"@ == " GB"@);
    assert(" "@ + "TB"@ == " TB"@);
    let rank = unit_rank(bytes);
    if rank == 0 {
        assert(decimal(bytes) + " "@ + "B"@ == decimal(bytes) + " B"@);
    } else {
        let h = hundredths(bytes);
        let name = unit_name(rank);
        lemma_double_is_near(bytes);
        lemma_rounding_is_near(to_double(bytes) * 100, unit_size(rank));
        assert(decimal((h / 10) % 10) == seq![digit((h / 10) % 10)]);
        assert(decimal(h % 10) == seq![digit(h % 10)]);
        assert(decimal(h / 100).push('.').push(digit((h / 10) % 10)).push(digit(h % 10)) + " "@
            + name == decimal(h / 100) + "."@ + decimal((h / 10) % 10) + decimal(h % 10) + (" "@
            + name));
    }
}

} // verus!
