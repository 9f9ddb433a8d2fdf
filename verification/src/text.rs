//! Human-readable rendering of an odometry value: total distance and
//! position in meters with three decimal places, rotation and heading in
//! degrees with one decimal place, all truncated toward zero.

use vstd::prelude::*;
use vstd::math::abs;
use vstd::string::StringExecFns;

use crate::math::{lemma_tdiv_shrinks, mul_div, tdiv, PI_MICRO};
use crate::odometry::Odometry;

verus! {

/// The character of one decimal digit.
pub open spec fn digit_char(d: nat) -> char {
    if d == 0 {
        '0'
    } else if d == 1 {
        '1'
    } else if d == 2 {
        '2'
    } else if d == 3 {
        '3'
    } else if d == 4 {
        '4'
    } else if d == 5 {
        '5'
    } else if d == 6 {
        '6'
    } else if d == 7 {
        '7'
    } else if d == 8 {
        '8'
    } else {
        '9'
    }
}

/// The decimal digits of `n`, most significant first.
pub open spec fn dec_str(n: nat) -> Seq<char>
    decreases n,
{
    if n < 10 {
        seq![digit_char(n)]
    } else {
        dec_str(n / 10).push(digit_char(n % 10))
    }
}

/// Three digits, zero-padded, of a value below one thousand.
pub open spec fn dec3_str(n: nat) -> Seq<char> {
    if n < 10 {
        seq!['0', '0'] + dec_str(n)
    } else if n < 100 {
        seq!['0'] + dec_str(n)
    } else {
        dec_str(n)
    }
}

/// A signed count of thousandths, rendered with three decimal places.
pub open spec fn fixed3_str(m: int) -> Seq<char> {
    let sign: Seq<char> = if m < 0 {
        seq!['-']
    } else {
        Seq::empty()
    };
    sign + dec_str((abs(m) / 1000) as nat) + seq!['.'] + dec3_str((abs(m) % 1000) as nat)
}

/// A signed count of tenths, rendered with one decimal place.
pub open spec fn fixed1_str(m: int) -> Seq<char> {
    let sign: Seq<char> = if m < 0 {
        seq!['-']
    } else {
        Seq::empty()
    };
    sign + dec_str((abs(m) / 10) as nat) + seq!['.'] + dec_str((abs(m) % 10) as nat)
}

/// Microradians in tenths of a degree, truncated toward zero.
pub open spec fn tenth_degrees(urad: int) -> int {
    tdiv(urad * 1800, PI_MICRO as int)
}

/// The full rendering: distance and position in meters, rotation and
/// heading in degrees.
pub open spec fn spec_render(o: Odometry) -> Seq<char> {
    "Odometry: { s: "@ + fixed3_str(tdiv(o.s as int, 1000)) + ", a: "@ + fixed1_str(
        tenth_degrees(o.a as int),
    ) + "\u{00b0}, x: "@ + fixed3_str(tdiv(o.pose.x as int, 1000)) + ", y: "@ + fixed3_str(
        tdiv(o.pose.y as int, 1000),
    ) + ", theta: "@ + fixed1_str(tenth_degrees(o.pose.theta as int)) + "\u{00b0} }"@
}

/// Append one decimal digit.
fn append_digit(out: &mut String, d: u64)
    requires
        d < 10,
    ensures
        final(out)@ == old(out)@ + seq![digit_char(d as nat)],
{
    if d == 0 {
        out.append("0");
        proof {
            reveal_strlit("0");
            assert(("0")@ =~= seq![digit_char(0)]);
        }
    } else if d == 1 {
        out.append("1");
        proof {
            reveal_strlit("1");
            assert(("1")@ =~= seq![digit_char(1)]);
        }
    } else if d == 2 {
        out.append("2");
        proof {
            reveal_strlit("2");
            assert(("2")@ =~= seq![digit_char(2)]);
        }
    } else if d == 3 {
        out.append("3");
        proof {
            reveal_strlit("3");
            assert(("3")@ =~= seq![digit_char(3)]);
        }
    } else if d == 4 {
        out.append("4");
        proof {
            reveal_strlit("4");
            assert(("4")@ =~= seq![digit_char(4)]);
        }
    } else if d == 5 {
        out.append("5");
        proof {
            reveal_strlit("5");
            assert(("5")@ =~= seq![digit_char(5)]);
        }
    } else if d == 6 {
        out.append("6");
        proof {
            reveal_strlit("6");
            assert(("6")@ =~= seq![digit_char(6)]);
        }
    } else if d == 7 {
        out.append("7");
        proof {
            reveal_strlit("7");
            assert(("7")@ =~= seq![digit_char(7)]);
        }
    } else if d == 8 {
        out.append("8");
        proof {
            reveal_strlit("8");
            assert(("8")@ =~= seq![digit_char(8)]);
        }
    } else {
        out.append("9");
        proof {
            reveal_strlit("9");
            assert(("9")@ =~= seq![digit_char(9)]);
        }
    }
}

/// Append the decimal digits of `n`.
fn append_dec(out: &mut String, n: u64)
    ensures
        final(out)@ == old(out)@ + dec_str(n as nat),
    decreases n,
{
    if n < 10 {
        append_digit(out, n);
    } else {
        append_dec(out, n / 10);
        append_digit(out, n % 10);
        proof {
            assert(dec_str(n as nat) =~= dec_str((n as nat) / 10) + seq![
                digit_char((n as nat) % 10),
            ]);
        }
    }
}

/// Append exactly three digits, zero-padded, of a value below one thousand.
fn append_dec3(out: &mut String, n: u64)
    requires
        n < 1000,
    ensures
        final(out)@ == old(out)@ + dec3_str(n as nat),
{
    if n < 10 {
        out.append("00");
        append_digit(out, n);
        proof {
            reveal_strlit("00");
            assert(("00")@ + seq![digit_char(n as nat)] =~= dec3_str(n as nat));
        }
    } else if n < 100 {
        out.append("0");
        append_dec(out, n);
        proof {
            reveal_strlit("0");
            assert(("0")@ + dec_str(n as nat) =~= dec3_str(n as nat));
        }
    } else {
        append_dec(out, n);
    }
}

/// The magnitude of a value, as an unsigned number.
fn magnitude(v: i64) -> (m: u64)
    ensures
        m as int == abs(v as int),
{
    if v < 0 {
        (-(v as i128)) as u64
    } else {
        v as u64
    }
}

/// Append a signed count of thousandths with three decimal places.
fn append_fixed3(out: &mut String, m: i64)
    ensures
        final(out)@ == old(out)@ + fixed3_str(m as int),
{
    let ghost start: Seq<char> = out@;
    if m < 0 {
        out.append("-");
        proof {
            reveal_strlit("-");
            assert(("-")@ =~= seq!['-']);
        }
    }
    let mag: u64 = magnitude(m);
    append_dec(out, mag / 1000);
    out.append(".");
    proof {
        reveal_strlit(".");
        assert((".")@ =~= seq!['.']);
    }
    append_dec3(out, mag % 1000);
    proof {
        assert(final(out)@ =~= start + fixed3_str(m as int));
    }
}

/// Append a signed count of tenths with one decimal place.
fn append_fixed1(out: &mut String, m: i64)
    ensures
        final(out)@ == old(out)@ + fixed1_str(m as int),
{
    let ghost start: Seq<char> = out@;
    if m < 0 {
        out.append("-");
        proof {
            reveal_strlit("-");
            assert(("-")@ =~= seq!['-']);
        }
    }
    let mag: u64 = magnitude(m);
    append_dec(out, mag / 10);
    out.append(".");
    proof {
        reveal_strlit(".");
        assert((".")@ =~= seq!['.']);
    }
    append_digit(out, mag % 10);
    proof {
        assert(dec_str(((mag % 10) as nat)) =~= seq![digit_char((mag % 10) as nat)]);
        assert(final(out)@ =~= start + fixed1_str(m as int));
    }
}

impl Odometry {
    /// Truncate a coordinate in micrometers to thousandths of a meter.
    fn milli_of(v: i64) -> (m: i64)
        ensures
            m as int == tdiv(v as int, 1000),
    {
        proof {
            lemma_tdiv_shrinks(v as int, 1000);
        }
        let mag: u64 = magnitude(v);
        let q: u64 = mag / 1000;
        if v < 0 {
            -(q as i64)
        } else {
            q as i64
        }
    }

    /// Truncate an angle in microradians to tenths of a degree.
    fn tenth_degrees_of(v: i64) -> (m: i64)
        ensures
            m as int == tenth_degrees(v as int),
    {
        proof {
            crate::math::lemma_tdiv_magnitude(
                (v as int) * 1800,
                PI_MICRO as int,
                6_000_000_000_000_000_000,
            );
        }
        mul_div(v, 1800, PI_MICRO)
    }

    /// Render this odometry for logging: total distance, total rotation,
    /// position and heading, every value truncated toward zero.
    pub fn render(&self) -> (out: String)
        ensures
            out@ == spec_render(*self),
    {
        let mut out: String = String::new();
        out.append("Odometry: { s: ");
        append_fixed3(&mut out, Self::milli_of(self.s));
        out.append(", a: ");
        append_fixed1(&mut out, Self::tenth_degrees_of(self.a));
        out.append("\u{00b0}, x: ");
        append_fixed3(&mut out, Self::milli_of(self.pose.x));
        out.append(", y: ");
        append_fixed3(&mut out, Self::milli_of(self.pose.y));
        out.append(", theta: ");
        append_fixed1(&mut out, Self::tenth_degrees_of(self.pose.theta));
        out.append("\u{00b0} }");
        proof {
            assert(out@ =~= spec_render(*self));
        }
        out
    }
}

} // verus!
