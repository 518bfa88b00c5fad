//! Rendering: decimal text for the megabyte values, the severity tier of a
//! value relative to mean and standard deviation, and the colour emphasis
//! applied to elevated and high values.

use vstd::prelude::*;
use vstd::string::StringExecFns;

verus! {

/// The decimal digit character for `d`.
pub open spec fn dec_digit(d: int) -> char
    recommends
        0 <= d < 10,
{
    if d == 0 {
        '0'
    } else if d == 1 {
        '1'
    } else if d == 2 {
        '2'
    } else if d == 3 {
        '3'
    } else if d == 4 {
        '4'
    } else if d == 5 {
        '5'
    } else if d == 6 {
        '6'
    } else if d == 7 {
        '7'
    } else if d == 8 {
        '8'
    } else {
        '9'
    }
}

/// The decimal representation of a non-negative integer, most significant
/// digit first, with no leading zeros (a single `'0'` for zero).
pub open spec fn dec_rep(n: int) -> Seq<char>
    recommends
        0 <= n,
    decreases n,
{
    if n < 10 {
        seq![dec_digit(n)]
    } else {
        dec_rep(n / 10).push(dec_digit(n % 10))
    }
}

/// A single-character string slice for the digit `d`.
fn digit_str(d: u64) -> (r: &'static str)
    requires
        d < 10,
    ensures
        r@ == seq![dec_digit(d as int)],
{
    proof {
        reveal_strlit("0");
        reveal_strlit("1");
        reveal_strlit("2");
        reveal_strlit("3");
        reveal_strlit("4");
        reveal_strlit("5");
        reveal_strlit("6");
        reveal_strlit("7");
        reveal_strlit("8");
        reveal_strlit("9");
    }
    let r = if d == 0 {
        "0"
    } else if d == 1 {
        "1"
    } else if d == 2 {
        "2"
    } else if d == 3 {
        "3"
    } else if d == 4 {
        "4"
    } else if d == 5 {
        "5"
    } else if d == 6 {
        "6"
    } else if d == 7 {
        "7"
    } else if d == 8 {
        "8"
    } else {
        "9"
    };
    proof {
        assert(r@ =~= seq![dec_digit(d as int)]);
    }
    r
}

/// Append the decimal representation of `n` to `out`.
fn push_dec(n: u64, out: &mut String)
    ensures
        final(out)@ == old(out)@ + dec_rep(n as int),
    decreases n,
{
    if n >= 10 {
        push_dec(n / 10, out);
    }
    out.append(digit_str(n % 10));
    proof {
        if n < 10 {
            assert(n as int % 10 == n as int);
            assert(final(out)@ =~= old(out)@ + dec_rep(n as int));
        } else {
            assert(final(out)@ =~= old(out)@ + dec_rep(n as int));
        }
    }
}

/// The decimal text of a non-negative value.
pub fn i64_to_string(n: i64) -> (r: String)
    requires
        0 <= n,
    ensures
        r@ == dec_rep(n as int),
{
    let mut s = String::new();
    push_dec(n as u64, &mut s);
    proof {
        assert(s@ =~= dec_rep(n as int));
    }
    s
}

/// Severity of one aggregated value relative to the run's statistics.
#[derive(PartialEq, Eq, Structural, Clone, Copy, Debug)]
pub enum Tier {
    Normal,
    Elevated,
    High,
}

/// The tier rule: strictly above mean plus standard deviation is high,
/// strictly above the mean alone is elevated, anything else (ties included)
/// is normal.
pub open spec fn tier_for(m: int, mean: int, stddev: int) -> Tier {
    if m > mean + stddev {
        Tier::High
    } else if m > mean {
        Tier::Elevated
    } else {
        Tier::Normal
    }
}

/// Decide the severity tier of the value `m`.
pub fn tier_of(m: i64, mean: i64, stddev: i64) -> (t: Tier)
    requires
        0 <= m,
        0 <= mean,
        0 <= stddev,
    ensures
        t == tier_for(m as int, mean as int, stddev as int),
{
    if m > mean && m - mean > stddev {
        Tier::High
    } else if m > mean {
        Tier::Elevated
    } else {
        Tier::Normal
    }
}

/// The plain text of a value: its decimal digits followed by " MB".
pub open spec fn mb_text(m: int) -> Seq<char> {
    dec_rep(m) + " MB"@
}

/// The ANSI escape that switches the foreground colour to red.
pub open spec fn red_prefix() -> Seq<char> {
    "\u{1b}[31m"@
}

/// The ANSI escape that switches the foreground colour to yellow.
pub open spec fn yellow_prefix() -> Seq<char> {
    "\u{1b}[33m"@
}

/// The ANSI escape that resets all styling.
pub open spec fn style_reset() -> Seq<char> {
    "\u{1b}[0m"@
}

/// The rendered text of one value: the plain "<value> MB" text, wrapped in
/// red emphasis for a high value and yellow emphasis for an elevated one.
pub open spec fn formatted_mb(m: int, mean: int, stddev: int) -> Seq<char> {
    match tier_for(m, mean, stddev) {
        Tier::High => red_prefix() + mb_text(m) + style_reset(),
        Tier::Elevated => yellow_prefix() + mb_text(m) + style_reset(),
        Tier::Normal => mb_text(m),
    }
}

/// Relies on ansi_term::Colour::Red.paint and the Display impl of the
/// returned ANSIString: with only a foreground colour set, the output is
/// the escape "\x1B[31m", the text unchanged, then the reset "\x1B[0m".
#[verifier::external_body]
fn paint_red(text: &str) -> (r: String)
    ensures
        r@ == red_prefix() + text@ + style_reset(),
{
    ansi_term::Colour::Red.paint(text).to_string()
}

/// Relies on ansi_term::Colour::Yellow.paint and the Display impl of the
/// returned ANSIString: with only a foreground colour set, the output is
/// the escape "\x1B[33m", the text unchanged, then the reset "\x1B[0m".
#[verifier::external_body]
fn paint_yellow(text: &str) -> (r: String)
    ensures
        r@ == yellow_prefix() + text@ + style_reset(),
{
    ansi_term::Colour::Yellow.paint(text).to_string()
}

/// Render one aggregated value as "<value> MB", painted red when it lies
/// strictly above mean plus standard deviation, yellow when strictly above
/// the mean alone, and unemphasised otherwise.
pub fn format_mb(m: i64, mean: i64, stddev: i64) -> (r: String)
    requires
        0 <= m,
        0 <= mean,
        0 <= stddev,
    ensures
        r@ == formatted_mb(m as int, mean as int, stddev as int),
{
    let text = i64_to_string(m).concat(" MB");
    proof {
        assert(text@ == mb_text(m as int));
    }
    match tier_of(m, mean, stddev) {
        Tier::High => paint_red(text.as_str()),
        Tier::Elevated => paint_yellow(text.as_str()),
        Tier::Normal => text,
    }
}

} // verus!
