//! The name of the day's log file: the date as `YYYY-MM-DD`, then `.log`.

use vstd::prelude::*;
use vstd::string::StringExecFns;

verus! {

/// The character of a decimal digit.
pub open spec fn digit_char(d: int) -> char {
    ((48 + d) as u8) as char
}

/// The decimal digits of a number, without leading zeros.
pub open spec fn decimal(n: nat) -> Seq<char>
    decreases n,
{
    if n < 10 {
        seq![digit_char(n as int)]
    } else {
        decimal(n / 10).push(digit_char((n % 10) as int))
    }
}

/// As many zeros as `count` says, none if it is negative.
pub open spec fn zeros(count: int) -> Seq<char> {
    Seq::new(
        if count > 0 {
            count as nat
        } else {
            0
        },
        |i: int| '0',
    )
}

/// A number written in at least `width` characters, filled up with zeros
/// in front; a minus sign counts towards the width and comes first.
pub open spec fn padded(n: int, width: int) -> Seq<char> {
    if n < 0 {
        seq!['-'] + zeros(width - 1 - decimal((-n) as nat).len()) + decimal((-n) as nat)
    } else {
        zeros(width - decimal(n as nat).len()) + decimal(n as nat)
    }
}

/// The date with a four-digit year, a two-digit month and a two-digit
/// day, joined by hyphens.
pub open spec fn date_text(year: int, month: int, day: int) -> Seq<char> {
    padded(year, 4) + seq!['-'] + padded(month, 2) + seq!['-'] + padded(day, 2)
}

/// The one-character text of a digit.
fn digit_str(d: u8) -> (s: &'static str)
    requires
        d < 10,
    ensures
        s@ == seq![digit_char(d as int)],
{
    proof {
        reveal_strlit("0");
        reveal_strlit("1");
        reveal_strlit("2");
        reveal_strlit("3");
        reveal_strlit("4");
        reveal_strlit("5");
        reveal_strlit("6");
        reveal_strlit("7");
        reveal_strlit("8");
        reveal_strlit("9");
    }
    let s = match d {
        0 => "0",
        1 => "1",
        2 => "2",
        3 => "3",
        4 => "4",
        5 => "5",
        6 => "6",
        7 => "7",
        8 => "8",
        _ => "9",
    };
    assert(s@ =~= seq![digit_char(d as int)]);
    s
}

/// Appends the decimal digits of `n`.
fn push_decimal(out: &mut String, n: u64)
    ensures
        final(out)@ == old(out)@ + decimal(n as nat),
    decreases n,
{
    if n >= 10 {
        push_decimal(out, n / 10);
    }
    out.append(digit_str((n % 10) as u8));
    assert(out@ =~= old(out)@ + decimal(n as nat));
}

/// How many decimal digits `n` has.
fn decimal_len(n: u64) -> (len: usize)
    ensures
        len == decimal(n as nat).len(),
        1 <= len <= 20,
    decreases n,
{
    if n >= 10 {
        let rest = decimal_len(n / 10);
        assert(n / 10 < 1_844_674_407_370_955_162);
        proof {
            lemma_decimal_len(n as nat / 10);
        }
        rest + 1
    } else {
        1
    }
}

/// A number below a power of ten has at most that many digits.
proof fn lemma_decimal_len(n: nat)
    ensures
        n < 10_000_000_000_000_000_000 ==> decimal(n).len() <= 19,
        n < 1_000_000_000_000_000_000 ==> decimal(n).len() <= 18,
        n < 100_000_000_000_000_000 ==> decimal(n).len() <= 17,
        n < 10_000_000_000_000_000 ==> decimal(n).len() <= 16,
        n < 1_000_000_000_000_000 ==> decimal(n).len() <= 15,
        n < 100_000_000_000_000 ==> decimal(n).len() <= 14,
        n < 10_000_000_000_000 ==> decimal(n).len() <= 13,
        n < 1_000_000_000_000 ==> decimal(n).len() <= 12,
        n < 100_000_000_000 ==> decimal(n).len() <= 11,
        n < 10_000_000_000 ==> decimal(n).len() <= 10,
        n < 1_000_000_000 ==> decimal(n).len() <= 9,
        n < 100_000_000 ==> decimal(n).len() <= 8,
        n < 10_000_000 ==> decimal(n).len() <= 7,
        n < 1_000_000 ==> decimal(n).len() <= 6,
        n < 100_000 ==> decimal(n).len() <= 5,
        n < 10_000 ==> decimal(n).len() <= 4,
        n < 1_000 ==> decimal(n).len() <= 3,
        n < 100 ==> decimal(n).len() <= 2,
        n < 10 ==> decimal(n).len() <= 1,
    decreases n,
{
    if n >= 10 {
        lemma_decimal_len(n / 10);
    }
}

/// Appends `n` in at least `width` characters.
fn push_padded(out: &mut String, n: i64, width: usize)
    requires
        width <= 64,
    ensures
        final(out)@ == old(out)@ + padded(n as int, width as int),
{
    let magnitude: u64 = if n < 0 {
        (-(n as i128)) as u64
    } else {
        n as u64
    };
    let mut room: usize = width;
    if n < 0 {
        proof {
            reveal_strlit("-");
        }
        out.append("-");
        if room > 0 {
            room = room - 1;
        }
    }
    let len = decimal_len(magnitude);
    let ghost start = out@;
    let fill: usize = if room > len {
        room - len
    } else {
        0
    };
    let mut k: usize = 0;
    while k < fill
        invariant
            k <= fill,
            out@ == start + zeros(k as int),
        decreases fill - k,
    {
        proof {
            reveal_strlit("0");
        }
        out.append("0");
        assert(out@ =~= start + zeros(k + 1));
        k += 1;
    }
    push_decimal(out, magnitude);
    proof {
        if n < 0 {
            assert(zeros(fill as int) =~= zeros(width - 1 - decimal((-n) as nat).len()));
            assert(start =~= old(out)@ + seq!['-']);
        } else {
            assert(zeros(fill as int) =~= zeros(width - decimal(n as nat).len()));
        }
        assert(out@ =~= old(out)@ + padded(n as int, width as int));
    }
}

/// The date as `YYYY-MM-DD`. A year beyond four digits is written out in
/// full; a year before year 0 bears a minus sign.
pub fn date_stamp(year: i32, month: u8, day: u8) -> (text: String)
    ensures
        text@ == date_text(year as int, month as int, day as int),
{
    let mut text = String::new();
    proof {
        reveal_strlit("-");
    }
    push_padded(&mut text, year as i64, 4);
    text.append("-");
    push_padded(&mut text, month as i64, 2);
    text.append("-");
    push_padded(&mut text, day as i64, 2);
    assert(text@ =~= date_text(year as int, month as int, day as int));
    text
}

/// The name of the log file of a day: its date stamp, then `.log`.
pub fn log_file_name(year: i32, month: u8, day: u8) -> (name: String)
    ensures
        name@ == date_text(year as int, month as int, day as int) + ".log"@,
{
    let mut name = date_stamp(year, month, day);
    name.append(".log");
    name
}

} // verus!
