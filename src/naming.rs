//! Names of the files in a session directory, and durations as shown to users.

use vstd::prelude::*;
use crate::text::owned;

verus! {

/// The decimal digit for `d`.
pub open spec fn digit_char(d: nat) -> char {
    if d == 0 {
        '0'
    } else if d == 1 {
        '1'
    } else if d == 2 {
        '2'
    } else if d == 3 {
        '3'
    } else if d == 4 {
        '4'
    } else if d == 5 {
        '5'
    } else if d == 6 {
        '6'
    } else if d == 7 {
        '7'
    } else if d == 8 {
        '8'
    } else {
        '9'
    }
}

/// The value of a decimal digit character.
pub open spec fn digit_value(c: char) -> nat {
    (c as u32 - '0' as u32) as nat
}

/// Whether `c` is a decimal digit.
pub open spec fn is_digit(c: char) -> bool {
    '0' <= c && c <= '9'
}

/// `n` written in decimal, without leading zeros.
pub open spec fn decimal(n: nat) -> Seq<char>
    decreases n,
{
    if n < 10 {
        seq![digit_char(n)]
    } else {
        decimal(n / 10).push(digit_char(n % 10))
    }
}

/// The value of a run of decimal digits.
pub open spec fn digits_value(s: Seq<char>) -> nat
    decreases s.len(),
{
    if s.len() == 0 {
        0
    } else {
        digits_value(s.drop_last()) * 10 + digit_value(s.last())
    }
}

/// The name of the log file of stream `id`.
pub open spec fn stream_file_name_spec(id: u64) -> Seq<char> {
    "user_"@ + decimal(id as nat) + ".wrty"@
}

/// The stream identifier a file name stands for: `user_`, one or more
/// decimal digits whose value fits in 64 bits, `.wrty`.
pub open spec fn stream_of_file_name(s: Seq<char>) -> Option<u64> {
    if s.len() > 10 && s.subrange(0, 5) == "user_"@ && s.subrange(s.len() - 5, s.len() as int)
        == ".wrty"@ && (forall|i: int| 5 <= i < s.len() - 5 ==> is_digit(#[trigger] s[i]))
        && digits_value(s.subrange(5, s.len() - 5)) <= u64::MAX {
        Some(digits_value(s.subrange(5, s.len() - 5)) as u64)
    } else {
        None
    }
}

fn digit_text(d: u64) -> (r: &'static str)
    requires
        d < 10,
    ensures
        r@ == seq![digit_char(d as nat)],
{
    proof {
        reveal_strlit("0");
        reveal_strlit("1");
        reveal_strlit("2");
        reveal_strlit("3");
        reveal_strlit("4");
        reveal_strlit("5");
        reveal_strlit("6");
        reveal_strlit("7");
        reveal_strlit("8");
        reveal_strlit("9");
    }
    if d == 0 {
        "0"
    } else if d == 1 {
        "1"
    } else if d == 2 {
        "2"
    } else if d == 3 {
        "3"
    } else if d == 4 {
        "4"
    } else if d == 5 {
        "5"
    } else if d == 6 {
        "6"
    } else if d == 7 {
        "7"
    } else if d == 8 {
        "8"
    } else {
        "9"
    }
}

/// `n` in decimal.
pub fn decimal_text(n: u64) -> (r: String)
    ensures
        r@ == decimal(n as nat),
    decreases n,
{
    if n < 10 {
        owned(digit_text(n))
    } else {
        let mut s = decimal_text(n / 10);
        s.append(digit_text(n % 10));
        s
    }
}

/// The name of the log file of stream `id`.
pub fn stream_file_name(id: u64) -> (r: String)
    ensures
        r@ == stream_file_name_spec(id),
{
    let mut s = owned("user_");
    let d = decimal_text(id);
    s.append(d.as_str());
    s.append(".wrty");
    s
}

/// The stream identifier a session file name stands for, if it names a
/// stream log.
pub fn parse_stream_file_name(name: &str) -> (r: Option<u64>)
    ensures
        r == stream_of_file_name(name@),
{
    proof {
        reveal_strlit("user_");
        reveal_strlit(".wrty");
    }
    let n = name.unicode_len();
    if n <= 10 {
        return None;
    }
    let prefix = name.substring_char(0, 5);
    let suffix = name.substring_char(n - 5, n);
    if !crate::text::text_eq(prefix, "user_") || !crate::text::text_eq(suffix, ".wrty") {
        return None;
    }
    let ghost digits = name@.subrange(5, n - 5);
    let mut v: u64 = 0;
    let mut i: usize = 5;
    while i < n - 5
        invariant
            5 <= i <= n - 5,
            n == name@.len(),
            digits == name@.subrange(5, n - 5),
            forall|k: int| 5 <= k < i ==> is_digit(#[trigger] name@[k]),
            v == digits_value(name@.subrange(5, i as int)),
        decreases n - 5 - i,
    {
        let c = name.get_char(i);
        if !('0' <= c && c <= '9') {
            return None;
        }
        let d = (c as u32 - '0' as u32) as u64;
        assert(name@.subrange(5, i + 1).drop_last() =~= name@.subrange(5, i as int));
        if v > (u64::MAX - d) / 10 {
            proof {
                lemma_digits_value_grows(name@, 5, (i + 1) as int, (n - 5) as int);
            }
            return None;
        }
        v = v * 10 + d;
        i = i + 1;
    }
    Some(v)
}

/// A duration of `secs` seconds as shown to users: `1h 2m 3s`, or `2m 3s`
/// under an hour, or `3s` under a minute.
pub open spec fn duration_text(secs: nat) -> Seq<char> {
    let h = secs / 3600;
    let m = (secs % 3600) / 60;
    let s = secs % 60;
    if h > 0 {
        decimal(h) + "h "@ + decimal(m) + "m "@ + decimal(s) + "s"@
    } else if m > 0 {
        decimal(m) + "m "@ + decimal(s) + "s"@
    } else {
        decimal(s) + "s"@
    }
}

/// How long a recording lasted, for the stop report.
pub fn format_duration(secs: u64) -> (r: String)
    ensures
        r@ == duration_text(secs as nat),
{
    let h = secs / 3600;
    let m = (secs % 3600) / 60;
    let s = secs % 60;
    let mut out = String::new();
    if h > 0 {
        out.append(decimal_text(h).as_str());
        out.append("h ");
    }
    if h > 0 || m > 0 {
        out.append(decimal_text(m).as_str());
        out.append("m ");
    }
    out.append(decimal_text(s).as_str());
    out.append("s");
    proof {
        if h > 0 {
            assert(out@ =~= duration_text(secs as nat));
        } else if m > 0 {
            assert(out@ =~= duration_text(secs as nat));
        } else {
            assert(out@ =~= duration_text(secs as nat));
        }
    }
    out
}

proof fn lemma_digits_value_grows(s: Seq<char>, a: int, b: int, c: int)
    requires
        0 <= a <= b <= c <= s.len(),
    ensures
        digits_value(s.subrange(a, b)) <= digits_value(s.subrange(a, c)),
    decreases c - b,
{
    if b < c {
        lemma_digits_value_grows(s, a, b, c - 1);
        assert(s.subrange(a, c).drop_last() =~= s.subrange(a, c - 1));
    }
}

} // verus!
