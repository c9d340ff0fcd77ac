//! The debug log's lines and its size cap. The route hot path is headless,
//! so the log is the main way to tell why a link opened where it did.

use vstd::prelude::*;
use vstd::string::StringExecFns;
use crate::text::push_char;

verus! {

/// The log is emptied before a line is appended once it holds more bytes
/// than this.
pub const MAX_BYTES: u64 = 1_000_000;

/// Whether a log of `len` bytes is emptied before the next line.
pub fn should_truncate(len: u64) -> (r: bool)
    ensures
        r == (len > MAX_BYTES),
{
    len > MAX_BYTES
}

/// The decimal digit for `d` (0 to 9).
pub open spec fn digit_char(d: int) -> char {
    if d == 0 {
        '0'
    } else if d == 1 {
        '1'
    } else if d == 2 {
        '2'
    } else if d == 3 {
        '3'
    } else if d == 4 {
        '4'
    } else if d == 5 {
        '5'
    } else if d == 6 {
        '6'
    } else if d == 7 {
        '7'
    } else if d == 8 {
        '8'
    } else {
        '9'
    }
}

/// The decimal form of `n`, without leading zeros.
pub open spec fn decimal(n: nat) -> Seq<char>
    decreases n,
{
    if n < 10 {
        seq![digit_char(n as int)]
    } else {
        decimal(n / 10).push(digit_char((n % 10) as int))
    }
}

/// `s` with zeros in front, up to `width` characters, as `{:0width}` writes
/// a number.
pub open spec fn zero_pad(s: Seq<char>, width: nat) -> Seq<char> {
    if s.len() < width {
        Seq::new((width - s.len()) as nat, |i: int| '0') + s
    } else {
        s
    }
}

/// `n` in decimal, zero-padded to `width` digits.
pub open spec fn padded(n: nat, width: nat) -> Seq<char> {
    zero_pad(decimal(n), width)
}

fn digit(d: u16) -> (c: char)
    requires
        d < 10,
    ensures
        c == digit_char(d as int),
{
    if d == 0 {
        '0'
    } else if d == 1 {
        '1'
    } else if d == 2 {
        '2'
    } else if d == 3 {
        '3'
    } else if d == 4 {
        '4'
    } else if d == 5 {
        '5'
    } else if d == 6 {
        '6'
    } else if d == 7 {
        '7'
    } else if d == 8 {
        '8'
    } else {
        '9'
    }
}

fn push_decimal(out: &mut String, n: u16)
    ensures
        final(out)@ == old(out)@ + decimal(n as nat),
    decreases n,
{
    if n >= 10 {
        push_decimal(out, n / 10);
    }
    push_char(out, digit(n % 10));
    proof {
        if n >= 10 {
            assert(old(out)@ + decimal(n as nat) == old(out)@ + decimal((n / 10) as nat) + seq![
                digit_char((n % 10) as int),
            ]);
        } else {
            assert(old(out)@ + decimal(n as nat) == old(out)@ + seq![digit_char((n % 10) as int)]);
        }
    }
}

fn decimal_len(n: u16) -> (r: usize)
    ensures
        r == decimal(n as nat).len(),
        n < 10 ==> r == 1,
        n < 100 ==> r <= 2,
        n < 1000 ==> r <= 3,
        n < 10000 ==> r <= 4,
        r <= 5,
    decreases n,
{
    if n < 10 {
        1
    } else {
        decimal_len(n / 10) + 1
    }
}

fn push_padded(out: &mut String, n: u16, width: usize)
    ensures
        final(out)@ == old(out)@ + padded(n as nat, width as nat),
{
    let len = decimal_len(n);
    let ghost start = out@;
    let mut k: usize = len;
    while k < width
        invariant
            len == decimal(n as nat).len(),
            len <= k,
            k <= width || len > width,
            len >= width ==> k == len,
            out@ == start + Seq::new((k - len) as nat, |i: int| '0'),
        decreases width - k,
    {
        push_char(out, '0');
        assert(start + Seq::new((k + 1 - len) as nat, |i: int| '0') == start + Seq::new(
            (k - len) as nat,
            |i: int| '0',
        ).push('0'));
        k = k + 1;
    }
    push_decimal(out, n);
    proof {
        if len < width {
            assert(out@ == start + (Seq::new((width - len) as nat, |i: int| '0') + decimal(n as nat)));
        } else {
            assert(Seq::new((k - len) as nat, |i: int| '0') == Seq::<char>::empty());
            assert(out@ == start + decimal(n as nat));
        }
    }
}

/// `YYYY-MM-DD hh:mm:ss` for the given local date and time fields, each
/// zero-padded (the year to four digits, the others to two).
pub open spec fn timestamp_text(
    year: u16,
    month: u16,
    day: u16,
    hour: u16,
    minute: u16,
    second: u16,
) -> Seq<char> {
    padded(year as nat, 4) + "-"@ + padded(month as nat, 2) + "-"@ + padded(day as nat, 2) + " "@
        + padded(hour as nat, 2) + ":"@ + padded(minute as nat, 2) + ":"@ + padded(second as nat, 2)
}

/// The timestamp that starts each log line.
pub fn format_timestamp(year: u16, month: u16, day: u16, hour: u16, minute: u16, second: u16) -> (r:
    String)
    ensures
        r@ == timestamp_text(year, month, day, hour, minute, second),
{
    let mut s = String::new();
    push_padded(&mut s, year, 4);
    s.append("-");
    push_padded(&mut s, month, 2);
    s.append("-");
    push_padded(&mut s, day, 2);
    s.append(" ");
    push_padded(&mut s, hour, 2);
    s.append(":");
    push_padded(&mut s, minute, 2);
    s.append(":");
    push_padded(&mut s, second, 2);
    s
}

/// One log line: the timestamp, a space, the message.
pub fn log_entry(timestamp: &str, msg: &str) -> (r: String)
    ensures
        r@ == timestamp@ + " "@ + msg@,
{
    let mut s = String::from_str(timestamp);
    s.append(" ");
    s.append(msg);
    s
}


proof fn lemma_decimal_len(n: nat)
    ensures
        decimal(n).len() >= 1,
        n < 10 ==> decimal(n).len() == 1,
        n < 100 ==> decimal(n).len() <= 2,
        n < 1000 ==> decimal(n).len() <= 3,
        n < 10000 ==> decimal(n).len() <= 4,
    decreases n,
{
    if n >= 10 {
        lemma_decimal_len(n / 10);
    }
}

proof fn lemma_padded_len(n: nat, width: nat)
    requires
        decimal(n).len() <= width,
    ensures
        padded(n, width).len() == width,
{
}

/// A timestamp is always 19 characters long, `YYYY-MM-DD hh:mm:ss`, for a
/// year below 10000 and the other fields below 100.
pub proof fn lemma_timestamp_width(year: u16, month: u16, day: u16, hour: u16, minute: u16, second: u16)
    requires
        year < 10000,
        month < 100,
        day < 100,
        hour < 100,
        minute < 100,
        second < 100,
    ensures
        timestamp_text(year, month, day, hour, minute, second).len() == 19,
{
    lemma_decimal_len(year as nat);
    lemma_decimal_len(month as nat);
    lemma_decimal_len(day as nat);
    lemma_decimal_len(hour as nat);
    lemma_decimal_len(minute as nat);
    lemma_decimal_len(second as nat);
    lemma_padded_len(year as nat, 4);
    lemma_padded_len(month as nat, 2);
    lemma_padded_len(day as nat, 2);
    lemma_padded_len(hour as nat, 2);
    lemma_padded_len(minute as nat, 2);
    lemma_padded_len(second as nat, 2);
    reveal_strlit("-");
    reveal_strlit(" ");
    reveal_strlit(":");
}


/// The log line when the rules file at `path` does not parse (`err` says
/// why) and the built-in configuration is used instead.
pub fn config_parse_error_line(path: &str, err: &str) -> (r: String)
    ensures
        r@ == "config parse error ("@ + path@ + "): "@ + err@ + "; using built-in default"@,
{
    let mut s = String::from_str("config parse error (");
    s.append(path);
    s.append("): ");
    s.append(err);
    s.append("; using built-in default");
    s
}

/// The log line when the rules file at `path` cannot be read (`err` says
/// why) and the built-in configuration is used instead.
pub fn config_read_error_line(path: &str, err: &str) -> (r: String)
    ensures
        r@ == "config read error ("@ + path@ + "): "@ + err@ + "; using built-in default"@,
{
    let mut s = String::from_str("config read error (");
    s.append(path);
    s.append("): ");
    s.append(err);
    s.append("; using built-in default");
    s
}

} // verus!
