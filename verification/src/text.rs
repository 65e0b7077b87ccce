//! The small pieces of text the dashboard lays out: zero-padded clock
//! readings and cell contents cut to a column width.

use vstd::prelude::*;
use vstd::string::*;

verus! {

/// Calls `String::push`: `c` is appended to `s`.
#[verifier::external_body]
fn push_char(s: &mut String, c: char)
    ensures
        final(s)@ == old(s)@.push(c),
{
    s.push(c);
}

/// The character of a decimal digit.
pub open spec fn digit_char(d: nat) -> char {
    if d == 0 {
        '0'
    } else if d == 1 {
        '1'
    } else if d == 2 {
        '2'
    } else if d == 3 {
        '3'
    } else if d == 4 {
        '4'
    } else if d == 5 {
        '5'
    } else if d == 6 {
        '6'
    } else if d == 7 {
        '7'
    } else if d == 8 {
        '8'
    } else {
        '9'
    }
}

/// `n` written in decimal, without leading zeros.
pub open spec fn decimal(n: nat) -> Seq<char>
    decreases n,
{
    if n < 10 {
        seq![digit_char(n)]
    } else {
        decimal(n / 10).push(digit_char(n % 10))
    }
}

/// `n` in decimal, left-padded with zeros to at least `width` characters,
/// as `{:0width$}` writes it.
pub open spec fn padded(n: nat, width: nat) -> Seq<char> {
    let d = decimal(n);
    if d.len() < width {
        Seq::new((width - d.len()) as nat, |i: int| '0') + d
    } else {
        d
    }
}

/// A wall-clock reading `HH:MM:SS.mmm` of a timestamp in nanoseconds, the
/// hours taken modulo a day.
pub open spec fn clock_text(ts_nanos: u64) -> Seq<char> {
    let secs = ts_nanos / 1_000_000_000;
    let millis = ts_nanos % 1_000_000_000 / 1_000_000;
    padded((secs / 3600 % 24) as nat, 2) + seq![':'] + padded((secs % 3600 / 60) as nat, 2)
        + seq![':'] + padded((secs % 60) as nat, 2) + seq!['.'] + padded(millis as nat, 3)
}

/// An elapsed time `HH:MM:SS` from whole seconds; the hours are not wrapped.
pub open spec fn uptime_text(secs: u64) -> Seq<char> {
    padded((secs / 3600) as nat, 2) + seq![':'] + padded((secs % 3600 / 60) as nat, 2) + seq![':']
        + padded((secs % 60) as nat, 2)
}

/// `s` as it fits a column `width` characters wide: unchanged when it fits,
/// otherwise cut to one character short of the width and ended with `…`.
pub open spec fn truncated(s: Seq<char>, width: nat) -> Seq<char> {
    if s.len() <= width {
        s
    } else {
        s.take(if width > 0 { width - 1 } else { 0 }).push('\u{2026}')
    }
}

fn digit(d: u64) -> (c: char)
    requires
        d < 10,
    ensures
        c == digit_char(d as nat),
{
    if d == 0 {
        '0'
    } else if d == 1 {
        '1'
    } else if d == 2 {
        '2'
    } else if d == 3 {
        '3'
    } else if d == 4 {
        '4'
    } else if d == 5 {
        '5'
    } else if d == 6 {
        '6'
    } else if d == 7 {
        '7'
    } else if d == 8 {
        '8'
    } else {
        '9'
    }
}

/// Ten to the power `k`.
pub open spec fn pow10(k: nat) -> nat
    decreases k,
{
    if k == 0 {
        1
    } else {
        10 * pow10((k - 1) as nat)
    }
}

/// A number below `10^k` has at most `k` digits (and always at least one).
proof fn lemma_decimal_len(n: nat, k: nat)
    requires
        n < pow10(k),
    ensures
        1 <= decimal(n).len(),
        decimal(n).len() <= k || (k == 0 && decimal(n).len() == 1),
    decreases n,
{
    if n >= 10 {
        assert(k >= 2) by {
            if k == 1 {
                assert(pow10(1) == 10 * pow10(0));
            }
        }
        let p = pow10((k - 1) as nat);
        assert(n / 10 < p) by (nonlinear_arith)
            requires
                n < 10 * p,
        ;
        lemma_decimal_len(n / 10, (k - 1) as nat);
    }
}

proof fn lemma_pow10_20()
    ensures
        pow10(20) == 100_000_000_000_000_000_000,
        pow10(2) == 100,
        pow10(3) == 1000,
{
    reveal_with_fuel(pow10, 21);
}

/// How many digits `n` has in decimal.
fn decimal_len(n: u64) -> (k: usize)
    ensures
        k == decimal(n as nat).len(),
        k <= 20,
    decreases n,
{
    proof {
        lemma_pow10_20();
        lemma_decimal_len(n as nat, 20);
    }
    if n < 10 {
        1
    } else {
        let k = decimal_len(n / 10);
        k + 1
    }
}

/// Appends `n` in decimal to `out`.
fn push_decimal(out: &mut String, n: u64)
    ensures
        final(out)@ == old(out)@ + decimal(n as nat),
    decreases n,
{
    if n >= 10 {
        push_decimal(out, n / 10);
    }
    push_char(out, digit(n % 10));
    proof {
        if n >= 10 {
            assert(decimal(n as nat) == decimal((n / 10) as nat).push(digit_char((n % 10) as nat)));
        }
    }
}

/// Appends `n` in decimal, zero-padded to at least `width` characters.
fn push_padded(out: &mut String, n: u64, width: usize)
    ensures
        final(out)@ == old(out)@ + padded(n as nat, width as nat),
{
    let ghost start = out@;
    let k = decimal_len(n);
    let mut i: usize = k;
    while i < width
        invariant
            k <= i,
            k < width ==> i <= width,
            k >= width ==> i == k,
            out@ == start + Seq::new((i - k) as nat, |j: int| '0'),
        decreases width - i,
    {
        push_char(out, '0');
        proof {
            assert(out@ =~= start + Seq::new((i + 1 - k) as nat, |j: int| '0'));
        }
        i = i + 1;
    }
    push_decimal(out, n);
    proof {
        let d = decimal(n as nat);
        if k < width {
            assert(out@ =~= start + (Seq::new((width - d.len()) as nat, |j: int| '0') + d));
        } else {
            assert(Seq::new((i - k) as nat, |j: int| '0') =~= Seq::<char>::empty());
            assert(out@ =~= start + d);
        }
    }
}

/// The wall-clock reading `HH:MM:SS.mmm` of a timestamp in nanoseconds.
pub fn clock(ts_nanos: u64) -> (text: String)
    ensures
        text@ == clock_text(ts_nanos),
{
    let secs = ts_nanos / 1_000_000_000;
    let millis = ts_nanos % 1_000_000_000 / 1_000_000;
    let mut out = String::new();
    push_padded(&mut out, secs / 3600 % 24, 2);
    push_char(&mut out, ':');
    push_padded(&mut out, secs % 3600 / 60, 2);
    push_char(&mut out, ':');
    push_padded(&mut out, secs % 60, 2);
    push_char(&mut out, '.');
    push_padded(&mut out, millis, 3);
    proof {
        assert(out@ =~= clock_text(ts_nanos));
    }
    out
}

/// The time since start as `HH:MM:SS`, from whole seconds.
pub fn uptime_clock(secs: u64) -> (text: String)
    ensures
        text@ == uptime_text(secs),
{
    let mut out = String::new();
    push_padded(&mut out, secs / 3600, 2);
    push_char(&mut out, ':');
    push_padded(&mut out, secs % 3600 / 60, 2);
    push_char(&mut out, ':');
    push_padded(&mut out, secs % 60, 2);
    proof {
        assert(out@ =~= uptime_text(secs));
    }
    out
}

/// `value` fitted to a column `width` characters wide, ending in `…` when
/// it had to be cut.
pub fn truncate(value: &str, width: usize) -> (text: String)
    ensures
        text@ == truncated(value@, width as nat),
{
    let count = value.unicode_len();
    if count <= width {
        return String::from_str(value);
    }
    let keep = if width > 0 {
        width - 1
    } else {
        0
    };
    let head = value.substring_char(0, keep);
    let mut out = String::from_str(head);
    push_char(&mut out, '\u{2026}');
    out
}

/// A cut cell never exceeds its column, and a cell that fits is left whole.
pub proof fn lemma_truncated_fits(s: Seq<char>, width: nat)
    requires
        width > 0,
    ensures
        truncated(s, width).len() <= width,
        s.len() <= width ==> truncated(s, width) == s,
        s.len() > width ==> truncated(s, width).last() == '\u{2026}',
{
}

/// The clock reading is always twelve characters, each field zero-padded to
/// its width.
pub proof fn lemma_clock_text_len(ts_nanos: u64)
    ensures
        clock_text(ts_nanos).len() == 12,
{
    let secs = ts_nanos / 1_000_000_000;
    let millis = ts_nanos % 1_000_000_000 / 1_000_000;
    lemma_pow10_20();
    lemma_decimal_len((secs / 3600 % 24) as nat, 2);
    lemma_decimal_len((secs % 3600 / 60) as nat, 2);
    lemma_decimal_len((secs % 60) as nat, 2);
    lemma_decimal_len(millis as nat, 3);
}

} // verus!
