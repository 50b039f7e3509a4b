//! Task identifiers and dates: `YYYYMMDD-xxxx` from the current day and a
//! little entropy, and `YYYY-MM-DD` day stamps.
use vstd::prelude::*;
use crate::calendar::{civil_date, civil_from_days};
use crate::text::{chars_of, decimal_string, decimal_text, push_char};

verus! {

pub const SECONDS_PER_DAY: u64 = 86400;

/// The characters of a task code: lower-case letters and digits without
/// the easily confused `l`, `o`, `0` and `1`.
pub open spec fn task_id_alphabet() -> Seq<char> {
    seq![
        'a', 'b', 'c', 'd', 'e', 'f', 'g', 'h', 'i', 'j', 'k', 'm', 'n', 'p', 'q', 'r', 's', 't',
        'u', 'v', 'w', 'x', 'y', 'z', '2', '3', '4', '5', '6', '7', '8', '9',
    ]
}

/// Four characters read from `entropy` as base-32 digits, lowest first.
pub open spec fn task_code(entropy: nat) -> Seq<char> {
    let a = task_id_alphabet();
    seq![a[(entropy % 32) as int], a[((entropy / 32) % 32) as int], a[((entropy / 1024) % 32) as int], a[((entropy / 32768) % 32) as int]]
}

/// `n` in decimal, padded with leading zeros to `width` characters
/// (`format!("{n:0width$}")`).
pub open spec fn zero_padded(n: nat, width: nat) -> Seq<char> {
    let digits = decimal_text(n);
    if digits.len() < width {
        Seq::new((width - digits.len()) as nat, |i: int| '0') + digits
    } else {
        digits
    }
}

/// `v` padded with zeros after its sign to `width` characters, as
/// `format!("{v:0width$}")` writes a signed integer.
pub open spec fn signed_padded(v: int, width: nat) -> Seq<char> {
    if v < 0 {
        seq!['-'] + zero_padded((-v) as nat, if width > 0 { (width - 1) as nat } else { 0 })
    } else {
        zero_padded(v as nat, width)
    }
}

/// The date of the day that `now_secs` seconds after the epoch falls in,
/// its year cut to 32 bits as the formatting reads it.
pub open spec fn day_of(now_secs: nat) -> (int, int, int) {
    let c = civil_date((now_secs / SECONDS_PER_DAY as nat) as int);
    ((c.0 as i32) as int, c.1, c.2)
}

/// `YYYYMMDD-xxxx` for the given time, process and entropy.
pub open spec fn task_id_text(now_secs: nat, entropy: nat) -> Seq<char> {
    let d = day_of(now_secs);
    signed_padded(d.0, 4) + zero_padded(d.1 as nat, 2) + zero_padded(d.2 as nat, 2) + seq!['-']
        + task_code(entropy)
}

/// `YYYY-MM-DD` for the given time.
pub open spec fn date_text(now_secs: nat) -> Seq<char> {
    let d = day_of(now_secs);
    signed_padded(d.0, 4) + seq!['-'] + zero_padded(d.1 as nat, 2) + seq!['-'] + zero_padded(
        d.2 as nat,
        2,
    )
}

fn push_chars(s: &mut String, v: &Vec<char>)
    ensures
        final(s)@ == old(s)@ + v@,
{
    let mut i: usize = 0;
    while i < v.len()
        invariant
            i <= v@.len(),
            s@ == old(s)@ + v@.take(i as int),
        decreases v.len() - i,
    {
        push_char(s, v[i]);
        assert(v@.take(i + 1) =~= v@.take(i as int).push(v@[i as int]));
        i = i + 1;
    }
    assert(v@.take(i as int) =~= v@);
}

fn push_zero_padded(s: &mut String, n: u64, width: usize)
    ensures
        final(s)@ == old(s)@ + zero_padded(n as nat, width as nat),
{
    let digits = chars_of(decimal_string(n).as_str());
    let mut padding: Vec<char> = Vec::new();
    if digits.len() < width {
        let count = width - digits.len();
        let mut k: usize = 0;
        while k < count
            invariant
                k <= count,
                padding@ == Seq::new(k as nat, |i: int| '0'),
            decreases count - k,
        {
            padding.push('0');
            assert(padding@ =~= Seq::new((k + 1) as nat, |i: int| '0'));
            k = k + 1;
        }
    }
    push_chars(s, &padding);
    push_chars(s, &digits);
    proof {
        if !(digits@.len() < width) {
            assert(padding@ =~= Seq::<char>::empty());
        }
        assert(s@ =~= old(s)@ + (padding@ + digits@));
    }
}

fn push_signed_padded(s: &mut String, v: i32, width: usize)
    requires
        width >= 1,
    ensures
        final(s)@ == old(s)@ + signed_padded(v as int, width as nat),
{
    if v < 0 {
        push_char(s, '-');
        let magnitude: u64 = (0i64 - (v as i64)) as u64;
        push_zero_padded(s, magnitude, width - 1);
        assert(final(s)@ =~= old(s)@ + signed_padded(v as int, width as nat)) by {
            assert(seq!['-'] + zero_padded(magnitude as nat, (width - 1) as nat) == signed_padded(v as int, width as nat));
        }
    } else {
        push_zero_padded(s, v as u64, width);
    }
}

fn code_char(i: u128) -> (c: char)
    requires
        i < 32,
    ensures
        c == task_id_alphabet()[i as int],
{
    let a = vec![
        'a', 'b', 'c', 'd', 'e', 'f', 'g', 'h', 'i', 'j', 'k', 'm', 'n', 'p', 'q', 'r', 's', 't',
        'u', 'v', 'w', 'x', 'y', 'z', '2', '3', '4', '5', '6', '7', '8', '9',
    ];
    assert(a@ =~= task_id_alphabet());
    a[i as usize]
}

fn today(now_secs: u64) -> (r: (i32, u32, u32))
    ensures
        r.0 as int == day_of(now_secs as nat).0,
        r.1 as int == day_of(now_secs as nat).1,
        r.2 as int == day_of(now_secs as nat).2,
        1 <= r.1 <= 12,
        1 <= r.2 <= 31,
{
    let days = (now_secs / SECONDS_PER_DAY) as i64;
    let r = civil_from_days(days);
    r
}

/// A task identifier for a task created `now_secs` seconds after the epoch,
/// its code taken from `entropy` (the clock's nanoseconds mixed with the
/// process id).
pub fn task_id_at(now_secs: u64, entropy: u128) -> (r: String)
    ensures
        r@ == task_id_text(now_secs as nat, entropy as nat),
{
    let (year, month, day) = today(now_secs);
    let mut s = String::new();
    push_signed_padded(&mut s, year, 4);
    push_zero_padded(&mut s, month as u64, 2);
    push_zero_padded(&mut s, day as u64, 2);
    push_char(&mut s, '-');
    let mut e: u128 = entropy;
    let c0 = code_char(e % 32);
    e = e / 32;
    let c1 = code_char(e % 32);
    e = e / 32;
    let c2 = code_char(e % 32);
    e = e / 32;
    let c3 = code_char(e % 32);
    push_char(&mut s, c0);
    push_char(&mut s, c1);
    push_char(&mut s, c2);
    push_char(&mut s, c3);
    assert(entropy / 32 / 32 == entropy / 1024) by (nonlinear_arith);
    assert(entropy / 32 / 32 / 32 == entropy / 32768) by (nonlinear_arith);
    assert(s@ =~= task_id_text(now_secs as nat, entropy as nat));
    s
}

/// `YYYY-MM-DD` for the day that `now_secs` seconds after the epoch falls
/// in.
pub fn date_string_at(now_secs: u64) -> (r: String)
    ensures
        r@ == date_text(now_secs as nat),
{
    let (year, month, day) = today(now_secs);
    let mut s = String::new();
    push_signed_padded(&mut s, year, 4);
    push_char(&mut s, '-');
    push_zero_padded(&mut s, month as u64, 2);
    push_char(&mut s, '-');
    push_zero_padded(&mut s, day as u64, 2);
    assert(s@ =~= date_text(now_secs as nat));
    s
}

} // verus!
