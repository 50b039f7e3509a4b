//! The contents of a lock file: the process that holds it and when it was
//! taken, and when a lock is stale.
use vstd::prelude::*;
use crate::text::{
    all_digits, char_vecs, chars_from, chars_of, chars_start_with, decimal_string, decimal_text,
    digit_char, digits_value, is_digit, lines, lines_of, parse_unsigned, parse_unsigned_chars,
    push_char, split_char, starts_with, strip_cr, unsigned_body,
};

verus! {

/// A lock held longer than this many seconds is stale.
pub const LOCK_STALE_AFTER_SECONDS: u64 = 3600;

pub open spec fn pid_key() -> Seq<char> {
    seq!['p', 'i', 'd', '=']
}

pub open spec fn timestamp_key() -> Seq<char> {
    seq!['t', 'i', 'm', 'e', 's', 't', 'a', 'm', 'p', '=']
}

/// The rest of the first line that begins with `key`.
pub open spec fn field_value(ls: Seq<Seq<char>>, key: Seq<char>) -> Option<Seq<char>>
    decreases ls.len(),
{
    if ls.len() == 0 {
        None
    } else if starts_with(ls[0], key) {
        Some(ls[0].skip(key.len() as int))
    } else {
        field_value(ls.drop_first(), key)
    }
}

/// The process id that a lock file names: the first `pid=` line, read as
/// a `u32`.
pub open spec fn lock_pid(contents: Seq<char>) -> Option<nat> {
    match field_value(lines_of(contents), pid_key()) {
        None => None,
        Some(v) => parse_unsigned(v, u32::MAX as nat),
    }
}

/// When a lock was taken, in seconds since the epoch: the first
/// `timestamp=` line, read as a `u64`.
pub open spec fn lock_timestamp(contents: Seq<char>) -> Option<nat> {
    match field_value(lines_of(contents), timestamp_key()) {
        None => None,
        Some(v) => parse_unsigned(v, u64::MAX as nat),
    }
}

/// Whether more than the stale age has passed since `timestamp`, the
/// current time being `now_secs` seconds and `now_nanos` nanoseconds.
pub open spec fn lock_age_exceeded(timestamp: nat, now_secs: nat, now_nanos: nat) -> bool {
    now_secs * 1000000000 + now_nanos > (timestamp + LOCK_STALE_AFTER_SECONDS) * 1000000000
}

fn field_of(ls: &Vec<Vec<char>>, key: &Vec<char>) -> (r: Option<Vec<char>>)
    ensures
        match r {
            Some(v) => field_value(char_vecs(ls@), key@) == Some(v@),
            None => field_value(char_vecs(ls@), key@) is None,
        },
{
    let ghost all = char_vecs(ls@);
    let mut i: usize = 0;
    assert(all.skip(0) =~= all);
    while i < ls.len()
        invariant
            i <= ls@.len(),
            all == char_vecs(ls@),
            field_value(all, key@) == field_value(all.skip(i as int), key@),
        decreases ls.len() - i,
    {
        assert(all.skip(i as int)[0] == ls@[i as int]@);
        assert(all.skip(i as int).drop_first() =~= all.skip(i + 1));
        if chars_start_with(ls[i].as_slice(), key.as_slice()) {
            return Some(chars_from(ls[i].as_slice(), key.len()));
        }
        i = i + 1;
    }
    assert(all.skip(i as int) =~= Seq::<Seq<char>>::empty());
    None
}

fn field_number(contents: &str, key: &Vec<char>, max: u64) -> (r: Option<u64>)
    requires
        max >= 9,
    ensures
        match r {
            Some(n) => field_value(lines_of(contents@), key@) matches Some(v) && parse_unsigned(
                v,
                max as nat,
            ) == Some(n as nat),
            None => match field_value(lines_of(contents@), key@) {
                None => true,
                Some(v) => parse_unsigned(v, max as nat) is None,
            },
        },
{
    let ls = lines(contents);
    match field_of(&ls, key) {
        None => None,
        Some(v) => parse_unsigned_chars(v.as_slice(), max),
    }
}

/// The process id that a lock file names.
pub fn lock_file_pid(contents: &str) -> (r: Option<u32>)
    ensures
        match r {
            Some(n) => lock_pid(contents@) == Some(n as nat),
            None => lock_pid(contents@) is None,
        },
{
    let key = vec!['p', 'i', 'd', '='];
    assert(key@ =~= pid_key());
    match field_number(contents, &key, u32::MAX as u64) {
        None => None,
        Some(n) => Some(n as u32),
    }
}

/// When a lock file says its lock was taken.
pub fn lock_file_timestamp(contents: &str) -> (r: Option<u64>)
    ensures
        match r {
            Some(n) => lock_timestamp(contents@) == Some(n as nat),
            None => lock_timestamp(contents@) is None,
        },
{
    let key = vec!['t', 'i', 'm', 'e', 's', 't', 'a', 'm', 'p', '='];
    assert(key@ =~= timestamp_key());
    field_number(contents, &key, u64::MAX)
}

/// Whether a lock taken at `timestamp` is older than the stale age at the
/// given time.
pub fn lock_is_old(timestamp: u64, now_secs: u64, now_nanos: u32) -> (r: bool)
    requires
        now_nanos < 1000000000,
    ensures
        r == lock_age_exceeded(timestamp as nat, now_secs as nat, now_nanos as nat),
{
    if now_secs < timestamp {
        return false;
    }
    let age = now_secs - timestamp;
    age > LOCK_STALE_AFTER_SECONDS || (age == LOCK_STALE_AFTER_SECONDS && now_nanos > 0)
}

/// Whether a lock file describes a stale lock: the process it names is
/// gone, or it was taken longer ago than the stale age. `pid_gone` is what
/// probing the process named by `lock_pid` answered; it does not count
/// when the file names no process.
pub fn lock_contents_are_stale(contents: &str, pid_gone: bool, now_secs: u64, now_nanos: u32) -> (r:
    bool)
    requires
        now_nanos < 1000000000,
        (lock_pid(contents@) is Some && pid_gone) || (match lock_timestamp(contents@) {
            Some(t) => t <= i64::MAX,
            None => true,
        }),
    ensures
        r == ((lock_pid(contents@) is Some && pid_gone) || match lock_timestamp(contents@) {
            Some(t) => lock_age_exceeded(t, now_secs as nat, now_nanos as nat),
            None => false,
        }),
{
    if lock_file_pid(contents).is_some() && pid_gone {
        return true;
    }
    match lock_file_timestamp(contents) {
        None => false,
        Some(t) => lock_is_old(t, now_secs, now_nanos),
    }
}

/// What a lock file says: the holder's process id and when it took the
/// lock, one `key=value` line each.
pub open spec fn lock_metadata(pid: nat, timestamp: nat) -> Seq<char> {
    pid_key() + decimal_text(pid) + seq!['\n'] + timestamp_key() + decimal_text(timestamp) + seq![
        '\n',
    ]
}

fn push_all(s: &mut String, v: &Vec<char>)
    ensures
        final(s)@ == old(s)@ + v@,
{
    let mut i: usize = 0;
    while i < v.len()
        invariant
            i <= v@.len(),
            s@ == old(s)@ + v@.take(i as int),
        decreases v.len() - i,
    {
        push_char(s, v[i]);
        assert(v@.take(i + 1) =~= v@.take(i as int).push(v@[i as int]));
        i = i + 1;
    }
    assert(v@.take(i as int) =~= v@);
}

/// The contents of a lock file for process `pid` taking the lock at
/// `timestamp`.
pub fn lock_metadata_text(pid: u32, timestamp: u64) -> (r: String)
    ensures
        r@ == lock_metadata(pid as nat, timestamp as nat),
{
    let mut s = String::new();
    let pk = vec!['p', 'i', 'd', '='];
    let tk = vec!['t', 'i', 'm', 'e', 's', 't', 'a', 'm', 'p', '='];
    push_all(&mut s, &pk);
    let p = chars_of(decimal_string(pid as u64).as_str());
    push_all(&mut s, &p);
    push_char(&mut s, '\n');
    push_all(&mut s, &tk);
    let t = chars_of(decimal_string(timestamp).as_str());
    push_all(&mut s, &t);
    push_char(&mut s, '\n');
    assert(s@ =~= lock_metadata(pid as nat, timestamp as nat));
    s
}

// ---------------------------------------------------------------------------
// Reading back what was written

proof fn lemma_digit_char(d: nat)
    requires
        d < 10,
    ensures
        is_digit(digit_char(d)),
        (digit_char(d) as u32) - 48 == d,
{
}

pub(crate) proof fn lemma_decimal_text(n: nat)
    ensures
        decimal_text(n).len() > 0,
        all_digits(decimal_text(n)),
        digits_value(decimal_text(n)) == n,
    decreases n,
{
    if n < 10 {
        lemma_digit_char(n);
        assert(decimal_text(n).drop_last() =~= Seq::<char>::empty());
        assert(digits_value(Seq::<char>::empty()) == 0);
    } else {
        lemma_decimal_text(n / 10);
        lemma_digit_char(n % 10);
        let s = decimal_text(n);
        assert(s.drop_last() =~= decimal_text(n / 10));
        assert(s.last() == digit_char(n % 10));
        assert(digits_value(s) == digits_value(decimal_text(n / 10)) * 10 + n % 10);
        assert((n / 10) * 10 + n % 10 == n) by (nonlinear_arith);
    }
}

pub(crate) proof fn lemma_parse_decimal(n: nat, max: nat)
    requires
        n <= max,
    ensures
        parse_unsigned(decimal_text(n), max) == Some(n),
{
    lemma_decimal_text(n);
    lemma_digit_char((if n < 10 { n } else { 0 }) as nat);
    assert(is_digit(decimal_text(n)[0]));
    assert(unsigned_body(decimal_text(n)) == decimal_text(n));
}

proof fn lemma_split_no_sep(x: Seq<char>, y: Seq<char>, sep: char)
    requires
        !y.contains(sep),
    ensures
        split_char(x + y, sep) == split_char(x, sep).update(
            split_char(x, sep).len() - 1,
            split_char(x, sep).last() + y,
        ),
    decreases y.len(),
{
    crate::text::lemma_split_char_nonempty(x, sep);
    if y.len() == 0 {
        assert(x + y =~= x);
        assert(split_char(x, sep).last() + y =~= split_char(x, sep).last());
        assert(split_char(x, sep).update(split_char(x, sep).len() - 1, split_char(x, sep).last())
            =~= split_char(x, sep));
    } else {
        let y0 = y.drop_last();
        assert(!y0.contains(sep)) by {
            if y0.contains(sep) {
                let k = choose|k: int| 0 <= k < y0.len() && y0[k] == sep;
                assert(y[k] == sep);
            }
        }
        lemma_split_no_sep(x, y0, sep);
        assert((x + y).drop_last() =~= x + y0);
        assert((x + y).last() == y.last());
        assert(y.last() != sep) by {
            assert(y[y.len() - 1] == y.last());
        }
        let p = split_char(x, sep);
        assert(p.last() + y =~= (p.last() + y0).push(y.last()));
        assert(split_char(x + y, sep) =~= p.update(p.len() - 1, p.last() + y));
    }
}

proof fn lemma_no_newline_digits(n: nat)
    ensures
        !decimal_text(n).contains('\n'),
        decimal_text(n).last() != '\r',
{
    lemma_decimal_text(n);
    assert(is_digit(decimal_text(n)[decimal_text(n).len() - 1]));
    if decimal_text(n).contains('\n') {
        let k = choose|k: int| 0 <= k < decimal_text(n).len() && decimal_text(n)[k] == '\n';
        assert(is_digit(decimal_text(n)[k]));
    }
}

proof fn lemma_metadata_lines(pid: nat, timestamp: nat)
    ensures
        lines_of(lock_metadata(pid, timestamp)) == seq![
            pid_key() + decimal_text(pid),
            timestamp_key() + decimal_text(timestamp),
        ],
{
    let a = pid_key() + decimal_text(pid);
    let b = timestamp_key() + decimal_text(timestamp);
    let nl = seq!['\n'];
    lemma_no_newline_digits(pid);
    lemma_no_newline_digits(timestamp);
    assert(!a.contains('\n')) by {
        if a.contains('\n') {
            let k = choose|k: int| 0 <= k < a.len() && a[k] == '\n';
            if k >= 4 {
                assert(decimal_text(pid)[k - 4] == '\n');
            }
        }
    }
    assert(!b.contains('\n')) by {
        if b.contains('\n') {
            let k = choose|k: int| 0 <= k < b.len() && b[k] == '\n';
            if k >= 10 {
                assert(decimal_text(timestamp)[k - 10] == '\n');
            }
        }
    }
    let e = Seq::<char>::empty();
    lemma_split_no_sep(e, a, '\n');
    assert(split_char(e, '\n') == seq![e]);
    assert(e + a =~= a);
    assert(split_char(a, '\n') =~= seq![a]);
    assert((a + nl).drop_last() =~= a);
    assert(split_char(a + nl, '\n') =~= seq![a, e]);
    lemma_split_no_sep(a + nl, b, '\n');
    assert(split_char(a + nl + b, '\n') =~= seq![a, b]);
    let s = a + nl + b + nl;
    assert(s =~= lock_metadata(pid, timestamp));
    assert(s.drop_last() =~= a + nl + b);
    assert(split_char(s, '\n') =~= seq![a, b, e]);
    assert(a.last() == decimal_text(pid).last());
    assert(b.last() == decimal_text(timestamp).last());
    assert(strip_cr(a) == a);
    assert(strip_cr(b) == b);
    assert(lines_of(s) =~= seq![a, b]);
}

/// A lock file written for process `pid` at `timestamp` reads back as
/// that process and that time.
pub proof fn lemma_lock_metadata_reads_back(pid: u32, timestamp: u64)
    ensures
        lock_pid(lock_metadata(pid as nat, timestamp as nat)) == Some(pid as nat),
        lock_timestamp(lock_metadata(pid as nat, timestamp as nat)) == Some(timestamp as nat),
{
    let a = pid_key() + decimal_text(pid as nat);
    let b = timestamp_key() + decimal_text(timestamp as nat);
    lemma_metadata_lines(pid as nat, timestamp as nat);
    let ls = seq![a, b];
    assert(starts_with(a, pid_key())) by {
        assert(a.subrange(0, 4) =~= pid_key());
    }
    assert(a.skip(4) =~= decimal_text(pid as nat));
    assert(field_value(ls, pid_key()) == Some(decimal_text(pid as nat)));
    lemma_parse_decimal(pid as nat, u32::MAX as nat);
    assert(!starts_with(a, timestamp_key())) by {
        if starts_with(a, timestamp_key()) {
            assert(a[1] == timestamp_key()[1]);
        }
    }
    assert(ls.drop_first() =~= seq![b]);
    assert(starts_with(b, timestamp_key())) by {
        assert(b.subrange(0, 10) =~= timestamp_key());
    }
    assert(b.skip(10) =~= decimal_text(timestamp as nat));
    assert(field_value(seq![b], timestamp_key()) == Some(decimal_text(timestamp as nat)));
    assert(field_value(ls, timestamp_key()) == Some(decimal_text(timestamp as nat)));
    lemma_parse_decimal(timestamp as nat, u64::MAX as nat);
}

} // verus!
