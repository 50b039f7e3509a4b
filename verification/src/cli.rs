//! The arguments of the ticket-board command line.
use vstd::prelude::*;
use crate::text::{chars_of, parse_unsigned, parse_unsigned_chars, str_eq, string_from_chars, trim, trimmed_chars};

verus! {

/// Longest stream name, in characters.
pub const MAX_STREAM_ID_CHARS: usize = 255;

pub open spec fn is_glob_meta(c: char) -> bool {
    c == '*' || c == '?' || c == '[' || c == ']'
}

/// The stream name that `value` stands for, as `StreamId::try_new` of the
/// event store decides: the trimmed text when it is not empty, has at most
/// 255 characters and holds none of `*`, `?`, `[`, `]`.
pub open spec fn stream_id_of(value: Seq<char>) -> Option<Seq<char>> {
    let t = trim(value);
    if t.len() > 0 && t.len() <= MAX_STREAM_ID_CHARS && forall|i: int| 0 <= i < t.len() ==> !is_glob_meta(#[trigger] t[i]) {
        Some(t)
    } else {
        None
    }
}

pub fn stream_id(value: &str) -> (r: Option<String>)
    ensures
        match r {
            Some(s) => stream_id_of(value@) == Some(s@),
            None => stream_id_of(value@) is None,
        },
{
    let t = trimmed_chars(value);
    if t.len() == 0 || t.len() > MAX_STREAM_ID_CHARS {
        return None;
    }
    let mut i: usize = 0;
    while i < t.len()
        invariant
            i <= t@.len(),
            t@ == trim(value@),
            0 < t@.len() <= MAX_STREAM_ID_CHARS,
            forall|j: int| 0 <= j < i ==> !is_glob_meta(#[trigger] t@[j]),
        decreases t.len() - i,
    {
        let c = t[i];
        if c == '*' || c == '?' || c == '[' || c == ']' {
            assert(is_glob_meta(t@[i as int]));
            assert(!(forall|j: int| 0 <= j < t@.len() ==> !is_glob_meta(#[trigger] t@[j])));
            return None;
        }
        i = i + 1;
    }
    Some(string_from_chars(t.as_slice()))
}

pub open spec fn arg_views(args: Seq<String>) -> Seq<Seq<char>> {
    args.map_values(|a: String| a@)
}

/// The value after the first occurrence of `flag` that has one.
pub open spec fn flag_value_of(args: Seq<Seq<char>>, flag: Seq<char>) -> Option<Seq<char>>
    decreases args.len(),
{
    if args.len() < 2 {
        None
    } else if args[0] == flag {
        Some(args[1])
    } else {
        flag_value_of(args.drop_first(), flag)
    }
}

pub fn flag_value(arguments: &[String], flag: &str) -> (r: Option<String>)
    ensures
        match r {
            Some(v) => flag_value_of(arg_views(arguments@), flag@) == Some(v@),
            None => flag_value_of(arg_views(arguments@), flag@) is None,
        },
{
    let ghost args = arg_views(arguments@);
    let mut i: usize = 0;
    assert(args.subrange(0, args.len() as int) =~= args);
    while i < arguments.len() && i + 1 < arguments.len()
        invariant
            args == arg_views(arguments@),
            i <= arguments@.len(),
            flag_value_of(args, flag@) == flag_value_of(args.subrange(i as int, args.len() as int), flag@),
        decreases arguments.len() - i,
    {
        let ghost rest = args.subrange(i as int, args.len() as int);
        assert(rest[0] == arguments@[i as int]@);
        assert(rest[1] == arguments@[i + 1]@);
        assert(rest.drop_first() =~= args.subrange(i + 1, args.len() as int));
        if str_eq(arguments[i].as_str(), flag) {
            return Some(arguments[i + 1].clone());
        }
        i = i + 1;
    }
    None
}

/// The priority flag: the first `--priority` whose value parses as a `u8`
/// decides, and it must be at most 4.
pub open spec fn priority_of_args(args: Seq<Seq<char>>) -> Option<u8>
    decreases args.len(),
{
    if args.len() < 2 {
        None
    } else if args[0] == "--priority"@ && parse_unsigned(args[1], 255) is Some {
        let p = parse_unsigned(args[1], 255)->0;
        if p <= 4 {
            Some(p as u8)
        } else {
            None
        }
    } else {
        priority_of_args(args.drop_first())
    }
}

pub fn priority_argument(arguments: &[String]) -> (r: Option<u8>)
    ensures
        r == priority_of_args(arg_views(arguments@)),
{
    let ghost args = arg_views(arguments@);
    let mut i: usize = 0;
    assert(args.subrange(0, args.len() as int) =~= args);
    while i < arguments.len() && i + 1 < arguments.len()
        invariant
            args == arg_views(arguments@),
            i <= arguments@.len(),
            priority_of_args(args) == priority_of_args(args.subrange(i as int, args.len() as int)),
        decreases arguments.len() - i,
    {
        let ghost rest = args.subrange(i as int, args.len() as int);
        assert(rest[0] == arguments@[i as int]@);
        assert(rest[1] == arguments@[i + 1]@);
        assert(rest.drop_first() =~= args.subrange(i + 1, args.len() as int));
        if str_eq(arguments[i].as_str(), "--priority") {
            let value = chars_of(arguments[i + 1].as_str());
            if let Some(p) = parse_unsigned_chars(value.as_slice(), 255) {
                if p <= 4 {
                    return Some(p as u8);
                } else {
                    return None;
                }
            }
        }
        i = i + 1;
    }
    None
}

/// The ticket named by the first argument, when it is a valid stream name.
pub fn ticket_argument(arguments: &[String]) -> (r: Option<String>)
    ensures
        arguments@.len() == 0 ==> r is None,
        arguments@.len() > 0 ==> match r {
            Some(s) => stream_id_of(arguments@[0]@) == Some(s@),
            None => stream_id_of(arguments@[0]@) is None,
        },
{
    if arguments.len() == 0 {
        return None;
    }
    stream_id(arguments[0].as_str())
}

/// The ticket named by the first `--on` flag, when it is a valid stream name.
pub fn dependency_argument(arguments: &[String]) -> (r: Option<String>)
    ensures
        match flag_value_of(arg_views(arguments@), "--on"@) {
            Some(v) => match r {
                Some(s) => stream_id_of(v) == Some(s@),
                None => stream_id_of(v) is None,
            },
            None => r is None,
        },
{
    match flag_value(arguments, "--on") {
        Some(v) => stream_id(v.as_str()),
        None => None,
    }
}

} // verus!
