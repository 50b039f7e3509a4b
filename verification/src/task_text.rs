//! The references and text that task commands take, and the commit trailers
//! that close tasks.
use vstd::prelude::*;
use crate::ci_types::strings_view;
use crate::text::{
    char_is_control, chars_from, chars_of, chars_start_with, decimal_string, decimal_text,
    is_control_char, is_digit, lines, lines_of, parse_unsigned, parse_unsigned_chars, push_char,
    starts_with, str_eq, string_from_chars, trim, trim_vec, trimmed_chars, char_vecs,
};

verus! {

/// Why a task reference or text is refused.
#[derive(Clone, Copy, Debug, PartialEq, Eq, Structural)]
pub enum TaskInputError {
    InvalidSubtaskRef,
    SubtaskRefZero,
    InvalidIndex,
    IndexZero,
    TextEmpty,
    TextInvalid,
    SectionEmpty,
    SectionInvalid,
    SectionReservedHeading,
    InvalidStatus,
}

// ---------------------------------------------------------------------------
// Closing trailers

pub open spec fn closes_prefix() -> Seq<char> {
    seq!['C', 'l', 'o', 's', 'e', 's', ':']
}

/// The task references named by `Closes:` trailer lines, in order.
pub open spec fn closing_refs(lines: Seq<Seq<char>>) -> Seq<Seq<char>>
    decreases lines.len(),
{
    if lines.len() == 0 {
        Seq::empty()
    } else {
        let r = closing_refs(lines.drop_last());
        let t = trim(lines.last());
        if starts_with(t, closes_prefix()) && trim(t.skip(7)).len() > 0 {
            r.push(trim(t.skip(7)))
        } else {
            r
        }
    }
}

/// The non-empty references of every `Closes:` line of a commit log.
pub fn closes_trailers(log: &str) -> (r: Vec<String>)
    ensures
        strings_view(r@) == closing_refs(lines_of(log@)),
{
    let all = lines(log);
    let prefix = chars_of("Closes:");
    proof {
        reveal_strlit("Closes:");
        assert(prefix@ =~= closes_prefix());
    }
    let mut out: Vec<String> = Vec::new();
    let mut i: usize = 0;
    while i < all.len()
        invariant
            i <= all@.len(),
            prefix@ == closes_prefix(),
            char_vecs(all@) == lines_of(log@),
            strings_view(out@) == closing_refs(char_vecs(all@).take(i as int)),
        decreases all.len() - i,
    {
        assert(char_vecs(all@).take(i + 1).drop_last() =~= char_vecs(all@).take(i as int));
        assert(char_vecs(all@).take(i + 1).last() == all@[i as int]@);
        let t = trim_vec(all[i].as_slice());
        if chars_start_with(t.as_slice(), prefix.as_slice()) {
            let rest = chars_from(t.as_slice(), 7);
            let value = trim_vec(rest.as_slice());
            if value.len() > 0 {
                let ghost before = strings_view(out@);
                out.push(string_from_chars(value.as_slice()));
                assert(strings_view(out@) =~= before.push(value@));
            }
        }
        i = i + 1;
    }
    assert(char_vecs(all@).take(all@.len() as int) =~= char_vecs(all@));
    out
}

// ---------------------------------------------------------------------------
// Numbered references

pub open spec fn all_ascii_digits(s: Seq<char>) -> bool {
    forall|i: int| 0 <= i < s.len() ==> is_digit(#[trigger] s[i])
}

/// What a subtask reference names: `s` and digits as written, or a positive
/// number `n`, which names `s{n}`.
pub open spec fn subtask_ref(s: Seq<char>) -> Result<Seq<char>, TaskInputError> {
    if s.len() > 1 && s[0] == 's' && all_ascii_digits(s.skip(1)) {
        Ok(s)
    } else {
        match parse_unsigned(s, usize::MAX as nat) {
            None => Err(TaskInputError::InvalidSubtaskRef),
            Some(n) => if n == 0 {
                Err(TaskInputError::SubtaskRefZero)
            } else {
                Ok(seq!['s'] + decimal_text(n))
            },
        }
    }
}

fn chars_all_digits(s: &[char]) -> (r: bool)
    ensures
        r == all_ascii_digits(s@),
{
    let mut i: usize = 0;
    while i < s.len()
        invariant
            i <= s@.len(),
            forall|j: int| 0 <= j < i ==> is_digit(#[trigger] s@[j]),
        decreases s.len() - i,
    {
        let n = s[i] as u32;
        if !(48 <= n && n <= 57) {
            return false;
        }
        i = i + 1;
    }
    true
}

/// The subtask named by a reference.
pub fn parse_subtask_ref(subtask_ref_text: &str) -> (r: Result<String, TaskInputError>)
    ensures
        match r {
            Ok(s) => subtask_ref(subtask_ref_text@) == Ok::<Seq<char>, TaskInputError>(s@),
            Err(e) => subtask_ref(subtask_ref_text@) == Err::<Seq<char>, TaskInputError>(e),
        },
{
    let chars = chars_of(subtask_ref_text);
    if chars.len() > 1 && chars[0] == 's' {
        let rest = chars_from(chars.as_slice(), 1);
        if chars_all_digits(rest.as_slice()) {
            return Ok(subtask_ref_text.to_string());
        }
    }
    match parse_unsigned_chars(chars.as_slice(), usize::MAX as u64) {
        None => Err(TaskInputError::InvalidSubtaskRef),
        Some(n) => {
            if n == 0 {
                return Err(TaskInputError::SubtaskRefZero);
            }
            let mut out = String::new();
            push_char(&mut out, 's');
            let digits = chars_of(decimal_string(n).as_str());
            let ghost start = out@;
            let mut i: usize = 0;
            while i < digits.len()
                invariant
                    i <= digits@.len(),
                    digits@ == decimal_text(n as nat),
                    out@ == start + digits@.subrange(0, i as int),
                decreases digits.len() - i,
            {
                push_char(&mut out, digits[i]);
                assert(out@ =~= start + digits@.subrange(0, i + 1));
                i = i + 1;
            }
            assert(digits@.subrange(0, digits@.len() as int) =~= digits@);
            assert(start =~= seq!['s']);
            Ok(out)
        },
    }
}

/// A position counted from one.
pub open spec fn one_based(s: Seq<char>) -> Result<nat, TaskInputError> {
    match parse_unsigned(s, usize::MAX as nat) {
        None => Err(TaskInputError::InvalidIndex),
        Some(n) => if n == 0 {
            Err(TaskInputError::IndexZero)
        } else {
            Ok(n)
        },
    }
}

/// A position counted from one; zero and non-numbers are refused.
pub fn parse_one_based_usize(input: &str) -> (r: Result<usize, TaskInputError>)
    ensures
        match r {
            Ok(n) => one_based(input@) == Ok::<nat, TaskInputError>(n as nat),
            Err(e) => one_based(input@) == Err::<nat, TaskInputError>(e),
        },
{
    let chars = chars_of(input);
    match parse_unsigned_chars(chars.as_slice(), usize::MAX as u64) {
        None => Err(TaskInputError::InvalidIndex),
        Some(n) => if n == 0 {
            Err(TaskInputError::IndexZero)
        } else {
            Ok(n as usize)
        },
    }
}

// ---------------------------------------------------------------------------
// Free text

pub open spec fn nonempty_text(s: Seq<char>) -> Result<Seq<char>, TaskInputError> {
    let t = trim(s);
    if t.len() == 0 {
        Err(TaskInputError::TextEmpty)
    } else if exists|i: int| 0 <= i < t.len() && is_control_char(#[trigger] t[i]) {
        Err(TaskInputError::TextInvalid)
    } else {
        Ok(t)
    }
}

/// A one-line text, trimmed; refused when empty or holding a control
/// character.
pub fn parse_nonempty_text(input: &str) -> (r: Result<String, TaskInputError>)
    ensures
        match r {
            Ok(s) => nonempty_text(input@) == Ok::<Seq<char>, TaskInputError>(s@),
            Err(e) => nonempty_text(input@) == Err::<Seq<char>, TaskInputError>(e),
        },
{
    let t = trimmed_chars(input);
    if t.len() == 0 {
        return Err(TaskInputError::TextEmpty);
    }
    let mut i: usize = 0;
    while i < t.len()
        invariant
            i <= t@.len(),
            t@ == trim(input@),
            t@.len() > 0,
            forall|j: int| 0 <= j < i ==> !is_control_char(#[trigger] t@[j]),
        decreases t.len() - i,
    {
        if char_is_control(t[i]) {
            assert(is_control_char(t@[i as int]));
            return Err(TaskInputError::TextInvalid);
        }
        i = i + 1;
    }
    Ok(string_from_chars(t.as_slice()))
}

/// The headings that frame a task document.
pub open spec fn reserved_heading(line: Seq<char>) -> bool {
    line == "## Summary"@ || line == "## Context / Why"@ || line == "## Acceptance criteria"@
        || line == "## Subtasks"@ || line == "## Notes / Log"@
}

pub open spec fn section_control(c: char) -> bool {
    is_control_char(c) && c != '\n' && c != '\t'
}

pub open spec fn section_body(s: Seq<char>) -> Result<Seq<char>, TaskInputError> {
    let t = trim(s);
    if t.len() == 0 {
        Err(TaskInputError::SectionEmpty)
    } else if exists|i: int| 0 <= i < t.len() && section_control(#[trigger] t[i]) {
        Err(TaskInputError::SectionInvalid)
    } else if exists|i: int| 0 <= i < lines_of(t).len() && reserved_heading(#[trigger] lines_of(t)[i]) {
        Err(TaskInputError::SectionReservedHeading)
    } else {
        Ok(t)
    }
}

fn is_reserved_heading(line: &Vec<char>) -> (r: bool)
    ensures
        r == reserved_heading(line@),
{
    let s = string_from_chars(line.as_slice());
    str_eq(s.as_str(), "## Summary") || str_eq(s.as_str(), "## Context / Why") || str_eq(
        s.as_str(),
        "## Acceptance criteria",
    ) || str_eq(s.as_str(), "## Subtasks") || str_eq(s.as_str(), "## Notes / Log")
}

/// A multi-line section body, trimmed; refused when empty, when it holds a
/// control character other than newline or tab, or when a line of it is one
/// of the task document's own headings.
pub fn parse_task_section_body(input: &str) -> (r: Result<String, TaskInputError>)
    ensures
        match r {
            Ok(s) => section_body(input@) == Ok::<Seq<char>, TaskInputError>(s@),
            Err(e) => section_body(input@) == Err::<Seq<char>, TaskInputError>(e),
        },
{
    let t = trimmed_chars(input);
    if t.len() == 0 {
        return Err(TaskInputError::SectionEmpty);
    }
    let mut i: usize = 0;
    while i < t.len()
        invariant
            i <= t@.len(),
            t@ == trim(input@),
            t@.len() > 0,
            forall|j: int| 0 <= j < i ==> !section_control(#[trigger] t@[j]),
        decreases t.len() - i,
    {
        let c = t[i];
        if char_is_control(c) && c != '\n' && c != '\t' {
            assert(section_control(t@[i as int]));
            return Err(TaskInputError::SectionInvalid);
        }
        i = i + 1;
    }
    let text = string_from_chars(t.as_slice());
    let all = lines(text.as_str());
    let mut k: usize = 0;
    while k < all.len()
        invariant
            k <= all@.len(),
            text@ == trim(input@),
            text@.len() > 0,
            forall|j: int| 0 <= j < text@.len() ==> !section_control(#[trigger] text@[j]),
            char_vecs(all@) == lines_of(trim(input@)),
            forall|j: int| 0 <= j < k ==> !reserved_heading(#[trigger] lines_of(trim(input@))[j]),
        decreases all.len() - k,
    {
        assert(char_vecs(all@)[k as int] == all@[k as int]@);
        if is_reserved_heading(&all[k]) {
            assert(reserved_heading(lines_of(trim(input@))[k as int]));
            return Err(TaskInputError::SectionReservedHeading);
        }
        k = k + 1;
    }
    Ok(text)
}

// ---------------------------------------------------------------------------
// Statuses

pub open spec fn known_status(s: Seq<char>) -> bool {
    s == "backlog"@ || s == "in-progress"@ || s == "done"@ || s == "abandoned"@
}

pub open spec fn open_status(s: Seq<char>) -> bool {
    s == "backlog"@ || s == "in-progress"@
}

/// A task status: `backlog`, `in-progress`, `done` or `abandoned`.
pub fn parse_status(status: &str) -> (r: Result<String, TaskInputError>)
    ensures
        known_status(status@) ==> r is Ok && r->Ok_0@ == status@,
        !known_status(status@) ==> r == Err::<String, TaskInputError>(TaskInputError::InvalidStatus),
{
    if str_eq(status, "backlog") || str_eq(status, "in-progress") || str_eq(status, "done")
        || str_eq(status, "abandoned") {
        Ok(status.to_string())
    } else {
        Err(TaskInputError::InvalidStatus)
    }
}

/// Whether a status keeps a task on the board.
pub fn is_open_status(status: &str) -> (r: bool)
    ensures
        r == open_status(status@),
{
    str_eq(status, "backlog") || str_eq(status, "in-progress")
}

/// A trimmed text, or `None` when nothing is left.
pub fn nonempty_option(value: &str) -> (r: Option<String>)
    ensures
        trim(value@).len() == 0 ==> r is None,
        trim(value@).len() > 0 ==> r is Some && r->0@ == trim(value@),
{
    let t = trimmed_chars(value);
    if t.len() == 0 {
        None
    } else {
        Some(string_from_chars(t.as_slice()))
    }
}

// ---------------------------------------------------------------------------
// YAML

/// `value` as a single-quoted YAML scalar: quotes doubled, then enclosed.
pub open spec fn single_quoted(value: Seq<char>) -> Seq<char>
    decreases value.len(),
{
    if value.len() == 0 {
        seq!['\'', '\'']
    } else {
        let inner = single_quoted(value.drop_last());
        let body = inner.drop_last();
        let c = value.last();
        (if c == '\'' {
            body.push('\'').push('\'')
        } else {
            body.push(c)
        }).push('\'')
    }
}

pub fn yaml_single_quoted(value: &str) -> (r: String)
    ensures
        r@ == single_quoted(value@),
{
    let chars = chars_of(value);
    let mut body = String::new();
    push_char(&mut body, '\'');
    let mut i: usize = 0;
    while i < chars.len()
        invariant
            i <= chars@.len(),
            chars@ == value@,
            body@.push('\'') == single_quoted(chars@.subrange(0, i as int)),
        decreases chars.len() - i,
    {
        let c = chars[i];
        assert(chars@.subrange(0, i + 1).drop_last() =~= chars@.subrange(0, i as int));
        let ghost before = body@;
        assert(single_quoted(chars@.subrange(0, i as int)).drop_last() =~= before);
        if c == '\'' {
            push_char(&mut body, '\'');
            push_char(&mut body, '\'');
        } else {
            push_char(&mut body, c);
        }
        i = i + 1;
    }
    assert(chars@.subrange(0, chars@.len() as int) =~= chars@);
    push_char(&mut body, '\'');
    body
}

} // verus!
