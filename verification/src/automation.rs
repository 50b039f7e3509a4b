//! Recognising the repository automation that closes tasks: a CI workflow
//! step or a post-commit hook that runs `tiber close-from-trailers`.
use vstd::prelude::*;
use crate::text::{
    char_is_space, char_vecs, chars_from, chars_of, chars_start_with, indent, indent_of,
    is_space, lines, lines_of, split_char, starts_with, trim, trim_end, trim_end_index,
    trim_start, trim_start_index, trim_vec,
};

verus! {

// ---------------------------------------------------------------------------
// Comments

/// What the YAML comment scan remembers: the open quote and whether the
/// previous character escaped this one.
pub struct QuoteState {
    pub quote: Option<char>,
    pub escaped: bool,
}

pub open spec fn is_quote(c: char) -> bool {
    c == '"' || c == '\''
}

/// A quote character closes the quote it matches, opens one when none is
/// open, and is literal inside the other kind.
pub open spec fn toggle_quote(q: Option<char>, c: char) -> Option<char> {
    if q == Some(c) {
        None
    } else if q is None {
        Some(c)
    } else {
        q
    }
}

pub open spec fn yaml_step(st: QuoteState, c: char) -> QuoteState {
    if st.escaped {
        QuoteState { quote: st.quote, escaped: false }
    } else if st.quote == Some('"') && c == '\\' {
        QuoteState { quote: st.quote, escaped: true }
    } else if is_quote(c) {
        QuoteState { quote: toggle_quote(st.quote, c), escaped: false }
    } else {
        st
    }
}

/// Where a YAML comment starts: the first `#` outside quotes that begins the
/// text or follows whitespace.
pub open spec fn yaml_comment_scan(s: Seq<char>, i: int, st: QuoteState) -> Option<int>
    decreases s.len() - i,
{
    if i < 0 || i >= s.len() {
        None
    } else if !st.escaped && !(st.quote == Some('"') && s[i] == '\\') && !is_quote(s[i])
        && s[i] == '#' && st.quote is None && (i == 0 || is_space(s[i - 1])) {
        Some(i)
    } else {
        yaml_comment_scan(s, i + 1, yaml_step(st, s[i]))
    }
}

/// A YAML value without its trailing comment.
pub open spec fn trim_unquoted_comment_spec(s: Seq<char>) -> Seq<char> {
    match yaml_comment_scan(s, 0, QuoteState { quote: None, escaped: false }) {
        Some(i) => trim_end(s.take(i)),
        None => s,
    }
}

/// `s` without a trailing YAML comment.
pub fn trim_unquoted_comment(s: &[char]) -> (r: Vec<char>)
    ensures
        r@ == trim_unquoted_comment_spec(s@),
{
    let mut quote: Option<char> = None;
    let mut escaped = false;
    let mut i: usize = 0;
    while i < s.len()
        invariant
            i <= s@.len(),
            yaml_comment_scan(s@, 0, QuoteState { quote: None, escaped: false })
                == yaml_comment_scan(s@, i as int, QuoteState { quote, escaped }),
        decreases s.len() - i,
    {
        let c = s[i];
        if !escaped && !(quote == Some('"') && c == '\\') && !(c == '"' || c == '\'') && c == '#'
            && quote.is_none() && (i == 0 || char_is_space(s[i - 1])) {
            let head = chars_take(s, i);
            let e = trim_end_index(head.as_slice());
            return chars_take(head.as_slice(), e);
        }
        if escaped {
            escaped = false;
        } else if quote == Some('"') && c == '\\' {
            escaped = true;
        } else if c == '"' || c == '\'' {
            quote = if quote == Some(c) {
                None
            } else if quote.is_none() {
                Some(c)
            } else {
                quote
            };
        }
        i = i + 1;
    }
    chars_take(s, s.len())
}

/// The first `n` characters of `s`.
pub fn chars_take(s: &[char], n: usize) -> (r: Vec<char>)
    requires
        n <= s@.len(),
    ensures
        r@ == s@.take(n as int),
{
    let mut r: Vec<char> = Vec::new();
    let mut i: usize = 0;
    while i < n
        invariant
            i <= n <= s@.len(),
            r@ == s@.take(i as int),
        decreases n - i,
    {
        r.push(s[i]);
        assert(r@ =~= s@.take(i + 1));
        i = i + 1;
    }
    r
}

/// What the shell comment scan remembers: the open quote, whether the
/// previous character escaped this one, and whether a word may start here.
pub struct ShellState {
    pub quote: Option<char>,
    pub escaped: bool,
    pub at_word_start: bool,
}

pub open spec fn shell_separator(c: char) -> bool {
    is_space(c) || c == '|' || c == '&' || c == ';' || c == '(' || c == ')' || c == '<' || c == '>'
}

pub open spec fn shell_step(st: ShellState, c: char) -> ShellState {
    if st.escaped {
        ShellState { quote: st.quote, escaped: false, at_word_start: false }
    } else if st.quote != Some('\'') && c == '\\' {
        ShellState { quote: st.quote, escaped: true, at_word_start: st.at_word_start }
    } else if is_quote(c) {
        ShellState { quote: toggle_quote(st.quote, c), escaped: false, at_word_start: false }
    } else {
        ShellState {
            quote: st.quote,
            escaped: false,
            at_word_start: st.quote is None && shell_separator(c),
        }
    }
}

/// Where a shell comment starts: the first `#` outside quotes, not escaped,
/// at the start of a word.
pub open spec fn shell_comment_scan(s: Seq<char>, i: int, st: ShellState) -> Option<int>
    decreases s.len() - i,
{
    if i < 0 || i >= s.len() {
        None
    } else if !st.escaped && !(st.quote != Some('\'') && s[i] == '\\') && !is_quote(s[i])
        && s[i] == '#' && st.quote is None && st.at_word_start {
        Some(i)
    } else {
        shell_comment_scan(s, i + 1, shell_step(st, s[i]))
    }
}

pub open spec fn shell_start() -> ShellState {
    ShellState { quote: None, escaped: false, at_word_start: true }
}

/// A shell line without its trailing comment.
pub open spec fn trim_shell_comment_spec(s: Seq<char>) -> Seq<char> {
    match shell_comment_scan(s, 0, shell_start()) {
        Some(i) => trim_end(s.take(i)),
        None => s,
    }
}

/// `s` without a trailing shell comment.
pub fn trim_shell_comment(s: &[char]) -> (r: Vec<char>)
    ensures
        r@ == trim_shell_comment_spec(s@),
{
    let mut quote: Option<char> = None;
    let mut escaped = false;
    let mut at_word_start = true;
    let mut i: usize = 0;
    while i < s.len()
        invariant
            i <= s@.len(),
            shell_comment_scan(s@, 0, shell_start()) == shell_comment_scan(
                s@,
                i as int,
                ShellState { quote, escaped, at_word_start },
            ),
        decreases s.len() - i,
    {
        let c = s[i];
        if !escaped && !(quote != Some('\'') && c == '\\') && !(c == '"' || c == '\'') && c == '#'
            && quote.is_none() && at_word_start {
            let head = chars_take(s, i);
            let e = trim_end_index(head.as_slice());
            return chars_take(head.as_slice(), e);
        }
        if escaped {
            escaped = false;
            at_word_start = false;
        } else if quote != Some('\'') && c == '\\' {
            escaped = true;
        } else if c == '"' || c == '\'' {
            quote = if quote == Some(c) {
                None
            } else if quote.is_none() {
                Some(c)
            } else {
                quote
            };
            at_word_start = false;
        } else {
            at_word_start = quote.is_none() && (char_is_space(c) || c == '|' || c == '&' || c
                == ';' || c == '(' || c == ')' || c == '<' || c == '>');
        }
        i = i + 1;
    }
    chars_take(s, s.len())
}

// ---------------------------------------------------------------------------
// Shell command segments

pub struct SegmentState {
    pub quote: Option<char>,
    pub escaped: bool,
    pub start: int,
}

/// The commands of a shell line, cut at `;`, `&&` and `||` outside quotes.
pub open spec fn segment_scan(s: Seq<char>, i: int, st: SegmentState, acc: Seq<Seq<char>>) -> Seq<
    Seq<char>,
>
    decreases s.len() - i,
{
    if i < 0 || i >= s.len() || st.start < 0 || st.start > i {
        acc.push(s.subrange(if 0 <= st.start <= s.len() { st.start } else { s.len() as int }, s.len() as int))
    } else if st.escaped {
        segment_scan(s, i + 1, SegmentState { escaped: false, ..st }, acc)
    } else if st.quote != Some('\'') && s[i] == '\\' {
        segment_scan(s, i + 1, SegmentState { escaped: true, ..st }, acc)
    } else if is_quote(s[i]) {
        segment_scan(s, i + 1, SegmentState { quote: toggle_quote(st.quote, s[i]), ..st }, acc)
    } else if st.quote is None && s[i] == ';' {
        segment_scan(
            s,
            i + 1,
            SegmentState { start: i + 1, ..st },
            acc.push(s.subrange(st.start, i)),
        )
    } else if st.quote is None && i + 1 < s.len() && ((s[i] == '&' && s[i + 1] == '&') || (s[i]
        == '|' && s[i + 1] == '|')) {
        segment_scan(
            s,
            i + 2,
            SegmentState { start: i + 2, ..st },
            acc.push(s.subrange(st.start, i)),
        )
    } else {
        segment_scan(s, i + 1, st, acc)
    }
}

pub open spec fn shell_segments(s: Seq<char>) -> Seq<Seq<char>> {
    segment_scan(s, 0, SegmentState { quote: None, escaped: false, start: 0 }, Seq::empty())
}

pub open spec fn vec_views(v: Seq<Vec<char>>) -> Seq<Seq<char>> {
    v.map_values(|x: Vec<char>| x@)
}

fn chars_range(s: &[char], a: usize, b: usize) -> (r: Vec<char>)
    requires
        a <= b <= s@.len(),
    ensures
        r@ == s@.subrange(a as int, b as int),
{
    let mut r: Vec<char> = Vec::new();
    let mut i: usize = a;
    while i < b
        invariant
            a <= i <= b <= s@.len(),
            r@ == s@.subrange(a as int, i as int),
        decreases b - i,
    {
        r.push(s[i]);
        assert(r@ =~= s@.subrange(a as int, i + 1));
        i = i + 1;
    }
    r
}

/// The commands of a shell line.
pub fn shell_command_segments(s: &[char]) -> (r: Vec<Vec<char>>)
    ensures
        vec_views(r@) == shell_segments(s@),
{
    let mut out: Vec<Vec<char>> = Vec::new();
    let mut quote: Option<char> = None;
    let mut escaped = false;
    let mut start: usize = 0;
    let mut i: usize = 0;
    assert(vec_views(out@) =~= Seq::<Seq<char>>::empty());
    while i < s.len()
        invariant
            start <= i <= s@.len(),
            shell_segments(s@) == segment_scan(
                s@,
                i as int,
                SegmentState { quote, escaped, start: start as int },
                vec_views(out@),
            ),
        decreases s.len() - i,
    {
        let c = s[i];
        if escaped {
            escaped = false;
            i = i + 1;
        } else if quote != Some('\'') && c == '\\' {
            escaped = true;
            i = i + 1;
        } else if c == '"' || c == '\'' {
            quote = if quote == Some(c) {
                None
            } else if quote.is_none() {
                Some(c)
            } else {
                quote
            };
            i = i + 1;
        } else if quote.is_none() && c == ';' {
            let ghost before = vec_views(out@);
            out.push(chars_range(s, start, i));
            assert(vec_views(out@) =~= before.push(s@.subrange(start as int, i as int)));
            i = i + 1;
            start = i;
        } else if quote.is_none() && i + 1 < s.len() && ((c == '&' && s[i + 1] == '&') || (c
            == '|' && s[i + 1] == '|')) {
            let ghost before = vec_views(out@);
            out.push(chars_range(s, start, i));
            assert(vec_views(out@) =~= before.push(s@.subrange(start as int, i as int)));
            i = i + 2;
            start = i;
        } else {
            i = i + 1;
        }
    }
    let ghost before = vec_views(out@);
    out.push(chars_range(s, start, s.len()));
    assert(vec_views(out@) =~= before.push(s@.subrange(start as int, s@.len() as int)));
    out
}

// ---------------------------------------------------------------------------
// Commands

/// `s` without the prefix `p`, when it has it.
pub open spec fn strip_prefix_or(s: Seq<char>, p: Seq<char>) -> Seq<char> {
    if starts_with(s, p) {
        s.skip(p.len() as int)
    } else {
        s
    }
}

pub open spec fn ends_with(s: Seq<char>, p: Seq<char>) -> bool {
    p.len() <= s.len() && s.skip(s.len() - p.len()) == p
}

/// `s` without quote characters at either end (`trim_matches`).
pub open spec fn trim_quotes_start(s: Seq<char>) -> Seq<char>
    decreases s.len(),
{
    if s.len() > 0 && is_quote(s[0]) {
        trim_quotes_start(s.drop_first())
    } else {
        s
    }
}

pub open spec fn trim_quotes_end(s: Seq<char>) -> Seq<char>
    decreases s.len(),
{
    if s.len() > 0 && is_quote(s.last()) {
        trim_quotes_end(s.drop_last())
    } else {
        s
    }
}

pub open spec fn trim_quotes(s: Seq<char>) -> Seq<char> {
    trim_quotes_end(trim_quotes_start(s))
}

fn strip_literal(s: &[char], p: &str) -> (r: Vec<char>)
    ensures
        r@ == strip_prefix_or(s@, p@),
{
    let pc = chars_of(p);
    if chars_start_with(s, pc.as_slice()) {
        chars_from(s, pc.len())
    } else {
        chars_take(s, s.len())
    }
}

pub(crate) fn chars_end_with(s: &[char], p: &[char]) -> (r: bool)
    ensures
        r == ends_with(s@, p@),
{
    if p.len() > s.len() {
        return false;
    }
    let off = s.len() - p.len();
    let mut k: usize = 0;
    while k < p.len()
        invariant
            off + p@.len() == s@.len(),
            s.len() == s@.len(),
            p.len() == p@.len(),
            k <= p@.len(),
            forall|q: int| 0 <= q < k ==> s@[off + q] == p@[q],
        decreases p.len() - k,
    {
        if s[off + k] != p[k] {
            assert(s@.skip(off as int)[k as int] != p@[k as int]);
            return false;
        }
        k = k + 1;
    }
    assert(s@.skip(off as int) =~= p@);
    true
}

proof fn lemma_trim_quotes_start_skip(s: Seq<char>, i: int)
    requires
        0 <= i <= s.len(),
        forall|j: int| 0 <= j < i ==> is_quote(#[trigger] s[j]),
    ensures
        trim_quotes_start(s) == trim_quotes_start(s.skip(i)),
    decreases i,
{
    if i > 0 {
        let t = s.drop_first();
        assert forall|j: int| 0 <= j < i - 1 implies is_quote(#[trigger] t[j]) by {
            assert(t[j] == s[j + 1]);
        }
        lemma_trim_quotes_start_skip(t, i - 1);
        assert(t.skip(i - 1) =~= s.skip(i));
    } else {
        assert(s.skip(0) =~= s);
    }
}

proof fn lemma_trim_quotes_end_take(s: Seq<char>, k: int)
    requires
        0 <= k <= s.len(),
        forall|j: int| k <= j < s.len() ==> is_quote(#[trigger] s[j]),
    ensures
        trim_quotes_end(s) == trim_quotes_end(s.take(k)),
    decreases s.len() - k,
{
    if k < s.len() {
        let t = s.drop_last();
        assert forall|j: int| k <= j < t.len() implies is_quote(#[trigger] t[j]) by {
            assert(t[j] == s[j]);
        }
        lemma_trim_quotes_end_take(t, k);
        assert(t.take(k) =~= s.take(k));
    } else {
        assert(s.take(k) =~= s);
    }
}

/// `s` without quote characters at either end.
pub fn trim_quote_chars(s: &[char]) -> (r: Vec<char>)
    ensures
        r@ == trim_quotes(s@),
{
    let mut a: usize = 0;
    while a < s.len() && (s[a] == '"' || s[a] == '\'')
        invariant
            a <= s@.len(),
            forall|j: int| 0 <= j < a ==> is_quote(#[trigger] s@[j]),
        decreases s.len() - a,
    {
        a = a + 1;
    }
    let rest = chars_from(s, a);
    proof {
        lemma_trim_quotes_start_skip(s@, a as int);
        if rest@.len() > 0 {
            assert(rest@[0] == s@[a as int]);
        }
        assert(trim_quotes_start(rest@) == rest@);
    }
    let mut b: usize = rest.len();
    while b > 0 && (rest[b - 1] == '"' || rest[b - 1] == '\'')
        invariant
            b <= rest@.len(),
            forall|j: int| b <= j < rest@.len() ==> is_quote(#[trigger] rest@[j]),
        decreases b,
    {
        b = b - 1;
    }
    proof {
        lemma_trim_quotes_end_take(rest@, b as int);
        let u = rest@.take(b as int);
        if u.len() > 0 {
            assert(u.last() == rest@[b - 1]);
        }
        assert(trim_quotes_end(u) == u);
    }
    chars_take(rest.as_slice(), b)
}

/// Whether one shell command runs `tiber close-from-trailers`, optionally
/// under `exec` or `nix develop -c`, with nothing after it but a redirection.
pub open spec fn closer_command(line: Seq<char>) -> bool {
    let l = strip_prefix_or(strip_prefix_or(trim(line), "exec "@), "nix develop -c "@);
    let cmd = "tiber close-from-trailers"@;
    starts_with(l, cmd) && {
        let rem = trim_start(l.skip(cmd.len() as int));
        rem.len() == 0 || starts_with(rem, ">"@) || starts_with(rem, "1>"@) || starts_with(
            rem,
            "2>"@,
        )
    }
}

pub fn shell_command_invokes_task_closer(line: &[char]) -> (r: bool)
    ensures
        r == closer_command(line@),
{
    let t = trim_vec(line);
    let a = strip_literal(t.as_slice(), "exec ");
    let b = strip_literal(a.as_slice(), "nix develop -c ");
    let cmd = chars_of("tiber close-from-trailers");
    if !chars_start_with(b.as_slice(), cmd.as_slice()) {
        return false;
    }
    let after = chars_from(b.as_slice(), cmd.len());
    let k = trim_start_index(after.as_slice());
    let rem = chars_from(after.as_slice(), k);
    rem.len() == 0 || chars_start_with(rem.as_slice(), chars_of(">").as_slice())
        || chars_start_with(rem.as_slice(), chars_of("1>").as_slice()) || chars_start_with(
        rem.as_slice(),
        chars_of("2>").as_slice(),
    )
}

/// The command text of a shell line: trimmed, without its comment, and
/// without enclosing quote characters.
pub open spec fn closer_line_text(line: Seq<char>) -> Seq<char> {
    trim_quotes(trim(trim_shell_comment_spec(trim(line))))
}

/// Whether some command of a shell line runs the task closer.
pub open spec fn closer_line(line: Seq<char>) -> bool {
    exists|i: int|
        0 <= i < shell_segments(closer_line_text(line)).len() && closer_command(
            #[trigger] shell_segments(closer_line_text(line))[i],
        )
}

pub fn shell_line_invokes_task_closer(line: &[char]) -> (r: bool)
    ensures
        r == closer_line(line@),
{
    let a = trim_vec(line);
    let b = trim_shell_comment(a.as_slice());
    let c = trim_vec(b.as_slice());
    let d = trim_quote_chars(c.as_slice());
    let segments = shell_command_segments(d.as_slice());
    let mut i: usize = 0;
    while i < segments.len()
        invariant
            i <= segments@.len(),
            d@ == closer_line_text(line@),
            vec_views(segments@) == shell_segments(d@),
            forall|j: int| 0 <= j < i ==> !closer_command(#[trigger] shell_segments(d@)[j]),
        decreases segments.len() - i,
    {
        assert(vec_views(segments@)[i as int] == segments@[i as int]@);
        if shell_command_invokes_task_closer(segments[i].as_slice()) {
            return true;
        }
        i = i + 1;
    }
    false
}

/// The first word of a command, up to the first whitespace.
pub open spec fn first_word_end(s: Seq<char>, i: int) -> int
    decreases s.len() - i,
{
    if i < 0 || i >= s.len() || is_space(s[i]) {
        if i < 0 {
            0
        } else {
            i
        }
    } else {
        first_word_end(s, i + 1)
    }
}

pub open spec fn snippet_path() -> Seq<char> {
    ".githooks/post-commit.tiber"@
}

/// `source `, `. `, `bash ` or `sh ` stripped, whichever comes first.
pub open spec fn strip_runner(c: Seq<char>) -> Seq<char> {
    if starts_with(c, "source "@) {
        c.skip("source "@.len() as int)
    } else if starts_with(c, ". "@) {
        c.skip(". "@.len() as int)
    } else if starts_with(c, "bash "@) {
        c.skip("bash "@.len() as int)
    } else if starts_with(c, "sh "@) {
        c.skip("sh "@.len() as int)
    } else {
        c
    }
}

/// Whether a command runs the repository's post-commit snippet, directly or
/// through `exec`, `source`, `.`, `bash` or `sh`.
pub open spec fn snippet_command(command: Seq<char>) -> bool {
    let c = trim_start(strip_runner(strip_prefix_or(trim(command), "exec "@)));
    c.len() > 0 && {
        let token = trim_quotes(c.take(first_word_end(c, 0)));
        token == snippet_path() || token == "./"@ + snippet_path() || ends_with(
            token,
            "/"@ + snippet_path(),
        )
    }
}

fn strip_runner_exec(c: &[char]) -> (r: Vec<char>)
    ensures
        r@ == strip_runner(c@),
{
    let p1 = chars_of("source ");
    if chars_start_with(c, p1.as_slice()) {
        return chars_from(c, p1.len());
    }
    let p2 = chars_of(". ");
    if chars_start_with(c, p2.as_slice()) {
        return chars_from(c, p2.len());
    }
    let p3 = chars_of("bash ");
    if chars_start_with(c, p3.as_slice()) {
        return chars_from(c, p3.len());
    }
    let p4 = chars_of("sh ");
    if chars_start_with(c, p4.as_slice()) {
        return chars_from(c, p4.len());
    }
    chars_take(c, c.len())
}

pub fn shell_command_invokes_tiber_snippet(command: &[char]) -> (r: bool)
    ensures
        r == snippet_command(command@),
{
    let t = trim_vec(command);
    let a = strip_literal(t.as_slice(), "exec ");
    let b = strip_runner_exec(a.as_slice());
    let k = trim_start_index(b.as_slice());
    let c = chars_from(b.as_slice(), k);
    if c.len() == 0 {
        return false;
    }
    let mut e: usize = 0;
    while e < c.len() && !char_is_space(c[e])
        invariant
            e <= c@.len(),
            first_word_end(c@, 0) == first_word_end(c@, e as int),
        decreases c.len() - e,
    {
        e = e + 1;
    }
    let word = chars_take(c.as_slice(), e);
    let token = trim_quote_chars(word.as_slice());
    let path = chars_of(".githooks/post-commit.tiber");
    let mut dotted = chars_of("./");
    let mut slashed = chars_of("/");
    let mut j: usize = 0;
    let ghost d0 = dotted@;
    let ghost s0 = slashed@;
    while j < path.len()
        invariant
            j <= path@.len(),
            dotted@ == d0 + path@.take(j as int),
            slashed@ == s0 + path@.take(j as int),
        decreases path.len() - j,
    {
        dotted.push(path[j]);
        slashed.push(path[j]);
        assert(dotted@ =~= d0 + path@.take(j + 1));
        assert(slashed@ =~= s0 + path@.take(j + 1));
        j = j + 1;
    }
    assert(path@.take(path@.len() as int) =~= path@);
    crate::text::chars_eq(token.as_slice(), path.as_slice()) || crate::text::chars_eq(
        token.as_slice(),
        dotted.as_slice(),
    ) || chars_end_with(token.as_slice(), slashed.as_slice())
}

// ---------------------------------------------------------------------------
// Post-commit hooks

/// Whether an unindented hook line runs the post-commit snippet.
pub open spec fn snippet_line(line: Seq<char>) -> bool {
    line == trim_start(line) && snippet_command(trim(trim_shell_comment_spec(trim(line))))
}

pub fn shell_line_invokes_tiber_snippet(line: &[char]) -> (r: bool)
    ensures
        r == snippet_line(line@),
{
    let k = trim_start_index(line);
    if k != 0 {
        assert(trim_start(line@).len() < line@.len());
        return false;
    }
    assert(line@.skip(0) =~= line@);
    let a = trim_vec(line);
    let b = trim_shell_comment(a.as_slice());
    let c = trim_vec(b.as_slice());
    shell_command_invokes_tiber_snippet(c.as_slice())
}

/// The hook lines that say something: each without its comment and
/// trailing whitespace, blank ones left out.
pub open spec fn meaningful_lines(ls: Seq<Seq<char>>) -> Seq<Seq<char>>
    decreases ls.len(),
{
    if ls.len() == 0 {
        Seq::empty()
    } else {
        let r = meaningful_lines(ls.drop_last());
        let l = trim_end(trim_shell_comment_spec(ls.last()));
        if trim(l).len() > 0 {
            r.push(l)
        } else {
            r
        }
    }
}

/// Reads the meaningful lines: a shebang, and `set` lines before the
/// dispatch, are passed over; exactly one other line may follow, and it must
/// run the snippet.
pub open spec fn hook_scan(ls: Seq<Seq<char>>, i: int, dispatched: bool) -> bool
    decreases ls.len() - i,
{
    if i < 0 || i >= ls.len() {
        dispatched
    } else if starts_with(ls[i], "#!"@) || (!dispatched && starts_with(ls[i], "set "@)) {
        hook_scan(ls, i + 1, dispatched)
    } else if dispatched || !snippet_line(ls[i]) {
        false
    } else {
        hook_scan(ls, i + 1, true)
    }
}

/// Whether a post-commit hook does nothing but run the repository's
/// post-commit snippet.
pub open spec fn hook_dispatches(contents: Seq<char>) -> bool {
    hook_scan(meaningful_lines(lines_of(contents)), 0, false)
}

pub fn hook_contents_dispatch_tiber_snippet(contents: &str) -> (r: bool)
    ensures
        r == hook_dispatches(contents@),
{
    let all = lines(contents);
    let mut kept: Vec<Vec<char>> = Vec::new();
    let mut i: usize = 0;
    assert(vec_views(kept@) =~= Seq::<Seq<char>>::empty());
    while i < all.len()
        invariant
            i <= all@.len(),
            char_vecs(all@) == lines_of(contents@),
            vec_views(kept@) == meaningful_lines(char_vecs(all@).take(i as int)),
        decreases all.len() - i,
    {
        assert(char_vecs(all@).take(i + 1).drop_last() =~= char_vecs(all@).take(i as int));
        assert(char_vecs(all@).take(i + 1).last() == all@[i as int]@);
        let a = trim_shell_comment(all[i].as_slice());
        let e = trim_end_index(a.as_slice());
        let l = chars_take(a.as_slice(), e);
        let t = trim_vec(l.as_slice());
        if t.len() > 0 {
            let ghost before = vec_views(kept@);
            let ghost lv = l@;
            kept.push(l);
            assert(vec_views(kept@) =~= before.push(lv));
        }
        i = i + 1;
    }
    assert(char_vecs(all@).take(all@.len() as int) =~= char_vecs(all@));
    let ghost ls = vec_views(kept@);
    let mut dispatched = false;
    let mut j: usize = 0;
    let shebang = chars_of("#!");
    let set = chars_of("set ");
    while j < kept.len()
        invariant
            j <= kept@.len(),
            ls == vec_views(kept@),
            ls == meaningful_lines(lines_of(contents@)),
            shebang@ == "#!"@,
            set@ == "set "@,
            hook_scan(ls, 0, false) == hook_scan(ls, j as int, dispatched),
        decreases kept.len() - j,
    {
        let line = kept[j].as_slice();
        assert(ls[j as int] == line@);
        if chars_start_with(line, shebang.as_slice()) || (!dispatched && chars_start_with(
            line,
            set.as_slice(),
        )) {
            j = j + 1;
        } else if dispatched || !shell_line_invokes_tiber_snippet(line) {
            return false;
        } else {
            dispatched = true;
            j = j + 1;
        }
    }
    dispatched
}

// ---------------------------------------------------------------------------
// CI workflows

/// Whether an `on:` value names the push event, alone or in a flow list.
pub open spec fn push_value(v: Seq<char>) -> bool {
    v == "push"@ || (v.len() >= 2 && v[0] == '[' && v.last() == ']' && exists|k: int|
        0 <= k < split_char(v.subrange(1, v.len() - 1), ',').len() && trim(
            #[trigger] split_char(v.subrange(1, v.len() - 1), ',')[k],
        ) == "push"@)
}

/// The events listed under a block `on:`, read until the next unindented line.
pub open spec fn push_event_scan(ls: Seq<Seq<char>>, j: int) -> bool
    decreases ls.len() - j,
{
    if j < 0 || j >= ls.len() {
        false
    } else {
        let ev = trim_start(ls[j]);
        if ev.len() == 0 || starts_with(ev, "#"@) {
            push_event_scan(ls, j + 1)
        } else if indent(ls[j]) == 0 {
            false
        } else {
            let e = trim(trim_unquoted_comment_spec(ev));
            if starts_with(e, "push:"@) || e == "- push"@ {
                true
            } else {
                push_event_scan(ls, j + 1)
            }
        }
    }
}

/// The first unindented `on:` line decides whether the workflow runs on push.
pub open spec fn push_trigger_scan(ls: Seq<Seq<char>>, i: int) -> bool
    decreases ls.len() - i,
{
    if i < 0 || i >= ls.len() {
        false
    } else if indent(ls[i]) != 0 {
        push_trigger_scan(ls, i + 1)
    } else {
        let u = trim_unquoted_comment_spec(trim_start(ls[i]));
        if !starts_with(u, "on:"@) {
            push_trigger_scan(ls, i + 1)
        } else {
            let v = trim(u.skip("on:"@.len() as int));
            if push_value(v) {
                true
            } else if v.len() > 0 {
                false
            } else {
                push_event_scan(ls, i + 1)
            }
        }
    }
}

pub open spec fn workflow_push_trigger(contents: Seq<char>) -> bool {
    push_trigger_scan(lines_of(contents), 0)
}

fn is_push_value(v: &[char]) -> (r: bool)
    ensures
        r == push_value(v@),
{
    let push = chars_of("push");
    if crate::text::chars_eq(v, push.as_slice()) {
        return true;
    }
    if !(v.len() >= 2 && v[0] == '[' && v[v.len() - 1] == ']') {
        return false;
    }
    let inner = chars_range(v, 1, v.len() - 1);
    let pieces = split_pieces(inner.as_slice());
    let mut k: usize = 0;
    while k < pieces.len()
        invariant
            k <= pieces@.len(),
            push@ == "push"@,
            vec_views(pieces@) == split_char(inner@, ','),
            v@.len() >= 2,
            v@[0] == '[',
            v@.last() == ']',
            inner@ == v@.subrange(1, v@.len() - 1),
            forall|j: int| 0 <= j < k ==> trim(#[trigger] split_char(inner@, ',')[j]) != "push"@,
        decreases pieces.len() - k,
    {
        assert(vec_views(pieces@)[k as int] == pieces@[k as int]@);
        let t = trim_vec(pieces[k].as_slice());
        if crate::text::chars_eq(t.as_slice(), push.as_slice()) {
            assert(trim(split_char(inner@, ',')[k as int]) == "push"@);
            return true;
        }
        k = k + 1;
    }
    false
}

/// The pieces of `s` between commas.
fn split_pieces(s: &[char]) -> (r: Vec<Vec<char>>)
    ensures
        vec_views(r@) == split_char(s@, ','),
{
    let mut out: Vec<Vec<char>> = Vec::new();
    let mut piece: Vec<char> = Vec::new();
    let mut i: usize = 0;
    proof {
        crate::text::lemma_split_char_nonempty(s@.subrange(0, 0), ',');
    }
    assert(vec_views(out@) =~= Seq::<Seq<char>>::empty());
    while i < s.len()
        invariant
            i <= s@.len(),
            split_char(s@.subrange(0, i as int), ',').len() >= 1,
            piece@ == split_char(s@.subrange(0, i as int), ',').last(),
            vec_views(out@) == split_char(s@.subrange(0, i as int), ',').drop_last(),
        decreases s.len() - i,
    {
        let ghost before = s@.subrange(0, i as int);
        let ghost parts = split_char(before, ',');
        let c = s[i];
        assert(s@.subrange(0, i + 1).drop_last() =~= before);
        assert(s@.subrange(0, i + 1).last() == c);
        if c == ',' {
            let ghost old_out = vec_views(out@);
            let mut done: Vec<char> = Vec::new();
            std::mem::swap(&mut done, &mut piece);
            let ghost dv = done@;
            out.push(done);
            proof {
                let np = parts.push(Seq::empty());
                assert(np.drop_last() =~= parts);
                assert(vec_views(out@) =~= old_out.push(dv));
                assert(parts.drop_last().push(parts.last()) =~= parts);
                assert(piece@ =~= np.last());
            }
        } else {
            piece.push(c);
            proof {
                let np = parts.update(parts.len() - 1, parts.last().push(c));
                assert(np.drop_last() =~= parts.drop_last());
                assert(piece@ =~= np.last());
            }
        }
        i = i + 1;
    }
    assert(s@.subrange(0, s@.len() as int) =~= s@);
    let ghost parts = split_char(s@, ',');
    let ghost old_out = vec_views(out@);
    let ghost pv = piece@;
    out.push(piece);
    assert(vec_views(out@) =~= old_out.push(pv));
    assert(parts.drop_last().push(parts.last()) =~= parts);
    out
}

/// Whether a workflow runs on push.
pub fn workflow_has_push_trigger(contents: &str) -> (r: bool)
    ensures
        r == workflow_push_trigger(contents@),
{
    let all = lines(contents);
    let ghost ls = char_vecs(all@);
    let on = chars_of("on:");
    let mut i: usize = 0;
    while i < all.len()
        invariant
            i <= all@.len(),
            ls == char_vecs(all@),
            ls == lines_of(contents@),
            on@ == "on:"@,
            push_trigger_scan(ls, 0) == push_trigger_scan(ls, i as int),
        decreases all.len() - i,
    {
        let line = all[i].as_slice();
        assert(ls[i as int] == line@);
        if indent_of(line) != 0 {
            i = i + 1;
        } else {
            let k = trim_start_index(line);
            let t = chars_from(line, k);
            let u = trim_unquoted_comment(t.as_slice());
            if !chars_start_with(u.as_slice(), on.as_slice()) {
                i = i + 1;
            } else {
                let rest = chars_from(u.as_slice(), on.len());
                let v = trim_vec(rest.as_slice());
                if is_push_value(v.as_slice()) {
                    return true;
                }
                if v.len() > 0 {
                    return false;
                }
                return push_events_follow(&all, i + 1);
            }
        }
    }
    false
}

fn push_events_follow(all: &Vec<Vec<char>>, from: usize) -> (r: bool)
    requires
        from <= all@.len(),
    ensures
        r == push_event_scan(char_vecs(all@), from as int),
{
    let ghost ls = char_vecs(all@);
    let hash = chars_of("#");
    let push_key = chars_of("push:");
    let dash_push = chars_of("- push");
    let mut j: usize = from;
    while j < all.len()
        invariant
            from <= j <= all@.len(),
            ls == char_vecs(all@),
            hash@ == "#"@,
            push_key@ == "push:"@,
            dash_push@ == "- push"@,
            push_event_scan(ls, from as int) == push_event_scan(ls, j as int),
        decreases all.len() - j,
    {
        let line = all[j].as_slice();
        assert(ls[j as int] == line@);
        let k = trim_start_index(line);
        let ev = chars_from(line, k);
        if ev.len() == 0 || chars_start_with(ev.as_slice(), hash.as_slice()) {
            j = j + 1;
        } else if indent_of(line) == 0 {
            return false;
        } else {
            let u = trim_unquoted_comment(ev.as_slice());
            let e = trim_vec(u.as_slice());
            if chars_start_with(e.as_slice(), push_key.as_slice()) || crate::text::chars_eq(
                e.as_slice(),
                dash_push.as_slice(),
            ) {
                return true;
            }
            j = j + 1;
        }
    }
    false
}

/// The block under a `run: |` or `run: >` field, read while it stays
/// indented past the field.
pub open spec fn block_scan(ls: Seq<Seq<char>>, j: int, ind: int) -> bool
    decreases ls.len() - j,
{
    if j < 0 || j >= ls.len() {
        false
    } else {
        let bt = trim_start(ls[j]);
        if bt.len() == 0 {
            block_scan(ls, j + 1, ind)
        } else if indent(ls[j]) <= ind {
            false
        } else if closer_line(bt) {
            true
        } else {
            block_scan(ls, j + 1, ind)
        }
    }
}

/// Whether a step field is a `run:` that closes tasks, inline or in a block.
pub open spec fn run_field(ls: Seq<Seq<char>>, index: int, ind: int, field: Seq<char>) -> bool {
    starts_with(field, "run:"@) && {
        let v = trim_unquoted_comment_spec(trim(field.skip("run:"@.len() as int)));
        if starts_with(v, "|"@) || starts_with(v, ">"@) {
            block_scan(ls, index + 1, ind)
        } else {
            closer_line(v)
        }
    }
}

/// The steps of a `steps:` list: each `- ` item and the fields of the item
/// at the item's first property indentation.
pub open spec fn steps_scan(
    ls: Seq<Seq<char>>,
    i: int,
    steps_ind: int,
    step_ind: Option<int>,
    prop_ind: Option<int>,
) -> bool
    decreases ls.len() - i,
{
    if i < 0 || i >= ls.len() {
        false
    } else {
        let t = trim_start(ls[i]);
        if t.len() == 0 || starts_with(t, "#"@) {
            steps_scan(ls, i + 1, steps_ind, step_ind, prop_ind)
        } else {
            let ind = indent(ls[i]);
            if ind <= steps_ind {
                false
            } else if starts_with(t, "- "@) {
                if run_field(ls, i, ind, t.skip("- "@.len() as int)) {
                    true
                } else {
                    steps_scan(ls, i + 1, steps_ind, Some(ind), None)
                }
            } else {
                match step_ind {
                    None => steps_scan(ls, i + 1, steps_ind, None, prop_ind),
                    Some(csi) => if ind <= csi {
                        steps_scan(ls, i + 1, steps_ind, None, None)
                    } else {
                        let cpi = match prop_ind {
                            Some(p) => p,
                            None => ind,
                        };
                        if ind == cpi && run_field(ls, i, ind, t) {
                            true
                        } else {
                            steps_scan(ls, i + 1, steps_ind, Some(csi), Some(cpi))
                        }
                    },
                }
            }
        }
    }
}

/// The `steps:` keys within a `jobs:` block.
pub open spec fn steps_in_jobs(ls: Seq<Seq<char>>, j: int, jobs_ind: int) -> bool
    decreases ls.len() - j,
{
    if j < 0 || j >= ls.len() {
        false
    } else {
        let st = trim_start(ls[j]);
        if st.len() == 0 || starts_with(st, "#"@) {
            steps_in_jobs(ls, j + 1, jobs_ind)
        } else if indent(ls[j]) <= jobs_ind {
            false
        } else if trim_unquoted_comment_spec(st) != "steps:"@ {
            steps_in_jobs(ls, j + 1, jobs_ind)
        } else if steps_scan(ls, j + 1, indent(ls[j]), None, None) {
            true
        } else {
            steps_in_jobs(ls, j + 1, jobs_ind)
        }
    }
}

/// Every `jobs:` key of the workflow.
pub open spec fn jobs_scan(ls: Seq<Seq<char>>, i: int) -> bool
    decreases ls.len() - i,
{
    if i < 0 || i >= ls.len() {
        false
    } else if trim_unquoted_comment_spec(trim_start(ls[i])) == "jobs:"@ && steps_in_jobs(
        ls,
        i + 1,
        indent(ls[i]),
    ) {
        true
    } else {
        jobs_scan(ls, i + 1)
    }
}

/// Whether a CI workflow runs on push and has a step that closes tasks.
pub open spec fn workflow_closes_tasks(contents: Seq<char>) -> bool {
    workflow_push_trigger(contents) && jobs_scan(lines_of(contents), 0)
}

fn block_closes(all: &Vec<Vec<char>>, from: usize, ind: u128) -> (r: bool)
    requires
        from <= all@.len(),
    ensures
        r == block_scan(char_vecs(all@), from as int, ind as int),
{
    let ghost ls = char_vecs(all@);
    let mut j: usize = from;
    while j < all.len()
        invariant
            from <= j <= all@.len(),
            ls == char_vecs(all@),
            block_scan(ls, from as int, ind as int) == block_scan(ls, j as int, ind as int),
        decreases all.len() - j,
    {
        let line = all[j].as_slice();
        assert(ls[j as int] == line@);
        let k = trim_start_index(line);
        let bt = chars_from(line, k);
        if bt.len() == 0 {
            j = j + 1;
        } else if indent_of(line) <= ind {
            return false;
        } else if shell_line_invokes_task_closer(bt.as_slice()) {
            return true;
        } else {
            j = j + 1;
        }
    }
    false
}

fn run_field_closes(all: &Vec<Vec<char>>, index: usize, ind: u128, field: &[char]) -> (r: bool)
    requires
        index < all@.len(),
    ensures
        r == run_field(char_vecs(all@), index as int, ind as int, field@),
{
    let n = all.len();
    assert(index < n);
    let key = chars_of("run:");
    if !chars_start_with(field, key.as_slice()) {
        return false;
    }
    let rest = chars_from(field, key.len());
    let t = trim_vec(rest.as_slice());
    let v = trim_unquoted_comment(t.as_slice());
    if chars_start_with(v.as_slice(), chars_of("|").as_slice()) || chars_start_with(
        v.as_slice(),
        chars_of(">").as_slice(),
    ) {
        block_closes(all, index + 1, ind)
    } else {
        shell_line_invokes_task_closer(v.as_slice())
    }
}

fn steps_close(all: &Vec<Vec<char>>, from: usize, steps_ind: u128) -> (r: bool)
    requires
        from <= all@.len(),
    ensures
        r == steps_scan(char_vecs(all@), from as int, steps_ind as int, None, None),
{
    let ghost ls = char_vecs(all@);
    let hash = chars_of("#");
    let item = chars_of("- ");
    let mut step_ind: Option<u128> = None;
    let mut prop_ind: Option<u128> = None;
    let mut i: usize = from;
    while i < all.len()
        invariant
            from <= i <= all@.len(),
            ls == char_vecs(all@),
            hash@ == "#"@,
            item@ == "- "@,
            steps_scan(ls, from as int, steps_ind as int, None, None) == steps_scan(
                ls,
                i as int,
                steps_ind as int,
                match step_ind {
                    Some(x) => Some(x as int),
                    None => None,
                },
                match prop_ind {
                    Some(x) => Some(x as int),
                    None => None,
                },
            ),
        decreases all.len() - i,
    {
        let line = all[i].as_slice();
        assert(ls[i as int] == line@);
        let k = trim_start_index(line);
        let t = chars_from(line, k);
        if t.len() == 0 || chars_start_with(t.as_slice(), hash.as_slice()) {
            i = i + 1;
        } else {
            let ind = indent_of(line);
            if ind <= steps_ind {
                return false;
            }
            if chars_start_with(t.as_slice(), item.as_slice()) {
                let field = chars_from(t.as_slice(), item.len());
                if run_field_closes(all, i, ind, field.as_slice()) {
                    return true;
                }
                step_ind = Some(ind);
                prop_ind = None;
                i = i + 1;
            } else {
                match step_ind {
                    None => {
                        i = i + 1;
                    },
                    Some(csi) => {
                        if ind <= csi {
                            step_ind = None;
                            prop_ind = None;
                            i = i + 1;
                        } else {
                            let cpi = match prop_ind {
                                Some(p) => p,
                                None => ind,
                            };
                            if ind == cpi && run_field_closes(all, i, ind, t.as_slice()) {
                                return true;
                            }
                            prop_ind = Some(cpi);
                            i = i + 1;
                        }
                    },
                }
            }
        }
    }
    false
}

fn steps_within_jobs(all: &Vec<Vec<char>>, from: usize, jobs_ind: u128) -> (r: bool)
    requires
        from <= all@.len(),
    ensures
        r == steps_in_jobs(char_vecs(all@), from as int, jobs_ind as int),
{
    let ghost ls = char_vecs(all@);
    let hash = chars_of("#");
    let steps_key = chars_of("steps:");
    let mut j: usize = from;
    while j < all.len()
        invariant
            from <= j <= all@.len(),
            ls == char_vecs(all@),
            hash@ == "#"@,
            steps_key@ == "steps:"@,
            steps_in_jobs(ls, from as int, jobs_ind as int) == steps_in_jobs(
                ls,
                j as int,
                jobs_ind as int,
            ),
        decreases all.len() - j,
    {
        let line = all[j].as_slice();
        assert(ls[j as int] == line@);
        let k = trim_start_index(line);
        let st = chars_from(line, k);
        if st.len() == 0 || chars_start_with(st.as_slice(), hash.as_slice()) {
            j = j + 1;
        } else {
            let si = indent_of(line);
            if si <= jobs_ind {
                return false;
            }
            let u = trim_unquoted_comment(st.as_slice());
            if !crate::text::chars_eq(u.as_slice(), steps_key.as_slice()) {
                j = j + 1;
            } else if steps_close(all, j + 1, si) {
                return true;
            } else {
                j = j + 1;
            }
        }
    }
    false
}

/// Whether a CI workflow runs on push and has a step that runs
/// `tiber close-from-trailers`.
pub fn workflow_invokes_task_closer(contents: &str) -> (r: bool)
    ensures
        r == workflow_closes_tasks(contents@),
{
    if !workflow_has_push_trigger(contents) {
        return false;
    }
    let all = lines(contents);
    let ghost ls = char_vecs(all@);
    let jobs_key = chars_of("jobs:");
    let mut i: usize = 0;
    while i < all.len()
        invariant
            i <= all@.len(),
            ls == char_vecs(all@),
            ls == lines_of(contents@),
            jobs_key@ == "jobs:"@,
            workflow_push_trigger(contents@),
            jobs_scan(ls, 0) == jobs_scan(ls, i as int),
        decreases all.len() - i,
    {
        let line = all[i].as_slice();
        assert(ls[i as int] == line@);
        let k = trim_start_index(line);
        let jt = chars_from(line, k);
        let u = trim_unquoted_comment(jt.as_slice());
        if crate::text::chars_eq(u.as_slice(), jobs_key.as_slice()) {
            let ji = indent_of(line);
            if steps_within_jobs(&all, i + 1, ji) {
                return true;
            }
        }
        i = i + 1;
    }
    false
}

} // verus!
