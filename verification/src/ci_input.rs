//! The checks on what a caller hands to a CI-recovery command: free text,
//! capability lists and participant names.
use vstd::prelude::*;
use crate::ci_types::{
    action_kind_text, classification_text, replacement_status_text, CiRecoveryAction,
    CiRecoveryActionKind, CiRecoveryAssignment, CiRecoveryClassification, CiRecoveryDiagnosis,
    CiRecoveryFailureRecord, CiRecoveryParticipant, CiRecoveryReleaseProof, CiRecoveryReplacement,
    CiRecoveryReplacementStatus, CiRecoveryTrigger,
};
use crate::text::{
    char_is_control, chars_of, is_control_char, push_char, string_from_chars, trim, trim_bounds,
    trimmed_chars, utf8_len, utf8_len_exceeds,
};

verus! {

/// The most bytes of UTF-8 that a free-text field may hold.
pub const CI_RECOVERY_TEXT_MAX_BYTES: u64 = 16384;

/// Why a caller's input is refused.
#[derive(Clone, Debug, PartialEq, Eq)]
pub enum CiInputError {
    /// A free-text field is empty, too long, holds a control character or
    /// looks like a credential.
    FieldInvalid { field: String },
    /// The capability list is empty or names an unknown capability.
    CapabilityInvalid,
    /// The recipient's session is missing.
    RecipientSessionRequired,
    /// A choice names none of its allowed values.
    ChoiceInvalid { field: String, value: String },
    /// A release proof does not report success.
    TerminalSuccessRequired { actual: String },
}

/// `c` with ASCII capitals lowered (`char::to_ascii_lowercase`).
pub open spec fn ascii_lower(c: char) -> char {
    if 'A' <= c && c <= 'Z' {
        ((c as u32) + 32) as char
    } else {
        c
    }
}

pub open spec fn ascii_lowercase(s: Seq<char>) -> Seq<char> {
    s.map_values(|c: char| ascii_lower(c))
}

/// Whether `m` occurs in `s` as a contiguous run.
pub open spec fn contains_seq(s: Seq<char>, m: Seq<char>) -> bool {
    exists|i: int| 0 <= i && i + m.len() <= s.len() && #[trigger] s.subrange(i, i + m.len()) == m
}

/// Lower-case text that marks a likely credential.
pub open spec fn credential_markers() -> Seq<Seq<char>> {
    seq![
        "ghp_"@,
        "github_pat_"@,
        "authorization:"@,
        "bearer "@,
        "password="@,
        "token="@,
        "secret="@,
        "-----begin private key"@,
        "-----begin rsa private key"@,
        "-----begin openssh private key"@,
    ]
}

pub open spec fn looks_like_credential(s: Seq<char>) -> bool {
    exists|k: int|
        0 <= k < credential_markers().len() && contains_seq(
            ascii_lowercase(s),
            #[trigger] credential_markers()[k],
        )
}

pub open spec fn has_control(s: Seq<char>) -> bool {
    exists|i: int| 0 <= i < s.len() && is_control_char(#[trigger] s[i])
}

/// The text a free-text field keeps, or `None` when it is refused.
pub open spec fn required_text(value: Seq<char>) -> Option<Seq<char>> {
    let t = trim(value);
    if t.len() == 0 || utf8_len(t) > CI_RECOVERY_TEXT_MAX_BYTES || has_control(t)
        || looks_like_credential(t) {
        None
    } else {
        Some(t)
    }
}

fn lower_chars(s: &[char]) -> (r: Vec<char>)
    ensures
        r@ == ascii_lowercase(s@),
{
    let mut r: Vec<char> = Vec::new();
    let mut i: usize = 0;
    while i < s.len()
        invariant
            i <= s@.len(),
            r@ == ascii_lowercase(s@.subrange(0, i as int)),
        decreases s.len() - i,
    {
        let c = s[i];
        let l = if 'A' <= c && c <= 'Z' {
            let n: u8 = ((c as u32) + 32) as u8;
            n as char
        } else {
            c
        };
        r.push(l);
        assert(ascii_lowercase(s@.subrange(0, i + 1)) =~= ascii_lowercase(
            s@.subrange(0, i as int),
        ).push(ascii_lower(c)));
        i = i + 1;
    }
    assert(s@.subrange(0, s@.len() as int) =~= s@);
    r
}

/// Whether `m` occurs in `s`.
pub fn chars_contain(s: &[char], m: &[char]) -> (r: bool)
    ensures
        r == contains_seq(s@, m@),
{
    if m.len() > s.len() {
        return false;
    }
    let mut i: usize = 0;
    let last = s.len() - m.len();
    while i <= last
        invariant
            last == s@.len() - m@.len(),
            m@.len() <= s@.len(),
            i <= s@.len(),
            forall|j: int| 0 <= j < i ==> #[trigger] s@.subrange(j, j + m@.len()) != m@,
        decreases s.len() - i,
    {
        let mut k: usize = 0;
        let mut same = true;
        while k < m.len()
            invariant
                i <= last,
                last == s@.len() - m@.len(),
                s.len() == s@.len(),
                m.len() == m@.len(),
                m@.len() <= s@.len(),
                k <= m@.len(),
                same == (forall|q: int| 0 <= q < k ==> s@[i + q] == m@[q]),
            decreases m.len() - k,
        {
            if s[i + k] != m[k] {
                same = false;
            }
            k = k + 1;
        }
        if same {
            assert(s@.subrange(i as int, i + m@.len()) =~= m@);
            return true;
        }
        assert(s@.subrange(i as int, i + m@.len()) != m@) by {
            let q = choose|q: int| 0 <= q < m@.len() && s@[i + q] != m@[q];
            assert(s@.subrange(i as int, i + m@.len())[q] == s@[i + q]);
        }
        i = i + 1;
    }
    assert forall|j: int| 0 <= j && j + m@.len() <= s@.len() implies #[trigger] s@.subrange(
        j,
        j + m@.len(),
    ) != m@ by {
        assert(j < i);
    }
    false
}

fn credential_marker(k: usize) -> (r: &'static str)
    requires
        k < 10,
    ensures
        r@ == credential_markers()[k as int],
{
    if k == 0 {
        "ghp_"
    } else if k == 1 {
        "github_pat_"
    } else if k == 2 {
        "authorization:"
    } else if k == 3 {
        "bearer "
    } else if k == 4 {
        "password="
    } else if k == 5 {
        "token="
    } else if k == 6 {
        "secret="
    } else if k == 7 {
        "-----begin private key"
    } else if k == 8 {
        "-----begin rsa private key"
    } else {
        "-----begin openssh private key"
    }
}

fn chars_look_like_credential(s: &[char]) -> (r: bool)
    ensures
        r == looks_like_credential(s@),
{
    let lower = lower_chars(s);
    let mut k: usize = 0;
    while k < 10
        invariant
            k <= 10,
            lower@ == ascii_lowercase(s@),
            credential_markers().len() == 10,
            forall|j: int| 0 <= j < k ==> !contains_seq(lower@, #[trigger] credential_markers()[j]),
        decreases 10 - k,
    {
        let marker = chars_of(credential_marker(k));
        if chars_contain(lower.as_slice(), marker.as_slice()) {
            return true;
        }
        k = k + 1;
    }
    false
}

fn chars_have_control(s: &[char]) -> (r: bool)
    ensures
        r == has_control(s@),
{
    let mut i: usize = 0;
    while i < s.len()
        invariant
            i <= s@.len(),
            forall|j: int| 0 <= j < i ==> !is_control_char(#[trigger] s@[j]),
        decreases s.len() - i,
    {
        if char_is_control(s[i]) {
            return true;
        }
        i = i + 1;
    }
    false
}

/// A free-text field, trimmed; refused when it is empty, longer than the
/// byte limit, holds a control character, or looks like a credential.
pub fn required_ci_recovery_text(field: &str, value: &str) -> (r: Result<String, CiInputError>)
    ensures
        match required_text(value@) {
            Some(t) => r == Ok::<String, CiInputError>(r->Ok_0) && r->Ok_0@ == t,
            None => r is Err && r->Err_0 is FieldInvalid && r->Err_0->FieldInvalid_field@ == field@,
        },
{
    let t = trimmed_chars(value);
    if t.len() == 0 || utf8_len_exceeds(t.as_slice(), CI_RECOVERY_TEXT_MAX_BYTES)
        || chars_have_control(t.as_slice()) || chars_look_like_credential(t.as_slice()) {
        return Err(CiInputError::FieldInvalid { field: field.to_string() });
    }
    Ok(string_from_chars(t.as_slice()))
}

// ---------------------------------------------------------------------------
// Capabilities

/// `s` cut at every comma (`str::split(',')`).
pub open spec fn split_commas(s: Seq<char>) -> Seq<Seq<char>>
    decreases s.len(),
{
    if s.len() == 0 {
        seq![Seq::empty()]
    } else {
        let parts = split_commas(s.drop_last());
        if s.last() == ',' {
            parts.push(Seq::empty())
        } else {
            parts.update(parts.len() - 1, parts.last().push(s.last()))
        }
    }
}

proof fn lemma_split_nonempty(s: Seq<char>)
    ensures
        split_commas(s).len() >= 1,
    decreases s.len(),
{
    if s.len() > 0 {
        lemma_split_nonempty(s.drop_last());
    }
}

/// The trimmed pieces that are not empty.
pub open spec fn nonempty_trimmed(parts: Seq<Seq<char>>) -> Seq<Seq<char>>
    decreases parts.len(),
{
    if parts.len() == 0 {
        Seq::empty()
    } else {
        let r = nonempty_trimmed(parts.drop_last());
        if trim(parts.last()).len() > 0 {
            r.push(trim(parts.last()))
        } else {
            r
        }
    }
}

/// The capability names of a comma-separated list.
pub open spec fn capability_list(s: Seq<char>) -> Seq<Seq<char>> {
    nonempty_trimmed(split_commas(s))
}

pub open spec fn known_capability(c: Seq<char>) -> bool {
    c == "inspect"@ || c == "reproduce"@ || c == "edit"@ || c == "test"@
}

pub open spec fn capabilities_valid(caps: Seq<Seq<char>>) -> bool {
    caps.len() > 0 && forall|i: int| 0 <= i < caps.len() ==> known_capability(#[trigger] caps[i])
}

fn is_known_capability(c: &String) -> (r: bool)
    ensures
        r == known_capability(c@),
{
    crate::text::str_eq(c.as_str(), "inspect") || crate::text::str_eq(c.as_str(), "reproduce")
        || crate::text::str_eq(c.as_str(), "edit") || crate::text::str_eq(c.as_str(), "test")
}

fn trimmed_piece(piece: &Vec<char>) -> (r: Vec<char>)
    ensures
        r@ == trim(piece@),
{
    let (a, b) = trim_bounds(piece.as_slice());
    let mut r: Vec<char> = Vec::new();
    let mut i: usize = a;
    while i < b
        invariant
            a <= i <= b <= piece@.len(),
            r@ == piece@.subrange(a as int, i as int),
        decreases b - i,
    {
        r.push(piece[i]);
        assert(r@ =~= piece@.subrange(a as int, i + 1));
        i = i + 1;
    }
    r
}

/// The capabilities named in a comma-separated list; refused when none is
/// named or one is not `inspect`, `reproduce`, `edit` or `test`.
pub fn parse_capabilities(value: &str) -> (r: Result<Vec<String>, CiInputError>)
    ensures
        match r {
            Ok(caps) => capabilities_valid(capability_list(value@)) && caps.len()
                == capability_list(value@).len() && forall|i: int|
                0 <= i < caps.len() ==> #[trigger] caps@[i]@ == capability_list(value@)[i],
            Err(e) => !capabilities_valid(capability_list(value@)) && e
                == CiInputError::CapabilityInvalid,
        },
{
    let chars = chars_of(value);
    let mut caps: Vec<String> = Vec::new();
    let mut piece: Vec<char> = Vec::new();
    let mut i: usize = 0;
    proof {
        lemma_split_nonempty(chars@.subrange(0, 0));
    }
    while i < chars.len()
        invariant
            i <= chars@.len(),
            chars@ == value@,
            split_commas(chars@.subrange(0, i as int)).len() >= 1,
            piece@ == split_commas(chars@.subrange(0, i as int)).last(),
            caps@.len() == nonempty_trimmed(split_commas(chars@.subrange(0, i as int)).drop_last()).len(),
            forall|k: int|
                0 <= k < caps@.len() ==> #[trigger] caps@[k]@ == nonempty_trimmed(
                    split_commas(chars@.subrange(0, i as int)).drop_last(),
                )[k],
        decreases chars.len() - i,
    {
        let ghost before = chars@.subrange(0, i as int);
        let ghost parts = split_commas(before);
        let c = chars[i];
        assert(chars@.subrange(0, i + 1).drop_last() =~= before);
        assert(chars@.subrange(0, i + 1).last() == c);
        if c == ',' {
            let t = trimmed_piece(&piece);
            proof {
                assert(parts.push(Seq::empty()).drop_last() =~= parts);
                assert(parts.drop_last().push(parts.last()) =~= parts);
            }
            if t.len() > 0 {
                caps.push(string_from_chars(t.as_slice()));
            }
            piece = Vec::new();
            proof {
                assert(piece@ =~= Seq::<char>::empty());
            }
        } else {
            piece.push(c);
            proof {
                let np = parts.update(parts.len() - 1, parts.last().push(c));
                assert(np.drop_last() =~= parts.drop_last());
                assert(piece@ =~= np.last());
            }
        }
        i = i + 1;
    }
    assert(chars@.subrange(0, chars@.len() as int) =~= chars@);
    let ghost parts = split_commas(chars@);
    assert(parts.drop_last().push(parts.last()) =~= parts);
    let t = trimmed_piece(&piece);
    if t.len() > 0 {
        caps.push(string_from_chars(t.as_slice()));
    }
    assert(caps@.len() == capability_list(value@).len());
    if caps.len() == 0 {
        return Err(CiInputError::CapabilityInvalid);
    }
    let mut j: usize = 0;
    while j < caps.len()
        invariant
            j <= caps@.len(),
            caps@.len() == capability_list(value@).len(),
            forall|k: int| 0 <= k < caps@.len() ==> #[trigger] caps@[k]@ == capability_list(value@)[k],
            forall|k: int| 0 <= k < j ==> known_capability(#[trigger] capability_list(value@)[k]),
        decreases caps.len() - j,
    {
        if !is_known_capability(&caps[j]) {
            assert(!known_capability(capability_list(value@)[j as int]));
            return Err(CiInputError::CapabilityInvalid);
        }
        j = j + 1;
    }
    Ok(caps)
}

// ---------------------------------------------------------------------------
// Participants

/// How a host or session name is recorded: trimmed, each control character
/// replaced by `-`, and `unknown` when nothing is left.
pub open spec fn scalar_value(value: Seq<char>) -> Seq<char> {
    let t = trim(value).map_values(|c: char| if is_control_char(c) { '-' } else { c });
    if t.len() == 0 {
        "unknown"@
    } else {
        t
    }
}

/// A host or session name as it is recorded.
pub fn frontmatter_scalar_value(value: &str) -> (r: String)
    ensures
        r@ == scalar_value(value@),
{
    let t = trimmed_chars(value);
    let ghost tv = trim(value@);
    let mut out = String::new();
    let mut i: usize = 0;
    while i < t.len()
        invariant
            i <= t@.len(),
            t@ == tv,
            out@ == tv.subrange(0, i as int).map_values(
                |c: char| if is_control_char(c) { '-' } else { c },
            ),
        decreases t.len() - i,
    {
        let c = t[i];
        let m = if char_is_control(c) {
            '-'
        } else {
            c
        };
        push_char(&mut out, m);
        assert(out@ =~= tv.subrange(0, i + 1).map_values(
            |c: char| if is_control_char(c) { '-' } else { c },
        ));
        i = i + 1;
    }
    assert(tv.subrange(0, tv.len() as int) =~= tv);
    if t.len() == 0 {
        "unknown".to_string()
    } else {
        out
    }
}

/// The participant named by a host and session; refused when the session
/// is missing.
pub fn ci_recovery_participant_from(host: &str, session: &str) -> (r: Result<
    CiRecoveryParticipant,
    CiInputError,
>)
    ensures
        match r {
            Ok(p) => scalar_value(session@) != "unknown"@ && p@.host == scalar_value(host@)
                && p@.session == scalar_value(session@),
            Err(e) => scalar_value(session@) == "unknown"@ && e
                == CiInputError::RecipientSessionRequired,
        },
{
    let host = frontmatter_scalar_value(host);
    let session = frontmatter_scalar_value(session);
    if crate::text::str_eq(session.as_str(), "unknown") {
        return Err(CiInputError::RecipientSessionRequired);
    }
    Ok(CiRecoveryParticipant { host, session })
}

// ---------------------------------------------------------------------------
// Whole inputs

/// The work an owner hands to a participant, as typed by the caller.
#[derive(Clone, Debug)]
pub struct CiRecoveryAssignmentInput {
    pub to_host: String,
    pub to_session: String,
    pub capabilities: String,
    pub scope: String,
}

/// A diagnosis as typed by the caller.
#[derive(Clone, Debug)]
pub struct CiRecoveryDiagnosisInput {
    pub job: String,
    pub step: String,
    pub log_evidence: String,
    pub cause: String,
    pub classification: String,
}

/// A replacement run as typed by the caller.
#[derive(Clone, Debug)]
pub struct CiRecoveryReplacementInput {
    pub run_id: String,
    pub run_url: String,
    pub sha: String,
    pub status: String,
}

/// A release proof as typed by the caller.
#[derive(Clone, Debug)]
pub struct CiRecoveryReleaseInput {
    pub replacement_run_id: String,
    pub replacement_run_url: String,
    pub sha: String,
    pub terminal_status: String,
}

fn text_field(field: &str, value: &String) -> (r: Result<String, CiInputError>)
    ensures
        match required_text(value@) {
            Some(t) => r is Ok && r->Ok_0@ == t,
            None => r is Err && r->Err_0 is FieldInvalid && r->Err_0->FieldInvalid_field@ == field@,
        },
{
    required_ci_recovery_text(field, value.as_str())
}

/// The trigger of a claim, each field checked as free text.
pub fn prepare_ci_recovery_trigger(input: &CiRecoveryTrigger) -> (r: Result<
    CiRecoveryTrigger,
    CiInputError,
>)
    ensures
        match (
            required_text(input.run_id@),
            required_text(input.run_url@),
            required_text(input.failed_sha@),
            required_text(input.workflow@),
            required_text(input.git_ref@),
        ) {
            (Some(a), Some(b), Some(c), Some(d), Some(e)) => r is Ok && r->Ok_0.run_id@ == a
                && r->Ok_0.run_url@ == b && r->Ok_0.failed_sha@ == c && r->Ok_0.workflow@ == d
                && r->Ok_0.git_ref@ == e,
            _ => r is Err && r->Err_0 is FieldInvalid,
        },
{
    let run_id = text_field("run_id", &input.run_id)?;
    let run_url = text_field("run_url", &input.run_url)?;
    let failed_sha = text_field("failed_sha", &input.failed_sha)?;
    let workflow = text_field("workflow", &input.workflow)?;
    let git_ref = text_field("git_ref", &input.git_ref)?;
    Ok(CiRecoveryTrigger { run_id, run_url, failed_sha, workflow, git_ref })
}

/// The assignment an owner issues under `epoch`: the recipient, the
/// capabilities and the scope, checked in that order. Its identifier is left
/// empty; the assign command numbers it.
pub fn prepare_ci_recovery_assignment(input: &CiRecoveryAssignmentInput, epoch: u64) -> (r: Result<
    CiRecoveryAssignment,
    CiInputError,
>)
    ensures
        scalar_value(input.to_session@) == "unknown"@ ==> r == Err::<
            CiRecoveryAssignment,
            CiInputError,
        >(CiInputError::RecipientSessionRequired),
        scalar_value(input.to_session@) != "unknown"@ && !capabilities_valid(
            capability_list(input.capabilities@),
        ) ==> r == Err::<CiRecoveryAssignment, CiInputError>(CiInputError::CapabilityInvalid),
        scalar_value(input.to_session@) != "unknown"@ && capabilities_valid(
            capability_list(input.capabilities@),
        ) ==> match required_text(input.scope@) {
            Some(scope) => r is Ok && r->Ok_0@.id.len() == 0 && r->Ok_0.owner_epoch == epoch
                && r->Ok_0@.assignee.host == scalar_value(input.to_host@)
                && r->Ok_0@.assignee.session == scalar_value(input.to_session@)
                && r->Ok_0@.capabilities == capability_list(input.capabilities@)
                && r->Ok_0@.scope == scope && r->Ok_0.report is None,
            None => r is Err && r->Err_0 is FieldInvalid,
        },
{
    let assignee = ci_recovery_participant_from(input.to_host.as_str(), input.to_session.as_str())?;
    let capabilities = parse_capabilities(input.capabilities.as_str())?;
    let scope = text_field("assignment_scope", &input.scope)?;
    let r = CiRecoveryAssignment {
        id: String::new(),
        owner_epoch: epoch,
        assignee,
        capabilities,
        scope,
        report: None,
    };
    assert(crate::ci_types::strings_view(r.capabilities@) =~= capability_list(input.capabilities@));
    Ok(r)
}

/// The failure record and diagnosis of an owner's diagnosis: the
/// classification, then each free-text field.
pub fn prepare_ci_recovery_diagnosis(input: &CiRecoveryDiagnosisInput) -> (r: Result<
    (CiRecoveryFailureRecord, CiRecoveryDiagnosis),
    CiInputError,
>)
    ensures
        (forall|c: CiRecoveryClassification| classification_text(c) != input.classification@)
            ==> r is Err && r->Err_0 is ChoiceInvalid,
        r is Ok ==> classification_text(r->Ok_0.1.classification) == input.classification@
            && Some(r->Ok_0.0.job@) == required_text(input.job@) && Some(r->Ok_0.0.step@)
            == required_text(input.step@) && Some(r->Ok_0.0.log_evidence@) == required_text(
            input.log_evidence@,
        ) && Some(r->Ok_0.1.cause@) == required_text(input.cause@),
        (exists|c: CiRecoveryClassification| classification_text(c) == input.classification@)
            && required_text(input.job@) is Some && required_text(input.step@) is Some
            && required_text(input.log_evidence@) is Some && required_text(input.cause@) is Some
            ==> r is Ok,
{
    let classification = match CiRecoveryClassification::parse(input.classification.as_str()) {
        Some(c) => c,
        None => {
            return Err(
                CiInputError::ChoiceInvalid {
                    field: "classification".to_string(),
                    value: input.classification.clone(),
                },
            );
        },
    };
    let job = text_field("job", &input.job)?;
    let step = text_field("step", &input.step)?;
    let log_evidence = text_field("log_evidence", &input.log_evidence)?;
    let cause = text_field("cause", &input.cause)?;
    Ok(
        (
            CiRecoveryFailureRecord { job, step, log_evidence },
            CiRecoveryDiagnosis { cause, classification },
        ),
    )
}

/// The action an owner chooses: its kind, then its description.
pub fn prepare_ci_recovery_action(kind: &str, description: &str) -> (r: Result<
    CiRecoveryAction,
    CiInputError,
>)
    ensures
        (forall|k: CiRecoveryActionKind| action_kind_text(k) != kind@) ==> r is Err && r->Err_0
            is ChoiceInvalid,
        r is Ok ==> action_kind_text(r->Ok_0.kind) == kind@ && Some(r->Ok_0.description@)
            == required_text(description@),
        (exists|k: CiRecoveryActionKind| action_kind_text(k) == kind@) && required_text(
            description@,
        ) is Some ==> r is Ok,
{
    let kind_value = match CiRecoveryActionKind::parse(kind) {
        Some(k) => k,
        None => {
            return Err(
                CiInputError::ChoiceInvalid { field: "action".to_string(), value: kind.to_string() },
            );
        },
    };
    let description = required_ci_recovery_text("description", description)?;
    Ok(CiRecoveryAction { kind: kind_value, description })
}

/// The replacement run an owner records: its status, then each free-text
/// field.
pub fn prepare_ci_recovery_replacement(input: &CiRecoveryReplacementInput) -> (r: Result<
    CiRecoveryReplacement,
    CiInputError,
>)
    ensures
        (forall|s: CiRecoveryReplacementStatus| replacement_status_text(s) != input.status@) ==> r
            is Err && r->Err_0 is ChoiceInvalid,
        r is Ok ==> replacement_status_text(r->Ok_0.status) == input.status@ && Some(
            r->Ok_0.run_id@,
        ) == required_text(input.run_id@) && Some(r->Ok_0.run_url@) == required_text(
            input.run_url@,
        ) && Some(r->Ok_0.sha@) == required_text(input.sha@),
        (exists|s: CiRecoveryReplacementStatus| replacement_status_text(s) == input.status@)
            && required_text(input.run_id@) is Some && required_text(input.run_url@) is Some
            && required_text(input.sha@) is Some ==> r is Ok,
{
    let status = match CiRecoveryReplacementStatus::parse(input.status.as_str()) {
        Some(s) => s,
        None => {
            return Err(
                CiInputError::ChoiceInvalid {
                    field: "replacement_status".to_string(),
                    value: input.status.clone(),
                },
            );
        },
    };
    let run_id = text_field("replacement_run_id", &input.run_id)?;
    let run_url = text_field("replacement_run_url", &input.run_url)?;
    let sha = text_field("replacement_sha", &input.sha)?;
    Ok(CiRecoveryReplacement { run_id, run_url, sha, status })
}

/// The release proof of a resolution: it must report success, then each
/// free-text field is checked.
pub fn prepare_ci_recovery_release_proof(input: &CiRecoveryReleaseInput) -> (r: Result<
    CiRecoveryReleaseProof,
    CiInputError,
>)
    ensures
        input.terminal_status@ != "success"@ ==> r is Err && r->Err_0 is TerminalSuccessRequired
            && r->Err_0->TerminalSuccessRequired_actual@ == input.terminal_status@,
        r is Ok ==> r->Ok_0.terminal_status@ == "success"@ && Some(r->Ok_0.replacement_run_id@)
            == required_text(input.replacement_run_id@) && Some(r->Ok_0.replacement_run_url@)
            == required_text(input.replacement_run_url@) && Some(r->Ok_0.sha@) == required_text(
            input.sha@,
        ),
        input.terminal_status@ == "success"@ && required_text(input.replacement_run_id@) is Some
            && required_text(input.replacement_run_url@) is Some && required_text(input.sha@) is Some
            ==> r is Ok,
{
    if !crate::text::str_eq(input.terminal_status.as_str(), "success") {
        return Err(
            CiInputError::TerminalSuccessRequired { actual: input.terminal_status.clone() },
        );
    }
    let replacement_run_id = text_field("replacement_run_id", &input.replacement_run_id)?;
    let replacement_run_url = text_field("replacement_run_url", &input.replacement_run_url)?;
    let sha = text_field("replacement_sha", &input.sha)?;
    Ok(
        CiRecoveryReleaseProof {
            replacement_run_id,
            replacement_run_url,
            sha,
            terminal_status: "success".to_string(),
        },
    )
}

} // verus!
