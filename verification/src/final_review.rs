//! The final-review barrier: the run of consecutive clean independent reviews
//! that a task needs before it may be completed.
use vstd::prelude::*;
use crate::ci_types::{duplicate_strings, strings_view};
use crate::text::str_eq;

verus! {

/// What an independent final review concluded.
#[derive(Clone, Copy, Debug, PartialEq, Eq, Structural)]
pub enum FinalReviewOutcome {
    Clean,
    Finding,
}

pub open spec fn outcome_named(value: Seq<char>) -> Option<FinalReviewOutcome> {
    if value == "clean"@ {
        Some(FinalReviewOutcome::Clean)
    } else if value == "finding"@ {
        Some(FinalReviewOutcome::Finding)
    } else {
        None
    }
}

impl FinalReviewOutcome {
    /// The outcome named `clean` or `finding`.
    pub fn parse(value: &str) -> (r: Option<Self>)
        ensures
            r == outcome_named(value@),
    {
        if crate::text::str_eq(value, "clean") {
            Some(FinalReviewOutcome::Clean)
        } else if crate::text::str_eq(value, "finding") {
            Some(FinalReviewOutcome::Finding)
        } else {
            None
        }
    }
}

/// One recorded final review of a task.
#[derive(Debug)]
pub struct FinalReviewRecord {
    pub review_id: String,
    pub reviewer_identity: String,
    pub reviewer_type: String,
    pub requested_scope: Vec<String>,
    pub scope: Vec<String>,
    pub commit_range: String,
    pub outcome: FinalReviewOutcome,
    pub evidence: String,
    pub timestamp: String,
    pub source_fingerprint: String,
    pub requested_verification_scope: Vec<String>,
    pub verification_scope: Vec<String>,
    pub verification_fingerprint: String,
}

pub struct ReviewView {
    pub review_id: Seq<char>,
    pub reviewer_identity: Seq<char>,
    pub reviewer_type: Seq<char>,
    pub requested_scope: Seq<Seq<char>>,
    pub scope: Seq<Seq<char>>,
    pub commit_range: Seq<char>,
    pub outcome: FinalReviewOutcome,
    pub evidence: Seq<char>,
    pub timestamp: Seq<char>,
    pub source_fingerprint: Seq<char>,
    pub requested_verification_scope: Seq<Seq<char>>,
    pub verification_scope: Seq<Seq<char>>,
    pub verification_fingerprint: Seq<char>,
}

impl View for FinalReviewRecord {
    type V = ReviewView;

    open spec fn view(&self) -> ReviewView {
        ReviewView {
            review_id: self.review_id@,
            reviewer_identity: self.reviewer_identity@,
            reviewer_type: self.reviewer_type@,
            requested_scope: strings_view(self.requested_scope@),
            scope: strings_view(self.scope@),
            commit_range: self.commit_range@,
            outcome: self.outcome,
            evidence: self.evidence@,
            timestamp: self.timestamp@,
            source_fingerprint: self.source_fingerprint@,
            requested_verification_scope: strings_view(self.requested_verification_scope@),
            verification_scope: strings_view(self.verification_scope@),
            verification_fingerprint: self.verification_fingerprint@,
        }
    }
}

impl DeepView for FinalReviewRecord {
    type V = ReviewView;

    open spec fn deep_view(&self) -> ReviewView {
        self@
    }
}

impl FinalReviewRecord {
    pub fn duplicate(&self) -> (r: Self)
        ensures
            r@ == self@,
    {
        FinalReviewRecord {
            review_id: self.review_id.clone(),
            reviewer_identity: self.reviewer_identity.clone(),
            reviewer_type: self.reviewer_type.clone(),
            requested_scope: duplicate_strings(&self.requested_scope),
            scope: duplicate_strings(&self.scope),
            commit_range: self.commit_range.clone(),
            outcome: self.outcome,
            evidence: self.evidence.clone(),
            timestamp: self.timestamp.clone(),
            source_fingerprint: self.source_fingerprint.clone(),
            requested_verification_scope: duplicate_strings(&self.requested_verification_scope),
            verification_scope: duplicate_strings(&self.verification_scope),
            verification_fingerprint: self.verification_fingerprint.clone(),
        }
    }
}

/// Whether two reviews looked at the same thing: the same scopes, commit
/// range and fingerprints.
pub open spec fn same_evidence(a: ReviewView, b: ReviewView) -> bool {
    &&& a.scope == b.scope
    &&& a.requested_scope == b.requested_scope
    &&& a.commit_range == b.commit_range
    &&& a.source_fingerprint == b.source_fingerprint
    &&& a.verification_scope == b.verification_scope
    &&& a.requested_verification_scope == b.requested_verification_scope
    &&& a.verification_fingerprint == b.verification_fingerprint
}

/// The clean run after one more review: a finding ends the run; a clean
/// review extends it, or starts a new one when the evidence it looked at
/// differs from the run's latest review.
pub open spec fn next_clean_run(run: Seq<ReviewView>, review: ReviewView) -> Seq<ReviewView> {
    match review.outcome {
        FinalReviewOutcome::Finding => Seq::empty(),
        FinalReviewOutcome::Clean => if run.len() > 0 && !same_evidence(run.last(), review) {
            seq![review]
        } else {
            run.push(review)
        },
    }
}

pub(crate) fn strings_eq(a: &Vec<String>, b: &Vec<String>) -> (r: bool)
    ensures
        r == (strings_view(a@) == strings_view(b@)),
{
    if a.len() != b.len() {
        return false;
    }
    let mut i: usize = 0;
    while i < a.len()
        invariant
            a@.len() == b@.len(),
            i <= a@.len(),
            forall|j: int| 0 <= j < i ==> a@[j]@ == b@[j]@,
        decreases a.len() - i,
    {
        if !str_eq(a[i].as_str(), b[i].as_str()) {
            assert(strings_view(a@)[i as int] != strings_view(b@)[i as int]);
            return false;
        }
        i = i + 1;
    }
    assert(strings_view(a@) =~= strings_view(b@));
    true
}

fn same_evidence_exec(a: &FinalReviewRecord, b: &FinalReviewRecord) -> (r: bool)
    ensures
        r == same_evidence(a@, b@),
{
    strings_eq(&a.scope, &b.scope) && strings_eq(&a.requested_scope, &b.requested_scope)
        && a.commit_range == b.commit_range && a.source_fingerprint == b.source_fingerprint
        && strings_eq(&a.verification_scope, &b.verification_scope) && strings_eq(
        &a.requested_verification_scope,
        &b.requested_verification_scope,
    ) && a.verification_fingerprint == b.verification_fingerprint
}

/// Folds one recorded review into the task's run of clean reviews.
pub fn apply_final_review_record_to_clean_sequence(
    clean_reviews: &mut Vec<FinalReviewRecord>,
    review: &FinalReviewRecord,
)
    ensures
        final(clean_reviews).deep_view() == next_clean_run(old(clean_reviews).deep_view(), review@),
{
    match review.outcome {
        FinalReviewOutcome::Finding => {
            clean_reviews.clear();
            assert(clean_reviews.deep_view() =~= Seq::<ReviewView>::empty());
        },
        FinalReviewOutcome::Clean => {
            let n = clean_reviews.len();
            let changed = n > 0 && !same_evidence_exec(&clean_reviews[n - 1], review);
            if changed {
                clean_reviews.clear();
            }
            let ghost before = clean_reviews.deep_view();
            clean_reviews.push(review.duplicate());
            assert(clean_reviews.deep_view() =~= before.push(review@));
            if changed {
                assert(before =~= Seq::<ReviewView>::empty());
                assert(clean_reviews.deep_view() =~= seq![review@]);
            }
        },
    }
}

// ---------------------------------------------------------------------------
// The review barrier

/// How many different values a sequence holds.
pub open spec fn distinct_count(s: Seq<Seq<char>>) -> nat
    decreases s.len(),
{
    if s.len() == 0 {
        0
    } else {
        distinct_count(s.drop_last()) + if s.drop_last().contains(s.last()) {
            0nat
        } else {
            1nat
        }
    }
}

pub open spec fn independent_count(s: Seq<ReviewView>) -> nat
    decreases s.len(),
{
    if s.len() == 0 {
        0
    } else {
        independent_count(s.drop_last()) + if s.last().reviewer_type
            == "independent-final-review"@ {
            1nat
        } else {
            0nat
        }
    }
}

pub open spec fn reviewers(s: Seq<ReviewView>) -> Seq<Seq<char>> {
    s.map_values(|r: ReviewView| r.reviewer_identity)
}

pub open spec fn review_ids(s: Seq<ReviewView>) -> Seq<Seq<char>> {
    s.map_values(|r: ReviewView| r.review_id)
}

/// Why the final-review barrier refuses a completion.
#[derive(Clone, Copy, Debug, PartialEq, Eq, Structural)]
pub enum FinalReviewGateError {
    /// The reviews read when the command began are no longer the latest.
    EvidenceChanged { clean: usize },
    /// Fewer consecutive clean reviews than required.
    EvidenceIncomplete { clean: usize, missing: usize },
    /// The latest required reviews do not come from as many distinct people,
    /// under as many distinct identifiers, all of the independent kind.
    IndependenceIncomplete {
        distinct_reviewers: usize,
        distinct_reviews: usize,
        independent_review_types: usize,
    },
}

pub open spec fn gate_error_code(e: FinalReviewGateError) -> Seq<char> {
    match e {
        FinalReviewGateError::EvidenceChanged { .. } => "tiber.final_review_evidence_changed_during_completion"@,
        FinalReviewGateError::EvidenceIncomplete { .. } => "tiber.final_review_evidence_incomplete"@,
        FinalReviewGateError::IndependenceIncomplete { .. } => "tiber.final_review_independence_incomplete"@,
    }
}

impl FinalReviewGateError {
    /// The stable code that opens the refusal's message.
    pub fn code(self) -> (r: &'static str)
        ensures
            r@ == gate_error_code(self),
    {
        match self {
            FinalReviewGateError::EvidenceChanged { .. } => "tiber.final_review_evidence_changed_during_completion",
            FinalReviewGateError::EvidenceIncomplete { .. } => "tiber.final_review_evidence_incomplete",
            FinalReviewGateError::IndependenceIncomplete { .. } => "tiber.final_review_independence_incomplete",
        }
    }
}

/// What the review barrier decides for a run of clean reviews and a required count.
pub open spec fn gate_decision(run: Seq<ReviewView>, required: usize) -> Result<
    (),
    FinalReviewGateError,
> {
    let clean = run.len();
    if clean < required {
        Err(
            FinalReviewGateError::EvidenceIncomplete {
                clean: clean as usize,
                missing: (required - clean) as usize,
            },
        )
    } else {
        let latest = run.skip(clean - required);
        let reviewers_n = distinct_count(reviewers(latest));
        let reviews_n = distinct_count(review_ids(latest));
        let independent_n = independent_count(latest);
        if reviewers_n < required || reviews_n < required || independent_n < required {
            Err(
                FinalReviewGateError::IndependenceIncomplete {
                    distinct_reviewers: reviewers_n as usize,
                    distinct_reviews: reviews_n as usize,
                    independent_review_types: independent_n as usize,
                },
            )
        } else {
            Ok(())
        }
    }
}

/// What the review barrier decides when the authoritative run must also be the one the
/// caller read.
pub open spec fn authority_decision(
    authoritative: Seq<ReviewView>,
    expected: Seq<ReviewView>,
    required: usize,
) -> Result<(), FinalReviewGateError> {
    if authoritative != expected {
        Err(FinalReviewGateError::EvidenceChanged { clean: authoritative.len() as usize })
    } else {
        gate_decision(authoritative, required)
    }
}

fn contains_text(v: &Vec<String>, upto: usize, x: &String) -> (r: bool)
    requires
        upto <= v@.len(),
    ensures
        r == strings_view(v@).take(upto as int).contains(x@),
{
    let mut j: usize = 0;
    while j < upto
        invariant
            j <= upto <= v@.len(),
            forall|k: int| 0 <= k < j ==> v@[k]@ != x@,
        decreases upto - j,
    {
        if str_eq(v[j].as_str(), x.as_str()) {
            assert(strings_view(v@).take(upto as int)[j as int] == x@);
            return true;
        }
        j = j + 1;
    }
    assert(!strings_view(v@).take(upto as int).contains(x@)) by {
        if strings_view(v@).take(upto as int).contains(x@) {
            let k = choose|k: int|
                0 <= k < upto && #[trigger] strings_view(v@).take(upto as int)[k] == x@;
            assert(v@[k]@ == x@);
        }
    }
    false
}

fn count_distinct(v: &Vec<String>) -> (r: usize)
    ensures
        r == distinct_count(strings_view(v@)),
{
    let mut count: usize = 0;
    let mut i: usize = 0;
    while i < v.len()
        invariant
            i <= v@.len(),
            count <= i,
            count == distinct_count(strings_view(v@).take(i as int)),
        decreases v.len() - i,
    {
        let ghost t = strings_view(v@).take(i + 1);
        assert(t.drop_last() =~= strings_view(v@).take(i as int));
        assert(t.last() == v@[i as int]@);
        if !contains_text(v, i, &v[i]) {
            count = count + 1;
        }
        i = i + 1;
    }
    assert(strings_view(v@).take(v@.len() as int) =~= strings_view(v@));
    count
}

/// Decides the review barrier over the latest `required` reviews of a clean run.
pub fn final_review_gate(run: &Vec<FinalReviewRecord>, required: usize) -> (r: Result<
    (),
    FinalReviewGateError,
>)
    ensures
        r == gate_decision(run.deep_view(), required),
{
    let clean = run.len();
    if clean < required {
        return Err(
            FinalReviewGateError::EvidenceIncomplete { clean, missing: required - clean },
        );
    }
    let ghost latest = run.deep_view().skip(clean - required);
    let mut ids: Vec<String> = Vec::new();
    let mut names: Vec<String> = Vec::new();
    let mut independent: usize = 0;
    let mut i: usize = clean - required;
    let start = clean - required;
    while i < clean
        invariant
            start <= i <= clean,
            clean == run@.len(),
            start == clean - required,
            latest == run.deep_view().skip(start as int),
            strings_view(ids@) == review_ids(latest.take(i - start)),
            strings_view(names@) == reviewers(latest.take(i - start)),
            independent == independent_count(latest.take(i - start)),
            independent <= i - start,
        decreases clean - i,
    {
        let r = &run[i];
        let ghost t = latest.take(i - start + 1);
        assert(t.drop_last() =~= latest.take(i - start));
        assert(t.last() == r@);
        let ghost before_ids = strings_view(ids@);
        let ghost before_names = strings_view(names@);
        ids.push(r.review_id.clone());
        names.push(r.reviewer_identity.clone());
        assert(strings_view(ids@) =~= before_ids.push(r@.review_id));
        assert(strings_view(names@) =~= before_names.push(r@.reviewer_identity));
        assert(review_ids(t) =~= review_ids(latest.take(i - start)).push(r@.review_id));
        assert(reviewers(t) =~= reviewers(latest.take(i - start)).push(r@.reviewer_identity));
        if str_eq(r.reviewer_type.as_str(), "independent-final-review") {
            independent = independent + 1;
        }
        i = i + 1;
    }
    assert(latest.take(clean - start) =~= latest);
    let distinct_reviewers = count_distinct(&names);
    let distinct_reviews = count_distinct(&ids);
    if distinct_reviewers < required || distinct_reviews < required || independent < required {
        return Err(
            FinalReviewGateError::IndependenceIncomplete {
                distinct_reviewers,
                distinct_reviews,
                independent_review_types: independent,
            },
        );
    }
    Ok(())
}

fn records_eq(a: &Vec<FinalReviewRecord>, b: &Vec<FinalReviewRecord>) -> (r: bool)
    ensures
        r == (a.deep_view() == b.deep_view()),
{
    if a.len() != b.len() {
        assert(a.deep_view().len() != b.deep_view().len());
        return false;
    }
    let mut i: usize = 0;
    while i < a.len()
        invariant
            a@.len() == b@.len(),
            i <= a@.len(),
            forall|j: int| 0 <= j < i ==> a@[j]@ == b@[j]@,
        decreases a.len() - i,
    {
        let x = &a[i];
        let y = &b[i];
        let same = x.review_id == y.review_id && x.reviewer_identity == y.reviewer_identity
            && x.reviewer_type == y.reviewer_type && strings_eq(
            &x.requested_scope,
            &y.requested_scope,
        ) && strings_eq(&x.scope, &y.scope) && x.commit_range == y.commit_range && x.outcome
            == y.outcome && x.evidence == y.evidence && x.timestamp == y.timestamp
            && x.source_fingerprint == y.source_fingerprint && strings_eq(
            &x.requested_verification_scope,
            &y.requested_verification_scope,
        ) && strings_eq(&x.verification_scope, &y.verification_scope)
            && x.verification_fingerprint == y.verification_fingerprint;
        if !same {
            assert(a.deep_view()[i as int] != b.deep_view()[i as int]);
            return false;
        }
        i = i + 1;
    }
    assert(a.deep_view() =~= b.deep_view());
    true
}

/// Decides the review barrier at completion: the authoritative run must be the run
/// the caller read, and must pass the review barrier.
pub fn enforce_final_review_authority_snapshot(
    authoritative: &Vec<FinalReviewRecord>,
    expected: &Vec<FinalReviewRecord>,
    required: usize,
) -> (r: Result<(), FinalReviewGateError>)
    ensures
        r == authority_decision(authoritative.deep_view(), expected.deep_view(), required),
{
    if !records_eq(authoritative, expected) {
        return Err(FinalReviewGateError::EvidenceChanged { clean: authoritative.len() });
    }
    final_review_gate(authoritative, required)
}

/// Whether a project may require `minimum` consecutive clean reviews: none
/// at all, or at least three.
pub fn minimum_clean_reviews_allowed(minimum: usize) -> (r: bool)
    ensures
        r == (minimum == 0 || minimum >= 3),
{
    !(1 <= minimum && minimum < 3)
}

/// A clean review that looked at other evidence than the run's latest
/// review, in any of its scopes, its commit range or either fingerprint,
/// starts a new run of its own; one that looked at the same evidence
/// extends the run; a finding ends it.
pub proof fn lemma_clean_run_restarts_on_other_evidence(run: Seq<ReviewView>, review: ReviewView)
    ensures
        review.outcome == FinalReviewOutcome::Finding ==> next_clean_run(run, review).len() == 0,
        review.outcome == FinalReviewOutcome::Clean && run.len() > 0 && (review.scope != run.last().scope
            || review.requested_scope != run.last().requested_scope || review.commit_range
            != run.last().commit_range || review.source_fingerprint != run.last().source_fingerprint
            || review.verification_scope != run.last().verification_scope
            || review.requested_verification_scope != run.last().requested_verification_scope
            || review.verification_fingerprint != run.last().verification_fingerprint) ==> next_clean_run(run, review)
            == seq![review],
        review.outcome == FinalReviewOutcome::Clean && (run.len() == 0 || (review.scope == run.last().scope
            && review.requested_scope == run.last().requested_scope && review.commit_range
            == run.last().commit_range && review.source_fingerprint == run.last().source_fingerprint
            && review.verification_scope == run.last().verification_scope
            && review.requested_verification_scope == run.last().requested_verification_scope
            && review.verification_fingerprint == run.last().verification_fingerprint)) ==> next_clean_run(run, review)
            == run.push(review),
{
}

/// The number of different values a sequence holds is the size of its set
/// of values.
pub proof fn lemma_distinct_count_is_set_size(s: Seq<Seq<char>>)
    ensures
        s.to_set().finite(),
        distinct_count(s) == s.to_set().len(),
    decreases s.len(),
{
    if s.len() == 0 {
        assert(s.to_set() =~= Set::<Seq<char>>::empty());
    } else {
        let p = s.drop_last();
        lemma_distinct_count_is_set_size(p);
        assert(s.to_set() =~= p.to_set().insert(s.last())) by {
            assert forall|x: Seq<char>| s.to_set().contains(x) <==> p.to_set().insert(s.last()).contains(x) by {
                if s.contains(x) {
                    let i = choose|i: int| 0 <= i < s.len() && s[i] == x;
                    if i < s.len() - 1 {
                        assert(p[i] == x);
                    }
                }
                if p.contains(x) {
                    let i = choose|i: int| 0 <= i < p.len() && p[i] == x;
                    assert(s[i] == x);
                }
                if x == s.last() {
                    assert(s[s.len() - 1] == x);
                }
            }
        }
        assert(p.to_set().contains(s.last()) == p.contains(s.last()));
    }
}

/// The review barrier looks only at the latest `required` reviews: what came
/// before them in the run changes nothing.
pub proof fn lemma_gate_reads_only_latest(earlier: Seq<ReviewView>, latest: Seq<ReviewView>, required: usize)
    requires
        latest.len() == required,
    ensures
        gate_decision(earlier + latest, required) == gate_decision(latest, required),
{
    assert((earlier + latest).skip(earlier.len() as int) =~= latest);
    assert(latest.skip(0) =~= latest);
}

/// When the latest `required` reviews of a run come from fewer than
/// `required` distinct people, the barrier refuses them as not
/// independent, reporting how many people they come from, whatever earlier
/// reviews hold.
pub proof fn lemma_gate_needs_distinct_reviewers(run: Seq<ReviewView>, required: usize)
    requires
        run.len() >= required,
        reviewers(run.skip(run.len() - required)).to_set().len() < required,
    ensures
        gate_decision(run, required) matches Err(FinalReviewGateError::IndependenceIncomplete { distinct_reviewers, .. })
            && distinct_reviewers == reviewers(run.skip(run.len() - required)).to_set().len(),
{
    lemma_distinct_count_is_set_size(reviewers(run.skip(run.len() - required)));
}

proof fn lemma_independent_count_all(s: Seq<ReviewView>)
    ensures
        independent_count(s) <= s.len(),
        independent_count(s) == s.len() <==> forall|k: int| 0 <= k < s.len() ==> (#[trigger] s[k]).reviewer_type
            == "independent-final-review"@,
    decreases s.len(),
{
    if s.len() > 0 {
        let p = s.drop_last();
        lemma_independent_count_all(p);
        if forall|k: int| 0 <= k < s.len() ==> (#[trigger] s[k]).reviewer_type == "independent-final-review"@ {
            assert forall|k: int| 0 <= k < p.len() implies (#[trigger] p[k]).reviewer_type
                == "independent-final-review"@ by {
                assert(p[k] == s[k]);
            }
            assert(s[s.len() - 1] == s.last());
        }
        if independent_count(s) == s.len() {
            assert forall|k: int| 0 <= k < s.len() implies (#[trigger] s[k]).reviewer_type
                == "independent-final-review"@ by {
                if k < s.len() - 1 {
                    assert(p[k] == s[k]);
                }
            }
        }
    }
}

/// The review barrier passes exactly when the run holds at least `required`
/// clean reviews and the latest `required` of them come from `required`
/// distinct people, under `required` distinct review ids, every one of the
/// independent final kind.
pub proof fn lemma_gate_passes_exactly(run: Seq<ReviewView>, required: usize)
    ensures
        gate_decision(run, required) is Ok <==> {
            &&& run.len() >= required
            &&& reviewers(run.skip(run.len() - required)).to_set().len() >= required
            &&& review_ids(run.skip(run.len() - required)).to_set().len() >= required
            &&& forall|k: int|
                run.len() - required <= k < run.len() ==> (#[trigger] run[k]).reviewer_type
                    == "independent-final-review"@
        },
        run.len() < required ==> gate_decision(run, required) == Err::<(), FinalReviewGateError>(
            FinalReviewGateError::EvidenceIncomplete {
                clean: run.len() as usize,
                missing: (required - run.len()) as usize,
            },
        ),
{
    if run.len() >= required {
        let t = run.skip(run.len() - required);
        lemma_distinct_count_is_set_size(reviewers(t));
        lemma_distinct_count_is_set_size(review_ids(t));
        lemma_independent_count_all(t);
        if forall|k: int| run.len() - required <= k < run.len() ==> (#[trigger] run[k]).reviewer_type
            == "independent-final-review"@ {
            assert forall|k: int| 0 <= k < t.len() implies (#[trigger] t[k]).reviewer_type
                == "independent-final-review"@ by {
                assert(t[k] == run[k + run.len() - required]);
            }
        }
        if independent_count(t) == t.len() {
            assert forall|k: int| run.len() - required <= k < run.len() implies (#[trigger] run[k]).reviewer_type
                == "independent-final-review"@ by {
                assert(t[k - (run.len() - required)] == run[k]);
            }
        }
    }
}

// ---------------------------------------------------------------------------
// Properties of the clean run and the review barrier

/// Every review of the run is clean and looked at the same evidence as the
/// latest one.
pub open spec fn consistent_run(run: Seq<ReviewView>) -> bool {
    forall|i: int|
        0 <= i < run.len() ==> (#[trigger] run[i]).outcome == FinalReviewOutcome::Clean
            && same_evidence(run[i], run.last())
}

/// Folding reviews keeps the run consistent: it only ever holds clean reviews
/// of one and the same evidence.
pub proof fn lemma_clean_run_stays_consistent(run: Seq<ReviewView>, review: ReviewView)
    requires
        consistent_run(run),
    ensures
        consistent_run(next_clean_run(run, review)),
{
    let next = next_clean_run(run, review);
    if review.outcome == FinalReviewOutcome::Clean && !(run.len() > 0 && !same_evidence(
        run.last(),
        review,
    )) {
        assert forall|i: int| 0 <= i < next.len() implies (#[trigger] next[i]).outcome
            == FinalReviewOutcome::Clean && same_evidence(next[i], next.last()) by {
            if i < run.len() {
                assert(next[i] == run[i]);
                assert(same_evidence(run[i], run.last()));
            }
        }
    }
}

/// A finding ends the run, so the review barrier then refuses any completion that
/// needs a review.
pub proof fn lemma_finding_closes_the_gate(
    run: Seq<ReviewView>,
    finding: ReviewView,
    required: usize,
)
    requires
        finding.outcome == FinalReviewOutcome::Finding,
        required > 0,
    ensures
        next_clean_run(run, finding).len() == 0,
        gate_decision(next_clean_run(run, finding), required) is Err,
{
}

/// A review of other evidence starts the run over with itself alone.
pub proof fn lemma_changed_evidence_restarts_the_run(run: Seq<ReviewView>, review: ReviewView)
    requires
        review.outcome == FinalReviewOutcome::Clean,
        run.len() > 0,
        !same_evidence(run.last(), review),
    ensures
        next_clean_run(run, review) == seq![review],
{
}

} // verus!
