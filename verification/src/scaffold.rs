//! What scaffolding decides once it has read the repository: which planned
//! files are already in place, which would overwrite different contents,
//! and whether it may write at all.
use vstd::prelude::*;
use crate::task_text::{single_quoted, yaml_single_quoted};
use crate::text::{char_vecs, chars_eq, chars_of, lines, lines_of, owned, push_char, str_eq, trim, trim_vec};

verus! {

/// A file scaffolding plans to write. A file marked
/// `conflict_on_difference` is not overwritten unless asked.
#[derive(Debug)]
pub struct ScaffoldFile {
    pub path: String,
    pub contents: String,
    pub conflict_on_difference: bool,
}

/// Where a planned file stands.
#[derive(Clone, Copy, Debug, PartialEq, Eq, Structural)]
pub enum FileDisposition {
    /// The file already has the planned contents.
    AlreadyConfigured,
    /// The file has other contents that must not be overwritten unasked.
    Conflict,
    /// The file is missing, or may be overwritten.
    Pending,
}

/// Where a planned file stands, given what the repository holds at its path.
pub open spec fn disposition(existing: Option<Seq<char>>, contents: Seq<char>, conflict_on_difference: bool) -> FileDisposition {
    match existing {
        Some(e) => if e == contents {
            FileDisposition::AlreadyConfigured
        } else if conflict_on_difference {
            FileDisposition::Conflict
        } else {
            FileDisposition::Pending
        },
        None => FileDisposition::Pending,
    }
}

/// Where a planned file stands.
pub fn classify_scaffold_file(existing: &Option<String>, file: &ScaffoldFile) -> (r: FileDisposition)
    ensures
        r == disposition(crate::task_projection::opt_view(*existing), file.contents@, file.conflict_on_difference),
{
    match existing {
        Some(e) => {
            if str_eq(e.as_str(), file.contents.as_str()) {
                FileDisposition::AlreadyConfigured
            } else if file.conflict_on_difference {
                FileDisposition::Conflict
            } else {
                FileDisposition::Pending
            }
        },
        None => FileDisposition::Pending,
    }
}

/// Why scaffolding refuses to write.
#[derive(Debug, PartialEq, Eq)]
pub enum ScaffoldRefusal {
    /// Automation that scaffolding cannot set up conflicts with the repository.
    IntegrationConflicts,
    /// Files with other contents would be overwritten; their paths.
    Conflicts { paths: Vec<String> },
}

/// What scaffolding does: the positions of the files already configured,
/// of those it writes (or would write), and of the conflicts it leaves.
#[derive(Debug, PartialEq, Eq)]
pub struct ScaffoldPlan {
    pub already_configured: Vec<usize>,
    pub pending: Vec<usize>,
    pub conflicts: Vec<usize>,
}

/// The positions below `n` whose file has disposition `d`, in order.
pub open spec fn positions_with(ds: Seq<FileDisposition>, d: FileDisposition, n: int) -> Seq<usize>
    decreases n,
{
    if n <= 0 {
        Seq::empty()
    } else {
        let rest = positions_with(ds, d, n - 1);
        if ds[n - 1] == d {
            rest.push((n - 1) as usize)
        } else {
            rest
        }
    }
}

proof fn lemma_positions_bounded(ds: Seq<FileDisposition>, d: FileDisposition, n: int)
    requires
        0 <= n <= usize::MAX,
    ensures
        forall|q: int| 0 <= q < positions_with(ds, d, n).len() ==> #[trigger] positions_with(ds, d, n)[q] < n,
    decreases n,
{
    if n > 0 {
        lemma_positions_bounded(ds, d, n - 1);
        let rest = positions_with(ds, d, n - 1);
        assert forall|q: int| 0 <= q < positions_with(ds, d, n).len() implies #[trigger] positions_with(ds, d, n)[q] < n by {
            if q < rest.len() {
                assert(positions_with(ds, d, n)[q] == rest[q]);
            }
        }
    }
}

pub open spec fn dispositions(files: Seq<ScaffoldFile>, existing: Seq<Option<String>>) -> Seq<FileDisposition> {
    Seq::new(
        files.len(),
        |i: int| disposition(crate::task_projection::opt_view(existing[i]), files[i].contents@, files[i].conflict_on_difference),
    )
}

/// Decides scaffolding from what the repository holds at each planned path
/// (`existing`, by position) and the number of automation conflicts found:
/// when applying, integration conflicts refuse first, then file conflicts
/// unless they may be replaced; replaced conflicts join the files written.
pub fn decide_scaffold(
    files: &Vec<ScaffoldFile>,
    existing: &Vec<Option<String>>,
    integration_conflicts: usize,
    apply: bool,
    replace_conflicts: bool,
) -> (r: Result<ScaffoldPlan, ScaffoldRefusal>)
    requires
        existing@.len() == files@.len(),
    ensures
        ({
            let ds = dispositions(files@, existing@);
            let n = files@.len() as int;
            let conflicts = positions_with(ds, FileDisposition::Conflict, n);
            let pending = positions_with(ds, FileDisposition::Pending, n);
            if apply && integration_conflicts > 0 {
                r matches Err(ScaffoldRefusal::IntegrationConflicts)
            } else if apply && !replace_conflicts && conflicts.len() > 0 {
                r matches Err(ScaffoldRefusal::Conflicts { paths }) && paths@.len() == conflicts.len() && forall|k: int|
                    0 <= k < conflicts.len() ==> #[trigger] paths@[k]@ == files@[conflicts[k] as int].path@
            } else {
                r matches Ok(plan) && plan.already_configured@ == positions_with(
                    ds,
                    FileDisposition::AlreadyConfigured,
                    n,
                ) && plan.pending@ == (if replace_conflicts {
                    pending + conflicts
                } else {
                    pending
                }) && plan.conflicts@ == (if replace_conflicts {
                    Seq::empty()
                } else {
                    conflicts
                })
            }
        }),
{
    let ghost ds = dispositions(files@, existing@);
    let mut configured: Vec<usize> = Vec::new();
    let mut pending: Vec<usize> = Vec::new();
    let mut conflicts: Vec<usize> = Vec::new();
    let mut i: usize = 0;
    while i < files.len()
        invariant
            i <= files@.len(),
            existing@.len() == files@.len(),
            ds == dispositions(files@, existing@),
            configured@ == positions_with(ds, FileDisposition::AlreadyConfigured, i as int),
            pending@ == positions_with(ds, FileDisposition::Pending, i as int),
            conflicts@ == positions_with(ds, FileDisposition::Conflict, i as int),
        decreases files.len() - i,
    {
        let d = classify_scaffold_file(&existing[i], &files[i]);
        assert(ds[i as int] == d);
        match d {
            FileDisposition::AlreadyConfigured => configured.push(i),
            FileDisposition::Conflict => conflicts.push(i),
            FileDisposition::Pending => pending.push(i),
        }
        i = i + 1;
    }
    if apply && integration_conflicts > 0 {
        return Err(ScaffoldRefusal::IntegrationConflicts);
    }
    if apply && !replace_conflicts && conflicts.len() > 0 {
        proof {
            lemma_positions_bounded(ds, FileDisposition::Conflict, files@.len() as int);
        }
        let mut paths: Vec<String> = Vec::new();
        let mut k: usize = 0;
        while k < conflicts.len()
            invariant
                k <= conflicts@.len(),
                conflicts@ == positions_with(ds, FileDisposition::Conflict, files@.len() as int),
                forall|q: int| 0 <= q < conflicts@.len() ==> #[trigger] conflicts@[q] < files@.len(),
                paths@.len() == k,
                forall|q: int| 0 <= q < k ==> #[trigger] paths@[q]@ == files@[conflicts@[q] as int].path@,
            decreases conflicts.len() - k,
        {
            paths.push(files[conflicts[k]].path.clone());
            k = k + 1;
        }
        return Err(ScaffoldRefusal::Conflicts { paths });
    }
    if replace_conflicts {
        let mut k: usize = 0;
        let ghost start = pending@;
        while k < conflicts.len()
            invariant
                k <= conflicts@.len(),
                pending@ == start + conflicts@.take(k as int),
            decreases conflicts.len() - k,
        {
            pending.push(conflicts[k]);
            assert(conflicts@.take(k + 1) =~= conflicts@.take(k as int).push(conflicts@[k as int]));
            k = k + 1;
        }
        assert(conflicts@.take(k as int) =~= conflicts@);
        conflicts = Vec::new();
        assert(conflicts@ =~= Seq::<usize>::empty());
    }
    Ok(ScaffoldPlan { already_configured: configured, pending, conflicts })
}

// ---------------------------------------------------------------------------
// The files scaffolding plans

/// Where the hook that closes tasks from commit trailers goes.
pub const TASK_CLOSING_HOOK_FILE: &'static str = ".githooks/post-commit.tiber";

/// Where the workflow that closes tasks after publication goes.
pub const TASK_CLOSING_WORKFLOW_FILE: &'static str = ".github/workflows/tiber-close-from-trailers.yml";

/// The hook that closes tasks from commit trailers.
pub open spec fn hook_script() -> Seq<char> {
    "#!/usr/bin/env bash\nset -euo pipefail\n\ntiber close-from-trailers\n"@
}

/// The workflow text before the publication branch.
pub open spec fn workflow_head() -> Seq<char> {
    "name: tiber close from trailers\n\non:\n  push:\n    branches: ["@
}

/// The workflow text after the publication branch.
pub open spec fn workflow_tail() -> Seq<char> {
    "]\n\npermissions:\n  contents: write\n\njobs:\n  close:\n    runs-on: ubuntu-latest\n    steps:\n      - uses: actions/checkout@11bd71901bbe5b1630ceea73d27597364c9af683\n      - name: Install Tiber\n        run: |\n          git clone --no-checkout https://github.com/jwilger/ai-plugins.git .tiber-src\n          git -C .tiber-src checkout e975c7eb5bf66a3bb93095e65343955e30f4eedc\n          cargo install --locked --path .tiber-src/plugins/development-system/components/tiber/rust/crates/tiber-cli --bin tiber --root .tiber-install\n          echo \"$PWD/.tiber-install/bin\" >> \"$GITHUB_PATH\"\n      - run: tiber close-from-trailers\n"@
}

/// The workflow that closes tasks on pushes to the publication branch,
/// named as a single-quoted YAML scalar.
pub open spec fn workflow_text(publication_branch: Seq<char>) -> Seq<char> {
    workflow_head() + single_quoted(publication_branch) + workflow_tail()
}

/// The hook that closes tasks from commit trailers.
pub fn tiber_hook_script() -> (r: String)
    ensures
        r@ == hook_script(),
{
    owned("#!/usr/bin/env bash\nset -euo pipefail\n\ntiber close-from-trailers\n")
}

/// The workflow that closes tasks on pushes to `publication_branch`.
pub fn close_from_trailers_workflow(publication_branch: &str) -> (r: String)
    ensures
        r@ == workflow_text(publication_branch@),
{
    let mut r = owned("name: tiber close from trailers\n\non:\n  push:\n    branches: [");
    let branch = yaml_single_quoted(publication_branch);
    r.append(branch.as_str());
    r.append(
        "]\n\npermissions:\n  contents: write\n\njobs:\n  close:\n    runs-on: ubuntu-latest\n    steps:\n      - uses: actions/checkout@11bd71901bbe5b1630ceea73d27597364c9af683\n      - name: Install Tiber\n        run: |\n          git clone --no-checkout https://github.com/jwilger/ai-plugins.git .tiber-src\n          git -C .tiber-src checkout e975c7eb5bf66a3bb93095e65343955e30f4eedc\n          cargo install --locked --path .tiber-src/plugins/development-system/components/tiber/rust/crates/tiber-cli --bin tiber --root .tiber-install\n          echo \"$PWD/.tiber-install/bin\" >> \"$GITHUB_PATH\"\n      - run: tiber close-from-trailers\n",
    );
    r
}

/// Whether a justfile already has a `show-tasks` recipe: some line reads
/// `show-tasks:` once trimmed.
pub open spec fn has_show_tasks_recipe(contents: Seq<char>) -> bool {
    exists|i: int| 0 <= i < lines_of(contents).len() && trim(#[trigger] lines_of(contents)[i]) == "show-tasks:"@
}

/// The justfile with a `show-tasks` recipe appended, after a line break if
/// the file does not end with one; `None` when it has the recipe already.
pub open spec fn justfile_with_show_tasks(contents: Seq<char>) -> Option<Seq<char>> {
    if has_show_tasks_recipe(contents) {
        None
    } else {
        let ended = if contents.len() > 0 && contents.last() == '\n' {
            contents
        } else {
            contents.push('\n')
        };
        Some(ended + "\nshow-tasks:\n  tiber list\n"@)
    }
}

/// The justfile scaffolding plans, given the existing one.
pub fn show_tasks_justfile(contents: &str) -> (r: Option<String>)
    ensures
        match r {
            Some(s) => justfile_with_show_tasks(contents@) == Some(s@),
            None => justfile_with_show_tasks(contents@) is None,
        },
{
    let ls = lines(contents);
    let recipe = chars_of("show-tasks:");
    let mut i: usize = 0;
    while i < ls.len()
        invariant
            i <= ls@.len(),
            char_vecs(ls@) == lines_of(contents@),
            recipe@ == "show-tasks:"@,
            forall|k: int| 0 <= k < i ==> trim(#[trigger] lines_of(contents@)[k]) != "show-tasks:"@,
        decreases ls.len() - i,
    {
        let t = trim_vec(ls[i].as_slice());
        assert(char_vecs(ls@)[i as int] == ls@[i as int]@);
        if chars_eq(t.as_slice(), recipe.as_slice()) {
            return None;
        }
        i = i + 1;
    }
    let mut out = owned(contents);
    let c = chars_of(contents);
    if !(c.len() > 0 && c[c.len() - 1] == '\n') {
        push_char(&mut out, '\n');
    }
    out.append("\nshow-tasks:\n  tiber list\n");
    Some(out)
}

/// A planned file by view: its path, its contents, and whether a different
/// existing file is a conflict.
pub open spec fn file_view(f: ScaffoldFile) -> (Seq<char>, Seq<char>, bool) {
    (f.path@, f.contents@, f.conflict_on_difference)
}

/// What scaffolding learned of the repository before planning: whether an
/// equivalent task-closing hook and workflow are in place, whether the active
/// post-commit hook dispatches to the Tiber hook, whether `core.hooksPath`
/// is set, the active hook's path, whether commits are signed, the
/// publication branch, and the existing justfile, if any, without a
/// `show-tasks` recipe already.
pub struct ScaffoldSurvey {
    pub equivalent_hook: bool,
    pub hook_dispatches: bool,
    pub explicit_hooks_path: bool,
    pub active_hook: String,
    pub equivalent_workflow: bool,
    pub commit_signing: bool,
    pub publication_branch: String,
    pub planned_justfile: Option<String>,
}

/// The files, integration conflicts and skipped integrations of a survey.
pub struct ScaffoldSetup {
    pub files: Vec<ScaffoldFile>,
    pub integration_conflicts: Vec<String>,
    pub skipped: Vec<String>,
}

pub open spec fn hook_conflict(active: Seq<char>) -> Seq<char> {
    "hook-dispatch active="@ + active + " resolution=the active hook must invoke .githooks/post-commit.tiber"@
}

pub open spec fn hook_skipped(active: Seq<char>) -> Seq<char> {
    "skipped hook-dispatch active="@ + active
        + " resolution=configure an active post-commit dispatcher before adding .githooks/post-commit.tiber"@
}

pub open spec fn signing_conflict() -> Seq<char> {
    "signed-publication generated GitHub workflow cannot access a signing key resolution=provide repository-owned signed tasks-branch automation and rerun scaffold"@
}

/// The files scaffolding plans: the Tiber hook when the active hook
/// dispatches to it and no equivalent hook exists, the workflow when no
/// equivalent one exists and commits are not signed, and the justfile with
/// its recipe when one is planned.
pub open spec fn planned_files(s: ScaffoldSurvey) -> Seq<(Seq<char>, Seq<char>, bool)> {
    (if !s.equivalent_hook && s.hook_dispatches {
        seq![(".githooks/post-commit.tiber"@, hook_script(), true)]
    } else {
        Seq::empty()
    }) + (if !s.equivalent_workflow && !s.commit_signing {
        seq![(".github/workflows/tiber-close-from-trailers.yml"@, workflow_text(s.publication_branch@), true)]
    } else {
        Seq::empty()
    }) + (match s.planned_justfile {
        Some(j) => seq![("justfile"@, j@, false)],
        None => Seq::empty(),
    })
}

/// The integrations scaffolding cannot set up: a hook path that does not
/// dispatch to the Tiber hook, and a workflow that would need a signing key.
pub open spec fn planned_conflicts(s: ScaffoldSurvey) -> Seq<Seq<char>> {
    (if !s.equivalent_hook && !s.hook_dispatches && s.explicit_hooks_path {
        seq![hook_conflict(s.active_hook@)]
    } else {
        Seq::empty()
    }) + (if !s.equivalent_workflow && s.commit_signing {
        seq![signing_conflict()]
    } else {
        Seq::empty()
    })
}

/// The hook integration skipped when no dispatcher is configured.
pub open spec fn planned_skips(s: ScaffoldSurvey) -> Seq<Seq<char>> {
    if !s.equivalent_hook && !s.hook_dispatches && !s.explicit_hooks_path {
        seq![hook_skipped(s.active_hook@)]
    } else {
        Seq::empty()
    }
}

/// Plans the files and integrations of scaffolding from a survey.
pub fn plan_scaffold_files(s: &ScaffoldSurvey) -> (r: ScaffoldSetup)
    ensures
        r.files@.map_values(|f: ScaffoldFile| file_view(f)) == planned_files(*s),
        r.integration_conflicts@.map_values(|c: String| c@) == planned_conflicts(*s),
        r.skipped@.map_values(|c: String| c@) == planned_skips(*s),
{
    let mut files: Vec<ScaffoldFile> = Vec::new();
    let mut conflicts: Vec<String> = Vec::new();
    let mut skipped: Vec<String> = Vec::new();
    if !s.equivalent_hook {
        if s.hook_dispatches {
            files.push(
                ScaffoldFile {
                    path: owned(TASK_CLOSING_HOOK_FILE),
                    contents: tiber_hook_script(),
                    conflict_on_difference: true,
                },
            );
        } else if s.explicit_hooks_path {
            let mut m = owned("hook-dispatch active=");
            m.append(s.active_hook.as_str());
            m.append(" resolution=the active hook must invoke .githooks/post-commit.tiber");
            conflicts.push(m);
        } else {
            let mut m = owned("skipped hook-dispatch active=");
            m.append(s.active_hook.as_str());
            m.append(" resolution=configure an active post-commit dispatcher before adding .githooks/post-commit.tiber");
            skipped.push(m);
        }
    }
    let ghost hook_files = files@.map_values(|f: ScaffoldFile| file_view(f));
    if !s.equivalent_workflow {
        if s.commit_signing {
            conflicts.push(
                owned(
                    "signed-publication generated GitHub workflow cannot access a signing key resolution=provide repository-owned signed tasks-branch automation and rerun scaffold",
                ),
            );
        } else {
            files.push(
                ScaffoldFile {
                    path: owned(TASK_CLOSING_WORKFLOW_FILE),
                    contents: close_from_trailers_workflow(s.publication_branch.as_str()),
                    conflict_on_difference: true,
                },
            );
        }
    }
    let ghost hw_files = files@.map_values(|f: ScaffoldFile| file_view(f));
    match &s.planned_justfile {
        Some(j) => {
            files.push(ScaffoldFile { path: owned("justfile"), contents: j.clone(), conflict_on_difference: false });
        },
        None => {},
    }
    proof {
        reveal_strlit(".githooks/post-commit.tiber");
        reveal_strlit(".github/workflows/tiber-close-from-trailers.yml");
        reveal_strlit("justfile");
    }
    assert(files@.map_values(|f: ScaffoldFile| file_view(f)) =~= planned_files(*s));
    assert(conflicts@.map_values(|c: String| c@) =~= planned_conflicts(*s));
    assert(skipped@.map_values(|c: String| c@) =~= planned_skips(*s));
    ScaffoldSetup { files, integration_conflicts: conflicts, skipped }
}

} // verus!
