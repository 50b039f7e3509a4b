use tiber::scaffold::{
    classify_scaffold_file, close_from_trailers_workflow, decide_scaffold, plan_scaffold_files, show_tasks_justfile,
    tiber_hook_script, FileDisposition, ScaffoldFile, ScaffoldRefusal, ScaffoldSurvey,
};

fn file(path: &str, contents: &str, conflict_on_difference: bool) -> ScaffoldFile {
    ScaffoldFile { path: path.to_string(), contents: contents.to_string(), conflict_on_difference }
}

fn planned() -> Vec<ScaffoldFile> {
    vec![
        file(".githooks/post-commit.tiber", "hook", true),
        file(".github/workflows/tiber-close-from-trailers.yml", "workflow", true),
        file("justfile", "just", false),
    ]
}

#[test]
fn files_are_classified_by_their_current_contents() {
    let f = file("justfile", "x", true);
    assert_eq!(classify_scaffold_file(&None, &f), FileDisposition::Pending);
    assert_eq!(classify_scaffold_file(&Some("x".to_string()), &f), FileDisposition::AlreadyConfigured);
    assert_eq!(classify_scaffold_file(&Some("y".to_string()), &f), FileDisposition::Conflict);
    let g = file("justfile", "x", false);
    assert_eq!(classify_scaffold_file(&Some("y".to_string()), &g), FileDisposition::Pending);
}

#[test]
fn scaffolding_refuses_conflicts_unless_they_may_be_replaced() {
    let existing = vec![Some("hook".to_string()), Some("other".to_string()), Some("old".to_string())];
    let plan = decide_scaffold(&planned(), &existing, 0, false, false).unwrap();
    assert_eq!(plan.already_configured, vec![0]);
    assert_eq!(plan.pending, vec![2]);
    assert_eq!(plan.conflicts, vec![1]);
    assert_eq!(
        decide_scaffold(&planned(), &existing, 0, true, false).unwrap_err(),
        ScaffoldRefusal::Conflicts { paths: vec![".github/workflows/tiber-close-from-trailers.yml".to_string()] }
    );
    let plan = decide_scaffold(&planned(), &existing, 0, true, true).unwrap();
    assert_eq!(plan.pending, vec![2, 1]);
    assert!(plan.conflicts.is_empty());
    assert_eq!(
        decide_scaffold(&planned(), &existing, 1, true, true).unwrap_err(),
        ScaffoldRefusal::IntegrationConflicts
    );
    assert!(decide_scaffold(&planned(), &existing, 1, false, false).is_ok());
    let fresh = decide_scaffold(&planned(), &vec![None, None, None], 0, true, false).unwrap();
    assert_eq!(fresh.pending, vec![0, 1, 2]);
}

fn survey() -> ScaffoldSurvey {
    ScaffoldSurvey {
        equivalent_hook: false,
        hook_dispatches: true,
        explicit_hooks_path: false,
        active_hook: ".git/hooks/post-commit".to_string(),
        equivalent_workflow: false,
        commit_signing: false,
        publication_branch: "main".to_string(),
        planned_justfile: None,
    }
}

#[test]
fn scaffold_plans_the_hook_workflow_and_justfile() {
    assert_eq!(tiber_hook_script(), "#!/usr/bin/env bash\nset -euo pipefail\n\ntiber close-from-trailers\n");
    let workflow = close_from_trailers_workflow("it's");
    assert!(workflow.starts_with("name: tiber close from trailers\n\non:\n  push:\n    branches: ['it''s']\n"));
    assert!(workflow.ends_with("      - run: tiber close-from-trailers\n"));

    let mut s = survey();
    s.planned_justfile = Some("build:\n  cargo build\n\nshow-tasks:\n  tiber list\n".to_string());
    let setup = plan_scaffold_files(&s);
    let paths: Vec<&str> = setup.files.iter().map(|f| f.path.as_str()).collect();
    assert_eq!(paths, vec![".githooks/post-commit.tiber", ".github/workflows/tiber-close-from-trailers.yml", "justfile"]);
    assert_eq!(setup.files[1].contents, close_from_trailers_workflow("main"));
    assert!(setup.files[0].conflict_on_difference && !setup.files[2].conflict_on_difference);
    assert!(setup.integration_conflicts.is_empty() && setup.skipped.is_empty());

    let mut s = survey();
    s.hook_dispatches = false;
    s.explicit_hooks_path = true;
    s.commit_signing = true;
    let setup = plan_scaffold_files(&s);
    assert!(setup.files.is_empty());
    assert_eq!(
        setup.integration_conflicts,
        vec![
            "hook-dispatch active=.git/hooks/post-commit resolution=the active hook must invoke .githooks/post-commit.tiber".to_string(),
            "signed-publication generated GitHub workflow cannot access a signing key resolution=provide repository-owned signed tasks-branch automation and rerun scaffold".to_string(),
        ]
    );

    let mut s = survey();
    s.hook_dispatches = false;
    s.equivalent_workflow = true;
    let setup = plan_scaffold_files(&s);
    assert!(setup.files.is_empty() && setup.integration_conflicts.is_empty());
    assert_eq!(
        setup.skipped,
        vec!["skipped hook-dispatch active=.git/hooks/post-commit resolution=configure an active post-commit dispatcher before adding .githooks/post-commit.tiber".to_string()]
    );
}

#[test]
fn justfile_gains_a_show_tasks_recipe_once() {
    assert_eq!(show_tasks_justfile("build:\n  cargo build"), Some("build:\n  cargo build\n\nshow-tasks:\n  tiber list\n".to_string()));
    assert_eq!(show_tasks_justfile("build:\n"), Some("build:\n\nshow-tasks:\n  tiber list\n".to_string()));
    assert_eq!(show_tasks_justfile(""), Some("\n\nshow-tasks:\n  tiber list\n".to_string()));
    assert_eq!(show_tasks_justfile("build:\n  show-tasks:  \r\n"), None);
}
