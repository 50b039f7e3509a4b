use tiber::automation::{
    hook_contents_dispatch_tiber_snippet, shell_command_segments, shell_line_invokes_task_closer,
    trim_shell_comment, trim_unquoted_comment, workflow_has_push_trigger,
    workflow_invokes_task_closer,
};

fn chars(s: &str) -> Vec<char> {
    s.chars().collect()
}

fn text(v: &[char]) -> String {
    v.iter().collect()
}

#[test]
fn yaml_comments_are_cut_only_outside_quotes_and_after_whitespace() {
    assert_eq!(text(&trim_unquoted_comment(&chars("jobs: # all jobs"))), "jobs:");
    assert_eq!(text(&trim_unquoted_comment(&chars("value: 'a # b'"))), "value: 'a # b'");
    assert_eq!(text(&trim_unquoted_comment(&chars("x#y"))), "x#y");
    assert_eq!(text(&trim_unquoted_comment(&chars("# whole line"))), "");
    assert_eq!(text(&trim_unquoted_comment(&chars("k: \"a\\\" # b\" # c"))), "k: \"a\\\" # b\"");
}

#[test]
fn shell_comments_start_at_a_word() {
    assert_eq!(text(&trim_shell_comment(&chars("run x # note"))), "run x");
    assert_eq!(text(&trim_shell_comment(&chars("echo a#b"))), "echo a#b");
    assert_eq!(text(&trim_shell_comment(&chars("echo '# not'"))), "echo '# not'");
    assert_eq!(text(&trim_shell_comment(&chars("a;# c"))), "a;");
    assert_eq!(text(&trim_shell_comment(&chars("echo \\# kept"))), "echo \\# kept");
}

#[test]
fn shell_lines_split_at_unquoted_command_separators() {
    let segments: Vec<String> = shell_command_segments(&chars("a && b || c; 'd;e' \"f&&g\""))
        .iter()
        .map(|s| text(s))
        .collect();
    assert_eq!(segments, vec!["a ", " b ", " c", " 'd;e' \"f&&g\""]);
    let one: Vec<String> = shell_command_segments(&chars("2>&1")).iter().map(|s| text(s)).collect();
    assert_eq!(one, vec!["2>&1"]);
}

#[test]
fn task_closer_commands_are_recognised() {
    assert!(shell_line_invokes_task_closer(&chars("tiber close-from-trailers")));
    assert!(shell_line_invokes_task_closer(&chars(
        "  exec tiber close-from-trailers 2>&1 # note"
    )));
    assert!(shell_line_invokes_task_closer(&chars(
        "echo hi && nix develop -c tiber close-from-trailers"
    )));
    assert!(shell_line_invokes_task_closer(&chars("\"tiber close-from-trailers\"")));
    assert!(shell_line_invokes_task_closer(&chars("tiber close-from-trailers > log.txt")));
    assert!(!shell_line_invokes_task_closer(&chars("tiber close-from-trailers --dry-run")));
    assert!(!shell_line_invokes_task_closer(&chars("echo 'tiber close-from-trailers'")));
    assert!(!shell_line_invokes_task_closer(&chars("# tiber close-from-trailers")));
}

#[test]
fn push_triggers_are_read_from_inline_lists_and_blocks() {
    assert!(workflow_has_push_trigger("on: push\n"));
    assert!(workflow_has_push_trigger("on: [pull_request, push]\n"));
    assert!(workflow_has_push_trigger("name: CI\non:\n  # events\n  push:\n    branches: [main]\n"));
    assert!(workflow_has_push_trigger("on:\n  - push\n"));
    assert!(!workflow_has_push_trigger("on: pull_request\non: push\n"));
    assert!(!workflow_has_push_trigger("on:\n  pull_request:\njobs:\n  push:\n"));
    assert!(!workflow_has_push_trigger("  on: push\n"));
    assert!(!workflow_has_push_trigger(""));
}

#[test]
fn workflows_with_an_inline_closing_step_are_recognised() {
    let workflow = "name: CI\non:\n  push:\n    branches: [main]\njobs:\n  close:\n    runs-on: ubuntu-latest\n    steps:\n      - uses: actions/checkout@v4\n      - name: Close tasks\n        run: tiber close-from-trailers\n";
    assert!(workflow_invokes_task_closer(workflow));
}

#[test]
fn workflows_with_a_closing_block_step_are_recognised() {
    let workflow = "on: [push, pull_request]\njobs:\n  a:\n    steps:\n      - run: |\n          echo hi\n          tiber close-from-trailers\n";
    assert!(workflow_invokes_task_closer(workflow));
}

#[test]
fn workflows_without_push_or_without_the_step_are_not_closers() {
    let no_push = "on: pull_request\njobs:\n  a:\n    steps:\n      - run: tiber close-from-trailers\n";
    assert!(!workflow_invokes_task_closer(no_push));
    let other_step = "on: push\njobs:\n  a:\n    steps:\n      - run: cargo test\n";
    assert!(!workflow_invokes_task_closer(other_step));
    let outside_steps = "on: push\njobs:\n  a:\n    run: tiber close-from-trailers\n";
    assert!(!workflow_invokes_task_closer(outside_steps));
}

#[test]
fn hooks_that_only_dispatch_the_snippet_are_recognised() {
    assert!(hook_contents_dispatch_tiber_snippet(
        "#!/bin/sh\nset -eu\nexec .githooks/post-commit.tiber \"$@\"\n"
    ));
    assert!(hook_contents_dispatch_tiber_snippet("sh ./.githooks/post-commit.tiber\n"));
    assert!(hook_contents_dispatch_tiber_snippet(
        "# comment\nbash /repo/.githooks/post-commit.tiber # run it\n"
    ));
    assert!(!hook_contents_dispatch_tiber_snippet(
        ".githooks/post-commit.tiber\necho more\n"
    ));
    assert!(!hook_contents_dispatch_tiber_snippet("  .githooks/post-commit.tiber\n"));
    assert!(!hook_contents_dispatch_tiber_snippet("#!/bin/sh\nset -e\n"));
    assert!(!hook_contents_dispatch_tiber_snippet("./other-hook\n"));
}
