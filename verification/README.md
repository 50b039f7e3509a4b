# tiber

A repository-local task board whose state is rebuilt from recorded facts,
written in Verus. `src/` is the verified library; `app/` is the `tiber`
command line around it (file storage, the event store, argument handling);
`tests/` run the library on concrete values.

## Layout of `src/`

- Ticket board and discovery workflow: `tickets`, `board`, `graph`, `cli`,
  `workflow`.
- Task board, folded from task facts: `task_projection` (the projection,
  listings, search and reference resolution), `status_table`,
  `task_lifecycle` (create, prioritize, transition), `task_creation`,
  `task_closing` (closing from commit trailers), `task_links`,
  `task_details` (update, notes, recorded reviews), `task_commands`
  (acceptance criteria and subtasks), `board_validation` (reciprocal links
  and the board order), `task_refs`, `task_search`, `task_text`,
  `task_ids`, `calendar`.
- Final review: `final_review` (the clean-review barrier), `review_input`,
  `review_scope`, `git_output`, `fingerprint`, `worktree_scope`,
  `completion_checks`.
- Shared CI recovery: `ci_types`, `ci_state`, `ci_commands`, `ci_recovery`,
  `ci_input`, `ci_laws`.
- Repository plumbing decisions: `automation`, `scaffold` (the files it
  plans and which it may write), `project_config` (the `.tiber.toml`
  policy), `lock_file`, `retry`, `refs`, `order`, `table`, `text`.

Each command is split the same way: a state folded from facts by an
`evolve_*` function whose contract is a step function over the state's view,
and a `decide_*` function whose contract says exactly which facts it records
or why it refuses. Public proof functions named `lemma_*` state the laws that
relate commands, such as replaying a decision giving what was asked.

The outside crates the library calls are `sha2` (scope fingerprints) and
`chrono` (review timestamps), each behind one trusted wrapper.
