use tiber::project_config::{
    check_project_config, lifecycle_gate_config, ProjectConfig, ProjectConfigError, CONFIG_FILE,
};

fn config(minimum: usize) -> ProjectConfig {
    ProjectConfig { max_queued: Some(5), minimum_clean_reviews: minimum }
}

#[test]
fn review_minimum_is_zero_or_at_least_three() {
    assert_eq!(check_project_config(config(0)), Ok(config(0)));
    assert_eq!(check_project_config(config(3)), Ok(config(3)));
    assert_eq!(check_project_config(config(7)), Ok(config(7)));
    for minimum in [1, 2] {
        let error = check_project_config(config(minimum)).unwrap_err();
        assert_eq!(error, ProjectConfigError::MinimumCleanReviewsInvalid { actual: minimum });
        assert_eq!(
            error.message(),
            format!(
                "config_invalid file={CONFIG_FILE} field=final_review.minimum_clean_reviews expected=0_or_at_least_3 actual={minimum}"
            )
        );
    }
    assert_eq!(ProjectConfig::default(), ProjectConfig { max_queued: None, minimum_clean_reviews: 0 });
}

#[test]
fn completion_reads_the_committed_policy_only_when_the_worktree_agrees() {
    assert_eq!(lifecycle_gate_config(None, None), Ok(ProjectConfig::default()));
    assert_eq!(lifecycle_gate_config(Some(config(3)), Some(config(3))), Ok(config(3)));
    let committed = ProjectConfig { max_queued: None, minimum_clean_reviews: 3 };
    assert_eq!(lifecycle_gate_config(Some(config(3)), Some(committed)), Ok(committed));
    let uncommitted = lifecycle_gate_config(Some(config(3)), None).unwrap_err();
    assert_eq!(uncommitted, ProjectConfigError::FinalReviewConfigUncommitted);
    assert!(uncommitted.message().starts_with("tiber.final_review_config_uncommitted file=.tiber.toml"));
    assert_eq!(lifecycle_gate_config(None, Some(config(4))), Err(ProjectConfigError::FinalReviewConfigUncommitted));
    // The working tree's file is checked before the committed one.
    assert_eq!(
        lifecycle_gate_config(Some(config(1)), Some(config(2))),
        Err(ProjectConfigError::MinimumCleanReviewsInvalid { actual: 1 })
    );
    assert_eq!(
        lifecycle_gate_config(Some(config(0)), Some(config(2))),
        Err(ProjectConfigError::MinimumCleanReviewsInvalid { actual: 2 })
    );
}
