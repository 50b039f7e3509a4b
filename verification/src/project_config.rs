//! The project configuration (`.tiber.toml`) once its text is parsed: which
//! values it may hold, and the policy that completion and delivery read,
//! which must be the committed one.
use vstd::prelude::*;
use crate::final_review::minimum_clean_reviews_allowed;
use crate::text::{decimal_string, decimal_text, owned};

verus! {

/// The configuration file, relative to the repository root.
pub const CONFIG_FILE: &'static str = ".tiber.toml";

/// What the configuration says: the backlog capacity, when there is one,
/// and how many consecutive clean final reviews completion requires.
#[derive(Clone, Copy, Debug, PartialEq, Eq, Structural)]
pub struct ProjectConfig {
    pub max_queued: Option<usize>,
    pub minimum_clean_reviews: usize,
}

impl Default for ProjectConfig {
    /// The configuration of a repository without a configuration file: no
    /// backlog capacity and no final-review requirement.
    fn default() -> (r: Self)
        ensures
            r == (ProjectConfig { max_queued: None, minimum_clean_reviews: 0 }),
    {
        ProjectConfig { max_queued: None, minimum_clean_reviews: 0 }
    }
}

/// Why a configuration is refused.
#[derive(Clone, Copy, Debug, PartialEq, Eq, Structural)]
pub enum ProjectConfigError {
    /// The final-review minimum is neither zero nor at least three.
    MinimumCleanReviewsInvalid { actual: usize },
    /// The working tree's final-review minimum differs from the committed one.
    FinalReviewConfigUncommitted,
}

/// A parsed configuration is accepted exactly when its final-review minimum
/// is zero or at least three.
pub open spec fn config_check(config: ProjectConfig) -> Result<ProjectConfig, ProjectConfigError> {
    if config.minimum_clean_reviews == 0 || config.minimum_clean_reviews >= 3 {
        Ok(config)
    } else {
        Err(ProjectConfigError::MinimumCleanReviewsInvalid { actual: config.minimum_clean_reviews })
    }
}

/// The configuration as the file gives it, or the default one when there is
/// no file.
pub open spec fn config_or_default(config: Option<ProjectConfig>) -> Result<ProjectConfig, ProjectConfigError> {
    match config {
        Some(c) => config_check(c),
        None => Ok(ProjectConfig { max_queued: None, minimum_clean_reviews: 0 }),
    }
}

/// The policy that completion and delivery read: the working tree's file is
/// checked first, then the committed one; the two must agree on the
/// final-review minimum, and the committed configuration is the one used.
pub open spec fn lifecycle_config(live: Option<ProjectConfig>, committed: Option<ProjectConfig>) -> Result<
    ProjectConfig,
    ProjectConfigError,
> {
    match config_or_default(live) {
        Err(e) => Err(e),
        Ok(l) => match config_or_default(committed) {
            Err(e) => Err(e),
            Ok(c) => if l.minimum_clean_reviews != c.minimum_clean_reviews {
                Err(ProjectConfigError::FinalReviewConfigUncommitted)
            } else {
                Ok(c)
            },
        },
    }
}

/// Checks a parsed configuration.
pub fn check_project_config(config: ProjectConfig) -> (r: Result<ProjectConfig, ProjectConfigError>)
    ensures
        r == config_check(config),
{
    if minimum_clean_reviews_allowed(config.minimum_clean_reviews) {
        Ok(config)
    } else {
        Err(ProjectConfigError::MinimumCleanReviewsInvalid { actual: config.minimum_clean_reviews })
    }
}

fn checked_or_default(config: Option<ProjectConfig>) -> (r: Result<ProjectConfig, ProjectConfigError>)
    ensures
        r == config_or_default(config),
{
    match config {
        Some(c) => check_project_config(c),
        None => Ok(ProjectConfig::default()),
    }
}

/// Decides the configuration that completion and delivery use, from the
/// parsed working-tree file and the parsed committed file (`None` where the
/// file is absent).
pub fn lifecycle_gate_config(live: Option<ProjectConfig>, committed: Option<ProjectConfig>) -> (r: Result<
    ProjectConfig,
    ProjectConfigError,
>)
    ensures
        r == lifecycle_config(live, committed),
{
    let live_config = match checked_or_default(live) {
        Err(e) => {
            return Err(e);
        },
        Ok(c) => c,
    };
    let committed_config = match checked_or_default(committed) {
        Err(e) => {
            return Err(e);
        },
        Ok(c) => c,
    };
    if live_config.minimum_clean_reviews != committed_config.minimum_clean_reviews {
        return Err(ProjectConfigError::FinalReviewConfigUncommitted);
    }
    Ok(committed_config)
}

/// The message of a refused configuration.
pub open spec fn config_error_message(e: ProjectConfigError) -> Seq<char> {
    match e {
        ProjectConfigError::MinimumCleanReviewsInvalid { actual } => "config_invalid file=.tiber.toml field=final_review.minimum_clean_reviews expected=0_or_at_least_3 actual="@
            + decimal_text(actual as nat),
        ProjectConfigError::FinalReviewConfigUncommitted => "tiber.final_review_config_uncommitted file=.tiber.toml action=\"commit the intended final-review policy configuration before completion or delivery\""@,
    }
}

impl ProjectConfigError {
    /// The message that reports the refusal.
    pub fn message(self) -> (r: String)
        ensures
            r@ == config_error_message(self),
    {
        match self {
            ProjectConfigError::MinimumCleanReviewsInvalid { actual } => {
                let mut m = owned(
                    "config_invalid file=.tiber.toml field=final_review.minimum_clean_reviews expected=0_or_at_least_3 actual=",
                );
                let digits = decimal_string(actual as u64);
                m.append(digits.as_str());
                m
            },
            ProjectConfigError::FinalReviewConfigUncommitted => owned(
                "tiber.final_review_config_uncommitted file=.tiber.toml action=\"commit the intended final-review policy configuration before completion or delivery\"",
            ),
        }
    }
}

} // verus!
