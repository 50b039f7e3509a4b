use tiber::calendar::civil_from_days;
use tiber::final_review::minimum_clean_reviews_allowed;
use tiber::review_scope::split_commit_range;
use tiber::task_ids::{date_string_at, task_id_at};

#[test]
fn day_numbers_name_calendar_dates() {
    assert_eq!(civil_from_days(0), (1970, 1, 1));
    assert_eq!(civil_from_days(-1), (1969, 12, 31));
    assert_eq!(civil_from_days(11016), (2000, 2, 29));
    assert_eq!(civil_from_days(11017), (2000, 3, 1));
    assert_eq!(civil_from_days(19723), (2024, 1, 1));
    assert_eq!(civil_from_days(-719468), (0, 3, 1));
    assert_eq!(civil_from_days(47541), (2100, 3, 1));
    assert_eq!(civil_from_days(47540), (2100, 2, 28));
}

#[test]
fn task_ids_read_the_day_and_four_code_characters() {
    let new_year_2024 = 19723 * 86400 + 5;
    assert_eq!(task_id_at(new_year_2024, 0), "20240101-aaaa");
    assert_eq!(task_id_at(new_year_2024, 31), "20240101-9aaa");
    assert_eq!(task_id_at(new_year_2024, 32 * 11 + 1024 * 24), "20240101-am2a");
    assert_eq!(task_id_at(0, 32 * 32 * 32 * 32 + 3), "19700101-daaa");
    assert_eq!(date_string_at(0), "1970-01-01");
    assert_eq!(date_string_at(11016 * 86400 + 86399), "2000-02-29");
}

#[test]
fn commit_ranges_split_at_the_first_two_dots() {
    assert_eq!(split_commit_range("main..HEAD"), Some(("main".to_string(), "HEAD".to_string())));
    assert_eq!(split_commit_range("a.b..c.d"), Some(("a.b".to_string(), "c.d".to_string())));
    assert_eq!(split_commit_range("main...HEAD"), Some(("main".to_string(), ".HEAD".to_string())));
    assert_eq!(split_commit_range("..HEAD"), None);
    assert_eq!(split_commit_range("main.."), None);
    assert_eq!(split_commit_range("main"), None);
    assert_eq!(split_commit_range("a..b..c"), None);
}

#[test]
fn projects_require_no_reviews_or_at_least_three() {
    assert!(minimum_clean_reviews_allowed(0));
    assert!(!minimum_clean_reviews_allowed(1));
    assert!(!minimum_clean_reviews_allowed(2));
    assert!(minimum_clean_reviews_allowed(3));
}
