//! The report's rules, exercised through the row constructors.

use jevon::classify::{Answered, Classified};
use jevon::usage::Usage;

fn answered(model: &str, shaky: &[&str], usage: Usage) -> Answered {
    Answered::answered(
        "an item".to_owned(),
        serde_json::Value::Null,
        usage,
        model.to_owned(),
        shaky.iter().map(|s| (*s).to_owned()).collect(),
    )
}

#[test]
fn an_answered_row_is_uncertain_only_when_some_question_was_shaky() {
    let sure = answered("jev-1", &[], Usage::default());
    let unsure = answered("jev-1", &["urgency"], Usage::default());
    assert!(!sure.item.uncertain);
    assert!(unsure.item.uncertain);
    assert_eq!(sure.model.as_deref(), Some("jev-1"));
    assert!(sure.item.error.is_none());
}

#[test]
fn a_failed_row_names_no_model_and_spends_nothing() {
    let row = Answered::failed("an item".to_owned(), "boom");
    assert!(row.item.uncertain);
    assert_eq!(row.item.error.as_deref(), Some("boom"));
    assert_eq!(row.item.item, "an item");
    assert_eq!(row.usage, Usage::default());
    assert!(row.model.is_none());
    assert!(row.shaky.is_empty());
    assert!(row.item.answers.is_null());
}

#[test]
fn question_counts_keep_the_order_questions_first_wavered() {
    let report = Classified::of(
        "jev-configured",
        vec![
            answered("jev-1", &["tone"], Usage::default()),
            answered("jev-1", &["urgency", "tone"], Usage::default()),
            answered("jev-1", &["category"], Usage::default()),
        ],
    );
    let order: Vec<(&str, usize)> = report
        .uncertain_by_question
        .iter()
        .map(|(k, v)| (k.as_str(), *v))
        .collect();
    assert_eq!(order, vec![("tone", 2), ("urgency", 1), ("category", 1)]);
}

#[test]
fn a_version_seen_twice_is_listed_once() {
    let report = Classified::of(
        "jev-configured",
        vec![
            answered("jev-1.13.0", &[], Usage::default()),
            Answered::failed("x".to_owned(), "boom"),
            answered("jev-1.14.0", &[], Usage::default()),
            answered("jev-1.13.0", &[], Usage::default()),
        ],
    );
    assert_eq!(report.model, "jev-1.13.0");
    assert_eq!(
        report.models,
        Some(vec!["jev-1.13.0".to_owned(), "jev-1.14.0".to_owned()])
    );
    assert_eq!(report.exit_code(), Some(2));
}

#[test]
fn an_empty_run_answered_nothing() {
    let report = Classified::of("jev-configured", Vec::new());
    assert_eq!(report.model, "jev-configured");
    assert!(report.models.is_none());
    assert_eq!(report.items.len(), 0);
    assert_eq!(report.exit_code(), Some(1));
}

#[test]
fn token_totals_stop_at_the_largest_count() {
    let report = Classified::of(
        "jev-1",
        vec![
            answered("jev-1", &[], Usage { input_tokens: u64::MAX - 5, output_tokens: 1 }),
            answered("jev-1", &[], Usage { input_tokens: 10, output_tokens: 2 }),
        ],
    );
    assert_eq!(report.usage.input_tokens, u64::MAX);
    assert_eq!(report.usage.output_tokens, 3);
}

#[test]
fn a_run_of_only_failures_exits_one_and_counts_every_row() {
    let report = Classified::of(
        "jev-configured",
        vec![
            Answered::failed("a".to_owned(), "boom"),
            Answered::failed("b".to_owned(), "bang"),
        ],
    );
    assert_eq!(report.failed, 2);
    assert_eq!(report.uncertain, 2);
    assert_eq!(report.exit_code(), Some(1));
    assert_eq!(report.usage, Usage::default());
}
