use jevon::eval::{check, smaller_side, Labelled};
use jevon::label::{Label, Number};

#[test]
fn the_smaller_side_is_what_counts() {
    let lopsided: Vec<(f64, bool)> = (0..87).map(|i| (0.5, i < 18)).collect();
    assert_eq!(smaller_side(&lopsided), 18);
}

#[test]
fn an_even_split_counts_either_half() {
    let even: Vec<(f64, bool)> = (0..10).map(|i| (0.5, i < 5)).collect();
    assert_eq!(smaller_side(&even), 5);
}

#[test]
fn one_sided_labels_have_no_thinner_side() {
    let all_true: Vec<(f64, bool)> = (0..40).map(|_| (0.5, true)).collect();
    assert_eq!(smaller_side(&all_true), 0);
}

#[test]
fn the_negatives_can_be_the_thinner_side() {
    let mostly_true: Vec<(f64, bool)> = (0..12).map(|i| (0.5, i != 3)).collect();
    assert_eq!(smaller_side(&mostly_true), 1);
    let none: Vec<(f64, bool)> = Vec::new();
    assert_eq!(smaller_side(&none), 0);
}

fn labelled(item: &str, label: Label) -> Labelled {
    Labelled {
        item: item.to_owned(),
        label,
    }
}

#[test]
fn fewer_than_two_items_cannot_be_measured() {
    let message = check(&[labelled("a", Label::Bool(true))]).unwrap_err().message();
    assert_eq!(message, "an eval needs at least two labelled items");
    assert!(check(&[]).is_err());
}

#[test]
fn one_label_throughout_cannot_be_separated() {
    let rows = [
        labelled("a", Label::Text("billing".to_owned())),
        labelled("b", Label::Text("billing".to_owned())),
        labelled("c", Label::Text("billing".to_owned())),
    ];
    let message = check(&rows).unwrap_err().message();
    assert!(message.contains("same label"), "{message}");
}

#[test]
fn two_different_labels_are_enough() {
    assert!(check(&[labelled("a", Label::Bool(true)), labelled("b", Label::Bool(false))]).is_ok());
    let rows = [
        labelled("a", Label::Text("billing".to_owned())),
        labelled("b", Label::Text("billing".to_owned())),
        labelled("c", Label::Text("technical".to_owned())),
    ];
    assert!(check(&rows).is_ok());
    assert!(check(&[
        labelled("a", Label::Number(Number::PosInt(1))),
        labelled("b", Label::Number(Number::PosInt(2))),
    ])
    .is_ok());
}

use jevon::eval::{gather, question, questions, Asked};
use jevon::usage::Usage;

#[test]
fn a_choice_is_asked_when_labels_are_given() {
    let labels = vec!["urgent".to_owned(), "later".to_owned()];
    assert_eq!(
        question(Some("How soon?"), &labels).unwrap(),
        Asked::Choice {
            instructions: "How soon?".to_owned(),
            labels: labels.clone(),
        }
    );
    assert_eq!(
        question(None, &labels).unwrap(),
        Asked::Choice {
            instructions: String::new(),
            labels,
        }
    );
}

#[test]
fn a_yes_no_question_is_asked_otherwise() {
    assert_eq!(
        question(Some("Is it urgent?"), &[]).unwrap(),
        Asked::Noul("Is it urgent?".to_owned())
    );
}

#[test]
fn no_question_at_all_is_refused() {
    let message = question(None, &[]).unwrap_err().message();
    assert!(message.contains("--noul"), "{message}");
}

#[test]
fn replies_keep_their_order_and_a_failure_is_a_hole() {
    let replies: Vec<(Option<&str>, Usage, Option<String>)> = vec![
        (None, Usage::default(), None),
        (
            Some("yes"),
            Usage { input_tokens: 5, output_tokens: 1 },
            Some("jev-1.13.0".to_owned()),
        ),
        (
            Some("no"),
            Usage { input_tokens: 7, output_tokens: 2 },
            Some("jev-1.14.0".to_owned()),
        ),
    ];
    let (answers, usage, model) = gather(replies);
    assert_eq!(answers, vec![None, Some("yes"), Some("no")]);
    assert_eq!(usage, Usage { input_tokens: 12, output_tokens: 3 });
    assert_eq!(model.as_deref(), Some("jev-1.13.0"));
}

#[test]
fn replies_that_all_failed_name_no_model() {
    let replies: Vec<(Option<u8>, Usage, Option<String>)> =
        vec![(None, Usage::default(), None), (None, Usage::default(), None)];
    let (answers, usage, model) = gather(replies);
    assert_eq!(answers, vec![None, None]);
    assert_eq!(usage, Usage::default());
    assert!(model.is_none());
}

fn float(value: f64) -> Label {
    Label::Number(Number::Float(value.to_bits()))
}

#[test]
fn labels_compare_as_json_values_compare() {
    assert!(float(0.0).same(&float(-0.0)));
    assert!(!float(0.5).same(&float(0.25)));
    assert!(!Label::Number(Number::PosInt(1)).same(&float(1.0)));
    assert!(!Label::Number(Number::NegInt(-1)).same(&Label::Number(Number::PosInt(1))));
    let one = Label::Object(vec![
        ("a".to_owned(), Label::Bool(true)),
        ("b".to_owned(), Label::Array(vec![Label::Null, float(-0.0)])),
    ]);
    let other = Label::Object(vec![
        ("b".to_owned(), Label::Array(vec![Label::Null, float(0.0)])),
        ("a".to_owned(), Label::Bool(true)),
    ]);
    assert!(one.same(&other));
    let shorter = Label::Object(vec![("a".to_owned(), Label::Bool(true))]);
    assert!(!one.same(&shorter));
    assert!(!Label::Array(vec![Label::Null]).same(&Label::Array(vec![Label::Bool(false)])));
    assert!(!Label::Text("x".to_owned()).same(&Label::Null));
}

#[test]
fn zero_and_negative_zero_are_one_label() {
    let rows = [labelled("a", float(0.0)), labelled("b", float(-0.0))];
    assert!(check(&rows).is_err());
}

#[test]
fn one_question_per_wording() {
    let wordings = vec!["Is it urgent?".to_owned(), "Does it need attention today?".to_owned()];
    assert_eq!(
        questions(&wordings, &[]).unwrap(),
        vec![
            Asked::Noul("Is it urgent?".to_owned()),
            Asked::Noul("Does it need attention today?".to_owned()),
        ]
    );
    let labels = vec!["now".to_owned(), "later".to_owned()];
    assert_eq!(
        questions(&wordings, &labels).unwrap(),
        vec![
            Asked::Choice { instructions: "Is it urgent?".to_owned(), labels: labels.clone() },
            Asked::Choice {
                instructions: "Does it need attention today?".to_owned(),
                labels: labels.clone(),
            },
        ]
    );
    assert_eq!(
        questions(&[], &labels).unwrap(),
        vec![Asked::Choice { instructions: String::new(), labels }]
    );
    assert!(questions(&[], &[]).unwrap_err().message().contains("--noul"));
}

#[test]
fn unanswered_counts_the_holes() {
    assert_eq!(jevon::eval::unanswered(&[Some(1), None, Some(3), None, None]), 3);
    assert_eq!(jevon::eval::unanswered::<u8>(&[]), 0);
    assert_eq!(jevon::eval::unanswered(&[Some("a")]), 0);
}
