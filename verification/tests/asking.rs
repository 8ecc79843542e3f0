use jevon::asking::{question_set, QuestionSet};

fn owned(items: &[&str]) -> Vec<String> {
    items.iter().map(|s| (*s).to_owned()).collect()
}

#[test]
fn a_written_question_set_wins_over_everything() {
    let json = r#"{"a":{"type":"noul","instructions":"?"}}"#;
    assert_eq!(
        question_set(Some(json), Some("q.json"), &owned(&["x"]), &owned(&["y"]), Some("n")).unwrap(),
        QuestionSet::Json(json.to_owned())
    );
    assert_eq!(
        question_set(None, Some("q.json"), &owned(&["x"]), &[], None).unwrap(),
        QuestionSet::File("q.json".to_owned())
    );
}

#[test]
fn a_choice_wins_over_a_score_and_takes_the_noul_as_its_question() {
    assert_eq!(
        question_set(None, None, &owned(&["bug", "feature"]), &owned(&["low", "high"]), Some("What is it?"))
            .unwrap(),
        QuestionSet::Choice {
            instructions: "What is it?".to_owned(),
            labels: owned(&["bug", "feature"]),
        }
    );
    assert_eq!(
        question_set(None, None, &[], &owned(&["can wait", "today"]), None).unwrap(),
        QuestionSet::Score {
            instructions: String::new(),
            levels: owned(&["can wait", "today"]),
        }
    );
}

#[test]
fn a_lone_noul_is_a_yes_no_question() {
    assert_eq!(
        question_set(None, None, &[], &[], Some("Is it a bug?")).unwrap(),
        QuestionSet::Noul("Is it a bug?".to_owned())
    );
}

#[test]
fn no_question_at_all_is_refused_naming_every_flag() {
    let message = question_set(None, None, &[], &[], None).unwrap_err().message();
    for flag in ["--questions", "--choice", "--score", "--noul"] {
        assert!(message.contains(flag), "{flag} missing from: {message}");
    }
}
