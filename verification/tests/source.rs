use jevon::source::{is_blank, resolve, Items};

fn err(inline: &[&str], file: Option<&str>, stdin: bool) -> String {
    let owned: Vec<String> = inline.iter().map(|s| (*s).to_owned()).collect();
    resolve(&owned, file, stdin).unwrap_err().message()
}

#[test]
fn each_source_resolves_to_itself() {
    assert_eq!(
        resolve(&["a".to_owned()], None, false).unwrap(),
        Items::Inline(vec!["a".to_owned()])
    );
    assert_eq!(
        resolve(&[], Some("x.json"), false).unwrap(),
        Items::File("x.json".to_owned())
    );
    assert_eq!(resolve(&[], None, true).unwrap(), Items::StdinLines);
}

#[test]
fn nothing_given_is_an_error_rather_than_a_silent_read_of_stdin() {
    let message = err(&[], None, false);
    for flag in ["--items", "--items-file", "--stdin"] {
        assert!(message.contains(flag), "{flag} missing from: {message}");
    }
}

#[test]
fn two_sources_are_refused_whichever_two() {
    for (inline, file, stdin) in [
        (&["a"][..], Some("x.json"), false),
        (&["a"][..], None, true),
        (&[][..], Some("x.json"), true),
        (&["a"][..], Some("x.json"), true),
    ] {
        let message = err(inline, file, stdin);
        assert!(message.contains("exactly one"), "{message}");
    }
}

#[test]
fn every_inline_item_is_kept_in_order() {
    let given = vec!["b".to_owned(), "a".to_owned(), "c".to_owned()];
    assert_eq!(
        resolve(&given, None, false).unwrap(),
        Items::Inline(given.clone())
    );
}

#[test]
fn blank_inline_items_are_dropped() {
    let kept = jevon::source::inline(vec![
        "first".to_owned(),
        "   ".to_owned(),
        String::new(),
        "\t\n".to_owned(),
        " second ".to_owned(),
    ])
    .unwrap();
    assert_eq!(kept, vec!["first".to_owned(), " second ".to_owned()]);
}

#[test]
fn inline_items_that_are_all_blank_are_refused() {
    let message = jevon::source::inline(vec![" ".to_owned(), "\u{3000}".to_owned()])
        .unwrap_err()
        .message();
    assert_eq!(message, "`--items` held no items");
}

#[test]
fn blank_means_nothing_but_whitespace() {
    assert!(is_blank(""));
    assert!(is_blank(" \t\r\n"));
    assert!(is_blank("\u{00a0}\u{2003}"));
    assert!(!is_blank(" x "));
    assert!(!is_blank("_"));
    assert!(is_blank("\u{0085}\u{3000}\u{205f}"));
    assert!(!is_blank("\u{200b}"));
}

#[test]
fn whitespace_is_what_the_standard_library_calls_whitespace() {
    for c in char::MIN..=char::MAX {
        assert_eq!(
            jevon::source::char_is_whitespace(c),
            c.is_whitespace(),
            "{:x}",
            c as u32
        );
    }
}
