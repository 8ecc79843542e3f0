use jevon::layers::{exclusive, forbidden, layer_of, layers};

#[test]
fn the_kit_sits_below_the_commands() {
    assert!(layer_of("typesafe-sdk-cmd-kit") < layer_of("typesafe-sdk-cmd-ask"));
}

#[test]
fn the_commands_sit_below_the_binary() {
    assert!(layer_of("typesafe-sdk-cmd-ask") < layer_of("jevon"));
}

#[test]
fn every_layer_is_populated() {
    for layer in 0..=2u8 {
        assert!(
            layers().iter().any(|&(_, l)| l == layer),
            "layer {layer} has no crates"
        );
    }
}

#[test]
fn no_crate_is_listed_twice() {
    let mut names: Vec<&str> = layers().iter().map(|&(n, _)| n).collect();
    names.sort_unstable();
    let count = names.len();
    names.dedup();
    assert_eq!(names.len(), count, "a crate appears twice in the layer map");
}

#[test]
fn each_listed_crate_answers_its_own_layer() {
    assert_eq!(layer_of("typesafe-sdk-cmd-kit"), Some(0));
    assert_eq!(layer_of("typesafe-sdk-cmd-eval"), Some(1));
    assert_eq!(layer_of("typesafe-sdk-cmd-models"), Some(1));
    assert_eq!(layer_of("xtask"), Some(2));
}

#[test]
fn an_unlisted_crate_has_no_layer() {
    assert_eq!(layer_of("reqwest"), None);
    assert_eq!(layer_of(""), None);
    assert_eq!(layer_of("typesafe-sdk-cmd"), None);
}

#[test]
fn forbidden_crates_are_not_members_and_the_transport_belongs_to_the_kit() {
    for name in forbidden() {
        assert_eq!(layer_of(name), None, "{name}");
    }
    assert_eq!(forbidden(), vec!["reqwest", "hyper"]);
    assert_eq!(exclusive(), vec![("typesafe-sdk-http", "typesafe-sdk-cmd-kit")]);
    for (_, owner) in exclusive() {
        assert_eq!(layer_of(owner), Some(0));
    }
}
