//! Where each crate sits, and what it may not touch.
//!
//! Splitting a system into many small crates only helps if the dependency
//! direction holds. Adding a crate means placing it in this table; a crate
//! absent from it is not a workspace member.

use vstd::prelude::*;

verus! {

/// The layer table as a mathematical sequence of (crate name, layer) pairs.
pub open spec fn layer_table() -> Seq<(Seq<char>, u8)> {
    seq![
        ("typesafe-sdk-cmd-kit"@, 0u8),
        ("typesafe-sdk-cmd-ask"@, 1u8),
        ("typesafe-sdk-cmd-classify"@, 1u8),
        ("typesafe-sdk-cmd-eval"@, 1u8),
        ("typesafe-sdk-cmd-doctor"@, 1u8),
        ("typesafe-sdk-cmd-models"@, 1u8),
        ("jevon"@, 2u8),
        ("xtask"@, 2u8),
    ]
}

/// The layer of the first entry of `table` named `name`, if any.
pub open spec fn layer_in(table: Seq<(Seq<char>, u8)>, name: Seq<char>) -> Option<u8>
    decreases table.len(),
{
    if table.len() == 0 {
        None
    } else if table[0].0 == name {
        Some(table[0].1)
    } else {
        layer_in(table.drop_first(), name)
    }
}

/// The layer each crate belongs to: 0 for the shared command kit, 1 for one
/// crate per command, 2 for the binary that assembles them and the gates.
pub fn layers() -> (table: Vec<(&'static str, u8)>)
    ensures
        table@.len() == layer_table().len(),
        forall|i: int|
            0 <= i < table@.len() ==> (#[trigger] table@[i]).0@ == layer_table()[i].0
                && table@[i].1 == layer_table()[i].1,
{
    vec![
        ("typesafe-sdk-cmd-kit", 0),
        ("typesafe-sdk-cmd-ask", 1),
        ("typesafe-sdk-cmd-classify", 1),
        ("typesafe-sdk-cmd-eval", 1),
        ("typesafe-sdk-cmd-doctor", 1),
        ("typesafe-sdk-cmd-models", 1),
        ("jevon", 2),
        ("xtask", 2),
    ]
}

/// Whether two string slices hold the same characters.
fn str_eq(a: &str, b: &str) -> (same: bool)
    ensures
        same == (a@ == b@),
{
    a.to_owned() == b.to_owned()
}

/// The layer `name` belongs to, if it is a workspace member.
pub fn layer_of(name: &str) -> (layer: Option<u8>)
    ensures
        layer == layer_in(layer_table(), name@),
{
    let table = layers();
    let mut i: usize = 0;
    assert(layer_table().skip(0) =~= layer_table());
    while i < table.len()
        invariant
            i <= table@.len(),
            table@.len() == layer_table().len(),
            forall|j: int|
                0 <= j < table@.len() ==> (#[trigger] table@[j]).0@ == layer_table()[j].0
                    && table@[j].1 == layer_table()[j].1,
            layer_in(layer_table(), name@) == layer_in(layer_table().skip(i as int), name@),
        decreases table@.len() - i,
    {
        let (krate, layer) = table[i];
        let ghost rest = layer_table().skip(i as int);
        assert(rest.drop_first() =~= layer_table().skip(i + 1));
        if str_eq(krate, name) {
            return Some(layer);
        }
        i = i + 1;
    }
    assert(layer_table().skip(i as int).len() == 0);
    None
}

/// The first-match lookup names the layer listed for `name`, in any table
/// whose crate names are distinct.
proof fn lemma_layer_in_distinct(table: Seq<(Seq<char>, u8)>, name: Seq<char>, layer: u8)
    requires
        forall|i: int, j: int| 0 <= i < j < table.len() ==> table[i].0 != table[j].0,
    ensures
        layer_in(table, name) == Some(layer) <==> table.contains((name, layer)),
    decreases table.len(),
{
    if table.len() > 0 {
        let rest = table.drop_first();
        assert forall|i: int, j: int| 0 <= i < j < rest.len() implies rest[i].0 != rest[j].0 by {
            assert(rest[i] == table[i + 1] && rest[j] == table[j + 1]);
        }
        lemma_layer_in_distinct(rest, name, layer);
        if table.contains((name, layer)) {
            let k = choose|k: int| 0 <= k < table.len() && table[k] == (name, layer);
            if k > 0 {
                assert(rest[k - 1] == table[k]);
                assert(table[0].0 != table[k].0);
            }
        }
        if rest.contains((name, layer)) {
            let k = choose|k: int| 0 <= k < rest.len() && rest[k] == (name, layer);
            assert(table[k + 1] == rest[k]);
        }
    }
}

/// No crate is listed twice in the layer table.
pub proof fn layer_table_names_are_distinct()
    ensures
        forall|i: int, j: int|
            0 <= i < j < layer_table().len() ==> layer_table()[i].0 != layer_table()[j].0,
{
    reveal_strlit("typesafe-sdk-cmd-kit");
    reveal_strlit("typesafe-sdk-cmd-ask");
    reveal_strlit("typesafe-sdk-cmd-classify");
    reveal_strlit("typesafe-sdk-cmd-eval");
    reveal_strlit("typesafe-sdk-cmd-doctor");
    reveal_strlit("typesafe-sdk-cmd-models");
    reveal_strlit("jevon");
    reveal_strlit("xtask");
    let t = layer_table();
    assert(t[0].0.len() == 20 && t[1].0.len() == 20 && t[2].0.len() == 25);
    assert(t[3].0.len() == 21 && t[4].0.len() == 23 && t[5].0.len() == 23);
    assert(t[6].0.len() == 5 && t[7].0.len() == 5);
    assert(t[0].0[17] != t[1].0[17]);
    assert(t[4].0[17] != t[5].0[17]);
    assert(t[6].0[0] != t[7].0[0]);
    assert forall|i: int, j: int| 0 <= i < j < t.len() implies t[i].0 != t[j].0 by {
        if i == 0 && j == 1 { assert(t[i].0[17] != t[j].0[17]); }
        if i == 4 && j == 5 { assert(t[i].0[17] != t[j].0[17]); }
        if i == 6 && j == 7 { assert(t[i].0[0] != t[j].0[0]); }
    }
}

/// Whether some crate of `table` sits in `layer`.
pub open spec fn populated(table: Seq<(Seq<char>, u8)>, layer: u8) -> bool {
    exists|i: int| 0 <= i < table.len() && #[trigger] table[i].1 == layer
}

/// Every layer from 0 to 2 holds at least one crate, and no crate sits above 2.
pub proof fn every_layer_is_populated()
    ensures
        forall|layer: u8| layer <= 2 ==> #[trigger] populated(layer_table(), layer),
        forall|i: int| 0 <= i < layer_table().len() ==> #[trigger] layer_table()[i].1 <= 2,
{
    let t = layer_table();
    assert(t[0].1 == 0 && t[1].1 == 1 && t[6].1 == 2);
    assert forall|layer: u8| layer <= 2 implies #[trigger] populated(t, layer) by {
        if layer == 0 { assert(t[0].1 == layer); } else if layer == 1 { assert(t[1].1 == layer); } else { assert(t[6].1 == layer); }
    }
}

/// `layer_of` answers `Some(layer)` exactly for a crate listed at that layer,
/// and `None` for a name the table does not hold.
pub proof fn layer_of_is_the_listed_layer(name: Seq<char>, layer: u8)
    ensures
        layer_in(layer_table(), name) == Some(layer) <==> layer_table().contains((name, layer)),
        layer_in(layer_table(), name) is None <==> forall|i: int| 0 <= i < layer_table().len() ==> #[trigger] layer_table()[i].0 != name,
{
    layer_table_names_are_distinct();
    lemma_layer_in_distinct(layer_table(), name, layer);
    lemma_layer_in_none(layer_table(), name);
}

proof fn lemma_layer_in_none(table: Seq<(Seq<char>, u8)>, name: Seq<char>)
    ensures
        layer_in(table, name) is None <==> forall|i: int| 0 <= i < table.len() ==> #[trigger] table[i].0 != name,
    decreases table.len(),
{
    if table.len() > 0 {
        let rest = table.drop_first();
        lemma_layer_in_none(rest, name);
        assert forall|i: int| 0 < i < table.len() implies table[i] == #[trigger] rest[i - 1] by {}
        if layer_in(table, name) is None {
            assert forall|i: int| 0 <= i < table.len() implies #[trigger] table[i].0 != name by {
                if i > 0 { assert(table[i] == rest[i - 1]); }
            }
        }
    }
}

/// Third-party crates no crate here may name. The SDK owns the wire; a
/// command that reached for an HTTP client directly would get its own
/// retry, timeout and header behaviour.
pub open spec fn forbidden_table() -> Seq<Seq<char>> {
    seq!["reqwest"@, "hyper"@]
}

/// Crates only one named crate may depend on, as (crate, the one that may).
/// One crate builds the transport and the client.
pub open spec fn exclusive_table() -> Seq<(Seq<char>, Seq<char>)> {
    seq![("typesafe-sdk-http"@, "typesafe-sdk-cmd-kit"@)]
}

/// The third-party crates no crate here may name.
pub fn forbidden() -> (table: Vec<&'static str>)
    ensures
        table@.len() == forbidden_table().len(),
        forall|i: int| 0 <= i < table@.len() ==> (#[trigger] table@[i])@ == forbidden_table()[i],
{
    vec!["reqwest", "hyper"]
}

/// The crates only one named crate may depend on, as (crate, the one that
/// may).
pub fn exclusive() -> (table: Vec<(&'static str, &'static str)>)
    ensures
        table@.len() == exclusive_table().len(),
        forall|i: int|
            0 <= i < table@.len() ==> (#[trigger] table@[i]).0@ == exclusive_table()[i].0
                && table@[i].1@ == exclusive_table()[i].1,
{
    vec![("typesafe-sdk-http", "typesafe-sdk-cmd-kit")]
}

/// No forbidden crate is a workspace member, and the one crate allowed an
/// exclusive dependency is a member of the lowest layer, below every
/// command.
pub proof fn the_rule_tables_agree_with_the_layers()
    ensures
        forall|i: int|
            0 <= i < forbidden_table().len() ==> layer_in(layer_table(), #[trigger] forbidden_table()[i])
                is None,
        forall|i: int|
            0 <= i < exclusive_table().len() ==> layer_in(layer_table(), #[trigger] exclusive_table()[i].1)
                == Some(0u8),
{
    reveal_strlit("reqwest");
    reveal_strlit("hyper");
    reveal_strlit("typesafe-sdk-cmd-kit");
    reveal_strlit("typesafe-sdk-cmd-ask");
    reveal_strlit("typesafe-sdk-cmd-classify");
    reveal_strlit("typesafe-sdk-cmd-eval");
    reveal_strlit("typesafe-sdk-cmd-doctor");
    reveal_strlit("typesafe-sdk-cmd-models");
    reveal_strlit("jevon");
    reveal_strlit("xtask");
    layer_table_names_are_distinct();
    let t = layer_table();
    assert(t[0] == ("typesafe-sdk-cmd-kit"@, 0u8));
    lemma_layer_in_distinct(t, "typesafe-sdk-cmd-kit"@, 0u8);
    assert forall|i: int| 0 <= i < forbidden_table().len() implies layer_in(t, #[trigger] forbidden_table()[i]) is None by {
        lemma_layer_in_none(t, forbidden_table()[i]);
        assert forall|k: int| 0 <= k < t.len() implies #[trigger] t[k].0 != forbidden_table()[i] by {
            if t[k].0.len() == forbidden_table()[i].len() {
                assert(t[k].0[0] != forbidden_table()[i][0]);
            }
        }
    }
}

} // verus!
