//! What a classification run reports, and how per-item results fold into it.
//!
//! A failed item is a row, not an aborted run: one unclassifiable line in a
//! thousand should not cost the other nine hundred and ninety-nine. The
//! `uncertain` count is the one worth reading first, because a confident wrong
//! answer and an unconfident right one look identical in the labels alone.
//! A batch reports what it cost in total, and every model version that
//! answered, because a long run can straddle a deployment.

use indexmap::IndexMap;
use vstd::prelude::*;

use crate::counts::{
    count_entries, counts_get, counts_insert, counts_new, key_index, lemma_key_index, lookup, put,
};
use crate::json::json_null;
use crate::usage::{saturated, Usage};

verus! {

/// One item and what came back for it.
pub struct Item {
    /// The line that was classified.
    pub item: String,
    /// The answers, keyed by question name.
    pub answers: serde_json::Value,
    /// Whether any answer fell below the confidence threshold.
    pub uncertain: bool,
    /// What went wrong, when this item could not be classified.
    pub error: Option<String>,
}

/// One item's result, and what answering it cost and involved.
pub struct Answered {
    /// The row to report.
    pub item: Item,
    /// Tokens spent on it.
    pub usage: Usage,
    /// The resolved model version that answered, if anything did.
    pub model: Option<String>,
    /// The names of the questions whose answers fell below the threshold.
    pub shaky: Vec<String>,
}

/// Every item, in the order they were read.
pub struct Classified {
    /// The resolved model version that answered, such as `jev-1.13.0`. It
    /// falls back to the configured default only when nothing was answered.
    pub model: String,
    /// Every resolved version seen, when a run saw more than one.
    pub models: Option<Vec<String>>,
    /// One entry per input line.
    pub items: Vec<Item>,
    /// How many items had an answer below the confidence threshold.
    pub uncertain: usize,
    /// How many times each question fell below the threshold, in the order
    /// the questions first did.
    pub uncertain_by_question: IndexMap<String, usize>,
    /// How many items could not be classified at all.
    pub failed: usize,
    /// Tokens consumed by every item that was answered.
    pub usage: Usage,
}

/// The characters of each string.
pub open spec fn names(v: Seq<String>) -> Seq<Seq<char>> {
    v.map_values(|s: String| s@)
}

/// Counts `key` once more.
pub open spec fn bump(entries: Seq<(Seq<char>, usize)>, key: Seq<char>) -> Seq<(Seq<char>, usize)> {
    put(
        entries,
        key,
        match lookup(entries, key) {
            Some(c) => (c + 1) as usize,
            None => 1usize,
        },
    )
}

/// Counts every key of `keys`, in order.
pub open spec fn bump_all(entries: Seq<(Seq<char>, usize)>, keys: Seq<Seq<char>>) -> Seq<
    (Seq<char>, usize),
>
    decreases keys.len(),
{
    if keys.len() == 0 {
        entries
    } else {
        bump(bump_all(entries, keys.drop_last()), keys.last())
    }
}

/// Every count in `entries` is at most `n`.
pub open spec fn counts_at_most(entries: Seq<(Seq<char>, usize)>, n: int) -> bool {
    forall|i: int| 0 <= i < entries.len() ==> #[trigger] entries[i].1 <= n
}

/// Counting one more key raises no count above `n + 1`.
proof fn lemma_bump_bound(entries: Seq<(Seq<char>, usize)>, key: Seq<char>, n: int)
    requires
        counts_at_most(entries, n),
        0 <= n,
        n + 1 <= usize::MAX,
    ensures
        counts_at_most(bump(entries, key), n + 1),
{
    lemma_key_index(entries, key);
    let b = bump(entries, key);
    match key_index(entries, key) {
        Some(i) => {
            assert(lookup(entries, key) == Some(entries[i].1));
            assert forall|j: int| 0 <= j < b.len() implies #[trigger] b[j].1 <= n + 1 by {
                if j != i {
                    assert(b[j] == entries[j]);
                }
            }
        },
        None => {
            assert forall|j: int| 0 <= j < b.len() implies #[trigger] b[j].1 <= n + 1 by {
                if j < entries.len() {
                    assert(b[j] == entries[j]);
                }
            }
        },
    }
}

/// Adds one row's shaky questions to the running counts.
fn tally(counts: &mut IndexMap<String, usize>, shaky: Vec<String>, Ghost(bound): Ghost<int>)
    requires
        counts_at_most(count_entries(*old(counts)), bound),
        0 <= bound,
        bound + shaky@.len() <= usize::MAX,
    ensures
        count_entries(*final(counts)) == bump_all(count_entries(*old(counts)), names(shaky@)),
        counts_at_most(count_entries(*final(counts)), bound + shaky@.len()),
{
    let ghost start = count_entries(*counts);
    let mut i: usize = 0;
    assert(names(shaky@).subrange(0, 0) =~= Seq::<Seq<char>>::empty());
    while i < shaky.len()
        invariant
            i <= shaky@.len(),
            0 <= bound,
            bound + shaky@.len() <= usize::MAX,
            count_entries(*counts) == bump_all(start, names(shaky@).subrange(0, i as int)),
            counts_at_most(count_entries(*counts), bound + i),
        decreases shaky@.len() - i,
    {
        let name = shaky[i].clone();
        let ghost before = count_entries(*counts);
        proof {
            lemma_key_index(before, name@);
            lemma_bump_bound(before, name@, bound + i);
            let prefix = names(shaky@).subrange(0, i + 1);
            assert(prefix.drop_last() =~= names(shaky@).subrange(0, i as int));
            assert(prefix.last() == name@);
        }
        let next: usize = match counts_get(counts, &name) {
            Some(c) => c + 1,
            None => 1,
        };
        counts_insert(counts, name, next);
        i = i + 1;
    }
    assert(names(shaky@).subrange(0, shaky@.len() as int) =~= names(shaky@));
}

/// The characters of an optional string.
pub open spec fn opt_view(o: Option<String>) -> Option<Seq<char>> {
    match o {
        Some(s) => Some(s@),
        None => None,
    }
}

/// The versions seen so far, after `model`: added last the first time it is
/// seen, otherwise unchanged.
pub open spec fn noted(seen: Seq<Seq<char>>, model: Option<Seq<char>>) -> Seq<Seq<char>> {
    match model {
        Some(m) => if seen.contains(m) {
            seen
        } else {
            seen.push(m)
        },
        None => seen,
    }
}

/// Records a model version the first time it is seen, keeping the order they
/// appeared in so the first is the one a single-version run reports.
fn note(seen: &mut Vec<String>, model: Option<String>)
    ensures
        names(final(seen)@) == noted(names(old(seen)@), opt_view(model)),
{
    if let Some(m) = model {
        let mut found = false;
        let mut j: usize = 0;
        while j < seen.len()
            invariant
                j <= seen@.len(),
                found <==> exists|k: int| 0 <= k < j && #[trigger] seen@[k]@ == m@,
            decreases seen@.len() - j,
        {
            if seen[j] == m {
                found = true;
            }
            j = j + 1;
        }
        proof {
            let ns = names(seen@);
            if found {
                let k = choose|k: int| 0 <= k < j && #[trigger] seen@[k]@ == m@;
                assert(ns[k] == m@);
            } else {
                assert forall|k: int| 0 <= k < ns.len() implies ns[k] != m@ by {
                    assert(ns[k] == seen@[k]@);
                }
            }
        }
        if !found {
            seen.push(m);
            proof {
                assert(names(seen@) =~= names(old(seen)@).push(m@));
            }
        }
    }
}

/// Every model version the rows name, in the order first seen.
pub open spec fn first_seen(rows: Seq<Answered>) -> Seq<Seq<char>>
    decreases rows.len(),
{
    if rows.len() == 0 {
        Seq::empty()
    } else {
        noted(first_seen(rows.drop_last()), opt_view(rows.last().model))
    }
}

/// The per-question counts of the rows' shaky questions, in the order each
/// question was first shaky.
pub open spec fn tallied(rows: Seq<Answered>) -> Seq<(Seq<char>, usize)>
    decreases rows.len(),
{
    if rows.len() == 0 {
        Seq::empty()
    } else {
        bump_all(tallied(rows.drop_last()), names(rows.last().shaky@))
    }
}

/// How many shaky question names the rows carry in all.
pub open spec fn shaky_total(rows: Seq<Answered>) -> nat
    decreases rows.len(),
{
    if rows.len() == 0 {
        0
    } else {
        shaky_total(rows.drop_last()) + rows.last().shaky@.len()
    }
}

/// The input tokens the rows spent, summed exactly.
pub open spec fn input_total(rows: Seq<Answered>) -> nat
    decreases rows.len(),
{
    if rows.len() == 0 {
        0
    } else {
        input_total(rows.drop_last()) + rows.last().usage.input_tokens as nat
    }
}

/// The output tokens the rows spent, summed exactly.
pub open spec fn output_total(rows: Seq<Answered>) -> nat
    decreases rows.len(),
{
    if rows.len() == 0 {
        0
    } else {
        output_total(rows.drop_last()) + rows.last().usage.output_tokens as nat
    }
}

/// The rows' items, in order.
pub open spec fn items_of(rows: Seq<Answered>) -> Seq<Item> {
    rows.map_values(|r: Answered| r.item)
}

/// How many items are marked uncertain.
pub open spec fn uncertain_count(items: Seq<Item>) -> nat
    decreases items.len(),
{
    if items.len() == 0 {
        0
    } else {
        uncertain_count(items.drop_last()) + if items.last().uncertain {
            1nat
        } else {
            0nat
        }
    }
}

/// How many items carry an error.
pub open spec fn failed_count(items: Seq<Item>) -> nat
    decreases items.len(),
{
    if items.len() == 0 {
        0
    } else {
        failed_count(items.drop_last()) + if items.last().error is Some {
            1nat
        } else {
            0nat
        }
    }
}

/// How many items are marked uncertain.
fn count_uncertain(items: &Vec<Item>) -> (n: usize)
    ensures
        n == uncertain_count(items@),
{
    let mut n: usize = 0;
    let mut i: usize = 0;
    while i < items.len()
        invariant
            i <= items@.len(),
            n == uncertain_count(items@.subrange(0, i as int)),
            n <= i,
        decreases items@.len() - i,
    {
        assert(items@.subrange(0, i + 1).drop_last() =~= items@.subrange(0, i as int));
        if items[i].uncertain {
            n = n + 1;
        }
        i = i + 1;
    }
    assert(items@.subrange(0, items@.len() as int) =~= items@);
    n
}

/// How many items carry an error.
fn count_failed(items: &Vec<Item>) -> (n: usize)
    ensures
        n == failed_count(items@),
{
    let mut n: usize = 0;
    let mut i: usize = 0;
    while i < items.len()
        invariant
            i <= items@.len(),
            n == failed_count(items@.subrange(0, i as int)),
            n <= i,
        decreases items@.len() - i,
    {
        assert(items@.subrange(0, i + 1).drop_last() =~= items@.subrange(0, i as int));
        if items[i].error.is_some() {
            n = n + 1;
        }
        i = i + 1;
    }
    assert(items@.subrange(0, items@.len() as int) =~= items@);
    n
}

impl Classified {
    /// Folds the per-item results, in order, into the reported shape.
    ///
    /// The reported model is the first version any row names, and the
    /// configured one only when no row names one; every version is listed
    /// when there was more than one. Tokens are summed over every row,
    /// stopping at the largest `u64`.
    pub fn of(configured: &str, answered: Vec<Answered>) -> (r: Self)
        requires
            shaky_total(answered@) <= usize::MAX,
        ensures
            r.items@ == items_of(answered@),
            r.model@ == (if first_seen(answered@).len() > 0 {
                first_seen(answered@)[0]
            } else {
                configured@
            }),
            r.models is Some <==> first_seen(answered@).len() > 1,
            r.models matches Some(v) ==> names(v@) == first_seen(answered@),
            r.uncertain == uncertain_count(items_of(answered@)),
            r.failed == failed_count(items_of(answered@)),
            r.usage.input_tokens == saturated(input_total(answered@) as int),
            r.usage.output_tokens == saturated(output_total(answered@) as int),
            count_entries(r.uncertain_by_question) == tallied(answered@),
    {
        broadcast use vstd::std_specs::vec::axiom_spec_into_iter;

        let ghost rows = answered@;
        let mut usage = Usage::default();
        let mut seen: Vec<String> = Vec::new();
        let mut shaky: IndexMap<String, usize> = counts_new();
        let mut items: Vec<Item> = Vec::new();
        for row in it: answered
            invariant
                it.seq() == rows,
                shaky_total(rows) <= usize::MAX,
                items@ == items_of(rows.subrange(0, it.index() as int)),
                names(seen@) == first_seen(rows.subrange(0, it.index() as int)),
                count_entries(shaky) == tallied(rows.subrange(0, it.index() as int)),
                counts_at_most(count_entries(shaky), shaky_total(rows.subrange(0, it.index() as int)) as int),
                shaky_total(rows.subrange(0, it.index() as int)) <= shaky_total(rows),
                usage.input_tokens == saturated(input_total(rows.subrange(0, it.index() as int)) as int),
                usage.output_tokens == saturated(output_total(rows.subrange(0, it.index() as int)) as int),
        {
            let ghost k = it.index() as int;
            let ghost prefix = rows.subrange(0, k + 1);
            proof {
                assert(prefix.drop_last() =~= rows.subrange(0, k));
                assert(prefix.last() == row);
                lemma_shaky_total_prefix(rows, k + 1);
            }
            usage.input_tokens = usage.input_tokens.saturating_add(row.usage.input_tokens);
            usage.output_tokens = usage.output_tokens.saturating_add(row.usage.output_tokens);
            note(&mut seen, row.model);
            tally(&mut shaky, row.shaky, Ghost(shaky_total(rows.subrange(0, k)) as int));
            items.push(row.item);
            proof {
                assert(items_of(prefix) =~= items_of(rows.subrange(0, k)).push(row.item));
            }
        }
        proof {
            assert(rows.subrange(0, rows.len() as int) =~= rows);
        }
        let model = if seen.len() > 0 {
            seen[0].clone()
        } else {
            configured.to_owned()
        };
        let uncertain = count_uncertain(&items);
        let failed = count_failed(&items);
        Classified {
            model,
            models: if seen.len() > 1 {
                Some(seen)
            } else {
                None
            },
            uncertain,
            uncertain_by_question: shaky,
            failed,
            usage,
            items,
        }
    }
}

/// A prefix of the rows carries no more shaky names than all of them.
proof fn lemma_shaky_total_prefix(rows: Seq<Answered>, k: int)
    requires
        0 <= k <= rows.len(),
    ensures
        shaky_total(rows.subrange(0, k)) <= shaky_total(rows),
        k > 0 ==> shaky_total(rows.subrange(0, k)) == shaky_total(rows.subrange(0, k - 1)) + rows[k - 1].shaky@.len(),
    decreases rows.len() - k,
{
    if k > 0 {
        assert(rows.subrange(0, k).drop_last() =~= rows.subrange(0, k - 1));
    }
    if k < rows.len() {
        lemma_shaky_total_prefix(rows, k + 1);
        assert(rows.subrange(0, k + 1).drop_last() =~= rows.subrange(0, k));
    } else {
        assert(rows.subrange(0, k) =~= rows);
    }
}

/// The exit code a run with `items` rows, `failed` of them failed, deserves:
/// 1 when nothing was answered, 2 when some items failed, none when all
/// were answered.
pub open spec fn exit_code_for(items: int, failed: int) -> Option<i32> {
    if items - failed <= 0 {
        Some(1)
    } else if failed == 0 {
        None
    } else {
        Some(2)
    }
}

impl Classified {
    /// What the process should exit with.
    ///
    /// A failed item is a row, not an aborted run, but a run that answered
    /// nothing at all did not work, and exiting zero on it would let a broken
    /// key pass for success in any script or CI job.
    pub fn exit_code(&self) -> (code: Option<i32>)
        ensures
            code == exit_code_for(self.items@.len() as int, self.failed as int),
    {
        let answered = self.items.len().saturating_sub(self.failed);
        match (answered, self.failed) {
            (0, _) => Some(1),
            (_, 0) => None,
            _ => Some(2),
        }
    }
}

impl Answered {
    /// One item the model answered, what it cost, and which model version
    /// answered. The item is uncertain exactly when some question was shaky.
    pub fn answered(
        item: String,
        answers: serde_json::Value,
        usage: Usage,
        model: String,
        shaky: Vec<String>,
    ) -> (r: Self)
        ensures
            r.item.item == item,
            r.item.answers == answers,
            r.item.uncertain == (shaky@.len() > 0),
            r.item.error is None,
            r.usage == usage,
            r.model == Some(model),
            r.shaky == shaky,
    {
        let uncertain = shaky.len() > 0;
        Answered {
            item: Item { item, answers, uncertain, error: None },
            usage,
            model: Some(model),
            shaky,
        }
    }

    /// One item the run could not answer, reported as a row rather than an
    /// abort. Nothing answered it, so it names no model, spent nothing that
    /// can be accounted for, and counts as uncertain.
    pub fn failed(item: String, error: &str) -> (r: Self)
        ensures
            r.item.item == item,
            r.item.uncertain,
            r.item.error matches Some(e) && e@ == error@,
            r.usage.input_tokens == 0 && r.usage.output_tokens == 0,
            r.model is None,
            r.shaky@.len() == 0,
    {
        Answered {
            item: Item { item, answers: json_null(), uncertain: true, error: Some(error.to_owned()) },
            usage: Usage::default(),
            model: None,
            shaky: Vec::new(),
        }
    }
}

} // verus!
