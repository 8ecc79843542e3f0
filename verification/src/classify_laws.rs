//! Laws of a classification report: what the fold promises of any run.

use vstd::prelude::*;

use crate::classify::{
    input_total, output_total,
    bump, bump_all, exit_code_for, failed_count, first_seen, items_of, names, noted, opt_view,
    shaky_total, tallied, Answered, Item,
};
use crate::counts::{
    distinct_keys, key_index, lemma_key_index, lemma_key_index_unique, lookup,
};

verus! {


/// How many times `q` occurs in `keys`.
pub open spec fn occurrences(keys: Seq<Seq<char>>, q: Seq<char>) -> nat
    decreases keys.len(),
{
    if keys.len() == 0 {
        0
    } else {
        occurrences(keys.drop_last(), q) + if keys.last() == q {
            1nat
        } else {
            0nat
        }
    }
}

/// Every shaky question name of every row, in order.
pub open spec fn all_shaky(rows: Seq<Answered>) -> Seq<Seq<char>>
    decreases rows.len(),
{
    if rows.len() == 0 {
        Seq::empty()
    } else {
        all_shaky(rows.drop_last()) + names(rows.last().shaky@)
    }
}

/// The count stored under `q`, zero when none is.
pub open spec fn count_of(entries: Seq<(Seq<char>, usize)>, q: Seq<char>) -> nat {
    match lookup(entries, q) {
        Some(c) => c as nat,
        None => 0,
    }
}

proof fn lemma_occurrences_le_len(keys: Seq<Seq<char>>, q: Seq<char>)
    ensures
        occurrences(keys, q) <= keys.len(),
        keys.len() > 0 ==> occurrences(keys, keys.last()) >= 1,
    decreases keys.len(),
{
    if keys.len() > 0 {
        lemma_occurrences_le_len(keys.drop_last(), q);
    }
}

/// Counting `k` once more adds one to its count and leaves every other
/// count alone, keeping keys distinct and counts positive.
proof fn lemma_bump(entries: Seq<(Seq<char>, usize)>, k: Seq<char>, q: Seq<char>)
    requires
        distinct_keys(entries),
        forall|i: int| 0 <= i < entries.len() ==> #[trigger] entries[i].1 >= 1,
        count_of(entries, k) + 1 <= usize::MAX,
    ensures
        distinct_keys(bump(entries, k)),
        forall|i: int| 0 <= i < bump(entries, k).len() ==> #[trigger] bump(entries, k)[i].1 >= 1,
        count_of(bump(entries, k), q) == count_of(entries, q) + if q == k {
            1nat
        } else {
            0nat
        },
        lookup(bump(entries, k), q) is Some <==> (lookup(entries, q) is Some || q == k),
{
    let b = bump(entries, k);
    lemma_key_index(entries, k);
    lemma_key_index(entries, q);
    match key_index(entries, k) {
        Some(i) => {
            assert(b == entries.update(i, (k, (entries[i].1 + 1) as usize)));
            assert(distinct_keys(b)) by {
                assert forall|x: int, y: int| 0 <= x < y < b.len() implies b[x].0 != b[y].0 by {
                    assert(b[x].0 == entries[x].0 && b[y].0 == entries[y].0);
                }
            }
            assert forall|x: int| 0 <= x < b.len() implies #[trigger] b[x].1 >= 1 by {
                if x != i { assert(b[x] == entries[x]); }
            }
            if q == k {
                lemma_key_index_unique(b, q, i);
            } else {
                lemma_key_index(b, q);
                match key_index(entries, q) {
                    Some(j) => {
                        assert(b[j] == entries[j]);
                        lemma_key_index_unique(b, q, j);
                    },
                    None => {
                        if key_index(b, q) is Some {
                            let j = key_index(b, q)->0;
                            assert(b[j].0 == entries[j].0);
                        }
                    },
                }
            }
        },
        None => {
            assert(b == entries.push((k, 1usize)));
            assert(distinct_keys(b)) by {
                assert forall|x: int, y: int| 0 <= x < y < b.len() implies b[x].0 != b[y].0 by {
                    if y < entries.len() {
                        assert(b[x] == entries[x] && b[y] == entries[y]);
                    } else {
                        assert(b[x] == entries[x]);
                    }
                }
            }
            assert forall|x: int| 0 <= x < b.len() implies #[trigger] b[x].1 >= 1 by {
                if x < entries.len() { assert(b[x] == entries[x]); }
            }
            if q == k {
                lemma_key_index_unique(b, q, entries.len() as int);
            } else {
                lemma_key_index(b, q);
                match key_index(entries, q) {
                    Some(j) => {
                        assert(b[j] == entries[j]);
                        lemma_key_index_unique(b, q, j);
                    },
                    None => {
                        if key_index(b, q) is Some {
                            let j = key_index(b, q)->0;
                            if j < entries.len() {
                                assert(b[j] == entries[j]);
                            }
                        }
                    },
                }
            }
        },
    }
}

/// Counting a sequence of keys from nothing counts each key once per
/// occurrence, with distinct keys and no zero count.
proof fn lemma_bump_all_counts(keys: Seq<Seq<char>>)
    requires
        keys.len() <= usize::MAX,
    ensures
        distinct_keys(bump_all(Seq::empty(), keys)),
        forall|i: int|
            0 <= i < bump_all(Seq::empty(), keys).len() ==> #[trigger] bump_all(Seq::empty(), keys)[i].1 >= 1,
        forall|q: Seq<char>| #[trigger] count_of(bump_all(Seq::empty(), keys), q) == occurrences(keys, q),
        forall|q: Seq<char>|
            (#[trigger] lookup(bump_all(Seq::empty(), keys), q)) is Some <==> occurrences(keys, q) > 0,
    decreases keys.len(),
{
    if keys.len() > 0 {
        let rest = keys.drop_last();
        let k = keys.last();
        lemma_bump_all_counts(rest);
        let e = bump_all(Seq::<(Seq<char>, usize)>::empty(), rest);
        lemma_occurrences_le_len(rest, k);
        assert(count_of(e, k) == occurrences(rest, k));
        assert forall|q: Seq<char>|
            #[trigger] count_of(bump(e, k), q) == occurrences(keys, q) by {
            lemma_bump(e, k, q);
            assert(count_of(e, q) == occurrences(rest, q));
        }
        assert forall|q: Seq<char>|
            (#[trigger] lookup(bump(e, k), q)) is Some <==> occurrences(keys, q) > 0 by {
            lemma_bump(e, k, q);
            assert(lookup(e, q) is Some <==> occurrences(rest, q) > 0);
        }
        lemma_bump(e, k, k);
    }
}

/// Counting two runs of keys in turn is counting them joined.
proof fn lemma_bump_all_concat(e: Seq<(Seq<char>, usize)>, a: Seq<Seq<char>>, b: Seq<Seq<char>>)
    ensures
        bump_all(e, a + b) == bump_all(bump_all(e, a), b),
    decreases b.len(),
{
    if b.len() == 0 {
        assert(a + b =~= a);
    } else {
        lemma_bump_all_concat(e, a, b.drop_last());
        assert((a + b).drop_last() =~= a + b.drop_last());
        assert((a + b).last() == b.last());
    }
}

proof fn lemma_tallied_is_bump_all(rows: Seq<Answered>)
    ensures
        tallied(rows) == bump_all(Seq::empty(), all_shaky(rows)),
        all_shaky(rows).len() == shaky_total(rows),
    decreases rows.len(),
{
    if rows.len() == 0 {
    } else {
        lemma_tallied_is_bump_all(rows.drop_last());
        lemma_bump_all_concat(
            Seq::empty(),
            all_shaky(rows.drop_last()),
            names(rows.last().shaky@),
        );
    }
}

/// Uncertainty is counted per question: each question's count is the
/// number of times a row named it shaky, a question no row named has no
/// entry, no question is listed twice, and a run where nothing was shaky
/// reports no question counts at all.
pub proof fn uncertainty_is_counted_per_question(rows: Seq<Answered>, q: Seq<char>)
    requires
        shaky_total(rows) <= usize::MAX,
    ensures
        lookup(tallied(rows), q) == (if occurrences(all_shaky(rows), q) == 0 {
            None::<usize>
        } else {
            Some(occurrences(all_shaky(rows), q) as usize)
        }),
        distinct_keys(tallied(rows)),
        tallied(rows).len() == 0 <==> shaky_total(rows) == 0,
{
    lemma_tallied_is_bump_all(rows);
    let ks = all_shaky(rows);
    lemma_bump_all_counts(ks);
    lemma_occurrences_le_len(ks, q);
    assert(count_of(tallied(rows), q) == occurrences(ks, q));
    assert(lookup(tallied(rows), q) is Some <==> occurrences(ks, q) > 0);
    let t = tallied(rows);
    if t.len() == 0 {
        if ks.len() > 0 {
            lemma_occurrences_le_len(ks, ks.last());
            assert(lookup(t, ks.last()) is Some);
            lemma_key_index(t, ks.last());
        }
    } else {
        lemma_key_index(t, t[0].0);
        lemma_key_index_unique(t, t[0].0, 0);
        assert(lookup(t, t[0].0) is Some);
        assert(occurrences(ks, t[0].0) > 0);
        lemma_occurrences_le_len(ks, t[0].0);
    }
}

/// The keys in the order they first occur.
pub open spec fn first_occurrences(keys: Seq<Seq<char>>) -> Seq<Seq<char>>
    decreases keys.len(),
{
    if keys.len() == 0 {
        Seq::empty()
    } else {
        let s = first_occurrences(keys.drop_last());
        if s.contains(keys.last()) {
            s
        } else {
            s.push(keys.last())
        }
    }
}

/// The keys of the entries, in order.
pub open spec fn keys_of(entries: Seq<(Seq<char>, usize)>) -> Seq<Seq<char>> {
    entries.map_values(|e: (Seq<char>, usize)| e.0)
}

proof fn lemma_bump_keys(entries: Seq<(Seq<char>, usize)>, k: Seq<char>)
    ensures
        keys_of(bump(entries, k)) == if keys_of(entries).contains(k) {
            keys_of(entries)
        } else {
            keys_of(entries).push(k)
        },
{
    lemma_key_index(entries, k);
    let ks = keys_of(entries);
    match key_index(entries, k) {
        Some(i) => {
            assert(ks[i] == k);
            assert(keys_of(bump(entries, k)) =~= ks);
        },
        None => {
            assert forall|j: int| 0 <= j < ks.len() implies ks[j] != k by {
                assert(ks[j] == entries[j].0);
            }
            assert(keys_of(bump(entries, k)) =~= ks.push(k));
        },
    }
}

proof fn lemma_bump_all_keys(keys: Seq<Seq<char>>)
    ensures
        keys_of(bump_all(Seq::empty(), keys)) == first_occurrences(keys),
    decreases keys.len(),
{
    if keys.len() == 0 {
        assert(keys_of(Seq::<(Seq<char>, usize)>::empty()) =~= Seq::<Seq<char>>::empty());
    } else {
        lemma_bump_all_keys(keys.drop_last());
        lemma_bump_keys(bump_all(Seq::empty(), keys.drop_last()), keys.last());
    }
}

/// The per-question counts list the questions in the order each was first
/// shaky, in the first row that named it.
pub proof fn questions_are_counted_in_first_shaky_order(rows: Seq<Answered>)
    ensures
        keys_of(tallied(rows)) == first_occurrences(all_shaky(rows)),
{
    lemma_tallied_is_bump_all(rows);
    lemma_bump_all_keys(all_shaky(rows));
}

proof fn lemma_failed_count(items: Seq<Item>)
    ensures
        failed_count(items) <= items.len(),
        failed_count(items) == 0 <==> forall|i: int| 0 <= i < items.len() ==> (#[trigger] items[i]).error is None,
        failed_count(items) == items.len() <==> forall|i: int| 0 <= i < items.len() ==> (#[trigger] items[i]).error is Some,
    decreases items.len(),
{
    if items.len() > 0 {
        let rest = items.drop_last();
        lemma_failed_count(rest);
        assert forall|i: int| 0 <= i < rest.len() implies #[trigger] rest[i] == items[i] by {}
        if failed_count(items) == 0 {
            assert forall|i: int| 0 <= i < items.len() implies (#[trigger] items[i]).error is None by {
                if i < rest.len() { assert(rest[i] == items[i]); }
            }
        }
        if failed_count(items) == items.len() {
            assert forall|i: int| 0 <= i < items.len() implies (#[trigger] items[i]).error is Some by {
                if i < rest.len() { assert(rest[i] == items[i]); }
            }
        }
        if forall|i: int| 0 <= i < items.len() ==> (#[trigger] items[i]).error is None {
            assert(items[items.len() - 1].error is None);
        }
        if forall|i: int| 0 <= i < items.len() ==> (#[trigger] items[i]).error is Some {
            assert(items[items.len() - 1].error is Some);
        }
    }
}

/// A run exits 1 exactly when nothing was answered (every row failed, or
/// there were no rows), 2 exactly when some rows failed and some were
/// answered, and cleanly exactly when every row was answered.
pub proof fn exit_code_distinguishes_total_failure_from_partial(rows: Seq<Answered>)
    ensures
        exit_code_for(rows.len() as int, failed_count(items_of(rows)) as int) is None <==> (rows.len() > 0
            && forall|i: int| 0 <= i < rows.len() ==> (#[trigger] rows[i]).item.error is None),
        exit_code_for(rows.len() as int, failed_count(items_of(rows)) as int) == Some(1i32) <==> forall|i: int|
            0 <= i < rows.len() ==> (#[trigger] rows[i]).item.error is Some,
        exit_code_for(rows.len() as int, failed_count(items_of(rows)) as int) == Some(2i32) <==> ((exists|i: int|
            0 <= i < rows.len() && (#[trigger] rows[i]).item.error is None) && (exists|j: int|
            0 <= j < rows.len() && (#[trigger] rows[j]).item.error is Some)),
{
    let items = items_of(rows);
    let n = rows.len() as int;
    let f = failed_count(items) as int;
    lemma_failed_count(items);
    assert(items.len() == n);
    assert forall|i: int| 0 <= i < n implies #[trigger] items[i] == rows[i].item by {}
    let all_ok = forall|i: int| 0 <= i < n ==> (#[trigger] rows[i]).item.error is None;
    let all_failed = forall|i: int| 0 <= i < n ==> (#[trigger] rows[i]).item.error is Some;
    assert(all_ok <==> f == 0) by {
        if all_ok {
            assert forall|i: int| 0 <= i < items.len() implies (#[trigger] items[i]).error is None by {
                assert(items[i] == rows[i].item);
            }
        }
        if f == 0 {
            assert forall|i: int| 0 <= i < n implies (#[trigger] rows[i]).item.error is None by {
                assert(items[i] == rows[i].item);
            }
        }
    }
    assert(all_failed <==> f == n) by {
        if all_failed {
            assert forall|i: int| 0 <= i < items.len() implies (#[trigger] items[i]).error is Some by {
                assert(items[i] == rows[i].item);
            }
        }
        if f == n {
            assert forall|i: int| 0 <= i < n implies (#[trigger] rows[i]).item.error is Some by {
                assert(items[i] == rows[i].item);
            }
        }
    }
    assert((exists|i: int| 0 <= i < n && (#[trigger] rows[i]).item.error is None) <==> !all_failed);
    assert((exists|j: int| 0 <= j < n && (#[trigger] rows[j]).item.error is Some) <==> !all_ok);
}

/// What noting a version keeps: the versions already seen, plus the new one.
proof fn lemma_noted(seen: Seq<Seq<char>>, model: Option<Seq<char>>, x: Seq<char>)
    ensures
        noted(seen, model).contains(x) <==> (seen.contains(x) || model == Some(x)),
        seen.no_duplicates() ==> noted(seen, model).no_duplicates(),
        seen.len() > 0 ==> noted(seen, model)[0] == seen[0],
        seen.len() == 0 && model is Some ==> noted(seen, model)[0] == model->0,
{
    if let Some(m) = model {
        if !seen.contains(m) {
            let t = seen.push(m);
            assert(t[seen.len() as int] == m);
            if t.contains(x) && x != m {
                let k = choose|k: int| 0 <= k < t.len() && t[k] == x;
                assert(seen[k] == x);
            }
            if seen.contains(x) {
                let k = choose|k: int| 0 <= k < seen.len() && seen[k] == x;
                assert(t[k] == x);
            }
        }
    }
}

/// Noting a version never lists one twice, keeps every version already
/// seen where it was (so the first never changes once set), adds at most
/// one, and noting the same version again changes nothing.
pub proof fn noting_a_version_keeps_first_seen_order(seen: Seq<Seq<char>>, model: Option<Seq<char>>)
    ensures
        seen.no_duplicates() ==> noted(seen, model).no_duplicates(),
        seen.is_prefix_of(noted(seen, model)),
        noted(seen, model).len() <= seen.len() + 1,
        noted(noted(seen, model), model) == noted(seen, model),
{
    if let Some(m) = model {
        lemma_noted(seen, model, m);
        if !seen.contains(m) {
            let t = seen.push(m);
            assert(t[seen.len() as int] == m);
            assert(t.contains(m));
        }
        if seen.no_duplicates() {
            lemma_noted(seen, model, m);
        }
    }
}

/// The versions reported are exactly the ones some row was answered by,
/// each once, and the first of them is the version of the first row that
/// was answered at all.
pub proof fn reported_versions_are_those_that_answered(rows: Seq<Answered>, m: Seq<char>)
    ensures
        first_seen(rows).contains(m) <==> exists|i: int|
            0 <= i < rows.len() && opt_view((#[trigger] rows[i]).model) == Some(m),
        first_seen(rows).no_duplicates(),
        first_seen(rows).len() > 0 ==> exists|i: int|
            0 <= i < rows.len() && opt_view((#[trigger] rows[i]).model) == Some(first_seen(rows)[0])
                && forall|j: int| 0 <= j < i ==> (#[trigger] rows[j]).model is None,
    decreases rows.len(),
{
    if rows.len() > 0 {
        let rest = rows.drop_last();
        let last = rows.last();
        reported_versions_are_those_that_answered(rest, m);
        assert forall|i: int| 0 <= i < rest.len() implies #[trigger] rest[i] == rows[i] by {}
        let s = first_seen(rest);
        if s.len() > 0 {
            reported_versions_are_those_that_answered(rest, s[0]);
            let i = choose|i: int|
                0 <= i < rest.len() && opt_view((#[trigger] rest[i]).model) == Some(s[0])
                    && forall|j: int| 0 <= j < i ==> (#[trigger] rest[j]).model is None;
            assert(rows[i] == rest[i]);
            assert forall|j: int| 0 <= j < i implies (#[trigger] rows[j]).model is None by {
                assert(rows[j] == rest[j]);
            }
            assert(first_seen(rows)[0] == s[0]);
        } else {
            assert forall|i: int| 0 <= i < rest.len() implies (#[trigger] rest[i]).model is None by {
                if rest[i].model is Some {
                    reported_versions_are_those_that_answered(rest, rest[i].model->0@);
                    assert(opt_view(rest[i].model) == Some(rest[i].model->0@));
                }
            }
            if first_seen(rows).len() > 0 {
                let k = rows.len() - 1;
                assert(opt_view(rows[k].model) == Some(first_seen(rows)[0]));
                assert forall|j: int| 0 <= j < k implies (#[trigger] rows[j]).model is None by {
                    assert(rows[j] == rest[j]);
                }
            }
        }
        lemma_noted(s, opt_view(last.model), m);
        if s.len() > 0 {
            lemma_noted(s, opt_view(last.model), s[0]);
        }
        if exists|i: int| 0 <= i < rows.len() && opt_view((#[trigger] rows[i]).model) == Some(m) {
            let i = choose|i: int| 0 <= i < rows.len() && opt_view((#[trigger] rows[i]).model) == Some(m);
            if i < rest.len() {
                assert(rest[i] == rows[i]);
            }
        }
        if first_seen(rows).contains(m) && !s.contains(m) {
            assert(opt_view(rows[rows.len() - 1].model) == Some(m));
        }
        if s.contains(m) {
            let i = choose|i: int| 0 <= i < rest.len() && opt_view((#[trigger] rest[i]).model) == Some(m);
            assert(rows[i] == rest[i]);
        }
    }
}

/// Every row adds its own tokens to the run's totals, whatever else is true
/// of it (uncertain, failed, first or last): a run of no rows spent nothing,
/// one more row adds exactly that row's input and output tokens, and the
/// totals of two runs joined are the sums of their totals.
pub proof fn every_row_counts_toward_the_token_totals(rows: Seq<Answered>, more: Seq<Answered>, row: Answered)
    ensures
        input_total(Seq::<Answered>::empty()) == 0,
        output_total(Seq::<Answered>::empty()) == 0,
        input_total(rows.push(row)) == input_total(rows) + row.usage.input_tokens,
        output_total(rows.push(row)) == output_total(rows) + row.usage.output_tokens,
        input_total(rows + more) == input_total(rows) + input_total(more),
        output_total(rows + more) == output_total(rows) + output_total(more),
{
    assert(rows.push(row).drop_last() =~= rows);
    lemma_totals_concat(rows, more);
}

proof fn lemma_totals_concat(rows: Seq<Answered>, more: Seq<Answered>)
    ensures
        input_total(rows + more) == input_total(rows) + input_total(more),
        output_total(rows + more) == output_total(rows) + output_total(more),
    decreases more.len(),
{
    if more.len() == 0 {
        assert(rows + more =~= rows);
    } else {
        lemma_totals_concat(rows, more.drop_last());
        assert((rows + more).drop_last() =~= rows + more.drop_last());
        assert((rows + more).last() == more.last());
    }
}

} // verus!
