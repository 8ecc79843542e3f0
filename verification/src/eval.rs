//! Items that already carry a known answer, and what can be measured from
//! them before any question is asked.
//!
//! An eval needs the answer to come from somewhere other than the model
//! being evaluated, so labels arrive as data. A set of labels is worth
//! measuring against only if it holds two items that disagree, and a number
//! measured from it is only as good as its thinner side.

use vstd::prelude::*;

use crate::label::{same_label, Label};
use crate::source::Error;
use crate::usage::{saturated, Usage};

verus! {

/// One item and the answer it is already known to have.
pub struct Labelled {
    /// The text to ask about.
    pub item: String,
    /// What the answer should be.
    pub label: Label,
}

/// Said when fewer than two items were given.
pub const TOO_FEW: &'static str = "an eval needs at least two labelled items";

/// Said when every item carries the same label.
pub const ONE_LABEL: &'static str = "every item carries the same label, so nothing can be separated from anything";

/// Whether some item's label differs from the first item's.
pub open spec fn labels_differ(rows: Seq<Labelled>) -> bool {
    exists|i: int| 0 <= i < rows.len() && !same_label(#[trigger] rows[i].label, rows[0].label)
}

/// Rejects a set nothing could be measured against: fewer than two items,
/// or every item carrying the same label.
pub fn check(rows: &[Labelled]) -> (r: Result<(), Error>)
    ensures
        r is Ok <==> (rows@.len() >= 2 && labels_differ(rows@)),
        rows@.len() < 2 ==> (r matches Err(Error::Invalid(m)) && m@ == TOO_FEW@),
        (rows@.len() >= 2 && !labels_differ(rows@)) ==> (r matches Err(Error::Invalid(m))
            && m@ == ONE_LABEL@),
{
    if rows.len() < 2 {
        return Err(Error::Invalid(TOO_FEW.to_owned()));
    }
    let first = &rows[0].label;
    let mut i: usize = 0;
    while i < rows.len()
        invariant
            2 <= rows@.len(),
            i <= rows@.len(),
            *first == rows@[0].label,
            forall|k: int| 0 <= k < i ==> same_label(#[trigger] rows@[k].label, rows@[0].label),
        decreases rows@.len() - i,
    {
        if !rows[i].label.same(first) {
            return Ok(());
        }
        i = i + 1;
    }
    Err(Error::Invalid(ONE_LABEL.to_owned()))
}

/// How many of `scored` carry a positive label.
pub open spec fn positives<P>(scored: Seq<(P, bool)>) -> nat
    decreases scored.len(),
{
    if scored.len() == 0 {
        0
    } else {
        positives(scored.drop_last()) + if scored.last().1 {
            1nat
        } else {
            0nat
        }
    }
}

/// The positives or the negatives, whichever are fewer.
pub open spec fn thinner<P>(scored: Seq<(P, bool)>) -> int {
    if positives(scored) <= scored.len() - positives(scored) {
        positives(scored) as int
    } else {
        scored.len() - positives(scored)
    }
}

/// How many items are on the thinner side of the labels: the positives or
/// the negatives, whichever are fewer. Only the labels are read.
pub fn smaller_side<P>(scored: &[(P, bool)]) -> (n: usize)
    ensures
        n as int == thinner(scored@),
{
    let mut count: usize = 0;
    let mut i: usize = 0;
    while i < scored.len()
        invariant
            i <= scored@.len(),
            count == positives(scored@.subrange(0, i as int)),
            count <= i,
        decreases scored@.len() - i,
    {
        assert(scored@.subrange(0, i + 1).drop_last() =~= scored@.subrange(0, i as int));
        if scored[i].1 {
            count = count + 1;
        }
        i = i + 1;
    }
    assert(scored@.subrange(0, scored@.len() as int) =~= scored@);
    let rest = scored.len() - count;
    if count <= rest {
        count
    } else {
        rest
    }
}

/// Every label turned over.
pub open spec fn flipped<P>(scored: Seq<(P, bool)>) -> Seq<(P, bool)> {
    scored.map_values(|p: (P, bool)| (p.0, !p.1))
}

proof fn lemma_positives_bound<P>(scored: Seq<(P, bool)>)
    ensures
        positives(scored) <= scored.len(),
        positives(flipped(scored)) == scored.len() - positives(scored),
    decreases scored.len(),
{
    if scored.len() > 0 {
        lemma_positives_bound(scored.drop_last());
        assert(flipped(scored).drop_last() =~= flipped(scored.drop_last()));
    }
}

/// The thinner side is never more than half the set, and turning every
/// label over leaves it the same size: it measures the labels' balance, not
/// which side is called positive.
pub proof fn the_thinner_side_ignores_which_side_is_which<P>(scored: Seq<(P, bool)>)
    ensures
        thinner(scored) * 2 <= scored.len(),
        0 <= thinner(scored),
        thinner(flipped(scored)) == thinner(scored),
{
    lemma_positives_bound(scored);
}

/// The one question an eval measures, before it is put into the wire
/// vocabulary.
#[derive(Debug, PartialEq, Eq)]
pub enum Asked {
    /// A choice between `labels`, asked with `instructions`.
    Choice {
        /// What to ask; empty when no `--noul` text was given.
        instructions: String,
        /// The labels to choose between, in the order given.
        labels: Vec<String>,
    },
    /// A yes/no question.
    Noul(String),
}

/// Said when neither a yes/no question nor a choice was given.
pub const NO_QUESTION: &'static str = "No question was given. Pass --noul, or --noul with --choice.";

/// The one question being measured: a choice when labels were given, with
/// the `--noul` text (or nothing) as its instructions; otherwise the yes/no
/// question; and an error when there is neither.
pub fn question(noul: Option<&str>, choice: &[String]) -> (r: Result<Asked, Error>)
    ensures
        choice@.len() > 0 ==> (r matches Ok(Asked::Choice { instructions, labels }) && labels@ == choice@
            && instructions@ == (match noul {
            Some(t) => t@,
            None => Seq::<char>::empty(),
        })),
        (choice@.len() == 0 && noul is Some) ==> (r matches Ok(Asked::Noul(text)) && text@ == noul->0@),
        (choice@.len() == 0 && noul is None) ==> (r matches Err(Error::Invalid(m)) && m@ == NO_QUESTION@),
{
    if choice.len() > 0 {
        let instructions = match noul {
            Some(text) => text.to_owned(),
            None => String::new(),
        };
        let mut labels: Vec<String> = Vec::new();
        let mut i: usize = 0;
        while i < choice.len()
            invariant
                i <= choice@.len(),
                labels@ == choice@.subrange(0, i as int),
            decreases choice@.len() - i,
        {
            labels.push(choice[i].clone());
            i = i + 1;
        }
        assert(choice@.subrange(0, choice@.len() as int) =~= choice@);
        return Ok(Asked::Choice { instructions, labels });
    }
    match noul {
        Some(text) => Ok(Asked::Noul(text.to_owned())),
        None => Err(Error::Invalid(NO_QUESTION.to_owned())),
    }
}

/// Whether `asked` is the question for the wording `text` over the labels
/// `choice`: a choice between them when there are any, a yes/no question
/// otherwise.
pub open spec fn asks(asked: Asked, text: Seq<char>, choice: Seq<String>) -> bool {
    if choice.len() > 0 {
        asked matches Asked::Choice { instructions, labels } && instructions@ == text && labels@ == choice
    } else {
        asked matches Asked::Noul(t) && t@ == text
    }
}

/// The questions an eval measures, so several wordings can be compared
/// against the same items in one run: one per `--noul` wording, in the order
/// given, each a choice between the labels when labels were given and a
/// yes/no question otherwise; a choice with no instructions when only labels
/// were given; and an error when there is neither.
pub fn questions(noul: &[String], choice: &[String]) -> (r: Result<Vec<Asked>, Error>)
    ensures
        (noul@.len() == 0 && choice@.len() == 0) ==> (r matches Err(Error::Invalid(m)) && m@
            == NO_QUESTION@),
        (noul@.len() == 0 && choice@.len() > 0) ==> (r matches Ok(v) && v@.len() == 1 && asks(
            v@[0],
            Seq::<char>::empty(),
            choice@,
        )),
        noul@.len() > 0 ==> (r matches Ok(v) && v@.len() == noul@.len() && forall|i: int|
            0 <= i < noul@.len() ==> asks(#[trigger] v@[i], noul@[i]@, choice@)),
{
    if noul.len() == 0 {
        let mut one: Vec<Asked> = Vec::new();
        match question(None, choice) {
            Ok(asked) => one.push(asked),
            Err(error) => return Err(error),
        }
        return Ok(one);
    }
    let mut all: Vec<Asked> = Vec::new();
    let mut i: usize = 0;
    while i < noul.len()
        invariant
            i <= noul@.len(),
            all@.len() == i,
            forall|k: int| 0 <= k < i ==> asks(#[trigger] all@[k], noul@[k]@, choice@),
        decreases noul@.len() - i,
    {
        match question(Some(noul[i].as_str()), choice) {
            Ok(asked) => all.push(asked),
            Err(error) => return Err(error),
        }
        i = i + 1;
    }
    Ok(all)
}

/// How many items got no answer.
pub open spec fn holes<A>(answers: Seq<Option<A>>) -> nat
    decreases answers.len(),
{
    if answers.len() == 0 {
        0
    } else {
        holes(answers.drop_last()) + if answers.last() is None {
            1nat
        } else {
            0nat
        }
    }
}

/// How many items could not be answered at all: the holes the replies left.
pub fn unanswered<A>(answers: &[Option<A>]) -> (n: usize)
    ensures
        n == holes(answers@),
{
    let mut n: usize = 0;
    let mut i: usize = 0;
    while i < answers.len()
        invariant
            i <= answers@.len(),
            n == holes(answers@.subrange(0, i as int)),
            n <= i,
        decreases answers@.len() - i,
    {
        assert(answers@.subrange(0, i + 1).drop_last() =~= answers@.subrange(0, i as int));
        if answers[i].is_none() {
            n = n + 1;
        }
        i = i + 1;
    }
    assert(answers@.subrange(0, answers@.len() as int) =~= answers@);
    n
}

/// The answers of the replies, in order.
pub open spec fn answers_of<A>(replies: Seq<(Option<A>, Usage, Option<String>)>) -> Seq<Option<A>> {
    replies.map_values(|r: (Option<A>, Usage, Option<String>)| r.0)
}

/// The input tokens the replies spent, summed exactly.
pub open spec fn reply_input<A>(replies: Seq<(Option<A>, Usage, Option<String>)>) -> nat
    decreases replies.len(),
{
    if replies.len() == 0 {
        0
    } else {
        reply_input(replies.drop_last()) + replies.last().1.input_tokens as nat
    }
}

/// The output tokens the replies spent, summed exactly.
pub open spec fn reply_output<A>(replies: Seq<(Option<A>, Usage, Option<String>)>) -> nat
    decreases replies.len(),
{
    if replies.len() == 0 {
        0
    } else {
        reply_output(replies.drop_last()) + replies.last().1.output_tokens as nat
    }
}

/// The model version of the first reply that names one.
pub open spec fn first_model<A>(replies: Seq<(Option<A>, Usage, Option<String>)>) -> Option<Seq<char>>
    decreases replies.len(),
{
    if replies.len() == 0 {
        None
    } else {
        match first_model(replies.drop_last()) {
            Some(m) => Some(m),
            None => match replies.last().2 {
                Some(m) => Some(m@),
                None => None,
            },
        }
    }
}

/// Folds the replies of every labelled item, in order: each item's answer
/// (a hole where the item failed, rather than an abort), the tokens spent
/// in total, stopping at the largest `u64`, and the first model version any
/// reply named.
pub fn gather<A>(replies: Vec<(Option<A>, Usage, Option<String>)>) -> (r: (
    Vec<Option<A>>,
    Usage,
    Option<String>,
))
    ensures
        r.0@ == answers_of(replies@),
        r.1.input_tokens == saturated(reply_input(replies@) as int),
        r.1.output_tokens == saturated(reply_output(replies@) as int),
        match r.2 {
            Some(m) => first_model(replies@) == Some(m@),
            None => first_model(replies@) is None,
        },
{
    broadcast use vstd::std_specs::vec::axiom_spec_into_iter;

    let ghost all = replies@;
    let mut usage = Usage::default();
    let mut model: Option<String> = None;
    let mut answers: Vec<Option<A>> = Vec::new();
    for reply in it: replies
        invariant
            it.seq() == all,
            answers@ == answers_of(all.subrange(0, it.index() as int)),
            usage.input_tokens == saturated(reply_input(all.subrange(0, it.index() as int)) as int),
            usage.output_tokens == saturated(reply_output(all.subrange(0, it.index() as int)) as int),
            match model {
                Some(m) => first_model(all.subrange(0, it.index() as int)) == Some(m@),
                None => first_model(all.subrange(0, it.index() as int)) is None,
            },
    {
        let ghost k = it.index() as int;
        proof {
            let prefix = all.subrange(0, k + 1);
            assert(prefix.drop_last() =~= all.subrange(0, k));
            assert(prefix.last() == reply);
        }
        let (answer, spent, seen) = reply;
        usage.input_tokens = usage.input_tokens.saturating_add(spent.input_tokens);
        usage.output_tokens = usage.output_tokens.saturating_add(spent.output_tokens);
        if model.is_none() {
            model = seen;
        }
        answers.push(answer);
        proof {
            assert(answers_of(all.subrange(0, k + 1)) =~= answers_of(all.subrange(0, k)).push(
                all[k].0,
            ));
        }
    }
    proof {
        assert(all.subrange(0, all.len() as int) =~= all);
    }
    (answers, usage, model)
}

/// A labelled set can be measured exactly when some row, at any position,
/// carries a label other than the first row's: such a row anywhere makes
/// the labels differ, one more row makes them differ exactly when they
/// already did or that row is unlike the first, and a set holding both `true`
/// and `false`, wherever they sit, always differs.
pub proof fn any_row_unlike_the_first_makes_a_set_measurable(rows: Seq<Labelled>, row: Labelled, i: int, j: int)
    ensures
        (0 <= i < rows.len() && !same_label(rows[i].label, rows[0].label)) ==> labels_differ(rows),
        rows.len() > 0 ==> (labels_differ(rows.push(row)) <==> (labels_differ(rows) || !same_label(row.label, rows[0].label))),
        (0 <= i < rows.len() && 0 <= j < rows.len() && rows[i].label == Label::Bool(true)
            && rows[j].label == Label::Bool(false)) ==> labels_differ(rows),
{
    if rows.len() > 0 {
        let t = rows.push(row);
        assert(t[0] == rows[0]);
        assert(t[rows.len() as int] == row);
        if labels_differ(rows) {
            let k = choose|k: int| 0 <= k < rows.len() && !same_label(#[trigger] rows[k].label, rows[0].label);
            assert(t[k] == rows[k]);
        }
        if labels_differ(t) {
            let k = choose|k: int| 0 <= k < t.len() && !same_label(#[trigger] t[k].label, t[0].label);
            if k < rows.len() {
                assert(t[k] == rows[k]);
            }
        }
    }
    if 0 <= i < rows.len() && 0 <= j < rows.len() && rows[i].label == Label::Bool(true)
        && rows[j].label == Label::Bool(false) {
        if same_label(rows[i].label, rows[0].label) {
            assert(rows[0].label == Label::Bool(true));
            assert(!same_label(rows[j].label, rows[0].label));
        }
    }
}

/// Every hole counts, wherever it sits: no answers have no holes, one more
/// missing answer adds exactly one, one more answer adds none, and the holes
/// of two lists joined are the sum of their holes.
pub proof fn every_missing_answer_is_counted<A>(answers: Seq<Option<A>>, more: Seq<Option<A>>, a: A)
    ensures
        holes(Seq::<Option<A>>::empty()) == 0,
        holes(answers.push(None)) == holes(answers) + 1,
        holes(answers.push(Some(a))) == holes(answers),
        holes(answers + more) == holes(answers) + holes(more),
        holes(answers) <= answers.len(),
{
    assert(answers.push(None).drop_last() =~= answers);
    assert(answers.push(Some(a)).drop_last() =~= answers);
    lemma_holes_concat(answers, more);
    lemma_holes_bound(answers);
}

proof fn lemma_holes_concat<A>(answers: Seq<Option<A>>, more: Seq<Option<A>>)
    ensures
        holes(answers + more) == holes(answers) + holes(more),
    decreases more.len(),
{
    if more.len() == 0 {
        assert(answers + more =~= answers);
    } else {
        lemma_holes_concat(answers, more.drop_last());
        assert((answers + more).drop_last() =~= answers + more.drop_last());
        assert((answers + more).last() == more.last());
    }
}

proof fn lemma_holes_bound<A>(answers: Seq<Option<A>>)
    ensures
        holes(answers) <= answers.len(),
    decreases answers.len(),
{
    if answers.len() > 0 {
        lemma_holes_bound(answers.drop_last());
    }
}

/// Every reply, the first included, adds its tokens to the eval's totals:
/// no replies spent nothing, one more reply adds exactly its input and
/// output tokens, and the totals of two runs of replies joined are the sums
/// of their totals.
pub proof fn every_reply_counts_toward_the_token_totals<A>(
    replies: Seq<(Option<A>, Usage, Option<String>)>,
    more: Seq<(Option<A>, Usage, Option<String>)>,
    reply: (Option<A>, Usage, Option<String>),
)
    ensures
        reply_input(Seq::<(Option<A>, Usage, Option<String>)>::empty()) == 0,
        reply_output(Seq::<(Option<A>, Usage, Option<String>)>::empty()) == 0,
        reply_input(replies.push(reply)) == reply_input(replies) + reply.1.input_tokens,
        reply_output(replies.push(reply)) == reply_output(replies) + reply.1.output_tokens,
        reply_input(replies + more) == reply_input(replies) + reply_input(more),
        reply_output(replies + more) == reply_output(replies) + reply_output(more),
{
    assert(replies.push(reply).drop_last() =~= replies);
    lemma_reply_totals_concat(replies, more);
}

proof fn lemma_reply_totals_concat<A>(
    replies: Seq<(Option<A>, Usage, Option<String>)>,
    more: Seq<(Option<A>, Usage, Option<String>)>,
)
    ensures
        reply_input(replies + more) == reply_input(replies) + reply_input(more),
        reply_output(replies + more) == reply_output(replies) + reply_output(more),
    decreases more.len(),
{
    if more.len() == 0 {
        assert(replies + more =~= replies);
    } else {
        lemma_reply_totals_concat(replies, more.drop_last());
        assert((replies + more).drop_last() =~= replies + more.drop_last());
        assert((replies + more).last() == more.last());
    }
}

} // verus!
