//! Where a command's items come from, stated rather than assumed.
//!
//! Reading standard input when nobody asked for it is safe only on a
//! transport that owns standard input, and the command line is the only one
//! that does. Over MCP stdio that stream carries JSON-RPC frames, so the
//! source has to be declared: exactly one of inline items, a file, or
//! standard input.

use vstd::prelude::*;

verus! {

/// What a command rejected before doing any work, in its own words.
#[derive(Debug)]
pub enum Error {
    /// The arguments given cannot be acted on.
    Invalid(String),
}

impl Error {
    /// The message a caller reads.
    pub fn message(&self) -> (text: String)
        ensures
            match self {
                Error::Invalid(m) => text@ == m@,
            },
    {
        match self {
            Error::Invalid(m) => m.clone(),
        }
    }
}

/// Where the items are coming from.
#[derive(Debug, PartialEq, Eq)]
pub enum Items {
    /// Passed as arguments. The only source an MCP client can use.
    Inline(Vec<String>),
    /// A JSON array in a file, or on stdin when the path is `-`.
    File(String),
    /// One item per line on standard input.
    StdinLines,
}

/// Said when no source was given. Names all three, because the right one
/// depends on how the command was reached and the caller knows that.
pub const NONE: &'static str = "No items were given. Pass --items to supply them directly, --items-file to read a JSON array, or --stdin to read one per line from standard input. Standard input is never read unless --stdin is passed, because over MCP that stream carries the protocol.";

/// Said when several were. Names all three again so the caller can see which
/// pair collided without re-reading the help.
pub const MANY: &'static str = "Pass exactly one of --items, --items-file or --stdin.";

/// Said when the inline items were all blank.
pub const EMPTY_INLINE: &'static str = "`--items` held no items";

/// How many of the three sources were given.
pub open spec fn sources_given(inline_given: bool, file_given: bool, stdin: bool) -> nat {
    (if inline_given { 1nat } else { 0nat }) + (if file_given { 1nat } else { 0nat }) + (if stdin {
        1nat
    } else {
        0nat
    })
}

/// Picks the one source that was asked for.
///
/// Refuses with [`NONE`] when no source is given, and with [`MANY`] when more
/// than one is.
pub fn resolve(inline: &[String], file: Option<&str>, stdin: bool) -> (r: Result<Items, Error>)
    ensures
        r is Ok <==> sources_given(inline@.len() > 0, file is Some, stdin) == 1,
        sources_given(inline@.len() > 0, file is Some, stdin) == 0 ==> (r matches Err(
            Error::Invalid(m),
        ) && m@ == NONE@),
        sources_given(inline@.len() > 0, file is Some, stdin) >= 2 ==> (r matches Err(
            Error::Invalid(m),
        ) && m@ == MANY@),
        (r is Ok && inline@.len() > 0) ==> (r matches Ok(Items::Inline(v)) && v@ == inline@),
        (r is Ok && file is Some) ==> (r matches Ok(Items::File(p)) && p@ == file->0@),
        (r is Ok && stdin) ==> (r matches Ok(Items::StdinLines)),
{
    let given = inline.len() > 0;
    match (given, file, stdin) {
        (false, None, false) => Err(Error::Invalid(NONE.to_owned())),
        (true, None, false) => Ok(Items::Inline(copy_all(inline))),
        (false, Some(path), false) => Ok(Items::File(path.to_owned())),
        (false, None, true) => Ok(Items::StdinLines),
        _ => Err(Error::Invalid(MANY.to_owned())),
    }
}

/// The items of a slice, copied into a vector of their own.
pub(crate) fn copy_all(items: &[String]) -> (out: Vec<String>)
    ensures
        out@ == items@,
{
    let mut out: Vec<String> = Vec::new();
    let mut i: usize = 0;
    while i < items.len()
        invariant
            i <= items@.len(),
            out@ == items@.subrange(0, i as int),
        decreases items@.len() - i,
    {
        out.push(items[i].clone());
        i = i + 1;
    }
    assert(items@.subrange(0, items@.len() as int) =~= items@);
    out
}

/// Whether `c` has Unicode's `White_Space` property: the tab through the
/// carriage return, the space, U+0085, U+00A0, U+1680, U+2000 through
/// U+200A, U+2028, U+2029, U+202F, U+205F and U+3000.
pub open spec fn is_whitespace(c: char) -> bool {
    let u = c as u32;
    ||| 0x9 <= u <= 0xD
    ||| u == 0x20
    ||| u == 0x85
    ||| u == 0xA0
    ||| u == 0x1680
    ||| 0x2000 <= u <= 0x200A
    ||| u == 0x2028
    ||| u == 0x2029
    ||| u == 0x202F
    ||| u == 0x205F
    ||| u == 0x3000
}

/// Whether `c` has the `White_Space` property, as `char::is_whitespace`
/// answers.
pub fn char_is_whitespace(c: char) -> (w: bool)
    ensures
        w == is_whitespace(c),
{
    let u = c as u32;
    (0x9 <= u && u <= 0xD) || u == 0x20 || u == 0x85 || u == 0xA0 || u == 0x1680 || (0x2000
        <= u && u <= 0x200A) || u == 0x2028 || u == 0x2029 || u == 0x202F || u == 0x205F || u
        == 0x3000
}

/// A string with nothing but whitespace in it: what trims to nothing.
pub open spec fn blank(s: Seq<char>) -> bool {
    forall|i: int| 0 <= i < s.len() ==> is_whitespace(#[trigger] s[i])
}

/// Whether `s` holds nothing but whitespace.
pub fn is_blank(s: &str) -> (b: bool)
    ensures
        b == blank(s@),
{
    broadcast use vstd::string::axiom_spec_iter;
    for c in it: s.chars()
        invariant
            it.seq() == s@,
            forall|i: int| 0 <= i < it.index() ==> is_whitespace(#[trigger] s@[i]),
    {
        if !char_is_whitespace(c) {
            return false;
        }
    }
    true
}

/// The items that are not blank, in their order.
pub open spec fn nonblank(items: Seq<String>) -> Seq<String> {
    items.filter(|s: String| !blank(s@))
}

/// Inline items, blank ones dropped, the way the other two sources treat
/// them. Refuses with [`EMPTY_INLINE`] when nothing is left.
pub fn inline(items: Vec<String>) -> (r: Result<Vec<String>, Error>)
    ensures
        r is Ok <==> nonblank(items@).len() > 0,
        r matches Ok(kept) ==> kept@ == nonblank(items@),
        r matches Err(Error::Invalid(m)) ==> m@ == EMPTY_INLINE@,
{
    let mut kept: Vec<String> = Vec::new();
    let mut i: usize = 0;
    while i < items.len()
        invariant
            i <= items@.len(),
            kept@ == nonblank(items@.subrange(0, i as int)),
        decreases items@.len() - i,
    {
        let item = items[i].clone();
        proof {
            let pred = |s: String| !blank(s@);
            assert(items@.subrange(0, i + 1) =~= items@.subrange(0, i as int).push(items@[i as int]));
            items@.subrange(0, i as int).lemma_filter_push(items@[i as int], pred);
        }
        if !is_blank(item.as_str()) {
            kept.push(item);
        }
        i = i + 1;
    }
    assert(items@.subrange(0, items@.len() as int) =~= items@);
    if kept.len() == 0 {
        return Err(Error::Invalid(EMPTY_INLINE.to_owned()));
    }
    Ok(kept)
}

/// An item is dropped exactly when every character of it is whitespace,
/// whatever script it is written in: nothing is kept of no items, one more
/// item holding any character that is not whitespace, at any position, is
/// kept last, and one more item of nothing but whitespace (the empty item
/// included) is dropped.
pub proof fn only_all_whitespace_items_are_dropped(items: Seq<String>, item: String, k: int)
    ensures
        nonblank(Seq::<String>::empty()).len() == 0,
        (0 <= k < item@.len() && !is_whitespace(item@[k])) ==> nonblank(items.push(item)) == nonblank(
            items,
        ).push(item),
        (forall|j: int| 0 <= j < item@.len() ==> is_whitespace(#[trigger] item@[j])) ==> nonblank(
            items.push(item),
        ) == nonblank(items),
{
    let pred = |s: String| !blank(s@);
    items.lemma_filter_push(item, pred);
    reveal_with_fuel(Seq::filter, 1);
}

} // verus!
