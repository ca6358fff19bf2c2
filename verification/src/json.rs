//! Lists in JSON.

use vstd::prelude::*;
use crate::order;
use crate::text;

verus! {

/// The JSON array that `serde_json` writes for a list of strings.
pub uninterp spec fn json_of_texts(list: Seq<Seq<char>>) -> Seq<char>;

/// The strings that `serde_json` reads from a text, or the text of the error that it
/// reports.
pub uninterp spec fn texts_of_json(document: Seq<char>) -> Result<Seq<Seq<char>>, Seq<char>>;

/// The JSON array that `serde_json` writes for a list of integers.
pub uninterp spec fn json_of_ints(list: Seq<i32>) -> Seq<char>;

/// The integers that `serde_json` reads from a text, or the text of the error that it
/// reports.
pub uninterp spec fn ints_of_json(document: Seq<char>) -> Result<Seq<i32>, Seq<char>>;

/// `serde_json::to_string` of a list of strings, which cannot fail: the same list
/// gives the same text, and reading the text gives the list back.
#[verifier::external_body]
pub(crate) fn write_texts(list: &Vec<String>) -> (out: String)
    ensures
        out@ == json_of_texts(text::views(list@)),
        texts_of_json(out@) == (Ok::<Seq<Seq<char>>, Seq<char>>(text::views(list@))),
{
    serde_json::to_string(list).unwrap()
}

/// `serde_json::from_str` into a list of strings: the same text gives the same
/// list, or the same text of an error.
#[verifier::external_body]
pub(crate) fn read_texts(document: &str) -> (out: Result<Vec<String>, String>)
    ensures
        match out {
            Ok(list) => texts_of_json(document@) == Ok::<Seq<Seq<char>>, Seq<char>>(
                text::views(list@),
            ),
            Err(e) => texts_of_json(document@) == Err::<Seq<Seq<char>>, Seq<char>>(e@),
        },
{
    serde_json::from_str(document).map_err(|e| e.to_string())
}

/// `serde_json::to_string` of a list of integers, which cannot fail: the same list
/// gives the same text, and reading the text gives the list back.
#[verifier::external_body]
pub(crate) fn write_ints(list: &Vec<i32>) -> (out: String)
    ensures
        out@ == json_of_ints(list@),
        ints_of_json(out@) == (Ok::<Seq<i32>, Seq<char>>(list@)),
{
    serde_json::to_string(list).unwrap()
}

/// `serde_json::from_str` into a list of integers: the same text gives the same
/// list, or the same text of an error.
#[verifier::external_body]
pub(crate) fn read_ints(document: &str) -> (out: Result<Vec<i32>, String>)
    ensures
        match out {
            Ok(list) => ints_of_json(document@) == Ok::<Seq<i32>, Seq<char>>(list@),
            Err(e) => ints_of_json(document@) == Err::<Seq<i32>, Seq<char>>(e@),
        },
{
    serde_json::from_str(document).map_err(|e| e.to_string())
}

/// The JSON object that `serde_json` writes for a map from strings to integers, whose
/// entries are listed by ascending key.
pub uninterp spec fn json_of_counts(entries: Seq<(Seq<char>, i64)>) -> Seq<char>;

/// Entries with the characters of their keys.
pub open spec fn entry_views(entries: Seq<(String, i64)>) -> Seq<(Seq<char>, i64)> {
    entries.map_values(|e: (String, i64)| (e.0@, e.1))
}

/// `serde_json::to_string` of a `BTreeMap` from strings to integers, which cannot fail:
/// the same entries give the same text.
#[verifier::external_body]
pub(crate) fn write_counts(entries: &Vec<(String, i64)>) -> (out: String)
    requires
        forall|i: int, j: int|
            #![trigger entries@[i], entries@[j]]
            0 <= i < j < entries@.len() ==> order::text_before(entries@[i].0@, entries@[j].0@),
    ensures
        out@ == json_of_counts(entry_views(entries@)),
{
    let map: std::collections::BTreeMap<String, i64> = entries.iter().cloned().collect();
    serde_json::to_string(&map).unwrap()
}

} // verus!
