//! Search overrides of anime.

use vstd::prelude::*;
use crate::db::types::{AnimeSearchOverrideRecord, AnimeSearchOverrideSeed};
use crate::json;
use crate::text;

verus! {

/// The trimmed text, where anything is left of it.
pub open spec fn normalized(value: Option<Seq<char>>) -> Option<Seq<char>> {
    match value {
        Some(v) => if text::trim(v).len() == 0 {
            None
        } else {
            Some(text::trim(v))
        },
        None => None,
    }
}

/// The trimmed text, where anything is left of it.
pub fn normalize_optional_text(value: &Option<String>) -> (out: Option<String>)
    ensures
        text::opt(out) == normalized(text::opt(*value)),
{
    match value {
        Some(v) => {
            let trimmed = text::trimmed(v.as_str());
            if trimmed.as_str().is_empty() {
                None
            } else {
                Some(trimmed)
            }
        },
        None => None,
    }
}

/// What storing an override writes.
#[derive(Debug, PartialEq, Eq)]
pub struct OverrideWrite {
    pub media_id: String,
    pub preferred_title: Option<String>,
    pub extra_hints_json: String,
    pub note: Option<String>,
}

/// Whether what is written holds what a seed says: its texts trimmed, and its hints.
pub open spec fn keeps(write: OverrideWrite, seed: AnimeSearchOverrideSeed) -> bool {
    &&& write.media_id@ == text::trim(seed.media_id@)
    &&& text::opt(write.preferred_title) == normalized(text::opt(seed.preferred_title))
    &&& write.extra_hints_json@ == json::json_of_texts(text::views(seed.extra_hints@))
    &&& json::texts_of_json(write.extra_hints_json@) == Ok::<Seq<Seq<char>>, Seq<char>>(
        text::views(seed.extra_hints@),
    )
    &&& text::opt(write.note) == normalized(text::opt(seed.note))
}

/// What storing an override writes.
pub fn upsert_anime_search_override(seed: &AnimeSearchOverrideSeed) -> (out: OverrideWrite)
    ensures
        keeps(out, *seed),
{
    OverrideWrite {
        media_id: text::trimmed(seed.media_id.as_str()),
        preferred_title: normalize_optional_text(&seed.preferred_title),
        extra_hints_json: json::write_texts(&seed.extra_hints),
        note: normalize_optional_text(&seed.note),
    }
}

/// A row of the overrides.
#[derive(Debug, PartialEq, Eq)]
pub struct OverrideRow {
    pub media_id: String,
    pub preferred_title: Option<String>,
    pub extra_hints_json: String,
    pub note: Option<String>,
    pub created_at: String,
    pub updated_at: String,
}

/// Whether a record is that of a row.
pub open spec fn override_fits(record: AnimeSearchOverrideRecord, row: OverrideRow) -> bool {
    &&& record.media_id == row.media_id
    &&& record.preferred_title == row.preferred_title
    &&& json::texts_of_json(row.extra_hints_json@) == Ok::<Seq<Seq<char>>, Seq<char>>(
        text::views(record.extra_hints@),
    )
    &&& record.note == row.note
    &&& record.created_at == row.created_at
    &&& record.updated_at == row.updated_at
}

/// The record of a row; an error where its hints cannot be read.
pub fn map_anime_search_override_row(row: OverrideRow) -> (out: Result<
    AnimeSearchOverrideRecord,
    String,
>)
    ensures
        match out {
            Ok(record) => override_fits(record, row),
            Err(e) => json::texts_of_json(row.extra_hints_json@) == Err::<
                Seq<Seq<char>>,
                Seq<char>,
            >(e@),
        },
{
    match json::read_texts(row.extra_hints_json.as_str()) {
        Ok(extra_hints) => Ok(
            AnimeSearchOverrideRecord {
                media_id: row.media_id,
                preferred_title: row.preferred_title,
                extra_hints,
                note: row.note,
                created_at: row.created_at,
                updated_at: row.updated_at,
            },
        ),
        Err(e) => Err(e),
    }
}

/// The row that storing an override leaves in the database.
pub open spec fn is_stored(row: OverrideRow, write: OverrideWrite) -> bool {
    &&& row.media_id == write.media_id
    &&& row.preferred_title == write.preferred_title
    &&& row.extra_hints_json == write.extra_hints_json
    &&& row.note == write.note
}

/// An override that was stored is read back: its row is readable, and the record holds
/// what the seed said, with its texts trimmed.
pub proof fn lemma_stored_override_is_read_back(
    seed: AnimeSearchOverrideSeed,
    write: OverrideWrite,
    row: OverrideRow,
    record: AnimeSearchOverrideRecord,
)
    requires
        keeps(write, seed),
        is_stored(row, write),
        override_fits(record, row),
    ensures
        json::texts_of_json(row.extra_hints_json@) is Ok,
        record.media_id@ == text::trim(seed.media_id@),
        text::opt(record.preferred_title) == normalized(text::opt(seed.preferred_title)),
        text::views(record.extra_hints@) == text::views(seed.extra_hints@),
        text::opt(record.note) == normalized(text::opt(seed.note)),
{
}

/// Storing what was read changes nothing more: normal texts stay as they are.
pub proof fn lemma_normalized_stays(value: Option<Seq<char>>)
    ensures
        normalized(normalized(value)) == normalized(value),
{
    if value is Some {
        text::lemma_trim(value->0);
    }
}

/// A text is kept without the white space around it, and one that is nothing else is not
/// kept at all.
pub proof fn lemma_blank_texts_are_not_kept(value: Option<Seq<char>>)
    ensures
        normalized(value) is None <==> value is None || text::trim(value->0).len() == 0,
        normalized(value) matches Some(kept) ==> kept == text::trim(value->0) && !text::is_space(
            kept[0],
        ) && !text::is_space(kept.last()),
{
    if value is Some {
        text::lemma_trim(value->0);
    }
}

} // verus!
