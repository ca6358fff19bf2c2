//! Duplicate anime: folders with and without a tag for the same show, and shows
//! that Plex lists more than once.

use vstd::prelude::*;
use crate::commands::report::path_compare;
use crate::config::{ContentType, LibraryConfig};
use crate::models::{LinkRecord, LinkStatus};
use crate::order;
use crate::paths;
use crate::tables::PathMap;
use crate::text;

verus! {

/// A show for which there are folders with and without a tag.
#[derive(Debug, PartialEq, Eq)]
pub struct AnimeRootDuplicateGroup {
    pub normalized_title: String,
    pub tagged_roots: Vec<String>,
    pub untagged_roots: Vec<String>,
}

/// A row of a show that Plex lists more than once.
#[derive(Debug, PartialEq, Eq)]
pub struct PlexDuplicateShowRecord {
    pub title: String,
    pub original_title: String,
    pub year: Option<i64>,
    pub guid: String,
    pub guid_kind: String,
    pub live: bool,
}

/// A show that Plex lists more than once.
#[derive(Debug, Default, Clone, PartialEq, Eq)]
pub struct PlexDuplicateShowSample {
    pub title: String,
    pub original_title: String,
    pub year: Option<i64>,
    pub total_rows: usize,
    pub live_rows: usize,
    pub deleted_rows: usize,
    pub guid_kinds: Vec<String>,
    pub guids: Vec<String>,
}

/// The shows that Plex lists more than once.
#[derive(Debug, Default, PartialEq, Eq)]
pub struct PlexDuplicateSummary {
    pub total_groups: usize,
    pub hama_anidb_tvdb_groups: usize,
    pub other_groups: usize,
    pub all_groups: Vec<PlexDuplicateShowSample>,
    pub sample_groups: Vec<PlexDuplicateShowSample>,
}

// ---------------------------------------------------------------------------
// Shows that Plex lists more than once

/// Whether a row is one of the show.
pub open spec fn is_row_of(
    record: PlexDuplicateShowRecord,
    title: Seq<char>,
    original_title: Seq<char>,
    year: Option<i64>,
) -> bool {
    record.title@ == title && record.original_title@ == original_title && record.year == year
}

/// The rows of a show, in order.
pub open spec fn rows_of(
    records: Seq<PlexDuplicateShowRecord>,
    title: Seq<char>,
    original_title: Seq<char>,
    year: Option<i64>,
) -> Seq<PlexDuplicateShowRecord>
    decreases records.len(),
{
    if records.len() == 0 {
        records
    } else if is_row_of(records.last(), title, original_title, year) {
        rows_of(records.drop_last(), title, original_title, year).push(records.last())
    } else {
        rows_of(records.drop_last(), title, original_title, year)
    }
}

/// The number of rows that are live.
pub open spec fn live_count(rows: Seq<PlexDuplicateShowRecord>) -> nat
    decreases rows.len(),
{
    if rows.len() == 0 {
        0
    } else {
        live_count(rows.drop_last()) + if rows.last().live {
            1nat
        } else {
            0nat
        }
    }
}

/// Whether a group tells of all rows of its show.
pub open spec fn group_fits(
    group: PlexDuplicateShowSample,
    records: Seq<PlexDuplicateShowRecord>,
) -> bool {
    let rows = rows_of(records, group.title@, group.original_title@, group.year);
    &&& rows.len() > 0
    &&& group.total_rows == rows.len()
    &&& group.live_rows == live_count(rows)
    &&& group.deleted_rows == group.total_rows - group.live_rows
    &&& text::views(group.guids@) == order::distinct::<order::ByText>(
        rows.map_values(|r: PlexDuplicateShowRecord| r.guid@),
    )
    &&& text::views(group.guid_kinds@) == order::distinct::<order::ByText>(
        rows.map_values(|r: PlexDuplicateShowRecord| r.guid_kind@),
    )
}

/// Whether two groups are of the same show.
pub open spec fn same_show(a: PlexDuplicateShowSample, b: PlexDuplicateShowSample) -> bool {
    a.title@ == b.title@ && a.original_title@ == b.original_title@ && a.year == b.year
}

/// Whether one of the groups is of the row's show.
pub open spec fn lists_show(
    groups: Seq<PlexDuplicateShowSample>,
    record: PlexDuplicateShowRecord,
) -> bool {
    exists|k: int|
        0 <= k < groups.len() && is_row_of(
            record,
            (#[trigger] groups[k]).title@,
            groups[k].original_title@,
            groups[k].year,
        )
}

/// Whether the groups are the shows of the rows, each once.
pub open spec fn groups_fit(
    groups: Seq<PlexDuplicateShowSample>,
    records: Seq<PlexDuplicateShowRecord>,
) -> bool {
    &&& forall|k: int| 0 <= k < groups.len() ==> group_fits(#[trigger] groups[k], records)
    &&& forall|i: int| 0 <= i < records.len() ==> lists_show(groups, #[trigger] records[i])
    &&& forall|k: int, l: int|
        #![trigger groups[k], groups[l]]
        0 <= k < l < groups.len() ==> !same_show(groups[k], groups[l])
}

/// Whether a year comes before another; no year comes first.
pub open spec fn year_before(a: Option<i64>, b: Option<i64>) -> bool {
    match (a, b) {
        (None, Some(_)) => true,
        (Some(x), Some(y)) => x < y,
        _ => false,
    }
}

impl order::Ranked for PlexDuplicateShowSample {
    /// By title, original title and year.
    open spec fn precedes(&self, other: &Self) -> bool {
        if self.title@ != other.title@ {
            order::text_before(self.title@, other.title@)
        } else if self.original_title@ != other.original_title@ {
            order::text_before(self.original_title@, other.original_title@)
        } else {
            year_before(self.year, other.year)
        }
    }

    proof fn rank_order(a: &Self, b: &Self, c: &Self) {
        order::lemma_text_order(a.title@, b.title@, c.title@);
        order::lemma_text_order(a.original_title@, b.original_title@, c.original_title@);
    }

    fn ranks_before(&self, other: &Self) -> (b: bool) {
        if !text::text_eq(self.title.as_str(), other.title.as_str()) {
            order::comes_before(self.title.as_str(), other.title.as_str())
        } else if !text::text_eq(self.original_title.as_str(), other.original_title.as_str()) {
            order::comes_before(self.original_title.as_str(), other.original_title.as_str())
        } else {
            match self.year {
                None => other.year.is_some(),
                Some(x) => match other.year {
                    Some(y) => x < y,
                    None => false,
                },
            }
        }
    }
}

fn is_same_year(a: Option<i64>, b: Option<i64>) -> (same: bool)
    ensures
        same == (a == b),
{
    match a {
        None => b.is_none(),
        Some(x) => match b {
            Some(y) => x == y,
            None => false,
        },
    }
}

fn row_of(
    record: &PlexDuplicateShowRecord,
    title: &str,
    original_title: &str,
    year: Option<i64>,
) -> (b: bool)
    ensures
        b == is_row_of(*record, title@, original_title@, year),
{
    text::text_eq(record.title.as_str(), title) && text::text_eq(
        record.original_title.as_str(),
        original_title,
    ) && is_same_year(record.year, year)
}

proof fn lemma_rows_found(records: Seq<PlexDuplicateShowRecord>, i: int)
    requires
        0 <= i < records.len(),
    ensures
        rows_of(
            records,
            records[i].title@,
            records[i].original_title@,
            records[i].year,
        ).len() > 0,
    decreases records.len(),
{
    if i < records.len() - 1 {
        lemma_rows_found(records.drop_last(), i);
    }
}

fn build_group(records: &Vec<PlexDuplicateShowRecord>, at: usize) -> (group: PlexDuplicateShowSample)
    requires
        at < records@.len(),
    ensures
        group_fits(group, records@),
        is_row_of(records@[at as int], group.title@, group.original_title@, group.year),
{
    let title = records[at].title.clone();
    let original_title = records[at].original_title.clone();
    let year = records[at].year;
    let mut total_rows: usize = 0;
    let mut live_rows: usize = 0;
    let mut guids: Vec<String> = Vec::new();
    let mut guid_kinds: Vec<String> = Vec::new();
    let mut i: usize = 0;
    assert(records@.take(0) =~= Seq::<PlexDuplicateShowRecord>::empty());
    proof {
        let rows = rows_of(records@.take(0), title@, original_title@, year);
        assert(text::views(guids@) =~= rows.map_values(|r: PlexDuplicateShowRecord| r.guid@));
        assert(text::views(guid_kinds@) =~= rows.map_values(
            |r: PlexDuplicateShowRecord| r.guid_kind@,
        ));
    }
    while i < records.len()
        invariant
            i <= records@.len(),
            ({
                let rows = rows_of(records@.take(i as int), title@, original_title@, year);
                &&& total_rows == rows.len()
                &&& live_rows == live_count(rows)
                &&& text::views(guids@) == rows.map_values(|r: PlexDuplicateShowRecord| r.guid@)
                &&& text::views(guid_kinds@) == rows.map_values(
                    |r: PlexDuplicateShowRecord| r.guid_kind@,
                )
            }),
            live_rows <= total_rows <= i,
        decreases records@.len() - i,
    {
        let ghost rows = rows_of(records@.take(i as int), title@, original_title@, year);
        assert(records@.take(i + 1).drop_last() =~= records@.take(i as int));
        if row_of(&records[i], title.as_str(), original_title.as_str(), year) {
            total_rows += 1;
            if records[i].live {
                live_rows += 1;
            }
            text::push_text(&mut guids, records[i].guid.clone());
            text::push_text(&mut guid_kinds, records[i].guid_kind.clone());
            proof {
                let now = rows.push(records@[i as int]);
                assert(now.drop_last() =~= rows);
                assert(rows_of(records@.take(i + 1), title@, original_title@, year) == now);
                assert(text::views(guids@) =~= now.map_values(
                    |r: PlexDuplicateShowRecord| r.guid@,
                ));
                assert(text::views(guid_kinds@) =~= now.map_values(
                    |r: PlexDuplicateShowRecord| r.guid_kind@,
                ));
            }
        }
        i += 1;
    }
    proof {
        assert(records@.take(i as int) =~= records@);
        lemma_rows_found(records@, at as int);
    }
    PlexDuplicateShowSample {
        title,
        original_title,
        year,
        total_rows,
        live_rows,
        deleted_rows: total_rows - live_rows,
        guid_kinds: order::distinct_texts::<order::ByText>(guid_kinds),
        guids: order::distinct_texts::<order::ByText>(guids),
    }
}

fn find_show(groups: &Vec<PlexDuplicateShowSample>, record: &PlexDuplicateShowRecord) -> (b: bool)
    ensures
        b == lists_show(groups@, *record),
{
    let mut k: usize = 0;
    while k < groups.len()
        invariant
            k <= groups@.len(),
            forall|j: int|
                0 <= j < k ==> !is_row_of(
                    *record,
                    (#[trigger] groups@[j]).title@,
                    groups@[j].original_title@,
                    groups@[j].year,
                ),
        decreases groups@.len() - k,
    {
        if row_of(
            record,
            groups[k].title.as_str(),
            groups[k].original_title.as_str(),
            groups[k].year,
        ) {
            return true;
        }
        k += 1;
    }
    false
}

/// Whether a show was split between the two databases of an agent.
pub open spec fn is_hama_split(group: PlexDuplicateShowSample) -> bool {
    text::views(group.guid_kinds@).contains("hama-anidb"@) && text::views(
        group.guid_kinds@,
    ).contains("hama-tvdb"@)
}

fn lists_text(list: &Vec<String>, item: &str) -> (b: bool)
    ensures
        b == text::views(list@).contains(item@),
{
    let ghost all = text::views(list@);
    let mut i: usize = 0;
    while i < list.len()
        invariant
            i <= list@.len(),
            all == text::views(list@),
            forall|k: int| 0 <= k < i ==> #[trigger] all[k] != item@,
        decreases list@.len() - i,
    {
        if text::text_eq(list[i].as_str(), item) {
            assert(all[i as int] == item@);
            return true;
        }
        i += 1;
    }
    false
}

fn hama_split(group: &PlexDuplicateShowSample) -> (b: bool)
    ensures
        b == is_hama_split(*group),
{
    lists_text(&group.guid_kinds, "hama-anidb") && lists_text(&group.guid_kinds, "hama-tvdb")
}

/// The number of split shows.
pub open spec fn split_count(groups: Seq<PlexDuplicateShowSample>) -> nat
    decreases groups.len(),
{
    if groups.len() == 0 {
        0
    } else {
        split_count(groups.drop_last()) + if is_hama_split(groups.last()) {
            1nat
        } else {
            0nat
        }
    }
}

/// Whether two groups say the same.
pub open spec fn same_group(a: PlexDuplicateShowSample, b: PlexDuplicateShowSample) -> bool {
    &&& same_show(a, b)
    &&& a.total_rows == b.total_rows
    &&& a.live_rows == b.live_rows
    &&& a.deleted_rows == b.deleted_rows
    &&& text::views(a.guid_kinds@) == text::views(b.guid_kinds@)
    &&& text::views(a.guids@) == text::views(b.guids@)
}

fn copy_group(group: &PlexDuplicateShowSample) -> (out: PlexDuplicateShowSample)
    ensures
        same_group(out, *group),
{
    PlexDuplicateShowSample {
        title: group.title.clone(),
        original_title: group.original_title.clone(),
        year: group.year,
        total_rows: group.total_rows,
        live_rows: group.live_rows,
        deleted_rows: group.deleted_rows,
        guid_kinds: text::copy_texts(&group.guid_kinds),
        guids: text::copy_texts(&group.guids),
    }
}

/// The smaller of two numbers.
pub open spec fn at_most(n: nat, limit: nat) -> nat {
    if n <= limit {
        n
    } else {
        limit
    }
}

/// Groups the rows by show, in the order of title, original title and year, and shows
/// the first groups.
pub fn summarize_plex_duplicate_show_records(
    records: &Vec<PlexDuplicateShowRecord>,
    sample_limit: usize,
) -> (out: PlexDuplicateSummary)
    ensures
        groups_fit(out.all_groups@, records@),
        order::in_rank_order(out.all_groups@),
        out.total_groups == out.all_groups@.len(),
        out.hama_anidb_tvdb_groups == split_count(out.all_groups@),
        out.other_groups == out.total_groups - out.hama_anidb_tvdb_groups,
        out.sample_groups@.len() == at_most(out.all_groups@.len(), sample_limit as nat),
        forall|k: int|
            0 <= k < out.sample_groups@.len() ==> same_group(
                #[trigger] out.sample_groups@[k],
                out.all_groups@[k],
            ),
{
    let mut groups: Vec<PlexDuplicateShowSample> = Vec::new();
    let mut i: usize = 0;
    while i < records.len()
        invariant
            i <= records@.len(),
            forall|k: int| 0 <= k < groups@.len() ==> group_fits(#[trigger] groups@[k], records@),
            forall|j: int| 0 <= j < i ==> lists_show(groups@, #[trigger] records@[j]),
            forall|k: int, l: int|
                #![trigger groups@[k], groups@[l]]
                0 <= k < l < groups@.len() ==> !same_show(groups@[k], groups@[l]),
        decreases records@.len() - i,
    {
        let ghost before = groups@;
        if !find_show(&groups, &records[i]) {
            let group = build_group(records, i);
            groups.push(group);
            proof {
                assert(groups@[before.len() as int] == group);
                assert forall|j: int| 0 <= j < i implies lists_show(
                    groups@,
                    #[trigger] records@[j],
                ) by {
                    let k = choose|k: int|
                        0 <= k < before.len() && is_row_of(
                            records@[j],
                            (#[trigger] before[k]).title@,
                            before[k].original_title@,
                            before[k].year,
                        );
                    assert(groups@[k] == before[k]);
                }
                assert forall|k: int, l: int|
                    #![trigger groups@[k], groups@[l]]
                    0 <= k < l < groups@.len() implies !same_show(groups@[k], groups@[l]) by {
                    assert(groups@[k] == before[k]);
                    if l < before.len() {
                        assert(groups@[l] == before[l]);
                    } else if same_show(groups@[k], groups@[l]) {
                        assert(is_row_of(
                            records@[i as int],
                            before[k].title@,
                            before[k].original_title@,
                            before[k].year,
                        ));
                    }
                }
            }
        }
        i += 1;
    }
    let ghost unsorted = groups@;
    let all_groups = order::sort_ranked(groups);
    proof {
        order::lemma_ranked(unsorted);
        lemma_groups_reordered(unsorted, all_groups@, records@);
    }
    let mut splits: usize = 0;
    let mut k: usize = 0;
    assert(all_groups@.take(0) =~= Seq::<PlexDuplicateShowSample>::empty());
    while k < all_groups.len()
        invariant
            k <= all_groups@.len(),
            splits <= k,
            splits == split_count(all_groups@.take(k as int)),
        decreases all_groups@.len() - k,
    {
        assert(all_groups@.take(k + 1).drop_last() =~= all_groups@.take(k as int));
        if hama_split(&all_groups[k]) {
            splits += 1;
        }
        k += 1;
    }
    assert(all_groups@.take(k as int) =~= all_groups@);
    let sample_groups = first_groups(&all_groups, sample_limit);
    PlexDuplicateSummary {
        total_groups: all_groups.len(),
        hama_anidb_tvdb_groups: splits,
        other_groups: all_groups.len() - splits,
        all_groups,
        sample_groups,
    }
}

fn first_groups(groups: &Vec<PlexDuplicateShowSample>, limit: usize) -> (out: Vec<
    PlexDuplicateShowSample,
>)
    ensures
        out@.len() == at_most(groups@.len(), limit as nat),
        forall|k: int| 0 <= k < out@.len() ==> same_group(#[trigger] out@[k], groups@[k]),
{
    let mut out: Vec<PlexDuplicateShowSample> = Vec::new();
    while out.len() < groups.len() && out.len() < limit
        invariant
            out@.len() <= groups@.len(),
            out@.len() <= limit,
            forall|k: int| 0 <= k < out@.len() ==> same_group(#[trigger] out@[k], groups@[k]),
        decreases groups@.len() - out@.len(),
    {
        let copy = copy_group(&groups[out.len()]);
        out.push(copy);
    }
    out
}

proof fn lemma_groups_reordered(
    list: Seq<PlexDuplicateShowSample>,
    other: Seq<PlexDuplicateShowSample>,
    records: Seq<PlexDuplicateShowRecord>,
)
    requires
        groups_fit(list, records),
        other.to_multiset() == list.to_multiset(),
    ensures
        groups_fit(other, records),
{
    order::lemma_all_in_any_order(
        list,
        other,
        |g: PlexDuplicateShowSample| group_fits(g, records),
    );
    assert forall|k: int| 0 <= k < other.len() implies group_fits(
        #[trigger] other[k],
        records,
    ) by {
        let holds = |g: PlexDuplicateShowSample| group_fits(g, records);
        assert(holds(other[k]));
    }
    assert forall|i: int| 0 <= i < records.len() implies lists_show(
        other,
        #[trigger] records[i],
    ) by {
        let k = choose|k: int|
            0 <= k < list.len() && is_row_of(
                records[i],
                (#[trigger] list[k]).title@,
                list[k].original_title@,
                list[k].year,
            );
        assert(list.contains(list[k]));
        assert(other.contains(list[k]));
        let l = choose|l: int| 0 <= l < other.len() && other[l] == list[k];
        assert(is_row_of(records[i], other[l].title@, other[l].original_title@, other[l].year));
    }
    assert forall|k: int, l: int|
        #![trigger other[k], other[l]]
        0 <= k < l < other.len() implies !same_show(other[k], other[l]) by {
        order::lemma_apart_in_any_order(
            list,
            other,
            |x: PlexDuplicateShowSample, y: PlexDuplicateShowSample| !same_show(x, y),
            k,
            l,
        );
    }
}

// ---------------------------------------------------------------------------
// Shows that are split on the file system and in Plex

/// Whether a character belongs to a word of a title: an ASCII letter or digit, or
/// anything beyond ASCII.
pub open spec fn is_word_char(c: char) -> bool {
    ('a' <= c && c <= 'z') || ('A' <= c && c <= 'Z') || ('0' <= c && c <= '9') || c as u32 > 127
}

/// The text with a space for each character that belongs to no word.
pub open spec fn blanked(title: Seq<char>) -> Seq<char> {
    title.map_values(
        |c: char|
            if is_word_char(c) {
                c
            } else {
                ' '
            },
    )
}

/// The pieces that are not empty.
pub open spec fn words(pieces: Seq<Seq<char>>) -> Seq<Seq<char>> {
    pieces.filter(|piece: Seq<char>| piece.len() > 0)
}

/// The words of a title in lower case, with single spaces between them.
pub open spec fn normalized(title: Seq<char>) -> Seq<char> {
    text::join(words(text::split(blanked(text::lowercase(title)), ' ')), " "@)
}

/// The words of a title in lower case, with single spaces between them.
pub fn normalize(title: &str) -> (out: String)
    ensures
        out@ == normalized(title@),
{
    let lower = title.to_lowercase();
    normalize_lowercase(lower.as_str())
}

/// The words of a text with single spaces between them.
pub fn normalize_lowercase(lower: &str) -> (out: String)
    ensures
        out@ == text::join(words(text::split(blanked(lower@), ' ')), " "@),
{
    let chars = text::chars_of(lower);
    let mut blank: String = String::new();
    let mut i: usize = 0;
    assert(blank@ =~= blanked(lower@).take(0));
    while i < chars.len()
        invariant
            i <= chars@.len(),
            chars@ == lower@,
            blank@ == blanked(lower@).take(i as int),
        decreases chars@.len() - i,
    {
        let c = chars[i];
        if ('a' <= c && c <= 'z') || ('A' <= c && c <= 'Z') || ('0' <= c && c <= '9') || c as u32
            > 127 {
            blank.push(c);
        } else {
            blank.push(' ');
        }
        assert(blank@ =~= blanked(lower@).take(i + 1));
        i += 1;
    }
    assert(blanked(lower@).take(i as int) =~= blanked(lower@));
    let pieces = text::split_text(blank.as_str(), ' ');
    let ghost all = text::views(pieces@);
    let ghost keep = |piece: Seq<char>| piece.len() > 0;
    let mut kept: Vec<String> = Vec::new();
    let mut k: usize = 0;
    proof {
        reveal(Seq::filter);
        assert(all.take(0) =~= Seq::<Seq<char>>::empty());
        assert(text::views(kept@) =~= all.take(0).filter(keep));
    }
    while k < pieces.len()
        invariant
            k <= pieces@.len(),
            all == text::views(pieces@),
            keep == (|piece: Seq<char>| piece.len() > 0),
            text::views(kept@) == all.take(k as int).filter(keep),
        decreases pieces@.len() - k,
    {
        proof {
            reveal(Seq::filter);
            assert(all.take(k + 1).drop_last() =~= all.take(k as int));
        }
        if !pieces[k].as_str().is_empty() {
            text::push_text(&mut kept, pieces[k].clone());
        }
        k += 1;
    }
    assert(all.take(k as int) =~= all);
    text::join_texts(&kept, " ")
}

/// A show that is split on the file system and in Plex.
#[derive(Debug, Default, Clone, PartialEq, Eq)]
pub struct CorrelatedAnimeDuplicateSample {
    pub normalized_title: String,
    pub tagged_roots: Vec<String>,
    pub untagged_roots: Vec<String>,
    pub plex_total_rows: usize,
    pub plex_live_rows: usize,
    pub plex_deleted_rows: usize,
    pub plex_guid_kinds: Vec<String>,
    pub plex_guids: Vec<String>,
}

/// Whether a group of folders and a group of Plex are of the same show, which Plex
/// has split.
pub open spec fn correlates(fs: AnimeRootDuplicateGroup, plex: PlexDuplicateShowSample) -> bool {
    is_hama_split(plex) && normalized(plex.title@) == normalized(fs.normalized_title@)
}

/// Whether a sample is made of a group of folders and a group of Plex.
pub open spec fn correlation_fits(
    sample: CorrelatedAnimeDuplicateSample,
    fs: AnimeRootDuplicateGroup,
    plex: PlexDuplicateShowSample,
) -> bool {
    &&& sample.normalized_title == fs.normalized_title
    &&& text::views(sample.tagged_roots@) == text::views(fs.tagged_roots@)
    &&& text::views(sample.untagged_roots@) == text::views(fs.untagged_roots@)
    &&& sample.plex_total_rows == plex.total_rows
    &&& sample.plex_live_rows == plex.live_rows
    &&& sample.plex_deleted_rows == plex.deleted_rows
    &&& text::views(sample.plex_guid_kinds@) == text::views(plex.guid_kinds@)
    &&& text::views(sample.plex_guids@) == text::views(plex.guids@)
}

/// Whether the samples are those of one group of folders with the groups of Plex that
/// correlate with it, in order.
pub open spec fn row_correlates(
    samples: Seq<CorrelatedAnimeDuplicateSample>,
    fs: AnimeRootDuplicateGroup,
    plex: Seq<PlexDuplicateShowSample>,
) -> bool
    decreases plex.len(),
{
    if plex.len() == 0 {
        samples.len() == 0
    } else if correlates(fs, plex.last()) {
        samples.len() > 0 && correlation_fits(samples.last(), fs, plex.last()) && row_correlates(
            samples.drop_last(),
            fs,
            plex.drop_last(),
        )
    } else {
        row_correlates(samples, fs, plex.drop_last())
    }
}

/// Whether the samples are those of all groups of folders, one after the other.
pub open spec fn all_correlate(
    samples: Seq<CorrelatedAnimeDuplicateSample>,
    fs: Seq<AnimeRootDuplicateGroup>,
    plex: Seq<PlexDuplicateShowSample>,
) -> bool
    decreases fs.len(),
{
    if fs.len() == 0 {
        samples.len() == 0
    } else {
        exists|cut: int|
            #![trigger samples.take(cut)]
            0 <= cut <= samples.len() && row_correlates(samples.skip(cut), fs.last(), plex)
                && all_correlate(samples.take(cut), fs.drop_last(), plex)
    }
}

impl order::Ranked for CorrelatedAnimeDuplicateSample {
    /// The show with the most folders without a tag first; then by title.
    open spec fn precedes(&self, other: &Self) -> bool {
        if self.untagged_roots@.len() != other.untagged_roots@.len() {
            self.untagged_roots@.len() > other.untagged_roots@.len()
        } else {
            order::text_before(self.normalized_title@, other.normalized_title@)
        }
    }

    proof fn rank_order(a: &Self, b: &Self, c: &Self) {
        order::lemma_text_order(a.normalized_title@, b.normalized_title@, c.normalized_title@);
    }

    fn ranks_before(&self, other: &Self) -> (b: bool) {
        if self.untagged_roots.len() != other.untagged_roots.len() {
            self.untagged_roots.len() > other.untagged_roots.len()
        } else {
            order::comes_before(self.normalized_title.as_str(), other.normalized_title.as_str())
        }
    }
}

/// Whether the samples are the shows that are split on the file system and in Plex, by
/// rank.
pub open spec fn is_correlation(
    samples: Seq<CorrelatedAnimeDuplicateSample>,
    fs: Seq<AnimeRootDuplicateGroup>,
    plex: Seq<PlexDuplicateShowSample>,
) -> bool {
    exists|list: Seq<CorrelatedAnimeDuplicateSample>| #[trigger]
        all_correlate(list, fs, plex) && samples == order::ranked(list)
}

fn correlate_group(
    fs: &AnimeRootDuplicateGroup,
    plex_groups: &Vec<PlexDuplicateShowSample>,
) -> (out: Vec<CorrelatedAnimeDuplicateSample>)
    ensures
        row_correlates(out@, *fs, plex_groups@),
{
    let wanted = normalize(fs.normalized_title.as_str());
    let mut out: Vec<CorrelatedAnimeDuplicateSample> = Vec::new();
    let mut i: usize = 0;
    while i < plex_groups.len()
        invariant
            i <= plex_groups@.len(),
            wanted@ == normalized(fs.normalized_title@),
            row_correlates(out@, *fs, plex_groups@.take(i as int)),
        decreases plex_groups@.len() - i,
    {
        let plex = &plex_groups[i];
        let ghost before = out@;
        assert(plex_groups@.take(i + 1).drop_last() =~= plex_groups@.take(i as int));
        if hama_split(plex) && text::text_eq(
            normalize(plex.title.as_str()).as_str(),
            wanted.as_str(),
        ) {
            out.push(
                CorrelatedAnimeDuplicateSample {
                    normalized_title: fs.normalized_title.clone(),
                    tagged_roots: text::copy_texts(&fs.tagged_roots),
                    untagged_roots: text::copy_texts(&fs.untagged_roots),
                    plex_total_rows: plex.total_rows,
                    plex_live_rows: plex.live_rows,
                    plex_deleted_rows: plex.deleted_rows,
                    plex_guid_kinds: text::copy_texts(&plex.guid_kinds),
                    plex_guids: text::copy_texts(&plex.guids),
                },
            );
            assert(out@.drop_last() =~= before);
        }
        i += 1;
    }
    assert(plex_groups@.take(i as int) =~= plex_groups@);
    out
}

/// The shows that are split on the file system and in Plex, those with the most folders
/// without a tag first.
pub fn correlate_anime_duplicate_groups(
    filesystem_groups: &Vec<AnimeRootDuplicateGroup>,
    plex_groups: &Vec<PlexDuplicateShowSample>,
) -> (out: Vec<CorrelatedAnimeDuplicateSample>)
    ensures
        is_correlation(out@, filesystem_groups@, plex_groups@),
        order::in_rank_order(out@),
{
    let mut list: Vec<CorrelatedAnimeDuplicateSample> = Vec::new();
    let mut i: usize = 0;
    while i < filesystem_groups.len()
        invariant
            i <= filesystem_groups@.len(),
            all_correlate(list@, filesystem_groups@.take(i as int), plex_groups@),
        decreases filesystem_groups@.len() - i,
    {
        let ghost before = list@;
        let mut found = correlate_group(&filesystem_groups[i], plex_groups);
        let ghost fresh = found@;
        list.append(&mut found);
        proof {
            let cut = before.len() as int;
            assert(list@ =~= before + fresh);
            assert(list@.skip(cut) =~= fresh);
            assert(list@.take(cut) =~= before);
            assert(filesystem_groups@.take(i + 1).drop_last() =~= filesystem_groups@.take(
                i as int,
            ));
        }
        i += 1;
    }
    assert(filesystem_groups@.take(i as int) =~= filesystem_groups@);
    let ghost all = list@;
    let out = order::sort_ranked(list);
    proof {
        order::lemma_ranked(all);
        assert(all_correlate(all, filesystem_groups@, plex_groups@));
    }
    out
}

// ---------------------------------------------------------------------------
// How much a show's folder is used

/// How many links a folder has.
#[derive(Debug, Default, Clone, Copy, PartialEq, Eq, Structural)]
pub struct AnimeRootUsage {
    pub filesystem_symlinks: usize,
    pub db_active_links: usize,
}

/// The library that a path belongs to: of those it lies below, the last of the deepest.
pub open spec fn deepest_library(libraries: Seq<LibraryConfig>, path: Seq<char>) -> Option<int>
    decreases libraries.len(),
{
    if libraries.len() == 0 {
        None
    } else {
        let last = libraries.len() - 1;
        let before = deepest_library(libraries.drop_last(), path);
        if !paths::below(path, libraries[last].path@) {
            before
        } else {
            match before {
                Some(i) => if paths::components(libraries[i].path@).len() > paths::components(
                    libraries[last].path@,
                ).len() {
                    Some(i)
                } else {
                    Some(last)
                },
                None => Some(last),
            }
        }
    }
}

/// The folder of the show that a path belongs to: the first component below its library.
pub open spec fn show_root(libraries: Seq<LibraryConfig>, path: Seq<char>) -> Option<Seq<char>> {
    match deepest_library(libraries, path) {
        None => None,
        Some(i) => {
            let base = libraries[i].path@;
            let n = paths::components(base).len();
            if paths::components(path).len() <= n {
                None
            } else {
                Some(paths::joined(base, paths::components(path)[n as int]))
            }
        },
    }
}

/// The folder of the show that a path belongs to.
pub fn anime_show_root_for_path(anime_libraries: &Vec<LibraryConfig>, path: &str) -> (out: Option<
    String,
>)
    ensures
        text::opt(out) == show_root(anime_libraries@, path@),
{
    let mut found: Option<usize> = None;
    let mut i: usize = 0;
    while i < anime_libraries.len()
        invariant
            i <= anime_libraries@.len(),
            match found {
                Some(k) => k < i && deepest_library(anime_libraries@.take(i as int), path@) == Some(
                    k as int,
                ),
                None => deepest_library(anime_libraries@.take(i as int), path@) is None,
            },
        decreases anime_libraries@.len() - i,
    {
        assert(anime_libraries@.take(i + 1).drop_last() =~= anime_libraries@.take(i as int));
        if paths::is_below(path, anime_libraries[i].path.as_str()) {
            let replace = match found {
                Some(k) => paths::component_count(anime_libraries[k].path.as_str())
                    <= paths::component_count(anime_libraries[i].path.as_str()),
                None => true,
            };
            if replace {
                found = Some(i);
            }
        }
        i += 1;
    }
    assert(anime_libraries@.take(i as int) =~= anime_libraries@);
    match found {
        None => None,
        Some(k) => {
            let base = anime_libraries[k].path.as_str();
            let n = paths::component_count(base);
            let own = paths::path_components(path);
            let ghost parts = text::views(own@);
            assert(parts.len() == own@.len());
            if own.len() <= n {
                None
            } else {
                assert(parts[n as int] == own@[n as int]@);
                Some(paths::join(base, own[n].as_str()))
            }
        },
    }
}

/// The number of paths that belong to a folder.
pub open spec fn paths_in_root(
    libraries: Seq<LibraryConfig>,
    list: Seq<Seq<char>>,
    root: Seq<Seq<char>>,
) -> nat
    decreases list.len(),
{
    if list.len() == 0 {
        0
    } else {
        paths_in_root(libraries, list.drop_last(), root) + match show_root(libraries, list.last()) {
            Some(r) => if paths::components(r) == root {
                1nat
            } else {
                0nat
            },
            None => 0nat,
        }
    }
}

/// The targets of the active links.
pub open spec fn active_targets(records: Seq<LinkRecord>) -> Seq<Seq<char>>
    decreases records.len(),
{
    if records.len() == 0 {
        Seq::<Seq<char>>::empty()
    } else if records.last().status is Active {
        active_targets(records.drop_last()).push(records.last().target_path@)
    } else {
        active_targets(records.drop_last())
    }
}

/// Whether the table tells, for each folder that has any, how many symlinks and how many
/// active links it has.
pub open spec fn usage_fits(
    usage: Map<Seq<Seq<char>>, AnimeRootUsage>,
    libraries: Seq<LibraryConfig>,
    symlinks: Seq<Seq<char>>,
    targets: Seq<Seq<char>>,
) -> bool {
    forall|root: Seq<Seq<char>>|
        #![trigger usage.contains_key(root)]
        usage.contains_key(root) == (paths_in_root(libraries, symlinks, root) > 0 || paths_in_root(
            libraries,
            targets,
            root,
        ) > 0) && (usage.contains_key(root) ==> usage[root].filesystem_symlinks == paths_in_root(
            libraries,
            symlinks,
            root,
        ) && usage[root].db_active_links == paths_in_root(libraries, targets, root))
}

proof fn lemma_paths_in_root_bound(
    libraries: Seq<LibraryConfig>,
    list: Seq<Seq<char>>,
    root: Seq<Seq<char>>,
)
    ensures
        paths_in_root(libraries, list, root) <= list.len(),
    decreases list.len(),
{
    if list.len() > 0 {
        lemma_paths_in_root_bound(libraries, list.drop_last(), root);
    }
}

proof fn lemma_active_targets_len(records: Seq<LinkRecord>)
    ensures
        active_targets(records).len() <= records.len(),
    decreases records.len(),
{
    if records.len() > 0 {
        lemma_active_targets_len(records.drop_last());
    }
}

fn usage_at(usage: &PathMap<AnimeRootUsage>, root: &str) -> (out: AnimeRootUsage)
    requires
        usage.wf(),
    ensures
        out == (if usage@.contains_key(paths::components(root@)) {
            usage@[paths::components(root@)]
        } else {
            AnimeRootUsage { filesystem_symlinks: 0, db_active_links: 0 }
        }),
{
    match usage.get(root) {
        Some(u) => *u,
        None => AnimeRootUsage { filesystem_symlinks: 0, db_active_links: 0 },
    }
}

/// How many symlinks and active links each show's folder has; `symlinks` holds the paths of
/// the symlinks below the libraries.
pub fn collect_anime_root_usage(
    anime_libraries: &Vec<LibraryConfig>,
    symlinks: &Vec<String>,
    link_records: &Vec<LinkRecord>,
) -> (usage: PathMap<AnimeRootUsage>)
    ensures
        usage.wf(),
        usage_fits(
            usage@,
            anime_libraries@,
            text::views(symlinks@),
            active_targets(link_records@),
        ),
{
    let ghost libraries = anime_libraries@;
    let ghost all = text::views(symlinks@);
    let mut usage: PathMap<AnimeRootUsage> = PathMap::new();
    let mut i: usize = 0;
    assert(all.take(0) =~= Seq::<Seq<char>>::empty());
    assert(active_targets(link_records@.take(0)) =~= Seq::<Seq<char>>::empty());
    while i < symlinks.len()
        invariant
            i <= symlinks@.len(),
            libraries == anime_libraries@,
            all == text::views(symlinks@),
            usage.wf(),
            usage_fits(usage@, libraries, all.take(i as int), Seq::<Seq<char>>::empty()),
        decreases symlinks@.len() - i,
    {
        let ghost seen = all.take(i as int);
        assert(all.take(i + 1).drop_last() =~= seen);
        assert(all.take(i + 1).last() == symlinks@[i as int]@);
        match anime_show_root_for_path(anime_libraries, symlinks[i].as_str()) {
            Some(root) => {
                let ghost key = paths::components(root@);
                proof {
                    lemma_paths_in_root_bound(libraries, seen, key);
                    assert(usage@.contains_key(key) ==> usage@[key].filesystem_symlinks
                        == paths_in_root(libraries, seen, key));
                    assert(!usage@.contains_key(key) ==> paths_in_root(libraries, seen, key) == 0);
                }
                let mut now = usage_at(&usage, root.as_str());
                now.filesystem_symlinks = now.filesystem_symlinks + 1;
                usage.insert(root.as_str(), now);
            },
            None => {},
        }
        i += 1;
    }
    assert(all.take(i as int) =~= all);
    let mut k: usize = 0;
    assert(link_records@.take(0) =~= Seq::<LinkRecord>::empty());
    while k < link_records.len()
        invariant
            k <= link_records@.len(),
            libraries == anime_libraries@,
            usage.wf(),
            usage_fits(usage@, libraries, all, active_targets(link_records@.take(k as int))),
        decreases link_records@.len() - k,
    {
        let ghost seen = active_targets(link_records@.take(k as int));
        assert(link_records@.take(k + 1).drop_last() =~= link_records@.take(k as int));
        if link_records[k].status == LinkStatus::Active {
            let ghost now_seen = seen.push(link_records@[k as int].target_path@);
            assert(now_seen.drop_last() =~= seen);
            match anime_show_root_for_path(anime_libraries, link_records[k].target_path.as_str()) {
                Some(root) => {
                    let ghost key = paths::components(root@);
                    proof {
                        lemma_paths_in_root_bound(libraries, seen, key);
                        lemma_active_targets_len(link_records@.take(k as int));
                        assert(usage@.contains_key(key) ==> usage@[key].db_active_links
                            == paths_in_root(libraries, seen, key));
                        assert(!usage@.contains_key(key) ==> paths_in_root(libraries, seen, key)
                            == 0);
                    }
                    let mut now = usage_at(&usage, root.as_str());
                    now.db_active_links = now.db_active_links + 1;
                    usage.insert(root.as_str(), now);
                },
                None => {},
            }
        }
        k += 1;
    }
    assert(link_records@.take(k as int) =~= link_records@);
    usage
}

// ---------------------------------------------------------------------------
// What to do about them

/// How much a folder is used.
#[derive(Debug, Default, PartialEq, Eq)]
pub struct AnimeRootUsageSample {
    pub path: String,
    pub filesystem_symlinks: usize,
    pub db_active_links: usize,
}

impl Clone for AnimeRootUsageSample {
    fn clone(&self) -> (out: Self)
        ensures
            out == *self,
    {
        AnimeRootUsageSample {
            path: self.path.clone(),
            filesystem_symlinks: self.filesystem_symlinks,
            db_active_links: self.db_active_links,
        }
    }
}

impl order::Ranked for AnimeRootUsageSample {
    /// The folder with the most recorded links first, then that with the most symlinks,
    /// then by path.
    open spec fn precedes(&self, other: &Self) -> bool {
        if self.db_active_links != other.db_active_links {
            self.db_active_links > other.db_active_links
        } else if self.filesystem_symlinks != other.filesystem_symlinks {
            self.filesystem_symlinks > other.filesystem_symlinks
        } else {
            paths::path_before(self.path@, other.path@)
        }
    }

    proof fn rank_order(a: &Self, b: &Self, c: &Self) {
        paths::lemma_path_order(a.path@, b.path@, c.path@);
    }

    fn ranks_before(&self, other: &Self) -> (b: bool) {
        if self.db_active_links != other.db_active_links {
            self.db_active_links > other.db_active_links
        } else if self.filesystem_symlinks != other.filesystem_symlinks {
            self.filesystem_symlinks > other.filesystem_symlinks
        } else {
            paths::path_comes_before(self.path.as_str(), other.path.as_str())
        }
    }
}

/// Whether a folder goes before another as the one to keep.
pub fn compare_root_usage(left: &AnimeRootUsageSample, right: &AnimeRootUsageSample) -> (b: bool)
    ensures
        b == order::Ranked::precedes(left, right),
{
    order::Ranked::ranks_before(left, right)
}

/// What to do about a show that is split: which folder to keep, and which to give up.
#[derive(Debug, Default, Clone, PartialEq, Eq)]
pub struct AnimeRemediationSample {
    pub normalized_title: String,
    pub recommended_tagged_root: AnimeRootUsageSample,
    pub alternate_tagged_roots: Vec<AnimeRootUsageSample>,
    pub legacy_roots: Vec<AnimeRootUsageSample>,
    pub plex_total_rows: usize,
    pub plex_live_rows: usize,
    pub plex_deleted_rows: usize,
    pub plex_guid_kinds: Vec<String>,
    pub plex_guids: Vec<String>,
}

/// The symlinks of the folders, together.
pub open spec fn all_symlinks(roots: Seq<AnimeRootUsageSample>) -> nat
    decreases roots.len(),
{
    if roots.len() == 0 {
        0
    } else {
        all_symlinks(roots.drop_last()) + roots.last().filesystem_symlinks as nat
    }
}

/// The recorded links of the folders, together.
pub open spec fn all_links(roots: Seq<AnimeRootUsageSample>) -> nat
    decreases roots.len(),
{
    if roots.len() == 0 {
        0
    } else {
        all_links(roots.drop_last()) + roots.last().db_active_links as nat
    }
}

/// How much giving up the folders without a tag affects: their symlinks, their recorded
/// links, and the live rows in Plex.
pub fn remediation_impact(sample: &AnimeRemediationSample) -> (out: (u128, u128, usize))
    ensures
        out.0 == all_symlinks(sample.legacy_roots@),
        out.1 == all_links(sample.legacy_roots@),
        out.2 == sample.plex_live_rows,
{
    let roots = &sample.legacy_roots;
    let mut symlinks: u128 = 0;
    let mut links: u128 = 0;
    let mut i: usize = 0;
    assert(roots@.take(0) =~= Seq::<AnimeRootUsageSample>::empty());
    while i < roots.len()
        invariant
            i <= roots@.len(),
            symlinks == all_symlinks(roots@.take(i as int)),
            links == all_links(roots@.take(i as int)),
            symlinks <= i * 0xffff_ffff_ffff_ffff,
            links <= i * 0xffff_ffff_ffff_ffff,
        decreases roots@.len() - i,
    {
        assert(roots@.take(i + 1).drop_last() =~= roots@.take(i as int));
        assert(i <= 0xffff_ffff_ffff_ffff);
        symlinks = symlinks + roots[i].filesystem_symlinks as u128;
        links = links + roots[i].db_active_links as u128;
        i += 1;
    }
    assert(roots@.take(i as int) =~= roots@);
    (symlinks, links, sample.plex_live_rows)
}

impl order::Ranked for AnimeRemediationSample {
    /// The show whose folders without a tag are used most first; then by title.
    open spec fn precedes(&self, other: &Self) -> bool {
        if all_symlinks(self.legacy_roots@) != all_symlinks(other.legacy_roots@) {
            all_symlinks(self.legacy_roots@) > all_symlinks(other.legacy_roots@)
        } else if all_links(self.legacy_roots@) != all_links(other.legacy_roots@) {
            all_links(self.legacy_roots@) > all_links(other.legacy_roots@)
        } else if self.plex_live_rows != other.plex_live_rows {
            self.plex_live_rows > other.plex_live_rows
        } else {
            order::text_before(self.normalized_title@, other.normalized_title@)
        }
    }

    proof fn rank_order(a: &Self, b: &Self, c: &Self) {
        order::lemma_text_order(a.normalized_title@, b.normalized_title@, c.normalized_title@);
    }

    fn ranks_before(&self, other: &Self) -> (b: bool) {
        let mine = remediation_impact(self);
        let theirs = remediation_impact(other);
        if mine.0 != theirs.0 {
            mine.0 > theirs.0
        } else if mine.1 != theirs.1 {
            mine.1 > theirs.1
        } else if mine.2 != theirs.2 {
            mine.2 > theirs.2
        } else {
            order::comes_before(self.normalized_title.as_str(), other.normalized_title.as_str())
        }
    }
}

/// Whether a sample tells how much the folder at a path is used.
pub open spec fn usage_sample_fits(
    sample: AnimeRootUsageSample,
    path: Seq<char>,
    usage: Map<Seq<Seq<char>>, AnimeRootUsage>,
) -> bool {
    let key = paths::components(path);
    &&& sample.path@ == path
    &&& sample.filesystem_symlinks == (if usage.contains_key(key) {
        usage[key].filesystem_symlinks as int
    } else {
        0
    })
    &&& sample.db_active_links == (if usage.contains_key(key) {
        usage[key].db_active_links as int
    } else {
        0
    })
}

/// Whether the samples tell how much the folders are used, in order.
pub open spec fn usage_samples_fit(
    samples: Seq<AnimeRootUsageSample>,
    roots: Seq<Seq<char>>,
    usage: Map<Seq<Seq<char>>, AnimeRootUsage>,
) -> bool {
    samples.len() == roots.len() && forall|i: int|
        0 <= i < roots.len() ==> usage_sample_fits(#[trigger] samples[i], roots[i], usage)
}

fn root_usage_samples(roots: &Vec<String>, usage: &PathMap<AnimeRootUsage>) -> (out: Vec<
    AnimeRootUsageSample,
>)
    requires
        usage.wf(),
    ensures
        exists|list: Seq<AnimeRootUsageSample>| #[trigger]
            usage_samples_fit(list, text::views(roots@), usage@) && out@ == order::ranked(list),
        out@.len() == roots@.len(),
{
    let ghost all = text::views(roots@);
    let mut list: Vec<AnimeRootUsageSample> = Vec::new();
    let mut i: usize = 0;
    while i < roots.len()
        invariant
            i <= roots@.len(),
            all == text::views(roots@),
            usage.wf(),
            list@.len() == i,
            forall|k: int| 0 <= k < i ==> usage_sample_fits(#[trigger] list@[k], all[k], usage@),
        decreases roots@.len() - i,
    {
        let used = usage_at(usage, roots[i].as_str());
        list.push(
            AnimeRootUsageSample {
                path: roots[i].clone(),
                filesystem_symlinks: used.filesystem_symlinks,
                db_active_links: used.db_active_links,
            },
        );
        i += 1;
    }
    let ghost listed = list@;
    proof {
        order::lemma_ranked(listed);
        assert(usage_samples_fit(listed, all, usage@));
    }
    order::sort_ranked(list)
}

/// Whether the samples are the folders, by how much they are used.
pub open spec fn ranked_usage(
    samples: Seq<AnimeRootUsageSample>,
    roots: Seq<Seq<char>>,
    usage: Map<Seq<Seq<char>>, AnimeRootUsage>,
) -> bool {
    exists|list: Seq<AnimeRootUsageSample>| #[trigger]
        usage_samples_fit(list, roots, usage) && samples == order::ranked(list)
}

/// Whether a sample says what to do about a show: of the folders with a tag the most used
/// one is kept.
pub open spec fn remediation_fits(
    sample: AnimeRemediationSample,
    group: CorrelatedAnimeDuplicateSample,
    usage: Map<Seq<Seq<char>>, AnimeRootUsage>,
) -> bool {
    &&& sample.normalized_title == group.normalized_title
    &&& ranked_usage(
        seq![sample.recommended_tagged_root] + sample.alternate_tagged_roots@,
        text::views(group.tagged_roots@),
        usage,
    )
    &&& ranked_usage(sample.legacy_roots@, text::views(group.untagged_roots@), usage)
    &&& sample.plex_total_rows == group.plex_total_rows
    &&& sample.plex_live_rows == group.plex_live_rows
    &&& sample.plex_deleted_rows == group.plex_deleted_rows
    &&& text::views(sample.plex_guid_kinds@) == text::views(group.plex_guid_kinds@)
    &&& text::views(sample.plex_guids@) == text::views(group.plex_guids@)
}

/// Whether the samples are those of the shows that have a folder with a tag, in order.
pub open spec fn remediations_fit(
    samples: Seq<AnimeRemediationSample>,
    groups: Seq<CorrelatedAnimeDuplicateSample>,
    usage: Map<Seq<Seq<char>>, AnimeRootUsage>,
) -> bool
    decreases groups.len(),
{
    if groups.len() == 0 {
        samples.len() == 0
    } else if groups.last().tagged_roots@.len() > 0 {
        samples.len() > 0 && remediation_fits(samples.last(), groups.last(), usage)
            && remediations_fit(samples.drop_last(), groups.drop_last(), usage)
    } else {
        remediations_fit(samples, groups.drop_last(), usage)
    }
}

/// Whether the samples say what to do about the shows, by rank.
pub open spec fn is_remediation(
    samples: Seq<AnimeRemediationSample>,
    groups: Seq<CorrelatedAnimeDuplicateSample>,
    usage: Map<Seq<Seq<char>>, AnimeRootUsage>,
) -> bool {
    exists|list: Seq<AnimeRemediationSample>| #[trigger]
        remediations_fit(list, groups, usage) && samples == order::ranked(list)
}

/// What to do about the shows that are split, those that are affected most first. A show
/// without a folder with a tag is left out.
pub fn build_anime_remediation_samples(
    correlated_groups: &Vec<CorrelatedAnimeDuplicateSample>,
    root_usage: &PathMap<AnimeRootUsage>,
) -> (out: Vec<AnimeRemediationSample>)
    requires
        root_usage.wf(),
    ensures
        is_remediation(out@, correlated_groups@, root_usage@),
        order::in_rank_order(out@),
{
    let mut samples: Vec<AnimeRemediationSample> = Vec::new();
    let mut i: usize = 0;
    while i < correlated_groups.len()
        invariant
            i <= correlated_groups@.len(),
            root_usage.wf(),
            remediations_fit(samples@, correlated_groups@.take(i as int), root_usage@),
        decreases correlated_groups@.len() - i,
    {
        let group = &correlated_groups[i];
        let ghost before = samples@;
        assert(correlated_groups@.take(i + 1).drop_last() =~= correlated_groups@.take(i as int));
        let mut tagged = root_usage_samples(&group.tagged_roots, root_usage);
        if tagged.len() > 0 {
            let ghost ranked = tagged@;
            let recommended = tagged.remove(0);
            assert(seq![recommended] + tagged@ =~= ranked);
            samples.push(
                AnimeRemediationSample {
                    normalized_title: group.normalized_title.clone(),
                    recommended_tagged_root: recommended,
                    alternate_tagged_roots: tagged,
                    legacy_roots: root_usage_samples(&group.untagged_roots, root_usage),
                    plex_total_rows: group.plex_total_rows,
                    plex_live_rows: group.plex_live_rows,
                    plex_deleted_rows: group.plex_deleted_rows,
                    plex_guid_kinds: text::copy_texts(&group.plex_guid_kinds),
                    plex_guids: text::copy_texts(&group.plex_guids),
                },
            );
            assert(samples@.drop_last() =~= before);
            assert(samples@.last().legacy_roots@.len() == group.untagged_roots@.len());
            assert(remediation_fits(samples@.last(), *group, root_usage@));
        }
        i += 1;
    }
    assert(correlated_groups@.take(i as int) =~= correlated_groups@);
    let ghost all = samples@;
    let out = order::sort_ranked(samples);
    proof {
        order::lemma_ranked(all);
        assert(remediations_fit(all, correlated_groups@, root_usage@));
    }
    out
}

/// No folder with a tag is used more than the one that is kept.
pub proof fn lemma_best_root_is_kept(
    sample: AnimeRemediationSample,
    group: CorrelatedAnimeDuplicateSample,
    usage: Map<Seq<Seq<char>>, AnimeRootUsage>,
    k: int,
)
    requires
        remediation_fits(sample, group, usage),
        0 <= k < sample.alternate_tagged_roots@.len(),
    ensures
        sample.alternate_tagged_roots@[k].db_active_links
            <= sample.recommended_tagged_root.db_active_links,
        sample.alternate_tagged_roots@[k].db_active_links
            == sample.recommended_tagged_root.db_active_links
            ==> sample.alternate_tagged_roots@[k].filesystem_symlinks
            <= sample.recommended_tagged_root.filesystem_symlinks,
{
    let all = seq![sample.recommended_tagged_root] + sample.alternate_tagged_roots@;
    let list = choose|list: Seq<AnimeRootUsageSample>| #[trigger]
        usage_samples_fit(list, text::views(group.tagged_roots@), usage) && all == order::ranked(
            list,
        );
    order::lemma_ranked(list);
    assert(all[0] == sample.recommended_tagged_root);
    assert(all[k + 1] == sample.alternate_tagged_roots@[k]);
    assert(!order::Ranked::precedes(&all[k + 1], &all[0]));
}

// ---------------------------------------------------------------------------
// The audit

/// The folders of a show that has some with and some without a tag.
#[derive(Debug, Default, Clone, PartialEq, Eq)]
pub struct AnimeRootDuplicateSample {
    pub normalized_title: String,
    pub tagged_roots: Vec<String>,
    pub untagged_roots: Vec<String>,
}

/// What was found out about duplicate anime.
#[derive(Debug, Default, Clone, PartialEq, Eq)]
pub struct AnimeDuplicateAuditOutput {
    pub filesystem_mixed_root_groups: usize,
    pub filesystem_sample_groups: Vec<AnimeRootDuplicateSample>,
    pub plex_duplicate_show_groups: Option<usize>,
    pub plex_hama_anidb_tvdb_groups: Option<usize>,
    pub plex_other_duplicate_show_groups: Option<usize>,
    pub plex_sample_groups: Option<Vec<PlexDuplicateShowSample>>,
    pub correlated_hama_split_groups: Option<usize>,
    pub correlated_sample_groups: Option<Vec<CorrelatedAnimeDuplicateSample>>,
    pub remediation_groups: Option<usize>,
    pub remediation_sample_groups: Option<Vec<AnimeRemediationSample>>,
}

/// The libraries of anime.
pub open spec fn anime_only(libraries: Seq<LibraryConfig>) -> Seq<LibraryConfig>
    decreases libraries.len(),
{
    if libraries.len() == 0 {
        libraries
    } else if libraries.last().content_type == Some(ContentType::Anime) {
        anime_only(libraries.drop_last()).push(libraries.last())
    } else {
        anime_only(libraries.drop_last())
    }
}

/// The libraries of anime.
pub fn anime_libraries(libraries: &Vec<LibraryConfig>) -> (out: Vec<LibraryConfig>)
    ensures
        out@ == anime_only(libraries@),
{
    let mut out: Vec<LibraryConfig> = Vec::new();
    let mut i: usize = 0;
    assert(libraries@.take(0) =~= Seq::<LibraryConfig>::empty());
    while i < libraries.len()
        invariant
            i <= libraries@.len(),
            out@ == anime_only(libraries@.take(i as int)),
        decreases libraries@.len() - i,
    {
        assert(libraries@.take(i + 1).drop_last() =~= libraries@.take(i as int));
        match libraries[i].content_type {
            Some(ContentType::Anime) => {
                out.push(libraries[i].clone());
            },
            _ => {},
        }
        i += 1;
    }
    assert(libraries@.take(i as int) =~= libraries@);
    out
}

/// How many of `n` groups are shown: all in a full report, else the first ten.
pub open spec fn shown(n: nat, full: bool) -> nat {
    if full {
        n
    } else {
        at_most(n, 10)
    }
}

/// Whether a sample shows the folders of a group.
pub open spec fn shows_group(
    sample: AnimeRootDuplicateSample,
    group: AnimeRootDuplicateGroup,
) -> bool {
    &&& sample.normalized_title == group.normalized_title
    &&& text::views(sample.tagged_roots@) == text::views(group.tagged_roots@)
    &&& text::views(sample.untagged_roots@) == text::views(group.untagged_roots@)
}

/// What an audit is made from.
pub struct AuditInputs {
    pub libraries: Seq<LibraryConfig>,
    pub groups: Seq<AnimeRootDuplicateGroup>,
    pub records: Seq<PlexDuplicateShowRecord>,
    pub symlinks: Seq<Seq<char>>,
    pub links: Seq<LinkRecord>,
}

/// What an audit found on its way: the shows that Plex lists more than once, those of them
/// that are split on the file system too, and what to do about these.
pub struct AuditParts {
    pub shows: Seq<PlexDuplicateShowSample>,
    pub correlated: Seq<CorrelatedAnimeDuplicateSample>,
    pub usage: Map<Seq<Seq<char>>, AnimeRootUsage>,
    pub remedies: Seq<AnimeRemediationSample>,
}

impl AuditParts {
    /// Whether this is what the inputs lead to.
    pub open spec fn follow(&self, inputs: AuditInputs) -> bool {
        &&& groups_fit(self.shows, inputs.records)
        &&& order::in_rank_order(self.shows)
        &&& is_correlation(self.correlated, inputs.groups, self.shows)
        &&& usage_fits(
            self.usage,
            anime_only(inputs.libraries),
            inputs.symlinks,
            active_targets(inputs.links),
        )
        &&& is_remediation(self.remedies, self.correlated, self.usage)
    }

    /// Whether an audit shows this.
    pub open spec fn shown_in(&self, out: AnimeDuplicateAuditOutput, full: bool) -> bool {
        &&& out.plex_duplicate_show_groups is Some && out.plex_duplicate_show_groups->0
            == self.shows.len()
        &&& out.plex_hama_anidb_tvdb_groups is Some && out.plex_hama_anidb_tvdb_groups->0
            == split_count(self.shows)
        &&& out.plex_other_duplicate_show_groups is Some
            && out.plex_other_duplicate_show_groups->0 == self.shows.len() - split_count(
            self.shows,
        )
        &&& out.plex_sample_groups is Some && out.plex_sample_groups->0@.len() == shown(
            self.shows.len(),
            full,
        ) && forall|k: int|
            0 <= k < out.plex_sample_groups->0@.len() ==> same_group(
                #[trigger] out.plex_sample_groups->0@[k],
                self.shows[k],
            )
        &&& out.correlated_hama_split_groups is Some && out.correlated_hama_split_groups->0
            == self.correlated.len()
        &&& out.correlated_sample_groups is Some && out.correlated_sample_groups->0@
            == self.correlated.take(shown(self.correlated.len(), full) as int)
        &&& out.remediation_groups is Some && out.remediation_groups->0 == self.remedies.len()
        &&& out.remediation_sample_groups is Some && out.remediation_sample_groups->0@
            == self.remedies.take(shown(self.remedies.len(), full) as int)
    }
}

/// Whether an audit says nothing of Plex.
pub open spec fn leaves_out_plex(out: AnimeDuplicateAuditOutput) -> bool {
    &&& out.plex_duplicate_show_groups is None
    &&& out.plex_hama_anidb_tvdb_groups is None
    &&& out.plex_other_duplicate_show_groups is None
    &&& out.plex_sample_groups is None
    &&& out.correlated_hama_split_groups is None
    &&& out.correlated_sample_groups is None
    &&& out.remediation_groups is None
    &&& out.remediation_sample_groups is None
}

fn show_groups(groups: &Vec<AnimeRootDuplicateGroup>, limit: usize) -> (out: Vec<
    AnimeRootDuplicateSample,
>)
    ensures
        out@.len() == at_most(groups@.len(), limit as nat),
        forall|k: int| 0 <= k < out@.len() ==> shows_group(#[trigger] out@[k], groups@[k]),
{
    let mut out: Vec<AnimeRootDuplicateSample> = Vec::new();
    while out.len() < groups.len() && out.len() < limit
        invariant
            out@.len() <= groups@.len(),
            out@.len() <= limit,
            forall|k: int| 0 <= k < out@.len() ==> shows_group(#[trigger] out@[k], groups@[k]),
        decreases groups@.len() - out@.len(),
    {
        let group = &groups[out.len()];
        let sample = AnimeRootDuplicateSample {
            normalized_title: group.normalized_title.clone(),
            tagged_roots: text::copy_texts(&group.tagged_roots),
            untagged_roots: text::copy_texts(&group.untagged_roots),
        };
        out.push(sample);
    }
    out
}

/// Audits the libraries of anime, where there are any. `filesystem_groups` holds the shows
/// with folders with and without a tag, `plex_records` the rows of the shows that Plex
/// lists more than once, where Plex is asked, and `symlinks` the symlinks below the
/// libraries.
pub fn build_anime_duplicate_audit(
    libraries: &Vec<LibraryConfig>,
    filesystem_groups: &Vec<AnimeRootDuplicateGroup>,
    plex_records: Option<&Vec<PlexDuplicateShowRecord>>,
    symlinks: &Vec<String>,
    link_records: &Vec<LinkRecord>,
    full: bool,
) -> (out: Option<AnimeDuplicateAuditOutput>)
    ensures
        match out {
            None => anime_only(libraries@).len() == 0,
            Some(audit) => {
                &&& anime_only(libraries@).len() > 0
                &&& audit.filesystem_mixed_root_groups == filesystem_groups@.len()
                &&& audit.filesystem_sample_groups@.len() == shown(filesystem_groups@.len(), full)
                &&& forall|k: int|
                    0 <= k < audit.filesystem_sample_groups@.len() ==> shows_group(
                        #[trigger] audit.filesystem_sample_groups@[k],
                        filesystem_groups@[k],
                    )
                &&& match plex_records {
                    None => leaves_out_plex(audit),
                    Some(records) => exists|parts: AuditParts|
                        #![trigger parts.shown_in(audit, full)]
                        parts.shown_in(audit, full) && parts.follow(
                            AuditInputs {
                                libraries: libraries@,
                                groups: filesystem_groups@,
                                records: records@,
                                symlinks: text::views(symlinks@),
                                links: link_records@,
                            },
                        ),
                }
            },
        },
{
    let anime = anime_libraries(libraries);
    if anime.len() == 0 {
        return None;
    }
    let limit: usize = if full {
        usize::MAX
    } else {
        path_compare::PATH_SAMPLE_LIMIT
    };
    let mut audit = AnimeDuplicateAuditOutput {
        filesystem_mixed_root_groups: filesystem_groups.len(),
        filesystem_sample_groups: show_groups(filesystem_groups, limit),
        plex_duplicate_show_groups: None,
        plex_hama_anidb_tvdb_groups: None,
        plex_other_duplicate_show_groups: None,
        plex_sample_groups: None,
        correlated_hama_split_groups: None,
        correlated_sample_groups: None,
        remediation_groups: None,
        remediation_sample_groups: None,
    };
    match plex_records {
        None => {},
        Some(records) => {
            let summary = summarize_plex_duplicate_show_records(records, limit);
            let mut correlated = correlate_anime_duplicate_groups(
                filesystem_groups,
                &summary.all_groups,
            );
            let usage = collect_anime_root_usage(&anime, symlinks, link_records);
            let mut remedies = build_anime_remediation_samples(&correlated, &usage);
            let ghost parts = AuditParts {
                shows: summary.all_groups@,
                correlated: correlated@,
                usage: usage@,
                remedies: remedies@,
            };
            let ghost inputs = AuditInputs {
                libraries: libraries@,
                groups: filesystem_groups@,
                records: records@,
                symlinks: text::views(symlinks@),
                links: link_records@,
            };
            assert(parts.follow(inputs));
            audit.plex_duplicate_show_groups = Some(summary.total_groups);
            audit.plex_hama_anidb_tvdb_groups = Some(summary.hama_anidb_tvdb_groups);
            audit.plex_other_duplicate_show_groups = Some(summary.other_groups);
            audit.plex_sample_groups = Some(summary.sample_groups);
            audit.correlated_hama_split_groups = Some(correlated.len());
            if correlated.len() > limit {
                correlated.truncate(limit);
            }
            assert(correlated@ =~= parts.correlated.take(
                shown(parts.correlated.len(), full) as int,
            ));
            audit.correlated_sample_groups = Some(correlated);
            audit.remediation_groups = Some(remedies.len());
            if remedies.len() > limit {
                remedies.truncate(limit);
            }
            assert(remedies@ =~= parts.remedies.take(shown(parts.remedies.len(), full) as int));
            audit.remediation_sample_groups = Some(remedies);
            assert(parts.shown_in(audit, full));
        },
    }
    Some(audit)
}

/// A report on what to do about duplicate anime.
#[derive(Debug, Default, Clone, PartialEq, Eq)]
pub struct AnimeRemediationReportOutput {
    pub generated_at: String,
    pub filesystem_mixed_root_groups: usize,
    pub plex_duplicate_show_groups: usize,
    pub plex_hama_anidb_tvdb_groups: usize,
    pub correlated_hama_split_groups: usize,
    pub remediation_groups: usize,
    pub returned_groups: usize,
    pub groups: Vec<AnimeRemediationSample>,
}

/// A number, or zero where there is none.
pub open spec fn count_or_zero(n: Option<usize>) -> usize {
    match n {
        Some(v) => v,
        None => 0,
    }
}

fn or_zero(n: Option<usize>) -> (out: usize)
    ensures
        out == count_or_zero(n),
{
    match n {
        Some(v) => v,
        None => 0,
    }
}

/// The report on what to do, from an audit.
pub fn build_anime_remediation_report(generated_at: String, audit: AnimeDuplicateAuditOutput) -> (out:
    AnimeRemediationReportOutput)
    ensures
        out.generated_at == generated_at,
        out.filesystem_mixed_root_groups == audit.filesystem_mixed_root_groups,
        out.plex_duplicate_show_groups == count_or_zero(audit.plex_duplicate_show_groups),
        out.plex_hama_anidb_tvdb_groups == count_or_zero(audit.plex_hama_anidb_tvdb_groups),
        out.correlated_hama_split_groups == count_or_zero(audit.correlated_hama_split_groups),
        out.remediation_groups == count_or_zero(audit.remediation_groups),
        out.returned_groups == out.groups@.len(),
        match audit.remediation_sample_groups {
            Some(groups) => out.groups == groups,
            None => out.groups@.len() == 0,
        },
{
    let groups = match audit.remediation_sample_groups {
        Some(groups) => groups,
        None => Vec::new(),
    };
    AnimeRemediationReportOutput {
        generated_at,
        filesystem_mixed_root_groups: audit.filesystem_mixed_root_groups,
        plex_duplicate_show_groups: or_zero(audit.plex_duplicate_show_groups),
        plex_hama_anidb_tvdb_groups: or_zero(audit.plex_hama_anidb_tvdb_groups),
        correlated_hama_split_groups: or_zero(audit.correlated_hama_split_groups),
        remediation_groups: or_zero(audit.remediation_groups),
        returned_groups: groups.len(),
        groups,
    }
}

// ---------------------------------------------------------------------------
// Laws

/// The rows of the groups, together.
pub open spec fn all_rows(groups: Seq<PlexDuplicateShowSample>) -> nat
    decreases groups.len(),
{
    if groups.len() == 0 {
        0
    } else {
        all_rows(groups.drop_last()) + groups.last().total_rows as nat
    }
}

/// The rows of the groups' shows among the records, together.
spec fn rows_among(
    groups: Seq<PlexDuplicateShowSample>,
    records: Seq<PlexDuplicateShowRecord>,
) -> nat
    decreases groups.len(),
{
    if groups.len() == 0 {
        0
    } else {
        rows_among(groups.drop_last(), records) + rows_of(
            records,
            groups.last().title@,
            groups.last().original_title@,
            groups.last().year,
        ).len()
    }
}

/// The number of groups of a row's show.
spec fn groups_of_row(
    groups: Seq<PlexDuplicateShowSample>,
    record: PlexDuplicateShowRecord,
) -> nat
    decreases groups.len(),
{
    if groups.len() == 0 {
        0
    } else {
        groups_of_row(groups.drop_last(), record) + if is_row_of(
            record,
            groups.last().title@,
            groups.last().original_title@,
            groups.last().year,
        ) {
            1nat
        } else {
            0nat
        }
    }
}

proof fn lemma_one_more_row(
    groups: Seq<PlexDuplicateShowSample>,
    records: Seq<PlexDuplicateShowRecord>,
)
    requires
        records.len() > 0,
    ensures
        rows_among(groups, records) == rows_among(groups, records.drop_last()) + groups_of_row(
            groups,
            records.last(),
        ),
    decreases groups.len(),
{
    if groups.len() > 0 {
        lemma_one_more_row(groups.drop_last(), records);
    }
}

proof fn lemma_no_rows(groups: Seq<PlexDuplicateShowSample>)
    ensures
        rows_among(groups, Seq::<PlexDuplicateShowRecord>::empty()) == 0,
    decreases groups.len(),
{
    if groups.len() > 0 {
        lemma_no_rows(groups.drop_last());
    }
}

proof fn lemma_groups_of_row(
    groups: Seq<PlexDuplicateShowSample>,
    record: PlexDuplicateShowRecord,
)
    requires
        forall|k: int, l: int|
            #![trigger groups[k], groups[l]]
            0 <= k < l < groups.len() ==> !same_show(groups[k], groups[l]),
    ensures
        groups_of_row(groups, record) == if lists_show(groups, record) {
            1nat
        } else {
            0nat
        },
    decreases groups.len(),
{
    if groups.len() > 0 {
        let rest = groups.drop_last();
        let last = groups.len() - 1;
        assert forall|k: int, l: int|
            #![trigger rest[k], rest[l]]
            0 <= k < l < rest.len() implies !same_show(rest[k], rest[l]) by {
            assert(rest[k] == groups[k] && rest[l] == groups[l]);
        }
        lemma_groups_of_row(rest, record);
        if lists_show(rest, record) {
            let k = choose|k: int|
                0 <= k < rest.len() && is_row_of(
                    record,
                    (#[trigger] rest[k]).title@,
                    rest[k].original_title@,
                    rest[k].year,
                );
            assert(groups[k] == rest[k]);
            assert(!same_show(groups[k], groups[last]));
        } else if lists_show(groups, record) {
            let k = choose|k: int|
                0 <= k < groups.len() && is_row_of(
                    record,
                    (#[trigger] groups[k]).title@,
                    groups[k].original_title@,
                    groups[k].year,
                );
            if k < last {
                assert(rest[k] == groups[k]);
            }
        }
        if is_row_of(
            record,
            groups[last].title@,
            groups[last].original_title@,
            groups[last].year,
        ) {
            assert(lists_show(groups, record));
        }
    }
}

proof fn lemma_rows_add_up(
    groups: Seq<PlexDuplicateShowSample>,
    records: Seq<PlexDuplicateShowRecord>,
)
    requires
        forall|i: int| 0 <= i < records.len() ==> lists_show(groups, #[trigger] records[i]),
        forall|k: int, l: int|
            #![trigger groups[k], groups[l]]
            0 <= k < l < groups.len() ==> !same_show(groups[k], groups[l]),
    ensures
        rows_among(groups, records) == records.len(),
    decreases records.len(),
{
    if records.len() == 0 {
        assert(records =~= Seq::<PlexDuplicateShowRecord>::empty());
        lemma_no_rows(groups);
    } else {
        let rest = records.drop_last();
        assert forall|i: int| 0 <= i < rest.len() implies lists_show(
            groups,
            #[trigger] rest[i],
        ) by {
            assert(rest[i] == records[i]);
        }
        lemma_rows_add_up(groups, rest);
        lemma_one_more_row(groups, records);
        assert(lists_show(groups, records[records.len() - 1]));
        lemma_groups_of_row(groups, records.last());
    }
}

proof fn lemma_all_rows(
    groups: Seq<PlexDuplicateShowSample>,
    records: Seq<PlexDuplicateShowRecord>,
)
    requires
        forall|k: int| 0 <= k < groups.len() ==> group_fits(#[trigger] groups[k], records),
    ensures
        all_rows(groups) == rows_among(groups, records),
    decreases groups.len(),
{
    if groups.len() > 0 {
        let rest = groups.drop_last();
        assert forall|k: int| 0 <= k < rest.len() implies group_fits(
            #[trigger] rest[k],
            records,
        ) by {
            assert(rest[k] == groups[k]);
        }
        lemma_all_rows(rest, records);
        assert(group_fits(groups[groups.len() - 1], records));
    }
}

/// Every row belongs to one group: the rows of the groups add up to the rows.
pub proof fn lemma_every_row_is_grouped(
    groups: Seq<PlexDuplicateShowSample>,
    records: Seq<PlexDuplicateShowRecord>,
)
    requires
        groups_fit(groups, records),
    ensures
        all_rows(groups) == records.len(),
{
    lemma_all_rows(groups, records);
    lemma_rows_add_up(groups, records);
}

/// A row is one of a show's exactly where title, original title and year are the show's.
pub proof fn lemma_rows_are_of_the_show(
    records: Seq<PlexDuplicateShowRecord>,
    title: Seq<char>,
    original_title: Seq<char>,
    year: Option<i64>,
    record: PlexDuplicateShowRecord,
)
    ensures
        rows_of(records, title, original_title, year).contains(record) <==> records.contains(record)
            && record.title@ == title && record.original_title@ == original_title && record.year
            == year,
    decreases records.len(),
{
    if records.len() > 0 {
        let rest = records.drop_last();
        lemma_rows_are_of_the_show(rest, title, original_title, year, record);
        let before = rows_of(rest, title, original_title, year);
        let now = rows_of(records, title, original_title, year);
        let last = records.last();
        lemma_last_or_before(records, record);
        if is_row_of(last, title, original_title, year) {
            assert(now.drop_last() =~= before);
            lemma_last_or_before(now, record);
        }
    }
}

proof fn lemma_last_or_before<T>(list: Seq<T>, item: T)
    requires
        list.len() > 0,
    ensures
        list.contains(item) <==> list.drop_last().contains(item) || list.last() == item,
{
    let rest = list.drop_last();
    if rest.contains(item) {
        let i = choose|i: int| 0 <= i < rest.len() && rest[i] == item;
        assert(list[i] == item);
    }
    if list.contains(item) && list.last() != item {
        let i = choose|i: int| 0 <= i < list.len() && list[i] == item;
        assert(rest[i] == item);
    }
}

/// One row more is counted as live exactly where it is, and every other is deleted.
pub proof fn lemma_one_row_more(rows: Seq<PlexDuplicateShowRecord>, row: PlexDuplicateShowRecord)
    ensures
        live_count(rows.push(row)) == live_count(rows) + (if row.live {
            1nat
        } else {
            0nat
        }),
        live_count(Seq::<PlexDuplicateShowRecord>::empty()) == 0,
{
    assert(rows.push(row).drop_last() =~= rows);
}

/// A show was split between the two databases exactly where it has a row of each.
pub proof fn lemma_split_shows_have_both_kinds(
    group: PlexDuplicateShowSample,
    records: Seq<PlexDuplicateShowRecord>,
)
    requires
        group_fits(group, records),
    ensures
        group.live_rows + group.deleted_rows == group.total_rows,
        is_hama_split(group) <==> (exists|i: int|
            0 <= i < records.len() && is_row_of(
                #[trigger] records[i],
                group.title@,
                group.original_title@,
                group.year,
            ) && records[i].guid_kind@ == "hama-anidb"@) && (exists|i: int|
            0 <= i < records.len() && is_row_of(
                #[trigger] records[i],
                group.title@,
                group.original_title@,
                group.year,
            ) && records[i].guid_kind@ == "hama-tvdb"@),
{
    lemma_kind_is_listed(group, records, "hama-anidb"@);
    lemma_kind_is_listed(group, records, "hama-tvdb"@);
}

proof fn lemma_kind_is_listed(
    group: PlexDuplicateShowSample,
    records: Seq<PlexDuplicateShowRecord>,
    kind: Seq<char>,
)
    requires
        group_fits(group, records),
    ensures
        text::views(group.guid_kinds@).contains(kind) <==> exists|i: int|
            0 <= i < records.len() && is_row_of(
                #[trigger] records[i],
                group.title@,
                group.original_title@,
                group.year,
            ) && records[i].guid_kind@ == kind,
{
    let rows = rows_of(records, group.title@, group.original_title@, group.year);
    let kinds = rows.map_values(|r: PlexDuplicateShowRecord| r.guid_kind@);
    let listed = order::distinct::<order::ByText>(kinds);
    order::lemma_distinct::<order::ByText>(kinds);
    if listed.contains(kind) {
        assert(kinds.contains(kind));
        let k = choose|k: int| 0 <= k < kinds.len() && kinds[k] == kind;
        assert(rows.contains(rows[k]));
        lemma_rows_are_of_the_show(
            records,
            group.title@,
            group.original_title@,
            group.year,
            rows[k],
        );
        let i = choose|i: int| 0 <= i < records.len() && records[i] == rows[k];
        assert(records[i].guid_kind@ == kind);
    }
    if exists|i: int|
        0 <= i < records.len() && is_row_of(
            #[trigger] records[i],
            group.title@,
            group.original_title@,
            group.year,
        ) && records[i].guid_kind@ == kind {
        let i = choose|i: int|
            0 <= i < records.len() && is_row_of(
                #[trigger] records[i],
                group.title@,
                group.original_title@,
                group.year,
            ) && records[i].guid_kind@ == kind;
        assert(records.contains(records[i]));
        lemma_rows_are_of_the_show(
            records,
            group.title@,
            group.original_title@,
            group.year,
            records[i],
        );
        let k = choose|k: int| 0 <= k < rows.len() && rows[k] == records[i];
        assert(kinds[k] == kind);
        assert(order::has_tie::<order::ByText>(listed, kinds[k]));
        let m = choose|m: int|
            0 <= m < listed.len() && order::ties::<order::ByText>(#[trigger] listed[m], kinds[k]);
        order::lemma_text_before_total(listed[m], kinds[k]);
        assert(listed[m] == kind);
    }
}

/// One show more counts as split exactly where its kinds name both databases.
pub proof fn lemma_one_show_more(
    groups: Seq<PlexDuplicateShowSample>,
    group: PlexDuplicateShowSample,
)
    ensures
        split_count(groups.push(group)) == split_count(groups) + (if text::views(
            group.guid_kinds@,
        ).contains("hama-anidb"@) && text::views(group.guid_kinds@).contains("hama-tvdb"@) {
            1nat
        } else {
            0nat
        }),
        split_count(Seq::<PlexDuplicateShowSample>::empty()) == 0,
{
    assert(groups.push(group).drop_last() =~= groups);
}

/// Shows are ordered by title, then original title, then year, and without a year first.
pub proof fn lemma_order_of_shows(a: PlexDuplicateShowSample, b: PlexDuplicateShowSample)
    ensures
        ({
            let before = order::Ranked::precedes(&a, &b);
            &&& order::text_before(a.title@, b.title@) ==> before
            &&& a.title@ == b.title@ && order::text_before(a.original_title@, b.original_title@)
                ==> before
            &&& a.title@ == b.title@ && a.original_title@ == b.original_title@ ==> (before
                <==> b.year is Some && (a.year matches Some(y) ==> y < b.year->0))
        }),
{
    order::lemma_text_before_irreflexive(a.title@);
    order::lemma_text_before_irreflexive(a.original_title@);
}

/// The words of a title are not empty and hold only letters and digits of ASCII and what is
/// beyond ASCII.
pub proof fn lemma_words_are_clean(lower: Seq<char>, k: int, i: int)
    requires
        0 <= k < words(text::split(blanked(lower), ' ')).len(),
        0 <= i < words(text::split(blanked(lower), ' '))[k].len(),
    ensures
        ({
            let c = words(text::split(blanked(lower), ' '))[k][i];
            'a' <= c <= 'z' || 'A' <= c <= 'Z' || '0' <= c <= '9' || c as u32 > 127
        }),
{
    let blank = blanked(lower);
    let pieces = text::split(blank, ' ');
    let all = words(pieces);
    let word = all[k];
    lemma_words_are_pieces(pieces, word);
    assert(all.contains(word));
    let p = choose|p: int| 0 <= p < pieces.len() && pieces[p] == word;
    text::lemma_pieces_are_apart(blank, ' ');
    assert(word.contains(word[i]));
    lemma_piece_is_of_the_text(blank, ' ', p, word[i]);
    let at = choose|at: int| 0 <= at < blank.len() && blank[at] == word[i];
    assert(blank[at] == (if is_word_char(lower[at]) {
        lower[at]
    } else {
        ' '
    }));
}

proof fn lemma_words_are_pieces(pieces: Seq<Seq<char>>, word: Seq<char>)
    ensures
        words(pieces).contains(word) <==> pieces.contains(word) && word.len() > 0,
    decreases pieces.len(),
{
    reveal(Seq::filter);
    if pieces.len() > 0 {
        lemma_words_are_pieces(pieces.drop_last(), word);
        lemma_last_or_before(pieces, word);
        let now = words(pieces);
        if pieces.last().len() > 0 {
            assert(now.drop_last() =~= words(pieces.drop_last()));
            lemma_last_or_before(now, word);
        }
    }
}

proof fn lemma_piece_is_of_the_text(t: Seq<char>, sep: char, p: int, c: char)
    requires
        0 <= p < text::split(t, sep).len(),
        text::split(t, sep)[p].contains(c),
    ensures
        t.contains(c),
    decreases t.len(),
{
    if t.len() > 0 {
        let rest = t.drop_last();
        let before = text::split(rest, sep);
        text::lemma_split_nonempty(rest, sep);
        let piece = text::split(t, sep)[p];
        if t.last() == sep {
            if p < before.len() {
                lemma_piece_is_of_the_text(rest, sep, p, c);
                let i = choose|i: int| 0 <= i < rest.len() && rest[i] == c;
                assert(t[i] == c);
            }
        } else if p < before.len() - 1 {
            lemma_piece_is_of_the_text(rest, sep, p, c);
            let i = choose|i: int| 0 <= i < rest.len() && rest[i] == c;
            assert(t[i] == c);
        } else {
            if c == t.last() {
                assert(t[t.len() - 1] == c);
            } else {
                let i = choose|i: int| 0 <= i < piece.len() && piece[i] == c;
                assert(before.last()[i] == c);
                assert(before[before.len() - 1].contains(c));
                lemma_piece_is_of_the_text(rest, sep, before.len() - 1, c);
                let j = choose|j: int| 0 <= j < rest.len() && rest[j] == c;
                assert(t[j] == c);
            }
        }
    }
}

/// A text of one word is that word, and what belongs to no word parts two.
pub proof fn lemma_signs_part_words(a: Seq<char>, sign: char, b: Seq<char>)
    requires
        a.len() > 0,
        b.len() > 0,
        forall|i: int| 0 <= i < a.len() ==> is_word_char(#[trigger] a[i]),
        forall|i: int| 0 <= i < b.len() ==> is_word_char(#[trigger] b[i]),
        sign as u32 <= 127,
        !('a' <= sign <= 'z' || 'A' <= sign <= 'Z' || '0' <= sign <= '9'),
    ensures
        words(text::split(blanked(a), ' ')) == seq![a],
        words(text::split(blanked(a + seq![sign] + b), ' ')) == seq![a, b],
{
    reveal_with_fuel(Seq::filter, 3);
    assert(blanked(a) =~= a);
    assert(!a.contains(' ')) by {
        if a.contains(' ') {
            let i = choose|i: int| 0 <= i < a.len() && a[i] == ' ';
            assert(is_word_char(a[i]));
        }
    }
    assert(!b.contains(' ')) by {
        if b.contains(' ') {
            let i = choose|i: int| 0 <= i < b.len() && b[i] == ' ';
            assert(is_word_char(b[i]));
        }
    }
    text::lemma_split_of_piece(a, ' ');
    assert(words(seq![a]) =~= seq![a]) by {
        assert(seq![a].drop_last() =~= Seq::<Seq<char>>::empty());
    }
    let both = a + seq![sign] + b;
    assert(blanked(both) =~= a.push(' ') + b);
    text::lemma_split_grows(a, b, ' ');
    assert(seq![a].push(b) =~= seq![a, b]);
    assert(words(seq![a, b]) =~= seq![a, b]) by {
        assert(seq![a, b].drop_last() =~= seq![a]);
        assert(seq![a].drop_last() =~= Seq::<Seq<char>>::empty());
    }
}

/// Every show that is split on the file system, and in Plex under a title with the same
/// words, is told, with the folders of the one and the rows of the other.
pub proof fn lemma_split_shows_are_correlated(
    samples: Seq<CorrelatedAnimeDuplicateSample>,
    fs: Seq<AnimeRootDuplicateGroup>,
    plex: Seq<PlexDuplicateShowSample>,
    i: int,
    k: int,
) -> (at: int)
    requires
        all_correlate(samples, fs, plex),
        0 <= i < fs.len(),
        0 <= k < plex.len(),
        is_hama_split(plex[k]),
        normalized(plex[k].title@) == normalized(fs[i].normalized_title@),
    ensures
        0 <= at < samples.len(),
        samples[at].normalized_title == fs[i].normalized_title,
        text::views(samples[at].tagged_roots@) == text::views(fs[i].tagged_roots@),
        text::views(samples[at].untagged_roots@) == text::views(fs[i].untagged_roots@),
        samples[at].plex_total_rows == plex[k].total_rows,
        samples[at].plex_live_rows == plex[k].live_rows,
        samples[at].plex_deleted_rows == plex[k].deleted_rows,
        text::views(samples[at].plex_guids@) == text::views(plex[k].guids@),
        text::views(samples[at].plex_guid_kinds@) == text::views(plex[k].guid_kinds@),
    decreases fs.len(),
{
    let cut = choose|cut: int|
        #![trigger samples.take(cut)]
        0 <= cut <= samples.len() && row_correlates(samples.skip(cut), fs.last(), plex)
            && all_correlate(samples.take(cut), fs.drop_last(), plex);
    if i == fs.len() - 1 {
        let at = lemma_row_is_told(samples.skip(cut), fs.last(), plex, k);
        assert(samples.skip(cut)[at] == samples[cut + at]);
        cut + at
    } else {
        assert(fs.drop_last()[i] == fs[i]);
        let at = lemma_split_shows_are_correlated(samples.take(cut), fs.drop_last(), plex, i, k);
        assert(samples.take(cut)[at] == samples[at]);
        at
    }
}

proof fn lemma_row_is_told(
    samples: Seq<CorrelatedAnimeDuplicateSample>,
    fs: AnimeRootDuplicateGroup,
    plex: Seq<PlexDuplicateShowSample>,
    k: int,
) -> (at: int)
    requires
        row_correlates(samples, fs, plex),
        0 <= k < plex.len(),
        correlates(fs, plex[k]),
    ensures
        0 <= at < samples.len(),
        correlation_fits(samples[at], fs, plex[k]),
    decreases plex.len(),
{
    if k == plex.len() - 1 {
        samples.len() - 1
    } else {
        let rest = plex.drop_last();
        assert(rest[k] == plex[k]);
        if correlates(fs, plex.last()) {
            let at = lemma_row_is_told(samples.drop_last(), fs, rest, k);
            assert(samples.drop_last()[at] == samples[at]);
            at
        } else {
            lemma_row_is_told(samples, fs, rest, k)
        }
    }
}

/// Every show that is told is split on the file system and in Plex.
pub proof fn lemma_correlated_shows_are_split(
    samples: Seq<CorrelatedAnimeDuplicateSample>,
    fs: Seq<AnimeRootDuplicateGroup>,
    plex: Seq<PlexDuplicateShowSample>,
    at: int,
) -> (pair: (int, int))
    requires
        all_correlate(samples, fs, plex),
        0 <= at < samples.len(),
    ensures
        0 <= pair.0 < fs.len(),
        0 <= pair.1 < plex.len(),
        is_hama_split(plex[pair.1]),
        normalized(plex[pair.1].title@) == normalized(fs[pair.0].normalized_title@),
        correlation_fits(samples[at], fs[pair.0], plex[pair.1]),
    decreases fs.len(),
{
    let cut = choose|cut: int|
        #![trigger samples.take(cut)]
        0 <= cut <= samples.len() && row_correlates(samples.skip(cut), fs.last(), plex)
            && all_correlate(samples.take(cut), fs.drop_last(), plex);
    if at >= cut {
        let k = lemma_told_row_is_split(samples.skip(cut), fs.last(), plex, at - cut);
        assert(samples.skip(cut)[at - cut] == samples[at]);
        (fs.len() - 1, k)
    } else {
        let pair = lemma_correlated_shows_are_split(
            samples.take(cut),
            fs.drop_last(),
            plex,
            at,
        );
        assert(samples.take(cut)[at] == samples[at]);
        assert(fs.drop_last()[pair.0] == fs[pair.0]);
        pair
    }
}

proof fn lemma_told_row_is_split(
    samples: Seq<CorrelatedAnimeDuplicateSample>,
    fs: AnimeRootDuplicateGroup,
    plex: Seq<PlexDuplicateShowSample>,
    at: int,
) -> (k: int)
    requires
        row_correlates(samples, fs, plex),
        0 <= at < samples.len(),
    ensures
        0 <= k < plex.len(),
        correlates(fs, plex[k]),
        correlation_fits(samples[at], fs, plex[k]),
    decreases plex.len(),
{
    let rest = plex.drop_last();
    if correlates(fs, plex.last()) {
        if at == samples.len() - 1 {
            plex.len() - 1
        } else {
            assert(samples.drop_last()[at] == samples[at]);
            let k = lemma_told_row_is_split(samples.drop_last(), fs, rest, at);
            assert(rest[k] == plex[k]);
            k
        }
    } else {
        let k = lemma_told_row_is_split(samples, fs, rest, at);
        assert(rest[k] == plex[k]);
        k
    }
}

/// Shows with more folders without a tag come first, and equal ones by title; folders with
/// more recorded links come first, then those with more symlinks, then by path; what is
/// affected more comes first, by symlinks, recorded links and live rows, then by title.
pub proof fn lemma_order_of_remedies(
    a: CorrelatedAnimeDuplicateSample,
    b: CorrelatedAnimeDuplicateSample,
    x: AnimeRootUsageSample,
    y: AnimeRootUsageSample,
    p: AnimeRemediationSample,
    q: AnimeRemediationSample,
)
    ensures
        a.untagged_roots@.len() > b.untagged_roots@.len() ==> order::Ranked::precedes(&a, &b),
        a.untagged_roots@.len() == b.untagged_roots@.len() ==> order::Ranked::precedes(&a, &b)
            == order::text_before(a.normalized_title@, b.normalized_title@),
        x.db_active_links > y.db_active_links ==> order::Ranked::precedes(&x, &y),
        x.db_active_links == y.db_active_links && x.filesystem_symlinks > y.filesystem_symlinks
            ==> order::Ranked::precedes(&x, &y),
        x.db_active_links == y.db_active_links && x.filesystem_symlinks == y.filesystem_symlinks
            ==> order::Ranked::precedes(&x, &y) == paths::path_before(x.path@, y.path@),
        all_symlinks(p.legacy_roots@) > all_symlinks(q.legacy_roots@) ==> order::Ranked::precedes(
            &p,
            &q,
        ),
        all_symlinks(p.legacy_roots@) == all_symlinks(q.legacy_roots@) && all_links(
            p.legacy_roots@,
        ) > all_links(q.legacy_roots@) ==> order::Ranked::precedes(&p, &q),
        all_symlinks(p.legacy_roots@) == all_symlinks(q.legacy_roots@) && all_links(
            p.legacy_roots@,
        ) == all_links(q.legacy_roots@) && p.plex_live_rows > q.plex_live_rows
            ==> order::Ranked::precedes(&p, &q),
        all_symlinks(p.legacy_roots@) == all_symlinks(q.legacy_roots@) && all_links(
            p.legacy_roots@,
        ) == all_links(q.legacy_roots@) && p.plex_live_rows == q.plex_live_rows
            ==> order::Ranked::precedes(&p, &q) == order::text_before(
            p.normalized_title@,
            q.normalized_title@,
        ),
{
}

/// A path belongs to the deepest library that it lies below, of equally deep ones to the
/// last, and to none where it lies below none.
pub proof fn lemma_deepest_library_counts(libraries: Seq<LibraryConfig>, path: Seq<char>)
    ensures
        match deepest_library(libraries, path) {
            Some(i) => {
                &&& 0 <= i < libraries.len()
                &&& paths::below(path, libraries[i].path@)
                &&& forall|j: int|
                    #![trigger libraries[j]]
                    0 <= j < libraries.len() && paths::below(path, libraries[j].path@)
                        ==> paths::components(libraries[j].path@).len() < paths::components(
                        libraries[i].path@,
                    ).len() || paths::components(libraries[j].path@).len() == paths::components(
                        libraries[i].path@,
                    ).len() && j <= i
            },
            None => forall|j: int|
                #![trigger libraries[j]]
                0 <= j < libraries.len() ==> !paths::below(path, libraries[j].path@),
        },
    decreases libraries.len(),
{
    if libraries.len() > 0 {
        let rest = libraries.drop_last();
        lemma_deepest_library_counts(rest, path);
        let last = libraries.len() - 1;
        let before = deepest_library(rest, path);
        assert forall|j: int| #![trigger libraries[j]] 0 <= j < last implies libraries[j]
            == rest[j] by {}
        if before is Some {
            assert(libraries[before->0] == rest[before->0]);
        }
    }
}

/// The folder of a show lies right below its library, and the path lies in it.
pub proof fn lemma_show_root_holds_the_path(libraries: Seq<LibraryConfig>, path: Seq<char>)
    requires
        show_root(libraries, path) is Some,
        paths::components(libraries[deepest_library(libraries, path)->0].path@).len() > 0,
    ensures
        ({
            let root = show_root(libraries, path)->0;
            let library = libraries[deepest_library(libraries, path)->0].path@;
            &&& paths::below(path, root)
            &&& paths::components(root).len() == paths::components(library).len() + 1
            &&& paths::components(root).drop_last() == paths::components(library)
        }),
{
    lemma_deepest_library_counts(libraries, path);
    let i = deepest_library(libraries, path)->0;
    let base = libraries[i].path@;
    let own = paths::components(base);
    let all = paths::components(path);
    let name = all[own.len() as int];
    paths::lemma_component_is_name(path, own.len() as int);
    paths::lemma_joined_components(base, name);
    assert(own.push(name).drop_last() =~= own);
    assert(all.subrange(0, own.len() as int + 1) =~= own.push(name)) by {
        assert(all.subrange(0, own.len() as int) == own);
        assert forall|k: int| 0 <= k < own.len() implies all[k] == own[k] by {
            assert(all.subrange(0, own.len() as int)[k] == own[k]);
        }
    }
}

/// A path has a show's folder exactly where it lies below a library and is not that itself.
pub proof fn lemma_paths_in_libraries_have_shows(libraries: Seq<LibraryConfig>, path: Seq<char>)
    ensures
        show_root(libraries, path) is Some <==> (deepest_library(libraries, path) matches Some(i)
            && !paths::same(path, libraries[i].path@)),
{
    lemma_deepest_library_counts(libraries, path);
    if let Some(i) = deepest_library(libraries, path) {
        let own = paths::components(libraries[i].path@);
        let all = paths::components(path);
        if all.len() <= own.len() {
            assert(all =~= own);
        }
    }
}

/// One path more is counted in the folder of its show, and in no other.
pub proof fn lemma_one_path_more(
    libraries: Seq<LibraryConfig>,
    list: Seq<Seq<char>>,
    path: Seq<char>,
    root: Seq<Seq<char>>,
)
    ensures
        paths_in_root(libraries, list.push(path), root) == paths_in_root(libraries, list, root) + (
        if show_root(libraries, path) matches Some(r) && paths::components(r) == root {
            1nat
        } else {
            0nat
        }),
        paths_in_root(libraries, Seq::<Seq<char>>::empty(), root) == 0,
{
    assert(list.push(path).drop_last() =~= list);
}

/// Only the targets of active links are counted, and all of them.
pub proof fn lemma_active_targets(records: Seq<LinkRecord>, target: Seq<char>)
    ensures
        active_targets(records).contains(target) <==> exists|i: int|
            #![trigger records[i]]
            0 <= i < records.len() && records[i].status is Active && records[i].target_path@
                == target,
    decreases records.len(),
{
    if records.len() > 0 {
        let rest = records.drop_last();
        lemma_active_targets(rest, target);
        let before = active_targets(rest);
        let now = active_targets(records);
        let n = records.len() - 1;
        if records.last().status is Active {
            assert(now.drop_last() =~= before);
            lemma_last_or_before(now, target);
        }
        if before.contains(target) {
            let i = choose|i: int|
                #![trigger rest[i]]
                0 <= i < rest.len() && rest[i].status is Active && rest[i].target_path@ == target;
            assert(records[i] == rest[i]);
        }
        if now.contains(target) && !before.contains(target) {
            assert(records[n].status is Active && records[n].target_path@ == target);
        }
        if exists|i: int|
            #![trigger records[i]]
            0 <= i < records.len() && records[i].status is Active && records[i].target_path@
                == target {
            let i = choose|i: int|
                #![trigger records[i]]
                0 <= i < records.len() && records[i].status is Active && records[i].target_path@
                    == target;
            if i < n {
                assert(rest[i] == records[i]);
            }
        }
    }
}

/// A folder in use is listed with its own symlinks and its own recorded links.
pub proof fn lemma_usage_is_told(
    usage: Map<Seq<Seq<char>>, AnimeRootUsage>,
    libraries: Seq<LibraryConfig>,
    symlinks: Seq<Seq<char>>,
    targets: Seq<Seq<char>>,
    root: Seq<Seq<char>>,
)
    requires
        usage_fits(usage, libraries, symlinks, targets),
    ensures
        usage.contains_key(root) <==> paths_in_root(libraries, symlinks, root) + paths_in_root(
            libraries,
            targets,
            root,
        ) > 0,
        usage.contains_key(root) ==> usage[root].filesystem_symlinks == paths_in_root(
            libraries,
            symlinks,
            root,
        ),
        usage.contains_key(root) ==> usage[root].db_active_links == paths_in_root(
            libraries,
            targets,
            root,
        ),
{
}

/// One folder more adds its symlinks and its recorded links.
pub proof fn lemma_one_folder_more(roots: Seq<AnimeRootUsageSample>, root: AnimeRootUsageSample)
    ensures
        all_symlinks(roots.push(root)) == all_symlinks(roots) + root.filesystem_symlinks,
        all_links(roots.push(root)) == all_links(roots) + root.db_active_links,
        all_symlinks(Seq::<AnimeRootUsageSample>::empty()) == 0,
        all_links(Seq::<AnimeRootUsageSample>::empty()) == 0,
{
    assert(roots.push(root).drop_last() =~= roots);
}

/// Every show with a folder that has a tag gets its remedy, with the rows of Plex.
pub proof fn lemma_tagged_shows_get_a_remedy(
    samples: Seq<AnimeRemediationSample>,
    groups: Seq<CorrelatedAnimeDuplicateSample>,
    usage: Map<Seq<Seq<char>>, AnimeRootUsage>,
    i: int,
) -> (k: int)
    requires
        remediations_fit(samples, groups, usage),
        0 <= i < groups.len(),
        groups[i].tagged_roots@.len() > 0,
    ensures
        0 <= k < samples.len() <= groups.len(),
        remediation_fits(samples[k], groups[i], usage),
        samples[k].normalized_title == groups[i].normalized_title,
        samples[k].plex_total_rows == groups[i].plex_total_rows,
        samples[k].plex_live_rows == groups[i].plex_live_rows,
        samples[k].plex_deleted_rows == groups[i].plex_deleted_rows,
        1 + samples[k].alternate_tagged_roots@.len() == groups[i].tagged_roots@.len(),
        samples[k].legacy_roots@.len() == groups[i].untagged_roots@.len(),
    decreases groups.len(),
{
    let rest = groups.drop_last();
    lemma_remedies_are_few(samples, groups, usage);
    let k: int = if i == groups.len() - 1 {
        samples.len() - 1
    } else {
        assert(rest[i] == groups[i]);
        if groups.last().tagged_roots@.len() > 0 {
            let k = lemma_tagged_shows_get_a_remedy(samples.drop_last(), rest, usage, i);
            assert(samples.drop_last()[k] == samples[k]);
            k
        } else {
            lemma_tagged_shows_get_a_remedy(samples, rest, usage, i)
        }
    };
    lemma_ranked_usage_len(
        seq![samples[k].recommended_tagged_root] + samples[k].alternate_tagged_roots@,
        text::views(groups[i].tagged_roots@),
        usage,
    );
    lemma_ranked_usage_len(
        samples[k].legacy_roots@,
        text::views(groups[i].untagged_roots@),
        usage,
    );
    k
}

proof fn lemma_remedies_are_few(
    samples: Seq<AnimeRemediationSample>,
    groups: Seq<CorrelatedAnimeDuplicateSample>,
    usage: Map<Seq<Seq<char>>, AnimeRootUsage>,
)
    requires
        remediations_fit(samples, groups, usage),
    ensures
        samples.len() <= groups.len(),
    decreases groups.len(),
{
    if groups.len() > 0 {
        if groups.last().tagged_roots@.len() > 0 {
            lemma_remedies_are_few(samples.drop_last(), groups.drop_last(), usage);
        } else {
            lemma_remedies_are_few(samples, groups.drop_last(), usage);
        }
    }
}

proof fn lemma_ranked_usage_len(
    samples: Seq<AnimeRootUsageSample>,
    roots: Seq<Seq<char>>,
    usage: Map<Seq<Seq<char>>, AnimeRootUsage>,
)
    requires
        ranked_usage(samples, roots, usage),
    ensures
        samples.len() == roots.len(),
{
    let list = choose|list: Seq<AnimeRootUsageSample>| #[trigger]
        usage_samples_fit(list, roots, usage) && samples == order::ranked(list);
    order::lemma_ranked(list);
    assert(samples.to_multiset().len() == list.to_multiset().len());
    samples.to_multiset_ensures();
    list.to_multiset_ensures();
}

/// A library is audited exactly where it is configured to hold anime.
pub proof fn lemma_anime_libraries(libraries: Seq<LibraryConfig>, library: LibraryConfig)
    ensures
        anime_only(libraries).contains(library) <==> libraries.contains(library)
            && library.content_type == Some(ContentType::Anime),
    decreases libraries.len(),
{
    if libraries.len() > 0 {
        let rest = libraries.drop_last();
        lemma_anime_libraries(rest, library);
        lemma_last_or_before(libraries, library);
        let now = anime_only(libraries);
        if libraries.last().content_type == Some(ContentType::Anime) {
            assert(now.drop_last() =~= anime_only(rest));
            lemma_last_or_before(now, library);
        }
    }
}

/// A full report shows all groups, and any other at most ten.
pub proof fn lemma_reports_show(n: nat, full: bool)
    ensures
        full ==> shown(n, full) == n,
        !full && n <= 10 ==> shown(n, full) == n,
        !full && n > 10 ==> shown(n, full) == 10,
{
}

/// The shows that are told by rank are those that are split on the file system and in Plex.
pub proof fn lemma_ranked_shows_are_all_told(
    samples: Seq<CorrelatedAnimeDuplicateSample>,
    fs: Seq<AnimeRootDuplicateGroup>,
    plex: Seq<PlexDuplicateShowSample>,
    i: int,
    k: int,
) -> (at: int)
    requires
        is_correlation(samples, fs, plex),
        0 <= i < fs.len(),
        0 <= k < plex.len(),
        is_hama_split(plex[k]),
        normalized(plex[k].title@) == normalized(fs[i].normalized_title@),
    ensures
        0 <= at < samples.len(),
        samples[at].normalized_title == fs[i].normalized_title,
        samples[at].plex_total_rows == plex[k].total_rows,
        order::in_rank_order(samples),
{
    let list = choose|list: Seq<CorrelatedAnimeDuplicateSample>| #[trigger]
        all_correlate(list, fs, plex) && samples == order::ranked(list);
    let at = lemma_split_shows_are_correlated(list, fs, plex, i, k);
    order::lemma_ranked(list);
    list.to_multiset_ensures();
    samples.to_multiset_ensures();
    assert(list.contains(list[at]));
    assert(list.to_multiset().count(list[at]) > 0);
    assert(samples.to_multiset().count(list[at]) > 0);
    assert(samples.contains(list[at]));
    choose|j: int| 0 <= j < samples.len() && samples[j] == list[at]
}

/// What a folder is used for is told under its own path.
pub proof fn lemma_usage_samples_tell(
    sample: AnimeRootUsageSample,
    path: Seq<char>,
    usage: Map<Seq<Seq<char>>, AnimeRootUsage>,
)
    requires
        usage_sample_fits(sample, path, usage),
    ensures
        sample.path@ == path,
        usage.contains_key(paths::components(path)) ==> sample.filesystem_symlinks
            == usage[paths::components(path)].filesystem_symlinks && sample.db_active_links
            == usage[paths::components(path)].db_active_links,
        !usage.contains_key(paths::components(path)) ==> sample.filesystem_symlinks == 0
            && sample.db_active_links == 0,
{
}

/// The numbers of an audit are those of what it found: the shows that Plex lists more than
/// once, of which some are split, those of them that are split on the file system too, and
/// those that have a remedy; a sample shows the first of each.
pub proof fn lemma_audit_counts(
    parts: AuditParts,
    inputs: AuditInputs,
    out: AnimeDuplicateAuditOutput,
    full: bool,
)
    requires
        parts.follow(inputs),
        parts.shown_in(out, full),
    ensures
        out.plex_duplicate_show_groups matches Some(n) && n == parts.shows.len(),
        out.plex_hama_anidb_tvdb_groups matches Some(n) && n == split_count(parts.shows),
        out.plex_other_duplicate_show_groups matches Some(n) && n + split_count(parts.shows)
            == parts.shows.len(),
        out.correlated_hama_split_groups matches Some(n) && n == parts.correlated.len(),
        out.remediation_groups matches Some(n) && n == parts.remedies.len(),
        out.plex_sample_groups matches Some(list) && (full ==> list@.len() == parts.shows.len())
            && list@.len() <= parts.shows.len(),
        out.correlated_sample_groups matches Some(list) && list@.is_prefix_of(parts.correlated)
            && (full ==> list@ == parts.correlated),
        out.remediation_sample_groups matches Some(list) && list@.is_prefix_of(parts.remedies)
            && (full ==> list@ == parts.remedies),
        all_rows(parts.shows) == inputs.records.len(),
{
    lemma_every_row_is_grouped(parts.shows, inputs.records);
    assert(parts.correlated.take(parts.correlated.len() as int) =~= parts.correlated);
    assert(parts.remedies.take(parts.remedies.len() as int) =~= parts.remedies);
}

/// An audit without Plex tells only of the file system.
pub proof fn lemma_audit_without_plex(out: AnimeDuplicateAuditOutput)
    requires
        leaves_out_plex(out),
    ensures
        out.plex_duplicate_show_groups is None && out.plex_sample_groups is None
            && out.correlated_hama_split_groups is None && out.remediation_groups is None
            && out.remediation_sample_groups is None,
{
}

/// A group that is shown says what the group itself says.
pub proof fn lemma_shown_groups_say_the_same(
    a: PlexDuplicateShowSample,
    b: PlexDuplicateShowSample,
    sample: AnimeRootDuplicateSample,
    group: AnimeRootDuplicateGroup,
)
    ensures
        same_group(a, b) ==> a.title@ == b.title@ && a.original_title@ == b.original_title@
            && a.year == b.year && a.total_rows == b.total_rows && a.live_rows == b.live_rows
            && a.deleted_rows == b.deleted_rows && text::views(a.guids@) == text::views(b.guids@)
            && text::views(a.guid_kinds@) == text::views(b.guid_kinds@),
        shows_group(sample, group) ==> sample.normalized_title@ == group.normalized_title@
            && text::views(sample.tagged_roots@) == text::views(group.tagged_roots@)
            && text::views(sample.untagged_roots@) == text::views(group.untagged_roots@),
{
}

} // verus!
