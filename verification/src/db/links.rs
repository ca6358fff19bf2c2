//! Links in the database: which links a query asks for, and what its rows mean.

use vstd::prelude::*;
use crate::db;
use crate::db::types::DeadLinkSeed;
use crate::models::{LinkRecord, LinkStatus, MediaType};
use crate::order;
use crate::paths;
use crate::text;

verus! {

/// The text without the slashes at its end.
pub open spec fn without_slashes(value: Seq<char>) -> Seq<char>
    decreases value.len(),
{
    if value.len() > 0 && value.last() == '/' {
        without_slashes(value.drop_last())
    } else {
        value
    }
}

fn trim_slashes(value: &str) -> (out: String)
    ensures
        out@ == without_slashes(value@),
{
    let chars = text::chars_of(value);
    let mut end: usize = chars.len();
    assert(chars@.take(end as int) == chars@);
    while end > 0 && chars[end - 1] == '/'
        invariant
            end <= chars@.len(),
            chars@ == value@,
            without_slashes(chars@.take(end as int)) == without_slashes(value@),
        decreases end,
    {
        assert(chars@.take(end as int).drop_last() == chars@.take(end - 1));
        end -= 1;
    }
    assert(chars@.take(end as int) == chars@.subrange(0, end as int));
    text::text_between(&chars, 0, end)
}

/// The roots that a query is limited to, each once, in ascending order and without
/// slashes at the end; `None` where it is not limited.
pub open spec fn scoped_roots(roots: Option<Seq<Seq<char>>>) -> Option<Seq<Seq<char>>> {
    match roots {
        None => None,
        Some(list) => if list.len() == 0 {
            None
        } else {
            Some(
                order::distinct::<order::ByText>(
                    list.map_values(|root: Seq<char>| without_slashes(root)),
                ),
            )
        },
    }
}

/// The characters of the strings of an optional list.
pub open spec fn opt_views(list: Option<&Vec<String>>) -> Option<Seq<Seq<char>>> {
    match list {
        Some(l) => Some(text::views(l@)),
        None => None,
    }
}

/// The roots that a query is limited to.
pub fn normalize_scoped_root_texts(allowed_target_roots: Option<&Vec<String>>) -> (out: Option<
    Vec<String>,
>)
    ensures
        match out {
            Some(list) => scoped_roots(opt_views(allowed_target_roots)) == Some(
                text::views(list@),
            ),
            None => scoped_roots(opt_views(allowed_target_roots)) is None,
        },
{
    let roots = match allowed_target_roots {
        Some(roots) => roots,
        None => {
            return None;
        },
    };
    if roots.len() == 0 {
        return None;
    }
    let ghost wanted = text::views(roots@).map_values(|root: Seq<char>| without_slashes(root));
    let mut trimmed: Vec<String> = Vec::new();
    let mut i: usize = 0;
    assert(text::views(trimmed@) =~= wanted.take(0));
    while i < roots.len()
        invariant
            i <= roots@.len(),
            wanted == text::views(roots@).map_values(|root: Seq<char>| without_slashes(root)),
            text::views(trimmed@) == wanted.take(i as int),
        decreases roots@.len() - i,
    {
        text::push_text(&mut trimmed, trim_slashes(roots[i].as_str()));
        assert(text::views(trimmed@) =~= wanted.take(i + 1));
        i += 1;
    }
    assert(wanted.take(i as int) =~= wanted);
    Some(order::distinct_texts::<order::ByText>(trimmed))
}

/// The list in pieces of `size` items; the last piece may be shorter.
pub open spec fn chunked(list: Seq<Seq<char>>, size: nat) -> Seq<Seq<Seq<char>>>
    decreases list.len(),
{
    if list.len() == 0 || size == 0 {
        Seq::<Seq<Seq<char>>>::empty()
    } else if list.len() <= size {
        seq![list]
    } else {
        seq![list.take(size as int)] + chunked(list.skip(size as int), size)
    }
}

/// The characters of the strings of the lists.
pub open spec fn list_views(lists: Seq<Vec<String>>) -> Seq<Seq<Seq<char>>> {
    lists.map_values(|list: Vec<String>| text::views(list@))
}

/// Cuts a list into pieces of `size` items.
pub fn chunk_texts(list: &Vec<String>, size: usize) -> (out: Vec<Vec<String>>)
    requires
        size > 0,
    ensures
        list_views(out@) == chunked(text::views(list@), size as nat),
{
    let ghost all = text::views(list@);
    let mut out: Vec<Vec<String>> = Vec::new();
    let mut start: usize = 0;
    assert(all.skip(0) =~= all);
    assert(list_views(out@) + chunked(all.skip(0), size as nat) =~= chunked(all, size as nat));
    while start < list.len()
        invariant
            start <= list@.len(),
            size > 0,
            all == text::views(list@),
            list_views(out@) + chunked(all.skip(start as int), size as nat) == chunked(
                all,
                size as nat,
            ),
        decreases list@.len() - start,
    {
        let end: usize = if list.len() - start <= size {
            list.len()
        } else {
            start + size
        };
        let mut piece: Vec<String> = Vec::new();
        let mut i: usize = start;
        assert(text::views(piece@) =~= all.subrange(start as int, start as int));
        while i < end
            invariant
                start <= i <= end <= list@.len(),
                all == text::views(list@),
                text::views(piece@) == all.subrange(start as int, i as int),
            decreases end - i,
        {
            text::push_text(&mut piece, list[i].clone());
            assert(text::views(piece@) =~= all.subrange(start as int, i + 1));
            i += 1;
        }
        let ghost before = list_views(out@);
        let ghost held = piece@;
        out.push(piece);
        proof {
            let rest = all.skip(start as int);
            assert(list_views(out@) =~= before.push(text::views(held)));
            assert(all.skip(end as int) =~= rest.skip(end - start));
            if end < list.len() {
                assert(text::views(held) =~= rest.take(size as int));
                assert(list_views(out@) + chunked(all.skip(end as int), size as nat) =~= before
                    + chunked(rest, size as nat));
            } else {
                assert(text::views(held) =~= rest);
                assert(all.skip(end as int).len() == 0);
                assert(list_views(out@) + chunked(all.skip(end as int), size as nat) =~= before
                    + chunked(rest, size as nat));
            }
        }
        start = end;
    }
    assert(list_views(out@) + chunked(all.skip(start as int), size as nat) =~= list_views(out@));
    out
}

/// How links below roots are asked for.
#[derive(Debug, PartialEq, Eq)]
pub enum ScopedQuery {
    /// All links; the query is not limited.
    All,
    /// All links, of which those below the roots are kept.
    Filtered(Vec<String>),
    /// One query for each list of roots.
    Chunked(Vec<Vec<String>>),
}

/// How links below roots are asked for: many roots are not named in a query.
pub fn scoped_query(allowed_target_roots: Option<&Vec<String>>) -> (out: ScopedQuery)
    ensures
        match scoped_roots(opt_views(allowed_target_roots)) {
            None => out is All,
            Some(roots) => if roots.len() > 1024 {
                out matches ScopedQuery::Filtered(list) && text::views(list@) == roots
            } else {
                out matches ScopedQuery::Chunked(lists) && list_views(lists@) == chunked(roots, 250)
            },
        },
{
    match normalize_scoped_root_texts(allowed_target_roots) {
        None => ScopedQuery::All,
        Some(roots) => if roots.len() > db::SCOPED_ROOT_IN_MEMORY_FILTER_THRESHOLD {
            ScopedQuery::Filtered(roots)
        } else {
            ScopedQuery::Chunked(chunk_texts(&roots, db::SCOPED_ROOT_QUERY_CHUNK_SIZE))
        },
    }
}

/// The targets that links are asked for by, each once, in lists of at most five
/// hundred.
pub fn target_chunks(target_paths: &Vec<String>) -> (out: Vec<Vec<String>>)
    ensures
        list_views(out@) == chunked(
            order::distinct::<order::ByText>(text::views(target_paths@)),
            500,
        ),
{
    let distinct = order::distinct_texts::<order::ByText>(text::copy_texts(target_paths));
    chunk_texts(&distinct, 500)
}

/// Every item stands in one of the chunks, and nothing else does.
pub proof fn lemma_chunks_cover(list: Seq<Seq<char>>, size: nat, item: Seq<char>)
    requires
        size > 0,
    ensures
        list.contains(item) == exists|k: int|
            0 <= k < chunked(list, size).len() && (#[trigger] chunked(list, size)[k]).contains(
                item,
            ),
        forall|k: int|
            0 <= k < chunked(list, size).len() ==> 0 < (#[trigger] chunked(list, size)[k]).len()
                <= size,
    decreases list.len(),
{
    let chunks = chunked(list, size);
    if list.len() == 0 {
    } else if list.len() <= size {
        assert(chunks[0] == list);
    } else {
        let head = list.take(size as int);
        let tail = list.skip(size as int);
        let rest = chunked(tail, size);
        lemma_chunks_cover(tail, size, item);
        assert(chunks[0] == head);
        assert forall|k: int| 0 <= k < chunks.len() implies 0 < (#[trigger] chunks[k]).len()
            <= size by {
            if k > 0 {
                assert(chunks[k] == rest[k - 1]);
            }
        }
        if list.contains(item) {
            let i = choose|i: int| 0 <= i < list.len() && list[i] == item;
            if i < size {
                assert(head[i] == item);
                assert(chunks[0].contains(item));
            } else {
                assert(tail[i - size] == item);
                let k = choose|k: int| 0 <= k < rest.len() && (#[trigger] rest[k]).contains(item);
                assert(chunks[k + 1] == rest[k]);
            }
        }
        if exists|k: int| 0 <= k < chunks.len() && (#[trigger] chunks[k]).contains(item) {
            let k = choose|k: int| 0 <= k < chunks.len() && (#[trigger] chunks[k]).contains(item);
            if k == 0 {
                let i = choose|i: int| 0 <= i < head.len() && head[i] == item;
                assert(list[i] == item);
            } else {
                assert(rest[k - 1] == chunks[k]);
                let i = choose|i: int| 0 <= i < tail.len() && tail[i] == item;
                assert(list[i + size] == item);
            }
        }
    }
}

// ---------------------------------------------------------------------------
// The text of a query

/// A query with what is bound to its question marks.
#[derive(Debug, PartialEq, Eq)]
pub struct BoundQuery {
    pub sql: String,
    pub binds: Vec<String>,
}

/// The condition on a link for `n` roots.
pub open spec fn root_conditions(n: nat) -> Seq<char>
    decreases n,
{
    if n == 0 {
        Seq::<char>::empty()
    } else if n == 1 {
        "target_path LIKE ? ESCAPE '\\'"@
    } else {
        root_conditions((n - 1) as nat) + " OR "@ + "target_path LIKE ? ESCAPE '\\'"@
    }
}

/// The patterns of what lies below the roots.
pub open spec fn root_patterns(roots: Seq<Seq<char>>) -> Seq<Seq<char>> {
    roots.map_values(|root: Seq<char>| db::escaped(root) + "/%"@)
}

/// A query limited to the targets below the roots; without roots it stays as it is.
pub fn push_target_root_like_clause(query: &str, roots: &Vec<String>) -> (out: BoundQuery)
    ensures
        text::views(out.binds@) == root_patterns(text::views(roots@)),
        out.sql@ == (if roots@.len() == 0 {
            query@
        } else {
            query@ + (if text::has_part(query@, " WHERE "@) {
                " AND ("@
            } else {
                " WHERE ("@
            }) + root_conditions(roots@.len()) + ")"@
        }),
{
    let ghost wanted = root_patterns(text::views(roots@));
    let mut binds: Vec<String> = Vec::new();
    assert(text::views(binds@) =~= wanted.take(0));
    if roots.len() == 0 {
        assert(wanted.take(0) =~= wanted);
        return BoundQuery { sql: query.to_owned(), binds };
    }
    let mut sql: String = query.to_owned();
    if text::contains_text(query, " WHERE ") {
        sql.append(" AND (");
    } else {
        sql.append(" WHERE (");
    }
    let ghost head = sql@;
    let mut i: usize = 0;
    assert(sql@ =~= head + root_conditions(0));
    while i < roots.len()
        invariant
            i <= roots@.len(),
            wanted == root_patterns(text::views(roots@)),
            text::views(binds@) == wanted.take(i as int),
            sql@ == head + root_conditions(i as nat),
        decreases roots@.len() - i,
    {
        if i > 0 {
            sql.append(" OR ");
        }
        sql.append("target_path LIKE ? ESCAPE '\\'");
        text::push_text(
            &mut binds,
            text::concat2(db::escape_sql_like(roots[i].as_str()).as_str(), "/%"),
        );
        assert(text::views(binds@) =~= wanted.take(i + 1));
        assert(sql@ =~= head + root_conditions((i + 1) as nat));
        i += 1;
    }
    assert(wanted.take(i as int) =~= wanted);
    sql.append(")");
    BoundQuery { sql, binds }
}

/// The pattern of a root matches the targets that begin with the root and a slash,
/// ASCII letters in either case, and no other.
pub proof fn lemma_root_pattern(root: Seq<char>, target: Seq<char>)
    ensures
        db::like(db::escaped(root) + "/%"@, target) == db::begins_folded(target, root + "/"@),
{
    reveal_strlit("/%");
    reveal_strlit("/");
    reveal_strlit("%");
    lemma_escaped_push(root);
    assert(db::escaped(root) + "/%"@ =~= db::escaped(root + "/"@) + "%"@);
    db::lemma_like_prefix(root + "/"@, target);
}

proof fn lemma_escaped_push(value: Seq<char>)
    ensures
        db::escaped(value + "/"@) == db::escaped(value) + "/"@,
    decreases value.len(),
{
    reveal_strlit("/");
    if value.len() == 0 {
        reveal_with_fuel(db::escaped, 2);
        assert((value + "/"@).skip(1) =~= Seq::<char>::empty());
        assert(value + "/"@ =~= seq!['/']);
        assert(db::escaped(value + "/"@) =~= seq!['/']);
        assert(db::escaped(value) + "/"@ =~= seq!['/']);
    } else {
        assert((value + "/"@).skip(1) =~= value.skip(1) + "/"@);
        lemma_escaped_push(value.skip(1));
        assert(db::escaped(value + "/"@) =~= db::escaped(value) + "/"@);
    }
}

/// The text of an episode's slot, `SxxEyy`.
pub open spec fn slot_text(season: u32, episode: u32) -> Seq<char> {
    "S"@ + text::decimal2(season as nat) + "E"@ + text::decimal2(episode as nat)
}

/// Whether a slot stands in a target at a place, its letters in either case, and its
/// number ends there.
pub open spec fn slot_at(target: Seq<char>, slot: Seq<char>, at: int) -> bool {
    &&& 0 <= at <= target.len()
    &&& db::begins_folded(target.skip(at), slot)
    &&& at + slot.len() < target.len() ==> !text::is_digit(target[at + slot.len()])
}

/// Whether a target names the slot of an episode.
pub open spec fn names_slot(target: Seq<char>, season: u32, episode: u32) -> bool {
    exists|at: int| #[trigger] slot_at(target, slot_text(season, episode), at)
}

/// The pattern of the targets that may name the slot of an episode.
pub fn episode_pattern(season: u32, episode: u32) -> (out: String)
    ensures
        out@ == "%"@ + slot_text(season, episode) + "%"@,
{
    let slot = episode_slot(season, episode);
    text::concat3("%", slot.as_str(), "%")
}

fn episode_slot(season: u32, episode: u32) -> (out: String)
    ensures
        out@ == slot_text(season, episode),
{
    text::concat4(
        "S",
        text::decimal2_text(season as u64).as_str(),
        "E",
        text::decimal2_text(episode as u64).as_str(),
    )
}

fn same_letter(a: char, b: char) -> (same: bool)
    ensures
        same == (db::folded(a) == db::folded(b)),
{
    let m: u32 = a as u32;
    let n: u32 = b as u32;
    let low_a: u32 = if 65 <= m && m <= 90 { m + 32 } else { m };
    let low_b: u32 = if 65 <= n && n <= 90 { n + 32 } else { n };
    low_a == low_b
}

fn has_slot_at(target: &Vec<char>, slot: &Vec<char>, at: usize) -> (b: bool)
    requires
        at <= target@.len(),
    ensures
        b == slot_at(target@, slot@, at as int),
{
    if slot.len() > target.len() - at {
        return false;
    }
    let mut i: usize = 0;
    while i < slot.len()
        invariant
            at + slot@.len() <= target.len(),
            i <= slot@.len(),
            forall|k: int|
                0 <= k < i ==> db::folded(#[trigger] target@.skip(at as int)[k]) == db::folded(
                    slot@[k],
                ),
        decreases slot@.len() - i,
    {
        assert(target@.skip(at as int)[i as int] == target@[at + i]);
        if !same_letter(target[at + i], slot[i]) {
            return false;
        }
        i += 1;
    }
    at + slot.len() >= target.len() || !text::is_digit_char(target[at + slot.len()])
}

/// Whether a target names the slot of an episode: with no digit behind it, so that the
/// slot of episode 10 is not that of episode 100.
pub fn target_names_slot(target: &str, season: u32, episode: u32) -> (b: bool)
    ensures
        b == names_slot(target@, season, episode),
{
    let chars = text::chars_of(target);
    let slot = text::chars_of(episode_slot(season, episode).as_str());
    let mut i: usize = 0;
    while i < chars.len()
        invariant
            i <= chars@.len(),
            chars@ == target@,
            slot@ == slot_text(season, episode),
            forall|k: int| 0 <= k < i ==> !#[trigger] slot_at(target@, slot@, k),
        decreases chars@.len() - i,
    {
        if has_slot_at(&chars, &slot, i) {
            assert(slot_at(target@, slot_text(season, episode), i as int));
            return true;
        }
        i += 1;
    }
    proof {
        reveal_strlit("S");
        reveal_strlit("E");
        assert(slot@.len() > 0);
    }
    false
}

/// Whether one of the records is an active link for the slot of an episode.
pub fn has_active_link_for_episode(
    records: &Vec<LinkRecord>,
    media_id: &str,
    season: u32,
    episode: u32,
) -> (b: bool)
    ensures
        b == exists|i: int|
            0 <= i < records@.len() && records@[i].status == LinkStatus::Active
                && records@[i].media_id@ == media_id@ && #[trigger] names_slot(
                records@[i].target_path@,
                season,
                episode,
            ),
{
    let mut i: usize = 0;
    while i < records.len()
        invariant
            i <= records@.len(),
            forall|k: int|
                0 <= k < i ==> !(records@[k].status == LinkStatus::Active
                    && records@[k].media_id@ == media_id@ && #[trigger] names_slot(
                    records@[k].target_path@,
                    season,
                    episode,
                )),
        decreases records@.len() - i,
    {
        let record = &records[i];
        let active = match record.status {
            LinkStatus::Active => true,
            _ => false,
        };
        if active && text::text_eq(record.media_id.as_str(), media_id) && target_names_slot(
            record.target_path.as_str(),
            season,
            episode,
        ) {
            assert(names_slot(records@[i as int].target_path@, season, episode));
            return true;
        }
        i += 1;
    }
    false
}

/// The pattern of a slot misses no target that names the slot.
pub proof fn lemma_episode_pattern_finds_slot(target: Seq<char>, season: u32, episode: u32)
    requires
        names_slot(target, season, episode),
    ensures
        db::like("%"@ + slot_text(season, episode) + "%"@, target),
{
    reveal_strlit("%");
    let slot = slot_text(season, episode);
    let at = choose|at: int| #[trigger] slot_at(target, slot, at);
    lemma_slot_is_plain(season, episode);
    lemma_plain_is_escaped(slot);
    db::lemma_like_prefix(slot, target.skip(at));
    assert("%"@ + slot + "%"@ =~= seq!['%'] + (slot + "%"@));
    lemma_like_later(slot + "%"@, target, at);
}

proof fn lemma_like_later(pattern: Seq<char>, value: Seq<char>, at: int)
    requires
        0 <= at <= value.len(),
        db::like(pattern, value.skip(at)),
    ensures
        db::like(seq!['%'] + pattern, value),
    decreases at,
{
    let whole = seq!['%'] + pattern;
    assert(whole.skip(1) =~= pattern);
    if at == 0 {
        assert(value.skip(0) =~= value);
    } else {
        assert(value.skip(1).skip(at - 1) =~= value.skip(at));
        lemma_like_later(pattern, value.skip(1), at - 1);
    }
}

/// Whether no character of a text means anything in a pattern.
spec fn is_plain(value: Seq<char>) -> bool {
    forall|i: int| 0 <= i < value.len() ==> db::escaped_char(#[trigger] value[i]) == seq![value[i]]
}

proof fn lemma_plain_is_escaped(value: Seq<char>)
    requires
        is_plain(value),
    ensures
        db::escaped(value) == value,
    decreases value.len(),
{
    if value.len() > 0 {
        let rest = value.skip(1);
        assert forall|i: int| 0 <= i < rest.len() implies db::escaped_char(#[trigger] rest[i])
            == seq![rest[i]] by {
            assert(rest[i] == value[i + 1]);
        }
        lemma_plain_is_escaped(rest);
        assert(db::escaped_char(value[0]) == seq![value[0]]);
        assert(db::escaped(value) =~= value);
    }
}

proof fn lemma_decimal2_is_plain(n: nat)
    ensures
        is_plain(text::decimal2(n)),
{
    reveal_strlit("0");
    text::lemma_number_of_decimal(n);
    assert forall|i: int| 0 <= i < text::decimal2(n).len() implies db::escaped_char(
        #[trigger] text::decimal2(n)[i],
    ) == seq![text::decimal2(n)[i]] by {
        if n < 10 && i > 0 {
            assert(text::decimal2(n)[i] == text::decimal(n)[i - 1]);
        }
        assert(text::is_digit(text::decimal2(n)[i]));
    }
}

proof fn lemma_slot_is_plain(season: u32, episode: u32)
    ensures
        is_plain(slot_text(season, episode)),
{
    reveal_strlit("S");
    reveal_strlit("E");
    let first = text::decimal2(season as nat);
    let second = text::decimal2(episode as nat);
    lemma_decimal2_is_plain(season as nat);
    lemma_decimal2_is_plain(episode as nat);
    let slot = slot_text(season, episode);
    assert forall|i: int| 0 <= i < slot.len() implies db::escaped_char(#[trigger] slot[i]) == seq![
        slot[i],
    ] by {
        if 1 <= i <= first.len() {
            assert(slot[i] == first[i - 1]);
        } else if i > first.len() + 1 {
            assert(slot[i] == second[i - first.len() - 2]);
        }
    }
}

// ---------------------------------------------------------------------------
// Filtering in memory

/// The path `n` levels above, as written.
pub open spec fn ancestor(path: Seq<char>, n: nat) -> Option<Seq<char>>
    decreases n,
{
    if n == 0 {
        Some(path)
    } else {
        match ancestor(path, (n - 1) as nat) {
            Some(p) => paths::parent(p),
            None => None,
        }
    }
}

/// Whether the path `n` levels above is one of the roots.
pub open spec fn root_at(path: Seq<char>, roots: Seq<Seq<char>>, n: nat) -> bool {
    ancestor(path, n) is Some && roots.contains(without_slashes(ancestor(path, n)->0))
}

/// Whether the path or one above it is one of the roots.
pub open spec fn matches_root(path: Seq<char>, roots: Seq<Seq<char>>) -> bool {
    exists|n: nat| #[trigger] root_at(path, roots, n)
}

proof fn lemma_no_ancestor_above(path: Seq<char>, n: nat, m: nat)
    requires
        ancestor(path, n) is None,
        n <= m,
    ensures
        ancestor(path, m) is None,
    decreases m,
{
    if n < m {
        lemma_no_ancestor_above(path, n, (m - 1) as nat);
    }
}

fn holds_text(list: &Vec<String>, item: &str) -> (b: bool)
    ensures
        b == text::views(list@).contains(item@),
{
    let mut i: usize = 0;
    while i < list.len()
        invariant
            i <= list@.len(),
            forall|k: int| 0 <= k < i ==> (#[trigger] list@[k])@ != item@,
        decreases list@.len() - i,
    {
        if text::text_eq(list[i].as_str(), item) {
            assert(text::views(list@)[i as int] == item@);
            return true;
        }
        i += 1;
    }
    proof {
        if text::views(list@).contains(item@) {
            let k = choose|k: int|
                0 <= k < text::views(list@).len() && text::views(list@)[k] == item@;
            assert(list@[k]@ == item@);
        }
    }
    false
}

/// Whether the path or one above it is one of the roots.
pub fn path_matches_any_root(path: &str, roots: &Vec<String>) -> (b: bool)
    ensures
        b == matches_root(path@, text::views(roots@)),
{
    let ghost all = text::views(roots@);
    let ghost mut n: nat = 0;
    let mut current: String = path.to_owned();
    loop
        invariant
            all == text::views(roots@),
            ancestor(path@, n) == Some(current@),
            forall|k: nat| k < n ==> !#[trigger] root_at(path@, all, k),
        decreases current@.len(),
    {
        if holds_text(roots, trim_slashes(current.as_str()).as_str()) {
            assert(root_at(path@, all, n));
            return true;
        }
        proof {
            paths::lemma_parent_is_shorter(current@);
        }
        match paths::parent_of(current.as_str()) {
            Some(above) => {
                assert(ancestor(path@, n + 1) == Some(above@));
                current = above;
                proof {
                    n = n + 1;
                }
            },
            None => {
                proof {
                    assert(ancestor(path@, n + 1) is None);
                    assert forall|k: nat| !#[trigger] root_at(path@, all, k) by {
                        if k > n {
                            lemma_no_ancestor_above(path@, n + 1, k);
                        }
                    }
                }
                return false;
            },
        }
    }
}

/// The records whose target lies at or below one of the roots, in order.
pub open spec fn kept_records(records: Seq<LinkRecord>, roots: Seq<Seq<char>>) -> Seq<LinkRecord> {
    records.filter(|r: LinkRecord| matches_root(r.target_path@, roots))
}

/// The records whose target lies at or below one of the roots.
pub fn filter_link_records_by_roots(records: &Vec<LinkRecord>, roots: &Vec<String>) -> (out: Vec<
    LinkRecord,
>)
    ensures
        out@ == kept_records(records@, text::views(roots@)),
{
    let ghost all = text::views(roots@);
    let ghost keep = |r: LinkRecord| matches_root(r.target_path@, all);
    let mut out: Vec<LinkRecord> = Vec::new();
    let mut i: usize = 0;
    assert(records@.take(0) =~= Seq::<LinkRecord>::empty());
    proof {
        reveal(Seq::filter);
    }
    while i < records.len()
        invariant
            i <= records@.len(),
            all == text::views(roots@),
            keep == (|r: LinkRecord| matches_root(r.target_path@, all)),
            out@ == records@.take(i as int).filter(keep),
        decreases records@.len() - i,
    {
        proof {
            reveal(Seq::filter);
            assert(records@.take(i + 1).drop_last() =~= records@.take(i as int));
        }
        if path_matches_any_root(records[i].target_path.as_str(), roots) {
            out.push(records[i].clone());
        }
        i += 1;
    }
    assert(records@.take(i as int) =~= records@);
    out
}

/// The seeds whose target lies at or below one of the roots, in order.
pub open spec fn kept_seeds(seeds: Seq<DeadLinkSeed>, roots: Seq<Seq<char>>) -> Seq<DeadLinkSeed> {
    seeds.filter(|s: DeadLinkSeed| matches_root(s.target_path@, roots))
}

/// The seeds whose target lies at or below one of the roots.
pub fn filter_dead_link_seeds_by_roots(seeds: &Vec<DeadLinkSeed>, roots: &Vec<String>) -> (out: Vec<
    DeadLinkSeed,
>)
    ensures
        out@ == kept_seeds(seeds@, text::views(roots@)),
{
    let ghost all = text::views(roots@);
    let ghost keep = |s: DeadLinkSeed| matches_root(s.target_path@, all);
    let mut out: Vec<DeadLinkSeed> = Vec::new();
    let mut i: usize = 0;
    assert(seeds@.take(0) =~= Seq::<DeadLinkSeed>::empty());
    proof {
        reveal(Seq::filter);
    }
    while i < seeds.len()
        invariant
            i <= seeds@.len(),
            all == text::views(roots@),
            keep == (|s: DeadLinkSeed| matches_root(s.target_path@, all)),
            out@ == seeds@.take(i as int).filter(keep),
        decreases seeds@.len() - i,
    {
        proof {
            reveal(Seq::filter);
            assert(seeds@.take(i + 1).drop_last() =~= seeds@.take(i as int));
        }
        if path_matches_any_root(seeds[i].target_path.as_str(), roots) {
            out.push(seeds[i].clone());
        }
        i += 1;
    }
    assert(seeds@.take(i as int) =~= seeds@);
    out
}

// ---------------------------------------------------------------------------
// One record for each target

/// Whether a list has a record for the target.
pub open spec fn has_target(records: Seq<LinkRecord>, target: Seq<char>) -> bool {
    exists|k: int| 0 <= k < records.len() && (#[trigger] records[k]).target_path@ == target
}

/// The records, of those with the same target the first one only.
pub open spec fn first_records(records: Seq<LinkRecord>) -> Seq<LinkRecord>
    decreases records.len(),
{
    if records.len() == 0 {
        records
    } else {
        let before = first_records(records.drop_last());
        if has_target(records.drop_last(), records.last().target_path@) {
            before
        } else {
            before.push(records.last())
        }
    }
}

/// Keeps the first record for each target.
pub fn dedupe_link_records(records: &Vec<LinkRecord>) -> (out: Vec<LinkRecord>)
    ensures
        out@ == first_records(records@),
{
    let mut out: Vec<LinkRecord> = Vec::new();
    let mut i: usize = 0;
    assert(records@.take(0) =~= Seq::<LinkRecord>::empty());
    while i < records.len()
        invariant
            i <= records@.len(),
            out@ == first_records(records@.take(i as int)),
        decreases records@.len() - i,
    {
        let ghost seen = records@.take(i as int);
        assert(records@.take(i + 1).drop_last() =~= seen);
        let mut k: usize = 0;
        while k < i && !text::text_eq(
            records[k].target_path.as_str(),
            records[i].target_path.as_str(),
        )
            invariant
                k <= i < records@.len(),
                forall|j: int|
                    0 <= j < k ==> (#[trigger] records@[j]).target_path@
                        != records@[i as int].target_path@,
            decreases i - k,
        {
            k += 1;
        }
        proof {
            let target = records@[i as int].target_path@;
            if k < i {
                assert(seen[k as int].target_path@ == target);
            } else if has_target(seen, target) {
                let j = choose|j: int|
                    0 <= j < seen.len() && (#[trigger] seen[j]).target_path@ == target;
                assert(records@[j].target_path@ == target);
            }
        }
        if k == i {
            out.push(records[i].clone());
        }
        i += 1;
    }
    assert(records@.take(i as int) =~= records@);
    out
}

/// Whether a list has a seed for the target.
pub open spec fn has_seed(seeds: Seq<DeadLinkSeed>, target: Seq<char>) -> bool {
    exists|k: int| 0 <= k < seeds.len() && (#[trigger] seeds[k]).target_path@ == target
}

/// The seeds, of those with the same target the first one only.
pub open spec fn first_seeds(seeds: Seq<DeadLinkSeed>) -> Seq<DeadLinkSeed>
    decreases seeds.len(),
{
    if seeds.len() == 0 {
        seeds
    } else {
        let before = first_seeds(seeds.drop_last());
        if has_seed(seeds.drop_last(), seeds.last().target_path@) {
            before
        } else {
            before.push(seeds.last())
        }
    }
}

/// Keeps the first seed for each target.
pub fn dedupe_dead_link_seeds(seeds: &Vec<DeadLinkSeed>) -> (out: Vec<DeadLinkSeed>)
    ensures
        out@ == first_seeds(seeds@),
{
    let mut out: Vec<DeadLinkSeed> = Vec::new();
    let mut i: usize = 0;
    assert(seeds@.take(0) =~= Seq::<DeadLinkSeed>::empty());
    while i < seeds.len()
        invariant
            i <= seeds@.len(),
            out@ == first_seeds(seeds@.take(i as int)),
        decreases seeds@.len() - i,
    {
        let ghost seen = seeds@.take(i as int);
        assert(seeds@.take(i + 1).drop_last() =~= seen);
        let mut k: usize = 0;
        while k < i && !text::text_eq(
            seeds[k].target_path.as_str(),
            seeds[i].target_path.as_str(),
        )
            invariant
                k <= i < seeds@.len(),
                forall|j: int|
                    0 <= j < k ==> (#[trigger] seeds@[j]).target_path@
                        != seeds@[i as int].target_path@,
            decreases i - k,
        {
            k += 1;
        }
        proof {
            let target = seeds@[i as int].target_path@;
            if k < i {
                assert(seen[k as int].target_path@ == target);
            } else if has_seed(seen, target) {
                let j = choose|j: int|
                    0 <= j < seen.len() && (#[trigger] seen[j]).target_path@ == target;
                assert(seeds@[j].target_path@ == target);
            }
        }
        if k == i {
            out.push(seeds[i].clone());
        }
        i += 1;
    }
    assert(seeds@.take(i as int) =~= seeds@);
    out
}

/// Of the records for a target one is kept, and no two kept records share a target.
pub proof fn lemma_first_records(records: Seq<LinkRecord>)
    ensures
        forall|target: Seq<char>| #[trigger]
            has_target(first_records(records), target) == has_target(records, target),
        forall|i: int, j: int|
            #![trigger first_records(records)[i], first_records(records)[j]]
            0 <= i < j < first_records(records).len() ==> first_records(records)[i].target_path@
                != first_records(records)[j].target_path@,
    decreases records.len(),
{
    if records.len() > 0 {
        let rest = records.drop_last();
        let before = first_records(rest);
        let kept = first_records(records);
        lemma_first_records(rest);
        assert forall|target: Seq<char>| #[trigger] has_target(kept, target) == has_target(
            records,
            target,
        ) by {
            assert(has_target(before, target) == has_target(rest, target));
            if has_target(records, target) {
                let k = choose|k: int|
                    0 <= k < records.len() && (#[trigger] records[k]).target_path@ == target;
                if k < rest.len() {
                    assert(rest[k].target_path@ == target);
                }
                if has_target(rest, target) {
                    let m = choose|m: int|
                        0 <= m < before.len() && (#[trigger] before[m]).target_path@ == target;
                    assert(kept[m].target_path@ == target);
                } else {
                    assert(kept[before.len() as int].target_path@ == target);
                }
            }
            if has_target(kept, target) {
                let m = choose|m: int|
                    0 <= m < kept.len() && (#[trigger] kept[m]).target_path@ == target;
                if m < before.len() {
                    assert(before[m].target_path@ == target);
                    assert(has_target(rest, target));
                    let k = choose|k: int|
                        0 <= k < rest.len() && (#[trigger] rest[k]).target_path@ == target;
                    assert(records[k].target_path@ == target);
                } else {
                    assert(records[records.len() - 1].target_path@ == target);
                }
            }
        }
        assert forall|i: int, j: int|
            #![trigger kept[i], kept[j]]
            0 <= i < j < kept.len() implies kept[i].target_path@ != kept[j].target_path@ by {
            if j < before.len() {
                assert(before[i] == kept[i] && before[j] == kept[j]);
            } else {
                let last = records.last().target_path@;
                assert(before[i] == kept[i]);
                assert(has_target(before, last) == has_target(rest, last));
            }
        }
    }
}

// ---------------------------------------------------------------------------
// Rows

/// The name of a kind of media in the database.
pub open spec fn media_type_text(media_type: MediaType) -> Seq<char> {
    match media_type {
        MediaType::Tv => "tv"@,
        MediaType::Movie => "movie"@,
    }
}

/// The name of a kind of media in the database.
pub fn media_type_name(media_type: MediaType) -> (out: &'static str)
    ensures
        out@ == media_type_text(media_type),
{
    match media_type {
        MediaType::Tv => "tv",
        MediaType::Movie => "movie",
    }
}

/// The kind of media that a name in the database means.
pub open spec fn media_type_meant(name: Seq<char>) -> MediaType {
    if name == "movie"@ {
        MediaType::Movie
    } else {
        MediaType::Tv
    }
}

/// The kind of media that a name in the database means.
pub fn media_type_of(name: &str) -> (out: MediaType)
    ensures
        out == media_type_meant(name@),
{
    if text::text_eq(name, "movie") {
        MediaType::Movie
    } else {
        MediaType::Tv
    }
}

/// The name of a link's status in the database.
pub open spec fn link_status_text(status: LinkStatus) -> Seq<char> {
    match status {
        LinkStatus::Active => "active"@,
        LinkStatus::Dead => "dead"@,
        LinkStatus::Removed => "removed"@,
    }
}

/// The name of a link's status in the database.
pub fn link_status_name(status: LinkStatus) -> (out: &'static str)
    ensures
        out@ == link_status_text(status),
{
    match status {
        LinkStatus::Active => "active",
        LinkStatus::Dead => "dead",
        LinkStatus::Removed => "removed",
    }
}

/// The status that a name in the database means.
pub open spec fn link_status_meant(name: Seq<char>) -> LinkStatus {
    if name == "dead"@ {
        LinkStatus::Dead
    } else if name == "removed"@ {
        LinkStatus::Removed
    } else {
        LinkStatus::Active
    }
}

/// The status that a name in the database means.
pub fn link_status_of(name: &str) -> (out: LinkStatus)
    ensures
        out == link_status_meant(name@),
{
    if text::text_eq(name, "dead") {
        LinkStatus::Dead
    } else if text::text_eq(name, "removed") {
        LinkStatus::Removed
    } else {
        LinkStatus::Active
    }
}

/// What is stored of a kind of media and of a status is read back.
pub proof fn lemma_link_names_are_read_back(media_type: MediaType, status: LinkStatus)
    ensures
        media_type_meant(media_type_text(media_type)) == media_type,
        link_status_meant(link_status_text(status)) == status,
{
    reveal_strlit("tv");
    reveal_strlit("movie");
    reveal_strlit("active");
    reveal_strlit("dead");
    reveal_strlit("removed");
    assert("tv"@.len() != "movie"@.len());
    assert("active"@.len() != "dead"@.len());
    assert("active"@.len() != "removed"@.len());
    assert("dead"@.len() != "removed"@.len());
}

/// A row of the links.
#[derive(Debug, PartialEq, Eq)]
pub struct LinkRow {
    pub id: i64,
    pub source_path: String,
    pub target_path: String,
    pub media_id: String,
    pub media_type: String,
    pub status: String,
    pub created_at: Option<String>,
    pub updated_at: Option<String>,
}

/// The record of a row.
pub fn row_to_link_record(row: LinkRow) -> (out: LinkRecord)
    ensures
        out.id == Some(row.id),
        out.source_path == row.source_path,
        out.target_path == row.target_path,
        out.media_id == row.media_id,
        out.media_type == media_type_meant(row.media_type@),
        out.status == link_status_meant(row.status@),
        out.created_at == row.created_at,
        out.updated_at == row.updated_at,
{
    let media_type = media_type_of(row.media_type.as_str());
    let status = link_status_of(row.status.as_str());
    LinkRecord {
        id: Some(row.id),
        source_path: row.source_path,
        target_path: row.target_path,
        media_id: row.media_id,
        media_type,
        status,
        created_at: row.created_at,
        updated_at: row.updated_at,
    }
}

// ---------------------------------------------------------------------------
// What limiting and filtering amount to

/// Only slashes go, only from the end, and all of them.
pub proof fn lemma_slashes_go_from_the_end(value: Seq<char>)
    ensures
        without_slashes(value).is_prefix_of(value),
        without_slashes(value).len() > 0 ==> without_slashes(value).last() != '/',
        forall|i: int| without_slashes(value).len() <= i < value.len() ==> #[trigger] value[i] == '/',
    decreases value.len(),
{
    if value.len() > 0 && value.last() == '/' {
        let rest = value.drop_last();
        lemma_slashes_go_from_the_end(rest);
        let kept = without_slashes(value);
        assert(value.subrange(0, kept.len() as int) =~= rest.subrange(0, kept.len() as int));
        assert forall|i: int| kept.len() <= i < value.len() implies #[trigger] value[i] == '/' by {
            if i < rest.len() {
                assert(rest[i] == value[i]);
            }
        }
    } else {
        assert(value.subrange(0, value.len() as int) =~= value);
    }
}

/// A query without roots is not limited; else it is limited to the roots given, each once.
pub proof fn lemma_roots_limit_a_query(roots: Option<Seq<Seq<char>>>, i: int)
    ensures
        scoped_roots(roots) is None <==> roots is None || roots->0.len() == 0,
        scoped_roots(roots) matches Some(list) ==> {
            &&& 0 <= i < roots->0.len() ==> list.contains(without_slashes(roots->0[i]))
            &&& forall|root: Seq<char>| #[trigger]
                list.contains(root) ==> exists|k: int|
                    0 <= k < roots->0.len() && root == without_slashes(#[trigger] roots->0[k])
            &&& order::ascending::<order::ByText>(list)
        },
{
    if let Some(list) = scoped_roots(roots) {
        let all = roots->0.map_values(|root: Seq<char>| without_slashes(root));
        order::lemma_distinct::<order::ByText>(all);
        if 0 <= i < all.len() {
            assert(order::has_tie::<order::ByText>(list, all[i]));
            let k = choose|k: int|
                0 <= k < list.len() && order::ties::<order::ByText>(#[trigger] list[k], all[i]);
            order::lemma_text_before_total(list[k], all[i]);
            assert(list[k] == all[i]);
        }
        assert forall|root: Seq<char>| #[trigger] list.contains(root) implies exists|k: int|
            0 <= k < roots->0.len() && root == without_slashes(#[trigger] roots->0[k]) by {
            assert(all.contains(root));
            let k = choose|k: int| 0 <= k < all.len() && all[k] == root;
            assert(root == without_slashes(roots->0[k]));
        }
    }
}

proof fn lemma_ancestor_above(path: Seq<char>, n: nat)
    requires
        paths::parent(path) is Some,
    ensures
        ancestor(path, n + 1) == ancestor(paths::parent(path)->0, n),
    decreases n,
{
    if n == 0 {
        reveal_with_fuel(ancestor, 2);
    } else {
        lemma_ancestor_above(path, (n - 1) as nat);
    }
}

/// A path belongs to the roots exactly where it is one of them or the path above it
/// belongs to them; nothing above the root or a name alone does.
pub proof fn lemma_roots_hold_what_is_below(path: Seq<char>, roots: Seq<Seq<char>>)
    ensures
        matches_root(path, roots) <==> roots.contains(without_slashes(path)) || (paths::parent(
            path,
        ) is Some && matches_root(paths::parent(path)->0, roots)),
{
    if roots.contains(without_slashes(path)) {
        assert(root_at(path, roots, 0));
    }
    if paths::parent(path) is Some && matches_root(paths::parent(path)->0, roots) {
        let n = choose|n: nat| #[trigger] root_at(paths::parent(path)->0, roots, n);
        lemma_ancestor_above(path, n);
        assert(root_at(path, roots, n + 1));
    }
    if matches_root(path, roots) {
        let n = choose|n: nat| #[trigger] root_at(path, roots, n);
        if n > 0 {
            if paths::parent(path) is Some {
                lemma_ancestor_above(path, (n - 1) as nat);
                assert(root_at(paths::parent(path)->0, roots, (n - 1) as nat));
            } else {
                reveal_with_fuel(ancestor, 2);
                assert(ancestor(path, 1) is None);
                lemma_no_ancestor_above(path, 1, n);
            }
        }
    }
}

/// A record is kept exactly where its target belongs to the roots.
pub proof fn lemma_records_below_roots_are_kept(
    records: Seq<LinkRecord>,
    roots: Seq<Seq<char>>,
    record: LinkRecord,
)
    ensures
        kept_records(records, roots).contains(record) <==> records.contains(record) && matches_root(
            record.target_path@,
            roots,
        ),
    decreases records.len(),
{
    reveal(Seq::filter);
    if records.len() > 0 {
        let rest = records.drop_last();
        lemma_records_below_roots_are_kept(rest, roots, record);
        let kept = kept_records(rest, roots);
        let last = records.last();
        assert(records =~= rest.push(last));
        assert(records.contains(record) <==> rest.contains(record) || record == last) by {
            if rest.contains(record) {
                let i = choose|i: int| 0 <= i < rest.len() && rest[i] == record;
                assert(records[i] == record);
            }
            if record == last {
                assert(records[records.len() - 1] == record);
            }
        }
        assert(kept.push(last).contains(record) <==> kept.contains(record) || record == last) by {
            if kept.contains(record) {
                let i = choose|i: int| 0 <= i < kept.len() && kept[i] == record;
                assert(kept.push(last)[i] == record);
            }
            if record == last {
                assert(kept.push(last)[kept.len() as int] == record);
            }
        }
    }
}

/// A seed is kept exactly where its target belongs to the roots.
pub proof fn lemma_seeds_below_roots_are_kept(
    seeds: Seq<DeadLinkSeed>,
    roots: Seq<Seq<char>>,
    seed: DeadLinkSeed,
)
    ensures
        kept_seeds(seeds, roots).contains(seed) <==> seeds.contains(seed) && matches_root(
            seed.target_path@,
            roots,
        ),
    decreases seeds.len(),
{
    reveal(Seq::filter);
    if seeds.len() > 0 {
        let rest = seeds.drop_last();
        lemma_seeds_below_roots_are_kept(rest, roots, seed);
        let kept = kept_seeds(rest, roots);
        let last = seeds.last();
        assert(seeds =~= rest.push(last));
        assert(seeds.contains(seed) <==> rest.contains(seed) || seed == last) by {
            if rest.contains(seed) {
                let i = choose|i: int| 0 <= i < rest.len() && rest[i] == seed;
                assert(seeds[i] == seed);
            }
            if seed == last {
                assert(seeds[seeds.len() - 1] == seed);
            }
        }
        assert(kept.push(last).contains(seed) <==> kept.contains(seed) || seed == last) by {
            if kept.contains(seed) {
                let i = choose|i: int| 0 <= i < kept.len() && kept[i] == seed;
                assert(kept.push(last)[i] == seed);
            }
            if seed == last {
                assert(kept.push(last)[kept.len() as int] == seed);
            }
        }
    }
}

/// Of records with one target the first is kept.
pub proof fn lemma_first_record_is_kept(records: Seq<LinkRecord>, i: int)
    requires
        0 <= i < records.len(),
        forall|j: int|
            0 <= j < i ==> (#[trigger] records[j]).target_path@ != records[i].target_path@,
    ensures
        first_records(records).contains(records[i]),
    decreases records.len(),
{
    let rest = records.drop_last();
    if i < rest.len() {
        assert forall|j: int| 0 <= j < i implies (#[trigger] rest[j]).target_path@
            != rest[i].target_path@ by {
            assert(rest[j] == records[j]);
        }
        lemma_first_record_is_kept(rest, i);
        let before = first_records(rest);
        let k = choose|k: int| 0 <= k < before.len() && before[k] == records[i];
        assert(first_records(records)[k] == records[i]);
    } else {
        assert(!has_target(rest, records[i].target_path@)) by {
            if has_target(rest, records[i].target_path@) {
                let j = choose|j: int|
                    0 <= j < rest.len() && (#[trigger] rest[j]).target_path@
                        == records[i].target_path@;
                assert(records[j] == rest[j]);
            }
        }
        let now = first_records(records);
        assert(now[now.len() - 1] == records[i]);
    }
}

/// Of seeds with one target the first is kept, and no other.
pub proof fn lemma_first_seed_is_kept(seeds: Seq<DeadLinkSeed>, i: int)
    requires
        0 <= i < seeds.len(),
        forall|j: int| 0 <= j < i ==> (#[trigger] seeds[j]).target_path@ != seeds[i].target_path@,
    ensures
        first_seeds(seeds).contains(seeds[i]),
    decreases seeds.len(),
{
    let rest = seeds.drop_last();
    if i < rest.len() {
        assert forall|j: int| 0 <= j < i implies (#[trigger] rest[j]).target_path@
            != rest[i].target_path@ by {
            assert(rest[j] == seeds[j]);
        }
        lemma_first_seed_is_kept(rest, i);
        let before = first_seeds(rest);
        let k = choose|k: int| 0 <= k < before.len() && before[k] == seeds[i];
        assert(first_seeds(seeds)[k] == seeds[i]);
    } else {
        assert(!has_seed(rest, seeds[i].target_path@)) by {
            if has_seed(rest, seeds[i].target_path@) {
                let j = choose|j: int|
                    0 <= j < rest.len() && (#[trigger] rest[j]).target_path@
                        == seeds[i].target_path@;
                assert(seeds[j] == rest[j]);
            }
        }
        let now = first_seeds(seeds);
        assert(now[now.len() - 1] == seeds[i]);
    }
}

/// No two kept seeds share a target, and each is one of the seeds.
pub proof fn lemma_seeds_are_kept_once(seeds: Seq<DeadLinkSeed>)
    ensures
        forall|k: int|
            #![trigger first_seeds(seeds)[k]]
            0 <= k < first_seeds(seeds).len() ==> seeds.contains(first_seeds(seeds)[k]),
        forall|k: int, l: int|
            #![trigger first_seeds(seeds)[k], first_seeds(seeds)[l]]
            0 <= k < l < first_seeds(seeds).len() ==> first_seeds(seeds)[k].target_path@
                != first_seeds(seeds)[l].target_path@,
    decreases seeds.len(),
{
    if seeds.len() > 0 {
        let rest = seeds.drop_last();
        lemma_seeds_are_kept_once(rest);
        let before = first_seeds(rest);
        let now = first_seeds(seeds);
        assert forall|k: int| #![trigger now[k]] 0 <= k < now.len() implies seeds.contains(
            now[k],
        ) by {
            if k < before.len() {
                assert(now[k] == before[k]);
                let i = choose|i: int| 0 <= i < rest.len() && rest[i] == before[k];
                assert(seeds[i] == now[k]);
            } else {
                assert(seeds[seeds.len() - 1] == now[k]);
            }
        }
        assert forall|k: int, l: int| #![trigger now[k], now[l]] 0 <= k < l
            < now.len() implies now[k].target_path@ != now[l].target_path@ by {
            assert(now[k] == before[k]);
            if l < before.len() {
                assert(now[l] == before[l]);
            } else {
                assert(rest.contains(before[k]));
                let i = choose|i: int| 0 <= i < rest.len() && rest[i] == before[k];
                assert(!has_seed(rest, seeds.last().target_path@));
                assert(rest[i].target_path@ != seeds.last().target_path@);
            }
        }
    }
}

/// A slot is named where its text stands in the target and no digit follows.
pub proof fn lemma_slot_is_named(head: Seq<char>, season: u32, episode: u32, tail: Seq<char>)
    requires
        tail.len() > 0 ==> !text::is_digit(tail[0]),
    ensures
        names_slot(
            head + ("S"@ + text::decimal2(season as nat) + "E"@ + text::decimal2(episode as nat))
                + tail,
            season,
            episode,
        ),
{
    let slot = slot_text(season, episode);
    let target = head + slot + tail;
    let at = head.len() as int;
    assert(target.skip(at) =~= slot + tail);
    assert(slot_at(target, slot, at));
}

/// A slot with a digit behind it is that of another episode, and is not named where it
/// stands nowhere else.
pub proof fn lemma_longer_number_is_another_slot(
    season: u32,
    episode: u32,
    digit: char,
    at: int,
    target: Seq<char>,
)
    requires
        text::is_digit(digit),
        0 <= at,
        at + slot_text(season, episode).len() < target.len(),
        target[at + slot_text(season, episode).len()] == digit,
    ensures
        !slot_at(target, slot_text(season, episode), at),
{
}

/// The names in the database tell kinds and states.
pub proof fn lemma_link_names(media_type: MediaType, status: LinkStatus)
    ensures
        media_type == MediaType::Tv ==> media_type_text(media_type) == "tv"@,
        media_type == MediaType::Movie ==> media_type_text(media_type) == "movie"@,
        status == LinkStatus::Active ==> link_status_text(status) == "active"@,
        status == LinkStatus::Dead ==> link_status_text(status) == "dead"@,
        status == LinkStatus::Removed ==> link_status_text(status) == "removed"@,
{
}

/// A condition stands in a query for each root, one behind the other.
pub proof fn lemma_conditions_for_roots(n: nat)
    ensures
        root_conditions(0).len() == 0,
        root_conditions(1) == "target_path LIKE ? ESCAPE '\\'"@,
        n >= 1 ==> root_conditions(n + 1) == root_conditions(n) + " OR "@ + root_conditions(1),
{
    reveal_with_fuel(root_conditions, 2);
}

/// The pattern of each root is bound in the roots' order.
pub proof fn lemma_patterns_of_roots(roots: Seq<Seq<char>>, i: int, target: Seq<char>)
    requires
        0 <= i < roots.len(),
    ensures
        root_patterns(roots).len() == roots.len(),
        db::like(root_patterns(roots)[i], target) == db::begins_folded(target, roots[i] + "/"@),
{
    lemma_root_pattern(roots[i], target);
}

/// The item at a place of a list stands in the chunk of that place: the chunks are full but
/// for the last, and keep the order.
pub proof fn lemma_chunks_keep_the_order(list: Seq<Seq<char>>, size: nat, i: int)
    requires
        size > 0,
        0 <= i < list.len(),
    ensures
        ({
            let k = i / size as int;
            let at = i % size as int;
            &&& 0 <= k < chunked(list, size).len()
            &&& 0 <= at < chunked(list, size)[k].len()
            &&& chunked(list, size)[k][at] == list[i]
        }),
    decreases list.len(),
{
    let n = size as int;
    if list.len() <= size {
        vstd::arithmetic::div_mod::lemma_small_mod(i as nat, size);
        vstd::arithmetic::div_mod::lemma_basic_div(i, n);
    } else if i < n {
        vstd::arithmetic::div_mod::lemma_small_mod(i as nat, size);
        vstd::arithmetic::div_mod::lemma_basic_div(i, n);
        assert(chunked(list, size)[0] == list.take(n));
    } else {
        let rest = list.skip(n);
        lemma_chunks_keep_the_order(rest, size, i - n);
        vstd::arithmetic::div_mod::lemma_div_minus_one(i, n);
        vstd::arithmetic::div_mod::lemma_mod_sub_multiples_vanish(i, n);
        assert(chunked(list, size)[(i - n) / n + 1] == chunked(rest, size)[(i - n) / n]);
    }
}

/// Targets that differ only in the case of ASCII letters name the same slots.
pub proof fn lemma_slots_in_any_case(
    a: Seq<char>,
    b: Seq<char>,
    season: u32,
    episode: u32,
)
    requires
        a.len() == b.len(),
        forall|i: int| 0 <= i < a.len() ==> db::folded(#[trigger] a[i]) == db::folded(b[i]),
        names_slot(a, season, episode),
    ensures
        names_slot(b, season, episode),
{
    let slot = slot_text(season, episode);
    let at = choose|at: int| #[trigger] slot_at(a, slot, at);
    assert forall|i: int| 0 <= i < slot.len() implies db::folded(#[trigger] b.skip(at)[i])
        == db::folded(slot[i]) by {
        assert(a.skip(at)[i] == a[at + i]);
        assert(b.skip(at)[i] == b[at + i]);
        assert(db::folded(a[at + i]) == db::folded(b[at + i]));
        assert(db::folded(a.skip(at)[i]) == db::folded(slot[i]));
    }
    if at + slot.len() < a.len() {
        let x = a[at + slot.len()];
        let y = b[at + slot.len()];
        assert(db::folded(x) == db::folded(y));
        db::lemma_letters_are_folded(x);
        db::lemma_letters_are_folded(y);
    }
    assert(slot_at(b, slot, at));
}

} // verus!
