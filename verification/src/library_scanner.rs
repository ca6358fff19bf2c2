//! Library folders and the tags in their names.

use vstd::prelude::*;
use crate::config::{ContentType, LibraryConfig};
use crate::models::{LibraryItem, MediaId, MediaType};
use crate::order;
use crate::text;

verus! {

/// The pattern of a tag, with its kind and its number as groups.
pub const ID_PATTERN: &'static str = "\\{(tvdb|tmdb)-([0-9]+)\\}";

/// The pattern of a tag with the white space around it.
pub const TITLE_CLEANUP_PATTERN: &'static str = "\\s*\\{(?:tvdb|tmdb)-[0-9]+\\}\\s*";

/// Whether a tag, `{tvdb-N}` or `{tmdb-N}`, stands in `name` from `at` to `end`.
pub open spec fn is_tag(name: Seq<char>, at: int, end: int) -> bool {
    &&& 0 <= at
    &&& at + 8 <= end <= name.len()
    &&& name[at] == '{'
    &&& (tag_kind(name, at) == "tvdb"@ || tag_kind(name, at) == "tmdb"@)
    &&& name[at + 5] == '-'
    &&& text::all_digits(tag_number(name, at, end))
    &&& name[end - 1] == '}'
}

/// The kind of the tag at `at`.
pub open spec fn tag_kind(name: Seq<char>, at: int) -> Seq<char> {
    name.subrange(at + 1, at + 5)
}

/// The digits of the tag from `at` to `end`.
pub open spec fn tag_number(name: Seq<char>, at: int, end: int) -> Seq<char> {
    name.subrange(at + 6, end - 1)
}

/// Whether the tag from `at` to `end` is the first one in `name`.
pub open spec fn is_first_tag(name: Seq<char>, at: int, end: int) -> bool {
    is_tag(name, at, end) && forall|a: int, e: int| #[trigger] is_tag(name, a, e) ==> at <= a
}

/// Where the first tag in `name` stands.
pub open spec fn first_tag(name: Seq<char>) -> Option<(int, int)> {
    if exists|at: int, end: int| is_first_tag(name, at, end) {
        let (at, end) = choose|at: int, end: int| is_first_tag(name, at, end);
        Some((at, end))
    } else {
        None
    }
}

/// `Regex::new` and `Regex::captures` with the pattern of a tag: the kind and the
/// number of the leftmost tag. `None` where the text has no tag.
#[verifier::external_body]
fn tag_captures(pattern: &str, name: &str) -> (out: Option<(String, String)>)
    requires
        pattern@ == ID_PATTERN@,
    ensures
        match (out, first_tag(name@)) {
            (Some((kind, number)), Some((at, end))) => kind@ == tag_kind(name@, at) && number@
                == tag_number(name@, at, end),
            (None, None) => true,
            _ => false,
        },
{
    let regex = regex::Regex::new(pattern).unwrap();
    let caps = regex.captures(name)?;
    Some((caps.get(1)?.as_str().to_string(), caps.get(2)?.as_str().to_string()))
}

/// `Regex::new` and `Regex::replace` with the pattern of a tag and the white space
/// around it, and nothing in its place: the leftmost tag goes, together with the
/// white space before and behind it. A text without a tag stays as it is.
#[verifier::external_body]
fn without_tag(pattern: &str, name: &str, with: &str) -> (out: String)
    requires
        pattern@ == TITLE_CLEANUP_PATTERN@,
        with@ == ""@,
    ensures
        out@ == untagged(name@),
{
    let regex = regex::Regex::new(pattern).unwrap();
    regex.replace(name, with).into_owned()
}

/// The name without its first tag and the white space around that.
pub open spec fn untagged(name: Seq<char>) -> Seq<char> {
    match first_tag(name) {
        Some((at, end)) => text::trim_end(name.take(at)) + text::trim_start(name.skip(end)),
        None => name,
    }
}

/// The id in the first tag of a folder's name, where its number fits.
pub open spec fn folder_id(name: Seq<char>) -> Option<MediaId> {
    match first_tag(name) {
        None => None,
        Some((at, end)) => {
            let n = text::number(tag_number(name, at, end));
            if n > u64::MAX {
                None
            } else if tag_kind(name, at) == "tvdb"@ {
                Some(MediaId::Tvdb(n as u64))
            } else {
                Some(MediaId::Tmdb(n as u64))
            }
        },
    }
}

/// The title in a folder's name.
pub open spec fn folder_title(name: Seq<char>) -> Seq<char> {
    text::trim(untagged(name))
}

/// The content of a library: as configured, else by its media type.
pub open spec fn content_of(lib: LibraryConfig) -> ContentType {
    match lib.content_type {
        Some(c) => c,
        None => match lib.media_type {
            MediaType::Tv => ContentType::Tv,
            MediaType::Movie => ContentType::Movie,
        },
    }
}

/// Whether an item is that of a folder with a tag.
pub open spec fn item_fits(
    item: LibraryItem,
    name: Seq<char>,
    path: Seq<char>,
    lib: LibraryConfig,
) -> bool {
    &&& Some(item.id) == folder_id(name)
    &&& item.path@ == path
    &&& item.title@ == folder_title(name)
    &&& item.library_name == lib.name
    &&& item.media_type == lib.media_type
    &&& item.content_type == content_of(lib)
}

/// Something found below a library.
#[derive(Debug, PartialEq, Eq)]
pub struct FolderEntry {
    /// The last component of the path.
    pub name: String,
    pub path: String,
    pub is_dir: bool,
}

/// Whether an entry is a tagged folder.
pub open spec fn is_tagged(entry: FolderEntry) -> bool {
    entry.is_dir && folder_id(entry.name@) is Some
}

/// Whether the items are those of the tagged folders among the entries, in order.
pub open spec fn items_fit(
    items: Seq<LibraryItem>,
    entries: Seq<FolderEntry>,
    lib: LibraryConfig,
) -> bool
    decreases entries.len(),
{
    if entries.len() == 0 {
        items.len() == 0
    } else if is_tagged(entries.last()) {
        items.len() > 0 && item_fits(
            items.last(),
            entries.last().name@,
            entries.last().path@,
            lib,
        ) && items_fit(items.drop_last(), entries.drop_last(), lib)
    } else {
        items_fit(items, entries.drop_last(), lib)
    }
}

/// Whether the lists are what is found in each of the libraries.
pub open spec fn all_found(
    found: Seq<Seq<LibraryItem>>,
    libraries: Seq<LibraryConfig>,
    entries: Seq<Vec<FolderEntry>>,
) -> bool {
    &&& found.len() == libraries.len()
    &&& forall|i: int|
        0 <= i < found.len() ==> items_fit(#[trigger] found[i], entries[i]@, libraries[i])
}

/// The lists one after the other.
pub open spec fn one_after_other(found: Seq<Seq<LibraryItem>>) -> Seq<LibraryItem>
    decreases found.len(),
{
    if found.len() == 0 {
        Seq::<LibraryItem>::empty()
    } else {
        one_after_other(found.drop_last()) + found.last()
    }
}

/// Whether the items are what is found in all libraries, by rank.
pub open spec fn is_scan_of_all(
    items: Seq<LibraryItem>,
    libraries: Seq<LibraryConfig>,
    entries: Seq<Vec<FolderEntry>>,
) -> bool {
    exists|found: Seq<Seq<LibraryItem>>| #[trigger]
        all_found(found, libraries, entries) && items == order::ranked(one_after_other(found))
}

impl order::Ranked for LibraryItem {
    /// Items rank by their titles in lower case.
    open spec fn precedes(&self, other: &Self) -> bool {
        order::text_before(text::lowercase(self.title@), text::lowercase(other.title@))
    }

    proof fn rank_order(a: &Self, b: &Self, c: &Self) {
        let x = text::lowercase(a.title@);
        let y = text::lowercase(b.title@);
        let z = text::lowercase(c.title@);
        order::lemma_text_order(x, y, z);
    }

    fn ranks_before(&self, other: &Self) -> (b: bool) {
        let mine = self.title.as_str().to_lowercase();
        let theirs = other.title.as_str().to_lowercase();
        order::comes_before(mine.as_str(), theirs.as_str())
    }
}

/// Finds the tagged folders of libraries.
#[derive(Debug, Clone, Copy)]
pub struct LibraryScanner;

impl LibraryScanner {
    /// A scanner.
    pub fn new() -> (out: Self)
        ensures
            out == LibraryScanner,
    {
        LibraryScanner
    }

    /// The item of a folder, where its name has a tag whose number fits.
    pub fn parse_folder(&self, folder_name: &str, path: &str, lib: &LibraryConfig) -> (item: Option<
        LibraryItem,
    >)
        ensures
            match item {
                Some(i) => item_fits(i, folder_name@, path@, *lib),
                None => folder_id(folder_name@) is None,
            },
    {
        let (kind, number) = match tag_captures(ID_PATTERN, folder_name) {
            Some(found) => found,
            None => {
                return None;
            },
        };
        let ghost (at, end) = first_tag(folder_name@)->0;
        assert(is_first_tag(folder_name@, at, end));
        let value: u64 = match text::parse_number(number.as_str()) {
            Some(v) => v,
            None => {
                return None;
            },
        };
        let id = if text::text_eq(kind.as_str(), "tvdb") {
            MediaId::Tvdb(value)
        } else {
            MediaId::Tmdb(value)
        };
        let title = text::trimmed(without_tag(TITLE_CLEANUP_PATTERN, folder_name, "").as_str());
        let content_type = match lib.content_type {
            Some(c) => c,
            None => ContentType::from_media_type(lib.media_type),
        };
        Some(
            LibraryItem {
                id,
                path: path.to_owned(),
                title,
                library_name: lib.name.clone(),
                media_type: lib.media_type,
                content_type,
            },
        )
    }

    /// The items of the tagged folders among what was found below a library.
    pub fn scan_library(&self, lib: &LibraryConfig, entries: &Vec<FolderEntry>) -> (items: Vec<
        LibraryItem,
    >)
        ensures
            items_fit(items@, entries@, *lib),
    {
        let mut items: Vec<LibraryItem> = Vec::new();
        let mut i: usize = 0;
        while i < entries.len()
            invariant
                i <= entries@.len(),
                items_fit(items@, entries@.take(i as int), *lib),
            decreases entries@.len() - i,
        {
            let entry = &entries[i];
            let ghost before = items@;
            assert(entries@.take(i + 1).drop_last() == entries@.take(i as int));
            if entry.is_dir {
                match self.parse_folder(entry.name.as_str(), entry.path.as_str(), lib) {
                    Some(item) => {
                        items.push(item);
                        assert(items@.drop_last() == before);
                    },
                    None => {},
                }
            }
            i += 1;
        }
        assert(entries@.take(i as int) == entries@);
        items
    }

    /// The items of all libraries, by title in lower case; `entries` holds what was
    /// found below each of them.
    pub fn scan_all(&self, libraries: &Vec<LibraryConfig>, entries: &Vec<Vec<FolderEntry>>) -> (out:
        Vec<LibraryItem>)
        requires
            entries@.len() == libraries@.len(),
        ensures
            is_scan_of_all(out@, libraries@, entries@),
            order::in_rank_order(out@),
    {
        let mut items: Vec<LibraryItem> = Vec::new();
        let ghost mut lists: Seq<Seq<LibraryItem>> = Seq::empty();
        let mut i: usize = 0;
        while i < libraries.len()
            invariant
                i <= libraries@.len(),
                entries@.len() == libraries@.len(),
                lists.len() == i,
                forall|k: int|
                    0 <= k < i ==> items_fit(#[trigger] lists[k], entries@[k]@, libraries@[k]),
                items@ == one_after_other(lists),
            decreases libraries@.len() - i,
        {
            let mut found = self.scan_library(&libraries[i], &entries[i]);
            let ghost fresh = found@;
            items.append(&mut found);
            proof {
                assert(lists.push(fresh).drop_last() =~= lists);
                lists = lists.push(fresh);
            }
            i += 1;
        }
        let ghost all = items@;
        let out = order::sort_ranked(items);
        proof {
            order::lemma_ranked(all);
            assert(all_found(lists, libraries@, entries@));
        }
        out
    }
}

/// Whether two items say the same.
pub open spec fn same_item(a: LibraryItem, b: LibraryItem) -> bool {
    &&& a.id == b.id
    &&& a.path@ == b.path@
    &&& a.title@ == b.title@
    &&& a.library_name@ == b.library_name@
    &&& a.media_type == b.media_type
    &&& a.content_type == b.content_type
}

/// Whether two lists of items say the same.
pub open spec fn same_items(a: Seq<LibraryItem>, b: Seq<LibraryItem>) -> bool {
    a.len() == b.len() && forall|i: int|
        #![trigger a[i]]
        #![trigger b[i]]
        0 <= i < a.len() ==> same_item(a[i], b[i])
}

/// What is found in a library is told by its entries.
proof fn lemma_found_same(
    a: Seq<LibraryItem>,
    b: Seq<LibraryItem>,
    entries: Seq<FolderEntry>,
    lib: LibraryConfig,
)
    requires
        items_fit(a, entries, lib),
        items_fit(b, entries, lib),
    ensures
        same_items(a, b),
    decreases entries.len(),
{
    if entries.len() > 0 {
        let rest = entries.drop_last();
        if is_tagged(entries.last()) {
            lemma_found_same(a.drop_last(), b.drop_last(), rest, lib);
            assert forall|i: int|
                #![trigger a[i]]
                #![trigger b[i]]
                0 <= i < a.len() implies same_item(a[i], b[i]) by {
                if i < a.len() - 1 {
                    assert(a.drop_last()[i] == a[i]);
                    assert(b.drop_last()[i] == b[i]);
                }
            }
        } else {
            lemma_found_same(a, b, rest, lib);
        }
    }
}

proof fn lemma_all_found_same(
    a: Seq<Seq<LibraryItem>>,
    b: Seq<Seq<LibraryItem>>,
    libraries: Seq<LibraryConfig>,
    entries: Seq<Vec<FolderEntry>>,
)
    requires
        a.len() == b.len() <= libraries.len(),
        forall|i: int| 0 <= i < a.len() ==> items_fit(#[trigger] a[i], entries[i]@, libraries[i]),
        forall|i: int| 0 <= i < b.len() ==> items_fit(#[trigger] b[i], entries[i]@, libraries[i]),
    ensures
        same_items(one_after_other(a), one_after_other(b)),
    decreases a.len(),
{
    if a.len() > 0 {
        let n = a.len() - 1;
        lemma_all_found_same(a.drop_last(), b.drop_last(), libraries, entries);
        assert(items_fit(a[n], entries[n]@, libraries[n]));
        assert(items_fit(b[n], entries[n]@, libraries[n]));
        lemma_found_same(a[n], b[n], entries[n]@, libraries[n]);
        let x = one_after_other(a.drop_last());
        let y = one_after_other(b.drop_last());
        assert forall|i: int|
            #![trigger (x + a[n])[i]]
            #![trigger (y + b[n])[i]]
            0 <= i < (x + a[n]).len() implies same_item((x + a[n])[i], (y + b[n])[i]) by {
            if i < x.len() {
                assert(same_item(x[i], y[i]));
            } else {
                assert(same_item(a[n][i - x.len()], b[n][i - x.len()]));
            }
        }
    }
}

proof fn lemma_place_same(a: Seq<LibraryItem>, b: Seq<LibraryItem>, x: LibraryItem, y: LibraryItem)
    requires
        same_items(a, b),
        same_item(x, y),
    ensures
        order::insert_at(a, x) == order::insert_at(b, y),
        0 <= order::insert_at(a, x) <= a.len(),
    decreases a.len(),
{
    if a.len() > 0 {
        assert(same_item(a[a.len() - 1], b[a.len() - 1]));
        assert forall|i: int|
            #![trigger a.drop_last()[i]]
            #![trigger b.drop_last()[i]]
            0 <= i < a.len() - 1 implies same_item(a.drop_last()[i], b.drop_last()[i]) by {
            assert(same_item(a[i], b[i]));
        }
        lemma_place_same(a.drop_last(), b.drop_last(), x, y);
    }
}

proof fn lemma_ranked_same(a: Seq<LibraryItem>, b: Seq<LibraryItem>)
    requires
        same_items(a, b),
    ensures
        same_items(order::ranked(a), order::ranked(b)),
    decreases a.len(),
{
    if a.len() > 0 {
        assert forall|i: int|
            #![trigger a.drop_last()[i]]
            #![trigger b.drop_last()[i]]
            0 <= i < a.len() - 1 implies same_item(a.drop_last()[i], b.drop_last()[i]) by {
            assert(same_item(a[i], b[i]));
        }
        lemma_ranked_same(a.drop_last(), b.drop_last());
        let p = order::ranked(a.drop_last());
        let q = order::ranked(b.drop_last());
        assert(same_item(a[a.len() - 1], b[a.len() - 1]));
        lemma_place_same(p, q, a.last(), b.last());
        let at = order::insert_at(p, a.last());
        let x = p.insert(at, a.last());
        let y = q.insert(at, b.last());
        assert forall|i: int|
            #![trigger x[i]]
            #![trigger y[i]]
            0 <= i < x.len() implies same_item(x[i], y[i]) by {
            if i < at {
                assert(same_item(p[i], q[i]));
            } else if i > at {
                assert(same_item(p[i - 1], q[i - 1]));
            }
        }
    }
}

/// A scan of all libraries sorts what the scan of each library finds: it says the same as
/// the lists that are found, put one after the other and sorted by the titles in lower
/// case. That holds the same items, in rank order, and items with like titles keep their
/// order.
pub proof fn lemma_scan_all_sorts_what_is_found(
    libraries: Seq<LibraryConfig>,
    entries: Seq<Vec<FolderEntry>>,
    found: Seq<Seq<LibraryItem>>,
    out: Seq<LibraryItem>,
    item: LibraryItem,
)
    requires
        all_found(found, libraries, entries),
        is_scan_of_all(out, libraries, entries),
    ensures
        same_items(out, order::ranked(one_after_other(found))),
        order::ranked(one_after_other(found)).to_multiset() == one_after_other(
            found,
        ).to_multiset(),
        order::in_rank_order(out),
        order::alike(order::ranked(one_after_other(found)), item) == order::alike(
            one_after_other(found),
            item,
        ),
{
    let lists = choose|lists: Seq<Seq<LibraryItem>>| #[trigger]
        all_found(lists, libraries, entries) && out == order::ranked(one_after_other(lists));
    lemma_all_found_same(lists, found, libraries, entries);
    lemma_ranked_same(one_after_other(lists), one_after_other(found));
    order::lemma_ranked(one_after_other(lists));
    order::lemma_ranked(one_after_other(found));
    order::lemma_ranked_is_stable(one_after_other(found), item);
}

/// A name has at most one first tag.
pub proof fn lemma_first_tag_is_unique(name: Seq<char>, at: int, end: int)
    requires
        is_first_tag(name, at, end),
    ensures
        first_tag(name) == Some((at, end)),
{
    let (a, e) = choose|a: int, e: int| is_first_tag(name, a, e);
    assert(is_first_tag(name, a, e));
    assert(is_tag(name, a, e) && is_tag(name, at, end));
    assert(a == at);
    if e < end {
        assert(tag_number(name, at, end)[e - 1 - (at + 6)] == name[e - 1]);
    } else if end < e {
        assert(tag_number(name, a, e)[end - 1 - (at + 6)] == name[end - 1]);
    }
}

/// The name of the folder of a title.
pub open spec fn tagged_name(title: Seq<char>, id: MediaId) -> Seq<char> {
    title + " {"@ + id.spelled() + "}"@
}

/// A folder that is named after its title and its id is read back: a title without
/// a brace, and the id behind it in braces, give that id and the trimmed title.
pub proof fn lemma_tagged_name_is_read_back(title: Seq<char>, id: MediaId)
    requires
        !title.contains('{'),
    ensures
        folder_id(tagged_name(title, id)) == Some(id),
        folder_title(tagged_name(title, id)) == text::trim(title),
{
    reveal_strlit(" {");
    reveal_strlit("}");
    reveal_strlit("tvdb-");
    reveal_strlit("tmdb-");
    reveal_strlit("tvdb");
    reveal_strlit("tmdb");
    let name = tagged_name(title, id);
    let n: nat = match id {
        MediaId::Tvdb(n) => n as nat,
        MediaId::Tmdb(n) => n as nat,
    };
    text::lemma_number_of_decimal(n);
    let at = title.len() as int + 1;
    let end = name.len() as int;
    assert(name[title.len() as int] == ' ');
    assert(name[at] == '{');
    match id {
        MediaId::Tvdb(_) => {
            assert(tag_kind(name, at) =~= "tvdb"@);
            assert("tvdb"@[1] != "tmdb"@[1]);
        },
        MediaId::Tmdb(_) => {
            assert(tag_kind(name, at) =~= "tmdb"@);
            assert("tvdb"@[1] != "tmdb"@[1]);
        },
    }
    assert(tag_number(name, at, end) =~= text::decimal(n));
    assert(is_tag(name, at, end));
    assert forall|a: int, e: int| #[trigger] is_tag(name, a, e) implies at <= a by {
        if a < title.len() {
            assert(name[a] == title[a]);
        }
    }
    lemma_first_tag_is_unique(name, at, end);
    assert(name.skip(end) =~= Seq::<char>::empty());
    assert(name.take(at) =~= title.push(' '));
    assert(title.push(' ').drop_last() =~= title);
    assert(text::trim_end(title.push(' ')) == text::trim_end(title));
    assert(untagged(name) =~= text::trim_end(title));
    text::lemma_trim_of_trimmed_end(title);
}

/// The item of a folder says what its library is configured to hold: the configured content
/// where there is one, whatever the media type; only without it does the media type decide.
/// Its media type, its library's name and its path are those it was found with.
pub proof fn lemma_item_is_what_is_configured(
    item: LibraryItem,
    name: Seq<char>,
    path: Seq<char>,
    lib: LibraryConfig,
)
    requires
        item_fits(item, name, path, lib),
    ensures
        lib.content_type matches Some(content) ==> item.content_type == content,
        lib.content_type is None && lib.media_type == MediaType::Tv ==> item.content_type
            == ContentType::Tv,
        lib.content_type is None && lib.media_type == MediaType::Movie ==> item.content_type
            == ContentType::Movie,
        item.media_type == lib.media_type,
        item.library_name@ == lib.name@,
        item.path@ == path,
{
}

/// A folder that is named after a title and an id becomes an item with that id and that
/// title, and a name without a brace becomes none.
pub proof fn lemma_item_is_named_after_its_folder(
    item: LibraryItem,
    title: Seq<char>,
    id: MediaId,
    path: Seq<char>,
    lib: LibraryConfig,
)
    requires
        !title.contains('{'),
    ensures
        item_fits(item, tagged_name(title, id), path, lib) ==> item.id == id && item.title@
            == text::trim(title),
        folder_id(title) is None,
{
    lemma_tagged_name_is_read_back(title, id);
    assert forall|at: int, end: int| !is_first_tag(title, at, end) by {
        if is_first_tag(title, at, end) {
            assert(is_tag(title, at, end));
            assert(title.contains(title[at]));
        }
    }
}

/// Every tagged folder below a library becomes an item, with its path and what the library
/// is configured to hold.
pub proof fn lemma_tagged_folders_are_found(
    items: Seq<LibraryItem>,
    entries: Seq<FolderEntry>,
    lib: LibraryConfig,
    i: int,
) -> (k: int)
    requires
        items_fit(items, entries, lib),
        0 <= i < entries.len(),
        entries[i].is_dir,
        folder_id(entries[i].name@) is Some,
    ensures
        0 <= k < items.len(),
        items[k].path@ == entries[i].path@,
        Some(items[k].id) == folder_id(entries[i].name@),
        items[k].title@ == folder_title(entries[i].name@),
        items[k].library_name@ == lib.name@,
        items[k].media_type == lib.media_type,
        lib.content_type matches Some(content) ==> items[k].content_type == content,
    decreases entries.len(),
{
    let last = entries.len() - 1;
    if i == last {
        assert(item_fits(items.last(), entries[i].name@, entries[i].path@, lib));
        items.len() - 1
    } else {
        let rest = entries.drop_last();
        assert(rest[i] == entries[i]);
        if is_tagged(entries.last()) {
            let k = lemma_tagged_folders_are_found(items.drop_last(), rest, lib, i);
            assert(items.drop_last()[k] == items[k]);
            k
        } else {
            lemma_tagged_folders_are_found(items, rest, lib, i)
        }
    }
}

/// Every item comes from a folder: what is no directory, and a name without a tag, become
/// none.
pub proof fn lemma_items_come_from_folders(
    items: Seq<LibraryItem>,
    entries: Seq<FolderEntry>,
    lib: LibraryConfig,
    k: int,
) -> (i: int)
    requires
        items_fit(items, entries, lib),
        0 <= k < items.len(),
    ensures
        0 <= i < entries.len(),
        items.len() <= entries.len(),
        entries[i].is_dir,
        folder_id(entries[i].name@) == Some(items[k].id),
        entries[i].path@ == items[k].path@,
    decreases entries.len(),
{
    let rest = entries.drop_last();
    if is_tagged(entries.last()) {
        if k == items.len() - 1 {
            if items.len() > 1 {
                let _ = lemma_items_come_from_folders(items.drop_last(), rest, lib, 0);
            }
            entries.len() - 1
        } else {
            let less = items.drop_last();
            assert(less[k] == items[k]);
            let i = lemma_items_come_from_folders(less, rest, lib, k);
            assert(rest[i] == entries[i]);
            i
        }
    } else {
        let i = lemma_items_come_from_folders(items, rest, lib, k);
        assert(rest[i] == entries[i]);
        i
    }
}

/// The tag that counts is the first: braces, the kind, a dash and digits, and no tag starts
/// before it; the kind tells the database and the digits the number.
pub proof fn lemma_first_tag_tells_the_id(name: Seq<char>, at: int, end: int)
    requires
        is_tag(name, at, end),
        forall|a: int, e: int| #[trigger] is_tag(name, a, e) ==> at <= a,
        text::number(name.subrange(at + 6, end - 1)) <= u64::MAX,
    ensures
        name.subrange(at + 1, at + 5) == "tvdb"@ ==> folder_id(name) == Some(
            MediaId::Tvdb(text::number(name.subrange(at + 6, end - 1)) as u64),
        ),
        name.subrange(at + 1, at + 5) == "tmdb"@ ==> folder_id(name) == Some(
            MediaId::Tmdb(text::number(name.subrange(at + 6, end - 1)) as u64),
        ),
        text::trim_end(name.take(at)) + text::trim_start(name.skip(end)) == untagged(name),
{
    reveal_strlit("tvdb");
    reveal_strlit("tmdb");
    assert("tvdb"@[1] != "tmdb"@[1]);
    assert(is_first_tag(name, at, end));
    lemma_first_tag_is_unique(name, at, end);
}

/// Items are ordered by their titles in lower case.
pub proof fn lemma_order_of_items(a: LibraryItem, b: LibraryItem)
    ensures
        order::Ranked::precedes(&a, &b) == order::text_before(
            text::lowercase(a.title@),
            text::lowercase(b.title@),
        ),
{
}

} // verus!
