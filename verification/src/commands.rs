//! The commands, and what they share.

use vstd::prelude::*;
use crate::config::{Config, ContentType, LibraryConfig};
use crate::models::MediaType;
use crate::text;

pub mod report;
pub mod restore;
pub mod scan;
pub mod status;

verus! {

/// The libraries of a name, in order.
pub open spec fn named(libraries: Seq<LibraryConfig>, name: Seq<char>) -> Seq<LibraryConfig>
    decreases libraries.len(),
{
    if libraries.len() == 0 {
        libraries
    } else if libraries.last().name@ == name {
        named(libraries.drop_last(), name).push(libraries.last())
    } else {
        named(libraries.drop_last(), name)
    }
}

/// The libraries that a command works on: all, or those of a name. An error where there
/// is none of that name. That the name has to be the library's own, letter by letter, and
/// what the error says, is a rule of this crate.
pub fn selected_libraries(libraries: &Vec<LibraryConfig>, filter: Option<&str>) -> (out: Result<
    Vec<LibraryConfig>,
    String,
>)
    ensures
        match (out, filter) {
            (Ok(list), None) => list@ == libraries@,
            (Ok(list), Some(name)) => list@ == named(libraries@, name@) && list@.len() > 0,
            (Err(message), Some(name)) => named(libraries@, name@).len() == 0 && message@
                == "Library not found: "@ + name@,
            (Err(_), None) => false,
        },
{
    let mut out: Vec<LibraryConfig> = Vec::new();
    let mut i: usize = 0;
    assert(libraries@.take(0) =~= Seq::<LibraryConfig>::empty());
    match filter {
        None => {
            while i < libraries.len()
                invariant
                    i <= libraries@.len(),
                    out@ == libraries@.take(i as int),
                decreases libraries@.len() - i,
            {
                out.push(libraries[i].clone());
                assert(out@ =~= libraries@.take(i + 1));
                i += 1;
            }
            assert(libraries@.take(i as int) =~= libraries@);
            Ok(out)
        },
        Some(name) => {
            while i < libraries.len()
                invariant
                    i <= libraries@.len(),
                    out@ == named(libraries@.take(i as int), name@),
                decreases libraries@.len() - i,
            {
                assert(libraries@.take(i + 1).drop_last() =~= libraries@.take(i as int));
                if text::text_eq(libraries[i].name.as_str(), name) {
                    out.push(libraries[i].clone());
                }
                i += 1;
            }
            assert(libraries@.take(i as int) =~= libraries@);
            if out.len() == 0 {
                Err(text::concat2("Library not found: ", name))
            } else {
                Ok(out)
            }
        },
    }
}

/// The categories that a search covers. Which number stands for which media is a rule of
/// this crate, after the usual numbers of indexers.
pub fn prowlarr_categories(media_type: MediaType, content_type: ContentType) -> (out: Vec<i32>)
    ensures
        out@ == (if media_type is Movie {
            seq![2000i32]
        } else if content_type is Anime {
            seq![5070i32]
        } else {
            seq![5000i32]
        }),
{
    let number: i32 = match media_type {
        MediaType::Movie => 2000,
        MediaType::Tv => match content_type {
            ContentType::Anime => 5070,
            _ => 5000,
        },
    };
    let mut out: Vec<i32> = Vec::new();
    out.push(number);
    out
}

/// The category name that a download is queued under. Which of the configured names stands
/// for which media is a rule of this crate.
pub open spec fn arr_name(cfg: Config, media_type: MediaType, content_type: ContentType) -> String {
    if media_type is Movie {
        cfg.decypharr.arr_name_movie
    } else if content_type is Anime {
        cfg.decypharr.arr_name_anime
    } else {
        cfg.decypharr.arr_name_tv
    }
}

/// The category name that a download is queued under.
pub fn decypharr_arr_name(cfg: &Config, media_type: MediaType, content_type: ContentType) -> (out:
    String)
    ensures
        out == arr_name(*cfg, media_type, content_type),
{
    match media_type {
        MediaType::Movie => cfg.decypharr.arr_name_movie.clone(),
        MediaType::Tv => match content_type {
            ContentType::Anime => cfg.decypharr.arr_name_anime.clone(),
            _ => cfg.decypharr.arr_name_tv.clone(),
        },
    }
}

/// Whether a query says enough to be searched for without asking: it has more than one
/// word. What is enough is a rule of this crate.
pub open spec fn is_safe_query(query: Seq<char>) -> bool {
    exists|i: int|
        0 <= i < text::trim(query).len() && text::is_space(#[trigger] text::trim(query)[i])
}

/// Whether a query says enough to be searched for without asking.
pub fn is_safe_auto_acquire_query(query: &str) -> (b: bool)
    ensures
        b == is_safe_query(query@),
{
    let trimmed = text::trimmed(query);
    let chars = text::chars_of(trimmed.as_str());
    let mut i: usize = 0;
    while i < chars.len()
        invariant
            i <= chars@.len(),
            chars@ == text::trim(query@),
            forall|k: int| 0 <= k < i ==> !text::is_space(#[trigger] text::trim(query@)[k]),
        decreases chars@.len() - i,
    {
        if text::is_space_char(chars[i]) {
            assert(text::is_space(text::trim(query@)[i as int]));
            return true;
        }
        i += 1;
    }
    false
}

/// A name selects the libraries that have it, and no other.
pub proof fn lemma_name_selects(
    libraries: Seq<LibraryConfig>,
    name: Seq<char>,
    library: LibraryConfig,
)
    ensures
        named(libraries, name).contains(library) <==> libraries.contains(library)
            && library.name@ == name,
    decreases libraries.len(),
{
    if libraries.len() > 0 {
        let rest = libraries.drop_last();
        lemma_name_selects(rest, name, library);
        let before = named(rest, name);
        let now = named(libraries, name);
        let last = libraries.last();
        assert(libraries.contains(library) <==> rest.contains(library) || library == last) by {
            if rest.contains(library) {
                let i = choose|i: int| 0 <= i < rest.len() && rest[i] == library;
                assert(libraries[i] == library);
            }
            if library == last {
                assert(libraries[libraries.len() - 1] == library);
            }
            if libraries.contains(library) && library != last {
                let i = choose|i: int| 0 <= i < libraries.len() && libraries[i] == library;
                assert(rest[i] == library);
            }
        }
        if before.contains(library) {
            let i = choose|i: int| 0 <= i < before.len() && before[i] == library;
            assert(now[i] == library);
        }
        if last.name@ == name {
            assert(now[now.len() - 1] == last);
            if now.contains(library) && library != last {
                let i = choose|i: int| 0 <= i < now.len() && now[i] == library;
                assert(before[i] == library);
            }
        }
    }
}

/// Movies, anime and other series are queued under names of their own.
pub proof fn lemma_media_are_queued_apart(cfg: Config, content_type: ContentType)
    ensures
        arr_name(cfg, MediaType::Movie, content_type) == cfg.decypharr.arr_name_movie,
        arr_name(cfg, MediaType::Tv, ContentType::Anime) == cfg.decypharr.arr_name_anime,
        !(content_type is Anime) ==> arr_name(cfg, MediaType::Tv, content_type)
            == cfg.decypharr.arr_name_tv,
{
}

/// A query of two words is enough, and one of a single word is not, whatever white space is
/// around it.
pub proof fn lemma_one_word_is_not_enough(query: Seq<char>)
    ensures
        text::trim(query).len() == 0 ==> !is_safe_query(query),
        is_safe_query(query) <==> !(forall|i: int|
            0 <= i < text::trim(query).len() ==> !text::is_space(#[trigger] text::trim(query)[i])),
{
}

} // verus!
