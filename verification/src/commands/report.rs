//! The report on a library.

use vstd::prelude::*;
use crate::models::MediaType;

pub mod anime;
pub mod path_compare;

verus! {

/// The name under which a report lists a kind of media.
pub fn media_type_key(media_type: MediaType) -> (out: &'static str)
    ensures
        out@ == (match media_type {
            MediaType::Movie => "movie"@,
            MediaType::Tv => "series"@,
        }),
{
    match media_type {
        MediaType::Movie => "movie",
        MediaType::Tv => "series",
    }
}

} // verus!
