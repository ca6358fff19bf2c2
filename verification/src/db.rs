//! The rules of the database: what its texts mean, which queries are made, and how
//! its schema changes.

use vstd::prelude::*;
use crate::text;

pub mod acquisition_jobs;
pub mod anime_overrides;
pub mod links;
pub mod migrations;
pub mod moments;
pub mod operations;
pub mod scan_runs;
pub mod scheduler;
pub mod types;

verus! {

/// The number of attempts after which a job is no longer taken up.
pub const MAX_JOB_ATTEMPTS: i64 = 5;

/// The number of roots that one query names.
pub const SCOPED_ROOT_QUERY_CHUNK_SIZE: usize = 250;

/// The number of roots above which links are filtered in memory.
pub const SCOPED_ROOT_IN_MEMORY_FILTER_THRESHOLD: usize = 1024;

/// A character as it stands for itself in a pattern.
pub open spec fn escaped_char(c: char) -> Seq<char> {
    if c == '\\' || c == '%' || c == '_' {
        seq!['\\', c]
    } else {
        seq![c]
    }
}

/// A text as it stands for itself in a pattern.
pub open spec fn escaped(value: Seq<char>) -> Seq<char>
    decreases value.len(),
{
    if value.len() == 0 {
        value
    } else {
        escaped_char(value[0]) + escaped(value.skip(1))
    }
}

/// Puts a backslash before each backslash, `%` and `_`.
pub fn escape_sql_like(value: &str) -> (out: String)
    ensures
        out@ == escaped(value@),
{
    let chars = text::chars_of(value);
    let mut out: String = String::new();
    let mut i: usize = 0;
    assert(chars@.skip(0) == chars@);
    assert(out@ + escaped(chars@.skip(0)) =~= escaped(value@));
    while i < chars.len()
        invariant
            i <= chars@.len(),
            chars@ == value@,
            out@ + escaped(chars@.skip(i as int)) == escaped(value@),
        decreases chars@.len() - i,
    {
        let ghost before = out@;
        let c = chars[i];
        if c == '\\' || c == '%' || c == '_' {
            out.push('\\');
        }
        out.push(c);
        proof {
            let rest = chars@.skip(i as int);
            assert(rest.skip(1) =~= chars@.skip(i + 1));
            assert(out@ =~= before + escaped_char(c));
            assert(out@ + escaped(chars@.skip(i + 1)) =~= before + escaped(rest));
        }
        i += 1;
    }
    assert(out@ + escaped(chars@.skip(i as int)) =~= out@);
    out
}

/// The pattern that the texts with a prefix match.
pub fn like_prefix_pattern(prefix: &str) -> (out: String)
    ensures
        out@ == escaped(prefix@) + "%"@,
{
    text::concat2(escape_sql_like(prefix).as_str(), "%")
}

/// ASCII letters in lower case.
pub open spec fn folded(c: char) -> char {
    if 'A' <= c && c <= 'Z' {
        ((c as u32) + 32) as char
    } else {
        c
    }
}

/// Whether a text matches a pattern of `LIKE` with the escape character `\`: `%`
/// stands for any text, `_` for any character, an escaped character for itself;
/// ASCII letters match in either case.
pub open spec fn like(pattern: Seq<char>, value: Seq<char>) -> bool
    decreases pattern.len(), value.len(),
{
    if pattern.len() == 0 {
        value.len() == 0
    } else if pattern[0] == '%' {
        like(pattern.skip(1), value) || (value.len() > 0 && like(pattern, value.skip(1)))
    } else if pattern[0] == '_' {
        value.len() > 0 && like(pattern.skip(1), value.skip(1))
    } else if pattern[0] == '\\' && pattern.len() > 1 {
        value.len() > 0 && folded(pattern[1]) == folded(value[0]) && like(
            pattern.skip(2),
            value.skip(1),
        )
    } else {
        value.len() > 0 && folded(pattern[0]) == folded(value[0]) && like(
            pattern.skip(1),
            value.skip(1),
        )
    }
}

/// Whether a text begins with a prefix, ASCII letters in either case.
pub open spec fn begins_folded(value: Seq<char>, prefix: Seq<char>) -> bool {
    prefix.len() <= value.len() && forall|i: int|
        0 <= i < prefix.len() ==> folded(#[trigger] value[i]) == folded(prefix[i])
}

proof fn lemma_percent_matches(value: Seq<char>)
    ensures
        like(seq!['%'], value),
    decreases value.len(),
{
    let pattern = seq!['%'];
    assert(pattern.skip(1) =~= Seq::<char>::empty());
    assert(like(pattern.skip(1), value) == (value.len() == 0));
    if value.len() > 0 {
        lemma_percent_matches(value.skip(1));
    }
}

/// An escaped prefix with `%` behind it matches the texts that begin with the
/// prefix, and no other: what the prefix holds is never taken for a wildcard.
pub proof fn lemma_like_prefix(prefix: Seq<char>, value: Seq<char>)
    ensures
        like(escaped(prefix) + "%"@, value) == begins_folded(value, prefix),
    decreases prefix.len(),
{
    reveal_strlit("%");
    let pattern = escaped(prefix) + "%"@;
    if prefix.len() == 0 {
        assert(pattern =~= seq!['%']);
        lemma_percent_matches(value);
    } else {
        let c = prefix[0];
        let rest = escaped(prefix.skip(1)) + "%"@;
        assert(pattern =~= escaped_char(c) + rest);
        assert(pattern.skip(escaped_char(c).len() as int) =~= rest);
        if value.len() > 0 {
            lemma_like_prefix(prefix.skip(1), value.skip(1));
            if begins_folded(value, prefix) {
                assert(folded(value[0]) == folded(prefix[0]));
                assert forall|i: int| 0 <= i < prefix.skip(1).len() implies folded(
                    #[trigger] value.skip(1)[i],
                ) == folded(prefix.skip(1)[i]) by {
                    assert(folded(value[i + 1]) == folded(prefix[i + 1]));
                }
            }
            if folded(value[0]) == folded(prefix[0]) && begins_folded(
                value.skip(1),
                prefix.skip(1),
            ) {
                assert forall|i: int| 0 <= i < prefix.len() implies folded(#[trigger] value[i])
                    == folded(prefix[i]) by {
                    if i > 0 {
                        assert(folded(value.skip(1)[i - 1]) == folded(prefix.skip(1)[i - 1]));
                    }
                }
            }
        }
    }
}

/// ASCII letters in upper case become those in lower case, and every other character stays.
pub proof fn lemma_letters_are_folded(c: char)
    ensures
        'A' <= c <= 'Z' ==> folded(c) as u32 == c as u32 + 32 && 'a' <= folded(c) <= 'z',
        !('A' <= c <= 'Z') ==> folded(c) == c,
        folded(folded(c)) == folded(c),
{
}

/// An escaped text stands for itself: a backslash comes before each character that means
/// something in a pattern, and nothing else changes.
pub proof fn lemma_escaping_adds_backslashes(c: char)
    ensures
        c == '%' || c == '_' || c == '\\' ==> escaped_char(c) == seq!['\\', c],
        !(c == '%' || c == '_' || c == '\\') ==> escaped_char(c) == seq![c],
{
}

} // verus!
