//! File names for links: forbidden characters, and names that fit the limit
//! of the file system.

use vstd::prelude::*;
use crate::text;

verus! {

/// The longest file name, in bytes, that the linker writes.
pub const NAME_LIMIT: usize = 250;

/// The bytes that UTF-8 takes for a character.
pub open spec fn char_bytes(c: char) -> nat {
    let n = c as u32;
    if n <= 0x7f {
        1
    } else if n <= 0x7ff {
        2
    } else if n <= 0xffff {
        3
    } else {
        4
    }
}

/// The bytes that UTF-8 takes for a text.
pub open spec fn byte_len(text: Seq<char>) -> nat
    decreases text.len(),
{
    if text.len() == 0 {
        0
    } else {
        byte_len(text.drop_last()) + char_bytes(text.last())
    }
}

/// The byte length of a text made of two is the sum of theirs.
pub proof fn lemma_byte_len_concat(a: Seq<char>, b: Seq<char>)
    ensures
        byte_len(a + b) == byte_len(a) + byte_len(b),
    decreases b.len(),
{
    if b.len() == 0 {
        assert(a + b == a);
    } else {
        assert((a + b).drop_last() == a + b.drop_last());
        lemma_byte_len_concat(a, b.drop_last());
    }
}

/// `byte_len` is the length of the UTF-8 encoding.
pub proof fn lemma_byte_len_is_utf8(t: Seq<char>)
    ensures
        byte_len(t) == vstd::utf8::encode_utf8(t).len(),
    decreases t.len(),
{
    if t.len() > 0 {
        let rest = t.drop_first();
        lemma_byte_len_is_utf8(rest);
        let head = seq![t[0]];
        assert(t == head + rest);
        lemma_byte_len_concat(head, rest);
        assert(head.drop_last() == Seq::<char>::empty());
        reveal_with_fuel(byte_len, 2);
        assert(byte_len(head) == char_bytes(t[0]));
        vstd::utf8::char_is_scalar(t[0]);
    }
}

/// The number of bytes of a text.
pub fn byte_count(t: &str) -> (n: usize)
    ensures
        n == byte_len(t@),
{
    proof {
        lemma_byte_len_is_utf8(t@);
    }
    t.as_bytes().len()
}

fn char_byte_count(c: char) -> (n: usize)
    ensures
        n == char_bytes(c),
        1 <= n <= 4,
{
    let code: u32 = c as u32;
    if code <= 0x7f {
        1
    } else if code <= 0x7ff {
        2
    } else if code <= 0xffff {
        3
    } else {
        4
    }
}

/// The longest prefix that takes at most `max` bytes.
pub open spec fn fitted(t: Seq<char>, max: nat) -> Seq<char>
    decreases t.len(),
{
    if t.len() == 0 || byte_len(t) <= max {
        t
    } else {
        fitted(t.drop_last(), max)
    }
}

/// A prefix takes no more bytes than the whole.
proof fn lemma_byte_len_prefix(t: Seq<char>, n: int)
    requires
        0 <= n <= t.len(),
    ensures
        byte_len(t.take(n)) <= byte_len(t),
{
    assert(t == t.take(n) + t.skip(n));
    lemma_byte_len_concat(t.take(n), t.skip(n));
}

/// A fitted text is a prefix of the text, takes at most `max` bytes, and is
/// the text itself where that fits.
pub proof fn lemma_fitted(t: Seq<char>, max: nat)
    ensures
        byte_len(fitted(t, max)) <= max,
        fitted(t, max).len() <= t.len(),
        fitted(t, max) == t.take(fitted(t, max).len() as int),
        byte_len(t) <= max ==> fitted(t, max) == t,
    decreases t.len(),
{
    if t.len() > 0 && byte_len(t) > max {
        lemma_fitted(t.drop_last(), max);
        let n = fitted(t, max).len() as int;
        assert(t.drop_last().take(n) == t.take(n));
    } else {
        assert(t.take(t.len() as int) == t);
    }
}

/// The prefix of length `n` is the fitted text where one character more does
/// not fit.
proof fn lemma_fitted_at(t: Seq<char>, max: nat, n: int)
    requires
        0 <= n <= t.len(),
        byte_len(t.take(n)) <= max,
        n < t.len() ==> byte_len(t.take(n + 1)) > max,
    ensures
        fitted(t, max) == t.take(n),
    decreases t.len() - n,
{
    assert(t.take(t.len() as int) == t);
    if n < t.len() {
        lemma_byte_len_prefix(t, n + 1);
        let shorter = t.drop_last();
        assert(shorter.take(n) == t.take(n));
        if n < shorter.len() {
            assert(shorter.take(n + 1) == t.take(n + 1));
        }
        lemma_fitted_at(shorter, max, n);
    }
}

/// The longest prefix of at most `max_bytes` bytes that ends between two
/// characters.
pub fn truncate_str_bytes(t: &str, max_bytes: usize) -> (out: String)
    ensures
        out@ == fitted(t@, max_bytes as nat),
{
    let chars = text::chars_of(t);
    let mut used: usize = 0;
    let mut n: usize = 0;
    assert(chars@.take(0) == Seq::<char>::empty());
    while n < chars.len()
        invariant
            n <= chars@.len(),
            chars@ == t@,
            used == byte_len(chars@.take(n as int)),
            used <= max_bytes,
        decreases chars@.len() - n,
    {
        let width = char_byte_count(chars[n]);
        assert(chars@.take(n + 1).drop_last() == chars@.take(n as int));
        if width > max_bytes - used {
            proof {
                lemma_fitted_at(t@, max_bytes as nat, n as int);
            }
            let out = text::text_between(&chars, 0, n);
            assert(out@ == t@.take(n as int));
            return out;
        }
        used += width;
        n += 1;
    }
    proof {
        lemma_fitted_at(t@, max_bytes as nat, n as int);
    }
    let out = text::text_between(&chars, 0, n);
    assert(out@ == t@.take(n as int));
    out
}

/// ` - SxxEyy`.
pub open spec fn episode_tag(season: u32, episode: u32) -> Seq<char> {
    " - S"@ + text::decimal2(season as nat) + "E"@ + text::decimal2(episode as nat)
}

/// The standard episode file name; an empty episode title is left out.
pub open spec fn episode_file(
    title: Seq<char>,
    season: u32,
    episode: u32,
    episode_title: Seq<char>,
    extension: Seq<char>,
) -> Seq<char> {
    title + episode_tag(season, episode) + (if episode_title.len() == 0 {
        Seq::<char>::empty()
    } else {
        " - "@ + episode_title
    }) + "."@ + extension
}

fn standard_name(
    title: &str,
    season: u32,
    episode: u32,
    episode_title: &str,
    extension: &str,
) -> (out: String)
    ensures
        out@ == episode_file(title@, season, episode, episode_title@, extension@),
{
    let mut tag: String = " - S".to_owned();
    tag.append(text::decimal2_text(season as u64).as_str());
    tag.append("E");
    tag.append(text::decimal2_text(episode as u64).as_str());
    let mut middle: String = String::new();
    if !episode_title.is_empty() {
        middle.append(" - ");
        middle.append(episode_title);
        assert(middle@ == " - "@ + episode_title@);
    }
    let mut out: String = title.to_owned();
    out.append(tag.as_str());
    out.append(middle.as_str());
    out.append(".");
    out.append(extension);
    out
}

/// How much of the length is over the limit.
pub open spec fn over_limit(length: nat) -> nat {
    if length > NAME_LIMIT {
        (length - NAME_LIMIT) as nat
    } else {
        0
    }
}

/// `t` shortened by at least `excess` bytes, without trailing white space.
pub open spec fn shortened(t: Seq<char>, excess: nat) -> Seq<char> {
    text::trim_end(
        fitted(
            t,
            if byte_len(t) > excess {
                (byte_len(t) - excess) as nat
            } else {
                0
            },
        ),
    )
}

/// The episode title with which the standard name takes the place of a name that is too
/// long: shortened by what the name has too much, and again where the standard name
/// still has too much.
pub open spec fn limited_episode_title(
    name: Seq<char>,
    title: Seq<char>,
    episode_title: Seq<char>,
    season: u32,
    episode: u32,
    extension: Seq<char>,
) -> Seq<char> {
    let once = shortened(episode_title, over_limit(byte_len(name)));
    let candidate = episode_file(title, season, episode, once, extension);
    if byte_len(candidate) <= NAME_LIMIT {
        once
    } else {
        shortened(once, over_limit(byte_len(candidate)))
    }
}

/// The standard name; where it does not fit, with a shortened title, and cut where the
/// rest alone does not fit.
pub open spec fn limited_standard_name(
    title: Seq<char>,
    season: u32,
    episode: u32,
    episode_title: Seq<char>,
    extension: Seq<char>,
) -> Seq<char> {
    let candidate = episode_file(title, season, episode, episode_title, extension);
    if byte_len(candidate) <= NAME_LIMIT {
        candidate
    } else {
        fitted(
            episode_file(
                shortened(title, over_limit(byte_len(candidate))),
                season,
                episode,
                episode_title,
                extension,
            ),
            NAME_LIMIT as nat,
        )
    }
}

/// The name as it is where it fits; else the standard name with a shortened
/// episode title; and where that does not fit either, with a shortened title.
pub open spec fn limited_name(
    name: Seq<char>,
    title: Seq<char>,
    episode_title: Seq<char>,
    season: u32,
    episode: u32,
    extension: Seq<char>,
) -> Seq<char> {
    if byte_len(name) <= NAME_LIMIT {
        name
    } else {
        limited_standard_name(
            title,
            season,
            episode,
            limited_episode_title(name, title, episode_title, season, episode, extension),
            extension,
        )
    }
}

fn shortened_text(t: &str, excess: usize) -> (out: String)
    ensures
        out@ == shortened(t@, excess as nat),
{
    let kept: usize = byte_count(t).saturating_sub(excess);
    text::trimmed_end(truncate_str_bytes(t, kept).as_str())
}

/// Keeps a file name within the limit: the episode title is shortened first,
/// then the title, and the whole is cut where the rest alone does not fit.
pub fn truncate_filename_to_limit(
    filename: String,
    title: &str,
    episode_title: &str,
    season: u32,
    episode: u32,
    extension: &str,
) -> (out: String)
    ensures
        out@ == limited_name(filename@, title@, episode_title@, season, episode, extension@),
        byte_len(out@) <= NAME_LIMIT,
        byte_len(filename@) <= NAME_LIMIT ==> out@ == filename@,
{
    proof {
        lemma_limited_name_fits(filename@, title@, episode_title@, season, episode, extension@);
    }
    let length = byte_count(filename.as_str());
    if length <= NAME_LIMIT {
        return filename;
    }
    let once = shortened_text(episode_title, length - NAME_LIMIT);
    let first = standard_name(title, season, episode, once.as_str(), extension);
    let first_length = byte_count(first.as_str());
    if first_length <= NAME_LIMIT {
        return first;
    }
    let short_episode = shortened_text(once.as_str(), first_length - NAME_LIMIT);
    let second = standard_name(title, season, episode, short_episode.as_str(), extension);
    let second_length = byte_count(second.as_str());
    if second_length <= NAME_LIMIT {
        return second;
    }
    let short_title = shortened_text(title, second_length - NAME_LIMIT);
    let last = standard_name(
        short_title.as_str(),
        season,
        episode,
        short_episode.as_str(),
        extension,
    );
    truncate_str_bytes(last.as_str(), NAME_LIMIT)
}

/// Removing trailing white space does not lengthen a text.
proof fn lemma_trim_end_bytes(t: Seq<char>)
    ensures
        byte_len(text::trim_end(t)) <= byte_len(t),
    decreases t.len(),
{
    if t.len() > 0 && text::is_space(t.last()) {
        lemma_trim_end_bytes(t.drop_last());
    }
}

proof fn lemma_shortened_bytes(t: Seq<char>, excess: nat)
    ensures
        byte_len(shortened(t, excess)) <= (if byte_len(t) > excess {
            byte_len(t) - excess
        } else {
            0
        }),
{
    let kept: nat = if byte_len(t) > excess {
        (byte_len(t) - excess) as nat
    } else {
        0
    };
    lemma_fitted(t, kept);
    lemma_trim_end_bytes(fitted(t, kept));
}

proof fn lemma_episode_file_bytes(
    title: Seq<char>,
    season: u32,
    episode: u32,
    episode_title: Seq<char>,
    extension: Seq<char>,
)
    ensures
        byte_len(episode_file(title, season, episode, episode_title, extension)) == byte_len(title)
            + byte_len(
            episode_file(Seq::<char>::empty(), season, episode, episode_title, extension),
        ),
{
    let tag = episode_tag(season, episode);
    let middle = if episode_title.len() == 0 {
        Seq::<char>::empty()
    } else {
        " - "@ + episode_title
    };
    let rest = tag + middle + "."@ + extension;
    assert(episode_file(title, season, episode, episode_title, extension) == title + rest);
    assert(episode_file(Seq::<char>::empty(), season, episode, episode_title, extension) == rest);
    lemma_byte_len_concat(title, rest);
}

/// A limited name fits the limit.
pub proof fn lemma_limited_name_fits(
    name: Seq<char>,
    title: Seq<char>,
    episode_title: Seq<char>,
    season: u32,
    episode: u32,
    extension: Seq<char>,
)
    ensures
        byte_len(limited_name(name, title, episode_title, season, episode, extension))
            <= NAME_LIMIT,
{
    if byte_len(name) > NAME_LIMIT {
        let short_episode = limited_episode_title(
            name,
            title,
            episode_title,
            season,
            episode,
            extension,
        );
        let candidate = episode_file(title, season, episode, short_episode, extension);
        lemma_fitted(
            episode_file(
                shortened(title, over_limit(byte_len(candidate))),
                season,
                episode,
                short_episode,
                extension,
            ),
            NAME_LIMIT as nat,
        );
    }
}

/// A limited name keeps its season, its episode and its extension wherever these alone
/// fit the limit: it is the standard name with the beginnings of the two titles.
pub proof fn lemma_limited_name_keeps_slot(
    name: Seq<char>,
    title: Seq<char>,
    episode_title: Seq<char>,
    season: u32,
    episode: u32,
    extension: Seq<char>,
) -> (kept: (Seq<char>, Seq<char>))
    requires
        byte_len(name) > NAME_LIMIT,
        byte_len(
            episode_file(
                Seq::<char>::empty(),
                season,
                episode,
                Seq::<char>::empty(),
                extension,
            ),
        ) <= NAME_LIMIT,
    ensures
        limited_name(name, title, episode_title, season, episode, extension) == episode_file(
            kept.0,
            season,
            episode,
            kept.1,
            extension,
        ),
        kept.0.is_prefix_of(title),
        kept.1.is_prefix_of(episode_title),
{
    let once = shortened(episode_title, over_limit(byte_len(name)));
    lemma_shortened_prefix(episode_title, over_limit(byte_len(name)));
    let first = episode_file(title, season, episode, once, extension);
    if byte_len(first) <= NAME_LIMIT {
        assert(title.is_prefix_of(title));
        return (title, once);
    }
    let excess = over_limit(byte_len(first));
    let short_episode = shortened(once, excess);
    lemma_shortened_prefix(once, excess);
    lemma_shortened_bytes(once, excess);
    assert(short_episode.is_prefix_of(episode_title));
    lemma_episode_file_bytes(title, season, episode, once, extension);
    lemma_episode_file_bytes(title, season, episode, short_episode, extension);
    lemma_middle_bytes(season, episode, once, extension);
    lemma_middle_bytes(season, episode, short_episode, extension);
    let second = episode_file(title, season, episode, short_episode, extension);
    if short_episode.len() > 0 {
        lemma_nonempty_bytes(short_episode);
        // The episode title gave up all that was over the limit.
        assert(byte_len(second) <= NAME_LIMIT);
    }
    if byte_len(second) <= NAME_LIMIT {
        assert(title.is_prefix_of(title));
        return (title, short_episode);
    }
    assert(short_episode =~= Seq::<char>::empty());
    let short_title = shortened(title, over_limit(byte_len(second)));
    lemma_shortened_prefix(title, over_limit(byte_len(second)));
    lemma_shortened_bytes(title, over_limit(byte_len(second)));
    lemma_episode_file_bytes(short_title, season, episode, short_episode, extension);
    let last = episode_file(short_title, season, episode, short_episode, extension);
    assert(byte_len(last) <= NAME_LIMIT);
    lemma_fitted(last, NAME_LIMIT as nat);
    (short_title, short_episode)
}

proof fn lemma_shortened_prefix(t: Seq<char>, excess: nat)
    ensures
        shortened(t, excess).is_prefix_of(t),
{
    let kept: nat = if byte_len(t) > excess {
        (byte_len(t) - excess) as nat
    } else {
        0
    };
    lemma_fitted(t, kept);
    lemma_trim_end_prefix(fitted(t, kept));
}

proof fn lemma_trim_end_prefix(t: Seq<char>)
    ensures
        text::trim_end(t).is_prefix_of(t),
    decreases t.len(),
{
    if t.len() > 0 && text::is_space(t.last()) {
        lemma_trim_end_prefix(t.drop_last());
    }
}

proof fn lemma_nonempty_bytes(t: Seq<char>)
    ensures
        t.len() > 0 ==> byte_len(t) > 0,
{
}

proof fn lemma_middle_bytes(
    season: u32,
    episode: u32,
    episode_title: Seq<char>,
    extension: Seq<char>,
)
    ensures
        episode_title.len() > 0 ==> byte_len(
            episode_file(Seq::<char>::empty(), season, episode, episode_title, extension),
        ) == byte_len(
            episode_file(
                Seq::<char>::empty(),
                season,
                episode,
                Seq::<char>::empty(),
                extension,
            ),
        ) + byte_len(" - "@) + byte_len(episode_title),
{
    if episode_title.len() > 0 {
        let e = Seq::<char>::empty();
        let tag = episode_tag(season, episode);
        let tail = "."@ + extension;
        let middle = " - "@ + episode_title;
        assert(episode_file(e, season, episode, episode_title, extension) == tag + (middle + tail));
        assert(episode_file(e, season, episode, e, extension) == tag + tail);
        lemma_byte_len_concat(tag, middle + tail);
        lemma_byte_len_concat(middle, tail);
        lemma_byte_len_concat(" - "@, episode_title);
        lemma_byte_len_concat(tag, tail);
    }
}

// ---------------------------------------------------------------------------
// Forbidden characters

/// The characters that Windows does not allow in a file name, and `/`.
pub open spec fn is_forbidden(c: char) -> bool {
    c == '/' || c == '\\' || c == ':' || c == '*' || c == '?' || c == '"' || c == '<' || c == '>'
        || c == '|'
}

/// `c`, or `_` where it is forbidden.
pub open spec fn safe_char(c: char) -> char {
    if is_forbidden(c) {
        '_'
    } else {
        c
    }
}

/// The text with forbidden characters replaced, without surrounding white space.
pub open spec fn sanitized(t: Seq<char>) -> Seq<char> {
    text::trim(t.map_values(|c: char| safe_char(c)))
}

/// Replaces forbidden characters by `_` and trims.
pub fn sanitize_filename(name: &str) -> (out: String)
    ensures
        out@ == sanitized(name@),
{
    let chars = text::chars_of(name);
    let mut mapped: String = String::new();
    let mut i: usize = 0;
    while i < chars.len()
        invariant
            i <= chars@.len(),
            chars@ == name@,
            mapped@ == name@.map_values(|c: char| safe_char(c)).take(i as int),
        decreases chars@.len() - i,
    {
        let c = chars[i];
        let safe = if c == '/' || c == '\\' || c == ':' || c == '*' || c == '?' || c == '"' || c
            == '<' || c == '>' || c == '|' {
            '_'
        } else {
            c
        };
        mapped.push(safe);
        i += 1;
        assert(mapped@ == name@.map_values(|c: char| safe_char(c)).take(i as int));
    }
    assert(mapped@ == name@.map_values(|c: char| safe_char(c)));
    text::trimmed(mapped.as_str())
}

/// A sanitized name holds no forbidden character, neither begins nor ends with
/// white space, and is left as it is by sanitizing it again.
pub proof fn lemma_sanitized_is_clean(t: Seq<char>)
    ensures
        forall|i: int| 0 <= i < sanitized(t).len() ==> !is_forbidden(#[trigger] sanitized(t)[i]),
        sanitized(t).len() > 0 ==> !text::is_space(sanitized(t)[0]) && !text::is_space(
            sanitized(t).last(),
        ),
        sanitized(sanitized(t)) == sanitized(t),
{
    let mapped = t.map_values(|c: char| safe_char(c));
    let out = sanitized(t);
    text::lemma_trim(mapped);
    assert forall|i: int| 0 <= i < out.len() implies !is_forbidden(#[trigger] out[i]) by {
        assert(mapped.contains(out[i]));
        let k = choose|k: int| 0 <= k < mapped.len() && mapped[k] == out[i];
        assert(mapped[k] == safe_char(t[k]));
    }
    assert(out.map_values(|c: char| safe_char(c)) =~= out);
}

/// What is sanitized is told character by character: a forbidden one becomes `_`, every
/// other stays, and only white space goes, at both ends.
pub proof fn lemma_sanitized_keeps_the_rest(t: Seq<char>)
    ensures
        (forall|i: int| 0 <= i < t.len() ==> !is_forbidden(#[trigger] t[i])) ==> sanitized(t)
            == text::trim(t),
        t.len() > 0 && !text::is_space(t[0]) && !text::is_space(t.last()) ==> sanitized(t).len()
            == t.len() && forall|i: int|
            0 <= i < t.len() ==> #[trigger] sanitized(t)[i] == (if t[i] == '/' || t[i] == '\\'
                || t[i] == ':' || t[i] == '*' || t[i] == '?' || t[i] == '"' || t[i] == '<' || t[i]
                == '>' || t[i] == '|' {
                '_'
            } else {
                t[i]
            }),
{
    let mapped = t.map_values(|c: char| safe_char(c));
    if forall|i: int| 0 <= i < t.len() ==> !is_forbidden(#[trigger] t[i]) {
        assert(mapped =~= t);
    }
    if t.len() > 0 && !text::is_space(t[0]) && !text::is_space(t.last()) {
        assert(!text::is_space(mapped[0]));
        assert(!text::is_space(mapped.last()));
        assert(text::trim_start(mapped) == mapped);
    }
}

/// A sanitized text holds no slash.
pub proof fn lemma_sanitized_is_flat(t: Seq<char>)
    ensures
        !sanitized(t).contains('/'),
{
    lemma_sanitized_is_clean(t);
}

proof fn lemma_prefix_is_flat(part: Seq<char>, whole: Seq<char>)
    requires
        part.is_prefix_of(whole),
        !whole.contains('/'),
    ensures
        !part.contains('/'),
{
    if part.contains('/') {
        let i = choose|i: int| 0 <= i < part.len() && part[i] == '/';
        assert(whole.subrange(0, part.len() as int)[i] == whole[i]);
        assert(whole.contains('/'));
    }
}

proof fn lemma_episode_file_is_flat(
    title: Seq<char>,
    season: u32,
    episode: u32,
    episode_title: Seq<char>,
    extension: Seq<char>,
)
    requires
        !title.contains('/'),
        !episode_title.contains('/'),
        !extension.contains('/'),
    ensures
        !episode_file(title, season, episode, episode_title, extension).contains('/'),
{
    reveal_strlit(" - S");
    reveal_strlit("E");
    reveal_strlit(" - ");
    reveal_strlit(".");
    let s = text::decimal2(season as nat);
    let e = text::decimal2(episode as nat);
    text::lemma_decimal2_tells(season as nat, 0);
    text::lemma_decimal2_tells(episode as nat, 0);
    text::lemma_digits_hold(s, '/');
    text::lemma_digits_hold(e, '/');
    let a = " - S"@ + s;
    text::lemma_concat_holds(" - S"@, s, '/');
    text::lemma_concat_holds(a, "E"@, '/');
    text::lemma_concat_holds(a + "E"@, e, '/');
    let tag = episode_tag(season, episode);
    text::lemma_concat_holds(title, tag, '/');
    let middle = if episode_title.len() == 0 {
        Seq::<char>::empty()
    } else {
        " - "@ + episode_title
    };
    text::lemma_concat_holds(" - "@, episode_title, '/');
    text::lemma_concat_holds(title + tag, middle, '/');
    text::lemma_concat_holds(title + tag + middle, "."@, '/');
    text::lemma_concat_holds(title + tag + middle + "."@, extension, '/');
}

/// A limited name holds no slash where nothing that it is made of does.
pub proof fn lemma_limited_name_is_flat(
    name: Seq<char>,
    title: Seq<char>,
    episode_title: Seq<char>,
    season: u32,
    episode: u32,
    extension: Seq<char>,
)
    requires
        !name.contains('/'),
        !title.contains('/'),
        !episode_title.contains('/'),
        !extension.contains('/'),
    ensures
        !limited_name(name, title, episode_title, season, episode, extension).contains('/'),
{
    if byte_len(name) > NAME_LIMIT {
        let once = shortened(episode_title, over_limit(byte_len(name)));
        lemma_shortened_prefix(episode_title, over_limit(byte_len(name)));
        lemma_prefix_is_flat(once, episode_title);
        let first = episode_file(title, season, episode, once, extension);
        lemma_shortened_prefix(once, over_limit(byte_len(first)));
        lemma_prefix_is_flat(shortened(once, over_limit(byte_len(first))), once);
        let short = limited_episode_title(name, title, episode_title, season, episode, extension);
        let candidate = episode_file(title, season, episode, short, extension);
        lemma_episode_file_is_flat(title, season, episode, short, extension);
        let short_title = shortened(title, over_limit(byte_len(candidate)));
        lemma_shortened_prefix(title, over_limit(byte_len(candidate)));
        lemma_prefix_is_flat(short_title, title);
        lemma_episode_file_is_flat(short_title, season, episode, short, extension);
        let last = episode_file(short_title, season, episode, short, extension);
        lemma_fitted(last, NAME_LIMIT as nat);
        let cut = fitted(last, NAME_LIMIT as nat);
        assert(cut.is_prefix_of(last));
        lemma_prefix_is_flat(cut, last);
    }
}

/// A name within the limit stays, and the standard name says all it is made of in its
/// place: title, season, episode, episode title and extension.
pub proof fn lemma_short_names_stay(
    name: Seq<char>,
    title: Seq<char>,
    episode_title: Seq<char>,
    season: u32,
    episode: u32,
    extension: Seq<char>,
)
    ensures
        byte_len(name) <= 250 ==> limited_name(
            name,
            title,
            episode_title,
            season,
            episode,
            extension,
        ) == name,
        episode_title.len() > 0 ==> episode_file(title, season, episode, episode_title, extension)
            == title + " - S"@ + text::decimal2(season as nat) + "E"@ + text::decimal2(
            episode as nat,
        ) + " - "@ + episode_title + "."@ + extension,
        episode_file(title, season, episode, Seq::<char>::empty(), extension) == title + " - S"@
            + text::decimal2(season as nat) + "E"@ + text::decimal2(episode as nat) + "."@
            + extension,
{
    if episode_title.len() > 0 {
        assert(episode_file(title, season, episode, episode_title, extension) =~= title + " - S"@
            + text::decimal2(season as nat) + "E"@ + text::decimal2(episode as nat) + " - "@
            + episode_title + "."@ + extension);
    }
    assert(episode_file(title, season, episode, Seq::<char>::empty(), extension) =~= title
        + " - S"@ + text::decimal2(season as nat) + "E"@ + text::decimal2(episode as nat) + "."@
        + extension);
}

/// A fitted text is the longest that fits: one character more would be too long.
pub proof fn lemma_fitted_is_longest(t: Seq<char>, max: nat)
    ensures
        byte_len(fitted(t, max)) <= max,
        fitted(t, max).is_prefix_of(t),
        fitted(t, max).len() < t.len() ==> byte_len(t.take(fitted(t, max).len() as int + 1)) > max,
    decreases t.len(),
{
    lemma_fitted(t, max);
    if t.len() > 0 && byte_len(t) > max {
        let rest = t.drop_last();
        lemma_fitted_is_longest(rest, max);
        let n = fitted(rest, max).len() as int;
        if n < rest.len() {
            assert(rest.take(n + 1) =~= t.take(n + 1));
        } else {
            assert(t.take(n + 1) =~= t);
        }
    }
}

/// A text is shortened by no more than has to go: what is kept is the longest beginning
/// that leaves out as many bytes as are over the limit, without white space at its end.
pub proof fn lemma_no_more_is_cut(t: Seq<char>, excess: nat) -> (n: int)
    ensures
        0 <= n <= t.len(),
        shortened(t, excess) == text::trim_end(t.take(n)),
        byte_len(t) >= excess ==> byte_len(t.take(n)) + excess <= byte_len(t),
        n < t.len() && byte_len(t) >= excess ==> byte_len(t.take(n + 1)) + excess > byte_len(t),
{
    let kept: nat = if byte_len(t) > excess {
        (byte_len(t) - excess) as nat
    } else {
        0
    };
    lemma_fitted(t, kept);
    lemma_fitted_is_longest(t, kept);
    fitted(t, kept).len() as int
}

/// A name that is too long becomes the standard name: with the episode title cut by what is
/// too much, where that is enough; and with the whole episode title where the standard name
/// fits though the template's does not and nothing has to go.
pub proof fn lemma_long_names_become_standard(
    name: Seq<char>,
    title: Seq<char>,
    episode_title: Seq<char>,
    season: u32,
    episode: u32,
    extension: Seq<char>,
)
    requires
        byte_len(name) > 250,
    ensures
        ({
            let cut = shortened(episode_title, (byte_len(name) - 250) as nat);
            let standard = episode_file(title, season, episode, cut, extension);
            byte_len(standard) <= 250 ==> limited_name(
                name,
                title,
                episode_title,
                season,
                episode,
                extension,
            ) == standard
        }),
{
}

} // verus!
