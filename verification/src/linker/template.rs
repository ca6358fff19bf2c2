//! What filling in a naming template amounts to: a template is plain text and
//! placeholders one behind the other, each placeholder takes its value, and the
//! plain text stays.

use vstd::prelude::*;
use crate::linker::{filled_numbers, filled_title};
use crate::text;

verus! {

/// Whether a segment is plain text.
pub open spec fn is_plain(segment: Seq<char>) -> bool {
    !segment.contains('{')
}

/// Whether a segment is a placeholder: a text in braces without braces inside.
pub open spec fn is_placeholder(segment: Seq<char>) -> bool {
    &&& segment.len() >= 2
    &&& segment[0] == '{'
    &&& segment.last() == '}'
    &&& forall|i: int| 1 <= i < segment.len() ==> #[trigger] segment[i] != '{'
    &&& forall|i: int| 0 <= i < segment.len() - 1 ==> #[trigger] segment[i] != '}'
}

/// Whether every segment is plain text or a placeholder.
pub open spec fn are_segments(segments: Seq<Seq<char>>) -> bool {
    forall|i: int|
        0 <= i < segments.len() ==> is_plain(#[trigger] segments[i]) || is_placeholder(segments[i])
}

/// The segments one behind the other.
pub open spec fn run(segments: Seq<Seq<char>>) -> Seq<char>
    decreases segments.len(),
{
    if segments.len() == 0 {
        Seq::<char>::empty()
    } else {
        segments[0] + run(segments.skip(1))
    }
}

/// The segments with `to` in place of each that is `from`.
pub open spec fn exchanged(segments: Seq<Seq<char>>, from: Seq<char>, to: Seq<char>) -> Seq<
    Seq<char>,
> {
    segments.map_values(
        |s: Seq<char>|
            if s == from {
                to
            } else {
                s
            },
    )
}

/// A text in which `from` starts nowhere stays before what is replaced behind it.
proof fn lemma_replace_behind(head: Seq<char>, rest: Seq<char>, from: Seq<char>, to: Seq<char>)
    requires
        from.len() > 0,
        forall|at: int| 0 <= at < head.len() ==> !#[trigger] text::occurs_at(head + rest, from, at),
    ensures
        text::replace(head + rest, from, to) == head + text::replace(rest, from, to),
    decreases head.len(),
{
    if head.len() == 0 {
        assert(head + rest =~= rest);
        assert(head + text::replace(rest, from, to) =~= text::replace(rest, from, to));
    } else {
        let whole = head + rest;
        let less = head.skip(1);
        assert(!text::occurs_at(whole, from, 0));
        assert(whole.skip(1) =~= less + rest);
        assert forall|at: int| 0 <= at < less.len() implies !#[trigger] text::occurs_at(
            less + rest,
            from,
            at,
        ) by {
            if text::occurs_at(less + rest, from, at) {
                assert(whole.subrange(at + 1, at + 1 + from.len()) =~= (less + rest).subrange(
                    at,
                    at + from.len(),
                ));
                assert(text::occurs_at(whole, from, at + 1));
            }
        }
        lemma_replace_behind(less, rest, from, to);
        if whole.len() < from.len() {
            assert(text::replace(rest, from, to) == rest);
        } else {
            assert(seq![whole[0]] + (less + text::replace(rest, from, to)) =~= head + text::replace(
                rest,
                from,
                to,
            ));
        }
    }
}

/// A placeholder starts nowhere in plain text and nowhere in another placeholder.
proof fn lemma_starts_nowhere(segment: Seq<char>, rest: Seq<char>, from: Seq<char>, at: int)
    requires
        is_placeholder(from),
        is_plain(segment) || is_placeholder(segment) && segment != from,
        0 <= at < segment.len(),
    ensures
        !text::occurs_at(segment + rest, from, at),
{
    let whole = segment + rest;
    if text::occurs_at(whole, from, at) {
        let found = whole.subrange(at, at + from.len());
        assert(found[0] == whole[at]);
        assert(whole[at] == segment[at]);
        assert(segment.contains(segment[at]));
        assert(is_placeholder(segment) && at == 0);
        if from.len() < segment.len() {
            let k = from.len() - 1;
            assert(found[k] == segment[k]);
            assert(from[k] == '}');
        } else if from.len() > segment.len() {
            let k = segment.len() - 1;
            assert(found[k] == segment[k]);
            assert(from[k] != '}');
        } else {
            assert(found =~= segment);
        }
    }
}

/// Replacing a placeholder exchanges the segments that are it, and nothing else.
pub proof fn lemma_replace_exchanges(segments: Seq<Seq<char>>, from: Seq<char>, to: Seq<char>)
    requires
        are_segments(segments),
        is_placeholder(from),
    ensures
        text::replace(run(segments), from, to) == run(exchanged(segments, from, to)),
    decreases segments.len(),
{
    if segments.len() == 0 {
        assert(exchanged(segments, from, to).len() == 0);
    } else {
        let head = segments[0];
        let rest = segments.skip(1);
        assert(are_segments(rest)) by {
            assert forall|i: int| 0 <= i < rest.len() implies is_plain(#[trigger] rest[i])
                || is_placeholder(rest[i]) by {
                assert(rest[i] == segments[i + 1]);
            }
        }
        lemma_replace_exchanges(rest, from, to);
        let tail = run(rest);
        assert(exchanged(segments, from, to).skip(1) =~= exchanged(rest, from, to));
        if head == from {
            let none = Seq::<char>::empty();
            text::lemma_replace_first(none, from, tail, to);
            assert(none + from + tail =~= head + tail);
            assert(none + to + text::replace(tail, from, to) =~= to + text::replace(
                tail,
                from,
                to,
            ));
        } else {
            assert(is_plain(segments[0]) || is_placeholder(segments[0]));
            assert forall|at: int| 0 <= at < head.len() implies !#[trigger] text::occurs_at(
                head + tail,
                from,
                at,
            ) by {
                lemma_starts_nowhere(head, tail, from, at);
            }
            lemma_replace_behind(head, tail, from, to);
        }
    }
}

proof fn lemma_exchanged_are_segments(segments: Seq<Seq<char>>, from: Seq<char>, to: Seq<char>)
    requires
        are_segments(segments),
        is_plain(to),
    ensures
        are_segments(exchanged(segments, from, to)),
{
    let now = exchanged(segments, from, to);
    assert forall|i: int| 0 <= i < now.len() implies is_plain(#[trigger] now[i]) || is_placeholder(
        now[i],
    ) by {
        assert(is_plain(segments[i]) || is_placeholder(segments[i]));
    }
}

/// The value of a segment: that of a number's or the title's placeholder, else itself.
pub open spec fn value_of(
    segment: Seq<char>,
    title: Seq<char>,
    season: u32,
    episode: u32,
) -> Seq<char> {
    if segment == "{season:02}"@ {
        text::decimal2(season as nat)
    } else if segment == "{season}"@ {
        text::decimal(season as nat)
    } else if segment == "{episode:02}"@ {
        text::decimal2(episode as nat)
    } else if segment == "{episode}"@ {
        text::decimal(episode as nat)
    } else if segment == "{title}"@ {
        title
    } else {
        segment
    }
}

/// The placeholders of a template are placeholders, and no two are alike.
pub proof fn lemma_placeholders()
    ensures
        is_placeholder("{season:02}"@),
        is_placeholder("{season}"@),
        is_placeholder("{episode:02}"@),
        is_placeholder("{episode}"@),
        is_placeholder("{title}"@),
        is_placeholder("{episode_title}"@),
        "{season:02}"@ != "{season}"@,
        "{episode:02}"@ != "{episode}"@,
        "{season:02}"@ != "{episode:02}"@,
        "{season}"@ != "{episode}"@,
        "{title}"@ != "{episode_title}"@,
{
    reveal_strlit("{season:02}");
    reveal_strlit("{season}");
    reveal_strlit("{episode:02}");
    reveal_strlit("{episode}");
    reveal_strlit("{title}");
    reveal_strlit("{episode_title}");
    assert("{season:02}"@[7] != "{season}"@[7]);
    assert("{episode:02}"@[8] != "{episode}"@[8]);
    assert("{season:02}"@[1] != "{episode:02}"@[1]);
    assert("{season}"@[1] != "{episode}"@[1]);
    assert("{title}"@[1] != "{episode_title}"@[1]);
}

/// A template is filled in segment by segment: the season's and the episode's placeholders
/// take these numbers, padded to two digits where the placeholder asks for that, the
/// title's takes the title, and all else stays.
pub proof fn lemma_numbers_are_filled_in(
    segments: Seq<Seq<char>>,
    title: Seq<char>,
    season: u32,
    episode: u32,
)
    requires
        are_segments(segments),
    ensures
        filled_numbers(run(segments), title, season, episode) == run(
            segments.map_values(|s: Seq<char>| value_of(s, title, season, episode)),
        ),
{
    lemma_placeholders();
    let s2 = text::decimal2(season as nat);
    let s1 = text::decimal(season as nat);
    let e2 = text::decimal2(episode as nat);
    let e1 = text::decimal(episode as nat);
    text::lemma_decimal2_tells(season as nat, 0);
    text::lemma_decimal_tells(season as nat, 0);
    text::lemma_decimal2_tells(episode as nat, 0);
    text::lemma_decimal_tells(episode as nat, 0);
    text::lemma_digits_hold(s2, '{');
    text::lemma_digits_hold(s1, '{');
    text::lemma_digits_hold(e2, '{');
    text::lemma_digits_hold(e1, '{');
    let a = exchanged(segments, "{season:02}"@, s2);
    let b = exchanged(a, "{season}"@, s1);
    let c = exchanged(b, "{episode:02}"@, e2);
    let d = exchanged(c, "{episode}"@, e1);
    let e = exchanged(d, "{title}"@, title);
    lemma_replace_exchanges(segments, "{season:02}"@, s2);
    lemma_exchanged_are_segments(segments, "{season:02}"@, s2);
    lemma_replace_exchanges(a, "{season}"@, s1);
    lemma_exchanged_are_segments(a, "{season}"@, s1);
    lemma_replace_exchanges(b, "{episode:02}"@, e2);
    lemma_exchanged_are_segments(b, "{episode:02}"@, e2);
    lemma_replace_exchanges(c, "{episode}"@, e1);
    lemma_exchanged_are_segments(c, "{episode}"@, e1);
    lemma_replace_exchanges(d, "{title}"@, title);
    lemma_braces_differ(s2);
    lemma_braces_differ(s1);
    lemma_braces_differ(e2);
    lemma_braces_differ(e1);
    lemma_literals_start_with_braces();
    let all = segments.map_values(|s: Seq<char>| value_of(s, title, season, episode));
    assert forall|i: int| 0 <= i < segments.len() implies e[i] == all[i] by {
        let s = segments[i];
        assert(a[i] == (if s == "{season:02}"@ { s2 } else { s }));
        assert(b[i] == (if a[i] == "{season}"@ { s1 } else { a[i] }));
        assert(c[i] == (if b[i] == "{episode:02}"@ { e2 } else { b[i] }));
        assert(d[i] == (if c[i] == "{episode}"@ { e1 } else { c[i] }));
        assert(e[i] == (if d[i] == "{title}"@ { title } else { d[i] }));
    }
    assert(e =~= all);
}

proof fn lemma_literals_start_with_braces()
    ensures
        "{season}"@.contains('{'),
        "{episode:02}"@.contains('{'),
        "{episode}"@.contains('{'),
        "{title}"@.contains('{'),
        "{title}"@ != "{season:02}"@,
        "{title}"@ != "{season}"@,
        "{title}"@ != "{episode:02}"@,
        "{title}"@ != "{episode}"@,
        "{season}"@ != "{episode:02}"@,
        "{season:02}"@ != "{episode}"@,
{
    reveal_strlit("{season:02}");
    reveal_strlit("{season}");
    reveal_strlit("{episode:02}");
    reveal_strlit("{episode}");
    reveal_strlit("{title}");
    assert("{season}"@[0] == '{');
    assert("{episode:02}"@[0] == '{');
    assert("{episode}"@[0] == '{');
    assert("{title}"@[0] == '{');
    assert("{title}"@[1] == 't');
    assert("{season:02}"@[1] == 's');
    assert("{season}"@[1] == 's');
    assert("{episode:02}"@[1] == 'e');
    assert("{episode}"@[1] == 'e');
}

proof fn lemma_braces_differ(digits: Seq<char>)
    requires
        !digits.contains('{'),
    ensures
        digits != "{season}"@,
        digits != "{episode:02}"@,
        digits != "{episode}"@,
        digits != "{title}"@,
{
    lemma_literals_start_with_braces();
}

/// An episode title takes its placeholder's place.
pub proof fn lemma_episode_title_is_filled_in(segments: Seq<Seq<char>>, episode_title: Seq<char>)
    requires
        are_segments(segments),
        episode_title.len() > 0,
    ensures
        filled_title(run(segments), episode_title) == run(
            exchanged(segments, "{episode_title}"@, episode_title),
        ),
{
    lemma_placeholders();
    lemma_replace_exchanges(segments, "{episode_title}"@, episode_title);
}

/// Where there is no episode title its placeholder goes, together with a dash before it or
/// a dash behind it, and all else stays.
pub proof fn lemma_no_episode_title_leaves_no_dash(head: Seq<char>, tail: Seq<char>)
    requires
        is_plain(head),
        is_plain(tail),
    ensures
        filled_title(head + " - {episode_title}"@ + tail, Seq::<char>::empty()) == head + tail,
        !text::ends(head, " - "@) ==> filled_title(
            head + "{episode_title} - "@ + tail,
            Seq::<char>::empty(),
        ) == head + tail,
        !text::ends(head, " - "@) && !text::begins(tail, " - "@) ==> filled_title(
            head + "{episode_title}"@ + tail,
            Seq::<char>::empty(),
        ) == head + tail,
{
    lemma_dash_before_goes(head, tail);
    if !text::ends(head, " - "@) {
        lemma_dash_behind_goes(head, tail);
        if !text::begins(tail, " - "@) {
            lemma_bare_goes(head, tail);
        }
    }
}

/// Plain text is left as it is where there is no episode title.
proof fn lemma_plain_stays(t: Seq<char>)
    requires
        is_plain(t),
    ensures
        text::replace(t, " - {episode_title}"@, ""@) == t,
        text::replace(t, "{episode_title} - "@, ""@) == t,
        text::replace(t, "{episode_title}"@, ""@) == t,
{
    reveal_strlit(" - {episode_title}");
    reveal_strlit("{episode_title} - ");
    reveal_strlit("{episode_title}");
    lemma_plain_has_no_part(t, " - {episode_title}"@, 3);
    lemma_plain_has_no_part(t, "{episode_title} - "@, 0);
    lemma_plain_has_no_part(t, "{episode_title}"@, 0);
    text::lemma_replace_nothing(t, " - {episode_title}"@, ""@);
    text::lemma_replace_nothing(t, "{episode_title} - "@, ""@);
    text::lemma_replace_nothing(t, "{episode_title}"@, ""@);
}

/// A part with a brace in it goes from between plain texts, where it cannot start earlier.
proof fn lemma_part_goes(head: Seq<char>, part: Seq<char>, k: int, tail: Seq<char>)
    requires
        is_plain(head),
        is_plain(tail),
        0 <= k < part.len(),
        part[k] == '{',
        forall|i: int| 0 <= i < k ==> #[trigger] part[i] != '{',
    ensures
        text::replace(head + part + tail, part, ""@) == head + text::replace(tail, part, ""@),
{
    reveal_strlit("");
    let whole = head + part + tail;
    assert forall|at: int| 0 <= at < head.len() implies !#[trigger] text::occurs_at(
        whole,
        part,
        at,
    ) by {
        if text::occurs_at(whole, part, at) {
            let found = whole.subrange(at, at + part.len());
            assert(found[k] == whole[at + k]);
            if at + k < head.len() {
                assert(head.contains(head[at + k]));
            } else {
                assert(whole[at + k] == part[at + k - head.len()]);
            }
        }
    }
    text::lemma_replace_first(head, part, tail, ""@);
    assert(head + ""@ =~= head);
}

proof fn lemma_dash_before_goes(head: Seq<char>, tail: Seq<char>)
    requires
        is_plain(head),
        is_plain(tail),
    ensures
        filled_title(head + " - {episode_title}"@ + tail, Seq::<char>::empty()) == head + tail,
{
    reveal_strlit(" - {episode_title}");
    lemma_part_goes(head, " - {episode_title}"@, 3, tail);
    lemma_plain_stays(tail);
    text::lemma_concat_holds(head, tail, '{');
    lemma_plain_stays(head + tail);
}

proof fn lemma_dash_behind_goes(head: Seq<char>, tail: Seq<char>)
    requires
        is_plain(head),
        is_plain(tail),
        !text::ends(head, " - "@),
    ensures
        filled_title(head + "{episode_title} - "@ + tail, Seq::<char>::empty()) == head + tail,
{
    reveal_strlit(" - ");
    reveal_strlit("{episode_title} - ");
    reveal_strlit("{episode_title}");
    let behind = "{episode_title} - "@;
    let rest = behind + tail;
    let whole = head + behind + tail;
    assert(rest.subrange(0, 15) =~= "{episode_title}"@);
    assert(rest.skip(15) =~= " - "@ + tail);
    assert(!" - "@.contains('{'));
    text::lemma_concat_holds(" - "@, tail, '{');
    assert forall|at: int| !#[trigger] text::occurs_at(whole, " - {episode_title}"@, at) by {
        lemma_dash_before_brace(head, rest, whole, at);
    }
    text::lemma_replace_nothing(whole, " - {episode_title}"@, ""@);
    lemma_part_goes(head, behind, 0, tail);
    lemma_plain_stays(tail);
    text::lemma_concat_holds(head, tail, '{');
    lemma_plain_stays(head + tail);
}

proof fn lemma_bare_goes(head: Seq<char>, tail: Seq<char>)
    requires
        is_plain(head),
        is_plain(tail),
        !text::ends(head, " - "@),
        !text::begins(tail, " - "@),
    ensures
        filled_title(head + "{episode_title}"@ + tail, Seq::<char>::empty()) == head + tail,
{
    reveal_strlit("{episode_title}");
    let bare = "{episode_title}"@;
    let rest = bare + tail;
    let whole = head + bare + tail;
    assert(rest.subrange(0, 15) =~= bare);
    assert(rest.skip(15) =~= tail);
    assert forall|at: int| !#[trigger] text::occurs_at(whole, " - {episode_title}"@, at) by {
        lemma_dash_before_brace(head, rest, whole, at);
    }
    text::lemma_replace_nothing(whole, " - {episode_title}"@, ""@);
    assert forall|at: int| !#[trigger] text::occurs_at(whole, "{episode_title} - "@, at) by {
        lemma_no_dash_behind_brace(head, tail, at);
    }
    text::lemma_replace_nothing(whole, "{episode_title} - "@, ""@);
    lemma_part_goes(head, bare, 0, tail);
    lemma_plain_stays(tail);
}

proof fn lemma_no_dash_behind_brace(head: Seq<char>, tail: Seq<char>, at: int)
    requires
        is_plain(head),
        is_plain(tail),
        !text::begins(tail, " - "@),
    ensures
        !text::occurs_at(head + "{episode_title}"@ + tail, "{episode_title} - "@, at),
{
    reveal_strlit(" - ");
    reveal_strlit("{episode_title}");
    reveal_strlit("{episode_title} - ");
    let bare = "{episode_title}"@;
    let behind = "{episode_title} - "@;
    let whole = head + bare + tail;
    if text::occurs_at(whole, behind, at) {
        let found = whole.subrange(at, at + behind.len());
        assert(found[0] == whole[at]);
        if at < head.len() {
            assert(head.contains(head[at]));
        } else if at > head.len() {
            let k = at - head.len();
            if k < bare.len() {
                assert(whole[at] == bare[k]);
            } else {
                assert(whole[at] == tail[k - bare.len()]);
                assert(tail.contains(tail[k - bare.len()]));
            }
        } else {
            assert(found[15] == whole[at + 15] && whole[at + 15] == tail[0]);
            assert(found[16] == whole[at + 16] && whole[at + 16] == tail[1]);
            assert(found[17] == whole[at + 17] && whole[at + 17] == tail[2]);
            assert(tail.subrange(0, 3) =~= " - "@);
        }
    }
}

proof fn lemma_plain_has_no_part(t: Seq<char>, part: Seq<char>, k: int)
    requires
        is_plain(t),
        0 <= k < part.len(),
        part[k] == '{',
    ensures
        !text::has_part(t, part),
{
    if text::has_part(t, part) {
        let at = choose|at: int| text::occurs_at(t, part, at);
        assert(t.subrange(at, at + part.len())[k] == t[at + k]);
        assert(t.contains(t[at + k]));
    }
}

/// A dash and a placeholder stand in the text only where the dash ends its head.
proof fn lemma_dash_before_brace(head: Seq<char>, rest: Seq<char>, whole: Seq<char>, at: int)
    requires
        whole =~= head + rest,
        is_plain(head),
        rest.len() >= 15,
        rest.subrange(0, 15) == "{episode_title}"@,
        !rest.skip(15).contains('{'),
        !text::ends(head, " - "@),
    ensures
        !text::occurs_at(whole, " - {episode_title}"@, at),
{
    reveal_strlit(" - ");
    reveal_strlit(" - {episode_title}");
    reveal_strlit("{episode_title}");
    let before = " - {episode_title}"@;
    if text::occurs_at(whole, before, at) {
        let found = whole.subrange(at, at + before.len());
        assert(found[3] == whole[at + 3]);
        let p = at + 3;
        if p < head.len() {
            assert(head.contains(head[p]));
        } else {
            let k = p - head.len();
            assert(whole[p] == rest[k]);
            if k >= 15 {
                assert(rest.skip(15)[k - 15] == '{');
                assert(rest.skip(15).contains('{'));
            } else {
                assert(rest.subrange(0, 15)[k] == rest[k]);
                assert(k == 0);
                assert(found[0] == head[at]);
                assert(found[1] == head[at + 1]);
                assert(found[2] == head[at + 2]);
                assert(head.subrange(at, at + 3) =~= " - "@);
            }
        }
    }
}

/// The segments with every placeholder's value in its place.
pub open spec fn named_after(
    segments: Seq<Seq<char>>,
    title: Seq<char>,
    season: u32,
    episode: u32,
    episode_title: Seq<char>,
) -> Seq<Seq<char>> {
    segments.map_values(
        |s: Seq<char>|
            if s == "{episode_title}"@ {
                episode_title
            } else {
                value_of(s, title, season, episode)
            },
    )
}

/// A template with numbers, a title and an episode title is filled in segment by segment.
pub proof fn lemma_all_is_filled_in(
    segments: Seq<Seq<char>>,
    title: Seq<char>,
    season: u32,
    episode: u32,
    episode_title: Seq<char>,
)
    requires
        are_segments(segments),
        is_plain(title),
        episode_title.len() > 0,
    ensures
        filled_title(filled_numbers(run(segments), title, season, episode), episode_title) == run(
            named_after(segments, title, season, episode, episode_title),
        ),
{
    lemma_numbers_are_filled_in(segments, title, season, episode);
    let once = segments.map_values(|s: Seq<char>| value_of(s, title, season, episode));
    text::lemma_decimal2_tells(season as nat, 0);
    text::lemma_decimal_tells(season as nat, 0);
    text::lemma_decimal2_tells(episode as nat, 0);
    text::lemma_decimal_tells(episode as nat, 0);
    text::lemma_digits_hold(text::decimal2(season as nat), '{');
    text::lemma_digits_hold(text::decimal(season as nat), '{');
    text::lemma_digits_hold(text::decimal2(episode as nat), '{');
    text::lemma_digits_hold(text::decimal(episode as nat), '{');
    assert forall|i: int| 0 <= i < once.len() implies is_plain(#[trigger] once[i])
        || is_placeholder(once[i]) by {
        assert(is_plain(segments[i]) || is_placeholder(segments[i]));
    }
    lemma_episode_title_is_filled_in(once, episode_title);
    let twice = exchanged(once, "{episode_title}"@, episode_title);
    let all = named_after(segments, title, season, episode, episode_title);
    lemma_placeholders();
    reveal_strlit("{episode_title}");
    assert("{episode_title}"@[0] == '{');
    assert("{episode_title}"@.contains('{'));
    reveal_strlit("{season:02}");
    reveal_strlit("{season}");
    reveal_strlit("{episode:02}");
    reveal_strlit("{episode}");
    assert("{episode_title}"@[8] == '_');
    assert("{episode_title}"@.len() == 15);
    assert("{season:02}"@.len() == 11);
    assert("{season}"@.len() == 8);
    assert("{episode:02}"@.len() == 12);
    assert("{episode}"@.len() == 9);
    assert forall|i: int| 0 <= i < segments.len() implies twice[i] == all[i] by {
        let s = segments[i];
        assert(once[i] == value_of(s, title, season, episode));
        assert(twice[i] == (if once[i] == "{episode_title}"@ { episode_title } else { once[i] }));
    }
    assert(twice =~= all);
}

proof fn lemma_run_of_both(a: Seq<Seq<char>>, b: Seq<Seq<char>>)
    ensures
        run(a + b) == run(a) + run(b),
    decreases a.len(),
{
    if a.len() == 0 {
        assert(a + b =~= b);
        assert(run(a) + run(b) =~= run(b));
    } else {
        assert((a + b).skip(1) =~= a.skip(1) + b);
        lemma_run_of_both(a.skip(1), b);
        assert(run(a + b) =~= run(a) + run(b));
    }
}

proof fn lemma_run_is_plain(segments: Seq<Seq<char>>)
    requires
        forall|i: int| 0 <= i < segments.len() ==> is_plain(#[trigger] segments[i]),
    ensures
        is_plain(run(segments)),
    decreases segments.len(),
{
    if segments.len() > 0 {
        let rest = segments.skip(1);
        assert forall|i: int| 0 <= i < rest.len() implies is_plain(#[trigger] rest[i]) by {
            assert(rest[i] == segments[i + 1]);
        }
        lemma_run_is_plain(rest);
        assert(is_plain(segments[0]));
        text::lemma_concat_holds(segments[0], run(rest), '{');
    }
}

/// A template whose last placeholder is that of the episode title, behind a dash, is filled
/// in without both where there is no episode title.
pub proof fn lemma_filled_in_without_episode_title(
    segments: Seq<Seq<char>>,
    tail: Seq<char>,
    title: Seq<char>,
    season: u32,
    episode: u32,
)
    requires
        are_segments(segments),
        is_plain(tail),
        forall|i: int|
            0 <= i < segments.len() ==> is_plain(
                value_of(#[trigger] segments[i], title, season, episode),
            ),
    ensures
        filled_title(
            filled_numbers(
                run(segments) + " - {episode_title}"@ + tail,
                title,
                season,
                episode,
            ),
            Seq::<char>::empty(),
        ) == run(segments.map_values(|s: Seq<char>| value_of(s, title, season, episode))) + tail,
{
    reveal_strlit(" - ");
    reveal_strlit("{episode_title}");
    reveal_strlit(" - {episode_title}");
    reveal_strlit("{season:02}");
    reveal_strlit("{season}");
    reveal_strlit("{episode:02}");
    reveal_strlit("{episode}");
    reveal_strlit("{title}");
    let last = seq![" - "@, "{episode_title}"@, tail];
    let full = segments + last;
    lemma_placeholders();
    assert(is_plain(" - "@));
    assert forall|i: int| 0 <= i < full.len() implies is_plain(#[trigger] full[i])
        || is_placeholder(full[i]) by {
        if i < segments.len() {
            assert(full[i] == segments[i]);
        } else {
            assert(full[i] == last[i - segments.len()]);
        }
    }
    lemma_run_of_both(segments, last);
    assert(run(last) =~= " - {episode_title}"@ + tail) by {
        reveal_with_fuel(run, 4);
        assert(last.skip(1) =~= seq!["{episode_title}"@, tail]);
        assert(last.skip(1).skip(1) =~= seq![tail]);
        assert(last.skip(1).skip(1).skip(1) =~= Seq::<Seq<char>>::empty());
    }
    assert(run(full) =~= run(segments) + " - {episode_title}"@ + tail);
    lemma_numbers_are_filled_in(full, title, season, episode);
    let values = segments.map_values(|s: Seq<char>| value_of(s, title, season, episode));
    let all = full.map_values(|s: Seq<char>| value_of(s, title, season, episode));
    assert("{episode_title}"@.len() == 15);
    assert(" - "@[0] == ' ');
    assert(value_of(" - "@, title, season, episode) == " - "@);
    assert(value_of("{episode_title}"@, title, season, episode) == "{episode_title}"@);
    assert(value_of(tail, title, season, episode) == tail) by {
        lemma_literals_start_with_braces();
        assert("{season:02}"@[0] == '{');
        assert("{season:02}"@.contains('{'));
    }
    assert(all =~= values + last);
    lemma_run_of_both(values, last);
    let head = run(values);
    assert forall|i: int| 0 <= i < values.len() implies is_plain(#[trigger] values[i]) by {
        assert(is_plain(value_of(segments[i], title, season, episode)));
    }
    lemma_run_is_plain(values);
    assert(run(all) =~= head + " - {episode_title}"@ + tail);
    lemma_no_episode_title_leaves_no_dash(head, tail);
}

} // verus!
