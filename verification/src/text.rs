//! Text as a sequence of characters: trimming, splitting, replacing, decimal
//! numbers and the order of texts.

use vstd::prelude::*;

verus! {

/// `String::push` appends one character.
pub assume_specification[ String::push ](s: &mut String, c: char)
    ensures
        final(s)@ == old(s)@.push(c),
;

/// The text in lower case.
pub uninterp spec fn lowercase(s: Seq<char>) -> Seq<char>;

/// `str::to_lowercase`: the same text gives the same result.
pub assume_specification[ str::to_lowercase ](s: &str) -> (out: String)
    ensures
        out@ == lowercase(s@),
;

/// The characters with the Unicode property `White_Space`.
pub open spec fn is_space(c: char) -> bool {
    let n = c as u32;
    ||| 0x9 <= n <= 0xd
    ||| n == 0x20
    ||| n == 0x85
    ||| n == 0xa0
    ||| n == 0x1680
    ||| 0x2000 <= n <= 0x200a
    ||| n == 0x2028
    ||| n == 0x2029
    ||| n == 0x202f
    ||| n == 0x205f
    ||| n == 0x3000
}

/// Whether `c` is white space.
pub fn is_space_char(c: char) -> (b: bool)
    ensures
        b == is_space(c),
{
    let n: u32 = c as u32;
    (0x9 <= n && n <= 0xd) || n == 0x20 || n == 0x85 || n == 0xa0 || n == 0x1680 || (0x2000 <= n
        && n <= 0x200a) || n == 0x2028 || n == 0x2029 || n == 0x202f || n == 0x205f || n == 0x3000
}

/// The characters of the strings of a sequence.
pub open spec fn views(items: Seq<String>) -> Seq<Seq<char>> {
    items.map_values(|item: String| item@)
}

/// The characters of an optional string.
pub open spec fn opt(item: Option<String>) -> Option<Seq<char>> {
    match item {
        Some(s) => Some(s@),
        None => None,
    }
}

/// The characters of `text`, in order.
pub fn chars_of(text: &str) -> (chars: Vec<char>)
    ensures
        chars@ == text@,
{
    let mut chars: Vec<char> = Vec::new();
    for c in iter: text.chars()
        invariant
            chars@ == iter.seq().take(iter.index()),
            iter.seq() == text@,
    {
        chars.push(c);
    }
    assert(text@.take(text@.len() as int) == text@);
    chars
}

/// The text made of the characters from `from` up to `to`.
pub fn text_between(chars: &Vec<char>, from: usize, to: usize) -> (text: String)
    requires
        from <= to <= chars@.len(),
    ensures
        text@ == chars@.subrange(from as int, to as int),
{
    let mut text: String = String::new();
    let mut i: usize = from;
    while i < to
        invariant
            from <= i <= to <= chars@.len(),
            text@ == chars@.subrange(from as int, i as int),
        decreases to - i,
    {
        text.push(chars[i]);
        i += 1;
        assert(chars@.subrange(from as int, i as int) == chars@.subrange(
            from as int,
            i - 1,
        ).push(chars@[i - 1]));
    }
    text
}

/// Whether two texts hold the same characters.
pub fn text_eq(left: &str, right: &str) -> (same: bool)
    ensures
        same == (left@ == right@),
{
    let a = chars_of(left);
    let b = chars_of(right);
    if a.len() != b.len() {
        return false;
    }
    let mut i: usize = 0;
    while i < a.len()
        invariant
            i <= a@.len(),
            a@.len() == b@.len(),
            a@ == left@,
            b@ == right@,
            forall|k: int| 0 <= k < i ==> a@[k] == b@[k],
        decreases a@.len() - i,
    {
        if a[i] != b[i] {
            return false;
        }
        i += 1;
    }
    assert(left@ =~= right@);
    true
}

// ---------------------------------------------------------------------------
// Trimming

/// The text without its leading white space.
pub open spec fn trim_start(text: Seq<char>) -> Seq<char>
    decreases text.len(),
{
    if text.len() > 0 && is_space(text[0]) {
        trim_start(text.skip(1))
    } else {
        text
    }
}

/// The text without its trailing white space.
pub open spec fn trim_end(text: Seq<char>) -> Seq<char>
    decreases text.len(),
{
    if text.len() > 0 && is_space(text.last()) {
        trim_end(text.drop_last())
    } else {
        text
    }
}

/// The text without leading and trailing white space.
pub open spec fn trim(text: Seq<char>) -> Seq<char> {
    trim_end(trim_start(text))
}

proof fn lemma_trim_start(text: Seq<char>)
    ensures
        trim_start(text).len() > 0 ==> !is_space(trim_start(text)[0]),
        forall|i: int|
            0 <= i < trim_start(text).len() ==> text.contains(#[trigger] trim_start(text)[i]),
    decreases text.len(),
{
    if text.len() > 0 && is_space(text[0]) {
        lemma_trim_start(text.skip(1));
        assert forall|i: int| 0 <= i < trim_start(text).len() implies text.contains(
            #[trigger] trim_start(text)[i],
        ) by {
            let rest = text.skip(1);
            assert(rest.contains(trim_start(rest)[i]));
            let k = choose|k: int| 0 <= k < rest.len() && rest[k] == trim_start(rest)[i];
            assert(text[k + 1] == rest[k]);
        }
    }
}

proof fn lemma_trim_end(text: Seq<char>)
    ensures
        trim_end(text).len() <= text.len(),
        trim_end(text) == text.take(trim_end(text).len() as int),
        trim_end(text).len() > 0 ==> !is_space(trim_end(text).last()),
    decreases text.len(),
{
    if text.len() > 0 && is_space(text.last()) {
        lemma_trim_end(text.drop_last());
        let n = trim_end(text).len() as int;
        assert(text.drop_last().take(n) == text.take(n));
    } else {
        assert(text.take(text.len() as int) == text);
    }
}

/// A trimmed text neither begins nor ends with white space, holds characters of
/// the text only, and is left as it is by trimming it again.
pub proof fn lemma_trim(text: Seq<char>)
    ensures
        trim(text).len() > 0 ==> !is_space(trim(text)[0]) && !is_space(trim(text).last()),
        forall|i: int| 0 <= i < trim(text).len() ==> text.contains(#[trigger] trim(text)[i]),
        trim(trim(text)) == trim(text),
{
    let started = trim_start(text);
    lemma_trim_start(text);
    lemma_trim_end(started);
    assert forall|i: int| 0 <= i < trim(text).len() implies text.contains(
        #[trigger] trim(text)[i],
    ) by {
        assert(trim(text)[i] == started[i]);
    }
}

proof fn lemma_trim_start_of_push(text: Seq<char>, c: char)
    requires
        is_space(c),
    ensures
        trim_start(text.push(c)) == if trim_start(text).len() == 0 {
            Seq::<char>::empty()
        } else {
            trim_start(text).push(c)
        },
    decreases text.len(),
{
    if text.len() == 0 {
        assert(text.push(c).skip(1) =~= Seq::<char>::empty());
        assert(trim_start(Seq::<char>::empty()) =~= Seq::<char>::empty());
        assert(trim_start(text.push(c)) == trim_start(text.push(c).skip(1)));
    } else if is_space(text[0]) {
        assert(text.push(c).skip(1) =~= text.skip(1).push(c));
        lemma_trim_start_of_push(text.skip(1), c);
    }
}

/// Trimming the end first does not change what trimming gives.
pub proof fn lemma_trim_of_trimmed_end(text: Seq<char>)
    ensures
        trim(trim_end(text)) == trim(text),
    decreases text.len(),
{
    if text.len() > 0 && is_space(text.last()) {
        let rest = text.drop_last();
        lemma_trim_of_trimmed_end(rest);
        lemma_trim_start_of_push(rest, text.last());
        assert(rest.push(text.last()) =~= text);
        if trim_start(rest).len() > 0 {
            assert(trim_start(text).drop_last() =~= trim_start(rest));
        } else {
            assert(trim_start(rest) =~= Seq::<char>::empty());
        }
    }
}

/// Removes trailing white space.
pub fn trimmed_end(text: &str) -> (out: String)
    ensures
        out@ == trim_end(text@),
{
    let chars = chars_of(text);
    let mut end: usize = chars.len();
    assert(chars@.take(end as int) == chars@);
    while end > 0 && is_space_char(chars[end - 1])
        invariant
            end <= chars@.len(),
            chars@ == text@,
            trim_end(chars@.take(end as int)) == trim_end(text@),
        decreases end,
    {
        assert(chars@.take(end as int).drop_last() == chars@.take(end - 1));
        end -= 1;
    }
    let out = text_between(&chars, 0, end);
    assert(out@ == chars@.take(end as int));
    out
}

/// Removes leading and trailing white space.
pub fn trimmed(text: &str) -> (out: String)
    ensures
        out@ == trim(text@),
{
    let chars = chars_of(text);
    let mut start: usize = 0;
    assert(chars@.skip(0) == chars@);
    while start < chars.len() && is_space_char(chars[start])
        invariant
            start <= chars@.len(),
            chars@ == text@,
            trim_start(chars@.skip(start as int)) == trim_start(text@),
        decreases chars@.len() - start,
    {
        assert(chars@.skip(start as int).skip(1) == chars@.skip(start + 1));
        start += 1;
    }
    let rest = text_between(&chars, start, chars.len());
    assert(rest@ == chars@.skip(start as int));
    trimmed_end(rest.as_str())
}

/// Whether the text is empty or made of white space only.
pub fn is_blank(text: &str) -> (b: bool)
    ensures
        b == (trim(text@).len() == 0),
{
    trimmed(text).as_str().is_empty()
}

// ---------------------------------------------------------------------------
// Searching

/// Whether `part` stands in `text` at position `at`.
pub open spec fn occurs_at(text: Seq<char>, part: Seq<char>, at: int) -> bool {
    &&& 0 <= at
    &&& at + part.len() <= text.len()
    &&& text.subrange(at, at + part.len()) == part
}

/// Whether `part` stands anywhere in `text`.
pub open spec fn has_part(text: Seq<char>, part: Seq<char>) -> bool {
    exists|at: int| occurs_at(text, part, at)
}

/// Whether `part` stands in `chars` at position `at`.
pub fn part_at(chars: &Vec<char>, part: &Vec<char>, at: usize) -> (b: bool)
    requires
        at <= chars@.len(),
    ensures
        b == occurs_at(chars@, part@, at as int),
{
    if part.len() > chars.len() - at {
        return false;
    }
    let mut i: usize = 0;
    while i < part.len()
        invariant
            at + part@.len() <= chars.len(),
            i <= part@.len(),
            forall|k: int| 0 <= k < i ==> chars@[at + k] == part@[k],
        decreases part@.len() - i,
    {
        if chars[at + i] != part[i] {
            assert(chars@.subrange(at as int, at + part@.len())[i as int] != part@[i as int]);
            return false;
        }
        i += 1;
    }
    assert(chars@.subrange(at as int, at + part@.len()) =~= part@);
    true
}

/// Whether `text` contains `part`.
pub fn contains_text(text: &str, part: &str) -> (b: bool)
    ensures
        b == has_part(text@, part@),
{
    let chars = chars_of(text);
    let wanted = chars_of(part);
    if wanted.len() == 0 {
        assert(text@.subrange(0, 0) =~= part@);
        assert(occurs_at(text@, part@, 0));
        return true;
    }
    let mut i: usize = 0;
    while i < chars.len()
        invariant
            i <= chars@.len(),
            chars@ == text@,
            wanted@ == part@,
            wanted@.len() > 0,
            forall|k: int| 0 <= k < i ==> !occurs_at(text@, part@, k),
        decreases chars@.len() - i,
    {
        if part_at(&chars, &wanted, i) {
            assert(occurs_at(text@, part@, i as int));
            return true;
        }
        i += 1;
    }
    false
}

/// Whether `text` begins with `part`.
pub open spec fn begins(text: Seq<char>, part: Seq<char>) -> bool {
    occurs_at(text, part, 0)
}

/// Whether `text` begins with `part`.
pub fn begins_with(text: &str, part: &str) -> (b: bool)
    ensures
        b == begins(text@, part@),
{
    let chars = chars_of(text);
    let wanted = chars_of(part);
    part_at(&chars, &wanted, 0)
}

/// Whether `text` ends with `part`.
pub open spec fn ends(text: Seq<char>, part: Seq<char>) -> bool {
    occurs_at(text, part, text.len() - part.len())
}

/// Whether `text` ends with `part`.
pub fn ends_with(text: &str, part: &str) -> (b: bool)
    ensures
        b == ends(text@, part@),
{
    let chars = chars_of(text);
    let wanted = chars_of(part);
    if wanted.len() > chars.len() {
        return false;
    }
    part_at(&chars, &wanted, chars.len() - wanted.len())
}

/// What follows `part` in `text`, where `text` begins with it.
pub fn without_prefix(text: &str, part: &str) -> (rest: Option<String>)
    ensures
        match rest {
            Some(r) => begins(text@, part@) && r@ == text@.skip(part@.len() as int),
            None => !begins(text@, part@),
        },
{
    let chars = chars_of(text);
    let wanted = chars_of(part);
    if !part_at(&chars, &wanted, 0) {
        return None;
    }
    let rest = text_between(&chars, wanted.len(), chars.len());
    assert(rest@ == text@.skip(part@.len() as int));
    Some(rest)
}

/// The position of the first `c` in `text`, or the length of `text`.
pub open spec fn first_of(text: Seq<char>, c: char) -> int
    decreases text.len(),
{
    if text.len() == 0 || text[0] == c {
        0
    } else {
        1 + first_of(text.skip(1), c)
    }
}

/// The position of the first `c`, or the length where there is none.
pub fn find_char(chars: &Vec<char>, c: char) -> (at: usize)
    ensures
        at == first_of(chars@, c),
        at <= chars@.len(),
        at < chars@.len() ==> chars@[at as int] == c,
        forall|k: int| 0 <= k < at ==> chars@[k] != c,
{
    let mut i: usize = 0;
    assert(chars@.skip(0) == chars@);
    while i < chars.len() && chars[i] != c
        invariant
            i <= chars@.len(),
            i + first_of(chars@.skip(i as int), c) == first_of(chars@, c),
            forall|k: int| 0 <= k < i ==> chars@[k] != c,
        decreases chars@.len() - i,
    {
        assert(chars@.skip(i as int).skip(1) == chars@.skip(i + 1));
        i += 1;
    }
    i
}

// ---------------------------------------------------------------------------
// Splitting and joining

/// The pieces of `text` between the occurrences of `sep`; at least one.
pub open spec fn split(text: Seq<char>, sep: char) -> Seq<Seq<char>>
    decreases text.len(),
{
    if text.len() == 0 {
        seq![Seq::<char>::empty()]
    } else {
        let before = split(text.drop_last(), sep);
        if text.last() == sep {
            before.push(Seq::<char>::empty())
        } else {
            before.drop_last().push(before.last().push(text.last()))
        }
    }
}

/// `split` yields at least one piece.
pub proof fn lemma_split_nonempty(text: Seq<char>, sep: char)
    ensures
        split(text, sep).len() >= 1,
    decreases text.len(),
{
    if text.len() > 0 {
        lemma_split_nonempty(text.drop_last(), sep);
    }
}

/// Splits `text` at each `sep`.
pub fn split_text(text: &str, sep: char) -> (pieces: Vec<String>)
    ensures
        views(pieces@) == split(text@, sep),
        pieces@.len() >= 1,
{
    let chars = chars_of(text);
    let mut pieces: Vec<String> = Vec::new();
    let mut current: String = String::new();
    let mut i: usize = 0;
    assert(chars@.take(0) == Seq::<char>::empty());
    assert(views(pieces@).push(current@) == split(chars@.take(0), sep));
    while i < chars.len()
        invariant
            i <= chars@.len(),
            views(pieces@).push(current@) == split(chars@.take(i as int), sep),
        decreases chars@.len() - i,
    {
        let c = chars[i];
        let ghost done = views(pieces@);
        let ghost piece = current@;
        assert(chars@.take(i + 1).drop_last() == chars@.take(i as int));
        assert(done.push(piece).drop_last() == done);
        if c == sep {
            pieces.push(current);
            current = String::new();
            assert(views(pieces@) == done.push(piece));
        } else {
            current.push(c);
        }
        i += 1;
    }
    let ghost done = views(pieces@);
    let ghost piece = current@;
    pieces.push(current);
    assert(views(pieces@) == done.push(piece));
    assert(chars@.take(chars@.len() as int) == text@);
    pieces
}

/// The pieces one after another, with `sep` between them.
pub open spec fn join(pieces: Seq<Seq<char>>, sep: Seq<char>) -> Seq<char>
    decreases pieces.len(),
{
    if pieces.len() == 0 {
        Seq::<char>::empty()
    } else if pieces.len() == 1 {
        pieces[0]
    } else {
        join(pieces.drop_last(), sep) + sep + pieces.last()
    }
}

/// Joining what was split gives the text back.
pub proof fn lemma_join_of_split(text: Seq<char>, sep: char)
    ensures
        join(split(text, sep), seq![sep]) == text,
    decreases text.len(),
{
    let sign = seq![sep];
    if text.len() == 0 {
        assert(join(split(text, sep), sign) =~= text);
    } else {
        let rest = text.drop_last();
        let before = split(rest, sep);
        lemma_join_of_split(rest, sep);
        lemma_split_nonempty(rest, sep);
        if text.last() == sep {
            let now = before.push(Seq::<char>::empty());
            assert(now.drop_last() =~= before);
            assert(join(now, sign) =~= text);
        } else {
            let now = before.drop_last().push(before.last().push(text.last()));
            assert(now.drop_last() =~= before.drop_last());
            if now.len() == 1 {
                assert(before.len() == 1);
                assert(join(now, sign) =~= text);
            } else {
                let head = join(before.drop_last(), sign) + sign;
                assert(rest == head + before.last());
                assert(join(now, sign) == head + before.last().push(text.last()));
                assert(head + before.last().push(text.last()) =~= rest.push(text.last()));
                assert(rest.push(text.last()) =~= text);
                assert(join(now, sign) =~= text);
            }
        }
    }
}

/// Fewer pieces joined give a shorter text, where the separator is not empty.
pub proof fn lemma_join_of_fewer(pieces: Seq<Seq<char>>, n: int, sep: Seq<char>)
    requires
        0 < n < pieces.len(),
        sep.len() > 0,
    ensures
        join(pieces.take(n), sep).len() < join(pieces, sep).len(),
    decreases pieces.len(),
{
    let rest = pieces.drop_last();
    if n < rest.len() {
        lemma_join_of_fewer(rest, n, sep);
        assert(rest.take(n) =~= pieces.take(n));
    } else {
        assert(rest =~= pieces.take(n));
    }
}

/// Joins the pieces with `sep` between them.
pub fn join_texts(pieces: &Vec<String>, sep: &str) -> (out: String)
    ensures
        out@ == join(views(pieces@), sep@),
{
    let mut out: String = String::new();
    let mut i: usize = 0;
    assert(views(pieces@).take(0) == Seq::<Seq<char>>::empty());
    while i < pieces.len()
        invariant
            i <= pieces@.len(),
            out@ == join(views(pieces@).take(i as int), sep@),
        decreases pieces@.len() - i,
    {
        let ghost upto = views(pieces@).take(i + 1);
        assert(upto.drop_last() == views(pieces@).take(i as int));
        if i > 0 {
            out.append(sep);
        }
        out.append(pieces[i].as_str());
        assert(out@ == join(upto, sep@)) by {
            if i == 0 {
                assert(out@ == upto[0]);
            }
        }
        i += 1;
    }
    assert(views(pieces@).take(pieces@.len() as int) == views(pieces@));
    out
}

// ---------------------------------------------------------------------------
// Replacing

/// `text` with each occurrence of `from`, taken from left to right without
/// overlap, replaced by `to`.
pub open spec fn replace(text: Seq<char>, from: Seq<char>, to: Seq<char>) -> Seq<char>
    decreases text.len(),
{
    if from.len() == 0 || text.len() < from.len() {
        text
    } else if begins(text, from) {
        to + replace(text.skip(from.len() as int), from, to)
    } else {
        seq![text[0]] + replace(text.skip(1), from, to)
    }
}

/// Replaces each occurrence of `from`, which is not empty, by `to`.
pub fn replace_text(text: &str, from: &str, to: &str) -> (out: String)
    requires
        from@.len() > 0,
    ensures
        out@ == replace(text@, from@, to@),
{
    let chars = chars_of(text);
    let wanted = chars_of(from);
    let mut out: String = String::new();
    let mut i: usize = 0;
    assert(chars@.skip(0) == chars@);
    assert(out@ + replace(chars@.skip(0), from@, to@) == replace(text@, from@, to@));
    while i < chars.len()
        invariant
            i <= chars@.len(),
            chars@ == text@,
            wanted@ == from@,
            from@.len() > 0,
            out@ + replace(chars@.skip(i as int), from@, to@) == replace(text@, from@, to@),
        decreases chars@.len() - i,
    {
        let ghost rest = chars@.skip(i as int);
        let ghost before = out@;
        if part_at(&chars, &wanted, i) {
            assert(rest.subrange(0, from@.len() as int) == chars@.subrange(
                i as int,
                i + from@.len(),
            ));
            assert(rest.skip(from@.len() as int) == chars@.skip(i + from@.len()));
            out.append(to);
            i += wanted.len();
            assert(out@ + replace(chars@.skip(i as int), from@, to@) == before + replace(
                rest,
                from@,
                to@,
            ));
        } else {
            assert(!begins(rest, from@)) by {
                if begins(rest, from@) {
                    assert(rest.subrange(0, from@.len() as int) == chars@.subrange(
                        i as int,
                        i + from@.len(),
                    ));
                }
            }
            out.push(chars[i]);
            assert(rest.skip(1) == chars@.skip(i + 1));
            assert(replace(rest, from@, to@) == seq![rest[0]] + replace(rest.skip(1), from@, to@))
                by {
                if rest.len() < from@.len() {
                    lemma_replace_short(rest.skip(1), from@, to@);
                    assert(seq![rest[0]] + rest.skip(1) == rest);
                }
            }
            i += 1;
            assert(out@ + replace(chars@.skip(i as int), from@, to@) == before + replace(
                rest,
                from@,
                to@,
            ));
        }
    }
    assert(chars@.skip(chars@.len() as int) == Seq::<char>::empty());
    assert(out@ + Seq::<char>::empty() == out@);
    out
}

proof fn lemma_replace_short(text: Seq<char>, from: Seq<char>, to: Seq<char>)
    requires
        text.len() < from.len(),
    ensures
        replace(text, from, to) == text,
{
}

// ---------------------------------------------------------------------------
// Numbers

/// The decimal digit for `n < 10`.
pub open spec fn digit(n: nat) -> char {
    (('0' as u32) + n) as char
}

/// `n` in decimal, without leading zeros.
pub open spec fn decimal(n: nat) -> Seq<char>
    decreases n,
{
    if n < 10 {
        seq![digit(n)]
    } else {
        decimal(n / 10).push(digit(n % 10))
    }
}

/// `n` in decimal, with a zero before a single digit.
pub open spec fn decimal2(n: nat) -> Seq<char> {
    if n < 10 {
        "0"@ + decimal(n)
    } else {
        decimal(n)
    }
}

/// `n` in decimal with its sign.
pub open spec fn signed_decimal(n: int) -> Seq<char> {
    if n < 0 {
        "-"@ + decimal((-n) as nat)
    } else {
        decimal(n as nat)
    }
}

fn digit_char(n: u64) -> (c: char)
    requires
        n < 10,
    ensures
        c == digit(n as nat),
{
    if n == 0 {
        '0'
    } else if n == 1 {
        '1'
    } else if n == 2 {
        '2'
    } else if n == 3 {
        '3'
    } else if n == 4 {
        '4'
    } else if n == 5 {
        '5'
    } else if n == 6 {
        '6'
    } else if n == 7 {
        '7'
    } else if n == 8 {
        '8'
    } else {
        '9'
    }
}

/// Writes `n` in decimal.
pub fn decimal_text(n: u64) -> (text: String)
    ensures
        text@ == decimal(n as nat),
    decreases n,
{
    if n < 10 {
        let mut text = String::new();
        text.push(digit_char(n));
        assert(text@ == decimal(n as nat));
        text
    } else {
        let mut text = decimal_text(n / 10);
        text.push(digit_char(n % 10));
        text
    }
}

/// Writes `n` in decimal, with a zero before a single digit.
pub fn decimal2_text(n: u64) -> (text: String)
    ensures
        text@ == decimal2(n as nat),
{
    if n < 10 {
        let mut text: String = "0".to_owned();
        text.append(decimal_text(n).as_str());
        text
    } else {
        decimal_text(n)
    }
}

/// Writes `n` in decimal with its sign.
pub fn signed_text(n: i64) -> (text: String)
    ensures
        text@ == signed_decimal(n as int),
{
    if n < 0 {
        let magnitude: u64 = if n == i64::MIN {
            0x8000_0000_0000_0000
        } else {
            (-n) as u64
        };
        let mut text: String = "-".to_owned();
        text.append(decimal_text(magnitude).as_str());
        text
    } else {
        decimal_text(n as u64)
    }
}

/// Whether `c` is an ASCII digit.
pub open spec fn is_digit(c: char) -> bool {
    '0' <= c <= '9'
}

/// Whether every character is an ASCII digit.
pub open spec fn all_digits(text: Seq<char>) -> bool {
    forall|k: int| 0 <= k < text.len() ==> is_digit(#[trigger] text[k])
}

/// The number that a text of digits writes in decimal.
pub open spec fn number(text: Seq<char>) -> nat
    decreases text.len(),
{
    if text.len() == 0 {
        0
    } else {
        (number(text.drop_last()) * 10 + (text.last() as u32 - '0' as u32)) as nat
    }
}

/// Whether `c` is an ASCII digit.
pub fn is_digit_char(c: char) -> (b: bool)
    ensures
        b == is_digit(c),
{
    '0' <= c && c <= '9'
}

proof fn lemma_number_grows(text: Seq<char>, n: int)
    requires
        all_digits(text),
        0 <= n <= text.len(),
    ensures
        number(text.take(n)) <= number(text),
    decreases text.len() - n,
{
    if n < text.len() {
        lemma_number_grows(text, n + 1);
        assert(text.take(n + 1).drop_last() == text.take(n));
        assert(is_digit(text[n]));
    } else {
        assert(text.take(n) == text);
    }
}

/// Reading back what was written in decimal gives the number.
pub proof fn lemma_number_of_decimal(n: nat)
    ensures
        all_digits(decimal(n)),
        decimal(n).len() > 0,
        number(decimal(n)) == n,
    decreases n,
{
    if n < 10 {
        assert(decimal(n).drop_last() =~= Seq::<char>::empty());
        assert(number(Seq::<char>::empty()) == 0);
    } else {
        lemma_number_of_decimal(n / 10);
        assert(decimal(n).drop_last() =~= decimal(n / 10));
    }
}

/// Reads a text of decimal digits; `None` where it is empty, holds anything
/// else, or writes a number that does not fit.
pub fn parse_number(text: &str) -> (n: Option<u64>)
    ensures
        match n {
            Some(v) => text@.len() > 0 && all_digits(text@) && v == number(text@),
            None => text@.len() == 0 || !all_digits(text@) || number(text@) > u64::MAX,
        },
{
    let chars = chars_of(text);
    if chars.len() == 0 {
        return None;
    }
    let mut k: usize = 0;
    while k < chars.len()
        invariant
            k <= chars@.len(),
            chars@ == text@,
            forall|j: int| 0 <= j < k ==> is_digit(#[trigger] chars@[j]),
        decreases chars@.len() - k,
    {
        if !is_digit_char(chars[k]) {
            assert(!is_digit(text@[k as int]));
            return None;
        }
        k += 1;
    }
    let mut value: u64 = 0;
    let mut i: usize = 0;
    assert(chars@.take(0) == Seq::<char>::empty());
    while i < chars.len()
        invariant
            i <= chars@.len(),
            chars@ == text@,
            all_digits(text@),
            value == number(chars@.take(i as int)),
        decreases chars@.len() - i,
    {
        let c = chars[i];
        assert(is_digit(text@[i as int]));
        let d: u64 = c as u64 - '0' as u64;
        proof {
            assert(chars@.take(i + 1).drop_last() == chars@.take(i as int));
            lemma_number_grows(text@, i + 1);
        }
        if value > (u64::MAX - d) / 10 {
            return None;
        }
        value = value * 10 + d;
        i += 1;
    }
    assert(chars@.take(chars@.len() as int) == text@);
    Some(value)
}

// ---------------------------------------------------------------------------
// Building

/// The texts one after another.
pub fn concat2(a: &str, b: &str) -> (out: String)
    ensures
        out@ == a@ + b@,
{
    let mut out: String = a.to_owned();
    out.append(b);
    out
}

/// The texts one after another.
pub fn concat3(a: &str, b: &str, c: &str) -> (out: String)
    ensures
        out@ == a@ + b@ + c@,
{
    let mut out: String = a.to_owned();
    out.append(b);
    out.append(c);
    out
}

/// The texts one after another.
pub fn concat4(a: &str, b: &str, c: &str, d: &str) -> (out: String)
    ensures
        out@ == a@ + b@ + c@ + d@,
{
    let mut out: String = a.to_owned();
    out.append(b);
    out.append(c);
    out.append(d);
    out
}

/// The texts one after another.
pub fn concat5(a: &str, b: &str, c: &str, d: &str, e: &str) -> (out: String)
    ensures
        out@ == a@ + b@ + c@ + d@ + e@,
{
    let mut out: String = a.to_owned();
    out.append(b);
    out.append(c);
    out.append(d);
    out.append(e);
    out
}

/// The texts one after another.
pub fn concat6(a: &str, b: &str, c: &str, d: &str, e: &str, f: &str) -> (out: String)
    ensures
        out@ == a@ + b@ + c@ + d@ + e@ + f@,
{
    let mut out: String = a.to_owned();
    out.append(b);
    out.append(c);
    out.append(d);
    out.append(e);
    out.append(f);
    out
}

/// `n` in octal, without leading zeros.
pub open spec fn octal(n: nat) -> Seq<char>
    decreases n,
{
    if n < 8 {
        seq![digit(n)]
    } else {
        octal(n / 8).push(digit(n % 8))
    }
}

/// Writes `n` in octal.
pub fn octal_text(n: u64) -> (text: String)
    ensures
        text@ == octal(n as nat),
    decreases n,
{
    if n < 8 {
        let mut text = String::new();
        text.push(digit_char(n));
        assert(text@ == octal(n as nat));
        text
    } else {
        let mut text = octal_text(n / 8);
        text.push(digit_char(n % 8));
        text
    }
}

/// The message alone where the condition holds, else nothing.
pub open spec fn when(condition: bool, message: Seq<char>) -> Seq<Seq<char>> {
    if condition {
        seq![message]
    } else {
        Seq::<Seq<char>>::empty()
    }
}

/// Putting lists together is associative.
pub proof fn lemma_together(a: Seq<Seq<char>>, b: Seq<Seq<char>>, c: Seq<Seq<char>>)
    ensures
        a + b + c == a + (b + c),
{
    assert(a + b + c =~= a + (b + c));
}

/// Appends the message where the condition holds.
pub fn note_when(list: &mut Vec<String>, condition: bool, message: &str)
    ensures
        views(final(list)@) == views(old(list)@) + when(condition, message@),
{
    let ghost before = views(list@);
    if condition {
        list.push(message.to_owned());
        assert(views(list@) == before + when(condition, message@));
    } else {
        assert(before + when(condition, message@) == before);
    }
}

// ---------------------------------------------------------------------------
// Lines made of many parts

/// The characters of the parts.
pub open spec fn strs(parts: Seq<&str>) -> Seq<Seq<char>> {
    parts.map_values(|part: &str| part@)
}

/// The parts, one after the other.
pub open spec fn glued(parts: Seq<Seq<char>>) -> Seq<char>
    decreases parts.len(),
{
    if parts.len() == 0 {
        Seq::<char>::empty()
    } else {
        glued(parts.drop_last()) + parts.last()
    }
}

/// Writes the parts one after the other.
pub fn glue(parts: &[&str]) -> (out: String)
    ensures
        out@ == glued(strs(parts@)),
{
    let mut out: String = String::new();
    let mut i: usize = 0;
    assert(strs(parts@).take(0) == Seq::<Seq<char>>::empty());
    while i < parts.len()
        invariant
            i <= parts@.len(),
            out@ == glued(strs(parts@).take(i as int)),
        decreases parts@.len() - i,
    {
        out.append(parts[i]);
        assert(strs(parts@).take(i + 1).drop_last() == strs(parts@).take(i as int));
        i += 1;
    }
    assert(strs(parts@).take(i as int) == strs(parts@));
    out
}

/// Appends a text to a list.
pub fn push_text(list: &mut Vec<String>, item: String)
    ensures
        final(list)@ == old(list)@.push(item),
        views(final(list)@) == views(old(list)@).push(item@),
{
    let ghost before = views(list@);
    list.push(item);
    assert(views(list@) =~= before.push(item@));
}

/// A copy of a list.
pub fn copy_texts(list: &Vec<String>) -> (out: Vec<String>)
    ensures
        views(out@) == views(list@),
{
    let mut out: Vec<String> = Vec::new();
    let ghost all = views(list@);
    let mut i: usize = 0;
    assert(views(out@) =~= all.take(0));
    while i < list.len()
        invariant
            i <= list@.len(),
            all == views(list@),
            views(out@) == all.take(i as int),
        decreases list@.len() - i,
    {
        push_text(&mut out, list[i].clone());
        assert(views(out@) =~= all.take(i + 1));
        i += 1;
    }
    assert(all.take(i as int) =~= all);
    out
}

// ---------------------------------------------------------------------------
// What splitting, replacing and writing numbers amount to

/// A text without the separator is its only piece.
pub proof fn lemma_split_of_piece(piece: Seq<char>, sep: char)
    requires
        !piece.contains(sep),
    ensures
        split(piece, sep) == seq![piece],
    decreases piece.len(),
{
    if piece.len() == 0 {
        assert(piece =~= Seq::<char>::empty());
    } else {
        let rest = piece.drop_last();
        assert(!rest.contains(sep)) by {
            if rest.contains(sep) {
                let i = choose|i: int| 0 <= i < rest.len() && rest[i] == sep;
                assert(piece[i] == sep);
            }
        }
        lemma_split_of_piece(rest, sep);
        assert(piece.contains(piece.last()));
        assert(split(piece, sep) =~= seq![rest.push(piece.last())]);
        assert(rest.push(piece.last()) =~= piece);
    }
}

/// A piece behind a separator is one piece more.
pub proof fn lemma_split_grows(text: Seq<char>, piece: Seq<char>, sep: char)
    requires
        !piece.contains(sep),
    ensures
        split(text.push(sep) + piece, sep) == split(text, sep).push(piece),
    decreases piece.len(),
{
    let whole = text.push(sep) + piece;
    if piece.len() == 0 {
        assert(whole =~= text.push(sep));
        assert(whole.drop_last() =~= text);
        assert(piece =~= Seq::<char>::empty());
    } else {
        let rest = piece.drop_last();
        assert(!rest.contains(sep)) by {
            if rest.contains(sep) {
                let i = choose|i: int| 0 <= i < rest.len() && rest[i] == sep;
                assert(piece[i] == sep);
            }
        }
        lemma_split_grows(text, rest, sep);
        assert(piece.contains(piece.last()));
        assert(whole.drop_last() =~= text.push(sep) + rest);
        let before = split(text, sep).push(rest);
        assert(before.drop_last() =~= split(text, sep));
        assert(rest.push(piece.last()) =~= piece);
    }
}

/// No piece holds the separator, and joining pieces is undone by splitting.
pub proof fn lemma_split_of_join(pieces: Seq<Seq<char>>, sep: char)
    requires
        pieces.len() >= 1,
        forall|i: int| 0 <= i < pieces.len() ==> !(#[trigger] pieces[i]).contains(sep),
    ensures
        split(join(pieces, seq![sep]), sep) == pieces,
    decreases pieces.len(),
{
    if pieces.len() == 1 {
        lemma_split_of_piece(pieces[0], sep);
        assert(pieces =~= seq![pieces[0]]);
    } else {
        let rest = pieces.drop_last();
        assert forall|i: int| 0 <= i < rest.len() implies !(#[trigger] rest[i]).contains(sep) by {
            assert(rest[i] == pieces[i]);
        }
        lemma_split_of_join(rest, sep);
        let head = join(rest, seq![sep]);
        lemma_split_grows(head, pieces.last(), sep);
        assert(head + seq![sep] + pieces.last() =~= head.push(sep) + pieces.last());
        assert(rest.push(pieces.last()) =~= pieces);
    }
}

/// No piece of a split text holds the separator.
pub proof fn lemma_pieces_are_apart(text: Seq<char>, sep: char)
    ensures
        forall|i: int|
            0 <= i < split(text, sep).len() ==> !(#[trigger] split(text, sep)[i]).contains(sep),
    decreases text.len(),
{
    if text.len() > 0 {
        let rest = text.drop_last();
        lemma_pieces_are_apart(rest, sep);
        lemma_split_nonempty(rest, sep);
        let before = split(rest, sep);
        let now = split(text, sep);
        assert forall|i: int| 0 <= i < now.len() implies !(#[trigger] now[i]).contains(sep) by {
            if text.last() == sep {
                if i < before.len() {
                    assert(now[i] == before[i]);
                }
            } else if i < before.len() - 1 {
                assert(now[i] == before[i]);
            } else {
                let piece = before.last().push(text.last());
                assert(now[i] == piece);
                if piece.contains(sep) {
                    let k = choose|k: int| 0 <= k < piece.len() && piece[k] == sep;
                    assert(before.last()[k] == sep);
                    assert(before[before.len() - 1].contains(sep));
                }
            }
        }
    }
}

/// A text in which `from` does not stand is left as it is.
pub proof fn lemma_replace_nothing(text: Seq<char>, from: Seq<char>, to: Seq<char>)
    requires
        !has_part(text, from),
    ensures
        replace(text, from, to) == text,
    decreases text.len(),
{
    if from.len() > 0 && text.len() >= from.len() {
        assert(!occurs_at(text, from, 0));
        let rest = text.skip(1);
        assert(!has_part(rest, from)) by {
            if has_part(rest, from) {
                let at = choose|at: int| occurs_at(rest, from, at);
                assert(text.subrange(at + 1, at + 1 + from.len()) =~= rest.subrange(
                    at,
                    at + from.len(),
                ));
                assert(occurs_at(text, from, at + 1));
            }
        }
        lemma_replace_nothing(rest, from, to);
        assert(seq![text[0]] + rest =~= text);
    }
}

/// The first place where `from` stands takes `to`, and what is behind it is replaced by
/// itself.
pub proof fn lemma_replace_first(
    head: Seq<char>,
    from: Seq<char>,
    tail: Seq<char>,
    to: Seq<char>,
)
    requires
        from.len() > 0,
        forall|at: int|
            0 <= at < head.len() ==> !#[trigger] occurs_at(head + from + tail, from, at),
    ensures
        replace(head + from + tail, from, to) == head + to + replace(tail, from, to),
    decreases head.len(),
{
    let text = head + from + tail;
    if head.len() == 0 {
        assert(text.subrange(0, from.len() as int) =~= from);
        assert(text.skip(from.len() as int) =~= tail);
        assert(head + to =~= to);
    } else {
        assert(!occurs_at(text, from, 0));
        let rest = head.skip(1);
        let shorter = rest + from + tail;
        assert(text.skip(1) =~= shorter);
        assert forall|at: int| 0 <= at < rest.len() implies !#[trigger] occurs_at(
            shorter,
            from,
            at,
        ) by {
            if occurs_at(shorter, from, at) {
                assert(text.subrange(at + 1, at + 1 + from.len()) =~= shorter.subrange(
                    at,
                    at + from.len(),
                ));
                assert(occurs_at(text, from, at + 1));
            }
        }
        lemma_replace_first(rest, from, tail, to);
        assert(seq![text[0]] + (rest + to + replace(tail, from, to)) =~= head + to + replace(
            tail,
            from,
            to,
        ));
    }
}

/// Replacing brings in no character that neither the text nor `to` holds.
pub proof fn lemma_replace_holds(text: Seq<char>, from: Seq<char>, to: Seq<char>, c: char)
    requires
        !text.contains(c),
        !to.contains(c),
    ensures
        !replace(text, from, to).contains(c),
    decreases text.len(),
{
    if from.len() > 0 && text.len() >= from.len() {
        if begins(text, from) {
            let rest = text.skip(from.len() as int);
            lemma_part_holds(text, rest, c);
            lemma_replace_holds(rest, from, to, c);
            lemma_concat_holds(to, replace(rest, from, to), c);
        } else {
            let rest = text.skip(1);
            lemma_part_holds(text, rest, c);
            lemma_replace_holds(rest, from, to, c);
            assert(text.contains(text[0]));
            lemma_concat_holds(seq![text[0]], replace(rest, from, to), c);
        }
    }
}

proof fn lemma_part_holds(text: Seq<char>, part: Seq<char>, c: char)
    requires
        !text.contains(c),
        forall|i: int| 0 <= i < part.len() ==> text.contains(#[trigger] part[i]),
    ensures
        !part.contains(c),
{
}

/// Two texts one behind the other hold the characters that either holds.
pub proof fn lemma_concat_holds(a: Seq<char>, b: Seq<char>, c: char)
    ensures
        (a + b).contains(c) == (a.contains(c) || b.contains(c)),
{
    if a.contains(c) {
        let i = choose|i: int| 0 <= i < a.len() && a[i] == c;
        assert((a + b)[i] == c);
    }
    if b.contains(c) {
        let i = choose|i: int| 0 <= i < b.len() && b[i] == c;
        assert((a + b)[a.len() + i] == c);
    }
    if (a + b).contains(c) {
        let i = choose|i: int| 0 <= i < (a + b).len() && (a + b)[i] == c;
        if i < a.len() {
            assert(a[i] == c);
        } else {
            assert(b[i - a.len()] == c);
        }
    }
}

/// A number has its own digits: it is read back from them, no other number has them, and
/// it starts with a zero only where it is zero.
pub proof fn lemma_decimal_tells(a: nat, b: nat)
    ensures
        all_digits(decimal(a)),
        number(decimal(a)) == a,
        decimal(a) == decimal(b) ==> a == b,
        decimal(a)[0] == '0' ==> a == 0,
        a < 10 ==> decimal(a).len() == 1,
{
    lemma_number_of_decimal(a);
    lemma_number_of_decimal(b);
    lemma_decimal_start(a);
}

proof fn lemma_decimal_start(n: nat)
    ensures
        decimal(n).len() > 0,
        decimal(n)[0] == '0' ==> n == 0,
    decreases n,
{
    if n >= 10 {
        lemma_decimal_start(n / 10);
        assert(decimal(n)[0] == decimal(n / 10)[0]);
    }
}

/// A number that is padded has two digits at least and no more than it needs, is read back
/// from them, and no other number has them.
pub proof fn lemma_decimal2_tells(a: nat, b: nat)
    ensures
        all_digits(decimal2(a)),
        decimal2(a).len() >= 2,
        a < 100 ==> decimal2(a).len() == 2,
        number(decimal2(a)) == a,
        decimal2(a) == decimal2(b) ==> a == b,
{
    lemma_decimal2_of(a);
    lemma_decimal2_of(b);
}

proof fn lemma_decimal2_of(n: nat)
    ensures
        all_digits(decimal2(n)),
        decimal2(n).len() >= 2,
        n < 100 ==> decimal2(n).len() == 2,
        number(decimal2(n)) == n,
{
    reveal_strlit("0");
    lemma_number_of_decimal(n);
    reveal_with_fuel(decimal, 3);
    reveal_with_fuel(number, 3);
    if n < 10 {
        let t = decimal2(n);
        assert(t =~= seq!['0', digit(n)]);
        assert(t.drop_last() =~= seq!['0']);
        assert(seq!['0'].drop_last() =~= Seq::<char>::empty());
    } else {
        lemma_number_of_decimal(n / 10);
        assert(decimal(n).len() == decimal(n / 10).len() + 1);
    }
}

/// Digits hold no other character.
pub proof fn lemma_digits_hold(t: Seq<char>, c: char)
    requires
        all_digits(t),
        !is_digit(c),
    ensures
        !t.contains(c),
{
}

/// The first place of a character is where it stands and where it stands nowhere before;
/// a text without it has none.
pub proof fn lemma_first_place(text: Seq<char>, c: char)
    ensures
        0 <= first_of(text, c) <= text.len(),
        first_of(text, c) < text.len() ==> text[first_of(text, c)] == c,
        forall|i: int| 0 <= i < first_of(text, c) ==> #[trigger] text[i] != c,
        first_of(text, c) == text.len() <==> !text.contains(c),
    decreases text.len(),
{
    if text.len() > 0 && text[0] != c {
        let rest = text.skip(1);
        lemma_first_place(rest, c);
        assert forall|i: int| 0 <= i < first_of(text, c) implies #[trigger] text[i] != c by {
            if i > 0 {
                assert(rest[i - 1] == text[i]);
            }
        }
        if text.contains(c) {
            let i = choose|i: int| 0 <= i < text.len() && text[i] == c;
            assert(rest[i - 1] == c);
        }
        if rest.contains(c) {
            let i = choose|i: int| 0 <= i < rest.len() && rest[i] == c;
            assert(text[i + 1] == c);
        }
    } else if text.len() > 0 {
        assert(text.contains(text[0]));
    }
}

/// A number below zero has its sign before its digits, and no other has one.
pub proof fn lemma_signed_numbers(n: int)
    ensures
        n >= 0 ==> signed_decimal(n) == decimal(n as nat) && all_digits(signed_decimal(n)),
        n < 0 ==> signed_decimal(n) == "-"@ + decimal((-n) as nat),
{
    if n >= 0 {
        lemma_number_of_decimal(n as nat);
    }
}

/// The number that octal digits write.
pub open spec fn octal_number(text: Seq<char>) -> nat
    decreases text.len(),
{
    if text.len() == 0 {
        0
    } else {
        octal_number(text.drop_last()) * 8 + (text.last() as u32 - '0' as u32) as nat
    }
}

/// A number is read back from its octal digits.
pub proof fn lemma_octal_is_read_back(n: nat)
    ensures
        octal_number(octal(n)) == n,
        octal(n).len() > 0,
        forall|i: int| 0 <= i < octal(n).len() ==> '0' <= #[trigger] octal(n)[i] <= '7',
    decreases n,
{
    if n < 8 {
        assert(octal(n).drop_last() =~= Seq::<char>::empty());
        assert(octal_number(Seq::<char>::empty()) == 0);
    } else {
        lemma_octal_is_read_back(n / 8);
        assert(octal(n).drop_last() =~= octal(n / 8));
    }
}

/// Parts are glued in their order: those of two lists one behind the other.
pub proof fn lemma_glued_in_order(a: Seq<Seq<char>>, b: Seq<Seq<char>>, part: Seq<char>)
    ensures
        glued(a + b) == glued(a) + glued(b),
        glued(seq![part]) == part,
        glued(Seq::<Seq<char>>::empty()).len() == 0,
    decreases b.len(),
{
    let one = seq![part];
    reveal_with_fuel(glued, 2);
    assert(one.drop_last() =~= Seq::<Seq<char>>::empty());
    assert(glued(one) =~= part);
    if b.len() == 0 {
        assert(a + b =~= a);
        assert(glued(a) + glued(b) =~= glued(a));
    } else {
        lemma_glued_in_order(a, b.drop_last(), part);
        assert((a + b).drop_last() =~= a + b.drop_last());
        assert(glued(a + b) =~= glued(a) + glued(b));
    }
}

/// Only white space goes, and all that is at both ends: a text between white space is what
/// is left of it, and nothing is left of white space alone.
pub proof fn lemma_only_white_space_goes(before: Seq<char>, inside: Seq<char>, behind: Seq<char>)
    requires
        forall|i: int| 0 <= i < before.len() ==> is_space(#[trigger] before[i]),
        forall|i: int| 0 <= i < behind.len() ==> is_space(#[trigger] behind[i]),
        inside.len() > 0 ==> !is_space(inside[0]) && !is_space(inside.last()),
    ensures
        trim(before + inside + behind) == inside,
        trim_end(before + inside + behind) == (if inside.len() > 0 {
            before + inside
        } else {
            Seq::<char>::empty()
        }),
        trim_start(before + inside + behind) == (if inside.len() > 0 {
            inside + behind
        } else {
            Seq::<char>::empty()
        }),
{
    let whole = before + inside + behind;
    assert(whole =~= before + (inside + behind));
    if inside.len() > 0 {
        lemma_start_goes(before, inside + behind);
        lemma_end_goes(inside, behind);
        lemma_end_goes(before + inside, behind);
    } else {
        assert(whole =~= before + behind);
        let none = Seq::<char>::empty();
        assert forall|i: int| 0 <= i < whole.len() implies is_space(#[trigger] whole[i]) by {
            if i < before.len() {
                assert(whole[i] == before[i]);
            } else {
                assert(whole[i] == behind[i - before.len()]);
            }
        }
        lemma_start_goes(whole, none);
        assert(whole + none =~= whole);
        lemma_end_goes(none, whole);
        assert(none + whole =~= whole);
        assert(trim(whole) =~= none);
        assert(inside =~= none);
    }
}

proof fn lemma_start_goes(before: Seq<char>, rest: Seq<char>)
    requires
        forall|i: int| 0 <= i < before.len() ==> is_space(#[trigger] before[i]),
        rest.len() > 0 ==> !is_space(rest[0]),
    ensures
        trim_start(before + rest) == rest,
    decreases before.len(),
{
    let whole = before + rest;
    if before.len() == 0 {
        assert(whole =~= rest);
    } else {
        assert(is_space(before[0]));
        let less = before.skip(1);
        assert forall|i: int| 0 <= i < less.len() implies is_space(#[trigger] less[i]) by {
            assert(less[i] == before[i + 1]);
        }
        lemma_start_goes(less, rest);
        assert(whole.skip(1) =~= less + rest);
        assert(whole[0] == before[0]);
    }
}

proof fn lemma_end_goes(rest: Seq<char>, behind: Seq<char>)
    requires
        forall|i: int| 0 <= i < behind.len() ==> is_space(#[trigger] behind[i]),
        rest.len() > 0 ==> !is_space(rest.last()),
    ensures
        trim_end(rest + behind) == rest,
    decreases behind.len(),
{
    let whole = rest + behind;
    if behind.len() == 0 {
        assert(whole =~= rest);
    } else {
        assert(is_space(behind[behind.len() - 1]));
        let less = behind.drop_last();
        assert forall|i: int| 0 <= i < less.len() implies is_space(#[trigger] less[i]) by {
            assert(less[i] == behind[i]);
        }
        lemma_end_goes(rest, less);
        assert(whole.drop_last() =~= rest + less);
        assert(whole.last() == behind.last());
    }
}

/// Spaces, tabs, line ends and the spaces beyond ASCII are white space; signs, digits and
/// letters of ASCII are not.
pub proof fn lemma_white_space(c: char)
    ensures
        c == ' ' || c == '\t' || c == '\n' || c == '\r' ==> is_space(c),
        c as u32 == 0xa0 || c as u32 == 0x2028 || c as u32 == 0x2029 || c as u32 == 0x3000
            ==> is_space(c),
        0x2000 <= c as u32 <= 0x200a ==> is_space(c),
        '!' <= c <= '~' ==> !is_space(c),
        c as u32 == 0x200b || c as u32 == 0xfeff ==> !is_space(c),
{
}

/// A digit writes its number, and a text is a number digit by digit.
pub proof fn lemma_digits_write_numbers(text: Seq<char>, n: nat)
    requires
        n < 10,
    ensures
        is_digit(digit(n)),
        digit(n) as u32 == '0' as u32 + n,
        number(text.push(digit(n))) == 10 * number(text) + n,
        is_digit('0') && is_digit('9') && !is_digit('a') && !is_digit('-') && !is_digit(' '),
{
    assert(text.push(digit(n)).drop_last() =~= text);
}

/// The views of strings are theirs, in order.
pub proof fn lemma_views_tell(items: Seq<String>, item: Option<String>, i: int)
    requires
        0 <= i < items.len(),
    ensures
        views(items).len() == items.len(),
        views(items)[i] == items[i]@,
        opt(item) is Some == item is Some,
        item matches Some(s) ==> opt(item) == Some(s@),
{
}

/// A text stands in another where its characters do, one behind the other.
pub proof fn lemma_parts_stand(head: Seq<char>, part: Seq<char>, tail: Seq<char>)
    ensures
        has_part(head + part + tail, part),
        begins(part + tail, part),
        ends(head + part, part),
{
    let whole = head + part + tail;
    let at = head.len() as int;
    assert(whole.subrange(at, at + part.len()) =~= part);
    assert(occurs_at(whole, part, at));
    assert((part + tail).subrange(0, part.len() as int) =~= part);
    let both = head + part;
    assert(both.subrange(both.len() - part.len(), both.len() as int) =~= part);
}

/// Digits of which the first is no zero, or a single digit, are how their number is written.
pub proof fn lemma_digits_are_their_number(text: Seq<char>)
    requires
        text.len() > 0,
        all_digits(text),
        text.len() > 1 ==> text[0] != '0',
    ensures
        decimal(number(text)) == text,
    decreases text.len(),
{
    let last = text.last();
    assert(is_digit(text[text.len() - 1]));
    let n = (last as u32 - '0' as u32) as nat;
    assert(digit(n) == last);
    let rest = text.drop_last();
    assert(rest.push(last) =~= text);
    if rest.len() == 0 {
        assert(number(rest) == 0);
        assert(number(text) == n);
        assert(decimal(n) =~= text);
    } else {
        assert forall|k: int| 0 <= k < rest.len() implies is_digit(#[trigger] rest[k]) by {
            assert(rest[k] == text[k]);
        }
        assert(rest[0] == text[0]);
        lemma_digits_are_their_number(rest);
        lemma_decimal_tells(number(rest), 0);
        assert(number(rest) > 0) by {
            if number(rest) == 0 {
                assert(decimal(0) =~= seq![digit(0)]);
                assert(rest[0] == '0');
            }
        }
        assert(number(text) == number(rest) * 10 + n);
        assert(number(text) / 10 == number(rest) && number(text) % 10 == n);
    }
}

} // verus!
