//! Which bind addresses stay on the machine.

use vstd::prelude::*;
use crate::text;

verus! {

/// A decimal number from 0 to 255 without leading zeros.
pub open spec fn is_octet(piece: Seq<char>) -> bool {
    &&& 1 <= piece.len() <= 3
    &&& text::all_digits(piece)
    &&& (piece.len() > 1 ==> piece[0] != '0')
    &&& text::number(piece) <= 255
}

/// An IPv4 address in dotted form within 127.0.0.0/8.
pub open spec fn is_ipv4_loopback(address: Seq<char>) -> bool {
    let pieces = text::split(address, '.');
    &&& pieces.len() == 4
    &&& forall|i: int| 0 <= i < 4 ==> is_octet(#[trigger] pieces[i])
    &&& pieces[0] == "127"@
}

/// One to four zeros.
pub open spec fn is_zero_group(piece: Seq<char>) -> bool {
    1 <= piece.len() <= 4 && forall|i: int| 0 <= i < piece.len() ==> #[trigger] piece[i] == '0'
}

/// One to four characters: zeros and a final one.
pub open spec fn is_one_group(piece: Seq<char>) -> bool {
    1 <= piece.len() <= 4 && piece.last() == '1' && forall|i: int|
        0 <= i < piece.len() - 1 ==> #[trigger] piece[i] == '0'
}

/// Whether all pieces before the last, but for those from `from` up to `to`,
/// are groups of zeros.
pub open spec fn zero_but(pieces: Seq<Seq<char>>, from: int, to: int) -> bool {
    forall|i: int|
        0 <= i < pieces.len() - 1 && !(from <= i < to) ==> is_zero_group(#[trigger] pieces[i])
}

/// The groups that the last piece stands for: two where it is in dotted form.
pub open spec fn last_groups(pieces: Seq<Seq<char>>) -> int {
    if pieces.last() == "0.0.0.1"@ {
        2
    } else {
        1
    }
}

/// Whether `::` stands at the very start of the pieces.
pub open spec fn gap_at_start(pieces: Seq<Seq<char>>) -> bool {
    &&& pieces.len() >= 3
    &&& pieces[0].len() == 0
    &&& pieces[1].len() == 0
    &&& zero_but(pieces, 0, 2)
}

/// Whether the piece at `at` is the empty one that `::` leaves, behind a group.
pub open spec fn gap_at(pieces: Seq<Seq<char>>, at: int) -> bool {
    &&& 1 <= at < pieces.len() - 1
    &&& pieces[at].len() == 0
    &&& zero_but(pieces, at, at + 1)
}

/// A text form of the IPv6 address `::1`: eight groups, or at most seven around
/// one `::`, of which only the last is not zero.
pub open spec fn is_ipv6_loopback(address: Seq<char>) -> bool {
    let pieces = text::split(address, ':');
    let last = last_groups(pieces);
    &&& is_one_group(pieces.last()) || pieces.last() == "0.0.0.1"@
    &&& {
        ||| zero_but(pieces, 0, 0) && pieces.len() - 1 + last == 8
        ||| gap_at_start(pieces) && pieces.len() - 3 + last <= 7
        ||| (exists|at: int| gap_at(pieces, at)) && pieces.len() - 2 + last <= 7
    }
}

/// Whether `address` is `word`, which is in lower case, but for the case of
/// ASCII letters.
pub open spec fn is_word_in_any_case(address: Seq<char>, word: Seq<char>) -> bool {
    &&& address.len() == word.len()
    &&& forall|i: int|
        0 <= i < word.len() ==> {
            ||| #[trigger] address[i] == word[i]
            ||| 'A' <= address[i] <= 'Z' && address[i] as u32 + 32 == word[i] as u32
        }
}

/// Whether a server at this address is reached from this machine only.
pub open spec fn is_loopback(address: Seq<char>) -> bool {
    ||| is_word_in_any_case(address, "localhost"@)
    ||| is_ipv4_loopback(address)
    ||| is_ipv6_loopback(address)
}

fn octet(piece: &str) -> (b: bool)
    ensures
        b == is_octet(piece@),
{
    let chars = text::chars_of(piece);
    if chars.len() < 1 || chars.len() > 3 || (chars.len() > 1 && chars[0] == '0') {
        return false;
    }
    proof {
        if text::all_digits(piece@) {
            lemma_short_number(piece@);
        }
    }
    match text::parse_number(piece) {
        Some(n) => n <= 255,
        None => false,
    }
}

proof fn lemma_short_number(piece: Seq<char>)
    requires
        piece.len() <= 3,
        text::all_digits(piece),
    ensures
        text::number(piece) <= 999,
{
    reveal_with_fuel(text::number, 4);
    assert(forall|i: int| 0 <= i < piece.len() ==> text::is_digit(#[trigger] piece[i]));
    if piece.len() == 1 {
        assert(piece.last() == piece[0]);
    } else if piece.len() == 2 {
        assert(piece.last() == piece[1]);
        assert(piece.drop_last().last() == piece[0]);
    } else if piece.len() == 3 {
        assert(piece.last() == piece[2]);
        assert(piece.drop_last().last() == piece[1]);
        assert(piece.drop_last().drop_last().last() == piece[0]);
    }
}

fn ipv4_loopback(address: &str) -> (b: bool)
    ensures
        b == is_ipv4_loopback(address@),
{
    let pieces = text::split_text(address, '.');
    let ghost p = text::views(pieces@);
    assert(p.len() == pieces@.len());
    if pieces.len() != 4 {
        return false;
    }
    assert(p[0] == pieces@[0]@ && p[1] == pieces@[1]@ && p[2] == pieces@[2]@ && p[3]
        == pieces@[3]@);
    octet(pieces[0].as_str()) && octet(pieces[1].as_str()) && octet(pieces[2].as_str()) && octet(
        pieces[3].as_str(),
    ) && text::text_eq(pieces[0].as_str(), "127")
}

fn zeros(chars: &Vec<char>, upto: usize) -> (b: bool)
    requires
        upto <= chars@.len(),
    ensures
        b == (forall|i: int| 0 <= i < upto ==> #[trigger] chars@[i] == '0'),
{
    let mut i: usize = 0;
    while i < upto
        invariant
            i <= upto <= chars@.len(),
            forall|k: int| 0 <= k < i ==> #[trigger] chars@[k] == '0',
        decreases upto - i,
    {
        if chars[i] != '0' {
            return false;
        }
        i += 1;
    }
    true
}

fn zero_group(piece: &str) -> (b: bool)
    ensures
        b == is_zero_group(piece@),
{
    let chars = text::chars_of(piece);
    chars.len() >= 1 && chars.len() <= 4 && zeros(&chars, chars.len())
}

fn one_group(piece: &str) -> (b: bool)
    ensures
        b == is_one_group(piece@),
{
    let chars = text::chars_of(piece);
    chars.len() >= 1 && chars.len() <= 4 && chars[chars.len() - 1] == '1' && zeros(
        &chars,
        chars.len() - 1,
    )
}

fn zero_groups_but(pieces: &Vec<String>, from: usize, to: usize) -> (b: bool)
    requires
        pieces@.len() >= 1,
    ensures
        b == zero_but(text::views(pieces@), from as int, to as int),
{
    let ghost p = text::views(pieces@);
    let mut i: usize = 0;
    while i < pieces.len() - 1
        invariant
            pieces@.len() >= 1,
            i <= pieces@.len() - 1,
            p == text::views(pieces@),
            forall|k: int| 0 <= k < i && !(from <= k < to) ==> is_zero_group(#[trigger] p[k]),
        decreases pieces@.len() - i,
    {
        assert(p[i as int] == pieces@[i as int]@);
        if !(from <= i && i < to) && !zero_group(pieces[i].as_str()) {
            return false;
        }
        i += 1;
    }
    true
}

fn ipv6_loopback(address: &str) -> (b: bool)
    ensures
        b == is_ipv6_loopback(address@),
{
    let pieces = text::split_text(address, ':');
    let n = pieces.len();
    let ghost p = text::views(pieces@);
    assert(p.len() == n);
    assert(p.last() == pieces@[n - 1]@);
    let dotted = text::text_eq(pieces[n - 1].as_str(), "0.0.0.1");
    if !dotted && !one_group(pieces[n - 1].as_str()) {
        return false;
    }
    if n > 9 {
        return false;
    }
    let last: usize = if dotted {
        2
    } else {
        1
    };
    // The first empty piece before the last one, or the last one.
    let mut gap: usize = 0;
    while gap < n - 1 && !pieces[gap].as_str().is_empty()
        invariant
            1 <= n <= 9,
            n == pieces@.len(),
            p == text::views(pieces@),
            gap <= n - 1,
            forall|k: int| 0 <= k < gap ==> (#[trigger] p[k]).len() > 0,
        decreases n - gap,
    {
        assert(p[gap as int] == pieces@[gap as int]@);
        gap += 1;
    }
    assert(p[gap as int] == pieces@[gap as int]@);
    if gap == n - 1 {
        assert(!gap_at_start(p));
        assert(forall|at: int| !gap_at(p, at));
        return zero_groups_but(&pieces, 0, 0) && n - 1 + last == 8;
    }
    assert(!zero_but(p, 0, 0)) by {
        assert(!is_zero_group(p[gap as int]));
    }
    if gap == 0 {
        assert(forall|at: int| !gap_at(p, at)) by {
            assert(!is_zero_group(p[0]));
        }
        if n < 3 {
            return false;
        }
        assert(p[1] == pieces@[1]@);
        return pieces[1].as_str().is_empty() && zero_groups_but(&pieces, 0, 2) && n - 3 + last
            <= 7;
    }
    assert(!gap_at_start(p));
    let fits = zero_groups_but(&pieces, gap, gap + 1);
    proof {
        if fits {
            assert(gap_at(p, gap as int));
        }
        assert forall|at: int| gap_at(p, at) implies at == gap && fits by {
            if at != gap {
                assert(!is_zero_group(p[gap as int]));
            }
        }
    }
    fits && n - 2 + last <= 7
}

fn word_in_any_case(address: &str, word: &str) -> (b: bool)
    ensures
        b == is_word_in_any_case(address@, word@),
{
    let a = text::chars_of(address);
    let w = text::chars_of(word);
    if a.len() != w.len() {
        return false;
    }
    let mut i: usize = 0;
    while i < w.len()
        invariant
            i <= w@.len(),
            a@.len() == w@.len(),
            a@ == address@,
            w@ == word@,
            forall|k: int|
                0 <= k < i ==> {
                    ||| #[trigger] address@[k] == word@[k]
                    ||| 'A' <= address@[k] <= 'Z' && address@[k] as u32 + 32 == word@[k] as u32
                },
        decreases w@.len() - i,
    {
        let c = a[i];
        let upper = 'A' <= c && c <= 'Z';
        assert(c == address@[i as int]);
        if c != w[i] && !(upper && c as u32 + 32 == w[i] as u32) {
            return false;
        }
        i += 1;
    }
    true
}

/// Whether a server at this address is reached from this machine only.
pub fn is_loopback_address(address: &str) -> (b: bool)
    ensures
        b == is_loopback(address@),
{
    word_in_any_case(address, "localhost") || ipv4_loopback(address) || ipv6_loopback(address)
}

/// The default bind address stays on the machine.
pub proof fn lemma_default_address_is_loopback()
    ensures
        is_loopback("127.0.0.1"@),
{
    reveal_strlit("127.0.0.1");
    reveal_strlit("127");
    let a = "127.0.0.1"@;
    reveal_with_fuel(text::split, 10);
    reveal_with_fuel(text::number, 4);
    let pieces = text::split(a, '.');
    assert(pieces.len() == 4);
    assert(pieces[0] =~= seq!['1', '2', '7']);
    assert(pieces[1] =~= seq!['0']);
    assert(pieces[2] =~= seq!['0']);
    assert(pieces[3] =~= seq!['1']);
    assert("127"@ =~= seq!['1', '2', '7']);
    assert(text::number(seq!['1', '2', '7']) <= 255) by {
        lemma_short_number(seq!['1', '2', '7']);
        assert(seq!['1', '2', '7'].drop_last() =~= seq!['1', '2']);
        assert(seq!['1', '2'].drop_last() =~= seq!['1']);
        assert(seq!['1'].drop_last() =~= Seq::<char>::empty());
    }
    assert(text::number(seq!['0']) <= 255) by {
        assert(seq!['0'].drop_last() =~= Seq::<char>::empty());
    }
    assert(text::number(seq!['1']) <= 255) by {
        assert(seq!['1'].drop_last() =~= Seq::<char>::empty());
    }
}

/// A dotted address stays on the machine exactly where its first number is 127.
pub proof fn lemma_dotted_loopback(n: nat, a: nat, b: nat, c: nat)
    requires
        n <= 255,
        a <= 255,
        b <= 255,
        c <= 255,
    ensures
        is_loopback(
            text::decimal(n) + seq!['.'] + text::decimal(a) + seq!['.'] + text::decimal(b) + seq!['.']
                + text::decimal(c),
        ) <==> n == 127,
{
    let x = text::decimal(n);
    let y = text::decimal(a);
    let z = text::decimal(b);
    let w = text::decimal(c);
    let address = x + seq!['.'] + y + seq!['.'] + z + seq!['.'] + w;
    lemma_octet_of(n);
    lemma_octet_of(a);
    lemma_octet_of(b);
    lemma_octet_of(c);
    let one = x.push('.') + y;
    let two = one.push('.') + z;
    let three = two.push('.') + w;
    assert(three =~= address);
    text::lemma_split_of_piece(x, '.');
    text::lemma_split_grows(x, y, '.');
    text::lemma_split_grows(one, z, '.');
    text::lemma_split_grows(two, w, '.');
    let pieces = text::split(address, '.');
    assert(pieces =~= seq![x, y, z, w]);
    assert(pieces[0] == x && pieces[1] == y && pieces[2] == z && pieces[3] == w);
    lemma_decimal_of_127();
    text::lemma_decimal_tells(n, 127);
    assert(is_ipv4_loopback(address) <==> n == 127);
    // It is no word and has no colon.
    assert(address[0] == x[0]);
    assert(!is_word_in_any_case(address, "localhost"@)) by {
        reveal_strlit("localhost");
        if is_word_in_any_case(address, "localhost"@) {
            assert(address[0] == "localhost"@[0] || 'A' <= address[0] <= 'Z');
            assert(text::is_digit(x[0]));
        }
    }
    assert(!address.contains(':')) by {
        text::lemma_digits_hold(x, ':');
        text::lemma_digits_hold(y, ':');
        text::lemma_digits_hold(z, ':');
        text::lemma_digits_hold(w, ':');
        text::lemma_concat_holds(x.push('.'), y, ':');
        text::lemma_concat_holds(one.push('.'), z, ':');
        text::lemma_concat_holds(two.push('.'), w, ':');
        text::lemma_concat_holds(x, seq!['.'], ':');
        text::lemma_concat_holds(one, seq!['.'], ':');
        text::lemma_concat_holds(two, seq!['.'], ':');
        assert(x.push('.') =~= x + seq!['.']);
        assert(one.push('.') =~= one + seq!['.']);
        assert(two.push('.') =~= two + seq!['.']);
        assert(seq!['.'][0] != ':');
    }
    text::lemma_split_of_piece(address, ':');
    assert(text::split(address, ':').len() == 1);
    assert(!is_ipv6_loopback(address));
}

proof fn lemma_octet_of(n: nat)
    requires
        n <= 255,
    ensures
        is_octet(text::decimal(n)),
        !text::decimal(n).contains('.'),
{
    text::lemma_decimal_tells(n, 0);
    text::lemma_digits_hold(text::decimal(n), '.');
    text::lemma_number_of_decimal(n);
    reveal_with_fuel(text::decimal, 4);
}

proof fn lemma_decimal_of_127()
    ensures
        text::decimal(127) == "127"@,
{
    reveal_strlit("127");
    reveal_with_fuel(text::decimal, 4);
    assert(text::decimal(127) =~= seq!['1', '2', '7']);
    assert("127"@ =~= seq!['1', '2', '7']);
}

/// The name of this machine stays on it, in whatever case its letters are.
pub proof fn lemma_localhost_in_any_case(address: Seq<char>)
    requires
        address.len() == 9,
        address[0] == 'l' || address[0] == 'L',
        address[1] == 'o' || address[1] == 'O',
        address[2] == 'c' || address[2] == 'C',
        address[3] == 'a' || address[3] == 'A',
        address[4] == 'l' || address[4] == 'L',
        address[5] == 'h' || address[5] == 'H',
        address[6] == 'o' || address[6] == 'O',
        address[7] == 's' || address[7] == 'S',
        address[8] == 't' || address[8] == 'T',
    ensures
        is_loopback(address),
{
    reveal_strlit("localhost");
    let word = "localhost"@;
    assert(word.len() == 9);
    assert(word[0] == 'l' && word[1] == 'o' && word[2] == 'c' && word[3] == 'a' && word[4] == 'l'
        && word[5] == 'h' && word[6] == 'o' && word[7] == 's' && word[8] == 't');
    assert(is_word_in_any_case(address, word));
}

/// An address of eight groups in hexadecimal stays on the machine where all are zero but the
/// last, which is one; and one whose last group is neither one nor dotted does not.
pub proof fn lemma_eight_groups(pieces: Seq<Seq<char>>)
    requires
        pieces.len() == 8,
        forall|i: int| 0 <= i < 8 ==> !(#[trigger] pieces[i]).contains(':'),
    ensures
        (forall|i: int| 0 <= i < 7 ==> is_zero_group(#[trigger] pieces[i])) && is_one_group(
            pieces[7],
        ) && pieces[7] != "0.0.0.1"@ ==> is_loopback(text::join(pieces, seq![':'])),
        !is_one_group(pieces[7]) && pieces[7] != "0.0.0.1"@ ==> !is_ipv6_loopback(
            text::join(pieces, seq![':']),
        ),
{
    text::lemma_split_of_join(pieces, ':');
}

/// A part of a dotted address is a number up to 255, written as numbers are.
pub proof fn lemma_parts_of_addresses(piece: Seq<char>, n: nat)
    ensures
        n <= 255 ==> is_octet(text::decimal(n)),
        n > 255 ==> !is_octet(text::decimal(n)),
        is_octet(piece) ==> text::number(piece) <= 255 && piece == text::decimal(
            text::number(piece),
        ),
        is_octet(piece) ==> !is_octet(seq!['0'] + piece) && !is_octet(seq!['+'] + piece),
{
    text::lemma_number_of_decimal(n);
    if n <= 255 {
        lemma_octet_of(n);
    }
    if is_octet(piece) {
        text::lemma_digits_are_their_number(piece);
        assert((seq!['0'] + piece)[0] == '0');
        assert((seq!['+'] + piece)[0] == '+');
    }
}

/// An address of four parts that stays on the machine is 127 and three numbers.
pub proof fn lemma_dotted_loopback_has_four_parts(address: Seq<char>)
    requires
        is_ipv4_loopback(address),
    ensures
        text::split(address, '.').len() == 4,
        text::split(address, '.')[0] == text::decimal(127),
        forall|i: int|
            0 <= i < 4 ==> #[trigger] text::split(address, '.')[i] == text::decimal(
                text::number(text::split(address, '.')[i]),
            ) && text::number(text::split(address, '.')[i]) <= 255,
{
    lemma_decimal_of_127();
    let pieces = text::split(address, '.');
    assert forall|i: int| 0 <= i < 4 implies #[trigger] pieces[i] == text::decimal(
        text::number(pieces[i]),
    ) && text::number(pieces[i]) <= 255 by {
        lemma_parts_of_addresses(pieces[i], 0);
    }
}

} // verus!
