//! Unix paths as text. A path is read as the list of its components; two
//! texts name the same path where their components agree.

use vstd::prelude::*;
use crate::order;
use crate::text;

verus! {

/// Whether the path starts at the root.
pub open spec fn rooted(path: Seq<char>) -> bool {
    path.len() > 0 && path[0] == '/'
}

/// Whether the piece at `i` of a path split at `/` is a component: it is not
/// empty, and it is not `.` unless the path begins with it.
pub open spec fn is_part(pieces: Seq<Seq<char>>, i: int) -> bool {
    pieces[i].len() > 0 && (pieces[i] != "."@ || i == 0)
}

/// The pieces that are components.
pub open spec fn parts(pieces: Seq<Seq<char>>) -> Seq<Seq<char>>
    decreases pieces.len(),
{
    if pieces.len() == 0 {
        Seq::<Seq<char>>::empty()
    } else if is_part(pieces, pieces.len() - 1) {
        parts(pieces.drop_last()).push(pieces.last())
    } else {
        parts(pieces.drop_last())
    }
}

/// The components of a path; the root is the component `/`.
pub open spec fn components(path: Seq<char>) -> Seq<Seq<char>> {
    if rooted(path) {
        seq!["/"@] + parts(text::split(path, '/'))
    } else {
        parts(text::split(path, '/'))
    }
}

/// Whether two texts name the same path.
pub open spec fn same(left: Seq<char>, right: Seq<char>) -> bool {
    components(left) == components(right)
}

/// Whether `path` is `base` or lies below it.
pub open spec fn below(path: Seq<char>, base: Seq<char>) -> bool {
    components(base).is_prefix_of(components(path))
}

/// The components of a path.
pub fn path_components(path: &str) -> (out: Vec<String>)
    ensures
        text::views(out@) == components(path@),
{
    let pieces = text::split_text(path, '/');
    let mut out: Vec<String> = Vec::new();
    let root = is_absolute(path);
    let ghost head = if root {
        seq!["/"@]
    } else {
        Seq::<Seq<char>>::empty()
    };
    if root {
        out.push("/".to_owned());
    }
    assert(text::views(out@) == head);
    let ghost all = text::views(pieces@);
    let mut i: usize = 0;
    assert(all.take(0) == Seq::<Seq<char>>::empty());
    assert(head + Seq::<Seq<char>>::empty() == head);
    while i < pieces.len()
        invariant
            i <= pieces@.len(),
            all == text::views(pieces@),
            text::views(out@) == head + parts(all.take(i as int)),
        decreases pieces@.len() - i,
    {
        let ghost upto = all.take(i + 1);
        let ghost before = text::views(out@);
        assert(upto.drop_last() == all.take(i as int));
        assert(upto.last() == pieces@[i as int]@);
        let piece = pieces[i].as_str();
        if !piece.is_empty() && (i == 0 || !text::text_eq(piece, ".")) {
            out.push(piece.to_owned());
            assert(text::views(out@) == before.push(upto.last()));
            assert(is_part(upto, i as int));
            assert(before.push(upto.last()) == head + parts(upto));
        } else {
            assert(!is_part(upto, i as int));
        }
        i += 1;
    }
    assert(all.take(pieces@.len() as int) == all);
    out
}

/// Whether the path starts at the root.
pub fn is_absolute(path: &str) -> (b: bool)
    ensures
        b == rooted(path@),
{
    let chars = text::chars_of(path);
    chars.len() > 0 && chars[0] == '/'
}

/// Whether two lists of texts agree.
pub fn same_texts(left: &Vec<String>, right: &Vec<String>) -> (b: bool)
    ensures
        b == (text::views(left@) == text::views(right@)),
{
    if left.len() != right.len() {
        assert(text::views(left@).len() != text::views(right@).len());
        return false;
    }
    starts_with_texts(left, right)
}

/// Whether the list `base` is a prefix of the list `items`.
pub fn starts_with_texts(items: &Vec<String>, base: &Vec<String>) -> (b: bool)
    ensures
        b == text::views(base@).is_prefix_of(text::views(items@)),
        items@.len() == base@.len() ==> b == (text::views(items@) == text::views(base@)),
{
    let ghost l = text::views(items@);
    let ghost r = text::views(base@);
    if base.len() > items.len() {
        return false;
    }
    let mut i: usize = 0;
    while i < base.len()
        invariant
            i <= base@.len() <= items@.len(),
            l == text::views(items@),
            r == text::views(base@),
            forall|k: int| 0 <= k < i ==> l[k] == r[k],
        decreases base@.len() - i,
    {
        if !text::text_eq(items[i].as_str(), base[i].as_str()) {
            assert(l[i as int] != r[i as int]);
            assert(l.subrange(0, r.len() as int)[i as int] == l[i as int]);
            return false;
        }
        i += 1;
    }
    assert(l.subrange(0, r.len() as int) =~= r);
    assert(l.len() == r.len() ==> l =~= r);
    true
}

/// Whether two texts name the same path.
pub fn same_path(left: &str, right: &str) -> (b: bool)
    ensures
        b == same(left@, right@),
{
    same_texts(&path_components(left), &path_components(right))
}

/// Whether `path` is `base` or lies below it.
pub fn is_below(path: &str, base: &str) -> (b: bool)
    ensures
        b == below(path@, base@),
{
    starts_with_texts(&path_components(path), &path_components(base))
}

/// The number of components.
pub fn component_count(path: &str) -> (n: usize)
    ensures
        n == components(path@).len(),
{
    let all = path_components(path);
    assert(text::views(all@).len() == all@.len());
    all.len()
}

// ---------------------------------------------------------------------------
// Joining and taking apart

/// `child` seen from `base`: an absolute child stands for itself.
pub open spec fn joined(base: Seq<char>, child: Seq<char>) -> Seq<char> {
    if rooted(child) {
        child
    } else if base.len() == 0 || base.last() == '/' {
        base + child
    } else {
        base + "/"@ + child
    }
}

/// Joins a path with a child.
pub fn join(base: &str, child: &str) -> (out: String)
    ensures
        out@ == joined(base@, child@),
{
    if is_absolute(child) {
        return child.to_owned();
    }
    let chars = text::chars_of(base);
    let mut out: String = base.to_owned();
    if chars.len() > 0 && chars[chars.len() - 1] != '/' {
        out.append("/");
    }
    out.append(child);
    out
}

/// The index of the last component among the pieces, or -1.
pub open spec fn last_part(pieces: Seq<Seq<char>>) -> int
    decreases pieces.len(),
{
    if pieces.len() == 0 {
        -1
    } else if is_part(pieces, pieces.len() - 1) {
        pieces.len() - 1
    } else {
        last_part(pieces.drop_last())
    }
}

/// The path without its last component, as written; `None` for the root and
/// for the empty path.
pub open spec fn parent(path: Seq<char>) -> Option<Seq<char>> {
    let pieces = text::split(path, '/');
    let last = last_part(pieces);
    if last < 0 {
        None
    } else {
        let before = last_part(pieces.take(last));
        if before >= 0 {
            Some(text::join(pieces.take(before + 1), "/"@))
        } else if rooted(path) {
            Some("/"@)
        } else {
            Some(Seq::<char>::empty())
        }
    }
}

/// The name of the last component, unless the path ends in the root, `.` or `..`.
pub open spec fn file_name(path: Seq<char>) -> Option<Seq<char>> {
    let all = components(path);
    if all.len() == 0 || all.last() == "/"@ || all.last() == "."@ || all.last() == ".."@ {
        None
    } else {
        Some(all.last())
    }
}

proof fn lemma_last_part_range(pieces: Seq<Seq<char>>)
    ensures
        -1 <= last_part(pieces) < pieces.len(),
        last_part(pieces) >= 0 ==> pieces[last_part(pieces)].len() > 0,
    decreases pieces.len(),
{
    if pieces.len() > 0 && !is_part(pieces, pieces.len() - 1) {
        lemma_last_part_range(pieces.drop_last());
    }
}

proof fn lemma_piece_is_short(path: Seq<char>, i: int)
    requires
        0 <= i < text::split(path, '/').len(),
    ensures
        text::split(path, '/')[i].len() <= path.len(),
        i > 0 ==> text::split(path, '/')[i].len() < path.len(),
    decreases path.len(),
{
    if path.len() > 0 {
        let rest = path.drop_last();
        text::lemma_split_nonempty(rest, '/');
        let before = text::split(rest, '/');
        if i < before.len() {
            lemma_piece_is_short(rest, i);
        }
    }
}

/// A path is longer than the path above it.
pub proof fn lemma_parent_is_shorter(path: Seq<char>)
    ensures
        parent(path) is Some ==> parent(path)->0.len() < path.len(),
{
    reveal_strlit("/");
    let pieces = text::split(path, '/');
    let last = last_part(pieces);
    lemma_last_part_range(pieces);
    if last >= 0 {
        lemma_last_part_range(pieces.take(last));
        let before = last_part(pieces.take(last));
        assert("/"@ =~= seq!['/']);
        text::lemma_join_of_split(path, '/');
        if before >= 0 {
            text::lemma_join_of_fewer(pieces, before + 1, "/"@);
        } else {
            lemma_piece_is_short(path, last);
            if rooted(path) {
                assert(path.len() > 1) by {
                    if path.len() == 1 {
                        reveal_with_fuel(text::split, 2);
                        assert(path.drop_last() =~= Seq::<char>::empty());
                        assert(pieces =~= seq![Seq::<char>::empty(), Seq::<char>::empty()]);
                    }
                }
            }
        }
    }
}

/// The index after the last component among the first `upto` pieces, or 0.
fn after_last_part(pieces: &Vec<String>, upto: usize) -> (end: usize)
    requires
        upto <= pieces@.len(),
    ensures
        end <= upto,
        end as int - 1 == last_part(text::views(pieces@).take(upto as int)),
{
    let ghost all = text::views(pieces@);
    let mut end: usize = upto;
    while end > 0
        invariant
            end <= upto <= pieces@.len(),
            all == text::views(pieces@),
            last_part(all.take(end as int)) == last_part(all.take(upto as int)),
        decreases end,
    {
        let ghost t = all.take(end as int);
        assert(t.last() == pieces@[end - 1]@);
        let piece = pieces[end - 1].as_str();
        if !piece.is_empty() && (end == 1 || !text::text_eq(piece, ".")) {
            assert(is_part(t, end - 1));
            return end;
        }
        assert(!is_part(t, end - 1));
        assert(t.drop_last() == all.take(end - 1));
        end -= 1;
    }
    end
}

/// The path without its last component.
pub fn parent_of(path: &str) -> (out: Option<String>)
    ensures
        match out {
            Some(p) => parent(path@) == Some(p@),
            None => parent(path@) is None,
        },
{
    let mut pieces = text::split_text(path, '/');
    let ghost all = text::views(pieces@);
    assert(all.take(pieces@.len() as int) == all);
    let last = after_last_part(&pieces, pieces.len());
    if last == 0 {
        return None;
    }
    let before = after_last_part(&pieces, last - 1);
    if before > 0 {
        pieces.truncate(before);
        assert(text::views(pieces@) == all.take(before as int));
        Some(text::join_texts(&pieces, "/"))
    } else if is_absolute(path) {
        Some("/".to_owned())
    } else {
        Some(String::new())
    }
}

/// The name of the last component.
pub fn file_name_of(path: &str) -> (out: Option<String>)
    ensures
        match out {
            Some(name) => file_name(path@) == Some(name@),
            None => file_name(path@) is None,
        },
{
    let mut all = path_components(path);
    let ghost listed = text::views(all@);
    match all.pop() {
        None => None,
        Some(name) => {
            assert(name@ == listed.last());
            if text::text_eq(name.as_str(), "/") || text::text_eq(name.as_str(), ".")
                || text::text_eq(name.as_str(), "..") {
                None
            } else {
                Some(name)
            }
        },
    }
}

/// The text that `Debug` of std's `Path` gives for a path: in quotes, and with escapes.
pub uninterp spec fn debugged(path: Seq<char>) -> Seq<char>;

/// `Debug` of std's `Path`: the same path gives the same text. Which characters it
/// escapes is left unsaid.
#[verifier::external_body]
pub(crate) fn debug_text(path: &str) -> (out: String)
    ensures
        out@ == debugged(path@),
{
    format!("{:?}", std::path::Path::new(path))
}

/// What a symlink at `link` that holds `target` points to.
pub open spec fn link_destination(link: Seq<char>, target: Seq<char>) -> Seq<char> {
    if rooted(target) {
        target
    } else {
        match parent(link) {
            Some(dir) => joined(dir, target),
            None => joined("."@, target),
        }
    }
}

/// Resolves what a symlink holds against the directory of the link.
pub fn resolve_link_target(link_path: &str, target: &str) -> (out: String)
    ensures
        out@ == link_destination(link_path@, target@),
{
    if is_absolute(target) {
        return target.to_owned();
    }
    match parent_of(link_path) {
        Some(dir) => join(dir.as_str(), target),
        None => join(".", target),
    }
}

// ---------------------------------------------------------------------------
// Lexical normal form

/// The components with `.` dropped and each `..` undone against the component
/// before it, without leaving the root.
pub open spec fn lexical(list: Seq<Seq<char>>) -> Seq<Seq<char>>
    decreases list.len(),
{
    if list.len() == 0 {
        list
    } else {
        let before = lexical(list.drop_last());
        if list.last() == "."@ {
            before
        } else if list.last() != ".."@ {
            before.push(list.last())
        } else if before.len() == 0 || before.last() == ".."@ {
            before.push(".."@)
        } else if before.last() == "/"@ {
            before
        } else {
            before.drop_last()
        }
    }
}

/// The normal form of a list of components.
pub fn lexical_components(list: &Vec<String>) -> (out: Vec<String>)
    ensures
        text::views(out@) == lexical(text::views(list@)),
{
    let ghost all = text::views(list@);
    let mut out: Vec<String> = Vec::new();
    let mut i: usize = 0;
    assert(all.take(0) == Seq::<Seq<char>>::empty());
    assert(text::views(out@) == lexical(all.take(0)));
    while i < list.len()
        invariant
            i <= list@.len(),
            all == text::views(list@),
            text::views(out@) == lexical(all.take(i as int)),
        decreases list@.len() - i,
    {
        let ghost before = text::views(out@);
        assert(all.take(i + 1).drop_last() == all.take(i as int));
        assert(all.take(i + 1).last() == list@[i as int]@);
        let part = list[i].as_str();
        if text::text_eq(part, ".") {
        } else if !text::text_eq(part, "..") {
            out.push(part.to_owned());
            assert(text::views(out@) == before.push(part@));
        } else {
            let n = out.len();
            assert(n > 0 ==> before.last() == out@[n - 1]@);
            if n == 0 || text::text_eq(out[n - 1].as_str(), "..") {
                out.push("..".to_owned());
                assert(text::views(out@) == before.push(".."@));
            } else if !text::text_eq(out[n - 1].as_str(), "/") {
                let _ = out.pop();
                assert(text::views(out@) == before.drop_last());
            }
        }
        i += 1;
    }
    assert(all.take(list@.len() as int) == all);
    out
}

/// Whether `path`, read without following links, is `root` or lies below it.
pub open spec fn under(path: Seq<char>, root: Seq<char>) -> bool {
    lexical(components(root)).is_prefix_of(lexical(components(path)))
}

/// Whether `path` lies under one of the roots.
pub open spec fn under_any(path: Seq<char>, roots: Seq<Seq<char>>) -> bool {
    exists|i: int| 0 <= i < roots.len() && under(path, #[trigger] roots[i])
}

/// Whether `path` lies under one of the roots.
pub fn path_under_roots(path: &str, roots: &Vec<String>) -> (b: bool)
    ensures
        b == under_any(path@, text::views(roots@)),
{
    let ghost all = text::views(roots@);
    let own = lexical_components(&path_components(path));
    let mut i: usize = 0;
    while i < roots.len()
        invariant
            i <= roots@.len(),
            all == text::views(roots@),
            text::views(own@) == lexical(components(path@)),
            forall|k: int| 0 <= k < i ==> !under(path@, #[trigger] all[k]),
        decreases roots@.len() - i,
    {
        let root = lexical_components(&path_components(roots[i].as_str()));
        if starts_with_texts(&own, &root) {
            assert(under(path@, all[i as int]));
            return true;
        }
        assert(!under(path@, all[i as int]));
        i += 1;
    }
    false
}

// ---------------------------------------------------------------------------
// The order of paths

/// The key of a component: the root first, then `.`, then `..`, then names.
pub open spec fn component_key(part: Seq<char>) -> Seq<char> {
    if part == "/"@ {
        "0"@ + part
    } else if part == "."@ {
        "1"@ + part
    } else if part == ".."@ {
        "2"@ + part
    } else {
        "3"@ + part
    }
}

/// The key by which a path is ordered, component by component.
pub open spec fn path_key(path: Seq<char>) -> Seq<Seq<char>> {
    components(path).map_values(|part: Seq<char>| component_key(part))
}

/// Whether the path `left` comes before the path `right`.
pub open spec fn path_before(left: Seq<char>, right: Seq<char>) -> bool {
    order::texts_before(path_key(left), path_key(right))
}

/// The key by which a path is ordered.
pub fn path_key_of(path: &str) -> (key: Vec<String>)
    ensures
        text::views(key@) == path_key(path@),
{
    let all = path_components(path);
    let ghost listed = components(path@);
    let mut key: Vec<String> = Vec::new();
    let mut i: usize = 0;
    while i < all.len()
        invariant
            i <= all@.len(),
            listed == components(path@),
            text::views(all@) == listed,
            text::views(key@) == path_key(path@).take(i as int),
        decreases all@.len() - i,
    {
        let part = all[i].as_str();
        assert(part@ == listed[i as int]);
        let mut entry: String = if text::text_eq(part, "/") {
            "0".to_owned()
        } else if text::text_eq(part, ".") {
            "1".to_owned()
        } else if text::text_eq(part, "..") {
            "2".to_owned()
        } else {
            "3".to_owned()
        };
        entry.append(part);
        let ghost before = text::views(key@);
        let ghost added = entry@;
        key.push(entry);
        assert(text::views(key@) == before.push(added));
        assert(path_key(path@).take(i + 1) == path_key(path@).take(i as int).push(
            path_key(path@)[i as int],
        ));
        i += 1;
    }
    assert(path_key(path@).take(all@.len() as int) == path_key(path@));
    key
}

/// Whether the path `left` comes before the path `right`.
pub fn path_comes_before(left: &str, right: &str) -> (b: bool)
    ensures
        b == path_before(left@, right@),
{
    order::texts_come_before(&path_key_of(left), &path_key_of(right))
}

/// Different components have different keys.
proof fn lemma_component_key_injective(a: Seq<char>, b: Seq<char>)
    requires
        component_key(a) == component_key(b),
    ensures
        a == b,
{
    reveal_strlit("0");
    reveal_strlit("1");
    reveal_strlit("2");
    reveal_strlit("3");
    assert(component_key(a).skip(1) =~= a);
    assert(component_key(b).skip(1) =~= b);
}

/// Paths with the same key are the same path.
pub proof fn lemma_path_key_injective(left: Seq<char>, right: Seq<char>)
    requires
        path_key(left) == path_key(right),
    ensures
        same(left, right),
{
    let a = components(left);
    let b = components(right);
    assert(path_key(left).len() == a.len());
    assert(path_key(right).len() == b.len());
    assert forall|i: int| 0 <= i < a.len() implies a[i] == b[i] by {
        assert(path_key(left)[i] == component_key(a[i]));
        assert(path_key(right)[i] == component_key(b[i]));
        lemma_component_key_injective(a[i], b[i]);
    }
    assert(a =~= b);
}

/// Paths are ordered: two do not come before each other, and one that does not come
/// before a second, which does not come before a third, does not come before the third.
pub proof fn lemma_path_order(a: Seq<char>, b: Seq<char>, c: Seq<char>)
    ensures
        !(path_before(a, b) && path_before(b, a)),
        path_before(a, b) && path_before(b, c) ==> path_before(a, c),
        !path_before(b, a) && !path_before(c, b) ==> !path_before(c, a),
{
    order::lemma_texts_before_total(path_key(a), path_key(b));
    order::lemma_texts_before_total(path_key(b), path_key(c));
    order::lemma_texts_before_total(path_key(a), path_key(c));
    if path_before(a, b) && path_before(b, c) {
        order::lemma_texts_before_transitive(path_key(a), path_key(b), path_key(c));
    }
}

/// The order of paths, in which texts that name the same path tie.
pub struct ByPath;

impl order::TextOrder for ByPath {
    open spec fn before(a: Seq<char>, b: Seq<char>) -> bool {
        path_before(a, b)
    }

    proof fn order_laws(a: Seq<char>, b: Seq<char>, c: Seq<char>) {
        order::lemma_texts_before_total(path_key(a), path_key(b));
        order::lemma_texts_before_total(path_key(b), path_key(c));
        order::lemma_texts_before_total(path_key(a), path_key(c));
        if path_before(a, b) && path_before(b, c) {
            order::lemma_texts_before_transitive(path_key(a), path_key(b), path_key(c));
        }
    }

    fn is_before(a: &str, b: &str) -> (r: bool) {
        path_comes_before(a, b)
    }
}

/// Texts tie in the order of paths exactly where they name the same path.
pub proof fn lemma_path_ties(a: Seq<char>, b: Seq<char>)
    ensures
        order::ties::<ByPath>(a, b) == same(a, b),
{
    order::lemma_texts_before_total(path_key(a), path_key(b));
    if order::ties::<ByPath>(a, b) {
        lemma_path_key_injective(a, b);
    }
}

/// The paths in ascending order, each path once.
pub fn distinct_paths(paths: Vec<String>) -> (out: Vec<String>)
    ensures
        text::views(out@) == order::distinct::<ByPath>(text::views(paths@)),
{
    order::distinct_texts::<ByPath>(paths)
}

// ---------------------------------------------------------------------------
// What joining, parents and prefixes amount to

/// Whether a text is the name of one component: not empty, without `/`, and not `.`.
pub open spec fn is_name(t: Seq<char>) -> bool {
    t.len() > 0 && !t.contains('/') && t != "."@
}

/// A name that is joined to a path is one component more.
pub proof fn lemma_joined_components(base: Seq<char>, name: Seq<char>)
    requires
        is_name(name),
    ensures
        components(joined(base, name)) == components(base).push(name),
{
    reveal_strlit("/");
    assert("/"@ =~= seq!['/']);
    assert(name.contains(name[0]));
    let whole = joined(base, name);
    let pieces = text::split(base, '/');
    text::lemma_split_nonempty(base, '/');
    if base.len() == 0 {
        assert(base + name =~= name);
        text::lemma_split_of_piece(name, '/');
        reveal_with_fuel(parts, 2);
        assert(pieces =~= seq![Seq::<char>::empty()]);
        assert(seq![name].drop_last() =~= Seq::<Seq<char>>::empty());
        assert(pieces.drop_last() =~= Seq::<Seq<char>>::empty());
        assert(components(whole) =~= components(base).push(name));
    } else {
        let all = text::split(whole, '/');
        if base.last() == '/' {
            let rest = base.drop_last();
            assert(base =~= rest.push('/'));
            text::lemma_split_grows(rest, name, '/');
            text::lemma_split_nonempty(rest, '/');
            let before = text::split(rest, '/');
            assert(all == before.push(name));
            assert(pieces == before.push(Seq::<char>::empty()));
            assert(pieces.drop_last() =~= before);
            assert(!is_part(pieces, pieces.len() - 1));
            assert(parts(pieces) == parts(before));
            assert(all.drop_last() =~= before);
        } else {
            text::lemma_split_grows(base, name, '/');
            assert(whole =~= base.push('/') + name);
            assert(all.drop_last() =~= pieces);
        }
        assert(is_part(all, all.len() - 1));
        assert(parts(all) == parts(pieces).push(name));
        assert(rooted(whole) == rooted(base));
        assert(components(whole) =~= components(base).push(name));
    }
}

/// Names that are joined to paths name the same path exactly where the paths are the same
/// and the names are equal.
pub proof fn lemma_joined_paths_differ(a: Seq<char>, x: Seq<char>, b: Seq<char>, y: Seq<char>)
    requires
        is_name(x),
        is_name(y),
    ensures
        same(joined(a, x), joined(b, y)) == (same(a, b) && x == y),
{
    lemma_joined_components(a, x);
    lemma_joined_components(b, y);
    let left = components(a).push(x);
    let right = components(b).push(y);
    if left == right {
        assert(left.drop_last() =~= components(a));
        assert(right.drop_last() =~= components(b));
        assert(left.last() == x && right.last() == y);
    }
}

/// A slash at the end of a path, and a dot behind one, change nothing.
pub proof fn lemma_slash_and_dot_change_nothing(path: Seq<char>)
    requires
        path.len() > 0,
    ensures
        same(path.push('/'), path),
        same(joined(path, "."@), path),
        !rooted(path) ==> !same("/"@ + path, path),
{
    reveal_strlit("/");
    reveal_strlit(".");
    assert("/"@ =~= seq!['/']);
    let none = Seq::<char>::empty();
    text::lemma_split_nonempty(path, '/');
    let pieces = text::split(path, '/');
    text::lemma_split_grows(path, none, '/');
    assert(path.push('/') + none =~= path.push('/'));
    let one = text::split(path.push('/'), '/');
    assert(one == pieces.push(none));
    assert(one.drop_last() =~= pieces);
    assert(!is_part(one, one.len() - 1));
    assert(parts(one) == parts(pieces));
    let dot = "."@;
    assert(!dot.contains('/'));
    let whole = joined(path, dot);
    let two = text::split(whole, '/');
    if path.last() == '/' {
        let rest = path.drop_last();
        assert(path =~= rest.push('/'));
        text::lemma_split_grows(rest, dot, '/');
        text::lemma_split_nonempty(rest, '/');
        let before = text::split(rest, '/');
        assert(pieces == before.push(none));
        assert(pieces.drop_last() =~= before);
        assert(!is_part(pieces, pieces.len() - 1));
        assert(two.drop_last() =~= before);
    } else {
        text::lemma_split_grows(path, dot, '/');
        assert(whole =~= path.push('/') + dot);
        assert(two.drop_last() =~= pieces);
    }
    assert(!is_part(two, two.len() - 1));
    assert(parts(two) == parts(pieces));
    if !rooted(path) {
        assert(components("/"@ + path)[0] == "/"@);
        if components(path).len() > 0 && components(path)[0] == "/"@ {
            lemma_parts_hold_no_slash(path, 0);
        }
    }
}

proof fn lemma_parts_are_pieces(pieces: Seq<Seq<char>>, i: int)
    requires
        0 <= i < parts(pieces).len(),
    ensures
        exists|k: int| 0 <= k < pieces.len() && is_part(pieces, k) && #[trigger] pieces[k] == parts(
            pieces,
        )[i],
    decreases pieces.len(),
{
    let rest = pieces.drop_last();
    let before = parts(rest);
    if is_part(pieces, pieces.len() - 1) && i == before.len() {
        assert(pieces[pieces.len() - 1] == parts(pieces)[i]);
    } else {
        lemma_parts_are_pieces(rest, i);
        let k = choose|k: int|
            0 <= k < rest.len() && is_part(rest, k) && #[trigger] rest[k] == parts(rest)[i];
        assert(pieces[k] == rest[k]);
        assert(is_part(pieces, k));
    }
}

proof fn lemma_parts_hold_no_slash(path: Seq<char>, i: int)
    requires
        0 <= i < parts(text::split(path, '/')).len(),
    ensures
        !parts(text::split(path, '/'))[i].contains('/'),
        parts(text::split(path, '/'))[i] != "/"@,
        parts(text::split(path, '/'))[i].len() > 0,
{
    reveal_strlit("/");
    lemma_parts_are_pieces(text::split(path, '/'), i);
    text::lemma_pieces_are_apart(path, '/');
    assert("/"@[0] == '/');
    assert("/"@.contains('/'));
}

/// The last component of a path is its file name, unless it is `..`.
pub proof fn lemma_file_name_of_joined(base: Seq<char>, name: Seq<char>)
    requires
        is_name(name),
    ensures
        file_name(joined(base, name)) == (if name == ".."@ {
            None
        } else {
            Some(name)
        }),
{
    reveal_strlit("/");
    lemma_joined_components(base, name);
    assert("/"@[0] == '/');
    assert("/"@.contains('/'));
}

proof fn lemma_last_part(pieces: Seq<Seq<char>>)
    ensures
        -1 <= last_part(pieces) < pieces.len(),
        last_part(pieces) < 0 ==> parts(pieces).len() == 0,
        last_part(pieces) >= 0 ==> parts(pieces) == parts(pieces.take(last_part(pieces))).push(
            pieces[last_part(pieces)],
        ) && parts(pieces) == parts(pieces.take(last_part(pieces) + 1)),
    decreases pieces.len(),
{
    if pieces.len() > 0 {
        let n = pieces.len() - 1;
        if is_part(pieces, n) {
            assert(pieces.take(n) =~= pieces.drop_last());
            assert(pieces.take(n + 1) =~= pieces);
        } else {
            let rest = pieces.drop_last();
            lemma_last_part(rest);
            let k = last_part(rest);
            if k >= 0 {
                assert(rest.take(k) =~= pieces.take(k));
                assert(rest.take(k + 1) =~= pieces.take(k + 1));
                assert(rest[k] == pieces[k]);
            }
        }
    }
}

/// A path has a parent unless it is empty or the root, and the parent is the path without
/// its last component.
pub proof fn lemma_parent_drops_the_last(path: Seq<char>)
    ensures
        parent(path) is None == (components(path).len() == 0 || components(path) == seq!["/"@]),
        parent(path) matches Some(dir) ==> components(dir) == components(path).drop_last(),
{
    reveal_strlit("/");
    assert("/"@ =~= seq!['/']);
    let pieces = text::split(path, '/');
    lemma_last_part(pieces);
    let last = last_part(pieces);
    text::lemma_pieces_are_apart(path, '/');
    if last < 0 {
        assert(parts(pieces) =~= Seq::<Seq<char>>::empty());
        assert(rooted(path) ==> components(path) =~= seq!["/"@]);
    } else {
        let upper = pieces.take(last);
        lemma_last_part(upper);
        let before = last_part(upper);
        lemma_parts_hold_no_slash(path, parts(pieces).len() - 1);
        if components(path) == seq!["/"@] {
            assert(components(path).last() == parts(pieces).last());
        }
        if before >= 0 {
            let kept = pieces.take(before + 1);
            assert(upper.take(before + 1) =~= kept);
            assert forall|i: int| 0 <= i < kept.len() implies !(#[trigger] kept[i]).contains(
                '/',
            ) by {
                assert(kept[i] == pieces[i]);
            }
            text::lemma_split_of_join(kept, '/');
            let dir = text::join(kept, "/"@);
            assert(text::split(dir, '/') == kept);
            lemma_first_piece(path);
            lemma_first_piece(dir);
            assert(kept[0] == pieces[0]);
            assert(dir.len() > 0) by {
                if dir.len() == 0 {
                    assert(dir =~= Seq::<char>::empty());
                    assert(kept =~= seq![Seq::<char>::empty()]);
                    reveal_with_fuel(parts, 2);
                    assert(kept.drop_last() =~= Seq::<Seq<char>>::empty());
                    assert(parts(kept).len() == 0);
                }
            }
            assert(rooted(dir) == rooted(path)) by {
                if rooted(path) && !rooted(dir) {
                    assert(kept[0].len() > 0);
                }
            }
            assert(components(dir) =~= components(path).drop_last());
        } else {
            assert(parts(upper) =~= Seq::<Seq<char>>::empty());
            reveal_with_fuel(text::split, 2);
            reveal_with_fuel(parts, 3);
            if rooted(path) {
                let two = text::split("/"@, '/');
                assert("/"@.drop_last() =~= Seq::<char>::empty());
                assert(two =~= seq![Seq::<char>::empty(), Seq::<char>::empty()]);
                assert(two.drop_last() =~= seq![Seq::<char>::empty()]);
                assert(two.drop_last().drop_last() =~= Seq::<Seq<char>>::empty());
                assert(components("/"@) =~= seq!["/"@]);
                assert(components(path).drop_last() =~= seq!["/"@]);
            } else {
                let one = text::split(Seq::<char>::empty(), '/');
                assert(one =~= seq![Seq::<char>::empty()]);
                assert(one.drop_last() =~= Seq::<Seq<char>>::empty());
                assert(components(Seq::<char>::empty()) =~= Seq::<Seq<char>>::empty());
                assert(components(path).drop_last() =~= Seq::<Seq<char>>::empty());
            }
        }
    }
}

/// The first piece of a path is empty exactly where the path is empty or starts at the root.
proof fn lemma_first_piece(path: Seq<char>)
    ensures
        text::split(path, '/').len() >= 1,
        path.len() > 0 && path[0] == '/' ==> text::split(path, '/').len() >= 2,
        (text::split(path, '/')[0].len() == 0) == (path.len() == 0 || path[0] == '/'),
    decreases path.len(),
{
    if path.len() > 0 {
        let rest = path.drop_last();
        lemma_first_piece(rest);
        text::lemma_split_nonempty(rest, '/');
        if rest.len() > 0 {
            assert(rest[0] == path[0]);
        } else {
            assert(text::split(rest, '/') =~= seq![Seq::<char>::empty()]);
        }
    }
}

/// A path lies below itself and below every path above it, and below no other: it lies
/// below a path exactly where it is that path or its parent lies below it.
pub proof fn lemma_below_is_upward(path: Seq<char>, base: Seq<char>)
    ensures
        below(path, path),
        below(path, base) && !same(path, base) ==> parent(path) is Some || base.len() == 0
            || components(base).len() == 0,
        parent(path) matches Some(dir) ==> below(path, base) == (same(path, base) || below(
            dir,
            base,
        )),
{
    let own = components(path);
    let other = components(base);
    assert(own.subrange(0, own.len() as int) =~= own);
    lemma_parent_drops_the_last(path);
    if other.is_prefix_of(own) && other.len() == own.len() {
        assert(other =~= own);
    }
    if let Some(dir) = parent(path) {
        let up = components(dir);
        if other.is_prefix_of(own) && other.len() < own.len() {
            assert(up.subrange(0, other.len() as int) =~= own.subrange(0, other.len() as int));
        }
        if other.is_prefix_of(up) {
            assert(own.subrange(0, other.len() as int) =~= up.subrange(0, other.len() as int));
        }
    } else if other.is_prefix_of(own) && other.len() < own.len() {
        assert(own.len() == 1);
    }
}

/// A relative symlink is read from the directory that holds it, and an absolute one by
/// itself.
pub proof fn lemma_link_is_read_from_its_directory(
    dir: Seq<char>,
    name: Seq<char>,
    held: Seq<char>,
)
    requires
        is_name(name),
        components(dir).len() > 0,
    ensures
        rooted(held) ==> link_destination(joined(dir, name), held) == held,
        is_name(held) ==> same(link_destination(joined(dir, name), held), joined(dir, held)),
{
    lemma_joined_components(dir, name);
    let link = joined(dir, name);
    lemma_parent_drops_the_last(link);
    assert(components(link).drop_last() =~= components(dir));
    if is_name(held) {
        assert(held.contains(held[0]));
        let up = parent(link)->0;
        lemma_joined_components(up, held);
        lemma_joined_components(dir, held);
    }
}

// ---------------------------------------------------------------------------
// What the lexical normal form amounts to

/// Whether a list is in normal form: no `.`, and `..` only in front or behind another `..`.
pub open spec fn is_lexical(list: Seq<Seq<char>>) -> bool {
    forall|i: int|
        0 <= i < list.len() ==> #[trigger] list[i] != "."@ && (list[i] == ".."@ ==> i == 0 || list[i
            - 1] == ".."@)
}

/// The normal form of every list is in normal form, and a list in normal form stays.
pub proof fn lemma_lexical_is_normal(list: Seq<Seq<char>>)
    ensures
        is_lexical(lexical(list)),
        is_lexical(list) ==> lexical(list) == list,
        lexical(lexical(list)) == lexical(list),
    decreases list.len(),
{
    lemma_lexical_form(list);
    lemma_lexical_stays(list);
    lemma_lexical_stays(lexical(list));
}

proof fn lemma_lexical_form(list: Seq<Seq<char>>)
    ensures
        is_lexical(lexical(list)),
    decreases list.len(),
{
    reveal_strlit(".");
    reveal_strlit("..");
    assert("."@.len() != ".."@.len());
    if list.len() > 0 {
        lemma_lexical_form(list.drop_last());
        let before = lexical(list.drop_last());
        let now = lexical(list);
        assert forall|i: int| 0 <= i < now.len() implies #[trigger] now[i] != "."@ && (now[i]
            == ".."@ ==> i == 0 || now[i - 1] == ".."@) by {
            if i < before.len() {
                assert(now[i] == before[i]);
                if i > 0 {
                    assert(now[i - 1] == before[i - 1]);
                }
            } else if i > 0 {
                assert(now[i - 1] == before[i - 1]);
            }
        }
    }
}

proof fn lemma_lexical_stays(list: Seq<Seq<char>>)
    ensures
        is_lexical(list) ==> lexical(list) == list,
    decreases list.len(),
{
    if list.len() > 0 && is_lexical(list) {
        let rest = list.drop_last();
        assert(is_lexical(rest)) by {
            assert forall|i: int| 0 <= i < rest.len() implies #[trigger] rest[i] != "."@ && (rest[i]
                == ".."@ ==> i == 0 || rest[i - 1] == ".."@) by {
                assert(rest[i] == list[i]);
                if i > 0 {
                    assert(rest[i - 1] == list[i - 1]);
                }
            }
        }
        lemma_lexical_stays(rest);
        let n = list.len() - 1;
        assert(list[n] != "."@);
        if list[n] == ".."@ && n > 0 {
            assert(list[n - 1] == ".."@);
            assert(rest.last() == list[n - 1]);
        }
        assert(rest.push(list.last()) =~= list);
    }
}

/// Going into a directory and back up, and staying where one is, changes nothing, and
/// nothing lies above the root.
pub proof fn lemma_up_undoes_down(list: Seq<Seq<char>>, name: Seq<char>)
    requires
        name != "."@,
        name != ".."@,
        name != "/"@,
    ensures
        lexical(list.push(name).push(".."@)) == lexical(list),
        lexical(list.push(name)) == lexical(list).push(name),
        lexical(list.push("."@)) == lexical(list),
        lexical(seq!["/"@, ".."@]) == seq!["/"@],
{
    reveal_strlit(".");
    reveal_strlit("..");
    reveal_strlit("/");
    assert("."@.len() != ".."@.len());
    assert("/"@[0] != "."@[0]);
    assert("/"@.len() != ".."@.len());
    assert(list.push(name).push(".."@).drop_last() =~= list.push(name));
    assert(list.push(name).drop_last() =~= list);
    assert(list.push("."@).drop_last() =~= list);
    assert(lexical(list.push(name)) =~= lexical(list).push(name));
    assert(lexical(list).push(name).drop_last() =~= lexical(list));
    let root = seq!["/"@];
    assert(seq!["/"@, ".."@].drop_last() =~= root);
    assert(root.drop_last() =~= Seq::<Seq<char>>::empty());
    reveal_with_fuel(lexical, 3);
    assert(lexical(root) =~= root);
}

/// A path lies under itself; what is joined to a path by names lies under it; and a path
/// in normal form lies under no path with a component that it does not share.
pub proof fn lemma_under(path: Seq<char>, root: Seq<char>, name: Seq<char>)
    requires
        is_name(name),
        name != ".."@,
    ensures
        under(path, path),
        under(path, root) ==> under(joined(path, name), root),
        under(path, root) <==> lexical(components(root)).len() <= lexical(components(path)).len()
            && forall|i: int|
            0 <= i < lexical(components(root)).len() ==> lexical(components(root))[i] == (
            #[trigger] lexical(components(path))[i]),
{
    reveal_strlit("/");
    assert("/"@[0] == '/');
    assert("/"@.contains('/'));
    let own = lexical(components(path));
    let base = lexical(components(root));
    assert(own.subrange(0, own.len() as int) =~= own);
    lemma_joined_components(path, name);
    lemma_up_undoes_down(components(path), name);
    let more = own.push(name);
    if base.is_prefix_of(own) {
        assert(more.subrange(0, base.len() as int) =~= own.subrange(0, base.len() as int));
        assert forall|i: int| 0 <= i < base.len() implies base[i] == (#[trigger] own[i]) by {
            assert(own.subrange(0, base.len() as int)[i] == own[i]);
        }
    } else if base.len() <= own.len() {
        if forall|i: int| 0 <= i < base.len() ==> base[i] == (#[trigger] own[i]) {
            assert(own.subrange(0, base.len() as int) =~= base);
        }
    }
}

proof fn lemma_parts_come_in_order(pieces: Seq<Seq<char>>, i: int)
    requires
        0 <= i < parts(pieces).len(),
    ensures
        exists|k: int|
            i <= k < pieces.len() && is_part(pieces, k) && #[trigger] pieces[k] == parts(pieces)[i],
        parts(pieces).len() <= pieces.len(),
    decreases pieces.len(),
{
    let rest = pieces.drop_last();
    let before = parts(rest);
    lemma_parts_are_few(rest);
    if is_part(pieces, pieces.len() - 1) && i == before.len() {
        assert(pieces[pieces.len() - 1] == parts(pieces)[i]);
    } else {
        lemma_parts_come_in_order(rest, i);
        let k = choose|k: int|
            i <= k < rest.len() && is_part(rest, k) && #[trigger] rest[k] == parts(rest)[i];
        assert(pieces[k] == rest[k]);
        assert(is_part(pieces, k));
    }
}

proof fn lemma_parts_are_few(pieces: Seq<Seq<char>>)
    ensures
        parts(pieces).len() <= pieces.len(),
    decreases pieces.len(),
{
    if pieces.len() > 0 {
        lemma_parts_are_few(pieces.drop_last());
    }
}

/// Every component but the first is a name.
pub proof fn lemma_component_is_name(path: Seq<char>, i: int)
    requires
        1 <= i < components(path).len(),
    ensures
        is_name(components(path)[i]),
{
    let pieces = text::split(path, '/');
    let at: int = if rooted(path) {
        i - 1
    } else {
        i
    };
    lemma_parts_come_in_order(pieces, at);
    let k = choose|k: int|
        at <= k < pieces.len() && is_part(pieces, k) && #[trigger] pieces[k] == parts(pieces)[at];
    lemma_first_piece(path);
    text::lemma_pieces_are_apart(path, '/');
    assert(components(path)[i] == pieces[k]);
    assert(k > 0) by {
        if k == 0 && rooted(path) {
            assert(pieces[0].len() == 0);
        }
    }
}

proof fn lemma_all_parts(list: Seq<Seq<char>>)
    requires
        forall|i: int| 0 <= i < list.len() ==> is_name(#[trigger] list[i]),
    ensures
        parts(list) == list,
    decreases list.len(),
{
    if list.len() > 0 {
        let rest = list.drop_last();
        assert forall|i: int| 0 <= i < rest.len() implies is_name(#[trigger] rest[i]) by {
            assert(rest[i] == list[i]);
        }
        lemma_all_parts(rest);
        assert(is_name(list[list.len() - 1]));
        assert(rest.push(list.last()) =~= list);
    }
}

/// Names that are joined by slashes are the components of that text.
pub proof fn lemma_names_are_components(list: Seq<Seq<char>>)
    requires
        list.len() > 0,
        forall|i: int| 0 <= i < list.len() ==> is_name(#[trigger] list[i]),
    ensures
        components(text::join(list, "/"@)) == list,
{
    reveal_strlit("/");
    assert("/"@ =~= seq!['/']);
    assert forall|i: int| 0 <= i < list.len() implies !(#[trigger] list[i]).contains('/') by {
        assert(is_name(list[i]));
    }
    text::lemma_split_of_join(list, '/');
    lemma_all_parts(list);
    let whole = text::join(list, "/"@);
    lemma_first_piece(whole);
    assert(is_name(list[0]));
}

/// Paths in one directory are ordered by their names, and a directory comes before what is
/// in it.
pub proof fn lemma_paths_are_ordered_by_name(base: Seq<char>, a: Seq<char>, b: Seq<char>)
    requires
        is_name(a),
        is_name(b),
        a != ".."@,
        b != ".."@,
        order::text_before(a, b),
    ensures
        path_before(joined(base, a), joined(base, b)),
        path_before(base, joined(base, a)),
{
    reveal_strlit("/");
    reveal_strlit("3");
    assert("/"@[0] == '/');
    assert("/"@.contains('/'));
    lemma_joined_components(base, a);
    lemma_joined_components(base, b);
    let start = path_key(base);
    let x = component_key(a);
    let y = component_key(b);
    assert(path_key(joined(base, a)) =~= start + seq![x]);
    assert(path_key(joined(base, b)) =~= start + seq![y]);
    assert(x == "3"@ + a && y == "3"@ + b);
    assert(x.skip(1) =~= a && y.skip(1) =~= b);
    assert(order::text_before(x, y));
    order::lemma_first_text_decides(start, seq![x], seq![y]);
    let none = Seq::<Seq<char>>::empty();
    order::lemma_first_text_decides(start, none, seq![x]);
    assert(start + none =~= start);
}

/// The root comes before `.`, that before `..`, and that before every name.
pub proof fn lemma_order_of_components(name: Seq<char>)
    requires
        name != "/"@,
        name != "."@,
        name != ".."@,
    ensures
        order::text_before(component_key("/"@), component_key("."@)),
        order::text_before(component_key("."@), component_key(".."@)),
        order::text_before(component_key(".."@), component_key(name)),
{
    reveal_strlit("0");
    reveal_strlit("1");
    reveal_strlit("2");
    reveal_strlit("3");
    reveal_strlit("/");
    reveal_strlit(".");
    reveal_strlit("..");
    assert("/"@[0] != "."@[0]);
    assert("/"@[0] != ".."@[0]);
    assert("."@.len() != ".."@.len());
    let none = Seq::<char>::empty();
    let r = component_key("/"@);
    let d = component_key("."@);
    let u = component_key(".."@);
    let n = component_key(name);
    order::lemma_first_difference_decides(none, r, d);
    order::lemma_first_difference_decides(none, d, u);
    order::lemma_first_difference_decides(none, u, n);
    assert(none + r =~= r && none + d =~= d && none + u =~= u && none + n =~= n);
}

} // verus!
