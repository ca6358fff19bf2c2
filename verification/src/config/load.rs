//! Where a configuration is looked for, and the `.env` files beside it.

use vstd::prelude::*;
use crate::config::secrets;
use crate::paths;
use crate::tables::TextMap;
use crate::text;

verus! {

/// The files that may hold the configuration, in the order in which they are
/// tried: the given one alone; else the one that the environment names, and the
/// usual places.
pub open spec fn config_places(given: Option<Seq<char>>, named: Option<Seq<char>>) -> Seq<
    Seq<char>,
> {
    match given {
        Some(path) => seq![path],
        None => (match named {
            Some(path) => text::when(text::trim(path).len() > 0, text::trim(path)),
            None => Seq::<Seq<char>>::empty(),
        }) + seq!["config.yaml"@, "/app/config/config.yaml"@],
    }
}

/// The files that may hold the configuration; `env_path` is what the
/// environment names.
pub fn candidate_config_paths(path: Option<String>, env_path: Option<&str>) -> (out: Vec<String>)
    ensures
        text::views(out@) == config_places(secrets::opt_text(path), secrets::opt_view(env_path)),
{
    let mut out: Vec<String> = Vec::new();
    assert(text::views(out@) =~= Seq::<Seq<char>>::empty());
    if let Some(given) = path {
        out.push(given);
        assert(text::views(out@) =~= seq![given@]);
        return out;
    }
    if let Some(named) = env_path {
        let trimmed = text::trimmed(named);
        text::note_when(&mut out, !trimmed.as_str().is_empty(), trimmed.as_str());
    }
    text::note_when(&mut out, true, "config.yaml");
    text::note_when(&mut out, true, "/app/config/config.yaml");
    assert(text::views(out@) =~= config_places(
        secrets::opt_text(path),
        secrets::opt_view(env_path),
    ));
    out
}

/// Whether the list names the path.
pub open spec fn lists_path(list: Seq<Seq<char>>, path: Seq<char>) -> bool {
    exists|i: int| 0 <= i < list.len() && paths::same(#[trigger] list[i], path)
}

/// The list with the path behind it, unless it names it already.
pub open spec fn with_path(list: Seq<Seq<char>>, path: Seq<char>) -> Seq<Seq<char>> {
    if lists_path(list, path) {
        list
    } else {
        list.push(path)
    }
}

/// Appends a path unless the list names it already.
pub fn push_unique_path(list: &mut Vec<String>, path: String)
    ensures
        text::views(final(list)@) == with_path(text::views(old(list)@), path@),
{
    let ghost before = text::views(list@);
    let mut i: usize = 0;
    while i < list.len()
        invariant
            i <= list@.len(),
            before == text::views(list@),
            forall|k: int| 0 <= k < i ==> !paths::same(#[trigger] before[k], path@),
        decreases list@.len() - i,
    {
        assert(before[i as int] == list@[i as int]@);
        if paths::same_path(list[i].as_str(), path.as_str()) {
            assert(lists_path(before, path@));
            return;
        }
        i += 1;
    }
    list.push(path);
    assert(text::views(list@) =~= before.push(path@));
}

/// The `.env` files for a configuration file: those beside it before those of
/// the working directory.
pub open spec fn dotenv_places(config_path: Seq<char>) -> Seq<Seq<char>> {
    let beside = match paths::parent(config_path) {
        Some(dir) => with_path(
            seq![paths::joined(dir, ".env"@)],
            paths::joined(dir, ".env.local"@),
        ),
        None => Seq::<Seq<char>>::empty(),
    };
    with_path(with_path(beside, ".env"@), ".env.local"@)
}

/// The `.env` files for a configuration file.
pub fn candidate_dotenv_paths(config_path: &str) -> (out: Vec<String>)
    ensures
        text::views(out@) == dotenv_places(config_path@),
{
    let mut out: Vec<String> = Vec::new();
    assert(text::views(out@) =~= Seq::<Seq<char>>::empty());
    if let Some(dir) = paths::parent_of(config_path) {
        push_unique_path(&mut out, paths::join(dir.as_str(), ".env"));
        assert(text::views(out@) =~= seq![paths::joined(dir@, ".env"@)]);
        push_unique_path(&mut out, paths::join(dir.as_str(), ".env.local"));
    }
    push_unique_path(&mut out, ".env".to_owned());
    push_unique_path(&mut out, ".env.local".to_owned());
    out
}

// ---------------------------------------------------------------------------
// Environment files

/// The value without the quotes around it.
pub open spec fn unquoted(raw: Seq<char>) -> Seq<char> {
    if raw.len() >= 2 && raw[0] == raw.last() && (raw[0] == '"' || raw[0] == '\'') {
        raw.subrange(1, raw.len() - 1)
    } else {
        raw
    }
}

/// Removes the quotes around a value.
pub fn parse_dotenv_value(raw: &str) -> (out: String)
    ensures
        out@ == unquoted(raw@),
{
    let chars = text::chars_of(raw);
    let n = chars.len();
    if n >= 2 && chars[0] == chars[n - 1] && (chars[0] == '"' || chars[0] == '\'') {
        text::text_between(&chars, 1, n - 1)
    } else {
        raw.to_owned()
    }
}

/// A line of an environment file.
pub enum DotenvLine {
    /// A comment, or nothing.
    Blank,
    /// A name and its value.
    Entry(Seq<char>, Seq<char>),
    /// No `=`.
    NoValue,
    /// Nothing before the `=`.
    NoName,
}

/// How a line is read.
pub open spec fn dotenv_line(raw: Seq<char>) -> DotenvLine {
    let line = text::trim(raw);
    let body = if text::begins(line, "export "@) {
        line.skip("export "@.len() as int)
    } else {
        line
    };
    let at = text::first_of(body, '=');
    if line.len() == 0 || line[0] == '#' {
        DotenvLine::Blank
    } else if at >= body.len() {
        DotenvLine::NoValue
    } else if text::trim(body.take(at)).len() == 0 {
        DotenvLine::NoName
    } else {
        DotenvLine::Entry(
            text::trim(body.take(at)),
            unquoted(text::trim(body.skip(at + 1))),
        )
    }
}

/// What reading the first `n` lines leads to: the variables and how many were
/// added, or the number of the line that cannot be read and whether its name is
/// missing. A variable that the shell or an earlier line sets keeps its value.
pub open spec fn dotenv_read(
    lines: Seq<Seq<char>>,
    n: int,
    shell: Seq<Seq<char>>,
    start: Map<Seq<char>, Seq<char>>,
) -> Result<(Map<Seq<char>, Seq<char>>, nat), (nat, bool)>
    decreases n,
{
    if n <= 0 {
        Ok((start, 0))
    } else {
        match dotenv_read(lines, n - 1, shell, start) {
            Err(e) => Err(e),
            Ok((vars, added)) => match dotenv_line(lines[n - 1]) {
                DotenvLine::Blank => Ok((vars, added)),
                DotenvLine::NoValue => Err((n as nat, false)),
                DotenvLine::NoName => Err((n as nat, true)),
                DotenvLine::Entry(name, value) => if shell.contains(name) || vars.contains_key(
                    name,
                ) {
                    Ok((vars, added))
                } else {
                    Ok((vars.insert(name, value), added + 1))
                },
            },
        }
    }
}

/// The message for a line that cannot be read.
pub open spec fn dotenv_message(path: Seq<char>, error: (nat, bool)) -> Seq<char> {
    (if error.1 {
        "Invalid .env key in "@
    } else {
        "Invalid .env entry in "@
    }) + path + " at line "@ + text::decimal(error.0)
}

proof fn lemma_dotenv_error(
    lines: Seq<Seq<char>>,
    at: int,
    n: int,
    shell: Seq<Seq<char>>,
    start: Map<Seq<char>, Seq<char>>,
)
    requires
        0 <= at <= n,
        dotenv_read(lines, at, shell, start) is Err,
    ensures
        dotenv_read(lines, n, shell, start) == dotenv_read(lines, at, shell, start),
    decreases n,
{
    if n > at {
        lemma_dotenv_error(lines, at, n - 1, shell, start);
    }
}

fn lists(names: &Vec<String>, name: &str) -> (b: bool)
    ensures
        b == text::views(names@).contains(name@),
{
    let ghost all = text::views(names@);
    let mut i: usize = 0;
    while i < names.len()
        invariant
            i <= names@.len(),
            all == text::views(names@),
            forall|k: int| 0 <= k < i ==> #[trigger] all[k] != name@,
        decreases names@.len() - i,
    {
        assert(all[i as int] == names@[i as int]@);
        if text::text_eq(names[i].as_str(), name) {
            assert(all.contains(name@));
            return true;
        }
        i += 1;
    }
    false
}

/// Reads the text of an environment file into `overlay` and tells how many
/// variables it added. `shell` lists the variables that the process has. At a line that
/// cannot be read, what the lines before it added stays.
pub fn load_dotenv_file(
    path: &str,
    content: &str,
    shell: &Vec<String>,
    overlay: &mut TextMap<String>,
) -> (out: Result<usize, String>)
    requires
        old(overlay).wf(),
    ensures
        final(overlay).wf(),
        ({
            let lines = text::split(content@, '\n');
            match dotenv_read(
                lines,
                lines.len() as int,
                text::views(shell@),
                secrets::overlay_texts(*old(overlay)),
            ) {
                Ok((vars, added)) => out is Ok && out->Ok_0 == added && secrets::overlay_texts(
                    *final(overlay),
                ) == vars,
                Err(error) => {
                    let before = dotenv_read(
                        lines,
                        error.0 - 1,
                        text::views(shell@),
                        secrets::overlay_texts(*old(overlay)),
                    );
                    out is Err && out->Err_0@ == dotenv_message(path@, error) && before is Ok
                        && secrets::overlay_texts(*final(overlay)) == before->Ok_0.0
                },
            }
        }),
{
    let lines = text::split_text(content, '\n');
    let ghost all = text::split(content@, '\n');
    let ghost names = text::views(shell@);
    let ghost start = secrets::overlay_texts(*overlay);
    let mut loaded: usize = 0;
    let mut i: usize = 0;
    assert(all.len() == lines@.len());
    while i < lines.len()
        invariant
            i <= lines@.len(),
            text::views(lines@) == all,
            names == text::views(shell@),
            overlay.wf(),
            loaded <= i,
            dotenv_read(all, i as int, names, start) == Ok::<
                (Map<Seq<char>, Seq<char>>, nat),
                (nat, bool),
            >((secrets::overlay_texts(*overlay), loaded as nat)),
            all == text::split(content@, '\n'),
            start == secrets::overlay_texts(*old(overlay)),
        decreases lines@.len() - i,
    {
        assert(all[i as int] == lines@[i as int]@);
        let number: u64 = i as u64 + 1;
        let line = text::trimmed(lines[i].as_str());
        if !line.as_str().is_empty() && !text::begins_with(line.as_str(), "#") {
            proof {
                reveal_strlit("#");
                assert("#"@ =~= seq!['#']);
                assert(line@[0] != '#') by {
                    if line@[0] == '#' {
                        assert(line@.subrange(0, 1) =~= "#"@);
                    }
                }
            }
            let body = match text::without_prefix(line.as_str(), "export ") {
                Some(rest) => rest,
                None => line,
            };
            let chars = text::chars_of(body.as_str());
            let at = text::find_char(&chars, '=');
            if at == chars.len() {
                proof {
                    lemma_dotenv_error(all, i + 1, all.len() as int, names, start);
                }
                return Err(
                    text::concat4(
                        "Invalid .env entry in ",
                        path,
                        " at line ",
                        text::decimal_text(number).as_str(),
                    ),
                );
            }
            let key_text = text::text_between(&chars, 0, at);
            assert(key_text@ =~= body@.take(at as int));
            let key = text::trimmed(key_text.as_str());
            if key.as_str().is_empty() {
                proof {
                    lemma_dotenv_error(all, i + 1, all.len() as int, names, start);
                }
                return Err(
                    text::concat4(
                        "Invalid .env key in ",
                        path,
                        " at line ",
                        text::decimal_text(number).as_str(),
                    ),
                );
            }
            if !lists(shell, key.as_str()) && overlay.get(key.as_str()).is_none() {
                let rest = text::text_between(&chars, at + 1, chars.len());
                assert(rest@ =~= body@.skip(at + 1));
                let value = parse_dotenv_value(text::trimmed(rest.as_str()).as_str());
                let ghost before = secrets::overlay_texts(*overlay);
                let ghost put = value@;
                overlay.insert(key.as_str(), value);
                loaded += 1;
                assert(secrets::overlay_texts(*overlay) =~= before.insert(key@, put));
            }
        } else {
            proof {
                if line@.len() > 0 {
                    reveal_strlit("#");
                    assert(line@.subrange(0, 1)[0] == '#');
                }
            }
        }
        i += 1;
    }
    Ok(loaded)
}

// ---------------------------------------------------------------------------
// Which files are read, and what they say

/// A configuration that is given is the only one looked for; else the one that the
/// environment names comes before the usual places, unless its name is blank.
pub proof fn lemma_given_configuration_wins(given: Option<Seq<char>>, named: Option<Seq<char>>)
    ensures
        given matches Some(path) ==> config_places(given, named) == seq![path],
        given is None ==> ({
            let places = config_places(given, named);
            let usual = seq!["config.yaml"@, "/app/config/config.yaml"@];
            &&& places.len() >= 2 && places.skip(places.len() - 2) == usual
            &&& places.len() == 3 <==> (named matches Some(path) && text::trim(path).len() > 0)
            &&& places.len() <= 3
            &&& places.len() == 3 ==> places[0] == text::trim(named->0)
        }),
{
    if given is None {
        let places = config_places(given, named);
        let usual = seq!["config.yaml"@, "/app/config/config.yaml"@];
        assert(places.skip(places.len() - 2) =~= usual);
    }
}

/// A list names a path once it was added, keeps what it had, and grows only by a path that
/// it did not name.
pub proof fn lemma_paths_are_listed_once(list: Seq<Seq<char>>, path: Seq<char>)
    ensures
        list.is_prefix_of(with_path(list, path)),
        exists|i: int|
            0 <= i < with_path(list, path).len() && paths::same(
                #[trigger] with_path(list, path)[i],
                path,
            ),
        with_path(list, path).len() > list.len() <==> forall|i: int|
            0 <= i < list.len() ==> !paths::same(#[trigger] list[i], path),
        with_path(with_path(list, path), path) == with_path(list, path),
{
    let now = with_path(list, path);
    assert(list.subrange(0, list.len() as int) =~= list);
    assert(now.subrange(0, list.len() as int) =~= list);
    if lists_path(list, path) {
        let i = choose|i: int| 0 <= i < list.len() && paths::same(#[trigger] list[i], path);
        assert(paths::same(now[i], path));
    } else {
        assert(now[list.len() as int] == path);
        assert(paths::same(now[list.len() as int], path));
    }
}

/// The environment files beside the configuration come before those of the working
/// directory, and `.env` before `.env.local`.
pub proof fn lemma_dotenv_files_beside_come_first(dir: Seq<char>, name: Seq<char>)
    requires
        paths::is_name(name),
        paths::components(dir).len() > 0,
    ensures
        ({
            let places = dotenv_places(paths::joined(dir, name));
            &&& places.len() == 4
            &&& paths::same(places[0], paths::joined(dir, ".env"@))
            &&& paths::same(places[1], paths::joined(dir, ".env.local"@))
            &&& places[2] == ".env"@
            &&& places[3] == ".env.local"@
        }),
{
    reveal_strlit(".env");
    reveal_strlit(".env.local");
    reveal_strlit(".");
    let a = ".env"@;
    let b = ".env.local"@;
    assert(paths::is_name(a) && paths::is_name(b));
    assert(a.len() != b.len());
    let none = Seq::<char>::empty();
    paths::lemma_joined_components(dir, name);
    let config = paths::joined(dir, name);
    paths::lemma_parent_drops_the_last(config);
    assert(paths::components(config).drop_last() =~= paths::components(dir));
    let up = paths::parent(config)->0;
    let x = paths::joined(up, a);
    let y = paths::joined(up, b);
    paths::lemma_joined_components(up, a);
    paths::lemma_joined_components(up, b);
    paths::lemma_joined_components(dir, a);
    paths::lemma_joined_components(dir, b);
    paths::lemma_joined_components(none, a);
    paths::lemma_joined_components(none, b);
    assert(none + a =~= a && none + b =~= b);
    paths::lemma_joined_paths_differ(up, a, up, b);
    paths::lemma_joined_paths_differ(none, a, none, b);
    assert(paths::components(none) =~= Seq::<Seq<char>>::empty()) by {
        reveal_with_fuel(text::split, 1);
        reveal_with_fuel(paths::parts, 2);
        assert(text::split(none, '/') =~= seq![none]);
        assert(seq![none].drop_last() =~= Seq::<Seq<char>>::empty());
    }
    assert(paths::components(a).len() == 1 && paths::components(b).len() == 1);
    assert(paths::components(x).len() >= 2 && paths::components(y).len() >= 2);
    let one = seq![x];
    assert(!lists_path(one, y)) by {
        if lists_path(one, y) {
            assert(paths::same(x, y));
        }
    }
    let two = one.push(y);
    assert(!lists_path(two, a)) by {
        if lists_path(two, a) {
            let i = choose|i: int| 0 <= i < two.len() && paths::same(#[trigger] two[i], a);
            assert(two[i] == x || two[i] == y);
        }
    }
    let three = two.push(a);
    assert(!lists_path(three, b)) by {
        if lists_path(three, b) {
            let i = choose|i: int| 0 <= i < three.len() && paths::same(#[trigger] three[i], b);
            assert(three[i] == x || three[i] == y || three[i] == a);
        }
    }
}

/// Quotes go only in pairs: a value in quotes of one kind loses both, every other keeps all
/// it has.
pub proof fn lemma_quotes_go_in_pairs(inside: Seq<char>, quote: char, other: char)
    requires
        quote == '"' || quote == '\'',
        other != quote,
    ensures
        unquoted(seq![quote] + inside + seq![quote]) == inside,
        unquoted(seq![quote] + inside + seq![other]) == seq![quote] + inside + seq![other],
        inside.len() > 0 && inside[0] != '"' && inside[0] != '\'' ==> unquoted(inside) == inside,
{
    let a = seq![quote] + inside + seq![quote];
    assert(a.subrange(1, a.len() - 1) =~= inside);
    assert(a.last() == quote);
    let b = seq![quote] + inside + seq![other];
    assert(b.last() == other);
}

proof fn lemma_first_of(t: Seq<char>, c: char, at: int)
    requires
        0 <= at <= t.len(),
        forall|i: int| 0 <= i < at ==> #[trigger] t[i] != c,
        at < t.len() ==> t[at] == c,
    ensures
        text::first_of(t, c) == at,
    decreases at,
{
    if at > 0 {
        assert(t[0] != c);
        let rest = t.skip(1);
        assert forall|i: int| 0 <= i < at - 1 implies #[trigger] rest[i] != c by {
            assert(rest[i] == t[i + 1]);
        }
        lemma_first_of(rest, c, at - 1);
    }
}

/// A line is a name, `=` and a value, each trimmed, and the value without its quotes; a
/// blank line and a comment say nothing, a line without `=` and one without a name are
/// errors.
pub proof fn lemma_dotenv_lines(raw: Seq<char>, name: Seq<char>, value: Seq<char>)
    requires
        text::trim(raw) == name + seq!['='] + value,
        !name.contains('='),
        name.len() > 0 ==> name[0] != '#',
        !text::begins(text::trim(raw), "export "@),
    ensures
        text::trim(name).len() > 0 ==> dotenv_line(raw) == DotenvLine::Entry(
            text::trim(name),
            unquoted(text::trim(value)),
        ),
        text::trim(name).len() == 0 ==> dotenv_line(raw) is NoName,
{
    let line = text::trim(raw);
    let at = name.len() as int;
    assert forall|i: int| 0 <= i < at implies #[trigger] line[i] != '=' by {
        assert(line[i] == name[i]);
        assert(name.contains(name[i]));
    }
    assert(line[at] == '=');
    lemma_first_of(line, '=', at);
    assert(line.take(at) =~= name);
    assert(line.skip(at + 1) =~= value);
    if name.len() > 0 {
        assert(line[0] == name[0]);
    }
}

/// A leading `export` changes nothing.
pub proof fn lemma_export_changes_nothing(raw: Seq<char>, name: Seq<char>, value: Seq<char>)
    requires
        text::trim(raw) == "export "@ + name + seq!['='] + value,
        !name.contains('='),
        text::trim(name).len() > 0,
    ensures
        dotenv_line(raw) == DotenvLine::Entry(text::trim(name), unquoted(text::trim(value))),
{
    reveal_strlit("export ");
    let line = text::trim(raw);
    let n = "export "@.len() as int;
    assert(line.subrange(0, n) =~= "export "@);
    assert(line[0] == "export "@[0]);
    let body = line.skip(n);
    let at = name.len() as int;
    assert(body =~= name + seq!['='] + value);
    assert forall|i: int| 0 <= i < at implies #[trigger] body[i] != '=' by {
        assert(body[i] == name[i]);
        assert(name.contains(name[i]));
    }
    assert(body[at] == '=');
    lemma_first_of(body, '=', at);
    assert(body.take(at) =~= name);
    assert(body.skip(at + 1) =~= value);
}

/// Blank lines and comments say nothing, and any other line without `=` is an error.
pub proof fn lemma_lines_without_value(raw: Seq<char>)
    ensures
        dotenv_line(raw) is Blank <==> text::trim(raw).len() == 0 || text::trim(raw)[0] == '#',
        !text::trim(raw).contains('=') ==> dotenv_line(raw) is Blank || dotenv_line(raw)
            is NoValue,
{
    reveal_strlit("export ");
    let line = text::trim(raw);
    if !line.contains('=') {
        let body = if text::begins(line, "export "@) {
            line.skip("export "@.len() as int)
        } else {
            line
        };
        assert forall|i: int| 0 <= i < body.len() implies #[trigger] body[i] != '=' by {
            if text::begins(line, "export "@) {
                assert(body[i] == line[i + "export "@.len()]);
                assert(line.contains(line[i + "export "@.len()]));
            } else {
                assert(line.contains(line[i]));
            }
        }
        lemma_first_of(body, '=', body.len() as int);
    }
}

/// A variable keeps its first value: what was set before stays, what the process has is
/// never set, and each variable that is added is counted.
pub proof fn lemma_first_value_stays(
    lines: Seq<Seq<char>>,
    n: int,
    shell: Seq<Seq<char>>,
    start: Map<Seq<char>, Seq<char>>,
    name: Seq<char>,
)
    requires
        0 <= n <= lines.len(),
        start.dom().finite(),
    ensures
        dotenv_read(lines, n, shell, start) matches Ok((vars, added)) ==> {
            &&& start.contains_key(name) ==> vars.contains_key(name) && vars[name] == start[name]
            &&& shell.contains(name) && !start.contains_key(name) ==> !vars.contains_key(name)
            &&& vars.dom().finite() && vars.dom().len() == start.dom().len() + added
            &&& vars.contains_key(name) && !start.contains_key(name) ==> exists|k: int|
                #![trigger lines[k]]
                0 <= k < n && (dotenv_line(lines[k]) matches DotenvLine::Entry(key, value) && key
                    == name && value == vars[name])
        },
    decreases n,
{
    if n > 0 {
        lemma_first_value_stays(lines, n - 1, shell, start, name);
        if let Ok((vars, added)) = dotenv_read(lines, n, shell, start) {
            if let Ok((before, count)) = dotenv_read(lines, n - 1, shell, start) {
                if vars.contains_key(name) && !start.contains_key(name) {
                    if before.contains_key(name) {
                        let k = choose|k: int|
                            #![trigger lines[k]]
                            0 <= k < n - 1 && (dotenv_line(lines[k]) matches DotenvLine::Entry(
                                key,
                                value,
                            ) && key == name && value == before[name]);
                        assert(0 <= k < n);
                    } else {
                        assert(dotenv_line(lines[n - 1]) is Entry);
                    }
                }
            }
        }
    }
}

/// The first line that cannot be read is the one that is reported, with its number and
/// whether its name is missing.
pub proof fn lemma_first_bad_line_is_reported(
    lines: Seq<Seq<char>>,
    n: int,
    shell: Seq<Seq<char>>,
    start: Map<Seq<char>, Seq<char>>,
)
    requires
        0 <= n <= lines.len(),
    ensures
        dotenv_read(lines, n, shell, start) is Ok <==> forall|k: int|
            #![trigger lines[k]]
            0 <= k < n ==> dotenv_line(lines[k]) is Blank || dotenv_line(lines[k]) is Entry,
        dotenv_read(lines, n, shell, start) matches Err((number, unnamed)) ==> {
            &&& 1 <= number <= n
            &&& unnamed == (dotenv_line(lines[number - 1]) is NoName)
            &&& !unnamed == (dotenv_line(lines[number - 1]) is NoValue)
            &&& forall|k: int|
                #![trigger lines[k]]
                0 <= k < number - 1 ==> dotenv_line(lines[k]) is Blank || dotenv_line(lines[k])
                    is Entry
        },
    decreases n,
{
    if n > 0 {
        lemma_first_bad_line_is_reported(lines, n - 1, shell, start);
        let last = dotenv_line(lines[n - 1]);
        if dotenv_read(lines, n, shell, start) is Err && dotenv_read(lines, n - 1, shell, start)
            is Ok {
            assert(!(last is Blank || last is Entry));
        }
    }
}

/// The message for a line names the file and the number of the line, and tells a missing
/// name from a missing value.
pub proof fn lemma_bad_lines_are_told(path: Seq<char>, number: nat, unnamed: bool)
    ensures
        unnamed ==> dotenv_message(path, (number, unnamed)) == "Invalid .env key in "@ + path
            + " at line "@ + text::decimal(number),
        !unnamed ==> dotenv_message(path, (number, unnamed)) == "Invalid .env entry in "@ + path
            + " at line "@ + text::decimal(number),
{
}

} // verus!
