//! Looking up settings in a YAML document before it becomes a configuration.

use vstd::prelude::*;
use crate::config::RestoreConfigTargets;
use crate::config::defaults;
use crate::order;
use crate::paths;
use crate::text;

verus! {

/// A YAML value of `serde_yml`.
#[verifier::external_type_specification]
#[verifier::external_body]
pub struct ExYamlValue(serde_yml::Value);

/// An error of `serde_yml`.
#[verifier::external_type_specification]
#[verifier::external_body]
pub struct ExYamlError(serde_yml::Error);

/// What a YAML value holds: for each list of keys that leads from it to a
/// value, the string there, where it is one, the boolean there, where it is
/// one, and whether a mapping is there. The empty list leads to the value itself.
pub uninterp spec fn yaml_contents(value: serde_yml::Value) -> Map<
    Seq<Seq<char>>,
    (Option<Seq<char>>, Option<bool>, bool),
>;

/// What a YAML value holds inside its tags: the contents of the innermost value, where
/// the value itself is tagged, else its own.
pub uninterp spec fn yaml_untagged(value: serde_yml::Value) -> Map<
    Seq<Seq<char>>,
    (Option<Seq<char>>, Option<bool>, bool),
>;

/// The contents of the value that `serde_yml` reads from a text, and those inside its
/// tags, or `None` where it reports an error.
pub uninterp spec fn yaml_reading(document: Seq<char>) -> Option<
    (
        Map<Seq<Seq<char>>, (Option<Seq<char>>, Option<bool>, bool)>,
        Map<Seq<Seq<char>>, (Option<Seq<char>>, Option<bool>, bool)>,
    ),
>;

/// The contents of a YAML value.
pub type Contents = Map<Seq<Seq<char>>, (Option<Seq<char>>, Option<bool>, bool)>;

/// Whether the contents are those of a mapping.
pub open spec fn is_mapping(contents: Contents) -> bool {
    contents.contains_key(Seq::<Seq<char>>::empty()) && contents[Seq::<Seq<char>>::empty()].2
}

/// The contents below `key`.
pub open spec fn contents_below(contents: Contents, key: Seq<char>) -> Contents {
    Map::new(
        |path: Seq<Seq<char>>| contents.contains_key(seq![key] + path),
        |path: Seq<Seq<char>>| contents[seq![key] + path],
    )
}

/// The contents with those of another value in place of all that was below
/// `section` and `key`.
pub open spec fn contents_with(
    contents: Contents,
    section: Seq<char>,
    key: Seq<char>,
    other: Contents,
) -> Contents {
    Map::new(
        |path: Seq<Seq<char>>|
            if path.len() >= 2 && path[0] == section && path[1] == key {
                other.contains_key(path.skip(2))
            } else {
                contents.contains_key(path)
            },
        |path: Seq<Seq<char>>|
            if path.len() >= 2 && path[0] == section && path[1] == key {
                other[path.skip(2)]
            } else {
                contents[path]
            },
    )
}

/// `serde_yml::from_str` reads a document; the same text gives the same
/// contents.
#[verifier::external_body]
fn read_yaml(document: &str) -> (value: Result<serde_yml::Value, serde_yml::Error>)
    ensures
        match value {
            Ok(v) => yaml_reading(document@) == Some((yaml_contents(v), yaml_untagged(v))),
            Err(_) => yaml_reading(document@) is None,
        },
{
    serde_yml::from_str(document)
}

/// `Value::as_mapping` and `Mapping::get`: the value for a key, where the value
/// is a mapping that has it.
#[verifier::external_body]
fn yaml_child<'a>(value: &'a serde_yml::Value, key: &str) -> (child: Option<&'a serde_yml::Value>)
    ensures
        match child {
            Some(c) => yaml_contents(*value)[Seq::<Seq<char>>::empty()].2 && yaml_contents(
                *value,
            ).contains_key(seq![key@]) && yaml_contents(*c) == contents_below(
                yaml_contents(*value),
                key@,
            ),
            None => !yaml_contents(*value).contains_key(seq![key@]),
        },
{
    value.as_mapping()?.get(key)
}

/// `Value::as_str`: the string, where the value is one.
#[verifier::external_body]
fn yaml_text(value: &serde_yml::Value) -> (found: Option<&str>)
    ensures
        match found {
            Some(s) => yaml_contents(*value)[Seq::<Seq<char>>::empty()].0 == Some(s@),
            None => yaml_contents(*value)[Seq::<Seq<char>>::empty()].0 is None,
        },
{
    value.as_str()
}

/// `Value::as_bool`: the boolean, where the value is one.
#[verifier::external_body]
fn yaml_flag(value: &serde_yml::Value) -> (found: Option<bool>)
    ensures
        found == yaml_contents(*value)[Seq::<Seq<char>>::empty()].1,
{
    value.as_bool()
}

/// `Value::clone`: a value with the same contents.
#[verifier::external_body]
fn yaml_copy(value: &serde_yml::Value) -> (copy: serde_yml::Value)
    ensures
        yaml_contents(copy) == yaml_contents(*value),
{
    value.clone()
}

/// `Value::untag_ref`: the value inside the tags of a value, or the value itself where
/// it has none.
#[verifier::external_body]
fn yaml_inside_tags(value: &serde_yml::Value) -> (inner: &serde_yml::Value)
    ensures
        yaml_contents(*inner) == yaml_untagged(*value),
{
    value.untag_ref()
}

/// `Value::is_mapping`.
#[verifier::external_body]
fn yaml_is_mapping(value: &serde_yml::Value) -> (b: bool)
    ensures
        b == is_mapping(yaml_contents(*value)),
{
    value.is_mapping()
}

/// `Mapping::insert` on the mapping for `section`: the entry for `key` becomes
/// `value`, and the rest stays. Such a root is a mapping without tags, so the same holds
/// inside its tags.
#[verifier::external_body]
fn yaml_insert(root: &mut serde_yml::Value, section: &str, key: &str, value: serde_yml::Value)
    requires
        yaml_contents(*old(root)).contains_key(seq![section@]),
        contents_below(yaml_contents(*old(root)), section@)[Seq::<Seq<char>>::empty()].2,
    ensures
        yaml_contents(*final(root)) == contents_with(
            yaml_contents(*old(root)),
            section@,
            key@,
            yaml_contents(value),
        ),
        yaml_untagged(*final(root)) == contents_with(
            yaml_untagged(*old(root)),
            section@,
            key@,
            yaml_contents(value),
        ),
{
    if let Some(map) = root.as_mapping_mut() {
        if let Some(map) = map.get_mut(section).and_then(|child| child.as_mapping_mut()) {
            map.insert(key, value);
        }
    }
}

/// The contents of the value that a list of keys leads to.
pub open spec fn contents_at(contents: Contents, path: Seq<Seq<char>>) -> Option<Contents>
    decreases path.len(),
{
    if path.len() == 0 {
        Some(contents)
    } else if contents.contains_key(seq![path[0]]) {
        contents_at(contents_below(contents, path[0]), path.skip(1))
    } else {
        None
    }
}

/// The string that a list of keys leads to.
pub open spec fn text_at(contents: Contents, path: Seq<Seq<char>>) -> Option<Seq<char>> {
    match contents_at(contents, path) {
        Some(found) => found[Seq::<Seq<char>>::empty()].0,
        None => None,
    }
}

/// The boolean that a list of keys leads to.
pub open spec fn flag_at(contents: Contents, path: Seq<Seq<char>>) -> Option<bool> {
    match contents_at(contents, path) {
        Some(found) => found[Seq::<Seq<char>>::empty()].1,
        None => None,
    }
}

/// The characters of the names of a path of keys.
pub open spec fn keys(path: Seq<&str>) -> Seq<Seq<char>> {
    path.map_values(|key: &str| key@)
}

/// The value that a list of keys leads to.
pub fn yaml_value_at<'a>(root: &'a serde_yml::Value, path: &[&str]) -> (found: Option<
    &'a serde_yml::Value,
>)
    ensures
        match found {
            Some(v) => contents_at(yaml_contents(*root), keys(path@)) == Some(yaml_contents(*v)),
            None => contents_at(yaml_contents(*root), keys(path@)) is None,
        },
{
    let ghost all = keys(path@);
    let mut current = root;
    let mut i: usize = 0;
    assert(all.skip(0) == all);
    while i < path.len()
        invariant
            i <= path@.len(),
            all == keys(path@),
            contents_at(yaml_contents(*current), all.skip(i as int)) == contents_at(
                yaml_contents(*root),
                all,
            ),
        decreases path@.len() - i,
    {
        assert(all.skip(i as int)[0] == path@[i as int]@);
        assert(all.skip(i as int).skip(1) == all.skip(i + 1));
        match yaml_child(current, path[i]) {
            Some(child) => {
                current = child;
            },
            None => {
                return None;
            },
        }
        i += 1;
    }
    Some(current)
}

/// The string that a list of keys leads to.
pub fn yaml_str_at<'a>(root: &'a serde_yml::Value, path: &[&str]) -> (found: Option<&'a str>)
    ensures
        match found {
            Some(s) => text_at(yaml_contents(*root), keys(path@)) == Some(s@),
            None => text_at(yaml_contents(*root), keys(path@)) is None,
        },
{
    match yaml_value_at(root, path) {
        Some(value) => yaml_text(value),
        None => None,
    }
}

/// The boolean that a list of keys leads to.
pub fn yaml_bool_at(root: &serde_yml::Value, path: &[&str]) -> (found: Option<bool>)
    ensures
        found == flag_at(yaml_contents(*root), keys(path@)),
{
    match yaml_value_at(root, path) {
        Some(value) => yaml_flag(value),
        None => None,
    }
}

// ---------------------------------------------------------------------------
// Secrets

/// A setting that holds a secret.
#[derive(Debug, Clone, Copy)]
pub struct SecretField {
    pub section: &'static str,
    pub key: &'static str,
    pub name: &'static str,
}

/// The settings that hold secrets: section, key, and full name.
pub open spec fn secret_fields() -> Seq<(Seq<char>, Seq<char>, Seq<char>)> {
    seq![
        ("api"@, "tmdb_api_key"@, "api.tmdb_api_key"@),
        ("api"@, "tmdb_read_access_token"@, "api.tmdb_read_access_token"@),
        ("api"@, "tvdb_api_key"@, "api.tvdb_api_key"@),
        ("realdebrid"@, "api_token"@, "realdebrid.api_token"@),
        ("decypharr"@, "api_token"@, "decypharr.api_token"@),
        ("prowlarr"@, "api_key"@, "prowlarr.api_key"@),
        ("bazarr"@, "api_key"@, "bazarr.api_key"@),
        ("tautulli"@, "api_key"@, "tautulli.api_key"@),
        ("plex"@, "token"@, "plex.token"@),
        ("emby"@, "api_key"@, "emby.api_key"@),
        ("jellyfin"@, "api_key"@, "jellyfin.api_key"@),
        ("web"@, "password"@, "web.password"@),
        ("web"@, "api_key"@, "web.api_key"@),
        ("radarr"@, "api_key"@, "radarr.api_key"@),
        ("sonarr"@, "api_key"@, "sonarr.api_key"@),
        ("sonarr_anime"@, "api_key"@, "sonarr_anime.api_key"@),
    ]
}

/// The section, key and name of each field.
pub open spec fn field_views(fields: Seq<SecretField>) -> Seq<(Seq<char>, Seq<char>, Seq<char>)> {
    fields.map_values(|field: SecretField| (field.section@, field.key@, field.name@))
}

/// The settings that hold secrets.
pub fn secret_field_paths() -> (fields: Vec<SecretField>)
    ensures
        field_views(fields@) == secret_fields(),
{
    let fields = vec![
        SecretField { section: "api", key: "tmdb_api_key", name: "api.tmdb_api_key" },
        SecretField { section: "api", key: "tmdb_read_access_token", name: "api.tmdb_read_access_token" },
        SecretField { section: "api", key: "tvdb_api_key", name: "api.tvdb_api_key" },
        SecretField { section: "realdebrid", key: "api_token", name: "realdebrid.api_token" },
        SecretField { section: "decypharr", key: "api_token", name: "decypharr.api_token" },
        SecretField { section: "prowlarr", key: "api_key", name: "prowlarr.api_key" },
        SecretField { section: "bazarr", key: "api_key", name: "bazarr.api_key" },
        SecretField { section: "tautulli", key: "api_key", name: "tautulli.api_key" },
        SecretField { section: "plex", key: "token", name: "plex.token" },
        SecretField { section: "emby", key: "api_key", name: "emby.api_key" },
        SecretField { section: "jellyfin", key: "api_key", name: "jellyfin.api_key" },
        SecretField { section: "web", key: "password", name: "web.password" },
        SecretField { section: "web", key: "api_key", name: "web.api_key" },
        SecretField { section: "radarr", key: "api_key", name: "radarr.api_key" },
        SecretField { section: "sonarr", key: "api_key", name: "sonarr.api_key" },
        SecretField { section: "sonarr_anime", key: "api_key", name: "sonarr_anime.api_key" },
    ];
    assert(field_views(fields@) =~= secret_fields());
    fields
}

/// The settings that may name a secret file: those that hold secrets, and the salt,
/// which may also stand in plain text.
pub open spec fn file_fields() -> Seq<(Seq<char>, Seq<char>, Seq<char>)> {
    secret_fields().push(("dmm"@, "auth_salt"@, "dmm.auth_salt"@))
}

/// The settings that may name a secret file.
pub fn secret_file_field_paths() -> (fields: Vec<SecretField>)
    ensures
        field_views(fields@) == file_fields(),
{
    let mut fields = secret_field_paths();
    let ghost before = fields@;
    fields.push(SecretField { section: "dmm", key: "auth_salt", name: "dmm.auth_salt" });
    assert(field_views(fields@) =~= field_views(before).push(
        ("dmm"@, "auth_salt"@, "dmm.auth_salt"@),
    ));
    fields
}

/// Whether a secret names where it is kept instead of holding it.
pub open spec fn names_provider(raw: Seq<char>) -> bool {
    text::begins(raw, "env:"@) || text::begins(raw, "secretfile:"@)
}

/// Whether a secret names where it is kept instead of holding it.
pub fn uses_secret_provider(raw: &str) -> (b: bool)
    ensures
        b == names_provider(raw@),
{
    text::begins_with(raw, "env:") || text::begins_with(raw, "secretfile:")
}

/// The string of a field.
pub open spec fn field_text(contents: Contents, field: (Seq<char>, Seq<char>, Seq<char>)) -> Option<
    Seq<char>,
> {
    text_at(contents, seq![field.0, field.1])
}

/// Whether the field holds a secret in plain text.
pub open spec fn is_plaintext(contents: Contents, field: (Seq<char>, Seq<char>, Seq<char>)) -> bool {
    match field_text(contents, field) {
        Some(value) => value.len() > 0 && !names_provider(value),
        None => false,
    }
}

/// The names of the fields that hold a secret in plain text.
pub open spec fn plaintext_fields(
    contents: Contents,
    fields: Seq<(Seq<char>, Seq<char>, Seq<char>)>,
) -> Seq<Seq<char>>
    decreases fields.len(),
{
    if fields.len() == 0 {
        Seq::<Seq<char>>::empty()
    } else {
        plaintext_fields(contents, fields.drop_last()) + text::when(
            is_plaintext(contents, fields.last()),
            fields.last().2,
        )
    }
}

/// The names of the settings that hold a secret in plain text.
pub fn raw_plaintext_secret_fields(root: &serde_yml::Value) -> (names: Vec<&'static str>)
    ensures
        keys(names@) == plaintext_fields(yaml_contents(*root), secret_fields()),
{
    let fields = secret_field_paths();
    let ghost all = secret_fields();
    let ghost contents = yaml_contents(*root);
    let mut names: Vec<&'static str> = Vec::new();
    let mut i: usize = 0;
    assert(all.take(0) == Seq::<(Seq<char>, Seq<char>, Seq<char>)>::empty());
    assert(keys(names@) =~= Seq::<Seq<char>>::empty());
    while i < fields.len()
        invariant
            i <= fields@.len(),
            field_views(fields@) == all,
            contents == yaml_contents(*root),
            keys(names@) == plaintext_fields(contents, all.take(i as int)),
        decreases fields@.len() - i,
    {
        let field = fields[i];
        let ghost before = keys(names@);
        assert(all[i as int] == (field.section@, field.key@, field.name@));
        assert(all.take(i + 1).drop_last() == all.take(i as int));
        let path = [field.section, field.key];
        assert(keys(path@) =~= seq![field.section@, field.key@]);
        let plain = match yaml_str_at(root, &path) {
            Some(value) => !value.is_empty() && !uses_secret_provider(value),
            None => false,
        };
        if plain {
            names.push(field.name);
            assert(keys(names@) =~= before.push(field.name@));
        }
        assert(keys(names@) =~= plaintext_fields(contents, all.take(i + 1)));
        i += 1;
    }
    assert(all.take(fields@.len() as int) == all);
    names
}

/// The fields to warn about: none where plain text is refused anyway.
pub open spec fn plaintext_warning(contents: Contents) -> Option<Seq<char>> {
    let names = plaintext_fields(contents, secret_fields());
    if names.len() == 0 || flag_at(contents, seq!["security"@, "require_secret_provider"@]) == Some(
        true,
    ) {
        None
    } else {
        Some(
            "Plaintext secrets found in config for: "@ + text::join(names, ", "@)
                + ". Prefer env:VAR or secretfile:/path"@,
        )
    }
}

/// The warning about secrets in plain text, where one is due.
pub fn warn_for_plaintext_secrets(root: &serde_yml::Value) -> (warning: Option<String>)
    ensures
        match warning {
            Some(w) => plaintext_warning(yaml_contents(*root)) == Some(w@),
            None => plaintext_warning(yaml_contents(*root)) is None,
        },
{
    let names = raw_plaintext_secret_fields(root);
    assert(keys(names@).len() == names@.len());
    if names.len() == 0 {
        return None;
    }
    let path = ["security", "require_secret_provider"];
    assert(keys(path@) =~= seq!["security"@, "require_secret_provider"@]);
    match yaml_bool_at(root, &path) {
        Some(true) => None,
        _ => {
            let mut owned: Vec<String> = Vec::new();
            let mut i: usize = 0;
            while i < names.len()
                invariant
                    i <= names@.len(),
                    text::views(owned@) == keys(names@).take(i as int),
                decreases names@.len() - i,
            {
                let ghost before = text::views(owned@);
                let name: &str = names[i];
                assert(keys(names@)[i as int] == name@);
                owned.push(name.to_owned());
                assert(text::views(owned@) =~= before.push(name@));
                i += 1;
                assert(keys(names@).take(i as int) =~= before.push(name@));
            }
            assert(keys(names@).take(names@.len() as int) == keys(names@));
            let joined = text::join_texts(&owned, ", ");
            Some(
                text::concat3(
                    "Plaintext secrets found in config for: ",
                    joined.as_str(),
                    ". Prefer env:VAR or secretfile:/path",
                ),
            )
        },
    }
}

/// A path seen from a directory, where there is one.
pub open spec fn resolved_from(dir: Option<Seq<char>>, path: Seq<char>) -> Seq<char> {
    match dir {
        Some(d) => paths::joined(d, path),
        None => path,
    }
}

/// The characters of an optional text.
pub open spec fn opt_view(t: Option<&str>) -> Option<Seq<char>> {
    match t {
        Some(s) => Some(s@),
        None => None,
    }
}

/// The path as it is where it is absolute or there is no base, else seen from
/// the base.
pub fn resolve_restore_target_path(path: &str, base_dir: Option<&str>) -> (out: String)
    ensures
        out@ == resolved_from(opt_view(base_dir), path@),
{
    match base_dir {
        Some(dir) => paths::join(dir, path),
        None => path.to_owned(),
    }
}

/// The secret file that a field names, if it names one.
pub open spec fn field_file(
    contents: Contents,
    dir: Option<Seq<char>>,
    field: (Seq<char>, Seq<char>, Seq<char>),
) -> Seq<Seq<char>> {
    match field_text(contents, field) {
        Some(value) => text::when(
            text::begins(value, "secretfile:"@),
            resolved_from(dir, value.skip("secretfile:"@.len() as int)),
        ),
        None => Seq::<Seq<char>>::empty(),
    }
}

/// The secret files that the fields name.
pub open spec fn field_files(
    contents: Contents,
    dir: Option<Seq<char>>,
    fields: Seq<(Seq<char>, Seq<char>, Seq<char>)>,
) -> Seq<Seq<char>>
    decreases fields.len(),
{
    if fields.len() == 0 {
        Seq::<Seq<char>>::empty()
    } else {
        field_files(contents, dir, fields.drop_last()) + field_file(contents, dir, fields.last())
    }
}

/// The secret files of a document, in order and each once.
pub open spec fn secret_files(contents: Contents, dir: Option<Seq<char>>) -> Seq<Seq<char>> {
    order::distinct::<paths::ByPath>(field_files(contents, dir, file_fields()))
}

/// Whether a field names a secret file.
pub open spec fn names_file(
    contents: Contents,
    dir: Option<Seq<char>>,
    field: (Seq<char>, Seq<char>, Seq<char>),
    file: Seq<char>,
) -> bool {
    match field_text(contents, field) {
        Some(value) => text::begins(value, "secretfile:"@) && file == resolved_from(
            dir,
            value.skip("secretfile:"@.len() as int),
        ),
        None => false,
    }
}

proof fn lemma_field_files(
    contents: Contents,
    dir: Option<Seq<char>>,
    fields: Seq<(Seq<char>, Seq<char>, Seq<char>)>,
    file: Seq<char>,
)
    ensures
        field_files(contents, dir, fields).contains(file) == exists|k: int|
            0 <= k < fields.len() && names_file(contents, dir, #[trigger] fields[k], file),
    decreases fields.len(),
{
    if fields.len() > 0 {
        let rest = fields.drop_last();
        let before = field_files(contents, dir, rest);
        let last = field_file(contents, dir, fields.last());
        lemma_field_files(contents, dir, rest, file);
        assert(last.contains(file) == names_file(contents, dir, fields.last(), file)) by {
            if names_file(contents, dir, fields.last(), file) {
                assert(last[0] == file);
            }
        }
        assert((before + last).contains(file) == (before.contains(file) || last.contains(file)))
            by {
            if before.contains(file) {
                let i = choose|i: int| 0 <= i < before.len() && before[i] == file;
                assert((before + last)[i] == file);
            }
            if last.contains(file) {
                let i = choose|i: int| 0 <= i < last.len() && last[i] == file;
                assert((before + last)[before.len() + i] == file);
            }
            if (before + last).contains(file) {
                let i = choose|i: int|
                    0 <= i < (before + last).len() && (before + last)[i] == file;
                if i < before.len() {
                    assert(before[i] == file);
                } else {
                    assert(last[i - before.len()] == file);
                }
            }
        }
        if exists|k: int|
            0 <= k < rest.len() && names_file(contents, dir, #[trigger] rest[k], file) {
            let k = choose|k: int|
                0 <= k < rest.len() && names_file(contents, dir, #[trigger] rest[k], file);
            assert(names_file(contents, dir, fields[k], file));
        }
        if exists|k: int|
            0 <= k < fields.len() && names_file(contents, dir, #[trigger] fields[k], file) {
            let k = choose|k: int|
                0 <= k < fields.len() && names_file(contents, dir, #[trigger] fields[k], file);
            if k < rest.len() {
                assert(rest[k] == fields[k]);
            }
        }
    } else {
        assert(field_files(contents, dir, fields) =~= Seq::<Seq<char>>::empty());
    }
}

/// The secret files of a document are in order and each once; every one is named by a
/// field, and every one that a field names is among them, if in another spelling.
pub proof fn lemma_secret_files_are_those_named(
    contents: Contents,
    dir: Option<Seq<char>>,
    file: Seq<char>,
)
    ensures
        order::ascending::<paths::ByPath>(secret_files(contents, dir)),
        secret_files(contents, dir).contains(file) ==> exists|k: int|
            0 <= k < file_fields().len() && names_file(
                contents,
                dir,
                #[trigger] file_fields()[k],
                file,
            ),
        (exists|k: int|
            0 <= k < file_fields().len() && names_file(
                contents,
                dir,
                #[trigger] file_fields()[k],
                file,
            )) ==> exists|i: int|
            0 <= i < secret_files(contents, dir).len() && paths::same(
                #[trigger] secret_files(contents, dir)[i],
                file,
            ),
{
    let named = field_files(contents, dir, file_fields());
    order::lemma_distinct::<paths::ByPath>(named);
    lemma_field_files(contents, dir, file_fields(), file);
    if named.contains(file) {
        let k = choose|k: int| 0 <= k < named.len() && named[k] == file;
        let files = secret_files(contents, dir);
        assert(order::has_tie::<paths::ByPath>(files, named[k]));
        let i = choose|i: int|
            0 <= i < files.len() && order::ties::<paths::ByPath>(#[trigger] files[i], file);
        paths::lemma_path_ties(files[i], file);
        assert(paths::same(files[i], file));
    }
}

/// Collects the secret files that a document names.
pub fn collect_secret_file_paths(root: &serde_yml::Value, config_dir: Option<&str>) -> (out: Vec<
    String,
>)
    ensures
        text::views(out@) == secret_files(yaml_contents(*root), opt_view(config_dir)),
{
    let fields = secret_file_field_paths();
    let ghost all = file_fields();
    let ghost contents = yaml_contents(*root);
    let ghost dir = opt_view(config_dir);
    let mut found: Vec<String> = Vec::new();
    let mut i: usize = 0;
    assert(all.take(0) == Seq::<(Seq<char>, Seq<char>, Seq<char>)>::empty());
    assert(text::views(found@) =~= Seq::<Seq<char>>::empty());
    while i < fields.len()
        invariant
            i <= fields@.len(),
            field_views(fields@) == all,
            contents == yaml_contents(*root),
            dir == opt_view(config_dir),
            text::views(found@) == field_files(contents, dir, all.take(i as int)),
        decreases fields@.len() - i,
    {
        let field = fields[i];
        let ghost before = text::views(found@);
        assert(all[i as int] == (field.section@, field.key@, field.name@));
        assert(all.take(i + 1).drop_last() == all.take(i as int));
        let path = [field.section, field.key];
        assert(keys(path@) =~= seq![field.section@, field.key@]);
        match yaml_str_at(root, &path) {
            Some(value) => {
                match text::without_prefix(value, "secretfile:") {
                    Some(file) => {
                        found.push(resolve_restore_target_path(file.as_str(), config_dir));
                        assert(text::views(found@) =~= before + field_file(
                            contents,
                            dir,
                            all[i as int],
                        ));
                    },
                    None => {
                        assert(before =~= before + field_file(contents, dir, all[i as int]));
                    },
                }
            },
            None => {
                assert(before =~= before + field_file(contents, dir, all[i as int]));
            },
        }
        i += 1;
    }
    assert(all.take(fields@.len() as int) == all);
    paths::distinct_paths(found)
}

// ---------------------------------------------------------------------------
// Old names of settings

/// The contents with `backup.dir` also under its present name `backup.path`,
/// where that has no value yet.
pub open spec fn with_aliases(contents: Contents) -> Contents {
    let has_path = contents_at(contents, seq!["backup"@, "path"@]) is Some;
    match contents_at(contents, seq!["backup"@, "dir"@]) {
        Some(dir) => if has_path {
            contents
        } else {
            contents_with(contents, "backup"@, "path"@, dir)
        },
        None => contents,
    }
}

/// Whether `backup.dir` stands for `backup.path`.
pub open spec fn has_old_name(contents: Contents) -> bool {
    contents_at(contents, seq!["backup"@, "dir"@]) is Some && contents_at(
        contents,
        seq!["backup"@, "path"@],
    ) is None
}

/// Gives `backup.dir` its present name `backup.path`; tells whether it did.
pub fn apply_legacy_aliases(root: &mut serde_yml::Value) -> (applied: bool)
    ensures
        yaml_contents(*final(root)) == with_aliases(yaml_contents(*old(root))),
        database_path(yaml_untagged(*final(root))) == database_path(yaml_untagged(*old(root))),
        applied == has_old_name(yaml_contents(*old(root))),
{
    proof {
        reveal_with_fuel(contents_at, 3);
        assert(seq!["backup"@, "dir"@].skip(1) =~= seq!["dir"@]);
        assert(seq!["backup"@, "path"@].skip(1) =~= seq!["path"@]);
        assert(seq!["dir"@].skip(1) =~= Seq::<Seq<char>>::empty());
    }
    let copy = match yaml_child(root, "backup") {
        Some(backup) => {
            if yaml_child(backup, "path").is_some() {
                return false;
            }
            match yaml_child(backup, "dir") {
                Some(dir) => yaml_copy(dir),
                None => {
                    return false;
                },
            }
        },
        None => {
            return false;
        },
    };
    yaml_insert(root, "backup", "path", copy);
    proof {
        lemma_database_path_stays(yaml_untagged(*old(root)), yaml_contents(copy));
    }
    true
}

// ---------------------------------------------------------------------------
// Reading a configuration

/// A configuration file's document with its present names, and what is found in it
/// before its settings are read.
#[derive(Debug)]
pub struct ConfigDocument {
    pub value: serde_yml::Value,
    /// The secret files that it names.
    pub secret_files: Vec<String>,
    /// The warning about secrets in plain text, where one is due.
    pub warning: Option<String>,
    /// Whether it uses the old name `backup.dir`.
    pub renamed: bool,
}

/// Reads a configuration file's text: its document under present names, the secret
/// files that it names, seen from the directory of the file, and the warning about
/// secrets in plain text.
pub fn read_config_document(config_path: &str, document: &str) -> (out: Result<
    ConfigDocument,
    serde_yml::Error,
>)
    ensures
        match yaml_reading(document@) {
            None => out is Err,
            Some((read, _)) => out is Ok && yaml_contents(out->Ok_0.value) == with_aliases(read)
                && text::views(out->Ok_0.secret_files@) == secret_files(
                with_aliases(read),
                paths::parent(config_path@),
            ) && text::opt(out->Ok_0.warning) == plaintext_warning(with_aliases(read))
                && out->Ok_0.renamed == has_old_name(read),
        },
{
    let mut value = match read_yaml(document) {
        Ok(value) => value,
        Err(e) => {
            return Err(e);
        },
    };
    let renamed = apply_legacy_aliases(&mut value);
    let warning = warn_for_plaintext_secrets(&value);
    let parent = paths::parent_of(config_path);
    let dir: Option<&str> = match &parent {
        Some(d) => Some(d.as_str()),
        None => None,
    };
    let secret_files = collect_secret_file_paths(&value, dir);
    Ok(ConfigDocument { value, secret_files, warning, renamed })
}

// ---------------------------------------------------------------------------
// Restore targets

/// Why a document does not tell what a restore may write.
#[derive(Debug, Clone, Copy, PartialEq, Eq, Structural)]
pub enum RestoreInspectError {
    /// The document is not YAML.
    Unreadable,
    /// The document is not a mapping, or its database path is not a string.
    Unexpected,
}

impl RestoreInspectError {
    /// The error in words.
    pub open spec fn worded(&self, config_path: Seq<char>) -> Seq<char> {
        match *self {
            RestoreInspectError::Unreadable => "Failed to parse config file "@ + config_path,
            RestoreInspectError::Unexpected => "Failed to inspect restore targets from config "@
                + config_path,
        }
    }

    /// The error in words.
    pub fn message(&self, config_path: &str) -> (out: String)
        ensures
            out@ == self.worded(config_path@),
    {
        match self {
            RestoreInspectError::Unreadable => text::concat2(
                "Failed to parse config file ",
                config_path,
            ),
            RestoreInspectError::Unexpected => text::concat2(
                "Failed to inspect restore targets from config ",
                config_path,
            ),
        }
    }
}

/// Giving `backup.path` a value does not touch the database path.
proof fn lemma_database_path_stays(contents: Contents, other: Contents)
    ensures
        database_path(contents_with(contents, "backup"@, "path"@, other)) == database_path(
            contents,
        ),
{
    reveal_strlit("backup");
    reveal_strlit("db_path");
    let after = contents_with(contents, "backup"@, "path"@, other);
    let key = seq!["db_path"@];
    let none = Seq::<Seq<char>>::empty();
    assert("db_path"@[0] != "backup"@[0]);
    assert(after.contains_key(none) == contents.contains_key(none));
    assert(contents.contains_key(none) ==> after[none] == contents[none]);
    assert(after.contains_key(key) == contents.contains_key(key));
    assert(key + none =~= key);
    assert(key.skip(1) =~= none);
    reveal_with_fuel(contents_at, 2);
    if contents.contains_key(key) {
        assert(after[key] == contents[key]);
        assert(contents_below(after, "db_path"@)[none] == after[key]);
        assert(contents_below(contents, "db_path"@)[none] == contents[key]);
    }
}

/// The database path of a document, by what is inside its tags: the default where it
/// names none.
pub open spec fn database_path(contents: Contents) -> Result<Seq<char>, RestoreInspectError> {
    if !is_mapping(contents) {
        Err(RestoreInspectError::Unexpected)
    } else if contents_at(contents, seq!["db_path"@]) is None {
        Ok("symlinkarr.db"@)
    } else {
        match text_at(contents, seq!["db_path"@]) {
            Some(path) => Ok(path),
            None => Err(RestoreInspectError::Unexpected),
        }
    }
}

/// The database path of a document.
fn database_path_of(document: &serde_yml::Value) -> (out: Result<String, RestoreInspectError>)
    ensures
        match out {
            Ok(p) => database_path(yaml_untagged(*document)) == Ok::<
                Seq<char>,
                RestoreInspectError,
            >(p@),
            Err(e) => database_path(yaml_untagged(*document)) == Err::<
                Seq<char>,
                RestoreInspectError,
            >(e),
        },
{
    let root = yaml_inside_tags(document);
    if !yaml_is_mapping(root) {
        return Err(RestoreInspectError::Unexpected);
    }
    let path = ["db_path"];
    assert(keys(path@) =~= seq!["db_path"@]);
    match yaml_value_at(root, &path) {
        None => Ok(defaults::default_db_path()),
        Some(value) => match yaml_text(value) {
            Some(p) => Ok(p.to_owned()),
            None => Err(RestoreInspectError::Unexpected),
        },
    }
}

/// Which files a restore may write, by the document of a configuration file.
/// Relative paths are seen from the directory of the file.
pub fn restore_targets(root: &mut serde_yml::Value, config_path: &str) -> (out: Result<
    RestoreConfigTargets,
    RestoreInspectError,
>)
    ensures
        yaml_contents(*final(root)) == with_aliases(yaml_contents(*old(root))),
        match database_path(yaml_untagged(*old(root))) {
            Err(e) => out == Err::<RestoreConfigTargets, RestoreInspectError>(e),
            Ok(db) => out is Ok && out->Ok_0.db_path@ == resolved_from(
                paths::parent(config_path@),
                db,
            ) && text::views(out->Ok_0.secret_files@) == secret_files(
                with_aliases(yaml_contents(*old(root))),
                paths::parent(config_path@),
            ),
        },
{
    let _ = apply_legacy_aliases(root);
    let parent = paths::parent_of(config_path);
    let dir: Option<&str> = match &parent {
        Some(d) => Some(d.as_str()),
        None => None,
    };
    match database_path_of(root) {
        Err(e) => Err(e),
        Ok(db) => {
            let secret_files = collect_secret_file_paths(root, dir);
            Ok(
                RestoreConfigTargets {
                    db_path: resolve_restore_target_path(db.as_str(), dir),
                    secret_files,
                },
            )
        },
    }
}

/// Reads from a configuration file's text which files a restore may write.
pub fn inspect_restore_targets(config_path: &str, document: &str) -> (out: Result<
    RestoreConfigTargets,
    RestoreInspectError,
>)
    ensures
        match yaml_reading(document@) {
            None => out == Err::<RestoreConfigTargets, RestoreInspectError>(
                RestoreInspectError::Unreadable,
            ),
            Some((read, inside)) => match database_path(inside) {
                Err(e) => out == Err::<RestoreConfigTargets, RestoreInspectError>(e),
                Ok(db) => out is Ok && out->Ok_0.db_path@ == resolved_from(
                    paths::parent(config_path@),
                    db,
                ) && text::views(out->Ok_0.secret_files@) == secret_files(
                    with_aliases(read),
                    paths::parent(config_path@),
                ),
            },
        },
{
    match read_yaml(document) {
        Ok(value) => {
            let mut root = value;
            restore_targets(&mut root, config_path)
        },
        Err(_) => Err(RestoreInspectError::Unreadable),
    }
}

// ---------------------------------------------------------------------------
// What old names and plain secrets amount to

/// What is put below a section is found there again, and what lies elsewhere stays.
pub proof fn lemma_put_is_found(
    contents: Contents,
    section: Seq<char>,
    key: Seq<char>,
    other: Contents,
    path: Seq<Seq<char>>,
)
    requires
        contents.contains_key(seq![section]),
        other.contains_key(Seq::<Seq<char>>::empty()),
    ensures
        contents_at(contents_with(contents, section, key, other), seq![section, key]) == Some(
            other,
        ),
        !(path.len() >= 2 && path[0] == section && path[1] == key) ==> contents_with(
            contents,
            section,
            key,
            other,
        ).contains_key(path) == contents.contains_key(path) && (contents.contains_key(path)
            ==> contents_with(contents, section, key, other)[path] == contents[path]),
{
    let now = contents_with(contents, section, key, other);
    let full = seq![section, key];
    reveal_with_fuel(contents_at, 3);
    assert(now.contains_key(seq![section]));
    let below = contents_below(now, section);
    assert(full.skip(1) =~= seq![key]);
    assert(seq![key].skip(1) =~= Seq::<Seq<char>>::empty());
    assert(below.contains_key(seq![key])) by {
        assert(seq![section] + seq![key] =~= full);
        assert(full.skip(2) =~= Seq::<Seq<char>>::empty());
    }
    let found = contents_below(below, key);
    assert forall|p: Seq<Seq<char>>|
        #![trigger found.contains_key(p)]
        found.contains_key(p) == other.contains_key(p) && (other.contains_key(p) ==> found[p]
            == other[p]) by {
        let q = seq![section] + (seq![key] + p);
        assert(q.len() >= 2 && q[0] == section && q[1] == key);
        assert(q.skip(2) =~= p);
    }
    assert(found =~= other);
}

/// The old name stands in only where the present one is missing: what is found under
/// `backup.path` is what stood there, else what stood under `backup.dir`, and nothing else
/// changes.
pub proof fn lemma_old_name_stands_in(contents: Contents, path: Seq<Seq<char>>)
    ensures
        ({
            let now = with_aliases(contents);
            let present = contents_at(contents, seq!["backup"@, "path"@]);
            let old_name = contents_at(contents, seq!["backup"@, "dir"@]);
            &&& contents_at(now, seq!["backup"@, "path"@]) == (if present is Some {
                present
            } else {
                old_name
            })
            &&& !(path.len() >= 2 && path[0] == "backup"@ && path[1] == "path"@)
                ==> now.contains_key(path) == contents.contains_key(path) && (
            contents.contains_key(path) ==> now[path] == contents[path])
            &&& present is Some ==> now == contents
            &&& has_old_name(contents) <==> present is None && old_name is Some
        }),
{
    let old_path = seq!["backup"@, "dir"@];
    reveal_with_fuel(contents_at, 3);
    assert(old_path.skip(1) =~= seq!["dir"@]);
    assert(seq!["dir"@].skip(1) =~= Seq::<Seq<char>>::empty());
    if let Some(dir) = contents_at(contents, old_path) {
        let below = contents_below(contents, "backup"@);
        assert(dir == contents_below(below, "dir"@));
        assert(dir.contains_key(Seq::<Seq<char>>::empty())) by {
            assert(seq!["dir"@] + Seq::<Seq<char>>::empty() =~= seq!["dir"@]);
        }
        if contents_at(contents, seq!["backup"@, "path"@]) is None {
            lemma_put_is_found(contents, "backup"@, "path"@, dir, path);
        }
    }
}

/// A setting is named as holding plain text exactly where it holds a text that is neither
/// empty nor names a provider.
pub proof fn lemma_plain_fields_are_named(
    contents: Contents,
    fields: Seq<(Seq<char>, Seq<char>, Seq<char>)>,
    name: Seq<char>,
)
    ensures
        plaintext_fields(contents, fields).contains(name) <==> exists|k: int|
            #![trigger fields[k]]
            0 <= k < fields.len() && fields[k].2 == name && (text_at(
                contents,
                seq![fields[k].0, fields[k].1],
            ) matches Some(value) && value.len() > 0 && !text::begins(value, "env:"@)
                && !text::begins(value, "secretfile:"@)),
        plaintext_fields(contents, fields).len() <= fields.len(),
    decreases fields.len(),
{
    if fields.len() > 0 {
        let rest = fields.drop_last();
        lemma_plain_fields_are_named(contents, rest, name);
        let before = plaintext_fields(contents, rest);
        let more = text::when(is_plaintext(contents, fields.last()), fields.last().2);
        let now = before + more;
        let n = fields.len() - 1;
        if now.contains(name) {
            let i = choose|i: int| 0 <= i < now.len() && now[i] == name;
            if i < before.len() {
                assert(before[i] == name);
                assert(before.contains(name));
                let k = choose|k: int|
                    #![trigger rest[k]]
                    0 <= k < rest.len() && rest[k].2 == name && (text_at(
                        contents,
                        seq![rest[k].0, rest[k].1],
                    ) matches Some(value) && value.len() > 0 && !text::begins(value, "env:"@)
                        && !text::begins(value, "secretfile:"@));
                assert(fields[k] == rest[k]);
            } else {
                assert(fields[n].2 == name);
            }
        }
        if exists|k: int|
            #![trigger fields[k]]
            0 <= k < fields.len() && fields[k].2 == name && (text_at(
                contents,
                seq![fields[k].0, fields[k].1],
            ) matches Some(value) && value.len() > 0 && !text::begins(value, "env:"@)
                && !text::begins(value, "secretfile:"@)) {
            let k = choose|k: int|
                #![trigger fields[k]]
                0 <= k < fields.len() && fields[k].2 == name && (text_at(
                    contents,
                    seq![fields[k].0, fields[k].1],
                ) matches Some(value) && value.len() > 0 && !text::begins(value, "env:"@)
                    && !text::begins(value, "secretfile:"@));
            if k < n {
                assert(rest[k] == fields[k]);
                assert(before.contains(name));
                let i = choose|i: int| 0 <= i < before.len() && before[i] == name;
                assert(now[i] == name);
            } else {
                assert(now[before.len() as int] == name);
            }
        }
    }
}

/// A warning is due exactly where a secret stands in plain text and no provider is
/// required; where one is, plain text is refused instead.
pub proof fn lemma_warning_is_due(contents: Contents)
    ensures
        plaintext_warning(contents) is Some <==> plaintext_fields(contents, secret_fields()).len()
            > 0 && flag_at(contents, seq!["security"@, "require_secret_provider"@]) != Some(true),
{
}

/// The full name of a setting is its section, a dot and its key.
pub proof fn lemma_fields_are_named_in_full(k: int)
    requires
        0 <= k < file_fields().len(),
    ensures
        file_fields()[k].2 == file_fields()[k].0 + "."@ + file_fields()[k].1,
{
    reveal_strlit(".");
    reveal_strlit("api");
    reveal_strlit("tmdb_api_key");
    reveal_strlit("api.tmdb_api_key");
    reveal_strlit("tmdb_read_access_token");
    reveal_strlit("api.tmdb_read_access_token");
    reveal_strlit("tvdb_api_key");
    reveal_strlit("api.tvdb_api_key");
    reveal_strlit("realdebrid");
    reveal_strlit("api_token");
    reveal_strlit("realdebrid.api_token");
    reveal_strlit("decypharr");
    reveal_strlit("decypharr.api_token");
    reveal_strlit("prowlarr");
    reveal_strlit("api_key");
    reveal_strlit("prowlarr.api_key");
    reveal_strlit("bazarr");
    reveal_strlit("bazarr.api_key");
    reveal_strlit("tautulli");
    reveal_strlit("tautulli.api_key");
    reveal_strlit("plex");
    reveal_strlit("token");
    reveal_strlit("plex.token");
    reveal_strlit("emby");
    reveal_strlit("emby.api_key");
    reveal_strlit("jellyfin");
    reveal_strlit("jellyfin.api_key");
    reveal_strlit("web");
    reveal_strlit("password");
    reveal_strlit("web.password");
    reveal_strlit("web.api_key");
    reveal_strlit("radarr");
    reveal_strlit("radarr.api_key");
    reveal_strlit("sonarr");
    reveal_strlit("sonarr.api_key");
    reveal_strlit("sonarr_anime");
    reveal_strlit("sonarr_anime.api_key");
    reveal_strlit("dmm");
    reveal_strlit("auth_salt");
    reveal_strlit("dmm.auth_salt");
    let field = file_fields()[k];
    assert(field.2 =~= field.0 + "."@ + field.1);
}

/// The database is where the document says, by its text; where it says nothing it is the
/// usual file, and a document that is no mapping, or says something else than a text, is an
/// error.
pub proof fn lemma_database_is_where_it_is_named(contents: Contents)
    ensures
        ({
            let named = contents_at(contents, seq!["db_path"@]);
            let path = text_at(contents, seq!["db_path"@]);
            &&& database_path(contents) is Ok <==> is_mapping(contents) && (named is None || path
                is Some)
            &&& is_mapping(contents) && path is Some ==> database_path(contents) == Ok::<
                Seq<char>,
                RestoreInspectError,
            >(path->0)
            &&& is_mapping(contents) && named is None ==> database_path(contents) == Ok::<
                Seq<char>,
                RestoreInspectError,
            >("symlinkarr.db"@)
        }),
{
}

/// A file that a setting names is seen from the directory of the configuration, unless its
/// path is absolute.
pub proof fn lemma_paths_are_seen_from_the_directory(dir: Seq<char>, path: Seq<char>)
    ensures
        paths::rooted(path) ==> resolved_from(Some(dir), path) == path,
        paths::is_name(path) ==> paths::components(resolved_from(Some(dir), path))
            == paths::components(dir).push(path),
        resolved_from(None, path) == path,
{
    if paths::is_name(path) {
        paths::lemma_joined_components(dir, path);
    }
}

/// A text that is given is seen as it is, and so is each of a list of keys.
pub proof fn lemma_keys_tell(path: Seq<&str>, t: Option<&str>, i: int)
    requires
        0 <= i < path.len(),
    ensures
        keys(path).len() == path.len(),
        keys(path)[i] == path[i]@,
        opt_view(t) is Some == t is Some,
        t matches Some(s) ==> opt_view(t) == Some(s@),
{
}

/// A value is reached key by key: nothing is reached through a key that is missing, and the
/// value itself through none.
pub proof fn lemma_values_are_reached(contents: Contents, key: Seq<char>, rest: Seq<Seq<char>>)
    ensures
        contents_at(contents, Seq::<Seq<char>>::empty()) == Some(contents),
        contents.contains_key(seq![key]) ==> contents_at(contents, seq![key] + rest) == contents_at(
            contents_below(contents, key),
            rest,
        ),
        !contents.contains_key(seq![key]) ==> contents_at(contents, seq![key] + rest) is None,
{
    let path = seq![key] + rest;
    assert(path.skip(1) =~= rest);
}

/// The error names the file, and tells what cannot be read from what is not expected.
pub proof fn lemma_inspection_errors_tell(config_path: Seq<char>)
    ensures
        RestoreInspectError::Unreadable.worded(config_path) == "Failed to parse config file "@
            + config_path,
        RestoreInspectError::Unexpected.worded(config_path)
            == "Failed to inspect restore targets from config "@ + config_path,
{
}

} // verus!
