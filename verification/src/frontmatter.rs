//! Decoding a frontmatter block (TOML or YAML) into the fields of a markdown skill.
//!
//! The `toml` and `serde_yaml` crates parse the block; the top-level entries of the
//! document they yield come back as [`FieldEntry`]s, and the skill's own field rules
//! (which keys are required, the `-` spellings, the optional prompt) are applied here.
use vstd::prelude::*;
use crate::markdown::{Delimiter, FrontmatterFields, MarkdownFrontmatter, opt_chars};
use crate::skills::string_views;
use crate::text::{chars_eq, chars_of, concat_chars, owned, string_from_chars};
use toml::Value as TomlValue;
use serde_yaml::Value as YamlValue;
use serde_yaml::Value::{Bool, Mapping, Null, Number, Sequence};

verus! {

/// A scalar of a frontmatter document.
#[derive(Debug, Clone)]
pub enum Scalar {
    /// A string.
    Text(String),
    /// A YAML number, by the text of its value (`Number`'s `Display`).
    Number(String),
    /// A YAML boolean.
    Bool(bool),
    /// YAML `null`.
    Null,
    /// Any other scalar: in TOML a number, a boolean or a date; a table or mapping; a
    /// tagged value.
    Other,
}

/// A top-level value of a frontmatter document, as far as the skill's fields read it.
#[derive(Debug, Clone)]
pub enum FieldValue {
    /// A single value.
    One(Scalar),
    /// An array (TOML) or sequence (YAML), element by element; an element that is itself
    /// a list is [`Scalar::Other`].
    List(Vec<Scalar>),
}

/// A [`Scalar`] with its strings as character sequences.
pub enum ScalarView {
    Text(Seq<char>),
    Number(Seq<char>),
    Bool(bool),
    Null,
    Other,
}

/// A [`FieldValue`] with its strings as character sequences.
pub enum FieldView {
    One(ScalarView),
    List(Seq<ScalarView>),
}

impl View for Scalar {
    type V = ScalarView;

    open spec fn view(&self) -> ScalarView {
        match self {
            Scalar::Text(s) => ScalarView::Text(s@),
            Scalar::Number(s) => ScalarView::Number(s@),
            Scalar::Bool(b) => ScalarView::Bool(*b),
            Scalar::Null => ScalarView::Null,
            Scalar::Other => ScalarView::Other,
        }
    }
}

/// The views of scalars.
pub open spec fn scalar_views(items: Seq<Scalar>) -> Seq<ScalarView> {
    items.map_values(|x: Scalar| x@)
}

impl View for FieldValue {
    type V = FieldView;

    open spec fn view(&self) -> FieldView {
        match self {
            FieldValue::One(x) => FieldView::One(x@),
            FieldValue::List(items) => FieldView::List(scalar_views(items@)),
        }
    }
}

/// How a string field reads a scalar: a string as itself, a number by the text of its
/// value, a boolean as `true` or `false`; no other scalar is a string.
pub open spec fn scalar_text(v: ScalarView) -> Option<Seq<char>> {
    match v {
        ScalarView::Text(s) => Some(s),
        ScalarView::Number(s) => Some(s),
        ScalarView::Bool(b) => Some(
            if b {
                "true"@
            } else {
                "false"@
            },
        ),
        ScalarView::Null => None,
        ScalarView::Other => None,
    }
}

/// A top-level entry of a document: its key (`None` for a YAML key that is not a string)
/// and its value.
#[derive(Debug, Clone)]
pub struct FieldEntry {
    pub key: Option<String>,
    pub value: FieldValue,
}

/// The keys and values of `es` as character sequences.
pub open spec fn entry_views(es: Seq<FieldEntry>) -> Seq<(Option<Seq<char>>, FieldView)> {
    es.map_values(|e: FieldEntry| (opt_chars(e.key), e.value@))
}

/// The view of a parser's result.
pub open spec fn entries_result(r: Result<Vec<FieldEntry>, String>) -> Result<
    Seq<(Option<Seq<char>>, FieldView)>,
    Seq<char>,
> {
    match r {
        Ok(es) => Ok(entry_views(es@)),
        Err(m) => Err(m@),
    }
}

/// The view of a parser's result that may find no mapping at the document's root.
pub open spec fn optional_entries_result(r: Result<Option<Vec<FieldEntry>>, String>) -> Result<
    Option<Seq<(Option<Seq<char>>, FieldView)>>,
    Seq<char>,
> {
    match r {
        Ok(Some(es)) => Ok(Some(entry_views(es@))),
        Ok(None) => Ok(None),
        Err(m) => Err(m@),
    }
}

/// What `toml::from_str::<toml::Table>` yields for a document: its top-level entries, or
/// the parser's message.
pub uninterp spec fn toml_table(text: Seq<char>) -> Result<
    Seq<(Option<Seq<char>>, FieldView)>,
    Seq<char>,
>;

/// What `serde_yaml::from_str::<serde_yaml::Value>` yields for a document: the entries of
/// the mapping at its root (`None` when the root is not a mapping), or the parser's
/// message.
pub uninterp spec fn yaml_mapping(text: Seq<char>) -> Result<
    Option<Seq<(Option<Seq<char>>, FieldView)>>,
    Seq<char>,
>;

/// `toml::from_str::<toml::Table>`: parses a TOML document; each top-level entry is kept
/// with its value converted (a string, an array element by element, any other value), or
/// the parser's message is returned. The result is named by [`toml_table`] of the text.
#[verifier::external_body]
fn toml_entries(text: &str) -> (r: Result<Vec<FieldEntry>, String>)
    ensures
        entries_result(r) == toml_table(text@),
{
    let scalar = |v: TomlValue| match v {
        TomlValue::String(s) => Scalar::Text(s),
        _ => Scalar::Other,
    };
    let table = toml::from_str::<toml::Table>(text).map_err(|e| e.to_string())?;
    Ok(table.into_iter().map(|(k, v)| FieldEntry { key: Some(k), value: match v {
        TomlValue::Array(a) => FieldValue::List(a.into_iter().map(scalar).collect()),
        v => FieldValue::One(scalar(v)),
    } }).collect())
}

/// `serde_yaml::from_str::<serde_yaml::Value>`: parses a YAML document; the entries of a
/// mapping at its root are kept with keys (`None` for a key that is not a string) and
/// values converted variant by variant (a number as its `Display` text), or the parser's
/// message is returned. The result is named by [`yaml_mapping`] of the text.
#[verifier::external_body]
fn yaml_entries(text: &str) -> (r: Result<Option<Vec<FieldEntry>>, String>)
    ensures
        optional_entries_result(r) == yaml_mapping(text@),
{
    let scalar = |v: YamlValue| match v {
        YamlValue::String(s) => Scalar::Text(s), Number(n) => Scalar::Number(n.to_string()),
        Bool(b) => Scalar::Bool(b), Null => Scalar::Null, _ => Scalar::Other,
    };
    let map = match serde_yaml::from_str::<YamlValue>(text).map_err(|e| e.to_string())? {
        Mapping(m) => m,
        _ => return Ok(None),
    };
    Ok(Some(map.into_iter().map(|(k, v)| FieldEntry { key: k.as_str().map(String::from),
        value: match v { Sequence(a) => FieldValue::List(a.into_iter().map(scalar).collect()),
            v => FieldValue::One(scalar(v)) } }).collect()))
}

/// The value under `key`: that of the first entry with this key.
pub open spec fn lookup(es: Seq<(Option<Seq<char>>, FieldView)>, key: Seq<char>) -> Option<FieldView>
    decreases es.len(),
{
    if es.len() == 0 {
        None
    } else if es[0].0 == Some(key) {
        Some(es[0].1)
    } else {
        lookup(es.drop_first(), key)
    }
}

/// A decoding message about field `key`: `"<head>`<key>`<tail>"`.
pub open spec fn field_msg(head: Seq<char>, key: Seq<char>, tail: Seq<char>) -> Seq<char> {
    head + "`"@ + key + "`"@ + tail
}

/// A string field that must be present.
pub open spec fn required_text(es: Seq<(Option<Seq<char>>, FieldView)>, key: Seq<char>) -> Result<
    Seq<char>,
    Seq<char>,
> {
    match lookup(es, key) {
        None => Err(field_msg("missing field "@, key, ""@)),
        Some(FieldView::One(x)) => match scalar_text(x) {
            Some(s) => Ok(s),
            None => Err(field_msg("invalid type for field "@, key, ", expected a string"@)),
        },
        Some(FieldView::List(_)) => Err(field_msg("invalid type for field "@, key, ", expected a string"@)),
    }
}

/// A field that may also be spelled `alias`; both spellings at once are a duplicate.
pub open spec fn aliased_value(
    es: Seq<(Option<Seq<char>>, FieldView)>,
    key: Seq<char>,
    alias: Seq<char>,
) -> Result<Option<FieldView>, Seq<char>> {
    match (lookup(es, key), lookup(es, alias)) {
        (Some(_), Some(_)) => Err(field_msg("duplicate field "@, key, ""@)),
        (Some(x), None) => Ok(Some(x)),
        (None, Some(y)) => Ok(Some(y)),
        (None, None) => Ok(None),
    }
}

/// Every element of a list is read as a string.
pub open spec fn all_text(items: Seq<ScalarView>) -> bool {
    forall|i: int| 0 <= i < items.len() ==> #[trigger] scalar_text(items[i]) is Some
}

/// The texts of a list whose elements are all read as strings.
pub open spec fn texts(items: Seq<ScalarView>) -> Seq<Seq<char>> {
    items.map_values(|x: ScalarView| scalar_text(x)->0)
}

/// The tool list: a list of strings.
pub open spec fn tool_names(v: FieldView) -> Result<Seq<Seq<char>>, Seq<char>> {
    match v {
        FieldView::List(items) => if all_text(items) {
            Ok(texts(items))
        } else {
            Err(field_msg("invalid element in field "@, "allowed_tools"@, ", expected a string"@))
        },
        _ => Err(field_msg("invalid type for field "@, "allowed_tools"@, ", expected a sequence"@)),
    }
}

/// The optional prompt: absent or null is none; otherwise a string.
pub open spec fn prompt_value(v: Option<FieldView>) -> Result<Option<Seq<char>>, Seq<char>> {
    match v {
        None => Ok(None),
        Some(FieldView::One(ScalarView::Null)) => Ok(None),
        Some(FieldView::One(x)) => match scalar_text(x) {
            Some(s) => Ok(Some(s)),
            None => Err(field_msg("invalid type for field "@, "system_prompt"@, ", expected a string"@)),
        },
        Some(FieldView::List(_)) => Err(field_msg("invalid type for field "@, "system_prompt"@, ", expected a string"@)),
    }
}

/// The skill's field rules on a document's entries, checked in this order: `name`,
/// `version`, `description`, `author` and `license` are required strings;
/// `allowed_tools` (or `allowed-tools`) is a required list of strings; `system_prompt`
/// (or `system-prompt`) is an optional string, where null counts as absent. A string
/// field reads a scalar as [`scalar_text`] says. The first rule broken gives the message.
pub open spec fn decoded(es: Seq<(Option<Seq<char>>, FieldView)>) -> Result<FrontmatterFields, Seq<char>> {
    match required_text(es, "name"@) {
        Err(e) => Err(e),
        Ok(name) => match required_text(es, "version"@) {
            Err(e) => Err(e),
            Ok(version) => match required_text(es, "description"@) {
                Err(e) => Err(e),
                Ok(description) => match required_text(es, "author"@) {
                    Err(e) => Err(e),
                    Ok(author) => match required_text(es, "license"@) {
                        Err(e) => Err(e),
                        Ok(license) => match aliased_value(es, "allowed_tools"@, "allowed-tools"@) {
                            Err(e) => Err(e),
                            Ok(None) => Err(field_msg("missing field "@, "allowed_tools"@, ""@)),
                            Ok(Some(tv)) => match tool_names(tv) {
                                Err(e) => Err(e),
                                Ok(allowed_tools) => match aliased_value(
                                    es,
                                    "system_prompt"@,
                                    "system-prompt"@,
                                ) {
                                    Err(e) => Err(e),
                                    Ok(pv) => match prompt_value(pv) {
                                        Err(e) => Err(e),
                                        Ok(system_prompt) => Ok(
                                            FrontmatterFields {
                                                name,
                                                version,
                                                description,
                                                author,
                                                license,
                                                allowed_tools,
                                                system_prompt,
                                            },
                                        ),
                                    },
                                },
                            },
                        },
                    },
                },
            },
        },
    }
}

/// How a frontmatter block in the given dialect decodes: the parser's message when it
/// does not parse, otherwise the field rules on its top-level entries (a YAML document
/// whose root is not a mapping has none).
pub open spec fn frontmatter_decoding(d: Delimiter, text: Seq<char>) -> Result<FrontmatterFields, Seq<char>> {
    match d {
        Delimiter::Toml => match toml_table(text) {
            Err(m) => Err(m),
            Ok(es) => decoded(es),
        },
        Delimiter::Yaml => match yaml_mapping(text) {
            Err(m) => Err(m),
            Ok(None) => decoded(seq![]),
            Ok(Some(es)) => decoded(es),
        },
    }
}

/// The view of a decoding result.
pub open spec fn decode_result(r: Result<MarkdownFrontmatter, String>) -> Result<FrontmatterFields, Seq<char>> {
    match r {
        Ok(fm) => Ok(fm@),
        Err(m) => Err(m@),
    }
}

/// `"<head>`<key>`<tail>"`.
fn field_message(head: &str, key: &str, tail: &str) -> (r: String)
    ensures
        r@ == field_msg(head@, key@, tail@),
{
    let a = concat_chars(&chars_of(head), &chars_of("`"));
    let b = concat_chars(&a, &chars_of(key));
    let c = concat_chars(&b, &chars_of("`"));
    string_from_chars(&concat_chars(&c, &chars_of(tail)))
}

/// Executable [`lookup`].
fn lookup_entry<'a>(es: &'a Vec<FieldEntry>, key: &str) -> (r: Option<&'a FieldValue>)
    ensures
        match lookup(entry_views(es@), key@) {
            None => r is None,
            Some(v) => r matches Some(x) && x@ == v,
        },
{
    let k = chars_of(key);
    let mut i: usize = 0;
    assert(entry_views(es@).skip(0) =~= entry_views(es@));
    while i < es.len()
        invariant
            i <= es@.len(),
            k@ == key@,
            lookup(entry_views(es@), key@) == lookup(entry_views(es@).skip(i as int), key@),
        decreases es.len() - i,
    {
        let ghost vs = entry_views(es@).skip(i as int);
        assert(vs[0] == (opt_chars(es@[i as int].key), es@[i as int].value@));
        assert(vs.drop_first() =~= entry_views(es@).skip(i + 1));
        let found = match &es[i].key {
            Some(s) => chars_eq(&chars_of(s.as_str()), &k),
            None => false,
        };
        if found {
            return Some(&es[i].value);
        }
        i += 1;
    }
    None
}

/// Executable [`scalar_text`].
fn scalar_string(x: &Scalar) -> (r: Option<String>)
    ensures
        opt_chars(r) == scalar_text(x@),
{
    match x {
        Scalar::Text(s) => Some(owned(s.as_str())),
        Scalar::Number(s) => Some(owned(s.as_str())),
        Scalar::Bool(b) => Some(
            if *b {
                owned("true")
            } else {
                owned("false")
            },
        ),
        Scalar::Null => None,
        Scalar::Other => None,
    }
}

/// Executable [`required_text`].
fn required_string(es: &Vec<FieldEntry>, key: &str) -> (r: Result<String, String>)
    ensures
        match required_text(entry_views(es@), key@) {
            Ok(s) => r matches Ok(x) && x@ == s,
            Err(m) => r matches Err(x) && x@ == m,
        },
{
    match lookup_entry(es, key) {
        None => Err(field_message("missing field ", key, "")),
        Some(FieldValue::One(x)) => match scalar_string(x) {
            Some(s) => Ok(s),
            None => Err(field_message("invalid type for field ", key, ", expected a string")),
        },
        Some(FieldValue::List(_)) => Err(field_message("invalid type for field ", key, ", expected a string")),
    }
}

/// Executable [`aliased_value`].
fn aliased<'a>(es: &'a Vec<FieldEntry>, key: &str, alias: &str) -> (r: Result<
    Option<&'a FieldValue>,
    String,
>)
    ensures
        match aliased_value(entry_views(es@), key@, alias@) {
            Err(m) => r matches Err(x) && x@ == m,
            Ok(None) => r matches Ok(None),
            Ok(Some(v)) => r matches Ok(Some(x)) && x@ == v,
        },
{
    let a = lookup_entry(es, key);
    let b = lookup_entry(es, alias);
    match (a, b) {
        (Some(_), Some(_)) => Err(field_message("duplicate field ", key, "")),
        (Some(x), None) => Ok(Some(x)),
        (None, Some(y)) => Ok(Some(y)),
        (None, None) => Ok(None),
    }
}

/// Executable [`tool_names`].
fn tool_list(v: &FieldValue) -> (r: Result<Vec<String>, String>)
    ensures
        match tool_names(v@) {
            Ok(ts) => r matches Ok(x) && string_views(x@) == ts,
            Err(m) => r matches Err(x) && x@ == m,
        },
{
    match v {
        FieldValue::List(items) => {
            let ghost vs = scalar_views(items@);
            let mut out: Vec<String> = Vec::new();
            let mut i: usize = 0;
            while i < items.len()
                invariant
                    i <= items@.len(),
                    vs == scalar_views(items@),
                    v@ == FieldView::List(vs),
                    forall|j: int| 0 <= j < i ==> #[trigger] scalar_text(vs[j]) is Some,
                    string_views(out@) == texts(vs.take(i as int)),
                decreases items.len() - i,
            {
                match scalar_string(&items[i]) {
                    Some(s) => {
                        let ghost before = out@;
                        out.push(s);
                        assert(string_views(out@) =~= string_views(before).push(s@));
                        assert(texts(vs.take(i + 1)) =~= texts(vs.take(i as int)).push(s@));
                    },
                    None => {
                        assert(!all_text(vs)) by {
                            assert(scalar_text(vs[i as int]) is None);
                        }
                        return Err(
                            field_message(
                                "invalid element in field ",
                                "allowed_tools",
                                ", expected a string",
                            ),
                        );
                    },
                }
                i += 1;
            }
            assert(vs.take(i as int) =~= vs);
            Ok(out)
        },
        _ => Err(field_message("invalid type for field ", "allowed_tools", ", expected a sequence")),
    }
}

/// Executable [`prompt_value`].
fn prompt_of(v: Option<&FieldValue>) -> (r: Result<Option<String>, String>)
    ensures
        match prompt_value(
            match v {
                Some(x) => Some(x@),
                None => None,
            },
        ) {
            Ok(p) => r matches Ok(x) && opt_chars(x) == p,
            Err(m) => r matches Err(x) && x@ == m,
        },
{
    match v {
        None => Ok(None),
        Some(FieldValue::One(Scalar::Null)) => Ok(None),
        Some(FieldValue::One(x)) => match scalar_string(x) {
            Some(s) => Ok(Some(s)),
            None => Err(field_message("invalid type for field ", "system_prompt", ", expected a string")),
        },
        Some(FieldValue::List(_)) => Err(field_message("invalid type for field ", "system_prompt", ", expected a string")),
    }
}

/// Applies the skill's field rules ([`decoded`]) to a document's top-level entries.
pub fn decode_fields(es: &Vec<FieldEntry>) -> (r: Result<MarkdownFrontmatter, String>)
    ensures
        decode_result(r) == decoded(entry_views(es@)),
{
    let name = match required_string(es, "name") {
        Ok(s) => s,
        Err(e) => return Err(e),
    };
    let version = match required_string(es, "version") {
        Ok(s) => s,
        Err(e) => return Err(e),
    };
    let description = match required_string(es, "description") {
        Ok(s) => s,
        Err(e) => return Err(e),
    };
    let author = match required_string(es, "author") {
        Ok(s) => s,
        Err(e) => return Err(e),
    };
    let license = match required_string(es, "license") {
        Ok(s) => s,
        Err(e) => return Err(e),
    };
    let allowed_tools = match aliased(es, "allowed_tools", "allowed-tools") {
        Err(e) => return Err(e),
        Ok(None) => return Err(field_message("missing field ", "allowed_tools", "")),
        Ok(Some(v)) => match tool_list(v) {
            Ok(ts) => ts,
            Err(e) => return Err(e),
        },
    };
    let system_prompt = match aliased(es, "system_prompt", "system-prompt") {
        Err(e) => return Err(e),
        Ok(pv) => match prompt_of(pv) {
            Ok(p) => p,
            Err(e) => return Err(e),
        },
    };
    Ok(
        MarkdownFrontmatter {
            name,
            version,
            description,
            author,
            license,
            allowed_tools,
            system_prompt,
        },
    )
}

/// Decodes a frontmatter block written in the given dialect, as
/// [`frontmatter_decoding`] describes: the parser's message, or the skill's fields.
pub fn decode_frontmatter(delimiter: &Delimiter, text: &str) -> (r: Result<MarkdownFrontmatter, String>)
    ensures
        decode_result(r) == frontmatter_decoding(*delimiter, text@),
{
    match delimiter {
        Delimiter::Toml => match toml_entries(text) {
            Err(m) => Err(m),
            Ok(es) => decode_fields(&es),
        },
        Delimiter::Yaml => match yaml_entries(text) {
            Err(m) => Err(m),
            Ok(None) => {
                let none: Vec<FieldEntry> = Vec::new();
                assert(entry_views(none@) =~= seq![]);
                decode_fields(&none)
            },
            Ok(Some(es)) => decode_fields(&es),
        },
    }
}

} // verus!
