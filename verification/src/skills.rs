//! Skill specifications and where the store keeps them.
use vstd::prelude::*;
use crate::text::{chars_eq, chars_less, chars_less_exec, chars_of, concat_chars, lemma_chars_less_total,
    lemma_chars_not_less_transitive, owned, string_from_chars, sub_chars};
use crate::tools::sandbox::{join_path, path_join};
use serde_json::Value as JsonValue;
use jsonschema::JSONSchema;

verus! {

/// A declarative skill: identity, provenance, the system prompt sent to the agent and the
/// tools the agent may call while running it.
#[derive(Debug, Clone)]
pub struct SkillSpec {
    pub name: String,
    pub version: String,
    pub description: String,
    pub author: String,
    pub license: String,
    pub system_prompt: String,
    pub allowed_tools: Vec<String>,
}

/// The formats a skill can be saved in.
#[derive(Debug, Clone, Copy, PartialEq, Eq, Structural)]
pub enum SkillFormat {
    Toml,
    Json,
}

/// The JSON Schema every skill must satisfy.
pub const SKILL_SCHEMA: &'static str = r#"{
  "$schema": "https://json-schema.org/draft/2020-12/schema",
  "type": "object",
  "additionalProperties": false,
  "required": ["name", "version", "description", "author", "license", "system_prompt", "allowed_tools"],
  "properties": {
    "name": { "type": "string", "minLength": 1, "maxLength": 128 },
    "version": { "type": "string", "minLength": 1, "maxLength": 32 },
    "description": { "type": "string", "minLength": 1, "maxLength": 2048 },
    "author": { "type": "string", "minLength": 1, "maxLength": 256 },
    "license": { "type": "string", "minLength": 1, "maxLength": 64 },
    "system_prompt": { "type": "string", "minLength": 1, "maxLength": 16384 },
    "allowed_tools": {
      "type": "array",
      "items": { "type": "string", "minLength": 1, "maxLength": 128 },
      "maxItems": 128
    }
  }
}"#;

/// The text of the JSON Schema every skill must satisfy.
pub fn skill_schema() -> (r: &'static str)
    ensures
        r@ == SKILL_SCHEMA@,
{
    SKILL_SCHEMA
}

/// A text of at least one and at most `max` characters.
pub open spec fn text_between(s: Seq<char>, max: nat) -> bool {
    1 <= s.len() && s.len() <= max
}

/// What [`SKILL_SCHEMA`] asks of a skill: each text field between one character and its
/// limit (name 128, version 32, description 2048, author 256, license 64, system prompt
/// 16384), and at most 128 tools, each named by one to 128 characters.
pub open spec fn skill_meets_schema(s: SkillSpec) -> bool {
    &&& text_between(s.name@, 128)
    &&& text_between(s.version@, 32)
    &&& text_between(s.description@, 2048)
    &&& text_between(s.author@, 256)
    &&& text_between(s.license@, 64)
    &&& text_between(s.system_prompt@, 16384)
    &&& s.allowed_tools@.len() <= 128
    &&& forall|i: int| 0 <= i < s.allowed_tools@.len() ==> text_between(#[trigger] s.allowed_tools@[i]@, 128)
}

/// What `jsonschema::JSONSchema::compile` of a schema text (read with
/// `serde_json::from_str`) and `JSONSchema::validate` of a skill, given by its fields as a
/// JSON object, yield: the messages (`Display`) of the violations in the order the
/// validator reports them, or `None` for a schema that does not read or compile.
pub uninterp spec fn schema_violations(
    schema: Seq<char>,
    name: Seq<char>,
    version: Seq<char>,
    description: Seq<char>,
    author: Seq<char>,
    license: Seq<char>,
    system_prompt: Seq<char>,
    allowed_tools: Seq<Seq<char>>,
) -> Option<Seq<Seq<char>>>;

/// [`schema_violations`] of a schema text and a skill.
pub open spec fn violations_of(schema: Seq<char>, s: SkillSpec) -> Option<Seq<Seq<char>>> {
    schema_violations(
        schema,
        s.name@,
        s.version@,
        s.description@,
        s.author@,
        s.license@,
        s.system_prompt@,
        string_views(s.allowed_tools@),
    )
}

/// The view of a validation's messages.
pub open spec fn messages_view(r: Option<Vec<String>>) -> Option<Seq<Seq<char>>> {
    match r {
        Some(ms) => Some(string_views(ms@)),
        None => None,
    }
}

/// `jsonschema::JSONSchema::compile` of `schema` (read with `serde_json::from_str`), then
/// `JSONSchema::validate` of the spec as a JSON object of its seven fields: the messages
/// of the violations (none when the spec is valid), or nothing for a schema that does not
/// read or compile; named by [`schema_violations`]. For [`SKILL_SCHEMA`], whose keywords
/// are `type`, `required`, `additionalProperties`, `properties`, `minLength`/`maxLength`
/// (counted in characters) and `items`/`maxItems`, the schema compiles and there is no
/// message exactly when the spec meets [`skill_meets_schema`].
#[verifier::external_body]
fn schema_messages(schema: &str, spec: &SkillSpec) -> (r: Option<Vec<String>>)
    ensures
        messages_view(r) == schema_violations(
            schema@,
            spec.name@,
            spec.version@,
            spec.description@,
            spec.author@,
            spec.license@,
            spec.system_prompt@,
            string_views(spec.allowed_tools@),
        ),
        schema@ == SKILL_SCHEMA@ ==> r is Some,
        schema@ == SKILL_SCHEMA@ ==> (r.unwrap()@.len() == 0 <==> skill_meets_schema(*spec)),
{
    let schema: JsonValue = serde_json::from_str(schema).ok()?;
    let compiled = JSONSchema::compile(&schema).ok()?;
    let instance: JsonValue = [("name", &spec.name), ("version", &spec.version),
        ("description", &spec.description), ("author", &spec.author), ("license", &spec.license),
        ("system_prompt", &spec.system_prompt)].into_iter().map(|(k, v)| (k, JsonValue::from(&**v)))
        .chain([("allowed_tools", JsonValue::from(spec.allowed_tools.clone()))]).collect();
    let messages: Vec<String> =
        compiled.validate(&instance).err().into_iter().flatten().map(|e| e.to_string()).collect();
    Some(messages)
}

/// The texts `ms` joined with `"; "` between consecutive texts.
pub open spec fn joined_messages(ms: Seq<Seq<char>>) -> Seq<char>
    decreases ms.len(),
{
    if ms.len() == 0 {
        seq![]
    } else if ms.len() == 1 {
        ms[0]
    } else {
        joined_messages(ms.drop_last()) + "; "@ + ms.last()
    }
}

/// Executable [`joined_messages`].
fn join_messages(ms: &Vec<String>) -> (r: String)
    ensures
        r@ == joined_messages(string_views(ms@)),
{
    let mut r: Vec<char> = Vec::new();
    let mut i: usize = 0;
    while i < ms.len()
        invariant
            i <= ms@.len(),
            r@ == joined_messages(string_views(ms@.take(i as int))),
        decreases ms.len() - i,
    {
        assert(string_views(ms@.take(i + 1)).drop_last() =~= string_views(ms@.take(i as int)));
        assert(string_views(ms@.take(i + 1)).last() == ms@[i as int]@);
        if i == 0 {
            r = chars_of(ms[0].as_str());
            assert(string_views(ms@.take(1)) =~= seq![ms@[0]@]);
        } else {
            let with_sep = concat_chars(&r, &chars_of("; "));
            r = concat_chars(&with_sep, &chars_of(ms[i].as_str()));
        }
        i += 1;
    }
    assert(ms@.take(ms@.len() as int) =~= ms@);
    string_from_chars(&r)
}

/// Validates a skill against [`SKILL_SCHEMA`]: it is accepted exactly when it meets
/// [`skill_meets_schema`]; otherwise the error holds the validator's messages joined with
/// `"; "`.
pub fn validate_skill(spec: &SkillSpec) -> (r: Result<(), String>)
    ensures
        r is Ok <==> skill_meets_schema(*spec),
        r matches Err(m) ==> violations_of(SKILL_SCHEMA@, *spec) matches Some(ms) && m@
            == joined_messages(ms),
{
    validation_outcome(schema_messages(SKILL_SCHEMA, spec))
}

/// The outcome of a validation, given the validator's messages: accepted when there is
/// none, otherwise the messages joined with `"; "`; an error too when the schema did not
/// compile.
pub fn validation_outcome(messages: Option<Vec<String>>) -> (r: Result<(), String>)
    ensures
        match messages_view(messages) {
            None => r matches Err(m) && m@ == "the skill schema does not compile"@,
            Some(ms) => if ms.len() == 0 {
                r is Ok
            } else {
                r matches Err(m) && m@ == joined_messages(ms)
            },
        },
{
    match messages {
        None => Err(owned("the skill schema does not compile")),
        Some(ms) => if ms.len() == 0 {
            Ok(())
        } else {
            Err(join_messages(&ms))
        },
    }
}

/// A directory of skill files.
#[derive(Debug, Clone)]
pub struct SkillStore {
    pub dir: String,
}

/// A skill loaded from the store, with the file it came from.
#[derive(Debug, Clone)]
pub struct SkillStoreItem {
    pub path: String,
    pub spec: SkillSpec,
}

impl SkillStore {
    /// A store rooted at `dir`.
    pub fn new(dir: String) -> (store: SkillStore)
        ensures
            store.dir == dir,
    {
        SkillStore { dir }
    }
}

/// The extension of a file name, as `Path::extension` gives it: the text after the last
/// `'.'`, unless there is no `'.'`, the only `'.'` starts the name, or the name is `..`.
pub open spec fn extension_of(name: Seq<char>) -> Option<Seq<char>> {
    if name == ".."@ || !name.contains('.') {
        None
    } else {
        let i = choose|i: int| 0 <= i < name.len() && name[i] == '.' && forall|j: int|
            i < j < name.len() ==> name[j] != '.';
        if i == 0 {
            None
        } else {
            Some(name.skip(i + 1))
        }
    }
}

/// The kinds of skill files.
#[derive(Debug, Clone, Copy, PartialEq, Eq, Structural)]
pub enum SkillSource {
    Toml,
    Json,
    Markdown,
}

/// The kind of skill file a name denotes, by its extension (`toml`, `json` or `md`).
pub open spec fn skill_source_of(name: Seq<char>) -> Option<SkillSource> {
    match extension_of(name) {
        Some(e) => if e == "toml"@ {
            Some(SkillSource::Toml)
        } else if e == "json"@ {
            Some(SkillSource::Json)
        } else if e == "md"@ {
            Some(SkillSource::Markdown)
        } else {
            None
        },
        None => None,
    }
}

/// The extension of a file name.
pub fn file_extension(name: &str) -> (r: Option<String>)
    ensures
        match extension_of(name@) {
            Some(e) => r matches Some(x) && x@ == e,
            None => r is None,
        },
{
    let v = chars_of(name);
    if chars_eq(&v, &chars_of("..")) {
        return None;
    }
    let mut i = v.len();
    while i > 0 && v[i - 1] != '.'
        invariant
            i <= v@.len(),
            forall|j: int| i <= j < v@.len() ==> v@[j] != '.',
        decreases i,
    {
        i -= 1;
    }
    if i == 0 {
        return None;
    }
    let dot = i - 1;
    assert(v@.contains('.')) by {
        assert(v@[dot as int] == '.');
    }
    proof {
        let c = choose|c: int| 0 <= c < v@.len() && v@[c] == '.' && forall|j: int|
            c < j < v@.len() ==> v@[j] != '.';
        if c < dot {
            assert(v@[dot as int] == '.');
        } else if c > dot {
            assert(v@[c] != '.');
        }
    }
    if dot == 0 {
        return None;
    }
    let ext = sub_chars(&v, i, v.len());
    assert(ext@ =~= v@.skip(i as int));
    Some(string_from_chars(&ext))
}

/// The kind of skill file `name` is, if any.
pub fn skill_source(name: &str) -> (r: Option<SkillSource>)
    ensures
        r == skill_source_of(name@),
{
    match file_extension(name) {
        None => None,
        Some(e) => {
            let ev = chars_of(e.as_str());
            if chars_eq(&ev, &chars_of("toml")) {
                Some(SkillSource::Toml)
            } else if chars_eq(&ev, &chars_of("json")) {
                Some(SkillSource::Json)
            } else if chars_eq(&ev, &chars_of("md")) {
                Some(SkillSource::Markdown)
            } else {
                None
            }
        },
    }
}

/// The character views of a sequence of strings.
pub open spec fn string_views(v: Seq<String>) -> Seq<Seq<char>> {
    v.map_values(|s: String| s@)
}

/// The names in `ns` that denote skill files, in their order.
pub open spec fn skill_file_names(ns: Seq<Seq<char>>) -> Seq<Seq<char>>
    decreases ns.len(),
{
    if ns.len() == 0 {
        Seq::empty()
    } else {
        let rest = skill_file_names(ns.drop_last());
        if skill_source_of(ns.last()) is Some {
            rest.push(ns.last())
        } else {
            rest
        }
    }
}

/// The names never decrease.
pub open spec fn ascending(ns: Seq<Seq<char>>) -> bool {
    forall|i: int, j: int| 0 <= i < j < ns.len() ==> !chars_less(#[trigger] ns[j], #[trigger] ns[i])
}

/// The skill files among the names of a directory's entries, sorted (the listing order of
/// the store).
pub fn select_skill_files(names: Vec<String>) -> (r: Vec<String>)
    ensures
        ascending(string_views(r@)),
        string_views(r@).to_multiset() == skill_file_names(string_views(names@)).to_multiset(),
{
    let mut out: Vec<String> = Vec::new();
    let mut i: usize = 0;
    assert(string_views(out@) =~= Seq::<Seq<char>>::empty());
    assert(string_views(names@).take(0) =~= Seq::<Seq<char>>::empty());
    while i < names.len()
        invariant
            i <= names@.len(),
            ascending(string_views(out@)),
            string_views(out@).to_multiset() == skill_file_names(
                string_views(names@).take(i as int),
            ).to_multiset(),
        decreases names.len() - i,
    {
        let ghost prefix = string_views(names@).take(i + 1);
        assert(prefix.drop_last() =~= string_views(names@).take(i as int));
        assert(prefix.last() == names@[i as int]@);
        let n = &names[i];
        if skill_source(n.as_str()).is_some() {
            let nv = chars_of(n.as_str());
            let mut pos: usize = 0;
            let mut stop = false;
            while pos < out.len() && !stop
                invariant
                    pos <= out@.len(),
                    i < names@.len(),
                    nv@ == names@[i as int]@,
                    ascending(string_views(out@)),
                    forall|k: int| 0 <= k < pos ==> !chars_less(nv@, #[trigger] out@[k]@),
                    stop ==> pos < out@.len() && chars_less(nv@, out@[pos as int]@),
                decreases (out@.len() - pos) + (if stop {
                    0int
                } else {
                    1int
                }),
            {
                if chars_less_exec(&nv, &chars_of(out[pos].as_str())) {
                    stop = true;
                } else {
                    pos += 1;
                }
            }
            let ghost before = out@;
            out.insert(pos, owned(n.as_str()));
            proof {
                let sv = string_views(out@);
                let bv = string_views(before);
                assert(sv =~= bv.insert(pos as int, nv@));
                vstd::seq_lib::to_multiset_insert(bv, pos as int, nv@);
                vstd::seq_lib::to_multiset_build(skill_file_names(string_views(names@).take(i as int)), nv@);
                vstd::seq_lib::lemma_multiset_commutative(bv, seq![nv@]);
                assert forall|a: int, b: int| 0 <= a < b < sv.len() implies !chars_less(
                    #[trigger] sv[b],
                    #[trigger] sv[a],
                ) by {
                    if b < pos {
                        assert(sv[a] == bv[a] && sv[b] == bv[b]);
                    } else if b == pos {
                        assert(sv[a] == bv[a]);
                    } else if a > pos {
                        assert(sv[a] == bv[a - 1] && sv[b] == bv[b - 1]);
                    } else if a == pos {
                        assert(sv[b] == bv[b - 1]);
                        lemma_chars_less_total(nv@, bv[pos as int]);
                        if b - 1 > pos {
                            lemma_chars_not_less_transitive(nv@, bv[pos as int], bv[b - 1]);
                        }
                    } else {
                        assert(sv[a] == bv[a] && sv[b] == bv[b - 1]);
                        lemma_chars_less_total(nv@, bv[pos as int]);
                        lemma_chars_not_less_transitive(bv[a], nv@, bv[pos as int]);
                        if b - 1 > pos {
                            lemma_chars_not_less_transitive(bv[a], bv[pos as int], bv[b - 1]);
                        }
                    }
                }
            }
        }
        i += 1;
    }
    assert(string_views(names@).take(names@.len() as int) =~= string_views(names@));
    out
}

/// How often `x` occurs among the skill files of `ns`: as often as in `ns` when it names
/// a skill file, otherwise never.
proof fn lemma_skill_file_counts(ns: Seq<Seq<char>>, x: Seq<char>)
    ensures
        skill_file_names(ns).to_multiset().count(x) == if skill_source_of(x) is Some {
            ns.to_multiset().count(x)
        } else {
            0
        },
    decreases ns.len(),
{
    broadcast use vstd::seq_lib::group_to_multiset_ensures;
    if ns.len() == 0 {
        assert(skill_file_names(ns) =~= Seq::<Seq<char>>::empty());
        assert(ns.to_multiset() =~= vstd::multiset::Multiset::<Seq<char>>::empty());
        assert(Seq::<Seq<char>>::empty().to_multiset() =~= vstd::multiset::Multiset::<Seq<char>>::empty());
    } else {
        let m = ns.drop_last();
        let a = ns.last();
        assert(ns =~= m.push(a));
        lemma_skill_file_counts(m, x);
    }
}

/// `leq(a, b)`: `b` is not below `a`.
spec fn not_above(a: Seq<char>, b: Seq<char>) -> bool {
    !chars_less(b, a)
}

/// The store's listing does not depend on the order in which the directory hands out its
/// entries: two listings that meet the contract of [`select_skill_files`] for the same
/// names, in any order, are equal.
pub proof fn law_listing_ignores_directory_order(
    names1: Seq<Seq<char>>,
    names2: Seq<Seq<char>>,
    out1: Seq<Seq<char>>,
    out2: Seq<Seq<char>>,
)
    requires
        names1.to_multiset() == names2.to_multiset(),
        ascending(out1),
        ascending(out2),
        out1.to_multiset() == skill_file_names(names1).to_multiset(),
        out2.to_multiset() == skill_file_names(names2).to_multiset(),
    ensures
        out1 == out2,
{
    assert(skill_file_names(names1).to_multiset() =~= skill_file_names(names2).to_multiset()) by {
        assert forall|x: Seq<char>| #[trigger] skill_file_names(names1).to_multiset().count(x)
            == skill_file_names(names2).to_multiset().count(x) by {
            lemma_skill_file_counts(names1, x);
            lemma_skill_file_counts(names2, x);
        }
    }
    let leq = |a: Seq<char>, b: Seq<char>| not_above(a, b);
    assert(vstd::relations::total_ordering(leq)) by {
        assert forall|a: Seq<char>| #[trigger] leq(a, a) by {
            crate::text::lemma_chars_less_irreflexive(a);
        }
        assert forall|a: Seq<char>, b: Seq<char>| #[trigger] leq(a, b) && #[trigger] leq(b, a)
            implies a == b by {
            lemma_chars_less_total(a, b);
        }
        assert forall|a: Seq<char>, b: Seq<char>, c: Seq<char>| #[trigger] leq(a, b) && #[trigger] leq(
            b,
            c,
        ) implies leq(a, c) by {
            lemma_chars_not_less_transitive(a, b, c);
        }
        assert forall|a: Seq<char>, b: Seq<char>| #[trigger] leq(a, b) || #[trigger] leq(b, a) by {
            lemma_chars_less_total(a, b);
        }
    }
    assert(vstd::relations::sorted_by(out1, leq));
    assert(vstd::relations::sorted_by(out2, leq));
    vstd::seq_lib::lemma_sorted_unique(out1, out2, leq);
}

/// The file name of a skill in a given format.
pub open spec fn file_name_for(name: Seq<char>, ext: Seq<char>) -> Seq<char> {
    name + "."@ + ext
}

/// The extension of a format's files.
pub open spec fn format_extension(format: SkillFormat) -> Seq<char> {
    match format {
        SkillFormat::Toml => "toml"@,
        SkillFormat::Json => "json"@,
    }
}

/// The path under `dir` at which a skill named `name` is saved in `format`.
pub open spec fn saved_path(dir: Seq<char>, name: Seq<char>, format: SkillFormat) -> Seq<char> {
    path_join(dir, file_name_for(name, format_extension(format)))
}

/// The paths under `dir` tried, in order, when loading a skill named `name`.
pub open spec fn candidate_path_seq(dir: Seq<char>, name: Seq<char>) -> Seq<Seq<char>> {
    seq![
        path_join(dir, file_name_for(name, "toml"@)),
        path_join(dir, file_name_for(name, "json"@)),
        path_join(dir, file_name_for(name, "md"@)),
    ]
}

/// A non-empty file name followed by `.` and an extension without a dot has that extension.
proof fn lemma_extension_of_file_name(name: Seq<char>, ext: Seq<char>)
    requires
        name.len() > 0,
        ext.len() > 0,
        forall|j: int| 0 <= j < ext.len() ==> ext[j] != '.',
    ensures
        extension_of(file_name_for(name, ext)) == Some(ext),
{
    reveal_strlit(".");
    reveal_strlit("..");
    let f = file_name_for(name, ext);
    let n = name.len() as int;
    assert(f[n] == '.');
    assert(f.contains('.'));
    assert(f.len() > 2);
    assert(f != ".."@);
    assert forall|j: int| n < j < f.len() implies f[j] != '.' by {
        assert(f[j] == ext[j - n - 1]);
    }
    let i = choose|i: int| 0 <= i < f.len() && f[i] == '.' && forall|j: int| i < j < f.len() ==> f[j] != '.';
    assert(0 <= i < f.len() && f[i] == '.' && forall|j: int| i < j < f.len() ==> f[j] != '.');
    if i < n {
        assert(f[n] != '.');
    }
    if i > n {
        assert(f[i] == ext[i - n - 1]);
    }
    assert(i == n);
    assert(f.skip(i + 1) =~= ext);
}

/// A skill saved under a non-empty name is stored at the path that loading tries for its
/// format (TOML first, JSON second), and the file's name marks it as that format, so it is
/// read back with the format it was written in.
pub proof fn law_saved_skill_is_found_in_its_format(dir: Seq<char>, name: Seq<char>)
    requires
        name.len() > 0,
    ensures
        saved_path(dir, name, SkillFormat::Toml) == candidate_path_seq(dir, name)[0],
        saved_path(dir, name, SkillFormat::Json) == candidate_path_seq(dir, name)[1],
        skill_source_of(file_name_for(name, format_extension(SkillFormat::Toml))) == Some(
            SkillSource::Toml,
        ),
        skill_source_of(file_name_for(name, format_extension(SkillFormat::Json))) == Some(
            SkillSource::Json,
        ),
{
    assert(saved_path(dir, name, SkillFormat::Toml) == candidate_path_seq(dir, name)[0]);
    assert(saved_path(dir, name, SkillFormat::Json) == candidate_path_seq(dir, name)[1]);
    assert(extension_of(file_name_for(name, "toml"@)) == Some("toml"@)) by {
        reveal_strlit("toml");
        assert forall|j: int| 0 <= j < "toml"@.len() implies "toml"@[j] != '.' by {}
        lemma_extension_of_file_name(name, "toml"@);
    }
    assert(extension_of(file_name_for(name, "json"@)) == Some("json"@)) by {
        reveal_strlit("json");
        assert forall|j: int| 0 <= j < "json"@.len() implies "json"@[j] != '.' by {}
        lemma_extension_of_file_name(name, "json"@);
    }
    assert("json"@ != "toml"@) by {
        reveal_strlit("toml");
        reveal_strlit("json");
        assert("json"@[0] != "toml"@[0]);
    }
}

impl SkillStore {
    /// The paths a skill named `name` may be stored under, in the order they are tried:
    /// `.toml`, then `.json`, then `.md`, inside the store's directory.
    pub fn candidate_paths(&self, name: &str) -> (r: Vec<String>)
        ensures
            r@.len() == 3,
            r@[0]@ == path_join(self.dir@, file_name_for(name@, "toml"@)),
            r@[1]@ == path_join(self.dir@, file_name_for(name@, "json"@)),
            r@[2]@ == path_join(self.dir@, file_name_for(name@, "md"@)),
            string_views(r@) == candidate_path_seq(self.dir@, name@),
    {
        let mut r: Vec<String> = Vec::new();
        r.push(self.path_with_extension(name, "toml"));
        r.push(self.path_with_extension(name, "json"));
        r.push(self.path_with_extension(name, "md"));
        assert(string_views(r@) =~= candidate_path_seq(self.dir@, name@));
        r
    }

    /// The path a skill named `name` is saved under in `format`.
    pub fn save_path(&self, name: &str, format: &SkillFormat) -> (r: String)
        ensures
            r@ == saved_path(self.dir@, name@, *format),
    {
        match format {
            SkillFormat::Toml => self.path_with_extension(name, "toml"),
            SkillFormat::Json => self.path_with_extension(name, "json"),
        }
    }

    fn path_with_extension(&self, name: &str, ext: &str) -> (r: String)
        ensures
            r@ == path_join(self.dir@, file_name_for(name@, ext@)),
    {
        let f = concat_chars(&concat_chars(&chars_of(name), &chars_of(".")), &chars_of(ext));
        string_from_chars(&join_path(self.dir.as_str(), &f))
    }
}

} // verus!
