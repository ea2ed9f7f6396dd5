//! Markdown skills: a frontmatter block (TOML between `+++` lines, or YAML between `---`
//! lines) followed by a body that becomes the skill's system prompt.
use vstd::prelude::*;
use crate::skills::{SkillSpec, string_views};
use crate::frontmatter::{decode_frontmatter, frontmatter_decoding};
use crate::text::{
    CharClass, chars_of, concat_chars, string_from_chars, trim, strip_leading, lines_of, join_lines,
    char_rows, split_lines, strip_leading_chars, trim_chars, chars_eq, sub_chars,
    join_with_newlines, owned,
};

verus! {

/// The frontmatter dialect, named by its delimiter line.
#[derive(Debug, Clone, Copy, PartialEq, Eq, Structural)]
pub enum Delimiter {
    /// `+++`: TOML frontmatter.
    Toml,
    /// `---`: YAML frontmatter.
    Yaml,
}

/// The characters of a delimiter line.
pub open spec fn delimiter_text(d: Delimiter) -> Seq<char> {
    match d {
        Delimiter::Toml => seq!['+', '+', '+'],
        Delimiter::Yaml => seq!['-', '-', '-'],
    }
}

/// The delimiter that a (trimmed) line spells, if any.
pub open spec fn delimiter_named(t: Seq<char>) -> Option<Delimiter> {
    if t == delimiter_text(Delimiter::Toml) {
        Some(Delimiter::Toml)
    } else if t == delimiter_text(Delimiter::Yaml) {
        Some(Delimiter::Yaml)
    } else {
        None
    }
}

/// The first line of a markdown skill with byte-order marks removed from its start and
/// white space from both ends.
pub open spec fn opening_text(first: Seq<char>) -> Seq<char> {
    trim(strip_leading(first, CharClass::ByteOrderMark))
}

/// Line `k` is the first line after the opening one whose trimmed text is `d`.
pub open spec fn closes_at(ls: Seq<Seq<char>>, d: Seq<char>, k: int) -> bool {
    &&& 1 <= k < ls.len()
    &&& trim(ls[k]) == d
    &&& forall|j: int| 1 <= j < k ==> trim(#[trigger] ls[j]) != d
}

/// The lines `ls`, each followed by `'\n'`.
pub open spec fn block_text(ls: Seq<Seq<char>>) -> Seq<char>
    decreases ls.len(),
{
    if ls.len() == 0 {
        seq![]
    } else {
        block_text(ls.drop_last()) + ls.last().push('\n')
    }
}

/// How a markdown document splits into frontmatter and body.
pub enum Framing {
    /// The document has no lines.
    Empty,
    /// The first line is not a delimiter.
    NoOpening,
    /// No later line closes the frontmatter opened by this delimiter.
    NoClosing(Delimiter),
    /// A frontmatter block in the given dialect, and the body after it.
    Framed { delimiter: Delimiter, frontmatter: Seq<char>, body: Seq<char> },
}

/// The framing of a markdown skill document: its lines are those of `str::lines`; the
/// first one opens the frontmatter, the first later line that trims to the same
/// delimiter closes it; the frontmatter is the lines in between, each ended by `'\n'`;
/// the body is the lines after the closing one, joined with `'\n'`.
pub open spec fn framing(raw: Seq<char>) -> Framing {
    let ls = lines_of(raw);
    if ls.len() == 0 {
        Framing::Empty
    } else {
        let d = opening_text(ls[0]);
        match delimiter_named(d) {
            None => Framing::NoOpening,
            Some(del) => if exists|k: int| closes_at(ls, d, k) {
                let k = choose|k: int| closes_at(ls, d, k);
                Framing::Framed {
                    delimiter: del,
                    frontmatter: block_text(ls.subrange(1, k)),
                    body: join_lines(ls.skip(k + 1)),
                }
            } else {
                Framing::NoClosing(del)
            },
        }
    }
}

/// At most one line closes the frontmatter.
pub proof fn lemma_closing_unique(ls: Seq<Seq<char>>, d: Seq<char>, k1: int, k2: int)
    requires
        closes_at(ls, d, k1),
        closes_at(ls, d, k2),
    ensures
        k1 == k2,
{
    if k1 < k2 {
        assert(trim(ls[k1]) != d);
    } else if k2 < k1 {
        assert(trim(ls[k2]) != d);
    }
}

/// In a framed document the frontmatter ends at the first line after the opening one that
/// trims to the opening delimiter: no line strictly between the opening and the closing
/// line trims to it, the frontmatter is the lines in between and the body the lines after
/// the closing one. A document is refused as unclosed exactly when no line after the
/// opening one trims to the delimiter.
pub proof fn law_frontmatter_closes_at_first_delimiter(raw: Seq<char>)
    ensures
        framing(raw) matches Framing::Framed { frontmatter, body, .. } ==> {
            let ls = lines_of(raw);
            let d = opening_text(ls[0]);
            exists|k: int|
                {
                    &&& 1 <= k < ls.len()
                    &&& #[trigger] trim(ls[k]) == d
                    &&& forall|j: int| 1 <= j < k ==> trim(#[trigger] ls[j]) != d
                    &&& frontmatter == block_text(ls.subrange(1, k))
                    &&& body == join_lines(ls.skip(k + 1))
                }
        },
        framing(raw) is NoClosing ==> {
            let ls = lines_of(raw);
            forall|j: int| 1 <= j < ls.len() ==> trim(#[trigger] ls[j]) != opening_text(ls[0])
        },
{
    let ls = lines_of(raw);
    if ls.len() > 0 {
        let d = opening_text(ls[0]);
        if exists|k: int| closes_at(ls, d, k) {
            let k = choose|k: int| closes_at(ls, d, k);
            assert(trim(ls[k]) == d);
        } else {
            assert forall|j: int| 1 <= j < ls.len() implies trim(#[trigger] ls[j]) != d by {
                if trim(ls[j]) == d {
                    // The first such line would close the frontmatter.
                    let first = choose_first_closing(ls, d, j);
                    assert(closes_at(ls, d, first));
                }
            }
        }
    }
}

/// Some line at or before `j` (after the opening one) is the first that trims to `d`.
proof fn choose_first_closing(ls: Seq<Seq<char>>, d: Seq<char>, j: int) -> (k: int)
    requires
        1 <= j < ls.len(),
        trim(ls[j]) == d,
    ensures
        closes_at(ls, d, k),
    decreases j,
{
    if exists|i: int| 1 <= i < j && trim(#[trigger] ls[i]) == d {
        let i = choose|i: int| 1 <= i < j && trim(#[trigger] ls[i]) == d;
        choose_first_closing(ls, d, i)
    } else {
        j
    }
}

/// The fields of a markdown skill's frontmatter.
#[derive(Debug, Clone)]
pub struct MarkdownFrontmatter {
    pub name: String,
    pub version: String,
    pub description: String,
    pub author: String,
    pub license: String,
    pub allowed_tools: Vec<String>,
    pub system_prompt: Option<String>,
}

/// The fields of a markdown skill's frontmatter as character sequences.
pub struct FrontmatterFields {
    pub name: Seq<char>,
    pub version: Seq<char>,
    pub description: Seq<char>,
    pub author: Seq<char>,
    pub license: Seq<char>,
    pub allowed_tools: Seq<Seq<char>>,
    pub system_prompt: Option<Seq<char>>,
}

impl View for MarkdownFrontmatter {
    type V = FrontmatterFields;

    open spec fn view(&self) -> FrontmatterFields {
        FrontmatterFields {
            name: self.name@,
            version: self.version@,
            description: self.description@,
            author: self.author@,
            license: self.license@,
            allowed_tools: string_views(self.allowed_tools@),
            system_prompt: opt_chars(self.system_prompt),
        }
    }
}

/// Why a markdown skill could not be read.
#[derive(Debug, Clone)]
pub enum SkillError {
    /// The document has no lines.
    EmptyMarkdown { path: String },
    /// The first line is neither `+++` nor `---`.
    MissingOpeningDelimiter { path: String },
    /// The frontmatter is never closed.
    MissingClosingDelimiter { delimiter: Delimiter, path: String },
    /// The frontmatter does not decode into the skill's fields; `detail` says why.
    FrontmatterSyntax { format: Delimiter, path: String, detail: String },
    /// Neither the body nor the frontmatter gives a non-blank system prompt.
    MissingSystemPrompt { path: String },
}

/// The text that `format!("{:?}", Path::new(s))` produces for a path.
pub uninterp spec fn path_debug(s: Seq<char>) -> Seq<char>;

/// `<Path as Debug>::fmt`, through `format!`: the quoted, escaped form of the path `s`
/// (as `Path` prints it, a `'` escaped too); the result is named by [`path_debug`] of `s`.
#[verifier::external_body]
fn debug_quoted(s: &str) -> (r: String)
    ensures
        r@ == path_debug(s@),
{
    format!("{:?}", std::path::Path::new(s))
}

/// The message of a [`SkillError`]: a description of the failure and the quoted path.
pub open spec fn skill_error_text(e: SkillError) -> Seq<char> {
    match e {
        SkillError::EmptyMarkdown { path } => "empty markdown skill: "@ + path_debug(path@),
        SkillError::MissingOpeningDelimiter { path } =>
            "markdown skill must start with frontmatter delimiter (+++ for TOML or --- for YAML): "@
            + path_debug(path@),
        SkillError::MissingClosingDelimiter { delimiter, path } =>
            "markdown skill missing closing frontmatter delimiter ("@ + delimiter_text(delimiter)
            + "): "@ + path_debug(path@),
        SkillError::FrontmatterSyntax { format, path, detail } => match format {
            Delimiter::Toml => "parse TOML frontmatter: "@ + path_debug(path@),
            Delimiter::Yaml => "parse YAML frontmatter: "@ + path_debug(path@),
        },
        SkillError::MissingSystemPrompt { path } =>
            "markdown skill missing system prompt body: "@ + path_debug(path@),
    }
}

fn delimiter_chars(d: &Delimiter) -> (r: Vec<char>)
    ensures
        r@ == delimiter_text(*d),
{
    let c = match d {
        Delimiter::Toml => '+',
        Delimiter::Yaml => '-',
    };
    let mut r: Vec<char> = Vec::new();
    r.push(c);
    r.push(c);
    r.push(c);
    assert(r@ =~= delimiter_text(*d));
    r
}

impl SkillError {
    /// The error's message.
    pub fn message(&self) -> (m: String)
        ensures
            m@ == skill_error_text(*self),
    {
        let (head, path): (&str, &String) = match self {
            SkillError::EmptyMarkdown { path } => ("empty markdown skill: ", path),
            SkillError::MissingOpeningDelimiter { path } => (
                "markdown skill must start with frontmatter delimiter (+++ for TOML or --- for YAML): ",
                path,
            ),
            SkillError::MissingClosingDelimiter { delimiter: _, path } => (
                "markdown skill missing closing frontmatter delimiter (",
                path,
            ),
            SkillError::FrontmatterSyntax { format, path, detail: _ } => match format {
                Delimiter::Toml => ("parse TOML frontmatter: ", path),
                Delimiter::Yaml => ("parse YAML frontmatter: ", path),
            },
            SkillError::MissingSystemPrompt { path } => (
                "markdown skill missing system prompt body: ",
                path,
            ),
        };
        let quoted = debug_quoted(path.as_str());
        let head_chars = chars_of(head);
        let tail = chars_of(quoted.as_str());
        let msg = match self {
            SkillError::MissingClosingDelimiter { delimiter, path: _ } => {
                let d = delimiter_chars(delimiter);
                let a = concat_chars(&head_chars, &d);
                let b = concat_chars(&a, &chars_of("): "));
                concat_chars(&b, &tail)
            },
            _ => concat_chars(&head_chars, &tail),
        };
        string_from_chars(&msg)
    }
}

/// `e` is the error for a document whose framing `f` is not [`Framing::Framed`].
pub open spec fn refused_framing(f: Framing, e: SkillError, path: Seq<char>) -> bool {
    match f {
        Framing::Empty => e matches SkillError::EmptyMarkdown { path: p } && p@ == path,
        Framing::NoOpening => e matches SkillError::MissingOpeningDelimiter { path: p } && p@
            == path,
        Framing::NoClosing(d) => e matches SkillError::MissingClosingDelimiter {
            delimiter: x,
            path: p,
        } && x == d && p@ == path,
        Framing::Framed { .. } => false,
    }
}

/// The frontmatter and body of a framed markdown skill.
#[derive(Debug, Clone)]
pub struct FrontmatterParts {
    pub delimiter: Delimiter,
    pub frontmatter: String,
    pub body: String,
}

/// The first line after the opening one that trims to `d`, if any.
fn find_closing(ls: &Vec<Vec<char>>, d: &Vec<char>) -> (k: Option<usize>)
    ensures
        match k {
            Some(k) => closes_at(char_rows(ls@), d@, k as int),
            None => forall|j: int| 1 <= j < ls@.len() ==> trim(#[trigger] char_rows(ls@)[j]) != d@,
        },
{
    let mut j: usize = 1;
    while j < ls.len()
        invariant
            1 <= j,
            j <= ls.len() || ls.len() == 0,
            forall|m: int| 1 <= m < j && m < ls@.len() ==> trim(#[trigger] char_rows(ls@)[m]) != d@,
        decreases ls.len() - j,
    {
        let t = trim_chars(&ls[j]);
        assert(char_rows(ls@)[j as int] == ls@[j as int]@);
        if chars_eq(&t, d) {
            return Some(j);
        }
        j += 1;
    }
    None
}

/// The lines `ls[1..k]`, each followed by `'\n'`.
fn block_between(ls: &Vec<Vec<char>>, k: usize) -> (r: Vec<char>)
    requires
        1 <= k <= ls.len(),
    ensures
        r@ == block_text(char_rows(ls@).subrange(1, k as int)),
{
    let mut r: Vec<char> = Vec::new();
    let mut j: usize = 1;
    assert(char_rows(ls@).subrange(1, 1) =~= seq![]);
    while j < k
        invariant
            1 <= j <= k <= ls.len(),
            r@ == block_text(char_rows(ls@).subrange(1, j as int)),
        decreases k - j,
    {
        let ghost rows = char_rows(ls@);
        assert(rows.subrange(1, j + 1).drop_last() =~= rows.subrange(1, j as int));
        assert(rows.subrange(1, j + 1).last() == ls@[j as int]@);
        let mut line = sub_chars(&ls[j], 0, ls[j].len());
        line.push('\n');
        r = concat_chars(&r, &line);
        j += 1;
    }
    r
}

/// The lines `ls[start..]`.
fn rows_from(ls: &Vec<Vec<char>>, start: usize) -> (r: Vec<Vec<char>>)
    requires
        start <= ls.len(),
    ensures
        char_rows(r@) == char_rows(ls@).skip(start as int),
{
    let mut r: Vec<Vec<char>> = Vec::new();
    let mut j: usize = start;
    while j < ls.len()
        invariant
            start <= j <= ls.len(),
            char_rows(r@) == char_rows(ls@).subrange(start as int, j as int),
        decreases ls.len() - j,
    {
        let line = sub_chars(&ls[j], 0, ls[j].len());
        assert(line@ =~= ls@[j as int]@);
        let ghost before = r@;
        r.push(line);
        assert(char_rows(r@) =~= char_rows(before).push(line@));
        assert(char_rows(ls@).subrange(start as int, j + 1) =~= char_rows(ls@).subrange(
            start as int,
            j as int,
        ).push(ls@[j as int]@));
        j += 1;
    }
    assert(char_rows(ls@).subrange(start as int, ls@.len() as int) =~= char_rows(ls@).skip(
        start as int,
    ));
    r
}


/// Splits a markdown skill into its frontmatter block and body, as [`framing`] describes.
pub fn split_frontmatter(raw: &str, path: &str) -> (r: Result<FrontmatterParts, SkillError>)
    ensures
        match framing(raw@) {
            Framing::Framed { delimiter, frontmatter, body } => r matches Ok(parts)
                && parts.delimiter == delimiter && parts.frontmatter@ == frontmatter
                && parts.body@ == body,
            f => r matches Err(e) && refused_framing(f, e, path@),
        },
{
    let chars = chars_of(raw);
    let ls = split_lines(&chars);
    let ghost rows = char_rows(ls@);
    if ls.len() == 0 {
        return Err(SkillError::EmptyMarkdown { path: owned(path) });
    }
    assert(rows[0] == ls@[0]@);
    let first = strip_leading_chars(&ls[0], &CharClass::ByteOrderMark);
    let d = trim_chars(&first);
    let toml_delim = delimiter_chars(&Delimiter::Toml);
    let yaml_delim = delimiter_chars(&Delimiter::Yaml);
    let delimiter = if chars_eq(&d, &toml_delim) {
        Delimiter::Toml
    } else if chars_eq(&d, &yaml_delim) {
        Delimiter::Yaml
    } else {
        return Err(SkillError::MissingOpeningDelimiter { path: owned(path) });
    };
    assert(delimiter_named(d@) == Some(delimiter));
    match find_closing(&ls, &d) {
        None => {
            assert(!exists|k: int| closes_at(rows, d@, k)) by {
                if exists|k: int| closes_at(rows, d@, k) {
                    let k = choose|k: int| closes_at(rows, d@, k);
                    assert(trim(rows[k]) != d@);
                }
            }
            Err(SkillError::MissingClosingDelimiter { delimiter, path: owned(path) })
        },
        Some(k) => {
            proof {
                let c = choose|c: int| closes_at(rows, d@, c);
                lemma_closing_unique(rows, d@, c, k as int);
            }
            let fm = block_between(&ls, k);
            let rest = rows_from(&ls, k + 1);
            let body = join_with_newlines(&rest);
            Ok(
                FrontmatterParts {
                    delimiter,
                    frontmatter: string_from_chars(&fm),
                    body: string_from_chars(&body),
                },
            )
        },
    }
}

/// The view of an optional string.
pub open spec fn opt_chars(o: Option<String>) -> Option<Seq<char>> {
    match o {
        Some(s) => Some(s@),
        None => None,
    }
}

/// The system prompt of a markdown skill: the trimmed body when it is not blank,
/// otherwise the trimmed frontmatter prompt when there is one and it is not blank.
pub open spec fn chosen_prompt(frontmatter_prompt: Option<Seq<char>>, body: Seq<char>) -> Option<
    Seq<char>,
> {
    if trim(body).len() > 0 {
        Some(trim(body))
    } else {
        match frontmatter_prompt {
            Some(p) => if trim(p).len() > 0 {
                Some(trim(p))
            } else {
                None
            },
            None => None,
        }
    }
}

/// The skill described by frontmatter `fm` and body `body`: the frontmatter fields, with
/// the system prompt chosen by [`chosen_prompt`]; without one, the skill is refused.
pub fn assemble_markdown_skill(fm: MarkdownFrontmatter, body: &str, path: &str) -> (r: Result<
    SkillSpec,
    SkillError,
>)
    ensures
        match chosen_prompt(opt_chars(fm.system_prompt), body@) {
            Some(p) => r matches Ok(spec) && spec.system_prompt@ == p && spec.name == fm.name
                && spec.version == fm.version && spec.description == fm.description && spec.author
                == fm.author && spec.license == fm.license && spec.allowed_tools
                == fm.allowed_tools,
            None => r matches Err(SkillError::MissingSystemPrompt { path: p }) && p@ == path@,
        },
{
    let body_prompt = trim_chars(&chars_of(body));
    let prompt = if body_prompt.len() > 0 {
        body_prompt
    } else {
        match &fm.system_prompt {
            Some(sp) => {
                let t = trim_chars(&chars_of(sp.as_str()));
                if t.len() > 0 {
                    t
                } else {
                    return Err(SkillError::MissingSystemPrompt { path: owned(path) });
                }
            },
            None => {
                return Err(SkillError::MissingSystemPrompt { path: owned(path) });
            },
        }
    };
    let MarkdownFrontmatter { name, version, description, author, license, allowed_tools, .. } =
        fm;
    Ok(
        SkillSpec {
            name,
            version,
            description,
            author,
            license,
            system_prompt: string_from_chars(&prompt),
            allowed_tools,
        },
    )
}

/// Reads a markdown skill: the frontmatter block gives the fields, the body (or, when
/// the body is blank, the frontmatter's `system_prompt`) gives the system prompt.
pub fn parse_markdown_skill(raw: &str, path: &str) -> (r: Result<SkillSpec, SkillError>)
    ensures
        match framing(raw@) {
            Framing::Framed { delimiter, frontmatter, body } => match frontmatter_decoding(
                delimiter,
                frontmatter,
            ) {
                Err(detail) => r matches Err(SkillError::FrontmatterSyntax { format, path: p, detail: d })
                    && format == delimiter && p@ == path@ && d@ == detail,
                Ok(f) => match chosen_prompt(f.system_prompt, body) {
                    Some(prompt) => r matches Ok(spec) && spec.name@ == f.name && spec.version@
                        == f.version && spec.description@ == f.description && spec.author@
                        == f.author && spec.license@ == f.license && string_views(
                        spec.allowed_tools@,
                    ) == f.allowed_tools && spec.system_prompt@ == prompt,
                    None => r matches Err(SkillError::MissingSystemPrompt { path: p }) && p@
                        == path@,
                },
            },
            f => r matches Err(e) && refused_framing(f, e, path@),
        },
{
    let parts = split_frontmatter(raw, path)?;
    let fm = match decode_frontmatter(&parts.delimiter, parts.frontmatter.as_str()) {
        Ok(fm) => fm,
        Err(detail) => {
            return Err(
                SkillError::FrontmatterSyntax { format: parts.delimiter, path: owned(path), detail },
            );
        },
    };
    assemble_markdown_skill(fm, parts.body.as_str(), path)
}

} // verus!
