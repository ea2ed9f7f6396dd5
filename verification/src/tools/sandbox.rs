//! The filesystem tools' sandbox: which paths a skill may name, and the limits on what is
//! read, written and listed.
use vstd::prelude::*;
use crate::text::{chars_of, concat_chars, owned, string_from_chars, trim, trim_chars, sub_chars,
    chars_eq};

verus! {

/// The segments of `cur + rest` separated by `'/'` (empty segments included).
pub open spec fn segments_from(cur: Seq<char>, rest: Seq<char>) -> Seq<Seq<char>>
    decreases rest.len(),
{
    if rest.len() == 0 {
        seq![cur]
    } else if rest[0] == '/' {
        seq![cur] + segments_from(Seq::empty(), rest.drop_first())
    } else {
        segments_from(cur.push(rest[0]), rest.drop_first())
    }
}

/// The `'/'`-separated segments of `s`.
pub open spec fn segments(s: Seq<char>) -> Seq<Seq<char>> {
    segments_from(Seq::empty(), s)
}

/// The segments that are path components: not empty and not `"."`.
pub open spec fn normal_parts(segs: Seq<Seq<char>>) -> Seq<Seq<char>>
    decreases segs.len(),
{
    if segs.len() == 0 {
        Seq::empty()
    } else if segs[0].len() == 0 || segs[0] == "."@ {
        normal_parts(segs.drop_first())
    } else {
        seq![segs[0]] + normal_parts(segs.drop_first())
    }
}

/// The components of a Unix path, as `Path::components` yields them: `"/"` for a root,
/// `"."` for a leading current-directory mark, then every segment that is neither empty
/// nor `"."` (a `".."` segment is kept).
pub open spec fn path_components(s: Seq<char>) -> Seq<Seq<char>> {
    let segs = segments(s);
    if s.len() > 0 && s[0] == '/' {
        seq!["/"@] + normal_parts(segs.drop_first())
    } else if segs[0] == "."@ {
        seq!["."@] + normal_parts(segs.drop_first())
    } else {
        normal_parts(segs)
    }
}

/// `Path::join` of a relative `rel` onto `base`: a `'/'` goes between them unless `base`
/// is empty or already ends in `'/'`.
pub open spec fn path_join(base: Seq<char>, rel: Seq<char>) -> Seq<char> {
    if base.len() == 0 || base.last() == '/' {
        base + rel
    } else {
        base + seq!['/'] + rel
    }
}

/// `Path::starts_with`: the components of `base` are a prefix of those of `path`.
pub open spec fn path_starts_with(path: Seq<char>, base: Seq<char>) -> bool {
    let p = path_components(path);
    let b = path_components(base);
    b.len() <= p.len() && p.take(b.len() as int) == b
}

fn segments_exec(v: &Vec<char>) -> (out: Vec<Vec<char>>)
    ensures
        crate::text::char_rows(out@) == segments(v@),
{
    let mut out: Vec<Vec<char>> = Vec::new();
    let mut cur: Vec<char> = Vec::new();
    let mut i: usize = 0;
    assert(v@.skip(0) =~= v@);
    while i < v.len()
        invariant
            i <= v.len(),
            segments(v@) == crate::text::char_rows(out@) + segments_from(cur@, v@.skip(i as int)),
        decreases v.len() - i,
    {
        assert(v@.skip(i as int).drop_first() =~= v@.skip(i + 1));
        if v[i] == '/' {
            let ghost before = out@;
            out.push(cur);
            assert(crate::text::char_rows(out@) =~= crate::text::char_rows(before).push(cur@));
            cur = Vec::new();
            assert(cur@ =~= Seq::<char>::empty());
        } else {
            cur.push(v[i]);
        }
        i += 1;
    }
    let ghost before = out@;
    out.push(cur);
    assert(crate::text::char_rows(out@) =~= crate::text::char_rows(before).push(cur@));
    out
}

fn normal_parts_exec(segs: &Vec<Vec<char>>, start: usize) -> (out: Vec<Vec<char>>)
    requires
        start <= segs.len(),
    ensures
        crate::text::char_rows(out@) == normal_parts(crate::text::char_rows(segs@).skip(start as int)),
{
    let ghost rows = crate::text::char_rows(segs@);
    let mut out: Vec<Vec<char>> = Vec::new();
    let mut i = start;
    let dot = chars_of(".");
    while i < segs.len()
        invariant
            start <= i <= segs@.len(),
            rows == crate::text::char_rows(segs@),
            dot@ == "."@,
            normal_parts(rows.skip(start as int)) == crate::text::char_rows(out@) + normal_parts(
                rows.skip(i as int),
            ),
        decreases segs.len() - i,
    {
        assert(rows.skip(i as int).drop_first() =~= rows.skip(i + 1));
        assert(rows.skip(i as int)[0] == segs@[i as int]@);
        let s = &segs[i];
        if !(s.len() == 0 || chars_eq(s, &dot)) {
            let copy = sub_chars(s, 0, s.len());
            assert(copy@ =~= s@);
            let ghost before = out@;
            out.push(copy);
            assert(crate::text::char_rows(out@) =~= crate::text::char_rows(before) + seq![s@]);
        }
        i += 1;
    }
    assert(crate::text::char_rows(out@) + normal_parts(rows.skip(i as int)) =~= crate::text::char_rows(out@));
    out
}

/// Executable [`path_components`].
pub fn path_components_exec(v: &Vec<char>) -> (out: Vec<Vec<char>>)
    ensures
        crate::text::char_rows(out@) == path_components(v@),
{
    let segs = segments_exec(v);
    let ghost rows = crate::text::char_rows(segs@);
    assert(rows.len() > 0) by {
        lemma_segments_nonempty(Seq::empty(), v@);
    }
    assert(rows.skip(0) =~= rows);
    assert(rows.drop_first() =~= rows.skip(1));
    assert(rows[0] == segs@[0]@);
    let dot = chars_of(".");
    if v.len() > 0 && v[0] == '/' {
        let mut out: Vec<Vec<char>> = Vec::new();
        out.push(chars_of("/"));
        let rest = normal_parts_exec(&segs, 1);
        let mut i: usize = 0;
        while i < rest.len()
            invariant
                i <= rest@.len(),
                out@.len() == i + 1,
                out@[0]@ == "/"@,
                forall|m: int| 0 <= m < i ==> #[trigger] out@[m + 1]@ == rest@[m]@,
            decreases rest.len() - i,
        {
            out.push(sub_chars(&rest[i], 0, rest[i].len()));
            assert(out@[i + 1]@ =~= rest@[i as int]@);
            i += 1;
        }
        assert forall|m: int| 0 <= m < out@.len() implies #[trigger] crate::text::char_rows(out@)[m]
            == (seq!["/"@] + crate::text::char_rows(rest@))[m] by {
            if m > 0 {
                assert(out@[(m - 1) + 1]@ == rest@[m - 1]@);
            }
        }
        assert(crate::text::char_rows(out@) =~= seq!["/"@] + crate::text::char_rows(rest@));
        out
    } else if chars_eq(&segs[0], &dot) {
        let mut out: Vec<Vec<char>> = Vec::new();
        out.push(chars_of("."));
        let rest = normal_parts_exec(&segs, 1);
        let mut i: usize = 0;
        while i < rest.len()
            invariant
                i <= rest@.len(),
                out@.len() == i + 1,
                out@[0]@ == "."@,
                forall|m: int| 0 <= m < i ==> #[trigger] out@[m + 1]@ == rest@[m]@,
            decreases rest.len() - i,
        {
            out.push(sub_chars(&rest[i], 0, rest[i].len()));
            assert(out@[i + 1]@ =~= rest@[i as int]@);
            i += 1;
        }
        assert forall|m: int| 0 <= m < out@.len() implies #[trigger] crate::text::char_rows(out@)[m]
            == (seq!["."@] + crate::text::char_rows(rest@))[m] by {
            if m > 0 {
                assert(out@[(m - 1) + 1]@ == rest@[m - 1]@);
            }
        }
        assert(crate::text::char_rows(out@) =~= seq!["."@] + crate::text::char_rows(rest@));
        out
    } else {
        normal_parts_exec(&segs, 0)
    }
}

/// A path always has at least one segment.
proof fn lemma_segments_nonempty(cur: Seq<char>, rest: Seq<char>)
    ensures
        segments_from(cur, rest).len() > 0,
    decreases rest.len(),
{
    if rest.len() > 0 && rest[0] != '/' {
        lemma_segments_nonempty(cur.push(rest[0]), rest.drop_first());
    }
}

/// Why a path was refused.
#[derive(Debug, Clone, Copy, PartialEq, Eq, Structural)]
pub enum SandboxError {
    /// The path is blank.
    EmptyPath,
    /// The path is absolute.
    AbsolutePath,
    /// The path has a `..` component.
    ParentDirectory,
    /// The resolved path is outside the sandbox root.
    EscapesRoot,
}

/// The message of a [`SandboxError`].
pub open spec fn sandbox_error_text(e: SandboxError) -> Seq<char> {
    match e {
        SandboxError::EmptyPath => "empty path"@,
        SandboxError::AbsolutePath => "absolute paths are not allowed"@,
        SandboxError::ParentDirectory => "parent directory components ('..') are not allowed"@,
        SandboxError::EscapesRoot => "path escapes sandbox root"@,
    }
}

impl SandboxError {
    /// The error's message.
    pub fn message(&self) -> (m: String)
        ensures
            m@ == sandbox_error_text(*self),
    {
        match self {
            SandboxError::EmptyPath => owned("empty path"),
            SandboxError::AbsolutePath => owned("absolute paths are not allowed"),
            SandboxError::ParentDirectory => owned(
                "parent directory components ('..') are not allowed",
            ),
            SandboxError::EscapesRoot => owned("path escapes sandbox root"),
        }
    }
}

/// Checks a path a tool was given and joins it onto the sandbox root: a blank path, an
/// absolute path and a path with a `..` component are refused, in that order.
pub fn sandbox_join(root: &str, input: &str) -> (r: Result<String, SandboxError>)
    ensures
        trim(input@).len() == 0 ==> r matches Err(SandboxError::EmptyPath),
        trim(input@).len() > 0 && input@[0] == '/' ==> r matches Err(SandboxError::AbsolutePath),
        trim(input@).len() > 0 && input@[0] != '/' && path_components(input@).contains(".."@)
            ==> r matches Err(SandboxError::ParentDirectory),
        trim(input@).len() > 0 && input@[0] != '/' && !path_components(input@).contains(".."@)
            ==> (r matches Ok(p) && p@ == path_join(root@, input@)),
{
    let v = chars_of(input);
    let t = trim_chars(&v);
    if t.len() == 0 {
        return Err(SandboxError::EmptyPath);
    }
    assert(v@.len() > 0) by {
        if v@.len() == 0 {
            assert(crate::text::strip_leading(v@, crate::text::CharClass::WhiteSpace) =~= v@);
        }
    }
    if v[0] == '/' {
        return Err(SandboxError::AbsolutePath);
    }
    let comps = path_components_exec(&v);
    let up = chars_of("..");
    let mut i: usize = 0;
    while i < comps.len()
        invariant
            i <= comps@.len(),
            up@ == ".."@,
            v@ == input@,
            trim(input@).len() > 0,
            input@[0] != '/',
            crate::text::char_rows(comps@) == path_components(input@),
            forall|m: int| 0 <= m < i ==> #[trigger] comps@[m]@ != ".."@,
        decreases comps.len() - i,
    {
        if chars_eq(&comps[i], &up) {
            assert(crate::text::char_rows(comps@)[i as int] == ".."@);
            return Err(SandboxError::ParentDirectory);
        }
        i += 1;
    }
    assert(!path_components(input@).contains(".."@)) by {
        if path_components(input@).contains(".."@) {
            let m = choose|m: int| 0 <= m < path_components(input@).len() && path_components(input@)[m] == ".."@;
            assert(comps@[m]@ == ".."@);
        }
    }
    Ok(string_from_chars(&join_path(root, &v)))
}

/// Executable [`path_join`].
pub fn join_path(base: &str, rel: &Vec<char>) -> (r: Vec<char>)
    ensures
        r@ == path_join(base@, rel@),
{
    let b = chars_of(base);
    if b.len() == 0 || b[b.len() - 1] == '/' {
        concat_chars(&b, rel)
    } else {
        let mut sep: Vec<char> = Vec::new();
        sep.push('/');
        concat_chars(&concat_chars(&b, &sep), rel)
    }
}

/// Keeps a resolved path only if it lies under the (resolved) sandbox root.
pub fn confirm_in_sandbox(resolved: String, root: &str) -> (r: Result<String, SandboxError>)
    ensures
        path_starts_with(resolved@, root@) ==> r == Ok::<String, SandboxError>(resolved),
        !path_starts_with(resolved@, root@) ==> r matches Err(SandboxError::EscapesRoot),
{
    let p = path_components_exec(&chars_of(resolved.as_str()));
    let b = path_components_exec(&chars_of(root));
    let ghost pv = crate::text::char_rows(p@);
    let ghost bv = crate::text::char_rows(b@);
    if b.len() > p.len() {
        return Err(SandboxError::EscapesRoot);
    }
    let mut i: usize = 0;
    while i < b.len()
        invariant
            b@.len() <= p@.len(),
            i <= b@.len(),
            pv == crate::text::char_rows(p@),
            bv == crate::text::char_rows(b@),
            pv == path_components(resolved@),
            bv == path_components(root@),
            forall|m: int| 0 <= m < i ==> #[trigger] pv[m] == bv[m],
        decreases b.len() - i,
    {
        if !chars_eq(&p[i], &b[i]) {
            assert(pv.take(bv.len() as int)[i as int] != bv[i as int]);
            return Err(SandboxError::EscapesRoot);
        }
        i += 1;
    }
    assert(pv.take(bv.len() as int) =~= bv);
    Ok(resolved)
}

/// Splitting at a `'/'`: the segments of `x/y` are those of `x` followed by those of `y`.
proof fn lemma_segments_split(cur: Seq<char>, x: Seq<char>, y: Seq<char>)
    ensures
        segments_from(cur, x + seq!['/'] + y) == segments_from(cur, x) + segments(y),
    decreases x.len(),
{
    if x.len() == 0 {
        assert(x + seq!['/'] + y =~= seq!['/'] + y);
        assert((seq!['/'] + y).drop_first() =~= y);
    } else if x[0] == '/' {
        assert((x + seq!['/'] + y).drop_first() =~= x.drop_first() + seq!['/'] + y);
        lemma_segments_split(Seq::empty(), x.drop_first(), y);
    } else {
        assert((x + seq!['/'] + y).drop_first() =~= x.drop_first() + seq!['/'] + y);
        lemma_segments_split(cur.push(x[0]), x.drop_first(), y);
    }
}

/// Keeping the path components distributes over concatenation.
proof fn lemma_normal_parts_concat(a: Seq<Seq<char>>, b: Seq<Seq<char>>)
    ensures
        normal_parts(a + b) == normal_parts(a) + normal_parts(b),
    decreases a.len(),
{
    if a.len() == 0 {
        assert(a + b =~= b);
    } else {
        assert((a + b).drop_first() =~= a.drop_first() + b);
        lemma_normal_parts_concat(a.drop_first(), b);
        assert(normal_parts(a) + normal_parts(b) =~= if a[0].len() == 0 || a[0] == "."@ {
            normal_parts(a.drop_first()) + normal_parts(b)
        } else {
            seq![a[0]] + (normal_parts(a.drop_first()) + normal_parts(b))
        });
    }
}

/// The components a path keeps after its first segment are among its components.
proof fn lemma_normal_parts_in_components(input: Seq<char>, c: Seq<char>)
    requires
        input.len() > 0,
        input[0] != '/',
        normal_parts(segments(input)).contains(c),
    ensures
        path_components(input).contains(c),
{
    let segs = segments(input);
    lemma_segments_nonempty(Seq::empty(), input);
    if segs[0] == "."@ {
        assert(segs =~= seq![segs[0]] + segs.drop_first());
        lemma_normal_parts_concat(seq![segs[0]], segs.drop_first());
        assert(normal_parts(seq![segs[0]]) =~= Seq::<Seq<char>>::empty()) by {
            assert(seq![segs[0]].drop_first() =~= Seq::<Seq<char>>::empty());
        }
        assert(normal_parts(segs) =~= normal_parts(segs.drop_first()));
        let i = choose|i: int| 0 <= i < normal_parts(segs).len() && normal_parts(segs)[i] == c;
        assert(path_components(input)[i + 1] == c);
    }
}

/// A path that passes the checks of [`sandbox_join`] stays under the root once joined:
/// the root's components come first, and none of the components after them is `..`.
pub proof fn law_accepted_path_stays_under_root(root: Seq<char>, input: Seq<char>)
    requires
        trim(input).len() > 0,
        input[0] != '/',
        !path_components(input).contains(".."@),
    ensures
        path_starts_with(path_join(root, input), root),
        !path_components(path_join(root, input)).skip(path_components(root).len() as int).contains(
            ".."@,
        ),
{
    let j = path_join(root, input);
    let tail = normal_parts(segments(input));
    assert(input.len() > 0) by {
        if input.len() == 0 {
            assert(crate::text::strip_leading(input, crate::text::CharClass::WhiteSpace) =~= input);
        }
    }
    assert(!tail.contains(".."@)) by {
        if tail.contains(".."@) {
            lemma_normal_parts_in_components(input, ".."@);
        }
    }
    if root.len() == 0 {
        assert(j == input);
        reveal_strlit(".");
        let empty_seg: Seq<Seq<char>> = seq![Seq::<char>::empty()];
        assert(segments(root) =~= empty_seg);
        assert("."@.len() == 1);
        assert(empty_seg[0] != "."@);
        assert(empty_seg.drop_first() =~= Seq::<Seq<char>>::empty());
        assert(normal_parts(empty_seg) == normal_parts(empty_seg.drop_first()));
        assert(path_components(root) =~= Seq::<Seq<char>>::empty());
        assert(path_components(j).skip(0) =~= path_components(j));
        assert(path_components(j).take(0) =~= Seq::<Seq<char>>::empty());
    } else {
        let b = if root.last() == '/' {
            root.drop_last()
        } else {
            root
        };
        assert(j =~= b + seq!['/'] + input);
        lemma_segments_split(Seq::empty(), b, input);
        lemma_segments_split(Seq::empty(), b, Seq::empty());
        lemma_segments_nonempty(Seq::empty(), b);
        let sb = segments(b);
        let sj = segments(j);
        let sr = segments(root);
        let empty_seg: Seq<Seq<char>> = seq![Seq::<char>::empty()];
        assert(segments(Seq::<char>::empty()) =~= empty_seg);
        assert(empty_seg.drop_first() =~= Seq::<Seq<char>>::empty());
        assert(normal_parts(empty_seg) == normal_parts(empty_seg.drop_first()));
        if root.last() == '/' {
            assert(root =~= b + seq!['/'] + Seq::<char>::empty());
            assert(sr == sb + empty_seg);
        } else {
            assert(sr == sb);
        }
        assert(sj == sb + segments(input));
        assert(sj[0] == sb[0]);
        assert(sj.drop_first() =~= sb.drop_first() + segments(input));
        lemma_normal_parts_concat(sb.drop_first(), segments(input));
        lemma_normal_parts_concat(sb, segments(input));
        lemma_normal_parts_concat(sb.drop_first(), empty_seg);
        lemma_normal_parts_concat(sb, empty_seg);
        assert(normal_parts(sr) == normal_parts(sb));
        assert(sr[0] == sb[0]);
        if root.last() == '/' {
            assert(sr.drop_first() =~= sb.drop_first() + empty_seg);
        } else {
            assert(sr.drop_first() == sb.drop_first());
        }
        assert(normal_parts(sr.drop_first()) == normal_parts(sb.drop_first()));
        if root[0] == '/' {
            assert(j[0] == '/');
            assert(path_components(j) =~= path_components(root) + tail);
        } else {
            assert(b.len() > 0 && b[0] == root[0]);
            assert(j[0] == root[0]);
            assert(path_components(j) =~= path_components(root) + tail);
        }
        assert(path_components(j).take(path_components(root).len() as int) =~= path_components(root));
        assert(path_components(j).skip(path_components(root).len() as int) =~= tail);
    }
}

/// A requested limit, defaulting to and capped by `cap`.
pub fn capped_limit(requested: Option<u64>, cap: u64) -> (r: u64)
    ensures
        r == (match requested {
            Some(v) => if v < cap {
                v
            } else {
                cap
            },
            None => cap,
        }),
{
    match requested {
        Some(v) => if v < cap {
            v
        } else {
            cap
        },
        None => cap,
    }
}

/// The first `max` bytes of `data`, and whether anything was cut off.
pub fn truncate_bytes(data: Vec<u8>, max: u64) -> (r: (Vec<u8>, bool))
    ensures
        r.1 == (data@.len() > max),
        r.1 ==> r.0@ == data@.take(max as int),
        !r.1 ==> r.0@ == data@,
{
    if (data.len() as u64) <= max {
        return (data, false);
    }
    let n = max as usize;
    let mut out: Vec<u8> = Vec::new();
    let mut i: usize = 0;
    while i < n
        invariant
            n == max,
            n < data@.len(),
            i <= n,
            out@ == data@.take(i as int),
        decreases n - i,
    {
        out.push(data[i]);
        assert(data@.take(i + 1) =~= data@.take(i as int).push(data@[i as int]));
        i += 1;
    }
    (out, true)
}

/// Why a write was refused.
#[derive(Debug, Clone)]
pub enum WriteError {
    /// The content is longer than the write limit.
    TooLarge,
    /// The file exists and overwriting was not asked for.
    Exists { path: String },
}

/// The message of a [`WriteError`].
pub open spec fn write_error_text(e: WriteError) -> Seq<char> {
    match e {
        WriteError::TooLarge => "content exceeds max_write_bytes"@,
        WriteError::Exists { path } => "file exists (set overwrite=true): "@ + path@,
    }
}

impl WriteError {
    /// The error's message.
    pub fn message(&self) -> (m: String)
        ensures
            m@ == write_error_text(*self),
    {
        match self {
            WriteError::TooLarge => owned("content exceeds max_write_bytes"),
            WriteError::Exists { path } => string_from_chars(
                &concat_chars(&chars_of("file exists (set overwrite=true): "), &chars_of(path.as_str())),
            ),
        }
    }
}

/// Content longer (in UTF-8 bytes, what `str::len` counts) than the write limit is refused.
pub fn check_write_size(content: &str, max_write_bytes: u64) -> (r: Result<(), WriteError>)
    ensures
        r is Ok <==> crate::text::utf8_len(content@) <= max_write_bytes,
        r is Ok <==> vstd::utf8::encode_utf8(content@).len() <= max_write_bytes,
        r is Err ==> r matches Err(WriteError::TooLarge),
{
    proof {
        crate::text::lemma_utf8_len_is_encoding_len(content@);
    }
    let v = chars_of(content);
    let mut total: u128 = 0;
    let mut i: usize = 0;
    assert(v@.take(0) =~= Seq::<char>::empty());
    while i < v.len()
        invariant
            i <= v@.len(),
            total == crate::text::utf8_len(v@.take(i as int)),
            total <= 4 * i,
        decreases v.len() - i,
    {
        proof {
            assert(v@.take(i + 1) =~= v@.take(i as int).push(v@[i as int]));
            crate::text::lemma_utf8_len_push(v@.take(i as int), v@[i as int]);
        }
        total = total + crate::text::char_utf8_width(v[i]) as u128;
        i += 1;
    }
    assert(v@.take(i as int) =~= content@);
    if total > max_write_bytes as u128 {
        Err(WriteError::TooLarge)
    } else {
        Ok(())
    }
}

/// An existing file is replaced only when overwriting was asked for.
pub fn check_overwrite(file_exists: bool, overwrite: bool, path: &str) -> (r: Result<(), WriteError>)
    ensures
        r is Ok <==> (!file_exists || overwrite),
        r is Err ==> (r matches Err(WriteError::Exists { path: p }) && p@ == path@),
{
    if file_exists && !overwrite {
        Err(WriteError::Exists { path: owned(path) })
    } else {
        Ok(())
    }
}

/// The number of entries a listing may return: 1000 by default, at most 5000.
pub fn list_limit(requested: Option<u64>) -> (r: usize)
    ensures
        r == (match requested {
            Some(v) => if v < 5000 {
                v
            } else {
                5000
            },
            None => 1000,
        }),
{
    let v: u64 = match requested {
        Some(v) => v,
        None => 1000,
    };
    if v < 5000 {
        v as usize
    } else {
        5000
    }
}

/// An entry of a directory listing.
#[derive(Debug, Clone)]
pub struct ListedEntry {
    pub path: String,
    pub is_dir: bool,
    pub size_bytes: Option<u64>,
}

/// A depth-first directory listing in progress: directories still to read (read last
/// pushed first) and the entries listed so far.
pub struct ListWalk {
    recursive: bool,
    max_entries: usize,
    pending: Vec<String>,
    entries: Vec<ListedEntry>,
}

impl ListWalk {
    /// Directories still to read; the last one is read next.
    pub closed spec fn dirs(&self) -> Seq<Seq<char>> {
        self.pending@.map_values(|d: String| d@)
    }

    /// Entries listed so far.
    pub closed spec fn listed(&self) -> Seq<ListedEntry> {
        self.entries@
    }

    /// The most entries the listing returns.
    pub closed spec fn limit(&self) -> usize {
        self.max_entries
    }

    /// Whether subdirectories are listed too.
    pub closed spec fn descends(&self) -> bool {
        self.recursive
    }

    /// Never more entries than the limit.
    pub open spec fn wf(&self) -> bool {
        self.listed().len() <= self.limit()
    }

    /// A listing of `dir`.
    pub fn new(dir: String, recursive: bool, max_entries: usize) -> (w: ListWalk)
        ensures
            w.wf(),
            w.dirs() == seq![dir@],
            w.listed().len() == 0,
            w.limit() == max_entries,
            w.descends() == recursive,
    {
        let mut pending: Vec<String> = Vec::new();
        pending.push(dir);
        let w = ListWalk { recursive, max_entries, pending, entries: Vec::new() };
        assert(w.pending@.map_values(|d: String| d@) =~= seq![w.pending@[0]@]);
        w
    }

    /// The next directory to read, if any.
    pub fn next_dir(&mut self) -> (d: Option<String>)
        requires
            old(self).wf(),
        ensures
            final(self).wf(),
            final(self).listed() == old(self).listed(),
            final(self).limit() == old(self).limit(),
            final(self).descends() == old(self).descends(),
            old(self).dirs().len() == 0 ==> d is None && final(self).dirs() == old(self).dirs(),
            old(self).dirs().len() > 0 ==> (d matches Some(x) && x@ == old(self).dirs().last())
                && final(self).dirs() == old(self).dirs().drop_last(),
    {
        let ghost before = self.pending@;
        let d = self.pending.pop();
        proof {
            if before.len() > 0 {
                assert(self.pending@.map_values(|d: String| d@) =~= before.map_values(|d: String| d@).drop_last());
            }
        }
        d
    }

    /// Whether the listing already holds the most entries it returns.
    pub fn is_full(&self) -> (b: bool)
        ensures
            b == (self.listed().len() >= self.limit()),
    {
        self.entries.len() >= self.max_entries
    }

    /// Lists an entry; a subdirectory is queued for reading when the listing descends.
    pub fn record(&mut self, entry: ListedEntry)
        requires
            old(self).wf(),
            old(self).listed().len() < old(self).limit(),
        ensures
            final(self).wf(),
            final(self).listed() == old(self).listed().push(entry),
            final(self).limit() == old(self).limit(),
            final(self).descends() == old(self).descends(),
            old(self).descends() && entry.is_dir ==> final(self).dirs() == old(self).dirs().push(
                entry.path@,
            ),
            !(old(self).descends() && entry.is_dir) ==> final(self).dirs() == old(self).dirs(),
    {
        let ghost before = self.pending@;
        if self.recursive && entry.is_dir {
            let copy = owned(entry.path.as_str());
            self.pending.push(copy);
            assert(self.pending@.map_values(|d: String| d@) =~= before.map_values(|d: String| d@).push(
                entry.path@,
            ));
        }
        self.entries.push(entry);
    }

    /// The entries listed.
    pub fn into_entries(self) -> (r: Vec<ListedEntry>)
        ensures
            r@ == self.listed(),
    {
        self.entries
    }
}

} // verus!
