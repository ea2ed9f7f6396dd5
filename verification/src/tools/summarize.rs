//! The `text_summarize` tool: a deterministic summary made of the first non-blank lines.
use vstd::prelude::*;
use crate::text::{char_rows, chars_of, crlf_to_lf, has_prefix, join_lines, join_with_newlines,
    lines_of, replace_crlf, split_lines, string_from_chars, sub_chars, trim, trim_chars, utf8_len,
    utf8_width, char_utf8_width, lemma_utf8_len_push};

verus! {

/// The first `n` non-blank lines of `ls`, each trimmed.
pub open spec fn leading_nonblank(ls: Seq<Seq<char>>, n: nat) -> Seq<Seq<char>>
    decreases ls.len(),
{
    if ls.len() == 0 || n == 0 {
        Seq::empty()
    } else if trim(ls[0]).len() > 0 {
        seq![trim(ls[0])] + leading_nonblank(ls.drop_first(), (n - 1) as nat)
    } else {
        leading_nonblank(ls.drop_first(), n)
    }
}

/// The text with `"\r\n"` normalized to `"\n"`.
pub open spec fn normalized(text: Seq<char>) -> Seq<char> {
    crlf_to_lf(text)
}

/// The summary before any length limit: the first three non-blank lines of the
/// normalized text, trimmed and joined with `'\n'`.
pub open spec fn full_summary(text: Seq<char>) -> Seq<char> {
    join_lines(leading_nonblank(lines_of(normalized(text)), 3))
}

/// The byte limit used for a requested `max_chars`: 1200 by default, at most 20000.
pub open spec fn summary_limit(max_chars: Option<u64>) -> nat {
    let m = match max_chars {
        Some(m) => m as nat,
        None => 1200,
    };
    if m < 20_000 {
        m
    } else {
        20_000
    }
}

/// The byte limit is the requested `max_chars` capped at 20000, or 1200 when none is
/// requested; so a summary of at most the requested number of bytes (and at most 20000)
/// is never cut.
pub proof fn law_summary_limit(text: Seq<char>, m: u64)
    ensures
        m <= 20_000 ==> summary_limit(Some(m)) == m,
        m > 20_000 ==> summary_limit(Some(m)) == 20_000,
        summary_limit(None) == 1200,
        utf8_len(full_summary(text)) <= m && m <= 20_000 ==> utf8_len(full_summary(text))
            <= summary_limit(Some(m)),
{
}

/// The summary can be cut to the limit: it already fits, or some prefix of it is exactly
/// that many bytes long (cutting inside a character would panic).
pub open spec fn summary_cut_ok(text: Seq<char>, max_chars: Option<u64>) -> bool {
    let s = full_summary(text);
    let m = summary_limit(max_chars);
    utf8_len(s) <= m || exists|k: int| 0 <= k <= s.len() && utf8_len(#[trigger] s.take(k)) == m
}

/// The result of summarizing a text.
#[derive(Debug, Clone)]
pub struct TextSummary {
    pub summary: String,
    pub input_chars: usize,
    pub summary_chars: usize,
}

/// Byte length of a concatenation.
pub proof fn lemma_utf8_len_concat(a: Seq<char>, b: Seq<char>)
    ensures
        utf8_len(a + b) == utf8_len(a) + utf8_len(b),
    decreases a.len(),
{
    if a.len() > 0 {
        assert((a + b).drop_first() =~= a.drop_first() + b);
        assert((a + b)[0] == a[0]);
        lemma_utf8_len_concat(a.drop_first(), b);
    } else {
        assert(a + b =~= b);
    }
}

/// The first `n` non-blank lines of `ls`, trimmed.
fn take_nonblank(ls: &Vec<Vec<char>>, n: usize) -> (r: Vec<Vec<char>>)
    ensures
        char_rows(r@) == leading_nonblank(char_rows(ls@), n as nat),
{
    let mut r: Vec<Vec<char>> = Vec::new();
    let mut i: usize = 0;
    let ghost rows = char_rows(ls@);
    assert(rows.skip(0) =~= rows);
    while i < ls.len() && r.len() < n
        invariant
            i <= ls@.len(),
            r@.len() <= n,
            rows == char_rows(ls@),
            leading_nonblank(rows, n as nat) == char_rows(r@) + leading_nonblank(
                rows.skip(i as int),
                (n - r@.len()) as nat,
            ),
        decreases ls.len() - i,
    {
        assert(rows.skip(i as int).drop_first() =~= rows.skip(i + 1));
        assert(rows.skip(i as int)[0] == ls@[i as int]@);
        let t = trim_chars(&ls[i]);
        if t.len() > 0 {
            let ghost before = r@;
            r.push(t);
            assert(char_rows(r@) =~= char_rows(before) + seq![t@]);
        }
        i += 1;
    }
    proof {
        let rest = leading_nonblank(rows.skip(i as int), (n - r@.len()) as nat);
        assert(rest =~= Seq::<Seq<char>>::empty());
        assert(char_rows(r@) + rest =~= char_rows(r@));
    }
    r
}

/// Where to cut `s` to `m` bytes: `None` when it already fits, `Some(Some(k))` when its
/// first `k` characters are exactly `m` bytes, `Some(None)` when a character straddles
/// byte `m`.
fn cut_point(s: &Vec<char>, m: usize) -> (r: Option<Option<usize>>)
    requires
        m <= 20_000,
    ensures
        r is None <==> utf8_len(s@) <= m,
        r matches Some(Some(k)) ==> k <= s@.len() && utf8_len(s@.take(k as int)) == m,
        r matches Some(None) ==> utf8_len(s@) > m && forall|k: int|
            0 <= k <= s@.len() ==> utf8_len(#[trigger] s@.take(k)) != m,
{
    let mut total: usize = 0;
    let mut k: usize = 0;
    assert(s@.take(0) =~= Seq::<char>::empty());
    while k < s.len() && total < m
        invariant
            k <= s@.len(),
            m <= 20_000,
            total == utf8_len(s@.take(k as int)),
            total <= m + 3,
            forall|j: int| 0 <= j < k ==> utf8_len(#[trigger] s@.take(j)) < m,
        decreases s.len() - k,
    {
        proof {
            assert(s@.take(k + 1) =~= s@.take(k as int).push(s@[k as int]));
            lemma_utf8_len_push(s@.take(k as int), s@[k as int]);
        }
        total = total + char_utf8_width(s[k]);
        k += 1;
    }
    proof {
        assert(s@ =~= s@.take(k as int) + s@.skip(k as int));
        lemma_utf8_len_concat(s@.take(k as int), s@.skip(k as int));
    }
    if total < m {
        assert(s@.take(k as int) =~= s@);
        None
    } else if total == m {
        if k == s.len() {
            assert(s@.take(k as int) =~= s@);
            None
        } else {
            Some(Some(k))
        }
    } else {
        proof {
            assert forall|j: int| 0 <= j <= s@.len() implies utf8_len(#[trigger] s@.take(j)) != m by {
                if j > k {
                    assert(s@.take(j) =~= s@.take(k as int) + s@.take(j).skip(k as int));
                    lemma_utf8_len_concat(s@.take(k as int), s@.take(j).skip(k as int));
                } else if j == k {
                } else {
                }
            }
        }
        Some(None)
    }
}

/// Whether the summary of `text` can be cut to the limit (see [`summary_cut_ok`]).
pub fn summary_fits(text: &str, max_chars: Option<u64>) -> (b: bool)
    ensures
        b == summary_cut_ok(text@, max_chars),
{
    let full = full_summary_chars(text);
    let m = limit_of(max_chars);
    match cut_point(&full, m) {
        Some(None) => false,
        _ => true,
    }
}

fn limit_of(max_chars: Option<u64>) -> (m: usize)
    ensures
        m == summary_limit(max_chars),
{
    let v: u64 = match max_chars {
        Some(v) => v,
        None => 1200,
    };
    if v < 20_000 {
        v as usize
    } else {
        20_000
    }
}

fn full_summary_chars(text: &str) -> (r: Vec<char>)
    ensures
        r@ == full_summary(text@),
{
    let n = replace_crlf(&chars_of(text));
    let ls = split_lines(&n);
    let picked = take_nonblank(&ls, 3);
    join_with_newlines(&picked)
}

/// Summarizes `text`: the first three non-blank lines, trimmed and joined with `'\n'`,
/// cut to the byte limit when longer; with the character counts of the normalized input
/// and of the summary.
pub fn summarize_text(text: &str, max_chars: Option<u64>) -> (r: TextSummary)
    requires
        summary_cut_ok(text@, max_chars),
    ensures
        has_prefix(full_summary(text@), r.summary@),
        utf8_len(full_summary(text@)) <= summary_limit(max_chars) ==> r.summary@ == full_summary(
            text@,
        ),
        utf8_len(full_summary(text@)) > summary_limit(max_chars) ==> utf8_len(r.summary@)
            == summary_limit(max_chars),
        r.input_chars == normalized(text@).len(),
        r.summary_chars == r.summary@.len(),
{
    let n = replace_crlf(&chars_of(text));
    let ls = split_lines(&n);
    let picked = take_nonblank(&ls, 3);
    let full = join_with_newlines(&picked);
    let m = limit_of(max_chars);
    let cut = match cut_point(&full, m) {
        None => {
            assert(full@.take(full@.len() as int) =~= full@);
            full
        },
        Some(Some(k)) => sub_chars(&full, 0, k),
        Some(None) => {
            assert(false);
            full
        },
    };
    assert(cut@ =~= full@.take(cut@.len() as int));
    let summary_chars = cut.len();
    TextSummary { summary: string_from_chars(&cut), input_chars: n.len(), summary_chars }
}

/// A summary never has more than `n` lines picked, and each picked line is trimmed and
/// not blank.
pub proof fn law_picked_lines(ls: Seq<Seq<char>>, n: nat)
    ensures
        leading_nonblank(ls, n).len() <= n,
        forall|i: int| 0 <= i < leading_nonblank(ls, n).len() ==> trim(#[trigger] leading_nonblank(ls, n)[i]).len() > 0,
    decreases ls.len(),
{
    if ls.len() > 0 && n > 0 {
        if trim(ls[0]).len() > 0 {
            law_picked_lines(ls.drop_first(), (n - 1) as nat);
            lemma_trim_idempotent(ls[0]);
            let r = leading_nonblank(ls, n);
            assert forall|i: int| 0 <= i < r.len() implies trim(#[trigger] r[i]).len() > 0 by {
                if i > 0 {
                    assert(r[i] == leading_nonblank(ls.drop_first(), (n - 1) as nat)[i - 1]);
                }
            }
        } else {
            law_picked_lines(ls.drop_first(), n);
        }
    }
}

/// Trimming twice is trimming once.
pub proof fn lemma_trim_idempotent(s: Seq<char>)
    ensures
        trim(trim(s)) == trim(s),
{
    let t = trim(s);
    lemma_strip_leading_clean(s);
    lemma_strip_trailing_clean(crate::text::strip_leading(s, crate::text::CharClass::WhiteSpace));
    lemma_strip_trailing_keeps_clean_start(crate::text::strip_leading(s, crate::text::CharClass::WhiteSpace));
    lemma_strip_leading_noop(t);
    lemma_strip_trailing_noop(t);
}

proof fn lemma_strip_leading_clean(s: Seq<char>)
    ensures
        ({
            let r = crate::text::strip_leading(s, crate::text::CharClass::WhiteSpace);
            r.len() > 0 ==> !crate::text::is_white_space(r[0])
        }),
    decreases s.len(),
{
    if s.len() > 0 && crate::text::is_white_space(s[0]) {
        lemma_strip_leading_clean(s.drop_first());
    }
}

proof fn lemma_strip_trailing_clean(s: Seq<char>)
    ensures
        ({
            let r = crate::text::strip_trailing(s, crate::text::CharClass::WhiteSpace);
            r.len() > 0 ==> !crate::text::is_white_space(r.last())
        }),
    decreases s.len(),
{
    if s.len() > 0 && crate::text::is_white_space(s.last()) {
        lemma_strip_trailing_clean(s.drop_last());
    }
}

proof fn lemma_strip_trailing_keeps_clean_start(s: Seq<char>)
    requires
        s.len() > 0 ==> !crate::text::is_white_space(s[0]),
    ensures
        ({
            let r = crate::text::strip_trailing(s, crate::text::CharClass::WhiteSpace);
            r.len() > 0 ==> !crate::text::is_white_space(r[0]) && r[0] == s[0]
        }),
    decreases s.len(),
{
    if s.len() > 0 && crate::text::is_white_space(s.last()) {
        if s.len() > 1 {
            assert(s.drop_last()[0] == s[0]);
        }
        lemma_strip_trailing_keeps_clean_start(s.drop_last());
    }
}

proof fn lemma_strip_leading_noop(t: Seq<char>)
    requires
        t.len() > 0 ==> !crate::text::is_white_space(t[0]),
    ensures
        crate::text::strip_leading(t, crate::text::CharClass::WhiteSpace) == t,
{
}

proof fn lemma_strip_trailing_noop(t: Seq<char>)
    requires
        t.len() > 0 ==> !crate::text::is_white_space(t.last()),
    ensures
        crate::text::strip_trailing(t, crate::text::CharClass::WhiteSpace) == t,
{
}

} // verus!
