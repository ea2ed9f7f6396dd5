//! Creating a skill from a one-line request.
use vstd::prelude::*;
use crate::skills::SkillSpec;
use crate::text::{ascii_lower, char_ascii_lower, char_is_ascii_alnum, chars_of, contains_chars,
    has_infix, has_suffix, in_class, is_ascii_alnum, lower_ascii, lower_ascii_chars, occurs_at, owned,
    string_from_chars, strip_both, strip_leading, strip_trailing,
    strip_both_chars, CharClass};

verus! {

/// What the name inference loop has built after reading `s`, and whether it ends in a
/// separator just added: letters and digits are kept (lower-cased), every run of other
/// characters becomes one `'_'`.
pub open spec fn slug_state(s: Seq<char>) -> (Seq<char>, bool)
    decreases s.len(),
{
    if s.len() == 0 {
        (Seq::empty(), false)
    } else {
        let (acc, sep) = slug_state(s.drop_last());
        let c = ascii_lower(s.last());
        if is_ascii_alnum(c) {
            (acc.push(c), false)
        } else if !sep {
            (acc.push('_'), true)
        } else {
            (acc, sep)
        }
    }
}

/// The maximal runs of ASCII letters and digits read so far in `s`: the runs another
/// character already ended, and the run still open.
pub open spec fn runs_state(s: Seq<char>) -> (Seq<Seq<char>>, Seq<char>)
    decreases s.len(),
{
    if s.len() == 0 {
        (seq![], seq![])
    } else {
        let (ws, cur) = runs_state(s.drop_last());
        if is_ascii_alnum(s.last()) {
            (ws, cur.push(s.last()))
        } else if cur.len() > 0 {
            (ws.push(cur), seq![])
        } else {
            (ws, cur)
        }
    }
}

/// The maximal runs of ASCII letters and digits of `s`, in order.
pub open spec fn alnum_runs(s: Seq<char>) -> Seq<Seq<char>> {
    let (ws, cur) = runs_state(s);
    if cur.len() > 0 {
        ws.push(cur)
    } else {
        ws
    }
}

/// The texts `ws` joined with `'_'`.
pub open spec fn underscore_joined(ws: Seq<Seq<char>>) -> Seq<char>
    decreases ws.len(),
{
    if ws.len() == 0 {
        seq![]
    } else if ws.len() == 1 {
        ws[0]
    } else {
        underscore_joined(ws.drop_last()) + seq!['_'] + ws.last()
    }
}

/// The name inferred for a skill requested by `prompt`: `pdf_summarizer` when the
/// lower-cased prompt mentions both "pdf" and "summar"; otherwise the runs of letters and
/// digits of the lower-cased prompt joined with `'_'`, or `new_skill` when it has none.
pub open spec fn inferred_name(prompt: Seq<char>) -> Seq<char> {
    let lc = lower_ascii(prompt);
    if has_infix(lc, "pdf"@) && has_infix(lc, "summar"@) {
        "pdf_summarizer"@
    } else {
        let slug = underscore_joined(alnum_runs(lc));
        if slug.len() == 0 {
            "new_skill"@
        } else {
            slug
        }
    }
}

/// Infers a skill name from the request `prompt`.
pub fn infer_skill_name(prompt: &str) -> (r: String)
    ensures
        r@ == inferred_name(prompt@),
{
    let p = chars_of(prompt);
    let lc = lower_ascii_chars(&p);
    if contains_chars(&lc, &chars_of("pdf")) && contains_chars(&lc, &chars_of("summar")) {
        return owned("pdf_summarizer");
    }
    let mut out: Vec<char> = Vec::new();
    let mut sep = false;
    let mut i: usize = 0;
    while i < p.len()
        invariant
            i <= p@.len(),
            (out@, sep) == slug_state(p@.take(i as int)),
        decreases p.len() - i,
    {
        assert(p@.take(i + 1).drop_last() =~= p@.take(i as int));
        assert(p@.take(i + 1).last() == p@[i as int]);
        let c = char_ascii_lower(p[i]);
        if char_is_ascii_alnum(c) {
            out.push(c);
            sep = false;
        } else if !sep {
            out.push('_');
            sep = true;
        }
        i += 1;
    }
    assert(p@.take(p@.len() as int) =~= p@);
    let slug = strip_both_chars(&out, &CharClass::Underscore);
    proof {
        lemma_slug_is_joined_runs(p@);
    }
    if slug.len() == 0 {
        owned("new_skill")
    } else {
        string_from_chars(&slug)
    }
}

/// The skill created for the request `prompt`: the inferred name, version `0.1.0`, the
/// prompt as description and system prompt, the default author and license, and the
/// `read_file` and `text_summarize` tools.
pub fn skill_spec_from_prompt(prompt: &str) -> (s: SkillSpec)
    ensures
        s.name@ == inferred_name(prompt@),
        s.version@ == "0.1.0"@,
        s.description@ == prompt@,
        s.author@ == "Eduardo J. Barrios"@,
        s.license@ == "Apache-2.0"@,
        s.system_prompt@ == prompt@,
        s.allowed_tools@.len() == 2,
        s.allowed_tools@[0]@ == "read_file"@,
        s.allowed_tools@[1]@ == "text_summarize"@,
{
    let mut tools: Vec<String> = Vec::new();
    tools.push(owned("read_file"));
    tools.push(owned("text_summarize"));
    SkillSpec {
        name: infer_skill_name(prompt),
        version: owned("0.1.0"),
        description: owned(prompt),
        author: owned("Eduardo J. Barrios"),
        license: owned("Apache-2.0"),
        system_prompt: owned(prompt),
        allowed_tools: tools,
    }
}

/// A character a slug may hold: a lower-case ASCII letter, a digit or `'_'`.
pub open spec fn slug_char(c: char) -> bool {
    c == '_' || (is_ascii_alnum(c) && ascii_lower(c) == c)
}

/// `t` has the shape of a slug: slug characters only, never two `'_'` in a row.
pub open spec fn slug_shaped(t: Seq<char>) -> bool {
    &&& forall|i: int| 0 <= i < t.len() ==> slug_char(#[trigger] t[i])
    &&& forall|i: int| 0 <= i < t.len() - 1 ==> !(#[trigger] t[i] == '_' && t[i + 1] == '_')
}

/// The slug built so far has the shape of a slug, and the separator flag says whether it
/// ends in `'_'`.
proof fn lemma_slug_state_shape(p: Seq<char>)
    ensures
        slug_shaped(slug_state(p).0),
        slug_state(p).1 <==> (slug_state(p).0.len() > 0 && slug_state(p).0.last() == '_'),
    decreases p.len(),
{
    if p.len() > 0 {
        lemma_slug_state_shape(p.drop_last());
        let (acc, sep) = slug_state(p.drop_last());
        let c = ascii_lower(p.last());
        assert(ascii_lower(c) == c);
        if is_ascii_alnum(c) {
            let t = acc.push(c);
            assert forall|i: int| 0 <= i < t.len() implies slug_char(#[trigger] t[i]) by {
                if i < acc.len() {
                    assert(t[i] == acc[i]);
                }
            }
            assert forall|i: int| 0 <= i < t.len() - 1 implies !(#[trigger] t[i] == '_' && t[i + 1]
                == '_') by {
                if i + 1 < acc.len() {
                    assert(t[i] == acc[i] && t[i + 1] == acc[i + 1]);
                }
            }
        } else if !sep {
            let t = acc.push('_');
            assert forall|i: int| 0 <= i < t.len() implies slug_char(#[trigger] t[i]) by {
                if i < acc.len() {
                    assert(t[i] == acc[i]);
                }
            }
            assert forall|i: int| 0 <= i < t.len() - 1 implies !(#[trigger] t[i] == '_' && t[i + 1]
                == '_') by {
                if i + 1 < acc.len() {
                    assert(t[i] == acc[i] && t[i + 1] == acc[i + 1]);
                } else {
                    assert(t[i] == acc.last());
                }
            }
        }
    }
}

/// A slug-shaped text that does not start with `'_'` is its own slug.
proof fn lemma_slug_state_fixpoint(t: Seq<char>)
    requires
        slug_shaped(t),
        t.len() > 0 ==> t[0] != '_',
    ensures
        slug_state(t) == (t, t.len() > 0 && t.last() == '_'),
    decreases t.len(),
{
    if t.len() > 0 {
        let t0 = t.drop_last();
        assert(slug_shaped(t0)) by {
            assert forall|i: int| 0 <= i < t0.len() implies slug_char(#[trigger] t0[i]) by {
                assert(t0[i] == t[i]);
            }
            assert forall|i: int| 0 <= i < t0.len() - 1 implies !(#[trigger] t0[i] == '_' && t0[i
                + 1] == '_') by {
                assert(t0[i] == t[i] && t0[i + 1] == t[i + 1]);
            }
        }
        if t0.len() > 0 {
            assert(t0[0] == t[0]);
        }
        lemma_slug_state_fixpoint(t0);
        let c = t.last();
        assert(slug_char(t[t.len() - 1]));
        assert(ascii_lower(c) == c);
        assert(t0.push(c) =~= t);
        if c == '_' {
            assert(t0.len() > 0);
            assert(!(t[t.len() - 2] == '_' && t[t.len() - 1] == '_'));
            assert(t0.last() == t[t.len() - 2]);
        }
    }
}

/// A slug-shaped text has no upper-case letter.
proof fn lemma_slug_lower(t: Seq<char>)
    requires
        slug_shaped(t),
    ensures
        lower_ascii(t) == t,
{
    assert forall|i: int| 0 <= i < t.len() implies #[trigger] lower_ascii(t)[i] == t[i] by {
        assert(slug_char(t[i]));
    }
    assert(lower_ascii(t) =~= t);
}

/// `w` is a non-empty word of ASCII letters and digits.
pub open spec fn alnum_word(w: Seq<char>) -> bool {
    w.len() > 0 && forall|i: int| 0 <= i < w.len() ==> is_ascii_alnum(#[trigger] w[i])
}

/// Occurrences in a text and in the same text with one more character.
proof fn lemma_infix_push(s: Seq<char>, x: char, w: Seq<char>)
    ensures
        has_infix(s, w) ==> has_infix(s.push(x), w),
        has_suffix(s, w) ==> has_infix(s, w),
        has_infix(s.push(x), w) ==> has_infix(s, w) || has_suffix(s.push(x), w),
{
    if has_infix(s, w) {
        let i = choose|i: int| occurs_at(s, w, i);
        assert(s.push(x).subrange(i, i + w.len()) =~= s.subrange(i, i + w.len()));
        assert(occurs_at(s.push(x), w, i));
    }
    if has_suffix(s, w) {
        assert(s.subrange(s.len() - w.len(), s.len() - w.len() + w.len()) =~= s.skip(s.len() - w.len()));
        assert(occurs_at(s, w, s.len() - w.len()));
    }
    if has_infix(s.push(x), w) {
        let i = choose|i: int| occurs_at(s.push(x), w, i);
        if i + w.len() <= s.len() {
            assert(s.push(x).subrange(i, i + w.len()) =~= s.subrange(i, i + w.len()));
            assert(occurs_at(s, w, i));
        } else {
            assert(s.push(x).skip(s.push(x).len() - w.len()) =~= s.push(x).subrange(i, i + w.len()));
        }
    }
}

/// Suffixes of a text with one more character.
proof fn lemma_suffix_push(s: Seq<char>, x: char, u: Seq<char>)
    ensures
        has_suffix(s.push(x), u) && u.len() > 0 ==> u.last() == x && (u.len() == 1 || has_suffix(
            s,
            u.drop_last(),
        )),
        u.len() > 0 && u.last() == x && (u.len() == 1 || has_suffix(s, u.drop_last())) ==> has_suffix(
            s.push(x),
            u,
        ),
{
    let t = s.push(x);
    if has_suffix(t, u) && u.len() > 0 {
        assert(u.last() == t.skip(t.len() - u.len()).last());
        if u.len() > 1 {
            assert(s.skip(s.len() - (u.len() - 1)) =~= u.drop_last()) by {
                assert forall|i: int| 0 <= i < u.len() - 1 implies #[trigger] s.skip(
                    s.len() - (u.len() - 1),
                )[i] == u.drop_last()[i] by {
                    assert(t.skip(t.len() - u.len())[i] == u[i]);
                }
            }
        }
    }
    if u.len() > 0 && u.last() == x && (u.len() == 1 || has_suffix(s, u.drop_last())) {
        if u.len() == 1 {
            assert(t.skip(t.len() - 1) =~= u);
        } else {
            assert forall|i: int| 0 <= i < u.len() implies #[trigger] t.skip(t.len() - u.len())[i]
                == u[i] by {
                if i < u.len() - 1 {
                    assert(s.skip(s.len() - (u.len() - 1))[i] == u.drop_last()[i]);
                }
            }
            assert(t.skip(t.len() - u.len()) =~= u);
        }
    }
}

/// Every word of letters and digits that ends the slug built so far also ends the
/// lower-cased request.
proof fn lemma_slug_suffixes(p: Seq<char>)
    ensures
        forall|u: Seq<char>| alnum_word(u) && #[trigger] has_suffix(slug_state(p).0, u) ==> has_suffix(
            lower_ascii(p),
            u,
        ),
    decreases p.len(),
{
    if p.len() > 0 {
        let p0 = p.drop_last();
        lemma_slug_suffixes(p0);
        lemma_slug_state_shape(p0);
        let (acc, sep) = slug_state(p0);
        let c = ascii_lower(p.last());
        assert(lower_ascii(p) =~= lower_ascii(p0).push(c));
        assert forall|u: Seq<char>| alnum_word(u) && #[trigger] has_suffix(slug_state(p).0, u)
            implies has_suffix(lower_ascii(p), u) by {
            if is_ascii_alnum(c) {
                lemma_suffix_push(acc, c, u);
                if u.len() > 1 {
                    let u0 = u.drop_last();
                    assert(alnum_word(u0)) by {
                        assert forall|i: int| 0 <= i < u0.len() implies is_ascii_alnum(#[trigger] u0[i]) by {
                            assert(u0[i] == u[i]);
                        }
                    }
                    assert(has_suffix(acc, u0));
                    assert(has_suffix(lower_ascii(p0), u0));
                }
                lemma_suffix_push(lower_ascii(p0), c, u);
            } else {
                let t = slug_state(p).0;
                assert(t.len() > 0 && t.last() == '_');
                assert(u.last() == t.skip(t.len() - u.len()).last());
                assert(is_ascii_alnum(u[u.len() - 1]));
            }
        }
    }
}

/// A word of letters and digits in the slug built so far is also in the lower-cased
/// request.
proof fn lemma_slug_word(p: Seq<char>, w: Seq<char>)
    requires
        alnum_word(w),
    ensures
        has_infix(slug_state(p).0, w) ==> has_infix(lower_ascii(p), w),
    decreases p.len(),
{
    if p.len() > 0 {
        let p0 = p.drop_last();
        lemma_slug_word(p0, w);
        lemma_slug_suffixes(p);
        let (acc, sep) = slug_state(p0);
        let c = ascii_lower(p.last());
        assert(lower_ascii(p) =~= lower_ascii(p0).push(c));
        lemma_infix_push(lower_ascii(p0), c, w);
        lemma_infix_push(lower_ascii(p), c, w);
        if is_ascii_alnum(c) {
            lemma_infix_push(acc, c, w);
        } else if !sep {
            lemma_infix_push(acc, '_', w);
        }
    }
}

/// Stripping from the front keeps a suffix that does not start with a stripped character.
proof fn lemma_strip_leading_parts(t: Seq<char>, k: CharClass)
    ensures
        exists|j: int| 0 <= j <= t.len() && #[trigger] t.skip(j) == strip_leading(t, k),
        strip_leading(t, k).len() > 0 ==> !in_class(strip_leading(t, k)[0], k),
    decreases t.len(),
{
    if t.len() > 0 && in_class(t[0], k) {
        lemma_strip_leading_parts(t.drop_first(), k);
        let j = choose|j: int|
            0 <= j <= t.drop_first().len() && #[trigger] t.drop_first().skip(j) == strip_leading(
                t.drop_first(),
                k,
            );
        assert(t.skip(j + 1) =~= t.drop_first().skip(j));
    } else {
        assert(t.skip(0) =~= t);
    }
}

/// Stripping from the back keeps a prefix that does not end with a stripped character.
proof fn lemma_strip_trailing_parts(t: Seq<char>, k: CharClass)
    ensures
        exists|j: int| 0 <= j <= t.len() && #[trigger] t.take(j) == strip_trailing(t, k),
        strip_trailing(t, k).len() > 0 ==> !in_class(strip_trailing(t, k).last(), k),
    decreases t.len(),
{
    if t.len() > 0 && in_class(t.last(), k) {
        lemma_strip_trailing_parts(t.drop_last(), k);
        let j = choose|j: int|
            0 <= j <= t.drop_last().len() && #[trigger] t.drop_last().take(j) == strip_trailing(
                t.drop_last(),
                k,
            );
        assert(t.take(j) =~= t.drop_last().take(j));
    } else {
        assert(t.take(t.len() as int) =~= t);
    }
}

/// A part of a slug-shaped text is slug-shaped, and a word in it is in the text.
proof fn lemma_slug_part(t: Seq<char>, a: int, b: int, w: Seq<char>)
    requires
        slug_shaped(t),
        0 <= a <= b <= t.len(),
    ensures
        slug_shaped(t.subrange(a, b)),
        has_infix(t.subrange(a, b), w) ==> has_infix(t, w),
{
    let u = t.subrange(a, b);
    assert forall|i: int| 0 <= i < u.len() implies slug_char(#[trigger] u[i]) by {
        assert(u[i] == t[a + i]);
    }
    assert forall|i: int| 0 <= i < u.len() - 1 implies !(#[trigger] u[i] == '_' && u[i + 1] == '_') by {
        assert(u[i] == t[a + i] && u[i + 1] == t[a + i + 1]);
    }
    if has_infix(u, w) {
        let i = choose|i: int| occurs_at(u, w, i);
        assert(t.subrange(a + i, a + i + w.len()) =~= u.subrange(i, i + w.len()));
        assert(occurs_at(t, w, a + i));
    }
}

/// `pdf_summarizer` is inferred from itself.
proof fn lemma_pdf_summarizer_stable()
    ensures
        inferred_name("pdf_summarizer"@) == "pdf_summarizer"@,
{
    reveal_strlit("pdf_summarizer");
    reveal_strlit("pdf");
    reveal_strlit("summar");
    let r = "pdf_summarizer"@;
    let lc = lower_ascii(r);
    assert(lc.subrange(0, 3) =~= "pdf"@) by {
        assert forall|i: int| 0 <= i < 3 implies #[trigger] lc.subrange(0, 3)[i] == "pdf"@[i] by {
            assert(lc[i] == ascii_lower(r[i]));
        }
    }
    assert(occurs_at(lc, "pdf"@, 0));
    assert(lc.subrange(4, 10) =~= "summar"@) by {
        assert forall|i: int| 0 <= i < 6 implies #[trigger] lc.subrange(4, 10)[i] == "summar"@[i] by {
            assert(lc[4 + i] == ascii_lower(r[4 + i]));
        }
    }
    assert(occurs_at(lc, "summar"@, 4));
}

/// `new_skill` is inferred from itself.
proof fn lemma_new_skill_stable()
    ensures
        inferred_name("new_skill"@) == "new_skill"@,
{
    reveal_strlit("new_skill");
    reveal_strlit("pdf");
    let r = "new_skill"@;
    let lc = lower_ascii(r);
    assert forall|i: int| 0 <= i < r.len() implies slug_char(#[trigger] r[i]) && r[i] != 'p' by {
        if i == 0 {
        } else if i == 1 {
        } else if i == 2 {
        } else if i == 3 {
        } else if i == 4 {
        } else if i == 5 {
        } else if i == 6 {
        } else if i == 7 {
        } else {
        }
    }
    assert forall|i: int| 0 <= i < r.len() - 1 implies !(#[trigger] r[i] == '_' && r[i + 1] == '_') by {
        if i == 3 {
        }
    }
    lemma_slug_lower(r);
    assert(!has_infix(lc, "pdf"@)) by {
        if has_infix(lc, "pdf"@) {
            let i = choose|i: int| occurs_at(lc, "pdf"@, i);
            assert(lc.subrange(i, i + 3)[0] == 'p');
            assert(r[i] != 'p');
        }
    }
    lemma_slug_state_fixpoint(r);
    lemma_slug_is_joined_runs(r);
}

/// Inferring a name from an inferred name gives it back.
pub proof fn law_inferred_name_is_stable(prompt: Seq<char>)
    ensures
        inferred_name(inferred_name(prompt)) == inferred_name(prompt),
{
    reveal_strlit("pdf");
    reveal_strlit("summar");
    let lc = lower_ascii(prompt);
    if has_infix(lc, "pdf"@) && has_infix(lc, "summar"@) {
        lemma_pdf_summarizer_stable();
    } else {
        let acc = slug_state(prompt).0;
        lemma_slug_is_joined_runs(prompt);
        lemma_slug_state_shape(prompt);
        let u = CharClass::Underscore;
        let t = strip_leading(acc, u);
        lemma_strip_leading_parts(acc, u);
        let j1 = choose|j: int| 0 <= j <= acc.len() && #[trigger] acc.skip(j) == strip_leading(acc, u);
        let sl = strip_trailing(t, u);
        lemma_strip_trailing_parts(t, u);
        let j2 = choose|j: int| 0 <= j <= t.len() && #[trigger] t.take(j) == strip_trailing(t, u);
        assert(sl =~= acc.subrange(j1, j1 + j2));
        assert(sl == strip_both(acc, u));
        if sl.len() == 0 {
            lemma_new_skill_stable();
        } else {
            lemma_slug_part(acc, j1, j1 + j2, "pdf"@);
            lemma_slug_part(acc, j1, j1 + j2, "summar"@);
            assert(sl[0] == t[0]);
            assert(sl[0] != '_');
            assert(sl.last() != '_');
            lemma_slug_state_fixpoint(sl);
            lemma_slug_is_joined_runs(sl);
            lemma_slug_lower(sl);
            assert(strip_leading(sl, u) == sl);
            assert(strip_trailing(sl, u) == sl);
            assert(alnum_word("pdf"@)) by {
                assert forall|i: int| 0 <= i < 3 implies is_ascii_alnum(#[trigger] "pdf"@[i]) by {
                    if i == 0 {
                    } else if i == 1 {
                    } else {
                    }
                }
            }
            assert(alnum_word("summar"@)) by {
                assert forall|i: int| 0 <= i < 6 implies is_ascii_alnum(#[trigger] "summar"@[i]) by {
                    if i == 0 {
                    } else if i == 1 {
                    } else if i == 2 {
                    } else if i == 3 {
                    } else if i == 4 {
                    } else {
                    }
                }
            }
            lemma_slug_word(prompt, "pdf"@);
            lemma_slug_word(prompt, "summar"@);
        }
    }
}

/// Stripping `'_'` from the front of a text with one more character.
proof fn lemma_strip_leading_push(x: Seq<char>, c: char)
    ensures
        strip_leading(x.push(c), CharClass::Underscore) == if strip_leading(
            x,
            CharClass::Underscore,
        ).len() > 0 || c != '_' {
            strip_leading(x, CharClass::Underscore).push(c)
        } else {
            Seq::<char>::empty()
        },
    decreases x.len(),
{
    let u = CharClass::Underscore;
    if x.len() == 0 {
        assert(x.push(c) =~= seq![c]);
        assert(seq![c].drop_first() =~= Seq::<char>::empty());
        assert(strip_leading(Seq::<char>::empty(), u) == Seq::<char>::empty());
    } else {
        assert(x.push(c)[0] == x[0]);
        assert(x.push(c).drop_first() =~= x.drop_first().push(c));
        lemma_strip_leading_push(x.drop_first(), c);
    }
}

/// Joining one more text.
proof fn lemma_joined_push(ws: Seq<Seq<char>>, y: Seq<char>)
    ensures
        underscore_joined(ws.push(y)) == if ws.len() == 0 {
            y
        } else {
            underscore_joined(ws) + seq!['_'] + y
        },
{
    assert(ws.push(y).drop_last() =~= ws);
}

/// The texts of `ws` are non-empty runs of letters and digits.
spec fn all_runs(ws: Seq<Seq<char>>) -> bool {
    forall|i: int| 0 <= i < ws.len() ==> #[trigger] alnum_word(ws[i])
}

/// What the loop has built, less its leading `'_'`, is the runs read so far joined with
/// `'_'`, followed by a `'_'` when a separator ends it.
proof fn lemma_slug_state_runs(p: Seq<char>)
    ensures
        ({
            let (acc, sep) = slug_state(p);
            let (ws, cur) = runs_state(lower_ascii(p));
            let body = underscore_joined(alnum_runs(lower_ascii(p)));
            &&& all_runs(ws)
            &&& forall|i: int| 0 <= i < cur.len() ==> is_ascii_alnum(#[trigger] cur[i])
            &&& sep ==> cur.len() == 0
            &&& !sep ==> (cur.len() > 0 || ws.len() == 0)
            &&& strip_leading(acc, CharClass::Underscore) == if sep && ws.len() > 0 {
                body.push('_')
            } else {
                body
            }
        }),
    decreases p.len(),
{
    if p.len() > 0 {
        let p0 = p.drop_last();
        lemma_slug_state_runs(p0);
        let (acc, sep) = slug_state(p0);
        let (ws, cur) = runs_state(lower_ascii(p0));
        let c = ascii_lower(p.last());
        let lp = lower_ascii(p);
        assert(lp =~= lower_ascii(p0).push(c));
        assert(lp.drop_last() =~= lower_ascii(p0));
        lemma_strip_leading_push(acc, c);
        lemma_strip_leading_push(acc, '_');
        if is_ascii_alnum(c) {
            lemma_joined_push(ws, cur.push(c));
            lemma_joined_push(ws, cur);
            assert(ws.push(cur.push(c)) =~= ws.push(cur.push(c)));
            if cur.len() > 0 {
                assert(underscore_joined(ws.push(cur.push(c))) =~= underscore_joined(ws.push(cur)).push(
                    c,
                ));
            } else {
                lemma_joined_push(ws, seq![c]);
                assert(cur.push(c) =~= seq![c]);
            }
            assert forall|i: int| 0 <= i < cur.push(c).len() implies is_ascii_alnum(
                #[trigger] cur.push(c)[i],
            ) by {
                if i < cur.len() {
                    assert(cur.push(c)[i] == cur[i]);
                }
            }
        } else if !sep {
            if cur.len() > 0 {
                lemma_joined_push(ws, cur);
                assert(alnum_word(cur));
                assert forall|i: int| 0 <= i < ws.push(cur).len() implies #[trigger] alnum_word(
                    ws.push(cur)[i],
                ) by {
                    if i < ws.len() {
                        assert(ws.push(cur)[i] == ws[i]);
                    }
                }
                assert(underscore_joined(ws.push(cur)).len() > 0);
            }
        }
    }
}

/// The last character of texts joined with `'_'` is that of the last text.
proof fn lemma_joined_last(ws: Seq<Seq<char>>)
    requires
        ws.len() > 0,
        ws.last().len() > 0,
    ensures
        underscore_joined(ws).len() > 0,
        underscore_joined(ws).last() == ws.last().last(),
{
}

/// What the loop builds, stripped of `'_'` at both ends, is the runs of letters and
/// digits of the lower-cased request joined with `'_'`.
proof fn lemma_slug_is_joined_runs(p: Seq<char>)
    ensures
        strip_both(slug_state(p).0, CharClass::Underscore) == underscore_joined(
            alnum_runs(lower_ascii(p)),
        ),
{
    lemma_slug_state_runs(p);
    let (acc, sep) = slug_state(p);
    let (ws, cur) = runs_state(lower_ascii(p));
    let runs = alnum_runs(lower_ascii(p));
    let body = underscore_joined(runs);
    let u = CharClass::Underscore;
    if runs.len() > 0 {
        if cur.len() > 0 {
            assert(runs.last() == cur);
            assert(is_ascii_alnum(cur[cur.len() - 1]));
        } else {
            assert(alnum_word(ws[ws.len() - 1]));
        }
        lemma_joined_last(runs);
        assert(is_ascii_alnum(body.last()));
        assert(body.last() != '_');
        assert(body.push('_').drop_last() =~= body);
        assert(strip_trailing(body, u) == body);
    } else {
        assert(body == Seq::<char>::empty());
        assert(strip_trailing(Seq::<char>::empty(), u) == Seq::<char>::empty());
        assert(body.push('_').drop_last() =~= body);
    }
}

} // verus!
