//! Doc-comment extractor: turns the documentation text of a handler into an
//! operation title and description.
//!
//! When the trimmed text begins with a markdown heading marker `#`, the first
//! line (minus leading `#` characters and surrounding whitespace) is the
//! title and the remainder, paragraph-merged, is the description; otherwise
//! there is no title and the whole text is paragraph-merged.  Paragraph
//! merging splits on blank lines, trims each paragraph, collapses its inner
//! newlines to spaces, drops empty paragraphs and rejoins the survivors.

use vstd::prelude::*;

use crate::text::{
    chars_to_string, first_index_of, join_with, lemma_first_index_of, split_on, split_vec,
    str_chars, subvec, trim_spec, trim_vec,
};

verus! {

/// Turns an empty string into `None` and keeps any non-empty string,
/// whitespace included.
pub fn none_if_empty(s: String) -> (r: Option<String>)
    ensures
        s@.len() == 0 ==> r is None,
        s@.len() > 0 ==> r == Some::<String>(s),
{
    if s.as_str().unicode_len() == 0 {
        None
    } else {
        Some(s)
    }
}

/// Index of the first occurrence of the two-character pattern `a b`, or -1.
pub open spec fn first_index_of2(s: Seq<char>, a: char, b: char) -> int
    decreases s.len(),
{
    if s.len() < 2 {
        -1
    } else if s[0] == a && s[1] == b {
        0
    } else {
        let r = first_index_of2(s.skip(1), a, b);
        if r < 0 {
            -1
        } else {
            1 + r
        }
    }
}

pub proof fn lemma_first_index_of2(s: Seq<char>, a: char, b: char)
    ensures
        first_index_of2(s, a, b) == -1 ==> forall|k: int|
            0 <= k < s.len() - 1 ==> !((#[trigger] s[k]) == a && s[k + 1] == b),
        first_index_of2(s, a, b) >= 0 ==> {
            &&& first_index_of2(s, a, b) <= s.len() - 2
            &&& s[first_index_of2(s, a, b)] == a
            &&& s[first_index_of2(s, a, b) + 1] == b
            &&& forall|k: int|
                0 <= k < first_index_of2(s, a, b) ==> !((#[trigger] s[k]) == a && s[k + 1] == b)
        },
    decreases s.len(),
{
    if s.len() >= 2 && !(s[0] == a && s[1] == b) {
        lemma_first_index_of2(s.skip(1), a, b);
        assert(forall|k: int| 0 <= k < s.len() - 1 ==> s[k] == s.skip(1)[k - 1] || k == 0);
        assert(forall|k: int| 1 <= k < s.len() ==> s[k] == s.skip(1)[k - 1]);
    }
}

pub proof fn lemma_first_index_of2_unique(s: Seq<char>, a: char, b: char, i: int)
    requires
        0 <= i <= s.len() - 2,
        s[i] == a,
        s[i + 1] == b,
        forall|k: int| 0 <= k < i ==> !((#[trigger] s[k]) == a && s[k + 1] == b),
    ensures
        first_index_of2(s, a, b) == i,
{
    lemma_first_index_of2(s, a, b);
    let f = first_index_of2(s, a, b);
    if f == -1 {
        assert(!(s[i] == a && s[i + 1] == b));
    } else if f < i {
        assert(!(s[f] == a && s[f + 1] == b));
    } else if f > i {
        assert(!(s[i] == a && s[i + 1] == b));
    }
}

/// The pieces of `s` between occurrences of the pattern `a b`, in order.
pub open spec fn split_on2(s: Seq<char>, a: char, b: char) -> Seq<Seq<char>>
    decreases s.len(),
{
    let i = first_index_of2(s, a, b);
    if i < 0 {
        seq![s]
    } else if i + 2 <= s.len() {
        seq![s.take(i)] + split_on2(s.skip(i + 2), a, b)
    } else {
        seq![s]
    }
}

/// The pieces joined back with the two-character pattern `a b` between them.
pub open spec fn join_with2(parts: Seq<Seq<char>>, a: char, b: char) -> Seq<char>
    decreases parts.len(),
{
    if parts.len() == 0 {
        Seq::empty()
    } else if parts.len() == 1 {
        parts[0]
    } else {
        parts[0] + seq![a, b] + join_with2(parts.skip(1), a, b)
    }
}

pub proof fn lemma_join2_push(parts: Seq<Seq<char>>, a: char, b: char, x: Seq<char>)
    ensures
        join_with2(parts.push(x), a, b) == if parts.len() == 0 {
            x
        } else {
            join_with2(parts, a, b) + seq![a, b] + x
        },
    decreases parts.len(),
{
    if parts.len() == 0 {
        assert(parts.push(x)[0] == x);
    } else if parts.len() == 1 {
        assert(parts.push(x)[0] == parts[0]);
        assert(parts.push(x).skip(1) =~= seq![x]);
        assert(join_with2(seq![x], a, b) == x);
    } else {
        lemma_join2_push(parts.skip(1), a, b, x);
        assert(parts.push(x).skip(1) =~= parts.skip(1).push(x));
        assert(parts.push(x)[0] == parts[0]);
        assert(parts[0] + seq![a, b] + (join_with2(parts.skip(1), a, b) + seq![a, b] + x)
            =~= (parts[0] + seq![a, b] + join_with2(parts.skip(1), a, b)) + seq![a, b] + x);
    }
}

/// First occurrence of the pattern `a b` in `v`, matching `first_index_of2`.
fn find_pair(v: &Vec<char>, a: char, b: char) -> (r: Option<usize>)
    ensures
        match r {
            Some(i) => first_index_of2(v@, a, b) == i as int,
            None => first_index_of2(v@, a, b) == -1,
        },
{
    let n = v.len();
    if n < 2 {
        proof {
            lemma_first_index_of2(v@, a, b);
            if first_index_of2(v@, a, b) >= 0 {
                assert(first_index_of2(v@, a, b) <= v@.len() - 2);
            }
        }
        return None;
    }
    let mut i: usize = 0;
    while i < n - 1
        invariant
            i <= n - 1,
            n == v@.len(),
            n >= 2,
            forall|k: int| 0 <= k < i ==> !((#[trigger] v@[k]) == a && v@[k + 1] == b),
        decreases n - i,
    {
        if v[i] == a && v[i + 1] == b {
            proof {
                lemma_first_index_of2_unique(v@, a, b, i as int);
            }
            return Some(i);
        }
        i = i + 1;
    }
    proof {
        lemma_first_index_of2(v@, a, b);
        if first_index_of2(v@, a, b) >= 0 {
            let f = first_index_of2(v@, a, b);
            assert(!(v@[f] == a && v@[f + 1] == b));
        }
    }
    None
}

/// Split `v` at every occurrence of the pattern `a b`, per `split_on2`.
fn split_pair(v: &Vec<char>, a: char, b: char) -> (r: Vec<Vec<char>>)
    ensures
        r.deep_view() == split_on2(v@, a, b),
    decreases v@.len(),
{
    match find_pair(v, a, b) {
        None => {
            let mut r: Vec<Vec<char>> = Vec::new();
            r.push(subvec(v, 0, v.len()));
            proof {
                assert(v@.subrange(0, v@.len() as int) =~= v@);
                assert(r.deep_view() =~~= split_on2(v@, a, b));
            }
            r
        },
        Some(i) => {
            let n = v.len();
            proof {
                lemma_first_index_of2(v@, a, b);
                assert(i + 2 <= n);
            }
            let head = subvec(v, 0, i);
            let rest = subvec(v, i + 2, n);
            proof {
                assert(rest@ =~= v@.skip(i + 2 as int));
            }
            let mut r = split_pair(&rest, a, b);
            r.insert(0, head);
            proof {
                assert(r.deep_view() =~~= split_on2(v@, a, b));
            }
            r
        },
    }
}

/// Each newline replaced by a space.
pub open spec fn newlines_to_spaces(s: Seq<char>) -> Seq<char> {
    s.map_values(
        |c: char|
            if c == '\n' {
                ' '
            } else {
                c
            },
    )
}

fn replace_newlines(v: &Vec<char>) -> (r: Vec<char>)
    ensures
        r@ == newlines_to_spaces(v@),
{
    let mut r: Vec<char> = Vec::new();
    let mut i: usize = 0;
    while i < v.len()
        invariant
            i <= v@.len(),
            r@ == newlines_to_spaces(v@.take(i as int)),
        decreases v.len() - i,
    {
        let c = v[i];
        if c == '\n' {
            r.push(' ');
        } else {
            r.push(c);
        }
        proof {
            assert(r@ =~= newlines_to_spaces(v@.take(i + 1 as int)));
        }
        i = i + 1;
    }
    proof {
        assert(v@.take(v@.len() as int) =~= v@);
    }
    r
}

/// A paragraph as it survives merging: trimmed, inner newlines collapsed.
pub open spec fn merged_paragraph(p: Seq<char>) -> Seq<char> {
    newlines_to_spaces(trim_spec(p))
}

/// The paragraphs that survive merging: the non-empty merged ones, in order.
pub open spec fn kept_paragraphs(ps: Seq<Seq<char>>) -> Seq<Seq<char>>
    decreases ps.len(),
{
    if ps.len() == 0 {
        Seq::empty()
    } else {
        let t = merged_paragraph(ps[0]);
        let rest = kept_paragraphs(ps.skip(1));
        if t.len() > 0 {
            seq![t] + rest
        } else {
            rest
        }
    }
}

proof fn lemma_kept_paragraphs_push(ps: Seq<Seq<char>>, x: Seq<char>)
    ensures
        kept_paragraphs(ps.push(x)) == kept_paragraphs(ps) + if merged_paragraph(x).len() > 0 {
            seq![merged_paragraph(x)]
        } else {
            Seq::<Seq<char>>::empty()
        },
    decreases ps.len(),
{
    if ps.len() == 0 {
        assert(ps.push(x)[0] == x);
        assert(ps.push(x).skip(1) =~= Seq::<Seq<char>>::empty());
        if merged_paragraph(x).len() > 0 {
            assert(kept_paragraphs(ps.push(x).skip(1)) =~= Seq::<Seq<char>>::empty());
            assert(seq![merged_paragraph(x)] + Seq::<Seq<char>>::empty() =~= seq![
                merged_paragraph(x),
            ]);
            assert(kept_paragraphs(ps.push(x)) =~= kept_paragraphs(ps) + seq![merged_paragraph(x)]);
        } else {
            assert(kept_paragraphs(ps.push(x).skip(1)) =~= Seq::<Seq<char>>::empty());
            assert(kept_paragraphs(ps.push(x)) =~= kept_paragraphs(ps)
                + Seq::<Seq<char>>::empty());
        }
    } else {
        lemma_kept_paragraphs_push(ps.skip(1), x);
        assert(ps.push(x).skip(1) =~= ps.skip(1).push(x));
        assert(ps.push(x)[0] == ps[0]);
        if merged_paragraph(ps[0]).len() > 0 {
            if merged_paragraph(x).len() > 0 {
                assert(seq![merged_paragraph(ps[0])] + (kept_paragraphs(ps.skip(1)) + seq![
                    merged_paragraph(x),
                ]) =~= (seq![merged_paragraph(ps[0])] + kept_paragraphs(ps.skip(1))) + seq![
                    merged_paragraph(x),
                ]);
            } else {
                assert(kept_paragraphs(ps) + Seq::<Seq<char>>::empty() =~= kept_paragraphs(ps));
            }
        } else {
            if merged_paragraph(x).len() == 0 {
                assert(kept_paragraphs(ps) + Seq::<Seq<char>>::empty() =~= kept_paragraphs(ps));
            }
        }
    }
}

/// The paragraph-merged form of a documentation text.
pub open spec fn merged_description(doc: Seq<char>) -> Seq<char> {
    join_with2(kept_paragraphs(split_on2(trim_spec(doc), '\n', '\n')), '\n', '\n')
}

/// Merges the paragraphs of `doc`: splits on blank lines, trims each
/// paragraph and collapses its inner newlines to spaces, drops the empty
/// ones, and rejoins the rest with blank lines.  Returns `None` when nothing
/// survives.
pub fn merge_description_lines(doc: &str) -> (r: Option<String>)
    ensures
        merged_description(doc@).len() == 0 ==> r is None,
        merged_description(doc@).len() > 0 ==> match r {
            Some(s) => s@ == merged_description(doc@),
            None => false,
        },
{
    let chars = str_chars(doc);
    let trimmed = trim_vec(&chars);
    let paragraphs = split_pair(&trimmed, '\n', '\n');
    let mut kept: Vec<Vec<char>> = Vec::new();
    let mut i: usize = 0;
    while i < paragraphs.len()
        invariant
            i <= paragraphs@.len(),
            kept.deep_view() == kept_paragraphs(paragraphs.deep_view().take(i as int)),
        decreases paragraphs.len() - i,
    {
        let t = replace_newlines(&trim_vec(&paragraphs[i]));
        proof {
            assert(paragraphs.deep_view()[i as int] == paragraphs@[i as int]@);
            assert(t@ =~= merged_paragraph(paragraphs.deep_view()[i as int]));
            lemma_kept_paragraphs_push(
                paragraphs.deep_view().take(i as int),
                paragraphs.deep_view()[i as int],
            );
            assert(paragraphs.deep_view().take(i as int).push(paragraphs.deep_view()[i as int])
                =~~= paragraphs.deep_view().take(i + 1 as int));
        }
        if t.len() > 0 {
            kept.push(t);
            proof {
                assert(kept.deep_view() =~~= kept_paragraphs(
                    paragraphs.deep_view().take(i + 1 as int),
                ));
            }
        } else {
            proof {
                assert(kept.deep_view() =~~= kept_paragraphs(
                    paragraphs.deep_view().take(i + 1 as int),
                ));
            }
        }
        i = i + 1;
    }
    proof {
        assert(paragraphs.deep_view().take(paragraphs@.len() as int) =~~= paragraphs.deep_view());
    }
    let mut out: Vec<char> = Vec::new();
    let mut j: usize = 0;
    while j < kept.len()
        invariant
            j <= kept@.len(),
            out@ == join_with2(kept.deep_view().take(j as int), '\n', '\n'),
        decreases kept.len() - j,
    {
        if j > 0 {
            out.push('\n');
            out.push('\n');
        }
        crate::text::append_chars(&mut out, &kept[j]);
        proof {
            lemma_join2_push(kept.deep_view().take(j as int), '\n', '\n', kept.deep_view()[j as int]);
            assert(kept.deep_view().take(j as int).push(kept.deep_view()[j as int]) =~~= kept.deep_view().take(
                j + 1 as int,
            ));
        }
        j = j + 1;
    }
    proof {
        assert(kept.deep_view().take(kept@.len() as int) =~~= kept.deep_view());
    }
    none_if_empty(chars_to_string(&out))
}

/// `s` without its leading `#` characters.
pub open spec fn trim_hashes(s: Seq<char>) -> Seq<char>
    decreases s.len(),
{
    if s.len() > 0 && s[0] == '#' {
        trim_hashes(s.skip(1))
    } else {
        s
    }
}

proof fn lemma_trim_hashes_skip(s: Seq<char>, a: int)
    requires
        0 <= a <= s.len(),
        forall|k: int| 0 <= k < a ==> s[k] == '#',
    ensures
        trim_hashes(s) == trim_hashes(s.skip(a)),
    decreases a,
{
    if a > 0 {
        lemma_trim_hashes_skip(s.skip(1), a - 1);
        assert(s.skip(1).skip(a - 1) =~= s.skip(a));
    } else {
        assert(s.skip(0) =~= s);
    }
}

fn trim_hashes_vec(v: &Vec<char>) -> (r: Vec<char>)
    ensures
        r@ == trim_hashes(v@),
{
    let mut a: usize = 0;
    while a < v.len() && v[a] == '#'
        invariant
            a <= v@.len(),
            forall|k: int| 0 <= k < a ==> v@[k] == '#',
        decreases v.len() - a,
    {
        a = a + 1;
    }
    let r = subvec(v, a, v.len());
    proof {
        lemma_trim_hashes_skip(v@, a as int);
        assert(r@ =~= v@.skip(a as int));
        if a < v@.len() {
            assert(v@.skip(a as int)[0] == v@[a as int]);
        }
    }
    r
}

/// The lines of a raw documentation text, each trimmed.
pub open spec fn trimmed_lines(text: Seq<char>) -> Seq<Seq<char>> {
    split_on(text, '\n').map_values(|l: Seq<char>| trim_spec(l))
}

/// Lines with the leading run of blank lines removed.
pub open spec fn skip_blank_prefix(ls: Seq<Seq<char>>) -> Seq<Seq<char>>
    decreases ls.len(),
{
    if ls.len() > 0 && ls[0].len() == 0 {
        skip_blank_prefix(ls.skip(1))
    } else {
        ls
    }
}

proof fn lemma_skip_blank_prefix(ls: Seq<Seq<char>>, a: int)
    requires
        0 <= a <= ls.len(),
        forall|k: int| 0 <= k < a ==> ls[k].len() == 0,
    ensures
        skip_blank_prefix(ls) == skip_blank_prefix(ls.skip(a)),
    decreases a,
{
    if a > 0 {
        lemma_skip_blank_prefix(ls.skip(1), a - 1);
        assert(ls.skip(1).skip(a - 1) =~= ls.skip(a));
    } else {
        assert(ls.skip(0) =~= ls);
    }
}

/// The normalized documentation text of a handler: the doc lines joined,
/// re-split into lines, each line trimmed, leading blank lines dropped, and
/// the rest joined with newlines.
pub open spec fn normalized_doc(values: Seq<Seq<char>>) -> Seq<char> {
    join_with(skip_blank_prefix(trimmed_lines(join_with(values, '\n'))), '\n')
}

/// Joins the raw doc-attribute values of a handler and normalizes them:
/// every line trimmed, leading blank lines dropped, the rest joined with
/// newlines.  Returns `None` when nothing is left.
pub fn get_doc(values: &Vec<String>) -> (r: Option<String>)
    ensures
        normalized_doc(values.deep_view()).len() == 0 ==> r is None,
        normalized_doc(values.deep_view()).len() > 0 ==> match r {
            Some(s) => s@ == normalized_doc(values.deep_view()),
            None => false,
        },
{
    let mut parts: Vec<Vec<char>> = Vec::new();
    let mut i: usize = 0;
    while i < values.len()
        invariant
            i <= values@.len(),
            parts@.len() == i,
            forall|k: int| 0 <= k < i ==> parts.deep_view()[k] == values.deep_view()[k],
        decreases values.len() - i,
    {
        parts.push(str_chars(values[i].as_str()));
        proof {
            assert(parts@[i as int]@ == values@[i as int]@);
            assert(parts@[i as int].deep_view() =~= values@[i as int].deep_view());
            assert forall|k: int| 0 <= k < i + 1 implies parts.deep_view()[k]
                == values.deep_view()[k] by {
                assert(parts.deep_view()[k] == parts@[k].deep_view());
            }
        }
        i = i + 1;
    }
    proof {
        assert(parts.deep_view() =~~= values.deep_view());
    }
    let joined = crate::text::join_vec(&parts, '\n');
    let lines = split_vec(&joined, '\n');
    let mut trimmed: Vec<Vec<char>> = Vec::new();
    let mut j: usize = 0;
    while j < lines.len()
        invariant
            j <= lines@.len(),
            trimmed@.len() == j,
            forall|k: int|
                0 <= k < j ==> trimmed.deep_view()[k] == trim_spec(lines.deep_view()[k]),
        decreases lines.len() - j,
    {
        let ghost d0 = trimmed.deep_view();
        let ghost t0 = trimmed@;
        trimmed.push(trim_vec(&lines[j]));
        proof {
            assert(lines.deep_view()[j as int] =~= lines@[j as int]@);
            assert(trimmed@[j as int]@ == trim_spec(lines@[j as int]@));
            assert(trimmed@[j as int].deep_view() =~= trim_spec(lines.deep_view()[j as int]));
            assert forall|k: int| 0 <= k < j + 1 implies trimmed.deep_view()[k] == trim_spec(
                lines.deep_view()[k],
            ) by {
                assert(trimmed.deep_view()[k] == trimmed@[k].deep_view());
                if k < j {
                    assert(d0[k] == trim_spec(lines.deep_view()[k]));
                    assert(d0[k] == t0[k].deep_view());
                    assert(trimmed@[k] == t0[k]);
                }
            }
        }
        j = j + 1;
    }
    proof {
        assert(lines.deep_view() == split_on(joined@, '\n'));
        assert forall|k: int| 0 <= k < trimmed@.len() implies trimmed.deep_view()[k]
            == trimmed_lines(joined@)[k] by {
            assert(trimmed.deep_view()[k] == trim_spec(lines.deep_view()[k]));
        }
        assert(trimmed.deep_view() =~~= trimmed_lines(joined@));
    }
    let mut a: usize = 0;
    while a < trimmed.len() && trimmed[a].len() == 0
        invariant
            a <= trimmed@.len(),
            forall|k: int| 0 <= k < a ==> trimmed.deep_view()[k].len() == 0,
        decreases trimmed.len() - a,
    {
        a = a + 1;
    }
    let ghost all_trimmed = trimmed.deep_view();
    let mut head = trimmed;
    let ghost head0 = head@;
    let rest = head.split_off(a);
    proof {
        lemma_skip_blank_prefix(all_trimmed, a as int);
        assert forall|k: int| 0 <= k < all_trimmed.len() - a implies rest.deep_view()[k]
            == all_trimmed.skip(a as int)[k] by {
            assert(rest@[k] == head0.subrange(a as int, head0.len() as int)[k]);
            assert(rest@[k] == head0[k + a]);
            assert(rest.deep_view()[k] == rest@[k].deep_view());
            assert(all_trimmed[k + a] == head0[k + a].deep_view());
        }
        assert(rest.deep_view() =~~= all_trimmed.skip(a as int));
        if a < all_trimmed.len() {
            assert(all_trimmed.skip(a as int)[0] == all_trimmed[a as int]);
        }
        assert(skip_blank_prefix(all_trimmed) == rest.deep_view());
    }
    let out = crate::text::join_vec(&rest, '\n');
    none_if_empty(chars_to_string(&out))
}

/// The operation title derived from a normalized doc text.
pub open spec fn title_of(doc: Seq<char>) -> Option<Seq<char>> {
    if doc.len() > 0 && doc[0] == '#' {
        let i = first_index_of(doc, '\n');
        let line = if i < 0 {
            doc
        } else {
            doc.take(i)
        };
        let t = trim_spec(trim_hashes(line));
        if t.len() > 0 {
            Some(t)
        } else {
            None
        }
    } else {
        None
    }
}

/// The operation description derived from a normalized doc text.
pub open spec fn desc_of(doc: Seq<char>) -> Option<Seq<char>> {
    if doc.len() > 0 && doc[0] == '#' {
        let i = first_index_of(doc, '\n');
        if i < 0 {
            None
        } else {
            let m = merged_description(doc.skip(i + 1));
            if m.len() > 0 {
                Some(m)
            } else {
                None
            }
        }
    } else {
        let m = merged_description(doc);
        if m.len() > 0 {
            Some(m)
        } else {
            None
        }
    }
}

/// Extracts the operation title and description from the raw doc-attribute
/// values of a handler, per the markdown-heading convention.
pub fn get_title_and_desc_from_doc(values: &Vec<String>) -> (r: (Option<String>, Option<String>))
    ensures
        ({
            let d = normalized_doc(values.deep_view());
            if d.len() == 0 {
                r.0 is None && r.1 is None
            } else {
                r.0.deep_view() == title_of(d) && r.1.deep_view() == desc_of(d)
            }
        }),
{
    let doc = match get_doc(values) {
        None => {
            return (None, None);
        },
        Some(d) => d,
    };
    let chars = str_chars(doc.as_str());
    if chars.len() > 0 && chars[0] == '#' {
        let (line, rest) = match crate::text::find_char(&chars, '\n') {
            Some(i) => {
                proof {
                    lemma_first_index_of(chars@, '\n');
                }
                (subvec(&chars, 0, i), Some(subvec(&chars, i + 1, chars.len())))
            },
            None => (subvec(&chars, 0, chars.len()), None),
        };
        proof {
            if first_index_of(chars@, '\n') < 0 {
                assert(chars@.subrange(0, chars@.len() as int) =~= chars@);
            }
        }
        let title = trim_vec(&trim_hashes_vec(&line));
        let title_r = none_if_empty(chars_to_string(&title));
        let desc_r = match rest {
            Some(rv) => {
                proof {
                    assert(rv@ =~= chars@.skip(first_index_of(chars@, '\n') + 1));
                }
                merge_description_lines(chars_to_string(&rv).as_str())
            },
            None => None,
        };
        (title_r, desc_r)
    } else {
        let desc_r = merge_description_lines(doc.as_str());
        (None, desc_r)
    }
}

} // verus!
