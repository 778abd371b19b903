//! Route templates: the path and query shape a handler declares.
//!
//! A template path is a slash-separated sequence of literal segments and
//! placeholders — `<name>` binds one segment, a trailing `<name..>` binds the
//! rest of the path.  The query component is an ampersand-separated sequence
//! of the same token shapes.  Parsing and rendering are exact inverses on
//! every template the parser accepts.

use vstd::prelude::*;

use crate::http::HttpMethod;
use crate::text::{
    chars_to_string, find_char, first_index_of, join_with, lemma_first_index_of, lemma_join_split,
    split_on, split_vec, str_chars, subvec,
};

verus! {

/// One segment of a template path, or one token of a template query.
#[derive(Debug)]
pub enum Segment {
    /// Matched verbatim.
    Literal(String),
    /// `<name>`: binds a single segment or query value.
    Single(String),
    /// `<name..>`: binds the remaining segments or query values.
    Multi(String),
}

/// The mathematical form of a segment.
pub enum SegModel {
    Literal(Seq<char>),
    Single(Seq<char>),
    Multi(Seq<char>),
}

impl View for Segment {
    type V = SegModel;

    open spec fn view(&self) -> SegModel {
        match self {
            Segment::Literal(s) => SegModel::Literal(s@),
            Segment::Single(s) => SegModel::Single(s@),
            Segment::Multi(s) => SegModel::Multi(s@),
        }
    }
}

impl DeepView for Segment {
    type V = SegModel;

    open spec fn deep_view(&self) -> SegModel {
        self@
    }
}

impl Clone for Segment {
    fn clone(&self) -> (r: Self)
        ensures
            r@ == self@,
    {
        match self {
            Segment::Literal(s) => Segment::Literal(s.clone()),
            Segment::Single(s) => Segment::Single(s.clone()),
            Segment::Multi(s) => Segment::Multi(s.clone()),
        }
    }
}

/// How one piece of text reads as a segment: a bracketed piece ending in
/// `..>` is a multi placeholder, any other bracketed piece a single
/// placeholder, the rest literal text.
pub open spec fn seg_of(s: Seq<char>) -> SegModel {
    if s.len() >= 4 && s[0] == '<' && s[s.len() - 3] == '.' && s[s.len() - 2] == '.' && s[s.len()
        - 1] == '>' {
        SegModel::Multi(s.subrange(1, s.len() - 3))
    } else if s.len() >= 2 && s[0] == '<' && s[s.len() - 1] == '>' {
        SegModel::Single(s.subrange(1, s.len() - 1))
    } else {
        SegModel::Literal(s)
    }
}

/// The text form of a segment.
pub open spec fn seg_render(g: SegModel) -> Seq<char> {
    match g {
        SegModel::Literal(s) => s,
        SegModel::Single(n) => seq!['<'] + n + seq!['>'],
        SegModel::Multi(n) => seq!['<'] + n + seq!['.', '.', '>'],
    }
}

/// Reading back a rendered segment restores it.
pub proof fn lemma_seg_round_trip(s: Seq<char>)
    ensures
        seg_render(seg_of(s)) == s,
{
    let g = seg_of(s);
    match g {
        SegModel::Literal(_) => {},
        SegModel::Single(n) => {
            assert(seq!['<'] + s.subrange(1, s.len() - 1) + seq!['>'] =~= s);
        },
        SegModel::Multi(n) => {
            assert(seq!['<'] + s.subrange(1, s.len() - 3) + seq!['.', '.', '>'] =~= s);
        },
    }
}

pub open spec fn is_multi(g: SegModel) -> bool {
    g is Multi
}

/// Every multi placeholder stands last.
pub open spec fn multi_only_last(segs: Seq<SegModel>) -> bool {
    forall|k: int| 0 <= k < segs.len() && is_multi(#[trigger] segs[k]) ==> k == segs.len() - 1
}

/// The segments of a template path string: the text must start with a slash,
/// and the pieces between slashes must be non-empty, with any multi
/// placeholder last.
pub open spec fn path_of(s: Seq<char>) -> Option<Seq<SegModel>> {
    if s.len() == 0 || s[0] != '/' {
        None
    } else if s.len() == 1 {
        Some(Seq::empty())
    } else {
        let pieces = split_on(s.skip(1), '/');
        let segs = pieces.map_values(|p: Seq<char>| seg_of(p));
        if (forall|k: int| 0 <= k < pieces.len() ==> (#[trigger] pieces[k]).len() > 0)
            && multi_only_last(segs) {
            Some(segs)
        } else {
            None
        }
    }
}

/// The tokens of a template query string, with any multi placeholder last.
pub open spec fn query_of(s: Seq<char>) -> Option<Seq<SegModel>> {
    let toks = split_on(s, '&').map_values(|p: Seq<char>| seg_of(p));
    if multi_only_last(toks) {
        Some(toks)
    } else {
        None
    }
}

/// The text form of a template path.
pub open spec fn path_render(segs: Seq<SegModel>) -> Seq<char> {
    seq!['/'] + join_with(segs.map_values(|g: SegModel| seg_render(g)), '/')
}

/// The text form of a template query.
pub open spec fn query_render(toks: Seq<SegModel>) -> Seq<char> {
    join_with(toks.map_values(|g: SegModel| seg_render(g)), '&')
}

/// A route's path and query shape; the model of the origin a handler
/// attribute declares.
#[derive(Debug)]
pub struct RouteUri {
    pub path_segments: Vec<Segment>,
    pub query: Option<Vec<Segment>>,
}

/// The mathematical form of a route origin.
pub struct UriModel {
    pub path_segments: Seq<SegModel>,
    pub query: Option<Seq<SegModel>>,
}

impl View for RouteUri {
    type V = UriModel;

    open spec fn view(&self) -> UriModel {
        UriModel {
            path_segments: self.path_segments.deep_view(),
            query: match self.query {
                Some(q) => Some(q.deep_view()),
                None => None,
            },
        }
    }
}

impl Clone for RouteUri {
    fn clone(&self) -> (r: Self)
        ensures
            r@ == self@,
    {
        let segs = clone_segments(&self.path_segments);
        let q = match &self.query {
            Some(q) => Some(clone_segments(q)),
            None => None,
        };
        let r = RouteUri { path_segments: segs, query: q };
        proof {
            assert(r@.path_segments =~~= self@.path_segments);
            match self.query {
                Some(_) => {
                    assert(r@.query.unwrap() =~~= self@.query.unwrap());
                },
                None => {},
            }
        }
        r
    }
}

fn clone_segments(v: &Vec<Segment>) -> (r: Vec<Segment>)
    ensures
        r.deep_view() == v.deep_view(),
{
    let mut r: Vec<Segment> = Vec::new();
    let mut i: usize = 0;
    while i < v.len()
        invariant
            i <= v@.len(),
            r@.len() == i,
            forall|k: int| 0 <= k < i ==> r.deep_view()[k] == v.deep_view()[k],
        decreases v.len() - i,
    {
        r.push(v[i].clone());
        proof {
            assert forall|k: int| 0 <= k < i + 1 implies r.deep_view()[k] == v.deep_view()[k] by {
                assert(r.deep_view()[k] == r@[k]@);
            }
        }
        i = i + 1;
    }
    proof {
        assert(r.deep_view() =~~= v.deep_view());
    }
    r
}

/// The origin a template string declares: the part before the first `?` is
/// the path, the part after it the query.
pub open spec fn origin_of(s: Seq<char>) -> Option<UriModel> {
    let qi = first_index_of(s, '?');
    if qi < 0 {
        match path_of(s) {
            Some(p) => Some(UriModel { path_segments: p, query: None }),
            None => None,
        }
    } else {
        match path_of(s.take(qi)) {
            Some(p) => match query_of(s.skip(qi + 1)) {
                Some(q) => Some(UriModel { path_segments: p, query: Some(q) }),
                None => None,
            },
            None => None,
        }
    }
}

/// The text form of an origin.
pub open spec fn origin_render(u: UriModel) -> Seq<char> {
    match u.query {
        None => path_render(u.path_segments),
        Some(q) => path_render(u.path_segments) + seq!['?'] + query_render(q),
    }
}

/// Reads one piece of text as a segment, per `seg_of`.
fn parse_segment(p: &Vec<char>) -> (g: Segment)
    ensures
        g@ == seg_of(p@),
{
    let n = p.len();
    if n >= 4 && p[0] == '<' && p[n - 3] == '.' && p[n - 2] == '.' && p[n - 1] == '>' {
        let g = Segment::Multi(chars_to_string(&subvec(p, 1, n - 3)));
        proof {
            assert(g@ == seg_of(p@));
        }
        g
    } else if n >= 2 && p[0] == '<' && p[n - 1] == '>' {
        let g = Segment::Single(chars_to_string(&subvec(p, 1, n - 1)));
        proof {
            assert(g@ == seg_of(p@));
        }
        g
    } else {
        let g = Segment::Literal(chars_to_string(&subvec(p, 0, n)));
        proof {
            assert(p@.subrange(0, n as int) =~= p@);
            assert(g@ == seg_of(p@));
        }
        g
    }
}

fn is_multi_exec(g: &Segment) -> (r: bool)
    ensures
        r == is_multi(g@),
{
    match g {
        Segment::Multi(_) => true,
        _ => false,
    }
}

/// Reads pieces of text as segments and checks that any multi placeholder
/// stands last.
fn parse_pieces(pieces: &Vec<Vec<char>>) -> (r: Option<Vec<Segment>>)
    ensures
        ({
            let segs = pieces.deep_view().map_values(|p: Seq<char>| seg_of(p));
            match r {
                Some(v) => v.deep_view() == segs && multi_only_last(segs),
                None => !multi_only_last(segs),
            }
        }),
{
    let ghost segs = pieces.deep_view().map_values(|p: Seq<char>| seg_of(p));
    let mut out: Vec<Segment> = Vec::new();
    let mut i: usize = 0;
    while i < pieces.len()
        invariant
            i <= pieces@.len(),
            out@.len() == i,
            segs == pieces.deep_view().map_values(|p: Seq<char>| seg_of(p)),
            forall|k: int| 0 <= k < i ==> out.deep_view()[k] == segs[k],
            forall|k: int| 0 <= k < i && is_multi(segs[k]) ==> k == pieces@.len() - 1,
        decreases pieces.len() - i,
    {
        let g = parse_segment(&pieces[i]);
        proof {
            assert(pieces.deep_view()[i as int] =~= pieces@[i as int]@);
            assert(g@ == segs[i as int]);
        }
        if is_multi_exec(&g) && i + 1 < pieces.len() {
            proof {
                assert(is_multi(segs[i as int]) && i as int != pieces@.len() - 1);
            }
            return None;
        }
        out.push(g);
        proof {
            assert forall|k: int| 0 <= k < i + 1 implies out.deep_view()[k] == segs[k] by {
                assert(out.deep_view()[k] == out@[k]@);
            }
        }
        i = i + 1;
    }
    proof {
        assert(out.deep_view() =~~= segs);
    }
    Some(out)
}

/// Parses a template path string, per `path_of`.
pub fn parse_path(s: &Vec<char>) -> (r: Option<Vec<Segment>>)
    ensures
        match r {
            Some(v) => path_of(s@) == Some(v.deep_view()),
            None => path_of(s@) is None,
        },
{
    if s.len() == 0 {
        return None;
    }
    if s[0] != '/' {
        return None;
    }
    if s.len() == 1 {
        let empty: Vec<Segment> = Vec::new();
        proof {
            assert(empty.deep_view() =~~= Seq::<SegModel>::empty());
        }
        return Some(empty);
    }
    let rest = subvec(s, 1, s.len());
    proof {
        assert(rest@ =~= s@.skip(1));
    }
    let pieces = split_vec(&rest, '/');
    let mut i: usize = 0;
    while i < pieces.len()
        invariant
            i <= pieces@.len(),
            s@.len() > 1,
            s@[0] == '/',
            pieces.deep_view() == split_on(s@.skip(1), '/'),
            forall|k: int| 0 <= k < i ==> (#[trigger] pieces.deep_view()[k]).len() > 0,
        decreases pieces.len() - i,
    {
        if pieces[i].len() == 0 {
            proof {
                let sp = split_on(s@.skip(1), '/');
                assert(pieces.deep_view()[i as int] =~= pieces@[i as int]@);
                assert(0 <= i < sp.len() && sp[i as int].len() == 0);
                assert(path_of(s@) is None);
            }
            return None;
        }
        proof {
            assert(pieces.deep_view()[i as int] =~= pieces@[i as int]@);
        }
        i = i + 1;
    }
    parse_pieces(&pieces)
}

/// Parses a template query string, per `query_of`.
pub fn parse_query(s: &Vec<char>) -> (r: Option<Vec<Segment>>)
    ensures
        match r {
            Some(v) => query_of(s@) == Some(v.deep_view()),
            None => query_of(s@) is None,
        },
{
    let toks = split_vec(s, '&');
    parse_pieces(&toks)
}

/// Parses a template origin string, per `origin_of`.
pub fn parse_origin(s: &str) -> (r: Option<RouteUri>)
    ensures
        match r {
            Some(u) => origin_of(s@) == Some(u@),
            None => origin_of(s@) is None,
        },
{
    let chars = str_chars(s);
    match find_char(&chars, '?') {
        None => {
            match parse_path(&chars) {
                Some(p) => {
                    let u = RouteUri { path_segments: p, query: None };
                    Some(u)
                },
                None => None,
            }
        },
        Some(qi) => {
            proof {
                lemma_first_index_of(chars@, '?');
            }
            let before = subvec(&chars, 0, qi);
            let after = subvec(&chars, qi + 1, chars.len());
            proof {
                assert(before@ =~= chars@.take(qi as int));
                assert(after@ =~= chars@.skip(qi + 1 as int));
            }
            match parse_path(&before) {
                Some(p) => match parse_query(&after) {
                    Some(q) => {
                        let u = RouteUri { path_segments: p, query: Some(q) };
                        Some(u)
                    },
                    None => None,
                },
                None => None,
            }
        },
    }
}

/// Renders segments back to text, placeholders in angle brackets.
fn render_segments(segs: &Vec<Segment>, sep: char) -> (r: Vec<char>)
    ensures
        r@ == join_with(segs.deep_view().map_values(|g: SegModel| seg_render(g)), sep),
{
    let mut rendered: Vec<Vec<char>> = Vec::new();
    let mut i: usize = 0;
    while i < segs.len()
        invariant
            i <= segs@.len(),
            rendered@.len() == i,
            forall|k: int| 0 <= k < i ==> (#[trigger] rendered@[k])@ == seg_render(
                segs.deep_view()[k],
            ),
        decreases segs.len() - i,
    {
        let mut piece: Vec<char> = Vec::new();
        match &segs[i] {
            Segment::Literal(t) => {
                piece = str_chars(t.as_str());
            },
            Segment::Single(n) => {
                piece.push('<');
                crate::text::append_chars(&mut piece, &str_chars(n.as_str()));
                piece.push('>');
            },
            Segment::Multi(n) => {
                piece.push('<');
                crate::text::append_chars(&mut piece, &str_chars(n.as_str()));
                piece.push('.');
                piece.push('.');
                piece.push('>');
            },
        }
        proof {
            assert(segs.deep_view()[i as int] == segs@[i as int]@);
            assert(piece@ =~= seg_render(segs.deep_view()[i as int]));
        }
        rendered.push(piece);
        i = i + 1;
    }
    proof {
        assert forall|k: int| 0 <= k < rendered@.len() implies rendered.deep_view()[k]
            == segs.deep_view().map_values(|g: SegModel| seg_render(g))[k] by {
            assert(rendered.deep_view()[k] == rendered@[k].deep_view());
            assert(rendered@[k].deep_view() =~= rendered@[k]@);
        }
        assert(rendered.deep_view() =~~= segs.deep_view().map_values(
            |g: SegModel| seg_render(g),
        ));
    }
    crate::text::join_vec(&rendered, sep)
}

/// Renders an origin back to its template text, per `origin_render`.
pub fn render_origin(u: &RouteUri) -> (r: String)
    ensures
        r@ == origin_render(u@),
{
    let mut out: Vec<char> = Vec::new();
    out.push('/');
    let body = render_segments(&u.path_segments, '/');
    crate::text::append_chars(&mut out, &body);
    proof {
        assert(out@ =~= path_render(u@.path_segments));
    }
    match &u.query {
        None => {},
        Some(q) => {
            out.push('?');
            let qs = render_segments(q, '&');
            crate::text::append_chars(&mut out, &qs);
            proof {
                assert(out@ =~= path_render(u@.path_segments) + seq!['?'] + query_render(
                    u@.query.unwrap(),
                ));
            }
        },
    }
    chars_to_string(&out)
}

/// Rendering a parsed path restores its text.
pub proof fn lemma_path_round_trip(s: Seq<char>)
    requires
        path_of(s) is Some,
    ensures
        path_render(path_of(s).unwrap()) == s,
{
    if s.len() == 1 {
        assert(path_of(s).unwrap() =~= Seq::<SegModel>::empty());
        assert(path_render(Seq::<SegModel>::empty()) =~= seq!['/']);
        assert(path_render(path_of(s).unwrap()) =~= s);
    } else {
        let pieces = split_on(s.skip(1), '/');
        let segs = pieces.map_values(|p: Seq<char>| seg_of(p));
        assert forall|k: int| 0 <= k < segs.len() implies segs.map_values(
            |g: SegModel| seg_render(g),
        )[k] == pieces[k] by {
            lemma_seg_round_trip(pieces[k]);
        }
        assert(segs.map_values(|g: SegModel| seg_render(g)) =~~= pieces);
        lemma_join_split(s.skip(1), '/');
        assert(path_render(segs) =~= seq!['/'] + s.skip(1));
        assert(seq!['/'] + s.skip(1) =~= s);
    }
}

/// Rendering a parsed query restores its text.
pub proof fn lemma_query_round_trip(s: Seq<char>)
    requires
        query_of(s) is Some,
    ensures
        query_render(query_of(s).unwrap()) == s,
{
    let toks = split_on(s, '&');
    let segs = toks.map_values(|p: Seq<char>| seg_of(p));
    assert forall|k: int| 0 <= k < segs.len() implies segs.map_values(
        |g: SegModel| seg_render(g),
    )[k] == toks[k] by {
        lemma_seg_round_trip(toks[k]);
    }
    assert(segs.map_values(|g: SegModel| seg_render(g)) =~~= toks);
    lemma_join_split(s, '&');
}

/// Rendering a parsed origin restores its text: parsing and rendering are
/// exact inverses on every template the parser accepts, so re-parsing a
/// rendered origin yields the identical origin.
pub proof fn lemma_origin_round_trip(s: Seq<char>)
    requires
        origin_of(s) is Some,
    ensures
        origin_render(origin_of(s).unwrap()) == s,
        origin_of(origin_render(origin_of(s).unwrap())) == origin_of(s),
{
    let qi = first_index_of(s, '?');
    lemma_first_index_of(s, '?');
    if qi < 0 {
        lemma_path_round_trip(s);
    } else {
        lemma_path_round_trip(s.take(qi));
        lemma_query_round_trip(s.skip(qi + 1));
        assert(origin_render(origin_of(s).unwrap()) =~= s.take(qi) + seq!['?'] + s.skip(qi + 1));
        assert(s.take(qi) + seq!['?'] + s.skip(qi + 1) =~= s);
    }
}

/// The names of the single placeholders among segments, in order.
pub open spec fn single_names(segs: Seq<SegModel>) -> Seq<Seq<char>>
    decreases segs.len(),
{
    if segs.len() == 0 {
        Seq::empty()
    } else {
        let rest = single_names(segs.skip(1));
        match segs[0] {
            SegModel::Single(n) => seq![n] + rest,
            _ => rest,
        }
    }
}

/// The names of the multi placeholders among segments, in order.
pub open spec fn multi_names(segs: Seq<SegModel>) -> Seq<Seq<char>>
    decreases segs.len(),
{
    if segs.len() == 0 {
        Seq::empty()
    } else {
        let rest = multi_names(segs.skip(1));
        match segs[0] {
            SegModel::Multi(n) => seq![n] + rest,
            _ => rest,
        }
    }
}

pub proof fn lemma_single_names_push(segs: Seq<SegModel>, x: SegModel)
    ensures
        single_names(segs.push(x)) == single_names(segs) + (match x {
            SegModel::Single(n) => seq![n],
            _ => Seq::<Seq<char>>::empty(),
        }),
    decreases segs.len(),
{
    let tail = match x {
        SegModel::Single(n) => seq![n],
        _ => Seq::<Seq<char>>::empty(),
    };
    if segs.len() == 0 {
        assert(segs.push(x)[0] == x);
        assert(segs.push(x).skip(1) =~= Seq::<SegModel>::empty());
        assert(single_names(segs.push(x).skip(1)) =~= Seq::<Seq<char>>::empty());
        assert(single_names(segs.push(x)) =~= single_names(segs) + tail);
    } else {
        lemma_single_names_push(segs.skip(1), x);
        assert(segs.push(x).skip(1) =~= segs.skip(1).push(x));
        assert(segs.push(x)[0] == segs[0]);
        match segs[0] {
            SegModel::Single(n) => {
                assert(seq![n] + (single_names(segs.skip(1)) + tail) =~= (seq![n] + single_names(
                    segs.skip(1),
                )) + tail);
            },
            _ => {},
        }
    }
}

pub proof fn lemma_multi_names_push(segs: Seq<SegModel>, x: SegModel)
    ensures
        multi_names(segs.push(x)) == multi_names(segs) + (match x {
            SegModel::Multi(n) => seq![n],
            _ => Seq::<Seq<char>>::empty(),
        }),
    decreases segs.len(),
{
    let tail = match x {
        SegModel::Multi(n) => seq![n],
        _ => Seq::<Seq<char>>::empty(),
    };
    if segs.len() == 0 {
        assert(segs.push(x)[0] == x);
        assert(segs.push(x).skip(1) =~= Seq::<SegModel>::empty());
        assert(multi_names(segs.push(x).skip(1)) =~= Seq::<Seq<char>>::empty());
        assert(multi_names(segs.push(x)) =~= multi_names(segs) + tail);
    } else {
        lemma_multi_names_push(segs.skip(1), x);
        assert(segs.push(x).skip(1) =~= segs.skip(1).push(x));
        assert(segs.push(x)[0] == segs[0]);
        match segs[0] {
            SegModel::Multi(n) => {
                assert(seq![n] + (multi_names(segs.skip(1)) + tail) =~= (seq![n] + multi_names(
                    segs.skip(1),
                )) + tail);
            },
            _ => {},
        }
    }
}

/// Collects the single-placeholder names among segments, per `single_names`.
fn collect_single_names(segs: &Vec<Segment>) -> (r: Vec<String>)
    ensures
        r.deep_view() == single_names(segs.deep_view()),
{
    let mut r: Vec<String> = Vec::new();
    let mut i: usize = 0;
    while i < segs.len()
        invariant
            i <= segs@.len(),
            r.deep_view() == single_names(segs.deep_view().take(i as int)),
        decreases segs.len() - i,
    {
        proof {
            lemma_single_names_push(segs.deep_view().take(i as int), segs.deep_view()[i as int]);
            assert(segs.deep_view().take(i as int).push(segs.deep_view()[i as int])
                =~~= segs.deep_view().take(i + 1 as int));
        }
        match &segs[i] {
            Segment::Single(n) => {
                r.push(n.clone());
                proof {
                    assert(r.deep_view() =~~= single_names(segs.deep_view().take(i + 1 as int)));
                }
            },
            _ => {
                proof {
                    assert(r.deep_view() =~~= single_names(segs.deep_view().take(i + 1 as int)));
                }
            },
        }
        i = i + 1;
    }
    proof {
        assert(segs.deep_view().take(segs@.len() as int) =~~= segs.deep_view());
    }
    r
}

/// Collects the multi-placeholder names among segments, per `multi_names`.
fn collect_multi_names(segs: &Vec<Segment>) -> (r: Vec<String>)
    ensures
        r.deep_view() == multi_names(segs.deep_view()),
{
    let mut r: Vec<String> = Vec::new();
    let mut i: usize = 0;
    while i < segs.len()
        invariant
            i <= segs@.len(),
            r.deep_view() == multi_names(segs.deep_view().take(i as int)),
        decreases segs.len() - i,
    {
        proof {
            lemma_multi_names_push(segs.deep_view().take(i as int), segs.deep_view()[i as int]);
            assert(segs.deep_view().take(i as int).push(segs.deep_view()[i as int])
                =~~= segs.deep_view().take(i + 1 as int));
        }
        match &segs[i] {
            Segment::Multi(n) => {
                r.push(n.clone());
                proof {
                    assert(r.deep_view() =~~= multi_names(segs.deep_view().take(i + 1 as int)));
                }
            },
            _ => {
                proof {
                    assert(r.deep_view() =~~= multi_names(segs.deep_view().take(i + 1 as int)));
                }
            },
        }
        i = i + 1;
    }
    proof {
        assert(segs.deep_view().take(segs@.len() as int) =~~= segs.deep_view());
    }
    r
}

/// A handler's route: method, origin template, declared media type, and the
/// name of the request-body-bound parameter, if any.
#[derive(Debug)]
pub struct Route {
    pub method: HttpMethod,
    pub origin: RouteUri,
    pub media_type: Option<String>,
    pub data_param: Option<String>,
}

impl Route {
    /// The names of the single-segment path placeholders, in order.
    pub fn path_params(&self) -> (r: Vec<String>)
        ensures
            r.deep_view() == single_names(self.origin@.path_segments),
    {
        collect_single_names(&self.origin.path_segments)
    }

    /// The name of the trailing multi-segment path placeholder, if any.
    pub fn path_multi_param(&self) -> (r: Option<&String>)
        ensures
            multi_names(self.origin@.path_segments).len() == 0 ==> r is None,
            multi_names(self.origin@.path_segments).len() > 0 ==> match r {
                Some(n) => n@ == multi_names(self.origin@.path_segments)[0],
                None => false,
            },
    {
        let segs = &self.origin.path_segments;
        proof {
            assert(segs.deep_view().skip(0) =~~= segs.deep_view());
        }
        let mut i: usize = 0;
        while i < segs.len()
            invariant
                i <= segs@.len(),
                segs.deep_view() == self.origin@.path_segments,
                multi_names(segs.deep_view()).len() == multi_names(
                    segs.deep_view().skip(i as int),
                ).len(),
                multi_names(segs.deep_view()).len() > 0 ==> multi_names(segs.deep_view())[0]
                    == multi_names(segs.deep_view().skip(i as int))[0],
            decreases segs.len() - i,
        {
            match &segs[i] {
                Segment::Multi(n) => {
                    proof {
                        assert(segs.deep_view()[i as int] == segs@[i as int]@);
                        assert(segs.deep_view().skip(i as int)[0] == segs.deep_view()[i as int]);
                        assert(multi_names(segs.deep_view().skip(i as int)) == seq![n@]
                            + multi_names(segs.deep_view().skip(i as int).skip(1)));
                        assert(multi_names(segs.deep_view().skip(i as int)).len() > 0);
                        assert(multi_names(segs.deep_view().skip(i as int))[0] == n@);
                    }
                    return Some(n);
                },
                _ => {},
            }
            proof {
                assert(segs.deep_view()[i as int] == segs@[i as int]@);
                assert(segs.deep_view().skip(i as int)[0] == segs.deep_view()[i as int]);
                assert(segs.deep_view().skip(i as int).skip(1) =~~= segs.deep_view().skip(
                    i + 1 as int,
                ));
            }
            i = i + 1;
        }
        proof {
            assert(segs.deep_view().skip(segs@.len() as int) =~~= Seq::<SegModel>::empty());
        }
        None
    }

    /// The names of the single-value query placeholders, in order.
    pub fn query_params(&self) -> (r: Vec<String>)
        ensures
            r.deep_view() == match self.origin@.query {
                Some(q) => single_names(q),
                None => Seq::<Seq<char>>::empty(),
            },
    {
        match &self.origin.query {
            Some(q) => collect_single_names(q),
            None => Vec::new(),
        }
    }

    /// The names of the multi-value query placeholders, in order.
    pub fn query_multi_params(&self) -> (r: Vec<String>)
        ensures
            r.deep_view() == match self.origin@.query {
                Some(q) => multi_names(q),
                None => Seq::<Seq<char>>::empty(),
            },
    {
        match &self.origin.query {
            Some(q) => collect_multi_names(q),
            None => Vec::new(),
        }
    }
}

} // verus!
