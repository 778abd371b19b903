//! Route-attribute parsing: the primary structured parser over an
//! attribute's argument list, and a best-effort fallback parser over the raw
//! argument text.  Both produce the same `Route` on the inputs both accept.

use vstd::prelude::*;

use crate::http::{media_type_of, method_of, HttpMethod};
use crate::route::{origin_of, parse_origin, Route, RouteUri, UriModel};
use crate::text::{chars_to_string, is_space, str_chars, subvec, trim_spec, trim_vec};

verus! {

/// One argument of a route attribute, as the macro front end hands it over.
pub enum AttrArg {
    /// A positional string literal.
    Lit(String),
    /// A positional bare word, such as a method keyword.
    Word(String),
    /// A `name = "value"` pair.
    Named(String, String),
}

/// The mathematical form of an attribute argument.
pub enum ArgModel {
    Lit(Seq<char>),
    Word(Seq<char>),
    Named(Seq<char>, Seq<char>),
}

impl View for AttrArg {
    type V = ArgModel;

    open spec fn view(&self) -> ArgModel {
        match self {
            AttrArg::Lit(s) => ArgModel::Lit(s@),
            AttrArg::Word(s) => ArgModel::Word(s@),
            AttrArg::Named(n, v) => ArgModel::Named(n@, v@),
        }
    }
}

impl DeepView for AttrArg {
    type V = ArgModel;

    open spec fn deep_view(&self) -> ArgModel {
        self@
    }
}

/// Why a route attribute could not be parsed.
#[derive(Debug)]
pub enum AttrError {
    /// No positional argument was given.
    TooFewItems,
    /// The method keyword is not an HTTP method.
    UnknownMethod(String),
    /// The `format` value is not a known media type.
    UnknownMediaType(String),
    /// The path argument is not a valid route template.
    InvalidPath(String),
    /// The first argument is a path, so the attribute was most likely
    /// mis-expanded by an editing environment.
    PathInMethodPosition,
    /// The `route` attribute form is not handled by the fallback parser.
    RouteFormNotHandled,
    /// No path argument was given.
    MissingPath,
}

/// The mathematical form of a parse error.
pub enum ErrModel {
    TooFewItems,
    UnknownMethod(Seq<char>),
    UnknownMediaType(Seq<char>),
    InvalidPath(Seq<char>),
    PathInMethodPosition,
    RouteFormNotHandled,
    MissingPath,
}

impl View for AttrError {
    type V = ErrModel;

    open spec fn view(&self) -> ErrModel {
        match self {
            AttrError::TooFewItems => ErrModel::TooFewItems,
            AttrError::UnknownMethod(s) => ErrModel::UnknownMethod(s@),
            AttrError::UnknownMediaType(s) => ErrModel::UnknownMediaType(s@),
            AttrError::InvalidPath(s) => ErrModel::InvalidPath(s@),
            AttrError::PathInMethodPosition => ErrModel::PathInMethodPosition,
            AttrError::RouteFormNotHandled => ErrModel::RouteFormNotHandled,
            AttrError::MissingPath => ErrModel::MissingPath,
        }
    }
}

/// The mathematical form of a parsed route.
pub struct RouteModel {
    pub method: HttpMethod,
    pub origin: UriModel,
    pub media_type: Option<Seq<char>>,
    pub data_param: Option<Seq<char>>,
}

impl View for Route {
    type V = RouteModel;

    open spec fn view(&self) -> RouteModel {
        RouteModel {
            method: self.method,
            origin: self.origin@,
            media_type: match self.media_type {
                Some(ref m) => Some(m@),
                None => None,
            },
            data_param: match self.data_param {
                Some(ref d) => Some(d@),
                None => None,
            },
        }
    }
}

impl AttrError {
    /// The error described in words, with its positional context.
    pub fn message(&self) -> (r: String)
        ensures
            self is UnknownMethod ==> r@ == "unknown HTTP method: '"@ + self->UnknownMethod_0@
                + "'"@,
            self is UnknownMediaType ==> r@ == "unknown media type: '"@
                + self->UnknownMediaType_0@ + "'"@,
            self is InvalidPath ==> r@ == "invalid route path: '"@ + self->InvalidPath_0@ + "'"@,
    {
        match self {
            AttrError::TooFewItems => String::from_str("too few arguments: expected at least 1"),
            AttrError::UnknownMethod(m) => String::from_str("unknown HTTP method: '").concat(
                m.as_str(),
            ).concat("'"),
            AttrError::UnknownMediaType(t) => String::from_str("unknown media type: '").concat(
                t.as_str(),
            ).concat("'"),
            AttrError::InvalidPath(p) => String::from_str("invalid route path: '").concat(
                p.as_str(),
            ).concat("'"),
            AttrError::PathInMethodPosition => String::from_str(
                "expected an HTTP method but found a path",
            ),
            AttrError::RouteFormNotHandled => String::from_str(
                "the general route attribute form is not handled here",
            ),
            AttrError::MissingPath => String::from_str("no path argument was given"),
        }
    }
}

/// A parameter name with its surrounding angle brackets removed.
pub open spec fn trim_angle_spec(s: Seq<char>) -> Seq<char> {
    if s.len() >= 2 && s[0] == '<' && s[s.len() - 1] == '>' {
        s.subrange(1, s.len() - 1)
    } else {
        s
    }
}

/// Removes one pair of surrounding angle brackets, per `trim_angle_spec`.
pub fn trim_angle_brackers(s: String) -> (r: String)
    ensures
        r@ == trim_angle_spec(s@),
{
    let v = str_chars(s.as_str());
    let n = v.len();
    if n >= 2 && v[0] == '<' && v[n - 1] == '>' {
        chars_to_string(&subvec(&v, 1, n - 1))
    } else {
        proof {
            assert(trim_angle_spec(s@) == s@);
        }
        s
    }
}

/// The scanner state of the argument-text splitter.
pub struct ScanState {
    pub parts: Seq<Seq<char>>,
    pub current: Seq<char>,
    pub in_quotes: bool,
    pub escape: bool,
}

/// One character of the argument text: backslashes escape the next
/// character, quotes toggle the in-string flag, and a comma outside quotes
/// ends the current piece, which is kept trimmed.
pub open spec fn scan_step(st: ScanState, c: char) -> ScanState {
    if st.escape {
        ScanState {
            parts: st.parts,
            current: st.current.push(c),
            in_quotes: st.in_quotes,
            escape: false,
        }
    } else if c == '\\' {
        ScanState {
            parts: st.parts,
            current: st.current.push(c),
            in_quotes: st.in_quotes,
            escape: true,
        }
    } else if c == '"' {
        ScanState {
            parts: st.parts,
            current: st.current.push(c),
            in_quotes: !st.in_quotes,
            escape: false,
        }
    } else if c == ',' && !st.in_quotes {
        ScanState {
            parts: st.parts.push(trim_spec(st.current)),
            current: Seq::empty(),
            in_quotes: st.in_quotes,
            escape: false,
        }
    } else {
        ScanState {
            parts: st.parts,
            current: st.current.push(c),
            in_quotes: st.in_quotes,
            escape: false,
        }
    }
}

pub open spec fn scan_fold(st: ScanState, s: Seq<char>) -> ScanState
    decreases s.len(),
{
    if s.len() == 0 {
        st
    } else {
        scan_fold(scan_step(st, s[0]), s.skip(1))
    }
}

pub open spec fn scan_init() -> ScanState {
    ScanState { parts: Seq::empty(), current: Seq::empty(), in_quotes: false, escape: false }
}

/// The top-level comma-separated pieces of an argument text, each trimmed; a
/// trailing piece that trims to nothing is dropped.
pub open spec fn args_parts(s: Seq<char>) -> Seq<Seq<char>> {
    let st = scan_fold(scan_init(), s);
    if trim_spec(st.current).len() > 0 {
        st.parts.push(trim_spec(st.current))
    } else {
        st.parts
    }
}

pub proof fn lemma_scan_fold_snoc(st: ScanState, t: Seq<char>, c: char)
    ensures
        scan_fold(st, t.push(c)) == scan_step(scan_fold(st, t), c),
    decreases t.len(),
{
    if t.len() == 0 {
        assert(t.push(c)[0] == c);
        assert(t.push(c).skip(1) =~= Seq::<char>::empty());
        assert(scan_fold(scan_step(st, c), Seq::<char>::empty()) == scan_step(st, c));
    } else {
        lemma_scan_fold_snoc(scan_step(st, t[0]), t.skip(1), c);
        assert(t.push(c)[0] == t[0]);
        assert(t.push(c).skip(1) =~= t.skip(1).push(c));
    }
}

/// Splits the raw argument text on top-level commas, respecting quoted
/// strings and backslash escapes, per `args_parts`.
pub fn parse_args_string_to_parts(s: &str) -> (r: Vec<String>)
    ensures
        r.deep_view() == args_parts(s@),
{
    let chars = str_chars(s);
    let mut parts: Vec<String> = Vec::new();
    let mut current: Vec<char> = Vec::new();
    let mut in_quotes = false;
    let mut escape = false;
    let mut i: usize = 0;
    while i < chars.len()
        invariant
            i <= chars@.len(),
            chars@ == s@,
            ({
                let st = scan_fold(scan_init(), s@.take(i as int));
                &&& parts.deep_view() == st.parts
                &&& current@ == st.current
                &&& in_quotes == st.in_quotes
                &&& escape == st.escape
            }),
        decreases chars.len() - i,
    {
        let c = chars[i];
        proof {
            lemma_scan_fold_snoc(scan_init(), s@.take(i as int), s@[i as int]);
            assert(s@.take(i as int).push(s@[i as int]) =~= s@.take(i + 1 as int));
        }
        if escape {
            current.push(c);
            escape = false;
        } else if c == '\\' {
            current.push(c);
            escape = true;
        } else if c == '"' {
            current.push(c);
            in_quotes = !in_quotes;
        } else if c == ',' && !in_quotes {
            let piece = trim_vec(&current);
            parts.push(chars_to_string(&piece));
            current = Vec::new();
            proof {
                let st = scan_fold(scan_init(), s@.take(i + 1 as int));
                assert forall|k: int| 0 <= k < parts@.len() implies parts.deep_view()[k]
                    == st.parts[k] by {
                    assert(parts.deep_view()[k] == parts@[k]@);
                }
                assert(parts.deep_view() =~~= st.parts);
            }
        } else {
            current.push(c);
        }
        i = i + 1;
    }
    proof {
        assert(s@.take(s@.len() as int) =~= s@);
    }
    if trim_vec(&current).len() > 0 {
        let piece = trim_vec(&current);
        parts.push(chars_to_string(&piece));
        proof {
            let st = scan_fold(scan_init(), s@);
            assert forall|k: int| 0 <= k < parts@.len() implies parts.deep_view()[k]
                == args_parts(s@)[k] by {
                assert(parts.deep_view()[k] == parts@[k]@);
            }
            assert(parts.deep_view() =~~= args_parts(s@));
        }
    } else {
        proof {
            assert(parts.deep_view() =~~= args_parts(s@));
        }
    }
    parts
}

/// Index of the last occurrence of `c` in `s`, or -1 when `c` does not occur.
pub open spec fn last_index_of(s: Seq<char>, c: char) -> int
    decreases s.len(),
{
    if s.len() == 0 {
        -1
    } else if s[s.len() - 1] == c {
        s.len() - 1
    } else {
        last_index_of(s.take(s.len() - 1), c)
    }
}

pub proof fn lemma_last_index_of(s: Seq<char>, c: char)
    ensures
        last_index_of(s, c) == -1 || (0 <= last_index_of(s, c) < s.len() && s[last_index_of(
            s,
            c,
        )] == c),
    decreases s.len(),
{
    if s.len() > 0 && s[s.len() - 1] != c {
        lemma_last_index_of(s.take(s.len() - 1), c);
        let r = last_index_of(s.take(s.len() - 1), c);
        if r >= 0 {
            assert(s[r] == s.take(s.len() - 1)[r]);
        }
    }
}

fn find_last_char(v: &Vec<char>, c: char) -> (r: Option<usize>)
    ensures
        match r {
            Some(i) => last_index_of(v@, c) == i as int,
            None => last_index_of(v@, c) == -1,
        },
{
    proof {
        assert(v@.take(v@.len() as int) =~= v@);
    }
    let mut i: usize = v.len();
    while i > 0
        invariant
            i <= v@.len(),
            last_index_of(v@, c) == last_index_of(v@.take(i as int), c),
        decreases i,
    {
        proof {
            assert(v@.take(i as int).take(i - 1 as int) =~= v@.take(i - 1 as int));
            assert(v@.take(i as int)[i - 1] == v@[i - 1]);
        }
        if v[i - 1] == c {
            return Some(i - 1);
        }
        i = i - 1;
    }
    proof {
        assert(v@.take(0) =~= Seq::<char>::empty());
    }
    None
}

/// The text between the first opening parenthesis and the last closing one,
/// when both are present in that order.
pub open spec fn inner_args_of(s: Seq<char>) -> Option<Seq<char>> {
    let a = crate::text::first_index_of(s, '(');
    let b = last_index_of(s, ')');
    if a >= 0 && b > a {
        Some(s.subrange(a + 1, b))
    } else {
        None
    }
}

/// Extracts the argument text inside the outermost parentheses of a rendered
/// attribute, per `inner_args_of`.
pub fn extract_inner_args_string(s: &str) -> (r: Option<String>)
    ensures
        match r {
            Some(t) => inner_args_of(s@) == Some(t@),
            None => inner_args_of(s@) is None,
        },
{
    let chars = str_chars(s);
    let a = match crate::text::find_char(&chars, '(') {
        Some(a) => a,
        None => {
            return None;
        },
    };
    let b = match find_last_char(&chars, ')') {
        Some(b) => b,
        None => {
            return None;
        },
    };
    proof {
        crate::text::lemma_first_index_of(chars@, '(');
        lemma_last_index_of(chars@, ')');
    }
    if b > a {
        Some(chars_to_string(&subvec(&chars, a + 1, b)))
    } else {
        None
    }
}

} // verus!

verus! {

/// The route produced from its resolved pieces; the data parameter loses one
/// pair of surrounding angle brackets.
pub open spec fn route_from(
    m: HttpMethod,
    u: UriModel,
    media: Option<Seq<char>>,
    data: Option<Seq<char>>,
) -> RouteModel {
    RouteModel {
        method: m,
        origin: u,
        media_type: media,
        data_param: match data {
            Some(d) => Some(trim_angle_spec(d)),
            None => None,
        },
    }
}

/// The value of the first `key = "value"` argument, if any.
pub open spec fn find_named(args: Seq<ArgModel>, key: Seq<char>) -> Option<Seq<char>>
    decreases args.len(),
{
    if args.len() == 0 {
        None
    } else {
        match args[0] {
            ArgModel::Named(n, v) => if n == key {
                Some(v)
            } else {
                find_named(args.skip(1), key)
            },
            _ => find_named(args.skip(1), key),
        }
    }
}

/// Whether `s` begins with `p`.
pub open spec fn starts_with_seq(s: Seq<char>, p: Seq<char>) -> bool {
    s.len() >= p.len() && s.take(p.len() as int) == p
}

/// The primary parser once the method is known: the first positional
/// argument is the path template, and `format` / `data` arguments refine the
/// route.
pub open spec fn parse_method_args_spec(m: HttpMethod, args: Seq<ArgModel>) -> Result<
    RouteModel,
    ErrModel,
> {
    if args.len() == 0 {
        Err(ErrModel::TooFewItems)
    } else {
        match args[0] {
            ArgModel::Lit(p) => match origin_of(p) {
                Some(u) => {
                    let data = find_named(args.skip(1), "data"@);
                    match find_named(args.skip(1), "format"@) {
                        Some(f) => match media_type_of(f) {
                            Some(mt) => Ok(route_from(m, u, Some(mt), data)),
                            None => Err(ErrModel::UnknownMediaType(f)),
                        },
                        None => Ok(route_from(m, u, None, data)),
                    }
                },
                None => Err(ErrModel::InvalidPath(p)),
            },
            ArgModel::Word(w) => Err(ErrModel::InvalidPath(w)),
            ArgModel::Named(_, _) => Err(ErrModel::MissingPath),
        }
    }
}

/// The primary parser when the attribute name is no method: the first
/// argument names the method and a named `path` argument gives the template.
pub open spec fn parse_route_args_spec(args: Seq<ArgModel>) -> Result<RouteModel, ErrModel> {
    if args.len() == 0 {
        Err(ErrModel::TooFewItems)
    } else {
        let mname = match args[0] {
            ArgModel::Lit(s) => s,
            ArgModel::Word(s) => s,
            ArgModel::Named(n, _) => n,
        };
        if args[0] is Lit && starts_with_seq(mname, "/"@) {
            Err(ErrModel::PathInMethodPosition)
        } else {
            match method_of(mname) {
                None => if starts_with_seq(mname, "/"@) {
                    Err(ErrModel::PathInMethodPosition)
                } else {
                    Err(ErrModel::UnknownMethod(mname))
                },
                Some(m) => match find_named(args.skip(1), "path"@) {
                    None => Err(ErrModel::MissingPath),
                    Some(p) => match origin_of(p) {
                        None => Err(ErrModel::InvalidPath(p)),
                        Some(u) => {
                            let data = find_named(args.skip(1), "data"@);
                            match find_named(args.skip(1), "format"@) {
                                Some(f) => match media_type_of(f) {
                                    Some(mt) => Ok(route_from(m, u, Some(mt), data)),
                                    None => Err(ErrModel::UnknownMediaType(f)),
                                },
                                None => Ok(route_from(m, u, None, data)),
                            }
                        },
                    },
                },
            }
        }
    }
}

/// The primary parser: a method-named attribute, a `protect_`-prefixed one,
/// or the general route form.
pub open spec fn parse_attr_spec(name: Seq<char>, args: Seq<ArgModel>) -> Result<
    RouteModel,
    ErrModel,
> {
    if starts_with_seq(name, "protect_"@) {
        match method_of(name.skip("protect_"@.len() as int)) {
            Some(m) => parse_method_args_spec(m, args),
            None => Err(ErrModel::UnknownMethod(name.skip("protect_"@.len() as int))),
        }
    } else {
        match method_of(name) {
            Some(m) => parse_method_args_spec(m, args),
            None => parse_route_args_spec(args),
        }
    }
}

/// Whether `s` begins with `p`, decided character by character.
pub fn starts_with_vec(s: &Vec<char>, p: &Vec<char>) -> (r: bool)
    ensures
        r == starts_with_seq(s@, p@),
{
    if s.len() < p.len() {
        return false;
    }
    let mut i: usize = 0;
    while i < p.len()
        invariant
            i <= p@.len() <= s@.len(),
            forall|k: int| 0 <= k < i ==> s@[k] == p@[k],
        decreases p.len() - i,
    {
        if s[i] != p[i] {
            proof {
                assert(s@.take(p@.len() as int)[i as int] != p@[i as int]);
            }
            return false;
        }
        i = i + 1;
    }
    proof {
        assert(s@.take(p@.len() as int) =~= p@);
    }
    true
}

/// Looks up the first `key = "value"` argument at or after `start`.
fn find_named_arg(args: &Vec<AttrArg>, start: usize, key: &str) -> (r: Option<String>)
    requires
        start <= args@.len(),
    ensures
        match r {
            Some(v) => find_named(args.deep_view().skip(start as int), key@) == Some(v@),
            None => find_named(args.deep_view().skip(start as int), key@) is None,
        },
{
    let mut i: usize = start;
    proof {
        assert(args.deep_view().skip(start as int) =~~= args.deep_view().skip(i as int));
    }
    while i < args.len()
        invariant
            start <= i <= args@.len(),
            find_named(args.deep_view().skip(start as int), key@) == find_named(
                args.deep_view().skip(i as int),
                key@,
            ),
        decreases args.len() - i,
    {
        proof {
            assert(args.deep_view().skip(i as int)[0] == args.deep_view()[i as int]);
            assert(args.deep_view()[i as int] == args@[i as int]@);
            assert(args.deep_view().skip(i as int).skip(1) =~~= args.deep_view().skip(
                i + 1 as int,
            ));
        }
        match &args[i] {
            AttrArg::Named(n, v) => {
                if crate::text::str_eq(n.as_str(), key) {
                    return Some(v.clone());
                }
            },
            _ => {},
        }
        i = i + 1;
    }
    proof {
        assert(args.deep_view().skip(args@.len() as int) =~~= Seq::<ArgModel>::empty());
    }
    None
}

/// Resolves the `format` and `data` arguments and builds the route.
fn finish_with_named(m: HttpMethod, u: RouteUri, args: &Vec<AttrArg>) -> (r: Result<
    Route,
    AttrError,
>)
    requires
        args@.len() >= 1,
    ensures
        ({
            let data = find_named(args.deep_view().skip(1), "data"@);
            match find_named(args.deep_view().skip(1), "format"@) {
                Some(f) => match media_type_of(f) {
                    Some(mt) => r matches Ok(rt) && rt@ == route_from(m, u@, Some(mt), data),
                    None => r matches Err(e) && e@ == ErrModel::UnknownMediaType(f),
                },
                None => r matches Ok(rt) && rt@ == route_from(m, u@, None, data),
            }
        }),
{
    let data = find_named_arg(args, 1, "data");
    let data_param = match data {
        Some(d) => Some(trim_angle_brackers(d)),
        None => None,
    };
    match find_named_arg(args, 1, "format") {
        Some(f) => match crate::http::parse_media_type(f.as_str()) {
            Some(mt) => Ok(
                Route { method: m, origin: u, media_type: Some(mt), data_param: data_param },
            ),
            None => Err(AttrError::UnknownMediaType(f)),
        },
        None => Ok(Route { method: m, origin: u, media_type: None, data_param: data_param }),
    }
}

/// Parses the arguments of a method-named attribute, per
/// `parse_method_args_spec`.
pub fn parse_method_route_attr(m: HttpMethod, args: &Vec<AttrArg>) -> (r: Result<Route, AttrError>)
    ensures
        match r {
            Ok(rt) => parse_method_args_spec(m, args.deep_view()) == Ok::<RouteModel, ErrModel>(
                rt@,
            ),
            Err(e) => parse_method_args_spec(m, args.deep_view()) == Err::<RouteModel, ErrModel>(
                e@,
            ),
        },
{
    if args.len() == 0 {
        return Err(AttrError::TooFewItems);
    }
    proof {
        assert(args.deep_view()[0] == args@[0]@);
    }
    match &args[0] {
        AttrArg::Lit(p) => {
            match parse_origin(p.as_str()) {
                Some(u) => finish_with_named(m, u, args),
                None => Err(AttrError::InvalidPath(p.clone())),
            }
        },
        AttrArg::Word(w) => Err(AttrError::InvalidPath(w.clone())),
        AttrArg::Named(_, _) => Err(AttrError::MissingPath),
    }
}

/// Parses the arguments of a general `route` attribute, per
/// `parse_route_args_spec`.
pub fn parse_route_attr(args: &Vec<AttrArg>) -> (r: Result<Route, AttrError>)
    ensures
        match r {
            Ok(rt) => parse_route_args_spec(args.deep_view()) == Ok::<RouteModel, ErrModel>(rt@),
            Err(e) => parse_route_args_spec(args.deep_view()) == Err::<RouteModel, ErrModel>(e@),
        },
{
    if args.len() == 0 {
        return Err(AttrError::TooFewItems);
    }
    proof {
        assert(args.deep_view()[0] == args@[0]@);
    }
    let mname: &String = match &args[0] {
        AttrArg::Lit(s) => s,
        AttrArg::Word(s) => s,
        AttrArg::Named(n, _) => n,
    };
    let mv = str_chars(mname.as_str());
    let slash = str_chars("/");
    let is_lit = match &args[0] {
        AttrArg::Lit(_) => true,
        _ => false,
    };
    if is_lit && starts_with_vec(&mv, &slash) {
        return Err(AttrError::PathInMethodPosition);
    }
    match crate::http::method_from_name(mname.as_str()) {
        None => {
            if starts_with_vec(&mv, &slash) {
                Err(AttrError::PathInMethodPosition)
            } else {
                Err(AttrError::UnknownMethod(mname.clone()))
            }
        },
        Some(m) => {
            match find_named_arg(args, 1, "path") {
                None => Err(AttrError::MissingPath),
                Some(p) => {
                    match parse_origin(p.as_str()) {
                        Some(u) => finish_with_named(m, u, args),
                        None => Err(AttrError::InvalidPath(p)),
                    }
                },
            }
        },
    }
}

/// Parses a route attribute by its name and argument list, per
/// `parse_attr_spec`.
pub fn parse_attr(name: &str, args: &Vec<AttrArg>) -> (r: Result<Route, AttrError>)
    ensures
        match r {
            Ok(rt) => parse_attr_spec(name@, args.deep_view()) == Ok::<RouteModel, ErrModel>(rt@),
            Err(e) => parse_attr_spec(name@, args.deep_view()) == Err::<RouteModel, ErrModel>(e@),
        },
{
    let nv = str_chars(name);
    let prefix = str_chars("protect_");
    if starts_with_vec(&nv, &prefix) {
        let rest = subvec(&nv, prefix.len(), nv.len());
        proof {
            assert(rest@ =~= name@.skip("protect_"@.len() as int));
        }
        match crate::http::method_from_name(chars_to_string(&rest).as_str()) {
            Some(m) => parse_method_route_attr(m, args),
            None => Err(AttrError::UnknownMethod(chars_to_string(&rest))),
        }
    } else {
        match crate::http::method_from_name(name) {
            Some(m) => parse_method_route_attr(m, args),
            None => parse_route_attr(args),
        }
    }
}

/// The attribute names that declare a route.
pub open spec fn is_route_attr_name(s: Seq<char>) -> bool {
    ||| s == "get"@
    ||| s == "put"@
    ||| s == "post"@
    ||| s == "delete"@
    ||| s == "options"@
    ||| s == "head"@
    ||| s == "trace"@
    ||| s == "connect"@
    ||| s == "patch"@
    ||| s == "route"@
    ||| s == "protect_get"@
    ||| s == "protect_put"@
    ||| s == "protect_post"@
    ||| s == "protect_delete"@
    ||| s == "protect_patch"@
    ||| s == "protect_options"@
}

/// Whether an attribute name declares a route.
pub fn is_route_attribute(name: &str) -> (r: bool)
    ensures
        r == is_route_attr_name(name@),
{
    let v = str_chars(name);
    if crate::text::vecs_eq(&v, &str_chars("get")) {
        true
    } else if crate::text::vecs_eq(&v, &str_chars("put")) {
        true
    } else if crate::text::vecs_eq(&v, &str_chars("post")) {
        true
    } else if crate::text::vecs_eq(&v, &str_chars("delete")) {
        true
    } else if crate::text::vecs_eq(&v, &str_chars("options")) {
        true
    } else if crate::text::vecs_eq(&v, &str_chars("head")) {
        true
    } else if crate::text::vecs_eq(&v, &str_chars("trace")) {
        true
    } else if crate::text::vecs_eq(&v, &str_chars("connect")) {
        true
    } else if crate::text::vecs_eq(&v, &str_chars("patch")) {
        true
    } else if crate::text::vecs_eq(&v, &str_chars("route")) {
        true
    } else if crate::text::vecs_eq(&v, &str_chars("protect_get")) {
        true
    } else if crate::text::vecs_eq(&v, &str_chars("protect_put")) {
        true
    } else if crate::text::vecs_eq(&v, &str_chars("protect_post")) {
        true
    } else if crate::text::vecs_eq(&v, &str_chars("protect_delete")) {
        true
    } else if crate::text::vecs_eq(&v, &str_chars("protect_patch")) {
        true
    } else if crate::text::vecs_eq(&v, &str_chars("protect_options")) {
        true
    } else {
        false
    }
}

} // verus!

verus! {

/// `s` without its leading run of double quotes.
pub open spec fn trim_quote_start(s: Seq<char>) -> Seq<char>
    decreases s.len(),
{
    if s.len() > 0 && s[0] == '"' {
        trim_quote_start(s.skip(1))
    } else {
        s
    }
}

/// `s` without its trailing run of double quotes.
pub open spec fn trim_quote_end(s: Seq<char>) -> Seq<char>
    decreases s.len(),
{
    if s.len() > 0 && s[s.len() - 1] == '"' {
        trim_quote_end(s.take(s.len() - 1))
    } else {
        s
    }
}

/// `s` without surrounding double quotes.
pub open spec fn trim_quotes(s: Seq<char>) -> Seq<char> {
    trim_quote_end(trim_quote_start(s))
}

pub open spec fn is_quote_mark(c: char) -> bool {
    c == '"' || c == '\''
}

/// `s` without its leading run of double or single quotes.
pub open spec fn trim_marks_start(s: Seq<char>) -> Seq<char>
    decreases s.len(),
{
    if s.len() > 0 && is_quote_mark(s[0]) {
        trim_marks_start(s.skip(1))
    } else {
        s
    }
}

/// `s` without its trailing run of double or single quotes.
pub open spec fn trim_marks_end(s: Seq<char>) -> Seq<char>
    decreases s.len(),
{
    if s.len() > 0 && is_quote_mark(s[s.len() - 1]) {
        trim_marks_end(s.take(s.len() - 1))
    } else {
        s
    }
}

/// `s` without surrounding double or single quotes.
pub open spec fn trim_marks(s: Seq<char>) -> Seq<char> {
    trim_marks_end(trim_marks_start(s))
}

proof fn lemma_trim_quote_start_skip(s: Seq<char>, a: int)
    requires
        0 <= a <= s.len(),
        forall|k: int| 0 <= k < a ==> s[k] == '"',
    ensures
        trim_quote_start(s) == trim_quote_start(s.skip(a)),
    decreases a,
{
    if a > 0 {
        lemma_trim_quote_start_skip(s.skip(1), a - 1);
        assert(s.skip(1).skip(a - 1) =~= s.skip(a));
    } else {
        assert(s.skip(0) =~= s);
    }
}

proof fn lemma_trim_quote_end_take(s: Seq<char>, b: int)
    requires
        0 <= b <= s.len(),
        forall|k: int| b <= k < s.len() ==> s[k] == '"',
    ensures
        trim_quote_end(s) == trim_quote_end(s.take(b)),
    decreases s.len() - b,
{
    if b < s.len() {
        lemma_trim_quote_end_take(s.take(s.len() - 1), b);
        assert(s.take(s.len() - 1).take(b) =~= s.take(b));
        assert(trim_quote_end(s) == trim_quote_end(s.take(s.len() - 1)));
    } else {
        assert(s.take(b) =~= s);
    }
}

/// Removes the surrounding double quotes of `v`, per `trim_quotes`.
fn trim_quotes_vec(v: &Vec<char>) -> (r: Vec<char>)
    ensures
        r@ == trim_quotes(v@),
{
    let mut a: usize = 0;
    while a < v.len() && v[a] == '"'
        invariant
            a <= v@.len(),
            forall|k: int| 0 <= k < a ==> v@[k] == '"',
        decreases v.len() - a,
    {
        a = a + 1;
    }
    let mut b: usize = v.len();
    while b > a && v[b - 1] == '"'
        invariant
            a <= b <= v@.len(),
            forall|k: int| 0 <= k < a ==> v@[k] == '"',
            forall|k: int| b <= k < v@.len() ==> v@[k] == '"',
        decreases b,
    {
        b = b - 1;
    }
    let r = subvec(v, a, b);
    proof {
        lemma_trim_quote_start_skip(v@, a as int);
        if a < v@.len() {
            assert(v@.skip(a as int)[0] == v@[a as int]);
        } else {
            assert(v@.skip(a as int) =~= Seq::<char>::empty());
        }
        assert(trim_quote_start(v@) == v@.skip(a as int));
        lemma_trim_quote_end_take(v@.skip(a as int), b - a as int);
        assert(v@.skip(a as int).take(b - a as int) =~= v@.subrange(a as int, b as int));
        if b > a {
            assert(v@.subrange(a as int, b as int)[b - a - 1 as int] == v@[b - 1 as int]);
        } else {
            assert(v@.subrange(a as int, b as int) =~= Seq::<char>::empty());
        }
    }
    r
}

proof fn lemma_trim_marks_start_skip(s: Seq<char>, a: int)
    requires
        0 <= a <= s.len(),
        forall|k: int| 0 <= k < a ==> is_quote_mark(s[k]),
    ensures
        trim_marks_start(s) == trim_marks_start(s.skip(a)),
    decreases a,
{
    if a > 0 {
        lemma_trim_marks_start_skip(s.skip(1), a - 1);
        assert(s.skip(1).skip(a - 1) =~= s.skip(a));
    } else {
        assert(s.skip(0) =~= s);
    }
}

proof fn lemma_trim_marks_end_take(s: Seq<char>, b: int)
    requires
        0 <= b <= s.len(),
        forall|k: int| b <= k < s.len() ==> is_quote_mark(s[k]),
    ensures
        trim_marks_end(s) == trim_marks_end(s.take(b)),
    decreases s.len() - b,
{
    if b < s.len() {
        lemma_trim_marks_end_take(s.take(s.len() - 1), b);
        assert(s.take(s.len() - 1).take(b) =~= s.take(b));
        assert(trim_marks_end(s) == trim_marks_end(s.take(s.len() - 1)));
    } else {
        assert(s.take(b) =~= s);
    }
}

/// Removes the surrounding double or single quotes of `v`, per `trim_marks`.
fn trim_marks_vec(v: &Vec<char>) -> (r: Vec<char>)
    ensures
        r@ == trim_marks(v@),
{
    let mut a: usize = 0;
    while a < v.len() && (v[a] == '"' || v[a] == '\'')
        invariant
            a <= v@.len(),
            forall|k: int| 0 <= k < a ==> is_quote_mark(v@[k]),
        decreases v.len() - a,
    {
        a = a + 1;
    }
    let mut b: usize = v.len();
    while b > a && (v[b - 1] == '"' || v[b - 1] == '\'')
        invariant
            a <= b <= v@.len(),
            forall|k: int| 0 <= k < a ==> is_quote_mark(v@[k]),
            forall|k: int| b <= k < v@.len() ==> is_quote_mark(v@[k]),
        decreases b,
    {
        b = b - 1;
    }
    let r = subvec(v, a, b);
    proof {
        lemma_trim_marks_start_skip(v@, a as int);
        if a < v@.len() {
            assert(v@.skip(a as int)[0] == v@[a as int]);
        } else {
            assert(v@.skip(a as int) =~= Seq::<char>::empty());
        }
        assert(trim_marks_start(v@) == v@.skip(a as int));
        lemma_trim_marks_end_take(v@.skip(a as int), b - a as int);
        assert(v@.skip(a as int).take(b - a as int) =~= v@.subrange(a as int, b as int));
        if b > a {
            assert(v@.subrange(a as int, b as int)[b - a - 1 as int] == v@[b - 1 as int]);
        } else {
            assert(v@.subrange(a as int, b as int) =~= Seq::<char>::empty());
        }
    }
    r
}

/// What the fallback parser has gathered from the argument pieces.
pub struct FbModel {
    pub path: Option<Seq<char>>,
    pub media: Option<Seq<char>>,
    pub data: Option<Seq<char>>,
}

pub open spec fn fb_init() -> FbModel {
    FbModel { path: None, media: None, data: None }
}

/// One argument piece: the first quoted piece is the path; `format =` and
/// `data =` pieces set the media type and data parameter; anything else is
/// ignored.
pub open spec fn fb_step(st: FbModel, part: Seq<char>) -> Result<FbModel, ErrModel> {
    if part.len() >= 1 && part[0] == '"' && part[part.len() - 1] == '"' && st.path is None {
        Ok(FbModel { path: Some(trim_quotes(part)), media: st.media, data: st.data })
    } else if starts_with_seq(part, "format ="@) {
        let val = trim_marks(trim_spec(part.skip("format ="@.len() as int)));
        match media_type_of(val) {
            Some(m) => Ok(FbModel { path: st.path, media: Some(m), data: st.data }),
            None => Err(ErrModel::UnknownMediaType(val)),
        }
    } else if starts_with_seq(part, "data ="@) {
        Ok(
            FbModel {
                path: st.path,
                media: st.media,
                data: Some(trim_marks(trim_spec(part.skip("data ="@.len() as int)))),
            },
        )
    } else {
        Ok(st)
    }
}

pub open spec fn fb_scan(st: FbModel, parts: Seq<Seq<char>>) -> Result<FbModel, ErrModel>
    decreases parts.len(),
{
    if parts.len() == 0 {
        Ok(st)
    } else {
        match fb_step(st, parts[0]) {
            Err(e) => Err(e),
            Ok(s2) => fb_scan(s2, parts.skip(1)),
        }
    }
}

pub proof fn lemma_fb_scan_append(st: FbModel, t1: Seq<Seq<char>>, t2: Seq<Seq<char>>)
    ensures
        fb_scan(st, t1 + t2) == match fb_scan(st, t1) {
            Err(e) => Err::<FbModel, ErrModel>(e),
            Ok(s2) => fb_scan(s2, t2),
        },
    decreases t1.len(),
{
    if t1.len() == 0 {
        assert(t1 + t2 =~= t2);
    } else {
        assert((t1 + t2)[0] == t1[0]);
        match fb_step(st, t1[0]) {
            Err(e) => {
                assert((t1 + t2).len() > 0);
            },
            Ok(s2) => {
                lemma_fb_scan_append(s2, t1.skip(1), t2);
                assert((t1 + t2).skip(1) =~= t1.skip(1) + t2);
            },
        }
    }
}

pub proof fn lemma_fb_scan_snoc(st: FbModel, t: Seq<Seq<char>>, x: Seq<char>)
    ensures
        fb_scan(st, t.push(x)) == match fb_scan(st, t) {
            Err(e) => Err::<FbModel, ErrModel>(e),
            Ok(s2) => fb_step(s2, x),
        },
    decreases t.len(),
{
    if t.len() == 0 {
        assert(t.push(x)[0] == x);
        assert(t.push(x).skip(1) =~~= Seq::<Seq<char>>::empty());
        match fb_step(st, x) {
            Err(e) => {},
            Ok(s2) => {
                assert(fb_scan(s2, t.push(x).skip(1)) == Ok::<FbModel, ErrModel>(s2));
            },
        }
    } else {
        assert(t.push(x)[0] == t[0]);
        assert(t.push(x).skip(1) =~~= t.skip(1).push(x));
        match fb_step(st, t[0]) {
            Err(e) => {},
            Ok(s2) => {
                lemma_fb_scan_snoc(s2, t.skip(1), x);
            },
        }
    }
}

/// The route the fallback parser yields from the whole argument text.
pub open spec fn fb_finish(m: HttpMethod, st: FbModel) -> Result<RouteModel, ErrModel> {
    match st.path {
        None => Err(ErrModel::TooFewItems),
        Some(p) => match origin_of(p) {
            None => Err(ErrModel::InvalidPath(p)),
            Some(u) => Ok(route_from(m, u, st.media, st.data)),
        },
    }
}

/// The fallback parser over the attribute name and its raw argument text.
pub open spec fn fallback_route_spec(name: Seq<char>, args_str: Seq<char>) -> Result<
    RouteModel,
    ErrModel,
> {
    match fb_scan(fb_init(), args_parts(args_str)) {
        Err(e) => Err(e),
        Ok(st) => {
            if starts_with_seq(name, "protect_"@) {
                match method_of(name.skip("protect_"@.len() as int)) {
                    None => Err(ErrModel::UnknownMethod(name.skip("protect_"@.len() as int))),
                    Some(m) => fb_finish(m, st),
                }
            } else if name == "route"@ {
                Err(ErrModel::RouteFormNotHandled)
            } else {
                match method_of(name) {
                    None => Err(ErrModel::UnknownMethod(name)),
                    Some(m) => fb_finish(m, st),
                }
            }
        },
    }
}

/// The executable state of the fallback scan.
struct FbState {
    path: Option<String>,
    media: Option<String>,
    data: Option<String>,
}

impl FbState {
    spec fn model(&self) -> FbModel {
        FbModel {
            path: match self.path {
                Some(ref p) => Some(p@),
                None => None,
            },
            media: match self.media {
                Some(ref m) => Some(m@),
                None => None,
            },
            data: match self.data {
                Some(ref d) => Some(d@),
                None => None,
            },
        }
    }
}

/// The best-effort parser over the attribute name and the raw text between
/// the attribute's parentheses, per `fallback_route_spec`.  It agrees with
/// the primary parser wherever both succeed.
pub fn parse_attr_from_attr(name: &str, args_str: &str) -> (r: Result<Route, AttrError>)
    ensures
        match r {
            Ok(rt) => fallback_route_spec(name@, args_str@) == Ok::<RouteModel, ErrModel>(rt@),
            Err(e) => fallback_route_spec(name@, args_str@) == Err::<RouteModel, ErrModel>(e@),
        },
{
    let parts = parse_args_string_to_parts(args_str);
    let ghost all_parts = args_parts(args_str@);
    let mut st = FbState { path: None, media: None, data: None };
    let mut i: usize = 0;
    while i < parts.len()
        invariant
            i <= parts@.len(),
            parts.deep_view() == all_parts,
            all_parts == args_parts(args_str@),
            fb_scan(fb_init(), all_parts.take(i as int)) == Ok::<FbModel, ErrModel>(st.model()),
        decreases parts.len() - i,
    {
        let part = str_chars(parts[i].as_str());
        proof {
            assert(parts.deep_view()[i as int] == parts@[i as int]@);
            lemma_fb_scan_snoc(fb_init(), all_parts.take(i as int), all_parts[i as int]);
            assert(all_parts.take(i as int).push(all_parts[i as int]) =~~= all_parts.take(
                i + 1 as int,
            ));
        }
        let n = part.len();
        if n >= 1 && part[0] == '"' && part[n - 1] == '"' && st.path.is_none() {
            st.path = Some(chars_to_string(&trim_quotes_vec(&part)));
        } else {
            let fprefix = str_chars("format =");
            let dprefix = str_chars("data =");
            if starts_with_vec(&part, &fprefix) {
                let raw = subvec(&part, fprefix.len(), part.len());
                proof {
                    assert(raw@ =~= part@.skip("format ="@.len() as int));
                }
                let val = trim_marks_vec(&crate::text::trim_vec(&raw));
                match crate::http::parse_media_type(chars_to_string(&val).as_str()) {
                    Some(m) => {
                        st.media = Some(m);
                    },
                    None => {
                        proof {
                            lemma_fb_scan_append(
                                fb_init(),
                                all_parts.take(i + 1 as int),
                                all_parts.skip(i + 1 as int),
                            );
                            assert(all_parts.take(i + 1 as int) + all_parts.skip(i + 1 as int)
                                =~~= all_parts);
                        }
                        return Err(AttrError::UnknownMediaType(chars_to_string(&val)));
                    },
                }
            } else if starts_with_vec(&part, &dprefix) {
                let raw = subvec(&part, dprefix.len(), part.len());
                proof {
                    assert(raw@ =~= part@.skip("data ="@.len() as int));
                }
                st.data = Some(chars_to_string(&trim_marks_vec(&crate::text::trim_vec(&raw))));
            }
        }
        i = i + 1;
    }
    proof {
        assert(all_parts.take(all_parts.len() as int) =~~= all_parts);
    }
    let nv = str_chars(name);
    let prefix = str_chars("protect_");
    let m = if starts_with_vec(&nv, &prefix) {
        let rest = subvec(&nv, prefix.len(), nv.len());
        proof {
            assert(rest@ =~= name@.skip("protect_"@.len() as int));
        }
        match crate::http::method_from_name(chars_to_string(&rest).as_str()) {
            Some(m) => m,
            None => {
                return Err(AttrError::UnknownMethod(chars_to_string(&rest)));
            },
        }
    } else if crate::text::str_eq(name, "route") {
        return Err(AttrError::RouteFormNotHandled);
    } else {
        match crate::http::method_from_name(name) {
            Some(m) => m,
            None => {
                return Err(AttrError::UnknownMethod(String::from_str(name)));
            },
        }
    };
    let path = match st.path {
        Some(p) => p,
        None => {
            return Err(AttrError::TooFewItems);
        },
    };
    match parse_origin(path.as_str()) {
        Some(u) => {
            let data_param = match st.data {
                Some(d) => Some(trim_angle_brackers(d)),
                None => None,
            };
            Ok(Route { method: m, origin: u, media_type: st.media, data_param: data_param })
        },
        None => Err(AttrError::InvalidPath(path)),
    }
}

} // verus!

verus! {

pub proof fn lemma_scan_fold_append(st: ScanState, a: Seq<char>, b: Seq<char>)
    ensures
        scan_fold(st, a + b) == scan_fold(scan_fold(st, a), b),
    decreases a.len(),
{
    if a.len() == 0 {
        assert(a + b =~= b);
    } else {
        lemma_scan_fold_append(scan_step(st, a[0]), a.skip(1), b);
        assert((a + b)[0] == a[0]);
        assert((a + b).skip(1) =~= a.skip(1) + b);
    }
}

proof fn lemma_scan_fold_one(st: ScanState, c: char)
    ensures
        scan_fold(st, seq![c]) == scan_step(st, c),
{
    assert(seq![c] =~= Seq::<char>::empty().push(c));
    lemma_scan_fold_snoc(st, Seq::<char>::empty(), c);
}

/// Scanning text that holds no quote and no backslash while inside a quoted
/// string only extends the current piece.
proof fn lemma_scan_quoted(st: ScanState, t: Seq<char>)
    requires
        st.in_quotes,
        !st.escape,
        !t.contains('"'),
        !t.contains('\\'),
    ensures
        scan_fold(st, t) == (ScanState {
            parts: st.parts,
            current: st.current + t,
            in_quotes: true,
            escape: false,
        }),
    decreases t.len(),
{
    if t.len() == 0 {
        assert(st.current + t =~= st.current);
    } else {
        assert(t.contains(t[0]));
        let st2 = scan_step(st, t[0]);
        assert(forall|k: int| 0 <= k < t.skip(1).len() ==> t.skip(1)[k] == t[k + 1]);
        assert forall|c: char| t.skip(1).contains(c) implies t.contains(c) by {
            let k = choose|k: int| 0 <= k < t.skip(1).len() && t.skip(1)[k] == c;
            assert(t[k + 1] == c);
        }
        lemma_scan_quoted(st2, t.skip(1));
        assert(st.current.push(t[0]) + t.skip(1) =~= st.current + t);
    }
}

} // verus!

verus! {

/// A value as it stands in the argument text: wrapped in double quotes.
pub open spec fn quoted(v: Seq<char>) -> Seq<char> {
    seq!['"'] + v + seq!['"']
}

/// A value free of the characters the argument-text scanner treats
/// specially inside and around quoted strings.
pub open spec fn scan_value_ok(v: Seq<char>) -> bool {
    !v.contains('"') && !v.contains('\\') && !v.contains('\'')
}

/// One `key = "value"` argument as it stands in the raw argument text,
/// comma and all; `prefix` is the key together with its ` =`.
pub open spec fn named_arg_text(prefix: Seq<char>, v: Seq<char>) -> Seq<char> {
    seq![',', ' '] + prefix + seq![' '] + quoted(v)
}

/// The raw argument text of a route attribute: the quoted path, then the
/// optional `format` and `data` arguments.
pub open spec fn rendered_args(
    p: Seq<char>,
    fmt: Option<Seq<char>>,
    data: Option<Seq<char>>,
) -> Seq<char> {
    quoted(p) + (match fmt {
        Some(f) => named_arg_text("format ="@, f),
        None => Seq::<char>::empty(),
    }) + (match data {
        Some(d) => named_arg_text("data ="@, d),
        None => Seq::<char>::empty(),
    })
}

/// The piece a named argument becomes after the comma split and trim.
pub open spec fn named_part(prefix: Seq<char>, v: Seq<char>) -> Seq<char> {
    prefix + seq![' '] + quoted(v)
}

/// The pieces the scanner cuts the rendered argument text into.
pub open spec fn expected_parts(
    p: Seq<char>,
    fmt: Option<Seq<char>>,
    data: Option<Seq<char>>,
) -> Seq<Seq<char>> {
    seq![quoted(p)] + (match fmt {
        Some(f) => seq![named_part("format ="@, f)],
        None => Seq::<Seq<char>>::empty(),
    }) + (match data {
        Some(d) => seq![named_part("data ="@, d)],
        None => Seq::<Seq<char>>::empty(),
    })
}

/// Scanning text free of quotes, backslashes and commas outside a quoted
/// string only extends the current piece.
proof fn lemma_scan_plain(st: ScanState, t: Seq<char>)
    requires
        !st.in_quotes,
        !st.escape,
        !t.contains('"'),
        !t.contains('\\'),
        !t.contains(','),
    ensures
        scan_fold(st, t) == (ScanState {
            parts: st.parts,
            current: st.current + t,
            in_quotes: false,
            escape: false,
        }),
    decreases t.len(),
{
    if t.len() == 0 {
        assert(st.current + t =~= st.current);
    } else {
        assert(t.contains(t[0]));
        let st2 = scan_step(st, t[0]);
        assert forall|c: char| t.skip(1).contains(c) implies t.contains(c) by {
            let k = choose|k: int| 0 <= k < t.skip(1).len() && t.skip(1)[k] == c;
            assert(t[k + 1] == c);
        }
        lemma_scan_plain(st2, t.skip(1));
        assert(st.current.push(t[0]) + t.skip(1) =~= st.current + t);
    }
}

/// Scanning a quoted value outside a quoted string extends the current
/// piece by the value, quotes included, and leaves the quote flag off.
proof fn lemma_scan_quoted_chunk(st: ScanState, v: Seq<char>)
    requires
        !st.in_quotes,
        !st.escape,
        !v.contains('"'),
        !v.contains('\\'),
    ensures
        scan_fold(st, quoted(v)) == (ScanState {
            parts: st.parts,
            current: st.current + quoted(v),
            in_quotes: false,
            escape: false,
        }),
{
    assert(quoted(v) =~= (seq!['"'] + v) + seq!['"']);
    lemma_scan_fold_append(st, seq!['"'] + v, seq!['"']);
    lemma_scan_fold_append(st, seq!['"'], v);
    lemma_scan_fold_one(st, '"');
    let st1 = scan_step(st, '"');
    assert(st1.in_quotes && !st1.escape);
    lemma_scan_quoted(st1, v);
    let st2 = scan_fold(st1, v);
    lemma_scan_fold_one(st2, '"');
    assert(scan_fold(st, quoted(v)) == scan_step(st2, '"'));
    assert((st.current.push('"') + v).push('"') =~= st.current + quoted(v));
}

/// Scanning one named argument closes the current piece at the comma and
/// starts the next piece with the key and the quoted value.
proof fn lemma_scan_named(st: ScanState, prefix: Seq<char>, v: Seq<char>)
    requires
        !st.in_quotes,
        !st.escape,
        !prefix.contains('"'),
        !prefix.contains('\\'),
        !prefix.contains(','),
        !v.contains('"'),
        !v.contains('\\'),
    ensures
        scan_fold(st, named_arg_text(prefix, v)) == (ScanState {
            parts: st.parts.push(trim_spec(st.current)),
            current: seq![' '] + named_part(prefix, v),
            in_quotes: false,
            escape: false,
        }),
{
    let run = seq![' '] + prefix + seq![' '];
    assert(named_arg_text(prefix, v) =~= (seq![','] + run) + quoted(v));
    assert(seq![','] + run =~= seq![','].push(' ') + (prefix + seq![' ']));
    lemma_scan_fold_append(st, seq![','] + run, quoted(v));
    lemma_scan_fold_append(st, seq![','], run);
    lemma_scan_fold_one(st, ',');
    let st1 = scan_step(st, ',');
    assert(st1.parts == st.parts.push(trim_spec(st.current)));
    assert(st1.current =~= Seq::<char>::empty());
    assert forall|c: char| run.contains(c) implies c == ' ' || prefix.contains(c) by {
        let k = choose|k: int| 0 <= k < run.len() && run[k] == c;
        if 1 <= k < 1 + prefix.len() {
            assert(prefix[k - 1] == c);
        }
    }
    lemma_scan_plain(st1, run);
    let st2 = scan_fold(st1, run);
    assert(st2.current =~= run);
    lemma_scan_quoted_chunk(st2, v);
    assert(run + quoted(v) =~= seq![' '] + named_part(prefix, v));
}

/// A piece whose first and last characters are quotes trims to itself.
proof fn lemma_trim_spec_quoted_ends(s: Seq<char>)
    requires
        s.len() > 0,
        !is_space(s[0]),
        s[s.len() - 1] == '"',
    ensures
        trim_spec(s) == s,
{
    assert(crate::text::trim_start_spec(s) == s);
    assert(crate::text::trim_end_spec(s) == s);
}

/// A leading space trims away; the rest, ending in a quote, stays.
proof fn lemma_trim_spec_space_then(s: Seq<char>)
    requires
        s.len() > 0,
        !is_space(s[0]),
        s[s.len() - 1] == '"',
    ensures
        trim_spec(seq![' '] + s) == s,
{
    let t = seq![' '] + s;
    assert(t[0] == ' ');
    assert(t.skip(1) =~= s);
    assert(crate::text::trim_start_spec(t) == crate::text::trim_start_spec(s));
    assert(crate::text::trim_start_spec(s) == s);
    assert(crate::text::trim_end_spec(s) == s);
}

/// Unquoting a quoted value restores it.
proof fn lemma_trim_quotes_quoted(v: Seq<char>)
    requires
        !v.contains('"'),
    ensures
        trim_quotes(quoted(v)) == v,
{
    let q = quoted(v);
    assert(q[0] == '"');
    assert(q.skip(1) =~= v + seq!['"']);
    assert(trim_quote_start(q) == trim_quote_start(v + seq!['"']));
    if v.len() > 0 {
        assert((v + seq!['"'])[0] == v[0]);
        assert(v.contains(v[0]) || v[0] != '"');
        if v[0] == '"' {
            assert(v.contains(v[0]));
        }
        assert(trim_quote_start(v + seq!['"']) == v + seq!['"']);
        assert((v + seq!['"']).take(v.len() as int) =~= v);
        assert(trim_quote_end(v + seq!['"']) == trim_quote_end(v));
        if v[v.len() - 1] == '"' {
            assert(v.contains(v[v.len() - 1]));
        }
        assert(trim_quote_end(v) == v);
    } else {
        assert(v + seq!['"'] =~= seq!['"']);
        assert(seq!['"'][0] == '"');
        assert(seq!['"'].skip(1) =~= Seq::<char>::empty());
        assert(trim_quote_start(seq!['"']) == trim_quote_start(Seq::<char>::empty()));
        assert(trim_quote_start(Seq::<char>::empty()) =~= Seq::<char>::empty());
        assert(trim_quote_end(Seq::<char>::empty()) =~= v);
    }
}

/// Stripping the quote marks off a quoted mark-free value restores it.
proof fn lemma_trim_marks_quoted(v: Seq<char>)
    requires
        !v.contains('"'),
        !v.contains('\''),
    ensures
        trim_marks(quoted(v)) == v,
{
    let q = quoted(v);
    assert(is_quote_mark(q[0]));
    assert(q.skip(1) =~= v + seq!['"']);
    assert(trim_marks_start(q) == trim_marks_start(v + seq!['"']));
    if v.len() > 0 {
        assert((v + seq!['"'])[0] == v[0]);
        if is_quote_mark(v[0]) {
            assert(v.contains(v[0]));
        }
        assert(trim_marks_start(v + seq!['"']) == v + seq!['"']);
        assert((v + seq!['"']).take(v.len() as int) =~= v);
        assert(trim_marks_end(v + seq!['"']) == trim_marks_end(v));
        if is_quote_mark(v[v.len() - 1]) {
            assert(v.contains(v[v.len() - 1]));
        }
        assert(trim_marks_end(v) == v);
    } else {
        assert(v + seq!['"'] =~= seq!['"']);
        assert(seq!['"'][0] == '"');
        assert(seq!['"'].skip(1) =~= Seq::<char>::empty());
        assert(trim_marks_start(seq!['"']) == trim_marks_start(Seq::<char>::empty()));
        assert(trim_marks_start(Seq::<char>::empty()) =~= Seq::<char>::empty());
        assert(trim_marks_end(Seq::<char>::empty()) =~= v);
    }
}

} // verus!

verus! {

proof fn lemma_no_char(s: Seq<char>, c: char)
    requires
        forall|k: int| 0 <= k < s.len() ==> s[k] != c,
    ensures
        !s.contains(c),
{
    if s.contains(c) {
        let k = choose|k: int| 0 <= k < s.len() && s[k] == c;
        assert(s[k] != c);
    }
}

/// The content of the two named-argument prefixes, spelled out.
proof fn lemma_prefix_facts()
    ensures
        "format ="@ =~= seq!['f', 'o', 'r', 'm', 'a', 't', ' ', '='],
        "data ="@ =~= seq!['d', 'a', 't', 'a', ' ', '='],
        !"format ="@.contains('"'),
        !"format ="@.contains('\\'),
        !"format ="@.contains(','),
        !"data ="@.contains('"'),
        !"data ="@.contains('\\'),
        !"data ="@.contains(','),
{
    reveal_strlit("format =");
    reveal_strlit("data =");
    assert("format ="@ =~= seq!['f', 'o', 'r', 'm', 'a', 't', ' ', '=']);
    assert("data ="@ =~= seq!['d', 'a', 't', 'a', ' ', '=']);
    lemma_no_char("format ="@, '"');
    lemma_no_char("format ="@, '\\');
    lemma_no_char("format ="@, ',');
    lemma_no_char("data ="@, '"');
    lemma_no_char("data ="@, '\\');
    lemma_no_char("data ="@, ',');
}

/// The scanner cuts the rendered argument text into the expected pieces.
proof fn lemma_rendered_parts(p: Seq<char>, fmt: Option<Seq<char>>, data: Option<Seq<char>>)
    requires
        !p.contains('"'),
        !p.contains('\\'),
        fmt matches Some(f) ==> scan_value_ok(f),
        data matches Some(d) ==> scan_value_ok(d),
    ensures
        args_parts(rendered_args(p, fmt, data)) == expected_parts(p, fmt, data),
{
    lemma_prefix_facts();
    let text = rendered_args(p, fmt, data);
    let st0 = scan_init();
    lemma_scan_quoted_chunk(st0, p);
    let st_a = ScanState {
        parts: Seq::empty(),
        current: quoted(p),
        in_quotes: false,
        escape: false,
    };
    assert(st0.current + quoted(p) =~= quoted(p));
    assert(scan_fold(st0, quoted(p)) == st_a);
    assert(quoted(p)[0] == '"' && !is_space(quoted(p)[0]));
    assert(quoted(p)[quoted(p).len() - 1] == '"');
    lemma_trim_spec_quoted_ends(quoted(p));
    match fmt {
        None => {
            match data {
                None => {
                    assert(text =~= quoted(p));
                    assert(args_parts(text) =~~= expected_parts(p, fmt, data));
                },
                Some(d) => {
                    let dtext = named_arg_text("data ="@, d);
                    assert(text =~= quoted(p) + dtext);
                    lemma_scan_fold_append(st0, quoted(p), dtext);
                    lemma_scan_named(st_a, "data ="@, d);
                    let st_b = scan_fold(st_a, dtext);
                    assert(st_b.parts =~~= seq![quoted(p)]);
                    let dpart = named_part("data ="@, d);
                    assert(dpart[0] == 'd' && !is_space(dpart[0]));
                    assert(dpart[dpart.len() - 1] == quoted(d)[quoted(d).len() - 1]);
                    lemma_trim_spec_space_then(dpart);
                    assert(args_parts(text) =~~= expected_parts(p, fmt, data));
                },
            }
        },
        Some(f) => {
            let ftext = named_arg_text("format ="@, f);
            let fpart = named_part("format ="@, f);
            assert(fpart[0] == 'f' && !is_space(fpart[0]));
            assert(fpart[fpart.len() - 1] == quoted(f)[quoted(f).len() - 1]);
            match data {
                None => {
                    assert(text =~= quoted(p) + ftext);
                    lemma_scan_fold_append(st0, quoted(p), ftext);
                    lemma_scan_named(st_a, "format ="@, f);
                    let st_b = scan_fold(st_a, ftext);
                    assert(st_b.parts =~~= seq![quoted(p)]);
                    lemma_trim_spec_space_then(fpart);
                    assert(args_parts(text) =~~= expected_parts(p, fmt, data));
                },
                Some(d) => {
                    let dtext = named_arg_text("data ="@, d);
                    let dpart = named_part("data ="@, d);
                    assert(text =~= (quoted(p) + ftext) + dtext);
                    lemma_scan_fold_append(st0, quoted(p) + ftext, dtext);
                    lemma_scan_fold_append(st0, quoted(p), ftext);
                    lemma_scan_named(st_a, "format ="@, f);
                    let st_b = scan_fold(st_a, ftext);
                    lemma_scan_named(st_b, "data ="@, d);
                    let st_c = scan_fold(st_b, dtext);
                    lemma_trim_spec_space_then(fpart);
                    assert(st_c.parts =~~= seq![quoted(p), fpart]);
                    assert(dpart[0] == 'd' && !is_space(dpart[0]));
                    assert(dpart[dpart.len() - 1] == quoted(d)[quoted(d).len() - 1]);
                    lemma_trim_spec_space_then(dpart);
                    assert(args_parts(text) =~~= expected_parts(p, fmt, data));
                },
            }
        },
    }
}

/// What the fallback scan gathers from the expected pieces.
proof fn lemma_fb_expected(p: Seq<char>, fmt: Option<Seq<char>>, data: Option<Seq<char>>)
    requires
        !p.contains('"'),
        fmt matches Some(f) ==> scan_value_ok(f) && media_type_of(f) is Some,
        data matches Some(d) ==> scan_value_ok(d),
    ensures
        fb_scan(fb_init(), expected_parts(p, fmt, data)) == Ok::<FbModel, ErrModel>(
            FbModel {
                path: Some(p),
                media: match fmt {
                    Some(f) => Some(media_type_of(f)->Some_0),
                    None => None,
                },
                data: data,
            },
        ),
{
    lemma_prefix_facts();
    let parts = expected_parts(p, fmt, data);
    // The quoted path piece.
    assert(parts[0] == quoted(p));
    assert(quoted(p)[0] == '"' && quoted(p)[quoted(p).len() - 1] == '"');
    lemma_trim_quotes_quoted(p);
    let st1 = FbModel { path: Some(p), media: None, data: None };
    assert(fb_step(fb_init(), quoted(p)) == Ok::<FbModel, ErrModel>(st1));
    match fmt {
        None => {
            match data {
                None => {
                    assert(parts =~~= seq![quoted(p)]);
                    assert(parts.skip(1) =~~= Seq::<Seq<char>>::empty());
                    assert(fb_scan(st1, parts.skip(1)) == Ok::<FbModel, ErrModel>(st1));
                },
                Some(d) => {
                    let dpart = named_part("data ="@, d);
                    assert(parts =~~= seq![quoted(p), dpart]);
                    assert(parts.skip(1) =~~= seq![dpart]);
                    lemma_fb_data_part(st1, d);
                    let st2 = FbModel { path: Some(p), media: None, data: Some(d) };
                    assert(seq![dpart].skip(1) =~~= Seq::<Seq<char>>::empty());
                    assert(fb_scan(st2, seq![dpart].skip(1)) == Ok::<FbModel, ErrModel>(st2));
                    assert(fb_scan(st1, parts.skip(1)) == Ok::<FbModel, ErrModel>(st2));
                },
            }
        },
        Some(f) => {
            let fpart = named_part("format ="@, f);
            lemma_fb_format_part(st1, f);
            let st2 = FbModel { path: Some(p), media: Some(media_type_of(f)->Some_0), data: None };
            match data {
                None => {
                    assert(parts =~~= seq![quoted(p), fpart]);
                    assert(parts.skip(1) =~~= seq![fpart]);
                    assert(seq![fpart].skip(1) =~~= Seq::<Seq<char>>::empty());
                    assert(fb_scan(st2, seq![fpart].skip(1)) == Ok::<FbModel, ErrModel>(st2));
                    assert(fb_scan(st1, parts.skip(1)) == Ok::<FbModel, ErrModel>(st2));
                },
                Some(d) => {
                    let dpart = named_part("data ="@, d);
                    assert(parts =~~= seq![quoted(p), fpart, dpart]);
                    assert(parts.skip(1) =~~= seq![fpart, dpart]);
                    lemma_fb_data_part(st2, d);
                    let st3 = FbModel {
                        path: Some(p),
                        media: Some(media_type_of(f)->Some_0),
                        data: Some(d),
                    };
                    assert(seq![fpart, dpart].skip(1) =~~= seq![dpart]);
                    assert(seq![dpart].skip(1) =~~= Seq::<Seq<char>>::empty());
                    assert(fb_scan(st3, seq![dpart].skip(1)) == Ok::<FbModel, ErrModel>(st3));
                    assert(fb_scan(st2, seq![dpart]) == Ok::<FbModel, ErrModel>(st3));
                    assert(fb_scan(st1, parts.skip(1)) == Ok::<FbModel, ErrModel>(st3));
                },
            }
        },
    }
}

/// One `format = "value"` piece sets the media type.
proof fn lemma_fb_format_part(st: FbModel, f: Seq<char>)
    requires
        scan_value_ok(f),
        media_type_of(f) is Some,
    ensures
        fb_step(st, named_part("format ="@, f)) == Ok::<FbModel, ErrModel>(
            FbModel { path: st.path, media: Some(media_type_of(f)->Some_0), data: st.data },
        ),
{
    lemma_prefix_facts();
    let part = named_part("format ="@, f);
    assert(part[0] == 'f');
    assert(part.take("format ="@.len() as int) =~= "format ="@);
    assert(starts_with_seq(part, "format ="@));
    assert(part.skip("format ="@.len() as int) =~= seq![' '] + quoted(f));
    assert(quoted(f)[0] == '"' && !is_space(quoted(f)[0]));
    assert(quoted(f)[quoted(f).len() - 1] == '"');
    lemma_trim_spec_space_then(quoted(f));
    lemma_trim_marks_quoted(f);
}

/// One `data = "value"` piece sets the data parameter.
proof fn lemma_fb_data_part(st: FbModel, d: Seq<char>)
    requires
        scan_value_ok(d),
    ensures
        fb_step(st, named_part("data ="@, d)) == Ok::<FbModel, ErrModel>(
            FbModel { path: st.path, media: st.media, data: Some(d) },
        ),
{
    lemma_prefix_facts();
    let part = named_part("data ="@, d);
    assert(part[0] == 'd');
    if part.len() >= 1 && part[0] == '"' && part[part.len() - 1] == '"' && st.path is None {
        assert(false);
    }
    if starts_with_seq(part, "format ="@) {
        assert(part.take("format ="@.len() as int)[0] == part[0]);
        assert(false);
    }
    assert(part.take("data ="@.len() as int) =~= "data ="@);
    assert(starts_with_seq(part, "data ="@));
    assert(part.skip("data ="@.len() as int) =~= seq![' '] + quoted(d));
    assert(quoted(d)[0] == '"' && !is_space(quoted(d)[0]));
    assert(quoted(d)[quoted(d).len() - 1] == '"');
    lemma_trim_spec_space_then(quoted(d));
    lemma_trim_marks_quoted(d);
}

/// The argument list the primary parser sees for the same route input.
pub open spec fn primary_args(
    p: Seq<char>,
    fmt: Option<Seq<char>>,
    data: Option<Seq<char>>,
) -> Seq<ArgModel> {
    seq![ArgModel::Lit(p)] + (match fmt {
        Some(f) => seq![ArgModel::Named("format"@, f)],
        None => Seq::<ArgModel>::empty(),
    }) + (match data {
        Some(d) => seq![ArgModel::Named("data"@, d)],
        None => Seq::<ArgModel>::empty(),
    })
}

/// What the primary parser yields from such an argument list.
proof fn lemma_primary_args(
    m: HttpMethod,
    p: Seq<char>,
    fmt: Option<Seq<char>>,
    data: Option<Seq<char>>,
)
    requires
        origin_of(p) is Some,
        fmt matches Some(f) ==> media_type_of(f) is Some,
    ensures
        parse_method_args_spec(m, primary_args(p, fmt, data)) == Ok::<RouteModel, ErrModel>(
            route_from(
                m,
                origin_of(p)->Some_0,
                match fmt {
                    Some(f) => Some(media_type_of(f)->Some_0),
                    None => None,
                },
                data,
            ),
        ),
{
    reveal_strlit("format");
    reveal_strlit("data");
    assert("format"@.len() == 6 && "data"@.len() == 4);
    assert("format"@ != "data"@);
    let args = primary_args(p, fmt, data);
    assert(args[0] == ArgModel::Lit(p));
    let rest = args.skip(1);
    match fmt {
        None => {
            match data {
                None => {
                    assert(rest =~~= Seq::<ArgModel>::empty());
                    assert(find_named(rest, "format"@) is None);
                    assert(find_named(rest, "data"@) is None);
                },
                Some(d) => {
                    assert(rest =~~= seq![ArgModel::Named("data"@, d)]);
                    assert(rest[0] == ArgModel::Named("data"@, d));
                    assert(rest.skip(1) =~~= Seq::<ArgModel>::empty());
                    assert(find_named(rest.skip(1), "format"@) is None);
                    assert(find_named(rest, "format"@) is None);
                    assert(find_named(rest, "data"@) == Some(d));
                },
            }
        },
        Some(f) => {
            match data {
                None => {
                    assert(rest =~~= seq![ArgModel::Named("format"@, f)]);
                    assert(rest[0] == ArgModel::Named("format"@, f));
                    assert(rest.skip(1) =~~= Seq::<ArgModel>::empty());
                    assert(find_named(rest.skip(1), "data"@) is None);
                    assert(find_named(rest, "format"@) == Some(f));
                    assert(find_named(rest, "data"@) is None);
                },
                Some(d) => {
                    assert(rest =~~= seq![
                        ArgModel::Named("format"@, f),
                        ArgModel::Named("data"@, d),
                    ]);
                    assert(rest[0] == ArgModel::Named("format"@, f));
                    assert(rest.skip(1) =~~= seq![ArgModel::Named("data"@, d)]);
                    assert(rest.skip(1)[0] == ArgModel::Named("data"@, d));
                    assert(rest.skip(1).skip(1) =~~= Seq::<ArgModel>::empty());
                    assert(find_named(rest, "format"@) == Some(f));
                    assert(find_named(rest.skip(1).skip(1), "data"@) is None);
                    assert(find_named(rest.skip(1), "data"@) == Some(d));
                    assert(find_named(rest, "data"@) == Some(d));
                },
            }
        },
    }
}

/// The primary and fallback route parsers agree: for every route input —
/// an attribute name that resolves to a method, a valid origin template,
/// and optional `format` and `data` arguments, all free of the quote and
/// escape characters of the raw-text form — parsing the structured argument
/// list and parsing the rendered argument text succeed and produce the same
/// route, so the extracted path-parameter and query-parameter name lists
/// coincide.
pub proof fn lemma_primary_fallback_agree(
    name: Seq<char>,
    p: Seq<char>,
    fmt: Option<Seq<char>>,
    data: Option<Seq<char>>,
)
    requires
        starts_with_seq(name, "protect_"@) ==> method_of(
            name.skip("protect_"@.len() as int),
        ) is Some,
        !starts_with_seq(name, "protect_"@) ==> method_of(name) is Some,
        origin_of(p) is Some,
        !p.contains('"'),
        !p.contains('\\'),
        fmt matches Some(f) ==> scan_value_ok(f) && media_type_of(f) is Some,
        data matches Some(d) ==> scan_value_ok(d),
    ensures
        ({
            let prim = parse_attr_spec(name, primary_args(p, fmt, data));
            let fall = fallback_route_spec(name, rendered_args(p, fmt, data));
            &&& prim is Ok
            &&& fall is Ok
            &&& prim->Ok_0 == fall->Ok_0
            &&& crate::route::single_names(prim->Ok_0.origin.path_segments)
                == crate::route::single_names(fall->Ok_0.origin.path_segments)
            &&& prim->Ok_0.origin.query == fall->Ok_0.origin.query
        }),
{
    let m = if starts_with_seq(name, "protect_"@) {
        method_of(name.skip("protect_"@.len() as int))->Some_0
    } else {
        method_of(name)->Some_0
    };
    if !starts_with_seq(name, "protect_"@) {
        reveal_strlit("route");
        if name == "route"@ {
            lemma_route_not_method();
        }
    }
    lemma_primary_args(m, p, fmt, data);
    lemma_rendered_parts(p, fmt, data);
    lemma_fb_expected(p, fmt, data);
}

/// The word naming the general route form is itself no method keyword.
proof fn lemma_route_not_method()
    ensures
        method_of("route"@) is None,
{
    reveal_strlit("route");
    assert("route"@ =~= seq!['r', 'o', 'u', 't', 'e']);
    let l = crate::http::lower_chars("route"@);
    assert(l.len() == 5);
    assert(l[0] == crate::http::lower_char('r'));
    assert(l[0] == 'r');
    assert(l != seq!['g', 'e', 't']);
    assert(l != seq!['p', 'u', 't']);
    assert(l != seq!['p', 'o', 's', 't']);
    assert(l != seq!['d', 'e', 'l', 'e', 't', 'e']);
    assert(l != seq!['o', 'p', 't', 'i', 'o', 'n', 's']);
    assert(l != seq!['h', 'e', 'a', 'd']);
    assert(l != seq!['t', 'r', 'a', 'c', 'e']);
    assert(l != seq!['c', 'o', 'n', 'n', 'e', 'c', 't']);
    assert(l != seq!['p', 'a', 't', 'c', 'h']);
}

} // verus!

verus! {

/// The raw argument text with the `data` argument before the `format` one.
pub open spec fn rendered_args_data_first(p: Seq<char>, f: Seq<char>, d: Seq<char>) -> Seq<char> {
    quoted(p) + named_arg_text("data ="@, d) + named_arg_text("format ="@, f)
}

/// The argument list with the `data` argument before the `format` one.
pub open spec fn primary_args_data_first(p: Seq<char>, f: Seq<char>, d: Seq<char>) -> Seq<
    ArgModel,
> {
    seq![ArgModel::Lit(p), ArgModel::Named("data"@, d), ArgModel::Named("format"@, f)]
}

/// The parsers also agree when the `data` argument stands before the
/// `format` one: the named arguments are found by name, not by position.
pub proof fn lemma_primary_fallback_agree_data_first(
    name: Seq<char>,
    p: Seq<char>,
    f: Seq<char>,
    d: Seq<char>,
)
    requires
        starts_with_seq(name, "protect_"@) ==> method_of(
            name.skip("protect_"@.len() as int),
        ) is Some,
        !starts_with_seq(name, "protect_"@) ==> method_of(name) is Some,
        origin_of(p) is Some,
        !p.contains('"'),
        !p.contains('\\'),
        scan_value_ok(f),
        media_type_of(f) is Some,
        scan_value_ok(d),
    ensures
        ({
            let prim = parse_attr_spec(name, primary_args_data_first(p, f, d));
            let fall = fallback_route_spec(name, rendered_args_data_first(p, f, d));
            &&& prim is Ok
            &&& fall is Ok
            &&& prim->Ok_0 == fall->Ok_0
            &&& prim->Ok_0 == parse_attr_spec(name, primary_args(p, Some(f), Some(d)))->Ok_0
        }),
{
    lemma_prefix_facts();
    let m = if starts_with_seq(name, "protect_"@) {
        method_of(name.skip("protect_"@.len() as int))->Some_0
    } else {
        method_of(name)->Some_0
    };
    if !starts_with_seq(name, "protect_"@) {
        reveal_strlit("route");
        if name == "route"@ {
            lemma_route_not_method();
        }
    }
    // The primary parser finds both named arguments whatever their order.
    reveal_strlit("format");
    reveal_strlit("data");
    assert("format"@.len() == 6 && "data"@.len() == 4);
    assert("format"@ != "data"@);
    let args = primary_args_data_first(p, f, d);
    assert(args[0] == ArgModel::Lit(p));
    let rest = args.skip(1);
    assert(rest =~~= seq![ArgModel::Named("data"@, d), ArgModel::Named("format"@, f)]);
    assert(rest[0] == ArgModel::Named("data"@, d));
    assert(rest.skip(1) =~~= seq![ArgModel::Named("format"@, f)]);
    assert(rest.skip(1)[0] == ArgModel::Named("format"@, f));
    assert(rest.skip(1).skip(1) =~~= Seq::<ArgModel>::empty());
    assert(find_named(rest.skip(1), "format"@) == Some(f));
    assert(find_named(rest, "format"@) == Some(f));
    assert(find_named(rest, "data"@) == Some(d));
    let u = origin_of(p)->Some_0;
    let expected = route_from(m, u, Some(media_type_of(f)->Some_0), Some(d));
    assert(parse_method_args_spec(m, args) == Ok::<RouteModel, ErrModel>(expected));
    lemma_primary_args(m, p, Some(f), Some(d));
    // The scanner cuts the swapped text into path, data and format pieces.
    let text = rendered_args_data_first(p, f, d);
    let dtext = named_arg_text("data ="@, d);
    let ftext = named_arg_text("format ="@, f);
    let dpart = named_part("data ="@, d);
    let fpart = named_part("format ="@, f);
    let st0 = scan_init();
    lemma_scan_quoted_chunk(st0, p);
    let st_a = ScanState {
        parts: Seq::empty(),
        current: quoted(p),
        in_quotes: false,
        escape: false,
    };
    assert(st0.current + quoted(p) =~= quoted(p));
    assert(scan_fold(st0, quoted(p)) == st_a);
    assert(quoted(p)[0] == '"' && !is_space(quoted(p)[0]));
    assert(quoted(p)[quoted(p).len() - 1] == '"');
    lemma_trim_spec_quoted_ends(quoted(p));
    assert(text =~= (quoted(p) + dtext) + ftext);
    lemma_scan_fold_append(st0, quoted(p) + dtext, ftext);
    lemma_scan_fold_append(st0, quoted(p), dtext);
    lemma_scan_named(st_a, "data ="@, d);
    let st_b = scan_fold(st_a, dtext);
    lemma_scan_named(st_b, "format ="@, f);
    let st_c = scan_fold(st_b, ftext);
    assert(dpart[0] == 'd' && !is_space(dpart[0]));
    assert(dpart[dpart.len() - 1] == quoted(d)[quoted(d).len() - 1]);
    lemma_trim_spec_space_then(dpart);
    assert(st_c.parts =~~= seq![quoted(p), dpart]);
    assert(fpart[0] == 'f' && !is_space(fpart[0]));
    assert(fpart[fpart.len() - 1] == quoted(f)[quoted(f).len() - 1]);
    lemma_trim_spec_space_then(fpart);
    let parts = seq![quoted(p), dpart, fpart];
    assert(args_parts(text) =~~= parts);
    // The fallback scan gathers the same pieces by shape, not position.
    assert(parts[0] == quoted(p));
    assert(quoted(p)[0] == '"' && quoted(p)[quoted(p).len() - 1] == '"');
    lemma_trim_quotes_quoted(p);
    let st1 = FbModel { path: Some(p), media: None, data: None };
    assert(fb_step(fb_init(), quoted(p)) == Ok::<FbModel, ErrModel>(st1));
    lemma_fb_data_part(st1, d);
    let st2 = FbModel { path: Some(p), media: None, data: Some(d) };
    lemma_fb_format_part(st2, f);
    let st3 = FbModel { path: Some(p), media: Some(media_type_of(f)->Some_0), data: Some(d) };
    assert(parts.skip(1) =~~= seq![dpart, fpart]);
    assert(seq![dpart, fpart].skip(1) =~~= seq![fpart]);
    assert(seq![fpart].skip(1) =~~= Seq::<Seq<char>>::empty());
    assert(fb_scan(st3, seq![fpart].skip(1)) == Ok::<FbModel, ErrModel>(st3));
    assert(fb_scan(st2, seq![fpart]) == Ok::<FbModel, ErrModel>(st3));
    assert(fb_scan(st1, parts.skip(1)) == Ok::<FbModel, ErrModel>(st3));
    assert(fb_scan(fb_init(), parts) == Ok::<FbModel, ErrModel>(st3));
    assert(fb_finish(m, st3) == Ok::<RouteModel, ErrModel>(expected));
}

} // verus!
