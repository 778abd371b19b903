//! HTTP methods and media types as the route parser needs them.

use vstd::prelude::*;

verus! {

/// The fixed set of HTTP methods a route may declare.
#[derive(Clone, Copy, PartialEq, Eq, Structural, Debug, Hash)]
pub enum HttpMethod {
    Get,
    Put,
    Post,
    Delete,
    Options,
    Head,
    Trace,
    Connect,
    Patch,
}

/// ASCII upper-case letters folded to lower case; all else unchanged.
pub open spec fn lower_char(c: char) -> char {
    if 'A' <= c && c <= 'Z' {
        ((c as u8) + 32) as char
    } else {
        c
    }
}

pub open spec fn lower_chars(s: Seq<char>) -> Seq<char> {
    s.map_values(|c: char| lower_char(c))
}

/// The method a name resolves to, matched case-insensitively.
pub open spec fn method_of(s: Seq<char>) -> Option<HttpMethod> {
    let l = lower_chars(s);
    if l == seq!['g', 'e', 't'] {
        Some(HttpMethod::Get)
    } else if l == seq!['p', 'u', 't'] {
        Some(HttpMethod::Put)
    } else if l == seq!['p', 'o', 's', 't'] {
        Some(HttpMethod::Post)
    } else if l == seq!['d', 'e', 'l', 'e', 't', 'e'] {
        Some(HttpMethod::Delete)
    } else if l == seq!['o', 'p', 't', 'i', 'o', 'n', 's'] {
        Some(HttpMethod::Options)
    } else if l == seq!['h', 'e', 'a', 'd'] {
        Some(HttpMethod::Head)
    } else if l == seq!['t', 'r', 'a', 'c', 'e'] {
        Some(HttpMethod::Trace)
    } else if l == seq!['c', 'o', 'n', 'n', 'e', 'c', 't'] {
        Some(HttpMethod::Connect)
    } else if l == seq!['p', 'a', 't', 'c', 'h'] {
        Some(HttpMethod::Patch)
    } else {
        None
    }
}

fn lower_vec(v: &Vec<char>) -> (r: Vec<char>)
    ensures
        r@ == lower_chars(v@),
{
    let mut r: Vec<char> = Vec::new();
    let mut i: usize = 0;
    while i < v.len()
        invariant
            i <= v@.len(),
            r@ == lower_chars(v@.take(i as int)),
        decreases v.len() - i,
    {
        let c = v[i];
        if 'A' <= c && c <= 'Z' {
            r.push(((c as u8) + 32) as char);
        } else {
            r.push(c);
        }
        proof {
            assert(r@ =~= lower_chars(v@.take(i + 1 as int)));
        }
        i = i + 1;
    }
    proof {
        assert(v@.take(v@.len() as int) =~= v@);
    }
    r
}

/// Resolves a method name, matched case-insensitively, per `method_of`.
pub fn method_from_name(s: &str) -> (r: Option<HttpMethod>)
    ensures
        r == method_of(s@),
{
    let v = crate::text::str_chars(s);
    let l = lower_vec(&v);
    proof {
        reveal_strlit("get");
        reveal_strlit("put");
        reveal_strlit("post");
        reveal_strlit("delete");
        reveal_strlit("options");
        reveal_strlit("head");
        reveal_strlit("trace");
        reveal_strlit("connect");
        reveal_strlit("patch");
        assert("get"@ =~= seq!['g', 'e', 't']);
        assert("put"@ =~= seq!['p', 'u', 't']);
        assert("post"@ =~= seq!['p', 'o', 's', 't']);
        assert("delete"@ =~= seq!['d', 'e', 'l', 'e', 't', 'e']);
        assert("options"@ =~= seq!['o', 'p', 't', 'i', 'o', 'n', 's']);
        assert("head"@ =~= seq!['h', 'e', 'a', 'd']);
        assert("trace"@ =~= seq!['t', 'r', 'a', 'c', 'e']);
        assert("connect"@ =~= seq!['c', 'o', 'n', 'n', 'e', 'c', 't']);
        assert("patch"@ =~= seq!['p', 'a', 't', 'c', 'h']);
    }
    if crate::text::vecs_eq(&l, &crate::text::str_chars("get")) {
        Some(HttpMethod::Get)
    } else if crate::text::vecs_eq(&l, &crate::text::str_chars("put")) {
        Some(HttpMethod::Put)
    } else if crate::text::vecs_eq(&l, &crate::text::str_chars("post")) {
        Some(HttpMethod::Post)
    } else if crate::text::vecs_eq(&l, &crate::text::str_chars("delete")) {
        Some(HttpMethod::Delete)
    } else if crate::text::vecs_eq(&l, &crate::text::str_chars("options")) {
        Some(HttpMethod::Options)
    } else if crate::text::vecs_eq(&l, &crate::text::str_chars("head")) {
        Some(HttpMethod::Head)
    } else if crate::text::vecs_eq(&l, &crate::text::str_chars("trace")) {
        Some(HttpMethod::Trace)
    } else if crate::text::vecs_eq(&l, &crate::text::str_chars("connect")) {
        Some(HttpMethod::Connect)
    } else if crate::text::vecs_eq(&l, &crate::text::str_chars("patch")) {
        Some(HttpMethod::Patch)
    } else {
        None
    }
}

/// The canonical upper-case name of a method.
pub open spec fn method_name(m: HttpMethod) -> Seq<char> {
    match m {
        HttpMethod::Get => seq!['G', 'E', 'T'],
        HttpMethod::Put => seq!['P', 'U', 'T'],
        HttpMethod::Post => seq!['P', 'O', 'S', 'T'],
        HttpMethod::Delete => seq!['D', 'E', 'L', 'E', 'T', 'E'],
        HttpMethod::Options => seq!['O', 'P', 'T', 'I', 'O', 'N', 'S'],
        HttpMethod::Head => seq!['H', 'E', 'A', 'D'],
        HttpMethod::Trace => seq!['T', 'R', 'A', 'C', 'E'],
        HttpMethod::Connect => seq!['C', 'O', 'N', 'N', 'E', 'C', 'T'],
        HttpMethod::Patch => seq!['P', 'A', 'T', 'C', 'H'],
    }
}

impl HttpMethod {
    /// The method's canonical upper-case name.
    pub fn name(&self) -> (r: &'static str)
        ensures
            r@ == method_name(*self),
    {
        match self {
            HttpMethod::Get => {
                proof {
                    reveal_strlit("GET");
                    assert("GET"@ =~= method_name(HttpMethod::Get));
                }
                "GET"
            },
            HttpMethod::Put => {
                proof {
                    reveal_strlit("PUT");
                    assert("PUT"@ =~= method_name(HttpMethod::Put));
                }
                "PUT"
            },
            HttpMethod::Post => {
                proof {
                    reveal_strlit("POST");
                    assert("POST"@ =~= method_name(HttpMethod::Post));
                }
                "POST"
            },
            HttpMethod::Delete => {
                proof {
                    reveal_strlit("DELETE");
                    assert("DELETE"@ =~= method_name(HttpMethod::Delete));
                }
                "DELETE"
            },
            HttpMethod::Options => {
                proof {
                    reveal_strlit("OPTIONS");
                    assert("OPTIONS"@ =~= method_name(HttpMethod::Options));
                }
                "OPTIONS"
            },
            HttpMethod::Head => {
                proof {
                    reveal_strlit("HEAD");
                    assert("HEAD"@ =~= method_name(HttpMethod::Head));
                }
                "HEAD"
            },
            HttpMethod::Trace => {
                proof {
                    reveal_strlit("TRACE");
                    assert("TRACE"@ =~= method_name(HttpMethod::Trace));
                }
                "TRACE"
            },
            HttpMethod::Connect => {
                proof {
                    reveal_strlit("CONNECT");
                    assert("CONNECT"@ =~= method_name(HttpMethod::Connect));
                }
                "CONNECT"
            },
            HttpMethod::Patch => {
                proof {
                    reveal_strlit("PATCH");
                    assert("PATCH"@ =~= method_name(HttpMethod::Patch));
                }
                "PATCH"
            },
        }
    }
}

/// What the media-type table resolves a name or full type to, canonically
/// rendered; it depends on the name alone.
pub uninterp spec fn media_type_of(s: Seq<char>) -> Option<Seq<char>>;

/// Relies on rocket_http's MediaType::parse_flexible: resolves a shorthand
/// such as `json` or a full `top/sub` media type, returning `None` for an
/// unknown one; the result depends on the input string alone.
#[verifier::external_body]
pub fn parse_media_type(s: &str) -> (r: Option<String>)
    ensures
        match r {
            Some(m) => media_type_of(s@) == Some(m@),
            None => media_type_of(s@) is None,
        },
{
    match rocket_http::MediaType::parse_flexible(s) {
        Some(m) => Some(format!("{}", m)),
        None => None,
    }
}

} // verus!
