//! The operation synthesizer and the helpers behind the generated
//! spec-building code: it combines a parsed route, the extracted doc
//! comment, the attribute overrides and the capability outputs into one
//! registered operation, and derives the generated helper names and
//! default operation identifiers.

use vstd::prelude::*;

use crate::gen::{DuplicateOperationError, OpenApiGenerator, OperationInfo};
use crate::openapi3::{
    Contact, EqClone, Info, Operation, OperationModel, Parameter, ParameterModel, RequestBody,
    Responses,
};
use crate::route::{Route, SegModel};
use crate::text::{chars_to_string, join_with, str_chars};

verus! {

/// The explicit overrides a handler's documentation attribute may carry.
pub struct OpenApiAttributes {
    /// The tag the operation is grouped under.
    pub tag: Option<String>,
    /// An explicit operation identifier, overriding the derived default.
    pub operation_id: Option<String>,
    /// An explicit deprecation mark.
    pub deprecated: Option<bool>,
    /// Leave the handler out of the document entirely.
    pub skip: bool,
    /// Parameter names excluded from the documentation.
    pub ignore: Vec<String>,
}

impl OpenApiAttributes {
    /// No overrides: the handler is documented with its defaults.
    pub fn none() -> (r: Self)
        ensures
            r.tag is None,
            r.operation_id is None,
            r.deprecated is None,
            r.skip == false,
            r.ignore@.len() == 0,
    {
        OpenApiAttributes {
            tag: None,
            operation_id: None,
            deprecated: None,
            skip: false,
            ignore: Vec::new(),
        }
    }
}

/// A path segment in the document's path-key form: placeholders in braces.
pub open spec fn openapi_seg_render(g: SegModel) -> Seq<char> {
    match g {
        SegModel::Literal(s) => s,
        SegModel::Single(n) => seq!['{'] + n + seq!['}'],
        SegModel::Multi(n) => seq!['{'] + n + seq!['}'],
    }
}

/// A template path in the document's path-key form.
pub open spec fn openapi_path_of(segs: Seq<SegModel>) -> Seq<char> {
    seq!['/'] + join_with(segs.map_values(|g: SegModel| openapi_seg_render(g)), '/')
}

/// Renders a route's path as a document path key, per `openapi_path_of`:
/// `<name>` and `<name..>` placeholders become `{name}`.
pub fn render_openapi_path(route: &Route) -> (r: String)
    ensures
        r@ == openapi_path_of(route.origin@.path_segments),
{
    let segs = &route.origin.path_segments;
    let mut rendered: Vec<Vec<char>> = Vec::new();
    let mut i: usize = 0;
    while i < segs.len()
        invariant
            i <= segs@.len(),
            rendered@.len() == i,
            forall|k: int| 0 <= k < i ==> (#[trigger] rendered@[k])@ == openapi_seg_render(
                segs.deep_view()[k],
            ),
        decreases segs.len() - i,
    {
        let mut piece: Vec<char> = Vec::new();
        match &segs[i] {
            crate::route::Segment::Literal(t) => {
                piece = str_chars(t.as_str());
            },
            crate::route::Segment::Single(n) => {
                piece.push('{');
                crate::text::append_chars(&mut piece, &str_chars(n.as_str()));
                piece.push('}');
            },
            crate::route::Segment::Multi(n) => {
                piece.push('{');
                crate::text::append_chars(&mut piece, &str_chars(n.as_str()));
                piece.push('}');
            },
        }
        proof {
            assert(segs.deep_view()[i as int] == segs@[i as int]@);
            assert(piece@ =~= openapi_seg_render(segs.deep_view()[i as int]));
        }
        rendered.push(piece);
        i = i + 1;
    }
    proof {
        assert forall|k: int| 0 <= k < rendered@.len() implies rendered.deep_view()[k]
            == segs.deep_view().map_values(|g: SegModel| openapi_seg_render(g))[k] by {
            assert(rendered.deep_view()[k] == rendered@[k].deep_view());
            assert(rendered@[k].deep_view() =~= rendered@[k]@);
        }
        assert(rendered.deep_view() =~~= segs.deep_view().map_values(
            |g: SegModel| openapi_seg_render(g),
        ));
    }
    let joined = crate::text::join_vec(&rendered, '/');
    let mut out: Vec<char> = Vec::new();
    out.push('/');
    crate::text::append_chars(&mut out, &joined);
    proof {
        assert(out@ =~= openapi_path_of(route.origin@.path_segments));
    }
    chars_to_string(&out)
}

/// The parameters that stay documented: those whose names are not ignored.
pub open spec fn kept_params(
    ps: Seq<ParameterModel>,
    ignored: Seq<Seq<char>>,
) -> Seq<ParameterModel>
    decreases ps.len(),
{
    if ps.len() == 0 {
        Seq::empty()
    } else {
        let rest = kept_params(ps.skip(1), ignored);
        if ignored.contains(ps[0].name) {
            rest
        } else {
            seq![ps[0]] + rest
        }
    }
}

proof fn lemma_kept_params_push(ps: Seq<ParameterModel>, ignored: Seq<Seq<char>>, x: ParameterModel)
    ensures
        kept_params(ps.push(x), ignored) == kept_params(ps, ignored) + if ignored.contains(
            x.name,
        ) {
            Seq::<ParameterModel>::empty()
        } else {
            seq![x]
        },
    decreases ps.len(),
{
    let tail = if ignored.contains(x.name) {
        Seq::<ParameterModel>::empty()
    } else {
        seq![x]
    };
    if ps.len() == 0 {
        assert(ps.push(x)[0] == x);
        assert(ps.push(x).skip(1) =~= Seq::<ParameterModel>::empty());
        assert(kept_params(ps.push(x).skip(1), ignored) =~= Seq::<ParameterModel>::empty());
        assert(kept_params(ps.push(x), ignored) =~= kept_params(ps, ignored) + tail);
    } else {
        lemma_kept_params_push(ps.skip(1), ignored, x);
        assert(ps.push(x).skip(1) =~= ps.skip(1).push(x));
        assert(ps.push(x)[0] == ps[0]);
        if !ignored.contains(ps[0].name) {
            assert(seq![ps[0]] + (kept_params(ps.skip(1), ignored) + tail) =~= (seq![ps[0]]
                + kept_params(ps.skip(1), ignored)) + tail);
        }
    }
}

fn name_is_ignored(ignore: &Vec<String>, name: &str) -> (r: bool)
    ensures
        r == ignore.deep_view().contains(name@),
{
    let mut i: usize = 0;
    while i < ignore.len()
        invariant
            i <= ignore@.len(),
            forall|k: int| 0 <= k < i ==> (#[trigger] ignore.deep_view()[k]) != name@,
        decreases ignore.len() - i,
    {
        if crate::text::str_eq(ignore[i].as_str(), name) {
            proof {
                assert(ignore.deep_view()[i as int] == name@);
            }
            return true;
        }
        proof {
            assert(ignore.deep_view()[i as int] == ignore@[i as int]@);
        }
        i = i + 1;
    }
    proof {
        if ignore.deep_view().contains(name@) {
            let k = choose|k: int|
                0 <= k < ignore.deep_view().len() && (#[trigger] ignore.deep_view()[k]) == name@;
            assert(ignore.deep_view()[k] != name@);
        }
    }
    false
}

/// The operation a handler's pieces combine into.
pub open spec fn built_operation(
    title: Option<Seq<char>>,
    description: Option<Seq<char>>,
    tag: Option<Seq<char>>,
    operation_id: Option<Seq<char>>,
    deprecated: Option<bool>,
    ignore: Seq<Seq<char>>,
    parameters: Seq<ParameterModel>,
    request_body: Option<crate::openapi3::RequestBodyModel>,
    responses: crate::openapi3::ResponsesModel,
    default_operation_id: Seq<char>,
) -> OperationModel {
    OperationModel {
        tags: match tag {
            Some(t) => seq![t],
            None => Seq::empty(),
        },
        summary: title,
        description: description,
        operation_id: match operation_id {
            Some(id) => Some(id),
            None => Some(default_operation_id),
        },
        parameters: kept_params(parameters, ignore),
        request_body: request_body,
        responses: responses,
        deprecated: match deprecated {
            Some(d) => d,
            None => false,
        },
        security: Seq::empty(),
    }
}

/// Combines one handler's parsed route, doc comment, attribute overrides
/// and capability outputs into one operation and registers it.  A handler
/// marked `skip` still routes normally but leaves no entry in the document:
/// the generator is unchanged.
pub fn synthesize_operation(
    g: &mut OpenApiGenerator,
    route: &Route,
    title: Option<String>,
    description: Option<String>,
    attrs: &OpenApiAttributes,
    parameters: Vec<Parameter>,
    request_body: Option<RequestBody>,
    responses: Responses,
    default_operation_id: String,
) -> (r: Result<(), DuplicateOperationError>)
    requires
        old(g).wf(),
    ensures
        final(g).wf(),
        final(g).schema_cache() == old(g).schema_cache(),
        final(g).security() == old(g).security(),
        attrs.skip ==> r is Ok && final(g).operations() == old(g).operations(),
        !attrs.skip ==> ({
            let path = openapi_path_of(route.origin@.path_segments);
            let op = built_operation(
                title.deep_view(),
                description.deep_view(),
                attrs.tag.deep_view(),
                attrs.operation_id.deep_view(),
                attrs.deprecated.deep_view(),
                attrs.ignore.deep_view(),
                parameters.deep_view(),
                request_body.deep_view(),
                responses.deep_view(),
                default_operation_id@,
            );
            let m = old(g).operations().as_map();
            let existing = if m.contains_key(path) {
                m[path]
            } else {
                crate::gen::empty_item()
            };
            if crate::gen::slot_of(existing, route.method) is Some {
                r is Err && final(g).operations()@ == old(g).operations()@
            } else {
                r is Ok && final(g).operations().as_map() == m.insert(
                    path,
                    crate::gen::set_slot(existing, route.method, op),
                )
            }
        }),
{
    if attrs.skip {
        return Ok(());
    }
    let path = render_openapi_path(route);
    let mut kept: Vec<Parameter> = Vec::new();
    let mut i: usize = 0;
    while i < parameters.len()
        invariant
            i <= parameters@.len(),
            kept.deep_view() == kept_params(
                parameters.deep_view().take(i as int),
                attrs.ignore.deep_view(),
            ),
        decreases parameters.len() - i,
    {
        proof {
            lemma_kept_params_push(
                parameters.deep_view().take(i as int),
                attrs.ignore.deep_view(),
                parameters.deep_view()[i as int],
            );
            assert(parameters.deep_view().take(i as int).push(parameters.deep_view()[i as int])
                =~~= parameters.deep_view().take(i + 1 as int));
            assert(parameters.deep_view()[i as int] == parameters@[i as int].deep_view());
        }
        if !name_is_ignored(&attrs.ignore, parameters[i].name.as_str()) {
            kept.push(parameters[i].eq_clone());
        }
        proof {
            assert(kept.deep_view() =~~= kept_params(
                parameters.deep_view().take(i + 1 as int),
                attrs.ignore.deep_view(),
            ));
        }
        i = i + 1;
    }
    proof {
        assert(parameters.deep_view().take(parameters@.len() as int) =~~= parameters.deep_view());
    }
    let tags = match &attrs.tag {
        Some(t) => {
            let mut v: Vec<String> = Vec::new();
            v.push(t.eq_clone());
            v
        },
        None => Vec::new(),
    };
    let operation_id = match &attrs.operation_id {
        Some(id) => Some(id.eq_clone()),
        None => Some(default_operation_id),
    };
    let deprecated = match attrs.deprecated {
        Some(d) => d,
        None => false,
    };
    let op = Operation {
        tags,
        summary: title,
        description,
        operation_id,
        parameters: kept,
        request_body,
        responses,
        deprecated,
        security: Vec::new(),
    };
    proof {
        assert(op.deep_view() =~~= built_operation(
            title.deep_view(),
            description.deep_view(),
            attrs.tag.deep_view(),
            attrs.operation_id.deep_view(),
            attrs.deprecated.deep_view(),
            attrs.ignore.deep_view(),
            parameters.deep_view(),
            request_body.deep_view(),
            responses.deep_view(),
            default_operation_id@,
        ));
    }
    g.add_operation(OperationInfo { path, method: route.method, operation: op })
}

/// The default operation identifier of a handler: its module path idents
/// joined with underscores.
pub fn operation_id(idents: &Vec<String>) -> (r: String)
    ensures
        r@ == join_with(idents.deep_view(), '_'),
{
    let mut parts: Vec<Vec<char>> = Vec::new();
    let mut i: usize = 0;
    while i < idents.len()
        invariant
            i <= idents@.len(),
            parts@.len() == i,
            forall|k: int| 0 <= k < i ==> parts.deep_view()[k] == idents.deep_view()[k],
        decreases idents.len() - i,
    {
        parts.push(str_chars(idents[i].as_str()));
        proof {
            assert forall|k: int| 0 <= k < i + 1 implies parts.deep_view()[k]
                == idents.deep_view()[k] by {
                assert(parts.deep_view()[k] == parts@[k].deep_view());
                if k == i {
                    assert(parts@[k].deep_view() =~= idents@[k]@);
                }
            }
        }
        i = i + 1;
    }
    proof {
        assert(parts.deep_view() =~~= idents.deep_view());
    }
    chars_to_string(&crate::text::join_vec(&parts, '_'))
}

/// The name of the generated helper that registers a handler's operation.
pub fn add_operation_fn_name(ident: &str) -> (r: String)
    ensures
        r@ == "okapi_add_operation_for_"@ + ident@,
{
    let prefix = String::from_str("okapi_add_operation_for_");
    prefix.concat(ident)
}

/// The default document info derived from package metadata: the package
/// name and version, the description when one is set, and a contact
/// pointing at the homepage when one is set, else at the repository when
/// one is set.
pub fn package_info(
    name: &str,
    version: &str,
    description: &str,
    repository: &str,
    homepage: &str,
) -> (r: Info)
    ensures
        r.title@ == name@,
        r.version@ == version@,
        description@.len() == 0 ==> r.description is None,
        description@.len() > 0 ==> r.description.deep_view() == Some(description@),
        homepage@.len() > 0 ==> r.contact.deep_view() == Some(
            crate::openapi3::ContactModel {
                name: Some("Homepage"@),
                url: Some(homepage@),
                email: None,
            },
        ),
        homepage@.len() == 0 && repository@.len() > 0 ==> r.contact.deep_view() == Some(
            crate::openapi3::ContactModel {
                name: Some("Repository"@),
                url: Some(repository@),
                email: None,
            },
        ),
        homepage@.len() == 0 && repository@.len() == 0 ==> r.contact is None,
{
    let desc = if description.unicode_len() > 0 {
        Some(String::from_str(description))
    } else {
        None
    };
    let mut contact: Option<Contact> = None;
    if repository.unicode_len() > 0 {
        contact = Some(
            Contact {
                name: Some(String::from_str("Repository")),
                url: Some(String::from_str(repository)),
                email: None,
            },
        );
    }
    if homepage.unicode_len() > 0 {
        contact = Some(
            Contact {
                name: Some(String::from_str("Homepage")),
                url: Some(String::from_str(homepage)),
                email: None,
            },
        );
    }
    let r = Info {
        title: String::from_str(name),
        version: String::from_str(version),
        description: desc,
        contact,
    };
    proof {
        if homepage@.len() > 0 {
            assert(r.contact.deep_view() =~~= Some(
                crate::openapi3::ContactModel {
                    name: Some("Homepage"@),
                    url: Some(homepage@),
                    email: None,
                },
            ));
        } else if repository@.len() > 0 {
            assert(r.contact.deep_view() =~~= Some(
                crate::openapi3::ContactModel {
                    name: Some("Repository"@),
                    url: Some(repository@),
                    email: None,
                },
            ));
        }
    }
    r
}

} // verus!
