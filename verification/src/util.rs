//! Small transformations on response sets.

use vstd::prelude::*;

use crate::openapi3::{
    lemma_assoc_map_contains, EqClone, MediaTypeModel, MediaTypeObject, Response, ResponseModel,
    Responses, StrMap,
};
use crate::OpenApiError;

verus! {

/// A response's content retargeted to one media type: the first media-type
/// object is kept under the new key, an empty content gains an empty one.
pub open spec fn retargeted_content(
    c: Seq<(Seq<char>, MediaTypeModel)>,
    ct: Seq<char>,
) -> Seq<(Seq<char>, MediaTypeModel)> {
    seq![
        (
            ct,
            if c.len() > 0 {
                c[0].1
            } else {
                MediaTypeModel { schema: None }
            },
        ),
    ]
}

/// Changes every response of the set to carry the given content type,
/// keeping each response's first media-type object.
pub fn set_content_type(r: &mut Responses, content_type: &str) -> (res: Result<(), OpenApiError>)
    requires
        old(r).wf(),
    ensures
        res is Ok,
        final(r).wf(),
        final(r).responses@.len() == old(r).responses@.len(),
        forall|i: int|
            0 <= i < old(r).responses@.len() ==> (#[trigger] final(r).responses@[i]).0 == old(
                r,
            ).responses@[i].0 && final(r).responses@[i].1 == (ResponseModel {
                description: old(r).responses@[i].1.description,
                content: retargeted_content(old(r).responses@[i].1.content, content_type@),
            }),
{
    let entries = r.responses.entries_ref();
    let mut out: StrMap<Response> = StrMap::new();
    let mut i: usize = 0;
    while i < entries.len()
        invariant
            i <= entries@.len(),
            entries@.len() == old(r).responses@.len(),
            forall|k: int|
                0 <= k < old(r).responses@.len() ==> (#[trigger] entries@[k]).0@ == old(
                    r,
                ).responses@[k].0 && entries@[k].1.deep_view() == old(r).responses@[k].1,
            crate::openapi3::assoc_unique(old(r).responses@),
            out.wf(),
            out@.len() == i,
            forall|k: int|
                0 <= k < i ==> (#[trigger] out@[k]).0 == old(r).responses@[k].0 && out@[k].1
                    == (ResponseModel {
                    description: old(r).responses@[k].1.description,
                    content: retargeted_content(old(r).responses@[k].1.content, content_type@),
                }),
        decreases entries.len() - i,
    {
        let (status, response) = &entries[i];
        let first = if response.content.len() > 0 {
            let inner = response.content.entries_ref();
            inner[0].1.eq_clone()
        } else {
            MediaTypeObject { schema: None }
        };
        let mut content: StrMap<MediaTypeObject> = StrMap::new();
        proof {
            lemma_assoc_map_contains(content@, content_type@);
        }
        content.insert_keep(String::from_str(content_type), first);
        let new_response = Response { description: response.description.eq_clone(), content };
        proof {
            assert(new_response.deep_view() =~~= (ResponseModel {
                description: old(r).responses@[i as int].1.description,
                content: retargeted_content(
                    old(r).responses@[i as int].1.content,
                    content_type@,
                ),
            }));
            assert forall|j: int| 0 <= j < i implies (#[trigger] out@[j]).0 != status@ by {
                assert(old(r).responses@[j].0 != old(r).responses@[i as int].0);
            }
            lemma_assoc_map_contains(out@, status@);
            assert(!crate::openapi3::assoc_map(out@).contains_key(status@));
        }
        out.insert_keep(status.eq_clone(), new_response);
        i = i + 1;
    }
    r.responses = out;
    Ok(())
}

/// Collapses the response set to a single `default` entry, keeping the
/// first response's body.
pub fn change_all_responses_to_default(r: &mut Responses)
    requires
        old(r).wf(),
    ensures
        final(r).wf(),
        final(r).responses@.len() == 1,
        final(r).responses@[0].0 == "default"@,
        final(r).responses@[0].1 == if old(r).responses@.len() > 0 {
            old(r).responses@[0].1
        } else {
            (ResponseModel { description: Seq::empty(), content: Seq::empty() })
        },
{
    let first = {
        let entries = r.responses.entries_ref();
        if entries.len() > 0 {
            entries[0].1.eq_clone()
        } else {
            Response::empty()
        }
    };
    let mut out: StrMap<Response> = StrMap::new();
    proof {
        lemma_assoc_map_contains(out@, "default"@);
    }
    out.insert_keep(String::from_str("default"), first);
    r.responses = out;
    proof {
        if old(r).responses@.len() == 0 {
            assert(r.responses@[0].1 =~~= (ResponseModel {
                description: Seq::empty(),
                content: Seq::empty(),
            }));
        }
    }
}

} // verus!
