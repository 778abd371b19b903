//! The document-merge engine: combines a fragment document into a base
//! document under a path prefix, with deterministic per-field rules — the
//! base wins every conflict, fragment paths are rewritten under the prefix,
//! and per-path collisions merge at method granularity.

use vstd::prelude::*;

use crate::openapi3::{
    assoc_map, assoc_unique, assoc_update, lemma_assoc_map_contains, ComponentsModel, EqClone,
    OpenApi, PathItem, PathItemModel, StrMap, Tag, TagModel,
};
use crate::text::{chars_to_string, str_chars, subvec};

verus! {

/// A merge conflict that the deterministic rules cannot resolve; the current
/// rules resolve every conflict, so it is never produced.
#[derive(Debug)]
pub enum MergeError {
    Incompatible(String),
}

/// The first string when it is non-empty, else the second.
pub fn merge_string<'a>(s1: &'a str, s2: &'a str) -> (r: &'a str)
    ensures
        r@ == if s1@.len() > 0 {
            s1@
        } else {
            s2@
        },
{
    if s1.unicode_len() > 0 {
        s1
    } else {
        s2
    }
}

/// The merged value of two optional strings: the base value stays when it is
/// present and non-empty, else the fragment's value is taken.
pub open spec fn merged_opt_string(a: Option<Seq<char>>, b: Option<Seq<char>>) -> Option<
    Seq<char>,
> {
    match b {
        None => a,
        Some(t) => match a {
            Some(s) => if s.len() > 0 {
                Some(s)
            } else {
                Some(t)
            },
            None => Some(t),
        },
    }
}

/// Keeps the base string when it is present and non-empty, else takes the
/// fragment's.
pub fn merge_opt_string(opt1: &mut Option<String>, opt2: &Option<String>)
    ensures
        final(opt1).deep_view() == merged_opt_string(old(opt1).deep_view(), opt2.deep_view()),
{
    match opt2 {
        None => {},
        Some(t) => {
            let take = match opt1 {
                Some(s) => s.unicode_len() == 0,
                None => true,
            };
            if take {
                *opt1 = Some(t.clone());
            }
        },
    }
    proof {
        assert(final(opt1).deep_view() =~~= merged_opt_string(
            old(opt1).deep_view(),
            opt2.deep_view(),
        ));
    }
}

/// Keeps the base value when present, else takes the fragment's.
pub fn merge_option<T: EqClone>(opt1: &mut Option<T>, opt2: &Option<T>)
    ensures
        final(opt1).deep_view() == match old(opt1) {
            Some(_) => old(opt1).deep_view(),
            None => opt2.deep_view(),
        },
{
    let take = match opt1 {
        Some(_) => false,
        None => true,
    };
    if take {
        *opt1 = opt2.eq_clone();
    }
}

/// Appends the fragment's items after the base's, with no deduplication.
pub fn merge_vec<T: EqClone>(v1: &mut Vec<T>, v2: &Vec<T>)
    ensures
        final(v1).deep_view() == old(v1).deep_view() + v2.deep_view(),
{
    let mut i: usize = 0;
    while i < v2.len()
        invariant
            i <= v2@.len(),
            v1@.len() == old(v1)@.len() + i,
            forall|k: int|
                0 <= k < v1@.len() ==> v1.deep_view()[k] == (old(v1).deep_view()
                    + v2.deep_view())[k],
        decreases v2.len() - i,
    {
        let ghost d0 = v1.deep_view();
        v1.push(v2[i].eq_clone());
        proof {
            assert forall|k: int| 0 <= k < v1@.len() implies v1.deep_view()[k] == (old(
                v1,
            ).deep_view() + v2.deep_view())[k] by {
                assert(v1.deep_view()[k] == v1@[k].deep_view());
                if k == v1@.len() - 1 {
                    assert(v2.deep_view()[i as int] == v2@[i as int].deep_view());
                } else {
                    assert(d0[k] == (old(v1).deep_view() + v2.deep_view())[k]);
                }
            }
        }
        i = i + 1;
    }
    proof {
        assert(v1.deep_view() =~~= old(v1).deep_view() + v2.deep_view());
    }
}

/// The union of two association sequences: the base keeps all its entries,
/// and the fragment's entries under new keys are appended in order.
pub open spec fn merge_assoc<Vv>(
    a: Seq<(Seq<char>, Vv)>,
    b: Seq<(Seq<char>, Vv)>,
) -> Seq<(Seq<char>, Vv)>
    decreases b.len(),
{
    if b.len() == 0 {
        a
    } else {
        let a2 = if assoc_map(a).contains_key(b[0].0) {
            a
        } else {
            a.push(b[0])
        };
        merge_assoc(a2, b.skip(1))
    }
}

pub proof fn lemma_merge_assoc_snoc<Vv>(
    a: Seq<(Seq<char>, Vv)>,
    b: Seq<(Seq<char>, Vv)>,
    x: (Seq<char>, Vv),
)
    ensures
        merge_assoc(a, b.push(x)) == ({
            let m = merge_assoc(a, b);
            if assoc_map(m).contains_key(x.0) {
                m
            } else {
                m.push(x)
            }
        }),
    decreases b.len(),
{
    if b.len() == 0 {
        assert(b.push(x)[0] == x);
        assert(b.push(x).skip(1) =~= Seq::<(Seq<char>, Vv)>::empty());
        let a2 = if assoc_map(a).contains_key(x.0) {
            a
        } else {
            a.push(x)
        };
        assert(merge_assoc(a2, b.push(x).skip(1)) == a2);
    } else {
        assert(b.push(x)[0] == b[0]);
        assert(b.push(x).skip(1) =~= b.skip(1).push(x));
        let a2 = if assoc_map(a).contains_key(b[0].0) {
            a
        } else {
            a.push(b[0])
        };
        lemma_merge_assoc_snoc(a2, b.skip(1), x);
    }
}

/// Unions the fragment map into the base map; the base wins on every key
/// collision, and new keys keep the fragment's order.
pub fn merge_map<V: EqClone>(m1: &mut StrMap<V>, m2: &StrMap<V>, _context: &str) -> (r: Result<
    (),
    MergeError,
>)
    requires
        old(m1).wf(),
    ensures
        r is Ok,
        final(m1).wf(),
        final(m1)@ == merge_assoc(old(m1)@, m2@),
{
    let entries = m2.entries_ref();
    let mut i: usize = 0;
    while i < entries.len()
        invariant
            i <= entries@.len(),
            entries@.len() == m2@.len(),
            forall|k: int|
                0 <= k < m2@.len() ==> (#[trigger] entries@[k]).0@ == m2@[k].0
                    && entries@[k].1.deep_view() == m2@[k].1,
            m1.wf(),
            m1@ == merge_assoc(old(m1)@, m2@.take(i as int)),
        decreases entries.len() - i,
    {
        proof {
            lemma_merge_assoc_snoc(old(m1)@, m2@.take(i as int), m2@[i as int]);
            assert(m2@.take(i as int).push(m2@[i as int]) =~~= m2@.take(i + 1 as int));
        }
        let (k, v) = &entries[i];
        m1.insert_keep(k.eq_clone(), v.eq_clone());
        proof {
            assert(m1@ =~~= merge_assoc(old(m1)@, m2@.take(i + 1 as int)));
        }
        i = i + 1;
    }
    proof {
        assert(m2@.take(m2@.len() as int) =~~= m2@);
    }
    Ok(())
}

/// Whether a tag of this name is present.
pub open spec fn has_tag(ts: Seq<TagModel>, name: Seq<char>) -> bool {
    exists|i: int| 0 <= i < ts.len() && (#[trigger] ts[i]).name == name
}

/// The merged tag lists: tags unique to the fragment are appended; a name
/// present in both keeps the base's entry whole.
pub open spec fn merge_tags_spec(a: Seq<TagModel>, b: Seq<TagModel>) -> Seq<TagModel>
    decreases b.len(),
{
    if b.len() == 0 {
        a
    } else {
        let a2 = if has_tag(a, b[0].name) {
            a
        } else {
            a.push(b[0])
        };
        merge_tags_spec(a2, b.skip(1))
    }
}

pub proof fn lemma_merge_tags_snoc(a: Seq<TagModel>, b: Seq<TagModel>, x: TagModel)
    ensures
        merge_tags_spec(a, b.push(x)) == ({
            let m = merge_tags_spec(a, b);
            if has_tag(m, x.name) {
                m
            } else {
                m.push(x)
            }
        }),
    decreases b.len(),
{
    if b.len() == 0 {
        assert(b.push(x)[0] == x);
        assert(b.push(x).skip(1) =~= Seq::<TagModel>::empty());
        let a2 = if has_tag(a, x.name) {
            a
        } else {
            a.push(x)
        };
        assert(merge_tags_spec(a2, b.push(x).skip(1)) == a2);
    } else {
        assert(b.push(x)[0] == b[0]);
        assert(b.push(x).skip(1) =~= b.skip(1).push(x));
        let a2 = if has_tag(a, b[0].name) {
            a
        } else {
            a.push(b[0])
        };
        lemma_merge_tags_snoc(a2, b.skip(1), x);
    }
}

fn tags_contain_name(ts: &Vec<Tag>, name: &str) -> (r: bool)
    ensures
        r == has_tag(ts.deep_view(), name@),
{
    let mut i: usize = 0;
    while i < ts.len()
        invariant
            i <= ts@.len(),
            forall|k: int| 0 <= k < i ==> (#[trigger] ts.deep_view()[k]).name != name@,
        decreases ts.len() - i,
    {
        if crate::text::str_eq(ts[i].name.as_str(), name) {
            proof {
                assert(ts.deep_view()[i as int].name == name@);
            }
            return true;
        }
        proof {
            assert(ts.deep_view()[i as int] == ts@[i as int].deep_view());
        }
        i = i + 1;
    }
    proof {
        if has_tag(ts.deep_view(), name@) {
            let k = choose|k: int|
                0 <= k < ts.deep_view().len() && (#[trigger] ts.deep_view()[k]).name == name@;
            assert(ts.deep_view()[k].name != name@);
        }
    }
    false
}

/// Merges the fragment's tags into the base's by name, per
/// `merge_tags_spec`, and returns a copy of the merged list.
pub fn merge_tags(s1: &mut Vec<Tag>, s2: &Vec<Tag>) -> (r: Result<Vec<Tag>, MergeError>)
    ensures
        final(s1).deep_view() == merge_tags_spec(old(s1).deep_view(), s2.deep_view()),
        match r {
            Ok(out) => out.deep_view() == final(s1).deep_view(),
            Err(_) => false,
        },
{
    let mut i: usize = 0;
    while i < s2.len()
        invariant
            i <= s2@.len(),
            s1.deep_view() == merge_tags_spec(old(s1).deep_view(), s2.deep_view().take(i as int)),
        decreases s2.len() - i,
    {
        proof {
            lemma_merge_tags_snoc(
                old(s1).deep_view(),
                s2.deep_view().take(i as int),
                s2.deep_view()[i as int],
            );
            assert(s2.deep_view().take(i as int).push(s2.deep_view()[i as int])
                =~~= s2.deep_view().take(i + 1 as int));
            assert(s2.deep_view()[i as int] == s2@[i as int].deep_view());
        }
        if !tags_contain_name(s1, s2[i].name.as_str()) {
            s1.push(s2[i].eq_clone());
            proof {
                assert(s1.deep_view() =~~= merge_tags_spec(
                    old(s1).deep_view(),
                    s2.deep_view().take(i + 1 as int),
                ));
            }
        }
        i = i + 1;
    }
    proof {
        assert(s2.deep_view().take(s2@.len() as int) =~~= s2.deep_view());
    }
    Ok(s1.eq_clone())
}

/// `s` without its trailing slashes.
pub open spec fn trim_slash_end(s: Seq<char>) -> Seq<char>
    decreases s.len(),
{
    if s.len() > 0 && s[s.len() - 1] == '/' {
        trim_slash_end(s.take(s.len() - 1))
    } else {
        s
    }
}

/// `s` without its leading slashes.
pub open spec fn trim_slash_start(s: Seq<char>) -> Seq<char>
    decreases s.len(),
{
    if s.len() > 0 && s[0] == '/' {
        trim_slash_start(s.skip(1))
    } else {
        s
    }
}

/// A fragment path key rewritten under the mount prefix, with exactly one
/// slash at the seam.
pub open spec fn prefixed_key(prefix: Seq<char>, key: Seq<char>) -> Seq<char> {
    trim_slash_end(prefix) + seq!['/'] + trim_slash_start(key)
}

proof fn lemma_trim_slash_end_take(s: Seq<char>, b: int)
    requires
        0 <= b <= s.len(),
        forall|k: int| b <= k < s.len() ==> s[k] == '/',
    ensures
        trim_slash_end(s) == trim_slash_end(s.take(b)),
    decreases s.len() - b,
{
    if b < s.len() {
        lemma_trim_slash_end_take(s.take(s.len() - 1), b);
        assert(s.take(s.len() - 1).take(b) =~= s.take(b));
        assert(trim_slash_end(s) == trim_slash_end(s.take(s.len() - 1)));
    } else {
        assert(s.take(b) =~= s);
    }
}

proof fn lemma_trim_slash_start_skip(s: Seq<char>, a: int)
    requires
        0 <= a <= s.len(),
        forall|k: int| 0 <= k < a ==> s[k] == '/',
    ensures
        trim_slash_start(s) == trim_slash_start(s.skip(a)),
    decreases a,
{
    if a > 0 {
        lemma_trim_slash_start_skip(s.skip(1), a - 1);
        assert(s.skip(1).skip(a - 1) =~= s.skip(a));
    } else {
        assert(s.skip(0) =~= s);
    }
}

/// Builds the rewritten path key, per `prefixed_key`.
pub fn make_prefixed_key(prefix: &str, key: &str) -> (r: String)
    ensures
        r@ == prefixed_key(prefix@, key@),
{
    let pv = str_chars(prefix);
    let kv = str_chars(key);
    let mut b: usize = pv.len();
    while b > 0 && pv[b - 1] == '/'
        invariant
            b <= pv@.len(),
            forall|k: int| b <= k < pv@.len() ==> pv@[k] == '/',
        decreases b,
    {
        b = b - 1;
    }
    let mut a: usize = 0;
    while a < kv.len() && kv[a] == '/'
        invariant
            a <= kv@.len(),
            forall|k: int| 0 <= k < a ==> kv@[k] == '/',
        decreases kv.len() - a,
    {
        a = a + 1;
    }
    let mut out = subvec(&pv, 0, b);
    proof {
        lemma_trim_slash_end_take(pv@, b as int);
        if b > 0 {
            assert(pv@.take(b as int)[b - 1] == pv@[b - 1]);
        } else {
            assert(pv@.take(0) =~= Seq::<char>::empty());
        }
        assert(out@ == trim_slash_end(prefix@));
    }
    out.push('/');
    let tail = subvec(&kv, a, kv.len());
    proof {
        lemma_trim_slash_start_skip(kv@, a as int);
        assert(tail@ =~= kv@.skip(a as int));
        if a < kv@.len() {
            assert(kv@.skip(a as int)[0] == kv@[a as int]);
        } else {
            assert(kv@.skip(a as int) =~= Seq::<char>::empty());
        }
        assert(tail@ == trim_slash_start(key@));
    }
    crate::text::append_chars(&mut out, &tail);
    proof {
        assert(out@ =~= prefixed_key(prefix@, key@));
    }
    chars_to_string(&out)
}

/// The merge of two path items at method granularity: each method slot keeps
/// the base's operation and takes the fragment's only where the base has
/// none.
pub open spec fn merge_path_item_model(base: PathItemModel, frag: PathItemModel) -> PathItemModel {
    PathItemModel {
        get: if base.get is Some {
            base.get
        } else {
            frag.get
        },
        put: if base.put is Some {
            base.put
        } else {
            frag.put
        },
        post: if base.post is Some {
            base.post
        } else {
            frag.post
        },
        delete: if base.delete is Some {
            base.delete
        } else {
            frag.delete
        },
        options: if base.options is Some {
            base.options
        } else {
            frag.options
        },
        head: if base.head is Some {
            base.head
        } else {
            frag.head
        },
        patch: if base.patch is Some {
            base.patch
        } else {
            frag.patch
        },
        trace: if base.trace is Some {
            base.trace
        } else {
            frag.trace
        },
    }
}

/// Merges two path items at method granularity, per `merge_path_item_model`.
fn merge_path_item(base: &PathItem, frag: &PathItem) -> (r: PathItem)
    ensures
        r.deep_view() == merge_path_item_model(base.deep_view(), frag.deep_view()),
{
    let r = PathItem {
        get: match &base.get {
            Some(op) => Some(op.eq_clone()),
            None => frag.get.eq_clone(),
        },
        put: match &base.put {
            Some(op) => Some(op.eq_clone()),
            None => frag.put.eq_clone(),
        },
        post: match &base.post {
            Some(op) => Some(op.eq_clone()),
            None => frag.post.eq_clone(),
        },
        delete: match &base.delete {
            Some(op) => Some(op.eq_clone()),
            None => frag.delete.eq_clone(),
        },
        options: match &base.options {
            Some(op) => Some(op.eq_clone()),
            None => frag.options.eq_clone(),
        },
        head: match &base.head {
            Some(op) => Some(op.eq_clone()),
            None => frag.head.eq_clone(),
        },
        patch: match &base.patch {
            Some(op) => Some(op.eq_clone()),
            None => frag.patch.eq_clone(),
        },
        trace: match &base.trace {
            Some(op) => Some(op.eq_clone()),
            None => frag.trace.eq_clone(),
        },
    };
    proof {
        assert(r.deep_view() =~~= merge_path_item_model(base.deep_view(), frag.deep_view()));
    }
    r
}

/// The merged path maps: every fragment key is rewritten under the prefix;
/// a rewritten key already present merges at method granularity with the
/// base winning, a new key is appended.
pub open spec fn merge_paths_spec(
    a: Seq<(Seq<char>, PathItemModel)>,
    prefix: Seq<char>,
    b: Seq<(Seq<char>, PathItemModel)>,
) -> Seq<(Seq<char>, PathItemModel)>
    decreases b.len(),
{
    if b.len() == 0 {
        a
    } else {
        let k = prefixed_key(prefix, b[0].0);
        let a2 = if assoc_map(a).contains_key(k) {
            assoc_update(a, k, merge_path_item_model(assoc_map(a)[k], b[0].1))
        } else {
            a.push((k, b[0].1))
        };
        merge_paths_spec(a2, prefix, b.skip(1))
    }
}

pub proof fn lemma_merge_paths_snoc(
    a: Seq<(Seq<char>, PathItemModel)>,
    prefix: Seq<char>,
    b: Seq<(Seq<char>, PathItemModel)>,
    x: (Seq<char>, PathItemModel),
)
    ensures
        merge_paths_spec(a, prefix, b.push(x)) == ({
            let m = merge_paths_spec(a, prefix, b);
            let k = prefixed_key(prefix, x.0);
            if assoc_map(m).contains_key(k) {
                assoc_update(m, k, merge_path_item_model(assoc_map(m)[k], x.1))
            } else {
                m.push((k, x.1))
            }
        }),
    decreases b.len(),
{
    if b.len() == 0 {
        assert(b.push(x)[0] == x);
        assert(b.push(x).skip(1) =~= Seq::<(Seq<char>, PathItemModel)>::empty());
        let k = prefixed_key(prefix, x.0);
        let a2 = if assoc_map(a).contains_key(k) {
            assoc_update(a, k, merge_path_item_model(assoc_map(a)[k], x.1))
        } else {
            a.push((k, x.1))
        };
        assert(merge_paths_spec(a2, prefix, b.push(x).skip(1)) == a2);
    } else {
        assert(b.push(x)[0] == b[0]);
        assert(b.push(x).skip(1) =~= b.skip(1).push(x));
        let k = prefixed_key(prefix, b[0].0);
        let a2 = if assoc_map(a).contains_key(k) {
            assoc_update(a, k, merge_path_item_model(assoc_map(a)[k], b[0].1))
        } else {
            a.push((k, b[0].1))
        };
        lemma_merge_paths_snoc(a2, prefix, b.skip(1), x);
    }
}

/// Merges the fragment's path map into the base's under the prefix, per
/// `merge_paths_spec`.
pub fn merge_paths(
    paths1: &mut StrMap<PathItem>,
    path_prefix: &str,
    paths2: &StrMap<PathItem>,
) -> (r: Result<(), MergeError>)
    requires
        old(paths1).wf(),
    ensures
        r is Ok,
        final(paths1).wf(),
        final(paths1)@ == merge_paths_spec(old(paths1)@, path_prefix@, paths2@),
{
    let entries = paths2.entries_ref();
    let mut i: usize = 0;
    while i < entries.len()
        invariant
            i <= entries@.len(),
            entries@.len() == paths2@.len(),
            forall|k: int|
                0 <= k < paths2@.len() ==> (#[trigger] entries@[k]).0@ == paths2@[k].0
                    && entries@[k].1.deep_view() == paths2@[k].1,
            paths1.wf(),
            paths1@ == merge_paths_spec(old(paths1)@, path_prefix@, paths2@.take(i as int)),
        decreases entries.len() - i,
    {
        proof {
            lemma_merge_paths_snoc(
                old(paths1)@,
                path_prefix@,
                paths2@.take(i as int),
                paths2@[i as int],
            );
            assert(paths2@.take(i as int).push(paths2@[i as int]) =~~= paths2@.take(i + 1 as int));
        }
        let (k, v) = &entries[i];
        let new_key = make_prefixed_key(path_prefix, k.as_str());
        let merged_opt = match paths1.get(new_key.as_str()) {
            Some(existing) => Some(merge_path_item(existing, v)),
            None => None,
        };
        match merged_opt {
            Some(merged) => {
                paths1.set_value(new_key.as_str(), merged);
            },
            None => {
                paths1.insert_keep(new_key, v.eq_clone());
            },
        }
        proof {
            assert(paths1@ =~~= merge_paths_spec(
                old(paths1)@,
                path_prefix@,
                paths2@.take(i + 1 as int),
            ));
        }
        i = i + 1;
    }
    proof {
        assert(paths2@.take(paths2@.len() as int) =~~= paths2@);
    }
    Ok(())
}

/// The merged components: maps union by name with the base winning.
pub open spec fn merged_components_model(
    a: Option<ComponentsModel>,
    b: Option<ComponentsModel>,
) -> Option<ComponentsModel> {
    match (a, b) {
        (None, None) => None,
        (Some(c), None) => Some(c),
        (None, Some(c)) => Some(c),
        (Some(c1), Some(c2)) => Some(
            ComponentsModel {
                schemas: merge_assoc(c1.schemas, c2.schemas),
                security_schemes: merge_assoc(c1.security_schemes, c2.security_schemes),
            },
        ),
    }
}

/// Combines the fragment document into the base document as if the fragment
/// were mounted under the path prefix.  Scalar info fields keep the base's
/// non-empty values, servers concatenate, tags merge by name, paths merge
/// under the rewritten keys with the base winning per method, and security
/// schemes union by name with the base winning.
pub fn merge_specs(s1: &mut OpenApi, path_prefix: &str, s2: &OpenApi) -> (r: Result<
    (),
    MergeError,
>)
    requires
        old(s1).wf(),
        s2.wf(),
    ensures
        r is Ok,
        final(s1).wf(),
        final(s1).openapi@ == if old(s1).openapi@.len() > 0 {
            old(s1).openapi@
        } else {
            s2.openapi@
        },
        final(s1).info.title@ == if old(s1).info.title@.len() > 0 {
            old(s1).info.title@
        } else {
            s2.info.title@
        },
        final(s1).info.version@ == if old(s1).info.version@.len() > 0 {
            old(s1).info.version@
        } else {
            s2.info.version@
        },
        final(s1).info.description.deep_view() == merged_opt_string(
            old(s1).info.description.deep_view(),
            s2.info.description.deep_view(),
        ),
        final(s1).info.contact.deep_view() == match old(s1).info.contact {
            Some(_) => old(s1).info.contact.deep_view(),
            None => s2.info.contact.deep_view(),
        },
        final(s1).servers.deep_view() == old(s1).servers.deep_view() + s2.servers.deep_view(),
        final(s1).tags.deep_view() == merge_tags_spec(
            old(s1).tags.deep_view(),
            s2.tags.deep_view(),
        ),
        final(s1).paths@ == merge_paths_spec(old(s1).paths@, path_prefix@, s2.paths@),
        final(s1).components.deep_view() == merged_components_model(
            old(s1).components.deep_view(),
            s2.components.deep_view(),
        ),
{
    let new_openapi = String::from_str(
        merge_string(s1.openapi.as_str(), s2.openapi.as_str()),
    );
    s1.openapi = new_openapi;
    let new_title = String::from_str(
        merge_string(s1.info.title.as_str(), s2.info.title.as_str()),
    );
    s1.info.title = new_title;
    let new_version = String::from_str(
        merge_string(s1.info.version.as_str(), s2.info.version.as_str()),
    );
    s1.info.version = new_version;
    merge_opt_string(&mut s1.info.description, &s2.info.description);
    merge_option(&mut s1.info.contact, &s2.info.contact);
    merge_vec(&mut s1.servers, &s2.servers);
    let tags_result = merge_tags(&mut s1.tags, &s2.tags);
    match tags_result {
        Ok(_) => {},
        Err(e) => {
            return Err(e);
        },
    }
    let paths_result = merge_paths(&mut s1.paths, path_prefix, &s2.paths);
    match paths_result {
        Ok(()) => {},
        Err(e) => {
            return Err(e);
        },
    }
    let has_mine = match &s1.components {
        Some(_) => true,
        None => false,
    };
    if has_mine {
        match (&mut s1.components, &s2.components) {
            (Some(c1), Some(c2)) => {
                let r1 = merge_map(&mut c1.schemas, &c2.schemas, "schemas");
                match r1 {
                    Ok(()) => {},
                    Err(e) => {
                        return Err(e);
                    },
                }
                let r2 = merge_map(&mut c1.security_schemes, &c2.security_schemes, "securitySchemes");
                match r2 {
                    Ok(()) => {},
                    Err(e) => {
                        return Err(e);
                    },
                }
                proof {
                    assert(s1.components.deep_view() =~~= merged_components_model(
                        old(s1).components.deep_view(),
                        s2.components.deep_view(),
                    ));
                }
            },
            (Some(_), None) => {
                proof {
                    assert(s1.components.deep_view() =~~= merged_components_model(
                        old(s1).components.deep_view(),
                        s2.components.deep_view(),
                    ));
                }
            },
            (None, _) => {},
        }
    } else {
        match &s2.components {
            Some(c2) => {
                s1.components = Some(c2.eq_clone());
                proof {
                    assert(s1.components.deep_view() =~~= merged_components_model(
                        old(s1).components.deep_view(),
                        s2.components.deep_view(),
                    ));
                }
            },
            None => {},
        }
    }
    Ok(())
}

} // verus!

verus! {

/// The fragment entries as they land in the base: keys rewritten under the
/// prefix, values unchanged.
pub open spec fn prefixed_entries(
    prefix: Seq<char>,
    b: Seq<(Seq<char>, PathItemModel)>,
) -> Seq<(Seq<char>, PathItemModel)> {
    Seq::new(b.len(), |i: int| (prefixed_key(prefix, b[i].0), b[i].1))
}

/// Merging a fragment whose rewritten keys are all new appends its entries.
pub proof fn lemma_merge_paths_absent(
    a: Seq<(Seq<char>, PathItemModel)>,
    prefix: Seq<char>,
    b: Seq<(Seq<char>, PathItemModel)>,
)
    requires
        forall|i: int|
            0 <= i < b.len() ==> !assoc_map(a).contains_key(
                prefixed_key(prefix, (#[trigger] b[i]).0),
            ),
        assoc_unique(prefixed_entries(prefix, b)),
    ensures
        merge_paths_spec(a, prefix, b) == a + prefixed_entries(prefix, b),
    decreases b.len(),
{
    if b.len() == 0 {
        assert(a + prefixed_entries(prefix, b) =~= a);
    } else {
        let k = prefixed_key(prefix, b[0].0);
        let a2 = a.push((k, b[0].1));
        assert(!assoc_map(a).contains_key(k));
        assert(merge_paths_spec(a, prefix, b) == merge_paths_spec(a2, prefix, b.skip(1)));
        assert(a2.drop_last() =~= a);
        assert(assoc_map(a2) == assoc_map(a).insert(k, b[0].1));
        assert forall|i: int| 0 <= i < b.skip(1).len() implies !assoc_map(a2).contains_key(
            prefixed_key(prefix, (#[trigger] b.skip(1)[i]).0),
        ) by {
            assert(b.skip(1)[i] == b[i + 1]);
            assert(prefixed_entries(prefix, b)[0].0 == k);
            assert(prefixed_entries(prefix, b)[i + 1].0 == prefixed_key(prefix, b[i + 1].0));
            assert(prefixed_key(prefix, b[i + 1].0) != k);
        }
        assert forall|i: int, j: int|
            0 <= i < j < b.skip(1).len() implies (#[trigger] prefixed_entries(
            prefix,
            b.skip(1),
        )[i]).0 != (#[trigger] prefixed_entries(prefix, b.skip(1))[j]).0 by {
            assert(prefixed_entries(prefix, b)[i + 1].0 == prefixed_entries(
                prefix,
                b.skip(1),
            )[i].0);
            assert(prefixed_entries(prefix, b)[j + 1].0 == prefixed_entries(
                prefix,
                b.skip(1),
            )[j].0);
        }
        lemma_merge_paths_absent(a2, prefix, b.skip(1));
        assert(a2 + prefixed_entries(prefix, b.skip(1)) =~= a + prefixed_entries(prefix, b));
    }
}

/// The map of an appended association sequence: the right side wins.
pub proof fn lemma_assoc_map_append<Vv>(a: Seq<(Seq<char>, Vv)>, b: Seq<(Seq<char>, Vv)>)
    ensures
        assoc_map(a + b) == assoc_map(a).union_prefer_right(assoc_map(b)),
    decreases b.len(),
{
    if b.len() == 0 {
        assert(a + b =~= a);
        assert(assoc_map(a).union_prefer_right(assoc_map(b)) =~= assoc_map(a));
    } else {
        lemma_assoc_map_append(a, b.drop_last());
        assert((a + b).drop_last() =~= a + b.drop_last());
        assert((a + b).last() == b.last());
        assert(assoc_map(a + b) == assoc_map(a + b.drop_last()).insert(b.last().0, b.last().1));
        assert(assoc_map(a).union_prefer_right(assoc_map(b)) =~= assoc_map(a).union_prefer_right(
            assoc_map(b.drop_last()),
        ).insert(b.last().0, b.last().1));
    }
}

/// Merging two fragments under disjoint prefixes is independent of order:
/// the resulting path map is the same either way, and its keys are the
/// base's keys together with each fragment's keys under its own prefix.
pub proof fn lemma_merge_disjoint_prefixes(
    base: Seq<(Seq<char>, PathItemModel)>,
    prefix_a: Seq<char>,
    frag_a: Seq<(Seq<char>, PathItemModel)>,
    prefix_b: Seq<char>,
    frag_b: Seq<(Seq<char>, PathItemModel)>,
)
    requires
        assoc_unique(prefixed_entries(prefix_a, frag_a)),
        assoc_unique(prefixed_entries(prefix_b, frag_b)),
        forall|i: int|
            0 <= i < frag_a.len() ==> !assoc_map(base).contains_key(
                prefixed_key(prefix_a, (#[trigger] frag_a[i]).0),
            ),
        forall|i: int|
            0 <= i < frag_b.len() ==> !assoc_map(base).contains_key(
                prefixed_key(prefix_b, (#[trigger] frag_b[i]).0),
            ),
        forall|i: int, j: int|
            0 <= i < frag_a.len() && 0 <= j < frag_b.len() ==> prefixed_key(
                prefix_a,
                (#[trigger] frag_a[i]).0,
            ) != prefixed_key(prefix_b, (#[trigger] frag_b[j]).0),
    ensures
        ({
            let ab = merge_paths_spec(merge_paths_spec(base, prefix_a, frag_a), prefix_b, frag_b);
            let ba = merge_paths_spec(merge_paths_spec(base, prefix_b, frag_b), prefix_a, frag_a);
            &&& assoc_map(ab) == assoc_map(ba)
            &&& assoc_map(ab).dom() == assoc_map(base).dom() + assoc_map(
                prefixed_entries(prefix_a, frag_a),
            ).dom() + assoc_map(prefixed_entries(prefix_b, frag_b)).dom()
        }),
{
    let pa = prefixed_entries(prefix_a, frag_a);
    let pb = prefixed_entries(prefix_b, frag_b);
    lemma_merge_paths_absent(base, prefix_a, frag_a);
    lemma_merge_paths_absent(base, prefix_b, frag_b);
    lemma_assoc_map_append(base, pa);
    lemma_assoc_map_append(base, pb);
    // After the first merge, the other fragment's keys are still new.
    assert forall|i: int| 0 <= i < frag_b.len() implies !assoc_map(base + pa).contains_key(
        prefixed_key(prefix_b, (#[trigger] frag_b[i]).0),
    ) by {
        let k = prefixed_key(prefix_b, frag_b[i].0);
        lemma_assoc_map_contains(pa, k);
        if assoc_map(pa).contains_key(k) {
            let j = choose|j: int| 0 <= j < pa.len() && (#[trigger] pa[j]).0 == k;
            assert(prefixed_key(prefix_a, frag_a[j].0) == k);
        }
    }
    assert forall|i: int| 0 <= i < frag_a.len() implies !assoc_map(base + pb).contains_key(
        prefixed_key(prefix_a, (#[trigger] frag_a[i]).0),
    ) by {
        let k = prefixed_key(prefix_a, frag_a[i].0);
        lemma_assoc_map_contains(pb, k);
        if assoc_map(pb).contains_key(k) {
            let j = choose|j: int| 0 <= j < pb.len() && (#[trigger] pb[j]).0 == k;
            assert(prefixed_key(prefix_b, frag_b[j].0) == k);
        }
    }
    lemma_merge_paths_absent(base + pa, prefix_b, frag_b);
    lemma_merge_paths_absent(base + pb, prefix_a, frag_a);
    lemma_assoc_map_append(base + pa, pb);
    lemma_assoc_map_append(base + pb, pa);
    let ab = merge_paths_spec(merge_paths_spec(base, prefix_a, frag_a), prefix_b, frag_b);
    let ba = merge_paths_spec(merge_paths_spec(base, prefix_b, frag_b), prefix_a, frag_a);
    assert(ab == (base + pa) + pb);
    assert(ba == (base + pb) + pa);
    assert forall|k: Seq<char>|
        assoc_map(ab).contains_key(k) == assoc_map(ba).contains_key(k) && (assoc_map(
            ab,
        ).contains_key(k) ==> assoc_map(ab)[k] == assoc_map(ba)[k]) by {
        lemma_assoc_map_contains(pa, k);
        lemma_assoc_map_contains(pb, k);
        if assoc_map(pa).contains_key(k) && assoc_map(pb).contains_key(k) {
            let i = choose|i: int| 0 <= i < pa.len() && (#[trigger] pa[i]).0 == k;
            let j = choose|j: int| 0 <= j < pb.len() && (#[trigger] pb[j]).0 == k;
            assert(prefixed_key(prefix_a, frag_a[i].0) != prefixed_key(prefix_b, frag_b[j].0));
            assert(false);
        }
    }
    assert(assoc_map(ab) =~= assoc_map(ba));
    assert forall|k: Seq<char>| #[trigger]
        assoc_map(ab).dom().contains(k) == (assoc_map(base).dom() + assoc_map(pa).dom()
            + assoc_map(pb).dom()).contains(k) by {}
    assert(assoc_map(ab).dom() =~= assoc_map(base).dom() + assoc_map(pa).dom() + assoc_map(
        pb,
    ).dom());
}

/// Merging two fragments that define the same path under the same prefix
/// keeps the first-merged operation of each method: the second fragment's
/// operation for an occupied method slot is dropped, not combined.
pub proof fn lemma_merge_conflict_first_wins(
    base: Seq<(Seq<char>, PathItemModel)>,
    prefix: Seq<char>,
    key: Seq<char>,
    item1: PathItemModel,
    item2: PathItemModel,
)
    requires
        assoc_unique(base),
        !assoc_map(base).contains_key(prefixed_key(prefix, key)),
    ensures
        ({
            let k = prefixed_key(prefix, key);
            let r1 = merge_paths_spec(base, prefix, seq![(key, item1)]);
            let r2 = merge_paths_spec(r1, prefix, seq![(key, item2)]);
            &&& assoc_map(r2).contains_key(k)
            &&& assoc_map(r2)[k] == merge_path_item_model(item1, item2)
            &&& (item1.get is Some ==> assoc_map(r2)[k].get == item1.get)
        }),
{
    let k = prefixed_key(prefix, key);
    let b1 = seq![(key, item1)];
    assert(b1[0] == (key, item1));
    assert(b1.skip(1) =~= Seq::<(Seq<char>, PathItemModel)>::empty());
    let r1 = base.push((k, item1));
    assert(merge_paths_spec(r1, prefix, b1.skip(1)) == r1);
    assert(merge_paths_spec(base, prefix, b1) == r1);
    assert(r1.drop_last() =~= base);
    assert(assoc_map(r1) == assoc_map(base).insert(k, item1));
    let b2 = seq![(key, item2)];
    assert(b2[0] == (key, item2));
    assert(b2.skip(1) =~= Seq::<(Seq<char>, PathItemModel)>::empty());
    assert(assoc_map(r1).contains_key(k));
    assert(assoc_map(r1)[k] == item1);
    let merged = merge_path_item_model(item1, item2);
    let r2 = assoc_update(r1, k, merged);
    assert(merge_paths_spec(r2, prefix, b2.skip(1)) == r2);
    assert(merge_paths_spec(r1, prefix, b2) == r2);
    assert(forall|i: int| 0 <= i < base.len() ==> (#[trigger] base[i]).0 != k) by {
        lemma_assoc_map_contains(base, k);
    }
    assert(assoc_unique(r1));
    assert(r2 =~= r1.update(r1.len() - 1, (k, merged)));
    crate::openapi3::lemma_assoc_map_update(r1, r1.len() - 1, merged);
    assert(assoc_map(r2)[k] == merged);
}

} // verus!

verus! {

/// A mount prefix of one segment: a slash followed by a non-empty,
/// slash-free name.
pub open spec fn segment_prefix(q: Seq<char>) -> bool {
    q.len() >= 2 && q[0] == '/' && forall|k: int| 1 <= k < q.len() ==> q[k] != '/'
}

/// A path key in its canonical form: the root alone, or a slash followed by
/// a non-slash.
pub open spec fn canonical_key(k: Seq<char>) -> bool {
    k.len() >= 1 && k[0] == '/' && (k.len() == 1 || k[1] != '/')
}

proof fn lemma_trim_slash_end_id(q: Seq<char>)
    requires
        segment_prefix(q),
    ensures
        trim_slash_end(q) == q,
{
    assert(q[q.len() - 1] != '/');
}

proof fn lemma_trim_slash_start_canonical(k: Seq<char>)
    requires
        canonical_key(k),
    ensures
        trim_slash_start(k) == k.skip(1),
{
    assert(k[0] == '/');
    assert(trim_slash_start(k) == trim_slash_start(k.skip(1)));
    if k.len() == 1 {
        assert(k.skip(1) =~= Seq::<char>::empty());
    } else {
        assert(k.skip(1)[0] == k[1]);
    }
}

/// Under one segment prefix, distinct canonical keys rewrite to distinct
/// keys.
proof fn lemma_prefixed_injective(q: Seq<char>, k1: Seq<char>, k2: Seq<char>)
    requires
        segment_prefix(q),
        canonical_key(k1),
        canonical_key(k2),
        k1 != k2,
    ensures
        prefixed_key(q, k1) != prefixed_key(q, k2),
{
    lemma_trim_slash_end_id(q);
    lemma_trim_slash_start_canonical(k1);
    lemma_trim_slash_start_canonical(k2);
    if prefixed_key(q, k1) == prefixed_key(q, k2) {
        let s1 = q + seq!['/'] + k1.skip(1);
        let s2 = q + seq!['/'] + k2.skip(1);
        assert(s1 == s2);
        assert(s1.len() == s2.len());
        assert(k1.skip(1).len() == k2.skip(1).len());
        assert forall|i: int| 0 <= i < k1.skip(1).len() implies k1.skip(1)[i] == k2.skip(1)[i] by {
            assert(s1[q.len() + 1 + i] == k1.skip(1)[i]);
            assert(s2[q.len() + 1 + i] == k2.skip(1)[i]);
        }
        assert(k1.skip(1) =~= k2.skip(1));
        assert(k1 =~= seq!['/'] + k1.skip(1));
        assert(k2 =~= seq!['/'] + k2.skip(1));
        assert(false);
    }
}

/// Under two distinct segment prefixes, rewritten keys never collide.
proof fn lemma_prefixed_cross_distinct(
    qa: Seq<char>,
    k1: Seq<char>,
    qb: Seq<char>,
    k2: Seq<char>,
)
    requires
        segment_prefix(qa),
        segment_prefix(qb),
        qa != qb,
        canonical_key(k1),
        canonical_key(k2),
    ensures
        prefixed_key(qa, k1) != prefixed_key(qb, k2),
{
    lemma_trim_slash_end_id(qa);
    lemma_trim_slash_end_id(qb);
    lemma_trim_slash_start_canonical(k1);
    lemma_trim_slash_start_canonical(k2);
    if prefixed_key(qa, k1) == prefixed_key(qb, k2) {
        let s = qa + seq!['/'] + k1.skip(1);
        assert(s == qb + seq!['/'] + k2.skip(1));
        if qa.len() == qb.len() {
            assert forall|i: int| 0 <= i < qa.len() implies qa[i] == qb[i] by {
                assert(s[i] == qa[i]);
                assert((qb + seq!['/'] + k2.skip(1))[i] == qb[i]);
            }
            assert(qa =~= qb);
            assert(false);
        } else if qa.len() < qb.len() {
            assert(s[qa.len() as int] == '/');
            assert((qb + seq!['/'] + k2.skip(1))[qa.len() as int] == qb[qa.len() as int]);
            assert(qb[qa.len() as int] != '/');
            assert(false);
        } else {
            assert(s[qb.len() as int] == qa[qb.len() as int]);
            assert(qa[qb.len() as int] != '/');
            assert((qb + seq!['/'] + k2.skip(1))[qb.len() as int] == '/');
            assert(false);
        }
    }
}

/// Order independence under distinct single-segment prefixes: for two
/// fragments whose path keys are canonical and unique — as every well-formed
/// path map's are — merging them into a base under two distinct one-segment
/// prefixes is independent of order, provided the rewritten keys are new to
/// the base; the resulting key set is the base's together with each
/// fragment's keys under its own prefix.
pub proof fn lemma_merge_disjoint_segment_prefixes(
    base: Seq<(Seq<char>, PathItemModel)>,
    prefix_a: Seq<char>,
    frag_a: Seq<(Seq<char>, PathItemModel)>,
    prefix_b: Seq<char>,
    frag_b: Seq<(Seq<char>, PathItemModel)>,
)
    requires
        segment_prefix(prefix_a),
        segment_prefix(prefix_b),
        prefix_a != prefix_b,
        assoc_unique(frag_a),
        assoc_unique(frag_b),
        forall|i: int| 0 <= i < frag_a.len() ==> canonical_key((#[trigger] frag_a[i]).0),
        forall|i: int| 0 <= i < frag_b.len() ==> canonical_key((#[trigger] frag_b[i]).0),
        forall|i: int|
            0 <= i < frag_a.len() ==> !assoc_map(base).contains_key(
                prefixed_key(prefix_a, (#[trigger] frag_a[i]).0),
            ),
        forall|i: int|
            0 <= i < frag_b.len() ==> !assoc_map(base).contains_key(
                prefixed_key(prefix_b, (#[trigger] frag_b[i]).0),
            ),
    ensures
        ({
            let ab = merge_paths_spec(merge_paths_spec(base, prefix_a, frag_a), prefix_b, frag_b);
            let ba = merge_paths_spec(merge_paths_spec(base, prefix_b, frag_b), prefix_a, frag_a);
            &&& assoc_map(ab) == assoc_map(ba)
            &&& assoc_map(ab).dom() == assoc_map(base).dom() + assoc_map(
                prefixed_entries(prefix_a, frag_a),
            ).dom() + assoc_map(prefixed_entries(prefix_b, frag_b)).dom()
        }),
{
    assert forall|i: int, j: int|
        0 <= i < j < prefixed_entries(prefix_a, frag_a).len() implies (#[trigger] prefixed_entries(
        prefix_a,
        frag_a,
    )[i]).0 != (#[trigger] prefixed_entries(prefix_a, frag_a)[j]).0 by {
        lemma_prefixed_injective(prefix_a, frag_a[i].0, frag_a[j].0);
    }
    assert forall|i: int, j: int|
        0 <= i < j < prefixed_entries(prefix_b, frag_b).len() implies (#[trigger] prefixed_entries(
        prefix_b,
        frag_b,
    )[i]).0 != (#[trigger] prefixed_entries(prefix_b, frag_b)[j]).0 by {
        lemma_prefixed_injective(prefix_b, frag_b[i].0, frag_b[j].0);
    }
    assert forall|i: int, j: int|
        0 <= i < frag_a.len() && 0 <= j < frag_b.len() implies prefixed_key(
        prefix_a,
        (#[trigger] frag_a[i]).0,
    ) != prefixed_key(prefix_b, (#[trigger] frag_b[j]).0) by {
        lemma_prefixed_cross_distinct(prefix_a, frag_a[i].0, prefix_b, frag_b[j].0);
    }
    lemma_merge_disjoint_prefixes(base, prefix_a, frag_a, prefix_b, frag_b);
}

} // verus!
