//! The OpenAPI 3.0 document model: operations, path items, components and
//! the document itself, together with the ordered string-keyed map they are
//! stored in.  Every type has a mathematical view; the contracts of the
//! generator and of the merge engine speak of those views.

use vstd::prelude::*;

use vstd::pervasive::VecAdditionalExecFns;

verus! {

/// A clone whose view provably equals the original's.
pub trait EqClone: DeepView + Sized {
    fn eq_clone(&self) -> (r: Self)
        ensures
            r.deep_view() == self.deep_view(),
    ;
}

impl EqClone for String {
    fn eq_clone(&self) -> (r: Self)
        ensures
            r.deep_view() == self.deep_view(),
    {
        self.clone()
    }
}

impl EqClone for bool {
    fn eq_clone(&self) -> (r: Self)
        ensures
            r.deep_view() == self.deep_view(),
    {
        *self
    }
}

impl EqClone for i32 {
    fn eq_clone(&self) -> (r: Self)
        ensures
            r.deep_view() == self.deep_view(),
    {
        *self
    }
}

impl EqClone for u64 {
    fn eq_clone(&self) -> (r: Self)
        ensures
            r.deep_view() == self.deep_view(),
    {
        *self
    }
}

impl<T: EqClone> EqClone for Option<T> {
    fn eq_clone(&self) -> (r: Self)
        ensures
            r.deep_view() == self.deep_view(),
    {
        let r = match self {
            Some(x) => Some(x.eq_clone()),
            None => None,
        };
        proof {
            assert(r.deep_view() =~~= self.deep_view());
        }
        r
    }
}

impl<T: EqClone> EqClone for Vec<T> {
    fn eq_clone(&self) -> (r: Self)
        ensures
            r.deep_view() == self.deep_view(),
    {
        let mut r: Vec<T> = Vec::new();
        let mut i: usize = 0;
        while i < self.len()
            invariant
                i <= self@.len(),
                r@.len() == i,
                forall|k: int| 0 <= k < i ==> r.deep_view()[k] == self.deep_view()[k],
            decreases self.len() - i,
        {
            r.push(self[i].eq_clone());
            proof {
                assert forall|k: int| 0 <= k < i + 1 implies r.deep_view()[k]
                    == self.deep_view()[k] by {
                    assert(r.deep_view()[k] == r@[k].deep_view());
                    assert(self.deep_view()[k] == self@[k].deep_view());
                }
            }
            i = i + 1;
        }
        proof {
            assert(r.deep_view() =~~= self.deep_view());
        }
        r
    }
}

/// The finite map an association sequence denotes: later entries would win,
/// but a well-formed map never repeats a key.
pub open spec fn assoc_map<Vv>(s: Seq<(Seq<char>, Vv)>) -> Map<Seq<char>, Vv>
    decreases s.len(),
{
    if s.len() == 0 {
        Map::empty()
    } else {
        assoc_map(s.drop_last()).insert(s.last().0, s.last().1)
    }
}

/// No key occurs twice.
pub open spec fn assoc_unique<Vv>(s: Seq<(Seq<char>, Vv)>) -> bool {
    forall|i: int, j: int| 0 <= i < j < s.len() ==> (#[trigger] s[i]).0 != (#[trigger] s[j]).0
}

pub proof fn lemma_assoc_map_contains<Vv>(s: Seq<(Seq<char>, Vv)>, k: Seq<char>)
    ensures
        assoc_map(s).contains_key(k) <==> exists|i: int|
            0 <= i < s.len() && (#[trigger] s[i]).0 == k,
    decreases s.len(),
{
    if s.len() > 0 {
        lemma_assoc_map_contains(s.drop_last(), k);
        if s.last().0 == k {
            assert(s[s.len() - 1].0 == k);
        } else if assoc_map(s).contains_key(k) {
            let i = choose|i: int|
                0 <= i < s.drop_last().len() && (#[trigger] s.drop_last()[i]).0 == k;
            assert(s[i].0 == k);
        } else {
            if exists|i: int| 0 <= i < s.len() && (#[trigger] s[i]).0 == k {
                let i = choose|i: int| 0 <= i < s.len() && (#[trigger] s[i]).0 == k;
                assert(i < s.len() - 1);
                assert(s.drop_last()[i].0 == k);
            }
        }
    }
}

pub proof fn lemma_assoc_map_index<Vv>(s: Seq<(Seq<char>, Vv)>, i: int)
    requires
        0 <= i < s.len(),
        forall|j: int| i < j < s.len() ==> (#[trigger] s[j]).0 != s[i].0,
    ensures
        assoc_map(s).contains_key(s[i].0),
        assoc_map(s)[s[i].0] == s[i].1,
    decreases s.len(),
{
    if i == s.len() - 1 {
        assert(s.last() == s[i]);
    } else {
        assert(forall|j: int| i < j < s.drop_last().len() ==> (#[trigger] s.drop_last()[j]).0
            != s.drop_last()[i].0);
        lemma_assoc_map_index(s.drop_last(), i);
        assert(s.last().0 != s[i].0);
        assert(s.drop_last()[i] == s[i]);
    }
}

/// The association sequence with the value at `k` replaced.
pub open spec fn assoc_update<Vv>(s: Seq<(Seq<char>, Vv)>, k: Seq<char>, v: Vv) -> Seq<
    (Seq<char>, Vv),
> {
    Seq::new(
        s.len(),
        |i: int|
            if s[i].0 == k {
                (k, v)
            } else {
                s[i]
            },
    )
}

/// Replacing one entry's value replaces exactly that key's image.
pub proof fn lemma_assoc_map_update<Vv>(s: Seq<(Seq<char>, Vv)>, i: int, v: Vv)
    requires
        assoc_unique(s),
        0 <= i < s.len(),
    ensures
        assoc_unique(s.update(i, (s[i].0, v))),
        assoc_map(s.update(i, (s[i].0, v))) == assoc_map(s).insert(s[i].0, v),
    decreases s.len(),
{
    let t = s.update(i, (s[i].0, v));
    assert(assoc_unique(t));
    if i == s.len() - 1 {
        assert(t.drop_last() =~= s.drop_last());
        assert(t.last() == (s[i].0, v));
        assert(assoc_map(t) == assoc_map(s.drop_last()).insert(s[i].0, v));
        assert(assoc_map(s) == assoc_map(s.drop_last()).insert(s[i].0, s[i].1));
        assert(assoc_map(s).insert(s[i].0, v) =~= assoc_map(s.drop_last()).insert(s[i].0, v));
    } else {
        assert(t.drop_last() =~= s.drop_last().update(i, (s[i].0, v)));
        assert(s.drop_last()[i] == s[i]);
        lemma_assoc_map_update(s.drop_last(), i, v);
        assert(t.last() == s.last());
        assert(assoc_map(t) == assoc_map(s.drop_last()).insert(s[i].0, v).insert(
            s.last().0,
            s.last().1,
        ));
        assert(s.last().0 != s[i].0);
        assert(assoc_map(s.drop_last()).insert(s[i].0, v).insert(s.last().0, s.last().1)
            =~= assoc_map(s.drop_last()).insert(s.last().0, s.last().1).insert(s[i].0, v));
    }
}

/// An ordered map from strings to values: entries keep insertion order and
/// no key occurs twice.  Its view is the association sequence of key views
/// and value views, in insertion order.
pub struct StrMap<V> {
    entries: Vec<(String, V)>,
}

impl<V: DeepView> View for StrMap<V> {
    type V = Seq<(Seq<char>, V::V)>;

    closed spec fn view(&self) -> Seq<(Seq<char>, V::V)> {
        Seq::new(self.entries@.len(), |i: int| (self.entries@[i].0@, self.entries@[i].1.deep_view()))
    }
}

impl<V: DeepView> DeepView for StrMap<V> {
    type V = Seq<(Seq<char>, V::V)>;

    open spec fn deep_view(&self) -> Seq<(Seq<char>, V::V)> {
        self.view()
    }
}

impl<V: DeepView> StrMap<V> {
    /// The map the entries denote.
    pub open spec fn as_map(&self) -> Map<Seq<char>, V::V> {
        assoc_map(self@)
    }

    /// Every key occurs once.
    pub open spec fn wf(&self) -> bool {
        assoc_unique(self@)
    }

    pub fn new() -> (r: Self)
        ensures
            r.wf(),
            r@ == Seq::<(Seq<char>, V::V)>::empty(),
    {
        let r = StrMap { entries: Vec::new() };
        proof {
            assert(r@ =~~= Seq::<(Seq<char>, V::V)>::empty());
        }
        r
    }

    pub fn len(&self) -> (r: usize)
        ensures
            r == self@.len(),
    {
        self.entries.len()
    }

    pub fn is_empty(&self) -> (r: bool)
        ensures
            r == (self@.len() == 0),
    {
        self.entries.len() == 0
    }

    /// The index of the entry that holds `k`, if any.
    fn index_of(&self, k: &str) -> (r: Option<usize>)
        ensures
            match r {
                Some(i) => i < self@.len() && self@[i as int].0 == k@,
                None => forall|i: int| 0 <= i < self@.len() ==> (#[trigger] self@[i]).0 != k@,
            },
    {
        let mut i: usize = 0;
        while i < self.entries.len()
            invariant
                i <= self.entries@.len(),
                forall|j: int| 0 <= j < i ==> (#[trigger] self@[j]).0 != k@,
            decreases self.entries.len() - i,
        {
            if crate::text::str_eq(self.entries[i].0.as_str(), k) {
                proof {
                    assert(self@[i as int].0 == k@);
                }
                return Some(i);
            }
            proof {
                assert(self@[i as int].0 == self.entries@[i as int].0@);
            }
            i = i + 1;
        }
        None
    }

    pub fn contains_key(&self, k: &str) -> (r: bool)
        ensures
            r == self.as_map().contains_key(k@),
    {
        proof {
            lemma_assoc_map_contains(self@, k@);
        }
        match self.index_of(k) {
            Some(_) => true,
            None => false,
        }
    }

    pub fn get(&self, k: &str) -> (r: Option<&V>)
        requires
            self.wf(),
        ensures
            match r {
                Some(v) => self.as_map().contains_key(k@) && self.as_map()[k@] == v.deep_view(),
                None => !self.as_map().contains_key(k@),
            },
    {
        proof {
            lemma_assoc_map_contains(self@, k@);
        }
        match self.index_of(k) {
            Some(i) => {
                proof {
                    lemma_assoc_map_index(self@, i as int);
                }
                Some(&self.entries[i].1)
            },
            None => None,
        }
    }

    /// Inserts the pair when the key is new; an existing key keeps its value.
    pub fn insert_keep(&mut self, k: String, v: V)
        requires
            old(self).wf(),
        ensures
            final(self).wf(),
            old(self).as_map().contains_key(k@) ==> final(self)@ == old(self)@,
            !old(self).as_map().contains_key(k@) ==> {
                &&& final(self)@ == old(self)@.push((k@, v.deep_view()))
                &&& final(self).as_map() == old(self).as_map().insert(k@, v.deep_view())
            },
    {
        proof {
            lemma_assoc_map_contains(self@, k@);
        }
        match self.index_of(k.as_str()) {
            Some(_) => {},
            None => {
                let ghost k0 = k@;
                let ghost v0 = v.deep_view();
                self.entries.push((k, v));
                proof {
                    assert(self@ =~~= old(self)@.push((k0, v0)));
                    assert(self@.drop_last() =~~= old(self)@);
                }
            },
        }
    }

    /// Replaces the value of an existing key, keeping its position.
    pub fn set_value(&mut self, k: &str, v: V)
        requires
            old(self).wf(),
            old(self).as_map().contains_key(k@),
        ensures
            final(self).wf(),
            final(self).as_map() == old(self).as_map().insert(k@, v.deep_view()),
            final(self)@ == assoc_update(old(self)@, k@, v.deep_view()),
            final(self)@.len() == old(self)@.len(),
            forall|i: int|
                0 <= i < old(self)@.len() ==> (#[trigger] final(self)@[i]).0 == old(self)@[i].0,
    {
        proof {
            lemma_assoc_map_contains(self@, k@);
        }
        let i = match self.index_of(k) {
            Some(i) => i,
            None => {
                proof {
                    assert(false);
                }
                0
            },
        };
        let key = self.entries[i].0.eq_clone();
        let ghost v0 = v.deep_view();
        self.entries.set(i, (key, v));
        proof {
            assert(self@ =~~= old(self)@.update(i as int, (old(self)@[i as int].0, v0)));
            lemma_assoc_map_update(old(self)@, i as int, v0);
            assert forall|j: int| 0 <= j < self@.len() implies self@[j] == assoc_update(
                old(self)@,
                k@,
                v0,
            )[j] by {
                if j != i {
                    assert(old(self)@[j].0 != k@);
                }
            }
            assert(self@ =~~= assoc_update(old(self)@, k@, v0));
        }
    }

    /// The entries themselves, in insertion order, consuming the map.
    pub fn into_entries(self) -> (r: Vec<(String, V)>)
        ensures
            r@.len() == self@.len(),
            forall|i: int|
                0 <= i < self@.len() ==> (#[trigger] r@[i]).0@ == self@[i].0 && r@[i].1.deep_view()
                    == self@[i].1,
    {
        self.entries
    }

    /// A reference to the entries, in insertion order.
    pub fn entries_ref(&self) -> (r: &Vec<(String, V)>)
        ensures
            r@.len() == self@.len(),
            forall|i: int|
                0 <= i < self@.len() ==> (#[trigger] r@[i]).0@ == self@[i].0 && r@[i].1.deep_view()
                    == self@[i].1,
    {
        &self.entries
    }
}

impl<V: EqClone> EqClone for StrMap<V> {
    fn eq_clone(&self) -> (r: Self)
        ensures
            r.deep_view() == self.deep_view(),
    {
        let mut entries: Vec<(String, V)> = Vec::new();
        let mut i: usize = 0;
        while i < self.entries.len()
            invariant
                i <= self.entries@.len(),
                entries@.len() == i,
                forall|k: int|
                    0 <= k < i ==> (#[trigger] entries@[k]).0@ == self@[k].0
                        && entries@[k].1.deep_view() == self@[k].1,
        decreases self.entries.len() - i,
        {
            let (k, v) = &self.entries[i];
            entries.push((k.eq_clone(), v.eq_clone()));
            proof {
                assert(self@[i as int].0 == self.entries@[i as int].0@);
                assert(self@[i as int].1 == self.entries@[i as int].1.deep_view());
            }
            i = i + 1;
        }
        let r = StrMap { entries };
        proof {
            assert(r@ =~~= self@);
        }
        r
    }
}

/// A JSON schema as the generation engine reads it: the nullability flag,
/// the description, the named object properties, and the full schema as JSON
/// text.
pub struct SchemaDocument {
    pub nullable: bool,
    pub description: Option<String>,
    pub properties: Vec<PropertySchema>,
    pub raw: String,
}

/// One named property of an object schema.
pub struct PropertySchema {
    pub name: String,
    pub nullable: bool,
    pub description: Option<String>,
    pub raw: String,
}

#[verifier::ext_equal]
pub ghost struct PropertyModel {
    pub name: Seq<char>,
    pub nullable: bool,
    pub description: Option<Seq<char>>,
    pub raw: Seq<char>,
}

#[verifier::ext_equal]
pub ghost struct SchemaModel {
    pub nullable: bool,
    pub description: Option<Seq<char>>,
    pub properties: Seq<PropertyModel>,
    pub raw: Seq<char>,
}

impl DeepView for PropertySchema {
    type V = PropertyModel;

    open spec fn deep_view(&self) -> PropertyModel {
        PropertyModel {
            name: self.name@,
            nullable: self.nullable,
            description: self.description.deep_view(),
            raw: self.raw@,
        }
    }
}

impl DeepView for SchemaDocument {
    type V = SchemaModel;

    open spec fn deep_view(&self) -> SchemaModel {
        SchemaModel {
            nullable: self.nullable,
            description: self.description.deep_view(),
            properties: self.properties.deep_view(),
            raw: self.raw@,
        }
    }
}

impl EqClone for PropertySchema {
    fn eq_clone(&self) -> (r: Self)
        ensures
            r.deep_view() == self.deep_view(),
    {
        let r = PropertySchema {
            name: self.name.eq_clone(),
            nullable: self.nullable,
            description: self.description.eq_clone(),
            raw: self.raw.eq_clone(),
        };
        proof {
            assert(r.deep_view() =~~= self.deep_view());
        }
        r
    }
}

impl EqClone for SchemaDocument {
    fn eq_clone(&self) -> (r: Self)
        ensures
            r.deep_view() == self.deep_view(),
    {
        let r = SchemaDocument {
            nullable: self.nullable,
            description: self.description.eq_clone(),
            properties: self.properties.eq_clone(),
            raw: self.raw.eq_clone(),
        };
        proof {
            assert(r.deep_view() =~~= self.deep_view());
        }
        r
    }
}

impl SchemaDocument {
    /// An empty schema: accepts anything, says nothing.
    pub fn empty() -> (r: Self)
        ensures
            r.nullable == false,
            r.description is None,
            r.properties@.len() == 0,
            r.raw@.len() == 0,
    {
        SchemaDocument {
            nullable: false,
            description: None,
            properties: Vec::new(),
            raw: String::new(),
        }
    }
}

/// The content of a request or response under one media type.
pub struct MediaTypeObject {
    pub schema: Option<SchemaDocument>,
}

#[verifier::ext_equal]
pub ghost struct MediaTypeModel {
    pub schema: Option<SchemaModel>,
}

impl DeepView for MediaTypeObject {
    type V = MediaTypeModel;

    open spec fn deep_view(&self) -> MediaTypeModel {
        MediaTypeModel { schema: self.schema.deep_view() }
    }
}

impl EqClone for MediaTypeObject {
    fn eq_clone(&self) -> (r: Self)
        ensures
            r.deep_view() == self.deep_view(),
    {
        let r = MediaTypeObject { schema: self.schema.eq_clone() };
        proof {
            assert(r.deep_view() =~~= self.deep_view());
        }
        r
    }
}

impl MediaTypeObject {
    pub fn empty() -> (r: Self)
        ensures
            r.schema is None,
    {
        MediaTypeObject { schema: None }
    }
}

/// One response of an operation.
pub struct Response {
    pub description: String,
    pub content: StrMap<MediaTypeObject>,
}

#[verifier::ext_equal]
pub ghost struct ResponseModel {
    pub description: Seq<char>,
    pub content: Seq<(Seq<char>, MediaTypeModel)>,
}

impl DeepView for Response {
    type V = ResponseModel;

    open spec fn deep_view(&self) -> ResponseModel {
        ResponseModel { description: self.description@, content: self.content@ }
    }
}

impl EqClone for Response {
    fn eq_clone(&self) -> (r: Self)
        ensures
            r.deep_view() == self.deep_view(),
    {
        let r = Response {
            description: self.description.eq_clone(),
            content: self.content.eq_clone(),
        };
        proof {
            assert(r.deep_view() =~~= self.deep_view());
        }
        r
    }
}

impl Response {
    pub fn empty() -> (r: Self)
        ensures
            r.description@.len() == 0,
            r.content.wf(),
            r.content@.len() == 0,
    {
        Response { description: String::new(), content: StrMap::new() }
    }
}

/// The responses of an operation, keyed by status code or `default`.
pub struct Responses {
    pub responses: StrMap<Response>,
}

#[verifier::ext_equal]
pub ghost struct ResponsesModel {
    pub responses: Seq<(Seq<char>, ResponseModel)>,
}

impl DeepView for Responses {
    type V = ResponsesModel;

    open spec fn deep_view(&self) -> ResponsesModel {
        ResponsesModel { responses: self.responses@ }
    }
}

impl EqClone for Responses {
    fn eq_clone(&self) -> (r: Self)
        ensures
            r.deep_view() == self.deep_view(),
    {
        let r = Responses { responses: self.responses.eq_clone() };
        proof {
            assert(r.deep_view() =~~= self.deep_view());
        }
        r
    }
}

impl Responses {
    pub fn empty() -> (r: Self)
        ensures
            r.responses.wf(),
            r.responses@.len() == 0,
    {
        Responses { responses: StrMap::new() }
    }

    pub open spec fn wf(&self) -> bool {
        self.responses.wf()
    }
}

/// The request body of an operation.
pub struct RequestBody {
    pub description: Option<String>,
    pub content: StrMap<MediaTypeObject>,
    pub required: bool,
}

#[verifier::ext_equal]
pub ghost struct RequestBodyModel {
    pub description: Option<Seq<char>>,
    pub content: Seq<(Seq<char>, MediaTypeModel)>,
    pub required: bool,
}

impl DeepView for RequestBody {
    type V = RequestBodyModel;

    open spec fn deep_view(&self) -> RequestBodyModel {
        RequestBodyModel {
            description: self.description.deep_view(),
            content: self.content@,
            required: self.required,
        }
    }
}

impl EqClone for RequestBody {
    fn eq_clone(&self) -> (r: Self)
        ensures
            r.deep_view() == self.deep_view(),
    {
        let r = RequestBody {
            description: self.description.eq_clone(),
            content: self.content.eq_clone(),
            required: self.required,
        };
        proof {
            assert(r.deep_view() =~~= self.deep_view());
        }
        r
    }
}

/// One documented parameter of an operation.
pub struct Parameter {
    pub name: String,
    pub location: String,
    pub description: Option<String>,
    pub required: bool,
    pub deprecated: bool,
    pub allow_empty_value: bool,
    pub schema: SchemaDocument,
}

#[verifier::ext_equal]
pub ghost struct ParameterModel {
    pub name: Seq<char>,
    pub location: Seq<char>,
    pub description: Option<Seq<char>>,
    pub required: bool,
    pub deprecated: bool,
    pub allow_empty_value: bool,
    pub schema: SchemaModel,
}

impl DeepView for Parameter {
    type V = ParameterModel;

    open spec fn deep_view(&self) -> ParameterModel {
        ParameterModel {
            name: self.name@,
            location: self.location@,
            description: self.description.deep_view(),
            required: self.required,
            deprecated: self.deprecated,
            allow_empty_value: self.allow_empty_value,
            schema: self.schema.deep_view(),
        }
    }
}

impl EqClone for Parameter {
    fn eq_clone(&self) -> (r: Self)
        ensures
            r.deep_view() == self.deep_view(),
    {
        let r = Parameter {
            name: self.name.eq_clone(),
            location: self.location.eq_clone(),
            description: self.description.eq_clone(),
            required: self.required,
            deprecated: self.deprecated,
            allow_empty_value: self.allow_empty_value,
            schema: self.schema.eq_clone(),
        };
        proof {
            assert(r.deep_view() =~~= self.deep_view());
        }
        r
    }
}

/// How a security scheme authenticates.
pub enum SecuritySchemeData {
    Http { scheme: String, bearer_format: Option<String> },
    ApiKey { name: String, location: String },
}

#[verifier::ext_equal]
pub ghost enum SecuritySchemeDataModel {
    Http { scheme: Seq<char>, bearer_format: Option<Seq<char>> },
    ApiKey { name: Seq<char>, location: Seq<char> },
}

impl DeepView for SecuritySchemeData {
    type V = SecuritySchemeDataModel;

    open spec fn deep_view(&self) -> SecuritySchemeDataModel {
        match self {
            SecuritySchemeData::Http { scheme, bearer_format } => SecuritySchemeDataModel::Http {
                scheme: scheme@,
                bearer_format: bearer_format.deep_view(),
            },
            SecuritySchemeData::ApiKey { name, location } => SecuritySchemeDataModel::ApiKey {
                name: name@,
                location: location@,
            },
        }
    }
}

impl EqClone for SecuritySchemeData {
    fn eq_clone(&self) -> (r: Self)
        ensures
            r.deep_view() == self.deep_view(),
    {
        let r = match self {
            SecuritySchemeData::Http { scheme, bearer_format } => SecuritySchemeData::Http {
                scheme: scheme.eq_clone(),
                bearer_format: bearer_format.eq_clone(),
            },
            SecuritySchemeData::ApiKey { name, location } => SecuritySchemeData::ApiKey {
                name: name.eq_clone(),
                location: location.eq_clone(),
            },
        };
        proof {
            assert(r.deep_view() =~~= self.deep_view());
        }
        r
    }
}

/// One security scheme of the document.
pub struct SecurityScheme {
    pub description: Option<String>,
    pub data: SecuritySchemeData,
}

#[verifier::ext_equal]
pub ghost struct SecuritySchemeModel {
    pub description: Option<Seq<char>>,
    pub data: SecuritySchemeDataModel,
}

impl DeepView for SecurityScheme {
    type V = SecuritySchemeModel;

    open spec fn deep_view(&self) -> SecuritySchemeModel {
        SecuritySchemeModel {
            description: self.description.deep_view(),
            data: self.data.deep_view(),
        }
    }
}

impl EqClone for SecurityScheme {
    fn eq_clone(&self) -> (r: Self)
        ensures
            r.deep_view() == self.deep_view(),
    {
        let r = SecurityScheme {
            description: self.description.eq_clone(),
            data: self.data.eq_clone(),
        };
        proof {
            assert(r.deep_view() =~~= self.deep_view());
        }
        r
    }
}

/// One security requirement: scheme name to required scopes.
pub type SecurityRequirement = StrMap<Vec<String>>;

/// One documented operation: the description of one path and method pair.
pub struct Operation {
    pub tags: Vec<String>,
    pub summary: Option<String>,
    pub description: Option<String>,
    pub operation_id: Option<String>,
    pub parameters: Vec<Parameter>,
    pub request_body: Option<RequestBody>,
    pub responses: Responses,
    pub deprecated: bool,
    pub security: Vec<SecurityRequirement>,
}

#[verifier::ext_equal]
pub ghost struct OperationModel {
    pub tags: Seq<Seq<char>>,
    pub summary: Option<Seq<char>>,
    pub description: Option<Seq<char>>,
    pub operation_id: Option<Seq<char>>,
    pub parameters: Seq<ParameterModel>,
    pub request_body: Option<RequestBodyModel>,
    pub responses: ResponsesModel,
    pub deprecated: bool,
    pub security: Seq<Seq<(Seq<char>, Seq<Seq<char>>)>>,
}

impl DeepView for Operation {
    type V = OperationModel;

    open spec fn deep_view(&self) -> OperationModel {
        OperationModel {
            tags: self.tags.deep_view(),
            summary: self.summary.deep_view(),
            description: self.description.deep_view(),
            operation_id: self.operation_id.deep_view(),
            parameters: self.parameters.deep_view(),
            request_body: self.request_body.deep_view(),
            responses: self.responses.deep_view(),
            deprecated: self.deprecated,
            security: self.security.deep_view(),
        }
    }
}

impl EqClone for Operation {
    fn eq_clone(&self) -> (r: Self)
        ensures
            r.deep_view() == self.deep_view(),
    {
        let r = Operation {
            tags: self.tags.eq_clone(),
            summary: self.summary.eq_clone(),
            description: self.description.eq_clone(),
            operation_id: self.operation_id.eq_clone(),
            parameters: self.parameters.eq_clone(),
            request_body: self.request_body.eq_clone(),
            responses: self.responses.eq_clone(),
            deprecated: self.deprecated,
            security: self.security.eq_clone(),
        };
        proof {
            assert(r.deep_view() =~~= self.deep_view());
        }
        r
    }
}

impl Operation {
    pub fn empty() -> (r: Self)
        ensures
            r.deep_view() == (OperationModel {
                tags: Seq::empty(),
                summary: None,
                description: None,
                operation_id: None,
                parameters: Seq::empty(),
                request_body: None,
                responses: ResponsesModel { responses: Seq::empty() },
                deprecated: false,
                security: Seq::empty(),
            }),
            r.responses.wf(),
    {
        let r = Operation {
            tags: Vec::new(),
            summary: None,
            description: None,
            operation_id: None,
            parameters: Vec::new(),
            request_body: None,
            responses: Responses::empty(),
            deprecated: false,
            security: Vec::new(),
        };
        proof {
            assert(r.deep_view() =~~= (OperationModel {
                tags: Seq::empty(),
                summary: None,
                description: None,
                operation_id: None,
                parameters: Seq::empty(),
                request_body: None,
                responses: ResponsesModel { responses: Seq::empty() },
                deprecated: false,
                security: Seq::empty(),
            }));
        }
        r
    }
}

/// The operations registered under one path, one slot per method.
pub struct PathItem {
    pub get: Option<Operation>,
    pub put: Option<Operation>,
    pub post: Option<Operation>,
    pub delete: Option<Operation>,
    pub options: Option<Operation>,
    pub head: Option<Operation>,
    pub patch: Option<Operation>,
    pub trace: Option<Operation>,
}

#[verifier::ext_equal]
pub ghost struct PathItemModel {
    pub get: Option<OperationModel>,
    pub put: Option<OperationModel>,
    pub post: Option<OperationModel>,
    pub delete: Option<OperationModel>,
    pub options: Option<OperationModel>,
    pub head: Option<OperationModel>,
    pub patch: Option<OperationModel>,
    pub trace: Option<OperationModel>,
}

impl DeepView for PathItem {
    type V = PathItemModel;

    open spec fn deep_view(&self) -> PathItemModel {
        PathItemModel {
            get: self.get.deep_view(),
            put: self.put.deep_view(),
            post: self.post.deep_view(),
            delete: self.delete.deep_view(),
            options: self.options.deep_view(),
            head: self.head.deep_view(),
            patch: self.patch.deep_view(),
            trace: self.trace.deep_view(),
        }
    }
}

impl EqClone for PathItem {
    fn eq_clone(&self) -> (r: Self)
        ensures
            r.deep_view() == self.deep_view(),
    {
        let r = PathItem {
            get: self.get.eq_clone(),
            put: self.put.eq_clone(),
            post: self.post.eq_clone(),
            delete: self.delete.eq_clone(),
            options: self.options.eq_clone(),
            head: self.head.eq_clone(),
            patch: self.patch.eq_clone(),
            trace: self.trace.eq_clone(),
        };
        proof {
            assert(r.deep_view() =~~= self.deep_view());
        }
        r
    }
}

impl PathItem {
    pub fn empty() -> (r: Self)
        ensures
            r.deep_view() == (PathItemModel {
                get: None,
                put: None,
                post: None,
                delete: None,
                options: None,
                head: None,
                patch: None,
                trace: None,
            }),
    {
        let r = PathItem {
            get: None,
            put: None,
            post: None,
            delete: None,
            options: None,
            head: None,
            patch: None,
            trace: None,
        };
        proof {
            assert(r.deep_view() =~~= (PathItemModel {
                get: None,
                put: None,
                post: None,
                delete: None,
                options: None,
                head: None,
                patch: None,
                trace: None,
            }));
        }
        r
    }
}

/// One tag of the document.
pub struct Tag {
    pub name: String,
    pub description: Option<String>,
}

#[verifier::ext_equal]
pub ghost struct TagModel {
    pub name: Seq<char>,
    pub description: Option<Seq<char>>,
}

impl DeepView for Tag {
    type V = TagModel;

    open spec fn deep_view(&self) -> TagModel {
        TagModel { name: self.name@, description: self.description.deep_view() }
    }
}

impl EqClone for Tag {
    fn eq_clone(&self) -> (r: Self)
        ensures
            r.deep_view() == self.deep_view(),
    {
        let r = Tag { name: self.name.eq_clone(), description: self.description.eq_clone() };
        proof {
            assert(r.deep_view() =~~= self.deep_view());
        }
        r
    }
}

impl Clone for Tag {
    fn clone(&self) -> (r: Self)
        ensures
            r.deep_view() == self.deep_view(),
    {
        self.eq_clone()
    }
}

/// One server entry of the document.
pub struct Server {
    pub url: String,
    pub description: Option<String>,
}

#[verifier::ext_equal]
pub ghost struct ServerModel {
    pub url: Seq<char>,
    pub description: Option<Seq<char>>,
}

impl DeepView for Server {
    type V = ServerModel;

    open spec fn deep_view(&self) -> ServerModel {
        ServerModel { url: self.url@, description: self.description.deep_view() }
    }
}

impl EqClone for Server {
    fn eq_clone(&self) -> (r: Self)
        ensures
            r.deep_view() == self.deep_view(),
    {
        let r = Server { url: self.url.eq_clone(), description: self.description.eq_clone() };
        proof {
            assert(r.deep_view() =~~= self.deep_view());
        }
        r
    }
}

/// The contact entry of the document info.
pub struct Contact {
    pub name: Option<String>,
    pub url: Option<String>,
    pub email: Option<String>,
}

#[verifier::ext_equal]
pub ghost struct ContactModel {
    pub name: Option<Seq<char>>,
    pub url: Option<Seq<char>>,
    pub email: Option<Seq<char>>,
}

impl DeepView for Contact {
    type V = ContactModel;

    open spec fn deep_view(&self) -> ContactModel {
        ContactModel {
            name: self.name.deep_view(),
            url: self.url.deep_view(),
            email: self.email.deep_view(),
        }
    }
}

impl EqClone for Contact {
    fn eq_clone(&self) -> (r: Self)
        ensures
            r.deep_view() == self.deep_view(),
    {
        let r = Contact {
            name: self.name.eq_clone(),
            url: self.url.eq_clone(),
            email: self.email.eq_clone(),
        };
        proof {
            assert(r.deep_view() =~~= self.deep_view());
        }
        r
    }
}

/// The info block of the document.
pub struct Info {
    pub title: String,
    pub version: String,
    pub description: Option<String>,
    pub contact: Option<Contact>,
}

#[verifier::ext_equal]
pub ghost struct InfoModel {
    pub title: Seq<char>,
    pub version: Seq<char>,
    pub description: Option<Seq<char>>,
    pub contact: Option<ContactModel>,
}

impl DeepView for Info {
    type V = InfoModel;

    open spec fn deep_view(&self) -> InfoModel {
        InfoModel {
            title: self.title@,
            version: self.version@,
            description: self.description.deep_view(),
            contact: self.contact.deep_view(),
        }
    }
}

impl EqClone for Info {
    fn eq_clone(&self) -> (r: Self)
        ensures
            r.deep_view() == self.deep_view(),
    {
        let r = Info {
            title: self.title.eq_clone(),
            version: self.version.eq_clone(),
            description: self.description.eq_clone(),
            contact: self.contact.eq_clone(),
        };
        proof {
            assert(r.deep_view() =~~= self.deep_view());
        }
        r
    }
}

impl Info {
    pub fn empty() -> (r: Self)
        ensures
            r.title@.len() == 0,
            r.version@.len() == 0,
            r.description is None,
            r.contact is None,
    {
        Info { title: String::new(), version: String::new(), description: None, contact: None }
    }
}

/// The reusable components of the document.
pub struct Components {
    pub schemas: StrMap<SchemaDocument>,
    pub security_schemes: StrMap<SecurityScheme>,
}

#[verifier::ext_equal]
pub ghost struct ComponentsModel {
    pub schemas: Seq<(Seq<char>, SchemaModel)>,
    pub security_schemes: Seq<(Seq<char>, SecuritySchemeModel)>,
}

impl DeepView for Components {
    type V = ComponentsModel;

    open spec fn deep_view(&self) -> ComponentsModel {
        ComponentsModel { schemas: self.schemas@, security_schemes: self.security_schemes@ }
    }
}

impl EqClone for Components {
    fn eq_clone(&self) -> (r: Self)
        ensures
            r.deep_view() == self.deep_view(),
    {
        let r = Components {
            schemas: self.schemas.eq_clone(),
            security_schemes: self.security_schemes.eq_clone(),
        };
        proof {
            assert(r.deep_view() =~~= self.deep_view());
        }
        r
    }
}

impl Components {
    pub fn empty() -> (r: Self)
        ensures
            r.schemas.wf(),
            r.schemas@.len() == 0,
            r.security_schemes.wf(),
            r.security_schemes@.len() == 0,
    {
        Components { schemas: StrMap::new(), security_schemes: StrMap::new() }
    }
}

/// A complete OpenAPI document.
pub struct OpenApi {
    pub openapi: String,
    pub info: Info,
    pub servers: Vec<Server>,
    pub paths: StrMap<PathItem>,
    pub components: Option<Components>,
    pub tags: Vec<Tag>,
}

#[verifier::ext_equal]
pub ghost struct OpenApiModel {
    pub openapi: Seq<char>,
    pub info: InfoModel,
    pub servers: Seq<ServerModel>,
    pub paths: Seq<(Seq<char>, PathItemModel)>,
    pub components: Option<ComponentsModel>,
    pub tags: Seq<TagModel>,
}

impl DeepView for OpenApi {
    type V = OpenApiModel;

    open spec fn deep_view(&self) -> OpenApiModel {
        OpenApiModel {
            openapi: self.openapi@,
            info: self.info.deep_view(),
            servers: self.servers.deep_view(),
            paths: self.paths@,
            components: self.components.deep_view(),
            tags: self.tags.deep_view(),
        }
    }
}

impl OpenApi {
    /// Every map in the document is well formed.
    pub open spec fn wf(&self) -> bool {
        &&& self.paths.wf()
        &&& match self.components {
            Some(c) => c.schemas.wf() && c.security_schemes.wf(),
            None => true,
        }
    }

    /// An empty document of the supported specification version.
    pub fn new() -> (r: Self)
        ensures
            r.wf(),
            r.openapi@ == "3.0.0"@,
            r.info.title@.len() == 0,
            r.info.version@.len() == 0,
            r.info.description is None,
            r.info.contact is None,
            r.paths@.len() == 0,
            r.components is None,
            r.tags@.len() == 0,
            r.servers@.len() == 0,
    {
        OpenApi {
            openapi: String::from_str("3.0.0"),
            info: Info::empty(),
            servers: Vec::new(),
            paths: StrMap::new(),
            components: None,
            tags: Vec::new(),
        }
    }
}

impl EqClone for OpenApi {
    fn eq_clone(&self) -> (r: Self)
        ensures
            r.deep_view() == self.deep_view(),
    {
        let r = OpenApi {
            openapi: self.openapi.eq_clone(),
            info: self.info.eq_clone(),
            servers: self.servers.eq_clone(),
            paths: self.paths.eq_clone(),
            components: self.components.eq_clone(),
            tags: self.tags.eq_clone(),
        };
        proof {
            assert(r.deep_view() =~~= self.deep_view());
        }
        r
    }
}

} // verus!
