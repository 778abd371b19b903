//! The accumulating document generator: one build's mutable state, growing a
//! path map, a security-scheme map and a schema registry, and frozen into an
//! `OpenApi` document by `into_openapi`.

use vstd::prelude::*;

use crate::http::HttpMethod;
use crate::openapi3::{
    assoc_map, Components, EqClone, OpenApi, Operation, OperationModel, PathItem, PathItemModel,
    SchemaDocument, SchemaModel, SecurityScheme, StrMap,
};
use crate::schema::{
    backend_new, backend_root_inline, backend_subschema, schema_document_from_value, type_key,
    SchemaBackend,
};

verus! {

/// The settings of one document build.
pub struct OpenApiSettings {
    pub json_path: String,
}

impl OpenApiSettings {
    /// The default settings: the document is served at `/openapi.json`.
    pub fn new() -> (r: Self)
        ensures
            r.json_path@ == "/openapi.json"@,
    {
        OpenApiSettings { json_path: String::from_str("/openapi.json") }
    }

    pub fn eq_clone_settings(&self) -> (r: Self)
        ensures
            r.json_path@ == self.json_path@,
    {
        OpenApiSettings { json_path: self.json_path.clone() }
    }
}

/// One operation to register: the path, the method, and the operation body.
pub struct OperationInfo {
    pub path: String,
    pub method: HttpMethod,
    pub operation: Operation,
}

/// Registering the same path and method twice in one build is a mistake in
/// the calling code; the second registration is rejected with this error.
#[derive(Debug)]
pub struct DuplicateOperationError {
    pub path: String,
}

/// The method slot of a path item.  A CONNECT route has no slot in an
/// OpenAPI path item, so it carries no operation.
pub open spec fn slot_of(pi: PathItemModel, m: HttpMethod) -> Option<OperationModel> {
    match m {
        HttpMethod::Get => pi.get,
        HttpMethod::Put => pi.put,
        HttpMethod::Post => pi.post,
        HttpMethod::Delete => pi.delete,
        HttpMethod::Options => pi.options,
        HttpMethod::Head => pi.head,
        HttpMethod::Patch => pi.patch,
        HttpMethod::Trace => pi.trace,
        HttpMethod::Connect => None,
    }
}

/// The path item with one method slot filled; a CONNECT registration leaves
/// it unchanged.
pub open spec fn set_slot(pi: PathItemModel, m: HttpMethod, op: OperationModel) -> PathItemModel {
    match m {
        HttpMethod::Get => PathItemModel { get: Some(op), ..pi },
        HttpMethod::Put => PathItemModel { put: Some(op), ..pi },
        HttpMethod::Post => PathItemModel { post: Some(op), ..pi },
        HttpMethod::Delete => PathItemModel { delete: Some(op), ..pi },
        HttpMethod::Options => PathItemModel { options: Some(op), ..pi },
        HttpMethod::Head => PathItemModel { head: Some(op), ..pi },
        HttpMethod::Patch => PathItemModel { patch: Some(op), ..pi },
        HttpMethod::Trace => PathItemModel { trace: Some(op), ..pi },
        HttpMethod::Connect => pi,
    }
}

/// The empty path item model.
pub open spec fn empty_item() -> PathItemModel {
    PathItemModel {
        get: None,
        put: None,
        post: None,
        delete: None,
        options: None,
        head: None,
        patch: None,
        trace: None,
    }
}

/// The registered schema for a key, given what a fresh derivation returned.
pub open spec fn cache_result(
    c: Seq<(Seq<char>, SchemaModel)>,
    k: Seq<char>,
    fresh: SchemaModel,
) -> SchemaModel {
    if assoc_map(c).contains_key(k) {
        assoc_map(c)[k]
    } else {
        fresh
    }
}

/// The schema registry after a request for a key.
pub open spec fn cache_after(
    c: Seq<(Seq<char>, SchemaModel)>,
    k: Seq<char>,
    fresh: SchemaModel,
) -> Seq<(Seq<char>, SchemaModel)> {
    if assoc_map(c).contains_key(k) {
        c
    } else {
        c.push((k, fresh))
    }
}

/// Requesting the schema of one type twice on one generator yields
/// structurally equal schemas, and the schema is registered once, not
/// twice: the second request returns what the first registered and leaves
/// the registry unchanged, whatever a fresh derivation would return.
pub proof fn lemma_schema_cache_idempotent(
    c: Seq<(Seq<char>, SchemaModel)>,
    k: Seq<char>,
    f1: SchemaModel,
    f2: SchemaModel,
)
    ensures
        cache_result(cache_after(c, k, f1), k, f2) == cache_result(c, k, f1),
        cache_after(cache_after(c, k, f1), k, f2) == cache_after(c, k, f1),
{
    if !assoc_map(c).contains_key(k) {
        let c1 = c.push((k, f1));
        assert(c1.drop_last() =~= c);
        assert(assoc_map(c1) == assoc_map(c).insert(k, f1));
        assert(assoc_map(c1).contains_key(k));
        assert(assoc_map(c1)[k] == f1);
    }
}

/// The build-scoped accumulator: owns the in-progress document state and the
/// schema registry, and is consumed by `into_openapi`.
pub struct OpenApiGenerator {
    pub settings: OpenApiSettings,
    pub backend: SchemaBackend,
    pub schema_cache: StrMap<SchemaDocument>,
    pub operations: StrMap<PathItem>,
    pub security_schemes: StrMap<SecurityScheme>,
}

impl OpenApiGenerator {
    pub open spec fn wf(&self) -> bool {
        &&& self.schema_cache().wf()
        &&& self.operations().wf()
        &&& self.security().wf()
    }

    /// The schema registry.
    pub open spec fn schema_cache(&self) -> StrMap<SchemaDocument> {
        self.schema_cache
    }

    /// The path map built so far.
    pub open spec fn operations(&self) -> StrMap<PathItem> {
        self.operations
    }

    /// The security schemes registered so far.
    pub open spec fn security(&self) -> StrMap<SecurityScheme> {
        self.security_schemes
    }

    /// A fresh generator for one document build.
    pub fn new(settings: &OpenApiSettings) -> (r: Self)
        ensures
            r.wf(),
            r.schema_cache()@.len() == 0,
            r.operations()@.len() == 0,
            r.security()@.len() == 0,
            r.settings.json_path@ == settings.json_path@,
    {
        OpenApiGenerator {
            settings: settings.eq_clone_settings(),
            backend: backend_new(),
            schema_cache: StrMap::new(),
            operations: StrMap::new(),
            security_schemes: StrMap::new(),
        }
    }

    /// Registers one operation under its path and method.  The path item is
    /// created on first use; a second registration for an occupied path and
    /// method slot is rejected and changes nothing.
    pub fn add_operation(&mut self, op: OperationInfo) -> (r: Result<(), DuplicateOperationError>)
        requires
            old(self).wf(),
        ensures
            final(self).wf(),
            final(self).schema_cache() == old(self).schema_cache(),
            final(self).security() == old(self).security(),
            ({
                let m = old(self).operations().as_map();
                let existing = if m.contains_key(op.path@) {
                    m[op.path@]
                } else {
                    empty_item()
                };
                if slot_of(existing, op.method) is Some {
                    r is Err && final(self).operations()@ == old(self).operations()@
                } else {
                    r is Ok && final(self).operations().as_map() == m.insert(
                        op.path@,
                        set_slot(existing, op.method, op.operation.deep_view()),
                    )
                }
            }),
    {
        let OperationInfo { path, method, operation } = op;
        match method {
            HttpMethod::Connect => {
                // No CONNECT slot exists in a path item; register the path
                // with its item unchanged.
                let item_opt = match self.operations.get(path.as_str()) {
                    Some(existing) => Some(existing.eq_clone()),
                    None => None,
                };
                match item_opt {
                    Some(item) => {
                        proof {
                            assert(item.deep_view() =~~= set_slot(
                                old(self).operations().as_map()[path@],
                                method,
                                operation.deep_view(),
                            ));
                        }
                        self.operations.set_value(path.as_str(), item);
                        proof {
                            assert(self.operations().as_map() =~~= old(
                                self,
                            ).operations().as_map().insert(
                                path@,
                                set_slot(
                                    old(self).operations().as_map()[path@],
                                    method,
                                    operation.deep_view(),
                                ),
                            ));
                        }
                    },
                    None => {
                        let item = PathItem::empty();
                        proof {
                            assert(item.deep_view() =~~= set_slot(
                                empty_item(),
                                method,
                                operation.deep_view(),
                            ));
                        }
                        self.operations.insert_keep(path, item);
                    },
                }
                Ok(())
            },
            _ => {
                let item_opt = match self.operations.get(path.as_str()) {
                    Some(existing) => Some(existing.eq_clone()),
                    None => None,
                };
                match item_opt {
                    Some(mut item) => {
                        let occupied = match method {
                            HttpMethod::Get => item.get.is_some(),
                            HttpMethod::Put => item.put.is_some(),
                            HttpMethod::Post => item.post.is_some(),
                            HttpMethod::Delete => item.delete.is_some(),
                            HttpMethod::Options => item.options.is_some(),
                            HttpMethod::Head => item.head.is_some(),
                            HttpMethod::Patch => item.patch.is_some(),
                            HttpMethod::Trace => item.trace.is_some(),
                            HttpMethod::Connect => false,
                        };
                        if occupied {
                            return Err(DuplicateOperationError { path });
                        }
                        match method {
                            HttpMethod::Get => {
                                item.get = Some(operation);
                            },
                            HttpMethod::Put => {
                                item.put = Some(operation);
                            },
                            HttpMethod::Post => {
                                item.post = Some(operation);
                            },
                            HttpMethod::Delete => {
                                item.delete = Some(operation);
                            },
                            HttpMethod::Options => {
                                item.options = Some(operation);
                            },
                            HttpMethod::Head => {
                                item.head = Some(operation);
                            },
                            HttpMethod::Patch => {
                                item.patch = Some(operation);
                            },
                            HttpMethod::Trace => {
                                item.trace = Some(operation);
                            },
                            HttpMethod::Connect => {},
                        }
                        proof {
                            assert(item.deep_view() =~~= set_slot(
                                old(self).operations().as_map()[path@],
                                method,
                                op.operation.deep_view(),
                            ));
                        }
                        self.operations.set_value(path.as_str(), item);
                        Ok(())
                    },
                    None => {
                        let mut item = PathItem::empty();
                        match method {
                            HttpMethod::Get => {
                                item.get = Some(operation);
                            },
                            HttpMethod::Put => {
                                item.put = Some(operation);
                            },
                            HttpMethod::Post => {
                                item.post = Some(operation);
                            },
                            HttpMethod::Delete => {
                                item.delete = Some(operation);
                            },
                            HttpMethod::Options => {
                                item.options = Some(operation);
                            },
                            HttpMethod::Head => {
                                item.head = Some(operation);
                            },
                            HttpMethod::Patch => {
                                item.patch = Some(operation);
                            },
                            HttpMethod::Trace => {
                                item.trace = Some(operation);
                            },
                            HttpMethod::Connect => {},
                        }
                        proof {
                            assert(item.deep_view() =~~= set_slot(
                                empty_item(),
                                method,
                                op.operation.deep_view(),
                            ));
                        }
                        self.operations.insert_keep(path, item);
                        Ok(())
                    },
                }
            },
        }
    }

    /// Registers a security scheme under a name; the first write wins on a
    /// name collision.
    pub fn add_security_scheme(&mut self, name: String, scheme: SecurityScheme)
        requires
            old(self).wf(),
        ensures
            final(self).wf(),
            final(self).operations() == old(self).operations(),
            final(self).schema_cache() == old(self).schema_cache(),
            old(self).security().as_map().contains_key(name@) ==> final(self).security()@ == old(
                self,
            ).security()@,
            !old(self).security().as_map().contains_key(name@) ==> final(self).security()@ == old(
                self,
            ).security()@.push((name@, scheme.deep_view())),
    {
        self.security_schemes.insert_keep(name, scheme);
    }

    /// Looks up or registers one schema under a key: an already registered
    /// key returns its schema unchanged, a new key registers the fresh
    /// derivation.  Two requests for one key on one generator therefore
    /// return structurally equal schemas, and the schema is registered once,
    /// not twice.
    pub fn schema_for_key(&mut self, key: String, fresh: SchemaDocument) -> (r: SchemaDocument)
        requires
            old(self).wf(),
        ensures
            final(self).wf(),
            final(self).operations() == old(self).operations(),
            final(self).security() == old(self).security(),
            r.deep_view() == cache_result(old(self).schema_cache()@, key@, fresh.deep_view()),
            final(self).schema_cache()@ == cache_after(
                old(self).schema_cache()@,
                key@,
                fresh.deep_view(),
            ),
    {
        let cached = match self.schema_cache.get(key.as_str()) {
            Some(d) => Some(d.eq_clone()),
            None => None,
        };
        match cached {
            Some(d) => d,
            None => {
                let ghost k0 = key@;
                let ghost f0 = fresh.deep_view();
                let out = fresh.eq_clone();
                self.schema_cache.insert_keep(key, fresh);
                proof {
                    assert(self.schema_cache()@ =~~= cache_after(
                        old(self).schema_cache()@,
                        k0,
                        f0,
                    ));
                }
                out
            },
        }
    }

    /// The schema of `T`, registered once under `T`'s schema key via
    /// `schema_for_key`: a repeated request for the same type returns the
    /// registered schema unchanged, so the schemas of one type are
    /// referentially consistent within one build.
    pub fn json_schema<T: schemars::JsonSchema>(&mut self) -> (r: SchemaDocument)
        requires
            old(self).wf(),
        ensures
            final(self).wf(),
            final(self).operations() == old(self).operations(),
            final(self).security() == old(self).security(),
            exists|k: Seq<char>, fresh: SchemaModel|
                {
                    &&& r.deep_view() == cache_result(old(self).schema_cache()@, k, fresh)
                    &&& final(self).schema_cache()@ == cache_after(
                        old(self).schema_cache()@,
                        k,
                        fresh,
                    )
                },
    {
        let key = type_key::<T>();
        let v = backend_subschema::<T>(&mut self.backend);
        let fresh = schema_document_from_value(&v);
        let ghost k0 = key@;
        let ghost f0 = fresh.deep_view();
        let r = self.schema_for_key(key, fresh);
        proof {
            assert(r.deep_view() == cache_result(old(self).schema_cache()@, k0, f0));
            assert(self.schema_cache()@ == cache_after(old(self).schema_cache()@, k0, f0));
        }
        r
    }

    /// The schema of `T` with every subschema inlined; nothing is
    /// registered.
    pub fn json_schema_no_ref<T: schemars::JsonSchema>(&mut self) -> (r: SchemaDocument)
        requires
            old(self).wf(),
        ensures
            final(self).wf(),
            final(self).operations() == old(self).operations(),
            final(self).security() == old(self).security(),
            final(self).schema_cache() == old(self).schema_cache(),
    {
        let v = backend_root_inline::<T>();
        schema_document_from_value(&v)
    }

    /// The schema registry built so far.
    pub fn schema_generator(&self) -> (r: &SchemaBackend) {
        &self.backend
    }

    /// Freezes the generator into the finished document: every stored
    /// operation identifier has its module-path separators flattened to
    /// underscores, the registered schemas and security schemes become the
    /// document components, and the generator is consumed.
    pub fn into_openapi(self) -> (r: OpenApi)
        requires
            self.wf(),
        ensures
            r.wf(),
            r.openapi@ == "3.0.0"@,
            r.paths@.len() == self.operations()@.len(),
            forall|i: int|
                0 <= i < self.operations()@.len() ==> (#[trigger] r.paths@[i]).0
                    == self.operations()@[i].0 && r.paths@[i].1 == flatten_item(
                    self.operations()@[i].1,
                ),
            match r.components {
                Some(c) => c.security_schemes@ == self.security()@ && c.schemas@
                    == self.schema_cache()@,
                None => false,
            },
    {
        let OpenApiGenerator { settings: _, backend: _, schema_cache, operations, security_schemes } =
            self;
        let ghost ops0 = operations@;
        let entries = operations.into_entries();
        let mut paths: StrMap<PathItem> = StrMap::new();
        let mut i: usize = 0;
        while i < entries.len()
            invariant
                i <= entries@.len(),
                entries@.len() == ops0.len(),
                forall|k: int|
                    0 <= k < ops0.len() ==> (#[trigger] entries@[k]).0@ == ops0[k].0
                        && entries@[k].1.deep_view() == ops0[k].1,
                paths.wf(),
                crate::openapi3::assoc_unique(ops0),
                paths@.len() == i,
                forall|k: int|
                    0 <= k < i ==> (#[trigger] paths@[k]).0 == ops0[k].0 && paths@[k].1
                        == flatten_item(ops0[k].1),
            decreases entries.len() - i,
        {
            let (k, item) = &entries[i];
            let flat = flatten_path_item(item);
            proof {
                assert forall|j: int| 0 <= j < i implies (#[trigger] paths@[j]).0 != k@ by {
                    assert(ops0[j].0 != ops0[i as int].0);
                }
                crate::openapi3::lemma_assoc_map_contains(paths@, k@);
                assert(!assoc_map(paths@).contains_key(k@));
            }
            paths.insert_keep(k.eq_clone(), flat);
            i = i + 1;
        }
        let components = Components { schemas: schema_cache, security_schemes };
        OpenApi {
            openapi: String::from_str("3.0.0"),
            info: crate::openapi3::Info::empty(),
            servers: Vec::new(),
            paths,
            components: Some(components),
            tags: Vec::new(),
        }
    }
}

/// An operation identifier with leading colons removed.
pub open spec fn trim_colon_start(s: Seq<char>) -> Seq<char>
    decreases s.len(),
{
    if s.len() > 0 && s[0] == ':' {
        trim_colon_start(s.skip(1))
    } else {
        s
    }
}

/// Each `::` separator replaced by one underscore.
pub open spec fn flatten_sep(s: Seq<char>) -> Seq<char>
    decreases s.len(),
{
    if s.len() >= 2 && s[0] == ':' && s[1] == ':' {
        seq!['_'] + flatten_sep(s.skip(2))
    } else if s.len() == 0 {
        s
    } else {
        seq![s[0]] + flatten_sep(s.skip(1))
    }
}

/// The operation-identifier flattening transform: leading colons dropped,
/// module-path separators turned into underscores.
pub open spec fn flatten_id(s: Seq<char>) -> Seq<char> {
    flatten_sep(trim_colon_start(s))
}

/// An operation with its identifier flattened.
pub open spec fn flatten_op(op: OperationModel) -> OperationModel {
    OperationModel {
        operation_id: match op.operation_id {
            Some(id) => Some(flatten_id(id)),
            None => None,
        },
        ..op
    }
}

/// A path item with every operation's identifier flattened.
pub open spec fn flatten_item(pi: PathItemModel) -> PathItemModel {
    PathItemModel {
        get: flatten_slot(pi.get),
        put: flatten_slot(pi.put),
        post: flatten_slot(pi.post),
        delete: flatten_slot(pi.delete),
        options: flatten_slot(pi.options),
        head: flatten_slot(pi.head),
        patch: flatten_slot(pi.patch),
        trace: flatten_slot(pi.trace),
    }
}

pub open spec fn flatten_slot(s: Option<OperationModel>) -> Option<OperationModel> {
    match s {
        Some(op) => Some(flatten_op(op)),
        None => None,
    }
}

proof fn lemma_trim_colon_skip(s: Seq<char>, a: int)
    requires
        0 <= a <= s.len(),
        forall|k: int| 0 <= k < a ==> s[k] == ':',
    ensures
        trim_colon_start(s) == trim_colon_start(s.skip(a)),
    decreases a,
{
    if a > 0 {
        lemma_trim_colon_skip(s.skip(1), a - 1);
        assert(s.skip(1).skip(a - 1) =~= s.skip(a));
    } else {
        assert(s.skip(0) =~= s);
    }
}

/// Flattens an operation identifier, per `flatten_id`.
pub fn flatten_operation_id(s: &str) -> (r: String)
    ensures
        r@ == flatten_id(s@),
{
    let chars = crate::text::str_chars(s);
    let mut a: usize = 0;
    while a < chars.len() && chars[a] == ':'
        invariant
            a <= chars@.len(),
            chars@ == s@,
            forall|k: int| 0 <= k < a ==> chars@[k] == ':',
        decreases chars.len() - a,
    {
        a = a + 1;
    }
    proof {
        lemma_trim_colon_skip(s@, a as int);
        if a < chars@.len() {
            assert(s@.skip(a as int)[0] == s@[a as int]);
        } else {
            assert(s@.skip(a as int) =~= Seq::<char>::empty());
        }
        assert(trim_colon_start(s@) == s@.skip(a as int));
    }
    let t = crate::text::subvec(&chars, a, chars.len());
    proof {
        assert(t@ =~= s@.skip(a as int));
    }
    let mut out: Vec<char> = Vec::new();
    let mut i: usize = 0;
    proof {
        assert(t@.skip(0) =~= t@);
    }
    while i < t.len()
        invariant
            i <= t@.len(),
            flatten_sep(t@) == out@ + flatten_sep(t@.skip(i as int)),
        decreases t.len() - i,
    {
        let ghost out0 = out@;
        if i + 1 < t.len() && t[i] == ':' && t[i + 1] == ':' {
            out.push('_');
            proof {
                assert(t@.skip(i as int)[0] == t@[i as int]);
                assert(t@.skip(i as int)[1] == t@[i + 1]);
                assert(t@.skip(i as int).skip(2) =~= t@.skip(i + 2 as int));
                assert(flatten_sep(t@.skip(i as int)) == seq!['_'] + flatten_sep(
                    t@.skip(i + 2 as int),
                ));
                assert(out0 + (seq!['_'] + flatten_sep(t@.skip(i + 2 as int))) =~= out@
                    + flatten_sep(t@.skip(i + 2 as int)));
            }
            i = i + 2;
        } else {
            out.push(t[i]);
            proof {
                assert(t@.skip(i as int)[0] == t@[i as int]);
                assert(t@.skip(i as int).skip(1) =~= t@.skip(i + 1 as int));
                if t@.skip(i as int).len() >= 2 && t@.skip(i as int)[0] == ':' && t@.skip(
                    i as int,
                )[1] == ':' {
                    assert(false);
                }
                assert(flatten_sep(t@.skip(i as int)) == seq![t@[i as int]] + flatten_sep(
                    t@.skip(i + 1 as int),
                ));
                assert(out0 + (seq![t@[i as int]] + flatten_sep(t@.skip(i + 1 as int))) =~= out@
                    + flatten_sep(t@.skip(i + 1 as int)));
            }
            i = i + 1;
        }
    }
    proof {
        assert(t@.skip(t@.len() as int) =~= Seq::<char>::empty());
        assert(flatten_sep(t@) =~= out@);
    }
    crate::text::chars_to_string(&out)
}

/// Flattens every operation identifier of a path item, per `flatten_item`.
fn flatten_path_item(pi: &PathItem) -> (r: PathItem)
    ensures
        r.deep_view() == flatten_item(pi.deep_view()),
{
    let r = PathItem {
        get: flatten_operation_slot(&pi.get),
        put: flatten_operation_slot(&pi.put),
        post: flatten_operation_slot(&pi.post),
        delete: flatten_operation_slot(&pi.delete),
        options: flatten_operation_slot(&pi.options),
        head: flatten_operation_slot(&pi.head),
        patch: flatten_operation_slot(&pi.patch),
        trace: flatten_operation_slot(&pi.trace),
    };
    proof {
        assert(r.deep_view() =~~= flatten_item(pi.deep_view()));
    }
    r
}

fn flatten_operation_slot(s: &Option<Operation>) -> (r: Option<Operation>)
    ensures
        r.deep_view() == flatten_slot(s.deep_view()),
{
    let r = match s {
        Some(op) => {
            let mut new_op = op.eq_clone();
            new_op.operation_id = match &op.operation_id {
                Some(id) => Some(flatten_operation_id(id.as_str())),
                None => None,
            };
            Some(new_op)
        },
        None => None,
    };
    proof {
        assert(r.deep_view() =~~= flatten_slot(s.deep_view()));
    }
    r
}

} // verus!
