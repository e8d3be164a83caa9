//! The document model: plain data structures mirroring the objects of an
//! OpenAPI-style description document. The extractor and the type inference
//! engine read a small part of them; the rest is carried through untouched.
//!
//! Unstructured attachments (external documentation, examples, security
//! requirements, headers, links) are opaque YAML values: the pipeline never
//! looks inside them.

use crate::strmap::StrMap;
use crate::MaybeRef;
use crate::MaybeRefModel;
use vstd::prelude::*;

verus! {

/// A `$ref` pointer: a string of the form `#/components/<kind>/<name>`.
/// Only the trailing name segment after the final `/` is used as the
/// registry lookup key.
#[derive(Debug, PartialEq)]
pub struct Ref {
    pub ref_: String,
}

/// Opaque YAML value, carried through the document untouched. Relies on
/// serde_yaml's `Value` for storage only: nothing here reads or builds one.
#[verifier::external_type_specification]
#[verifier::external_body]
pub struct ExYamlValue(serde_yaml::Value);

/// Where a parameter is carried.
#[derive(Clone, Copy, Debug, PartialEq, Eq, Structural)]
pub enum Location {
    Path,
    Query,
    Header,
    Cookie,
}

/// A schema's type tag.
#[derive(Clone, Copy, Debug, PartialEq, Eq, Structural)]
pub enum Type {
    Boolean,
    Object,
    Array,
    Number,
    String,
    Integer,
    Null,
}

/// A schema's format refinement.
#[derive(Clone, Copy, Debug, PartialEq, Eq, Structural)]
pub enum Format {
    Int32,
    Int64,
    Float,
    Double,
    Byte,
    Binary,
    Date,
    DateTime,
    Password,
}

/// Whether this format refines the given type tag: `int32`/`int64` refine
/// `integer`, `float`/`double` refine `number`, and the textual formats
/// refine `string`. Any other pairing is a disagreement.
pub open spec fn format_agrees(f: Format, t: Type) -> bool {
    match (t, f) {
        (Type::Number, Format::Float) => true,
        (Type::Number, Format::Double) => true,
        (Type::Integer, Format::Int32) => true,
        (Type::Integer, Format::Int64) => true,
        (Type::String, Format::Byte) => true,
        (Type::String, Format::Binary) => true,
        (Type::String, Format::Date) => true,
        (Type::String, Format::DateTime) => true,
        (Type::String, Format::Password) => true,
        _ => false,
    }
}

impl Format {
    /// Whether this format agrees with the given type tag.
    pub fn compatible_with_type(self, type_: Type) -> (r: bool)
        ensures
            r == format_agrees(self, type_),
    {
        match (type_, self) {
            (Type::Number, Format::Float) => true,
            (Type::Number, Format::Double) => true,
            (Type::Integer, Format::Int32) => true,
            (Type::Integer, Format::Int64) => true,
            (Type::String, Format::Byte) => true,
            (Type::String, Format::Binary) => true,
            (Type::String, Format::Date) => true,
            (Type::String, Format::DateTime) => true,
            (Type::String, Format::Password) => true,
            _ => false,
        }
    }
}

/// How a parameter's value is serialized.
#[derive(Clone, Copy, Debug, PartialEq, Eq, Structural)]
pub enum Style {
    Form,
    Simple,
}

/// Unstructured objects the pipeline carries through without reading.
pub type SecurityRequirement = serde_yaml::Value;

pub type ExternalDocs = serde_yaml::Value;

pub type Header = serde_yaml::Value;

pub type Link = serde_yaml::Value;

pub type SecurityScheme = serde_yaml::Value;

/// A callback: a named table of paths.
pub type Callback = StrMap<Path>;

/// Contact information of the described API.
#[derive(Debug)]
pub struct Contact {
    pub name: Option<String>,
    pub url: Option<String>,
    pub email: Option<String>,
}

/// License of the described API.
#[derive(Debug)]
pub struct License {
    pub name: String,
    pub url: Option<String>,
}

/// Descriptive metadata of the document.
#[derive(Debug)]
pub struct Info {
    pub title: String,
    pub description: Option<String>,
    pub terms_of_service: Option<String>,
    pub contact: Option<Contact>,
    pub license: Option<License>,
    pub version: String,
}

/// A substitutable part of a server URL.
#[derive(Debug)]
pub struct ServerVariable {
    pub enum_: Vec<String>,
    pub default: String,
    pub description: Option<String>,
}

/// A server the API is reachable on.
#[derive(Debug)]
pub struct Server {
    pub url: String,
    pub description: Option<String>,
    pub variables: Option<StrMap<ServerVariable>>,
}

/// A grouping tag.
#[derive(Debug)]
pub struct Tag {
    pub name: String,
    pub description: Option<String>,
    pub external_docs: Option<ExternalDocs>,
}

/// A value's shape. Self-referential: a schema may own nested schemas
/// through `properties` and `items`, each possibly replaced by a `$ref`.
///
/// Policies this model fixes (the dialects differ): the type tag set and
/// the item schemas are lists where an empty list means the key is absent,
/// and `items` enumerates every permissible element schema of an array.
#[derive(Debug, PartialEq)]
pub struct Schema {
    pub required: Option<Vec<String>>,
    pub type_: Vec<Type>,
    pub format: Option<Format>,
    pub properties: Option<StrMap<MaybeRef<Schema>>>,
    pub items: Vec<MaybeRef<Schema>>,
}

impl Default for Schema {
    /// The empty schema: no constraints at all.
    fn default() -> (r: Schema)
        ensures
            r.required is None,
            r.type_@ == Seq::<Type>::empty(),
            r.format is None,
            r.properties is None,
            r.items@ == Seq::<MaybeRef<Schema>>::empty(),
    {
        Schema {
            required: None,
            type_: Vec::new(),
            format: None,
            properties: None,
            items: Vec::new(),
        }
    }
}

/// Ghost model of a `Schema`: strings become character sequences, vectors
/// become sequences, map entries become key/value pairs.
pub struct SchemaModel {
    pub required: Option<Seq<Seq<char>>>,
    pub type_: Seq<Type>,
    pub format: Option<Format>,
    pub properties: Option<Seq<(Seq<char>, MaybeRefModel<SchemaModel>)>>,
    pub items: Seq<MaybeRefModel<SchemaModel>>,
}

/// The model of a schema.
pub open spec fn schema_model(s: Schema) -> SchemaModel
    decreases s,
{
    SchemaModel {
        required: match s.required {
            Some(v) => Some(v@.map_values(|x: String| x@)),
            None => None,
        },
        type_: s.type_@,
        format: s.format,
        properties: match s.properties {
            Some(m) => Some(props_model(m.entries@)),
            None => None,
        },
        items: items_model(s.items@),
    }
}

/// The models of a property table's entries.
pub open spec fn props_model(es: Seq<(String, MaybeRef<Schema>)>) -> Seq<
    (Seq<char>, MaybeRefModel<SchemaModel>),
>
    decreases es,
{
    if es.len() == 0 {
        Seq::empty()
    } else {
        props_model(es.drop_last()).push((es.last().0@, mrs_model(es.last().1)))
    }
}

/// The models of a list of item schemas.
pub open spec fn items_model(es: Seq<MaybeRef<Schema>>) -> Seq<MaybeRefModel<SchemaModel>>
    decreases es,
{
    if es.len() == 0 {
        Seq::empty()
    } else {
        items_model(es.drop_last()).push(mrs_model(es.last()))
    }
}

/// The model of a possibly referenced schema.
pub open spec fn mrs_model(m: MaybeRef<Schema>) -> MaybeRefModel<SchemaModel>
    decreases m,
{
    match m {
        MaybeRef::Concrete(s) => MaybeRefModel::Concrete(schema_model(s)),
        MaybeRef::Ref(r) => MaybeRefModel::Ref(r.ref_@),
    }
}

/// `items_model` maps `mrs_model` over the entries.
pub proof fn lemma_items_model(es: Seq<MaybeRef<Schema>>)
    ensures
        items_model(es).len() == es.len(),
        forall|i: int| 0 <= i < es.len() ==> items_model(es)[i] == mrs_model(#[trigger] es[i]),
    decreases es.len(),
{
    if es.len() > 0 {
        lemma_items_model(es.drop_last());
        assert(forall|i: int| 0 <= i < es.len() - 1 ==> #[trigger] es[i] == es.drop_last()[i]);
    }
}

/// `props_model` maps key views and `mrs_model` over the entries.
pub proof fn lemma_props_model(es: Seq<(String, MaybeRef<Schema>)>)
    ensures
        props_model(es).len() == es.len(),
        forall|i: int|
            0 <= i < es.len() ==> props_model(es)[i] == ((#[trigger] es[i]).0@, mrs_model(
                es[i].1,
            )),
    decreases es.len(),
{
    if es.len() > 0 {
        lemma_props_model(es.drop_last());
        assert(forall|i: int| 0 <= i < es.len() - 1 ==> #[trigger] es[i] == es.drop_last()[i]);
    }
}

/// A deep copy of a possibly referenced schema, with the same model.
pub fn clone_maybe_ref_schema(m: &MaybeRef<Schema>) -> (r: MaybeRef<Schema>)
    ensures
        mrs_model(r) == mrs_model(*m),
    decreases *m,
{
    match m {
        MaybeRef::Concrete(s) => MaybeRef::Concrete(clone_schema(s)),
        MaybeRef::Ref(r) => MaybeRef::Ref(Ref { ref_: r.ref_.clone() }),
    }
}

/// A deep copy of a schema, with the same model.
pub fn clone_schema(s: &Schema) -> (r: Schema)
    ensures
        schema_model(r) == schema_model(*s),
    decreases *s,
{
    let required: Option<Vec<String>> = match &s.required {
        None => None,
        Some(v) => {
            let mut out: Vec<String> = Vec::new();
            let mut i: usize = 0;
            while i < v.len()
                invariant
                    i <= v.len(),
                    out@.len() == i,
                    forall|j: int| 0 <= j < i ==> (#[trigger] out@[j])@ == v@[j]@,
                decreases v@.len() - i,
            {
                out.push(v[i].clone());
                i = i + 1;
            }
            proof {
                assert(out@.map_values(|x: String| x@) =~= v@.map_values(|x: String| x@));
            }
            Some(out)
        },
    };
    let mut types: Vec<Type> = Vec::new();
    let mut i: usize = 0;
    while i < s.type_.len()
        invariant
            i <= s.type_@.len(),
            types@.len() == i,
            forall|j: int| 0 <= j < i ==> types@[j] == s.type_@[j],
        decreases s.type_@.len() - i,
    {
        types.push(s.type_[i]);
        i = i + 1;
    }
    proof {
        assert(types@ =~= s.type_@);
    }
    let properties: Option<StrMap<MaybeRef<Schema>>> = match &s.properties {
        None => None,
        Some(m) => {
            let mut entries: Vec<(String, MaybeRef<Schema>)> = Vec::new();
            let mut i: usize = 0;
            while i < m.entries.len()
                invariant
                    i <= m.entries@.len(),
                    entries@.len() == i,
                    forall|j: int|
                        0 <= j < i ==> (#[trigger] entries@[j]).0@ == m.entries@[j].0@ && mrs_model(
                            entries@[j].1,
                        ) == mrs_model(m.entries@[j].1),
                    s.properties == Some(*m),
                decreases m.entries@.len() - i,
            {
                proof {
                    assert(decreases_to!(*s => s.properties));
                    assert(decreases_to!(s.properties => s.properties->Some_0));
                    assert(s.properties->Some_0 == *m);
                    assert(decreases_to!(*m => m.entries@[i as int].1));
                }
                let key = m.entries[i].0.clone();
                let val = clone_maybe_ref_schema(&m.entries[i].1);
                entries.push((key, val));
                i = i + 1;
            }
            proof {
                lemma_props_model(entries@);
                lemma_props_model(m.entries@);
                assert forall|j: int|
                    0 <= j < entries@.len() implies props_model(entries@)[j] == props_model(
                    m.entries@,
                )[j] by {
                    assert(props_model(entries@)[j] == (entries@[j].0@, mrs_model(entries@[j].1)));
                    assert(props_model(m.entries@)[j] == (m.entries@[j].0@, mrs_model(
                        m.entries@[j].1,
                    )));
                }
                assert(props_model(entries@) =~= props_model(m.entries@));
            }
            Some(StrMap { entries })
        },
    };
    let mut items: Vec<MaybeRef<Schema>> = Vec::new();
    let mut i: usize = 0;
    while i < s.items.len()
        invariant
            i <= s.items@.len(),
            items@.len() == i,
            forall|j: int|
                0 <= j < i ==> mrs_model(#[trigger] items@[j]) == mrs_model(s.items@[j]),
        decreases s.items@.len() - i,
    {
        items.push(clone_maybe_ref_schema(&s.items[i]));
        i = i + 1;
    }
    proof {
        lemma_items_model(items@);
        lemma_items_model(s.items@);
        assert forall|j: int|
            0 <= j < items@.len() implies items_model(items@)[j] == items_model(s.items@)[j] by {
            assert(items_model(items@)[j] == mrs_model(items@[j]));
            assert(items_model(s.items@)[j] == mrs_model(s.items@[j]));
        }
        assert(items_model(items@) =~= items_model(s.items@));
    }
    Schema { required, type_: types, format: s.format, properties, items }
}

/// One example of a value, carried through untouched.
#[derive(Debug)]
pub struct Example {
    pub summary: Option<String>,
    pub description: Option<String>,
    pub value: serde_yaml::Value,
    pub external_value: Option<String>,
}

/// One representation of a request or response body.
#[derive(Debug)]
pub struct MediaType {
    pub schema: Option<MaybeRef<Schema>>,
    pub example: Option<serde_yaml::Value>,
    pub examples: Option<StrMap<MaybeRef<Example>>>,
}

/// The body an operation accepts.
#[derive(Debug)]
pub struct RequestBody {
    pub description: Option<String>,
    pub content: StrMap<MediaType>,
    pub required: Option<bool>,
}

/// One declared input of an operation.
#[derive(Debug)]
pub struct Parameter {
    pub name: String,
    pub in_: Location,
    pub description: Option<String>,
    pub required: Option<bool>,
    pub deprecated: Option<bool>,
    pub allow_empty_value: Option<bool>,
    pub style: Option<Style>,
    pub explode: Option<bool>,
    pub allow_reserved: Option<bool>,
    pub schema: MaybeRef<Schema>,
    pub example: Option<serde_yaml::Value>,
    pub examples: Option<StrMap<MaybeRef<Example>>>,
    pub content: Option<StrMap<MediaType>>,
}

/// One declared outcome of an operation, keyed by status code in the
/// operation's response table.
#[derive(Debug)]
pub struct ResponseObj {
    pub description: String,
    pub headers: Option<StrMap<MaybeRef<Header>>>,
    pub content: Option<StrMap<MediaType>>,
    pub links: Option<StrMap<MaybeRef<Link>>>,
}

impl ResponseObj {
    /// Well-formed: the content table, when present, is ordered.
    pub open spec fn wf(self) -> bool {
        match self.content {
            Some(c) => c.wf(),
            None => true,
        }
    }
}

/// One callable operation of a path.
#[derive(Debug)]
pub struct Operation {
    pub tags: Option<Vec<String>>,
    pub summary: Option<String>,
    pub description: Option<String>,
    pub external_docs: Option<ExternalDocs>,
    pub operation_id: Option<String>,
    pub parameters: Option<Vec<MaybeRef<Parameter>>>,
    pub request_body: Option<MaybeRef<RequestBody>>,
    pub responses: StrMap<MaybeRef<ResponseObj>>,
    pub callbacks: Option<StrMap<MaybeRef<Callback>>>,
    pub deprecated: Option<bool>,
    pub security: Option<Vec<SecurityRequirement>>,
    pub servers: Option<Vec<Server>>,
}

/// Well-formedness of a possibly referenced response.
pub open spec fn mr_response_wf(m: MaybeRef<ResponseObj>) -> bool {
    match m {
        MaybeRef::Concrete(r) => r.wf(),
        MaybeRef::Ref(_) => true,
    }
}

impl Operation {
    /// Well-formed: the response table is ordered and each inline response
    /// is well-formed.
    pub open spec fn wf(self) -> bool {
        &&& self.responses.wf()
        &&& forall|i: int|
            0 <= i < self.responses.entries@.len() ==> mr_response_wf(
                (#[trigger] self.responses.entries@[i]).1,
            )
    }
}

/// Well-formedness of an optional operation.
pub open spec fn op_opt_wf(o: Option<Operation>) -> bool {
    match o {
        Some(op) => op.wf(),
        None => true,
    }
}

/// The operations reachable under one route.
#[derive(Debug)]
pub struct Path {
    pub ref_: Option<String>,
    pub summary: Option<String>,
    pub description: Option<String>,
    pub get: Option<Operation>,
    pub put: Option<Operation>,
    pub post: Option<Operation>,
    pub delete: Option<Operation>,
    pub options: Option<Operation>,
    pub head: Option<Operation>,
    pub patch: Option<Operation>,
    pub trace: Option<Operation>,
    pub servers: Option<Vec<Server>>,
    pub parameters: Option<Vec<MaybeRef<Parameter>>>,
}

impl Path {
    /// Well-formed: every operation the extractor walks is well-formed.
    pub open spec fn wf(self) -> bool {
        &&& op_opt_wf(self.get)
        &&& op_opt_wf(self.post)
        &&& op_opt_wf(self.put)
        &&& op_opt_wf(self.patch)
        &&& op_opt_wf(self.delete)
    }
}

/// The document's central registry of reusable named objects, one table per
/// object kind.
#[derive(Debug)]
pub struct Components {
    pub schemas: Option<StrMap<MaybeRef<Schema>>>,
    pub responses: Option<StrMap<MaybeRef<ResponseObj>>>,
    pub parameters: Option<StrMap<MaybeRef<Parameter>>>,
    pub examples: Option<StrMap<MaybeRef<Example>>>,
    pub request_bodies: Option<StrMap<MaybeRef<RequestBody>>>,
    pub headers: Option<StrMap<MaybeRef<Header>>>,
    pub security_schemes: Option<StrMap<MaybeRef<SecurityScheme>>>,
    pub links: Option<StrMap<MaybeRef<Link>>>,
    pub callbacks: Option<StrMap<MaybeRef<Callback>>>,
}

impl Default for MediaType {
    /// A media entry with nothing in it.
    fn default() -> (r: MediaType)
        ensures
            r.schema is None,
            r.example is None,
            r.examples is None,
    {
        MediaType { schema: None, example: None, examples: None }
    }
}

impl Default for Components {
    /// A components section with no registries: every lookup through it
    /// fails.
    fn default() -> (r: Components)
        ensures
            r.schemas is None,
            r.responses is None,
            r.parameters is None,
            r.examples is None,
            r.request_bodies is None,
            r.headers is None,
            r.security_schemes is None,
            r.links is None,
            r.callbacks is None,
    {
        Components {
            schemas: None,
            responses: None,
            parameters: None,
            examples: None,
            request_bodies: None,
            headers: None,
            security_schemes: None,
            links: None,
            callbacks: None,
        }
    }
}

/// Well-formedness of an optional registry table.
pub open spec fn reg_opt_wf<T>(reg: Option<StrMap<MaybeRef<T>>>) -> bool {
    match reg {
        Some(m) => m.wf(),
        None => true,
    }
}

impl Components {
    /// Well-formed: the registries the extractor resolves against are
    /// ordered, and every registered inline response is well-formed.
    pub open spec fn wf(self) -> bool {
        &&& reg_opt_wf(self.parameters)
        &&& reg_opt_wf(self.responses)
        &&& match self.responses {
            Some(m) => forall|i: int|
                0 <= i < m.entries@.len() ==> mr_response_wf((#[trigger] m.entries@[i]).1),
            None => true,
        }
    }
}

/// The root of a description document.
#[derive(Debug)]
pub struct OpenApi {
    pub openapi: String,
    pub info: Info,
    pub servers: Option<Vec<Server>>,
    pub paths: StrMap<Path>,
    pub components: Option<Components>,
    pub security: Option<SecurityRequirement>,
    pub tags: Option<Tag>,
    pub external_docs: Option<ExternalDocs>,
}

impl OpenApi {
    /// Well-formed: the path table is ordered, each path is well-formed,
    /// and the component registries are well-formed.
    pub open spec fn wf(self) -> bool {
        &&& self.paths.wf()
        &&& forall|i: int|
            0 <= i < self.paths.entries@.len() ==> (#[trigger] self.paths.entries@[i]).1.wf()
        &&& match self.components {
            Some(c) => c.wf(),
            None => true,
        }
    }
}

} // verus!
