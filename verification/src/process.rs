//! Entrypoint extraction: walking every path and HTTP method of a document,
//! inferring native types for parameters and responses, and emitting one
//! flat `Entrypoint` record per operation.

use crate::errors::Error;
use crate::errors::ErrorModel;
use crate::errors::ExtractionError;
use crate::errors::RefErrorModel;
use crate::errors::ReferenceError;
use crate::errors::TypeError;
use crate::objects::clone_schema;
use crate::objects::Components;
use crate::objects::MediaType;
use crate::objects::OpenApi;
use crate::objects::Operation;
use crate::objects::Parameter;
use crate::objects::Path;
use crate::objects::ResponseObj;
use crate::resolve_opt_in_map;
use crate::objects::format_agrees;
use crate::objects::items_model;
use crate::objects::lemma_items_model;
use crate::objects::mrs_model;
use crate::objects::schema_model;
use crate::objects::Format;
use crate::objects::Location;
use crate::objects::Schema;
use crate::objects::SchemaModel;
use crate::objects::Type;
use crate::strmap::seq_lt;
use crate::strmap::StrMap;
use crate::text;
use crate::text::last_slash;
use crate::text::pointer_key;
use crate::MaybeRef;
use crate::MaybeRefModel;
use vstd::prelude::*;
use vstd::string::StrSliceExecFns;

verus! {

/// The HTTP methods the extractor surfaces, in its fixed walking order.
#[derive(Clone, Copy, Debug, PartialEq, Eq, PartialOrd, Ord, Structural)]
pub enum Method {
    Get,
    Post,
    Put,
    Patch,
    Delete,
}

/// The closed type algebra the inference engine produces. `Optional` wraps
/// any other variant when the originating field was not marked required;
/// `Named` stands for a referenced component schema, treated as a nominal
/// type by name; `Anonymous` carries a raw schema whose structural
/// expansion is deferred to downstream consumers.
///
/// The textual formats (byte, binary, date, date-time, password) all
/// collapse to `String`: dates are not distinct variants here.
#[derive(Debug, PartialEq)]
pub enum NativeType {
    I32,
    I64,
    F32,
    F64,
    Bool,
    String,
    Named(String),
    Array(Vec<NativeType>),
    Optional(Box<NativeType>),
    Anonymous(Box<Schema>),
}

/// Ghost model of a `NativeType`.
pub enum TypeModel {
    I32,
    I64,
    F32,
    F64,
    Bool,
    String,
    Named(Seq<char>),
    Array(Seq<TypeModel>),
    Optional(Box<TypeModel>),
    Anonymous(SchemaModel),
}

/// The model of a native type.
pub open spec fn nt_model(t: NativeType) -> TypeModel
    decreases t,
{
    match t {
        NativeType::I32 => TypeModel::I32,
        NativeType::I64 => TypeModel::I64,
        NativeType::F32 => TypeModel::F32,
        NativeType::F64 => TypeModel::F64,
        NativeType::Bool => TypeModel::Bool,
        NativeType::String => TypeModel::String,
        NativeType::Named(s) => TypeModel::Named(s@),
        NativeType::Array(v) => TypeModel::Array(nt_seq_model(v@)),
        NativeType::Optional(b) => TypeModel::Optional(Box::new(nt_model(*b))),
        NativeType::Anonymous(b) => TypeModel::Anonymous(schema_model(*b)),
    }
}

/// The models of a list of native types.
pub open spec fn nt_seq_model(s: Seq<NativeType>) -> Seq<TypeModel>
    decreases s,
{
    if s.len() == 0 {
        Seq::empty()
    } else {
        nt_seq_model(s.drop_last()).push(nt_model(s.last()))
    }
}

/// `nt_seq_model` maps `nt_model` over the elements.
pub proof fn lemma_nt_seq_model(s: Seq<NativeType>)
    ensures
        nt_seq_model(s).len() == s.len(),
        forall|i: int| 0 <= i < s.len() ==> nt_seq_model(s)[i] == nt_model(#[trigger] s[i]),
    decreases s.len(),
{
    if s.len() > 0 {
        lemma_nt_seq_model(s.drop_last());
        assert(forall|i: int| 0 <= i < s.len() - 1 ==> #[trigger] s[i] == s.drop_last()[i]);
    }
}

/// The result of inference before the required flag is applied: the bare
/// type when the field is required, the type wrapped in `Optional`
/// otherwise.
pub open spec fn wrap_required(required: bool, t: TypeModel) -> TypeModel {
    if required {
        t
    } else {
        TypeModel::Optional(Box::new(t))
    }
}

/// What inferring a native type from a possibly referenced schema returns,
/// for every schema and required flag:
/// - a `$ref` becomes the nominal type `Named(<trailing name segment>)`
///   without consulting any registry; a pointer with no `/` is invalid;
/// - no type tag: an anonymous composite, unless a format is present with
///   no type to check it against;
/// - more than one type tag is ambiguous;
/// - `null` alone is not representable;
/// - an `array` tag without item schemas lacks its items, whatever format
///   stands beside it;
/// - otherwise a format that does not agree with the single type tag is a
///   mismatch;
/// - `boolean`, `integer`, `number`, `string` map to `Bool`, `I64`, `F64`,
///   `String`, refined to `I32`/`F32` by an `int32`/`float` format;
/// - `object` stays an anonymous composite;
/// - `array` requires at least one item schema and infers each item with
///   the same required flag, keeping the multiplicity;
/// and the result is wrapped in `Optional` when the flag is not set.
pub open spec fn infer_model(m: MaybeRefModel<SchemaModel>, required: bool) -> Result<
    TypeModel,
    ErrorModel,
>
    decreases m,
{
    match m {
        MaybeRefModel::Ref(p) => {
            if last_slash(p) < 0 {
                Err(ErrorModel::Reference(RefErrorModel::InvalidPointer))
            } else {
                Ok(wrap_required(required, TypeModel::Named(pointer_key(p))))
            }
        },
        MaybeRefModel::Concrete(s) => {
            if s.type_.len() == 0 {
                if s.format is Some {
                    Err(ErrorModel::Type(TypeError::NoTypeSpecified))
                } else {
                    Ok(wrap_required(required, TypeModel::Anonymous(s)))
                }
            } else if s.type_.len() > 1 {
                Err(ErrorModel::Type(TypeError::AmbiguousTypeArray))
            } else {
                let t = s.type_[0];
                if t is Null {
                    Err(ErrorModel::Type(TypeError::NullTypeUnsupported))
                } else if t is Array && s.items.len() == 0 {
                    Err(ErrorModel::Type(TypeError::MissingItems))
                } else if s.format matches Some(f) && !format_agrees(f, t) {
                    Err(ErrorModel::Type(TypeError::FormatTypeMismatch))
                } else {
                    match t {
                        Type::Boolean => Ok(wrap_required(required, TypeModel::Bool)),
                        Type::Integer => Ok(
                            wrap_required(
                                required,
                                if s.format == Some(Format::Int32) {
                                    TypeModel::I32
                                } else {
                                    TypeModel::I64
                                },
                            ),
                        ),
                        Type::Number => Ok(
                            wrap_required(
                                required,
                                if s.format == Some(Format::Float) {
                                    TypeModel::F32
                                } else {
                                    TypeModel::F64
                                },
                            ),
                        ),
                        Type::String => Ok(wrap_required(required, TypeModel::String)),
                        Type::Object => Ok(wrap_required(required, TypeModel::Anonymous(s))),
                        Type::Array => match infer_items_model(s.items, required) {
                            Ok(ts) => Ok(wrap_required(required, TypeModel::Array(ts))),
                            Err(e) => Err(e),
                        },
                        Type::Null => Err(ErrorModel::Type(TypeError::NullTypeUnsupported)),
                    }
                }
            }
        },
    }
}

/// Inference over a list of item schemas, left to right; the first failure
/// fails the whole list.
pub open spec fn infer_items_model(
    items: Seq<MaybeRefModel<SchemaModel>>,
    required: bool,
) -> Result<Seq<TypeModel>, ErrorModel>
    decreases items,
{
    if items.len() == 0 {
        Ok(Seq::empty())
    } else {
        match infer_items_model(items.drop_last(), required) {
            Err(e) => Err(e),
            Ok(ts) => match infer_model(items.last(), required) {
                Err(e) => Err(e),
                Ok(t) => Ok(ts.push(t)),
            },
        }
    }
}

/// A failed prefix fails the whole list, with the same error.
proof fn lemma_infer_items_prefix_err(
    items: Seq<MaybeRefModel<SchemaModel>>,
    required: bool,
    n: int,
)
    requires
        0 <= n <= items.len(),
        infer_items_model(items.take(n), required) is Err,
    ensures
        infer_items_model(items, required) == infer_items_model(items.take(n), required),
    decreases items.len(),
{
    if n == items.len() {
        assert(items.take(n) =~= items);
    } else {
        assert(items.drop_last().take(n) =~= items.take(n));
        lemma_infer_items_prefix_err(items.drop_last(), required, n);
    }
}

/// Unfolding one step of `infer_items_model` at the end of a prefix.
proof fn lemma_infer_items_step(items: Seq<MaybeRefModel<SchemaModel>>, required: bool, n: int)
    requires
        0 <= n < items.len(),
    ensures
        infer_items_model(items.take(n + 1), required) == (match infer_items_model(
            items.take(n),
            required,
        ) {
            Err(e) => Err::<Seq<TypeModel>, ErrorModel>(e),
            Ok(ts) => match infer_model(items[n], required) {
                Err(e) => Err(e),
                Ok(t) => Ok(ts.push(t)),
            },
        }),
{
    assert(items.take(n + 1).drop_last() =~= items.take(n));
    assert(items.take(n + 1).last() == items[n]);
}

/// No array in this type is empty: every `Array`, at any depth reachable
/// through the type algebra itself, carries at least one element type.
pub open spec fn arrays_nonempty(t: TypeModel) -> bool
    decreases t,
{
    match t {
        TypeModel::Array(ts) => ts.len() >= 1 && seq_arrays_nonempty(ts),
        TypeModel::Optional(b) => arrays_nonempty(*b),
        _ => true,
    }
}

/// No array in any of these types is empty.
pub open spec fn seq_arrays_nonempty(ts: Seq<TypeModel>) -> bool
    decreases ts,
{
    if ts.len() == 0 {
        true
    } else {
        seq_arrays_nonempty(ts.drop_last()) && arrays_nonempty(ts.last())
    }
}

/// Wrapping for the required flag keeps every array nonempty.
proof fn lemma_wrap_arrays(required: bool, t: TypeModel)
    requires
        arrays_nonempty(t),
    ensures
        arrays_nonempty(wrap_required(required, t)),
{
    assert(arrays_nonempty(TypeModel::Optional(Box::new(t))) == arrays_nonempty(t));
}

/// Every native type that inference produces has at least one element type
/// in each of its arrays: an array schema without items never succeeds,
/// at the top or anywhere below.
pub proof fn lemma_infer_arrays_nonempty(m: MaybeRefModel<SchemaModel>, required: bool)
    ensures
        infer_model(m, required) matches Ok(t) ==> arrays_nonempty(t),
    decreases m,
{
    match m {
        MaybeRefModel::Ref(p) => {
            if last_slash(p) >= 0 {
                lemma_wrap_arrays(required, TypeModel::Named(pointer_key(p)));
            }
        },
        MaybeRefModel::Concrete(s) => {
            if s.type_.len() == 0 && s.format is None {
                lemma_wrap_arrays(required, TypeModel::Anonymous(s));
            } else if s.type_.len() == 1 {
                let t = s.type_[0];
                match t {
                    Type::Boolean => lemma_wrap_arrays(required, TypeModel::Bool),
                    Type::Integer => {
                        lemma_wrap_arrays(required, TypeModel::I32);
                        lemma_wrap_arrays(required, TypeModel::I64);
                    },
                    Type::Number => {
                        lemma_wrap_arrays(required, TypeModel::F32);
                        lemma_wrap_arrays(required, TypeModel::F64);
                    },
                    Type::String => lemma_wrap_arrays(required, TypeModel::String),
                    Type::Object => lemma_wrap_arrays(required, TypeModel::Anonymous(s)),
                    Type::Array => {
                        if s.items.len() > 0 {
                            lemma_infer_items_arrays_nonempty(s.items, required);
                            if infer_items_model(s.items, required) is Ok {
                                let ts = infer_items_model(s.items, required)->Ok_0;
                                assert(arrays_nonempty(TypeModel::Array(ts)));
                                lemma_wrap_arrays(required, TypeModel::Array(ts));
                            }
                        }
                    },
                    Type::Null => {
                    },
                }
            }
        },
    }
}

/// Every type list that item inference produces keeps each array nonempty.
proof fn lemma_infer_items_arrays_nonempty(items: Seq<MaybeRefModel<SchemaModel>>, required: bool)
    ensures
        infer_items_model(items, required) matches Ok(ts) ==> seq_arrays_nonempty(ts)
            && ts.len() == items.len(),
    decreases items,
{
    if items.len() > 0 {
        lemma_infer_items_arrays_nonempty(items.drop_last(), required);
        lemma_infer_arrays_nonempty(items.last(), required);
        if infer_items_model(items, required) is Ok {
            let ts = infer_items_model(items, required)->Ok_0;
            assert(ts.drop_last() == infer_items_model(items.drop_last(), required)->Ok_0);
        }
    }
}

/// A schema that is itself a reference with a valid pointer infers to the
/// nominal type named by the pointer's trailing segment, wrapped for the
/// required flag — no registry is consulted, whatever it registers under
/// that name.
pub proof fn lemma_infer_reference(p: Seq<char>, required: bool)
    requires
        last_slash(p) >= 0,
    ensures
        infer_model(MaybeRefModel::Ref(p), required) == Ok::<TypeModel, ErrorModel>(
            wrap_required(required, TypeModel::Named(pointer_key(p))),
        ),
{
}

/// An array schema without item schemas fails with `MissingItems`,
/// whatever format stands beside the tag; one with item schemas infers
/// each item with the same required flag and keeps the multiplicity (no
/// format agrees with the `array` tag, so a format there is a mismatch).
pub proof fn lemma_infer_array(s: SchemaModel, required: bool)
    requires
        s.type_.len() == 1,
        s.type_[0] == Type::Array,
    ensures
        s.items.len() == 0 ==> infer_model(MaybeRefModel::Concrete(s), required) == Err::<
            TypeModel,
            ErrorModel,
        >(ErrorModel::Type(TypeError::MissingItems)),
        s.items.len() > 0 && s.format is Some ==> infer_model(MaybeRefModel::Concrete(s), required)
            == Err::<TypeModel, ErrorModel>(ErrorModel::Type(TypeError::FormatTypeMismatch)),
        s.items.len() > 0 && s.format is None ==> infer_model(MaybeRefModel::Concrete(s), required)
            == (match infer_items_model(s.items, required) {
            Ok(ts) => Ok::<TypeModel, ErrorModel>(wrap_required(required, TypeModel::Array(ts))),
            Err(e) => Err::<TypeModel, ErrorModel>(e),
        }),
{
}

/// A response object with no content key builds to a response carrying no
/// native type and no content type — a valid bodyless outcome, never an
/// error.
pub proof fn lemma_response_without_content(code: Seq<char>, robj: ResponseObj)
    requires
        robj.content is None,
    ensures
        response_from_obj_model(code, robj) == Ok::<ResponseModel, ErrorModel>(
            ResponseModel { status_code: code, return_type: None, content_type: None },
        ),
{
}

impl NativeType {
    /// Infer the native type a possibly referenced schema describes, with
    /// the given required flag.
    pub fn from_json_schema(schema: &MaybeRef<Schema>, required: bool) -> (r: Result<
        NativeType,
        Error,
    >)
        ensures
            match r {
                Ok(t) => infer_model(mrs_model(*schema), required) == Ok::<TypeModel, ErrorModel>(
                    nt_model(t),
                ),
                Err(e) => infer_model(mrs_model(*schema), required) == Err::<
                    TypeModel,
                    ErrorModel,
                >(e@),
            },
        decreases *schema,
    {
        match schema {
            MaybeRef::Ref(r) => {
                match text::rfind_slash(r.ref_.as_str()) {
                    None => Err(Error::Reference(ReferenceError::InvalidPointer)),
                    Some(loc) => {
                        let ptr = r.ref_.as_str();
                        proof {
                            text::lemma_last_slash(r.ref_@);
                        }
                        let n = ptr.unicode_len();
                        let name = ptr.substring_char(loc + 1, n).to_owned();
                        proof {
                            assert(name@ =~= pointer_key(r.ref_@));
                        }
                        Ok(wrap_req(required, NativeType::Named(name)))
                    },
                }
            },
            MaybeRef::Concrete(s) => {
                if s.type_.len() == 0 {
                    if s.format.is_some() {
                        Err(Error::Type(TypeError::NoTypeSpecified))
                    } else {
                        Ok(
                            wrap_req(
                                required,
                                NativeType::Anonymous(Box::new(clone_schema(s))),
                            ),
                        )
                    }
                } else if s.type_.len() > 1 {
                    Err(Error::Type(TypeError::AmbiguousTypeArray))
                } else {
                    let t = s.type_[0];
                    if let Type::Null = t {
                        return Err(Error::Type(TypeError::NullTypeUnsupported));
                    }
                    if let Type::Array = t {
                        if s.items.len() == 0 {
                            return Err(Error::Type(TypeError::MissingItems));
                        }
                    }
                    if let Some(f) = s.format {
                        if !f.compatible_with_type(t) {
                            return Err(Error::Type(TypeError::FormatTypeMismatch));
                        }
                    }
                    match t {
                        Type::Boolean => Ok(wrap_req(required, NativeType::Bool)),
                        Type::Integer => {
                            let base = if matches!(s.format, Some(Format::Int32)) {
                                NativeType::I32
                            } else {
                                NativeType::I64
                            };
                            Ok(wrap_req(required, base))
                        },
                        Type::Number => {
                            let base = if matches!(s.format, Some(Format::Float)) {
                                NativeType::F32
                            } else {
                                NativeType::F64
                            };
                            Ok(wrap_req(required, base))
                        },
                        Type::String => Ok(wrap_req(required, NativeType::String)),
                        Type::Object => Ok(
                            wrap_req(
                                required,
                                NativeType::Anonymous(Box::new(clone_schema(s))),
                            ),
                        ),
                        Type::Array => {
                            proof {
                                lemma_items_model(s.items@);
                            }
                            let ghost ims = items_model(s.items@);
                            let mut natives: Vec<NativeType> = Vec::new();
                            let mut i: usize = 0;
                            proof {
                                assert(infer_model(mrs_model(*schema), required) == (
                                match infer_items_model(ims, required) {
                                    Ok(ts) => Ok::<TypeModel, ErrorModel>(
                                        wrap_required(required, TypeModel::Array(ts)),
                                    ),
                                    Err(e) => Err::<TypeModel, ErrorModel>(e),
                                }));
                            }
                            while i < s.items.len()
                                invariant
                                    i <= s.items@.len(),
                                    *schema == MaybeRef::Concrete(*s),
                                    ims == items_model(s.items@),
                                    ims.len() == s.items@.len(),
                                    forall|j: int|
                                        0 <= j < s.items@.len() ==> ims[j] == mrs_model(
                                            #[trigger] s.items@[j],
                                        ),
                                    infer_model(mrs_model(*schema), required) == (
                                    match infer_items_model(ims, required) {
                                        Ok(ts) => Ok::<TypeModel, ErrorModel>(
                                            wrap_required(required, TypeModel::Array(ts)),
                                        ),
                                        Err(e) => Err::<TypeModel, ErrorModel>(e),
                                    }),
                                    infer_items_model(ims.take(i as int), required) == Ok::<
                                        Seq<TypeModel>,
                                        ErrorModel,
                                    >(nt_seq_model(natives@)),
                                    natives@.len() == i,
                                decreases s.items@.len() - i,
                            {
                                match Self::from_json_schema(&s.items[i], required) {
                                    Err(e) => {
                                        proof {
                                            lemma_infer_items_step(ims, required, i as int);
                                            lemma_infer_items_prefix_err(
                                                ims,
                                                required,
                                                i as int + 1,
                                            );
                                        }
                                        return Err(e);
                                    },
                                    Ok(t) => {
                                        proof {
                                            lemma_infer_items_step(ims, required, i as int);
                                            lemma_nt_seq_model(natives@);
                                            lemma_nt_seq_model(natives@.push(t));
                                            assert(natives@.push(t).drop_last() =~= natives@);
                                        }
                                        natives.push(t);
                                    },
                                }
                                i = i + 1;
                            }
                            proof {
                                assert(ims.take(s.items@.len() as int) =~= ims);
                            }
                            Ok(wrap_req(required, NativeType::Array(natives)))
                        },
                        Type::Null => Err(Error::Type(TypeError::NullTypeUnsupported)),
                    }
                }
            },
        }
    }
}

/// Wrap a type in `Optional` unless the field is required.
fn wrap_req(required: bool, t: NativeType) -> (r: NativeType)
    ensures
        nt_model(r) == wrap_required(required, nt_model(t)),
{
    if required {
        t
    } else {
        NativeType::Optional(Box::new(t))
    }
}

/// Whether a route segment is a placeholder: the entire segment is wrapped
/// in braces with at least one character between them. A segment with text
/// around the braces is a literal, not a placeholder.
pub open spec fn is_placeholder(seg: Seq<char>) -> bool {
    seg.len() >= 3 && seg[0] == '{' && seg[seg.len() - 1] == '}'
}

/// The argument name a placeholder segment declares.
pub open spec fn placeholder_arg(seg: Seq<char>) -> Seq<char> {
    seg.subrange(1, seg.len() - 1)
}

/// The argument names declared by the placeholder segments of a list.
pub open spec fn args_of_segs(segs: Seq<Seq<char>>) -> Set<Seq<char>>
    decreases segs,
{
    if segs.len() == 0 {
        Set::empty()
    } else if is_placeholder(segs.last()) {
        args_of_segs(segs.drop_last()).insert(placeholder_arg(segs.last()))
    } else {
        args_of_segs(segs.drop_last())
    }
}

/// The set of argument names a route template declares through its
/// placeholder segments.
pub open spec fn route_args_spec(route: Seq<char>) -> Set<Seq<char>> {
    args_of_segs(text::split_slash(route))
}

/// The argument names declared by the `{name}` placeholder segments of a
/// route template, in ascending order without duplicates. A segment
/// matches only if the braces wrap the entire segment.
pub fn extract_route_args(route: &str) -> (r: Vec<String>)
    ensures
        forall|i: int, j: int| 0 <= i < j < r@.len() ==> seq_lt(r@[i]@, r@[j]@),
        r@.map_values(|x: String| x@).to_set() == route_args_spec(route@),
{
    let segs = text::split_slash_str(route);
    let ghost segv = text::split_slash(route@);
    let mut found: StrMap<()> = StrMap::new();
    let mut i: usize = 0;
    proof {
        assert(segv.take(0) =~= Seq::<Seq<char>>::empty());
    }
    while i < segs.len()
        invariant
            i <= segs@.len(),
            segs@.map_values(|x: String| x@) == segv,
            segv.len() == segs@.len(),
            found.wf(),
            found.as_map().dom() == args_of_segs(segv.take(i as int)),
        decreases segs@.len() - i,
    {
        let seg = &segs[i];
        proof {
            assert(seg@ == segv[i as int]);
        }
        let m = seg.unicode_len();
        let ghost olddom = found.as_map().dom();
        if m >= 3 && seg.get_char(0) == '{' && seg.get_char(m - 1) == '}' {
            let inner = seg.substring_char(1, m - 1).to_owned();
            proof {
                assert(is_placeholder(segv[i as int]));
                assert(inner@ =~= placeholder_arg(segv[i as int]));
            }
            found.insert(inner, ());
            proof {
                assert(found.as_map().dom() =~= olddom.insert(inner@));
            }
        } else {
            proof {
                assert(!is_placeholder(segv[i as int]));
            }
        }
        proof {
            assert(segv.take(i as int + 1).drop_last() =~= segv.take(i as int));
            assert(segv.take(i as int + 1).last() == segv[i as int]);
        }
        i = i + 1;
    }
    proof {
        assert(segv.take(segs@.len() as int) =~= segv);
    }
    let mut out: Vec<String> = Vec::new();
    let mut j: usize = 0;
    let n = found.len();
    while j < n
        invariant
            j <= n,
            n == found.entries@.len(),
            found.wf(),
            out@.len() == j,
            forall|l: int| 0 <= l < j ==> (#[trigger] out@[l])@ == found.entries@[l].0@,
        decreases n - j,
    {
        out.push(found.key_at(j).clone());
        j = j + 1;
    }
    proof {
        found.lemma_wf_keys_distinct();
        let outv = out@.map_values(|x: String| x@);
        assert forall|a: Seq<char>| outv.to_set().contains(a) implies found.as_map().contains_key(
            a,
        ) by {
            let l = choose|l: int| 0 <= l < outv.len() && outv[l] == a;
            found.lemma_entry_in_map(l);
        }
        assert forall|a: Seq<char>| found.as_map().contains_key(a) implies outv.to_set().contains(
            a,
        ) by {
            crate::strmap::lemma_seq_kv_map_domain(found.entries_model(), a);
            let l = choose|l: int|
                0 <= l < found.entries_model().len() && found.entries_model()[l].0 == a;
            assert(outv[l] == a);
            assert(outv.contains(a));
        }
        assert(outv.to_set() =~= found.as_map().dom());
    }
    out
}

/// One argument of an entrypoint: its name, its inferred native type, and
/// where it is carried.
#[derive(Debug)]
pub struct Arg {
    pub name: String,
    pub type_: NativeType,
    pub location: Location,
}

/// Ghost model of an `Arg`.
pub struct ArgModel {
    pub name: Seq<char>,
    pub type_: TypeModel,
    pub location: Location,
}

/// The model of an argument.
pub open spec fn arg_model(a: Arg) -> ArgModel {
    ArgModel { name: a.name@, type_: nt_model(a.type_), location: a.location }
}

/// The models of a list of arguments.
pub open spec fn args_model(s: Seq<Arg>) -> Seq<ArgModel> {
    s.map_values(|a: Arg| arg_model(a))
}

/// One declared outcome of an entrypoint: its status code, the inferred
/// native type of its body if it has one, and the chosen content type if
/// the response declares any content.
#[derive(Debug)]
pub struct Response {
    pub status_code: String,
    pub return_type: Option<NativeType>,
    pub content_type: Option<String>,
}

impl Default for Response {
    /// A response with an empty status code and no body.
    fn default() -> (r: Response)
        ensures
            r.status_code@ == Seq::<char>::empty(),
            r.return_type is None,
            r.content_type is None,
    {
        Response { status_code: String::new(), return_type: None, content_type: None }
    }
}

/// Ghost model of a `Response`.
pub struct ResponseModel {
    pub status_code: Seq<char>,
    pub return_type: Option<TypeModel>,
    pub content_type: Option<Seq<char>>,
}

/// The model of a response.
pub open spec fn response_model(r: Response) -> ResponseModel {
    ResponseModel {
        status_code: r.status_code@,
        return_type: match r.return_type {
            Some(t) => Some(nt_model(t)),
            None => None,
        },
        content_type: match r.content_type {
            Some(c) => Some(c@),
            None => None,
        },
    }
}

/// The models of a list of responses.
pub open spec fn responses_model(s: Seq<Response>) -> Seq<ResponseModel> {
    s.map_values(|r: Response| response_model(r))
}

/// One extracted, fully typed API operation: route template, HTTP method,
/// arguments, responses, and the operation's identifier.
#[derive(Debug)]
pub struct Entrypoint {
    pub route: String,
    pub method: Method,
    pub args: Vec<Arg>,
    pub responses: Vec<Response>,
    pub operation_id: String,
}

/// Ghost model of an `Entrypoint`.
pub struct EntrypointModel {
    pub route: Seq<char>,
    pub method: Method,
    pub args: Seq<ArgModel>,
    pub responses: Seq<ResponseModel>,
    pub operation_id: Seq<char>,
}

/// The model of an entrypoint.
pub open spec fn entrypoint_model(e: Entrypoint) -> EntrypointModel {
    EntrypointModel {
        route: e.route@,
        method: e.method,
        args: args_model(e.args@),
        responses: responses_model(e.responses@),
        operation_id: e.operation_id@,
    }
}

/// The models of a list of entrypoints.
pub open spec fn eps_model(s: Seq<Entrypoint>) -> Seq<EntrypointModel> {
    s.map_values(|e: Entrypoint| entrypoint_model(e))
}

/// A recorded non-fatal failure: the route and method it arose under, and
/// the error that dropped the parameter, response or operation.
#[derive(Debug)]
pub struct Diagnostic {
    pub route: String,
    pub method: Method,
    pub error: Error,
}

/// Ghost model of a `Diagnostic`.
pub struct DiagnosticModel {
    pub route: Seq<char>,
    pub method: Method,
    pub error: ErrorModel,
}

/// The model of a diagnostic.
pub open spec fn diagnostic_model(d: Diagnostic) -> DiagnosticModel {
    DiagnosticModel { route: d.route@, method: d.method, error: d.error@ }
}

/// The models of a list of diagnostics.
pub open spec fn diags_model(s: Seq<Diagnostic>) -> Seq<DiagnosticModel> {
    s.map_values(|d: Diagnostic| diagnostic_model(d))
}

/// The models of a list of errors.
pub open spec fn errs_model(s: Seq<Error>) -> Seq<ErrorModel> {
    s.map_values(|e: Error| e@)
}

/// Errors wrapped as diagnostics under one route and method.
pub open spec fn wrap_diags(route: Seq<char>, method: Method, es: Seq<ErrorModel>) -> Seq<
    DiagnosticModel,
> {
    es.map_values(|e: ErrorModel| DiagnosticModel { route, method, error: e })
}

/// The parameter registry of a document's components, when both exist.
pub open spec fn params_reg_model(c: Option<Components>) -> Option<
    Map<Seq<char>, MaybeRef<Parameter>>,
> {
    match c {
        Some(c) => match c.parameters {
            Some(m) => Some(m.as_map()),
            None => None,
        },
        None => None,
    }
}

/// The response registry of a document's components, when both exist.
pub open spec fn responses_reg_model(c: Option<Components>) -> Option<
    Map<Seq<char>, MaybeRef<ResponseObj>>,
> {
    match c {
        Some(c) => match c.responses {
            Some(m) => Some(m.as_map()),
            None => None,
        },
        None => None,
    }
}

/// Well-formedness of an optional components section.
pub open spec fn components_wf_opt(c: Option<Components>) -> bool {
    match c {
        Some(c) => c.wf(),
        None => true,
    }
}

/// Whether a parameter was explicitly marked required; it defaults to not
/// required.
pub open spec fn param_required(p: Parameter) -> bool {
    p.required == Some(true)
}

/// What building one argument from a possibly referenced parameter
/// returns: the parameter is resolved against the parameter registry, its
/// native type is inferred with the parameter's own required flag, and its
/// name and location are carried over. Resolution or inference failure
/// fails only this argument.
pub open spec fn build_arg_model(
    m: MaybeRef<Parameter>,
    reg: Option<Map<Seq<char>, MaybeRef<Parameter>>>,
) -> Result<ArgModel, ErrorModel> {
    match resolve_opt_in_map(m, reg) {
        Err(e) => Err(ErrorModel::Reference(e)),
        Ok(p) => match infer_model(mrs_model(p.schema), param_required(p)) {
            Err(e) => Err(e),
            Ok(t) => Ok(ArgModel { name: p.name@, type_: t, location: p.in_ }),
        },
    }
}

/// Building every argument of an operation, left to right: a failed
/// parameter is dropped and its error recorded, the rest go on.
pub open spec fn build_args_model(
    ps: Seq<MaybeRef<Parameter>>,
    reg: Option<Map<Seq<char>, MaybeRef<Parameter>>>,
) -> (Seq<ArgModel>, Seq<ErrorModel>)
    decreases ps,
{
    if ps.len() == 0 {
        (Seq::empty(), Seq::empty())
    } else {
        let (args, errs) = build_args_model(ps.drop_last(), reg);
        match build_arg_model(ps.last(), reg) {
            Ok(a) => (args.push(a), errs),
            Err(e) => (args, errs.push(e)),
        }
    }
}

/// The declared parameters of an operation.
pub open spec fn op_params(op: Operation) -> Seq<MaybeRef<Parameter>> {
    match op.parameters {
        Some(v) => v@,
        None => Seq::empty(),
    }
}

/// What building one response from a resolved response object returns: a
/// response with no `content` key carries no native type and no content
/// type; a content table that is present but empty is an error, as is a
/// selected media entry without a schema. Otherwise the first
/// (content type, media) pair of the content table is selected and the
/// media's schema is inferred with the required flag set (a declared
/// response body is always present).
pub open spec fn response_from_obj_model(code: Seq<char>, robj: ResponseObj) -> Result<
    ResponseModel,
    ErrorModel,
> {
    match robj.content {
        None => Ok(ResponseModel { status_code: code, return_type: None, content_type: None }),
        Some(cmap) => {
            if cmap.entries@.len() == 0 {
                Err(ErrorModel::Extraction(ExtractionError::EmptyContentMap))
            } else {
                let ct = cmap.entries@[0].0@;
                let media = cmap.entries@[0].1;
                match media.schema {
                    None => Err(ErrorModel::Extraction(ExtractionError::MissingMediaSchema)),
                    Some(mrs) => match infer_model(mrs_model(mrs), true) {
                        Err(e) => Err(e),
                        Ok(t) => Ok(
                            ResponseModel {
                                status_code: code,
                                return_type: Some(t),
                                content_type: Some(ct),
                            },
                        ),
                    },
                }
            }
        },
    }
}

/// What building one response entry returns: the response object is
/// resolved against the response registry, then built from the resolved
/// object.
pub open spec fn build_response_model(
    code: Seq<char>,
    m: MaybeRef<ResponseObj>,
    reg: Option<Map<Seq<char>, MaybeRef<ResponseObj>>>,
) -> Result<ResponseModel, ErrorModel> {
    match resolve_opt_in_map(m, reg) {
        Err(e) => Err(ErrorModel::Reference(e)),
        Ok(robj) => response_from_obj_model(code, robj),
    }
}

/// Building every response of an operation, in the response table's key
/// order: a failed response is dropped and its error recorded, the rest go
/// on.
pub open spec fn build_responses_model(
    entries: Seq<(String, MaybeRef<ResponseObj>)>,
    reg: Option<Map<Seq<char>, MaybeRef<ResponseObj>>>,
) -> (Seq<ResponseModel>, Seq<ErrorModel>)
    decreases entries,
{
    if entries.len() == 0 {
        (Seq::empty(), Seq::empty())
    } else {
        let (resps, errs) = build_responses_model(entries.drop_last(), reg);
        match build_response_model(entries.last().0@, entries.last().1, reg) {
            Ok(r) => (resps.push(r), errs),
            Err(e) => (resps, errs.push(e)),
        }
    }
}

/// What extracting one operation returns: an operation without an
/// `operationId` is skipped as a whole, with that one diagnostic;
/// otherwise one entrypoint is emitted carrying the surviving arguments
/// and responses, and one diagnostic per dropped parameter, then per
/// dropped response.
pub open spec fn entrypoint_model_of(
    route: Seq<char>,
    method: Method,
    op: Operation,
    c: Option<Components>,
) -> (Option<EntrypointModel>, Seq<DiagnosticModel>) {
    match op.operation_id {
        None => (
            None,
            seq![
                DiagnosticModel {
                    route,
                    method,
                    error: ErrorModel::Extraction(ExtractionError::MissingOperationId),
                },
            ],
        ),
        Some(id) => {
            let (args, aerrs) = build_args_model(op_params(op), params_reg_model(c));
            let (resps, rerrs) = build_responses_model(op.responses.entries@, responses_reg_model(c));
            (
                Some(
                    EntrypointModel {
                        route,
                        method,
                        args,
                        responses: resps,
                        operation_id: id@,
                    },
                ),
                wrap_diags(route, method, aerrs + rerrs),
            )
        },
    }
}

/// What extracting one optional operation contributes: nothing when the
/// method is not defined on the path.
pub open spec fn op_entry_model(
    route: Seq<char>,
    method: Method,
    o: Option<Operation>,
    c: Option<Components>,
) -> (Seq<EntrypointModel>, Seq<DiagnosticModel>) {
    match o {
        None => (Seq::empty(), Seq::empty()),
        Some(op) => {
            let (ep, ds) = entrypoint_model_of(route, method, op, c);
            (
                match ep {
                    Some(e) => seq![e],
                    None => Seq::empty(),
                },
                ds,
            )
        },
    }
}

/// What extracting one path returns: its operations in the fixed method
/// precedence GET, POST, PUT, PATCH, DELETE. HEAD, OPTIONS and TRACE are
/// never surfaced.
pub open spec fn path_model(route: Seq<char>, p: Path, c: Option<Components>) -> (
    Seq<EntrypointModel>,
    Seq<DiagnosticModel>,
) {
    let g = op_entry_model(route, Method::Get, p.get, c);
    let po = op_entry_model(route, Method::Post, p.post, c);
    let pu = op_entry_model(route, Method::Put, p.put, c);
    let pa = op_entry_model(route, Method::Patch, p.patch, c);
    let d = op_entry_model(route, Method::Delete, p.delete, c);
    (g.0 + po.0 + pu.0 + pa.0 + d.0, g.1 + po.1 + pu.1 + pa.1 + d.1)
}

/// What extracting a document's paths returns, in the path table's key
/// order.
pub open spec fn extract_model_paths(paths: Seq<(String, Path)>, c: Option<Components>) -> (
    Seq<EntrypointModel>,
    Seq<DiagnosticModel>,
)
    decreases paths,
{
    if paths.len() == 0 {
        (Seq::empty(), Seq::empty())
    } else {
        let (eps, ds) = extract_model_paths(paths.drop_last(), c);
        let (peps, pds) = path_model(paths.last().0@, paths.last().1, c);
        (eps + peps, ds + pds)
    }
}

/// What extracting a whole document returns: every entrypoint of every
/// path, paths in ascending route order, methods in the fixed precedence,
/// and one diagnostic per dropped parameter, response or operation.
pub open spec fn extract_model(doc: OpenApi) -> (Seq<EntrypointModel>, Seq<DiagnosticModel>) {
    extract_model_paths(doc.paths.entries@, doc.components)
}

/// Every entrypoint one optional operation contributes carries the route
/// it was extracted under.
proof fn lemma_op_entry_route(
    route: Seq<char>,
    method: Method,
    o: Option<Operation>,
    c: Option<Components>,
)
    ensures
        forall|j: int|
            0 <= j < op_entry_model(route, method, o, c).0.len() ==> (#[trigger] op_entry_model(
                route,
                method,
                o,
                c,
            ).0[j]).route == route,
{
}

/// Every entrypoint one path contributes carries that path's route.
proof fn lemma_path_model_routes(route: Seq<char>, p: Path, c: Option<Components>)
    ensures
        forall|i: int|
            0 <= i < path_model(route, p, c).0.len() ==> (#[trigger] path_model(
                route,
                p,
                c,
            ).0[i]).route == route,
{
    lemma_op_entry_route(route, Method::Get, p.get, c);
    lemma_op_entry_route(route, Method::Post, p.post, c);
    lemma_op_entry_route(route, Method::Put, p.put, c);
    lemma_op_entry_route(route, Method::Patch, p.patch, c);
    lemma_op_entry_route(route, Method::Delete, p.delete, c);
}

/// Over a path table with strictly ascending keys, every extracted
/// entrypoint carries the route of some table entry, and the extracted
/// routes never decrease.
proof fn lemma_extract_paths_ordered(paths: Seq<(String, Path)>, c: Option<Components>)
    requires
        forall|a: int, b: int|
            0 <= a < b < paths.len() ==> seq_lt(
                (#[trigger] paths[a]).0@,
                (#[trigger] paths[b]).0@,
            ),
    ensures
        forall|i: int|
            0 <= i < extract_model_paths(paths, c).0.len() ==> exists|k: int|
                0 <= k < paths.len() && (#[trigger] extract_model_paths(paths, c).0[i]).route
                    == paths[k].0@,
        forall|i: int, j: int|
            0 <= i < j < extract_model_paths(paths, c).0.len() ==> !seq_lt(
                (#[trigger] extract_model_paths(paths, c).0[j]).route,
                (#[trigger] extract_model_paths(paths, c).0[i]).route,
            ),
    decreases paths.len(),
{
    if paths.len() > 0 {
        let rest = paths.drop_last();
        assert(forall|k: int| 0 <= k < rest.len() ==> #[trigger] rest[k] == paths[k]);
        lemma_extract_paths_ordered(rest, c);
        let key = paths.last().0@;
        lemma_path_model_routes(key, paths.last().1, c);
        let prefix = extract_model_paths(rest, c).0;
        let block = path_model(key, paths.last().1, c).0;
        let whole = extract_model_paths(paths, c).0;
        assert(whole == prefix + block);
        assert forall|i: int| 0 <= i < whole.len() implies exists|k: int|
            0 <= k < paths.len() && (#[trigger] whole[i]).route == paths[k].0@ by {
            if i < prefix.len() {
                assert(whole[i] == prefix[i]);
                let k = choose|k: int| 0 <= k < rest.len() && prefix[i].route == rest[k].0@;
                assert(whole[i].route == paths[k].0@);
            } else {
                assert(whole[i] == block[i - prefix.len()]);
                assert(whole[i].route == paths[paths.len() - 1].0@);
            }
        }
        assert forall|i: int, j: int| 0 <= i < j < whole.len() implies !seq_lt(
            (#[trigger] whole[j]).route,
            (#[trigger] whole[i]).route,
        ) by {
            if j < prefix.len() {
                assert(whole[i] == prefix[i]);
                assert(whole[j] == prefix[j]);
            } else if i < prefix.len() {
                assert(whole[i] == prefix[i]);
                assert(whole[j] == block[j - prefix.len()]);
                let k = choose|k: int| 0 <= k < rest.len() && prefix[i].route == rest[k].0@;
                assert(seq_lt(paths[k].0@, key));
                crate::strmap::lemma_seq_lt_trichotomy(whole[j].route, whole[i].route);
            } else {
                assert(whole[i] == block[i - prefix.len()]);
                assert(whole[j] == block[j - prefix.len()]);
                crate::strmap::lemma_seq_lt_trichotomy(whole[j].route, whole[i].route);
            }
        }
    }
}

/// The deterministic-ordering contract of extraction: for a well-formed
/// document, the extracted entrypoints' routes never decrease — the paths
/// are walked in ascending route order, each contributing its operations
/// in the fixed method precedence.
pub proof fn lemma_extract_routes_ascending(doc: OpenApi)
    requires
        doc.wf(),
    ensures
        forall|i: int, j: int|
            0 <= i < j < extract_model(doc).0.len() ==> !seq_lt(
                (#[trigger] extract_model(doc).0[j]).route,
                (#[trigger] extract_model(doc).0[i]).route,
            ),
{
    lemma_extract_paths_ordered(doc.paths.entries@, doc.components);
}

/// Whether an optional operation yields an entrypoint: it exists and
/// carries an operation id.
pub open spec fn op_counted(o: Option<Operation>) -> int {
    match o {
        Some(op) => if op.operation_id is Some {
            1
        } else {
            0
        },
        None => 0,
    }
}

/// How many entrypoints one path yields.
pub open spec fn path_count(p: Path) -> int {
    op_counted(p.get) + op_counted(p.post) + op_counted(p.put) + op_counted(p.patch) + op_counted(
        p.delete,
    )
}

/// How many entrypoints a path table yields: one per (path, method) pair
/// among GET, POST, PUT, PATCH, DELETE whose operation carries an
/// operation id.
pub open spec fn expected_count(paths: Seq<(String, Path)>) -> int
    decreases paths,
{
    if paths.len() == 0 {
        0int
    } else {
        expected_count(paths.drop_last()) + path_count(paths.last().1)
    }
}

/// One path yields exactly `path_count` entrypoints.
proof fn lemma_path_model_count(route: Seq<char>, p: Path, c: Option<Components>)
    ensures
        path_model(route, p, c).0.len() == path_count(p),
{
}

/// A path table yields exactly `expected_count` entrypoints.
proof fn lemma_extract_count(paths: Seq<(String, Path)>, c: Option<Components>)
    ensures
        extract_model_paths(paths, c).0.len() == expected_count(paths),
    decreases paths.len(),
{
    if paths.len() > 0 {
        lemma_extract_count(paths.drop_last(), c);
        lemma_path_model_count(paths.last().0@, paths.last().1, c);
    }
}

/// Resolve a possibly referenced parameter against the parameter registry
/// of the components section, when both exist.
fn resolve_param<'a>(m: &'a MaybeRef<Parameter>, components: &'a Option<Components>) -> (r: Result<
    &'a Parameter,
    ReferenceError,
>)
    requires
        components_wf_opt(*components),
    ensures
        match r {
            Ok(p) => resolve_opt_in_map(*m, params_reg_model(*components)) == Ok::<
                Parameter,
                RefErrorModel,
            >(*p),
            Err(e) => resolve_opt_in_map(*m, params_reg_model(*components)) == Err::<
                Parameter,
                RefErrorModel,
            >(e@),
        },
{
    match components {
        None => m.as_result(),
        Some(c) => m.resolve_ref_opt(&c.parameters),
    }
}

/// Resolve a possibly referenced response against the response registry of
/// the components section, when both exist.
fn resolve_response<'a>(
    m: &'a MaybeRef<ResponseObj>,
    components: &'a Option<Components>,
) -> (r: Result<&'a ResponseObj, ReferenceError>)
    requires
        components_wf_opt(*components),
    ensures
        match r {
            Ok(o) => resolve_opt_in_map(*m, responses_reg_model(*components)) == Ok::<
                ResponseObj,
                RefErrorModel,
            >(*o),
            Err(e) => resolve_opt_in_map(*m, responses_reg_model(*components)) == Err::<
                ResponseObj,
                RefErrorModel,
            >(e@),
        },
{
    match components {
        None => m.as_result(),
        Some(c) => m.resolve_ref_opt(&c.responses),
    }
}

/// Build the argument list of an operation: each declared parameter is
/// resolved and its type inferred; a parameter that fails either step is
/// dropped, its error recorded.
pub fn build_args(operation: &Operation, components: &Option<Components>) -> (r: (
    Vec<Arg>,
    Vec<Error>,
))
    requires
        components_wf_opt(*components),
    ensures
        (args_model(r.0@), errs_model(r.1@)) == build_args_model(
            op_params(*operation),
            params_reg_model(*components),
        ),
{
    let mut args: Vec<Arg> = Vec::new();
    let mut errs: Vec<Error> = Vec::new();
    let ghost reg = params_reg_model(*components);
    match &operation.parameters {
        None => {
            proof {
                assert(args_model(args@) =~= build_args_model(op_params(*operation), reg).0);
                assert(errs_model(errs@) =~= build_args_model(op_params(*operation), reg).1);
            }
            (args, errs)
        },
        Some(params) => {
            let ghost pv = params@;
            let mut i: usize = 0;
            proof {
                assert(pv.take(0) =~= Seq::<MaybeRef<Parameter>>::empty());
                assert(args_model(args@) =~= Seq::<ArgModel>::empty());
                assert(errs_model(errs@) =~= Seq::<ErrorModel>::empty());
            }
            while i < params.len()
                invariant
                    i <= pv.len(),
                    pv == params@,
                    pv == op_params(*operation),
                    reg == params_reg_model(*components),
                    components_wf_opt(*components),
                    (args_model(args@), errs_model(errs@)) == build_args_model(
                        pv.take(i as int),
                        reg,
                    ),
                decreases pv.len() - i,
            {
                proof {
                    assert(pv.take(i as int + 1).drop_last() =~= pv.take(i as int));
                    assert(pv.take(i as int + 1).last() == pv[i as int]);
                }
                let ghost oldargs = args@;
                let ghost olderrs = errs@;
                match resolve_param(&params[i], components) {
                    Err(e) => {
                        errs.push(Error::Reference(e));
                        proof {
                            assert(errs_model(errs@) =~= errs_model(olderrs).push(
                                ErrorModel::Reference(e@),
                            ));
                        }
                    },
                    Ok(p) => {
                        let required = match p.required {
                            Some(b) => b,
                            None => false,
                        };
                        match NativeType::from_json_schema(&p.schema, required) {
                            Err(e) => {
                                proof {
                                    assert(errs_model(errs@.push(e)) =~= errs_model(
                                        olderrs,
                                    ).push(e@));
                                }
                                errs.push(e);
                            },
                            Ok(t) => {
                                let a = Arg { name: p.name.clone(), type_: t, location: p.in_ };
                                proof {
                                    assert(arg_model(a) == build_arg_model(
                                        pv[i as int],
                                        reg,
                                    )->Ok_0);
                                    assert(args_model(args@.push(a)) =~= args_model(
                                        oldargs,
                                    ).push(arg_model(a)));
                                }
                                args.push(a);
                            },
                        }
                    },
                }
                i = i + 1;
            }
            proof {
                assert(pv.take(pv.len() as int) =~= pv);
            }
            (args, errs)
        },
    }
}

impl Response {
    /// Build one response from a resolved response object: no content key
    /// means a bodyless response; an empty content table, or a selected
    /// media entry without a schema, fails this response; otherwise the
    /// first content entry is selected and its schema's type inferred, as
    /// a required value.
    pub fn build_from_response_obj(status_code: String, response_obj: &ResponseObj) -> (r: Result<
        Response,
        Error,
    >)
        ensures
            match r {
                Ok(resp) => response_from_obj_model(status_code@, *response_obj) == Ok::<
                    ResponseModel,
                    ErrorModel,
                >(response_model(resp)),
                Err(e) => response_from_obj_model(status_code@, *response_obj) == Err::<
                    ResponseModel,
                    ErrorModel,
                >(e@),
            },
    {
        match &response_obj.content {
            None => Ok(Response { status_code, return_type: None, content_type: None }),
            Some(content_map) => {
                if content_map.len() == 0 {
                    Err(Error::Extraction(ExtractionError::EmptyContentMap))
                } else {
                    let content_type = content_map.key_at(0).clone();
                    let media = content_map.value_at(0);
                    match &media.schema {
                        None => Err(Error::Extraction(ExtractionError::MissingMediaSchema)),
                        Some(mrs) => match NativeType::from_json_schema(mrs, true) {
                            Err(e) => Err(e),
                            Ok(t) => Ok(
                                Response {
                                    status_code,
                                    return_type: Some(t),
                                    content_type: Some(content_type),
                                },
                            ),
                        },
                    }
                }
            },
        }
    }
}

/// Build the response list of an operation, in the response table's key
/// order: each entry is resolved and built; an entry that fails either
/// step is dropped, its error recorded.
pub fn build_responses(operation: &Operation, components: &Option<Components>) -> (r: (
    Vec<Response>,
    Vec<Error>,
))
    requires
        components_wf_opt(*components),
    ensures
        (responses_model(r.0@), errs_model(r.1@)) == build_responses_model(
            operation.responses.entries@,
            responses_reg_model(*components),
        ),
{
    let mut resps: Vec<Response> = Vec::new();
    let mut errs: Vec<Error> = Vec::new();
    let ghost reg = responses_reg_model(*components);
    let ghost ev = operation.responses.entries@;
    let n = operation.responses.len();
    let mut i: usize = 0;
    proof {
        assert(ev.take(0) =~= Seq::<(String, MaybeRef<ResponseObj>)>::empty());
        assert(responses_model(resps@) =~= Seq::<ResponseModel>::empty());
        assert(errs_model(errs@) =~= Seq::<ErrorModel>::empty());
    }
    while i < n
        invariant
            i <= ev.len(),
            n == ev.len(),
            ev == operation.responses.entries@,
            reg == responses_reg_model(*components),
            components_wf_opt(*components),
            (responses_model(resps@), errs_model(errs@)) == build_responses_model(
                ev.take(i as int),
                reg,
            ),
        decreases ev.len() - i,
    {
        proof {
            assert(ev.take(i as int + 1).drop_last() =~= ev.take(i as int));
            assert(ev.take(i as int + 1).last() == ev[i as int]);
        }
        let ghost oldresps = resps@;
        let ghost olderrs = errs@;
        let code = operation.responses.key_at(i).clone();
        let mr = operation.responses.value_at(i);
        match resolve_response(mr, components) {
            Err(e) => {
                errs.push(Error::Reference(e));
                proof {
                    assert(errs_model(errs@) =~= errs_model(olderrs).push(
                        ErrorModel::Reference(e@),
                    ));
                }
            },
            Ok(robj) => {
                match Response::build_from_response_obj(code, robj) {
                    Err(e) => {
                        proof {
                            assert(errs_model(errs@.push(e)) =~= errs_model(olderrs).push(e@));
                        }
                        errs.push(e);
                    },
                    Ok(resp) => {
                        proof {
                            assert(responses_model(resps@.push(resp)) =~= responses_model(
                                oldresps,
                            ).push(response_model(resp)));
                        }
                        resps.push(resp);
                    },
                }
            },
        }
        i = i + 1;
    }
    proof {
        assert(ev.take(ev.len() as int) =~= ev);
    }
    (resps, errs)
}

/// Build one entrypoint from one operation: a missing operation id skips
/// the operation with a single diagnostic; otherwise the surviving
/// arguments and responses are combined with the route, method and id, and
/// each dropped item leaves a diagnostic.
pub fn build_entrypoint(
    route: &str,
    method: Method,
    operation: &Operation,
    components: &Option<Components>,
) -> (r: (Option<Entrypoint>, Vec<Diagnostic>))
    requires
        components_wf_opt(*components),
    ensures
        ({
            let (ep, ds) = entrypoint_model_of(route@, method, *operation, *components);
            &&& match r.0 {
                Some(e) => ep == Some(entrypoint_model(e)),
                None => ep is None,
            }
            &&& diags_model(r.1@) == ds
        }),
{
    match &operation.operation_id {
        None => {
            let mut ds: Vec<Diagnostic> = Vec::new();
            ds.push(
                Diagnostic {
                    route: route.to_owned(),
                    method,
                    error: Error::Extraction(ExtractionError::MissingOperationId),
                },
            );
            proof {
                assert(diags_model(ds@) =~= entrypoint_model_of(
                    route@,
                    method,
                    *operation,
                    *components,
                ).1);
            }
            (None, ds)
        },
        Some(id) => {
            let (args, mut aerrs) = build_args(operation, components);
            let (resps, mut rerrs) = build_responses(operation, components);
            let ghost allerrs = errs_model(aerrs@) + errs_model(rerrs@);
            let mut errs = aerrs;
            errs.append(&mut rerrs);
            proof {
                assert(errs_model(errs@) =~= allerrs);
            }
            let mut ds: Vec<Diagnostic> = Vec::new();
            while errs.len() > 0
                invariant
                    diags_model(ds@) + wrap_diags(route@, method, errs_model(errs@)) =~= wrap_diags(
                        route@,
                        method,
                        allerrs,
                    ),
                decreases errs@.len(),
            {
                let ghost oldds = ds@;
                let ghost olderrs = errs@;
                let e = errs.remove(0);
                let d = Diagnostic { route: route.to_owned(), method, error: e };
                proof {
                    assert(diagnostic_model(d) == wrap_diags(
                        route@,
                        method,
                        errs_model(olderrs),
                    )[0]);
                }
                ds.push(d);
                proof {
                    assert(diags_model(ds@) =~= diags_model(oldds).push(diagnostic_model(d)));
                    assert(errs_model(errs@) =~= errs_model(olderrs).drop_first());
                    assert(wrap_diags(route@, method, errs_model(olderrs)) =~= seq![
                        diagnostic_model(d),
                    ] + wrap_diags(route@, method, errs_model(errs@)));
                    assert(diags_model(ds@) + wrap_diags(route@, method, errs_model(errs@))
                        =~= diags_model(oldds) + wrap_diags(
                        route@,
                        method,
                        errs_model(olderrs),
                    ));
                }
            }
            proof {
                assert(wrap_diags(route@, method, errs_model(errs@)) =~= Seq::<
                    DiagnosticModel,
                >::empty());
                assert(diags_model(ds@) =~= diags_model(ds@) + Seq::<DiagnosticModel>::empty());
            }
            let ep = Entrypoint {
                route: route.to_owned(),
                method,
                args,
                responses: resps,
                operation_id: id.clone(),
            };
            (Some(ep), ds)
        },
    }
}

/// Extract the entrypoints of one optional operation into the running
/// lists.
fn handle_op(
    route: &str,
    method: Method,
    o: &Option<Operation>,
    components: &Option<Components>,
    eps: &mut Vec<Entrypoint>,
    diags: &mut Vec<Diagnostic>,
)
    requires
        components_wf_opt(*components),
    ensures
        ({
            let (meps, mds) = op_entry_model(route@, method, *o, *components);
            &&& eps_model(final(eps)@) == eps_model(old(eps)@) + meps
            &&& diags_model(final(diags)@) == diags_model(old(diags)@) + mds
        }),
{
    match o {
        None => {
            proof {
                assert(eps_model(eps@) =~= eps_model(eps@) + Seq::<EntrypointModel>::empty());
                assert(diags_model(diags@) =~= diags_model(diags@) + Seq::<
                    DiagnosticModel,
                >::empty());
            }
        },
        Some(op) => {
            let (ep, mut ds) = build_entrypoint(route, method, op, components);
            let ghost oldeps = eps@;
            let ghost olddiags = diags@;
            let ghost dsm = diags_model(ds@);
            match ep {
                Some(e) => {
                    proof {
                        assert(eps_model(oldeps.push(e)) =~= eps_model(oldeps) + seq![
                            entrypoint_model(e),
                        ]);
                    }
                    eps.push(e);
                },
                None => {
                    proof {
                        assert(eps_model(eps@) =~= eps_model(eps@) + Seq::<
                            EntrypointModel,
                        >::empty());
                    }
                },
            }
            diags.append(&mut ds);
            proof {
                assert(diags_model(diags@) =~= diags_model(olddiags) + dsm);
            }
        },
    }
}

/// Extract the entrypoints of one path, methods in the fixed precedence.
fn path_entrypoints(route: &str, path: &Path, components: &Option<Components>) -> (r: (
    Vec<Entrypoint>,
    Vec<Diagnostic>,
))
    requires
        components_wf_opt(*components),
    ensures
        (eps_model(r.0@), diags_model(r.1@)) == path_model(route@, *path, *components),
{
    let mut eps: Vec<Entrypoint> = Vec::new();
    let mut diags: Vec<Diagnostic> = Vec::new();
    proof {
        assert(eps_model(eps@) =~= Seq::<EntrypointModel>::empty());
        assert(diags_model(diags@) =~= Seq::<DiagnosticModel>::empty());
    }
    handle_op(route, Method::Get, &path.get, components, &mut eps, &mut diags);
    handle_op(route, Method::Post, &path.post, components, &mut eps, &mut diags);
    handle_op(route, Method::Put, &path.put, components, &mut eps, &mut diags);
    handle_op(route, Method::Patch, &path.patch, components, &mut eps, &mut diags);
    handle_op(route, Method::Delete, &path.delete, components, &mut eps, &mut diags);
    proof {
        let g = op_entry_model(route@, Method::Get, path.get, *components);
        let po = op_entry_model(route@, Method::Post, path.post, *components);
        let pu = op_entry_model(route@, Method::Put, path.put, *components);
        let pa = op_entry_model(route@, Method::Patch, path.patch, *components);
        let d = op_entry_model(route@, Method::Delete, path.delete, *components);
        assert(eps_model(eps@) =~= Seq::<EntrypointModel>::empty() + g.0 + po.0 + pu.0 + pa.0
            + d.0);
        assert(Seq::<EntrypointModel>::empty() + g.0 + po.0 + pu.0 + pa.0 + d.0 =~= g.0 + po.0
            + pu.0 + pa.0 + d.0);
        assert(diags_model(diags@) =~= Seq::<DiagnosticModel>::empty() + g.1 + po.1 + pu.1 + pa.1
            + d.1);
        assert(Seq::<DiagnosticModel>::empty() + g.1 + po.1 + pu.1 + pa.1 + d.1 =~= g.1 + po.1
            + pu.1 + pa.1 + d.1);
    }
    (eps, diags)
}

/// Extract every entrypoint of a document: every path in ascending route
/// order, every defined operation in the fixed method precedence. The
/// extractor never fails as a whole: each dropped parameter, response or
/// operation leaves one diagnostic, and every (path, method) pair whose
/// operation carries an operation id yields exactly one entrypoint.
pub fn extract_entrypoints(spec: &OpenApi) -> (r: (Vec<Entrypoint>, Vec<Diagnostic>))
    requires
        spec.wf(),
    ensures
        (eps_model(r.0@), diags_model(r.1@)) == extract_model(*spec),
        r.0@.len() == expected_count(spec.paths.entries@),
{
    let mut eps: Vec<Entrypoint> = Vec::new();
    let mut diags: Vec<Diagnostic> = Vec::new();
    let ghost pv = spec.paths.entries@;
    let n = spec.paths.len();
    let mut i: usize = 0;
    proof {
        assert(pv.take(0) =~= Seq::<(String, Path)>::empty());
        assert(eps_model(eps@) =~= Seq::<EntrypointModel>::empty());
        assert(diags_model(diags@) =~= Seq::<DiagnosticModel>::empty());
    }
    while i < n
        invariant
            i <= pv.len(),
            n == pv.len(),
            pv == spec.paths.entries@,
            spec.wf(),
            (eps_model(eps@), diags_model(diags@)) == extract_model_paths(
                pv.take(i as int),
                spec.components,
            ),
        decreases pv.len() - i,
    {
        proof {
            assert(pv.take(i as int + 1).drop_last() =~= pv.take(i as int));
            assert(pv.take(i as int + 1).last() == pv[i as int]);
        }
        let route = spec.paths.key_at(i);
        let path = spec.paths.value_at(i);
        let (mut peps, mut pdiags) = path_entrypoints(route.as_str(), path, &spec.components);
        let ghost oldeps = eps@;
        let ghost olddiags = diags@;
        let ghost pepsm = eps_model(peps@);
        let ghost pdiagsm = diags_model(pdiags@);
        eps.append(&mut peps);
        diags.append(&mut pdiags);
        proof {
            assert(eps_model(eps@) =~= eps_model(oldeps) + pepsm);
            assert(diags_model(diags@) =~= diags_model(olddiags) + pdiagsm);
        }
        i = i + 1;
    }
    proof {
        assert(pv.take(pv.len() as int) =~= pv);
        lemma_extract_count(pv, spec.components);
        assert(eps_model(eps@).len() == eps@.len());
    }
    (eps, diags)
}

} // verus!

