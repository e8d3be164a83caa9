use openapi_flat::errors::Error;
use openapi_flat::errors::TypeError;
use openapi_flat::objects::Format;
use openapi_flat::objects::Ref;
use openapi_flat::objects::Schema;
use openapi_flat::objects::Type;
use openapi_flat::process::NativeType;
use openapi_flat::strmap::StrMap;
use openapi_flat::MaybeRef;

fn empty_schema() -> Schema {
    Schema { required: None, type_: Vec::new(), format: None, properties: None, items: Vec::new() }
}

fn typed_schema(t: Type, f: Option<Format>) -> Schema {
    let mut s = empty_schema();
    s.type_ = vec![t];
    s.format = f;
    s
}

fn schema_ref(ptr: &str) -> MaybeRef<Schema> {
    MaybeRef::Ref(Ref { ref_: ptr.to_string() })
}

fn type_error(r: Result<NativeType, Error>) -> TypeError {
    match r {
        Err(Error::Type(e)) => e,
        other => panic!("expected a type error, got {:?}", other),
    }
}

#[test]
fn test_simple_schemafy() {
    let mut properties: StrMap<MaybeRef<Schema>> = StrMap::new();
    properties.insert(
        "id".to_string(),
        MaybeRef::Concrete(typed_schema(Type::Integer, Some(Format::Int64))),
    );
    properties.insert("name".to_string(), MaybeRef::Concrete(typed_schema(Type::String, None)));
    properties.insert("tag".to_string(), MaybeRef::Concrete(typed_schema(Type::String, None)));
    let pet = Schema {
        required: Some(vec!["id".to_string(), "name".to_string()]),
        type_: Vec::new(),
        format: None,
        properties: Some(properties),
        items: Vec::new(),
    };
    let schema = MaybeRef::Concrete(openapi_flat::objects::clone_schema(&pet));
    let native = NativeType::from_json_schema(&schema, true).unwrap();
    assert_eq!(native, NativeType::Anonymous(Box::new(pet)));
}

#[test]
fn test_referenced_schemafy() {
    let mut pets = typed_schema(Type::Array, None);
    pets.items = vec![schema_ref("#/components/schemas/Pet")];
    let native = NativeType::from_json_schema(&MaybeRef::Concrete(pets), true).unwrap();
    let expect = NativeType::Array(vec![NativeType::Named("Pet".to_string())]);
    assert_eq!(native, expect);
}

#[test]
fn integer_int64_optionality() {
    let schema = MaybeRef::Concrete(typed_schema(Type::Integer, Some(Format::Int64)));
    let optional = NativeType::from_json_schema(&schema, false).unwrap();
    assert_eq!(optional, NativeType::Optional(Box::new(NativeType::I64)));
    let required = NativeType::from_json_schema(&schema, true).unwrap();
    assert_eq!(required, NativeType::I64);
}

#[test]
fn primitive_mappings() {
    let cases = vec![
        (Type::Boolean, None, NativeType::Bool),
        (Type::Integer, None, NativeType::I64),
        (Type::Integer, Some(Format::Int32), NativeType::I32),
        (Type::Number, None, NativeType::F64),
        (Type::Number, Some(Format::Float), NativeType::F32),
        (Type::Number, Some(Format::Double), NativeType::F64),
        (Type::String, None, NativeType::String),
        (Type::String, Some(Format::Byte), NativeType::String),
        (Type::String, Some(Format::Date), NativeType::String),
        (Type::String, Some(Format::DateTime), NativeType::String),
        (Type::String, Some(Format::Password), NativeType::String),
    ];
    for (t, f, expect) in cases {
        let got = NativeType::from_json_schema(&MaybeRef::Concrete(typed_schema(t, f)), true)
            .unwrap();
        assert_eq!(got, expect);
    }
}

#[test]
fn reference_infers_to_named() {
    let native =
        NativeType::from_json_schema(&schema_ref("#/components/schemas/Pet"), true).unwrap();
    assert_eq!(native, NativeType::Named("Pet".to_string()));
    let optional =
        NativeType::from_json_schema(&schema_ref("#/components/schemas/Pet"), false).unwrap();
    assert_eq!(optional, NativeType::Optional(Box::new(NativeType::Named("Pet".to_string()))));
}

#[test]
fn reference_without_separator_is_invalid() {
    let r = NativeType::from_json_schema(&schema_ref("Pet"), true);
    assert!(matches!(
        r,
        Err(Error::Reference(openapi_flat::errors::ReferenceError::InvalidPointer))
    ));
}

#[test]
fn array_of_string_infers_to_array() {
    let mut arr = typed_schema(Type::Array, None);
    arr.items = vec![MaybeRef::Concrete(typed_schema(Type::String, None))];
    let native = NativeType::from_json_schema(&MaybeRef::Concrete(arr), true).unwrap();
    assert_eq!(native, NativeType::Array(vec![NativeType::String]));
}

#[test]
fn array_without_items_is_missing_items() {
    let arr = typed_schema(Type::Array, None);
    let e = type_error(NativeType::from_json_schema(&MaybeRef::Concrete(arr), true));
    assert_eq!(e, TypeError::MissingItems);
}

#[test]
fn missing_items_takes_precedence_over_a_format() {
    let arr = typed_schema(Type::Array, Some(Format::Int32));
    let e = type_error(NativeType::from_json_schema(&MaybeRef::Concrete(arr), true));
    assert_eq!(e, TypeError::MissingItems);
}

#[test]
fn array_with_items_and_a_format_is_a_mismatch() {
    let mut arr = typed_schema(Type::Array, Some(Format::Int32));
    arr.items = vec![MaybeRef::Concrete(typed_schema(Type::String, None))];
    let e = type_error(NativeType::from_json_schema(&MaybeRef::Concrete(arr), true));
    assert_eq!(e, TypeError::FormatTypeMismatch);
}

#[test]
fn array_keeps_item_multiplicity() {
    let mut arr = typed_schema(Type::Array, None);
    arr.items = vec![
        MaybeRef::Concrete(typed_schema(Type::String, None)),
        MaybeRef::Concrete(typed_schema(Type::Integer, None)),
    ];
    let native = NativeType::from_json_schema(&MaybeRef::Concrete(arr), true).unwrap();
    assert_eq!(native, NativeType::Array(vec![NativeType::String, NativeType::I64]));
}

#[test]
fn two_type_tags_are_ambiguous() {
    let mut s = empty_schema();
    s.type_ = vec![Type::String, Type::Integer];
    let e = type_error(NativeType::from_json_schema(&MaybeRef::Concrete(s), true));
    assert_eq!(e, TypeError::AmbiguousTypeArray);
}

#[test]
fn null_tag_is_unsupported() {
    let s = typed_schema(Type::Null, None);
    let e = type_error(NativeType::from_json_schema(&MaybeRef::Concrete(s), true));
    assert_eq!(e, TypeError::NullTypeUnsupported);
}

#[test]
fn format_disagreeing_with_type_is_a_mismatch() {
    let s = typed_schema(Type::String, Some(Format::Int64));
    let e = type_error(NativeType::from_json_schema(&MaybeRef::Concrete(s), true));
    assert_eq!(e, TypeError::FormatTypeMismatch);
}

#[test]
fn format_without_type_is_no_type_specified() {
    let mut s = empty_schema();
    s.format = Some(Format::Int32);
    let e = type_error(NativeType::from_json_schema(&MaybeRef::Concrete(s), true));
    assert_eq!(e, TypeError::NoTypeSpecified);
}

#[test]
fn schema_without_type_is_anonymous() {
    let s = empty_schema();
    let native = NativeType::from_json_schema(&MaybeRef::Concrete(s), true).unwrap();
    assert_eq!(native, NativeType::Anonymous(Box::new(empty_schema())));
}

#[test]
fn object_schema_stays_anonymous() {
    let s = typed_schema(Type::Object, None);
    let native = NativeType::from_json_schema(&MaybeRef::Concrete(s), true).unwrap();
    assert_eq!(native, NativeType::Anonymous(Box::new(typed_schema(Type::Object, None))));
}

#[test]
fn default_schema_is_empty() {
    assert_eq!(Schema::default(), empty_schema());
    let anon = NativeType::from_json_schema(&MaybeRef::Concrete(Schema::default()), true).unwrap();
    assert_eq!(anon, NativeType::Anonymous(Box::new(empty_schema())));
}

#[test]
fn compatible_with_type_table() {
    assert!(Format::Int32.compatible_with_type(Type::Integer));
    assert!(Format::Int64.compatible_with_type(Type::Integer));
    assert!(Format::Float.compatible_with_type(Type::Number));
    assert!(Format::Double.compatible_with_type(Type::Number));
    assert!(Format::Byte.compatible_with_type(Type::String));
    assert!(Format::Binary.compatible_with_type(Type::String));
    assert!(Format::Date.compatible_with_type(Type::String));
    assert!(Format::DateTime.compatible_with_type(Type::String));
    assert!(Format::Password.compatible_with_type(Type::String));
    assert!(!Format::Int32.compatible_with_type(Type::String));
    assert!(!Format::Float.compatible_with_type(Type::Integer));
    assert!(!Format::Int64.compatible_with_type(Type::Number));
    assert!(!Format::Byte.compatible_with_type(Type::Object));
    assert!(!Format::Date.compatible_with_type(Type::Array));
    assert!(!Format::Double.compatible_with_type(Type::Boolean));
    assert!(!Format::Password.compatible_with_type(Type::Null));
}
