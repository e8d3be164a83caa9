use openapi_flat::errors::Error;
use openapi_flat::errors::ExtractionError;
use openapi_flat::errors::ReferenceError;
use openapi_flat::objects::Components;
use openapi_flat::objects::Format;
use openapi_flat::objects::Info;
use openapi_flat::objects::Location;
use openapi_flat::objects::MediaType;
use openapi_flat::objects::OpenApi;
use openapi_flat::objects::Operation;
use openapi_flat::objects::Parameter;
use openapi_flat::objects::Path;
use openapi_flat::objects::Ref;
use openapi_flat::objects::ResponseObj;
use openapi_flat::objects::Schema;
use openapi_flat::objects::Type;
use openapi_flat::process::extract_entrypoints;
use openapi_flat::process::extract_route_args;
use openapi_flat::process::Method;
use openapi_flat::process::NativeType;
use openapi_flat::strmap::StrMap;
use openapi_flat::MaybeRef;

fn empty_schema() -> Schema {
    Schema { required: None, type_: Vec::new(), format: None, properties: None, items: Vec::new() }
}

fn typed_schema(t: Type, f: Option<Format>) -> Schema {
    let mut s = empty_schema();
    s.type_ = vec![t];
    s.format = f;
    s
}

fn schema_ref(ptr: &str) -> MaybeRef<Schema> {
    MaybeRef::Ref(Ref { ref_: ptr.to_string() })
}

fn parameter(name: &str, location: Location, required: Option<bool>, schema: MaybeRef<Schema>) -> Parameter {
    Parameter {
        name: name.to_string(),
        in_: location,
        description: None,
        required,
        deprecated: None,
        allow_empty_value: None,
        style: None,
        explode: None,
        allow_reserved: None,
        schema,
        example: None,
        examples: None,
        content: None,
    }
}

fn response_with_schema(description: &str, content_type: &str, schema: MaybeRef<Schema>) -> ResponseObj {
    let media = MediaType { schema: Some(schema), example: None, examples: None };
    let mut content: StrMap<MediaType> = StrMap::new();
    content.insert(content_type.to_string(), media);
    ResponseObj {
        description: description.to_string(),
        headers: None,
        content: Some(content),
        links: None,
    }
}

fn response_without_content(description: &str) -> ResponseObj {
    ResponseObj { description: description.to_string(), headers: None, content: None, links: None }
}

fn operation(
    id: Option<&str>,
    parameters: Option<Vec<MaybeRef<Parameter>>>,
    responses: StrMap<MaybeRef<ResponseObj>>,
) -> Operation {
    Operation {
        tags: None,
        summary: None,
        description: None,
        external_docs: None,
        operation_id: id.map(|s| s.to_string()),
        parameters,
        request_body: None,
        responses,
        callbacks: None,
        deprecated: None,
        security: None,
        servers: None,
    }
}

fn empty_path() -> Path {
    Path {
        ref_: None,
        summary: None,
        description: None,
        get: None,
        put: None,
        post: None,
        delete: None,
        options: None,
        head: None,
        patch: None,
        trace: None,
        servers: None,
        parameters: None,
    }
}

fn document(paths: StrMap<Path>, components: Option<Components>) -> OpenApi {
    OpenApi {
        openapi: "3.0.0".to_string(),
        info: Info {
            title: "Swagger Petstore".to_string(),
            description: None,
            terms_of_service: None,
            contact: None,
            license: None,
            version: "1.0.0".to_string(),
        },
        servers: None,
        paths,
        components,
        security: None,
        tags: None,
        external_docs: None,
    }
}

/// The three-operation pet store sample: list pets, create pet, get pet by
/// id, with referenced `Pet`, `Pets` and `Error` component schemas.
fn petstore() -> OpenApi {
    let mut pet_props: StrMap<MaybeRef<Schema>> = StrMap::new();
    pet_props.insert(
        "id".to_string(),
        MaybeRef::Concrete(typed_schema(Type::Integer, Some(Format::Int64))),
    );
    pet_props.insert("name".to_string(), MaybeRef::Concrete(typed_schema(Type::String, None)));
    pet_props.insert("tag".to_string(), MaybeRef::Concrete(typed_schema(Type::String, None)));
    let pet = Schema {
        required: Some(vec!["id".to_string(), "name".to_string()]),
        type_: Vec::new(),
        format: None,
        properties: Some(pet_props),
        items: Vec::new(),
    };
    let mut pets = typed_schema(Type::Array, None);
    pets.items = vec![schema_ref("#/components/schemas/Pet")];
    let mut error_props: StrMap<MaybeRef<Schema>> = StrMap::new();
    error_props.insert(
        "code".to_string(),
        MaybeRef::Concrete(typed_schema(Type::Integer, Some(Format::Int32))),
    );
    error_props.insert("message".to_string(), MaybeRef::Concrete(typed_schema(Type::String, None)));
    let error = Schema {
        required: Some(vec!["code".to_string(), "message".to_string()]),
        type_: Vec::new(),
        format: None,
        properties: Some(error_props),
        items: Vec::new(),
    };
    let mut schemas: StrMap<MaybeRef<Schema>> = StrMap::new();
    schemas.insert("Pet".to_string(), MaybeRef::Concrete(pet));
    schemas.insert("Pets".to_string(), MaybeRef::Concrete(pets));
    schemas.insert("Error".to_string(), MaybeRef::Concrete(error));
    let components = Components {
        schemas: Some(schemas),
        responses: None,
        parameters: None,
        examples: None,
        request_bodies: None,
        headers: None,
        security_schemes: None,
        links: None,
        callbacks: None,
    };

    let mut list_responses: StrMap<MaybeRef<ResponseObj>> = StrMap::new();
    list_responses.insert(
        "200".to_string(),
        MaybeRef::Concrete(response_with_schema(
            "A paged array of pets",
            "application/json",
            schema_ref("#/components/schemas/Pets"),
        )),
    );
    list_responses.insert(
        "default".to_string(),
        MaybeRef::Concrete(response_with_schema(
            "unexpected error",
            "application/json",
            schema_ref("#/components/schemas/Error"),
        )),
    );
    let list_pets = operation(
        Some("listPets"),
        Some(vec![MaybeRef::Concrete(parameter(
            "limit",
            Location::Query,
            Some(false),
            MaybeRef::Concrete(typed_schema(Type::Integer, Some(Format::Int32))),
        ))]),
        list_responses,
    );

    let mut create_responses: StrMap<MaybeRef<ResponseObj>> = StrMap::new();
    create_responses
        .insert("201".to_string(), MaybeRef::Concrete(response_without_content("Null response")));
    let create_pets = operation(Some("createPets"), None, create_responses);

    let mut show_responses: StrMap<MaybeRef<ResponseObj>> = StrMap::new();
    show_responses.insert(
        "200".to_string(),
        MaybeRef::Concrete(response_with_schema(
            "Expected response to a valid request",
            "application/json",
            schema_ref("#/components/schemas/Pet"),
        )),
    );
    show_responses.insert(
        "default".to_string(),
        MaybeRef::Concrete(response_with_schema(
            "unexpected error",
            "application/json",
            schema_ref("#/components/schemas/Error"),
        )),
    );
    let show_pet_by_id = operation(
        Some("showPetById"),
        Some(vec![MaybeRef::Concrete(parameter(
            "petId",
            Location::Path,
            Some(true),
            MaybeRef::Concrete(typed_schema(Type::String, None)),
        ))]),
        show_responses,
    );

    let mut pets_path = empty_path();
    pets_path.get = Some(list_pets);
    pets_path.post = Some(create_pets);
    let mut pet_path = empty_path();
    pet_path.get = Some(show_pet_by_id);

    let mut paths: StrMap<Path> = StrMap::new();
    paths.insert("/pets".to_string(), pets_path);
    paths.insert("/pets/{petId}".to_string(), pet_path);
    document(paths, Some(components))
}

#[test]
fn defaults_are_empty() {
    let r = openapi_flat::process::Response::default();
    assert_eq!(r.status_code, "");
    assert!(r.return_type.is_none());
    assert!(r.content_type.is_none());
    let m = MediaType::default();
    assert!(m.schema.is_none());
    assert!(m.example.is_none());
    assert!(m.examples.is_none());
    let c = Components::default();
    assert!(c.schemas.is_none());
    assert!(c.responses.is_none());
    assert!(c.parameters.is_none());
}

#[test]
fn test_extract_route_args() {
    let res = extract_route_args("/pets/{petId}/name/{petName}/x{bogus}x");
    assert_eq!(res.len(), 2);
    assert!(res.contains(&"petId".to_string()));
    assert!(res.contains(&"petName".to_string()));
}

#[test]
fn route_args_edge_cases() {
    assert_eq!(extract_route_args("").len(), 0);
    assert_eq!(extract_route_args("/pets").len(), 0);
    assert_eq!(extract_route_args("/{}").len(), 0);
    assert_eq!(extract_route_args("/{x}"), vec!["x".to_string()]);
    let repeated = extract_route_args("/{b}/{a}/{b}");
    assert_eq!(repeated, vec!["a".to_string(), "b".to_string()]);
}

#[test]
fn test_extract_entrypoints() {
    let api = petstore();
    let (flat, _diagnostics) = extract_entrypoints(&api);
    println!("{:#?}", flat);
    assert_eq!(flat.len(), 3);
}

#[test]
fn petstore_end_to_end() {
    let api = petstore();
    let (flat, diagnostics) = extract_entrypoints(&api);
    assert_eq!(flat.len(), 3);
    assert_eq!(diagnostics.len(), 0);
    for ep in &flat {
        assert!(!ep.operation_id.is_empty());
    }

    assert_eq!(flat[0].route, "/pets");
    assert_eq!(flat[0].method, Method::Get);
    assert_eq!(flat[0].operation_id, "listPets");
    assert_eq!(flat[0].args.len(), 1);
    assert_eq!(flat[0].args[0].name, "limit");
    assert_eq!(flat[0].args[0].type_, NativeType::Optional(Box::new(NativeType::I32)));
    assert_eq!(flat[0].responses.len(), 2);
    assert_eq!(flat[0].responses[0].status_code, "200");
    assert_eq!(flat[0].responses[0].return_type, Some(NativeType::Named("Pets".to_string())));
    assert_eq!(flat[0].responses[0].content_type, Some("application/json".to_string()));
    assert_eq!(flat[0].responses[1].status_code, "default");
    assert_eq!(flat[0].responses[1].return_type, Some(NativeType::Named("Error".to_string())));

    assert_eq!(flat[1].route, "/pets");
    assert_eq!(flat[1].method, Method::Post);
    assert_eq!(flat[1].operation_id, "createPets");
    assert_eq!(flat[1].args.len(), 0);
    assert_eq!(flat[1].responses.len(), 1);
    assert_eq!(flat[1].responses[0].status_code, "201");
    assert_eq!(flat[1].responses[0].return_type, None);
    assert_eq!(flat[1].responses[0].content_type, None);

    assert_eq!(flat[2].route, "/pets/{petId}");
    assert_eq!(flat[2].method, Method::Get);
    assert_eq!(flat[2].operation_id, "showPetById");
    assert_eq!(flat[2].args.len(), 1);
    assert_eq!(flat[2].args[0].name, "petId");
    assert!(matches!(flat[2].args[0].location, Location::Path));
    assert_eq!(flat[2].args[0].type_, NativeType::String);
}

#[test]
fn response_without_content_has_no_type() {
    let mut responses: StrMap<MaybeRef<ResponseObj>> = StrMap::new();
    responses.insert("204".to_string(), MaybeRef::Concrete(response_without_content("empty")));
    let mut path = empty_path();
    path.get = Some(operation(Some("noBody"), None, responses));
    let mut paths: StrMap<Path> = StrMap::new();
    paths.insert("/empty".to_string(), path);
    let api = document(paths, None);
    let (flat, diagnostics) = extract_entrypoints(&api);
    assert_eq!(flat.len(), 1);
    assert_eq!(diagnostics.len(), 0);
    assert_eq!(flat[0].responses.len(), 1);
    assert_eq!(flat[0].responses[0].status_code, "204");
    assert_eq!(flat[0].responses[0].return_type, None);
    assert_eq!(flat[0].responses[0].content_type, None);
}

#[test]
fn missing_operation_id_skips_the_operation() {
    let mut responses: StrMap<MaybeRef<ResponseObj>> = StrMap::new();
    responses.insert("200".to_string(), MaybeRef::Concrete(response_without_content("ok")));
    let mut path = empty_path();
    path.get = Some(operation(None, None, responses));
    let mut other: StrMap<MaybeRef<ResponseObj>> = StrMap::new();
    other.insert("200".to_string(), MaybeRef::Concrete(response_without_content("ok")));
    path.post = Some(operation(Some("withId"), None, other));
    let mut paths: StrMap<Path> = StrMap::new();
    paths.insert("/things".to_string(), path);
    let api = document(paths, None);
    let (flat, diagnostics) = extract_entrypoints(&api);
    assert_eq!(flat.len(), 1);
    assert_eq!(flat[0].operation_id, "withId");
    assert_eq!(diagnostics.len(), 1);
    assert_eq!(diagnostics[0].route, "/things");
    assert_eq!(diagnostics[0].method, Method::Get);
    assert!(matches!(
        diagnostics[0].error,
        Error::Extraction(ExtractionError::MissingOperationId)
    ));
}

#[test]
fn failed_parameter_is_dropped_not_fatal() {
    let mut responses: StrMap<MaybeRef<ResponseObj>> = StrMap::new();
    responses.insert("200".to_string(), MaybeRef::Concrete(response_without_content("ok")));
    let params = vec![
        MaybeRef::Ref(Ref { ref_: "#/components/parameters/missing".to_string() }),
        MaybeRef::Concrete(parameter(
            "kept",
            Location::Query,
            None,
            MaybeRef::Concrete(typed_schema(Type::Boolean, None)),
        )),
    ];
    let mut path = empty_path();
    path.get = Some(operation(Some("halfArgs"), Some(params), responses));
    let mut paths: StrMap<Path> = StrMap::new();
    paths.insert("/half".to_string(), path);
    let api = document(paths, None);
    let (flat, diagnostics) = extract_entrypoints(&api);
    assert_eq!(flat.len(), 1);
    assert_eq!(flat[0].args.len(), 1);
    assert_eq!(flat[0].args[0].name, "kept");
    assert_eq!(flat[0].args[0].type_, NativeType::Optional(Box::new(NativeType::Bool)));
    assert_eq!(diagnostics.len(), 1);
    assert!(matches!(
        diagnostics[0].error,
        Error::Reference(ReferenceError::NotConcrete)
    ));
}

#[test]
fn head_options_trace_are_never_surfaced() {
    let mut responses: StrMap<MaybeRef<ResponseObj>> = StrMap::new();
    responses.insert("200".to_string(), MaybeRef::Concrete(response_without_content("ok")));
    let mut path = empty_path();
    path.head = Some(operation(Some("headOp"), None, responses));
    let mut responses2: StrMap<MaybeRef<ResponseObj>> = StrMap::new();
    responses2.insert("200".to_string(), MaybeRef::Concrete(response_without_content("ok")));
    path.options = Some(operation(Some("optionsOp"), None, responses2));
    let mut responses3: StrMap<MaybeRef<ResponseObj>> = StrMap::new();
    responses3.insert("200".to_string(), MaybeRef::Concrete(response_without_content("ok")));
    path.trace = Some(operation(Some("traceOp"), None, responses3));
    let mut paths: StrMap<Path> = StrMap::new();
    paths.insert("/hidden".to_string(), path);
    let api = document(paths, None);
    let (flat, diagnostics) = extract_entrypoints(&api);
    assert_eq!(flat.len(), 0);
    assert_eq!(diagnostics.len(), 0);
}

#[test]
fn parameters_and_responses_resolve_through_the_registries() {
    let mut param_reg: StrMap<MaybeRef<Parameter>> = StrMap::new();
    param_reg.insert(
        "limitParam".to_string(),
        MaybeRef::Concrete(parameter(
            "limit",
            Location::Query,
            Some(true),
            MaybeRef::Concrete(typed_schema(Type::Integer, None)),
        )),
    );
    let mut resp_reg: StrMap<MaybeRef<ResponseObj>> = StrMap::new();
    resp_reg.insert(
        "Empty".to_string(),
        MaybeRef::Concrete(response_without_content("nothing here")),
    );
    resp_reg.insert(
        "Loop".to_string(),
        MaybeRef::Ref(Ref { ref_: "#/components/responses/Empty".to_string() }),
    );
    let components = Components {
        schemas: None,
        responses: Some(resp_reg),
        parameters: Some(param_reg),
        examples: None,
        request_bodies: None,
        headers: None,
        security_schemes: None,
        links: None,
        callbacks: None,
    };
    let mut responses: StrMap<MaybeRef<ResponseObj>> = StrMap::new();
    responses.insert(
        "200".to_string(),
        MaybeRef::Ref(Ref { ref_: "#/components/responses/Empty".to_string() }),
    );
    responses.insert(
        "404".to_string(),
        MaybeRef::Ref(Ref { ref_: "#/components/responses/Loop".to_string() }),
    );
    responses.insert(
        "500".to_string(),
        MaybeRef::Ref(Ref { ref_: "#/components/responses/Nowhere".to_string() }),
    );
    let params = vec![MaybeRef::Ref(Ref { ref_: "#/components/parameters/limitParam".to_string() })];
    let mut path = empty_path();
    path.get = Some(operation(Some("viaRegistry"), Some(params), responses));
    let mut paths: StrMap<Path> = StrMap::new();
    paths.insert("/reg".to_string(), path);
    let api = document(paths, Some(components));

    let (flat, diagnostics) = extract_entrypoints(&api);
    assert_eq!(flat.len(), 1);
    assert_eq!(flat[0].args.len(), 1);
    assert_eq!(flat[0].args[0].name, "limit");
    assert_eq!(flat[0].args[0].type_, NativeType::I64);
    assert_eq!(flat[0].responses.len(), 1);
    assert_eq!(flat[0].responses[0].status_code, "200");
    assert_eq!(flat[0].responses[0].return_type, None);
    assert_eq!(diagnostics.len(), 2);
    assert!(matches!(
        diagnostics[0].error,
        Error::Reference(ReferenceError::RecursiveReference)
    ));
    match &diagnostics[1].error {
        Error::Reference(ReferenceError::NotFound(name)) => assert_eq!(name, "Nowhere"),
        other => panic!("expected NotFound, got {:?}", other),
    }
}

#[test]
fn empty_content_table_drops_the_response() {
    let resp = ResponseObj {
        description: "declared but empty".to_string(),
        headers: None,
        content: Some(StrMap::new()),
        links: None,
    };
    let mut responses: StrMap<MaybeRef<ResponseObj>> = StrMap::new();
    responses.insert("200".to_string(), MaybeRef::Concrete(resp));
    let mut path = empty_path();
    path.get = Some(operation(Some("emptyContent"), None, responses));
    let mut paths: StrMap<Path> = StrMap::new();
    paths.insert("/e".to_string(), path);
    let (flat, diagnostics) = extract_entrypoints(&document(paths, None));
    assert_eq!(flat.len(), 1);
    assert_eq!(flat[0].responses.len(), 0);
    assert_eq!(diagnostics.len(), 1);
    assert!(matches!(
        diagnostics[0].error,
        Error::Extraction(ExtractionError::EmptyContentMap)
    ));
}

#[test]
fn media_without_schema_drops_the_response() {
    let media = MediaType { schema: None, example: None, examples: None };
    let mut content: StrMap<MediaType> = StrMap::new();
    content.insert("text/plain".to_string(), media);
    let resp = ResponseObj {
        description: "typed but schemaless".to_string(),
        headers: None,
        content: Some(content),
        links: None,
    };
    let mut responses: StrMap<MaybeRef<ResponseObj>> = StrMap::new();
    responses.insert("200".to_string(), MaybeRef::Concrete(resp));
    let mut path = empty_path();
    path.get = Some(operation(Some("schemaless"), None, responses));
    let mut paths: StrMap<Path> = StrMap::new();
    paths.insert("/s".to_string(), path);
    let (flat, diagnostics) = extract_entrypoints(&document(paths, None));
    assert_eq!(flat.len(), 1);
    assert_eq!(flat[0].responses.len(), 0);
    assert_eq!(diagnostics.len(), 1);
    assert!(matches!(
        diagnostics[0].error,
        Error::Extraction(ExtractionError::MissingMediaSchema)
    ));
}

#[test]
fn first_content_type_wins() {
    let media_a = MediaType {
        schema: Some(MaybeRef::Concrete(typed_schema(Type::Boolean, None))),
        example: None,
        examples: None,
    };
    let media_b = MediaType {
        schema: Some(MaybeRef::Concrete(typed_schema(Type::Integer, None))),
        example: None,
        examples: None,
    };
    let mut content: StrMap<MediaType> = StrMap::new();
    content.insert("text/plain".to_string(), media_b);
    content.insert("application/json".to_string(), media_a);
    let resp = ResponseObj {
        description: "two bodies".to_string(),
        headers: None,
        content: Some(content),
        links: None,
    };
    let mut responses: StrMap<MaybeRef<ResponseObj>> = StrMap::new();
    responses.insert("200".to_string(), MaybeRef::Concrete(resp));
    let mut path = empty_path();
    path.get = Some(operation(Some("firstWins"), None, responses));
    let mut paths: StrMap<Path> = StrMap::new();
    paths.insert("/f".to_string(), path);
    let (flat, _) = extract_entrypoints(&document(paths, None));
    assert_eq!(flat[0].responses[0].content_type, Some("application/json".to_string()));
    assert_eq!(flat[0].responses[0].return_type, Some(NativeType::Bool));
}

#[test]
fn skipped_operation_reports_only_the_missing_id() {
    let params = vec![MaybeRef::Ref(Ref { ref_: "broken".to_string() })];
    let mut responses: StrMap<MaybeRef<ResponseObj>> = StrMap::new();
    responses.insert("200".to_string(), MaybeRef::Ref(Ref { ref_: "also broken".to_string() }));
    let mut path = empty_path();
    path.get = Some(operation(None, Some(params), responses));
    let mut paths: StrMap<Path> = StrMap::new();
    paths.insert("/skip".to_string(), path);
    let (flat, diagnostics) = extract_entrypoints(&document(paths, None));
    assert_eq!(flat.len(), 0);
    assert_eq!(diagnostics.len(), 1);
    assert!(matches!(
        diagnostics[0].error,
        Error::Extraction(ExtractionError::MissingOperationId)
    ));
}

#[test]
fn entrypoint_count_matches_present_operation_ids() {
    let api = petstore();
    let (flat, _) = extract_entrypoints(&api);
    let mut expected = 0;
    for i in 0..api.paths.len() {
        let path = api.paths.value_at(i);
        for op in [&path.get, &path.post, &path.put, &path.patch, &path.delete] {
            if let Some(op) = op {
                if op.operation_id.is_some() {
                    expected += 1;
                }
            }
        }
    }
    assert_eq!(flat.len(), expected);
}
