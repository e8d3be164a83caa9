use openapi_flat::errors::ReferenceError;
use openapi_flat::objects::Ref;
use openapi_flat::strmap::StrMap;
use openapi_flat::MaybeRef;

fn reference(ptr: &str) -> MaybeRef<u64> {
    MaybeRef::Ref(Ref { ref_: ptr.to_string() })
}

#[test]
fn concrete_resolves_without_registry() {
    let v: MaybeRef<u64> = MaybeRef::Concrete(7);
    assert_eq!(*v.as_result().unwrap(), 7);
    assert_eq!(*v.resolve_ref_opt(&None).unwrap(), 7);
}

#[test]
fn concrete_resolves_whatever_the_registry_holds() {
    let v: MaybeRef<u64> = MaybeRef::Concrete(7);
    let mut map: StrMap<MaybeRef<u64>> = StrMap::new();
    assert_eq!(*v.resolve_ref(&map).unwrap(), 7);
    map.insert("seven".to_string(), MaybeRef::Concrete(9));
    assert_eq!(*v.resolve_ref(&map).unwrap(), 7);
    assert_eq!(*v.resolve_ref_opt(&Some(map)).unwrap(), 7);
}

#[test]
fn reference_without_registry_is_not_concrete() {
    let v = reference("#/components/schemas/Pet");
    assert!(matches!(v.as_result(), Err(ReferenceError::NotConcrete)));
    assert!(matches!(v.resolve_ref_opt(&None), Err(ReferenceError::NotConcrete)));
}

#[test]
fn reference_resolves_by_trailing_segment() {
    let mut map: StrMap<MaybeRef<u64>> = StrMap::new();
    map.insert("Pet".to_string(), MaybeRef::Concrete(42));
    let v = reference("#/components/schemas/Pet");
    assert_eq!(*v.resolve_ref(&map).unwrap(), 42);
}

#[test]
fn reference_to_missing_name_is_not_found() {
    let map: StrMap<MaybeRef<u64>> = StrMap::new();
    let v = reference("#/components/schemas/Pet");
    match v.resolve_ref(&map) {
        Err(ReferenceError::NotFound(name)) => assert_eq!(name, "Pet"),
        other => panic!("expected NotFound, got {:?}", other),
    }
}

#[test]
fn pointer_without_separator_is_invalid() {
    let map: StrMap<MaybeRef<u64>> = StrMap::new();
    let v = reference("Pet");
    assert!(matches!(v.resolve_ref(&map), Err(ReferenceError::InvalidPointer)));
}

#[test]
fn reference_to_reference_is_recursive() {
    let mut map: StrMap<MaybeRef<u64>> = StrMap::new();
    map.insert("Pet".to_string(), reference("#/components/schemas/Animal"));
    map.insert("Animal".to_string(), MaybeRef::Concrete(1));
    let v = reference("#/components/schemas/Pet");
    assert!(matches!(v.resolve_ref(&map), Err(ReferenceError::RecursiveReference)));
}

#[test]
fn strmap_keeps_keys_sorted_and_unique() {
    let mut map: StrMap<u64> = StrMap::new();
    map.insert("pear".to_string(), 1);
    map.insert("apple".to_string(), 2);
    map.insert("quince".to_string(), 3);
    map.insert("apple".to_string(), 4);
    assert_eq!(map.len(), 3);
    assert_eq!(map.key_at(0).as_str(), "apple");
    assert_eq!(map.key_at(1).as_str(), "pear");
    assert_eq!(map.key_at(2).as_str(), "quince");
    assert_eq!(*map.value_at(0), 4);
    assert_eq!(*map.get("apple").unwrap(), 4);
    assert_eq!(*map.get("pear").unwrap(), 1);
    assert!(map.get("plum").is_none());
}
