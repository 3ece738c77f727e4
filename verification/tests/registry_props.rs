use dimtypes::registry::{BaseRepresentation, Registry, RegistryAdapter, RegistryError};

/// An adapter whose derived expressions are literal component lists.
#[derive(Default)]
struct LiteralAdapter;

impl RegistryAdapter for LiteralAdapter {
    type DerivedExpression = Vec<(String, i32)>;
    type Metadata = ();

    fn expression_to_base_representation(
        _registry: &Registry<LiteralAdapter>,
        expr: &Vec<(String, i32)>,
    ) -> Result<BaseRepresentation, RegistryError> {
        Ok(BaseRepresentation::from_components(expr))
    }
}

/// An adapter that resolves a single entry name through the registry, so
/// adapter failures surface registry errors.
#[derive(Default)]
struct NameAdapter;

impl RegistryAdapter for NameAdapter {
    type DerivedExpression = String;
    type Metadata = ();

    fn expression_to_base_representation(
        registry: &Registry<NameAdapter>,
        expr: &String,
    ) -> Result<BaseRepresentation, RegistryError> {
        registry.get_base_representation_for_name(expr)
    }
}

fn rep(components: &[(&str, i32)]) -> BaseRepresentation {
    let owned: Vec<(String, i32)> = components
        .iter()
        .map(|(name, exponent)| (name.to_string(), *exponent))
        .collect();
    BaseRepresentation::from_components(&owned)
}

#[test]
fn merging_with_scalar_is_identity() {
    let registry = Registry::<LiteralAdapter>::default();
    let r = rep(&[("length", 1), ("time", -2)]);
    assert_eq!(
        registry.merge_base_representations(&BaseRepresentation::scalar(), &r),
        r
    );
    assert_eq!(
        registry.merge_base_representations(&r, &BaseRepresentation::scalar()),
        r
    );
}

#[test]
fn merging_with_the_inverse_yields_scalar() {
    let registry = Registry::<LiteralAdapter>::default();
    let r = rep(&[("length", 3), ("mass", -1), ("time", 2)]);
    assert_eq!(
        registry.merge_base_representations(&r, &r.invert()),
        BaseRepresentation::scalar()
    );
}

#[test]
fn invert_negates_every_exponent() {
    let r = rep(&[("length", 2), ("time", -5)]);
    assert_eq!(r.invert(), rep(&[("length", -2), ("time", 5)]));
}

#[test]
fn merge_is_commutative_and_associative() {
    let registry = Registry::<LiteralAdapter>::default();
    let a = rep(&[("length", 1)]);
    let b = rep(&[("mass", 2), ("time", -1)]);
    let c = rep(&[("length", -1), ("time", 1)]);

    let ab = registry.merge_base_representations(&a, &b);
    let ba = registry.merge_base_representations(&b, &a);
    assert_eq!(ab, ba);

    let ab_c = registry.merge_base_representations(&ab, &c);
    let bc = registry.merge_base_representations(&b, &c);
    let a_bc = registry.merge_base_representations(&a, &bc);
    assert_eq!(ab_c, a_bc);
    assert_eq!(ab_c, rep(&[("mass", 2)]));
}

#[test]
fn merge_sums_exponents_and_sorts_canonically() {
    let registry = Registry::<LiteralAdapter>::default();
    let left = rep(&[("time", 1)]);
    let right = rep(&[("length", 1)]);
    assert_eq!(
        registry.merge_base_representations(&left, &right),
        rep(&[("length", 1), ("time", 1)])
    );
}

#[test]
fn merge_of_cancelling_exponents_is_scalar() {
    let registry = Registry::<LiteralAdapter>::default();
    let merged = registry.merge_base_representations(
        &rep(&[("length", 2)]),
        &rep(&[("length", -2)]),
    );
    assert_eq!(merged, BaseRepresentation::scalar());
    assert!(merged.components.is_empty());
}

#[test]
fn base_entries_register_once() {
    let mut registry = Registry::<LiteralAdapter>::default();
    assert!(!registry.is_base_entry("length"));
    registry.add_base_entry("length", ()).unwrap();
    assert!(registry.is_base_entry("length"));
    assert_eq!(
        registry.add_base_entry("length", ()),
        Err(RegistryError::EntryExists("length".to_string()))
    );
    // The failed insertion left the registry unchanged.
    assert!(registry.is_base_entry("length"));
    assert!(!registry.is_base_entry("time"));
}

#[test]
fn unknown_entry_on_empty_registry() {
    let registry = Registry::<LiteralAdapter>::default();
    assert_eq!(
        registry.get_base_representation_for_name("unknown"),
        Err(RegistryError::UnknownEntry("unknown".to_string()))
    );
}

#[test]
fn derived_entries_are_memoized_and_looked_up() {
    // Scenario: base entries "length" and "time", derived entry "speed".
    let mut registry = Registry::<LiteralAdapter>::default();
    registry.add_base_entry("length", ()).unwrap();
    registry.add_base_entry("time", ()).unwrap();
    registry
        .add_derived_entry(
            "speed",
            &vec![("length".to_string(), 1), ("time".to_string(), -1)],
            (),
        )
        .unwrap();

    assert_eq!(
        registry.get_base_representation_for_name("speed"),
        Ok(rep(&[("length", 1), ("time", -1)]))
    );
    assert_eq!(
        registry.get_base_representation_for_name("length"),
        Ok(rep(&[("length", 1)]))
    );
}

#[test]
fn derived_entries_register_once() {
    let mut registry = Registry::<LiteralAdapter>::default();
    registry
        .add_derived_entry("area", &vec![("length".to_string(), 2)], ())
        .unwrap();
    assert_eq!(
        registry.add_derived_entry("area", &vec![("length".to_string(), 3)], ()),
        Err(RegistryError::EntryExists("area".to_string()))
    );
    // The first registration is still the memoized one.
    assert_eq!(
        registry.get_base_representation_for_name("area"),
        Ok(rep(&[("length", 2)]))
    );
}

#[test]
fn adapter_failures_pass_through_and_leave_the_registry_unchanged() {
    let mut registry = Registry::<NameAdapter>::default();
    assert_eq!(
        registry.add_derived_entry("speed", &"velocity".to_string(), ()),
        Err(RegistryError::UnknownEntry("velocity".to_string()))
    );
    assert_eq!(
        registry.get_base_representation_for_name("speed"),
        Err(RegistryError::UnknownEntry("speed".to_string()))
    );
}

#[test]
fn adapter_can_read_previously_declared_entries() {
    let mut registry = Registry::<NameAdapter>::default();
    registry.add_base_entry("length", ()).unwrap();
    registry.add_derived_entry("metre", &"length".to_string(), ()).unwrap();
    registry.add_derived_entry("distance", &"metre".to_string(), ()).unwrap();
    assert_eq!(
        registry.get_base_representation_for_name("distance"),
        Ok(rep(&[("length", 1)]))
    );
}

#[test]
fn get_base_representation_delegates_to_the_adapter() {
    let registry = Registry::<LiteralAdapter>::default();
    assert_eq!(
        registry.get_base_representation(&vec![("mass".to_string(), 1)]),
        Ok(rep(&[("mass", 1)]))
    );
}

#[test]
fn from_components_keeps_the_given_components() {
    let r = rep(&[("b", 1), ("a", -1)]);
    assert_eq!(
        r.components,
        vec![("b".to_string(), 1), ("a".to_string(), -1)]
    );
}

#[test]
fn scalar_is_empty() {
    assert!(BaseRepresentation::scalar().components.is_empty());
}

#[test]
fn canonicalize_sums_duplicates_sorts_and_drops_zeros() {
    let raw = rep(&[("time", 1), ("length", 2), ("time", -1), ("mass", 0), ("length", 1)]);
    assert_eq!(raw.canonicalize(), rep(&[("length", 3)]));
}

#[test]
fn canonicalize_leaves_canonical_input_unchanged() {
    let r = rep(&[("length", 1), ("time", -2)]);
    assert_eq!(r.canonicalize(), r);
}

#[test]
fn insert_derived_memoizes_the_given_representation() {
    let mut registry = Registry::<LiteralAdapter>::default();
    registry.add_base_entry("length", ()).unwrap();
    registry
        .insert_derived("area", rep(&[("length", 2)]))
        .unwrap();
    assert_eq!(
        registry.get_base_representation_for_name("area"),
        Ok(rep(&[("length", 2)]))
    );
    assert_eq!(
        registry.insert_derived("area", rep(&[("length", 3)])),
        Err(RegistryError::EntryExists("area".to_string()))
    );
}
