use schema_next::assembled::{AssembledSchema, AssembledType, Endpoint, Leg, Route, RouteBody};
use schema_next::asschema;
use schema_next::declaration::{DeclarationBody, Variant};
use schema_next::error::Error;
use schema_next::expression::{Primitive, TypeExpression};
use schema_next::feature::Feature;
use schema_next::identity::{ContentHash, HashDomain};
use schema_next::name::Name;
use schema_next::upgrade::{Projection, StandardProjection, Upgrade, UpgradeAnnotation, Version};

fn name(text: &str) -> Name {
    Name::new(text).expect("valid name")
}

fn route(leg: Leg, root_slot: usize, endpoint_slot: usize) -> Route {
    Route::new(leg, root_slot, name("Request"), Endpoint::new(endpoint_slot, name("Move")), RouteBody::Unit)
}

fn schema(types: Vec<AssembledType>, features: Vec<Feature>) -> AssembledSchema {
    AssembledSchema::new(Vec::new(), Vec::new(), types, features)
}

fn enumeration(variants: &[&str]) -> DeclarationBody {
    DeclarationBody::Enum { variants: variants.iter().map(|v| Variant::unit(name(v))).collect() }
}

fn upgrade(annotations: Vec<UpgradeAnnotation>) -> Feature {
    Feature::Upgrade(Upgrade::new(Version::new("1"), annotations))
}

#[test]
fn short_header_packs_slots_into_low_bytes() {
    let r = route(Leg::Owner, 3, 7);
    assert_eq!(r.short_header(), Ok(3 + 7 * 256));
    assert_eq!(route(Leg::Ordinary, 255, 255).short_header(), Ok(65535));
    assert_eq!(route(Leg::Ordinary, 0, 0).short_header(), Ok(0));
}

#[test]
fn short_header_refuses_slots_beyond_a_byte() {
    assert_eq!(
        route(Leg::Ordinary, 256, 1).short_header(),
        Err(Error::ShortHeaderSlotOverflow { root: name("Request"), endpoint: None, slot: 256 })
    );
    assert_eq!(
        route(Leg::Ordinary, 1, 300).short_header(),
        Err(Error::ShortHeaderSlotOverflow {
            root: name("Request"),
            endpoint: Some(name("Move")),
            slot: 300
        })
    );
}

#[test]
fn a_route_is_found_again_by_its_short_header() {
    let routes = vec![route(Leg::Ordinary, 0, 0), route(Leg::Owner, 0, 1), route(Leg::Owner, 2, 1)];
    let assembled = AssembledSchema::new(Vec::new(), routes, Vec::new(), Vec::new());
    for r in assembled.routes() {
        let header = r.short_header().expect("fits");
        let found = assembled.route_for_short_header(r.leg(), header).expect("found");
        assert_eq!(found, r);
    }
    assert!(assembled.route_for_short_header(Leg::Sema, 0).is_none());
    assert!(assembled.route_for_short_header(Leg::Owner, 1 + 256).is_none());
    // Bytes above the second are not looked at.
    let far = assembled.route_for_short_header(Leg::Owner, 2 + 256 + (9 << 16)).expect("found");
    assert_eq!(far.root_slot(), 2);
}

#[test]
fn assembled_types_are_keyed_by_name_last_one_wins() {
    let assembled = schema(
        vec![
            AssembledType::local(name("Zeta"), enumeration(&["A"])),
            AssembledType::imported(name("Alpha"), name("Core")),
            AssembledType::local(name("Zeta"), enumeration(&["B"])),
        ],
        Vec::new(),
    );
    let names: Vec<&str> = assembled.types().iter().map(|t| t.name().as_str()).collect();
    assert_eq!(names, vec!["Alpha", "Zeta"]);
    let zeta = assembled.body(&name("Zeta")).expect("local body");
    assert!(zeta.storage_matches(&enumeration(&["B"])));
    assert!(assembled.body(&name("Alpha")).is_none());
    assert!(assembled.body(&name("Missing")).is_none());
}

#[test]
fn upgrade_plan_projects_unchanged_added_and_extended_types() {
    let previous = schema(
        vec![
            AssembledType::local(name("Light"), enumeration(&["On", "Off"])),
            AssembledType::local(name("Same"), enumeration(&["One"])),
        ],
        Vec::new(),
    );
    let current = schema(
        vec![
            AssembledType::local(name("Light"), enumeration(&["On", "Off", "Dim"])),
            AssembledType::local(name("Same"), enumeration(&["One"])),
            AssembledType::local(name("Fresh"), enumeration(&["New"])),
        ],
        Vec::new(),
    );
    let plan = current.plan_upgrade_from(&previous).expect("plan");
    assert_eq!(
        plan.projections(),
        &[
            Projection::Added { name: name("Fresh") },
            Projection::Standard {
                name: name("Light"),
                kind: StandardProjection::AdditiveEnumVariant
            },
            Projection::Identity { name: name("Same") },
        ]
    );
}

#[test]
fn upgrade_plan_needs_annotations_for_changes_and_removals() {
    let previous = schema(vec![AssembledType::local(name("Light"), enumeration(&["On", "Off"]))], Vec::new());
    let reordered = schema(vec![AssembledType::local(name("Light"), enumeration(&["Off", "On"]))], Vec::new());
    assert_eq!(
        reordered.plan_upgrade_from(&previous),
        Err(Error::MissingUpgradeAnnotation { name: name("Light") })
    );
    let migrated = schema(
        vec![AssembledType::local(name("Light"), enumeration(&["Off", "On"]))],
        vec![upgrade(vec![UpgradeAnnotation::Migrate(name("Light"))])],
    );
    let plan = migrated.plan_upgrade_from(&previous).expect("annotated");
    assert_eq!(
        plan.projections(),
        &[Projection::Annotated { name: name("Light"), annotation: UpgradeAnnotation::Migrate(name("Light")) }]
    );
    let empty = schema(Vec::new(), Vec::new());
    assert_eq!(
        empty.plan_upgrade_from(&previous),
        Err(Error::RemovedTypeRequiresAnnotation { name: name("Light") })
    );
    let dropped = schema(Vec::new(), vec![upgrade(vec![UpgradeAnnotation::Drop(name("Light"))])]);
    assert_eq!(
        dropped.plan_upgrade_from(&previous).expect("dropped").projections(),
        &[Projection::Dropped { name: name("Light") }]
    );
    let lost = schema(Vec::new(), vec![upgrade(vec![UpgradeAnnotation::Untranslatable(name("Light"))])]);
    assert_eq!(
        lost.plan_upgrade_from(&previous).expect("untranslatable").projections(),
        &[Projection::Untranslatable { name: name("Light") }]
    );
}

#[test]
fn upgrade_plan_follows_renames_and_refuses_duplicate_annotations() {
    let previous = schema(vec![AssembledType::local(name("Lamp"), enumeration(&["On"]))], Vec::new());
    let renamed = schema(
        vec![AssembledType::local(name("Light"), enumeration(&["On"]))],
        vec![upgrade(vec![UpgradeAnnotation::RenamedFrom { current: name("Light"), previous: name("Lamp") }])],
    );
    assert_eq!(
        renamed.plan_upgrade_from(&previous).expect("renamed").projections(),
        &[Projection::Renamed { current: name("Light"), previous: name("Lamp") }]
    );
    let doubled = schema(
        Vec::new(),
        vec![
            upgrade(vec![UpgradeAnnotation::Drop(name("Lamp"))]),
            upgrade(vec![UpgradeAnnotation::Untranslatable(name("Lamp"))]),
        ],
    );
    assert_eq!(
        doubled.plan_upgrade_from(&previous),
        Err(Error::DuplicateUpgradeAnnotation { name: name("Lamp") })
    );
}

#[test]
fn a_schema_upgrades_from_itself_by_identity() {
    let body = DeclarationBody::Record(vec![schema_next::declaration::Field::inferred(TypeExpression::Primitive(Primitive::Unsigned8))]);
    let one = schema(vec![AssembledType::local(name("Point"), body)], Vec::new());
    let plan = one.plan_upgrade_from(&one).expect("plan");
    assert_eq!(plan.projections(), &[Projection::Identity { name: name("Point") }]);
}

#[test]
fn content_hash_is_a_domain_separated_blake3_key() {
    let bytes = b"schema bytes";
    let schema_hash = ContentHash::for_schema_bytes(bytes);
    let family_hash = ContentHash::for_family_closure_bytes(bytes);
    assert_ne!(schema_hash, family_hash);
    assert_eq!(schema_hash, ContentHash::derive(HashDomain::Schema, bytes));
    assert_ne!(schema_hash, ContentHash::for_schema_bytes(b"other bytes"));
    assert_ne!(&schema_hash.as_bytes()[..bytes.len()], &bytes[..]);
    assert_eq!(
        HashDomain::Schema.context(),
        "schema-next 2026-06-12 whole-schema content identity"
    );
}

#[test]
fn content_hash_hex_is_two_lowercase_digits_per_byte() {
    let hash = ContentHash::for_schema_bytes(b"abc");
    let hex = hash.to_hex();
    assert_eq!(hex.len(), 64);
    let expected: String = hash.as_bytes().iter().map(|byte| format!("{byte:02x}")).collect();
    assert_eq!(hex, expected);
}

#[test]
fn asschema_names_split_into_namespace_segments() {
    let qualified = asschema::Name::new("schema-core:mail:TopicName");
    assert_eq!(qualified.namespace_segments(), vec!["schema-core", "mail", "TopicName"]);
    assert_eq!(qualified.local_part(), "TopicName");
    assert_eq!(qualified.field_name(), "topic_name");
    let plain = asschema::Name::new("Magnitude");
    assert_eq!(plain.namespace_segments(), vec!["Magnitude"]);
    assert_eq!(asschema::Name::new("kebab-name").field_name(), "kebab_name");
    assert_eq!(asschema::Name::new("").namespace_segments(), vec![""]);
}

#[test]
fn type_references_reserve_the_scalar_names() {
    assert_eq!(asschema::TypeReference::new("String"), asschema::TypeReference::String);
    assert_eq!(asschema::TypeReference::new("Path"), asschema::TypeReference::Path);
    let topic = asschema::TypeReference::new("Topic");
    assert!(topic.is_plain());
    assert_eq!(topic.plain_name().expect("plain").as_str(), "Topic");
    assert_eq!(topic.scalar_name(), None);
    assert_eq!(asschema::TypeReference::Integer.scalar_name(), Some("Integer"));
    assert!(asschema::TypeReference::is_reserved_scalar_name(&asschema::Name::new("Boolean")));
    assert!(!asschema::TypeReference::is_reserved_scalar_name(&asschema::Name::new("Bool")));
}

#[test]
fn asschema_finds_roots_and_namespace_types() {
    let input = asschema::EnumDeclaration::new(asschema::Name::new("Input"), Vec::new());
    let output = asschema::EnumDeclaration::new(asschema::Name::new("Output"), Vec::new());
    let topic = asschema::TypeDeclaration::Newtype(asschema::NewtypeDeclaration::new(
        asschema::Name::new("Topic"),
        asschema::TypeReference::String,
    ));
    let value = asschema::Asschema::new(
        asschema::SchemaIdentity::new("Mail", "0.1.0"),
        Vec::new(),
        input,
        output,
        vec![asschema::Declaration::private(topic.clone())],
    );
    assert_eq!(value.root_named("Output").expect("root").name.as_str(), "Output");
    assert!(value.root_named("Other").is_none());
    assert_eq!(value.type_named("Topic"), Some(&topic));
    assert!(value.type_named("Missing").is_none());
    assert!(value.namespace()[0].is_private());
    assert_eq!(value.identity().version(), "0.1.0");
    let artifact = asschema::AsschemaArtifact::new(value.clone());
    assert_eq!(artifact.asschema(), &value);
    assert_eq!(artifact.into_asschema(), value);
}

#[test]
fn module_files_and_identities_follow_the_module_name() {
    let module = asschema::Name::new("schema-core:mail:Magnitude");
    assert_eq!(schema_next::module::module_file_name(&module), "schema-core/mail/Magnitude.schema");
    let identity = schema_next::module::module_identity(
        &asschema::Name::new("spirit"),
        &asschema::Name::new("lib"),
        "0.3.0",
    );
    assert_eq!(identity.component().as_str(), "spirit:lib");
    assert_eq!(identity.version(), "0.3.0");
}

#[test]
fn hash_domains_use_distinct_contexts() {
    assert_ne!(HashDomain::Schema.context(), HashDomain::FamilyClosure.context());
}
