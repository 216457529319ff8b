//! Each finding of `@override` validation, with its exact text.

use federation_merger::ast::{Argument, Directive, FieldDefinition, Node, SourceSpan, Type, Value};
use federation_merger::composition::{KnownSpecs, Preparation, SpecElements};
use federation_merger::field_context::FieldMergeContext;
use federation_merger::index_map::{IndexedMap, Sources};
use federation_merger::merger::{
    CompositionOptions, JoinSpecDefinition, LinkSpecDefinition, Merger,
};
use federation_merger::override_pass::list_declared_fields;
use federation_merger::schema::{
    AppliedDirective, DirectiveTargetPosition, ExtendedType, FederationSchema,
    FieldDefinitionPosition, FieldPosition, FieldsType, TypeDefinition,
};
use federation_merger::subgraph::Subgraph;
use federation_merger::version::Version;

fn field(directives: Vec<Node<Directive>>) -> FieldDefinition {
    FieldDefinition { name: "f".to_string(), ty: Type::Named("Int".to_string()), directives }
}

fn directive(name: &str, arguments: Vec<(&str, Value)>) -> Node<Directive> {
    Node {
        node: Directive {
            name: name.to_string(),
            arguments: arguments
                .into_iter()
                .map(|(name, value)| Argument { name: name.to_string(), value })
                .collect(),
        },
        location: Some(SourceSpan { file: 1, start: 10, end: 20 }),
    }
}

fn override_from(source: &str) -> Node<Directive> {
    directive("override", vec![("from", Value::String(source.to_string()))])
}

fn override_with_label(source: &str, label: &str) -> Node<Directive> {
    directive(
        "override",
        vec![
            ("from", Value::String(source.to_string())),
            ("label", Value::String(label.to_string())),
        ],
    )
}

fn position() -> FieldPosition {
    FieldPosition { typename: "T".to_string(), field_name: "f".to_string() }
}

/// A subgraph with the type `T`, which has the field `f` where one is given.
fn subgraph(name: &str, field: Option<FieldDefinition>) -> Subgraph {
    let mut schema = FederationSchema::new();
    let mut fields = vec![];
    if let Some(field) = field {
        for directive in &field.directives {
            schema.applied_directives.push(AppliedDirective {
                target: DirectiveTargetPosition::ObjectField(position()),
                directive: directive.node.clone(),
            });
        }
        fields.push(field);
    }
    schema.types.push(TypeDefinition {
        name: "T".to_string(),
        definition: ExtendedType::Object(FieldsType { implements_interfaces: vec![], fields }),
    });
    Subgraph {
        name: name.to_string(),
        schema,
        is_fed_2_schema: true,
        federation_version: Version { major: 2, minor: 0 },
        feature_versions: vec![],
        interface_object_types: vec![],
        used_fields: vec![],
        external_fields: vec![],
        type_links: vec![],
        override_directive_name: Some("override".to_string()),
        from_context_directive_name: None,
        imports: vec![],
    }
}

fn field_in(subgraph: &Subgraph) -> Option<FieldDefinition> {
    match subgraph.schema.get_type("T") {
        Some(ExtendedType::Object(ty)) => ty.fields.iter().find(|f| f.name == "f").cloned(),
        Some(ExtendedType::Interface(ty)) => ty.fields.iter().find(|f| f.name == "f").cloned(),
        _ => None,
    }
}

fn set_up(subgraphs: Vec<Subgraph>) -> (Merger, Sources<Node<FieldDefinition>>) {
    let version = Version { major: 2, minor: 0 };
    let specs = KnownSpecs {
        latest_federation_version: version,
        join_specs: vec![(version, JoinSpecDefinition { version })],
        link_specs: vec![(version, LinkSpecDefinition { version })],
    };
    let preparation = Preparation {
        link_spec: Ok(SpecElements::default()),
        join_spec: Ok(SpecElements::default()),
        core_directives: Ok(vec![]),
        directive_specs: Ok(SpecElements::default()),
        graph_names: Ok(vec![]),
    };
    let mut sources: Sources<Node<FieldDefinition>> = IndexedMap::new();
    for (i, subgraph) in subgraphs.iter().enumerate() {
        sources.insert(i, field_in(subgraph).map(Node::new));
    }
    let merger = Merger::new(subgraphs, CompositionOptions::default(), &specs, preparation)
        .expect("Failed to create test merger");
    (merger, sources)
}

fn validate(subgraphs: Vec<Subgraph>) -> (Merger, FieldMergeContext) {
    let (mut merger, sources) = set_up(subgraphs);
    let context = merger
        .validate_override(&sources, &Node::new(field(vec![])))
        .expect("a context");
    (merger, context)
}

fn errors(merger: &Merger) -> Vec<String> {
    merger.error_reporter().errors.iter().map(|e| e.to_string()).collect()
}

fn hints(merger: &Merger) -> Vec<&str> {
    merger.error_reporter().hints.iter().map(|h| h.message.as_str()).collect()
}

#[test]
fn field_without_override_has_no_findings() {
    let (merger, context) =
        validate(vec![subgraph("a", Some(field(vec![]))), subgraph("b", Some(field(vec![])))]);
    assert!(!merger.has_errors() && !merger.has_hints());
    assert!(!context.some());
}

#[test]
fn override_outside_federation_2_is_ignored() {
    let mut first = subgraph("a", Some(field(vec![override_from("a")])));
    first.is_fed_2_schema = false;
    let (merger, context) = validate(vec![first]);
    assert!(!merger.has_errors() && !merger.has_hints());
    assert!(!context.some());
}

#[test]
fn override_on_an_interface_field() {
    let interface = |name: &str, field: FieldDefinition| {
        let mut subgraph = subgraph(name, Some(field));
        let last = subgraph.schema.types.pop().unwrap();
        let definition = match last.definition {
            ExtendedType::Object(ty) => ExtendedType::Interface(ty),
            other => other,
        };
        subgraph.schema.types.push(TypeDefinition { name: last.name, definition });
        subgraph
    };
    let (merger, context) = validate(vec![
        interface("a", field(vec![override_from("b")])),
        interface("b", field(vec![])),
    ]);
    assert_eq!(
        errors(&merger),
        vec!["OVERRIDE_ON_INTERFACE: @override cannot be used on field \"<Type>.f\" on subgraph \"a\": @override is not supported on interface type fields."]
    );
    assert!(!context.some());
}

#[test]
fn override_on_an_interface_object_field() {
    let mut first = subgraph("a", Some(field(vec![override_from("b")])));
    first.interface_object_types = vec!["T".to_string()];
    let (merger, _) = validate(vec![first, subgraph("b", Some(field(vec![])))]);
    assert_eq!(
        errors(&merger),
        vec!["DIRECTIVE_DEFINITION_INVALID: @override is not yet supported on fields of @interfaceObject types: cannot be used on field \"<Type>.f\" on subgraph \"a\"."]
    );
}

#[test]
fn override_from_an_unknown_subgraph() {
    let (merger, context) = validate(vec![
        subgraph("xyz", Some(field(vec![override_from("product")]))),
        subgraph("products", Some(field(vec![]))),
    ]);
    assert!(!merger.has_errors());
    assert_eq!(
        hints(&merger),
        vec!["[FROM_SUBGRAPH_DOES_NOT_EXIST] Source subgraph \"product\" for field \"<Type>.f\" on subgraph \"xyz\" does not exist. Did you mean \"products\"?"]
    );
    assert_eq!(merger.error_reporter().hints[0].code, "FROM_SUBGRAPH_DOES_NOT_EXIST");
    let node = &merger.error_reporter().hints[0].nodes[0];
    assert_eq!(node.subgraph, "xyz");
    assert_eq!(node.location, SourceSpan { file: 1, start: 10, end: 20 });
    assert!(context.has_override_with_unknown_target(0));
    assert!(!context.has_override_with_unknown_target(1));
}

#[test]
fn override_from_itself() {
    let (merger, _) = validate(vec![subgraph("a", Some(field(vec![override_from("a")])))]);
    assert_eq!(
        errors(&merger),
        vec!["OVERRIDE_FROM_SELF_ERROR: Source and destination subgraphs \"a\" are the same for overridden field \"<Type>.f\""]
    );
}

#[test]
fn override_of_a_field_that_overrides() {
    let (merger, context) = validate(vec![
        subgraph("a", Some(field(vec![override_from("b")]))),
        subgraph("b", Some(field(vec![directive(
            "federation__override",
            vec![("from", Value::String("c".to_string()))],
        )]))),
        subgraph("c", Some(field(vec![]))),
    ]);
    assert_eq!(
        errors(&merger),
        vec!["DIRECTIVE_DEFINITION_INVALID: Field \"<Type>.f\" on subgraph \"a\" is also marked with directive @override in subgraph \"b\". Only one @override directive is allowed per field."]
    );
    assert!(!context.is_unused_overridden(1));
    assert!(context.is_unused_overridden(2));
}

#[test]
fn override_of_a_field_that_is_gone() {
    let (merger, context) =
        validate(vec![subgraph("a", Some(field(vec![override_from("b")]))), subgraph("b", None)]);
    assert_eq!(
        hints(&merger),
        vec!["[OVERRIDE_DIRECTIVE_CAN_BE_REMOVED] Field \"<Type>.f\" on subgraph \"a\" no longer exists in the from subgraph. The @override directive can be removed."]
    );
    assert!(!context.some());
}

#[test]
fn override_of_an_abstracted_field() {
    // The source has no type `T`, but an object of the name of an interface of `T`.
    let mut source = subgraph("b", None);
    source.schema.types.pop();
    source.schema.types.push(TypeDefinition {
        name: "I".to_string(),
        definition: ExtendedType::Object(FieldsType {
            implements_interfaces: vec![],
            fields: vec![FieldDefinition {
                name: "f".to_string(),
                ty: Type::NonNullNamed("Int".to_string()),
                directives: vec![],
            }],
        }),
    });
    let (mut merger, sources) =
        set_up(vec![subgraph("a", Some(field(vec![override_from("b")]))), source]);
    merger.merged.types.push(TypeDefinition {
        name: "T".to_string(),
        definition: ExtendedType::Object(FieldsType {
            implements_interfaces: vec!["I".to_string(), "J".to_string()],
            fields: vec![],
        }),
    });
    merger.merged.types.push(TypeDefinition {
        name: "I".to_string(),
        definition: ExtendedType::Interface(FieldsType {
            implements_interfaces: vec![],
            fields: vec![field(vec![])],
        }),
    });
    let context = merger
        .validate_override(&sources, &Node::new(field(vec![])))
        .expect("a context");
    assert_eq!(
        errors(&merger),
        vec!["DIRECTIVE_DEFINITION_INVALID: Invalid @override on field \"<Type>.f\" of subgraph \"a\": source subgraph \"b\" does not have field \"<Type>.f\" but abstract it in type \"I\" and overriding abstracted fields is not supported."]
    );
    assert!(!context.some());
}

#[test]
fn override_that_collides_with_another_directive() {
    let (merger, _) = validate(vec![
        subgraph("a", Some(field(vec![override_from("b")]))),
        subgraph("b", Some(field(vec![directive("requires", vec![])]))),
    ]);
    assert_eq!(
        errors(&merger),
        vec!["OVERRIDE_COLLISION_WITH_ANOTHER_DIRECTIVE: @override cannot be used on field \"<Type>.f\" on subgraph \"a\" since \"<Type>.f\" on \"b\" is marked with directive \"@requires\""]
    );

    let (merger, _) = validate(vec![
        subgraph("a", Some(field(vec![override_from("b")]))),
        subgraph("b", Some(field(vec![directive("federation__provides", vec![])]))),
    ]);
    assert_eq!(
        errors(&merger),
        vec!["OVERRIDE_COLLISION_WITH_ANOTHER_DIRECTIVE: @override cannot be used on field \"<Type>.f\" on subgraph \"a\" since \"<Type>.f\" on \"b\" is marked with directive \"@provides\""]
    );

    let mut first = subgraph("a", Some(field(vec![override_from("b")])));
    first.external_fields = vec![FieldDefinitionPosition::Object(position())];
    let (merger, _) = validate(vec![first, subgraph("b", Some(field(vec![])))]);
    assert_eq!(
        errors(&merger),
        vec!["OVERRIDE_COLLISION_WITH_ANOTHER_DIRECTIVE: @override cannot be used on field \"<Type>.f\" on subgraph \"a\" since \"<Type>.f\" on \"a\" is marked with directive \"@external\""]
    );
}

#[test]
fn override_of_an_unused_field() {
    let (merger, context) = validate(vec![
        subgraph("a", Some(field(vec![override_from("b")]))),
        subgraph("b", Some(field(vec![]))),
    ]);
    assert!(!merger.has_errors());
    assert_eq!(
        hints(&merger),
        vec!["[OVERRIDDEN_FIELD_CAN_BE_REMOVED] Field \"<Type>.f\" on subgraph \"b\" is overridden. Consider removing it."]
    );
    assert!(context.is_unused_overridden(1));
    assert!(!context.is_used_overridden(1));
    assert!(context.get_properties(0).is_none());
}

#[test]
fn override_of_a_used_field() {
    let mut source = subgraph("b", Some(field(vec![])));
    source.used_fields = vec![FieldDefinitionPosition::Object(position())];
    let (merger, context) =
        validate(vec![subgraph("a", Some(field(vec![override_from("b")]))), source]);
    assert_eq!(
        hints(&merger),
        vec!["[OVERRIDDEN_FIELD_CAN_BE_REMOVED] Field \"<Type>.f\" on subgraph \"b\" is overridden. It is still used in some federation directive(s) (@key, @requires, and/or @provides) and/or to satisfy interface constraint(s), but consider marking it @external explicitly or removing it along with its references."]
    );
    assert!(context.is_used_overridden(1));
    assert!(!context.is_unused_overridden(1));
}

#[test]
fn override_of_an_external_field() {
    let mut source = subgraph("b", Some(field(vec![])));
    source.external_fields = vec![FieldDefinitionPosition::Object(position())];
    let (merger, context) =
        validate(vec![subgraph("a", Some(field(vec![override_from("b")]))), source]);
    assert_eq!(
        hints(&merger),
        vec!["[OVERRIDE_DIRECTIVE_CAN_BE_REMOVED] Field \"<Type>.f\" on subgraph \"a\" is not resolved anymore by the from subgraph (it is marked \"@external\" in \"b\"). The @override directive can be removed."]
    );
    assert!(!context.some());
}

#[test]
fn progressive_override_sets_the_label_on_both_sides() {
    let (merger, context) = validate(vec![
        subgraph("a", Some(field(vec![override_with_label("b", "percent(5)")]))),
        subgraph("b", Some(field(vec![]))),
    ]);
    assert!(!merger.has_errors());
    assert_eq!(
        hints(&merger),
        vec!["[OVERRIDE_MIGRATION_IN_PROGRESS] Field \"<Type>.f\" is currently being migrated with progressive @override. Once the migration is complete, remove the field from subgraph \"b\"."]
    );
    assert_eq!(context.override_label(0), Some(&"percent(5)".to_string()));
    assert_eq!(context.override_label(1), Some(&"percent(5)".to_string()));
    assert!(context.is_unused_overridden(1));

    let mut source = subgraph("b", Some(field(vec![])));
    source.used_fields = vec![FieldDefinitionPosition::Object(position())];
    let (merger, _) = validate(vec![
        subgraph("a", Some(field(vec![override_with_label("b", "slow")]))),
        source,
    ]);
    assert_eq!(
        hints(&merger),
        vec!["[OVERRIDE_MIGRATION_IN_PROGRESS] Field \"<Type>.f\" on subgraph \"b\" is currently being migrated via progressive @override. It is still used in some federation directive(s) (@key, @requires, and/or @provides) and/or to satisfy interface constraint(s). Once the migration is complete, consider marking it @external explicitly or removing it along with its references."]
    );
}

#[test]
fn invalid_label_is_reported_and_not_set() {
    let (merger, context) = validate(vec![
        subgraph("a", Some(field(vec![override_with_label("b", "percent(101)")]))),
        subgraph("b", Some(field(vec![]))),
    ]);
    assert_eq!(
        errors(&merger),
        vec!["OVERRIDE_LABEL_INVALID: Invalid @override label \"percent(101)\" on field \"<Type>.f\" on subgraph \"a\": labels must start with a letter and after that may contain alphanumerics, underscores, minuses, colons, periods, or slashes. Alternatively, labels may be of the form \"percent(x)\" where x is a float between 0-100 inclusive."]
    );
    assert_eq!(merger.error_reporter().hints.len(), 1);
    assert_eq!(context.override_label(0), None);
    assert_eq!(context.override_label(1), None);
    assert!(context.is_unused_overridden(1));
}

#[test]
fn override_without_a_source_name_is_ignored() {
    let (merger, context) = validate(vec![
        subgraph("a", Some(field(vec![directive("override", vec![])]))),
        subgraph("b", Some(field(vec![directive(
            "override",
            vec![("from", Value::Literal("null".to_string()))],
        )]))),
    ]);
    assert!(!merger.has_errors() && !merger.has_hints());
    assert!(!context.some());
}

#[test]
fn two_subgraphs_override_the_same_one() {
    let (merger, context) = validate(vec![
        subgraph("a", Some(field(vec![override_from("c")]))),
        subgraph("b", Some(field(vec![override_with_label("c", "half")]))),
        subgraph("c", Some(field(vec![]))),
    ]);
    assert!(!merger.has_errors());
    assert_eq!(merger.error_reporter().hints.len(), 2);
    assert_eq!(merger.error_reporter().hints[0].nodes[0].subgraph, "a");
    assert_eq!(merger.error_reporter().hints[1].nodes[0].subgraph, "b");
    assert!(context.is_unused_overridden(2));
    assert!(!context.is_used_overridden(2));
    assert_eq!(context.override_label(2), Some(&"half".to_string()));
    assert_eq!(context.override_label(0), None);
}

#[test]
fn sources_beyond_the_subgraphs_do_not_matter_without_override() {
    let (mut merger, _) = set_up(vec![subgraph("a", Some(field(vec![])))]);
    let mut sources: Sources<Node<FieldDefinition>> = IndexedMap::new();
    sources.insert(7, Some(Node::new(field(vec![override_from("b")]))));
    sources.insert(9, None);
    let context = merger
        .validate_override(&sources, &Node::new(field(vec![])))
        .expect("a context");
    assert!(!context.some());
    assert!(!merger.has_errors() && !merger.has_hints());
}

/// A subgraph like the given one, with the field in the type `Other` too.
fn with_other_type(mut subgraph: Subgraph, field: FieldDefinition) -> Subgraph {
    subgraph.schema.types.push(TypeDefinition {
        name: "Other".to_string(),
        definition: ExtendedType::Object(FieldsType {
            implements_interfaces: vec![],
            fields: vec![field],
        }),
    });
    subgraph
}

#[test]
fn fields_of_the_subgraphs_are_listed_once() {
    let other = |name: &str| FieldDefinition {
        name: name.to_string(),
        ty: Type::Named("Int".to_string()),
        directives: vec![],
    };
    let first = subgraph("a", Some(field(vec![override_from("b")])));
    let second = with_other_type(subgraph("b", Some(field(vec![]))), other("f"));
    let third = with_other_type(subgraph("c", Some(other("g"))), other("f"));
    let list = list_declared_fields(&vec![first, second, third]);
    let names: Vec<(&str, &str)> =
        list.iter().map(|f| (f.typename.as_str(), f.field.name.as_str())).collect();
    assert_eq!(names, vec![("T", "f"), ("Other", "f"), ("T", "g")]);
    // The first definition stands.
    assert_eq!(list[0].field.directives.len(), 1);
    assert!(list_declared_fields(&vec![]).is_empty());
}

#[test]
fn overrides_of_all_fields_are_validated() {
    let (mut merger, _) = set_up(vec![
        subgraph("a", None),
        with_other_type(
            subgraph("b", Some(field(vec![override_from("c")]))),
            field(vec![override_from("b")]),
        ),
        with_other_type(subgraph("c", Some(field(vec![]))), field(vec![])),
    ]);
    merger.validate_overrides();
    assert_eq!(
        hints(&merger),
        vec!["[OVERRIDDEN_FIELD_CAN_BE_REMOVED] Field \"<Type>.f\" on subgraph \"c\" is overridden. Consider removing it."]
    );
    assert_eq!(
        errors(&merger),
        vec!["OVERRIDE_FROM_SELF_ERROR: Source and destination subgraphs \"b\" are the same for overridden field \"<Type>.f\""]
    );
}

#[test]
fn merge_reports_overrides_after_types() {
    let invalid = || subgraph("a", Some(field(vec![override_from("a")])));
    let (merger, _) = set_up(vec![invalid()]);
    let result = merger.merge();
    assert!(result.supergraph.is_none());
    assert_eq!(result.errors.len(), 1);
    assert!(result.errors[0].to_string().starts_with("OVERRIDE_FROM_SELF_ERROR"));

    let mut mismatched = subgraph("b", None);
    mismatched.schema.types.pop();
    mismatched
        .schema
        .types
        .push(TypeDefinition { name: "T".to_string(), definition: ExtendedType::Enum });
    let (merger, _) = set_up(vec![invalid(), mismatched]);
    let codes: Vec<String> = merger.merge().errors.iter().map(|e| e.to_string()).collect();
    assert_eq!(codes.len(), 2);
    assert!(codes[0].starts_with("TYPE_KIND_MISMATCH"));
    assert!(codes[1].starts_with("OVERRIDE_FROM_SELF_ERROR"));

    let (merger, _) = set_up(vec![
        subgraph("a", Some(field(vec![override_from("b")]))),
        subgraph("b", Some(field(vec![]))),
    ]);
    let result = merger.merge();
    assert!(result.supergraph.is_some());
    assert!(result.errors.is_empty());
    assert_eq!(result.hints.len(), 1);
}

#[test]
fn labels_come_from_the_sources() {
    let (_, context) = validate(vec![
        subgraph("a", Some(field(vec![override_with_label("c", "first")]))),
        subgraph("b", Some(field(vec![override_with_label("c", "not valid")]))),
        subgraph("c", Some(field(vec![]))),
    ]);
    assert_eq!(context.override_label(0), Some(&"first".to_string()));
    assert_eq!(context.override_label(1), None);
    assert_eq!(context.override_label(2), Some(&"first".to_string()));
}
