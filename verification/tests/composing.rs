//! Set-up of a merge, the shallow passes and the reports about them.

use federation_merger::ast::{
    Directive, DirectiveDefinition, DirectiveLocation, FieldDefinition, InputValueDefinition, Node,
    Type,
};
use federation_merger::composition::{merge_subgraphs, KnownSpecs, Preparation, SpecElements};
use federation_merger::index_map::{IndexedMap, Sources};
use federation_merger::merger::{
    make_field_lookup_key, ComposedDirective, CompositionOptions, JoinSpecDefinition,
    LinkSpecDefinition, MergedDirectiveInfo, Merger,
};
use federation_merger::report::{
    CompositionError, ErrorKind, ErrorReporter, FederationError, HintCode,
};
use federation_merger::schema::{
    AppliedDirective, DirectiveTargetPosition, ExtendedType, FederationSchema,
    FieldDefinitionPosition, FieldPosition, FieldsType, TypeDefinition, TypeKind,
};
use federation_merger::shallow::is_merged_type;
use federation_merger::subgraph::{Identity, Subgraph, TypeLink};
use federation_merger::version::{
    get_latest_federation_version_used, get_latest_federation_version_used_in_subgraph, Version,
};

fn version(minor: u32) -> Version {
    Version { major: 2, minor }
}

fn known_specs() -> KnownSpecs {
    KnownSpecs {
        latest_federation_version: version(11),
        join_specs: vec![
            (version(0), JoinSpecDefinition { version: Version { major: 0, minor: 2 } }),
            (version(11), JoinSpecDefinition { version: Version { major: 0, minor: 5 } }),
            (version(3), JoinSpecDefinition { version: Version { major: 0, minor: 3 } }),
        ],
        link_specs: vec![
            (version(0), LinkSpecDefinition { version: Version { major: 1, minor: 0 } }),
            (version(11), LinkSpecDefinition { version: Version { major: 1, minor: 1 } }),
        ],
    }
}

fn preparation() -> Preparation {
    Preparation {
        link_spec: Ok(SpecElements::default()),
        join_spec: Ok(SpecElements::default()),
        core_directives: Ok(vec![]),
        directive_specs: Ok(SpecElements::default()),
        graph_names: Ok(vec![]),
    }
}

fn subgraph(name: &str, types: Vec<(&str, ExtendedType)>) -> Subgraph {
    let mut schema = FederationSchema::new();
    for (name, definition) in types {
        schema.types.push(TypeDefinition { name: name.to_string(), definition });
    }
    Subgraph {
        name: name.to_string(),
        schema,
        is_fed_2_schema: true,
        federation_version: version(0),
        feature_versions: vec![],
        interface_object_types: vec![],
        used_fields: vec![],
        external_fields: vec![],
        type_links: vec![],
        override_directive_name: None,
        from_context_directive_name: None,
        imports: vec![],
    }
}

fn object(fields: Vec<(&str, &str)>) -> ExtendedType {
    ExtendedType::Object(FieldsType {
        implements_interfaces: vec![],
        fields: fields
            .into_iter()
            .map(|(name, ty)| FieldDefinition {
                name: name.to_string(),
                ty: Type::Named(ty.to_string()),
                directives: vec![],
            })
            .collect(),
    })
}

fn interface(fields: Vec<(&str, &str)>) -> ExtendedType {
    match object(fields) {
        ExtendedType::Object(ty) => ExtendedType::Interface(ty),
        other => other,
    }
}

fn merger(subgraphs: Vec<Subgraph>) -> Merger {
    Merger::new(subgraphs, CompositionOptions::default(), &known_specs(), preparation())
        .expect("Failed to create test merger")
}

fn failure(message: &str) -> FederationError {
    FederationError::internal(message.to_string())
}

#[test]
fn set_up_collects_what_the_subgraphs_say() {
    let mut first = subgraph("a", vec![("T", object(vec![("f", "Int")]))]);
    first.override_directive_name = Some("override".to_string());
    first.schema.applied_directives.push(AppliedDirective {
        target: DirectiveTargetPosition::ObjectField(FieldPosition {
            typename: "T".to_string(),
            field_name: "f".to_string(),
        }),
        directive: Directive::new("override".to_string()),
    });
    first.imports = vec![
        ("@key".to_string(), "one".to_string()),
        ("@key".to_string(), "two".to_string()),
    ];
    let second = subgraph("b", vec![("I", interface(vec![("f", "Int")]))]);
    let merger = merger(vec![first, second]);

    assert_eq!(merger.subgraph_names(), &vec!["a".to_string(), "b".to_string()]);
    assert_eq!(merger.latest_federation_version_used, version(0));
    assert_eq!(merger.join_spec_definition.version, Version { major: 0, minor: 2 });
    assert_eq!(merger.link_spec_definition.version, Version { major: 1, minor: 0 });
    assert_eq!(merger.fields_with_override.len(), 1);
    assert!(merger.fields_with_from_context.is_empty());
    let imports = merger.schema_to_import_to_feature_url.get("a").unwrap();
    assert_eq!(imports.get("@key"), Some(&"two".to_string()));
    assert_eq!(merger.schema_to_import_to_feature_url.get("b").unwrap().len(), 0);
    assert_eq!(merger.join_directive_identities.len(), 1);
    assert!(!merger.has_errors() && !merger.has_hints());
    assert_eq!(merger.schema().types.len(), 13);

    // Of fields with the same name and type, the last one is found.
    let field = FieldDefinition {
        name: "f".to_string(),
        ty: Type::Named("Int".to_string()),
        directives: vec![],
    };
    assert_eq!(make_field_lookup_key("f", &field.ty), "f:Int");
    match merger.get_field_position(&field) {
        Some(FieldDefinitionPosition::Interface(position)) => assert_eq!(position.typename, "I"),
        other => panic!("unexpected position {:?}", other),
    }
    let unknown = FieldDefinition { ty: Type::NonNullNamed("Int".to_string()), ..field };
    assert!(merger.get_field_position(&unknown).is_none());
}

#[test]
fn set_up_without_subgraphs_uses_the_latest_version() {
    let merger = merger(vec![]);
    assert_eq!(merger.latest_federation_version_used, version(11));
    assert_eq!(merger.join_spec_definition.version, Version { major: 0, minor: 5 });
}

#[test]
fn set_up_fails_without_specifications() {
    let set_up = |minor: u32| {
        let mut subgraph = subgraph("a", vec![]);
        subgraph.federation_version = version(minor);
        Merger::new(vec![subgraph], CompositionOptions::default(), &known_specs(), preparation())
            .err()
            .map(|e| e.message)
    };
    assert_eq!(set_up(0), None);
    assert_eq!(
        set_up(1).unwrap(),
        "No join spec version found for federation version 2.1"
    );
    assert_eq!(
        set_up(3).unwrap(),
        "No link spec version found for federation version 2.3"
    );
}

#[test]
fn set_up_fails_with_the_first_step_that_fails() {
    let set_up = |preparation: Preparation| {
        Merger::new(vec![], CompositionOptions::default(), &known_specs(), preparation)
            .err()
            .map(|e| e.message)
    };
    let all_fail = || Preparation {
        link_spec: Err(failure("link")),
        join_spec: Err(failure("join")),
        core_directives: Err(failure("directives")),
        directive_specs: Err(failure("specs")),
        graph_names: Err(failure("names")),
    };
    assert_eq!(set_up(all_fail()).unwrap(), "link");
    let with_link = || Preparation { link_spec: Ok(SpecElements::default()), ..all_fail() };
    assert_eq!(set_up(with_link()).unwrap(), "join");
    let with_join = Preparation { join_spec: Ok(SpecElements::default()), ..with_link() };
    assert_eq!(set_up(with_join).unwrap(), "directives");
    assert_eq!(
        set_up(Preparation { directive_specs: Err(failure("specs")), ..preparation() }).unwrap(),
        "specs"
    );
    assert_eq!(
        set_up(Preparation { graph_names: Err(failure("names")), ..preparation() }).unwrap(),
        "names"
    );
}

#[test]
fn set_up_adds_the_prepared_elements_and_names() {
    let elements = |ty: &str, directive: &str| SpecElements {
        types: vec![TypeDefinition { name: ty.to_string(), definition: ExtendedType::Scalar }],
        directive_definitions: vec![DirectiveDefinition {
            name: directive.to_string(),
            repeatable: true,
            arguments: vec![],
            locations: vec![],
        }],
    };
    let info = MergedDirectiveInfo {
        definition: DirectiveDefinition {
            name: "tag".to_string(),
            repeatable: true,
            arguments: vec![],
            locations: vec![],
        },
        arguments_merger: None,
        static_argument_transform: Some(0),
    };
    let prepared = Preparation {
        link_spec: Ok(elements("link__Import", "link")),
        join_spec: Ok(elements("join__FieldSet", "join__field")),
        core_directives: Ok(vec![info]),
        directive_specs: Ok(elements("tag__Type", "tag")),
        graph_names: Ok(vec![("a".to_string(), "A".to_string())]),
    };
    let merger = Merger::new(
        vec![subgraph("a", vec![]), subgraph("b", vec![])],
        CompositionOptions::default(),
        &known_specs(),
        prepared,
    )
    .expect("Failed to create test merger");
    let names: Vec<&str> =
        merger.schema().types.iter().skip(13).map(|t| t.name.as_str()).collect();
    assert_eq!(names, vec!["link__Import", "join__FieldSet", "tag__Type"]);
    let definitions: Vec<&str> =
        merger.schema().directive_definitions.iter().map(|d| d.name.as_str()).collect();
    assert_eq!(definitions, vec!["link", "join__field", "tag"]);
    assert_eq!(merger.join_spec_name(0).ok(), Some(&"A".to_string()));
    assert_eq!(
        merger.join_spec_name(1).unwrap_err().message,
        "Could not find join spec name for subgraph 'b'"
    );
    assert!(merger.is_merged_directive("a", &Directive::new("tag".to_string())));
    assert!(!merger.is_merged_directive("a", &Directive::new("key".to_string())));
}

#[test]
fn feature_that_needs_a_later_version_upgrades_the_subgraph() {
    let mut reporter = ErrorReporter::new();
    let mut subgraph = subgraph("a", vec![]);
    subgraph.feature_versions = vec![version(1), version(7), version(3)];
    assert_eq!(
        get_latest_federation_version_used_in_subgraph(&subgraph, &mut reporter),
        version(7)
    );
    assert_eq!(reporter.hints.len(), 1);
    assert_eq!(reporter.hints[0].code, "IMPLICITLY_UPGRADED_FEDERATION_VERSION");
    assert_eq!(
        reporter.hints[0].message,
        "[IMPLICITLY_UPGRADED_FEDERATION_VERSION] Subgraph a has been implicitly upgraded from federation 2.0 to 2.7"
    );

    // A feature for another major version does not upgrade.
    let mut reporter = ErrorReporter::new();
    subgraph.feature_versions = vec![version(7), Version { major: 3, minor: 0 }];
    assert_eq!(
        get_latest_federation_version_used_in_subgraph(&subgraph, &mut reporter),
        version(0)
    );
    assert!(!reporter.has_hints());
}

#[test]
fn latest_version_is_that_of_all_subgraphs() {
    let mut reporter = ErrorReporter::new();
    let mut first = subgraph("a", vec![]);
    first.federation_version = version(9);
    let mut second = subgraph("b", vec![]);
    second.feature_versions = vec![version(10)];
    let third = subgraph("c", vec![]);
    assert_eq!(
        get_latest_federation_version_used(&vec![first, second, third], version(2), &mut reporter),
        version(10)
    );
    assert_eq!(reporter.hints.len(), 1);
    assert_eq!(
        get_latest_federation_version_used(&vec![], version(2), &mut reporter),
        version(2)
    );
}

#[test]
fn types_that_are_not_merged() {
    let mut subgraph = subgraph("a", vec![]);
    let link = |typename: &str, name: &str| TypeLink {
        typename: typename.to_string(),
        identity: Identity {
            domain: "https://specs.apollographql.org".to_string(),
            name: name.to_string(),
        },
    };
    subgraph.type_links = vec![link("FieldSet", "federation"), link("Policy", "policy")];
    for name in ["__Schema", "__x", "_Any", "_Entity", "_Service", "FieldSet"] {
        assert!(!is_merged_type(&subgraph, name), "{}", name);
    }
    for name in ["Product", "_Other", "_", "Policy", "String"] {
        assert!(is_merged_type(&subgraph, name), "{}", name);
    }
}

#[test]
fn merge_adds_types_and_definitions_shallowly() {
    let definition = |name: &str, locations: Vec<DirectiveLocation>| DirectiveDefinition {
        name: name.to_string(),
        repeatable: false,
        arguments: vec![],
        locations,
    };
    let mut first = subgraph(
        "a",
        vec![("T", object(vec![("f", "Int")])), ("E", ExtendedType::Enum), ("_Any", ExtendedType::Scalar)],
    );
    first.schema.directive_definitions = vec![
        definition("cached", vec![DirectiveLocation::Object, DirectiveLocation::Field]),
        definition("internal", vec![DirectiveLocation::Object]),
        definition("defer", vec![DirectiveLocation::Field]),
        definition("skip", vec![DirectiveLocation::Field]),
    ];
    let mut second =
        subgraph("b", vec![("T", object(vec![])), ("U", ExtendedType::Union(vec!["T".to_string()]))]);
    second.schema.directive_definitions =
        vec![definition("cached", vec![DirectiveLocation::Query]), definition("internal", vec![])];
    let mut merger = merger(vec![first, second]);
    merger.compose_directive_manager = vec![ComposedDirective {
        subgraph_name: "b".to_string(),
        directive_name: "internal".to_string(),
    }];
    let result = merger.merge();
    assert!(result.errors.is_empty());
    let supergraph = result.supergraph.expect("a supergraph");
    let types: Vec<(&str, TypeKind)> = supergraph
        .types
        .iter()
        .skip(13)
        .map(|t| (t.name.as_str(), t.definition.kind()))
        .collect();
    assert_eq!(
        types,
        vec![("T", TypeKind::Object), ("E", TypeKind::Enum), ("U", TypeKind::Union)]
    );
    match &supergraph.types[13].definition {
        ExtendedType::Object(ty) => assert!(ty.fields.is_empty()),
        other => panic!("unexpected definition {:?}", other),
    }
    let definitions: Vec<(&str, usize)> = supergraph
        .directive_definitions
        .iter()
        .map(|d| (d.name.as_str(), d.locations.len()))
        .collect();
    assert_eq!(definitions, vec![("cached", 2), ("internal", 0)]);
}

#[test]
fn mismatched_kinds_are_reported() {
    let result = merge_subgraphs(
        vec![
            subgraph("a", vec![("T", object(vec![]))]),
            subgraph("b", vec![("T", ExtendedType::Enum)]),
            subgraph("c", vec![]),
            subgraph("d", vec![("T", ExtendedType::InputObject)]),
        ],
        CompositionOptions::default(),
        &known_specs(),
        preparation(),
    )
    .expect("a merge");
    assert!(result.supergraph.is_none());
    assert_eq!(result.errors.len(), 2);
    let error = &result.errors[0];
    assert_eq!(error.kind, ErrorKind::TypeKindMismatch);
    assert_eq!(
        error.to_string(),
        "TYPE_KIND_MISMATCH: Type \"T\" has mismatched kind: it is defined as "
    );
    let mismatch = error.mismatch.as_ref().unwrap();
    assert_eq!(mismatch.element, "Enum Type");
    assert_eq!(
        mismatch.sources,
        vec![
            (0, Some("Object Type".to_string())),
            (1, Some("Enum Type".to_string())),
            (2, None),
            (3, Some("InputObject Type".to_string())),
        ]
    );
}

#[test]
fn interface_object_needs_an_interface() {
    let with_interface_object = |name: &str| {
        let mut subgraph = subgraph(name, vec![("T", object(vec![]))]);
        subgraph.interface_object_types = vec!["T".to_string()];
        subgraph
    };
    let result = merger(vec![with_interface_object("a"), with_interface_object("b")]).merge();
    assert_eq!(result.errors.len(), 1);
    assert_eq!(
        result.errors[0].to_string(),
        "INTERFACE_OBJECT_USAGE_ERROR: Type \"T\" is declared with @interfaceObject in all the subgraphs in which it is defined (it is defined in subgraphs \"a\" and \"b\" but should be defined as an interface in at least one subgraph)"
    );

    let result = merger(vec![
        with_interface_object("a"),
        subgraph("b", vec![("T", interface(vec![]))]),
    ])
    .merge();
    assert!(result.errors.is_empty());
    assert_eq!(result.supergraph.unwrap().types[13].definition.kind(), TypeKind::Interface);

    // A plain object is a mismatch, in words that tell the two apart.
    let result =
        merger(vec![subgraph("a", vec![("T", object(vec![]))]), with_interface_object("b")]).merge();
    assert_eq!(result.errors.len(), 1);
    let mismatch = result.errors[0].mismatch.as_ref().unwrap();
    assert_eq!(
        mismatch.element,
        "Interface Object Type (Object Type with @interfaceObject)"
    );
}

#[test]
fn built_in_and_composed_directives_are_merged() {
    let mut merger = merger(vec![]);
    for name in ["skip", "include", "deprecated", "specifiedBy", "defer", "stream"] {
        assert!(merger.is_merged_directive("a", &Directive::new(name.to_string())));
    }
    assert!(!merger.is_merged_directive("a", &Directive::new("custom".to_string())));
    merger.compose_directive_manager = vec![ComposedDirective {
        subgraph_name: "a".to_string(),
        directive_name: "custom".to_string(),
    }];
    assert!(merger.is_merged_directive("a", &Directive::new("custom".to_string())));
    assert!(!merger.is_merged_directive("b", &Directive::new("custom".to_string())));
}

fn yes_or_no(source: &Option<u32>) -> &str {
    if source.is_some() {
        "yes"
    } else {
        "no"
    }
}

fn presence_sources() -> Sources<u32> {
    let mut sources: Sources<u32> = IndexedMap::new();
    sources.insert(0, Some(1));
    sources.insert(1, None);
    sources.insert(7, Some(2));
    sources
}

#[test]
fn error_says_which_subgraphs_have_the_element() {
    let mut merger = merger(vec![subgraph("a", vec![]), subgraph("b", vec![])]);
    merger.report_mismatch_error_with_specifics(
        CompositionError::new(ErrorKind::EnumValueMismatch, "Value is ".to_string()),
        &presence_sources(),
        yes_or_no,
    );
    merger.report_mismatch_error_with_specifics(
        CompositionError::new(ErrorKind::EnumValueMismatch, "Value is ".to_string()),
        &presence_sources(),
        |_: &Option<u32>| "yes",
    );
    merger.report_mismatch_error_with_specifics(
        CompositionError::new(ErrorKind::EnumValueMismatch, "Value is ".to_string()),
        &presence_sources(),
        |_: &Option<u32>| "no",
    );
    merger.report_mismatch_error_with_specifics(
        CompositionError::new(ErrorKind::TypeKindMismatch, "Type is ".to_string()),
        &presence_sources(),
        yes_or_no,
    );
    let messages: Vec<&str> =
        merger.error_reporter().errors.iter().map(|e| e.message.as_str()).collect();
    assert_eq!(
        messages,
        vec![
            "Value is defined in a, unknown but not in b",
            "Value is defined in a, b, unknown",
            "Value is but not in a, b, unknown",
            "Type is ",
        ]
    );
}

#[test]
fn hint_says_which_subgraphs_have_the_element() {
    let mut merger = merger(vec![subgraph("a", vec![]), subgraph("b", vec![])]);
    merger.report_mismatch_hint(
        HintCode::InconsistentButCompatibleFieldType,
        "Field is ".to_string(),
        &presence_sources(),
        |source: &Option<u32>| source.is_some(),
    );
    assert_eq!(
        merger.error_reporter().hints[0].message,
        "[INCONSISTENT_BUT_COMPATIBLE_FIELD_TYPE] Field is defined in a, unknown but not in b"
    );
    assert!(merger.has_hints());
}

#[test]
fn merging_an_argument_changes_nothing() {
    let mut merger = merger(vec![]);
    let dest = Node::new(InputValueDefinition {
        name: "arg".to_string(),
        ty: Type::Named("Int".to_string()),
        default_value: None,
        directives: vec![],
    });
    assert!(merger.merge_argument(&IndexedMap::new(), &dest).is_ok());
    assert!(!merger.has_errors());
    merger.error_reporter_mut().add_error(CompositionError::new(
        ErrorKind::InternalError,
        "broken".to_string(),
    ));
    assert!(merger.has_errors());
    assert_eq!(merger.enum_usages_mut().len(), 0);
}
