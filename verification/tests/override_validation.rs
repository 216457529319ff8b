//! `@override` from schema documents: each test writes the schemas of the subgraphs, merges them
//! and looks for the code that is expected.

use apollo_compiler::ast::{Definition, Document};
use federation_merger::ast::{Argument, Directive, FieldDefinition, Node, SourceSpan, Type, Value};
use federation_merger::composition::{KnownSpecs, Preparation, SpecElements};
use federation_merger::merger::{
    CompositionOptions, JoinSpecDefinition, LinkSpecDefinition, MergeResult, Merger,
};
use federation_merger::report::FederationError;
use federation_merger::schema::{
    AppliedDirective, DirectiveTargetPosition, ExtendedType, FederationSchema,
    FieldDefinitionPosition, FieldPosition, FieldsType, TypeDefinition,
};
use federation_merger::subgraph::Subgraph;
use federation_merger::version::Version;

fn convert_type(ty: &apollo_compiler::ast::Type) -> Type {
    match ty {
        apollo_compiler::ast::Type::Named(name) => Type::Named(name.to_string()),
        apollo_compiler::ast::Type::NonNullNamed(name) => Type::NonNullNamed(name.to_string()),
        apollo_compiler::ast::Type::List(item) => Type::List(Box::new(convert_type(item))),
        apollo_compiler::ast::Type::NonNullList(item) => {
            Type::NonNullList(Box::new(convert_type(item)))
        }
    }
}

fn convert_directive(directive: &apollo_compiler::ast::Directive) -> Directive {
    Directive {
        name: directive.name.to_string(),
        arguments: directive
            .arguments
            .iter()
            .map(|argument| Argument {
                name: argument.name.to_string(),
                value: match argument.value.as_ref() {
                    apollo_compiler::ast::Value::String(text) => Value::String(text.clone()),
                    other => Value::Literal(other.to_string()),
                },
            })
            .collect(),
    }
}

fn convert_field(field: &apollo_compiler::ast::FieldDefinition) -> FieldDefinition {
    FieldDefinition {
        name: field.name.to_string(),
        ty: convert_type(&field.ty),
        directives: field
            .directives
            .iter()
            .map(|directive| Node {
                node: convert_directive(directive),
                location: directive.location().map(|span| SourceSpan {
                    file: 0,
                    start: span.offset(),
                    end: span.end_offset(),
                }),
            })
            .collect(),
    }
}

/// A subgraph with the object and interface types of a document.
fn parse_subgraph(name: &str, text: &str) -> Subgraph {
    let document = Document::parse(text, "schema.graphql").expect("a document");
    let mut schema = FederationSchema::new();
    let mut external_fields = vec![];
    for definition in &document.definitions {
        let (typename, in_object, fields) = match definition {
            Definition::ObjectTypeDefinition(ty) => (&ty.name, true, &ty.fields),
            Definition::InterfaceTypeDefinition(ty) => (&ty.name, false, &ty.fields),
            _ => continue,
        };
        let fields: Vec<FieldDefinition> = fields.iter().map(|f| convert_field(f)).collect();
        for field in &fields {
            let position = || FieldPosition {
                typename: typename.to_string(),
                field_name: field.name.clone(),
            };
            for directive in &field.directives {
                let target = if in_object {
                    DirectiveTargetPosition::ObjectField(position())
                } else {
                    DirectiveTargetPosition::InterfaceField(position())
                };
                schema
                    .applied_directives
                    .push(AppliedDirective { target, directive: directive.node.clone() });
                if directive.node.name == "external" {
                    external_fields.push(FieldDefinitionPosition::Object(position()));
                }
            }
        }
        let ty = FieldsType { implements_interfaces: vec![], fields };
        let definition =
            if in_object { ExtendedType::Object(ty) } else { ExtendedType::Interface(ty) };
        schema.types.push(TypeDefinition { name: typename.to_string(), definition });
    }
    Subgraph {
        name: name.to_string(),
        schema,
        is_fed_2_schema: true,
        federation_version: Version { major: 2, minor: 7 },
        feature_versions: vec![],
        interface_object_types: vec![],
        used_fields: vec![],
        external_fields,
        type_links: vec![],
        override_directive_name: Some("override".to_string()),
        from_context_directive_name: None,
        imports: vec![],
    }
}

/// Merges the subgraphs; the error holds what the merge reports.
fn compose_subgraphs(subgraphs: &[(&str, &str)]) -> Result<MergeResult, FederationError> {
    let version = Version { major: 2, minor: 7 };
    let specs = KnownSpecs {
        latest_federation_version: version,
        join_specs: vec![(version, JoinSpecDefinition { version: Version { major: 0, minor: 4 } })],
        link_specs: vec![(version, LinkSpecDefinition { version: Version { major: 1, minor: 0 } })],
    };
    let preparation = Preparation {
        link_spec: Ok(SpecElements::default()),
        join_spec: Ok(SpecElements::default()),
        core_directives: Ok(vec![]),
        directive_specs: Ok(SpecElements::default()),
        graph_names: Ok(vec![]),
    };
    let parsed = subgraphs.iter().map(|(name, text)| parse_subgraph(name, text)).collect();
    let merger = Merger::new(parsed, CompositionOptions::default(), &specs, preparation)?;
    let result = merger.merge();
    if result.supergraph.is_none() {
        let errors: Vec<String> = result.errors.iter().map(|e| e.to_string()).collect();
        return Err(FederationError::internal(errors.join("\n")));
    }
    Ok(result)
}

#[test]
fn test_override_on_interface_error() {
    let subgraph_a = r#"
        extend schema @link(url: "https://specs.apollographql.org/federation/v2.0", import: ["@override"])
        
        interface Product {
            id: ID! @override(from: "subgraph_b")
        }
    "#;

    let subgraph_b = r#"
        extend schema @link(url: "https://specs.apollographql.org/federation/v2.0", import: ["@key"])
        
        interface Product {
            id: ID!
        }
    "#;

    let result = compose_subgraphs(&[("subgraph_a", subgraph_a), ("subgraph_b", subgraph_b)]);

    assert!(result.is_err());
    let errors = result.unwrap_err();
    assert!(errors.message.contains("OVERRIDE_ON_INTERFACE"));
}

#[test]
fn test_override_from_self_error() {
    let subgraph_a = r#"
        extend schema @link(url: "https://specs.apollographql.org/federation/v2.0", import: ["@key", "@override"])
        
        type Product @key(fields: "id") {
            id: ID!
            name: String @override(from: "subgraph_a")
        }
    "#;

    let result = compose_subgraphs(&[("subgraph_a", subgraph_a)]);

    assert!(result.is_err());
    let errors = result.unwrap_err();
    assert!(errors.message.contains("OVERRIDE_FROM_SELF_ERROR"));
}

#[test]
fn test_override_label_invalid_error() {
    let subgraph_a = r#"
        extend schema @link(url: "https://specs.apollographql.org/federation/v2.7", import: ["@key", "@override"])
        
        type Product @key(fields: "id") {
            id: ID!
            name: String @override(from: "subgraph_b", label: "123invalid")
        }
    "#;

    let subgraph_b = r#"
        extend schema @link(url: "https://specs.apollographql.org/federation/v2.7", import: ["@key"])
        
        type Product @key(fields: "id") {
            id: ID!
            name: String
        }
    "#;

    let result = compose_subgraphs(&[("subgraph_a", subgraph_a), ("subgraph_b", subgraph_b)]);

    assert!(result.is_err());
    let errors = result.unwrap_err();
    assert!(errors.message.contains("OVERRIDE_LABEL_INVALID"));
}

#[test]
fn test_override_collision_with_external() {
    let subgraph_a = r#"
        extend schema @link(url: "https://specs.apollographql.org/federation/v2.0", import: ["@key", "@override", "@external"])
        
        type Product @key(fields: "id") {
            id: ID!
            name: String @external @override(from: "subgraph_b")
        }
    "#;

    let subgraph_b = r#"
        extend schema @link(url: "https://specs.apollographql.org/federation/v2.0", import: ["@key"])
        
        type Product @key(fields: "id") {
            id: ID!
            name: String
        }
    "#;

    let result = compose_subgraphs(&[("subgraph_a", subgraph_a), ("subgraph_b", subgraph_b)]);

    assert!(result.is_err());
    let errors = result.unwrap_err();
    assert!(errors.message.contains("OVERRIDE_COLLISION_WITH_ANOTHER_DIRECTIVE"));
}

#[test]
fn test_from_subgraph_does_not_exist_hint() {
    let subgraph_a = r#"
        extend schema @link(url: "https://specs.apollographql.org/federation/v2.0", import: ["@key", "@override"])
        
        type Product @key(fields: "id") {
            id: ID!
            name: String @override(from: "nonexistent_subgraph")
        }
    "#;

    let result = compose_subgraphs(&[("subgraph_a", subgraph_a)]);

    assert!(result.is_ok());
    if let Ok(merge_result) = result {
        assert!(!merge_result.hints.is_empty());
        let hint_messages: Vec<String> =
            merge_result.hints.iter().map(|h| h.message.clone()).collect();
        assert!(hint_messages.iter().any(|msg| msg.contains("FROM_SUBGRAPH_DOES_NOT_EXIST")));
        assert_eq!(merge_result.hints[0].nodes.len(), 1);
        assert_eq!(merge_result.hints[0].nodes[0].subgraph, "subgraph_a");
    }
}

#[test]
fn test_valid_override_labels() {
    let valid_labels = vec![
        "myLabel",
        "my_label",
        "my-label",
        "my:label",
        "my.label",
        "my/label",
        "percent(50)",
        "percent(100)",
        "percent(0)",
        "percent(99.99999999)",
    ];

    for label in valid_labels {
        let subgraph_a = format!(
            r#"
            extend schema @link(url: "https://specs.apollographql.org/federation/v2.7", import: ["@key", "@override"])
            
            type Product @key(fields: "id") {{
                id: ID!
                name: String @override(from: "subgraph_b", label: "{}")
            }}
        "#,
            label
        );

        let subgraph_b = r#"
            extend schema @link(url: "https://specs.apollographql.org/federation/v2.7", import: ["@key"])
            
            type Product @key(fields: "id") {
                id: ID!
                name: String
            }
        "#;

        let result = compose_subgraphs(&[("subgraph_a", &subgraph_a), ("subgraph_b", subgraph_b)]);

        if let Err(errors) = &result {
            assert!(
                !errors.message.contains("OVERRIDE_LABEL_INVALID"),
                "Label '{}' should be valid but got error: {}",
                label,
                errors.message
            );
        }
        assert!(result.is_ok());
    }
}
