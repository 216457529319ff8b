//! The parts of `@override` validation, one by one.

use federation_merger::ast::{Argument, Directive, FieldDefinition, Node, Type, Value};
use federation_merger::composition::{KnownSpecs, Preparation, SpecElements};
use federation_merger::directives::{FederationDirective, OverrideHintCode};
use federation_merger::field_context::FieldMergeContext;
use federation_merger::human_readable::format_did_you_mean;
use federation_merger::index_map::{IndexedMap, Sources};
use federation_merger::labels::is_valid_override_label_complete;
use federation_merger::merger::{
    CompositionOptions, JoinSpecDefinition, LinkSpecDefinition, Merger,
};
use federation_merger::suggest::suggest_similar_subgraph_names_impl;
use federation_merger::report::FederationError;
use federation_merger::version::Version;

fn create_test_merger() -> Result<Merger, FederationError> {
    let version = Version { major: 2, minor: 11 };
    let specs = KnownSpecs {
        latest_federation_version: version,
        join_specs: vec![(version, JoinSpecDefinition { version: Version { major: 0, minor: 5 } })],
        link_specs: vec![(version, LinkSpecDefinition { version: Version { major: 1, minor: 0 } })],
    };
    let preparation = Preparation {
        link_spec: Ok(SpecElements::default()),
        join_spec: Ok(SpecElements::default()),
        core_directives: Ok(vec![]),
        directive_specs: Ok(SpecElements::default()),
        graph_names: Ok(vec![]),
    };
    Merger::new(vec![], CompositionOptions::default(), &specs, preparation)
}

fn directive(name: &str, arguments: Vec<(&str, &str)>) -> Node<Directive> {
    Node::new(Directive {
        name: name.to_string(),
        arguments: arguments
            .into_iter()
            .map(|(name, value)| Argument {
                name: name.to_string(),
                value: Value::String(value.to_string()),
            })
            .collect(),
    })
}

fn string_field(name: &str, directives: Vec<Node<Directive>>) -> Node<FieldDefinition> {
    Node::new(FieldDefinition {
        name: name.to_string(),
        ty: Type::Named("String".to_string()),
        directives,
    })
}

#[test]
fn test_override_hint_code_completeness() {
    assert_eq!(
        OverrideHintCode::FromSubgraphDoesNotExist.as_str(),
        "FROM_SUBGRAPH_DOES_NOT_EXIST"
    );
    assert_eq!(
        OverrideHintCode::OverrideDirectiveCanBeRemoved.as_str(),
        "OVERRIDE_DIRECTIVE_CAN_BE_REMOVED"
    );
    assert_eq!(
        OverrideHintCode::OverrideSourceHasNoField.as_str(),
        "OVERRIDE_SOURCE_HAS_NO_FIELD"
    );
    assert_eq!(
        OverrideHintCode::OverriddenFieldCanBeRemoved.as_str(),
        "OVERRIDDEN_FIELD_CAN_BE_REMOVED"
    );
}

#[test]
fn test_override_directive_detection() {
    let field = string_field(
        "testField",
        vec![directive(FederationDirective::Override.name(), vec![("from", "subgraphA")])],
    );
    let has_override = field
        .node
        .directives
        .iter()
        .any(|d| FederationDirective::Override.matches(&d.node.name));
    assert!(has_override);
}

#[test]
fn test_field_merge_context_override_behavior() {
    let mut context = FieldMergeContext::new();

    context.set_override_label(0, "test-label".to_string());
    let props = context.get_properties(0);
    assert!(props.is_some());
    assert_eq!(props.unwrap().override_label, Some("test-label".to_string()));

    context.set_used_overridden(1);
    assert!(context.is_used_overridden(1));
    assert!(!context.is_unused_overridden(1));

    context.set_unused_overridden(2);
    assert!(context.is_unused_overridden(2));
    assert!(!context.is_used_overridden(2));

    context.set_override_with_unknown_target(3);
    let props = context.get_properties(3);
    assert!(props.is_some());
    assert!(props.unwrap().override_with_unknown_target);
}

#[test]
fn test_override_directive_argument_extraction() {
    let field = string_field(
        "overrideField",
        vec![directive(
            FederationDirective::Override.name(),
            vec![("from", "sourceSubgraph"), ("label", "migration-v1")],
        )],
    );

    let from_arg = field.node.directives[0]
        .node
        .arguments
        .iter()
        .find(|arg| arg.name.as_str() == "from");
    assert!(from_arg.is_some());
    if let Value::String(from_value) = &from_arg.unwrap().value {
        assert_eq!(from_value, "sourceSubgraph");
    } else {
        panic!("Expected string value for 'from' argument");
    }

    let label_arg = field.node.directives[0]
        .node
        .arguments
        .iter()
        .find(|arg| arg.name.as_str() == "label");
    assert!(label_arg.is_some());
    if let Value::String(label_value) = &label_arg.unwrap().value {
        assert_eq!(label_value, "migration-v1");
    } else {
        panic!("Expected string value for 'label' argument");
    }
}

#[test]
fn test_conflicting_directive_scenarios() {
    let field = string_field(
        "conflictingField",
        vec![
            directive(FederationDirective::Override.name(), vec![("from", "subgraphA")]),
            directive(FederationDirective::External.name(), vec![]),
        ],
    );
    let has_override = field
        .node
        .directives
        .iter()
        .any(|d| FederationDirective::Override.matches(&d.node.name));
    let has_external = field
        .node
        .directives
        .iter()
        .any(|d| FederationDirective::External.matches(&d.node.name));

    assert!(has_override);
    assert!(has_external);
    assert_eq!(field.node.directives.len(), 2);
}

#[test]
fn test_override_label_percent_validation() {
    assert!(is_valid_override_label_complete("percent(0)"));
    assert!(is_valid_override_label_complete("percent(50)"));
    assert!(is_valid_override_label_complete("percent(99)"));
    assert!(is_valid_override_label_complete("percent(100)"));
    assert!(is_valid_override_label_complete("percent(0.5)"));
    assert!(is_valid_override_label_complete("percent(1.0)"));
    assert!(is_valid_override_label_complete("percent(99.9)"));
    assert!(is_valid_override_label_complete("percent(50.12345678)"));
    assert!(!is_valid_override_label_complete("percent(150.5)"));
    assert!(!is_valid_override_label_complete("percent(-0.1)"));
    assert!(!is_valid_override_label_complete("percent(100.1)"));
    assert!(!is_valid_override_label_complete("percent(100.0)"));

    assert!(!is_valid_override_label_complete("percent()"));
    assert!(!is_valid_override_label_complete("percent(abc)"));
    assert!(!is_valid_override_label_complete("percent(50.123456789)"));
    assert!(!is_valid_override_label_complete("percent(1000)"));

    assert!(is_valid_override_label_complete("validLabel"));
    assert!(is_valid_override_label_complete("label_with-chars:./"));
    assert!(is_valid_override_label_complete("a"));

    assert!(!is_valid_override_label_complete(""));
    assert!(!is_valid_override_label_complete("123invalid"));
    assert!(!is_valid_override_label_complete("invalid@char"));
}

#[test]
fn labels_with_line_ends_or_other_digits_are_not_valid() {
    assert!(!is_valid_override_label_complete("label\n"));
    assert!(!is_valid_override_label_complete("percent(5)\n"));
    assert!(!is_valid_override_label_complete(" label"));
    assert!(!is_valid_override_label_complete("percent(\u{0665})"));
    assert!(!is_valid_override_label_complete("\u{e9}tat"));
    assert!(is_valid_override_label_complete("percent"));
    assert!(is_valid_override_label_complete("percent(00)"));
    assert!(!is_valid_override_label_complete("percent(5.)"));
    assert!(!is_valid_override_label_complete("percent(.5)"));
}

#[test]
fn test_sources_data_structure() {
    let mut sources: Sources<Node<FieldDefinition>> = IndexedMap::new();
    let field = string_field("testField", vec![]);

    sources.insert(0, Some(field));
    sources.insert(1, None);

    assert_eq!(sources.len(), 2);
    assert!(sources.get(0).is_some());
    assert!(sources.get(1).is_some());
    assert!(sources.get(0).unwrap().is_some());
    assert!(sources.get(1).unwrap().is_none());
}

#[test]
fn test_override_conflicts_with_other_directive_integration() {
    let merger = create_test_merger().expect("Failed to create test merger");

    let result = merger.override_conflicts_with_other_directive(0, None, "test_subgraph", 1, None);

    assert!(!result.has_incompatible);
    assert!(result.conflicting_directive.is_none());
    assert!(result.subgraph.is_none());
}

#[test]
fn test_override_conflicts_with_requires_directive() {
    let merger = create_test_merger().expect("Failed to create test merger");
    let field_with_requires = string_field(
        "testField",
        vec![directive(FederationDirective::Requires.name(), vec![("fields", "id")])],
    );

    let result = merger.override_conflicts_with_other_directive(
        0,
        None,
        "current_subgraph",
        1,
        Some(&field_with_requires.node),
    );

    assert!(result.has_incompatible);
    assert_eq!(
        result.conflicting_directive,
        Some(FederationDirective::Requires.conflict_name().to_string())
    );
    assert!(result.subgraph.is_some());
}

#[test]
fn test_override_conflicts_with_provides_directive() {
    let merger = create_test_merger().expect("Failed to create test merger");
    let field_with_provides = string_field(
        "testField",
        vec![directive(FederationDirective::Provides.name(), vec![("fields", "name")])],
    );

    let result = merger.override_conflicts_with_other_directive(
        0,
        None,
        "current_subgraph",
        1,
        Some(&field_with_provides.node),
    );

    assert!(result.has_incompatible);
    assert_eq!(
        result.conflicting_directive,
        Some(FederationDirective::Provides.conflict_name().to_string())
    );
    assert!(result.subgraph.is_some());
}

#[test]
fn test_override_conflicts_with_federation_prefixed_directives() {
    let merger = create_test_merger().expect("Failed to create test merger");
    let field_with_federation_requires = string_field(
        "testField",
        vec![directive(FederationDirective::Requires.federation_name(), vec![("fields", "id")])],
    );

    let result = merger.override_conflicts_with_other_directive(
        0,
        None,
        "current_subgraph",
        1,
        Some(&field_with_federation_requires.node),
    );

    assert!(result.has_incompatible);
    assert_eq!(
        result.conflicting_directive,
        Some(FederationDirective::Requires.conflict_name().to_string())
    );
    assert!(result.subgraph.is_some());
}

#[test]
fn test_override_no_conflict_with_clean_fields() {
    let merger = create_test_merger().expect("Failed to create test merger");
    let clean_field = string_field("cleanField", vec![]);

    let result = merger.override_conflicts_with_other_directive(
        0,
        Some(&clean_field.node),
        "current_subgraph",
        1,
        Some(&clean_field.node),
    );

    assert!(!result.has_incompatible);
    assert!(result.conflicting_directive.is_none());
    assert!(result.subgraph.is_none());
}

#[test]
fn test_subgraph_name_suggestions_complete_workflow() {
    let available = vec!["accounts", "products", "reviews", "shipping"];

    let suggestions = suggest_similar_subgraph_names_impl("accounts", &available);
    assert!(!suggestions.is_empty());
    assert_eq!(suggestions[0], "accounts");
    let message = format_did_you_mean(&suggestions);
    assert!(message.contains("\"accounts\""));

    let suggestions = suggest_similar_subgraph_names_impl("ACCOUNTS", &available);
    assert!(!suggestions.is_empty());
    assert_eq!(suggestions[0], "accounts");
    let message = format_did_you_mean(&suggestions);
    assert!(message.contains("\"accounts\""));

    let suggestions = suggest_similar_subgraph_names_impl("acount", &available);
    assert!(!suggestions.is_empty());
    assert_eq!(suggestions[0], "accounts");
    let message = format_did_you_mean(&suggestions);
    assert!(message.contains("\"accounts\""));

    let suggestions = suggest_similar_subgraph_names_impl("ship", &available);
    if !suggestions.is_empty() {
        assert!(suggestions.iter().any(|s| s == "shipping"));
    }

    let suggestions = suggest_similar_subgraph_names_impl("xyz123", &available);
    assert!(suggestions.is_empty());
    assert_eq!(format_did_you_mean(&suggestions), "");

    let two_suggestions = vec!["account".to_string(), "user".to_string()];
    assert_eq!(
        format_did_you_mean(&two_suggestions),
        " Did you mean \"account\" or \"user\"?"
    );

    let many_suggestions = vec![
        "item1".to_string(),
        "item2".to_string(),
        "item3".to_string(),
        "item4".to_string(),
        "item5".to_string(),
        "item6".to_string(),
        "item7".to_string(),
    ];
    let result = format_did_you_mean(&many_suggestions);
    assert!(result.contains("\"item1\""));
    assert!(result.contains("\"item5\""));
    assert!(!result.contains("\"item6\""));
    assert!(!result.contains("\"item7\""));
    assert!(result.contains(", or \"item5\"?"));

    let triple = vec!["accounts".to_string(), "products".to_string(), "reviews".to_string()];
    let msg = format_did_you_mean(&triple);
    assert!(
        msg.contains("\"accounts\"") && msg.contains("\"products\"") && msg.contains("\"reviews\"")
    );
    assert!(msg.contains(", or "));

    let long_names = vec!["verylongsubgraphname", "anotherlongname"];
    let suggestions = suggest_similar_subgraph_names_impl("verylongsubgraphnam", &long_names);
    assert!(!suggestions.is_empty());
    assert_eq!(suggestions[0], "verylongsubgraphname");

    let suggestions = suggest_similar_subgraph_names_impl("acount", &available);
    assert!(!suggestions.is_empty());
    assert_eq!(suggestions[0], "accounts");
}
