//! Merging of the applications of a directive.

use federation_merger::applications::{
    count_applications, describe_application, find_most_used, index_arguments,
};
use federation_merger::ast::{
    Argument, Directive, DirectiveDefinition, InputValueDefinition, Type, Value,
};
use federation_merger::composition::{KnownSpecs, Preparation, SpecElements};
use federation_merger::index_map::{IndexedMap, Sources};
use federation_merger::merge_directives::settle_directive;
use federation_merger::merger::{
    CompositionOptions, JoinSpecDefinition, LinkSpecDefinition, MergedDirectiveInfo, Merger,
};
use federation_merger::report::{ErrorReporter, FederationError};
use federation_merger::schema::{
    AppliedDirective, DirectiveTargetPosition, FederationSchema, FieldPosition,
};
use federation_merger::subgraph::Subgraph;
use federation_merger::version::Version;

fn argument(name: &str, value: Value) -> Argument {
    Argument { name: name.to_string(), value }
}

fn string(text: &str) -> Value {
    Value::String(text.to_string())
}

fn literal(text: &str) -> Value {
    Value::Literal(text.to_string())
}

fn tag(name: &str) -> Directive {
    Directive { name: "tag".to_string(), arguments: vec![argument("name", string(name))] }
}

fn info(repeatable: bool, arguments_merger: Option<usize>) -> MergedDirectiveInfo {
    MergedDirectiveInfo {
        definition: DirectiveDefinition {
            name: "tag".to_string(),
            repeatable,
            arguments: vec![
                InputValueDefinition {
                    name: "name".to_string(),
                    ty: Type::Named("String".to_string()),
                    default_value: Some(literal("null")),
                    directives: vec![],
                },
                InputValueDefinition {
                    name: "other".to_string(),
                    ty: Type::Named("String".to_string()),
                    default_value: None,
                    directives: vec![],
                },
            ],
            locations: vec![],
        },
        arguments_merger,
        static_argument_transform: Some(3),
    }
}

fn target() -> DirectiveTargetPosition {
    DirectiveTargetPosition::ObjectField(FieldPosition {
        typename: "T".to_string(),
        field_name: "f".to_string(),
    })
}

fn dest() -> FederationSchema {
    let mut schema = FederationSchema::new();
    schema.elements.push(target());
    schema
}

fn applied(schema: &FederationSchema) -> Vec<&Directive> {
    schema.applied_directives.iter().map(|a| &a.directive).collect()
}

#[test]
fn applications_are_counted_in_order() {
    let given = vec![tag("b"), tag("a"), tag("b"), tag("c"), tag("a"), tag("b")];
    assert_eq!(count_applications(&given), vec![(tag("b"), 3), (tag("a"), 2), (tag("c"), 1)]);
    assert!(count_applications(&vec![]).is_empty());
    assert_eq!(find_most_used(&count_applications(&given)), Some(&tag("b")));
    // Of several that occur equally often, the last one is chosen.
    assert_eq!(find_most_used(&count_applications(&vec![tag("a"), tag("b")])), Some(&tag("b")));
    assert_eq!(find_most_used(&vec![]), None);
}

#[test]
fn arguments_are_indexed_by_name() {
    let given = vec![
        argument("a", literal("1")),
        argument("b", literal("2")),
        argument("a", literal("3")),
        argument("c", literal("4")),
        argument("b", literal("5")),
    ];
    assert_eq!(
        index_arguments(&given),
        vec![
            argument("a", literal("3")),
            argument("b", literal("5")),
            argument("c", literal("4")),
        ]
    );
}

#[test]
fn application_in_words() {
    assert_eq!(describe_application(&Directive::new("tag".to_string())), "no arguments");
    let directive = Directive {
        name: "tag".to_string(),
        arguments: vec![
            argument("name", string("say \"hi\"")),
            argument("count", literal("[1, 2]")),
        ],
    };
    assert_eq!(
        describe_application(&directive),
        "arguments: [name: \"say \\\"hi\\\"\", count: [1, 2]]"
    );
}

#[test]
fn each_application_of_a_repeatable_directive_is_applied() {
    let mut schema = dest();
    let mut reporter = ErrorReporter::new();
    let by_source = vec![(0, vec![tag("a"), tag("b")]), (2, vec![tag("a"), tag("c")])];
    let result = settle_directive(
        "tag",
        &info(true, Some(0)),
        &target(),
        &by_source,
        Ok(vec![]),
        "",
        &mut schema,
        &mut reporter,
    );
    assert!(result.is_ok());
    assert_eq!(applied(&schema), vec![&tag("a"), &tag("b"), &tag("c")]);
    assert!(!reporter.has_hints());
}

#[test]
fn only_application_is_applied() {
    let mut schema = dest();
    let mut reporter = ErrorReporter::new();
    let by_source = vec![(0, vec![tag("a")]), (1, vec![]), (2, vec![tag("a")])];
    let result = settle_directive(
        "tag",
        &info(false, Some(0)),
        &target(),
        &by_source,
        Ok(vec![]),
        "",
        &mut schema,
        &mut reporter,
    );
    assert!(result.is_ok());
    assert_eq!(applied(&schema), vec![&tag("a")]);
    assert!(!reporter.has_hints());
}

#[test]
fn merged_arguments_are_applied() {
    let mut schema = dest();
    let mut reporter = ErrorReporter::new();
    let by_source = vec![(0, vec![tag("a")]), (1, vec![tag("b")])];
    let result = settle_directive(
        "tag",
        &info(false, Some(0)),
        &target(),
        &by_source,
        Ok(vec![None, Some(string("merged"))]),
        "UNION",
        &mut schema,
        &mut reporter,
    );
    assert!(result.is_ok());
    let expected = Directive {
        name: "tag".to_string(),
        arguments: vec![argument("other", string("merged"))],
    };
    assert_eq!(applied(&schema), vec![&expected]);
    assert_eq!(reporter.hints[0].code, "MERGED_NON_REPEATABLE_DIRECTIVE_ARGUMENTS");
    assert_eq!(
        reporter.hints[0].message,
        "[MERGED_NON_REPEATABLE_DIRECTIVE_ARGUMENTS] Directive @tag is applied to \"T.f\" in multiple subgraphs with different arguments. Merging strategies used by arguments: UNION"
    );
}

#[test]
fn most_used_application_is_applied_without_a_merger() {
    let mut schema = dest();
    let mut reporter = ErrorReporter::new();
    let by_source =
        vec![(0, vec![tag("a")]), (1, vec![]), (4, vec![tag("b")]), (5, vec![tag("a")])];
    let result = settle_directive(
        "tag",
        &info(false, None),
        &target(),
        &by_source,
        Ok(vec![]),
        "",
        &mut schema,
        &mut reporter,
    );
    assert!(result.is_ok());
    assert_eq!(applied(&schema), vec![&tag("a")]);
    assert_eq!(
        reporter.hints[0].message,
        "[INCONSISTENT_NON_REPEATABLE_DIRECTIVE_ARGUMENTS] Non-repeatable directive @tag is applied to \"T.f\" in mulitple subgraphs but with incompatible arguments. "
    );
    let mismatch = reporter.hints[0].mismatch.as_ref().unwrap();
    assert_eq!(mismatch.element, "arguments: [name: \"a\"]");
    assert_eq!(
        mismatch.sources,
        vec![
            (0, Some("arguments: [name: \"a\"]".to_string())),
            (1, None),
            (4, Some("arguments: [name: \"b\"]".to_string())),
            (5, Some("arguments: [name: \"a\"]".to_string())),
        ]
    );
}

#[test]
fn failures_of_directive_merging() {
    let mut reporter = ErrorReporter::new();
    let mut without_element = FederationSchema::new();
    let by_source = vec![(0, vec![tag("a")]), (1, vec![tag("b")])];
    for (repeatable, merger) in [(true, None), (false, None), (false, Some(0))] {
        let result = settle_directive(
            "tag",
            &info(repeatable, merger),
            &target(),
            &by_source,
            Ok(vec![None, None]),
            "",
            &mut without_element,
            &mut reporter,
        );
        assert_eq!(
            result.unwrap_err().message,
            "Schema has no element \"T.f\" to apply a directive to"
        );
    }
    let result = settle_directive(
        "tag",
        &info(false, Some(0)),
        &target(),
        &by_source,
        Err(FederationError::internal("no merge".to_string())),
        "",
        &mut without_element,
        &mut reporter,
    );
    assert_eq!(result.unwrap_err().message, "no merge");
    // Nothing to apply is no failure.
    let result = settle_directive(
        "tag",
        &info(false, None),
        &target(),
        &vec![(0, vec![])],
        Ok(vec![]),
        "",
        &mut without_element,
        &mut reporter,
    );
    assert!(result.is_ok());
    assert!(without_element.applied_directives.is_empty());
    assert!(!reporter.has_hints());
}

fn subgraph(name: &str, applications: Vec<Directive>) -> Subgraph {
    let mut schema = FederationSchema::new();
    for directive in applications {
        schema.applied_directives.push(AppliedDirective { target: target(), directive });
    }
    Subgraph {
        name: name.to_string(),
        schema,
        is_fed_2_schema: true,
        federation_version: Version { major: 2, minor: 0 },
        feature_versions: vec![],
        interface_object_types: vec![],
        used_fields: vec![],
        external_fields: vec![],
        type_links: vec![],
        override_directive_name: None,
        from_context_directive_name: None,
        imports: vec![],
    }
}

fn merger(infos: Vec<MergedDirectiveInfo>) -> Merger {
    let version = Version { major: 2, minor: 0 };
    let specs = KnownSpecs {
        latest_federation_version: version,
        join_specs: vec![(version, JoinSpecDefinition { version })],
        link_specs: vec![(version, LinkSpecDefinition { version })],
    };
    let preparation = Preparation {
        link_spec: Ok(SpecElements::default()),
        join_spec: Ok(SpecElements::default()),
        core_directives: Ok(infos),
        directive_specs: Ok(SpecElements::default()),
        graph_names: Ok(vec![]),
    };
    Merger::new(vec![], CompositionOptions::default(), &specs, preparation)
        .expect("Failed to create test merger")
}

fn sources(subgraphs: Vec<Option<Subgraph>>) -> Sources<Subgraph> {
    let mut sources: Sources<Subgraph> = IndexedMap::new();
    for (i, subgraph) in subgraphs.into_iter().enumerate() {
        sources.insert(i, subgraph);
    }
    sources
}

fn keep(_: usize, _: &Subgraph, arguments: Vec<Argument>) -> Vec<Argument> {
    arguments
}

fn first_value(
    _: usize,
    _: &str,
    values: &Vec<Value>,
) -> Result<Option<Value>, FederationError> {
    Ok(values.first().cloned())
}

fn describe(strategy: usize) -> String {
    format!("strategy {}", strategy)
}

#[test]
fn directives_of_the_subgraphs_are_merged() {
    let mut merger = merger(vec![info(true, None)]);
    let mut schema = dest();
    let sources = sources(vec![
        Some(subgraph("a", vec![tag("x"), Directive::new("key".to_string())])),
        None,
        Some(subgraph("b", vec![tag("y"), tag("x")])),
    ]);
    // The transformation gets the strategy, the subgraph and the arguments.
    let transform = |strategy: usize, subgraph: &Subgraph, arguments: Vec<Argument>| {
        assert_eq!(strategy, 3);
        let mut result = arguments;
        if subgraph.name == "b" {
            result.push(argument("from", string("b")));
        }
        result
    };
    let result =
        merger.merge_applied_directive("tag", &sources, &mut schema, transform, first_value, describe);
    assert!(result.is_ok());
    let from_b = |name: &str| Directive {
        name: "tag".to_string(),
        arguments: vec![argument("name", string(name)), argument("from", string("b"))],
    };
    assert_eq!(applied(&schema), vec![&tag("x"), &from_b("y"), &from_b("x")]);
}

#[test]
fn values_of_each_argument_are_merged() {
    let mut merger = merger(vec![info(false, Some(8))]);
    let mut schema = dest();
    let application = |name: &str, value: &str| Directive {
        name: "tag".to_string(),
        arguments: vec![argument(name, literal(value))],
    };
    let sources = sources(vec![
        Some(subgraph("a", vec![application("name", "1")])),
        Some(subgraph("b", vec![application("tag", "5")])),
        Some(subgraph("c", vec![application("name", "2")])),
        Some(subgraph("d", vec![application("other", "7")])),
        Some(subgraph("e", vec![application("name", "1")])),
    ]);
    // The strategy gets the value of each different application, or the default of the argument.
    let merge = |strategy: usize, name: &str, values: &Vec<Value>| {
        assert_eq!((strategy, name), (8, "tag"));
        let texts: Vec<&str> = values
            .iter()
            .map(|value| match value {
                Value::Literal(text) => text.as_str(),
                Value::String(text) => text.as_str(),
            })
            .collect();
        let mut sorted = texts.clone();
        sorted.sort();
        Ok(Some(literal(&sorted.join(" "))))
    };
    let result =
        merger.merge_applied_directive("tag", &sources, &mut schema, keep, merge, describe);
    assert!(result.is_ok());
    let expected = Directive {
        name: "tag".to_string(),
        arguments: vec![
            argument("name", literal("1 2 null null")),
            argument("other", literal("7")),
        ],
    };
    assert_eq!(applied(&schema), vec![&expected]);
    assert!(merger.error_reporter().hints[0].message.ends_with("arguments: strategy 8"));
}

#[test]
fn failure_to_merge_arguments_is_returned() {
    let mut merger = merger(vec![info(false, Some(8))]);
    let mut schema = dest();
    let sources = sources(vec![
        Some(subgraph("a", vec![tag("x")])),
        Some(subgraph("b", vec![tag("y")])),
    ]);
    let fail = |_: usize, _: &str, _: &Vec<Value>| -> Result<Option<Value>, FederationError> {
        Err(FederationError::internal("cannot merge".to_string()))
    };
    let result =
        merger.merge_applied_directive("tag", &sources, &mut schema, keep, fail, describe);
    assert_eq!(result.unwrap_err().message, "cannot merge");
    assert!(schema.applied_directives.is_empty());
    assert!(!merger.has_hints());

    // The arguments are merged in order, up to the first that fails. Only the first of the two has
    // values to merge.
    let calls = std::cell::Cell::new(0);
    let fail_each = |_: usize, _: &str, values: &Vec<Value>| {
        calls.set(calls.get() + 1);
        Err(FederationError::internal(format!("{} values", values.len())))
    };
    let result =
        merger.merge_applied_directive("tag", &sources, &mut schema, keep, fail_each, describe);
    assert_eq!(result.unwrap_err().message, "2 values");
    assert_eq!(calls.get(), 1);
    let fail_without_values = |_: usize, _: &str, values: &Vec<Value>| match values.first() {
        Some(value) => Ok(Some(value.clone())),
        None => Err(FederationError::internal("nothing to merge".to_string())),
    };
    let result = merger.merge_applied_directive(
        "tag",
        &sources,
        &mut schema,
        keep,
        fail_without_values,
        describe,
    );
    assert_eq!(result.unwrap_err().message, "nothing to merge");
    assert!(schema.applied_directives.is_empty());
    assert!(!merger.has_hints());
}

#[test]
fn directive_that_is_not_merged_is_left_alone() {
    let mut merger = merger(vec![]);
    let mut schema = dest();
    let sources = sources(vec![Some(subgraph("a", vec![tag("x")]))]);
    let result =
        merger.merge_applied_directive("tag", &sources, &mut schema, keep, first_value, describe);
    assert!(result.is_ok());
    assert!(schema.applied_directives.is_empty());

    // Without a transformation the directive counts as not applied.
    let mut untransformed = info(false, None);
    untransformed.static_argument_transform = None;
    let mut merger = self::merger(vec![untransformed]);
    let result =
        merger.merge_applied_directive("tag", &sources, &mut schema, keep, first_value, describe);
    assert!(result.is_ok());
    assert!(schema.applied_directives.is_empty());
}
