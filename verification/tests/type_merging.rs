//! Merging of the types that the subgraphs give an element.

use federation_merger::ast::{FieldDefinition, InputValueDefinition, Type};
use federation_merger::composition::{KnownSpecs, Preparation, SpecElements};
use federation_merger::enum_usage::{EnumExampleAst, EnumTypeUsage};
use federation_merger::index_map::{IndexedMap, Sources};
use federation_merger::merger::{
    CompositionOptions, JoinSpecDefinition, LinkSpecDefinition, Merger,
};
use federation_merger::report::FederationError;
use federation_merger::schema::{ExtendedType, FieldsType, TypeDefinition};
use federation_merger::version::Version;

fn create_test_types() -> Vec<TypeDefinition> {
    let interface = ExtendedType::Interface(FieldsType {
        implements_interfaces: vec![],
        fields: vec![],
    });
    let object = ExtendedType::Object(FieldsType {
        implements_interfaces: vec!["I".to_string()],
        fields: vec![],
    });
    vec![
        TypeDefinition { name: "I".to_string(), definition: interface },
        TypeDefinition { name: "A".to_string(), definition: object },
        TypeDefinition {
            name: "U".to_string(),
            definition: ExtendedType::Union(vec!["A".to_string()]),
        },
        TypeDefinition { name: "Status".to_string(), definition: ExtendedType::Enum },
    ]
}

fn create_test_merger() -> Result<Merger, FederationError> {
    let version = Version { major: 2, minor: 11 };
    let specs = KnownSpecs {
        latest_federation_version: version,
        join_specs: vec![(version, JoinSpecDefinition { version: Version { major: 0, minor: 5 } })],
        link_specs: vec![(version, LinkSpecDefinition { version: Version { major: 1, minor: 0 } })],
    };
    let preparation = Preparation {
        link_spec: Ok(SpecElements {
            types: create_test_types(),
            directive_definitions: vec![],
        }),
        join_spec: Ok(SpecElements::default()),
        core_directives: Ok(vec![]),
        directive_specs: Ok(SpecElements::default()),
        graph_names: Ok(vec![]),
    };
    Merger::new(vec![], CompositionOptions::default(), &specs, preparation)
}

fn named(name: &str) -> Type {
    Type::Named(name.to_string())
}

fn non_null(name: &str) -> Type {
    Type::NonNullNamed(name.to_string())
}

fn list(item: Type) -> Type {
    Type::List(Box::new(item))
}

fn non_null_list(item: Type) -> Type {
    Type::NonNullList(Box::new(item))
}

fn sources(types: Vec<Option<Type>>) -> Sources<Type> {
    let mut sources: Sources<Type> = IndexedMap::new();
    for (i, ty) in types.into_iter().enumerate() {
        sources.insert(i, ty);
    }
    sources
}

/// A field whose type is not merged yet.
fn element(name: &str) -> FieldDefinition {
    FieldDefinition { name: name.to_string(), ty: named("Unmerged"), directives: vec![] }
}

#[test]
fn same_types() {
    let mut merger = create_test_merger().expect("Failed to create test merger");
    let sources = sources(vec![Some(named("String")), Some(named("String"))]);

    let result =
        merger.merge_type_reference(&sources, &mut element("testField"), false, "Parent");

    assert!(result.is_ok());
    assert!(!merger.has_errors());
    assert_eq!(merger.enum_usages().len(), 0);
}

#[test]
fn nullable_vs_non_nullable() {
    let mut merger = create_test_merger().expect("Failed to create test merger");
    let sources = sources(vec![Some(non_null("String")), Some(named("String"))]);

    let result =
        merger.merge_type_reference(&sources, &mut element("testField"), false, "Parent");
    assert!(result.is_ok());
    assert!(!merger.has_errors());
    assert_eq!(merger.enum_usages().len(), 0);

    let mut merger = create_test_merger().expect("Failed to create test merger");
    let _result = merger.merge_type_reference(&sources, &mut element("testArg"), true, "Parent");
    assert!(!merger.has_errors());
    assert_eq!(merger.enum_usages().len(), 0);
}

#[test]
fn interface_subtype() {
    let mut merger = create_test_merger().expect("Failed to create test merger");
    let sources = sources(vec![Some(named("I")), Some(named("A"))]);

    let result =
        merger.merge_type_reference(&sources, &mut element("testField"), false, "Parent");
    assert!(result.is_ok());
    assert!(!merger.has_errors());
    assert_eq!(merger.enum_usages().len(), 0);

    let _result = merger.merge_type_reference(&sources, &mut element("testArg"), true, "Parent");
    assert!(!merger.has_errors());
    assert_eq!(merger.enum_usages().len(), 0);
}

#[test]
fn incompatible_types() {
    let mut merger = create_test_merger().expect("Failed to create test merger");
    let sources = sources(vec![Some(named("String")), Some(named("Int"))]);

    let _result =
        merger.merge_type_reference(&sources, &mut element("testField"), false, "Parent");
    assert!(merger.has_errors());
    assert_eq!(merger.enum_usages().len(), 0);
}

#[test]
fn enum_usage_tracking() {
    let mut merger = create_test_merger().expect("Failed to create test merger");

    let out_sources = sources(vec![Some(named("Status")), Some(named("Status"))]);
    let _ = merger.merge_type_reference(&out_sources, &mut element("user_status"), false, "Parent");

    let arg_sources = sources(vec![Some(named("Status")), Some(named("Status"))]);
    let _ =
        merger.merge_type_reference(&arg_sources, &mut element("status_filter"), true, "Parent");

    let enum_usage = merger.get_enum_usage("Status");
    assert!(enum_usage.is_some());

    let usage = enum_usage.unwrap();
    match usage {
        EnumTypeUsage::Both { input_example, output_example } => {
            assert_eq!(input_example.coordinate, "Parent.status_filter");
            assert_eq!(output_example.coordinate, "Parent.user_status");
        }
        _ => panic!("Expected Both usage, got {:?}", usage),
    }
}

#[test]
fn enum_usage_output_only() {
    let mut merger = create_test_merger().expect("Failed to create test merger");
    let sources = sources(vec![Some(named("Status")), Some(named("Status"))]);

    let _ = merger.merge_type_reference(&sources, &mut element("status_out"), false, "Parent");

    let usage = merger.get_enum_usage("Status").expect("usage");
    match usage {
        EnumTypeUsage::Output { output_example } => {
            assert_eq!(output_example.coordinate, "Parent.status_out");
        }
        _ => panic!("Expected Output usage"),
    }
}

#[test]
fn enum_usage_input_only() {
    let mut merger = create_test_merger().expect("Failed to create test merger");
    let sources = sources(vec![Some(named("Status")), Some(named("Status"))]);

    let _ = merger.merge_type_reference(&sources, &mut element("status_in"), true, "Parent");

    let usage = merger.get_enum_usage("Status").expect("usage");
    match usage {
        EnumTypeUsage::Input { input_example } => {
            assert_eq!(input_example.coordinate, "Parent.status_in");
        }
        _ => panic!("Expected Input usage"),
    }
}

#[test]
fn empty_sources_reports_error() {
    let mut merger = create_test_merger().expect("Failed to create test merger");
    let sources = sources(vec![]);
    let mut element = element("f");

    let result = merger.merge_type_reference(&sources, &mut element, false, "Parent");

    match result {
        Ok(false) => {}
        Ok(true) => panic!("Expected Ok(false), got Ok(true)"),
        Err(e) => panic!("Expected Ok(false), got Err: {:?}", e),
    }
    assert!(merger.has_errors(), "Expected an error to be reported for empty sources");
    assert_eq!(
        merger.error_reporter().errors[0].message,
        "No type sources provided for merging Parent.f"
    );
    assert_eq!(element.ty, named("Unmerged"));
}

#[test]
fn sources_with_no_defined_types_reports_error() {
    let mut merger = create_test_merger().expect("Failed to create test merger");
    let sources = sources(vec![None, None]);
    let mut element = element("f");

    let result = merger.merge_type_reference(&sources, &mut element, false, "Parent");

    match result {
        Ok(false) => {}
        Ok(true) => panic!("Expected Ok(false), got Ok(true)"),
        Err(e) => panic!("Expected Ok(false), got Err: {:?}", e),
    }
    assert!(
        merger.has_errors(),
        "Expected an error to be reported when no sources have types defined"
    );
    assert_eq!(
        merger.error_reporter().errors[0].message,
        "No type sources provided for Parent.f across subgraphs"
    );
}

#[test]
fn merge_with_field_definition_element() {
    let mut merger = create_test_merger().expect("Failed to create test merger");
    let mut field_def = FieldDefinition {
        name: "field".to_string(),
        directives: Default::default(),
        ty: named("String"),
    };
    let sources = sources(vec![Some(named("String"))]);

    let res = merger.merge_type_reference(&sources, &mut field_def, false, "Parent");
    assert!(
        res.is_ok(),
        "Merging identical types on a FieldDefinition should return true"
    );
    assert_eq!(res.ok(), Some(true));
    assert_eq!(
        match field_def.ty {
            Type::Named(n) => n.to_string(),
            _ => String::new(),
        },
        "String"
    );
}

#[test]
fn merge_with_input_value_definition_element() {
    let mut merger = create_test_merger().expect("Failed to create test merger");
    let mut input_def = InputValueDefinition {
        name: "arg".to_string(),
        default_value: None,
        directives: Default::default(),
        ty: named("Int"),
    };
    let sources = sources(vec![Some(named("Int")), Some(non_null("Int"))]);

    let res = merger.merge_type_reference(&sources, &mut input_def, true, "Parent");
    assert!(res.is_ok(), "Input position merging should work");
    assert_eq!(
        match &input_def.ty {
            Type::Named(n) => n.as_str(),
            _ => "",
        },
        "Int"
    );
}

#[test]
fn position_decides_between_type_and_subtype() {
    for (supertype, subtype) in [
        (named("I"), named("A")),
        (named("I"), non_null("A")),
        (non_null("I"), non_null("A")),
        (named("U"), named("A")),
        (list(named("U")), list(non_null("A"))),
        (list(named("I")), non_null_list(named("A"))),
    ] {
        for (is_input, expected) in [(false, &supertype), (true, &subtype)] {
            let given = [(&supertype, &subtype), (&subtype, &supertype)];
            for (first, second) in given {
                let mut merger = create_test_merger().expect("Failed to create test merger");
                let mut element = element("testField");
                let result = merger.merge_type_reference(
                    &sources(vec![Some(first.clone()), None, Some(second.clone())]),
                    &mut element,
                    is_input,
                    "Parent",
                );
                assert_eq!(result.ok(), Some(false));
                assert_eq!(&element.ty, expected);
                assert!(!merger.has_errors());
                assert!(merger.has_hints());
            }
        }
    }
}

#[test]
fn nullable_type_is_taken_in_either_position() {
    for (nullable, non_null) in [
        (named("Int"), non_null("Int")),
        (list(named("Int")), non_null_list(named("Int"))),
        (list(named("Int")), list(non_null("Int"))),
        (list(named("Int")), non_null_list(non_null("Int"))),
        (list(list(named("A"))), list(non_null_list(named("A")))),
    ] {
        for is_input in [false, true] {
            for (first, second) in [(&nullable, &non_null), (&non_null, &nullable)] {
                let mut merger = create_test_merger().expect("Failed to create test merger");
                let mut element = element("testField");
                let result = merger.merge_type_reference(
                    &sources(vec![Some(first.clone()), Some(second.clone())]),
                    &mut element,
                    is_input,
                    "Parent",
                );
                assert_eq!(result.ok(), Some(false));
                assert_eq!(element.ty, nullable);
                assert!(!merger.has_errors());
            }
        }
    }
}

#[test]
fn compatible_types_are_a_hint_with_what_each_subgraph_has() {
    let mut merger = create_test_merger().expect("Failed to create test merger");
    let _ = merger.merge_type_reference(
        &sources(vec![Some(named("I")), None, Some(non_null("A"))]),
        &mut element("f"),
        false,
        "Parent",
    );
    let hint = &merger.error_reporter().hints[0];
    assert_eq!(hint.code, "INCONSISTENT_BUT_COMPATIBLE_FIELD_TYPE");
    assert_eq!(
        hint.message,
        "[INCONSISTENT_BUT_COMPATIBLE_FIELD_TYPE] Type of field \"Parent.f\" is inconsistent but compatible across subgraphs:"
    );
    let mismatch = hint.mismatch.as_ref().unwrap();
    assert_eq!(mismatch.element, "type \"I\"");
    assert_eq!(
        mismatch.sources,
        vec![
            (0, Some("type \"I\"".to_string())),
            (1, None),
            (2, Some("type \"A!\"".to_string())),
        ]
    );

    let _ = merger.merge_type_reference(
        &sources(vec![Some(named("I")), Some(named("A"))]),
        &mut element("a"),
        true,
        "Parent",
    );
    let hint = &merger.error_reporter().hints[1];
    assert_eq!(hint.code, "INCONSISTENT_BUT_COMPATIBLE_ARGUMENT_TYPE");
    assert!(hint.message.contains("Type of argument \"Parent.a\""));
}

#[test]
fn incompatible_types_are_an_error_with_what_each_subgraph_has() {
    let mut merger = create_test_merger().expect("Failed to create test merger");
    let mut element = element("f");
    let result = merger.merge_type_reference(
        &sources(vec![Some(named("String")), Some(list(named("Int")))]),
        &mut element,
        true,
        "Parent",
    );
    assert_eq!(result.ok(), Some(false));
    assert_eq!(element.ty, named("String"));
    let error = &merger.error_reporter().errors[0];
    assert_eq!(
        error.message,
        "Type of argument \"Parent.f\" is incompatible across subgraphs"
    );
    let mismatch = error.mismatch.as_ref().unwrap();
    assert_eq!(mismatch.element, "type \"String\"");
    assert_eq!(
        mismatch.sources,
        vec![
            (0, Some("type \"String\"".to_string())),
            (1, Some("type \"[Int]\"".to_string())),
        ]
    );
}

#[test]
fn type_that_the_supergraph_lacks_is_an_error() {
    let mut merger = create_test_merger().expect("Failed to create test merger");
    let mut element = element("f");
    let result = merger.merge_type_reference(
        &sources(vec![Some(list(named("Missing")))]),
        &mut element,
        false,
        "Parent",
    );
    assert_eq!(result.ok(), Some(true));
    assert_eq!(element.ty, list(named("Missing")));
    assert_eq!(
        merger.error_reporter().errors[0].message,
        "Cannot find type 'Missing' in target schema"
    );
    let copied = merger.copy_type_reference(&non_null("Status"));
    assert_eq!(copied.ok(), Some(non_null("Status")));
    assert_eq!(merger.error_reporter().errors.len(), 1);
}

#[test]
fn strict_subtypes() {
    let merger = create_test_merger().expect("Failed to create test merger");
    let is_subtype = |sup: Type, sub: Type| merger.is_strict_subtype(&sup, &sub).ok();
    assert_eq!(is_subtype(named("A"), non_null("A")), Some(true));
    assert_eq!(is_subtype(non_null("A"), named("A")), Some(false));
    assert_eq!(is_subtype(named("A"), named("A")), Some(false));
    assert_eq!(is_subtype(named("I"), non_null("A")), Some(true));
    assert_eq!(is_subtype(non_null("I"), non_null("A")), Some(true));
    assert_eq!(is_subtype(non_null("I"), named("A")), Some(false));
    assert_eq!(is_subtype(named("U"), named("A")), Some(true));
    assert_eq!(is_subtype(named("A"), named("U")), Some(false));
    assert_eq!(is_subtype(list(named("I")), list(named("A"))), Some(true));
    assert_eq!(is_subtype(non_null_list(named("I")), list(named("A"))), Some(false));
    assert_eq!(is_subtype(list(named("I")), non_null_list(named("A"))), Some(true));
    assert_eq!(is_subtype(list(named("A")), non_null_list(named("A"))), Some(true));
    assert_eq!(is_subtype(list(named("Int")), non_null_list(named("Int"))), Some(true));
    assert_eq!(is_subtype(non_null_list(named("A")), list(named("A"))), Some(false));
    assert_eq!(is_subtype(list(named("A")), named("A")), Some(false));

    let missing = merger.is_strict_subtype(&named("Missing"), &named("A"));
    assert_eq!(missing.unwrap_err().message, "Cannot find type 'Missing' in schema");
    let missing = merger.is_strict_subtype(&named("A"), &named("Other"));
    assert_eq!(missing.unwrap_err().message, "Cannot find type 'Other' in schema");
}

#[test]
fn use_in_both_positions_is_put_down_for_the_last_position() {
    let mut merger = create_test_merger().expect("Failed to create test merger");
    let status = || sources(vec![Some(non_null("Status"))]);
    let _ = merger.merge_type_reference(&status(), &mut element("in"), true, "P");
    let _ = merger.merge_type_reference(&status(), &mut element("later_in"), true, "P");
    match merger.get_enum_usage("Status") {
        Some(EnumTypeUsage::Input { input_example }) => {
            assert_eq!(input_example.coordinate, "P.in");
            match &input_example.element_ast {
                Some(EnumExampleAst::Field(field)) => {
                    assert_eq!(field.node.name, "in");
                    assert_eq!(field.node.ty, non_null("Status"));
                }
                other => panic!("unexpected element {:?}", other),
            }
        }
        other => panic!("unexpected usage {:?}", other),
    }
    let _ = merger.merge_type_reference(&status(), &mut element("out"), false, "P");
    match merger.get_enum_usage("Status") {
        Some(EnumTypeUsage::Both { input_example, output_example }) => {
            assert_eq!(input_example.coordinate, "P.in");
            assert_eq!(output_example.coordinate, "P.out");
        }
        other => panic!("unexpected usage {:?}", other),
    }
    let _ = merger.merge_type_reference(&status(), &mut element("last"), false, "P");
    match merger.get_enum_usage("Status") {
        Some(EnumTypeUsage::Output { output_example }) => {
            assert_eq!(output_example.coordinate, "P.out");
        }
        other => panic!("unexpected usage {:?}", other),
    }
    assert!(merger.get_enum_usage("A").is_none());
}
