//! Lists in words, suggestions, versions and maps.

use federation_merger::directives::FederationDirective;
use federation_merger::human_readable::{
    format_did_you_mean, format_human_readable_list, human_readable_subgraph_names, print_types,
};
use federation_merger::index_map::{IndexedMap, Sources};
use federation_merger::schema::{FederationSchema, TypeKind};
use federation_merger::sources::{map_sources, some_sources};
use federation_merger::subgraph::Identity;
use federation_merger::suggest::{
    select_suggestions, suggest_similar_subgraph_names_impl, CASE_DIFFERENCE_SCORE,
    EXACT_MATCH_SCORE,
};
use federation_merger::threshold::similarity_threshold;
use federation_merger::version::Version;

fn strings(items: &[&str]) -> Vec<String> {
    items.iter().map(|s| s.to_string()).collect()
}

#[test]
fn list_of_types_in_words() {
    assert_eq!(print_types(&vec![]), "");
    assert_eq!(print_types(&vec!["User"]), "type \"User\"");
    assert_eq!(print_types(&vec!["User", "Profile"]), "types \"User\" and \"Profile\"");
    assert_eq!(
        print_types(&vec!["User", "Profile", "Account"]),
        "types \"User\", \"Profile\", and \"Account\""
    );
    // Type names are written in full, however long they are.
    let a = "A".repeat(60);
    let b = "B".repeat(60);
    assert_eq!(
        print_types(&vec![a.as_str(), b.as_str()]),
        format!("types \"{}\" and \"{}\"", a, b)
    );
}

#[test]
fn list_with_prefixes_and_separator() {
    let one = strings(&["a"]);
    let three = strings(&["a", "b", "c"]);
    assert_eq!(format_human_readable_list(&one, None, None, None, None), "a");
    assert_eq!(format_human_readable_list(&one, Some("x"), Some("xs"), None, None), "x a");
    assert_eq!(format_human_readable_list(&three, None, None, None, None), "a, b and c");
    assert_eq!(
        format_human_readable_list(&three, Some("x"), None, Some(" or "), None),
        "x a, b or c"
    );
    assert_eq!(
        format_human_readable_list(&three, Some("x"), Some("xs"), None, None),
        "xs a, b and c"
    );
}

#[test]
fn list_that_is_cut_off() {
    let items = strings(&["aaa", "bbb", "ccc"]);
    assert_eq!(
        format_human_readable_list(&items, None, Some("xs"), None, Some(6)),
        "xs aaa, bbb, ..."
    );
    assert_eq!(format_human_readable_list(&items, None, None, None, Some(0)), "aaa, ...");
    assert_eq!(format_human_readable_list(&items, None, None, None, Some(9)), "aaa, bbb and ccc");
    // The item that is too long is passed over; the count of those that fit decides.
    let mixed = strings(&["aaaaaaaaaa", "b", "c", "d"]);
    assert_eq!(
        format_human_readable_list(&mixed, None, None, None, Some(3)),
        "aaaaaaaaaa, b, c, ..."
    );
    let default_cutoff = vec!["x".repeat(60), "y".repeat(60)];
    assert_eq!(
        format_human_readable_list(&default_cutoff, None, None, None, None),
        format!("{}, ...", "x".repeat(60))
    );
    // Lengths are counted in bytes.
    let wide = strings(&["\u{e9}\u{e9}", "b"]);
    assert_eq!(format_human_readable_list(&wide, None, None, None, Some(4)), "\u{e9}\u{e9}, ...");
}

#[test]
fn subgraph_names_in_words() {
    assert_eq!(human_readable_subgraph_names(&strings(&["a"])), "subgraph \"a\"");
    assert_eq!(
        human_readable_subgraph_names(&strings(&["a", "b", "c"])),
        "subgraphs \"a\", \"b\" and \"c\""
    );
}

#[test]
fn question_names_at_most_five_suggestions() {
    assert_eq!(format_did_you_mean(&vec![]), "");
    assert_eq!(format_did_you_mean(&strings(&["a"])), " Did you mean \"a\"?");
    assert_eq!(
        format_did_you_mean(&strings(&["a", "b", "c", "d", "e", "f"])),
        " Did you mean \"a\", \"b\", \"c\", \"d\", or \"e\"?"
    );
}

#[test]
fn threshold_is_that_of_double_arithmetic() {
    let in_doubles = |length: usize| {
        let base = 1.0 - (length as f64 * 0.4 + 1.0) / (length as f64 + 1.0);
        base.max(0.4).to_bits()
    };
    for length in 0..3000 {
        assert_eq!(similarity_threshold(length), in_doubles(length), "length {}", length);
    }
    for shift in 12..60 {
        for offset in [0usize, 1, 2, 3, 5, 7] {
            let length = (1usize << shift) + offset;
            assert_eq!(similarity_threshold(length), in_doubles(length), "length {}", length);
            let length = (1usize << shift) - 1 - offset;
            assert_eq!(similarity_threshold(length), in_doubles(length), "length {}", length);
        }
    }
    assert_eq!(similarity_threshold(0), 0.4f64.to_bits());
    assert_eq!(CASE_DIFFERENCE_SCORE, 0.95f64.to_bits());
    assert_eq!(EXACT_MATCH_SCORE, 1.0f64.to_bits());
}

#[test]
fn suggestions_come_best_first() {
    let bits = |score: f64| score.to_bits();
    let names = vec!["e", "d", "c", "b", "a", "f", "g"];
    let scores = vec![
        bits(0.5),
        bits(0.9),
        bits(0.5),
        bits(1.0),
        bits(0.5),
        bits(0.3),
        bits(0.6),
    ];
    assert_eq!(select_suggestions(&names, &scores, bits(0.4)), strings(&["b", "d", "g", "a", "c"]));
    assert_eq!(select_suggestions(&names, &scores, bits(0.6)), strings(&["b", "d", "g"]));
    assert!(select_suggestions(&vec![], &vec![], bits(0.4)).is_empty());
}

#[test]
fn suggestions_by_similarity_and_case() {
    // The target itself comes first, before a close name and one that differs in case alone.
    assert_eq!(
        suggest_similar_subgraph_names_impl("accounts", &vec!["account", "ACCOUNTS", "accounts"]),
        strings(&["accounts", "account", "ACCOUNTS"])
    );
    assert_eq!(
        suggest_similar_subgraph_names_impl("accounts", &vec!["account", "accounts"]),
        strings(&["accounts", "account"])
    );
    assert_eq!(
        suggest_similar_subgraph_names_impl("Users", &vec!["user", "USERS", "zzz"]),
        strings(&["USERS", "user"])
    );
    // A close name can score higher than one that differs in case alone.
    assert_eq!(
        suggest_similar_subgraph_names_impl("inventory-service", &vec![
            "INVENTORY-SERVICE",
            "inventory-services",
        ]),
        strings(&["inventory-services", "INVENTORY-SERVICE"])
    );
    assert!(suggest_similar_subgraph_names_impl("a", &vec!["zzz"]).is_empty());
}

#[test]
fn indexed_map_keeps_the_order_of_insertion() {
    let mut map: IndexedMap<&str> = IndexedMap::new();
    assert!(map.is_empty());
    map.insert(7, "a");
    map.insert(3, "b");
    map.insert(7, "c");
    *map.entry_or_insert(5, "d") = "e";
    *map.entry_or_insert(3, "unused") = "f";
    assert_eq!(map.len(), 3);
    assert_eq!((map.key_at(0), *map.item_at(0)), (7, "c"));
    assert_eq!((map.key_at(1), *map.item_at(1)), (3, "f"));
    assert_eq!((map.key_at(2), *map.item_at(2)), (5, "e"));
    assert_eq!(map.get(5), Some(&"e"));
    assert_eq!(map.get(1), None);
}

#[test]
fn sources_are_mapped_and_searched() {
    let mut sources: Sources<u32> = IndexedMap::new();
    sources.insert(4, Some(2));
    sources.insert(1, None);
    sources.insert(2, Some(5));
    let mapped = map_sources(&sources, |source: &Option<u32>| match source {
        Some(n) if *n > 2 => Some(format!("{}", n)),
        _ => None,
    });
    assert_eq!(mapped.len(), 3);
    assert_eq!((mapped.key_at(0), mapped.item_at(0)), (4, &None));
    assert_eq!((mapped.key_at(1), mapped.item_at(1)), (1, &None));
    assert_eq!((mapped.key_at(2), mapped.item_at(2)), (2, &Some("5".to_string())));
    assert!(some_sources(&sources, |source: &Option<u32>, key: usize| source.is_none() && key == 1));
    assert!(!some_sources(&sources, |source: &Option<u32>, key: usize| {
        source.is_none() && key == 2
    }));
}

#[test]
fn new_schema_has_the_built_in_types_and_directives() {
    let schema = FederationSchema::new();
    let types: Vec<(&str, TypeKind)> =
        schema.types.iter().map(|t| (t.name.as_str(), t.definition.kind())).collect();
    assert_eq!(
        types,
        vec![
            ("__Schema", TypeKind::Object),
            ("__Type", TypeKind::Object),
            ("__TypeKind", TypeKind::Enum),
            ("__Field", TypeKind::Object),
            ("__InputValue", TypeKind::Object),
            ("__EnumValue", TypeKind::Object),
            ("__Directive", TypeKind::Object),
            ("__DirectiveLocation", TypeKind::Enum),
            ("Int", TypeKind::Scalar),
            ("Float", TypeKind::Scalar),
            ("String", TypeKind::Scalar),
            ("Boolean", TypeKind::Scalar),
            ("ID", TypeKind::Scalar),
        ]
    );
    assert_eq!(
        schema.built_in_directives,
        strings(&["skip", "include", "deprecated", "specifiedBy"])
    );
    assert!(schema.defines_directive("skip"));
    assert!(!schema.defines_directive("key"));
}

#[test]
fn versions_are_ordered_and_written() {
    let version = |major: u32, minor: u32| Version { major, minor };
    assert_eq!(version(2, 11).to_notation(), "2.11");
    assert_eq!(version(0, 4294967295).to_notation(), "0.4294967295");
    assert_eq!(version(10, 0).to_notation(), "10.0");
    assert!(version(2, 1).is_after(&version(2, 0)));
    assert!(version(2, 0).is_after(&version(1, 9)));
    assert!(!version(2, 0).is_after(&version(2, 0)));
    assert!(version(2, 3).satisfies(&version(2, 1)));
    assert!(!version(2, 1).satisfies(&version(2, 3)));
    assert!(!version(3, 3).satisfies(&version(2, 3)));
    assert!(!version(0, 9).satisfies(&version(0, 8)));
    assert!(version(0, 9).satisfies(&version(0, 9)));
}

#[test]
fn federation_directives_have_two_names() {
    for (directive, name, federation_name) in [
        (FederationDirective::Override, "override", "federation__override"),
        (FederationDirective::External, "external", "federation__external"),
        (FederationDirective::Requires, "requires", "federation__requires"),
        (FederationDirective::Provides, "provides", "federation__provides"),
    ] {
        assert_eq!(directive.name(), name);
        assert_eq!(directive.federation_name(), federation_name);
        assert_eq!(directive.conflict_name(), name);
        assert!(directive.matches(name));
        assert!(directive.matches(federation_name));
        assert!(!directive.matches("key"));
    }
    assert!(!FederationDirective::Override.matches("external"));
}

#[test]
fn specifications_that_are_not_merged() {
    let identity = |domain: &str, name: &str| Identity {
        domain: domain.to_string(),
        name: name.to_string(),
    };
    let apollo = "https://specs.apollographql.org";
    for name in ["federation", "link", "core", "connect"] {
        assert!(identity(apollo, name).is_non_merged_core_feature());
        assert!(!identity("https://example.com", name).is_non_merged_core_feature());
    }
    assert!(!identity(apollo, "tag").is_non_merged_core_feature());
    assert_eq!(Identity::connect_identity().name, "connect");
}
