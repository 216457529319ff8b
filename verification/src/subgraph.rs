//! Subgraphs: their schemas and what federation knows about them.

use crate::schema::{
    applications, contains_field_position, extend_targets, field_places, list_referencers,
    referencers, targets, with_all_distinct, DirectiveTargetPosition, FederationSchema,
    FieldDefinitionPosition, FieldPlace, Target, TypeKind,
};
use crate::text::{contains_text, same_text, texts};
use crate::version::Version;
use vstd::prelude::*;
use vstd::string::*;

verus! {

/// The identity of a specification: its domain and its name.
#[derive(Debug)]
pub struct Identity {
    pub domain: String,
    pub name: String,
}

/// The domain of the specifications that composition knows.
pub const APOLLO_SPEC_DOMAIN: &'static str = "https://specs.apollographql.org";

impl Identity {
    /// Whether the identity is that of the specification with the name.
    pub open spec fn is_apollo_spec(self, name: Seq<char>) -> bool {
        self.domain@ == APOLLO_SPEC_DOMAIN@ && self.name@ == name
    }

    /// Whether the types of the specification are left out of the supergraph.
    pub open spec fn is_not_merged(self) -> bool {
        self.is_apollo_spec("federation"@) || self.is_apollo_spec("link"@) || self.is_apollo_spec(
            "core"@,
        ) || self.is_apollo_spec("connect"@)
    }

    /// The identity of the connect specification.
    pub fn connect_identity() -> (identity: Identity)
        ensures
            identity.is_apollo_spec("connect"@),
    {
        Identity { domain: APOLLO_SPEC_DOMAIN.to_owned(), name: "connect".to_owned() }
    }

    /// Whether the types of the specification are left out of the supergraph: those of the
    /// federation, link, core and connect specifications are.
    pub fn is_non_merged_core_feature(&self) -> (excluded: bool)
        ensures
            excluded == self.is_not_merged(),
    {
        same_text(self.domain.as_str(), APOLLO_SPEC_DOMAIN) && (same_text(
            self.name.as_str(),
            "federation",
        ) || same_text(self.name.as_str(), "link") || same_text(self.name.as_str(), "core")
            || same_text(self.name.as_str(), "connect"))
    }
}

/// A type and the specification that it comes from.
#[derive(Debug)]
pub struct TypeLink {
    pub typename: String,
    pub identity: Identity,
}

/// A subgraph: its schema and what federation knows about it.
#[derive(Debug)]
pub struct Subgraph {
    pub name: String,
    pub schema: FederationSchema,
    /// Whether the schema is a Federation 2 schema.
    pub is_fed_2_schema: bool,
    /// The version of the federation specification that the schema links.
    pub federation_version: Version,
    /// The minimum federation version of each feature that the schema links.
    pub feature_versions: Vec<Version>,
    /// The object types that carry `@interfaceObject`.
    pub interface_object_types: Vec<String>,
    /// The fields that a federation directive or an interface needs.
    pub used_fields: Vec<FieldDefinitionPosition>,
    /// The fields that are external.
    pub external_fields: Vec<FieldDefinitionPosition>,
    /// The types that come from a linked specification.
    pub type_links: Vec<TypeLink>,
    /// The name that `@override` has in the schema.
    pub override_directive_name: Option<String>,
    /// The name that `@fromContext` has in the schema.
    pub from_context_directive_name: Option<String>,
    /// The imported elements and the URL of the feature of each.
    pub imports: Vec<(String, String)>,
}

/// The specification that the first link of the type names.
pub open spec fn link_of_type(links: Seq<TypeLink>, name: Seq<char>) -> Option<Identity>
    decreases links.len(),
{
    if links.len() == 0 {
        None
    } else if links[0].typename@ == name {
        Some(links[0].identity)
    } else {
        link_of_type(links.skip(1), name)
    }
}

impl Subgraph {
    /// Whether the type is an object type that carries `@interfaceObject`.
    pub open spec fn has_interface_object(&self, name: Seq<char>, kind: TypeKind) -> bool {
        kind == TypeKind::Object && texts(self.interface_object_types@).contains(name)
    }

    /// Whether a federation directive or an interface needs the field.
    pub open spec fn uses_field(&self, place: FieldPlace) -> bool {
        field_places(self.used_fields@).contains(place)
    }

    /// Whether the field is external.
    pub open spec fn has_external_field(&self, place: FieldPlace) -> bool {
        field_places(self.external_fields@).contains(place)
    }

    /// Whether the type is an object type that carries `@interfaceObject`.
    pub fn is_interface_object_type(&self, name: &str, kind: TypeKind) -> (found: bool)
        ensures
            found == self.has_interface_object(name@, kind),
    {
        kind == TypeKind::Object && contains_text(&self.interface_object_types, name)
    }

    /// Whether a federation directive or an interface needs the field.
    pub fn is_field_used(&self, position: &FieldDefinitionPosition) -> (used: bool)
        ensures
            used == self.uses_field(position@),
    {
        contains_field_position(&self.used_fields, position)
    }

    /// Whether the field is external.
    pub fn is_field_external(&self, position: &FieldDefinitionPosition) -> (external: bool)
        ensures
            external == self.has_external_field(position@),
    {
        contains_field_position(&self.external_fields, position)
    }

    /// The specification that a type comes from, if it comes from one.
    pub fn source_link_of_type(&self, name: &str) -> (found: Option<&Identity>)
        ensures
            match found {
                Some(identity) => link_of_type(self.type_links@, name@) == Some(*identity),
                None => link_of_type(self.type_links@, name@) is None,
            },
    {
        let mut i: usize = 0;
        assert(self.type_links@.skip(0) =~= self.type_links@);
        while i < self.type_links.len()
            invariant
                i <= self.type_links.len(),
                link_of_type(self.type_links@, name@) == link_of_type(
                    self.type_links@.skip(i as int),
                    name@,
                ),
            decreases self.type_links.len() - i,
        {
            assert(self.type_links@.skip(i as int).skip(1) =~= self.type_links@.skip(i + 1));
            if same_text(self.type_links[i].typename.as_str(), name) {
                return Some(&self.type_links[i].identity);
            }
            i += 1;
        }
        None
    }
}

/// The elements that a directive is applied to in a subgraph, where it has the directive.
pub open spec fn elements_with(subgraph: Subgraph, directive: Option<String>) -> Seq<Target> {
    match directive {
        Some(name) => referencers(applications(subgraph.schema.applied_directives@), name@),
        None => Seq::empty(),
    }
}

/// The elements that `@override` is applied to in some subgraph, each once.
pub open spec fn elements_with_override(subgraphs: Seq<Subgraph>) -> Seq<Target>
    decreases subgraphs.len(),
{
    if subgraphs.len() == 0 {
        Seq::empty()
    } else {
        with_all_distinct(
            elements_with_override(subgraphs.drop_last()),
            elements_with(subgraphs.last(), subgraphs.last().override_directive_name),
        )
    }
}

/// The elements that `@fromContext` is applied to in some subgraph, each once.
pub open spec fn elements_with_from_context(subgraphs: Seq<Subgraph>) -> Seq<Target>
    decreases subgraphs.len(),
{
    if subgraphs.len() == 0 {
        Seq::empty()
    } else {
        with_all_distinct(
            elements_with_from_context(subgraphs.drop_last()),
            elements_with(subgraphs.last(), subgraphs.last().from_context_directive_name),
        )
    }
}

/// Lists the elements that a directive is applied to in a subgraph.
fn list_elements_with(subgraph: &Subgraph, directive: &Option<String>) -> (list: Vec<
    DirectiveTargetPosition,
>)
    ensures
        targets(list@) == elements_with(*subgraph, *directive),
{
    match directive {
        Some(name) => list_referencers(&subgraph.schema.applied_directives, name.as_str()),
        None => {
            let list: Vec<DirectiveTargetPosition> = Vec::new();
            assert(targets(list@) =~= Seq::<Target>::empty());
            list
        },
    }
}

/// Lists the elements that `@fromContext` is applied to in some subgraph.
pub fn get_fields_with_from_context_directive(subgraphs: &Vec<Subgraph>) -> (list: Vec<
    DirectiveTargetPosition,
>)
    ensures
        targets(list@) == elements_with_from_context(subgraphs@),
{
    let mut list: Vec<DirectiveTargetPosition> = Vec::new();
    let mut i: usize = 0;
    assert(targets(list@) =~= Seq::<Target>::empty());
    assert(subgraphs@.take(0) =~= Seq::<Subgraph>::empty());
    while i < subgraphs.len()
        invariant
            i <= subgraphs.len(),
            targets(list@) == elements_with_from_context(subgraphs@.take(i as int)),
        decreases subgraphs.len() - i,
    {
        assert(subgraphs@.take(i + 1).drop_last() =~= subgraphs@.take(i as int));
        let added = list_elements_with(&subgraphs[i], &subgraphs[i].from_context_directive_name);
        extend_targets(&mut list, &added);
        i += 1;
    }
    assert(subgraphs@.take(subgraphs.len() as int) =~= subgraphs@);
    list
}

/// Lists the elements that `@override` is applied to in some subgraph.
pub fn get_fields_with_override_directive(subgraphs: &Vec<Subgraph>) -> (list: Vec<
    DirectiveTargetPosition,
>)
    ensures
        targets(list@) == elements_with_override(subgraphs@),
{
    let mut list: Vec<DirectiveTargetPosition> = Vec::new();
    let mut i: usize = 0;
    assert(targets(list@) =~= Seq::<Target>::empty());
    assert(subgraphs@.take(0) =~= Seq::<Subgraph>::empty());
    while i < subgraphs.len()
        invariant
            i <= subgraphs.len(),
            targets(list@) == elements_with_override(subgraphs@.take(i as int)),
        decreases subgraphs.len() - i,
    {
        assert(subgraphs@.take(i + 1).drop_last() =~= subgraphs@.take(i as int));
        let added = list_elements_with(&subgraphs[i], &subgraphs[i].override_directive_name);
        extend_targets(&mut list, &added);
        i += 1;
    }
    assert(subgraphs@.take(subgraphs.len() as int) =~= subgraphs@);
    list
}

/// Where the first subgraph with the name stands.
pub open spec fn subgraph_named(subgraphs: Seq<Subgraph>, name: Seq<char>) -> Option<int>
    decreases subgraphs.len(),
{
    if subgraphs.len() == 0 {
        None
    } else {
        match subgraph_named(subgraphs.drop_last(), name) {
            Some(i) => Some(i),
            None => if subgraphs.last().name@ == name {
                Some(subgraphs.len() - 1)
            } else {
                None
            },
        }
    }
}

/// Finds the first subgraph with the name.
pub fn find_subgraph(subgraphs: &Vec<Subgraph>, name: &str) -> (found: Option<usize>)
    ensures
        match found {
            Some(i) => i < subgraphs.len() && subgraph_named(subgraphs@, name@) == Some(i as int)
                && subgraphs@[i as int].name@ == name@,
            None => subgraph_named(subgraphs@, name@) is None,
        },
{
    let mut i: usize = 0;
    let mut found: Option<usize> = None;
    assert(subgraphs@.take(0) =~= Seq::<Subgraph>::empty());
    while i < subgraphs.len()
        invariant
            i <= subgraphs.len(),
            match found {
                Some(k) => k < i && subgraph_named(subgraphs@.take(i as int), name@) == Some(
                    k as int,
                ) && subgraphs@[k as int].name@ == name@,
                None => subgraph_named(subgraphs@.take(i as int), name@) is None,
            },
        decreases subgraphs.len() - i,
    {
        assert(subgraphs@.take(i + 1).drop_last() =~= subgraphs@.take(i as int));
        if found.is_none() && same_text(subgraphs[i].name.as_str(), name) {
            found = Some(i);
        }
        i += 1;
    }
    assert(subgraphs@.take(subgraphs.len() as int) =~= subgraphs@);
    found
}

} // verus!
