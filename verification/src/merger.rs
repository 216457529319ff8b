//! The state of a composition, and what can be looked up in it.

use crate::ast::{DirectiveDefinition, FieldDefinition, FieldShape, TypeShape, Type};
use crate::enum_usage::EnumTypeUsage;
use crate::report::{CompositionError, CompositionHint, ErrorReporter};
use crate::schema::{
    DirectiveTargetPosition, ExtendedType, FederationSchema, FieldDefinitionPosition, FieldPlace,
    FieldPosition, TypeDefinition,
};
use crate::subgraph::{Identity, Subgraph};
use crate::text::texts;
use crate::version::Version;
use vstd::hash_map::StringHashMap;
use vstd::hash_set::StringHashSet;
use vstd::prelude::*;
use vstd::string::*;

verus! {

/// Options of a composition.
#[derive(Debug, Default)]
pub struct CompositionOptions {
    /// The number of outstanding subgraph paths to validate at most during satisfiability.
    pub max_validation_subgraph_paths: Option<usize>,
}

/// The outcome of a merge.
#[derive(Debug)]
pub struct MergeResult {
    /// The supergraph; there is none where an error was found.
    pub supergraph: Option<FederationSchema>,
    pub errors: Vec<CompositionError>,
    pub hints: Vec<CompositionHint>,
}

/// How the applications of a directive are merged.
#[derive(Debug)]
pub struct MergedDirectiveInfo {
    /// The definition of the directive in the supergraph.
    pub definition: DirectiveDefinition,
    /// The strategy that merges the values of its arguments, if it has one.
    pub arguments_merger: Option<usize>,
    /// The strategy that transforms the arguments of an application, if it has one.
    pub static_argument_transform: Option<usize>,
}

/// The join specification that a composition uses.
#[derive(Debug, Clone, Copy, PartialEq, Eq, Structural)]
pub struct JoinSpecDefinition {
    pub version: Version,
}

/// The link specification that a composition uses.
#[derive(Debug, Clone, Copy, PartialEq, Eq, Structural)]
pub struct LinkSpecDefinition {
    pub version: Version,
}

/// A directive that a subgraph composes.
#[derive(Debug)]
pub struct ComposedDirective {
    pub subgraph_name: String,
    pub directive_name: String,
}

/// The state of a composition.
pub struct Merger {
    pub subgraphs: Vec<Subgraph>,
    pub options: CompositionOptions,
    pub compose_directive_manager: Vec<ComposedDirective>,
    /// The names of the subgraphs.
    pub names: Vec<String>,
    pub error_reporter: ErrorReporter,
    /// The supergraph as far as it is merged.
    pub merged: FederationSchema,
    pub subgraph_names_to_join_spec_name: StringHashMap<String>,
    pub merged_federation_directive_names: StringHashSet,
    pub merged_federation_directive_in_supergraph_by_directive_name: StringHashMap<
        MergedDirectiveInfo,
    >,
    pub enum_usages: StringHashMap<EnumTypeUsage>,
    /// The elements that `@fromContext` is applied to in some subgraph.
    pub fields_with_from_context: Vec<DirectiveTargetPosition>,
    /// The elements that `@override` is applied to in some subgraph.
    pub fields_with_override: Vec<DirectiveTargetPosition>,
    pub inaccessible_directive_name_in_supergraph: Option<String>,
    /// The feature URL of each element that a subgraph imports.
    pub schema_to_import_to_feature_url: StringHashMap<StringHashMap<String>>,
    pub link_spec_definition: LinkSpecDefinition,
    pub join_directive_identities: Vec<Identity>,
    pub join_spec_definition: JoinSpecDefinition,
    pub latest_federation_version_used: Version,
    /// The position of each field of the subgraphs, under its lookup key.
    pub field_parent_lookup: StringHashMap<FieldDefinitionPosition>,
}

/// The key under which a field is looked up.
pub open spec fn field_lookup_key(name: Seq<char>, ty: TypeShape) -> Seq<char> {
    name + ":"@ + ty.notation()
}

/// What each position of a lookup table is.
pub open spec fn places(lookup: Map<Seq<char>, FieldDefinitionPosition>) -> Map<
    Seq<char>,
    FieldPlace,
> {
    lookup.map_values(|p: FieldDefinitionPosition| p@)
}

/// The position of a field of an object or interface type.
pub open spec fn place_in(in_object: bool, typename: Seq<char>, field: Seq<char>) -> FieldPlace {
    if in_object {
        FieldPlace::Object(typename, field)
    } else {
        FieldPlace::Interface(typename, field)
    }
}

/// The lookup table with the fields of an object or interface type.
pub open spec fn with_fields(
    lookup: Map<Seq<char>, FieldPlace>,
    in_object: bool,
    typename: Seq<char>,
    fields: Seq<FieldDefinition>,
) -> Map<Seq<char>, FieldPlace>
    decreases fields.len(),
{
    if fields.len() == 0 {
        lookup
    } else {
        let field = fields.last();
        with_fields(lookup, in_object, typename, fields.drop_last()).insert(
            field_lookup_key(field.name@, field.ty@),
            place_in(in_object, typename, field.name@),
        )
    }
}

/// The lookup table with the fields of a type, where it has fields.
pub open spec fn with_type(lookup: Map<Seq<char>, FieldPlace>, ty: TypeDefinition) -> Map<
    Seq<char>,
    FieldPlace,
> {
    match ty.definition {
        ExtendedType::Object(t) => with_fields(lookup, true, ty.name@, t.fields@),
        ExtendedType::Interface(t) => with_fields(lookup, false, ty.name@, t.fields@),
        _ => lookup,
    }
}

/// The lookup table with the fields of some types.
pub open spec fn with_types(lookup: Map<Seq<char>, FieldPlace>, types: Seq<TypeDefinition>) -> Map<
    Seq<char>,
    FieldPlace,
>
    decreases types.len(),
{
    if types.len() == 0 {
        lookup
    } else {
        with_type(with_types(lookup, types.drop_last()), types.last())
    }
}

/// The lookup table with the fields of some subgraphs. Of the fields with the same key, the last
/// one stands.
pub open spec fn with_subgraphs(lookup: Map<Seq<char>, FieldPlace>, subgraphs: Seq<Subgraph>) -> Map<
    Seq<char>,
    FieldPlace,
>
    decreases subgraphs.len(),
{
    if subgraphs.len() == 0 {
        lookup
    } else {
        with_types(
            with_subgraphs(lookup, subgraphs.drop_last()),
            subgraphs.last().schema.types@,
        )
    }
}

/// Makes the key under which a field is looked up: its name, a colon and its type.
pub fn make_field_lookup_key(field_name: &str, field_type: &Type) -> (key: String)
    ensures
        key@ == field_lookup_key(field_name@, field_type@),
{
    let ty = field_type.to_notation();
    field_name.to_owned().concat(":").concat(ty.as_str())
}

/// Adds the fields of an object or interface type to a lookup table.
fn add_fields_to_lookup(
    lookup: &mut StringHashMap<FieldDefinitionPosition>,
    in_object: bool,
    typename: &String,
    fields: &Vec<FieldDefinition>,
)
    ensures
        places(final(lookup)@) == with_fields(places(old(lookup)@), in_object, typename@, fields@),
{
    let ghost before = places(lookup@);
    let mut i: usize = 0;
    assert(fields@.take(0) =~= Seq::<FieldDefinition>::empty());
    while i < fields.len()
        invariant
            i <= fields.len(),
            places(lookup@) == with_fields(before, in_object, typename@, fields@.take(i as int)),
        decreases fields.len() - i,
    {
        assert(fields@.take(i + 1).drop_last() =~= fields@.take(i as int));
        let ghost known = places(lookup@);
        let key = make_field_lookup_key(fields[i].name.as_str(), &fields[i].ty);
        let field = FieldPosition {
            typename: typename.clone(),
            field_name: fields[i].name.clone(),
        };
        let position = if in_object {
            FieldDefinitionPosition::Object(field)
        } else {
            FieldDefinitionPosition::Interface(field)
        };
        lookup.insert(key, position);
        assert(places(lookup@) =~= known.insert(key@, position@));
        i += 1;
    }
    assert(fields@.take(fields.len() as int) =~= fields@);
}

/// Adds the fields of some types to a lookup table.
fn add_types_to_lookup(
    lookup: &mut StringHashMap<FieldDefinitionPosition>,
    types: &Vec<TypeDefinition>,
)
    ensures
        places(final(lookup)@) == with_types(places(old(lookup)@), types@),
{
    let ghost before = places(lookup@);
    let mut i: usize = 0;
    assert(types@.take(0) =~= Seq::<TypeDefinition>::empty());
    while i < types.len()
        invariant
            i <= types.len(),
            places(lookup@) == with_types(before, types@.take(i as int)),
        decreases types.len() - i,
    {
        assert(types@.take(i + 1).drop_last() =~= types@.take(i as int));
        match &types[i].definition {
            ExtendedType::Object(t) => add_fields_to_lookup(lookup, true, &types[i].name, &t.fields),
            ExtendedType::Interface(t) => add_fields_to_lookup(
                lookup,
                false,
                &types[i].name,
                &t.fields,
            ),
            _ => {},
        }
        i += 1;
    }
    assert(types@.take(types.len() as int) =~= types@);
}

/// What is known of the subgraphs and the supergraph while they are merged.
pub struct Known {
    pub subgraphs: Seq<Subgraph>,
    /// The names of the subgraphs.
    pub names: Seq<Seq<char>>,
    /// The types of the supergraph.
    pub types: Seq<TypeDefinition>,
    /// The position of each field, under its lookup key.
    pub places: Map<Seq<char>, FieldPlace>,
}

impl Known {
    /// The position of a field, if it is known.
    pub open spec fn position_of(self, field: FieldShape) -> Option<FieldPlace> {
        let key = field_lookup_key(field.name, field.ty);
        if self.places.contains_key(key) {
            Some(self.places[key])
        } else {
            None
        }
    }
}

impl Merger {
    /// Whether the names are as many as the subgraphs.
    pub open spec fn well_formed(&self) -> bool {
        self.names@.len() == self.subgraphs@.len()
    }

    /// What is known of the subgraphs and the supergraph.
    pub open spec fn known(&self) -> Known {
        Known {
            subgraphs: self.subgraphs@,
            names: texts(self.names@),
            types: self.merged.types@,
            places: places(self.field_parent_lookup@),
        }
    }

    /// Adds the fields of all subgraphs to the lookup table.
    pub fn build_field_parent_lookup(&mut self)
        ensures
            places(final(self).field_parent_lookup@) == with_subgraphs(
                places(old(self).field_parent_lookup@),
                old(self).subgraphs@,
            ),
            *final(self) == (Merger {
                field_parent_lookup: final(self).field_parent_lookup,
                ..*old(self)
            }),
    {
        let ghost before = places(self.field_parent_lookup@);
        let mut i: usize = 0;
        assert(self.subgraphs@.take(0) =~= Seq::<Subgraph>::empty());
        while i < self.subgraphs.len()
            invariant
                i <= self.subgraphs.len(),
                places(self.field_parent_lookup@) == with_subgraphs(
                    before,
                    self.subgraphs@.take(i as int),
                ),
                *self == (Merger { field_parent_lookup: self.field_parent_lookup, ..*old(self) }),
            decreases self.subgraphs.len() - i,
        {
            assert(self.subgraphs@.take(i + 1).drop_last() =~= self.subgraphs@.take(i as int));
            add_types_to_lookup(&mut self.field_parent_lookup, &self.subgraphs[i].schema.types);
            i += 1;
        }
        assert(self.subgraphs@.take(self.subgraphs.len() as int) =~= self.subgraphs@);
    }

    /// Finds the position of a field.
    pub fn get_field_position(&self, field: &FieldDefinition) -> (found: Option<
        &FieldDefinitionPosition,
    >)
        ensures
            match found {
                Some(position) => self.known().position_of(field@) == Some(position@),
                None => self.known().position_of(field@) is None,
            },
    {
        let key = make_field_lookup_key(field.name.as_str(), &field.ty);
        self.field_parent_lookup.get(key.as_str())
    }
}

} // verus!
