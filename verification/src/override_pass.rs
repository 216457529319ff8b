//! The pass that validates the uses of `@override` on all fields.

use crate::ast::{FieldDefinition, FieldShape, Node};
use crate::index_map::{IndexedMap, Sources};
use crate::merger::{Known, Merger};
use crate::overrides::field_sources;
use crate::report::Report;
use crate::schema::{
    fields_of, find_field, find_type, lookup_field, targets, ExtendedType, Target, TypeDefinition,
};
use crate::subgraph::Subgraph;
use crate::text::same_text;
use vstd::prelude::*;
use vstd::string::*;

verus! {

/// A field under the name of its type.
pub struct DeclaredField {
    pub typename: Seq<char>,
    pub field: FieldShape,
}

/// A field under the name of its type.
#[derive(Debug)]
pub struct FieldOfType {
    pub typename: String,
    pub field: FieldDefinition,
}

impl View for FieldOfType {
    type V = DeclaredField;

    open spec fn view(&self) -> DeclaredField {
        DeclaredField { typename: self.typename@, field: self.field@ }
    }
}

/// What each field of a list is.
pub open spec fn declared(list: Seq<FieldOfType>) -> Seq<DeclaredField> {
    list.map_values(|f: FieldOfType| f@)
}

/// Whether a list has a field of the name under the name of the type.
pub open spec fn lists_field(
    list: Seq<DeclaredField>,
    typename: Seq<char>,
    field: Seq<char>,
) -> bool {
    exists|i: int|
        0 <= i < list.len() && (#[trigger] list[i]).typename == typename && list[i].field.name
            == field
}

/// A list with the fields of a type that it does not have yet.
pub open spec fn with_new_fields(
    list: Seq<DeclaredField>,
    typename: Seq<char>,
    fields: Seq<FieldDefinition>,
) -> Seq<DeclaredField>
    decreases fields.len(),
{
    if fields.len() == 0 {
        list
    } else {
        let rest = with_new_fields(list, typename, fields.drop_last());
        if lists_field(rest, typename, fields.last().name@) {
            rest
        } else {
            rest.push(DeclaredField { typename, field: fields.last()@ })
        }
    }
}

/// A list with the fields of some types that it does not have yet.
pub open spec fn with_fields_of_types(
    list: Seq<DeclaredField>,
    types: Seq<TypeDefinition>,
) -> Seq<DeclaredField>
    decreases types.len(),
{
    if types.len() == 0 {
        list
    } else {
        with_new_fields(
            with_fields_of_types(list, types.drop_last()),
            types.last().name@,
            fields_of(types.last()),
        )
    }
}

/// The fields of the object and interface types of some subgraphs. Of the fields with the same
/// name under the same name of a type, the first one stands.
pub open spec fn declared_fields(subgraphs: Seq<Subgraph>) -> Seq<DeclaredField>
    decreases subgraphs.len(),
{
    if subgraphs.len() == 0 {
        Seq::empty()
    } else {
        with_fields_of_types(
            declared_fields(subgraphs.drop_last()),
            subgraphs.last().schema.types@,
        )
    }
}

/// The field that a subgraph has in the type.
pub open spec fn field_in(
    subgraph: Subgraph,
    typename: Seq<char>,
    field: Seq<char>,
) -> Option<FieldShape> {
    match find_type(subgraph.schema.types@, typename) {
        Some(ExtendedType::Object(t) | ExtendedType::Interface(t)) => match find_field(
            t.fields@,
            field,
        ) {
            Some(f) => Some(f@),
            None => None,
        },
        _ => None,
    }
}

/// The field that each subgraph has in the type.
pub open spec fn sources_of(
    subgraphs: Seq<Subgraph>,
    typename: Seq<char>,
    field: Seq<char>,
) -> Seq<(usize, Option<FieldShape>)> {
    Seq::new(
        subgraphs.len(),
        |i: int| (i as usize, field_in(subgraphs[i], typename, field)),
    )
}

impl Known {
    /// The report after the overrides of some fields are validated, one field after the other.
    pub open spec fn overrides_reported(
        self,
        overridden: Seq<Target>,
        fields: Seq<DeclaredField>,
        report: Report,
    ) -> Report
        decreases fields.len(),
    {
        if fields.len() == 0 {
            report
        } else {
            let last = fields.last();
            self.validated(
                overridden,
                sources_of(self.subgraphs, last.typename, last.field.name),
                last.field,
                self.overrides_reported(overridden, fields.drop_last(), report),
            ).report
        }
    }
}

/// Whether a list has a field of the name under the name of the type.
fn has_field(list: &Vec<FieldOfType>, typename: &str, field: &str) -> (found: bool)
    ensures
        found == lists_field(declared(list@), typename@, field@),
{
    let ghost all = declared(list@);
    let mut i: usize = 0;
    while i < list.len()
        invariant
            i <= list.len(),
            all == declared(list@),
            forall|j: int|
                0 <= j < i ==> !((#[trigger] all[j]).typename == typename@ && all[j].field.name
                    == field@),
        decreases list.len() - i,
    {
        assert(all[i as int] == list@[i as int]@);
        if same_text(list[i].typename.as_str(), typename) && same_text(
            list[i].field.name.as_str(),
            field,
        ) {
            return true;
        }
        i += 1;
    }
    false
}

/// Adds the fields of a type that a list does not have yet.
fn add_new_fields(list: &mut Vec<FieldOfType>, typename: &String, fields: &Vec<FieldDefinition>)
    ensures
        declared(final(list)@) == with_new_fields(declared(old(list)@), typename@, fields@),
{
    let ghost start = declared(list@);
    let mut i: usize = 0;
    assert(fields@.take(0) =~= Seq::<FieldDefinition>::empty());
    while i < fields.len()
        invariant
            i <= fields.len(),
            declared(list@) == with_new_fields(start, typename@, fields@.take(i as int)),
        decreases fields.len() - i,
    {
        assert(fields@.take(i + 1).drop_last() =~= fields@.take(i as int));
        let ghost before = declared(list@);
        if !has_field(list, typename.as_str(), fields[i].name.as_str()) {
            let added = FieldOfType { typename: typename.clone(), field: fields[i].clone() };
            list.push(added);
            assert(declared(list@) =~= before.push(added@));
        }
        i += 1;
    }
    assert(fields@.take(fields.len() as int) =~= fields@);
}

/// Adds the fields of some types that a list does not have yet.
fn add_fields_of_types(list: &mut Vec<FieldOfType>, types: &Vec<TypeDefinition>)
    ensures
        declared(final(list)@) == with_fields_of_types(declared(old(list)@), types@),
{
    let ghost start = declared(list@);
    let mut i: usize = 0;
    assert(types@.take(0) =~= Seq::<TypeDefinition>::empty());
    while i < types.len()
        invariant
            i <= types.len(),
            declared(list@) == with_fields_of_types(start, types@.take(i as int)),
        decreases types.len() - i,
    {
        assert(types@.take(i + 1).drop_last() =~= types@.take(i as int));
        match &types[i].definition {
            ExtendedType::Object(t) => add_new_fields(list, &types[i].name, &t.fields),
            ExtendedType::Interface(t) => add_new_fields(list, &types[i].name, &t.fields),
            _ => {},
        }
        i += 1;
    }
    assert(types@.take(types.len() as int) =~= types@);
}

/// Lists the fields of the object and interface types of some subgraphs.
pub fn list_declared_fields(subgraphs: &Vec<Subgraph>) -> (list: Vec<FieldOfType>)
    ensures
        declared(list@) == declared_fields(subgraphs@),
{
    let mut list: Vec<FieldOfType> = Vec::new();
    let mut i: usize = 0;
    assert(subgraphs@.take(0) =~= Seq::<Subgraph>::empty());
    assert(declared(list@) =~= Seq::<DeclaredField>::empty());
    while i < subgraphs.len()
        invariant
            i <= subgraphs.len(),
            declared(list@) == declared_fields(subgraphs@.take(i as int)),
        decreases subgraphs.len() - i,
    {
        assert(subgraphs@.take(i + 1).drop_last() =~= subgraphs@.take(i as int));
        add_fields_of_types(&mut list, &subgraphs[i].schema.types);
        i += 1;
    }
    assert(subgraphs@.take(subgraphs.len() as int) =~= subgraphs@);
    list
}

/// Finds the field that a subgraph has in the type.
fn find_field_in<'a>(subgraph: &'a Subgraph, typename: &str, field: &str) -> (found: Option<
    &'a FieldDefinition,
>)
    ensures
        match found {
            Some(f) => field_in(*subgraph, typename@, field@) == Some(f@),
            None => field_in(*subgraph, typename@, field@) is None,
        },
{
    match subgraph.schema.get_type(typename) {
        Some(ExtendedType::Object(t)) => lookup_field(&t.fields, field),
        Some(ExtendedType::Interface(t)) => lookup_field(&t.fields, field),
        _ => None,
    }
}

/// Collects the field that each subgraph has in the type.
fn collect_sources(subgraphs: &Vec<Subgraph>, typename: &str, field: &str) -> (sources: Sources<
    Node<FieldDefinition>,
>)
    ensures
        sources.well_formed(),
        field_sources(sources@) == sources_of(subgraphs@, typename@, field@),
        forall|i: int|
            0 <= i < sources@.len() ==> (#[trigger] sources@[i]).0 < subgraphs@.len(),
{
    let ghost all = sources_of(subgraphs@, typename@, field@);
    let mut sources: Sources<Node<FieldDefinition>> = IndexedMap::new();
    let mut i: usize = 0;
    while i < subgraphs.len()
        invariant
            i <= subgraphs.len(),
            all == sources_of(subgraphs@, typename@, field@),
            sources.well_formed(),
            sources@.len() == i,
            forall|j: int| 0 <= j < i ==> (#[trigger] sources@[j]).0 == j,
            forall|j: int| 0 <= j < i ==> (#[trigger] field_sources(sources@)[j]) == all[j],
        decreases subgraphs.len() - i,
    {
        let source = match find_field_in(&subgraphs[i], typename, field) {
            Some(f) => Some(Node::new(f.clone())),
            None => None,
        };
        let ghost before = sources@;
        sources.insert(i, source);
        assert(sources@ == before.push((i, source)));
        assert forall|j: int| 0 <= j <= i implies (#[trigger] field_sources(sources@)[j])
            == all[j] by {
            if j < i {
                assert(field_sources(before)[j] == all[j]);
            }
        }
        i += 1;
    }
    assert(field_sources(sources@) =~= all);
    sources
}

impl Merger {
    /// Validates the uses of `@override` on every field of the subgraphs, and reports what is
    /// found. The first definition of a field stands for the field of the supergraph.
    pub fn validate_overrides(&mut self)
        requires
            old(self).well_formed(),
        ensures
            final(self).error_reporter@ == old(self).known().overrides_reported(
                targets(old(self).fields_with_override@),
                declared_fields(old(self).subgraphs@),
                old(self).error_reporter@,
            ),
            *final(self) == (Merger { error_reporter: final(self).error_reporter, ..*old(self) }),
    {
        let fields = list_declared_fields(&self.subgraphs);
        let ghost all = declared(fields@);
        let ghost known = self.known();
        let ghost overridden = targets(self.fields_with_override@);
        let mut i: usize = 0;
        assert(all.take(0) =~= Seq::<DeclaredField>::empty());
        while i < fields.len()
            invariant
                i <= fields.len(),
                all == declared(fields@),
                known == old(self).known(),
                overridden == targets(old(self).fields_with_override@),
                old(self).well_formed(),
                self.error_reporter@ == known.overrides_reported(
                    overridden,
                    all.take(i as int),
                    old(self).error_reporter@,
                ),
                *self == (Merger { error_reporter: self.error_reporter, ..*old(self) }),
            decreases fields.len() - i,
        {
            assert(all.take(i + 1).drop_last() =~= all.take(i as int));
            assert(all.take(i + 1).last() == fields@[i as int]@);
            assert(self.known() == known);
            let sources = collect_sources(
                &self.subgraphs,
                fields[i].typename.as_str(),
                fields[i].field.name.as_str(),
            );
            let dest = Node::new(fields[i].field.clone());
            let _ = self.validate_override(&sources, &dest);
            i += 1;
        }
        assert(all.take(fields.len() as int) =~= all);
    }
}

} // verus!
