//! What holds of the fields by which a subgraph abstracts a field of a type that it does not have.

use crate::ast::FieldShape;
use crate::lookup_laws::{
    has_no_type, is_first_field, is_first_type, law_first_field_is_found, law_first_type_is_found,
};
use crate::merger::Known;
use crate::overrides::{abstracting_field, abstracting_fields, parent_names};
use crate::schema::{fields_of, ExtendedType, FieldPlace, TypeDefinition};
use crate::text::texts;
use vstd::prelude::*;

verus! {

/// Whether the interface at the place in the supergraph has the field, and the object type of its
/// name in the source has it too, at the place.
pub open spec fn abstracts_by(
    types: Seq<TypeDefinition>,
    source_types: Seq<TypeDefinition>,
    interface: Seq<char>,
    field: Seq<char>,
    found: FieldShape,
) -> bool {
    exists|t: int, s: int, f: int, g: int|
        #![trigger is_first_type(types, t, interface), is_first_type(source_types, s, interface), is_first_field(fields_of(types[t]), f, field), is_first_field(fields_of(source_types[s]), g, field)]
        {
            &&& is_first_type(types, t, interface)
            &&& types[t].definition is Interface
            &&& is_first_type(source_types, s, interface)
            &&& source_types[s].definition is Object
            &&& is_first_field(fields_of(types[t]), f, field)
            &&& is_first_field(fields_of(source_types[s]), g, field)
            &&& found == fields_of(source_types[s])[g]@
        }
}

proof fn lemma_abstracting_field(
    types: Seq<TypeDefinition>,
    source_types: Seq<TypeDefinition>,
    interface: Seq<char>,
    field: Seq<char>,
    found: FieldShape,
)
    ensures
        abstracting_field(types, source_types, interface, field) == Some(found) <==> abstracts_by(
            types,
            source_types,
            interface,
            field,
            found,
        ),
{
    law_first_type_is_found(types, interface);
    law_first_type_is_found(source_types, interface);
    if abstracting_field(types, source_types, interface, field) == Some(found) {
        let t = choose|t: int| #[trigger] is_first_type(types, t, interface);
        let s = choose|s: int| #[trigger] is_first_type(source_types, s, interface);
        let ty = types[t];
        let source_ty = source_types[s];
        law_first_field_is_found(fields_of(ty), field);
        law_first_field_is_found(fields_of(source_ty), field);
        let f = choose|f: int| #[trigger] is_first_field(fields_of(ty), f, field);
        let g = choose|g: int| #[trigger] is_first_field(fields_of(source_ty), g, field);
        let first = fields_of(source_ty)[g];
        assert(found == first@);
        assert(is_first_type(types, t, interface) && is_first_type(source_types, s, interface)
            && is_first_field(fields_of(types[t]), f, field) && is_first_field(
            fields_of(source_types[s]),
            g,
            field,
        ));
    }
    if abstracts_by(types, source_types, interface, field, found) {
        let (t, s, f, g) = choose|t: int, s: int, f: int, g: int|
            #![trigger is_first_type(types, t, interface), is_first_type(source_types, s, interface), is_first_field(fields_of(types[t]), f, field), is_first_field(fields_of(source_types[s]), g, field)]
            {
                &&& is_first_type(types, t, interface)
                &&& types[t].definition is Interface
                &&& is_first_type(source_types, s, interface)
                &&& source_types[s].definition is Object
                &&& is_first_field(fields_of(types[t]), f, field)
                &&& is_first_field(fields_of(source_types[s]), g, field)
                &&& found == fields_of(source_types[s])[g]@
            };
        let ty = types[t];
        let source_ty = source_types[s];
        law_first_field_is_found(fields_of(ty), field);
        law_first_field_is_found(fields_of(source_ty), field);
        let own = fields_of(ty)[f];
        let first = fields_of(source_ty)[g];
    }
}

proof fn lemma_abstracting_fields(
    types: Seq<TypeDefinition>,
    source_types: Seq<TypeDefinition>,
    interfaces: Seq<Seq<char>>,
    field: Seq<char>,
    found: FieldShape,
)
    ensures
        abstracting_fields(types, source_types, interfaces, field).contains(found) <==> exists|
            i: int,
        |
            0 <= i < interfaces.len() && abstracts_by(
                types,
                source_types,
                #[trigger] interfaces[i],
                field,
                found,
            ),
    decreases interfaces.len(),
{
    if interfaces.len() > 0 {
        let rest = interfaces.drop_last();
        let last = interfaces.len() - 1;
        let before = abstracting_fields(types, source_types, rest, field);
        let after = abstracting_fields(types, source_types, interfaces, field);
        lemma_abstracting_fields(types, source_types, rest, field, found);
        lemma_abstracting_field(types, source_types, interfaces[last], field, found);
        if before.contains(found) {
            assert(after[before.index_of(found)] == found);
            let i = choose|i: int|
                0 <= i < rest.len() && abstracts_by(
                    types,
                    source_types,
                    #[trigger] rest[i],
                    field,
                    found,
                );
            assert(interfaces[i] == rest[i]);
        }
        if after.contains(found) {
            let at = after.index_of(found);
            if at < before.len() {
                assert(before[at] == found);
            } else {
                assert(abstracts_by(types, source_types, interfaces[last], field, found));
            }
        }
        if exists|i: int|
            0 <= i < interfaces.len() && abstracts_by(
                types,
                source_types,
                #[trigger] interfaces[i],
                field,
                found,
            ) {
            let i = choose|i: int|
                0 <= i < interfaces.len() && abstracts_by(
                    types,
                    source_types,
                    #[trigger] interfaces[i],
                    field,
                    found,
                );
            if i < last {
                assert(rest[i] == interfaces[i]);
                assert(before.contains(found));
            } else {
                assert(after[after.len() - 1] == found);
            }
        }
    }
}

/// A source subgraph abstracts a field of an object type that it does not have by each interface
/// of the type that is an object type with the field in the source, where the supergraph has the
/// interface with the field.
pub proof fn law_fields_that_abstract_a_field(
    known: Known,
    field: FieldShape,
    source: usize,
    parent: Seq<char>,
    t: int,
    found: FieldShape,
)
    requires
        source < known.subgraphs.len(),
        known.position_of(field) matches Some(place) && (place == FieldPlace::Object(
            parent,
            field.name,
        ) || place == FieldPlace::Interface(parent, field.name)),
        has_no_type(known.subgraphs[source as int].schema.types@, parent),
        is_first_type(known.types, t, parent),
    ensures
        match known.types[t].definition {
            ExtendedType::Object(object) => {
                known.abstracting(field, source).contains(found) <==> exists|i: int|
                    0 <= i < object.implements_interfaces@.len() && abstracts_by(
                        known.types,
                        known.subgraphs[source as int].schema.types@,
                        (#[trigger] object.implements_interfaces@[i])@,
                        field.name,
                        found,
                    )
            },
            _ => known.abstracting(field, source).len() == 0,
        },
{
    let source_types = known.subgraphs[source as int].schema.types@;
    law_first_type_is_found(source_types, parent);
    law_first_type_is_found(known.types, parent);
    let ty = known.types[t];
    match ty.definition {
        ExtendedType::Object(object) => {
            let interfaces = texts(object.implements_interfaces@);
            lemma_abstracting_fields(known.types, source_types, interfaces, field.name, found);
            if known.abstracting(field, source).contains(found) {
                let i = choose|i: int|
                    0 <= i < interfaces.len() && abstracts_by(
                        known.types,
                        source_types,
                        #[trigger] interfaces[i],
                        field.name,
                        found,
                    );
                assert(abstracts_by(
                    known.types,
                    source_types,
                    object.implements_interfaces@[i]@,
                    field.name,
                    found,
                ));
            }
            if exists|i: int|
                0 <= i < object.implements_interfaces@.len() && abstracts_by(
                    known.types,
                    source_types,
                    (#[trigger] object.implements_interfaces@[i])@,
                    field.name,
                    found,
                ) {
                let i = choose|i: int|
                    0 <= i < object.implements_interfaces@.len() && abstracts_by(
                        known.types,
                        source_types,
                        (#[trigger] object.implements_interfaces@[i])@,
                        field.name,
                        found,
                    );
                assert(interfaces[i] == object.implements_interfaces@[i]@);
            }
        },
        _ => {},
    }
}

/// A subgraph abstracts no field of a type that it has, nor a field whose type is not known.
pub proof fn law_field_that_is_not_abstracted(known: Known, field: FieldShape, source: usize)
    requires
        source >= known.subgraphs.len() || match known.position_of(field) {
            Some(FieldPlace::Object(parent, _)) => !has_no_type(
                known.subgraphs[source as int].schema.types@,
                parent,
            ) || has_no_type(known.types, parent),
            Some(FieldPlace::Interface(parent, _)) => !has_no_type(
                known.subgraphs[source as int].schema.types@,
                parent,
            ) || has_no_type(known.types, parent),
            Some(FieldPlace::Union(_)) => true,
            None => true,
        },
    ensures
        known.abstracting(field, source).len() == 0,
{
    match known.position_of(field) {
        Some(FieldPlace::Object(parent, _) | FieldPlace::Interface(parent, _)) => {
            if source < known.subgraphs.len() {
                law_first_type_is_found(known.subgraphs[source as int].schema.types@, parent);
                law_first_type_is_found(known.types, parent);
            }
        },
        _ => {},
    }
}

/// The types of the fields of two lists are those of the first followed by those of the second; a
/// field of an object or interface type has that type.
pub proof fn law_types_of_fields(
    known: Known,
    first: Seq<FieldShape>,
    second: Seq<FieldShape>,
    field: FieldShape,
)
    ensures
        parent_names(known, first + second) == parent_names(known, first) + parent_names(
            known,
            second,
        ),
        match known.position_of(field) {
            Some(FieldPlace::Object(typename, _)) => parent_names(known, seq![field]) == seq![
                typename,
            ],
            Some(FieldPlace::Interface(typename, _)) => parent_names(known, seq![field]) == seq![
                typename,
            ],
            Some(FieldPlace::Union(_)) => parent_names(known, seq![field]) == seq!["unknown"@],
            None => parent_names(known, seq![field]) == Seq::<Seq<char>>::empty(),
        },
    decreases second.len(),
{
    reveal_with_fuel(parent_names, 2);
    assert(seq![field].drop_last() =~= Seq::<FieldShape>::empty());
    match known.position_of(field) {
        Some(FieldPlace::Object(typename, _)) => {
            assert(parent_names(known, seq![field]) =~= seq![typename]);
        },
        Some(FieldPlace::Interface(typename, _)) => {
            assert(parent_names(known, seq![field]) =~= seq![typename]);
        },
        Some(FieldPlace::Union(_)) => {
            assert(parent_names(known, seq![field]) =~= seq!["unknown"@]);
        },
        None => {},
    }
    if second.len() == 0 {
        assert(first + second =~= first);
        assert(parent_names(known, first) + parent_names(known, second) =~= parent_names(
            known,
            first,
        ));
    } else {
        assert((first + second).drop_last() =~= first + second.drop_last());
        law_types_of_fields(known, first, second.drop_last(), field);
        assert(parent_names(known, first + second) =~= parent_names(known, first) + parent_names(
            known,
            second,
        ));
    }
}

} // verus!
