//! What holds of the lookup of fields, of the shallow passes and of the merge of directives.

use crate::applications::{counted, different, law_different_items};
use crate::ast::{DefinitionShape, DirectiveShape, FieldDefinition, TypeShape, ValueShape};
use crate::composition::{
    is_reported, is_result_of, is_set_up, subgraph_names_of, KnownSpecs, Preparation,
};
use crate::enum_usage::EnumTypeUsage;
use crate::merge_directives::{carried_out, plan, DirectivePlan, DirectiveState};
use crate::merger::{
    field_lookup_key, place_in, with_fields, with_subgraphs, with_type, with_types,
    ComposedDirective, CompositionOptions, Known, MergeResult, Merger,
};
use crate::override_laws::law_pass_only_adds;
use crate::override_pass::declared_fields;
use crate::report::{CompositionError, CompositionHint, Report};
use crate::schema::{
    fields_of, targets, FederationSchema, FieldPlace, Target, TypeDefinition, TypeKind, TypePosition,
};
use crate::shallow::{
    definition_positions, defines, is_interface_somewhere, kind_of, merges_definition, merges_type,
    report_interface_objects, report_mismatched, report_shallow_types, shallow_types,
    with_definitions, with_shallow_type, with_shallow_types, ShallowTypes,
};
use crate::subgraph::Subgraph;
use crate::text::texts;
use vstd::prelude::*;

verus! {

/// Whether the text has none of the characters of the type notation.
pub open spec fn is_plain_name(name: Seq<char>) -> bool {
    forall|i: int|
        0 <= i < name.len() ==> (#[trigger] name[i]) != ':' && name[i] != '!' && name[i] != '['
            && name[i] != ']'
}

/// Whether a notation tells which of the four kinds of type reference it writes.
proof fn lemma_notation_kind(ty: TypeShape)
    requires
        is_plain_name(ty.inner_name()),
    ensures
        ({
            let text = ty.notation();
            let has_bracket = text.len() > 0 && text[0] == '[';
            let has_mark = text.len() > 0 && text.last() == '!';
            match ty {
                TypeShape::Named(_) => !has_bracket && !has_mark,
                TypeShape::NonNullNamed(_) => !has_bracket && has_mark,
                TypeShape::List(_) => has_bracket && !has_mark,
                TypeShape::NonNullList(_) => has_bracket && has_mark,
            }
        }),
{
    reveal_strlit("!");
    reveal_strlit("[");
    reveal_strlit("]");
    reveal_strlit("]!");
}

/// Two type references with the same notation are the same.
proof fn lemma_notation_is_unique(a: TypeShape, b: TypeShape)
    requires
        is_plain_name(a.inner_name()),
        is_plain_name(b.inner_name()),
        a.notation() == b.notation(),
    ensures
        a == b,
    decreases a,
{
    reveal_strlit("!");
    reveal_strlit("[");
    reveal_strlit("]");
    reveal_strlit("]!");
    lemma_notation_kind(a);
    lemma_notation_kind(b);
    match (a, b) {
        (TypeShape::NonNullNamed(x), TypeShape::NonNullNamed(y)) => {
            assert(x =~= a.notation().drop_last());
            assert(y =~= b.notation().drop_last());
        },
        (TypeShape::List(x), TypeShape::List(y)) => {
            assert(x.notation() =~= a.notation().subrange(1, a.notation().len() - 1));
            assert(y.notation() =~= b.notation().subrange(1, b.notation().len() - 1));
            lemma_notation_is_unique(*x, *y);
        },
        (TypeShape::NonNullList(x), TypeShape::NonNullList(y)) => {
            assert(x.notation() =~= a.notation().subrange(1, a.notation().len() - 2));
            assert(y.notation() =~= b.notation().subrange(1, b.notation().len() - 2));
            lemma_notation_is_unique(*x, *y);
        },
        _ => {},
    }
}

/// The lookup key of a field identifies its name and its type. Left out are names with characters
/// that the notation itself uses, which no GraphQL name has.
pub proof fn law_lookup_key_is_unique(
    name: Seq<char>,
    ty: TypeShape,
    other_name: Seq<char>,
    other_ty: TypeShape,
)
    requires
        is_plain_name(name),
        is_plain_name(other_name),
        is_plain_name(ty.inner_name()),
        is_plain_name(other_ty.inner_name()),
        field_lookup_key(name, ty) == field_lookup_key(other_name, other_ty),
    ensures
        name == other_name,
        ty == other_ty,
{
    reveal_strlit(":");
    let key = field_lookup_key(name, ty);
    let other = field_lookup_key(other_name, other_ty);
    assert(key[name.len() as int] == ':');
    assert(other[other_name.len() as int] == ':');
    if name.len() < other_name.len() {
        assert(other_name[name.len() as int] == other[name.len() as int]);
    }
    if other_name.len() < name.len() {
        assert(name[other_name.len() as int] == key[other_name.len() as int]);
    }
    assert(name =~= key.take(name.len() as int));
    assert(other_name =~= other.take(name.len() as int));
    assert(ty.notation() =~= key.skip(name.len() as int + 1));
    assert(other_ty.notation() =~= other.skip(name.len() as int + 1));
    lemma_notation_is_unique(ty, other_ty);
}

/// Whether a type declares a field with the key at the place.
pub open spec fn type_declares(ty: TypeDefinition, key: Seq<char>, place: FieldPlace) -> bool {
    exists|f: int|
        0 <= f < fields_of(ty).len() && key == field_lookup_key(
            (#[trigger] fields_of(ty)[f]).name@,
            fields_of(ty)[f].ty@,
        ) && place == place_in(ty.definition is Object, ty.name@, fields_of(ty)[f].name@)
}

/// Whether one of some types declares a field with the key at the place.
pub open spec fn types_declare(types: Seq<TypeDefinition>, key: Seq<char>, place: FieldPlace) -> bool {
    exists|t: int| 0 <= t < types.len() && type_declares(#[trigger] types[t], key, place)
}

/// Whether one of some subgraphs declares a field with the key at the place.
pub open spec fn is_declared(subgraphs: Seq<Subgraph>, key: Seq<char>, place: FieldPlace) -> bool {
    exists|s: int|
        0 <= s < subgraphs.len() && types_declare(
            (#[trigger] subgraphs[s]).schema.types@,
            key,
            place,
        )
}

proof fn lemma_with_fields(
    lookup: Map<Seq<char>, FieldPlace>,
    ty: TypeDefinition,
    fields: Seq<FieldDefinition>,
    key: Seq<char>,
)
    requires
        fields.is_prefix_of(fields_of(ty)),
    ensures
        ({
            let after = with_fields(lookup, ty.definition is Object, ty.name@, fields);
            &&& lookup.contains_key(key) ==> after.contains_key(key)
            &&& forall|f: int|
                0 <= f < fields.len() ==> after.contains_key(
                    field_lookup_key((#[trigger] fields[f]).name@, fields[f].ty@),
                )
            &&& after.contains_key(key) ==> type_declares(ty, key, after[key]) || (
            lookup.contains_key(key) && after[key] == lookup[key])
        }),
    decreases fields.len(),
{
    if fields.len() > 0 {
        let rest = fields.drop_last();
        let last = fields.len() - 1;
        lemma_with_fields(lookup, ty, rest, key);
        assert(fields_of(ty)[last] == fields[last]);
        let before = with_fields(lookup, ty.definition is Object, ty.name@, rest);
        let after = with_fields(lookup, ty.definition is Object, ty.name@, fields);
        assert forall|f: int| 0 <= f < fields.len() implies after.contains_key(
            field_lookup_key((#[trigger] fields[f]).name@, fields[f].ty@),
        ) by {
            if f < last {
                assert(rest[f] == fields[f]);
                lemma_with_fields(lookup, ty, rest, field_lookup_key(rest[f].name@, rest[f].ty@));
            }
        }
    }
}

proof fn lemma_with_type(lookup: Map<Seq<char>, FieldPlace>, ty: TypeDefinition, key: Seq<char>)
    ensures
        ({
            let after = with_type(lookup, ty);
            &&& lookup.contains_key(key) ==> after.contains_key(key)
            &&& forall|f: int|
                0 <= f < fields_of(ty).len() ==> after.contains_key(
                    field_lookup_key((#[trigger] fields_of(ty)[f]).name@, fields_of(ty)[f].ty@),
                )
            &&& after.contains_key(key) ==> type_declares(ty, key, after[key]) || (
            lookup.contains_key(key) && after[key] == lookup[key])
        }),
{
    lemma_with_fields(lookup, ty, fields_of(ty), key);
}

proof fn lemma_with_types(
    lookup: Map<Seq<char>, FieldPlace>,
    types: Seq<TypeDefinition>,
    key: Seq<char>,
)
    ensures
        ({
            let after = with_types(lookup, types);
            &&& lookup.contains_key(key) ==> after.contains_key(key)
            &&& after.contains_key(key) ==> types_declare(types, key, after[key]) || (
            lookup.contains_key(key) && after[key] == lookup[key])
        }),
    decreases types.len(),
{
    if types.len() > 0 {
        let rest = types.drop_last();
        lemma_with_types(lookup, rest, key);
        lemma_with_type(with_types(lookup, rest), types.last(), key);
        let before = with_types(lookup, rest);
        let after = with_types(lookup, types);
        if after.contains_key(key) {
            if type_declares(types.last(), key, after[key]) {
                assert(types[types.len() - 1] == types.last());
            } else if types_declare(rest, key, before[key]) {
                let t = choose|t: int|
                    0 <= t < rest.len() && type_declares(#[trigger] rest[t], key, before[key]);
                assert(types[t] == rest[t]);
            }
        }
    }
}

proof fn lemma_types_are_found(
    lookup: Map<Seq<char>, FieldPlace>,
    types: Seq<TypeDefinition>,
    t: int,
    f: int,
)
    requires
        0 <= t < types.len(),
        0 <= f < fields_of(types[t]).len(),
    ensures
        with_types(lookup, types).contains_key(
            field_lookup_key(fields_of(types[t])[f].name@, fields_of(types[t])[f].ty@),
        ),
    decreases types.len(),
{
    let rest = types.drop_last();
    let key = field_lookup_key(fields_of(types[t])[f].name@, fields_of(types[t])[f].ty@);
    lemma_with_type(with_types(lookup, rest), types.last(), key);
    if t < rest.len() {
        assert(rest[t] == types[t]);
        lemma_types_are_found(lookup, rest, t, f);
    }
}

/// Every field that an object or interface type of a subgraph declares is found in the lookup
/// table, under its key.
pub proof fn law_every_declared_field_is_found(
    subgraphs: Seq<Subgraph>,
    s: int,
    t: int,
    f: int,
)
    requires
        0 <= s < subgraphs.len(),
        0 <= t < subgraphs[s].schema.types@.len(),
        0 <= f < fields_of(subgraphs[s].schema.types@[t]).len(),
    ensures
        ({
            let field = fields_of(subgraphs[s].schema.types@[t])[f];
            with_subgraphs(Map::empty(), subgraphs).contains_key(
                field_lookup_key(field.name@, field.ty@),
            )
        }),
    decreases subgraphs.len(),
{
    let rest = subgraphs.drop_last();
    let field = fields_of(subgraphs[s].schema.types@[t])[f];
    let before = with_subgraphs(Map::empty(), rest);
    if s < rest.len() {
        assert(rest[s] == subgraphs[s]);
        law_every_declared_field_is_found(rest, s, t, f);
        lemma_with_types(
            before,
            subgraphs.last().schema.types@,
            field_lookup_key(field.name@, field.ty@),
        );
    } else {
        lemma_types_are_found(before, subgraphs.last().schema.types@, t, f);
    }
}

/// Every entry of the lookup table is a field that a subgraph declares.
pub proof fn law_lookup_finds_declared_fields(subgraphs: Seq<Subgraph>, key: Seq<char>)
    requires
        with_subgraphs(Map::empty(), subgraphs).contains_key(key),
    ensures
        is_declared(subgraphs, key, with_subgraphs(Map::empty(), subgraphs)[key]),
    decreases subgraphs.len(),
{
    if subgraphs.len() > 0 {
        let rest = subgraphs.drop_last();
        let before = with_subgraphs(Map::empty(), rest);
        let after = with_subgraphs(Map::empty(), subgraphs);
        lemma_with_types(before, subgraphs.last().schema.types@, key);
        if types_declare(subgraphs.last().schema.types@, key, after[key]) {
            assert(types_declare(
                subgraphs[subgraphs.len() - 1].schema.types@,
                key,
                after[key],
            ));
        } else {
            law_lookup_finds_declared_fields(rest, key);
            let s = choose|s: int|
                0 <= s < rest.len() && types_declare(
                    (#[trigger] rest[s]).schema.types@,
                    key,
                    before[key],
                );
            assert(types_declare(subgraphs[s].schema.types@, key, after[key]));
        }
    }
}

/// Whether the names of the fields of some subgraphs and of their types are plain.
pub open spec fn have_plain_names(subgraphs: Seq<Subgraph>) -> bool {
    forall|s: int, t: int, f: int|
        0 <= s < subgraphs.len() && 0 <= t < subgraphs[s].schema.types@.len() && 0 <= f
            < fields_of(subgraphs[s].schema.types@[t]).len() ==> is_plain_name(
            (#[trigger] fields_of(subgraphs[s].schema.types@[t])[f]).name@,
        ) && is_plain_name(fields_of(subgraphs[s].schema.types@[t])[f].ty@.inner_name())
}

/// Whether a subgraph has a field of the name and the type at the place.
pub open spec fn has_field_at(
    subgraphs: Seq<Subgraph>,
    place: FieldPlace,
    name: Seq<char>,
    field_type: TypeShape,
) -> bool {
    exists|s: int, t: int, f: int|
        0 <= s < subgraphs.len() && 0 <= t < subgraphs[s].schema.types@.len() && 0 <= f
            < fields_of(subgraphs[s].schema.types@[t]).len() && {
            let ty = subgraphs[s].schema.types@[t];
            let field = #[trigger] fields_of(subgraphs[s].schema.types@[t])[f];
            field.name@ == name && field.ty@ == field_type && place == place_in(
                ty.definition is Object,
                ty.name@,
                name,
            )
        }
}

/// A merger that is set up has the names of its subgraphs and no use of an enum type, and knows
/// the position of every field of an object or interface type of its subgraphs: a position where
/// some subgraph has a field of that name and type. Left out are names with characters that the
/// type notation itself uses, which no GraphQL name has.
pub proof fn law_new_merger_knows_every_field(
    merger: Merger,
    subgraphs: Vec<Subgraph>,
    options: CompositionOptions,
    specs: KnownSpecs,
    preparation: Preparation,
    s: int,
    t: int,
    f: int,
)
    requires
        is_set_up(merger, subgraphs, options, specs, preparation),
        have_plain_names(subgraphs@),
        0 <= s < subgraphs@.len(),
        0 <= t < subgraphs@[s].schema.types@.len(),
        0 <= f < fields_of(subgraphs@[s].schema.types@[t]).len(),
    ensures
        texts(merger.names@) == subgraph_names_of(subgraphs@),
        merger.enum_usages@ == Map::<Seq<char>, EnumTypeUsage>::empty(),
        ({
            let field = fields_of(subgraphs@[s].schema.types@[t])[f];
            merger.known().position_of(field@) matches Some(place) && has_field_at(
                subgraphs@,
                place,
                field.name@,
                field.ty@,
            )
        }),
{
    let field = fields_of(subgraphs@[s].schema.types@[t])[f];
    let key = field_lookup_key(field.name@, field.ty@);
    let lookup = with_subgraphs(Map::empty(), subgraphs@);
    law_every_declared_field_is_found(subgraphs@, s, t, f);
    law_lookup_finds_declared_fields(subgraphs@, key);
    let place = lookup[key];
    let a = choose|a: int|
        0 <= a < subgraphs@.len() && types_declare(
            (#[trigger] subgraphs@[a]).schema.types@,
            key,
            place,
        );
    let types = subgraphs@[a].schema.types@;
    let b = choose|b: int| 0 <= b < types.len() && type_declares(#[trigger] types[b], key, place);
    let c = choose|c: int|
        0 <= c < fields_of(types[b]).len() && key == field_lookup_key(
            (#[trigger] fields_of(types[b])[c]).name@,
            fields_of(types[b])[c].ty@,
        ) && place == place_in(types[b].definition is Object, types[b].name@, fields_of(
            types[b],
        )[c].name@);
    let other = fields_of(subgraphs@[a].schema.types@[b])[c];
    law_lookup_key_is_unique(field.name@, field.ty@, other.name@, other.ty@);
    assert(has_field_at(subgraphs@, place, field.name@, field.ty@));
}

/// A merge gives a supergraph where, and only where, it reports no error, and it only adds to what
/// was reported before.
pub proof fn law_supergraph_without_errors(result: MergeResult, merger: Merger)
    requires
        is_result_of(result, merger),
    ensures
        result.supergraph is Some <==> result.errors@.len() == 0,
        merger.error_reporter@.is_start_of(
            Report {
                errors: result.errors@.map_values(|e: CompositionError| e@),
                hints: result.hints@.map_values(|h: CompositionHint| h@),
            },
        ),
{
    let schema = choose|schema: FederationSchema| #[trigger]
        merger.is_supergraph(schema) && is_reported(
            result,
            merger.merge_report(schema),
            schema,
        );
    let types = definition_positions(merger.merged.types@);
    let shallow = report_shallow_types(merger.error_reporter@, types, merger.subgraphs@);
    law_mismatched_kinds_are_errors(merger.error_reporter@, types, merger.subgraphs@);
    law_pass_only_adds(
        Known { types: schema.types@, ..merger.known() },
        targets(merger.fields_with_override@),
        declared_fields(merger.subgraphs@),
        shallow,
    );
    assert(result.errors@.map_values(|e: CompositionError| e@).len() == result.errors@.len());
}

/// A type that is known stays known, with its kind, when a type is added behind.
proof fn lemma_kind_push(types: Seq<TypePosition>, added: TypePosition, name: Seq<char>)
    ensures
        kind_of(types.push(added), name) == (match kind_of(types, name) {
            Some(kind) => Some(kind),
            None => if added.typename == name {
                Some(added.kind)
            } else {
                None
            },
        }),
    decreases types.len(),
{
    if types.len() == 0 {
        assert(types.push(added).skip(1) =~= Seq::<TypePosition>::empty());
        assert(kind_of(types.push(added).skip(1), name) is None);
    } else {
        assert(types.push(added).skip(1) =~= types.skip(1).push(added));
        lemma_kind_push(types.skip(1), added, name);
    }
}

proof fn lemma_shallow_type(
    state: ShallowTypes,
    subgraph: Subgraph,
    position: TypePosition,
    name: Seq<char>,
)
    ensures
        ({
            let after = with_shallow_type(state, subgraph, position);
            &&& kind_of(state.types, name) is Some ==> kind_of(after.types, name) == kind_of(
                state.types,
                name,
            )
            &&& merges_type(subgraph, position.typename) ==> kind_of(
                after.types,
                position.typename,
            ) is Some
        }),
{
    let kind = if subgraph.has_interface_object(position.typename, position.kind) {
        TypeKind::Interface
    } else {
        position.kind
    };
    let added = TypePosition { typename: position.typename, kind };
    lemma_kind_push(state.types, added, name);
    lemma_kind_push(state.types, added, position.typename);
}

proof fn lemma_shallow_types(
    state: ShallowTypes,
    subgraph: Subgraph,
    positions: Seq<TypePosition>,
    name: Seq<char>,
)
    ensures
        ({
            let after = with_shallow_types(state, subgraph, positions);
            &&& kind_of(state.types, name) is Some ==> kind_of(after.types, name) == kind_of(
                state.types,
                name,
            )
            &&& forall|t: int|
                0 <= t < positions.len() && merges_type(
                    subgraph,
                    (#[trigger] positions[t]).typename,
                ) && positions[t].typename == name ==> kind_of(after.types, name) is Some
        }),
    decreases positions.len(),
{
    if positions.len() > 0 {
        let rest = positions.drop_last();
        let before = with_shallow_types(state, subgraph, rest);
        let after = with_shallow_types(state, subgraph, positions);
        lemma_shallow_types(state, subgraph, rest, name);
        lemma_shallow_type(before, subgraph, positions.last(), name);
        assert forall|t: int|
            0 <= t < positions.len() && merges_type(subgraph, (#[trigger] positions[t]).typename)
                && positions[t].typename == name implies kind_of(after.types, name) is Some by {
            if t < rest.len() {
                assert(rest[t] == positions[t]);
            }
        }
    }
}

/// Every type of a subgraph that belongs into the supergraph is there after the shallow pass, and
/// a type that was there before keeps its kind.
pub proof fn law_every_merged_type_is_in_the_supergraph(
    types: Seq<TypePosition>,
    subgraphs: Seq<Subgraph>,
    s: int,
    t: int,
    known: Seq<char>,
)
    requires
        0 <= s < subgraphs.len(),
        0 <= t < subgraphs[s].schema.types@.len(),
        merges_type(subgraphs[s], subgraphs[s].schema.types@[t].name@),
    ensures
        kind_of(
            shallow_types(types, subgraphs).types,
            subgraphs[s].schema.types@[t].name@,
        ) is Some,
        kind_of(types, known) is Some ==> kind_of(shallow_types(types, subgraphs).types, known)
            == kind_of(types, known),
    decreases subgraphs.len(),
{
    let rest = subgraphs.drop_last();
    let name = subgraphs[s].schema.types@[t].name@;
    let before = shallow_types(types, rest);
    let last = subgraphs.last();
    let positions = definition_positions(last.schema.types@);
    lemma_known_types_stay(types, subgraphs, known);
    lemma_shallow_types(before, last, positions, name);
    if s < rest.len() {
        assert(rest[s] == subgraphs[s]);
        law_every_merged_type_is_in_the_supergraph(types, rest, s, t, known);
    } else {
        assert(positions[t].typename == name);
    }
}

proof fn lemma_known_types_stay(
    types: Seq<TypePosition>,
    subgraphs: Seq<Subgraph>,
    known: Seq<char>,
)
    ensures
        kind_of(types, known) is Some ==> kind_of(shallow_types(types, subgraphs).types, known)
            == kind_of(types, known),
    decreases subgraphs.len(),
{
    if subgraphs.len() > 0 {
        lemma_known_types_stay(types, subgraphs.drop_last(), known);
        lemma_shallow_types(
            shallow_types(types, subgraphs.drop_last()),
            subgraphs.last(),
            definition_positions(subgraphs.last().schema.types@),
            known,
        );
    }
}

/// The pass over the types reports nothing where all kinds agree and each type that carries
/// `@interfaceObject` is an interface in some subgraph.
pub proof fn law_agreeing_types_are_not_reported(
    report: Report,
    types: Seq<TypePosition>,
    subgraphs: Seq<Subgraph>,
)
    requires
        shallow_types(types, subgraphs).mismatched.len() == 0,
        forall|i: int|
            0 <= i < shallow_types(types, subgraphs).interface_objects.len()
                ==> is_interface_somewhere(
                subgraphs,
                (#[trigger] shallow_types(types, subgraphs).interface_objects[i]).typename,
            ),
    ensures
        report_shallow_types(report, types, subgraphs) == report,
{
    let state = shallow_types(types, subgraphs);
    lemma_interfaces_are_not_reported(
        report,
        subgraphs,
        state.mismatched,
        state.interface_objects,
    );
}

proof fn lemma_interfaces_are_not_reported(
    report: Report,
    subgraphs: Seq<Subgraph>,
    mismatched: Seq<TypePosition>,
    interface_objects: Seq<TypePosition>,
)
    requires
        forall|i: int|
            0 <= i < interface_objects.len() ==> is_interface_somewhere(
                subgraphs,
                (#[trigger] interface_objects[i]).typename,
            ),
    ensures
        report_interface_objects(report, subgraphs, mismatched, interface_objects) == report,
    decreases interface_objects.len(),
{
    if interface_objects.len() > 0 {
        let rest = interface_objects.drop_last();
        assert forall|i: int| 0 <= i < rest.len() implies is_interface_somewhere(
            subgraphs,
            (#[trigger] rest[i]).typename,
        ) by {
            assert(rest[i] == interface_objects[i]);
        }
        lemma_interfaces_are_not_reported(report, subgraphs, mismatched, rest);
        assert(is_interface_somewhere(
            subgraphs,
            interface_objects[interface_objects.len() - 1].typename,
        ));
    }
}

/// Each type whose kind does not agree is an error: where there is one, there is no supergraph.
/// Errors are only added, and hints stay as they were.
pub proof fn law_mismatched_kinds_are_errors(
    report: Report,
    types: Seq<TypePosition>,
    subgraphs: Seq<Subgraph>,
)
    ensures
        report_shallow_types(report, types, subgraphs).errors.len() >= report.errors.len()
            + shallow_types(types, subgraphs).mismatched.len(),
        report.errors.is_prefix_of(report_shallow_types(report, types, subgraphs).errors),
        report_shallow_types(report, types, subgraphs).hints == report.hints,
{
    let state = shallow_types(types, subgraphs);
    lemma_mismatched_count(report, subgraphs, state.mismatched, state.interface_objects);
    lemma_interface_objects_only_add(
        report_mismatched(report, subgraphs, state.mismatched, state.interface_objects),
        subgraphs,
        state.mismatched,
        state.interface_objects,
    );
}

proof fn lemma_mismatched_count(
    report: Report,
    subgraphs: Seq<Subgraph>,
    mismatched: Seq<TypePosition>,
    interface_objects: Seq<TypePosition>,
)
    ensures
        report_mismatched(report, subgraphs, mismatched, interface_objects).errors.len()
            == report.errors.len() + mismatched.len(),
        report.errors.is_prefix_of(
            report_mismatched(report, subgraphs, mismatched, interface_objects).errors,
        ),
        report_mismatched(report, subgraphs, mismatched, interface_objects).hints == report.hints,
    decreases mismatched.len(),
{
    if mismatched.len() > 0 {
        lemma_mismatched_count(report, subgraphs, mismatched.drop_last(), interface_objects);
    }
}

proof fn lemma_interface_objects_only_add(
    report: Report,
    subgraphs: Seq<Subgraph>,
    mismatched: Seq<TypePosition>,
    interface_objects: Seq<TypePosition>,
)
    ensures
        report.errors.is_prefix_of(
            report_interface_objects(report, subgraphs, mismatched, interface_objects).errors,
        ),
        report_interface_objects(report, subgraphs, mismatched, interface_objects).hints
            == report.hints,
    decreases interface_objects.len(),
{
    if interface_objects.len() > 0 {
        lemma_interface_objects_only_add(
            report,
            subgraphs,
            mismatched,
            interface_objects.drop_last(),
        );
    }
}

/// A directive definition of a subgraph that belongs into the supergraph is defined there, by this
/// definition or by an earlier one, and what was defined before stays as it was.
pub proof fn law_merged_definitions_are_defined(
    built_in: Seq<Seq<char>>,
    definitions: Seq<DefinitionShape>,
    composed: Seq<ComposedDirective>,
    subgraph: Seq<char>,
    added: Seq<DefinitionShape>,
    i: int,
)
    requires
        0 <= i < added.len(),
        merges_definition(composed, subgraph, added[i]),
    ensures
        ({
            let after = with_definitions(built_in, definitions, composed, subgraph, added);
            &&& built_in.contains(added[i].name) || defines(after, added[i].name)
            &&& definitions.is_prefix_of(after)
        }),
    decreases added.len(),
{
    lemma_definitions_stay(built_in, definitions, composed, subgraph, added);
    let rest = added.drop_last();
    let before = with_definitions(built_in, definitions, composed, subgraph, rest);
    let after = with_definitions(built_in, definitions, composed, subgraph, added);
    if i < rest.len() {
        assert(rest[i] == added[i]);
        law_merged_definitions_are_defined(built_in, definitions, composed, subgraph, rest, i);
        if defines(before, added[i].name) {
            let k = choose|k: int|
                0 <= k < before.len() && (#[trigger] before[k]).name == added[i].name;
            assert(after[k].name == added[i].name);
        }
    } else if !built_in.contains(added[i].name) && !defines(before, added[i].name) {
        assert(after[after.len() - 1].name == added[i].name);
    }
}

proof fn lemma_definitions_stay(
    built_in: Seq<Seq<char>>,
    definitions: Seq<DefinitionShape>,
    composed: Seq<ComposedDirective>,
    subgraph: Seq<char>,
    added: Seq<DefinitionShape>,
)
    ensures
        definitions.is_prefix_of(
            with_definitions(built_in, definitions, composed, subgraph, added),
        ),
    decreases added.len(),
{
    if added.len() > 0 {
        lemma_definitions_stay(built_in, definitions, composed, subgraph, added.drop_last());
    }
}

/// Where all applications of a directive that is not repeatable are the same, that one is applied,
/// whether arguments could be merged or not.
pub proof fn law_same_applications_merge_to_one(has_merger: bool, given: Seq<DirectiveShape>)
    requires
        given.len() > 0,
        forall|i: int| 0 <= i < given.len() ==> #[trigger] given[i] == given[0],
    ensures
        plan(false, has_merger, given) == DirectivePlan::Only(given[0]),
{
    law_different_items(given);
    let kinds = different(given);
    assert(kinds.contains(given[0])) by {
        assert(given.contains(given[0]));
    }
    assert(kinds.len() == 1) by {
        if kinds.len() > 1 {
            assert(kinds.contains(kinds[0]) && kinds.contains(kinds[1]));
            let a = given.index_of(kinds[0]);
            let b = given.index_of(kinds[1]);
            assert(given[a] == given[0] && given[b] == given[0]);
        }
    }
    assert(kinds[0] == given[0]);
    assert(counted(given)[0].0 == kinds[0]);
}

/// Each different application of a repeatable directive is applied exactly once.
pub proof fn law_repeatable_applications_are_applied_once(
    has_merger: bool,
    given: Seq<DirectiveShape>,
)
    ensures
        plan(true, has_merger, given) matches DirectivePlan::Each(kinds) && kinds.no_duplicates()
            && forall|kind: DirectiveShape| #[trigger]
            kinds.contains(kind) <==> given.contains(kind),
{
    law_different_items(given);
    let kinds = counted(given).map_values(|c: (DirectiveShape, nat)| c.0);
    assert(kinds =~= different(given));
}

/// Merging the applications to an element only adds to what is applied and reported; where it
/// fails, it adds nothing.
pub proof fn law_directives_are_only_added(
    name: Seq<char>,
    definition: DefinitionShape,
    has_merger: bool,
    target: Target,
    has_element: bool,
    by_source: Seq<(usize, Seq<DirectiveShape>)>,
    merged: Result<Seq<Option<ValueShape>>, Seq<char>>,
    strategy: Seq<char>,
    state: DirectiveState,
)
    ensures
        ({
            let (after, failure) = carried_out(
                name,
                definition,
                has_merger,
                target,
                has_element,
                by_source,
                merged,
                strategy,
                state,
            );
            &&& state.applied.is_prefix_of(after.applied)
            &&& state.report.is_start_of(after.report)
            &&& failure is Some ==> after == state
            &&& forall|i: int|
                state.applied.len() <= i < after.applied.len() ==> (
                #[trigger] after.applied[i]).target == target
        }),
{
}

} // verus!
