//! What holds of the shallow passes, in terms of the subgraphs.

use crate::ast::{DefinitionShape, DirectiveLocation};
use crate::lookup_laws::{
    has_no_type, is_first_type, law_first_link_is_found, law_first_type_is_found,
};
use crate::merger::ComposedDirective;
use crate::report::{ErrorKind, Report};
use crate::schema::{
    find_type, with_distinct, ExtendedType, TypeDefinition, TypeKind, TypePosition,
};
use crate::shallow::{
    definition_positions, definition_shapes, defines, is_composed, is_executable,
    is_interface_somewhere, kind_mismatch, kind_of, kind_texts, merges_definition, merges_type,
    no_interface, report_interface_objects, report_mismatched, report_shallow_types,
    shallow_definitions, shallow_types, subgraphs_with_type, with_definitions, with_shallow_type,
    with_shallow_types, ShallowTypes,
};
use crate::subgraph::{link_of_type, Identity, Subgraph, TypeLink};
use crate::text::texts;
use crate::type_laws::lists_name;
use vstd::prelude::*;

verus! {

/// Whether the types of a specification stay out of the supergraph: those of the federation, link,
/// core and connect specifications do.
pub open spec fn stays_out(identity: Identity) -> bool {
    identity.domain@ == "https://specs.apollographql.org"@ && (identity.name@ == "federation"@
        || identity.name@ == "link"@ || identity.name@ == "core"@ || identity.name@ == "connect"@)
}

/// A type of a subgraph belongs into the supergraph unless its name starts with two underscores or
/// is that of a federation operation type, or its first link is to a specification whose types
/// stay out.
pub proof fn law_types_that_belong_into_the_supergraph(subgraph: Subgraph, name: Seq<char>)
    ensures
        merges_type(subgraph, name) <==> {
            &&& !(name.len() >= 2 && name[0] == '_' && name[1] == '_')
            &&& name != "_Any"@
            &&& name != "_Entity"@
            &&& name != "_Service"@
            &&& forall|l: int|
                0 <= l < subgraph.type_links@.len() && (
                #[trigger] subgraph.type_links@[l]).typename@ == name && (forall|k: int|
                    0 <= k < l ==> (#[trigger] subgraph.type_links@[k]).typename@ != name)
                    ==> !stays_out(subgraph.type_links@[l].identity)
        },
{
    let links = subgraph.type_links@;
    law_first_link_is_found(links, name);
    if link_of_type(links, name) is Some {
        lemma_some_link_is_first(links, name);
        let l = choose|l: int|
            0 <= l < links.len() && (#[trigger] links[l]).typename@ == name && forall|k: int|
                0 <= k < l ==> (#[trigger] links[k]).typename@ != name;
        assert(link_of_type(links, name) == Some(links[l].identity));
    }
}

proof fn lemma_some_link_is_first(links: Seq<TypeLink>, name: Seq<char>)
    requires
        exists|k: int| 0 <= k < links.len() && (#[trigger] links[k]).typename@ == name,
    ensures
        exists|l: int|
            0 <= l < links.len() && (#[trigger] links[l]).typename@ == name && forall|k: int|
                0 <= k < l ==> (#[trigger] links[k]).typename@ != name,
    decreases links.len(),
{
    let rest = links.drop_last();
    if exists|k: int| 0 <= k < rest.len() && (#[trigger] rest[k]).typename@ == name {
        lemma_some_link_is_first(rest, name);
        let l = choose|l: int|
            0 <= l < rest.len() && (#[trigger] rest[l]).typename@ == name && forall|k: int|
                0 <= k < l ==> (#[trigger] rest[k]).typename@ != name;
        assert(links[l].typename@ == name);
        assert forall|k: int| 0 <= k < l implies (#[trigger] links[k]).typename@ != name by {
            assert(rest[k].typename@ != name);
        }
    } else {
        let l = links.len() - 1;
        assert forall|k: int| 0 <= k < l implies (#[trigger] links[k]).typename@ != name by {
            assert(rest[k].typename@ != name);
        }
        let k = choose|k: int| 0 <= k < links.len() && (#[trigger] links[k]).typename@ == name;
        assert(k == l);
    }
}

/// Whether the type at the place in the subgraph belongs into the supergraph.
pub open spec fn has_merged_type(subgraphs: Seq<Subgraph>, s: int, t: int, name: Seq<char>) -> bool {
    &&& 0 <= s < subgraphs.len()
    &&& 0 <= t < subgraphs[s].schema.types@.len()
    &&& subgraphs[s].schema.types@[t].name@ == name
    &&& merges_type(subgraphs[s], name)
}

/// Whether the type is an object type that carries `@interfaceObject` in the subgraph.
pub open spec fn is_interface_object(subgraph: Subgraph, ty: TypeDefinition) -> bool {
    ty.definition is Object && lists_name(subgraph.interface_object_types@, ty.name@)
}

/// The kind that a type of a subgraph has in the supergraph: an object type that carries
/// `@interfaceObject` is an interface there.
pub open spec fn kind_in_supergraph(subgraph: Subgraph, ty: TypeDefinition) -> TypeKind {
    if is_interface_object(subgraph, ty) {
        TypeKind::Interface
    } else {
        ty.definition.spec_kind()
    }
}

/// The kind in the supergraph of the type at the place in the subgraph.
pub open spec fn kind_at(subgraphs: Seq<Subgraph>, s: int, t: int) -> TypeKind {
    kind_in_supergraph(subgraphs[s], subgraphs[s].schema.types@[t])
}

/// Whether the type at the place is the first one with the name.
pub open spec fn is_first_position(types: Seq<TypePosition>, t: int, name: Seq<char>) -> bool {
    &&& 0 <= t < types.len()
    &&& types[t].typename == name
    &&& forall|k: int| 0 <= k < t ==> (#[trigger] types[k]).typename != name
}

/// The kind of a list of types under a name is that of the first with the name; there is none only
/// where none has the name.
pub proof fn law_first_kind_is_found(types: Seq<TypePosition>, name: Seq<char>)
    ensures
        forall|t: int|
            is_first_position(types, t, name) ==> kind_of(types, name) == Some(
                (#[trigger] types[t]).kind,
            ),
        kind_of(types, name) is None <==> forall|k: int|
            0 <= k < types.len() ==> (#[trigger] types[k]).typename != name,
    decreases types.len(),
{
    if types.len() > 0 {
        let rest = types.skip(1);
        law_first_kind_is_found(rest, name);
        assert forall|t: int| is_first_position(types, t, name) implies kind_of(types, name)
            == Some((#[trigger] types[t]).kind) by {
            if t > 0 {
                assert(types[0].typename != name);
                assert(rest[t - 1] == types[t]);
                assert forall|k: int| 0 <= k < t - 1 implies (#[trigger] rest[k]).typename
                    != name by {
                    assert(types[k + 1].typename != name);
                }
                assert(is_first_position(rest, t - 1, name));
            }
        }
        if kind_of(types, name) is None {
            assert forall|k: int| 0 <= k < types.len() implies (#[trigger] types[k]).typename
                != name by {
                if k > 0 {
                    assert(rest[k - 1].typename != name);
                }
            }
        }
        if forall|k: int| 0 <= k < types.len() ==> (#[trigger] types[k]).typename != name {
            assert(types[0].typename != name);
            assert forall|k: int| 0 <= k < rest.len() implies (#[trigger] rest[k]).typename
                != name by {
                assert(types[k + 1].typename != name);
            }
        }
    }
}

proof fn lemma_kind_push(types: Seq<TypePosition>, added: TypePosition, name: Seq<char>)
    ensures
        kind_of(types.push(added), name) == (match kind_of(types, name) {
            Some(kind) => Some(kind),
            None => if added.typename == name {
                Some(added.kind)
            } else {
                None
            },
        }),
    decreases types.len(),
{
    if types.len() == 0 {
        assert(types.push(added).skip(1) =~= Seq::<TypePosition>::empty());
        assert(kind_of(types.push(added).skip(1), name) is None);
    } else {
        assert(types.push(added).skip(1) =~= types.skip(1).push(added));
        lemma_kind_push(types.skip(1), added, name);
    }
}

/// What a type of a subgraph is to the pass: its name, its kind, and whether it carries
/// `@interfaceObject`.
spec fn position_at(subgraph: Subgraph, t: int) -> TypePosition {
    TypePosition {
        typename: subgraph.schema.types@[t].name@,
        kind: subgraph.schema.types@[t].definition.spec_kind(),
    }
}

proof fn lemma_interface_object(subgraph: Subgraph, t: int)
    requires
        0 <= t < subgraph.schema.types@.len(),
    ensures
        subgraph.has_interface_object(
            position_at(subgraph, t).typename,
            position_at(subgraph, t).kind,
        ) == is_interface_object(subgraph, subgraph.schema.types@[t]),
{
    let name = subgraph.schema.types@[t].name@;
    let all = texts(subgraph.interface_object_types@);
    if all.contains(name) {
        assert(subgraph.interface_object_types@[all.index_of(name)]@ == name);
    }
    if lists_name(subgraph.interface_object_types@, name) {
        let i = choose|i: int|
            0 <= i < subgraph.interface_object_types@.len() && (
            #[trigger] subgraph.interface_object_types@[i])@ == name;
        assert(all[i] == name);
    }
}

/// Whether what the pass has come to accounts for the type at the place of a subgraph: the
/// supergraph has a type of its name, of its kind unless it is among the mismatched ones.
spec fn accounts_for(state: ShallowTypes, subgraph: Subgraph, t: int) -> bool {
    let position = position_at(subgraph, t);
    merges_type(subgraph, position.typename) ==> {
        &&& kind_of(state.types, position.typename) is Some
        &&& kind_of(state.types, position.typename) != Some(
            kind_in_supergraph(subgraph, subgraph.schema.types@[t]),
        ) ==> state.mismatched.contains(position)
        &&& is_interface_object(subgraph, subgraph.schema.types@[t])
            ==> state.interface_objects.contains(position)
    }
}

/// Whether one state of the pass goes on from another.
spec fn goes_on(before: ShallowTypes, after: ShallowTypes) -> bool {
    &&& forall|name: Seq<char>| #[trigger]
        kind_of(before.types, name) is Some ==> kind_of(after.types, name) == kind_of(
            before.types,
            name,
        )
    &&& forall|p: TypePosition| #[trigger]
        before.mismatched.contains(p) ==> after.mismatched.contains(p)
    &&& forall|p: TypePosition| #[trigger]
        before.interface_objects.contains(p) ==> after.interface_objects.contains(p)
}

proof fn lemma_goes_on(
    first: ShallowTypes,
    second: ShallowTypes,
    subgraph: Subgraph,
    t: int,
)
    requires
        goes_on(first, second),
        accounts_for(first, subgraph, t),
    ensures
        accounts_for(second, subgraph, t),
{
    let position = position_at(subgraph, t);
    assert(kind_of(first.types, position.typename) is Some ==> kind_of(
        second.types,
        position.typename,
    ) == kind_of(first.types, position.typename));
    if first.mismatched.contains(position) {
        assert(second.mismatched.contains(position));
    }
    if first.interface_objects.contains(position) {
        assert(second.interface_objects.contains(position));
    }
}

proof fn lemma_with_distinct<A>(list: Seq<A>, item: A)
    ensures
        forall|other: A| #[trigger]
            with_distinct(list, item).contains(other) <==> list.contains(other)
                || other == item,
{
    let after = with_distinct(list, item);
    assert forall|other: A| #[trigger] after.contains(other) <==> list.contains(other) || other
        == item by {
        if list.contains(other) {
            assert(after[list.index_of(other)] == other);
        }
        if other == item && !list.contains(item) {
            assert(after[after.len() - 1] == other);
        }
        if after.contains(other) {
            let at = after.index_of(other);
            if at < list.len() {
                assert(list[at] == other);
            }
        }
    }
}

proof fn lemma_step(state: ShallowTypes, subgraph: Subgraph, t: int)
    requires
        0 <= t < subgraph.schema.types@.len(),
    ensures
        goes_on(state, with_shallow_type(state, subgraph, position_at(subgraph, t))),
        accounts_for(
            with_shallow_type(state, subgraph, position_at(subgraph, t)),
            subgraph,
            t,
        ),
{
    let position = position_at(subgraph, t);
    let after = with_shallow_type(state, subgraph, position);
    let kind = kind_in_supergraph(subgraph, subgraph.schema.types@[t]);
    lemma_interface_object(subgraph, t);
    lemma_with_distinct(state.mismatched, position);
    lemma_with_distinct(state.interface_objects, position);
    let added = TypePosition { typename: position.typename, kind };
    assert forall|name: Seq<char>| #[trigger] kind_of(state.types, name) is Some implies kind_of(
        after.types,
        name,
    ) == kind_of(state.types, name) by {
        lemma_kind_push(state.types, added, name);
    }
    lemma_kind_push(state.types, added, position.typename);
}

proof fn lemma_subgraph_pass(state: ShallowTypes, subgraph: Subgraph, count: int)
    requires
        0 <= count <= subgraph.schema.types@.len(),
    ensures
        ({
            let after = with_shallow_types(
                state,
                subgraph,
                definition_positions(subgraph.schema.types@).take(count),
            );
            &&& goes_on(state, after)
            &&& forall|t: int| 0 <= t < count ==> accounts_for(after, subgraph, t)
        }),
    decreases count,
{
    let all = definition_positions(subgraph.schema.types@);
    let after = with_shallow_types(state, subgraph, all.take(count));
    if count == 0 {
        assert(all.take(0) =~= Seq::<TypePosition>::empty());
    } else {
        let before = with_shallow_types(state, subgraph, all.take(count - 1));
        assert(all.take(count).drop_last() =~= all.take(count - 1));
        assert(all.take(count).last() == position_at(subgraph, count - 1));
        lemma_subgraph_pass(state, subgraph, count - 1);
        lemma_step(before, subgraph, count - 1);
        assert forall|t: int| 0 <= t < count implies accounts_for(after, subgraph, t) by {
            if t < count - 1 {
                lemma_goes_on(before, after, subgraph, t);
            }
        }
        assert forall|name: Seq<char>| #[trigger] kind_of(
            state.types,
            name,
        ) is Some implies kind_of(after.types, name) == kind_of(state.types, name) by {
            assert(kind_of(before.types, name) is Some);
        }
        assert forall|p: TypePosition| #[trigger] state.mismatched.contains(
            p,
        ) implies after.mismatched.contains(p) by {
            assert(before.mismatched.contains(p));
        }
        assert forall|p: TypePosition| #[trigger] state.interface_objects.contains(
            p,
        ) implies after.interface_objects.contains(p) by {
            assert(before.interface_objects.contains(p));
        }
    }
}

proof fn lemma_pass(types: Seq<TypePosition>, subgraphs: Seq<Subgraph>)
    ensures
        forall|s: int, t: int|
            0 <= s < subgraphs.len() && 0 <= t < subgraphs[s].schema.types@.len()
                ==> #[trigger] accounts_for(shallow_types(types, subgraphs), subgraphs[s], t),
        forall|name: Seq<char>| #[trigger]
            kind_of(types, name) is Some ==> kind_of(shallow_types(types, subgraphs).types, name)
                == kind_of(types, name),
    decreases subgraphs.len(),
{
    if subgraphs.len() > 0 {
        let rest = subgraphs.drop_last();
        let last = subgraphs.last();
        let before = shallow_types(types, rest);
        let after = shallow_types(types, subgraphs);
        let all = definition_positions(last.schema.types@);
        lemma_pass(types, rest);
        lemma_subgraph_pass(before, last, all.len() as int);
        assert(all.take(all.len() as int) =~= all);
        assert forall|s: int, t: int|
            0 <= s < subgraphs.len() && 0 <= t
                < subgraphs[s].schema.types@.len() implies #[trigger] accounts_for(
            after,
            subgraphs[s],
            t,
        ) by {
            if s < rest.len() {
                assert(rest[s] == subgraphs[s]);
                assert(accounts_for(before, rest[s], t));
                lemma_goes_on(before, after, subgraphs[s], t);
            }
        }
        assert forall|name: Seq<char>| #[trigger] kind_of(
            types,
            name,
        ) is Some implies kind_of(after.types, name) == kind_of(types, name) by {
            assert(kind_of(before.types, name) is Some);
        }
    }
}

proof fn lemma_mismatched_is_reported(
    report: Report,
    subgraphs: Seq<Subgraph>,
    mismatched: Seq<TypePosition>,
    interface_objects: Seq<TypePosition>,
    position: TypePosition,
)
    requires
        mismatched.contains(position),
    ensures
        report_mismatched(report, subgraphs, mismatched, interface_objects).errors.contains(
            kind_mismatch(subgraphs, position, interface_objects),
        ),
    decreases mismatched.len(),
{
    let rest = mismatched.drop_last();
    let before = report_mismatched(report, subgraphs, rest, interface_objects).errors;
    let after = report_mismatched(report, subgraphs, mismatched, interface_objects).errors;
    let at = mismatched.index_of(position);
    if at < rest.len() {
        assert(rest[at] == position);
        lemma_mismatched_is_reported(report, subgraphs, rest, interface_objects, position);
        let error = kind_mismatch(subgraphs, position, interface_objects);
        assert(after[before.index_of(error)] == error);
    } else {
        assert(after[after.len() - 1] == kind_mismatch(subgraphs, position, interface_objects));
    }
}

proof fn lemma_interface_objects_only_add(
    report: Report,
    subgraphs: Seq<Subgraph>,
    mismatched: Seq<TypePosition>,
    interface_objects: Seq<TypePosition>,
)
    ensures
        report.errors.is_prefix_of(
            report_interface_objects(report, subgraphs, mismatched, interface_objects).errors,
        ),
    decreases interface_objects.len(),
{
    if interface_objects.len() > 0 {
        lemma_interface_objects_only_add(
            report,
            subgraphs,
            mismatched,
            interface_objects.drop_last(),
        );
    }
}

/// Whether the report has an error about the mismatched kind of the type.
pub open spec fn reports_mismatch(report: Report, name: Seq<char>) -> bool {
    exists|i: int|
        0 <= i < report.errors.len() && (#[trigger] report.errors[i]).kind
            == ErrorKind::TypeKindMismatch && report.errors[i].message == "Type \""@ + name
            + "\" has mismatched kind: it is defined as "@
}

/// Where two subgraphs define a type of one name with different kinds, an error about the kind of
/// that type is reported. The kind of an object type that carries `@interfaceObject` is taken as
/// interface.
pub proof fn law_different_kinds_are_reported(
    report: Report,
    types: Seq<TypePosition>,
    subgraphs: Seq<Subgraph>,
    name: Seq<char>,
    s: int,
    t: int,
    other_s: int,
    other_t: int,
)
    requires
        has_merged_type(subgraphs, s, t, name),
        has_merged_type(subgraphs, other_s, other_t, name),
        kind_at(subgraphs, s, t) != kind_at(subgraphs, other_s, other_t),
    ensures
        reports_mismatch(report_shallow_types(report, types, subgraphs), name),
{
    lemma_pass(types, subgraphs);
    let state = shallow_types(types, subgraphs);
    assert(accounts_for(state, subgraphs[s], t));
    assert(accounts_for(state, subgraphs[other_s], other_t));
    let position = if kind_of(state.types, name) != Some(kind_at(subgraphs, s, t)) {
        position_at(subgraphs[s], t)
    } else {
        position_at(subgraphs[other_s], other_t)
    };
    lemma_reported(report, types, subgraphs, position);
}

/// A type whose kind is not the one that the supergraph had for its name before is reported.
pub proof fn law_kind_other_than_known_is_reported(
    report: Report,
    types: Seq<TypePosition>,
    subgraphs: Seq<Subgraph>,
    name: Seq<char>,
    s: int,
    t: int,
)
    requires
        has_merged_type(subgraphs, s, t, name),
        kind_of(types, name) is Some,
        kind_of(types, name) != Some(kind_at(subgraphs, s, t)),
    ensures
        reports_mismatch(report_shallow_types(report, types, subgraphs), name),
{
    lemma_pass(types, subgraphs);
    let state = shallow_types(types, subgraphs);
    assert(accounts_for(state, subgraphs[s], t));
    lemma_reported(report, types, subgraphs, position_at(subgraphs[s], t));
}

proof fn lemma_reported(
    report: Report,
    types: Seq<TypePosition>,
    subgraphs: Seq<Subgraph>,
    position: TypePosition,
)
    requires
        shallow_types(types, subgraphs).mismatched.contains(position),
    ensures
        reports_mismatch(report_shallow_types(report, types, subgraphs), position.typename),
{
    let state = shallow_types(types, subgraphs);
    let middle = report_mismatched(
        report,
        subgraphs,
        state.mismatched,
        state.interface_objects,
    );
    let error = kind_mismatch(subgraphs, position, state.interface_objects);
    lemma_mismatched_is_reported(
        report,
        subgraphs,
        state.mismatched,
        state.interface_objects,
        position,
    );
    lemma_interface_objects_only_add(
        middle,
        subgraphs,
        state.mismatched,
        state.interface_objects,
    );
    let after = report_shallow_types(report, types, subgraphs);
    assert(after.errors[middle.errors.index_of(error)] == error);
}

/// A type of a subgraph is in the supergraph after the pass. Where the supergraph did not have its
/// name and no earlier type with the name belongs there, it has the kind of this type.
pub proof fn law_first_definition_gives_the_kind(
    types: Seq<TypePosition>,
    subgraphs: Seq<Subgraph>,
    name: Seq<char>,
    s: int,
    t: int,
)
    requires
        has_merged_type(subgraphs, s, t, name),
        kind_of(types, name) is None,
        forall|k: int, m: int|
            #[trigger] has_merged_type(subgraphs, k, m, name) ==> s < k || (s == k && t <= m),
    ensures
        kind_of(shallow_types(types, subgraphs).types, name) == Some(kind_at(subgraphs, s, t)),
    decreases subgraphs.len(),
{
    let rest = subgraphs.drop_last();
    let last = subgraphs.last();
    let all = definition_positions(last.schema.types@);
    let before = shallow_types(types, rest);
    assert(all.take(all.len() as int) =~= all);
    if s < rest.len() {
        assert(rest[s] == subgraphs[s]);
        assert forall|k: int, m: int| #[trigger] has_merged_type(rest, k, m, name) implies s < k || (
        s == k && t <= m) by {
            assert(rest[k] == subgraphs[k]);
            assert(has_merged_type(subgraphs, k, m, name));
        }
        law_first_definition_gives_the_kind(types, rest, name, s, t);
        lemma_subgraph_pass(before, last, all.len() as int);
        assert(kind_of(before.types, name) is Some);
    } else {
        assert forall|k: int, m: int| !#[trigger] has_merged_type(rest, k, m, name) by {
            if has_merged_type(rest, k, m, name) {
                assert(rest[k] == subgraphs[k]);
                assert(has_merged_type(subgraphs, k, m, name));
            }
        }
        lemma_unknown_stays_unknown(types, rest, name);
        assert forall|m: int| 0 <= m < t implies !(position_at(last, m).typename == name
            && merges_type(last, name)) by {
            if position_at(last, m).typename == name && merges_type(last, name) {
                assert(has_merged_type(subgraphs, s, m, name));
            }
        }
        lemma_unknown_in_subgraph(before, last, name, t);
        let middle = with_shallow_types(before, last, all.take(t));
        assert(all.take(t + 1).drop_last() =~= all.take(t));
        assert(all.take(t + 1).last() == position_at(last, t));
        lemma_interface_object(last, t);
        let kind = kind_in_supergraph(last, last.schema.types@[t]);
        lemma_kind_push(middle.types, TypePosition { typename: name, kind }, name);
        let next = with_shallow_types(before, last, all.take(t + 1));
        assert(kind_of(next.types, name) == Some(kind));
        lemma_rest_of_subgraph(before, last, t + 1, all.len() as int);
        assert(kind_of(next.types, name) is Some);
    }
}

proof fn lemma_rest_of_subgraph(state: ShallowTypes, subgraph: Subgraph, from: int, count: int)
    requires
        0 <= from <= count <= subgraph.schema.types@.len(),
    ensures
        ({
            let all = definition_positions(subgraph.schema.types@);
            goes_on(
                with_shallow_types(state, subgraph, all.take(from)),
                with_shallow_types(state, subgraph, all.take(count)),
            )
        }),
    decreases count - from,
{
    let all = definition_positions(subgraph.schema.types@);
    if from < count {
        let first = with_shallow_types(state, subgraph, all.take(from));
        let before = with_shallow_types(state, subgraph, all.take(count - 1));
        let after = with_shallow_types(state, subgraph, all.take(count));
        lemma_rest_of_subgraph(state, subgraph, from, count - 1);
        assert(all.take(count).drop_last() =~= all.take(count - 1));
        assert(all.take(count).last() == position_at(subgraph, count - 1));
        lemma_step(before, subgraph, count - 1);
        assert forall|name: Seq<char>| #[trigger] kind_of(
            first.types,
            name,
        ) is Some implies kind_of(after.types, name) == kind_of(first.types, name) by {
            assert(kind_of(before.types, name) is Some);
        }
        assert forall|p: TypePosition| #[trigger] first.mismatched.contains(
            p,
        ) implies after.mismatched.contains(p) by {
            assert(before.mismatched.contains(p));
        }
        assert forall|p: TypePosition| #[trigger] first.interface_objects.contains(
            p,
        ) implies after.interface_objects.contains(p) by {
            assert(before.interface_objects.contains(p));
        }
    }
}

proof fn lemma_unknown_in_subgraph(
    state: ShallowTypes,
    subgraph: Subgraph,
    name: Seq<char>,
    count: int,
)
    requires
        0 <= count <= subgraph.schema.types@.len(),
        kind_of(state.types, name) is None,
        forall|m: int|
            0 <= m < count ==> !((#[trigger] position_at(subgraph, m)).typename == name
                && merges_type(subgraph, name)),
    ensures
        kind_of(
            with_shallow_types(
                state,
                subgraph,
                definition_positions(subgraph.schema.types@).take(count),
            ).types,
            name,
        ) is None,
    decreases count,
{
    let all = definition_positions(subgraph.schema.types@);
    if count == 0 {
        assert(all.take(0) =~= Seq::<TypePosition>::empty());
    } else {
        lemma_unknown_in_subgraph(state, subgraph, name, count - 1);
        assert(all.take(count).drop_last() =~= all.take(count - 1));
        assert(all.take(count).last() == position_at(subgraph, count - 1));
        let before = with_shallow_types(state, subgraph, all.take(count - 1));
        let position = position_at(subgraph, count - 1);
        lemma_interface_object(subgraph, count - 1);
        let kind = kind_in_supergraph(subgraph, subgraph.schema.types@[count - 1]);
        lemma_kind_push(
            before.types,
            TypePosition { typename: position.typename, kind },
            name,
        );
    }
}

proof fn lemma_unknown_stays_unknown(
    types: Seq<TypePosition>,
    subgraphs: Seq<Subgraph>,
    name: Seq<char>,
)
    requires
        kind_of(types, name) is None,
        forall|k: int, m: int| !#[trigger] has_merged_type(subgraphs, k, m, name),
    ensures
        kind_of(shallow_types(types, subgraphs).types, name) is None,
    decreases subgraphs.len(),
{
    if subgraphs.len() > 0 {
        let rest = subgraphs.drop_last();
        let last = subgraphs.last();
        let all = definition_positions(last.schema.types@);
        assert forall|k: int, m: int| !#[trigger] has_merged_type(rest, k, m, name) by {
            if has_merged_type(rest, k, m, name) {
                assert(rest[k] == subgraphs[k]);
                assert(has_merged_type(subgraphs, k, m, name));
            }
        }
        lemma_unknown_stays_unknown(types, rest, name);
        assert forall|m: int| 0 <= m < all.len() implies !((#[trigger] position_at(
            last,
            m,
        )).typename == name && merges_type(last, name)) by {
            if position_at(last, m).typename == name && merges_type(last, name) {
                assert(has_merged_type(subgraphs, subgraphs.len() - 1, m, name));
            }
        }
        lemma_unknown_in_subgraph(shallow_types(types, rest), last, name, all.len() as int);
        assert(all.take(all.len() as int) =~= all);
    }
}

/// The supergraph gets no type of a name that no subgraph has a type of which belongs there.
pub proof fn law_no_type_comes_from_nowhere(
    types: Seq<TypePosition>,
    subgraphs: Seq<Subgraph>,
    name: Seq<char>,
)
    requires
        kind_of(types, name) is None,
        forall|k: int, m: int| !#[trigger] has_merged_type(subgraphs, k, m, name),
    ensures
        kind_of(shallow_types(types, subgraphs).types, name) is None,
{
    lemma_unknown_stays_unknown(types, subgraphs, name);
}

/// Whether all types of the name agree on their kind in the supergraph, with each other and with
/// the type that the supergraph has.
pub open spec fn kinds_agree(
    types: Seq<TypePosition>,
    subgraphs: Seq<Subgraph>,
    name: Seq<char>,
    kind: TypeKind,
) -> bool {
    &&& kind_of(types, name) matches Some(known) ==> known == kind
    &&& forall|s: int, t: int|
        #[trigger] has_merged_type(subgraphs, s, t, name) ==> kind_at(subgraphs, s, t) == kind
}

/// Whether all types of the name agree on some kind.
pub open spec fn have_one_kind(
    types: Seq<TypePosition>,
    subgraphs: Seq<Subgraph>,
    name: Seq<char>,
) -> bool {
    exists|kind: TypeKind| #[trigger] kinds_agree(types, subgraphs, name, kind)
}

/// Whether nothing of the name is mismatched, and every type of it has the kind.
spec fn is_settled(state: ShallowTypes, name: Seq<char>, kind: TypeKind) -> bool {
    &&& kind_of(state.types, name) matches Some(known) ==> known == kind
    &&& forall|p: TypePosition| #[trigger] state.mismatched.contains(p) ==> p.typename != name
}

proof fn lemma_settled_subgraph(
    state: ShallowTypes,
    subgraph: Subgraph,
    name: Seq<char>,
    kind: TypeKind,
    count: int,
)
    requires
        0 <= count <= subgraph.schema.types@.len(),
        is_settled(state, name, kind),
        forall|m: int|
            0 <= m < count && (#[trigger] position_at(subgraph, m)).typename == name && merges_type(
                subgraph,
                name,
            ) ==> kind_in_supergraph(subgraph, subgraph.schema.types@[m]) == kind,
    ensures
        is_settled(
            with_shallow_types(
                state,
                subgraph,
                definition_positions(subgraph.schema.types@).take(count),
            ),
            name,
            kind,
        ),
    decreases count,
{
    let all = definition_positions(subgraph.schema.types@);
    if count == 0 {
        assert(all.take(0) =~= Seq::<TypePosition>::empty());
    } else {
        lemma_settled_subgraph(state, subgraph, name, kind, count - 1);
        assert(all.take(count).drop_last() =~= all.take(count - 1));
        assert(all.take(count).last() == position_at(subgraph, count - 1));
        let before = with_shallow_types(state, subgraph, all.take(count - 1));
        let position = position_at(subgraph, count - 1);
        lemma_interface_object(subgraph, count - 1);
        lemma_with_distinct(before.mismatched, position);
        let own = kind_in_supergraph(subgraph, subgraph.schema.types@[count - 1]);
        lemma_kind_push(
            before.types,
            TypePosition { typename: position.typename, kind: own },
            name,
        );
        assert(position_at(subgraph, count - 1).typename == position.typename);
    }
}

proof fn lemma_settled(
    types: Seq<TypePosition>,
    subgraphs: Seq<Subgraph>,
    name: Seq<char>,
    kind: TypeKind,
)
    requires
        kinds_agree(types, subgraphs, name, kind),
    ensures
        is_settled(shallow_types(types, subgraphs), name, kind),
    decreases subgraphs.len(),
{
    if subgraphs.len() > 0 {
        let rest = subgraphs.drop_last();
        let last = subgraphs.last();
        let all = definition_positions(last.schema.types@);
        assert forall|s: int, t: int| #[trigger] has_merged_type(rest, s, t, name) implies kind_at(
            rest,
            s,
            t,
        ) == kind by {
            assert(rest[s] == subgraphs[s]);
            assert(has_merged_type(subgraphs, s, t, name));
        }
        lemma_settled(types, rest, name, kind);
        assert forall|m: int|
            0 <= m < all.len() && (#[trigger] position_at(last, m)).typename == name
                && merges_type(last, name) implies kind_in_supergraph(
            last,
            last.schema.types@[m],
        ) == kind by {
            assert(has_merged_type(subgraphs, subgraphs.len() - 1, m, name));
        }
        lemma_settled_subgraph(shallow_types(types, rest), last, name, kind, all.len() as int);
        assert(all.take(all.len() as int) =~= all);
    }
}

proof fn lemma_mismatched_errors(
    report: Report,
    subgraphs: Seq<Subgraph>,
    mismatched: Seq<TypePosition>,
    interface_objects: Seq<TypePosition>,
)
    ensures
        ({
            let after = report_mismatched(report, subgraphs, mismatched, interface_objects);
            &&& report.errors.is_prefix_of(after.errors)
            &&& after.errors.len() == report.errors.len() + mismatched.len()
            &&& forall|i: int|
                0 <= i < mismatched.len() ==> after.errors[report.errors.len() + i]
                    == kind_mismatch(subgraphs, #[trigger] mismatched[i], interface_objects)
        }),
    decreases mismatched.len(),
{
    if mismatched.len() > 0 {
        let rest = mismatched.drop_last();
        lemma_mismatched_errors(report, subgraphs, rest, interface_objects);
        let after = report_mismatched(report, subgraphs, mismatched, interface_objects);
        assert forall|i: int| 0 <= i < mismatched.len() implies after.errors[report.errors.len()
            + i] == kind_mismatch(subgraphs, #[trigger] mismatched[i], interface_objects) by {
            if i < rest.len() {
                assert(rest[i] == mismatched[i]);
            }
        }
    }
}

proof fn lemma_interface_object_errors(
    report: Report,
    subgraphs: Seq<Subgraph>,
    mismatched: Seq<TypePosition>,
    interface_objects: Seq<TypePosition>,
)
    ensures
        ({
            let after = report_interface_objects(
                report,
                subgraphs,
                mismatched,
                interface_objects,
            );
            &&& report.errors.is_prefix_of(after.errors)
            &&& forall|i: int|
                report.errors.len() <= i < after.errors.len() ==> (
                #[trigger] after.errors[i]).kind == ErrorKind::InterfaceObjectUsageError
            &&& interface_objects.len() == 0 ==> after == report
        }),
    decreases interface_objects.len(),
{
    if interface_objects.len() > 0 {
        let rest = interface_objects.drop_last();
        lemma_interface_object_errors(report, subgraphs, mismatched, rest);
        let before = report_interface_objects(report, subgraphs, mismatched, rest);
        let after = report_interface_objects(report, subgraphs, mismatched, interface_objects);
        assert forall|i: int| report.errors.len() <= i < after.errors.len() implies (
        #[trigger] after.errors[i]).kind == ErrorKind::InterfaceObjectUsageError by {
            if i < before.errors.len() {
                assert(after.errors[i] == before.errors[i]);
            }
        }
    }
}

/// Where the subgraphs agree on the kind of every type, and with the supergraph, no error about a
/// mismatched kind is added.
pub proof fn law_agreeing_kinds_are_no_error(
    report: Report,
    types: Seq<TypePosition>,
    subgraphs: Seq<Subgraph>,
    i: int,
)
    requires
        forall|name: Seq<char>| #[trigger] have_one_kind(types, subgraphs, name),
        report.errors.len() <= i < report_shallow_types(report, types, subgraphs).errors.len(),
    ensures
        report_shallow_types(report, types, subgraphs).errors[i].kind
            != ErrorKind::TypeKindMismatch,
{
    let state = shallow_types(types, subgraphs);
    if state.mismatched.len() > 0 {
        let p = state.mismatched[0];
        assert(state.mismatched.contains(p));
        assert(have_one_kind(types, subgraphs, p.typename));
        let kind = choose|kind: TypeKind| #[trigger]
            kinds_agree(types, subgraphs, p.typename, kind);
        lemma_settled(types, subgraphs, p.typename, kind);
    }
    lemma_interface_object_errors(
        report_mismatched(report, subgraphs, state.mismatched, state.interface_objects),
        subgraphs,
        state.mismatched,
        state.interface_objects,
    );
}

proof fn lemma_interface_object_is_reported(
    report: Report,
    subgraphs: Seq<Subgraph>,
    mismatched: Seq<TypePosition>,
    interface_objects: Seq<TypePosition>,
    position: TypePosition,
)
    requires
        interface_objects.contains(position),
        !mismatched.contains(position),
        !is_interface_somewhere(subgraphs, position.typename),
    ensures
        reports_missing_interface(
            report_interface_objects(report, subgraphs, mismatched, interface_objects),
            subgraphs,
            position.typename,
        ),
    decreases interface_objects.len(),
{
    let rest = interface_objects.drop_last();
    let before = report_interface_objects(report, subgraphs, mismatched, rest).errors;
    let after = report_interface_objects(report, subgraphs, mismatched, interface_objects).errors;
    let at = interface_objects.index_of(position);
    if at < rest.len() {
        assert(rest[at] == position);
        lemma_interface_object_is_reported(report, subgraphs, mismatched, rest, position);
        let i = choose|i: int|
            0 <= i < before.len() && (#[trigger] before[i]).kind
                == ErrorKind::InterfaceObjectUsageError && before[i].message == no_interface(
                subgraphs,
                position.typename,
            );
        assert(after[i] == before[i]);
    } else {
        assert(after[after.len() - 1].kind == ErrorKind::InterfaceObjectUsageError);
    }
}

/// Whether the report has the error about a type that carries `@interfaceObject` wherever it is
/// defined.
pub open spec fn reports_missing_interface(
    report: Report,
    subgraphs: Seq<Subgraph>,
    name: Seq<char>,
) -> bool {
    exists|i: int|
        0 <= i < report.errors.len() && (#[trigger] report.errors[i]).kind
            == ErrorKind::InterfaceObjectUsageError && report.errors[i].message == no_interface(
            subgraphs,
            name,
        )
}

/// Whether no subgraph defines the type as an interface.
pub open spec fn is_nowhere_an_interface(subgraphs: Seq<Subgraph>, name: Seq<char>) -> bool {
    forall|s: int, t: int|
        0 <= s < subgraphs.len() && #[trigger] is_first_type(
            subgraphs[s].schema.types@,
            t,
            name,
        ) ==> !(subgraphs[s].schema.types@[t].definition is Interface)
}

/// A type that carries `@interfaceObject` in some subgraph, where the kinds agree but no subgraph
/// defines the interface, is reported.
pub proof fn law_interface_object_without_interface_is_reported(
    report: Report,
    types: Seq<TypePosition>,
    subgraphs: Seq<Subgraph>,
    name: Seq<char>,
    s: int,
    t: int,
)
    requires
        has_merged_type(subgraphs, s, t, name),
        is_interface_object(subgraphs[s], subgraphs[s].schema.types@[t]),
        kinds_agree(types, subgraphs, name, TypeKind::Interface),
        is_nowhere_an_interface(subgraphs, name),
    ensures
        reports_missing_interface(
            report_shallow_types(report, types, subgraphs),
            subgraphs,
            name,
        ),
{
    let state = shallow_types(types, subgraphs);
    let position = position_at(subgraphs[s], t);
    lemma_pass(types, subgraphs);
    assert(accounts_for(state, subgraphs[s], t));
    lemma_settled(types, subgraphs, name, TypeKind::Interface);
    assert(!state.mismatched.contains(position));
    if is_interface_somewhere(subgraphs, name) {
        let k = choose|k: int|
            0 <= k < subgraphs.len() && find_type(
                (#[trigger] subgraphs[k]).schema.types@,
                name,
            ) matches Some(ExtendedType::Interface(_));
        law_first_type_is_found(subgraphs[k].schema.types@, name);
        let m = choose|m: int| #[trigger] is_first_type(subgraphs[k].schema.types@, m, name);
        assert(subgraphs[k].schema.types@[m].definition is Interface);
    }
    lemma_interface_object_is_reported(
        report_mismatched(report, subgraphs, state.mismatched, state.interface_objects),
        subgraphs,
        state.mismatched,
        state.interface_objects,
        position,
    );
}

proof fn lemma_no_interface_objects(types: Seq<TypePosition>, subgraphs: Seq<Subgraph>, p: TypePosition)
    requires
        shallow_types(types, subgraphs).interface_objects.contains(p),
    ensures
        exists|s: int, t: int|
            #[trigger] has_merged_type(subgraphs, s, t, p.typename) && is_interface_object(
                subgraphs[s],
                subgraphs[s].schema.types@[t],
            ),
    decreases subgraphs.len(),
{
    if subgraphs.len() > 0 {
        let rest = subgraphs.drop_last();
        let last = subgraphs.last();
        let all = definition_positions(last.schema.types@);
        let before = shallow_types(types, rest);
        assert(all.take(all.len() as int) =~= all);
        if before.interface_objects.contains(p) {
            lemma_no_interface_objects(types, rest, p);
            let (s, t) = choose|s: int, t: int|
                #[trigger] has_merged_type(rest, s, t, p.typename) && is_interface_object(
                    rest[s],
                    rest[s].schema.types@[t],
                );
            assert(rest[s] == subgraphs[s]);
            assert(has_merged_type(subgraphs, s, t, p.typename));
        } else {
            lemma_new_interface_object(before, last, all.len() as int, p);
            let t = choose|t: int|
                0 <= t < last.schema.types@.len() && (#[trigger] position_at(last, t)) == p
                    && merges_type(last, p.typename) && is_interface_object(
                    last,
                    last.schema.types@[t],
                );
            assert(has_merged_type(subgraphs, subgraphs.len() - 1, t, p.typename));
        }
    }
}

proof fn lemma_new_interface_object(
    state: ShallowTypes,
    subgraph: Subgraph,
    count: int,
    p: TypePosition,
)
    requires
        0 <= count <= subgraph.schema.types@.len(),
        !state.interface_objects.contains(p),
        with_shallow_types(
            state,
            subgraph,
            definition_positions(subgraph.schema.types@).take(count),
        ).interface_objects.contains(p),
    ensures
        exists|t: int|
            0 <= t < subgraph.schema.types@.len() && (#[trigger] position_at(subgraph, t)) == p
                && merges_type(subgraph, p.typename) && is_interface_object(
                subgraph,
                subgraph.schema.types@[t],
            ),
    decreases count,
{
    let all = definition_positions(subgraph.schema.types@);
    if count == 0 {
        assert(all.take(0) =~= Seq::<TypePosition>::empty());
    } else {
        assert(all.take(count).drop_last() =~= all.take(count - 1));
        assert(all.take(count).last() == position_at(subgraph, count - 1));
        let before = with_shallow_types(state, subgraph, all.take(count - 1));
        if before.interface_objects.contains(p) {
            lemma_new_interface_object(state, subgraph, count - 1, p);
        } else {
            lemma_interface_object(subgraph, count - 1);
            lemma_with_distinct(before.interface_objects, position_at(subgraph, count - 1));
            assert(position_at(subgraph, count - 1) == p);
        }
    }
}

/// Where no type carries `@interfaceObject`, no error about its use is added.
pub proof fn law_no_interface_object_no_error(
    report: Report,
    types: Seq<TypePosition>,
    subgraphs: Seq<Subgraph>,
    i: int,
)
    requires
        forall|s: int, t: int|
            0 <= s < subgraphs.len() && 0 <= t < subgraphs[s].schema.types@.len()
                ==> !is_interface_object(
                subgraphs[s],
                #[trigger] subgraphs[s].schema.types@[t],
            ),
        report.errors.len() <= i < report_shallow_types(report, types, subgraphs).errors.len(),
    ensures
        report_shallow_types(report, types, subgraphs).errors[i].kind
            == ErrorKind::TypeKindMismatch,
{
    let state = shallow_types(types, subgraphs);
    if state.interface_objects.len() > 0 {
        let p = state.interface_objects[0];
        assert(state.interface_objects.contains(p));
        lemma_no_interface_objects(types, subgraphs, p);
        let (s, t) = choose|s: int, t: int|
            #[trigger] has_merged_type(subgraphs, s, t, p.typename) && is_interface_object(
                subgraphs[s],
                subgraphs[s].schema.types@[t],
            );
        assert(!is_interface_object(subgraphs[s], subgraphs[s].schema.types@[t]));
    }
    lemma_mismatched_errors(report, subgraphs, state.mismatched, state.interface_objects);
    lemma_interface_object_errors(
        report_mismatched(report, subgraphs, state.mismatched, state.interface_objects),
        subgraphs,
        state.mismatched,
        state.interface_objects,
    );
    let at = i - report.errors.len();
    assert(report_shallow_types(report, types, subgraphs).errors[i] == kind_mismatch(
        subgraphs,
        state.mismatched[at],
        state.interface_objects,
    ));
}

/// Whether the location is in a schema.
pub open spec fn is_schema_location(location: DirectiveLocation) -> bool {
    location is Schema || location is Scalar || location is Object || location is FieldDefinition
        || location is ArgumentDefinition || location is Interface || location is Union
        || location is Enum || location is EnumValue || location is InputObject
        || location is InputFieldDefinition
}

/// Whether some location of the definition is not in a schema.
pub open spec fn has_operation_location(definition: DefinitionShape) -> bool {
    exists|l: int|
        0 <= l < definition.locations.len() && !is_schema_location(
            #[trigger] definition.locations[l],
        )
}

/// Whether the subgraph composes the directive.
pub open spec fn is_composed_by(
    composed: Seq<ComposedDirective>,
    subgraph: Seq<char>,
    directive: Seq<char>,
) -> bool {
    exists|i: int|
        0 <= i < composed.len() && (#[trigger] composed[i]).subgraph_name@ == subgraph
            && composed[i].directive_name@ == directive
}

/// Whether the name is one of those that merging takes as built in.
pub open spec fn is_built_in_name(name: Seq<char>) -> bool {
    name == "skip"@ || name == "include"@ || name == "deprecated"@ || name == "specifiedBy"@ || name
        == "defer"@ || name == "stream"@
}

/// The definition of a directive belongs into the supergraph where the subgraph composes the
/// directive, or where it is not built in and one of its locations, at whatever place of the list,
/// is not in a schema.
pub proof fn law_definitions_that_belong_into_the_supergraph(
    composed: Seq<ComposedDirective>,
    subgraph: Seq<char>,
    definition: DefinitionShape,
)
    ensures
        merges_definition(composed, subgraph, definition) <==> is_composed_by(
            composed,
            subgraph,
            definition.name,
        ) || (!is_built_in_name(definition.name) && has_operation_location(definition)),
{
    if has_operation_location(definition) {
        let l = choose|l: int|
            0 <= l < definition.locations.len() && !is_schema_location(
                #[trigger] definition.locations[l],
            );
        assert(definition.locations[l].executable());
    }
    if is_executable(definition.locations) {
        let l = choose|l: int|
            0 <= l < definition.locations.len() && (
            #[trigger] definition.locations[l]).executable();
        assert(!is_schema_location(definition.locations[l]));
    }
    if is_composed_by(composed, subgraph, definition.name) {
        let i = choose|i: int|
            0 <= i < composed.len() && (#[trigger] composed[i]).subgraph_name@ == subgraph
                && composed[i].directive_name@ == definition.name;
        assert(is_composed(composed, subgraph, definition.name));
    }
    if is_composed(composed, subgraph, definition.name) {
        let i = choose|i: int|
            0 <= i < composed.len() && (#[trigger] composed[i]).subgraph_name@ == subgraph
                && composed[i].directive_name@ == definition.name;
        assert(is_composed_by(composed, subgraph, definition.name));
    }
}

/// Whether the definition at the place in the subgraph belongs into the supergraph.
pub open spec fn has_merged_definition(
    composed: Seq<ComposedDirective>,
    subgraphs: Seq<Subgraph>,
    s: int,
    d: int,
) -> bool {
    &&& 0 <= s < subgraphs.len()
    &&& 0 <= d < subgraphs[s].schema.directive_definitions@.len()
    &&& {
        let definition = subgraphs[s].schema.directive_definitions@[d]@;
        is_composed_by(composed, subgraphs[s].name@, definition.name) || (!is_built_in_name(
            definition.name,
        ) && has_operation_location(definition))
    }
}

proof fn lemma_with_definitions(
    built_in: Seq<Seq<char>>,
    definitions: Seq<DefinitionShape>,
    composed: Seq<ComposedDirective>,
    subgraph: Seq<char>,
    added: Seq<DefinitionShape>,
)
    ensures
        ({
            let after = with_definitions(built_in, definitions, composed, subgraph, added);
            &&& definitions.is_prefix_of(after)
            &&& forall|i: int|
                0 <= i < added.len() && merges_definition(
                    composed,
                    subgraph,
                    #[trigger] added[i],
                ) ==> built_in.contains(added[i].name) || defines(after, added[i].name)
            &&& forall|k: int|
                definitions.len() <= k < after.len() ==> {
                    &&& added.contains(#[trigger] after[k])
                    &&& merges_definition(composed, subgraph, after[k])
                    &&& !built_in.contains(after[k].name)
                    &&& !defines(after.take(k), after[k].name)
                }
        }),
    decreases added.len(),
{
    if added.len() > 0 {
        let rest = added.drop_last();
        let before = with_definitions(built_in, definitions, composed, subgraph, rest);
        let after = with_definitions(built_in, definitions, composed, subgraph, added);
        lemma_with_definitions(built_in, definitions, composed, subgraph, rest);
        assert forall|i: int|
            0 <= i < added.len() && merges_definition(
                composed,
                subgraph,
                #[trigger] added[i],
            ) implies built_in.contains(added[i].name) || defines(after, added[i].name) by {
            if i < rest.len() {
                assert(rest[i] == added[i]);
                if defines(before, added[i].name) {
                    let k = choose|k: int|
                        0 <= k < before.len() && (#[trigger] before[k]).name == added[i].name;
                    assert(after[k].name == added[i].name);
                }
            } else if !built_in.contains(added[i].name) {
                if defines(before, added[i].name) {
                    let k = choose|k: int|
                        0 <= k < before.len() && (#[trigger] before[k]).name == added[i].name;
                    assert(after[k].name == added[i].name);
                } else {
                    assert(after[after.len() - 1].name == added[i].name);
                }
            }
        }
        assert forall|k: int| definitions.len() <= k < after.len() implies {
            &&& added.contains(#[trigger] after[k])
            &&& merges_definition(composed, subgraph, after[k])
            &&& !built_in.contains(after[k].name)
            &&& !defines(after.take(k), after[k].name)
        } by {
            if k < before.len() {
                assert(after[k] == before[k]);
                assert(added[rest.index_of(before[k])] == before[k]);
                assert(after.take(k) =~= before.take(k));
            } else {
                assert(added[added.len() - 1] == after[k]);
                assert(after.take(k) =~= before);
            }
        }
    }
}

/// A directive definition that belongs into the supergraph is defined there after the pass, and
/// what was defined before stays in front.
pub proof fn law_every_merged_definition_is_in_the_supergraph(
    built_in: Seq<Seq<char>>,
    definitions: Seq<DefinitionShape>,
    composed: Seq<ComposedDirective>,
    subgraphs: Seq<Subgraph>,
    s: int,
    d: int,
)
    requires
        has_merged_definition(composed, subgraphs, s, d),
    ensures
        ({
            let after = shallow_definitions(built_in, definitions, composed, subgraphs);
            let name = subgraphs[s].schema.directive_definitions@[d].name@;
            &&& definitions.is_prefix_of(after)
            &&& built_in.contains(name) || exists|k: int|
                0 <= k < after.len() && (#[trigger] after[k]).name == name
        }),
    decreases subgraphs.len(),
{
    let rest = subgraphs.drop_last();
    let last = subgraphs.last();
    let before = shallow_definitions(built_in, definitions, composed, rest);
    let added = definition_shapes(last.schema.directive_definitions@);
    let after = shallow_definitions(built_in, definitions, composed, subgraphs);
    let name = subgraphs[s].schema.directive_definitions@[d].name@;
    lemma_with_definitions(built_in, before, composed, last.name@, added);
    lemma_definitions_stay(built_in, definitions, composed, rest);
    if s < rest.len() {
        assert(rest[s] == subgraphs[s]);
        law_every_merged_definition_is_in_the_supergraph(
            built_in,
            definitions,
            composed,
            rest,
            s,
            d,
        );
        if !built_in.contains(name) {
            let k = choose|k: int| 0 <= k < before.len() && (#[trigger] before[k]).name == name;
            assert(after[k] == before[k]);
        }
    } else {
        assert(added[d] == last.schema.directive_definitions@[d]@);
        law_definitions_that_belong_into_the_supergraph(composed, last.name@, added[d]);
        assert(merges_definition(composed, last.name@, added[d]));
        if !built_in.contains(name) {
            assert(defines(after, added[d].name));
        }
    }
}

proof fn lemma_definitions_stay(
    built_in: Seq<Seq<char>>,
    definitions: Seq<DefinitionShape>,
    composed: Seq<ComposedDirective>,
    subgraphs: Seq<Subgraph>,
)
    ensures
        definitions.is_prefix_of(
            shallow_definitions(built_in, definitions, composed, subgraphs),
        ),
    decreases subgraphs.len(),
{
    if subgraphs.len() > 0 {
        let rest = subgraphs.drop_last();
        lemma_definitions_stay(built_in, definitions, composed, rest);
        lemma_with_definitions(
            built_in,
            shallow_definitions(built_in, definitions, composed, rest),
            composed,
            subgraphs.last().name@,
            definition_shapes(subgraphs.last().schema.directive_definitions@),
        );
    }
}

/// Each definition that the pass adds is one of a subgraph that belongs into the supergraph; it is
/// not of a directive that the schema has built in, nor of one that is defined before it.
pub proof fn law_no_definition_comes_from_nowhere(
    built_in: Seq<Seq<char>>,
    definitions: Seq<DefinitionShape>,
    composed: Seq<ComposedDirective>,
    subgraphs: Seq<Subgraph>,
    k: int,
)
    requires
        definitions.len() <= k < shallow_definitions(
            built_in,
            definitions,
            composed,
            subgraphs,
        ).len(),
    ensures
        ({
            let after = shallow_definitions(built_in, definitions, composed, subgraphs);
            &&& exists|s: int, d: int|
                #[trigger] has_merged_definition(composed, subgraphs, s, d)
                    && subgraphs[s].schema.directive_definitions@[d]@ == after[k]
            &&& !built_in.contains(after[k].name)
            &&& forall|m: int| 0 <= m < k ==> (#[trigger] after[m]).name != after[k].name
        }),
    decreases subgraphs.len(),
{
    if subgraphs.len() > 0 {
        let rest = subgraphs.drop_last();
        let last = subgraphs.last();
        let before = shallow_definitions(built_in, definitions, composed, rest);
        let given = last.schema.directive_definitions@;
        let added = definition_shapes(given);
        let after = shallow_definitions(built_in, definitions, composed, subgraphs);
        lemma_with_definitions(built_in, before, composed, last.name@, added);
        if k < before.len() {
            assert(after[k] == before[k]);
            law_no_definition_comes_from_nowhere(built_in, definitions, composed, rest, k);
            let (s, d) = choose|s: int, d: int|
                #[trigger] has_merged_definition(composed, rest, s, d)
                    && rest[s].schema.directive_definitions@[d]@ == before[k];
            assert(rest[s] == subgraphs[s]);
            assert(has_merged_definition(composed, subgraphs, s, d));
            assert forall|m: int| 0 <= m < k implies (#[trigger] after[m]).name
                != after[k].name by {
                assert(after[m] == before[m]);
            }
        } else {
            assert(added.contains(after[k]));
            let d = added.index_of(after[k]);
            assert(given[d]@ == after[k]);
            law_definitions_that_belong_into_the_supergraph(composed, last.name@, after[k]);
            assert(has_merged_definition(composed, subgraphs, subgraphs.len() - 1, d));
            assert forall|m: int| 0 <= m < k implies (#[trigger] after[m]).name
                != after[k].name by {
                assert(after.take(k)[m] == after[m]);
            }
        }
    }
}

/// The error about a type whose kind does not agree says of each subgraph what the type is there,
/// or that the subgraph does not have it.
pub proof fn law_mismatch_says_what_each_subgraph_has(
    subgraphs: Seq<Subgraph>,
    name: Seq<char>,
    interface_objects: Seq<TypePosition>,
    s: int,
    t: int,
)
    requires
        0 <= s < subgraphs.len() <= usize::MAX,
    ensures
        kind_texts(subgraphs, name, interface_objects).len() == subgraphs.len(),
        kind_texts(subgraphs, name, interface_objects)[s].0 == s,
        has_no_type(subgraphs[s].schema.types@, name) ==> kind_texts(
            subgraphs,
            name,
            interface_objects,
        )[s].1 is None,
        is_first_type(subgraphs[s].schema.types@, t, name) ==> {
            let kind = subgraphs[s].schema.types@[t].definition.spec_kind();
            let text = kind_texts(subgraphs, name, interface_objects)[s].1;
            if interface_objects.contains(TypePosition { typename: name, kind }) {
                text == Some("Interface Object Type (Object Type with @interfaceObject)"@)
            } else {
                text == Some(kind.description())
            }
        },
{
    law_first_type_is_found(subgraphs[s].schema.types@, name);
    if is_first_type(subgraphs[s].schema.types@, t, name) {
        let ty = subgraphs[s].schema.types@[t];
    }
}

/// Different kinds have different words.
pub proof fn law_kinds_have_their_own_words(kind: TypeKind, other: TypeKind)
    ensures
        kind.description() == other.description() ==> kind == other,
{
    reveal_strlit("Scalar Type");
    reveal_strlit("Object Type");
    reveal_strlit("Interface Type");
    reveal_strlit("Union Type");
    reveal_strlit("Enum Type");
    reveal_strlit("InputObject Type");
    if kind != other {
        let (a, b) = (kind.description(), other.description());
        assert(a.len() != b.len() || a[0] != b[0]);
    }
}

/// The names of the subgraphs with a type are those of each subgraph that has a type of the name,
/// and each name is there once.
pub proof fn law_subgraphs_that_have_a_type(subgraphs: Seq<Subgraph>, name: Seq<char>)
    ensures
        forall|subgraph: Seq<char>| #[trigger]
            subgraphs_with_type(subgraphs, name).contains(subgraph) <==> exists|s: int|
                0 <= s < subgraphs.len() && (#[trigger] subgraphs[s]).name@ == subgraph
                    && !has_no_type(subgraphs[s].schema.types@, name),
        subgraphs_with_type(subgraphs, name).no_duplicates(),
    decreases subgraphs.len(),
{
    if subgraphs.len() > 0 {
        let rest = subgraphs.drop_last();
        let last = subgraphs.last();
        let before = subgraphs_with_type(rest, name);
        let after = subgraphs_with_type(subgraphs, name);
        law_subgraphs_that_have_a_type(rest, name);
        law_first_type_is_found(last.schema.types@, name);
        assert forall|subgraph: Seq<char>| #[trigger] after.contains(
            subgraph,
        ) <==> exists|s: int|
            0 <= s < subgraphs.len() && (#[trigger] subgraphs[s]).name@ == subgraph && !has_no_type(
                subgraphs[s].schema.types@,
                name,
            ) by {
            assert(subgraphs[subgraphs.len() - 1] == last);
            if before.contains(subgraph) {
                assert(after[before.index_of(subgraph)] == subgraph);
                let s = choose|s: int|
                    0 <= s < rest.len() && (#[trigger] rest[s]).name@ == subgraph && !has_no_type(
                        rest[s].schema.types@,
                        name,
                    );
                assert(subgraphs[s] == rest[s]);
            }
            if after.contains(subgraph) {
                let at = after.index_of(subgraph);
                if at < before.len() {
                    assert(before[at] == subgraph);
                }
            }
            if exists|s: int|
                0 <= s < subgraphs.len() && (#[trigger] subgraphs[s]).name@ == subgraph
                    && !has_no_type(subgraphs[s].schema.types@, name) {
                let s = choose|s: int|
                    0 <= s < subgraphs.len() && (#[trigger] subgraphs[s]).name@ == subgraph
                        && !has_no_type(subgraphs[s].schema.types@, name);
                if s < rest.len() {
                    assert(rest[s] == subgraphs[s]);
                    assert(before.contains(subgraph));
                } else if !before.contains(subgraph) {
                    assert(after[after.len() - 1] == subgraph);
                }
            }
        }
    }
}

} // verus!
