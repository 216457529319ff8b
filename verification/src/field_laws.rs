//! Which position of a field is found, in terms of the types of the subgraphs.

use crate::ast::FieldDefinition;
use crate::composition::{is_set_up, KnownSpecs, Preparation};
use crate::lookup_laws::{has_no_field, is_first_field};
use crate::merger::{with_fields, with_subgraphs, with_types, CompositionOptions, Merger};
use crate::override_pass::{
    declared_fields, lists_field, with_fields_of_types, with_new_fields, DeclaredField,
};
use crate::schema::{fields_of, FieldPlace, TypeDefinition};
use crate::subgraph::Subgraph;
use vstd::prelude::*;

verus! {

/// Whether the field is of the name and the type whose notation it is: the two are joined by a
/// colon.
pub open spec fn has_key(field: FieldDefinition, key: Seq<char>) -> bool {
    field.name@ + ":"@ + field.ty@.notation() == key
}

/// Whether one of the fields has the key.
pub open spec fn lists_key(fields: Seq<FieldDefinition>, key: Seq<char>) -> bool {
    exists|f: int| 0 <= f < fields.len() && has_key(#[trigger] fields[f], key)
}

/// Whether the field is the last one with the key.
pub open spec fn is_last_with_key(
    fields: Seq<FieldDefinition>,
    f: int,
    key: Seq<char>,
) -> bool {
    &&& 0 <= f < fields.len()
    &&& has_key(fields[f], key)
    &&& forall|k: int| f < k < fields.len() ==> !has_key(#[trigger] fields[k], key)
}

/// Whether a type has a field with the key.
pub open spec fn type_has_key(ty: TypeDefinition, key: Seq<char>) -> bool {
    lists_key(fields_of(ty), key)
}

/// Whether one of the types has a field with the key.
pub open spec fn types_have_key(types: Seq<TypeDefinition>, key: Seq<char>) -> bool {
    exists|t: int| 0 <= t < types.len() && type_has_key(#[trigger] types[t], key)
}

/// Whether the type is the last one that has a field with the key.
pub open spec fn is_last_type_with_key(
    types: Seq<TypeDefinition>,
    t: int,
    key: Seq<char>,
) -> bool {
    &&& 0 <= t < types.len()
    &&& type_has_key(types[t], key)
    &&& forall|k: int| t < k < types.len() ==> !type_has_key(#[trigger] types[k], key)
}

/// Whether the subgraph is the last one that has a field with the key.
pub open spec fn is_last_subgraph_with_key(
    subgraphs: Seq<Subgraph>,
    s: int,
    key: Seq<char>,
) -> bool {
    &&& 0 <= s < subgraphs.len()
    &&& types_have_key(subgraphs[s].schema.types@, key)
    &&& forall|k: int|
        s < k < subgraphs.len() ==> !types_have_key(
            (#[trigger] subgraphs[k]).schema.types@,
            key,
        )
}

/// The position of a field in its type.
pub open spec fn position_in(ty: TypeDefinition, field: FieldDefinition) -> FieldPlace {
    if ty.definition is Object {
        FieldPlace::Object(ty.name@, field.name@)
    } else {
        FieldPlace::Interface(ty.name@, field.name@)
    }
}

proof fn lemma_fields(
    lookup: Map<Seq<char>, FieldPlace>,
    ty: TypeDefinition,
    fields: Seq<FieldDefinition>,
    f: int,
    key: Seq<char>,
)
    ensures
        ({
            let after = with_fields(lookup, ty.definition is Object, ty.name@, fields);
            &&& !lists_key(fields, key) ==> after.contains_key(key) == lookup.contains_key(key)
                && (lookup.contains_key(key) ==> after[key] == lookup[key])
            &&& is_last_with_key(fields, f, key) ==> after.contains_key(key) && after[key]
                == position_in(ty, fields[f])
        }),
    decreases fields.len(),
{
    if fields.len() > 0 {
        let rest = fields.drop_last();
        let last = fields.len() - 1;
        lemma_fields(lookup, ty, rest, f, key);
        assert(has_key(fields[last], key) ==> lists_key(fields, key));
        if lists_key(rest, key) {
            let k = choose|k: int| 0 <= k < rest.len() && has_key(#[trigger] rest[k], key);
            assert(has_key(fields[k], key));
        }
        if is_last_with_key(fields, f, key) && f < last {
            assert(!has_key(fields[last], key));
            assert(rest[f] == fields[f]);
            assert forall|k: int| f < k < rest.len() implies !has_key(#[trigger] rest[k], key) by {
                assert(!has_key(fields[k], key));
            }
        }
    }
}

proof fn lemma_types(
    lookup: Map<Seq<char>, FieldPlace>,
    types: Seq<TypeDefinition>,
    t: int,
    f: int,
    key: Seq<char>,
)
    ensures
        ({
            let after = with_types(lookup, types);
            &&& !types_have_key(types, key) ==> after.contains_key(key) == lookup.contains_key(key)
                && (lookup.contains_key(key) ==> after[key] == lookup[key])
            &&& is_last_type_with_key(types, t, key) && is_last_with_key(
                fields_of(types[t]),
                f,
                key,
            ) ==> after.contains_key(key) && after[key] == position_in(
                types[t],
                fields_of(types[t])[f],
            )
        }),
    decreases types.len(),
{
    if types.len() > 0 {
        let rest = types.drop_last();
        let last = types.len() - 1;
        let before = with_types(lookup, rest);
        lemma_types(lookup, rest, t, f, key);
        lemma_fields(before, types[last], fields_of(types[last]), f, key);
        assert(type_has_key(types[last], key) ==> types_have_key(types, key));
        if types_have_key(rest, key) {
            let k = choose|k: int| 0 <= k < rest.len() && type_has_key(#[trigger] rest[k], key);
            assert(type_has_key(types[k], key));
        }
        if is_last_type_with_key(types, t, key) && t < last {
            assert(!type_has_key(types[last], key));
            assert(rest[t] == types[t]);
            assert forall|k: int| t < k < rest.len() implies !type_has_key(
                #[trigger] rest[k],
                key,
            ) by {
                assert(!type_has_key(types[k], key));
            }
        }
    }
}

/// The position that is found for a name and a type of a field is that of the last field with them,
/// in the last type with such a field, of the last subgraph with such a type.
pub proof fn law_last_declared_field_is_found(
    subgraphs: Seq<Subgraph>,
    s: int,
    t: int,
    f: int,
    key: Seq<char>,
)
    requires
        is_last_subgraph_with_key(subgraphs, s, key),
        is_last_type_with_key(subgraphs[s].schema.types@, t, key),
        is_last_with_key(fields_of(subgraphs[s].schema.types@[t]), f, key),
    ensures
        ({
            let found = with_subgraphs(Map::empty(), subgraphs);
            let ty = subgraphs[s].schema.types@[t];
            found.contains_key(key) && found[key] == position_in(ty, fields_of(ty)[f])
        }),
    decreases subgraphs.len(),
{
    let rest = subgraphs.drop_last();
    let last = subgraphs.len() - 1;
    let before = with_subgraphs(Map::empty(), rest);
    lemma_types(before, subgraphs[last].schema.types@, t, f, key);
    if s < last {
        assert(!types_have_key(subgraphs[last].schema.types@, key));
        assert(rest[s] == subgraphs[s]);
        assert forall|k: int| s < k < rest.len() implies !types_have_key(
            (#[trigger] rest[k]).schema.types@,
            key,
        ) by {
            assert(!types_have_key(subgraphs[k].schema.types@, key));
        }
        law_last_declared_field_is_found(rest, s, t, f, key);
    }
}

/// No position is found for a name and a type that no field has.
pub proof fn law_no_undeclared_field_is_found(subgraphs: Seq<Subgraph>, key: Seq<char>)
    requires
        forall|s: int|
            0 <= s < subgraphs.len() ==> !types_have_key(
                (#[trigger] subgraphs[s]).schema.types@,
                key,
            ),
    ensures
        !with_subgraphs(Map::empty(), subgraphs).contains_key(key),
    decreases subgraphs.len(),
{
    if subgraphs.len() > 0 {
        let rest = subgraphs.drop_last();
        let last = subgraphs.len() - 1;
        assert forall|s: int| 0 <= s < rest.len() implies !types_have_key(
            (#[trigger] rest[s]).schema.types@,
            key,
        ) by {
            assert(!types_have_key(subgraphs[s].schema.types@, key));
        }
        law_no_undeclared_field_is_found(rest, key);
        assert(!types_have_key(subgraphs[last].schema.types@, key));
        lemma_types(
            with_subgraphs(Map::empty(), rest),
            subgraphs[last].schema.types@,
            0,
            0,
            key,
        );
    }
}

/// A merger that is set up finds for a field the position of the last field with its name and type
/// in its subgraphs.
pub proof fn law_merger_finds_the_last_field(
    merger: Merger,
    subgraphs: Vec<Subgraph>,
    options: CompositionOptions,
    specs: KnownSpecs,
    preparation: Preparation,
    s: int,
    t: int,
    f: int,
)
    requires
        is_set_up(merger, subgraphs, options, specs, preparation),
        0 <= s < subgraphs@.len(),
        0 <= t < subgraphs@[s].schema.types@.len(),
        0 <= f < fields_of(subgraphs@[s].schema.types@[t]).len(),
        ({
            let ty = subgraphs@[s].schema.types@[t];
            let field = fields_of(ty)[f];
            let key = field.name@ + ":"@ + field.ty@.notation();
            &&& is_last_subgraph_with_key(subgraphs@, s, key)
            &&& is_last_type_with_key(subgraphs@[s].schema.types@, t, key)
            &&& is_last_with_key(fields_of(ty), f, key)
        }),
    ensures
        ({
            let ty = subgraphs@[s].schema.types@[t];
            let field = fields_of(ty)[f];
            merger.known().position_of(field@) == Some(position_in(ty, field))
        }),
{
    let field = fields_of(subgraphs@[s].schema.types@[t])[f];
    let key = field.name@ + ":"@ + field.ty@.notation();
    law_last_declared_field_is_found(subgraphs@, s, t, f, key);
}

/// Whether the type is of the name and has a field of the name.
pub open spec fn declares(ty: TypeDefinition, typename: Seq<char>, name: Seq<char>) -> bool {
    ty.name@ == typename && !has_no_field(fields_of(ty), name)
}

/// Whether one of the types is of the name and has a field of the name.
pub open spec fn types_declare(
    types: Seq<TypeDefinition>,
    typename: Seq<char>,
    name: Seq<char>,
) -> bool {
    exists|t: int| 0 <= t < types.len() && declares(#[trigger] types[t], typename, name)
}

/// Whether the type is the first one of the name that has a field of the name.
pub open spec fn is_first_to_declare(
    types: Seq<TypeDefinition>,
    t: int,
    typename: Seq<char>,
    name: Seq<char>,
) -> bool {
    &&& 0 <= t < types.len()
    &&& declares(types[t], typename, name)
    &&& forall|k: int| 0 <= k < t ==> !declares(#[trigger] types[k], typename, name)
}

proof fn lemma_new_fields(
    list: Seq<DeclaredField>,
    typename: Seq<char>,
    fields: Seq<FieldDefinition>,
    name: Seq<char>,
    other: Seq<char>,
)
    ensures
        ({
            let after = with_new_fields(list, typename, fields);
            &&& list.is_prefix_of(after)
            &&& other != typename || has_no_field(fields, name) ==> lists_field(after, other, name)
                == lists_field(list, other, name)
            &&& !lists_field(list, typename, name) ==> forall|f: int|
                is_first_field(fields, f, name) ==> after.contains(
                    DeclaredField { typename, field: (#[trigger] fields[f])@ },
                )
        }),
    decreases fields.len(),
{
    if fields.len() > 0 {
        let rest = fields.drop_last();
        let last = fields.len() - 1;
        let before = with_new_fields(list, typename, rest);
        let after = with_new_fields(list, typename, fields);
        lemma_new_fields(list, typename, rest, name, other);
        lemma_new_fields(list, typename, rest, name, typename);
        if has_no_field(fields, name) {
            assert forall|k: int| 0 <= k < rest.len() implies (#[trigger] rest[k]).name@ != name by {
                assert(fields[k].name@ != name);
            }
            assert(fields[last].name@ != name);
        }
        lemma_listed_in_longer(before, after, other, name);
        if !lists_field(list, typename, name) {
            assert forall|f: int| is_first_field(fields, f, name) implies after.contains(
                DeclaredField { typename, field: (#[trigger] fields[f])@ },
            ) by {
                let item = DeclaredField { typename, field: fields[f]@ };
                if f < last {
                    assert(rest[f] == fields[f]);
                    assert forall|k: int| 0 <= k < f implies (#[trigger] rest[k]).name@
                        != name by {
                        assert(fields[k].name@ != name);
                    }
                    assert(is_first_field(rest, f, name));
                    assert(after[before.index_of(item)] == item);
                } else {
                    assert forall|k: int| 0 <= k < rest.len() implies (#[trigger] rest[k]).name@
                        != name by {
                        assert(fields[k].name@ != name);
                    }
                    assert(has_no_field(rest, name));
                    assert(!lists_field(before, typename, name));
                    assert(after[after.len() - 1] == item);
                }
            }
        }
    }
}

/// A longer list of fields has the field exactly where the shorter has it or it was added.
proof fn lemma_listed_in_longer(
    list: Seq<DeclaredField>,
    longer: Seq<DeclaredField>,
    typename: Seq<char>,
    name: Seq<char>,
)
    requires
        list.is_prefix_of(longer),
    ensures
        lists_field(list, typename, name) ==> lists_field(longer, typename, name),
        longer.len() == list.len() ==> lists_field(longer, typename, name) == lists_field(
            list,
            typename,
            name,
        ),
        longer.len() == list.len() + 1 && !(longer.last().typename == typename
            && longer.last().field.name == name) ==> lists_field(longer, typename, name)
            == lists_field(list, typename, name),
{
    if lists_field(list, typename, name) {
        let i = choose|i: int|
            0 <= i < list.len() && (#[trigger] list[i]).typename == typename && list[i].field.name
                == name;
        assert(longer[i] == list[i]);
    }
    if lists_field(longer, typename, name) {
        let i = choose|i: int|
            0 <= i < longer.len() && (#[trigger] longer[i]).typename == typename
                && longer[i].field.name == name;
        if i < list.len() {
            assert(list[i] == longer[i]);
        }
    }
}

proof fn lemma_fields_of_types(
    list: Seq<DeclaredField>,
    types: Seq<TypeDefinition>,
    typename: Seq<char>,
    name: Seq<char>,
    t: int,
    f: int,
)
    ensures
        ({
            let after = with_fields_of_types(list, types);
            &&& list.is_prefix_of(after)
            &&& !types_declare(types, typename, name) ==> lists_field(after, typename, name)
                == lists_field(list, typename, name)
            &&& !lists_field(list, typename, name) && is_first_to_declare(types, t, typename, name)
                && is_first_field(fields_of(types[t]), f, name) ==> after.contains(
                DeclaredField { typename, field: fields_of(types[t])[f]@ },
            )
        }),
    decreases types.len(),
{
    if types.len() > 0 {
        let rest = types.drop_last();
        let last = types.len() - 1;
        let ty = types[last];
        let before = with_fields_of_types(list, rest);
        let after = with_fields_of_types(list, types);
        lemma_fields_of_types(list, rest, typename, name, t, f);
        lemma_new_fields(before, ty.name@, fields_of(ty), name, typename);
        if types_declare(rest, typename, name) {
            let k = choose|k: int|
                0 <= k < rest.len() && declares(#[trigger] rest[k], typename, name);
            assert(declares(types[k], typename, name));
        }
        assert(declares(types[last], typename, name) ==> types_declare(types, typename, name));
        if !lists_field(list, typename, name) && is_first_to_declare(types, t, typename, name)
            && is_first_field(fields_of(types[t]), f, name) {
            let item = DeclaredField { typename, field: fields_of(types[t])[f]@ };
            if t < last {
                assert(rest[t] == types[t]);
                assert forall|k: int| 0 <= k < t implies !declares(
                    #[trigger] rest[k],
                    typename,
                    name,
                ) by {
                    assert(!declares(types[k], typename, name));
                }
                assert(after[before.index_of(item)] == item);
            } else {
                if types_declare(rest, typename, name) {
                    let k = choose|k: int|
                        0 <= k < rest.len() && declares(#[trigger] rest[k], typename, name);
                    assert(!declares(types[k], typename, name));
                }
                assert(!lists_field(before, typename, name));
                let first = fields_of(ty)[f];
                assert(after.contains(item));
            }
        }
    }
}

/// Of the fields with one name under one name of a type, the first one stands for the field of the
/// supergraph while overrides are validated: that of the first subgraph, and in it of the first
/// type, that has one.
pub proof fn law_first_declared_field_stands(
    subgraphs: Seq<Subgraph>,
    s: int,
    t: int,
    f: int,
    typename: Seq<char>,
    name: Seq<char>,
)
    requires
        0 <= s < subgraphs.len(),
        forall|k: int|
            0 <= k < s ==> !types_declare(
                (#[trigger] subgraphs[k]).schema.types@,
                typename,
                name,
            ),
        is_first_to_declare(subgraphs[s].schema.types@, t, typename, name),
        is_first_field(fields_of(subgraphs[s].schema.types@[t]), f, name),
    ensures
        declared_fields(subgraphs).contains(
            DeclaredField { typename, field: fields_of(subgraphs[s].schema.types@[t])[f]@ },
        ),
    decreases subgraphs.len(),
{
    let rest = subgraphs.drop_last();
    let last = subgraphs.len() - 1;
    let before = declared_fields(rest);
    let after = declared_fields(subgraphs);
    let item = DeclaredField { typename, field: fields_of(subgraphs[s].schema.types@[t])[f]@ };
    lemma_fields_of_types(before, subgraphs[last].schema.types@, typename, name, t, f);
    if s < last {
        assert(rest[s] == subgraphs[s]);
        assert forall|k: int| 0 <= k < s implies !types_declare(
            (#[trigger] rest[k]).schema.types@,
            typename,
            name,
        ) by {
            assert(!types_declare(subgraphs[k].schema.types@, typename, name));
        }
        law_first_declared_field_stands(rest, s, t, f, typename, name);
        assert(after[before.index_of(item)] == item);
    } else {
        law_no_other_field_is_validated(rest, typename, name);
    }
}

/// No field is validated under a name that no type of its name has.
pub proof fn law_no_other_field_is_validated(
    subgraphs: Seq<Subgraph>,
    typename: Seq<char>,
    name: Seq<char>,
)
    requires
        forall|k: int|
            0 <= k < subgraphs.len() ==> !types_declare(
                (#[trigger] subgraphs[k]).schema.types@,
                typename,
                name,
            ),
    ensures
        !lists_field(declared_fields(subgraphs), typename, name),
    decreases subgraphs.len(),
{
    if subgraphs.len() > 0 {
        let rest = subgraphs.drop_last();
        let last = subgraphs.len() - 1;
        assert forall|k: int| 0 <= k < rest.len() implies !types_declare(
            (#[trigger] rest[k]).schema.types@,
            typename,
            name,
        ) by {
            assert(!types_declare(subgraphs[k].schema.types@, typename, name));
        }
        law_no_other_field_is_validated(rest, typename, name);
        assert(!types_declare(subgraphs[last].schema.types@, typename, name));
        lemma_fields_of_types(
            declared_fields(rest),
            subgraphs[last].schema.types@,
            typename,
            name,
            0,
            0,
        );
    }
}

} // verus!
