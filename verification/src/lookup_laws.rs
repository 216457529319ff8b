//! What holds of everything that is looked up by a name: the first of its name is found.

use crate::ast::{
    argument_named, ArgumentShape, DirectiveShape, FieldDefinition, LocatedDirective,
};
use crate::composition::{infos_by_name, spec_for, texts_by_name};
use crate::directives::{applied, FederationDirective};
use crate::merger::MergedDirectiveInfo;
use crate::overrides::label_argument;
use crate::schema::{
    applications, applied_at, fields_of, find_field, find_type, referencers, with_all_distinct,
    with_distinct, Application, ExtendedType, Target, TypeDefinition,
};
use crate::subgraph::{
    elements_with, elements_with_from_context, elements_with_override, link_of_type,
    subgraph_named, Subgraph, TypeLink,
};
use crate::version::Version;
use vstd::prelude::*;

verus! {

/// Whether the type at the place is the first one with the name.
pub open spec fn is_first_type(types: Seq<TypeDefinition>, t: int, name: Seq<char>) -> bool {
    &&& 0 <= t < types.len()
    &&& types[t].name@ == name
    &&& forall|k: int| 0 <= k < t ==> (#[trigger] types[k]).name@ != name
}

/// Whether no type has the name.
pub open spec fn has_no_type(types: Seq<TypeDefinition>, name: Seq<char>) -> bool {
    forall|k: int| 0 <= k < types.len() ==> (#[trigger] types[k]).name@ != name
}

/// The first type with the name is found; none is found only where none has the name.
pub proof fn law_first_type_is_found(types: Seq<TypeDefinition>, name: Seq<char>)
    ensures
        forall|t: int|
            is_first_type(types, t, name) ==> find_type(types, name) == Some(
                (#[trigger] types[t]).definition,
            ),
        find_type(types, name) is None <==> has_no_type(types, name),
        find_type(types, name) is Some ==> exists|t: int| #[trigger]
            is_first_type(types, t, name),
    decreases types.len(),
{
    if types.len() > 0 {
        let rest = types.skip(1);
        law_first_type_is_found(rest, name);
        assert forall|t: int| is_first_type(types, t, name) implies find_type(types, name) == Some(
            (#[trigger] types[t]).definition,
        ) by {
            if t > 0 {
                assert(types[0].name@ != name);
                assert(rest[t - 1] == types[t]);
                assert forall|k: int| 0 <= k < t - 1 implies (#[trigger] rest[k]).name@ != name by {
                    assert(types[k + 1].name@ != name);
                }
                assert(is_first_type(rest, t - 1, name));
            }
        }
        if types[0].name@ == name {
            assert(is_first_type(types, 0, name));
        } else {
            if find_type(types, name) is Some {
                let t = choose|t: int| #[trigger] is_first_type(rest, t, name);
                assert(rest[t] == types[t + 1]);
                assert forall|k: int| 0 <= k < t + 1 implies (#[trigger] types[k]).name@ != name by {
                    if k > 0 {
                        assert(rest[k - 1].name@ != name);
                    }
                }
                assert(is_first_type(types, t + 1, name));
            } else {
                assert forall|k: int| 0 <= k < types.len() implies (#[trigger] types[k]).name@
                    != name by {
                    if k > 0 {
                        assert(rest[k - 1].name@ != name);
                    }
                }
            }
            if has_no_type(types, name) {
                assert forall|k: int| 0 <= k < rest.len() implies (#[trigger] rest[k]).name@
                    != name by {
                    assert(types[k + 1].name@ != name);
                }
            }
        }
    }
}

/// Whether the field at the place is the first one with the name.
pub open spec fn is_first_field(fields: Seq<FieldDefinition>, f: int, name: Seq<char>) -> bool {
    &&& 0 <= f < fields.len()
    &&& fields[f].name@ == name
    &&& forall|k: int| 0 <= k < f ==> (#[trigger] fields[k]).name@ != name
}

/// Whether no field has the name.
pub open spec fn has_no_field(fields: Seq<FieldDefinition>, name: Seq<char>) -> bool {
    forall|k: int| 0 <= k < fields.len() ==> (#[trigger] fields[k]).name@ != name
}

/// The first field with the name is found; none is found only where none has the name.
pub proof fn law_first_field_is_found(fields: Seq<FieldDefinition>, name: Seq<char>)
    ensures
        forall|f: int|
            is_first_field(fields, f, name) ==> find_field(fields, name) == Some(
                #[trigger] fields[f],
            ),
        find_field(fields, name) is None <==> has_no_field(fields, name),
        find_field(fields, name) is Some ==> exists|f: int| #[trigger]
            is_first_field(fields, f, name),
    decreases fields.len(),
{
    if fields.len() > 0 {
        let rest = fields.skip(1);
        law_first_field_is_found(rest, name);
        assert forall|f: int| is_first_field(fields, f, name) implies find_field(fields, name)
            == Some(#[trigger] fields[f]) by {
            if f > 0 {
                assert(fields[0].name@ != name);
                assert(rest[f - 1] == fields[f]);
                assert forall|k: int| 0 <= k < f - 1 implies (#[trigger] rest[k]).name@ != name by {
                    assert(fields[k + 1].name@ != name);
                }
                assert(is_first_field(rest, f - 1, name));
            }
        }
        if fields[0].name@ == name {
            assert(is_first_field(fields, 0, name));
        } else {
            if find_field(fields, name) is Some {
                let f = choose|f: int| #[trigger] is_first_field(rest, f, name);
                assert(rest[f] == fields[f + 1]);
                assert forall|k: int| 0 <= k < f + 1 implies (#[trigger] fields[k]).name@
                    != name by {
                    if k > 0 {
                        assert(rest[k - 1].name@ != name);
                    }
                }
                assert(is_first_field(fields, f + 1, name));
            } else {
                assert forall|k: int| 0 <= k < fields.len() implies (#[trigger] fields[k]).name@
                    != name by {
                    if k > 0 {
                        assert(rest[k - 1].name@ != name);
                    }
                }
            }
            if has_no_field(fields, name) {
                assert forall|k: int| 0 <= k < rest.len() implies (#[trigger] rest[k]).name@
                    != name by {
                    assert(fields[k + 1].name@ != name);
                }
            }
        }
    }
}

/// Whether the argument at the place is the first one with the name.
pub open spec fn is_first_argument(
    arguments: Seq<ArgumentShape>,
    a: int,
    name: Seq<char>,
) -> bool {
    &&& 0 <= a < arguments.len()
    &&& arguments[a].name == name
    &&& forall|k: int| 0 <= k < a ==> (#[trigger] arguments[k]).name != name
}

/// The value of the first argument with the name is found; none is found only where none has the
/// name.
pub proof fn law_first_argument_is_found(arguments: Seq<ArgumentShape>, name: Seq<char>)
    ensures
        forall|a: int|
            is_first_argument(arguments, a, name) ==> argument_named(arguments, name) == Some(
                (#[trigger] arguments[a]).value,
            ),
        argument_named(arguments, name) is None <==> forall|k: int|
            0 <= k < arguments.len() ==> (#[trigger] arguments[k]).name != name,
    decreases arguments.len(),
{
    if arguments.len() > 0 {
        let rest = arguments.skip(1);
        law_first_argument_is_found(rest, name);
        assert forall|a: int| is_first_argument(arguments, a, name) implies argument_named(
            arguments,
            name,
        ) == Some((#[trigger] arguments[a]).value) by {
            if a > 0 {
                assert(arguments[0].name != name);
                assert(rest[a - 1] == arguments[a]);
                assert forall|k: int| 0 <= k < a - 1 implies (#[trigger] rest[k]).name != name by {
                    assert(arguments[k + 1].name != name);
                }
                assert(is_first_argument(rest, a - 1, name));
            }
        }
        if argument_named(arguments, name) is None {
            assert forall|k: int| 0 <= k < arguments.len() implies (#[trigger] arguments[k]).name
                != name by {
                if k > 0 {
                    assert(rest[k - 1].name != name);
                }
            }
        }
        if forall|k: int| 0 <= k < arguments.len() ==> (#[trigger] arguments[k]).name != name {
            assert(arguments[0].name != name);
            assert forall|k: int| 0 <= k < rest.len() implies (#[trigger] rest[k]).name != name by {
                assert(arguments[k + 1].name != name);
            }
        }
    }
}

/// Whether the argument is a label: a string with the name `label`.
pub open spec fn is_label_argument(argument: ArgumentShape) -> bool {
    argument.name == "label"@ && argument.value is String
}

/// The label is the string of the first argument that is a label; there is none only where no
/// argument is one.
pub proof fn law_first_label_is_found(arguments: Seq<ArgumentShape>)
    ensures
        forall|a: int|
            0 <= a < arguments.len() && is_label_argument(arguments[a]) && (forall|k: int|
                0 <= k < a ==> !is_label_argument(#[trigger] arguments[k])) ==> label_argument(
                arguments,
            ) == Some((#[trigger] arguments[a]).value->String_0),
        label_argument(arguments) is None <==> forall|k: int|
            0 <= k < arguments.len() ==> !is_label_argument(#[trigger] arguments[k]),
    decreases arguments.len(),
{
    if arguments.len() > 0 {
        let rest = arguments.skip(1);
        law_first_label_is_found(rest);
        assert forall|a: int|
            0 <= a < arguments.len() && is_label_argument(arguments[a]) && (forall|k: int|
                0 <= k < a ==> !is_label_argument(
                    #[trigger] arguments[k],
                )) implies label_argument(arguments) == Some(
            (#[trigger] arguments[a]).value->String_0,
        ) by {
            if a > 0 {
                assert(!is_label_argument(arguments[0]));
                assert(rest[a - 1] == arguments[a]);
                assert forall|k: int| 0 <= k < a - 1 implies !is_label_argument(
                    #[trigger] rest[k],
                ) by {
                    assert(!is_label_argument(arguments[k + 1]));
                }
            }
        }
        if label_argument(arguments) is None {
            assert forall|k: int| 0 <= k < arguments.len() implies !is_label_argument(
                #[trigger] arguments[k],
            ) by {
                if k > 0 {
                    assert(!is_label_argument(rest[k - 1]));
                }
            }
        }
        if forall|k: int| 0 <= k < arguments.len() ==> !is_label_argument(#[trigger] arguments[k]) {
            assert(!is_label_argument(arguments[0]));
            assert forall|k: int| 0 <= k < rest.len() implies !is_label_argument(
                #[trigger] rest[k],
            ) by {
                assert(!is_label_argument(arguments[k + 1]));
            }
        }
    }
}

/// Whether the name is that of the federation directive, with or without its prefix.
pub open spec fn is_directive_name(kind: FederationDirective, name: Seq<char>) -> bool {
    match kind {
        FederationDirective::Override => name == "override"@ || name == "federation__override"@,
        FederationDirective::External => name == "external"@ || name == "federation__external"@,
        FederationDirective::Requires => name == "requires"@ || name == "federation__requires"@,
        FederationDirective::Provides => name == "provides"@ || name == "federation__provides"@,
    }
}

/// Whether one of the directives is the federation directive.
pub open spec fn carries(directives: Seq<LocatedDirective>, kind: FederationDirective) -> bool {
    exists|k: int|
        0 <= k < directives.len() && is_directive_name(
            kind,
            (#[trigger] directives[k]).directive.name,
        )
}

/// Whether the directive at the place is the first one that is the federation directive.
pub open spec fn is_first_application(
    directives: Seq<LocatedDirective>,
    d: int,
    kind: FederationDirective,
) -> bool {
    &&& 0 <= d < directives.len()
    &&& is_directive_name(kind, directives[d].directive.name)
    &&& forall|k: int|
        0 <= k < d ==> !is_directive_name(kind, (#[trigger] directives[k]).directive.name)
}

/// The first application of a federation directive is found, under either of its names; none is
/// found only where the directive is not applied.
pub proof fn law_first_application_is_found(
    directives: Seq<LocatedDirective>,
    kind: FederationDirective,
)
    ensures
        forall|d: int|
            is_first_application(directives, d, kind) ==> applied(directives, kind) == Some(
                #[trigger] directives[d],
            ),
        applied(directives, kind) is Some <==> carries(directives, kind),
    decreases directives.len(),
{
    if directives.len() > 0 {
        let rest = directives.skip(1);
        law_first_application_is_found(rest, kind);
        assert forall|d: int| is_first_application(directives, d, kind) implies applied(
            directives,
            kind,
        ) == Some(#[trigger] directives[d]) by {
            if d > 0 {
                assert(!is_directive_name(kind, directives[0].directive.name));
                assert(rest[d - 1] == directives[d]);
                assert forall|k: int| 0 <= k < d - 1 implies !is_directive_name(
                    kind,
                    (#[trigger] rest[k]).directive.name,
                ) by {
                    assert(!is_directive_name(kind, directives[k + 1].directive.name));
                }
                assert(is_first_application(rest, d - 1, kind));
            }
        }
        if applied(directives, kind) is Some {
            if is_directive_name(kind, directives[0].directive.name) {
            } else {
                let k = choose|k: int|
                    0 <= k < rest.len() && is_directive_name(
                        kind,
                        (#[trigger] rest[k]).directive.name,
                    );
                assert(directives[k + 1] == rest[k]);
            }
        }
        if carries(directives, kind) {
            let k = choose|k: int|
                0 <= k < directives.len() && is_directive_name(
                    kind,
                    (#[trigger] directives[k]).directive.name,
                );
            if k > 0 {
                assert(rest[k - 1] == directives[k]);
            }
        }
    }
}

/// The specification of a type is that of the first link with its name; there is none only where
/// no link has the name.
pub proof fn law_first_link_is_found(links: Seq<TypeLink>, name: Seq<char>)
    ensures
        forall|l: int|
            0 <= l < links.len() && links[l].typename@ == name && (forall|k: int|
                0 <= k < l ==> (#[trigger] links[k]).typename@ != name) ==> link_of_type(
                links,
                name,
            ) == Some((#[trigger] links[l]).identity),
        link_of_type(links, name) is None <==> forall|k: int|
            0 <= k < links.len() ==> (#[trigger] links[k]).typename@ != name,
    decreases links.len(),
{
    if links.len() > 0 {
        let rest = links.skip(1);
        law_first_link_is_found(rest, name);
        assert forall|l: int|
            0 <= l < links.len() && links[l].typename@ == name && (forall|k: int|
                0 <= k < l ==> (#[trigger] links[k]).typename@ != name) implies link_of_type(
            links,
            name,
        ) == Some((#[trigger] links[l]).identity) by {
            if l > 0 {
                assert(links[0].typename@ != name);
                assert(rest[l - 1] == links[l]);
                assert forall|k: int| 0 <= k < l - 1 implies (#[trigger] rest[k]).typename@
                    != name by {
                    assert(links[k + 1].typename@ != name);
                }
            }
        }
        if link_of_type(links, name) is None {
            assert forall|k: int| 0 <= k < links.len() implies (#[trigger] links[k]).typename@
                != name by {
                if k > 0 {
                    assert(rest[k - 1].typename@ != name);
                }
            }
        }
        if forall|k: int| 0 <= k < links.len() ==> (#[trigger] links[k]).typename@ != name {
            assert(links[0].typename@ != name);
            assert forall|k: int| 0 <= k < rest.len() implies (#[trigger] rest[k]).typename@
                != name by {
                assert(links[k + 1].typename@ != name);
            }
        }
    }
}

/// The first subgraph with a name is found; none is found only where none has the name.
pub proof fn law_first_subgraph_is_found(subgraphs: Seq<Subgraph>, name: Seq<char>)
    ensures
        match subgraph_named(subgraphs, name) {
            Some(s) => 0 <= s < subgraphs.len() && subgraphs[s].name@ == name && forall|k: int|
                0 <= k < s ==> (#[trigger] subgraphs[k]).name@ != name,
            None => forall|k: int|
                0 <= k < subgraphs.len() ==> (#[trigger] subgraphs[k]).name@ != name,
        },
    decreases subgraphs.len(),
{
    if subgraphs.len() > 0 {
        let rest = subgraphs.drop_last();
        law_first_subgraph_is_found(rest, name);
        match subgraph_named(rest, name) {
            Some(s) => {
                assert(rest[s] == subgraphs[s]);
                assert forall|k: int| 0 <= k < s implies (#[trigger] subgraphs[k]).name@
                    != name by {
                    assert(rest[k].name@ != name);
                }
            },
            None => {
                assert forall|k: int| 0 <= k < rest.len() implies (#[trigger] subgraphs[k]).name@
                    != name by {
                    assert(rest[k].name@ != name);
                }
            },
        }
    }
}

/// The specification for a version is the first one that is listed for it; there is none only
/// where none is listed.
pub proof fn law_first_specification_is_found<A>(specs: Seq<(Version, A)>, version: Version)
    ensures
        forall|i: int|
            0 <= i < specs.len() && specs[i].0 == version && (forall|k: int|
                0 <= k < i ==> (#[trigger] specs[k]).0 != version) ==> spec_for(specs, version)
                == Some((#[trigger] specs[i]).1),
        spec_for(specs, version) is None <==> forall|k: int|
            0 <= k < specs.len() ==> (#[trigger] specs[k]).0 != version,
    decreases specs.len(),
{
    if specs.len() > 0 {
        let rest = specs.skip(1);
        law_first_specification_is_found(rest, version);
        assert forall|i: int|
            0 <= i < specs.len() && specs[i].0 == version && (forall|k: int|
                0 <= k < i ==> (#[trigger] specs[k]).0 != version) implies spec_for(specs, version)
            == Some((#[trigger] specs[i]).1) by {
            if i > 0 {
                assert(specs[0].0 != version);
                assert(rest[i - 1] == specs[i]);
                assert forall|k: int| 0 <= k < i - 1 implies (#[trigger] rest[k]).0 != version by {
                    assert(specs[k + 1].0 != version);
                }
            }
        }
        if spec_for(specs, version) is None {
            assert forall|k: int| 0 <= k < specs.len() implies (#[trigger] specs[k]).0
                != version by {
                if k > 0 {
                    assert(rest[k - 1].0 != version);
                }
            }
        }
        if forall|k: int| 0 <= k < specs.len() ==> (#[trigger] specs[k]).0 != version {
            assert(specs[0].0 != version);
            assert forall|k: int| 0 <= k < rest.len() implies (#[trigger] rest[k]).0 != version by {
                assert(specs[k + 1].0 != version);
            }
        }
    }
}

/// Every directive is registered under its name; of several with a name, the last one is.
pub proof fn law_last_directive_is_registered(infos: Seq<MergedDirectiveInfo>, i: int)
    requires
        0 <= i < infos.len(),
        forall|k: int|
            i < k < infos.len() ==> (#[trigger] infos[k]).definition.name@
                != infos[i].definition.name@,
    ensures
        infos_by_name(infos).contains_key(infos[i].definition.name@),
        infos_by_name(infos)[infos[i].definition.name@] == infos[i],
    decreases infos.len(),
{
    if i < infos.len() - 1 {
        let rest = infos.drop_last();
        assert(rest[i] == infos[i]);
        assert forall|k: int| i < k < rest.len() implies (#[trigger] rest[k]).definition.name@
            != rest[i].definition.name@ by {
            assert(infos[k].definition.name@ != infos[i].definition.name@);
        }
        law_last_directive_is_registered(rest, i);
        assert(infos[infos.len() - 1].definition.name@ != infos[i].definition.name@);
    }
}

/// Nothing is registered but the directives that are given.
pub proof fn law_only_given_directives_are_registered(
    infos: Seq<MergedDirectiveInfo>,
    name: Seq<char>,
)
    ensures
        infos_by_name(infos).contains_key(name) ==> exists|i: int|
            0 <= i < infos.len() && (#[trigger] infos[i]).definition.name@ == name,
    decreases infos.len(),
{
    if infos.len() > 0 {
        let rest = infos.drop_last();
        law_only_given_directives_are_registered(rest, name);
        if infos_by_name(rest).contains_key(name) {
            let i = choose|i: int|
                0 <= i < rest.len() && (#[trigger] rest[i]).definition.name@ == name;
            assert(infos[i].definition.name@ == name);
        }
        assert(infos[infos.len() - 1] == infos.last());
    }
}

/// Of several pairs with the same first text, the last one stands.
pub proof fn law_last_pair_stands(pairs: Seq<(String, String)>, i: int)
    requires
        0 <= i < pairs.len(),
        forall|k: int| i < k < pairs.len() ==> (#[trigger] pairs[k]).0@ != pairs[i].0@,
    ensures
        texts_by_name(pairs).contains_key(pairs[i].0@),
        texts_by_name(pairs)[pairs[i].0@] == pairs[i].1@,
    decreases pairs.len(),
{
    if i < pairs.len() - 1 {
        let rest = pairs.drop_last();
        assert(rest[i] == pairs[i]);
        assert forall|k: int| i < k < rest.len() implies (#[trigger] rest[k]).0@ != rest[i].0@ by {
            assert(pairs[k].0@ != pairs[i].0@);
        }
        law_last_pair_stands(rest, i);
        assert(pairs[pairs.len() - 1].0@ != pairs[i].0@);
    }
}

/// No text is there but the first texts of the pairs.
pub proof fn law_only_given_pairs_stand(pairs: Seq<(String, String)>, name: Seq<char>)
    ensures
        texts_by_name(pairs).contains_key(name) ==> exists|i: int|
            0 <= i < pairs.len() && (#[trigger] pairs[i]).0@ == name,
    decreases pairs.len(),
{
    if pairs.len() > 0 {
        let rest = pairs.drop_last();
        law_only_given_pairs_stand(rest, name);
        if texts_by_name(rest).contains_key(name) {
            let i = choose|i: int| 0 <= i < rest.len() && (#[trigger] rest[i]).0@ == name;
            assert(pairs[i].0@ == name);
        }
        assert(pairs[pairs.len() - 1] == pairs.last());
    }
}

/// A list to which the items of another are added where they are missing holds the items of both
/// and no others, starts as it did, and holds none twice where it held none twice.
pub proof fn law_distinct_items_are_added<A>(list: Seq<A>, items: Seq<A>)
    ensures
        forall|item: A| #[trigger]
            with_all_distinct(list, items).contains(item) <==> list.contains(item)
                || items.contains(item),
        list.is_prefix_of(with_all_distinct(list, items)),
        list.no_duplicates() ==> with_all_distinct(list, items).no_duplicates(),
    decreases items.len(),
{
    if items.len() > 0 {
        let rest = items.drop_last();
        let before = with_all_distinct(list, rest);
        let after = with_all_distinct(list, items);
        law_distinct_items_are_added(list, rest);
        assert(after == with_distinct(before, items.last()));
        assert forall|item: A| #[trigger] after.contains(item) <==> list.contains(item)
            || items.contains(item) by {
            assert(before.contains(item) <==> list.contains(item) || rest.contains(item));
            assert(items[items.len() - 1] == items.last());
            if before.contains(item) {
                assert(after[before.index_of(item)] == item);
            }
            if !before.contains(items.last()) {
                assert(after[after.len() - 1] == items.last());
            }
            if rest.contains(item) {
                assert(items[rest.index_of(item)] == item);
            }
            if items.contains(item) && items.index_of(item) < rest.len() {
                assert(rest[items.index_of(item)] == item);
            }
            if after.contains(item) && after.index_of(item) < before.len() {
                assert(before[after.index_of(item)] == item);
            }
        }
    }
}

/// An element is listed for a directive where, and only where, the directive is applied to it, and
/// it is listed once.
pub proof fn law_elements_of_a_directive(applied: Seq<Application>, name: Seq<char>)
    ensures
        forall|target: Target| #[trigger]
            referencers(applied, name).contains(target) <==> exists|a: int|
                0 <= a < applied.len() && (#[trigger] applied[a]).directive.name == name
                    && applied[a].target == target,
        referencers(applied, name).no_duplicates(),
    decreases applied.len(),
{
    if applied.len() > 0 {
        let rest = applied.drop_last();
        let before = referencers(rest, name);
        let after = referencers(applied, name);
        law_elements_of_a_directive(rest, name);
        assert forall|target: Target| #[trigger] after.contains(target) <==> exists|a: int|
            0 <= a < applied.len() && (#[trigger] applied[a]).directive.name == name
                && applied[a].target == target by {
            if after.contains(target) {
                let at = after.index_of(target);
                if at < before.len() {
                    assert(before[at] == target);
                    assert(before.contains(target));
                    let a = choose|a: int|
                        0 <= a < rest.len() && (#[trigger] rest[a]).directive.name == name
                            && rest[a].target == target;
                    assert(applied[a] == rest[a]);
                } else {
                    assert(applied[applied.len() - 1].target == target);
                }
            }
            if exists|a: int|
                0 <= a < applied.len() && (#[trigger] applied[a]).directive.name == name
                    && applied[a].target == target {
                let a = choose|a: int|
                    0 <= a < applied.len() && (#[trigger] applied[a]).directive.name == name
                        && applied[a].target == target;
                if a < rest.len() {
                    assert(rest[a] == applied[a]);
                    assert(before.contains(target));
                }
                if before.contains(target) {
                    assert(after[before.index_of(target)] == target);
                } else {
                    assert(after[after.len() - 1] == target);
                }
            }
        }
    }
}

/// The applications of a directive to an element are those with its name at the element, and no
/// others.
pub proof fn law_applications_at_an_element(
    applied: Seq<Application>,
    target: Target,
    name: Seq<char>,
)
    ensures
        forall|a: int|
            0 <= a < applied.len() && (#[trigger] applied[a]).target == target
                && applied[a].directive.name == name ==> applied_at(
                applied,
                target,
                name,
            ).contains(applied[a].directive),
        forall|directive: DirectiveShape| #[trigger]
            applied_at(applied, target, name).contains(directive) ==> exists|a: int|
                0 <= a < applied.len() && (#[trigger] applied[a]).target == target
                    && applied[a].directive == directive && directive.name == name,
    decreases applied.len(),
{
    if applied.len() > 0 {
        let rest = applied.drop_last();
        let before = applied_at(rest, target, name);
        let after = applied_at(applied, target, name);
        law_applications_at_an_element(rest, target, name);
        assert forall|a: int|
            0 <= a < applied.len() && (#[trigger] applied[a]).target == target
                && applied[a].directive.name == name implies after.contains(
            applied[a].directive,
        ) by {
            if a < rest.len() {
                assert(rest[a] == applied[a]);
                assert(before.contains(applied[a].directive));
                assert(after[before.index_of(applied[a].directive)] == applied[a].directive);
            } else {
                assert(after[after.len() - 1] == applied[a].directive);
            }
        }
        assert forall|directive: DirectiveShape| #[trigger] after.contains(
            directive,
        ) implies exists|a: int|
            0 <= a < applied.len() && (#[trigger] applied[a]).target == target
                && applied[a].directive == directive && directive.name == name by {
            let at = after.index_of(directive);
            if at < before.len() {
                assert(before[at] == directive);
                assert(before.contains(directive));
                let a = choose|a: int|
                    0 <= a < rest.len() && (#[trigger] rest[a]).target == target
                        && rest[a].directive == directive && directive.name == name;
                assert(applied[a] == rest[a]);
            } else {
                assert(applied[applied.len() - 1].directive == directive);
            }
        }
    }
}

/// The applications of a directive to an element are as many, and in the order, as they are given:
/// those of two lists are those of the first followed by those of the second.
pub proof fn law_applications_of_two_lists(
    first: Seq<Application>,
    second: Seq<Application>,
    target: Target,
    name: Seq<char>,
)
    ensures
        applied_at(first + second, target, name) == applied_at(first, target, name) + applied_at(
            second,
            target,
            name,
        ),
    decreases second.len(),
{
    if second.len() == 0 {
        assert(first + second =~= first);
        assert(applied_at(first, target, name) + applied_at(second, target, name) =~= applied_at(
            first,
            target,
            name,
        ));
    } else {
        assert((first + second).drop_last() =~= first + second.drop_last());
        law_applications_of_two_lists(first, second.drop_last(), target, name);
        assert(applied_at(first + second, target, name) =~= applied_at(first, target, name)
            + applied_at(second, target, name));
    }
}

/// Whether a subgraph applies the directive that has the name there to the element.
pub open spec fn applies_to(subgraph: Subgraph, directive: Option<String>, target: Target) -> bool {
    directive is Some && exists|a: int|
        0 <= a < subgraph.schema.applied_directives@.len() && (
        #[trigger] subgraph.schema.applied_directives@[a]).directive.name@ == directive->0@
            && subgraph.schema.applied_directives@[a].target@ == target
}

proof fn lemma_elements_with(subgraph: Subgraph, directive: Option<String>, target: Target)
    ensures
        elements_with(subgraph, directive).contains(target) <==> applies_to(
            subgraph,
            directive,
            target,
        ),
{
    let given = subgraph.schema.applied_directives@;
    match directive {
        Some(name) => {
            law_elements_of_a_directive(applications(given), name@);
            if elements_with(subgraph, directive).contains(target) {
                let a = choose|a: int|
                    0 <= a < applications(given).len() && (
                    #[trigger] applications(given)[a]).directive.name == name@ && applications(
                        given,
                    )[a].target == target;
                assert(given[a].directive.name@ == name@);
            }
            if applies_to(subgraph, directive, target) {
                let a = choose|a: int|
                    0 <= a < given.len() && (#[trigger] given[a]).directive.name@ == name@
                        && given[a].target@ == target;
                assert(applications(given)[a].directive.name == name@);
            }
        },
        None => {},
    }
}

/// The elements that `@override` is listed for are those that some subgraph applies it to, each
/// once.
pub proof fn law_elements_with_override(subgraphs: Seq<Subgraph>)
    ensures
        forall|target: Target| #[trigger]
            elements_with_override(subgraphs).contains(target) <==> exists|s: int|
                0 <= s < subgraphs.len() && applies_to(
                    #[trigger] subgraphs[s],
                    subgraphs[s].override_directive_name,
                    target,
                ),
        elements_with_override(subgraphs).no_duplicates(),
    decreases subgraphs.len(),
{
    if subgraphs.len() > 0 {
        let rest = subgraphs.drop_last();
        let last = subgraphs.last();
        let before = elements_with_override(rest);
        let added = elements_with(last, last.override_directive_name);
        let after = elements_with_override(subgraphs);
        law_elements_with_override(rest);
        law_distinct_items_are_added(before, added);
        assert forall|target: Target| #[trigger] after.contains(target) <==> exists|s: int|
            0 <= s < subgraphs.len() && applies_to(
                #[trigger] subgraphs[s],
                subgraphs[s].override_directive_name,
                target,
            ) by {
            lemma_elements_with(last, last.override_directive_name, target);
            assert(after.contains(target) <==> before.contains(target) || added.contains(target));
            assert(subgraphs[subgraphs.len() - 1] == last);
            if before.contains(target) {
                let s = choose|s: int|
                    0 <= s < rest.len() && applies_to(
                        #[trigger] rest[s],
                        rest[s].override_directive_name,
                        target,
                    );
                assert(subgraphs[s] == rest[s]);
            }
            if exists|s: int|
                0 <= s < subgraphs.len() && applies_to(
                    #[trigger] subgraphs[s],
                    subgraphs[s].override_directive_name,
                    target,
                ) {
                let s = choose|s: int|
                    0 <= s < subgraphs.len() && applies_to(
                        #[trigger] subgraphs[s],
                        subgraphs[s].override_directive_name,
                        target,
                    );
                if s < rest.len() {
                    assert(rest[s] == subgraphs[s]);
                    assert(before.contains(target));
                }
            }
        }
    }
}

/// The elements that `@fromContext` is listed for are those that some subgraph applies it to, each
/// once.
pub proof fn law_elements_with_from_context(subgraphs: Seq<Subgraph>)
    ensures
        forall|target: Target| #[trigger]
            elements_with_from_context(subgraphs).contains(target) <==> exists|s: int|
                0 <= s < subgraphs.len() && applies_to(
                    #[trigger] subgraphs[s],
                    subgraphs[s].from_context_directive_name,
                    target,
                ),
        elements_with_from_context(subgraphs).no_duplicates(),
    decreases subgraphs.len(),
{
    if subgraphs.len() > 0 {
        let rest = subgraphs.drop_last();
        let last = subgraphs.last();
        let before = elements_with_from_context(rest);
        let added = elements_with(last, last.from_context_directive_name);
        let after = elements_with_from_context(subgraphs);
        law_elements_with_from_context(rest);
        law_distinct_items_are_added(before, added);
        assert forall|target: Target| #[trigger] after.contains(target) <==> exists|s: int|
            0 <= s < subgraphs.len() && applies_to(
                #[trigger] subgraphs[s],
                subgraphs[s].from_context_directive_name,
                target,
            ) by {
            lemma_elements_with(last, last.from_context_directive_name, target);
            assert(after.contains(target) <==> before.contains(target) || added.contains(target));
            assert(subgraphs[subgraphs.len() - 1] == last);
            if before.contains(target) {
                let s = choose|s: int|
                    0 <= s < rest.len() && applies_to(
                        #[trigger] rest[s],
                        rest[s].from_context_directive_name,
                        target,
                    );
                assert(subgraphs[s] == rest[s]);
            }
            if exists|s: int|
                0 <= s < subgraphs.len() && applies_to(
                    #[trigger] subgraphs[s],
                    subgraphs[s].from_context_directive_name,
                    target,
                ) {
                let s = choose|s: int|
                    0 <= s < subgraphs.len() && applies_to(
                        #[trigger] subgraphs[s],
                        subgraphs[s].from_context_directive_name,
                        target,
                    );
                if s < rest.len() {
                    assert(rest[s] == subgraphs[s]);
                    assert(before.contains(target));
                }
            }
        }
    }
}

/// The fields of a type are those that its definition lists, for object and interface types; other
/// types have none.
pub proof fn law_fields_of_a_type(ty: TypeDefinition)
    ensures
        match ty.definition {
            ExtendedType::Object(t) => fields_of(ty) == t.fields@,
            ExtendedType::Interface(t) => fields_of(ty) == t.fields@,
            _ => fields_of(ty).len() == 0,
        },
{
}

} // verus!
