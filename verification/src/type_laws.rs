//! What holds of the merge of types, in terms of the schema and of what the subgraphs give.

use crate::ast::{Type, TypeShape};
use crate::enum_usage::{ExampleRecord, UsageRecord};
use crate::lookup_laws::{has_no_type, is_first_type, law_first_type_is_found};
use crate::merge_types::{
    given_types, merged_types, missing_type, report_copied_type, report_type_merge, strict_subtype,
    track_usage, type_text, type_texts, TypeMerge,
};
use crate::report::{ErrorKind, HintCode, Report};
use crate::schema::{ExtendedType, TypeDefinition};
use crate::text::texts;
use vstd::prelude::*;

verus! {

/// Whether one of the strings is the name.
pub open spec fn lists_name(strings: Seq<String>, name: Seq<char>) -> bool {
    exists|i: int| 0 <= i < strings.len() && (#[trigger] strings[i])@ == name
}

/// Whether the definition is an object or interface type that implements the interface.
pub open spec fn implements(definition: ExtendedType, interface: Seq<char>) -> bool {
    match definition {
        ExtendedType::Object(t) => lists_name(t.implements_interfaces@, interface),
        ExtendedType::Interface(t) => lists_name(t.implements_interfaces@, interface),
        _ => false,
    }
}

/// Whether the definition is a union type with the member.
pub open spec fn has_member(definition: ExtendedType, member: Seq<char>) -> bool {
    match definition {
        ExtendedType::Union(members) => lists_name(members@, member),
        _ => false,
    }
}

/// Whether the first type is below the second: it implements the second, which is an interface, or
/// is a member of the second, which is a union.
pub open spec fn is_below(
    lower: ExtendedType,
    lower_name: Seq<char>,
    upper: ExtendedType,
    upper_name: Seq<char>,
) -> bool {
    ||| upper is Interface && implements(lower, upper_name)
    ||| has_member(upper, lower_name) && (lower is Object || lower is Interface)
}

/// Of two different types of the schema, one is a strict subtype of the other where, and only
/// where, it implements it or is a member of it. The same goes for the non-null forms of both and
/// for the non-null form of the lower one, and does not hold of a nullable type and a non-null one.
pub proof fn law_strict_subtypes_are_below(
    types: Seq<TypeDefinition>,
    p: int,
    q: int,
    lower: Seq<char>,
    upper: Seq<char>,
)
    requires
        is_first_type(types, p, lower),
        is_first_type(types, q, upper),
        lower != upper,
    ensures
        ({
            let below = Ok::<bool, Seq<char>>(
                is_below(types[p].definition, lower, types[q].definition, upper),
            );
            &&& strict_subtype(types, TypeShape::Named(upper), TypeShape::Named(lower)) == below
            &&& strict_subtype(types, TypeShape::Named(upper), TypeShape::NonNullNamed(lower))
                == below
            &&& strict_subtype(
                types,
                TypeShape::NonNullNamed(upper),
                TypeShape::NonNullNamed(lower),
            ) == below
            &&& strict_subtype(types, TypeShape::NonNullNamed(upper), TypeShape::Named(lower))
                == Ok::<bool, Seq<char>>(false)
        }),
{
    law_first_type_is_found(types, lower);
    law_first_type_is_found(types, upper);
    let sub = types[p].definition;
    let sup = types[q].definition;
    match sub {
        ExtendedType::Object(t) | ExtendedType::Interface(t) => {
            lemma_contains_text(t.implements_interfaces@, upper);
        },
        _ => {},
    }
    match sup {
        ExtendedType::Union(members) => {
            lemma_contains_text(members@, lower);
        },
        _ => {},
    }
}

/// A text is in a list of strings where one of them is it.
proof fn lemma_contains_text(strings: Seq<String>, text: Seq<char>)
    ensures
        texts(strings).contains(text) <==> lists_name(strings, text),
{
    let all = texts(strings);
    if all.contains(text) {
        let i = all.index_of(text);
        assert(strings[i]@ == text);
    }
    if lists_name(strings, text) {
        let i = choose|i: int| 0 <= i < strings.len() && (#[trigger] strings[i])@ == text;
        assert(all[i] == text);
    }
}

/// Where one of two types of the schema is missing, their relation is an error that names it.
pub proof fn law_missing_types_are_an_error(
    types: Seq<TypeDefinition>,
    lower: Seq<char>,
    upper: Seq<char>,
)
    requires
        lower != upper,
    ensures
        has_no_type(types, lower) ==> strict_subtype(
            types,
            TypeShape::Named(upper),
            TypeShape::Named(lower),
        ) == Err::<bool, Seq<char>>(missing_type(lower)),
        has_no_type(types, upper) && !has_no_type(types, lower) ==> strict_subtype(
            types,
            TypeShape::Named(upper),
            TypeShape::Named(lower),
        ) == Err::<bool, Seq<char>>(missing_type(upper)),
{
    law_first_type_is_found(types, lower);
    law_first_type_is_found(types, upper);
}

/// Types of which one is below the other are compatible, in either order and position: merging
/// them reports no error but a hint.
pub proof fn law_types_below_each_other_are_compatible(
    types: Seq<TypeDefinition>,
    p: int,
    q: int,
    lower: Seq<char>,
    upper: Seq<char>,
    is_input: bool,
)
    requires
        is_first_type(types, p, lower),
        is_first_type(types, q, upper),
        lower != upper,
        is_below(types[p].definition, lower, types[q].definition, upper),
    ensures
        ({
            let down = seq![TypeShape::Named(upper), TypeShape::Named(lower)];
            let up = seq![TypeShape::Named(lower), TypeShape::Named(upper)];
            &&& !merged_types(types, down, is_input).has_incompatible
            &&& merged_types(types, down, is_input).has_subtypes
            &&& !merged_types(types, up, is_input).has_incompatible
            &&& merged_types(types, up, is_input).has_subtypes
        }),
{
    reveal_with_fuel(merged_types, 2);
    law_strict_subtypes_are_below(types, p, q, lower, upper);
    let a = TypeShape::Named(upper);
    let b = TypeShape::Named(lower);
    assert(seq![a, b].drop_last() =~= seq![a]);
    assert(seq![b, a].drop_last() =~= seq![b]);
}

/// Types of which neither is below the other are incompatible, in either order and position.
pub proof fn law_unrelated_types_are_incompatible(
    types: Seq<TypeDefinition>,
    p: int,
    q: int,
    one: Seq<char>,
    other: Seq<char>,
    is_input: bool,
)
    requires
        is_first_type(types, p, one),
        is_first_type(types, q, other),
        one != other,
        !is_below(types[p].definition, one, types[q].definition, other),
        !is_below(types[q].definition, other, types[p].definition, one),
    ensures
        merged_types(
            types,
            seq![TypeShape::Named(one), TypeShape::Named(other)],
            is_input,
        ).has_incompatible,
{
    reveal_with_fuel(merged_types, 2);
    law_strict_subtypes_are_below(types, p, q, one, other);
    law_strict_subtypes_are_below(types, q, p, other, one);
    let a = TypeShape::Named(one);
    let b = TypeShape::Named(other);
    assert(seq![a, b].drop_last() =~= seq![a]);
}

/// A list and a type that is none are incompatible.
pub proof fn law_list_and_name_are_incompatible(
    types: Seq<TypeDefinition>,
    item: TypeShape,
    name: Seq<char>,
    is_input: bool,
)
    ensures
        ({
            let list = TypeShape::List(Box::new(item));
            let named = TypeShape::Named(name);
            &&& merged_types(types, seq![list, named], is_input).has_incompatible
            &&& merged_types(types, seq![named, list], is_input).has_incompatible
        }),
{
    reveal_with_fuel(merged_types, 2);
    let list = TypeShape::List(Box::new(item));
    let named = TypeShape::Named(name);
    assert(seq![list, named].drop_last() =~= seq![list]);
    assert(seq![named, list].drop_last() =~= seq![named]);
}

/// Each source that has a type gives it, one that has none gives nothing, and what two lists of
/// sources give is what the first gives followed by what the second gives.
pub proof fn law_each_source_gives_its_type(
    first: Seq<(usize, Option<Type>)>,
    second: Seq<(usize, Option<Type>)>,
    key: usize,
    ty: Type,
)
    ensures
        given_types(first + second) == given_types(first) + given_types(second),
        given_types(seq![(key, Some(ty))]) == seq![ty@],
        given_types(seq![(key, None::<Type>)]) == Seq::<TypeShape>::empty(),
        given_types(Seq::empty()) == Seq::<TypeShape>::empty(),
    decreases second.len(),
{
    reveal_with_fuel(given_types, 2);
    assert(seq![(key, Some(ty))].drop_last() =~= Seq::<(usize, Option<Type>)>::empty());
    assert(seq![(key, None::<Type>)].drop_last() =~= Seq::<(usize, Option<Type>)>::empty());
    assert(given_types(seq![(key, Some(ty))]) =~= seq![ty@]);
    if second.len() == 0 {
        assert(first + second =~= first);
        assert(given_types(first) + given_types(second) =~= given_types(first));
    } else {
        assert((first + second).drop_last() =~= first + second.drop_last());
        law_each_source_gives_its_type(first, second.drop_last(), key, ty);
        assert(given_types(first + second) =~= given_types(first) + given_types(second));
    }
}

proof fn lemma_agreement(types: Seq<TypeDefinition>, given: Seq<TypeShape>, is_input: bool)
    requires
        given.len() > 0,
        !merged_types(types, given, is_input).has_subtypes,
        !merged_types(types, given, is_input).has_incompatible,
    ensures
        forall|i: int|
            0 <= i < given.len() ==> #[trigger] given[i] == merged_types(
                types,
                given,
                is_input,
            ).ty,
    decreases given.len(),
{
    if given.len() > 1 {
        let rest = given.drop_last();
        lemma_agreement(types, rest, is_input);
        assert forall|i: int| 0 <= i < given.len() implies #[trigger] given[i] == merged_types(
            types,
            given,
            is_input,
        ).ty by {
            if i < rest.len() {
                assert(rest[i] == given[i]);
            }
        }
    }
}

/// Wherever two sources give different types, whatever stands between them, the merge reports an
/// error or a hint and says that the subgraphs do not agree.
pub proof fn law_different_types_are_reported(
    types: Seq<TypeDefinition>,
    given: Seq<TypeShape>,
    i: int,
    j: int,
    is_input: bool,
    report: Report,
    sources: Seq<(usize, Option<Type>)>,
    coordinate: Seq<char>,
)
    requires
        0 <= i < given.len(),
        0 <= j < given.len(),
        given[i] != given[j],
    ensures
        ({
            let merge = merged_types(types, given, is_input);
            let after = report_type_merge(report, merge, sources, coordinate, is_input);
            &&& merge.has_subtypes || merge.has_incompatible
            &&& after.errors.len() + after.hints.len() == report.errors.len() + report.hints.len()
                + 1
        }),
{
    let merge = merged_types(types, given, is_input);
    if !merge.has_subtypes && !merge.has_incompatible {
        lemma_agreement(types, given, is_input);
        assert(given[i] == merge.ty);
        assert(given[j] == merge.ty);
    }
}

/// A merge of incompatible types reports exactly one error and no hint; one of compatible types
/// that differ reports exactly one hint and no error. Both say what each source has.
pub proof fn law_report_of_a_type_merge(
    report: Report,
    merge: TypeMerge,
    sources: Seq<(usize, Option<Type>)>,
    coordinate: Seq<char>,
    is_input: bool,
    k: int,
)
    requires
        0 <= k < sources.len(),
    ensures
        ({
            let after = report_type_merge(report, merge, sources, coordinate, is_input);
            let text = match sources[k].1 {
                Some(ty) => Some("type \""@ + ty@.notation() + "\""@),
                None => None::<Seq<char>>,
            };
            &&& merge.has_incompatible ==> after.hints == report.hints && after.errors.len()
                == report.errors.len() + 1 && report.errors.is_prefix_of(after.errors)
                && after.errors.last().kind == ErrorKind::InternalError
                && after.errors.last().mismatch is Some && after.errors.last().mismatch->0.element
                == type_text(merge.ty) && after.errors.last().mismatch->0.sources.len()
                == sources.len() && after.errors.last().mismatch->0.sources[k] == (
                sources[k].0,
                text,
            )
            &&& !merge.has_incompatible && merge.has_subtypes ==> after.errors == report.errors
                && after.hints.len() == report.hints.len() + 1 && report.hints.is_prefix_of(
                after.hints,
            ) && after.hints.last().code == (if is_input {
                HintCode::InconsistentButCompatibleArgumentType.code_text()
            } else {
                HintCode::InconsistentButCompatibleFieldType.code_text()
            }) && after.hints.last().mismatch is Some && after.hints.last().mismatch->0.sources[k]
                == (sources[k].0, text) && after.hints.last().mismatch->0.element == type_text(
                merge.ty,
            )
            &&& !merge.has_incompatible && !merge.has_subtypes ==> after == report
        }),
{
}

/// A further type is merged with the type that the earlier ones were merged to, as if it stood
/// alone with it; what was found before stays.
pub proof fn law_further_type_is_merged_with_the_merged_one(
    types: Seq<TypeDefinition>,
    given: Seq<TypeShape>,
    further: TypeShape,
    is_input: bool,
)
    requires
        given.len() > 0,
    ensures
        ({
            let before = merged_types(types, given, is_input);
            let pair = merged_types(types, seq![before.ty, further], is_input);
            merged_types(types, given.push(further), is_input) == TypeMerge {
                ty: pair.ty,
                has_subtypes: before.has_subtypes || pair.has_subtypes,
                has_incompatible: before.has_incompatible || pair.has_incompatible,
            }
        }),
{
    reveal_with_fuel(merged_types, 2);
    let before = merged_types(types, given, is_input);
    assert(given.push(further).drop_last() =~= given);
    assert(seq![before.ty, further].drop_last() =~= seq![before.ty]);
}

/// Giving the merged type once more changes nothing.
pub proof fn law_merged_type_given_again(
    types: Seq<TypeDefinition>,
    given: Seq<TypeShape>,
    is_input: bool,
)
    requires
        given.len() > 0,
    ensures
        merged_types(
            types,
            given.push(merged_types(types, given, is_input).ty),
            is_input,
        ) == merged_types(types, given, is_input),
{
    let more = given.push(merged_types(types, given, is_input).ty);
    assert(more.drop_last() =~= given);
}

/// A type reference that is copied is an error where, and only where, the supergraph has no type
/// of the name under its list and non-null wrappers.
pub proof fn law_copied_type_must_be_there(
    report: Report,
    types: Seq<TypeDefinition>,
    ty: TypeShape,
)
    ensures
        report_copied_type(report, types, ty).hints == report.hints,
        report.errors.is_prefix_of(report_copied_type(report, types, ty).errors),
        report_copied_type(report, types, ty).errors.len() == report.errors.len() + (
        if has_no_type(types, ty.inner_name()) {
            1int
        } else {
            0
        }),
{
    law_first_type_is_found(types, ty.inner_name());
}

/// The name under the wrappers of a list, or of a non-null form, is that of what is wrapped.
pub proof fn law_wrappers_keep_the_name(ty: TypeShape, name: Seq<char>)
    ensures
        TypeShape::List(Box::new(ty)).inner_name() == ty.inner_name(),
        TypeShape::NonNullList(Box::new(ty)).inner_name() == ty.inner_name(),
        TypeShape::Named(name).inner_name() == name,
        TypeShape::NonNullNamed(name).inner_name() == name,
{
}

/// The first use of an enum type is put down under its name, in its position; the uses of other
/// types stay as they were.
pub proof fn law_first_use_of_an_enum_is_recorded(
    usages: Map<Seq<char>, UsageRecord>,
    types: Seq<TypeDefinition>,
    t: int,
    ty: TypeShape,
    example: ExampleRecord,
    is_input: bool,
    other: Seq<char>,
)
    requires
        is_first_type(types, t, ty.inner_name()),
        types[t].definition is Enum,
    ensures
        ({
            let after = track_usage(usages, types, ty, example, is_input);
            &&& after.contains_key(ty.inner_name())
            &&& !usages.contains_key(ty.inner_name()) ==> after[ty.inner_name()] == (if is_input {
                UsageRecord::Input(example)
            } else {
                UsageRecord::Output(example)
            })
            &&& other != ty.inner_name() ==> (after.contains_key(other) <==> usages.contains_key(
                other,
            )) && (usages.contains_key(other) ==> after[other] == usages[other])
        }),
{
    law_first_type_is_found(types, ty.inner_name());
}

/// The uses of what is no enum type of the supergraph are not recorded.
pub proof fn law_only_enums_are_recorded(
    usages: Map<Seq<char>, UsageRecord>,
    types: Seq<TypeDefinition>,
    t: int,
    ty: TypeShape,
    example: ExampleRecord,
    is_input: bool,
)
    requires
        has_no_type(types, ty.inner_name()) || (is_first_type(types, t, ty.inner_name())
            && !(types[t].definition is Enum)),
    ensures
        track_usage(usages, types, ty, example, is_input) == usages,
{
    law_first_type_is_found(types, ty.inner_name());
}

/// The report about the types of an element says of each subgraph what type it gives the element,
/// or that it gives none.
pub proof fn law_type_in_each_subgraph(sources: Seq<(usize, Option<Type>)>, s: int)
    requires
        0 <= s < sources.len(),
    ensures
        type_texts(sources).len() == sources.len(),
        type_texts(sources)[s].0 == sources[s].0,
        match sources[s].1 {
            Some(ty) => type_texts(sources)[s].1 == Some("type \""@ + ty@.notation() + "\""@),
            None => type_texts(sources)[s].1 is None,
        },
{
}

/// The notation of a named type is its name; that of a non-null type has an exclamation mark behind,
/// that of a list the notation of the items in brackets.
pub proof fn law_notation_of_types(inner: TypeShape, name: Seq<char>)
    ensures
        TypeShape::Named(name).notation() == name,
        TypeShape::NonNullNamed(name).notation() == TypeShape::Named(name).notation() + "!"@,
        TypeShape::List(Box::new(inner)).notation() == "["@ + inner.notation() + "]"@,
        TypeShape::NonNullList(Box::new(inner)).notation() == TypeShape::List(
            Box::new(inner),
        ).notation() + "!"@,
{
    reveal_strlit("]");
    reveal_strlit("]!");
    reveal_strlit("!");
    assert("]!"@ =~= "]"@ + "!"@);
    let list = TypeShape::List(Box::new(inner));
    let full = TypeShape::NonNullList(Box::new(inner));
    assert(full.notation() =~= list.notation() + "!"@);
}

} // verus!
