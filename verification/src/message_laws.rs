//! What the messages of a composition mention.

use crate::ast::TypeShape;
use crate::composition::{no_join_name, no_join_spec, no_link_spec};
use crate::merge_directives::{chosen_text, combined_text};
use crate::merge_types::{missing_target_type, type_text};
use crate::override_messages::{
    abstracted, also_overridden, collision, field_gone, from_self, invalid_label, migration,
    not_resolved, on_interface, on_interface_object, overridden, unknown_source,
};
use crate::schema::Target;
use crate::text_laws::stands_at;
use crate::version::Version;
use vstd::prelude::*;

verus! {

/// Whether the part stands somewhere in the text.
pub open spec fn mentions(text: Seq<char>, part: Seq<char>) -> bool {
    exists|start: int| #[trigger] stands_at(text, part, start)
}

proof fn lemma_mentions(before: Seq<char>, part: Seq<char>, after: Seq<char>, text: Seq<char>)
    requires
        text == before + part + after,
    ensures
        mentions(text, part),
{
    let start = before.len() as int;
    assert(text.subrange(start, start + part.len()) =~= part);
    assert(stands_at(text, part, start));
}

proof fn lemma_grows(text: Seq<char>, part: Seq<char>, after: Seq<char>)
    requires
        mentions(text, part),
    ensures
        mentions(text + after, part),
{
    let start = choose|start: int| #[trigger] stands_at(text, part, start);
    let all = text + after;
    assert(all.subrange(start, start + part.len()) =~= text.subrange(start, start + part.len()));
    assert(stands_at(all, part, start));
}

proof fn lemma_ends_in(before: Seq<char>, part: Seq<char>)
    ensures
        mentions(before + part, part),
{
    assert(before + part =~= before + part + Seq::<char>::empty());
    lemma_mentions(before, part, Seq::empty(), before + part);
}

/// What an override that is refused for its place is reported as mentions the field and the
/// subgraph.
pub proof fn law_refusal_mentions_field_and_subgraph(field: Seq<char>, subgraph: Seq<char>)
    ensures
        mentions(on_interface(field, subgraph), field),
        mentions(on_interface(field, subgraph), subgraph),
        mentions(on_interface_object(field, subgraph), field),
        mentions(on_interface_object(field, subgraph), subgraph),
        mentions(field_gone(field, subgraph), field),
        mentions(field_gone(field, subgraph), subgraph),
{
    let a = "@override cannot be used on field \""@;
    let b = "\" on subgraph \""@;
    lemma_ends_in(a, field);
    lemma_grows(a + field, field, b);
    lemma_grows(a + field + b, field, subgraph);
    lemma_ends_in(a + field + b, subgraph);
    let end = "\": @override is not supported on interface type fields."@;
    lemma_grows(a + field + b + subgraph, field, end);
    lemma_grows(a + field + b + subgraph, subgraph, end);
    let c =
        "@override is not yet supported on fields of @interfaceObject types: cannot be used on field \""@;
    lemma_ends_in(c, field);
    lemma_grows(c + field, field, b);
    lemma_grows(c + field + b, field, subgraph);
    lemma_ends_in(c + field + b, subgraph);
    lemma_grows(c + field + b + subgraph, field, "\"."@);
    lemma_grows(c + field + b + subgraph, subgraph, "\"."@);
    let d = "Field \""@;
    let gone = "\" no longer exists in the from subgraph. The @override directive can be removed."@;
    lemma_ends_in(d, field);
    lemma_grows(d + field, field, b);
    lemma_grows(d + field + b, field, subgraph);
    lemma_ends_in(d + field + b, subgraph);
    lemma_grows(d + field + b + subgraph, field, gone);
    lemma_grows(d + field + b + subgraph, subgraph, gone);
}

/// What is said of a source subgraph that does not exist mentions it, the field, the subgraph that
/// names it, and the question behind.
pub proof fn law_unknown_source_mentions_all(
    source: Seq<char>,
    field: Seq<char>,
    subgraph: Seq<char>,
    question: Seq<char>,
)
    ensures
        mentions(unknown_source(source, field, subgraph, question), source),
        mentions(unknown_source(source, field, subgraph, question), field),
        mentions(unknown_source(source, field, subgraph, question), subgraph),
        mentions(unknown_source(source, field, subgraph, question), question),
{
    let t0 = "Source subgraph \""@ + source;
    let t1 = t0 + "\" for field \""@ + field;
    let t2 = t1 + "\" on subgraph \""@ + subgraph;
    let t3 = t2 + "\" does not exist."@;
    lemma_ends_in("Source subgraph \""@, source);
    lemma_ends_in(t0 + "\" for field \""@, field);
    lemma_ends_in(t1 + "\" on subgraph \""@, subgraph);
    lemma_ends_in(t3, question);
    lemma_grows(t0, source, "\" for field \""@);
    lemma_grows(t0 + "\" for field \""@, source, field);
    lemma_grows(t1, source, "\" on subgraph \""@);
    lemma_grows(t1 + "\" on subgraph \""@, source, subgraph);
    lemma_grows(t2, source, "\" does not exist."@);
    lemma_grows(t3, source, question);
    lemma_grows(t1, field, "\" on subgraph \""@);
    lemma_grows(t1 + "\" on subgraph \""@, field, subgraph);
    lemma_grows(t2, field, "\" does not exist."@);
    lemma_grows(t3, field, question);
    lemma_grows(t2, subgraph, "\" does not exist."@);
    lemma_grows(t3, subgraph, question);
}

/// What is said of a subgraph that overrides itself mentions it and the field.
pub proof fn law_self_override_mentions_both(source: Seq<char>, field: Seq<char>)
    ensures
        mentions(from_self(source, field), source),
        mentions(from_self(source, field), field),
{
    let a = "Source and destination subgraphs \""@;
    let b = "\" are the same for overridden field \""@;
    lemma_ends_in(a, source);
    lemma_grows(a + source, source, b);
    lemma_grows(a + source + b, source, field);
    lemma_ends_in(a + source + b, field);
    lemma_grows(a + source + b + field, source, "\""@);
    lemma_grows(a + source + b + field, field, "\""@);
}

/// What is said of two overrides of one field mentions the field and both subgraphs.
pub proof fn law_two_overrides_mention_all(
    field: Seq<char>,
    subgraph: Seq<char>,
    source: Seq<char>,
)
    ensures
        mentions(also_overridden(field, subgraph, source), field),
        mentions(also_overridden(field, subgraph, source), subgraph),
        mentions(also_overridden(field, subgraph, source), source),
        mentions(not_resolved(field, subgraph, source), field),
        mentions(not_resolved(field, subgraph, source), subgraph),
        mentions(not_resolved(field, subgraph, source), source),
{
    let a = "Field \""@;
    let b = "\" on subgraph \""@;
    let start = a + field + b + subgraph;
    lemma_ends_in(a, field);
    lemma_grows(a + field, field, b);
    lemma_grows(a + field + b, field, subgraph);
    lemma_ends_in(a + field + b, subgraph);
    lemma_source_behind(
        start,
        field,
        subgraph,
        "\" is also marked with directive @override in subgraph \""@,
        source,
        "\". Only one @override directive is allowed per field."@,
    );
    lemma_source_behind(
        start,
        field,
        subgraph,
        "\" is not resolved anymore by the from subgraph (it is marked \"@external\" in \""@,
        source,
        "\"). The @override directive can be removed."@,
    );
}

proof fn lemma_source_behind(
    start: Seq<char>,
    field: Seq<char>,
    subgraph: Seq<char>,
    middle: Seq<char>,
    source: Seq<char>,
    end: Seq<char>,
)
    requires
        mentions(start, field),
        mentions(start, subgraph),
    ensures
        mentions(start + middle + source + end, field),
        mentions(start + middle + source + end, subgraph),
        mentions(start + middle + source + end, source),
{
    lemma_grows(start, field, middle);
    lemma_grows(start + middle, field, source);
    lemma_grows(start + middle + source, field, end);
    lemma_grows(start, subgraph, middle);
    lemma_grows(start + middle, subgraph, source);
    lemma_grows(start + middle + source, subgraph, end);
    lemma_ends_in(start + middle, source);
    lemma_grows(start + middle + source, source, end);
}

/// What is said of a directive that does not go with an override mentions the directive and the
/// subgraph that carries it.
pub proof fn law_collision_mentions_the_directive(
    from_field: Seq<char>,
    subgraph: Seq<char>,
    field: Seq<char>,
    carrier: Seq<char>,
    directive: Seq<char>,
)
    ensures
        mentions(collision(from_field, subgraph, field, carrier, directive), carrier),
        mentions(collision(from_field, subgraph, field, carrier, directive), directive),
{
    let t0 = "@override cannot be used on field \""@ + from_field + "\" on subgraph \""@ + subgraph
        + "\" since \""@ + field + "\" on \""@;
    let t1 = t0 + carrier + "\" is marked with directive \"@"@;
    lemma_ends_in(t0, carrier);
    lemma_grows(t0 + carrier, carrier, "\" is marked with directive \"@"@);
    lemma_grows(t1, carrier, directive);
    lemma_ends_in(t1, directive);
    lemma_grows(t1 + directive, carrier, "\""@);
    lemma_grows(t1 + directive, directive, "\""@);
}

/// What is said of an overridden field mentions the field and the subgraph that it is overridden
/// in.
pub proof fn law_overridden_field_is_mentioned(
    field: Seq<char>,
    source: Seq<char>,
    is_referenced: bool,
)
    ensures
        mentions(overridden(field, source, is_referenced), field),
        mentions(overridden(field, source, is_referenced), source),
        mentions(migration(field, source, is_referenced), field),
        mentions(migration(field, source, is_referenced), source),
{
    let a = "Field \""@;
    let b = "\" on subgraph \""@;
    let start = a + field + b + source;
    lemma_ends_in(a, field);
    lemma_grows(a + field, field, b);
    lemma_grows(a + field + b, field, source);
    lemma_ends_in(a + field + b, source);
    let used =
        "\" is overridden. It is still used in some federation directive(s) (@key, @requires, and/or @provides) and/or to satisfy interface constraint(s), but consider marking it @external explicitly or removing it along with its references."@;
    let unused = "\" is overridden. Consider removing it."@;
    lemma_grows(start, field, used);
    lemma_grows(start, source, used);
    lemma_grows(start, field, unused);
    lemma_grows(start, source, unused);
    let migrated =
        "\" is currently being migrated via progressive @override. It is still used in some federation directive(s) (@key, @requires, and/or @provides) and/or to satisfy interface constraint(s). Once the migration is complete, consider marking it @external explicitly or removing it along with its references."@;
    lemma_grows(start, field, migrated);
    lemma_grows(start, source, migrated);
    let moving =
        "\" is currently being migrated with progressive @override. Once the migration is complete, remove the field from subgraph \""@;
    lemma_grows(a + field, field, moving);
    lemma_grows(a + field + moving, field, source);
    lemma_ends_in(a + field + moving, source);
    lemma_grows(a + field + moving + source, field, "\"."@);
    lemma_grows(a + field + moving + source, source, "\"."@);
}

/// What is said of a label that is not valid mentions the label, the field and the subgraph.
pub proof fn law_invalid_label_mentions_all(
    label: Seq<char>,
    field: Seq<char>,
    subgraph: Seq<char>,
)
    ensures
        mentions(invalid_label(label, field, subgraph), label),
        mentions(invalid_label(label, field, subgraph), field),
        mentions(invalid_label(label, field, subgraph), subgraph),
{
    let a = "Invalid @override label \""@;
    let b = "\" on field \""@;
    let start = a + label + b + field;
    lemma_ends_in(a, label);
    lemma_grows(a + label, label, b);
    lemma_grows(a + label + b, label, field);
    lemma_ends_in(a + label + b, field);
    lemma_source_behind(
        start,
        label,
        field,
        "\" on subgraph \""@,
        subgraph,
        "\": labels must start with a letter and after that may contain alphanumerics, underscores, minuses, colons, periods, or slashes. Alternatively, labels may be of the form \"percent(x)\" where x is a float between 0-100 inclusive."@,
    );
}

/// What is said of a specification or a type that is missing mentions the version or the type.
pub proof fn law_missing_elements_are_mentioned(version: Version, name: Seq<char>, ty: TypeShape)
    ensures
        mentions(no_join_spec(version), version.notation()),
        mentions(no_link_spec(version), version.notation()),
        mentions(no_join_name(name), name),
        mentions(missing_target_type(name), name),
        mentions(type_text(ty), ty.notation()),
{
    lemma_ends_in("No join spec version found for federation version "@, version.notation());
    lemma_ends_in("No link spec version found for federation version "@, version.notation());
    lemma_mentions(
        "Could not find join spec name for subgraph '"@,
        name,
        "'"@,
        no_join_name(name),
    );
    lemma_mentions("Cannot find type '"@, name, "' in target schema"@, missing_target_type(name));
    lemma_mentions("type \""@, ty.notation(), "\""@, type_text(ty));
}

/// The hints about a merged directive mention the directive and the element.
pub proof fn law_merged_directive_is_mentioned(
    name: Seq<char>,
    target: Target,
    strategy: Seq<char>,
)
    ensures
        mentions(combined_text(name, target, strategy), name),
        mentions(combined_text(name, target, strategy), target.coordinate()),
        mentions(combined_text(name, target, strategy), strategy),
        mentions(chosen_text(name, target), name),
        mentions(chosen_text(name, target), target.coordinate()),
{
    let element = target.coordinate();
    let b = " is applied to \""@;
    let first = "Directive @"@;
    let start = first + name + b + element;
    lemma_ends_in(first, name);
    lemma_grows(first + name, name, b);
    lemma_grows(first + name + b, name, element);
    lemma_ends_in(first + name + b, element);
    let middle =
        "\" in multiple subgraphs with different arguments. Merging strategies used by arguments: "@;
    lemma_grows(start, name, middle);
    lemma_grows(start + middle, name, strategy);
    lemma_grows(start, element, middle);
    lemma_grows(start + middle, element, strategy);
    lemma_ends_in(start + middle, strategy);
    let other = "Non-repeatable directive @"@;
    let begin = other + name + b + element;
    lemma_ends_in(other, name);
    lemma_grows(other + name, name, b);
    lemma_grows(other + name + b, name, element);
    lemma_ends_in(other + name + b, element);
    let end = "\" in mulitple subgraphs but with incompatible arguments. "@;
    lemma_grows(begin, name, end);
    lemma_grows(begin, element, end);
}

/// What is said of a field that a source abstracts mentions the source and the types.
pub proof fn law_abstracted_field_is_mentioned(
    field: Seq<char>,
    subgraph: Seq<char>,
    source: Seq<char>,
    types: Seq<char>,
)
    ensures
        mentions(abstracted(field, subgraph, source, types), source),
        mentions(abstracted(field, subgraph, source, types), types),
{
    let t0 = "Invalid @override on field \""@ + field + "\" of subgraph \""@ + subgraph
        + "\": source subgraph \""@;
    let t1 = t0 + source + "\" does not have field \""@ + field + "\" but abstract it in "@;
    let end = " and overriding abstracted fields is not supported."@;
    lemma_ends_in(t0, source);
    lemma_grows(t0 + source, source, "\" does not have field \""@);
    lemma_grows(t0 + source + "\" does not have field \""@, source, field);
    lemma_grows(
        t0 + source + "\" does not have field \""@ + field,
        source,
        "\" but abstract it in "@,
    );
    lemma_grows(t1, source, types);
    lemma_ends_in(t1, types);
    lemma_grows(t1 + types, source, end);
    lemma_grows(t1 + types, types, end);
}

} // verus!
