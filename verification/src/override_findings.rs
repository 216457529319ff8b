//! What the validation of `@override` finds, in terms of the fields of the sources.

use crate::ast::{argument_named, ArgumentShape, FieldShape, LocatedDirective, ValueShape};
use crate::directives::{FederationDirective, OverrideHintCode};
use crate::field_context::{
    properties_of, with_label, with_unknown_target, with_unused_overridden, with_used_overridden,
    FieldProperties,
};
use crate::human_readable::{did_you_mean, printed_types};
use crate::index_map::{distinct_keys, has_key, lemma_put};
use crate::labels::is_valid_label;
use crate::lookup_laws::{
    carries, has_no_field, has_no_type, is_directive_name, is_first_application, is_first_argument,
    is_first_field, is_first_type, law_first_application_is_found, law_first_argument_is_found,
    law_first_field_is_found, law_first_subgraph_is_found, law_first_type_is_found,
};
use crate::merger::Known;
use crate::override_laws::{law_each_override_is_looked_at_once, law_label_is_set_on_both};
use crate::override_messages::{
    abstracted, also_overridden, collision, field_gone, from_self, invalid_label, migration,
    not_resolved, on_interface, on_interface_object, overridden, unknown_source, MIGRATION_CODE,
};
use crate::override_pass::{sources_of, DeclaredField};
use crate::overrides::{
    coordinate_of, is_overridden_somewhere, label_argument, labelled, node_location, parent_names,
    Override, OverrideState, SourceInfo,
};
use crate::report::{
    hint_record, plain_error, ASTNodeKind, ErrorKind, ErrorRecord, HintRecord, NodeRecord, Report,
};
use crate::schema::{
    field_places, fields_of, find_field, FieldDefinitionPosition, FieldPlace, Target,
};
use crate::subgraph::{subgraph_named, Subgraph};
use crate::suggest::suggestions;
use crate::text::texts;
use crate::type_laws::lists_name;
use vstd::prelude::*;

verus! {

/// Whether a source, in a Federation 2 subgraph, has a field that carries `@override`.
pub open spec fn is_overriding(
    known: Known,
    sources: Seq<(usize, Option<FieldShape>)>,
    k: int,
) -> bool {
    &&& 0 <= k < sources.len()
    &&& sources[k].0 < known.subgraphs.len()
    &&& known.subgraphs[sources[k].0 as int].is_fed_2_schema
    &&& sources[k].1 matches Some(field) && carries(
        field.directives,
        FederationDirective::Override,
    )
}

/// The name of the subgraph of a source.
pub open spec fn name_at(
    known: Known,
    sources: Seq<(usize, Option<FieldShape>)>,
    k: int,
) -> Seq<char> {
    known.names[sources[k].0 as int]
}

/// Whether no later source has the name of the source.
pub open spec fn is_last_of_its_name(
    known: Known,
    sources: Seq<(usize, Option<FieldShape>)>,
    j: int,
) -> bool {
    &&& 0 <= j < sources.len()
    &&& forall|k: int|
        j < k < sources.len() ==> #[trigger] name_at(known, sources, k) != name_at(
            known,
            sources,
            j,
        )
}

/// Whether the sources have different names.
pub open spec fn have_different_names(
    known: Known,
    sources: Seq<(usize, Option<FieldShape>)>,
) -> bool {
    forall|i: int, j: int|
        0 <= i < j < sources.len() ==> #[trigger] name_at(known, sources, i) != #[trigger] name_at(
            known,
            sources,
            j,
        )
}

/// Whether the element is a field with the name.
pub open spec fn is_field_named(element: Target, name: Seq<char>) -> bool {
    match element {
        Target::ObjectField(_, field) => field == name,
        Target::InterfaceField(_, field) => field == name,
        Target::Element(_) => false,
    }
}

/// Whether one of the elements is a field with the name.
pub open spec fn lists_field_named(elements: Seq<Target>, name: Seq<char>) -> bool {
    exists|i: int| 0 <= i < elements.len() && is_field_named(#[trigger] elements[i], name)
}

/// What a source provides.
spec fn info_at(
    known: Known,
    sources: Seq<(usize, Option<FieldShape>)>,
    dest: FieldShape,
    k: int,
) -> Option<SourceInfo> {
    known.source_info(sources[k].0, sources[k].1, dest)
}

proof fn lemma_infos(
    known: Known,
    sources: Seq<(usize, Option<FieldShape>)>,
    dest: FieldShape,
    info: SourceInfo,
)
    ensures
        known.infos(sources, dest).contains(info) <==> exists|k: int|
            0 <= k < sources.len() && #[trigger] info_at(known, sources, dest, k) == Some(info),
    decreases sources.len(),
{
    let infos = known.infos(sources, dest);
    if sources.len() > 0 {
        let rest = sources.drop_last();
        let before = known.infos(rest, dest);
        let last = sources.len() - 1;
        lemma_infos(known, rest, dest, info);
        if infos.contains(info) {
            let at = infos.index_of(info);
            if at < before.len() {
                assert(before[at] == info);
                let k = choose|k: int|
                    0 <= k < rest.len() && #[trigger] info_at(known, rest, dest, k) == Some(info);
                assert(info_at(known, sources, dest, k) == Some(info));
            } else {
                assert(info_at(known, sources, dest, last) == Some(info));
            }
        }
        if exists|k: int|
            0 <= k < sources.len() && #[trigger] info_at(known, sources, dest, k) == Some(info) {
            let k = choose|k: int|
                0 <= k < sources.len() && #[trigger] info_at(known, sources, dest, k) == Some(info);
            if k < last {
                assert(info_at(known, rest, dest, k) == Some(info));
                assert(infos[before.index_of(info)] == info);
            } else {
                assert(infos[infos.len() - 1] == info);
            }
        }
    }
}

/// What is found under a name is what the last source with the name provides that provides
/// anything.
proof fn lemma_info_named(
    known: Known,
    sources: Seq<(usize, Option<FieldShape>)>,
    dest: FieldShape,
    name: Seq<char>,
)
    ensures
        match known.info_named(known.infos(sources, dest), name) {
            Some(info) => exists|j: int|
                0 <= j < sources.len() && #[trigger] info_at(known, sources, dest, j) == Some(info)
                    && name_at(known, sources, j) == name && forall|k: int|
                    j < k < sources.len() && #[trigger] name_at(known, sources, k) == name
                        ==> info_at(known, sources, dest, k) is None,
            None => forall|k: int|
                0 <= k < sources.len() && #[trigger] name_at(known, sources, k) == name
                    ==> info_at(known, sources, dest, k) is None,
        },
    decreases sources.len(),
{
    if sources.len() > 0 {
        let rest = sources.drop_last();
        let last = sources.len() - 1;
        let infos = known.infos(sources, dest);
        let before = known.infos(rest, dest);
        lemma_info_named(known, rest, dest, name);
        assert(name_at(known, sources, last) == known.names[sources.last().0 as int]);
        if info_at(known, sources, dest, last) is Some {
            assert(infos.drop_last() =~= before);
            assert(infos.last() == info_at(known, sources, dest, last)->0);
        } else {
            assert(infos == before);
        }
        if info_at(known, sources, dest, last) is Some && name_at(known, sources, last) == name {
            assert(known.info_named(infos, name) == info_at(known, sources, dest, last));
        } else {
            assert(known.info_named(infos, name) == known.info_named(before, name));
            match known.info_named(before, name) {
                Some(info) => {
                    let j = choose|j: int|
                        0 <= j < rest.len() && #[trigger] info_at(known, rest, dest, j) == Some(
                            info,
                        ) && name_at(known, rest, j) == name && forall|k: int|
                            j < k < rest.len() && #[trigger] name_at(known, rest, k) == name
                                ==> info_at(known, rest, dest, k) is None;
                    assert(info_at(known, sources, dest, j) == Some(info));
                    assert(name_at(known, sources, j) == name);
                    assert forall|k: int|
                        j < k < sources.len() && #[trigger] name_at(known, sources, k)
                            == name implies info_at(known, sources, dest, k) is None by {
                        if k < last {
                            assert(name_at(known, rest, k) == name);
                            assert(info_at(known, rest, dest, k) is None);
                        }
                    }
                },
                None => {
                    assert forall|k: int|
                        0 <= k < sources.len() && #[trigger] name_at(known, sources, k)
                            == name implies info_at(known, sources, dest, k) is None by {
                        if k < last {
                            assert(name_at(known, rest, k) == name);
                            assert(info_at(known, rest, dest, k) is None);
                        }
                    }
                },
            }
        }
    }
}

proof fn lemma_info_of_last(
    known: Known,
    sources: Seq<(usize, Option<FieldShape>)>,
    dest: FieldShape,
    j: int,
)
    requires
        is_last_of_its_name(known, sources, j),
        info_at(known, sources, dest, j) is Some,
    ensures
        known.info_named(known.infos(sources, dest), name_at(known, sources, j)) == info_at(
            known,
            sources,
            dest,
            j,
        ),
{
    let name = name_at(known, sources, j);
    lemma_info_named(known, sources, dest, name);
    match known.info_named(known.infos(sources, dest), name) {
        Some(info) => {
            let i = choose|i: int|
                0 <= i < sources.len() && #[trigger] info_at(known, sources, dest, i) == Some(info)
                    && name_at(known, sources, i) == name && forall|k: int|
                    i < k < sources.len() && #[trigger] name_at(known, sources, k) == name
                        ==> info_at(known, sources, dest, k) is None;
            if i < j {
                assert(name_at(known, sources, j) == name);
            }
        },
        None => {
            assert(name_at(known, sources, j) == name);
        },
    }
}

/// The subgraphs that override a field are those of the sources whose field carries `@override`.
proof fn lemma_overriding(
    known: Known,
    sources: Seq<(usize, Option<FieldShape>)>,
    dest: FieldShape,
    name: Seq<char>,
)
    ensures
        known.overriding(known.infos(sources, dest)).contains(name) <==> exists|k: int|
            #[trigger] is_overriding(known, sources, k) && name_at(known, sources, k) == name,
{
    let infos = known.infos(sources, dest);
    law_each_override_is_looked_at_once(known, infos);
    if known.overriding(infos).contains(name) {
        let i = choose|i: int|
            0 <= i < infos.len() && (#[trigger] infos[i]).directive is Some
                && known.names[infos[i].subgraph as int] == name;
        assert(infos.contains(infos[i]));
        lemma_infos(known, sources, dest, infos[i]);
        let k = choose|k: int|
            0 <= k < sources.len() && #[trigger] info_at(known, sources, dest, k) == Some(infos[i]);
        law_first_application_is_found(
            sources[k].1->0.directives,
            FederationDirective::Override,
        );
        assert(is_overriding(known, sources, k));
        assert(name_at(known, sources, k) == name);
    }
    if exists|k: int|
        #[trigger] is_overriding(known, sources, k) && name_at(known, sources, k) == name {
        let k = choose|k: int|
            #[trigger] is_overriding(known, sources, k) && name_at(known, sources, k) == name;
        law_first_application_is_found(
            sources[k].1->0.directives,
            FederationDirective::Override,
        );
        let info = info_at(known, sources, dest, k)->0;
        lemma_infos(known, sources, dest, info);
        let i = infos.index_of(info);
        assert(infos[i].directive is Some);
    }
}

/// Nothing found out yet.
spec fn blank() -> OverrideState {
    OverrideState { report: Report::empty(), context: Seq::empty() }
}

/// What one subgraph that overrides the field adds.
spec fn added(known: Known, infos: Seq<SourceInfo>, dest: FieldShape, name: Seq<char>) ->
    OverrideState {
    known.override_checked(infos, dest, name, blank())
}

/// The properties with others on top.
spec fn combined(before: FieldProperties, on_top: FieldProperties) -> FieldProperties {
    FieldProperties {
        used_overridden: before.used_overridden || on_top.used_overridden,
        unused_overridden: before.unused_overridden || on_top.unused_overridden,
        override_with_unknown_target: before.override_with_unknown_target
            || on_top.override_with_unknown_target,
        override_label: match on_top.override_label {
            Some(label) => Some(label),
            None => before.override_label,
        },
    }
}

proof fn lemma_with_mark(context: Seq<(usize, FieldProperties)>, marked: usize, subgraph: usize)
    requires
        distinct_keys(context),
    ensures
        distinct_keys(with_used_overridden(context, marked)),
        distinct_keys(with_unused_overridden(context, marked)),
        distinct_keys(with_unknown_target(context, marked)),
        properties_of(with_used_overridden(context, marked), subgraph) == (if subgraph == marked {
            FieldProperties { used_overridden: true, ..properties_of(context, subgraph) }
        } else {
            properties_of(context, subgraph)
        }),
        properties_of(with_unused_overridden(context, marked), subgraph) == (if subgraph
            == marked {
            FieldProperties { unused_overridden: true, ..properties_of(context, subgraph) }
        } else {
            properties_of(context, subgraph)
        }),
        properties_of(with_unknown_target(context, marked), subgraph) == (if subgraph == marked {
            FieldProperties {
                override_with_unknown_target: true,
                ..properties_of(context, subgraph)
            }
        } else {
            properties_of(context, subgraph)
        }),
{
    let before = properties_of(context, marked);
    lemma_put(
        context,
        marked,
        FieldProperties { used_overridden: true, ..before },
        subgraph,
    );
    lemma_put(
        context,
        marked,
        FieldProperties { unused_overridden: true, ..before },
        subgraph,
    );
    lemma_put(
        context,
        marked,
        FieldProperties { override_with_unknown_target: true, ..before },
        subgraph,
    );
}

proof fn lemma_with_label(
    context: Seq<(usize, FieldProperties)>,
    marked: usize,
    label: Seq<char>,
    subgraph: usize,
)
    requires
        distinct_keys(context),
    ensures
        distinct_keys(with_label(context, marked, label)),
        properties_of(with_label(context, marked, label), subgraph) == (if subgraph == marked {
            FieldProperties { override_label: Some(label), ..properties_of(context, subgraph) }
        } else {
            properties_of(context, subgraph)
        }),
{
    lemma_put(
        context,
        marked,
        FieldProperties { override_label: Some(label), ..properties_of(context, marked) },
        subgraph,
    );
}

/// Whether a state is another one with a step on top, as far as the report and one subgraph are
/// concerned.
spec fn is_on_top(
    after: OverrideState,
    before: OverrideState,
    step: OverrideState,
    subgraph: usize,
) -> bool {
    &&& distinct_keys(after.context)
    &&& distinct_keys(step.context)
    &&& after.report.errors == before.report.errors + step.report.errors
    &&& after.report.hints == before.report.hints + step.report.hints
    &&& properties_of(after.context, subgraph) == combined(
        properties_of(before.context, subgraph),
        properties_of(step.context, subgraph),
    )
}

proof fn lemma_blank(state: OverrideState, subgraph: usize)
    requires
        distinct_keys(state.context),
    ensures
        is_on_top(state, state, blank(), subgraph),
        properties_of(blank().context, subgraph) == FieldProperties::none(),
{
    assert(!has_key(blank().context, subgraph));
    assert(state.report.errors + blank().report.errors =~= state.report.errors);
    assert(state.report.hints + blank().report.hints =~= state.report.hints);
}

proof fn lemma_error_on_top(
    after: OverrideState,
    before: OverrideState,
    step: OverrideState,
    subgraph: usize,
    kind: ErrorKind,
    message: Seq<char>,
)
    requires
        is_on_top(after, before, step, subgraph),
    ensures
        is_on_top(after.with_error(kind, message), before, step.with_error(kind, message), subgraph),
{
    assert(after.with_error(kind, message).report.errors =~= before.report.errors
        + step.with_error(kind, message).report.errors);
}

proof fn lemma_hint_on_top(
    after: OverrideState,
    before: OverrideState,
    step: OverrideState,
    subgraph: usize,
    code: Seq<char>,
    text: Seq<char>,
    nodes: Seq<NodeRecord>,
)
    requires
        is_on_top(after, before, step, subgraph),
    ensures
        is_on_top(
            after.with_hint(code, text, nodes),
            before,
            step.with_hint(code, text, nodes),
            subgraph,
        ),
{
    assert(after.with_hint(code, text, nodes).report.hints =~= before.report.hints
        + step.with_hint(code, text, nodes).report.hints);
}

proof fn lemma_marked_on_top(known: Known, valid: Override, state: OverrideState, subgraph: usize)
    requires
        distinct_keys(state.context),
    ensures
        is_on_top(
            known.marked(valid, state),
            state,
            known.marked(valid, blank()),
            subgraph,
        ),
{
    lemma_blank(state, subgraph);
    if known.is_external(valid.source, valid.source_field) {
        lemma_hint_on_top(
            state,
            state,
            blank(),
            subgraph,
            OverrideHintCode::OverrideDirectiveCanBeRemoved.code_text(),
            not_resolved(valid.coordinate, valid.subgraph_name, valid.source_name),
            valid.nodes,
        );
    } else {
        lemma_with_mark(state.context, valid.source, subgraph);
        lemma_with_mark(blank().context, valid.source, subgraph);
        let after = OverrideState {
            context: if valid.is_referenced {
                with_used_overridden(state.context, valid.source)
            } else {
                with_unused_overridden(state.context, valid.source)
            },
            ..state
        };
        let step = OverrideState {
            context: if valid.is_referenced {
                with_used_overridden(blank().context, valid.source)
            } else {
                with_unused_overridden(blank().context, valid.source)
            },
            ..blank()
        };
        assert(is_on_top(after, state, step, subgraph));
        lemma_hint_on_top(
            after,
            state,
            step,
            subgraph,
            OverrideHintCode::OverriddenFieldCanBeRemoved.code_text(),
            overridden(valid.coordinate, valid.source_name, valid.is_referenced),
            valid.nodes,
        );
    }
}

proof fn lemma_labelled_on_top(
    valid: Override,
    by: usize,
    after: OverrideState,
    before: OverrideState,
    step: OverrideState,
    subgraph: usize,
)
    requires
        is_on_top(after, before, step, subgraph),
    ensures
        is_on_top(labelled(valid, by, after), before, labelled(valid, by, step), subgraph),
{
    match valid.label {
        Some(label) => {
            let hint = migration(valid.coordinate, valid.source_name, valid.is_referenced);
            if is_valid_label(label) {
                lemma_with_label(after.context, by, label, subgraph);
                lemma_with_label(
                    with_label(after.context, by, label),
                    valid.source,
                    label,
                    subgraph,
                );
                lemma_with_label(step.context, by, label, subgraph);
                lemma_with_label(
                    with_label(step.context, by, label),
                    valid.source,
                    label,
                    subgraph,
                );
                let after_label = OverrideState {
                    context: with_label(
                        with_label(after.context, by, label),
                        valid.source,
                        label,
                    ),
                    ..after
                };
                let step_label = OverrideState {
                    context: with_label(with_label(step.context, by, label), valid.source, label),
                    ..step
                };
                lemma_hint_on_top(
                    after_label,
                    before,
                    step_label,
                    subgraph,
                    MIGRATION_CODE@,
                    hint,
                    valid.nodes,
                );
            } else {
                let message = invalid_label(label, valid.coordinate, valid.subgraph_name);
                let kind = ErrorKind::OverrideLabelInvalid;
                lemma_error_on_top(after, before, step, subgraph, kind, message);
                lemma_hint_on_top(
                    after.with_error(kind, message),
                    before,
                    step.with_error(kind, message),
                    subgraph,
                    MIGRATION_CODE@,
                    hint,
                    valid.nodes,
                );
            }
        },
        None => {},
    }
}

/// What a subgraph that overrides the field adds does not depend on what was found before.
proof fn lemma_step_on_top(
    known: Known,
    infos: Seq<SourceInfo>,
    dest: FieldShape,
    name: Seq<char>,
    state: OverrideState,
    subgraph: usize,
)
    requires
        distinct_keys(state.context),
    ensures
        is_on_top(
            known.override_checked(infos, dest, name, state),
            state,
            added(known, infos, dest, name),
            subgraph,
        ),
{
    let after = known.override_checked(infos, dest, name, state);
    let step = added(known, infos, dest, name);
    lemma_blank(state, subgraph);
    let info = known.info_named(infos, name)->0;
    let directive = info.directive->0;
    let source = match argument_named(directive.directive.arguments, "from"@) {
        Some(ValueShape::String(text)) => text,
        _ => Seq::empty(),
    };
    let from = known.info_named(infos, source)->0;
    let field = coordinate_of(dest);
    let nodes = node_location(directive.location, name, ASTNodeKind::Directive);
    lemma_with_mark(state.context, info.subgraph, subgraph);
    lemma_with_mark(blank().context, info.subgraph, subgraph);
    let unknown = OverrideState {
        context: with_unknown_target(state.context, info.subgraph),
        ..state
    };
    let unknown_step = OverrideState {
        context: with_unknown_target(blank().context, info.subgraph),
        ..blank()
    };
    assert(is_on_top(unknown, state, unknown_step, subgraph));
    lemma_hint_on_top(
        unknown,
        state,
        unknown_step,
        subgraph,
        OverrideHintCode::FromSubgraphDoesNotExist.code_text(),
        unknown_source(
            source,
            field,
            name,
            did_you_mean(
                suggestions(source, known.subgraphs.map_values(|s: Subgraph| s.name@)),
            ),
        ),
        nodes,
    );
    lemma_hint_on_top(
        state,
        state,
        blank(),
        subgraph,
        OverrideHintCode::OverrideDirectiveCanBeRemoved.code_text(),
        field_gone(field, name),
        nodes,
    );
    if after.report.errors.len() > state.report.errors.len() && after.report.hints.len()
        == state.report.hints.len() {
        let error = after.report.errors.last();
        assert(after == state.with_error(error.kind, error.message));
        assert(step == blank().with_error(error.kind, error.message));
        lemma_error_on_top(state, state, blank(), subgraph, error.kind, error.message);
    }
    let source_field = from.field->0;
    let valid = Override {
        subgraph_name: name,
        source: from.subgraph,
        source_name: source,
        source_field,
        coordinate: field,
        is_referenced: known.position_of(source_field) is Some && known.is_used(
            from.subgraph,
            known.position_of(source_field)->0,
        ),
        label: label_argument(directive.directive.arguments),
        nodes,
    };
    lemma_marked_on_top(known, valid, state, subgraph);
    lemma_labelled_on_top(
        valid,
        info.subgraph,
        known.marked(valid, state),
        state,
        known.marked(valid, blank()),
        subgraph,
    );
}

/// Whether one of the subgraphs that override the field adds something.
spec fn one_adds(
    known: Known,
    infos: Seq<SourceInfo>,
    dest: FieldShape,
    names: Seq<Seq<char>>,
    what: spec_fn(OverrideState) -> bool,
) -> bool {
    exists|name: Seq<char>| #[trigger]
        names.contains(name) && what(added(known, infos, dest, name))
}

proof fn lemma_one_adds(
    known: Known,
    infos: Seq<SourceInfo>,
    dest: FieldShape,
    names: Seq<Seq<char>>,
    what: spec_fn(OverrideState) -> bool,
)
    requires
        names.len() > 0,
    ensures
        one_adds(known, infos, dest, names, what) <==> one_adds(
            known,
            infos,
            dest,
            names.drop_last(),
            what,
        ) || what(added(known, infos, dest, names.last())),
{
    let rest = names.drop_last();
    if one_adds(known, infos, dest, names, what) {
        let name = choose|name: Seq<char>| #[trigger]
            names.contains(name) && what(added(known, infos, dest, name));
        let at = names.index_of(name);
        if at < rest.len() {
            assert(rest[at] == name);
            assert(rest.contains(name));
        }
    }
    if one_adds(known, infos, dest, rest, what) {
        let name = choose|name: Seq<char>| #[trigger]
            rest.contains(name) && what(added(known, infos, dest, name));
        assert(names[rest.index_of(name)] == name);
        assert(names.contains(name));
    }
    assert(names[names.len() - 1] == names.last());
    assert(names.contains(names.last()));
}

proof fn lemma_contains_of_both<A>(first: Seq<A>, second: Seq<A>, item: A)
    ensures
        (first + second).contains(item) <==> first.contains(item) || second.contains(item),
{
    let both = first + second;
    if first.contains(item) {
        assert(both[first.index_of(item)] == item);
    }
    if second.contains(item) {
        assert(both[first.len() + second.index_of(item)] == item);
    }
    if both.contains(item) {
        let at = both.index_of(item);
        if at < first.len() {
            assert(first[at] == item);
        } else {
            assert(second[at - first.len()] == item);
        }
    }
}

spec fn with_the_error(error: ErrorRecord) -> spec_fn(OverrideState) -> bool {
    |state: OverrideState| state.report.errors.contains(error)
}

spec fn with_the_hint(hint: HintRecord) -> spec_fn(OverrideState) -> bool {
    |state: OverrideState| state.report.hints.contains(hint)
}

spec fn with_used(subgraph: usize) -> spec_fn(OverrideState) -> bool {
    |state: OverrideState| properties_of(state.context, subgraph).used_overridden
}

spec fn with_unused(subgraph: usize) -> spec_fn(OverrideState) -> bool {
    |state: OverrideState| properties_of(state.context, subgraph).unused_overridden
}

spec fn with_unknown(subgraph: usize) -> spec_fn(OverrideState) -> bool {
    |state: OverrideState| properties_of(state.context, subgraph).override_with_unknown_target
}

/// What is found is what was found before and what each subgraph that overrides the field adds.
proof fn lemma_all_on_top(
    known: Known,
    infos: Seq<SourceInfo>,
    dest: FieldShape,
    names: Seq<Seq<char>>,
    start: OverrideState,
    error: ErrorRecord,
    hint: HintRecord,
    subgraph: usize,
)
    requires
        distinct_keys(start.context),
    ensures
        ({
            let after = known.overrides_checked(infos, dest, names, start);
            let marks = properties_of(after.context, subgraph);
            let before = properties_of(start.context, subgraph);
            &&& distinct_keys(after.context)
            &&& after.report.errors.contains(error) <==> start.report.errors.contains(error)
                || one_adds(known, infos, dest, names, with_the_error(error))
            &&& after.report.hints.contains(hint) <==> start.report.hints.contains(hint)
                || one_adds(known, infos, dest, names, with_the_hint(hint))
            &&& marks.used_overridden <==> before.used_overridden || one_adds(
                known,
                infos,
                dest,
                names,
                with_used(subgraph),
            )
            &&& marks.unused_overridden <==> before.unused_overridden || one_adds(
                known,
                infos,
                dest,
                names,
                with_unused(subgraph),
            )
            &&& marks.override_with_unknown_target <==> before.override_with_unknown_target
                || one_adds(known, infos, dest, names, with_unknown(subgraph))
        }),
    decreases names.len(),
{
    if names.len() > 0 {
        let rest = names.drop_last();
        let middle = known.overrides_checked(infos, dest, rest, start);
        let step = added(known, infos, dest, names.last());
        lemma_all_on_top(known, infos, dest, rest, start, error, hint, subgraph);
        lemma_step_on_top(known, infos, dest, names.last(), middle, subgraph);
        lemma_contains_of_both(middle.report.errors, step.report.errors, error);
        lemma_contains_of_both(middle.report.hints, step.report.hints, hint);
        lemma_one_adds(known, infos, dest, names, with_the_error(error));
        lemma_one_adds(known, infos, dest, names, with_the_hint(hint));
        lemma_one_adds(known, infos, dest, names, with_used(subgraph));
        lemma_one_adds(known, infos, dest, names, with_unused(subgraph));
        lemma_one_adds(known, infos, dest, names, with_unknown(subgraph));
    }
}

proof fn lemma_same_source_list(
    known: Known,
    sources: Seq<(usize, Option<FieldShape>)>,
    others: Seq<(usize, Option<FieldShape>)>,
    dest: FieldShape,
    name: Seq<char>,
)
    requires
        have_different_names(known, others),
        forall|source: (usize, Option<FieldShape>)|
            sources.contains(source) <==> #[trigger] others.contains(source),
    ensures
        known.info_named(known.infos(sources, dest), name) == known.info_named(
            known.infos(others, dest),
            name,
        ),
        known.overriding(known.infos(sources, dest)).contains(name) == known.overriding(
            known.infos(others, dest),
        ).contains(name),
{
    lemma_info_named(known, sources, dest, name);
    lemma_info_named(known, others, dest, name);
    let one = known.info_named(known.infos(sources, dest), name);
    let other = known.info_named(known.infos(others, dest), name);
    if one is Some {
        let i = choose|i: int|
            0 <= i < sources.len() && #[trigger] info_at(known, sources, dest, i) == one
                && name_at(known, sources, i) == name;
        assert(others.contains(sources[i]));
        let j = others.index_of(sources[i]);
        assert(name_at(known, others, j) == name);
        assert(info_at(known, others, dest, j) == one);
        if other is Some {
            let k = choose|k: int|
                0 <= k < others.len() && #[trigger] info_at(known, others, dest, k) == other
                    && name_at(known, others, k) == name;
            assert(j == k);
        }
    } else if other is Some {
        let k = choose|k: int|
            0 <= k < others.len() && #[trigger] info_at(known, others, dest, k) == other
                && name_at(known, others, k) == name;
        assert(others.contains(others[k]));
        let i = sources.index_of(others[k]);
        assert(name_at(known, sources, i) == name);
        assert(info_at(known, sources, dest, i) is Some);
    }
    lemma_overriding(known, sources, dest, name);
    lemma_overriding(known, others, dest, name);
    if exists|k: int|
        #[trigger] is_overriding(known, sources, k) && name_at(known, sources, k) == name {
        let k = choose|k: int|
            #[trigger] is_overriding(known, sources, k) && name_at(known, sources, k) == name;
        assert(others.contains(sources[k]));
        let j = others.index_of(sources[k]);
        assert(is_overriding(known, others, j) && name_at(known, others, j) == name);
    }
    if exists|k: int|
        #[trigger] is_overriding(known, others, k) && name_at(known, others, k) == name {
        let k = choose|k: int|
            #[trigger] is_overriding(known, others, k) && name_at(known, others, k) == name;
        assert(others.contains(others[k]));
        let i = sources.index_of(others[k]);
        assert(is_overriding(known, sources, i) && name_at(known, sources, i) == name);
    }
}

proof fn lemma_same_additions(
    known: Known,
    sources: Seq<(usize, Option<FieldShape>)>,
    others: Seq<(usize, Option<FieldShape>)>,
    dest: FieldShape,
    what: spec_fn(OverrideState) -> bool,
)
    requires
        have_different_names(known, others),
        forall|source: (usize, Option<FieldShape>)|
            sources.contains(source) <==> #[trigger] others.contains(source),
        one_adds(
            known,
            known.infos(sources, dest),
            dest,
            known.overriding(known.infos(sources, dest)),
            what,
        ),
    ensures
        one_adds(
            known,
            known.infos(others, dest),
            dest,
            known.overriding(known.infos(others, dest)),
            what,
        ),
{
    let infos = known.infos(sources, dest);
    let other_infos = known.infos(others, dest);
    let name = choose|name: Seq<char>| #[trigger]
        known.overriding(infos).contains(name) && what(added(known, infos, dest, name));
    lemma_same_source_list(known, sources, others, dest, name);
    let source = match known.info_named(infos, name) {
        Some(info) => match info.directive {
            Some(directive) => match argument_named(directive.directive.arguments, "from"@) {
                Some(ValueShape::String(text)) => text,
                _ => Seq::empty(),
            },
            None => Seq::empty(),
        },
        None => Seq::empty(),
    };
    lemma_same_source_list(known, sources, others, dest, source);
    assert(added(known, infos, dest, name) == added(known, other_infos, dest, name));
    assert(known.overriding(other_infos).contains(name));
}

/// What validation finds does not depend on the order of the sources: the same errors, hints and
/// marks come out where the same sources, each under a name of its own, stand in another order.
pub proof fn law_order_of_the_sources_does_not_matter(
    known: Known,
    overridden: Seq<Target>,
    sources: Seq<(usize, Option<FieldShape>)>,
    others: Seq<(usize, Option<FieldShape>)>,
    dest: FieldShape,
    report: Report,
    error: ErrorRecord,
    hint: HintRecord,
    subgraph: usize,
)
    requires
        have_different_names(known, sources),
        have_different_names(known, others),
        forall|source: (usize, Option<FieldShape>)|
            sources.contains(source) <==> #[trigger] others.contains(source),
    ensures
        ({
            let one = known.validated(overridden, sources, dest, report);
            let other = known.validated(overridden, others, dest, report);
            let marks = properties_of(one.context, subgraph);
            let other_marks = properties_of(other.context, subgraph);
            &&& one.report.errors.contains(error) == other.report.errors.contains(error)
            &&& one.report.hints.contains(hint) == other.report.hints.contains(hint)
            &&& marks.used_overridden == other_marks.used_overridden
            &&& marks.unused_overridden == other_marks.unused_overridden
            &&& marks.override_with_unknown_target == other_marks.override_with_unknown_target
        }),
{
    let start = OverrideState { report, context: Seq::empty() };
    let infos = known.infos(sources, dest);
    let other_infos = known.infos(others, dest);
    let names = known.overriding(infos);
    let other_names = known.overriding(other_infos);
    lemma_all_on_top(known, infos, dest, names, start, error, hint, subgraph);
    lemma_all_on_top(known, other_infos, dest, other_names, start, error, hint, subgraph);
    assert forall|source: (usize, Option<FieldShape>)|
        others.contains(source) <==> #[trigger] sources.contains(source) by {
        assert(others.contains(source) == sources.contains(source));
    }
    assert forall|what: spec_fn(OverrideState) -> bool| #[trigger]
        one_adds(known, infos, dest, names, what) == one_adds(
            known,
            other_infos,
            dest,
            other_names,
            what,
        ) by {
        if one_adds(known, infos, dest, names, what) {
            lemma_same_additions(known, sources, others, dest, what);
        }
        if one_adds(known, other_infos, dest, other_names, what) {
            lemma_same_additions(known, others, sources, dest, what);
        }
    }
}

/// An `@override` on the field of one of the sources.
pub struct FieldOverride {
    pub known: Known,
    /// The elements that carry `@override` in some subgraph.
    pub overridden: Seq<Target>,
    pub sources: Seq<(usize, Option<FieldShape>)>,
    /// The field of the supergraph.
    pub dest: FieldShape,
    /// The place of the source that overrides the field.
    pub at: int,
    /// The place of the `@override` among the directives of the field of that source.
    pub application: int,
}

impl FieldOverride {
    /// Whether there is such an override: the source is the one that counts under its name, its
    /// subgraph is a Federation 2 subgraph, and the `@override` is the first one of its field.
    pub open spec fn is_given(self) -> bool {
        &&& lists_field_named(self.overridden, self.dest.name)
        &&& is_last_of_its_name(self.known, self.sources, self.at)
        &&& self.subgraph() < self.known.subgraphs.len()
        &&& self.known.subgraphs[self.subgraph() as int].is_fed_2_schema
        &&& self.sources[self.at].1 is Some
        &&& is_first_application(
            self.field().directives,
            self.application,
            FederationDirective::Override,
        )
    }

    /// Whether no other source overrides the field.
    pub open spec fn is_only_one(self) -> bool {
        forall|k: int| #[trigger] is_overriding(self.known, self.sources, k) ==> k == self.at
    }

    /// The subgraph that overrides the field.
    pub open spec fn subgraph(self) -> usize {
        self.sources[self.at].0
    }

    /// The name of the subgraph that overrides the field.
    pub open spec fn name(self) -> Seq<char> {
        name_at(self.known, self.sources, self.at)
    }

    /// The field that carries the `@override`.
    pub open spec fn field(self) -> FieldShape {
        self.sources[self.at].1->0
    }

    pub open spec fn directive(self) -> LocatedDirective {
        self.field().directives[self.application]
    }

    /// Where the `@override` stands.
    pub open spec fn nodes(self) -> Seq<NodeRecord> {
        match self.directive().location {
            Some(location) => seq![
                NodeRecord { location, subgraph: self.name(), kind: ASTNodeKind::Directive },
            ],
            None => Seq::empty(),
        }
    }

    /// The coordinate of the field, whose type is not at hand.
    pub open spec fn coordinate(self) -> Seq<char> {
        "<Type>."@ + self.dest.name
    }

    pub open spec fn is_on_interface(self) -> bool {
        self.known.position_of(self.field()) matches Some(FieldPlace::Interface(_, _))
    }

    pub open spec fn is_on_interface_object(self) -> bool {
        self.known.position_of(self.field()) matches Some(FieldPlace::Object(typename, _))
            && lists_name(
            self.known.subgraphs[self.subgraph() as int].interface_object_types@,
            typename,
        )
    }

    /// Whether the subgraph that the field is taken over from is named by the string.
    pub open spec fn takes_from(self, source: Seq<char>) -> bool {
        exists|a: int|
            #[trigger] is_first_argument(self.directive().directive.arguments, a, "from"@)
                && self.directive().directive.arguments[a].value == ValueShape::String(source)
    }

    /// Whether the override is one that a subgraph can make, and names the subgraph.
    pub open spec fn is_of(self, source: Seq<char>) -> bool {
        &&& self.is_given()
        &&& !self.is_on_interface()
        &&& !self.is_on_interface_object()
        &&& self.takes_from(source)
    }

    /// What is found out, with what was reported before.
    pub open spec fn validated(self, report: Report) -> OverrideState {
        self.known.validated(self.overridden, self.sources, self.dest, report)
    }
}

/// Nothing but a report.
pub open spec fn reported(report: Report) -> OverrideState {
    OverrideState { report, context: Seq::empty() }
}

/// Whether a subgraph has the name.
pub open spec fn is_subgraph_name(known: Known, name: Seq<char>) -> bool {
    exists|s: int| 0 <= s < known.subgraphs.len() && (#[trigger] known.subgraphs[s]).name@ == name
}

proof fn lemma_listed(elements: Seq<Target>, name: Seq<char>)
    ensures
        lists_field_named(elements, name) == is_overridden_somewhere(elements, name),
{
    if lists_field_named(elements, name) {
        let i = choose|i: int|
            0 <= i < elements.len() && is_field_named(#[trigger] elements[i], name);
        assert(is_overridden_somewhere(elements, name)) by {
            assert(match elements[i] {
                Target::ObjectField(_, field) => field == name,
                Target::InterfaceField(_, field) => field == name,
                Target::Element(_) => false,
            });
        }
    }
    if is_overridden_somewhere(elements, name) {
        let i = choose|i: int|
            0 <= i < elements.len() && match #[trigger] elements[i] {
                Target::ObjectField(_, field) => field == name,
                Target::InterfaceField(_, field) => field == name,
                Target::Element(_) => false,
            };
        assert(is_field_named(elements[i], name));
    }
}

spec fn infos_of(o: FieldOverride) -> Seq<SourceInfo> {
    o.known.infos(o.sources, o.dest)
}

spec fn added_by(o: FieldOverride) -> OverrideState {
    added(o.known, infos_of(o), o.dest, o.name())
}

spec fn own_info(o: FieldOverride) -> SourceInfo {
    SourceInfo {
        subgraph: o.subgraph(),
        field: Some(o.field()),
        on_interface: o.is_on_interface(),
        on_interface_object: o.is_on_interface_object(),
        directive: Some(o.directive()),
        abstracting: Seq::empty(),
    }
}

/// What an override adds is found.
proof fn lemma_override_is_found(
    o: FieldOverride,
    report: Report,
    error: ErrorRecord,
    hint: HintRecord,
    subgraph: usize,
)
    requires
        o.is_given(),
    ensures
        o.known.info_named(infos_of(o), o.name()) == Some(own_info(o)),
        o.known.overriding(infos_of(o)).contains(o.name()),
        added_by(o).report.errors.contains(error) ==> o.validated(report).report.errors.contains(
            error,
        ),
        added_by(o).report.hints.contains(hint) ==> o.validated(report).report.hints.contains(hint),
        properties_of(added_by(o).context, subgraph).used_overridden ==> properties_of(
            o.validated(report).context,
            subgraph,
        ).used_overridden,
        properties_of(added_by(o).context, subgraph).unused_overridden ==> properties_of(
            o.validated(report).context,
            subgraph,
        ).unused_overridden,
        properties_of(added_by(o).context, subgraph).override_with_unknown_target
            ==> properties_of(o.validated(report).context, subgraph).override_with_unknown_target,
        o.is_only_one() ==> o.validated(report) == o.known.override_checked(
            infos_of(o),
            o.dest,
            o.name(),
            reported(report),
        ),
{
    let infos = infos_of(o);
    let names = o.known.overriding(infos);
    let name = o.name();
    let kind = FederationDirective::Override;
    lemma_listed(o.overridden, o.dest.name);
    law_first_application_is_found(o.field().directives, kind);
    assert(o.field().directives[o.application] == o.directive());
    assert(carries(o.field().directives, kind));
    assert(is_overriding(o.known, o.sources, o.at));
    match o.known.position_of(o.field()) {
        Some(FieldPlace::Object(typename, _)) => {
            let listed = o.known.subgraphs[o.subgraph() as int].interface_object_types@;
            lemma_lists_name(listed, typename);
        },
        _ => {},
    }
    assert(info_at(o.known, o.sources, o.dest, o.at) == Some(own_info(o)));
    lemma_info_of_last(o.known, o.sources, o.dest, o.at);
    lemma_overriding(o.known, o.sources, o.dest, name);
    lemma_all_on_top(
        o.known,
        infos,
        o.dest,
        names,
        reported(report),
        error,
        hint,
        subgraph,
    );
    assert(names.contains(name));
    if with_the_error(error)(added_by(o)) {
        assert(one_adds(o.known, infos, o.dest, names, with_the_error(error)));
    }
    if with_the_hint(hint)(added_by(o)) {
        assert(one_adds(o.known, infos, o.dest, names, with_the_hint(hint)));
    }
    if with_used(subgraph)(added_by(o)) {
        assert(one_adds(o.known, infos, o.dest, names, with_used(subgraph)));
    }
    if with_unused(subgraph)(added_by(o)) {
        assert(one_adds(o.known, infos, o.dest, names, with_unused(subgraph)));
    }
    if with_unknown(subgraph)(added_by(o)) {
        assert(one_adds(o.known, infos, o.dest, names, with_unknown(subgraph)));
    }
    if o.is_only_one() {
        law_each_override_is_looked_at_once(o.known, infos);
        assert forall|i: int| 0 <= i < names.len() implies names[i] == name by {
            assert(names.contains(names[i]));
            lemma_overriding(o.known, o.sources, o.dest, names[i]);
            let k = choose|k: int|
                #[trigger] is_overriding(o.known, o.sources, k) && name_at(o.known, o.sources, k)
                    == names[i];
            assert(k == o.at);
        }
        if names.len() > 1 {
            assert(names[0] == names[1]);
        }
        assert(names =~= seq![name]);
        assert(names.drop_last() =~= Seq::<Seq<char>>::empty());
        reveal_with_fuel(Known::overrides_checked, 2);
    }
}

proof fn lemma_lists_name(strings: Seq<String>, name: Seq<char>)
    ensures
        lists_name(strings, name) == texts(strings).contains(name),
{
    if lists_name(strings, name) {
        let i = choose|i: int| 0 <= i < strings.len() && (#[trigger] strings[i])@ == name;
        assert(texts(strings)[i] == name);
    }
    if texts(strings).contains(name) {
        let i = texts(strings).index_of(name);
        assert(strings[i]@ == name);
    }
}

proof fn lemma_from(o: FieldOverride, source: Seq<char>)
    requires
        o.takes_from(source),
    ensures
        argument_named(o.directive().directive.arguments, "from"@) == Some(
            ValueShape::String(source),
        ),
{
    let arguments = o.directive().directive.arguments;
    let a = choose|a: int|
        #[trigger] is_first_argument(arguments, a, "from"@) && arguments[a].value
            == ValueShape::String(source);
    law_first_argument_is_found(arguments, "from"@);
    assert(arguments[a].value == ValueShape::String(source));
}

proof fn lemma_single<A>(item: A)
    ensures
        Seq::<A>::empty().push(item).contains(item),
{
    assert(Seq::<A>::empty().push(item)[0] == item);
}

/// An `@override` on a field of an interface is an error, whichever sources stand before it.
pub proof fn law_override_on_an_interface_is_an_error(o: FieldOverride, report: Report)
    requires
        o.is_given(),
        o.is_on_interface(),
    ensures
        ({
            let kind = ErrorKind::OverrideOnInterface;
            let message = on_interface(o.coordinate(), o.name());
            &&& o.validated(report).report.errors.contains(plain_error(kind, message))
            &&& o.is_only_one() ==> o.validated(report) == reported(report).with_error(
                kind,
                message,
            )
        }),
{
    let error = plain_error(
        ErrorKind::OverrideOnInterface,
        on_interface(o.coordinate(), o.name()),
    );
    lemma_override_is_found(o, report, error, arbitrary(), 0);
    lemma_single(error);
}

/// An `@override` on a field of an object type that carries `@interfaceObject` is an error,
/// whichever sources stand before it.
pub proof fn law_override_on_an_interface_object_is_an_error(o: FieldOverride, report: Report)
    requires
        o.is_given(),
        o.is_on_interface_object(),
    ensures
        ({
            let kind = ErrorKind::DirectiveDefinitionInvalid;
            let message = on_interface_object(o.coordinate(), o.name());
            &&& o.validated(report).report.errors.contains(plain_error(kind, message))
            &&& o.is_only_one() ==> o.validated(report) == reported(report).with_error(
                kind,
                message,
            )
        }),
{
    let error = plain_error(
        ErrorKind::DirectiveDefinitionInvalid,
        on_interface_object(o.coordinate(), o.name()),
    );
    lemma_override_is_found(o, report, error, arbitrary(), 0);
    lemma_single(error);
}

/// An `@override` from a subgraph that does not exist gives a hint, and the subgraph that makes it
/// is marked, whichever sources stand before it.
pub proof fn law_override_from_nowhere_is_a_hint(
    o: FieldOverride,
    source: Seq<char>,
    report: Report,
)
    requires
        o.is_of(source),
        !is_subgraph_name(o.known, source),
    ensures
        ({
            let after = o.validated(report);
            let code = OverrideHintCode::FromSubgraphDoesNotExist.code_text();
            let names = o.known.subgraphs.map_values(|s: Subgraph| s.name@);
            let text = unknown_source(
                source,
                o.coordinate(),
                o.name(),
                did_you_mean(suggestions(source, names)),
            );
            &&& after.report.hints.contains(hint_record(code, text, o.nodes()))
            &&& properties_of(after.context, o.subgraph()).override_with_unknown_target
            &&& o.is_only_one() ==> after.report == report.with_hint(
                hint_record(code, text, o.nodes()),
            )
        }),
{
    let names = o.known.subgraphs.map_values(|s: Subgraph| s.name@);
    let hint = hint_record(
        OverrideHintCode::FromSubgraphDoesNotExist.code_text(),
        unknown_source(
            source,
            o.coordinate(),
            o.name(),
            did_you_mean(suggestions(source, names)),
        ),
        o.nodes(),
    );
    lemma_override_is_found(o, report, arbitrary(), hint, o.subgraph());
    lemma_from(o, source);
    law_first_subgraph_is_found(o.known.subgraphs, source);
    lemma_with_mark(blank().context, o.subgraph(), o.subgraph());
    lemma_single(hint);
}

/// An `@override` from the subgraph that makes it is an error, whichever sources stand before it.
pub proof fn law_override_from_self_is_an_error(o: FieldOverride, report: Report)
    requires
        o.is_of(o.name()),
        is_subgraph_name(o.known, o.name()),
    ensures
        ({
            let kind = ErrorKind::OverrideFromSelfError;
            let message = from_self(o.name(), o.coordinate());
            &&& o.validated(report).report.errors.contains(plain_error(kind, message))
            &&& o.is_only_one() ==> o.validated(report) == reported(report).with_error(
                kind,
                message,
            )
        }),
{
    let error = plain_error(
        ErrorKind::OverrideFromSelfError,
        from_self(o.name(), o.coordinate()),
    );
    lemma_override_is_found(o, report, error, arbitrary(), 0);
    lemma_from(o, o.name());
    law_first_subgraph_is_found(o.known.subgraphs, o.name());
    lemma_single(error);
}

/// An `@override` from a subgraph that overrides the field too is an error, wherever the two stand
/// among the sources.
pub proof fn law_override_from_an_overriding_one_is_an_error(
    o: FieldOverride,
    k: int,
    report: Report,
)
    requires
        is_overriding(o.known, o.sources, k),
        o.is_of(name_at(o.known, o.sources, k)),
        is_subgraph_name(o.known, name_at(o.known, o.sources, k)),
        name_at(o.known, o.sources, k) != o.name(),
    ensures
        o.validated(report).report.errors.contains(
            plain_error(
                ErrorKind::DirectiveDefinitionInvalid,
                also_overridden(
                    o.coordinate(),
                    o.name(),
                    name_at(o.known, o.sources, k),
                ),
            ),
        ),
{
    let source = name_at(o.known, o.sources, k);
    let error = plain_error(
        ErrorKind::DirectiveDefinitionInvalid,
        also_overridden(o.coordinate(), o.name(), source),
    );
    lemma_override_is_found(o, report, error, arbitrary(), 0);
    lemma_from(o, source);
    law_first_subgraph_is_found(o.known.subgraphs, source);
    lemma_overriding(o.known, o.sources, o.dest, source);
    lemma_single(error);
}

/// Whether a list of field positions has the place.
pub open spec fn lists_place(positions: Seq<FieldDefinitionPosition>, place: FieldPlace) -> bool {
    exists|i: int| 0 <= i < positions.len() && (#[trigger] positions[i])@ == place
}

proof fn lemma_lists_place(positions: Seq<FieldDefinitionPosition>, place: FieldPlace)
    ensures
        lists_place(positions, place) == field_places(positions).contains(place),
{
    if lists_place(positions, place) {
        let i = choose|i: int| 0 <= i < positions.len() && (#[trigger] positions[i])@ == place;
        assert(field_places(positions)[i] == place);
    }
    if field_places(positions).contains(place) {
        let i = field_places(positions).index_of(place);
        assert(positions[i]@ == place);
    }
}

/// A field is external in a subgraph where its position is one of the external ones there. Where
/// the subgraph or the position is not known, it is external if it carries `@external`.
pub proof fn law_external_fields(known: Known, subgraph: usize, field: FieldShape)
    ensures
        known.position_of(field) matches Some(place) ==> (subgraph < known.subgraphs.len()
            ==> known.is_external(subgraph, field) == lists_place(
            known.subgraphs[subgraph as int].external_fields@,
            place,
        )),
        known.position_of(field) is None || subgraph >= known.subgraphs.len()
            ==> known.is_external(subgraph, field) == carries(
            field.directives,
            FederationDirective::External,
        ),
{
    law_first_application_is_found(field.directives, FederationDirective::External);
    match known.position_of(field) {
        Some(place) => {
            if subgraph < known.subgraphs.len() {
                lemma_lists_place(known.subgraphs[subgraph as int].external_fields@, place);
            }
        },
        None => {},
    }
}

/// Whether a field is still needed in a subgraph.
pub open spec fn is_needed(known: Known, subgraph: usize, field: FieldShape) -> bool {
    subgraph < known.subgraphs.len() && (known.position_of(field) matches Some(place)
        && lists_place(known.subgraphs[subgraph as int].used_fields@, place))
}

/// The place of the source that a field is taken over from.
pub open spec fn is_overridden_source(o: FieldOverride, k: int) -> bool {
    let source = name_at(o.known, o.sources, k);
    &&& o.is_of(source)
    &&& is_subgraph_name(o.known, source)
    &&& source != o.name()
    &&& is_last_of_its_name(o.known, o.sources, k)
    &&& forall|j: int| #[trigger]
        is_overriding(o.known, o.sources, j) ==> name_at(o.known, o.sources, j) != source
}

/// An `@override` from a subgraph that neither has nor abstracts the field gives a hint, whichever
/// sources stand before it.
pub proof fn law_override_of_no_field_is_a_hint(o: FieldOverride, source: Seq<char>, report: Report)
    requires
        o.is_of(source),
        is_subgraph_name(o.known, source),
        source != o.name(),
        forall|k: int|
            0 <= k < o.sources.len() && #[trigger] name_at(o.known, o.sources, k) == source
                ==> o.sources[k].1 is None && o.known.abstracting(o.dest, o.sources[k].0).len()
                == 0,
    ensures
        ({
            let code = OverrideHintCode::OverrideDirectiveCanBeRemoved.code_text();
            let text = field_gone(o.coordinate(), o.name());
            &&& o.validated(report).report.hints.contains(hint_record(code, text, o.nodes()))
            &&& o.is_only_one() ==> o.validated(report) == reported(report).with_hint(
                code,
                text,
                o.nodes(),
            )
        }),
{
    let hint = hint_record(
        OverrideHintCode::OverrideDirectiveCanBeRemoved.code_text(),
        field_gone(o.coordinate(), o.name()),
        o.nodes(),
    );
    lemma_override_is_found(o, report, arbitrary(), hint, 0);
    lemma_from(o, source);
    law_first_subgraph_is_found(o.known.subgraphs, source);
    lemma_overriding(o.known, o.sources, o.dest, source);
    lemma_info_named(o.known, o.sources, o.dest, source);
    match o.known.info_named(infos_of(o), source) {
        Some(info) => {
            let j = choose|j: int|
                0 <= j < o.sources.len() && #[trigger] info_at(o.known, o.sources, o.dest, j)
                    == Some(info) && name_at(o.known, o.sources, j) == source;
            assert(name_at(o.known, o.sources, j) == source);
        },
        None => {},
    }
    lemma_single(hint);
}

/// An `@override` from a subgraph that abstracts the field is an error, whichever sources stand
/// before it.
pub proof fn law_override_of_an_abstracted_field_is_an_error(
    o: FieldOverride,
    k: int,
    report: Report,
)
    requires
        is_overridden_source(o, k),
        o.sources[k].1 is None,
        o.known.abstracting(o.dest, o.sources[k].0).len() > 0,
    ensures
        ({
            let kind = ErrorKind::DirectiveDefinitionInvalid;
            let message = abstracted(
                o.coordinate(),
                o.name(),
                name_at(o.known, o.sources, k),
                printed_types(
                    parent_names(o.known, o.known.abstracting(o.dest, o.sources[k].0)),
                ),
            );
            &&& o.validated(report).report.errors.contains(plain_error(kind, message))
            &&& o.is_only_one() ==> o.validated(report) == reported(report).with_error(
                kind,
                message,
            )
        }),
{
    let source = name_at(o.known, o.sources, k);
    let error = plain_error(
        ErrorKind::DirectiveDefinitionInvalid,
        abstracted(
            o.coordinate(),
            o.name(),
            source,
            printed_types(parent_names(o.known, o.known.abstracting(o.dest, o.sources[k].0))),
        ),
    );
    lemma_override_is_found(o, report, error, arbitrary(), 0);
    lemma_from(o, source);
    law_first_subgraph_is_found(o.known.subgraphs, source);
    lemma_overriding(o.known, o.sources, o.dest, source);
    lemma_info_of_last(o.known, o.sources, o.dest, k);
    lemma_single(error);
}

/// The directive that does not go with the override of the field of a source, if there is one:
/// `@requires` or `@provides` on the overridden field, or `@external` on the overriding one.
pub open spec fn conflicts_with(
    o: FieldOverride,
    k: int,
    directive: Seq<char>,
    carrier: Seq<char>,
) -> bool {
    let directives = o.sources[k].1->0.directives;
    let requires_it = carries(directives, FederationDirective::Requires);
    let provides_it = carries(directives, FederationDirective::Provides);
    let is_external = o.known.is_external(o.subgraph(), o.field());
    ||| requires_it && directive == "requires"@ && carrier == name_at(o.known, o.sources, k)
    ||| !requires_it && provides_it && directive == "provides"@ && carrier == name_at(
        o.known,
        o.sources,
        k,
    )
    ||| !requires_it && !provides_it && is_external && directive == "external"@ && carrier
        == o.name()
}

/// Whether nothing stands against the override of the field of a source.
pub open spec fn can_override(o: FieldOverride, k: int) -> bool {
    &&& is_overridden_source(o, k)
    &&& o.sources[k].1 is Some
    &&& !carries(o.sources[k].1->0.directives, FederationDirective::Requires)
    &&& !carries(o.sources[k].1->0.directives, FederationDirective::Provides)
    &&& !o.known.is_external(o.subgraph(), o.field())
}

proof fn lemma_overridden_field(o: FieldOverride, k: int)
    requires
        is_overridden_source(o, k),
        o.sources[k].1 is Some,
    ensures
        ({
            let source = name_at(o.known, o.sources, k);
            let from = info_at(o.known, o.sources, o.dest, k)->0;
            &&& subgraph_named(o.known.subgraphs, source) matches Some(s) && 0 <= s
                < o.known.subgraphs.len() && o.known.subgraphs[s].name@ == source
            &&& !o.known.overriding(infos_of(o)).contains(source)
            &&& o.known.info_named(infos_of(o), source) == Some(from)
            &&& argument_named(o.directive().directive.arguments, "from"@) == Some(
                ValueShape::String(source),
            )
            &&& from.abstracting.len() == 0
            &&& from.subgraph == o.sources[k].0
            &&& from.field == o.sources[k].1
        }),
{
    let source = name_at(o.known, o.sources, k);
    lemma_from(o, source);
    law_first_subgraph_is_found(o.known.subgraphs, source);
    lemma_overriding(o.known, o.sources, o.dest, source);
    lemma_info_of_last(o.known, o.sources, o.dest, k);
}

/// An `@override` that meets `@requires` or `@provides` on the field that it overrides, or
/// `@external` on its own, is an error, whichever sources stand before it.
pub proof fn law_override_with_another_directive_is_an_error(
    o: FieldOverride,
    k: int,
    directive: Seq<char>,
    carrier: Seq<char>,
    report: Report,
)
    requires
        is_overridden_source(o, k),
        o.sources[k].1 is Some,
        conflicts_with(o, k, directive, carrier),
        o.known.subgraphs.len() <= usize::MAX,
    ensures
        ({
            let kind = ErrorKind::OverrideCollisionWithAnotherDirective;
            let message = collision(
                ("<Type>."@ + o.sources[k].1->0.name),
                o.name(),
                o.coordinate(),
                carrier,
                directive,
            );
            &&& o.validated(report).report.errors.contains(plain_error(kind, message))
            &&& o.is_only_one() ==> o.validated(report) == reported(report).with_error(
                kind,
                message,
            )
        }),
{
    let error = plain_error(
        ErrorKind::OverrideCollisionWithAnotherDirective,
        collision(
            ("<Type>."@ + o.sources[k].1->0.name),
            o.name(),
            o.coordinate(),
            carrier,
            directive,
        ),
    );
    let directives = o.sources[k].1->0.directives;
    lemma_override_is_found(o, report, error, arbitrary(), 0);
    lemma_overridden_field(o, k);
    law_first_application_is_found(directives, FederationDirective::Requires);
    law_first_application_is_found(directives, FederationDirective::Provides);
    lemma_single(error);
}

/// The override of a field, where nothing stands against it.
spec fn valid_override(o: FieldOverride, k: int) -> Override {
    Override {
        subgraph_name: o.name(),
        source: o.sources[k].0,
        source_name: name_at(o.known, o.sources, k),
        source_field: o.sources[k].1->0,
        coordinate: o.coordinate(),
        is_referenced: is_needed(o.known, o.sources[k].0, o.sources[k].1->0),
        label: label_argument(o.directive().directive.arguments),
        nodes: o.nodes(),
    }
}

proof fn lemma_valid_override(o: FieldOverride, k: int, state: OverrideState)
    requires
        can_override(o, k),
    ensures
        o.known.override_checked(infos_of(o), o.dest, o.name(), state) == labelled(
            valid_override(o, k),
            o.subgraph(),
            o.known.marked(valid_override(o, k), state),
        ),
{
    let field = o.sources[k].1->0;
    let subgraph = o.sources[k].0;
    lemma_override_is_found(o, Report::empty(), arbitrary(), arbitrary(), 0);
    lemma_overridden_field(o, k);
    law_first_application_is_found(field.directives, FederationDirective::Requires);
    law_first_application_is_found(field.directives, FederationDirective::Provides);
    match o.known.position_of(field) {
        Some(place) => {
            if subgraph < o.known.subgraphs.len() {
                lemma_lists_place(o.known.subgraphs[subgraph as int].used_fields@, place);
            }
        },
        None => {},
    }
}

/// A field that is overridden is marked in its subgraph: as used where it is still needed, as
/// unused where it is not. Without a label a hint says that it can be removed. An external field
/// is not marked: a hint says that the `@override` can be removed.
pub proof fn law_overridden_field_is_marked(o: FieldOverride, k: int, report: Report)
    requires
        can_override(o, k),
    ensures
        ({
            let after = o.validated(report);
            let field = o.sources[k].1->0;
            let source = name_at(o.known, o.sources, k);
            let marks = properties_of(after.context, o.sources[k].0);
            let needed = is_needed(o.known, o.sources[k].0, field);
            let removable = hint_record(
                OverrideHintCode::OverriddenFieldCanBeRemoved.code_text(),
                overridden(o.coordinate(), source, needed),
                o.nodes(),
            );
            let superfluous = hint_record(
                OverrideHintCode::OverrideDirectiveCanBeRemoved.code_text(),
                not_resolved(o.coordinate(), o.name(), source),
                o.nodes(),
            );
            if o.known.is_external(o.sources[k].0, field) {
                after.report.hints.contains(superfluous)
            } else {
                &&& needed ==> marks.used_overridden
                &&& !needed ==> marks.unused_overridden
                &&& label_argument(o.directive().directive.arguments) is None
                    ==> after.report.hints.contains(removable)
            }
        }),
{
    let field = o.sources[k].1->0;
    let source = name_at(o.known, o.sources, k);
    let subgraph = o.sources[k].0;
    let needed = is_needed(o.known, o.sources[k].0, field);
    let valid = valid_override(o, k);
    let marked = o.known.marked(valid, blank());
    let removable = hint_record(
        OverrideHintCode::OverriddenFieldCanBeRemoved.code_text(),
        overridden(o.coordinate(), source, needed),
        o.nodes(),
    );
    let superfluous = hint_record(
        OverrideHintCode::OverrideDirectiveCanBeRemoved.code_text(),
        not_resolved(o.coordinate(), o.name(), source),
        o.nodes(),
    );
    lemma_valid_override(o, k, blank());
    lemma_override_is_found(o, report, arbitrary(), removable, subgraph);
    lemma_override_is_found(o, report, arbitrary(), superfluous, subgraph);
    lemma_with_mark(blank().context, subgraph, subgraph);
    match valid.label {
        Some(label) => {
            lemma_with_label(marked.context, o.subgraph(), label, subgraph);
            lemma_with_label(
                with_label(marked.context, o.subgraph(), label),
                subgraph,
                label,
                subgraph,
            );
        },
        None => {},
    }
    if o.known.is_external(subgraph, field) {
        assert(added_by(o).report.hints[0] == superfluous);
    } else if valid.label is None {
        assert(added_by(o).report.hints[0] == removable);
    }
}

/// An override with a label gives a hint about the migration, and an error where the label is not
/// valid.
pub proof fn law_override_with_a_label(
    o: FieldOverride,
    k: int,
    label: Seq<char>,
    report: Report,
)
    requires
        can_override(o, k),
        label_argument(o.directive().directive.arguments) == Some(label),
    ensures
        ({
            let after = o.validated(report);
            let source = name_at(o.known, o.sources, k);
            let needed = is_needed(o.known, o.sources[k].0, o.sources[k].1->0);
            &&& after.report.hints.contains(
                hint_record(
                    MIGRATION_CODE@,
                    migration(o.coordinate(), source, needed),
                    o.nodes(),
                ),
            )
            &&& !is_valid_label(label) ==> after.report.errors.contains(
                plain_error(
                    ErrorKind::OverrideLabelInvalid,
                    invalid_label(label, o.coordinate(), o.name()),
                ),
            )
        }),
{
    let source = name_at(o.known, o.sources, k);
    let needed = is_needed(o.known, o.sources[k].0, o.sources[k].1->0);
    let hint = hint_record(
        MIGRATION_CODE@,
        migration(o.coordinate(), source, needed),
        o.nodes(),
    );
    let error = plain_error(
        ErrorKind::OverrideLabelInvalid,
        invalid_label(label, o.coordinate(), o.name()),
    );
    lemma_valid_override(o, k, blank());
    lemma_override_is_found(o, report, error, hint, 0);
    assert(added_by(o).report.hints.last() == hint);
    if !is_valid_label(label) {
        assert(added_by(o).report.errors.last() == error);
    }
}

/// The label of the subgraph that makes an override is not touched by the other overrides.
proof fn lemma_others_leave_the_label(o: FieldOverride, name: Seq<char>)
    requires
        o.is_given(),
        name != o.name(),
    ensures
        properties_of(
            added(o.known, infos_of(o), o.dest, name).context,
            o.subgraph(),
        ).override_label is None,
{
    let infos = infos_of(o);
    let step = added(o.known, infos, o.dest, name);
    let x = o.subgraph();
    lemma_override_is_found(o, Report::empty(), arbitrary(), arbitrary(), 0);
    lemma_blank(blank(), x);
    lemma_info_named(o.known, o.sources, o.dest, name);
    let info = o.known.info_named(infos, name)->0;
    let directive = info.directive->0;
    let source = match argument_named(directive.directive.arguments, "from"@) {
        Some(ValueShape::String(text)) => text,
        _ => Seq::empty(),
    };
    lemma_info_named(o.known, o.sources, o.dest, source);
    let from = o.known.info_named(infos, source)->0;
    lemma_with_mark(blank().context, info.subgraph, x);
    lemma_with_mark(blank().context, from.subgraph, x);
    if step.context != blank().context && step.context != with_unknown_target(
        blank().context,
        info.subgraph,
    ) {
        let j = choose|j: int|
            0 <= j < o.sources.len() && #[trigger] info_at(o.known, o.sources, o.dest, j) == Some(
                info,
            ) && name_at(o.known, o.sources, j) == name;
        assert(info.subgraph == o.sources[j].0);
        let i = choose|i: int|
            0 <= i < o.sources.len() && #[trigger] info_at(o.known, o.sources, o.dest, i) == Some(
                from,
            ) && name_at(o.known, o.sources, i) == source;
        assert(from.subgraph == o.sources[i].0);
        assert(source != o.name());
        assert(info.subgraph != x && from.subgraph != x);
        let used = with_used_overridden(blank().context, from.subgraph);
        let unused = with_unused_overridden(blank().context, from.subgraph);
        match label_argument(directive.directive.arguments) {
            Some(label) => {
                lemma_with_label(blank().context, info.subgraph, label, x);
                lemma_with_label(
                    with_label(blank().context, info.subgraph, label),
                    from.subgraph,
                    label,
                    x,
                );
                lemma_with_label(used, info.subgraph, label, x);
                lemma_with_label(
                    with_label(used, info.subgraph, label),
                    from.subgraph,
                    label,
                    x,
                );
                lemma_with_label(unused, info.subgraph, label, x);
                lemma_with_label(
                    with_label(unused, info.subgraph, label),
                    from.subgraph,
                    label,
                    x,
                );
            },
            None => {},
        }
    }
}

proof fn lemma_label_stays(
    o: FieldOverride,
    names: Seq<Seq<char>>,
    start: OverrideState,
    label: Seq<char>,
)
    requires
        o.is_given(),
        distinct_keys(start.context),
        names.contains(o.name()),
        properties_of(added_by(o).context, o.subgraph()).override_label == Some(label),
    ensures
        properties_of(
            o.known.overrides_checked(infos_of(o), o.dest, names, start).context,
            o.subgraph(),
        ).override_label == Some(label),
    decreases names.len(),
{
    let rest = names.drop_last();
    let infos = infos_of(o);
    let middle = o.known.overrides_checked(infos, o.dest, rest, start);
    lemma_all_on_top(
        o.known,
        infos,
        o.dest,
        rest,
        start,
        arbitrary(),
        arbitrary(),
        o.subgraph(),
    );
    lemma_step_on_top(o.known, infos, o.dest, names.last(), middle, o.subgraph());
    if names.last() != o.name() {
        let at = names.index_of(o.name());
        assert(rest[at] == o.name());
        lemma_label_stays(o, rest, start, label);
        lemma_others_leave_the_label(o, names.last());
    }
}

/// The subgraph that overrides a field gets the label of the override, where it is valid; so does
/// the one that is overridden, where no other subgraph overrides the field.
pub proof fn law_label_of_an_override_is_set(
    o: FieldOverride,
    k: int,
    label: Seq<char>,
    report: Report,
)
    requires
        can_override(o, k),
        label_argument(o.directive().directive.arguments) == Some(label),
        is_valid_label(label),
    ensures
        ({
            let context = o.validated(report).context;
            &&& properties_of(context, o.subgraph()).override_label == Some(label)
            &&& o.is_only_one() ==> properties_of(context, o.sources[k].0).override_label == Some(
                label,
            )
            &&& o.is_only_one() ==> o.validated(report).report.errors == report.errors
        }),
{
    let valid = valid_override(o, k);
    let marked = o.known.marked(valid, blank());
    let start = reported(report);
    lemma_listed(o.overridden, o.dest.name);
    lemma_override_is_found(o, report, arbitrary(), arbitrary(), 0);
    lemma_valid_override(o, k, blank());
    lemma_valid_override(o, k, start);
    lemma_marked_on_top(o.known, valid, blank(), o.subgraph());
    lemma_marked_on_top(o.known, valid, start, o.subgraph());
    law_label_is_set_on_both(valid, label, o.subgraph(), marked);
    law_label_is_set_on_both(valid, label, o.subgraph(), o.known.marked(valid, start));
    lemma_label_stays(o, o.known.overriding(infos_of(o)), start, label);
}

proof fn lemma_first_application_exists(
    directives: Seq<LocatedDirective>,
    kind: FederationDirective,
)
    requires
        carries(directives, kind),
    ensures
        exists|d: int| #[trigger] is_first_application(directives, d, kind),
    decreases directives.len(),
{
    let k = choose|k: int|
        0 <= k < directives.len() && is_directive_name(
            kind,
            (#[trigger] directives[k]).directive.name,
        );
    let before = directives.take(k);
    if carries(before, kind) {
        lemma_first_application_exists(before, kind);
        let d = choose|d: int| #[trigger] is_first_application(before, d, kind);
        assert(directives[d] == before[d]);
        assert forall|i: int| 0 <= i < d implies !is_directive_name(
            kind,
            (#[trigger] directives[i]).directive.name,
        ) by {
            assert(before[i] == directives[i]);
        }
        assert(is_first_application(directives, d, kind));
    } else {
        assert forall|i: int| 0 <= i < k implies !is_directive_name(
            kind,
            (#[trigger] directives[i]).directive.name,
        ) by {
            assert(before[i] == directives[i]);
        }
        assert(is_first_application(directives, k, kind));
    }
}

proof fn lemma_first_argument_exists(arguments: Seq<ArgumentShape>, name: Seq<char>)
    requires
        argument_named(arguments, name) is Some,
    ensures
        exists|a: int|
            #[trigger] is_first_argument(arguments, a, name) && Some(arguments[a].value)
                == argument_named(arguments, name),
    decreases arguments.len(),
{
    if arguments[0].name == name {
        assert(is_first_argument(arguments, 0, name));
    } else {
        let rest = arguments.skip(1);
        lemma_first_argument_exists(rest, name);
        let a = choose|a: int|
            #[trigger] is_first_argument(rest, a, name) && Some(rest[a].value) == argument_named(
                rest,
                name,
            );
        assert(arguments[a + 1] == rest[a]);
        assert forall|i: int| 0 <= i < a + 1 implies (#[trigger] arguments[i]).name != name by {
            if i > 0 {
                assert(rest[i - 1] == arguments[i]);
            }
        }
        assert(is_first_argument(arguments, a + 1, name));
    }
}

/// Whether nothing speaks against an override: it does not stand in an interface or an
/// `@interfaceObject` type, and the subgraph that it names does not exist, or is another one that
/// does not override or abstract the field and has no field that the override collides with.
pub open spec fn is_sound(o: FieldOverride) -> bool {
    &&& !o.is_on_interface()
    &&& !o.is_on_interface_object()
    &&& forall|source: Seq<char>| #[trigger]
        o.takes_from(source) ==> !is_subgraph_name(o.known, source) || source != o.name() && (
        forall|k: int|
            0 <= k < o.sources.len() && #[trigger] name_at(o.known, o.sources, k) == source ==> {
                &&& !is_overriding(o.known, o.sources, k)
                &&& match o.sources[k].1 {
                    Some(field) => {
                        &&& !carries(field.directives, FederationDirective::Requires)
                        &&& !carries(field.directives, FederationDirective::Provides)
                        &&& !o.known.is_external(o.subgraph(), o.field())
                        &&& label_argument(o.directive().directive.arguments) matches Some(label)
                            ==> is_valid_label(label)
                    },
                    None => o.known.abstracting(o.dest, o.sources[k].0).len() == 0,
                }
            })
}

proof fn lemma_sound_override_adds_no_error(o: FieldOverride)
    requires
        o.is_given(),
        is_sound(o),
    ensures
        added_by(o).report.errors.len() == 0,
{
    let arguments = o.directive().directive.arguments;
    lemma_override_is_found(o, Report::empty(), arbitrary(), arbitrary(), 0);
    match argument_named(arguments, "from"@) {
        Some(ValueShape::String(source)) => {
            lemma_first_argument_exists(arguments, "from"@);
            assert(o.takes_from(source));
            law_first_subgraph_is_found(o.known.subgraphs, source);
            lemma_overriding(o.known, o.sources, o.dest, source);
            lemma_info_named(o.known, o.sources, o.dest, source);
            match o.known.info_named(infos_of(o), source) {
                Some(from) => {
                    let k = choose|k: int|
                        0 <= k < o.sources.len() && #[trigger] info_at(
                            o.known,
                            o.sources,
                            o.dest,
                            k,
                        ) == Some(from) && name_at(o.known, o.sources, k) == source;
                    assert(name_at(o.known, o.sources, k) == source);
                    if o.sources[k].1 is Some {
                        let directives = o.sources[k].1->0.directives;
                        law_first_application_is_found(directives, FederationDirective::Requires);
                        law_first_application_is_found(directives, FederationDirective::Provides);
                    }
                },
                None => {},
            }
        },
        _ => {},
    }
}

proof fn lemma_no_errors(
    known: Known,
    infos: Seq<SourceInfo>,
    dest: FieldShape,
    names: Seq<Seq<char>>,
    start: OverrideState,
)
    requires
        distinct_keys(start.context),
        forall|name: Seq<char>| #[trigger]
            names.contains(name) ==> added(known, infos, dest, name).report.errors.len() == 0,
    ensures
        known.overrides_checked(infos, dest, names, start).report.errors == start.report.errors,
        distinct_keys(known.overrides_checked(infos, dest, names, start).context),
    decreases names.len(),
{
    if names.len() > 0 {
        let rest = names.drop_last();
        let middle = known.overrides_checked(infos, dest, rest, start);
        assert forall|name: Seq<char>| #[trigger] rest.contains(name) implies added(
            known,
            infos,
            dest,
            name,
        ).report.errors.len() == 0 by {
            assert(names[rest.index_of(name)] == name);
            assert(names.contains(name));
        }
        lemma_no_errors(known, infos, dest, rest, start);
        lemma_step_on_top(known, infos, dest, names.last(), middle, 0);
        assert(names[names.len() - 1] == names.last());
        assert(names.contains(names.last()));
        let step = added(known, infos, dest, names.last());
        assert(middle.report.errors + step.report.errors =~= middle.report.errors);
    }
}

/// Validation reports no error where nothing speaks against any override of the field.
pub proof fn law_sound_overrides_give_no_error(
    known: Known,
    overridden: Seq<Target>,
    sources: Seq<(usize, Option<FieldShape>)>,
    dest: FieldShape,
    report: Report,
)
    requires
        have_different_names(known, sources),
        forall|at: int, application: int|
            #![trigger is_sound(FieldOverride { known, overridden, sources, dest, at, application })]
            ({
                let o = FieldOverride { known, overridden, sources, dest, at, application };
                o.is_given() ==> is_sound(o)
            }),
    ensures
        known.validated(overridden, sources, dest, report).report.errors == report.errors,
{
    lemma_listed(overridden, dest.name);
    if is_overridden_somewhere(overridden, dest.name) {
        let infos = known.infos(sources, dest);
        let names = known.overriding(infos);
        let kind = FederationDirective::Override;
        assert forall|name: Seq<char>| #[trigger] names.contains(name) implies added(
            known,
            infos,
            dest,
            name,
        ).report.errors.len() == 0 by {
            lemma_overriding(known, sources, dest, name);
            let at = choose|at: int|
                #[trigger] is_overriding(known, sources, at) && name_at(known, sources, at) == name;
            let directives = sources[at].1->0.directives;
            lemma_first_application_exists(directives, kind);
            let application = choose|d: int| #[trigger] is_first_application(directives, d, kind);
            let o = FieldOverride { known, overridden, sources, dest, at, application };
            assert(o.is_given());
            assert(is_sound(o));
            lemma_sound_override_adds_no_error(o);
        }
        lemma_no_errors(known, infos, dest, names, reported(report));
    }
}

/// Validation finds nothing and marks nothing where no source overrides the field, or no field of
/// its name carries `@override`.
pub proof fn law_nothing_is_found_without_an_override(
    known: Known,
    overridden: Seq<Target>,
    sources: Seq<(usize, Option<FieldShape>)>,
    dest: FieldShape,
    report: Report,
)
    requires
        !lists_field_named(overridden, dest.name) || forall|k: int|
            !#[trigger] is_overriding(known, sources, k),
    ensures
        known.validated(overridden, sources, dest, report) == reported(report),
{
    lemma_listed(overridden, dest.name);
    let names = known.overriding(known.infos(sources, dest));
    if lists_field_named(overridden, dest.name) && names.len() > 0 {
        assert(names.contains(names[0]));
        lemma_overriding(known, sources, dest, names[0]);
    }
}

/// What validation finds does not depend on what was reported before: its errors and hints are
/// added to those.
pub proof fn law_findings_do_not_depend_on_the_report(
    known: Known,
    overridden: Seq<Target>,
    sources: Seq<(usize, Option<FieldShape>)>,
    dest: FieldShape,
    report: Report,
    error: ErrorRecord,
    hint: HintRecord,
)
    ensures
        ({
            let after = known.validated(overridden, sources, dest, report).report;
            let alone = known.validated(overridden, sources, dest, Report::empty()).report;
            &&& after.errors.contains(error) <==> report.errors.contains(error)
                || alone.errors.contains(error)
            &&& after.hints.contains(hint) <==> report.hints.contains(hint)
                || alone.hints.contains(hint)
        }),
{
    let infos = known.infos(sources, dest);
    let names = known.overriding(infos);
    lemma_all_on_top(known, infos, dest, names, reported(report), error, hint, 0);
    lemma_all_on_top(known, infos, dest, names, reported(Report::empty()), error, hint, 0);
}

/// The pass over the fields reports what was reported before and what is found for each field, and
/// nothing else.
pub proof fn law_findings_of_every_field_are_reported(
    known: Known,
    overridden: Seq<Target>,
    fields: Seq<DeclaredField>,
    report: Report,
    error: ErrorRecord,
    hint: HintRecord,
)
    ensures
        ({
            let after = known.overrides_reported(overridden, fields, report);
            &&& after.errors.contains(error) <==> report.errors.contains(error) || exists|k: int|
                0 <= k < fields.len() && (#[trigger] findings_at(
                    known,
                    overridden,
                    fields,
                    k,
                )).errors.contains(error)
            &&& after.hints.contains(hint) <==> report.hints.contains(hint) || exists|k: int|
                0 <= k < fields.len() && (#[trigger] findings_at(
                    known,
                    overridden,
                    fields,
                    k,
                )).hints.contains(hint)
        }),
    decreases fields.len(),
{
    if fields.len() > 0 {
        let rest = fields.drop_last();
        let last = fields.len() - 1;
        let field = fields.last();
        law_findings_of_every_field_are_reported(known, overridden, rest, report, error, hint);
        law_findings_do_not_depend_on_the_report(
            known,
            overridden,
            sources_of(known.subgraphs, field.typename, field.field.name),
            field.field,
            known.overrides_reported(overridden, rest, report),
            error,
            hint,
        );
        assert forall|k: int| 0 <= k < rest.len() implies #[trigger] findings_at(
            known,
            overridden,
            fields,
            k,
        ) == findings_at(known, overridden, rest, k) by {
            assert(rest[k] == fields[k]);
        }
        assert forall|k: int| 0 <= k < rest.len() implies #[trigger] findings_at(
            known,
            overridden,
            rest,
            k,
        ) == findings_at(known, overridden, fields, k) by {
            assert(rest[k] == fields[k]);
        }
        let own = findings_at(known, overridden, fields, last);
        assert(fields[last] == field);
    }
}

/// What is found for one field of a list.
pub open spec fn findings_at(
    known: Known,
    overridden: Seq<Target>,
    fields: Seq<DeclaredField>,
    k: int,
) -> Report {
    known.validated(
        overridden,
        sources_of(known.subgraphs, fields[k].typename, fields[k].field.name),
        fields[k].field,
        Report::empty(),
    ).report
}

/// Each subgraph is a source of a field. It has the field where the first of its types with the
/// name is an object or interface type, and then the first of its fields with the name.
pub proof fn law_field_of_each_subgraph_is_a_source(
    subgraphs: Seq<Subgraph>,
    typename: Seq<char>,
    field: Seq<char>,
    s: int,
    t: int,
)
    requires
        0 <= s < subgraphs.len() <= usize::MAX,
    ensures
        sources_of(subgraphs, typename, field).len() == subgraphs.len(),
        sources_of(subgraphs, typename, field)[s].0 == s,
        has_no_type(subgraphs[s].schema.types@, typename) ==> sources_of(
            subgraphs,
            typename,
            field,
        )[s].1 is None,
        is_first_type(subgraphs[s].schema.types@, t, typename) ==> match sources_of(
            subgraphs,
            typename,
            field,
        )[s].1 {
            Some(found) => exists|f: int|
                #[trigger] is_first_field(fields_of(subgraphs[s].schema.types@[t]), f, field)
                    && found == fields_of(subgraphs[s].schema.types@[t])[f]@,
            None => has_no_field(fields_of(subgraphs[s].schema.types@[t]), field),
        },
{
    let types = subgraphs[s].schema.types@;
    law_first_type_is_found(types, typename);
    if is_first_type(types, t, typename) {
        let ty = types[t];
        let fields = fields_of(ty);
        law_first_field_is_found(fields, field);
        if find_field(fields, field) is Some {
            let f = choose|f: int| #[trigger] is_first_field(fields, f, field);
            assert(find_field(fields, field) == Some(fields[f]));
        }
    }
}

} // verus!
