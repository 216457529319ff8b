//! What holds of the validation of `@override` as a whole.

use crate::ast::{argument_named, FieldDefinition, FieldShape, ValueShape};
use crate::field_context::{
    properties_of, with_label, with_unknown_target, with_unused_overridden, with_used_overridden,
    FieldProperties,
};
use crate::index_map::{distinct_keys, has_key, lemma_put, put};
use crate::labels::is_valid_label;
use crate::merger::Known;
use crate::override_pass::{
    declared_fields, lists_field, sources_of, with_fields_of_types, with_new_fields, DeclaredField,
};
use crate::overrides::{
    is_overridden_somewhere, label_argument, labelled, Override, OverrideState, SourceInfo,
};
use crate::report::{ErrorKind, Report};
use crate::schema::{
    applications, fields_of, referencers, with_all_distinct, with_distinct, Application, Target,
    TypeDefinition,
};
use crate::subgraph::{elements_with, elements_with_override, Subgraph};
use vstd::prelude::*;

verus! {

/// Validation only adds to what was reported before: nothing is taken back or put in between.
pub proof fn law_validation_only_adds(
    known: Known,
    infos: Seq<SourceInfo>,
    dest: FieldShape,
    names: Seq<Seq<char>>,
    state: OverrideState,
)
    ensures
        state.report.is_start_of(known.overrides_checked(infos, dest, names, state).report),
    decreases names.len(),
{
    if names.len() > 0 {
        let rest = known.overrides_checked(infos, dest, names.drop_last(), state);
        law_validation_only_adds(known, infos, dest, names.drop_last(), state);
        let after = known.override_checked(infos, dest, names.last(), rest);
        assert(rest.report.is_start_of(after.report));
    }
}

/// A field that no subgraph overrides has nothing to report and no marks.
pub proof fn law_nothing_without_override(
    known: Known,
    infos: Seq<SourceInfo>,
    dest: FieldShape,
    state: OverrideState,
)
    requires
        forall|i: int| 0 <= i < infos.len() ==> (#[trigger] infos[i]).directive is None,
    ensures
        known.overrides_checked(infos, dest, known.overriding(infos), state) == state,
{
    lemma_no_overriding(known, infos);
}

proof fn lemma_no_overriding(known: Known, infos: Seq<SourceInfo>)
    requires
        forall|i: int| 0 <= i < infos.len() ==> (#[trigger] infos[i]).directive is None,
    ensures
        known.overriding(infos).len() == 0,
    decreases infos.len(),
{
    if infos.len() > 0 {
        assert(infos[infos.len() - 1].directive is None);
        lemma_no_overriding(known, infos.drop_last());
    }
}

/// Each subgraph name is looked at once, and only names of subgraphs that override the field are.
pub proof fn law_each_override_is_looked_at_once(known: Known, infos: Seq<SourceInfo>)
    ensures
        known.overriding(infos).no_duplicates(),
        forall|name: Seq<char>| #[trigger]
            known.overriding(infos).contains(name) <==> exists|i: int|
                0 <= i < infos.len() && (#[trigger] infos[i]).directive is Some
                    && known.names[infos[i].subgraph as int] == name,
    decreases infos.len(),
{
    if infos.len() > 0 {
        let rest = infos.drop_last();
        let before = known.overriding(rest);
        let after = known.overriding(infos);
        let last = infos.len() - 1;
        law_each_override_is_looked_at_once(known, rest);
        assert forall|name: Seq<char>| #[trigger] after.contains(name) <==> exists|i: int|
            0 <= i < infos.len() && (#[trigger] infos[i]).directive is Some
                && known.names[infos[i].subgraph as int] == name by {
            if after.contains(name) {
                let at = after.index_of(name);
                if at < before.len() {
                    assert(before[at] == name);
                    assert(before.contains(name));
                    let i = choose|i: int|
                        0 <= i < rest.len() && (#[trigger] rest[i]).directive is Some
                            && known.names[rest[i].subgraph as int] == name;
                    assert(infos[i] == rest[i]);
                } else {
                    assert(infos[last].directive is Some);
                }
            }
            if exists|i: int|
                0 <= i < infos.len() && (#[trigger] infos[i]).directive is Some
                    && known.names[infos[i].subgraph as int] == name {
                let i = choose|i: int|
                    0 <= i < infos.len() && (#[trigger] infos[i]).directive is Some
                        && known.names[infos[i].subgraph as int] == name;
                if i < last {
                    assert(rest[i] == infos[i]);
                    assert(before.contains(name));
                }
                if before.contains(name) {
                    assert(after[before.index_of(name)] == name);
                } else {
                    assert(after[after.len() - 1] == name);
                }
            }
        }
    }
}

/// An override that is refused with an error marks no subgraph and gives no hint. Only an invalid
/// label does not refuse the override itself.
pub proof fn law_refused_override_marks_nothing(
    known: Known,
    infos: Seq<SourceInfo>,
    dest: FieldShape,
    name: Seq<char>,
    state: OverrideState,
)
    ensures
        ({
            let after = known.override_checked(infos, dest, name, state);
            let errors = after.report.errors;
            &&& errors.len() <= state.report.errors.len() + 1
            &&& errors.len() > state.report.errors.len() && errors.last().kind
                != ErrorKind::OverrideLabelInvalid ==> after.context == state.context
                && after.report.hints == state.report.hints
        }),
{
}

/// A valid label is set on the subgraph that overrides the field and on the one that is
/// overridden.
pub proof fn law_label_is_set_on_both(
    valid: Override,
    label: Seq<char>,
    subgraph: usize,
    state: OverrideState,
)
    requires
        distinct_keys(state.context),
        valid.label == Some(label),
        is_valid_label(label),
    ensures
        properties_of(labelled(valid, subgraph, state).context, subgraph).override_label == Some(
            label,
        ),
        properties_of(labelled(valid, subgraph, state).context, valid.source).override_label
            == Some(label),
        labelled(valid, subgraph, state).report.errors == state.report.errors,
{
    let first = with_label(state.context, subgraph, label);
    lemma_put(
        state.context,
        subgraph,
        FieldProperties {
            override_label: Some(label),
            ..properties_of(state.context, subgraph)
        },
        valid.source,
    );
    lemma_put(
        first,
        valid.source,
        FieldProperties { override_label: Some(label), ..properties_of(first, valid.source) },
        subgraph,
    );
}

/// Whether the field of the last source with the name of the subgraph is still needed.
pub open spec fn source_is_referenced(
    known: Known,
    infos: Seq<SourceInfo>,
    subgraph: usize,
) -> bool {
    match known.info_named(infos, known.names[subgraph as int]) {
        Some(from) => match from.field {
            Some(field) => known.position_of(field) is Some && known.is_used(
                from.subgraph,
                known.position_of(field)->0,
            ),
            None => false,
        },
        None => false,
    }
}

/// Whether each subgraph with marks is one of the sources, and is marked as used only if its
/// field is still needed and as unused only if it is not.
pub open spec fn marks_are_consistent(
    known: Known,
    infos: Seq<SourceInfo>,
    context: Seq<(usize, FieldProperties)>,
) -> bool {
    &&& distinct_keys(context)
    &&& forall|subgraph: usize| #[trigger]
        has_key(context, subgraph) ==> is_source(infos, subgraph)
    &&& forall|subgraph: usize|
        {
            let properties = #[trigger] properties_of(context, subgraph);
            &&& properties.used_overridden ==> source_is_referenced(known, infos, subgraph)
            &&& properties.unused_overridden ==> !source_is_referenced(known, infos, subgraph)
        }
}

/// Whether a subgraph is one of the sources.
pub open spec fn is_source(infos: Seq<SourceInfo>, subgraph: usize) -> bool {
    exists|i: int| 0 <= i < infos.len() && (#[trigger] infos[i]).subgraph == subgraph
}

/// What is found under a name is one of the sources, under that name.
proof fn lemma_info_is_a_source(known: Known, infos: Seq<SourceInfo>, name: Seq<char>)
    ensures
        match known.info_named(infos, name) {
            Some(info) => infos.contains(info) && known.names[info.subgraph as int] == name,
            None => true,
        },
    decreases infos.len(),
{
    if infos.len() > 0 {
        assert(infos[infos.len() - 1] == infos.last());
        lemma_info_is_a_source(known, infos.drop_last(), name);
        if known.info_named(infos.drop_last(), name) is Some {
            let info = known.info_named(infos.drop_last(), name)->0;
            let at = infos.drop_last().index_of(info);
            assert(infos[at] == info);
        }
    }
}

/// A change to the properties of a source that keeps the marks consistent.
proof fn lemma_put_is_consistent(
    known: Known,
    infos: Seq<SourceInfo>,
    context: Seq<(usize, FieldProperties)>,
    subgraph: usize,
    properties: FieldProperties,
)
    requires
        marks_are_consistent(known, infos, context),
        is_source(infos, subgraph),
        properties.used_overridden ==> source_is_referenced(known, infos, subgraph),
        properties.unused_overridden ==> !source_is_referenced(known, infos, subgraph),
    ensures
        marks_are_consistent(known, infos, put(context, subgraph, properties)),
{
    let after = put(context, subgraph, properties);
    lemma_put(context, subgraph, properties, subgraph);
    assert forall|other: usize| #[trigger] has_key(after, other) implies is_source(
        infos,
        other,
    ) by {
        lemma_put(context, subgraph, properties, other);
    }
    assert forall|other: usize|
        {
            let now = #[trigger] properties_of(after, other);
            &&& now.used_overridden ==> source_is_referenced(known, infos, other)
            &&& now.unused_overridden ==> !source_is_referenced(known, infos, other)
        } by {
        lemma_put(context, subgraph, properties, other);
        let before = properties_of(context, other);
    }
}

proof fn lemma_step_is_consistent(
    known: Known,
    infos: Seq<SourceInfo>,
    dest: FieldShape,
    name: Seq<char>,
    state: OverrideState,
)
    requires
        marks_are_consistent(known, infos, state.context),
    ensures
        marks_are_consistent(
            known,
            infos,
            known.override_checked(infos, dest, name, state).context,
        ),
{
    let context = state.context;
    let after = known.override_checked(infos, dest, name, state).context;
    if after != context {
        lemma_info_is_a_source(known, infos, name);
        let info = known.info_named(infos, name)->0;
        let at = infos.index_of(info);
        assert(infos[at].subgraph == info.subgraph);
        let directive = info.directive->0;
        let source = match argument_named(directive.directive.arguments, "from"@) {
            Some(ValueShape::String(text)) => text,
            _ => Seq::empty(),
        };
        let before = properties_of(context, info.subgraph);
        lemma_put_is_consistent(
            known,
            infos,
            context,
            info.subgraph,
            FieldProperties { override_with_unknown_target: true, ..before },
        );
        if after != with_unknown_target(context, info.subgraph) {
            lemma_info_is_a_source(known, infos, source);
            let from = known.info_named(infos, source)->0;
            let there = infos.index_of(from);
            assert(infos[there].subgraph == from.subgraph);
            let needed = source_is_referenced(known, infos, from.subgraph);
            let marks = properties_of(context, from.subgraph);
            let used = with_used_overridden(context, from.subgraph);
            let unused = with_unused_overridden(context, from.subgraph);
            let marked = if known.is_external(from.subgraph, from.field->0) {
                context
            } else if needed {
                used
            } else {
                unused
            };
            if needed {
                lemma_put_is_consistent(
                    known,
                    infos,
                    context,
                    from.subgraph,
                    FieldProperties { used_overridden: true, ..marks },
                );
            } else {
                lemma_put_is_consistent(
                    known,
                    infos,
                    context,
                    from.subgraph,
                    FieldProperties { unused_overridden: true, ..marks },
                );
            }
            assert(marks_are_consistent(known, infos, marked));
            if after != marked {
                let label = label_argument(directive.directive.arguments)->0;
                lemma_put_is_consistent(
                    known,
                    infos,
                    marked,
                    info.subgraph,
                    FieldProperties {
                        override_label: Some(label),
                        ..properties_of(marked, info.subgraph)
                    },
                );
                let first = with_label(marked, info.subgraph, label);
                lemma_put_is_consistent(
                    known,
                    infos,
                    first,
                    from.subgraph,
                    FieldProperties {
                        override_label: Some(label),
                        ..properties_of(first, from.subgraph)
                    },
                );
                assert(after == with_label(first, from.subgraph, label));
            }
        }
    }
}

/// The marks of validation are consistent: only sources are marked, an overridden field is marked
/// as used only if it is still needed and as unused only if it is not, so never as both.
pub proof fn law_marks_are_consistent(
    known: Known,
    infos: Seq<SourceInfo>,
    dest: FieldShape,
    names: Seq<Seq<char>>,
    report: Report,
    subgraph: usize,
)
    ensures
        ({
            let start = OverrideState { report, context: Seq::empty() };
            let context = known.overrides_checked(infos, dest, names, start).context;
            let properties = properties_of(context, subgraph);
            &&& marks_are_consistent(known, infos, context)
            &&& !(properties.used_overridden && properties.unused_overridden)
        }),
    decreases names.len(),
{
    let start = OverrideState { report, context: Seq::empty() };
    let context = known.overrides_checked(infos, dest, names, start).context;
    if names.len() == 0 {
        assert(!has_key(context, subgraph));
        assert forall|other: usize|
            {
                let now = #[trigger] properties_of(context, other);
                &&& now.used_overridden ==> source_is_referenced(known, infos, other)
                &&& now.unused_overridden ==> !source_is_referenced(known, infos, other)
            } by {
            assert(!has_key(context, other));
        }
    } else {
        law_marks_are_consistent(known, infos, dest, names.drop_last(), report, subgraph);
        lemma_step_is_consistent(
            known,
            infos,
            dest,
            names.last(),
            known.overrides_checked(infos, dest, names.drop_last(), start),
        );
    }
    let properties = properties_of(context, subgraph);
}

/// Whether a source overrides the field with the label.
pub open spec fn is_label_of(infos: Seq<SourceInfo>, label: Seq<char>) -> bool {
    exists|i: int|
        0 <= i < infos.len() && (#[trigger] infos[i]).directive is Some && label_argument(
            infos[i].directive->0.directive.arguments,
        ) == Some(label)
}

/// Whether each label of the marks is valid and the label of a source.
pub open spec fn labels_are_given(
    infos: Seq<SourceInfo>,
    context: Seq<(usize, FieldProperties)>,
) -> bool {
    &&& distinct_keys(context)
    &&& forall|subgraph: usize|
        (#[trigger] properties_of(context, subgraph)).override_label matches Some(label)
            ==> is_valid_label(label) && is_label_of(infos, label)
}

/// A change to the properties of a subgraph that keeps the labels given.
proof fn lemma_put_keeps_labels(
    infos: Seq<SourceInfo>,
    context: Seq<(usize, FieldProperties)>,
    subgraph: usize,
    properties: FieldProperties,
)
    requires
        labels_are_given(infos, context),
        properties.override_label matches Some(label) ==> is_valid_label(label) && is_label_of(
            infos,
            label,
        ),
    ensures
        labels_are_given(infos, put(context, subgraph, properties)),
{
    let after = put(context, subgraph, properties);
    lemma_put(context, subgraph, properties, subgraph);
    assert forall|other: usize|
        (#[trigger] properties_of(after, other)).override_label is Some implies is_valid_label(
        properties_of(after, other).override_label->0,
    ) && is_label_of(infos, properties_of(after, other).override_label->0) by {
        lemma_put(context, subgraph, properties, other);
        let before = properties_of(context, other);
    }
}

proof fn lemma_step_keeps_labels(
    known: Known,
    infos: Seq<SourceInfo>,
    dest: FieldShape,
    name: Seq<char>,
    state: OverrideState,
)
    requires
        labels_are_given(infos, state.context),
    ensures
        labels_are_given(infos, known.override_checked(infos, dest, name, state).context),
{
    let context = state.context;
    let after = known.override_checked(infos, dest, name, state).context;
    if after != context {
        lemma_info_is_a_source(known, infos, name);
        let info = known.info_named(infos, name)->0;
        let at = infos.index_of(info);
        assert(infos[at] == info);
        let directive = info.directive->0;
        let source = match argument_named(directive.directive.arguments, "from"@) {
            Some(ValueShape::String(text)) => text,
            _ => Seq::empty(),
        };
        lemma_put_keeps_labels(
            infos,
            context,
            info.subgraph,
            FieldProperties {
                override_with_unknown_target: true,
                ..properties_of(context, info.subgraph)
            },
        );
        if after != with_unknown_target(context, info.subgraph) {
            let from = known.info_named(infos, source)->0;
            let marks = properties_of(context, from.subgraph);
            let used = with_used_overridden(context, from.subgraph);
            let unused = with_unused_overridden(context, from.subgraph);
            lemma_put_keeps_labels(
                infos,
                context,
                from.subgraph,
                FieldProperties { used_overridden: true, ..marks },
            );
            lemma_put_keeps_labels(
                infos,
                context,
                from.subgraph,
                FieldProperties { unused_overridden: true, ..marks },
            );
            let needed = known.position_of(from.field->0) is Some && known.is_used(
                from.subgraph,
                known.position_of(from.field->0)->0,
            );
            let marked = if known.is_external(from.subgraph, from.field->0) {
                context
            } else if needed {
                used
            } else {
                unused
            };
            assert(labels_are_given(infos, marked));
            if after != marked {
                let label = label_argument(directive.directive.arguments)->0;
                assert(is_label_of(infos, label));
                lemma_put_keeps_labels(
                    infos,
                    marked,
                    info.subgraph,
                    FieldProperties {
                        override_label: Some(label),
                        ..properties_of(marked, info.subgraph)
                    },
                );
                let first = with_label(marked, info.subgraph, label);
                lemma_put_keeps_labels(
                    infos,
                    first,
                    from.subgraph,
                    FieldProperties {
                        override_label: Some(label),
                        ..properties_of(first, from.subgraph)
                    },
                );
                assert(after == with_label(first, from.subgraph, label));
            }
        }
    }
}

proof fn lemma_labels_are_given(
    known: Known,
    infos: Seq<SourceInfo>,
    dest: FieldShape,
    names: Seq<Seq<char>>,
    start: OverrideState,
)
    requires
        start.context.len() == 0,
    ensures
        labels_are_given(infos, known.overrides_checked(infos, dest, names, start).context),
    decreases names.len(),
{
    if names.len() == 0 {
        assert forall|subgraph: usize|
            (#[trigger] properties_of(start.context, subgraph)).override_label is None by {
            assert(!has_key(start.context, subgraph));
        }
    } else {
        lemma_labels_are_given(known, infos, dest, names.drop_last(), start);
        lemma_step_keeps_labels(
            known,
            infos,
            dest,
            names.last(),
            known.overrides_checked(infos, dest, names.drop_last(), start),
        );
    }
}

/// Whether the field of a source carries an `@override` with the label.
pub open spec fn is_label_of_source(
    known: Known,
    sources: Seq<(usize, Option<FieldShape>)>,
    label: Seq<char>,
) -> bool {
    exists|i: int|
        0 <= i < sources.len() && (#[trigger] sources[i]).1 is Some && (
        known.override_application(sources[i].0, sources[i].1->0) matches Some(directive)
            && label_argument(directive.directive.arguments) == Some(label))
}

proof fn lemma_label_is_of_a_source(
    known: Known,
    sources: Seq<(usize, Option<FieldShape>)>,
    dest: FieldShape,
    label: Seq<char>,
)
    requires
        is_label_of(known.infos(sources, dest), label),
    ensures
        is_label_of_source(known, sources, label),
    decreases sources.len(),
{
    if sources.len() > 0 {
        let infos = known.infos(sources, dest);
        let rest = known.infos(sources.drop_last(), dest);
        let i = choose|i: int|
            0 <= i < infos.len() && (#[trigger] infos[i]).directive is Some && label_argument(
                infos[i].directive->0.directive.arguments,
            ) == Some(label);
        if i < rest.len() {
            assert(rest[i] == infos[i]);
            lemma_label_is_of_a_source(known, sources.drop_last(), dest, label);
            let k = choose|k: int|
                0 <= k < sources.drop_last().len() && (
                #[trigger] sources.drop_last()[k]).1 is Some && (known.override_application(
                    sources.drop_last()[k].0,
                    sources.drop_last()[k].1->0,
                ) matches Some(directive) && label_argument(directive.directive.arguments) == Some(
                    label,
                ));
            assert(sources[k] == sources.drop_last()[k]);
        } else {
            assert(sources[sources.len() - 1].1 is Some);
        }
    }
}

/// Every label that validation sets is valid, and is the label of an `@override` that the field of
/// a source carries.
pub proof fn law_labels_come_from_the_sources(
    known: Known,
    overridden: Seq<Target>,
    sources: Seq<(usize, Option<FieldShape>)>,
    dest: FieldShape,
    report: Report,
    subgraph: usize,
)
    ensures
        properties_of(
            known.validated(overridden, sources, dest, report).context,
            subgraph,
        ).override_label matches Some(label) ==> is_valid_label(label) && is_label_of_source(
            known,
            sources,
            label,
        ),
{
    let infos = known.infos(sources, dest);
    let start = OverrideState { report, context: Seq::empty() };
    let context = known.validated(overridden, sources, dest, report).context;
    lemma_labels_are_given(known, infos, dest, known.overriding(infos), start);
    match properties_of(context, subgraph).override_label {
        Some(label) => {
            if !is_overridden_somewhere(overridden, dest.name) {
                assert(!has_key(context, subgraph));
            } else {
                lemma_label_is_of_a_source(known, sources, dest, label);
            }
        },
        None => {},
    }
}

/// A field whose name no `@override` is applied to has nothing to report and no marks, whatever
/// the sources are.
pub proof fn law_field_that_is_nowhere_overridden(
    known: Known,
    overridden: Seq<Target>,
    sources: Seq<(usize, Option<FieldShape>)>,
    dest: FieldShape,
    report: Report,
)
    requires
        !is_overridden_somewhere(overridden, dest.name),
    ensures
        known.validated(overridden, sources, dest, report) == (OverrideState {
            report,
            context: Seq::empty(),
        }),
{
}

/// The pass over the fields only adds to what was reported before.
pub proof fn law_pass_only_adds(
    known: Known,
    overridden: Seq<Target>,
    fields: Seq<DeclaredField>,
    report: Report,
)
    ensures
        report.is_start_of(known.overrides_reported(overridden, fields, report)),
    decreases fields.len(),
{
    if fields.len() > 0 {
        let last = fields.last();
        let before = known.overrides_reported(overridden, fields.drop_last(), report);
        let sources = sources_of(known.subgraphs, last.typename, last.field.name);
        let infos = known.infos(sources, last.field);
        law_pass_only_adds(known, overridden, fields.drop_last(), report);
        law_validation_only_adds(
            known,
            infos,
            last.field,
            known.overriding(infos),
            OverrideState { report: before, context: Seq::empty() },
        );
        assert(before.is_start_of(known.overrides_reported(overridden, fields, report)));
    }
}

/// An error about the overrides of one field is an error of the pass over all fields.
pub proof fn law_error_about_a_field_stays(
    known: Known,
    overridden: Seq<Target>,
    fields: Seq<DeclaredField>,
    report: Report,
    k: int,
)
    requires
        0 <= k < fields.len(),
        known.overrides_reported(overridden, fields.take(k + 1), report).errors.len()
            > known.overrides_reported(overridden, fields.take(k), report).errors.len(),
    ensures
        known.overrides_reported(overridden, fields, report).errors.len() > report.errors.len(),
    decreases fields.len(),
{
    if k + 1 == fields.len() {
        assert(fields.take(k + 1) =~= fields);
        law_pass_only_adds(known, overridden, fields.take(k), report);
    } else {
        let rest = fields.drop_last();
        assert(rest.take(k + 1) =~= fields.take(k + 1));
        assert(rest.take(k) =~= fields.take(k));
        law_error_about_a_field_stays(known, overridden, rest, report, k);
        let middle = known.overrides_reported(overridden, rest, report);
        let last = seq![fields.last()];
        law_pass_only_adds(known, overridden, last, middle);
        assert(last.drop_last() =~= Seq::<DeclaredField>::empty());
        assert(known.overrides_reported(overridden, last.drop_last(), middle) == middle);
    }
}

/// Whether no two fields of a list have the same name under the same name of a type.
pub open spec fn are_distinct_fields(list: Seq<DeclaredField>) -> bool {
    forall|i: int, j: int|
        0 <= i < j < list.len() ==> !((#[trigger] list[i]).typename == (
        #[trigger] list[j]).typename && list[i].field.name == list[j].field.name)
}

proof fn lemma_new_fields(
    list: Seq<DeclaredField>,
    typename: Seq<char>,
    fields: Seq<FieldDefinition>,
)
    ensures
        list.is_prefix_of(with_new_fields(list, typename, fields)),
        are_distinct_fields(list) ==> are_distinct_fields(
            with_new_fields(list, typename, fields),
        ),
        forall|f: int|
            0 <= f < fields.len() ==> lists_field(
                with_new_fields(list, typename, fields),
                typename,
                (#[trigger] fields[f]).name@,
            ),
    decreases fields.len(),
{
    if fields.len() > 0 {
        let rest = fields.drop_last();
        let before = with_new_fields(list, typename, rest);
        let after = with_new_fields(list, typename, fields);
        lemma_new_fields(list, typename, rest);
        assert forall|f: int| 0 <= f < fields.len() implies lists_field(
            after,
            typename,
            (#[trigger] fields[f]).name@,
        ) by {
            if f < rest.len() {
                assert(rest[f] == fields[f]);
                assert(lists_field(before, typename, rest[f].name@));
                lemma_listed_field_stays(before, after, typename, fields[f].name@);
            } else if !lists_field(before, typename, fields[f].name@) {
                assert(after[after.len() - 1].typename == typename);
            }
        }
    }
}

proof fn lemma_listed_field_stays(
    list: Seq<DeclaredField>,
    longer: Seq<DeclaredField>,
    typename: Seq<char>,
    field: Seq<char>,
)
    requires
        list.is_prefix_of(longer),
        lists_field(list, typename, field),
    ensures
        lists_field(longer, typename, field),
{
    let i = choose|i: int|
        0 <= i < list.len() && (#[trigger] list[i]).typename == typename && list[i].field.name
            == field;
    assert(longer[i] == list[i]);
}

proof fn lemma_fields_of_types(list: Seq<DeclaredField>, types: Seq<TypeDefinition>)
    ensures
        list.is_prefix_of(with_fields_of_types(list, types)),
        are_distinct_fields(list) ==> are_distinct_fields(with_fields_of_types(list, types)),
        forall|t: int, f: int|
            0 <= t < types.len() && 0 <= f < fields_of(types[t]).len() ==> lists_field(
                with_fields_of_types(list, types),
                types[t].name@,
                (#[trigger] fields_of(types[t])[f]).name@,
            ),
    decreases types.len(),
{
    if types.len() > 0 {
        let rest = types.drop_last();
        let before = with_fields_of_types(list, rest);
        let after = with_fields_of_types(list, types);
        lemma_fields_of_types(list, rest);
        lemma_new_fields(before, types.last().name@, fields_of(types.last()));
        assert forall|t: int, f: int|
            0 <= t < types.len() && 0 <= f < fields_of(types[t]).len() implies lists_field(
            after,
            types[t].name@,
            (#[trigger] fields_of(types[t])[f]).name@,
        ) by {
            if t < rest.len() {
                assert(rest[t] == types[t]);
                assert(lists_field(before, rest[t].name@, fields_of(rest[t])[f].name@));
                lemma_listed_field_stays(
                    before,
                    after,
                    types[t].name@,
                    fields_of(types[t])[f].name@,
                );
            }
        }
    }
}

/// Every field of an object or interface type of a subgraph is validated, once under the name of
/// its type.
pub proof fn law_every_field_is_validated_once(subgraphs: Seq<Subgraph>)
    ensures
        are_distinct_fields(declared_fields(subgraphs)),
        forall|s: int, t: int, f: int|
            0 <= s < subgraphs.len() && 0 <= t < subgraphs[s].schema.types@.len() && 0 <= f
                < fields_of(subgraphs[s].schema.types@[t]).len() ==> lists_field(
                declared_fields(subgraphs),
                subgraphs[s].schema.types@[t].name@,
                (#[trigger] fields_of(subgraphs[s].schema.types@[t])[f]).name@,
            ),
    decreases subgraphs.len(),
{
    if subgraphs.len() > 0 {
        let rest = subgraphs.drop_last();
        let before = declared_fields(rest);
        let after = declared_fields(subgraphs);
        law_every_field_is_validated_once(rest);
        lemma_fields_of_types(before, subgraphs.last().schema.types@);
        assert forall|s: int, t: int, f: int|
            0 <= s < subgraphs.len() && 0 <= t < subgraphs[s].schema.types@.len() && 0 <= f
                < fields_of(subgraphs[s].schema.types@[t]).len() implies lists_field(
            after,
            subgraphs[s].schema.types@[t].name@,
            (#[trigger] fields_of(subgraphs[s].schema.types@[t])[f]).name@,
        ) by {
            if s < rest.len() {
                assert(rest[s] == subgraphs[s]);
                let ty = rest[s].schema.types@[t];
                assert(lists_field(before, ty.name@, fields_of(ty)[f].name@));
                lemma_listed_field_stays(before, after, ty.name@, fields_of(ty)[f].name@);
            }
        }
    }
}

/// A list with distinct items added holds what it held and what was added.
proof fn lemma_with_all_distinct<A>(list: Seq<A>, items: Seq<A>, item: A)
    ensures
        with_all_distinct(list, items).contains(item) <==> list.contains(item) || items.contains(
            item,
        ),
    decreases items.len(),
{
    if items.len() > 0 {
        let rest = items.drop_last();
        let before = with_all_distinct(list, rest);
        let after = with_all_distinct(list, items);
        lemma_with_all_distinct(list, rest, item);
        assert(after == with_distinct(before, items.last()));
        assert(items[items.len() - 1] == items.last());
        if before.contains(item) {
            assert(after[before.index_of(item)] == item);
        }
        if !before.contains(items.last()) {
            assert(after[after.len() - 1] == items.last());
        }
        if rest.contains(item) {
            assert(items[rest.index_of(item)] == item);
        }
        if items.contains(item) && items.index_of(item) < rest.len() {
            assert(rest[items.index_of(item)] == item);
        }
        if after.contains(item) && after.index_of(item) < before.len() {
            assert(before[after.index_of(item)] == item);
        }
    }
}

/// Each element that a directive is applied to is listed.
proof fn lemma_referencers(applied: Seq<Application>, name: Seq<char>, a: int)
    requires
        0 <= a < applied.len(),
        applied[a].directive.name == name,
    ensures
        referencers(applied, name).contains(applied[a].target),
    decreases applied.len(),
{
    let rest = applied.drop_last();
    let before = referencers(rest, name);
    let after = referencers(applied, name);
    if a < rest.len() {
        assert(rest[a] == applied[a]);
        lemma_referencers(rest, name, a);
        assert(after[before.index_of(applied[a].target)] == applied[a].target);
    } else if !before.contains(applied[a].target) {
        assert(after[after.len() - 1] == applied[a].target);
    }
}

proof fn lemma_override_is_listed(subgraphs: Seq<Subgraph>, s: int, target: Target)
    requires
        0 <= s < subgraphs.len(),
        elements_with(subgraphs[s], subgraphs[s].override_directive_name).contains(target),
    ensures
        elements_with_override(subgraphs).contains(target),
    decreases subgraphs.len(),
{
    let rest = subgraphs.drop_last();
    if s < rest.len() {
        assert(rest[s] == subgraphs[s]);
        lemma_override_is_listed(rest, s, target);
    }
    lemma_with_all_distinct(
        elements_with_override(rest),
        elements_with(subgraphs.last(), subgraphs.last().override_directive_name),
        target,
    );
}

/// Wherever a subgraph applies `@override` to a field of an object or interface type, fields of
/// that name are validated.
pub proof fn law_every_override_is_looked_at(
    subgraphs: Seq<Subgraph>,
    s: int,
    a: int,
    typename: Seq<char>,
    field: Seq<char>,
)
    requires
        0 <= s < subgraphs.len(),
        0 <= a < subgraphs[s].schema.applied_directives@.len(),
        subgraphs[s].override_directive_name is Some,
        subgraphs[s].schema.applied_directives@[a].directive.name@
            == subgraphs[s].override_directive_name->0@,
        subgraphs[s].schema.applied_directives@[a].target@ == Target::ObjectField(typename, field)
            || subgraphs[s].schema.applied_directives@[a].target@ == Target::InterfaceField(
            typename,
            field,
        ),
    ensures
        is_overridden_somewhere(elements_with_override(subgraphs), field),
{
    let applied = applications(subgraphs[s].schema.applied_directives@);
    let listed = elements_with_override(subgraphs);
    assert(applied[a] == subgraphs[s].schema.applied_directives@[a]@);
    lemma_referencers(applied, subgraphs[s].override_directive_name->0@, a);
    lemma_override_is_listed(subgraphs, s, applied[a].target);
    assert(listed[listed.index_of(applied[a].target)] == applied[a].target);
}

} // verus!
