//! What holds of a merge as a whole, in terms of the subgraphs.

use crate::ast::{DirectiveDefinition, FieldDefinition, ValueShape};
use crate::composition::{
    federation_version, imports_by_name, is_reported, is_result_of, is_set_up, set_up_failure,
    texts_by_name, KnownSpecs, Preparation,
};
use crate::directives::FederationDirective;
use crate::lookup_laws::{
    is_first_application, is_first_argument, is_first_field, is_first_type,
    law_first_field_is_found, law_first_specification_is_found,
};
use crate::merge_laws::law_every_merged_type_is_in_the_supergraph;
use crate::merger::{CompositionOptions, Known, MergeResult, Merger};
use crate::override_findings::{
    findings_at, is_field_named, law_field_of_each_subgraph_is_a_source,
    law_findings_of_every_field_are_reported, law_override_from_self_is_an_error,
    lists_field_named, name_at, FieldOverride,
};
use crate::override_laws::{law_every_field_is_validated_once, law_every_override_is_looked_at};
use crate::override_messages::from_self;
use crate::override_pass::{declared_fields, lists_field, sources_of};
use crate::report::{
    plain_error, CompositionError, CompositionHint, ErrorKind, ErrorRecord, HintRecord, Report,
};
use crate::schema::{
    fields_of, targets, FederationSchema, FieldPlace, Target, TypeDefinition, TypeKind,
};
use crate::shallow::{definition_positions, definition_shapes, kind_of, report_shallow_types};
use crate::shallow_laws::{
    has_merged_definition, has_merged_type, kind_at,
    law_different_kinds_are_reported, law_every_merged_definition_is_in_the_supergraph,
    law_first_definition_gives_the_kind, law_kind_other_than_known_is_reported, reports_mismatch,
};
use crate::subgraph::Subgraph;
use crate::text::texts;
use crate::type_laws::lists_name;
use vstd::prelude::*;

verus! {

/// What a merge reports.
pub open spec fn reported_by(result: MergeResult) -> Report {
    Report {
        errors: result.errors@.map_values(|e: CompositionError| e@),
        hints: result.hints@.map_values(|h: CompositionHint| h@),
    }
}

/// The errors of the pass over the types are errors of the merge.
proof fn lemma_type_errors_stay(result: MergeResult, merger: Merger, error: ErrorRecord)
    requires
        is_result_of(result, merger),
        report_shallow_types(
            merger.error_reporter@,
            definition_positions(merger.merged.types@),
            merger.subgraphs@,
        ).errors.contains(error),
    ensures
        reported_by(result).errors.contains(error),
        result.supergraph is None,
{
    let schema = choose|schema: FederationSchema| #[trigger]
        merger.is_supergraph(schema) && is_reported(
            result,
            merger.merge_report(schema),
            schema,
        );
    law_findings_of_every_field_are_reported(
        Known { types: schema.types@, ..merger.known() },
        targets(merger.fields_with_override@),
        declared_fields(merger.subgraphs@),
        report_shallow_types(
            merger.error_reporter@,
            definition_positions(merger.merged.types@),
            merger.subgraphs@,
        ),
        error,
        arbitrary(),
    );
}

/// There is no supergraph where two subgraphs define a type of one name with different kinds, and
/// the result has an error about the kind of that type. The kind of an object type that carries
/// `@interfaceObject` is taken as interface.
pub proof fn law_different_kinds_stop_the_merge(
    result: MergeResult,
    merger: Merger,
    name: Seq<char>,
    s: int,
    t: int,
    other_s: int,
    other_t: int,
)
    requires
        is_result_of(result, merger),
        has_merged_type(merger.subgraphs@, s, t, name),
        has_merged_type(merger.subgraphs@, other_s, other_t, name),
        kind_at(merger.subgraphs@, s, t) != kind_at(merger.subgraphs@, other_s, other_t),
    ensures
        result.supergraph is None,
        reports_mismatch(reported_by(result), name),
{
    let types = definition_positions(merger.merged.types@);
    law_different_kinds_are_reported(
        merger.error_reporter@,
        types,
        merger.subgraphs@,
        name,
        s,
        t,
        other_s,
        other_t,
    );
    lemma_mismatch_stays(result, merger, name);
}

proof fn lemma_mismatch_stays(result: MergeResult, merger: Merger, name: Seq<char>)
    requires
        is_result_of(result, merger),
        reports_mismatch(
            report_shallow_types(
                merger.error_reporter@,
                definition_positions(merger.merged.types@),
                merger.subgraphs@,
            ),
            name,
        ),
    ensures
        result.supergraph is None,
        reports_mismatch(reported_by(result), name),
{
    let report = report_shallow_types(
        merger.error_reporter@,
        definition_positions(merger.merged.types@),
        merger.subgraphs@,
    );
    let i = choose|i: int|
        0 <= i < report.errors.len() && (#[trigger] report.errors[i]).kind
            == ErrorKind::TypeKindMismatch && report.errors[i].message == "Type \""@ + name
            + "\" has mismatched kind: it is defined as "@;
    let error = report.errors[i];
    assert(report.errors.contains(error));
    lemma_type_errors_stay(result, merger, error);
    let errors = reported_by(result).errors;
    assert(errors[errors.index_of(error)] == error);
}

/// Every type of a subgraph that belongs into the supergraph is there, with the kind that it has
/// in the subgraph. An object type that carries `@interfaceObject` is there as an interface.
pub proof fn law_every_type_is_in_the_supergraph(
    result: MergeResult,
    merger: Merger,
    name: Seq<char>,
    s: int,
    t: int,
)
    requires
        is_result_of(result, merger),
        result.supergraph is Some,
        has_merged_type(merger.subgraphs@, s, t, name),
    ensures
        exists|k: int|
            #[trigger] is_first_type(result.supergraph->0.types@, k, name)
                && result.supergraph->0.types@[k].definition.spec_kind() == kind_at(
                merger.subgraphs@,
                s,
                t,
            ),
{
    let schema = choose|schema: FederationSchema| #[trigger]
        merger.is_supergraph(schema) && is_reported(
            result,
            merger.merge_report(schema),
            schema,
        );
    let before = definition_positions(merger.merged.types@);
    let after = definition_positions(schema.types@);
    let kind = kind_at(merger.subgraphs@, s, t);
    assert(result.supergraph == Some(schema));
    law_every_merged_type_is_in_the_supergraph(before, merger.subgraphs@, s, t, name);
    if kind_of(before, name) is Some {
        if kind_of(before, name) != Some(kind) {
            law_kind_other_than_known_is_reported(
                merger.error_reporter@,
                before,
                merger.subgraphs@,
                name,
                s,
                t,
            );
            lemma_mismatch_stays(result, merger, name);
        }
    } else {
        lemma_first_merged_type(merger.subgraphs@, name, s, t);
        let (first_s, first_t) = choose|first_s: int, first_t: int|
            #[trigger] is_first_merged_type(merger.subgraphs@, first_s, first_t, name);
        law_first_definition_gives_the_kind(before, merger.subgraphs@, name, first_s, first_t);
        if kind_at(merger.subgraphs@, first_s, first_t) != kind {
            law_different_kinds_stop_the_merge(result, merger, name, s, t, first_s, first_t);
        }
    }
    assert(kind_of(after, name) == Some(kind));
    let types = result.supergraph->0.types@;
    assert(types == schema.types@);
    lemma_type_of_the_kind(types, name, kind);
}

proof fn lemma_type_of_the_kind(types: Seq<TypeDefinition>, name: Seq<char>, kind: TypeKind)
    requires
        kind_of(definition_positions(types), name) == Some(kind),
    ensures
        exists|k: int|
            #[trigger] is_first_type(types, k, name) && types[k].definition.spec_kind() == kind,
    decreases types.len(),
{
    let all = definition_positions(types);
    if types[0].name@ == name {
        assert(is_first_type(types, 0, name));
    } else {
        let rest = types.skip(1);
        assert(all.skip(1) =~= definition_positions(rest));
        lemma_type_of_the_kind(rest, name, kind);
        let k = choose|k: int|
            #[trigger] is_first_type(rest, k, name) && rest[k].definition.spec_kind() == kind;
        assert(types[k + 1] == rest[k]);
        assert forall|j: int| 0 <= j < k + 1 implies (#[trigger] types[j]).name@ != name by {
            if j > 0 {
                assert(rest[j - 1] == types[j]);
            }
        }
        assert(is_first_type(types, k + 1, name));
    }
}

/// Whether no type of the name stands before in the subgraphs.
spec fn is_first_merged_type(
    subgraphs: Seq<Subgraph>,
    s: int,
    t: int,
    name: Seq<char>,
) -> bool {
    &&& has_merged_type(subgraphs, s, t, name)
    &&& forall|k: int, m: int|
        #[trigger] has_merged_type(subgraphs, k, m, name) ==> s < k || (s == k && t <= m)
}

proof fn lemma_first_merged_type(subgraphs: Seq<Subgraph>, name: Seq<char>, s: int, t: int)
    requires
        has_merged_type(subgraphs, s, t, name),
    ensures
        exists|first_s: int, first_t: int|
            #[trigger] is_first_merged_type(subgraphs, first_s, first_t, name),
    decreases s, t,
{
    if !is_first_merged_type(subgraphs, s, t, name) {
        let (k, m) = choose|k: int, m: int|
            #[trigger] has_merged_type(subgraphs, k, m, name) && !(s < k || (s == k && t <= m));
        lemma_first_merged_type(subgraphs, name, k, m);
    }
}

/// Every directive definition of a subgraph that belongs into the supergraph is there, under its
/// name.
pub proof fn law_every_definition_is_in_the_supergraph(
    result: MergeResult,
    merger: Merger,
    s: int,
    d: int,
)
    requires
        is_result_of(result, merger),
        result.supergraph is Some,
        has_merged_definition(merger.compose_directive_manager@, merger.subgraphs@, s, d),
    ensures
        ({
            let name = merger.subgraphs@[s].schema.directive_definitions@[d].name@;
            let definitions = result.supergraph->0.directive_definitions@;
            lists_name(merger.merged.built_in_directives@, name) || exists|k: int|
                0 <= k < definitions.len() && (#[trigger] definitions[k]).name@ == name
        }),
{
    let schema = choose|schema: FederationSchema| #[trigger]
        merger.is_supergraph(schema) && is_reported(
            result,
            merger.merge_report(schema),
            schema,
        );
    assert(result.supergraph == Some(schema));
    let built_in = texts(merger.merged.built_in_directives@);
    let name = merger.subgraphs@[s].schema.directive_definitions@[d].name@;
    let definitions = result.supergraph->0.directive_definitions@;
    assert(definitions == schema.directive_definitions@);
    let shapes = definition_shapes(definitions);
    law_every_merged_definition_is_in_the_supergraph(
        built_in,
        definition_shapes(merger.merged.directive_definitions@),
        merger.compose_directive_manager@,
        merger.subgraphs@,
        s,
        d,
    );
    if built_in.contains(name) {
        let i = built_in.index_of(name);
        assert(merger.merged.built_in_directives@[i]@ == name);
    } else {
        let k = choose|k: int| 0 <= k < shapes.len() && (#[trigger] shapes[k]).name == name;
        assert(definitions[k].name@ == name);
    }
}

/// What is found about the overrides of a field, whatever types the supergraph comes to have, is
/// in the result; with an error there is no supergraph.
pub proof fn law_findings_about_a_field_are_in_the_result(
    result: MergeResult,
    merger: Merger,
    k: int,
    error: ErrorRecord,
    hint: HintRecord,
)
    requires
        is_result_of(result, merger),
        0 <= k < declared_fields(merger.subgraphs@).len(),
    ensures
        (forall|schema: FederationSchema| #[trigger]
            merger.is_supergraph(schema) ==> found_at(merger, schema, k).errors.contains(error))
            ==> reported_by(result).errors.contains(error) && result.supergraph is None,
        (forall|schema: FederationSchema| #[trigger]
            merger.is_supergraph(schema) ==> found_at(merger, schema, k).hints.contains(hint))
            ==> reported_by(result).hints.contains(hint),
{
    let schema = choose|schema: FederationSchema| #[trigger]
        merger.is_supergraph(schema) && is_reported(
            result,
            merger.merge_report(schema),
            schema,
        );
    let known = Known { types: schema.types@, ..merger.known() };
    let overridden = targets(merger.fields_with_override@);
    let fields = declared_fields(merger.subgraphs@);
    law_findings_of_every_field_are_reported(
        known,
        overridden,
        fields,
        report_shallow_types(
            merger.error_reporter@,
            definition_positions(merger.merged.types@),
            merger.subgraphs@,
        ),
        error,
        hint,
    );
    assert(found_at(merger, schema, k) == findings_at(known, overridden, fields, k));
}

/// What is found about the overrides of one of the declared fields.
pub open spec fn found_at(merger: Merger, schema: FederationSchema, k: int) -> Report {
    findings_at(
        Known { types: schema.types@, ..merger.known() },
        targets(merger.fields_with_override@),
        declared_fields(merger.subgraphs@),
        k,
    )
}

/// A field of a subgraph that carries `@override` from the subgraph itself.
pub struct SelfOverride {
    /// The place of the subgraph.
    pub subgraph: int,
    /// The place of the type in the subgraph, the first one of its name.
    pub ty: int,
    /// The place of the field in the type, the first one of its name.
    pub field: int,
    /// The place of the `@override` in the field, the first one.
    pub directive: int,
    /// The place of the argument `from`, the first one of its name.
    pub argument: int,
    /// The place of the `@override` among the applications of the subgraph.
    pub application: int,
}

impl SelfOverride {
    pub open spec fn typename(self, subgraphs: Seq<Subgraph>) -> Seq<char> {
        subgraphs[self.subgraph].schema.types@[self.ty].name@
    }

    pub open spec fn definition(self, subgraphs: Seq<Subgraph>) -> FieldDefinition {
        fields_of(subgraphs[self.subgraph].schema.types@[self.ty])[self.field]
    }

    pub open spec fn is_given(self, subgraphs: Seq<Subgraph>) -> bool {
        let subgraph = subgraphs[self.subgraph];
        let types = subgraph.schema.types@;
        let fields = fields_of(types[self.ty]);
        let name = fields[self.field].name@;
        let directives = fields[self.field]@.directives;
        let arguments = directives[self.directive].directive.arguments;
        let applied = subgraph.schema.applied_directives@;
        &&& 0 <= self.subgraph < subgraphs.len()
        &&& subgraph.is_fed_2_schema
        &&& is_first_type(types, self.ty, types[self.ty].name@)
        &&& is_first_field(fields, self.field, name)
        &&& is_first_application(directives, self.directive, FederationDirective::Override)
        &&& is_first_argument(arguments, self.argument, "from"@)
        &&& arguments[self.argument].value == ValueShape::String(subgraph.name@)
        &&& 0 <= self.application < applied.len()
        &&& subgraph.override_directive_name is Some
        &&& applied[self.application].directive.name@ == subgraph.override_directive_name->0@
        &&& applied[self.application].target@ == Target::ObjectField(
            types[self.ty].name@,
            name,
        )
    }
}

/// A merge of subgraphs with different names, one of which has a field that it overrides from
/// itself, comes to an error about that field, and to no supergraph.
pub proof fn law_override_from_self_stops_the_merge(
    result: MergeResult,
    merger: Merger,
    subgraphs: Vec<Subgraph>,
    options: CompositionOptions,
    specs: KnownSpecs,
    preparation: Preparation,
    given: SelfOverride,
)
    requires
        is_set_up(merger, subgraphs, options, specs, preparation),
        is_result_of(result, merger),
        forall|i: int, j: int|
            0 <= i < j < subgraphs@.len() ==> (#[trigger] subgraphs@[i]).name@ != (
            #[trigger] subgraphs@[j]).name@,
        given.is_given(subgraphs@),
        merger.known().position_of(given.definition(subgraphs@)@) matches Some(
            FieldPlace::Object(typename, _),
        ) && !lists_name(subgraphs@[given.subgraph].interface_object_types@, typename),
    ensures
        result.supergraph is None,
        reported_by(result).errors.contains(
            plain_error(
                ErrorKind::OverrideFromSelfError,
                from_self(
                    subgraphs@[given.subgraph].name@,
                    "<Type>."@ + given.definition(subgraphs@).name@,
                ),
            ),
        ),
{
    let s = given.subgraph;
    let typename = given.typename(subgraphs@);
    let field = given.definition(subgraphs@);
    let own_name = subgraphs@[s].name@;
    let overridden = targets(merger.fields_with_override@);
    let fields = declared_fields(merger.subgraphs@);
    let error = plain_error(
        ErrorKind::OverrideFromSelfError,
        from_self(own_name, "<Type>."@ + field.name@),
    );
    law_every_field_is_validated_once(subgraphs@);
    assert(lists_field(fields, typename, field.name@));
    let k = choose|k: int|
        0 <= k < fields.len() && (#[trigger] fields[k]).typename == typename
            && fields[k].field.name == field.name@;
    law_every_override_is_looked_at(
        subgraphs@,
        s,
        given.application,
        typename,
        field.name@,
    );
    let o = choose|o: int|
        0 <= o < overridden.len() && match #[trigger] overridden[o] {
            Target::ObjectField(_, name) => name == field.name@,
            Target::InterfaceField(_, name) => name == field.name@,
            Target::Element(_) => false,
        };
    assert(is_field_named(overridden[o], field.name@));
    assert(lists_field_named(overridden, field.name@));
    assert(subgraphs.len() == subgraphs@.len());
    law_field_of_each_subgraph_is_a_source(subgraphs@, typename, field.name@, s, given.ty);
    let all_fields = fields_of(subgraphs@[s].schema.types@[given.ty]);
    assert(all_fields[given.field] == field);
    law_first_field_is_found(all_fields, field.name@);
    let sources = sources_of(subgraphs@, typename, field.name@);
    assert(sources[s] == (s as usize, Some(field@)));
    assert forall|schema: FederationSchema| #[trigger]
        merger.is_supergraph(schema) implies found_at(merger, schema, k).errors.contains(error) by {
        let known = Known { types: schema.types@, ..merger.known() };
        let case = FieldOverride {
            known,
            overridden,
            sources,
            dest: fields[k].field,
            at: s,
            application: given.directive,
        };
        assert(known.names[s] == own_name);
        assert forall|j: int| s < j < sources.len() implies #[trigger] name_at(known, sources, j)
            != name_at(known, sources, s) by {
            assert(sources[j].0 == j);
            assert(known.names[j] == subgraphs@[j].name@);
        }
        assert(known.subgraphs[s].name@ == own_name);
        assert(known.position_of(field@) == merger.known().position_of(field@));
        assert(case.is_given());
        assert(is_first_argument(
            case.directive().directive.arguments,
            given.argument,
            "from"@,
        ));
        law_override_from_self_is_an_error(case, Report::empty());
    }
    law_findings_about_a_field_are_in_the_result(result, merger, k, error, arbitrary());
}

/// Setting up a merge succeeds where, and only where, there are specifications for the latest
/// version in use and every step of the preparation succeeded.
pub proof fn law_set_up_succeeds(
    subgraphs: Seq<Subgraph>,
    specs: KnownSpecs,
    preparation: Preparation,
)
    ensures
        set_up_failure(subgraphs, specs, preparation) is None <==> {
            let version = federation_version(subgraphs, specs);
            &&& exists|i: int|
                0 <= i < specs.join_specs@.len() && (#[trigger] specs.join_specs@[i]).0 == version
            &&& exists|i: int|
                0 <= i < specs.link_specs@.len() && (#[trigger] specs.link_specs@[i]).0 == version
            &&& preparation.link_spec is Ok
            &&& preparation.join_spec is Ok
            &&& preparation.core_directives is Ok
            &&& preparation.directive_specs is Ok
            &&& preparation.graph_names is Ok
        },
{
    let version = federation_version(subgraphs, specs);
    law_first_specification_is_found(specs.join_specs@, version);
    law_first_specification_is_found(specs.link_specs@, version);
}

/// The imports that are known under the name of a subgraph are those of the last subgraph with the
/// name; none are known under any other name.
pub proof fn law_imports_of_each_subgraph(subgraphs: Seq<Subgraph>, name: Seq<char>)
    ensures
        forall|s: int|
            0 <= s < subgraphs.len() && (#[trigger] subgraphs[s]).name@ == name && (forall|k: int|
                s < k < subgraphs.len() ==> (#[trigger] subgraphs[k]).name@ != name) ==> {
                &&& imports_by_name(subgraphs).contains_key(name)
                &&& imports_by_name(subgraphs)[name] == texts_by_name(subgraphs[s].imports@)
            },
        imports_by_name(subgraphs).contains_key(name) ==> exists|s: int|
            0 <= s < subgraphs.len() && (#[trigger] subgraphs[s]).name@ == name,
    decreases subgraphs.len(),
{
    if subgraphs.len() > 0 {
        let rest = subgraphs.drop_last();
        let last = subgraphs.len() - 1;
        law_imports_of_each_subgraph(rest, name);
        assert forall|s: int|
            0 <= s < subgraphs.len() && (#[trigger] subgraphs[s]).name@ == name && (forall|k: int|
                s < k < subgraphs.len() ==> (#[trigger] subgraphs[k]).name@ != name) implies {
            &&& imports_by_name(subgraphs).contains_key(name)
            &&& imports_by_name(subgraphs)[name] == texts_by_name(subgraphs[s].imports@)
        } by {
            if s < last {
                assert(subgraphs[last].name@ != name);
                assert(rest[s] == subgraphs[s]);
                assert forall|k: int| s < k < rest.len() implies (#[trigger] rest[k]).name@
                    != name by {
                    assert(subgraphs[k].name@ != name);
                }
            }
        }
        if imports_by_name(subgraphs).contains_key(name) {
            if subgraphs[last].name@ != name {
                assert(imports_by_name(rest).contains_key(name));
                let s = choose|s: int| 0 <= s < rest.len() && (#[trigger] rest[s]).name@ == name;
                assert(subgraphs[s].name@ == name);
            }
        }
    }
}

/// What a specification adds is prepared where its step and all steps before it succeeded, and
/// nothing else is.
pub proof fn law_elements_of_successful_steps_are_prepared(
    preparation: Preparation,
    ty: TypeDefinition,
    definition: DirectiveDefinition,
)
    ensures
        ({
            let linked = preparation.link_spec is Ok;
            let joined = linked && preparation.join_spec is Ok;
            let complete = joined && preparation.core_directives is Ok
                && preparation.directive_specs is Ok;
            &&& preparation.types().contains(ty) <==> {
                ||| linked && preparation.link_spec->Ok_0.types@.contains(ty)
                ||| joined && preparation.join_spec->Ok_0.types@.contains(ty)
                ||| complete && preparation.directive_specs->Ok_0.types@.contains(ty)
            }
            &&& preparation.directive_definitions().contains(definition) <==> {
                ||| linked && preparation.link_spec->Ok_0.directive_definitions@.contains(
                    definition,
                )
                ||| joined && preparation.join_spec->Ok_0.directive_definitions@.contains(
                    definition,
                )
                ||| complete && preparation.directive_specs->Ok_0.directive_definitions@.contains(
                    definition,
                )
            }
        }),
{
    let link = preparation.link_spec->Ok_0;
    let join = preparation.join_spec->Ok_0;
    let specs = preparation.directive_specs->Ok_0;
    lemma_contains_of_both(link.types@, join.types@, ty);
    lemma_contains_of_both(link.types@ + join.types@, specs.types@, ty);
    lemma_contains_of_both(
        link.directive_definitions@,
        join.directive_definitions@,
        definition,
    );
    lemma_contains_of_both(
        link.directive_definitions@ + join.directive_definitions@,
        specs.directive_definitions@,
        definition,
    );
}

proof fn lemma_contains_of_both<A>(first: Seq<A>, second: Seq<A>, item: A)
    ensures
        (first + second).contains(item) <==> first.contains(item) || second.contains(item),
{
    let both = first + second;
    if first.contains(item) {
        assert(both[first.index_of(item)] == item);
    }
    if second.contains(item) {
        assert(both[first.len() + second.index_of(item)] == item);
    }
    if both.contains(item) {
        let at = both.index_of(item);
        if at < first.len() {
            assert(first[at] == item);
        } else {
            assert(second[at - first.len()] == item);
        }
    }
}

/// The failure of a preparation is that of its first step that failed: a step fails it where the
/// steps before it succeeded.
pub proof fn law_first_failed_step_fails(preparation: Preparation)
    ensures
        preparation.link_spec matches Err(error) ==> preparation.failure() == Some(error.message@),
        preparation.link_spec is Ok ==> (preparation.join_spec matches Err(error)
            ==> preparation.failure() == Some(error.message@)),
        preparation.link_spec is Ok && preparation.join_spec is Ok ==> (
        preparation.core_directives matches Err(error) ==> preparation.failure() == Some(
            error.message@,
        )),
        preparation.link_spec is Ok && preparation.join_spec is Ok
            && preparation.core_directives is Ok ==> (
        preparation.directive_specs matches Err(error) ==> preparation.failure() == Some(
            error.message@,
        )),
        preparation.link_spec is Ok && preparation.join_spec is Ok
            && preparation.core_directives is Ok && preparation.directive_specs is Ok ==> (
        preparation.graph_names matches Err(error) ==> preparation.failure() == Some(
            error.message@,
        )),
{
}

} // verus!
