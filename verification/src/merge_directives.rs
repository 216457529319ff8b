//! Merging of the applications of a directive.

use crate::applications::{
    application_text, count_applications, counted, counted_shapes, describe_application,
    find_most_used, index_arguments, indexed, most_used,
};
use crate::ast::{
    argument_named, argument_shapes, find_argument, input_shapes, optional_shape, Argument,
    ArgumentShape, DefinitionShape, Directive, DirectiveShape, InputValueDefinition,
    InputValueShape, Value, ValueShape,
};
use crate::index_map::Sources;
use crate::merger::{MergedDirectiveInfo, Merger};
use crate::report::{
    hint_record, mismatch_hint_record, source_texts, CompositionHint, ErrorReporter,
    FederationError, HintCode, HintRecord, Mismatch, MismatchRecord, Report,
};
use crate::schema::{
    applications, applied_at, extend_targets, list_applied_at, list_referencers, missing_element,
    plain_directives, referencers, targets, with_all_distinct, Application, DirectiveTargetPosition,
    FederationSchema, Target,
};
use crate::subgraph::Subgraph;
use vstd::prelude::*;
use vstd::string::*;

verus! {

/// What each value of a list is.
pub open spec fn value_shapes(values: Seq<Value>) -> Seq<ValueShape> {
    values.map_values(|v: Value| v@)
}

/// What each optional value of a list is.
pub open spec fn optional_shapes(values: Seq<Option<Value>>) -> Seq<Option<ValueShape>> {
    values.map_values(|v: Option<Value>| optional_shape(v))
}

/// What the applications in each subgraph are.
pub open spec fn shapes_by_source(applications: Seq<(usize, Vec<Directive>)>) -> Seq<
    (usize, Seq<DirectiveShape>),
> {
    applications.map_values(|a: (usize, Vec<Directive>)| (a.0, plain_directives(a.1@)))
}

/// The applications in all subgraphs, in order.
pub open spec fn all_applications(by_source: Seq<(usize, Seq<DirectiveShape>)>) -> Seq<
    DirectiveShape,
>
    decreases by_source.len(),
{
    if by_source.len() == 0 {
        Seq::empty()
    } else {
        all_applications(by_source.drop_last()) + by_source.last().1
    }
}

/// The first application in each subgraph, in words.
pub open spec fn first_texts(by_source: Seq<(usize, Seq<DirectiveShape>)>) -> Seq<
    (usize, Option<Seq<char>>),
> {
    by_source.map_values(
        |a: (usize, Seq<DirectiveShape>)|
            (
                a.0,
                if a.1.len() > 0 {
                    Some(application_text(a.1[0]))
                } else {
                    None
                },
            ),
    )
}

/// How the applications of a directive to an element are merged.
pub enum DirectivePlan {
    /// Each of them is applied.
    Each(Seq<DirectiveShape>),
    /// The only one is applied.
    Only(DirectiveShape),
    /// One with merged arguments is applied.
    Combine(Seq<DirectiveShape>),
    /// The one that is used most is applied.
    Choose(DirectiveShape),
    /// None is applied.
    Nothing,
}

/// How some applications are merged.
pub open spec fn plan(
    repeatable: bool,
    has_merger: bool,
    given: Seq<DirectiveShape>,
) -> DirectivePlan {
    let counts = counted(given);
    let kinds = counts.map_values(|c: (DirectiveShape, nat)| c.0);
    if repeatable {
        DirectivePlan::Each(kinds)
    } else if counts.len() == 1 {
        DirectivePlan::Only(kinds[0])
    } else if has_merger {
        DirectivePlan::Combine(kinds)
    } else {
        match most_used(counts) {
            Some(best) => DirectivePlan::Choose(best.0),
            None => DirectivePlan::Nothing,
        }
    }
}

/// The values that are merged for an argument: in each application the value that it gives the
/// argument, else the default of the argument.
pub open spec fn argument_values(
    argument: InputValueShape,
    kinds: Seq<DirectiveShape>,
) -> Seq<ValueShape>
    decreases kinds.len(),
{
    if kinds.len() == 0 {
        Seq::empty()
    } else {
        let rest = argument_values(argument, kinds.drop_last());
        match argument_named(kinds.last().arguments, argument.name) {
            Some(value) => rest.push(value),
            None => match argument.default_value {
                Some(value) => rest.push(value),
                None => rest,
            },
        }
    }
}

/// The arguments that have a merged value.
pub open spec fn merged_arguments(
    arguments: Seq<InputValueShape>,
    merged: Seq<Option<ValueShape>>,
) -> Seq<ArgumentShape>
    decreases arguments.len(),
{
    if arguments.len() == 0 {
        Seq::empty()
    } else {
        let rest = merged_arguments(arguments.drop_last(), merged);
        match merged[arguments.len() - 1] {
            Some(value) => rest.push(ArgumentShape { name: arguments.last().name, value }),
            None => rest,
        }
    }
}

/// The text of the hint about merged arguments.
pub open spec fn combined_text(
    name: Seq<char>,
    target: Target,
    strategy: Seq<char>,
) -> Seq<char> {
    "Directive @"@ + name + " is applied to \""@ + target.coordinate()
        + "\" in multiple subgraphs with different arguments. Merging strategies used by arguments: "@
        + strategy
}

/// The text of the hint about the choice of an application.
pub open spec fn chosen_text(name: Seq<char>, target: Target) -> Seq<char> {
    "Non-repeatable directive @"@ + name + " is applied to \""@ + target.coordinate()
        + "\" in mulitple subgraphs but with incompatible arguments. "@
}

/// What has been applied and reported.
pub struct DirectiveState {
    pub applied: Seq<Application>,
    pub report: Report,
}

impl DirectiveState {
    /// The state after a directive is applied to an element.
    pub open spec fn with_applied(
        self,
        target: Target,
        directive: DirectiveShape,
    ) -> DirectiveState {
        DirectiveState {
            applied: self.applied.push(Application { target, directive }),
            ..self
        }
    }

    /// The state after some directives are applied to an element.
    pub open spec fn with_all_applied(
        self,
        target: Target,
        directives: Seq<DirectiveShape>,
    ) -> DirectiveState {
        DirectiveState {
            applied: self.applied + directives.map_values(
                |directive: DirectiveShape| Application { target, directive },
            ),
            ..self
        }
    }

    /// The state with one more hint.
    pub open spec fn with_hint(self, hint: HintRecord) -> DirectiveState {
        DirectiveState { report: self.report.with_hint(hint), ..self }
    }
}

/// What has been applied and reported.
pub open spec fn directive_state(
    schema: FederationSchema,
    error_reporter: ErrorReporter,
) -> DirectiveState {
    DirectiveState {
        applied: applications(schema.applied_directives@),
        report: error_reporter@,
    }
}

/// Whether a plan applies a directive.
pub open spec fn applies_some(plan: DirectivePlan) -> bool {
    match plan {
        DirectivePlan::Each(kinds) => kinds.len() > 0,
        DirectivePlan::Nothing => false,
        _ => true,
    }
}

/// The state after a plan is carried out, and the message of the failure to do so: where merging
/// the arguments failed, or where the schema does not have the element.
pub open spec fn carried_out(
    name: Seq<char>,
    definition: DefinitionShape,
    has_merger: bool,
    target: Target,
    has_element: bool,
    by_source: Seq<(usize, Seq<DirectiveShape>)>,
    merged: Result<Seq<Option<ValueShape>>, Seq<char>>,
    strategy: Seq<char>,
    state: DirectiveState,
) -> (DirectiveState, Option<Seq<char>>) {
    let plan = plan(definition.repeatable, has_merger, all_applications(by_source));
    if plan is Combine && merged is Err {
        (state, Some(merged->Err_0))
    } else if applies_some(plan) && !has_element {
        (state, Some(missing_element(target)))
    } else {
        (
            match plan {
                DirectivePlan::Each(kinds) => state.with_all_applied(target, kinds),
                DirectivePlan::Only(kind) => state.with_applied(target, kind),
                DirectivePlan::Combine(_) => state.with_applied(
                    target,
                    DirectiveShape {
                        name,
                        arguments: merged_arguments(definition.arguments, merged->Ok_0),
                    },
                ).with_hint(
                    hint_record(
                        HintCode::MergedNonRepeatableDirectiveArguments.code_text(),
                        combined_text(name, target, strategy),
                        Seq::empty(),
                    ),
                ),
                DirectivePlan::Choose(kind) => state.with_applied(target, kind).with_hint(
                    mismatch_hint_record(
                        HintCode::InconsistentNonRepeatableDirectiveArguments.code_text(),
                        chosen_text(name, target),
                        MismatchRecord {
                            element: application_text(kind),
                            sources: first_texts(by_source),
                        },
                    ),
                ),
                DirectivePlan::Nothing => state,
            },
            None,
        )
    }
}

/// What merging the arguments came to.
pub open spec fn merge_outcome(
    merged: Result<Vec<Option<Value>>, FederationError>,
) -> Result<Seq<Option<ValueShape>>, Seq<char>> {
    match merged {
        Ok(values) => Ok(optional_shapes(values@)),
        Err(error) => Err(error.message@),
    }
}

/// Lists the applications in all subgraphs.
fn flatten_applications(by_source: &Vec<(usize, Vec<Directive>)>) -> (all: Vec<Directive>)
    ensures
        plain_directives(all@) == all_applications(shapes_by_source(by_source@)),
{
    let ghost shapes = shapes_by_source(by_source@);
    let mut all: Vec<Directive> = Vec::new();
    let mut i: usize = 0;
    assert(shapes.take(0) =~= Seq::<(usize, Seq<DirectiveShape>)>::empty());
    assert(plain_directives(all@) =~= Seq::<DirectiveShape>::empty());
    while i < by_source.len()
        invariant
            i <= by_source.len(),
            shapes == shapes_by_source(by_source@),
            plain_directives(all@) == all_applications(shapes.take(i as int)),
        decreases by_source.len() - i,
    {
        assert(shapes.take(i + 1).drop_last() =~= shapes.take(i as int));
        let ghost before = plain_directives(all@);
        let list = &by_source[i].1;
        let ghost added = plain_directives(list@);
        let mut k: usize = 0;
        assert(before + added.take(0) =~= before);
        while k < list.len()
            invariant
                k <= list.len(),
                added == plain_directives(list@),
                plain_directives(all@) == before + added.take(k as int),
            decreases list.len() - k,
        {
            let ghost now = plain_directives(all@);
            all.push(list[k].clone());
            assert(plain_directives(all@) =~= now.push(added[k as int]));
            assert(before + added.take(k + 1) =~= now.push(added[k as int]));
            k += 1;
        }
        assert(added.take(list.len() as int) =~= added);
        i += 1;
    }
    assert(shapes.take(by_source.len() as int) =~= shapes);
    all
}

/// Puts the first application in each subgraph into words.
fn describe_first_applications(by_source: &Vec<(usize, Vec<Directive>)>) -> (written: Vec<
    (usize, Option<String>),
>)
    ensures
        source_texts(written@) == first_texts(shapes_by_source(by_source@)),
{
    let ghost shapes = shapes_by_source(by_source@);
    let mut written: Vec<(usize, Option<String>)> = Vec::new();
    let mut i: usize = 0;
    while i < by_source.len()
        invariant
            i <= by_source.len(),
            shapes == shapes_by_source(by_source@),
            written.len() == i,
            forall|j: int|
                0 <= j < i ==> (#[trigger] source_texts(written@)[j]) == first_texts(shapes)[j],
        decreases by_source.len() - i,
    {
        let ghost before = written@;
        let list = &by_source[i].1;
        assert(plain_directives(list@).len() == list@.len());
        let text = if list.len() > 0 {
            assert(plain_directives(list@)[0] == list@[0]@);
            Some(describe_application(&list[0]))
        } else {
            None
        };
        written.push((by_source[i].0, text));
        assert forall|j: int| 0 <= j <= i implies (#[trigger] source_texts(written@)[j])
            == first_texts(shapes)[j] by {
            if j < i {
                assert(source_texts(before)[j] == first_texts(shapes)[j]);
            }
        }
        i += 1;
    }
    assert(source_texts(written@) =~= first_texts(shapes));
    written
}

/// Applies each of some directives to an element.
fn apply_each(
    counts: &Vec<(Directive, usize)>,
    position: &DirectiveTargetPosition,
    dest: &mut FederationSchema,
) -> (result: Result<(), FederationError>)
    ensures
        ({
            let has_element = targets(old(dest).elements@).contains(position@);
            match result {
                Ok(_) => (counts.len() > 0 ==> has_element) && applications(
                    final(dest).applied_directives@,
                ) == applications(old(dest).applied_directives@) + counted_shapes(
                    counts@,
                ).map_values(
                    |c: (DirectiveShape, nat)|
                        Application { target: position@, directive: c.0 },
                ),
                Err(error) => counts.len() > 0 && !has_element && *final(dest) == *old(dest)
                    && error.message@ == missing_element(position@),
            }
        }),
        *final(dest) == (FederationSchema {
            applied_directives: final(dest).applied_directives,
            ..*old(dest)
        }),
{
    let ghost added = counted_shapes(counts@).map_values(
        |c: (DirectiveShape, nat)| Application { target: position@, directive: c.0 },
    );
    let ghost before = applications(dest.applied_directives@);
    let mut i: usize = 0;
    assert(before + added.take(0) =~= before);
    while i < counts.len()
        invariant
            i <= counts.len(),
            added == counted_shapes(counts@).map_values(
                |c: (DirectiveShape, nat)| Application { target: position@, directive: c.0 },
            ),
            i > 0 ==> targets(old(dest).elements@).contains(position@),
            i == 0 ==> *dest == *old(dest),
            *dest == (FederationSchema {
                applied_directives: dest.applied_directives,
                ..*old(dest)
            }),
            applications(dest.applied_directives@) == before + added.take(i as int),
        decreases counts.len() - i,
    {
        let ghost now = applications(dest.applied_directives@);
        dest.insert_directive(position, counts[i].0.clone())?;
        assert(added[i as int].directive == counts@[i as int].0@);
        assert(before + added.take(i + 1) =~= now.push(added[i as int]));
        i += 1;
    }
    assert(added.take(counts.len() as int) =~= added);
    Ok(())
}

/// Makes an application of the arguments that have a merged value.
fn combine_arguments(
    name: &str,
    arguments: &Vec<InputValueDefinition>,
    merged: &Vec<Option<Value>>,
) -> (directive: Directive)
    requires
        merged.len() == arguments.len(),
    ensures
        directive@ == (DirectiveShape {
            name: name@,
            arguments: merged_arguments(input_shapes(arguments@), optional_shapes(merged@)),
        }),
{
    let ghost all = input_shapes(arguments@);
    let ghost values = optional_shapes(merged@);
    let mut directive = Directive::new(name.to_owned());
    let mut i: usize = 0;
    assert(all.take(0) =~= Seq::<InputValueShape>::empty());
    while i < arguments.len()
        invariant
            i <= arguments.len(),
            merged.len() == arguments.len(),
            all == input_shapes(arguments@),
            values == optional_shapes(merged@),
            directive@.name == name@,
            directive@.arguments == merged_arguments(all.take(i as int), values),
        decreases arguments.len() - i,
    {
        assert(all.take(i + 1).drop_last() =~= all.take(i as int));
        assert(all[i as int] == arguments@[i as int]@);
        assert(values[i as int] == optional_shape(merged@[i as int]));
        let ghost before = directive@.arguments;
        if let Some(value) = &merged[i] {
            let argument = Argument { name: arguments[i].name.clone(), value: value.clone() };
            directive.arguments.push(argument);
            assert(directive@.arguments =~= before.push(argument@));
        }
        i += 1;
    }
    assert(all.take(arguments.len() as int) =~= all);
    directive
}

/// Merges the applications of a directive to an element into the supergraph.
///
/// Each different application of a repeatable directive is applied. Of another directive, the
/// only application there is is applied; of several, one with the merged arguments where
/// arguments can be merged, else the one that occurs most often.
pub fn settle_directive(
    name: &str,
    info: &MergedDirectiveInfo,
    position: &DirectiveTargetPosition,
    by_source: &Vec<(usize, Vec<Directive>)>,
    merged: Result<Vec<Option<Value>>, FederationError>,
    strategy: &str,
    dest: &mut FederationSchema,
    error_reporter: &mut ErrorReporter,
) -> (result: Result<(), FederationError>)
    requires
        merged is Ok && plan(
            info.definition.repeatable,
            info.arguments_merger is Some,
            all_applications(shapes_by_source(by_source@)),
        ) is Combine ==> merged->Ok_0.len() == info.definition.arguments.len(),
    ensures
        ({
            let (state, failure) = carried_out(
                name@,
                info.definition@,
                info.arguments_merger is Some,
                position@,
                targets(old(dest).elements@).contains(position@),
                shapes_by_source(by_source@),
                merge_outcome(merged),
                strategy@,
                directive_state(*old(dest), *old(error_reporter)),
            );
            &&& directive_state(*final(dest), *final(error_reporter)) == state
            &&& match result {
                Ok(_) => failure is None,
                Err(error) => failure == Some(error.message@),
            }
        }),
        *final(dest) == (FederationSchema {
            applied_directives: final(dest).applied_directives,
            ..*old(dest)
        }),
{
    let all = flatten_applications(by_source);
    let counts = count_applications(&all);
    assert(counted_shapes(counts@).len() == counts@.len());
    let ghost kinds = counted_shapes(counts@).map_values(|c: (DirectiveShape, nat)| c.0);
    if info.definition.repeatable {
        assert(kinds.map_values(
            |directive: DirectiveShape| Application { target: position@, directive },
        ) =~= counted_shapes(counts@).map_values(
            |c: (DirectiveShape, nat)| Application { target: position@, directive: c.0 },
        ));
        return apply_each(&counts, position, dest);
    }
    if counts.len() == 1 {
        assert(kinds[0] == counts@[0].0@);
        return dest.insert_directive(position, counts[0].0.clone());
    }
    let coordinate = position.to_coordinate();
    if info.arguments_merger.is_some() {
        let values = merged?;
        let directive = combine_arguments(name, &info.definition.arguments, &values);
        dest.insert_directive(position, directive)?;
        let text = "Directive @".to_owned().concat(name).concat(" is applied to \"").concat(
            coordinate.as_str(),
        ).concat(
            "\" in multiple subgraphs with different arguments. Merging strategies used by arguments: ",
        ).concat(strategy);
        error_reporter.add_hint(
            CompositionHint::new(
                text,
                HintCode::MergedNonRepeatableDirectiveArguments.code().to_owned(),
            ),
        );
        return Ok(());
    }
    if let Some(chosen) = find_most_used(&counts) {
        dest.insert_directive(position, chosen.clone())?;
        let text = "Non-repeatable directive @".to_owned().concat(name).concat(
            " is applied to \"",
        ).concat(coordinate.as_str()).concat(
            "\" in mulitple subgraphs but with incompatible arguments. ",
        );
        error_reporter.report_mismatch_hint(
            HintCode::InconsistentNonRepeatableDirectiveArguments,
            text,
            Mismatch {
                element: describe_application(chosen),
                sources: describe_first_applications(by_source),
            },
        );
    }
    Ok(())
}

/// Whether a directive is an application of a subgraph with its arguments transformed.
pub open spec fn is_transformed<T: Fn(usize, &Subgraph, Vec<Argument>) -> Vec<Argument>>(
    transform: T,
    strategy: usize,
    subgraph: Subgraph,
    application: DirectiveShape,
    result: Directive,
) -> bool {
    result.name@ == application.name && exists|given: Vec<Argument>|
        argument_shapes(given@) == indexed(application.arguments) && #[trigger] call_ensures(
            transform,
            (strategy, &subgraph, given),
            result.arguments,
        )
}

/// Whether the directives are the applications in a subgraph with their arguments transformed. A
/// directive without a transformation counts as not applied.
pub open spec fn are_transformed<T: Fn(usize, &Subgraph, Vec<Argument>) -> Vec<Argument>>(
    transform: T,
    info: MergedDirectiveInfo,
    subgraph: Subgraph,
    target: Target,
    results: Seq<Directive>,
) -> bool {
    let given = applied_at(
        applications(subgraph.schema.applied_directives@),
        target,
        info.definition.name@,
    );
    match info.static_argument_transform {
        Some(strategy) => results.len() == given.len() && forall|i: int|
            0 <= i < given.len() ==> is_transformed(
                transform,
                strategy,
                subgraph,
                given[i],
                #[trigger] results[i],
            ),
        None => results.len() == 0,
    }
}

/// Lists the applications of a directive to an element in a subgraph, with their arguments
/// transformed.
pub fn directive_applications_with_transformed_arguments<T>(
    position: &DirectiveTargetPosition,
    info: &MergedDirectiveInfo,
    subgraph: &Subgraph,
    transform: &T,
) -> (results: Vec<Directive>) where T: Fn(usize, &Subgraph, Vec<Argument>) -> Vec<Argument>
    requires
        forall|strategy: usize, given: Vec<Argument>|
            call_requires(*transform, (strategy, subgraph, given)),
    ensures
        are_transformed(*transform, *info, *subgraph, position@, results@),
{
    let mut results: Vec<Directive> = Vec::new();
    if let Some(strategy) = info.static_argument_transform {
        let list = list_applied_at(
            &subgraph.schema.applied_directives,
            position,
            info.definition.name.as_str(),
        );
        let ghost given = plain_directives(list@);
        let mut i: usize = 0;
        while i < list.len()
            invariant
                i <= list.len(),
                given == plain_directives(list@),
                results.len() == i,
                forall|strategy: usize, given: Vec<Argument>|
                    call_requires(*transform, (strategy, subgraph, given)),
                forall|j: int|
                    0 <= j < i ==> is_transformed(
                        *transform,
                        strategy,
                        *subgraph,
                        given[j],
                        #[trigger] results@[j],
                    ),
            decreases list.len() - i,
        {
            let arguments = index_arguments(&list[i].arguments);
            assert(given[i as int] == list@[i as int]@);
            let ghost handed = arguments;
            let result = Directive {
                name: list[i].name.clone(),
                arguments: transform(strategy, subgraph, arguments),
            };
            assert(call_ensures(*transform, (strategy, subgraph, handed), result.arguments));
            results.push(result);
            i += 1;
        }
    }
    results
}

/// The subgraphs among the sources.
pub open spec fn present(sources: Seq<(usize, Option<Subgraph>)>) -> Seq<(usize, Subgraph)>
    decreases sources.len(),
{
    if sources.len() == 0 {
        Seq::empty()
    } else {
        match sources.last().1 {
            Some(subgraph) => present(sources.drop_last()).push((sources.last().0, subgraph)),
            None => present(sources.drop_last()),
        }
    }
}

/// The elements that a directive is applied to in some subgraph, each once.
pub open spec fn directive_targets(subgraphs: Seq<(usize, Subgraph)>, name: Seq<char>) -> Seq<
    Target,
>
    decreases subgraphs.len(),
{
    if subgraphs.len() == 0 {
        Seq::empty()
    } else {
        with_all_distinct(
            directive_targets(subgraphs.drop_last(), name),
            referencers(applications(subgraphs.last().1.schema.applied_directives@), name),
        )
    }
}

/// Whether the lists are the applications in each subgraph with their arguments transformed.
pub open spec fn are_collected<T: Fn(usize, &Subgraph, Vec<Argument>) -> Vec<Argument>>(
    transform: T,
    info: MergedDirectiveInfo,
    subgraphs: Seq<(usize, Subgraph)>,
    target: Target,
    by_source: Seq<(usize, Vec<Directive>)>,
) -> bool {
    &&& by_source.len() == subgraphs.len()
    &&& forall|i: int|
        0 <= i < subgraphs.len() ==> (#[trigger] by_source[i]).0 == subgraphs[i].0
            && are_transformed(transform, info, subgraphs[i].1, target, by_source[i].1@)
}

/// Whether merging some values can come to the outcome.
pub open spec fn is_merged<
    M: Fn(usize, &str, &Vec<Value>) -> Result<Option<Value>, FederationError>,
>(
    merge: M,
    strategy: usize,
    name: &str,
    values: Seq<ValueShape>,
    outcome: Result<Option<Value>, FederationError>,
) -> bool {
    exists|given: Vec<Value>|
        value_shapes(given@) == values && #[trigger] call_ensures(
            merge,
            (strategy, name, &given),
            outcome,
        )
}

/// Whether merging some values can succeed.
pub open spec fn can_be_merged<
    M: Fn(usize, &str, &Vec<Value>) -> Result<Option<Value>, FederationError>,
>(
    merge: M,
    strategy: usize,
    name: &str,
    values: Seq<ValueShape>,
) -> bool {
    exists|value: Option<Value>| #[trigger]
        is_merged(merge, strategy, name, values, Ok::<Option<Value>, FederationError>(value))
}

/// Whether merging the values of some arguments, one after the other, can come to the outcome: a
/// value or none for each, or the first failure, before which each argument merged.
pub open spec fn are_merged<
    M: Fn(usize, &str, &Vec<Value>) -> Result<Option<Value>, FederationError>,
>(
    merge: M,
    strategy: usize,
    name: &str,
    arguments: Seq<InputValueShape>,
    kinds: Seq<DirectiveShape>,
    merged: Result<Vec<Option<Value>>, FederationError>,
) -> bool {
    match merged {
        Ok(values) => values.len() == arguments.len() && forall|i: int|
            0 <= i < arguments.len() ==> is_merged(
                merge,
                strategy,
                name,
                argument_values(arguments[i], kinds),
                Ok::<Option<Value>, FederationError>(#[trigger] values@[i]),
            ),
        Err(error) => exists|i: int|
            0 <= i < arguments.len() && is_merged(
                merge,
                strategy,
                name,
                argument_values(#[trigger] arguments[i], kinds),
                Err::<Option<Value>, FederationError>(error),
            ) && forall|j: int|
                0 <= j < i ==> can_be_merged(
                    merge,
                    strategy,
                    name,
                    argument_values(#[trigger] arguments[j], kinds),
                ),
    }
}

/// Lists the values that are merged for an argument.
fn list_argument_values(
    argument: &InputValueDefinition,
    counts: &Vec<(Directive, usize)>,
) -> (values: Vec<Value>)
    ensures
        value_shapes(values@) == argument_values(
            argument@,
            counted_shapes(counts@).map_values(|c: (DirectiveShape, nat)| c.0),
        ),
{
    let ghost kinds = counted_shapes(counts@).map_values(|c: (DirectiveShape, nat)| c.0);
    let mut values: Vec<Value> = Vec::new();
    let mut i: usize = 0;
    assert(kinds.take(0) =~= Seq::<DirectiveShape>::empty());
    assert(value_shapes(values@) =~= Seq::<ValueShape>::empty());
    while i < counts.len()
        invariant
            i <= counts.len(),
            kinds == counted_shapes(counts@).map_values(|c: (DirectiveShape, nat)| c.0),
            value_shapes(values@) == argument_values(argument@, kinds.take(i as int)),
        decreases counts.len() - i,
    {
        assert(kinds.take(i + 1).drop_last() =~= kinds.take(i as int));
        assert(kinds[i as int] == counts@[i as int].0@);
        let ghost before = value_shapes(values@);
        match find_argument(&counts[i].0.arguments, argument.name.as_str()) {
            Some(value) => {
                values.push(value.clone());
                assert(value_shapes(values@) =~= before.push(value@));
            },
            None => {
                if let Some(value) = &argument.default_value {
                    values.push(value.clone());
                    assert(value_shapes(values@) =~= before.push(value@));
                }
            },
        }
        i += 1;
    }
    assert(kinds.take(counts.len() as int) =~= kinds);
    values
}

/// Merges the values of each argument; stops at the first failure.
fn merge_argument_values<M>(
    name: &str,
    strategy: usize,
    arguments: &Vec<InputValueDefinition>,
    counts: &Vec<(Directive, usize)>,
    merge: &M,
) -> (merged: Result<Vec<Option<Value>>, FederationError>) where
    M: Fn(usize, &str, &Vec<Value>) -> Result<Option<Value>, FederationError>,

    requires
        forall|strategy: usize, name: &str, given: Vec<Value>|
            call_requires(*merge, (strategy, name, &given)),
    ensures
        are_merged(
            *merge,
            strategy,
            name,
            input_shapes(arguments@),
            counted_shapes(counts@).map_values(|c: (DirectiveShape, nat)| c.0),
            merged,
        ),
{
    let ghost all = input_shapes(arguments@);
    let ghost kinds = counted_shapes(counts@).map_values(|c: (DirectiveShape, nat)| c.0);
    let mut merged: Vec<Option<Value>> = Vec::new();
    let mut i: usize = 0;
    while i < arguments.len()
        invariant
            i <= arguments.len(),
            all == input_shapes(arguments@),
            kinds == counted_shapes(counts@).map_values(|c: (DirectiveShape, nat)| c.0),
            merged.len() == i,
            forall|strategy: usize, name: &str, given: Vec<Value>|
                call_requires(*merge, (strategy, name, &given)),
            forall|j: int|
                0 <= j < i ==> is_merged(
                    *merge,
                    strategy,
                    name,
                    argument_values(all[j], kinds),
                    Ok::<Option<Value>, FederationError>(#[trigger] merged@[j]),
                ),
        decreases arguments.len() - i,
    {
        assert(all[i as int] == arguments@[i as int]@);
        let values = list_argument_values(&arguments[i], counts);
        let outcome = merge(strategy, name, &values);
        assert(call_ensures(*merge, (strategy, name, &values), outcome));
        assert(is_merged(
            *merge,
            strategy,
            name,
            argument_values(all[i as int], kinds),
            outcome,
        ));
        match outcome {
            Ok(value) => merged.push(value),
            Err(error) => {
                assert forall|j: int| 0 <= j < i implies can_be_merged(
                    *merge,
                    strategy,
                    name,
                    argument_values(#[trigger] all[j], kinds),
                ) by {
                    assert(is_merged(
                        *merge,
                        strategy,
                        name,
                        argument_values(all[j], kinds),
                        Ok::<Option<Value>, FederationError>(merged@[j]),
                    ));
                }
                return Err(error);
            },
        }
        i += 1;
    }
    Ok(merged)
}

/// What the strategies of a directive made of its applications to an element.
pub struct DirectiveStep {
    /// The applications in each subgraph, with their arguments transformed.
    pub by_source: Seq<(usize, Vec<Directive>)>,
    /// The merged values of the arguments, where the arguments are merged.
    pub merged: Result<Vec<Option<Value>>, FederationError>,
    /// The strategy that merged them, in words.
    pub strategy: String,
}

/// Whether the strategies can make this of the applications to an element.
pub open spec fn is_possible<
    T: Fn(usize, &Subgraph, Vec<Argument>) -> Vec<Argument>,
    M: Fn(usize, &str, &Vec<Value>) -> Result<Option<Value>, FederationError>,
    D: Fn(usize) -> String,
>(
    transform: T,
    merge: M,
    describe: D,
    name: &str,
    info: MergedDirectiveInfo,
    subgraphs: Seq<(usize, Subgraph)>,
    target: Target,
    step: DirectiveStep,
) -> bool {
    &&& are_collected(transform, info, subgraphs, target, step.by_source)
    &&& match plan(
        info.definition.repeatable,
        info.arguments_merger is Some,
        all_applications(shapes_by_source(step.by_source)),
    ) {
        DirectivePlan::Combine(kinds) => are_merged(
            merge,
            info.arguments_merger->0,
            name,
            input_shapes(info.definition.arguments@),
            kinds,
            step.merged,
        ) && call_ensures(describe, (info.arguments_merger->0,), step.strategy),
        _ => true,
    }
}

/// The state after the applications to some elements are merged, one element after the other up to
/// the first failure, and the message of the failure.
pub open spec fn all_carried_out(
    name: Seq<char>,
    info: MergedDirectiveInfo,
    elements: Seq<Target>,
    positions: Seq<Target>,
    steps: Seq<DirectiveStep>,
    state: DirectiveState,
) -> (DirectiveState, Option<Seq<char>>)
    decreases steps.len(),
{
    if steps.len() == 0 {
        (state, None)
    } else {
        let (before, failure) = all_carried_out(
            name,
            info,
            elements,
            positions,
            steps.drop_last(),
            state,
        );
        if failure is Some {
            (before, failure)
        } else {
            let target = positions[steps.len() - 1];
            carried_out(
                name,
                info.definition@,
                info.arguments_merger is Some,
                target,
                elements.contains(target),
                shapes_by_source(steps.last().by_source),
                merge_outcome(steps.last().merged),
                steps.last().strategy@,
                before,
            )
        }
    }
}

/// Collects the applications of a directive to an element in each subgraph, with their arguments
/// transformed.
fn collect_applications<T>(
    sources: &Sources<Subgraph>,
    position: &DirectiveTargetPosition,
    info: &MergedDirectiveInfo,
    transform: &T,
) -> (by_source: Vec<(usize, Vec<Directive>)>) where
    T: Fn(usize, &Subgraph, Vec<Argument>) -> Vec<Argument>,

    requires
        sources.well_formed(),
        forall|strategy: usize, subgraph: Subgraph, given: Vec<Argument>|
            call_requires(*transform, (strategy, &subgraph, given)),
    ensures
        are_collected(*transform, *info, present(sources@), position@, by_source@),
{
    let ghost all = sources@;
    let mut by_source: Vec<(usize, Vec<Directive>)> = Vec::new();
    let mut i: usize = 0;
    assert(all.take(0) =~= Seq::<(usize, Option<Subgraph>)>::empty());
    while i < sources.len()
        invariant
            i <= sources@.len(),
            all == sources@,
            sources.well_formed(),
            forall|strategy: usize, subgraph: Subgraph, given: Vec<Argument>|
                call_requires(*transform, (strategy, &subgraph, given)),
            are_collected(*transform, *info, present(all.take(i as int)), position@, by_source@),
        decreases sources@.len() - i,
    {
        assert(all.take(i + 1).drop_last() =~= all.take(i as int));
        let ghost before = by_source@;
        let ghost known = present(all.take(i as int));
        if let Some(subgraph) = sources.item_at(i) {
            let list = directive_applications_with_transformed_arguments(
                position,
                info,
                subgraph,
                transform,
            );
            let key = sources.key_at(i);
            by_source.push((key, list));
            proof {
                let now = known.push((key, *subgraph));
                assert forall|j: int| 0 <= j < now.len() implies (#[trigger] by_source@[j]).0
                    == now[j].0 && are_transformed(
                    *transform,
                    *info,
                    now[j].1,
                    position@,
                    by_source@[j].1@,
                ) by {
                    if j < before.len() {
                        assert(before[j] == by_source@[j]);
                    }
                }
            }
        }
        i += 1;
    }
    assert(all.take(all.len() as int) =~= all);
    by_source
}

/// Lists the elements that a directive is applied to in some subgraph.
fn list_directive_targets(sources: &Sources<Subgraph>, name: &str) -> (list: Vec<
    DirectiveTargetPosition,
>)
    ensures
        targets(list@) == directive_targets(present(sources@), name@),
{
    let ghost all = sources@;
    let mut list: Vec<DirectiveTargetPosition> = Vec::new();
    let mut i: usize = 0;
    assert(all.take(0) =~= Seq::<(usize, Option<Subgraph>)>::empty());
    assert(targets(list@) =~= Seq::<Target>::empty());
    while i < sources.len()
        invariant
            i <= sources@.len(),
            all == sources@,
            targets(list@) == directive_targets(present(all.take(i as int)), name@),
        decreases sources@.len() - i,
    {
        assert(all.take(i + 1).drop_last() =~= all.take(i as int));
        let ghost known = present(all.take(i as int));
        if let Some(subgraph) = sources.item_at(i) {
            assert(known.push((all[i as int].0, *subgraph)).drop_last() =~= known);
            let added = list_referencers(&subgraph.schema.applied_directives, name);
            extend_targets(&mut list, &added);
        }
        i += 1;
    }
    assert(all.take(all.len() as int) =~= all);
    list
}

impl Merger {
    /// Merges the applications of a directive in the subgraphs into a schema.
    ///
    /// The strategies of the directive are handed in as functions: `transform` transforms the
    /// arguments of an application in a subgraph, `merge_arguments` merges the values of an
    /// argument, and `describe_merger` says how it does so. What the outcome is for each result
    /// of theirs is what [`settle_directive`] says.
    pub fn merge_applied_directive<T, M, D>(
        &mut self,
        name: &str,
        sources: &Sources<Subgraph>,
        dest: &mut FederationSchema,
        transform: T,
        merge_arguments: M,
        describe_merger: D,
    ) -> (result: Result<(), FederationError>) where
        T: Fn(usize, &Subgraph, Vec<Argument>) -> Vec<Argument>,
        M: Fn(usize, &str, &Vec<Value>) -> Result<Option<Value>, FederationError>,
        D: Fn(usize) -> String,

        requires
            sources.well_formed(),
            forall|strategy: usize, subgraph: Subgraph, given: Vec<Argument>|
                call_requires(transform, (strategy, &subgraph, given)),
            forall|strategy: usize, name: &str, given: Vec<Value>|
                call_requires(merge_arguments, (strategy, name, &given)),
            forall|strategy: usize| call_requires(describe_merger, (strategy,)),
        ensures
            ({
                let infos = old(
                    self,
                ).merged_federation_directive_in_supergraph_by_directive_name@;
                if infos.contains_key(name@) {
                    let info = infos[name@];
                    let subgraphs = present(sources@);
                    let positions = directive_targets(subgraphs, name@);
                    exists|steps: Seq<DirectiveStep>|
                        {
                            let (state, failure) = #[trigger] all_carried_out(
                                name@,
                                info,
                                targets(old(dest).elements@),
                                positions,
                                steps,
                                directive_state(*old(dest), old(self).error_reporter),
                            );
                            &&& steps.len() <= positions.len()
                            &&& forall|i: int|
                                0 <= i < steps.len() ==> is_possible(
                                    transform,
                                    merge_arguments,
                                    describe_merger,
                                    name,
                                    info,
                                    subgraphs,
                                    positions[i],
                                    #[trigger] steps[i],
                                )
                            &&& directive_state(*final(dest), final(self).error_reporter) == state
                            &&& match result {
                                Ok(_) => failure is None && steps.len() == positions.len(),
                                Err(error) => failure == Some(error.message@),
                            }
                        }
                } else {
                    result is Ok && *final(dest) == *old(dest) && *final(self) == *old(self)
                }
            }),
            *final(dest) == (FederationSchema {
                applied_directives: final(dest).applied_directives,
                ..*old(dest)
            }),
            *final(self) == (Merger { error_reporter: final(self).error_reporter, ..*old(self) }),
    {
        let info = match self.merged_federation_directive_in_supergraph_by_directive_name.get(
            name,
        ) {
            Some(info) => info,
            None => {
                return Ok(());
            },
        };
        let positions = list_directive_targets(sources, name);
        let ghost subgraphs = present(sources@);
        let ghost all = targets(positions@);
        let ghost elements = targets(dest.elements@);
        let ghost start = directive_state(*dest, self.error_reporter);
        let ghost mut steps: Seq<DirectiveStep> = Seq::empty();
        let mut i: usize = 0;
        while i < positions.len()
            invariant
                i <= positions.len(),
                all == targets(positions@),
                all == directive_targets(subgraphs, name@),
                subgraphs == present(sources@),
                elements == targets(old(dest).elements@),
                start == directive_state(*old(dest), old(self).error_reporter),
                old(self).merged_federation_directive_in_supergraph_by_directive_name@.contains_key(
                    name@,
                ),
                *info == old(
                    self,
                ).merged_federation_directive_in_supergraph_by_directive_name@[name@],
                sources.well_formed(),
                forall|strategy: usize, subgraph: Subgraph, given: Vec<Argument>|
                    call_requires(transform, (strategy, &subgraph, given)),
                forall|strategy: usize, name: &str, given: Vec<Value>|
                    call_requires(merge_arguments, (strategy, name, &given)),
                forall|strategy: usize| call_requires(describe_merger, (strategy,)),
                steps.len() == i,
                forall|j: int|
                    0 <= j < i ==> is_possible(
                        transform,
                        merge_arguments,
                        describe_merger,
                        name,
                        *info,
                        subgraphs,
                        all[j],
                        #[trigger] steps[j],
                    ),
                all_carried_out(name@, *info, elements, all, steps, start) == (
                    directive_state(*dest, self.error_reporter),
                    None::<Seq<char>>,
                ),
                *dest == (FederationSchema {
                    applied_directives: dest.applied_directives,
                    ..*old(dest)
                }),
                *self == (Merger { error_reporter: self.error_reporter, ..*old(self) }),
            decreases positions.len() - i,
        {
            assert(all[i as int] == positions@[i as int]@);
            let by_source = collect_applications(sources, &positions[i], info, &transform);
            let flat = flatten_applications(&by_source);
            let counts = count_applications(&flat);
            assert(counted_shapes(counts@).len() == counts@.len());
            let mut merged: Result<Vec<Option<Value>>, FederationError> = Ok(Vec::new());
            let mut strategy = String::new();
            if !info.definition.repeatable && counts.len() != 1 {
                if let Some(merger) = info.arguments_merger {
                    merged = merge_argument_values(
                        name,
                        merger,
                        &info.definition.arguments,
                        &counts,
                        &merge_arguments,
                    );
                    strategy = describe_merger(merger);
                }
            }
            let ghost step = DirectiveStep { by_source: by_source@, merged, strategy };
            let ghost before = steps;
            proof {
                steps = steps.push(step);
                assert(steps.drop_last() =~= before);
                assert(is_possible(
                    transform,
                    merge_arguments,
                    describe_merger,
                    name,
                    *info,
                    subgraphs,
                    all[i as int],
                    step,
                ));
                assert forall|j: int| 0 <= j <= i implies is_possible(
                    transform,
                    merge_arguments,
                    describe_merger,
                    name,
                    *info,
                    subgraphs,
                    all[j],
                    #[trigger] steps[j],
                ) by {
                    if j < i {
                        assert(steps[j] == before[j]);
                    }
                }
            }
            let settled = settle_directive(
                name,
                info,
                &positions[i],
                &by_source,
                merged,
                strategy.as_str(),
                dest,
                &mut self.error_reporter,
            );
            if let Err(error) = settled {
                assert(all_carried_out(name@, *info, elements, all, steps, start) == (
                    directive_state(*dest, self.error_reporter),
                    Some(error.message@),
                ));
                return Err(error);
            }
            i += 1;
        }
        Ok(())
    }
}

} // verus!
