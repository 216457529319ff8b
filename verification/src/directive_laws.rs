//! What holds of the merge of directive applications, in terms of what the subgraphs apply.

use crate::applications::{
    application_text, argument_position, argument_texts, counted, different, has_argument, indexed,
    law_different_items, law_most_used_is_most_frequent, most_used, occurrences,
};
use crate::ast::{
    argument_named, Argument, ArgumentShape, DefinitionShape, Directive, DirectiveShape,
    InputValueShape, ValueShape,
};
use crate::lookup_laws::{
    is_first_argument, law_applications_at_an_element, law_distinct_items_are_added,
    law_elements_of_a_directive, law_first_argument_is_found,
};
use crate::merge_directives::{
    all_applications, all_carried_out, are_collected, argument_values, carried_out,
    directive_targets, first_texts, is_transformed, merge_outcome, merged_arguments, plan, present,
    shapes_by_source, DirectivePlan, DirectiveState, DirectiveStep,
};
use crate::merger::MergedDirectiveInfo;
use crate::report::HintCode;
use crate::schema::{applications, applied_at, missing_element, referencers, Application, Target};
use crate::subgraph::Subgraph;
use crate::text::join;
use crate::text_laws::{law_each_text_is_joined, stands_at};
use vstd::prelude::*;

verus! {

/// Each source that has a subgraph counts, one that has none does not, and the subgraphs of two
/// lists of sources are those of the first followed by those of the second.
pub proof fn law_each_source_with_a_subgraph_counts(
    first: Seq<(usize, Option<Subgraph>)>,
    second: Seq<(usize, Option<Subgraph>)>,
    key: usize,
    subgraph: Subgraph,
)
    ensures
        present(first + second) == present(first) + present(second),
        present(seq![(key, Some(subgraph))]) == seq![(key, subgraph)],
        present(seq![(key, None::<Subgraph>)]) == Seq::<(usize, Subgraph)>::empty(),
        present(Seq::empty()) == Seq::<(usize, Subgraph)>::empty(),
    decreases second.len(),
{
    reveal_with_fuel(present, 2);
    assert(seq![(key, Some(subgraph))].drop_last() =~= Seq::<
        (usize, Option<Subgraph>),
    >::empty());
    assert(seq![(key, None::<Subgraph>)].drop_last() =~= Seq::<
        (usize, Option<Subgraph>),
    >::empty());
    assert(present(seq![(key, Some(subgraph))]) =~= seq![(key, subgraph)]);
    if second.len() == 0 {
        assert(first + second =~= first);
        assert(present(first) + present(second) =~= present(first));
    } else {
        assert((first + second).drop_last() =~= first + second.drop_last());
        law_each_source_with_a_subgraph_counts(first, second.drop_last(), key, subgraph);
        assert(present(first + second) =~= present(first) + present(second));
    }
}

/// Whether the subgraph applies a directive of the name to the element.
pub open spec fn applies_directive(subgraph: Subgraph, name: Seq<char>, target: Target) -> bool {
    exists|a: int|
        0 <= a < subgraph.schema.applied_directives@.len() && (
        #[trigger] subgraph.schema.applied_directives@[a]).directive.name@ == name
            && subgraph.schema.applied_directives@[a].target@ == target
}

proof fn lemma_referencers(subgraph: Subgraph, name: Seq<char>, target: Target)
    ensures
        referencers(applications(subgraph.schema.applied_directives@), name).contains(target)
            <==> applies_directive(subgraph, name, target),
{
    let given = subgraph.schema.applied_directives@;
    let all = applications(given);
    law_elements_of_a_directive(all, name);
    if referencers(all, name).contains(target) {
        let a = choose|a: int|
            0 <= a < all.len() && (#[trigger] all[a]).directive.name == name && all[a].target
                == target;
        assert(given[a].directive.name@ == name);
    }
    if applies_directive(subgraph, name, target) {
        let a = choose|a: int|
            0 <= a < given.len() && (#[trigger] given[a]).directive.name@ == name
                && given[a].target@ == target;
        assert(all[a].directive.name == name);
    }
}

/// The elements whose applications are merged are those that some subgraph applies the directive
/// to, whichever subgraph that is, and each is there once.
pub proof fn law_every_element_is_merged_once(subgraphs: Seq<(usize, Subgraph)>, name: Seq<char>)
    ensures
        forall|target: Target| #[trigger]
            directive_targets(subgraphs, name).contains(target) <==> exists|s: int|
                0 <= s < subgraphs.len() && applies_directive(
                    (#[trigger] subgraphs[s]).1,
                    name,
                    target,
                ),
        directive_targets(subgraphs, name).no_duplicates(),
    decreases subgraphs.len(),
{
    if subgraphs.len() > 0 {
        let rest = subgraphs.drop_last();
        let last = subgraphs.last();
        let before = directive_targets(rest, name);
        let added = referencers(applications(last.1.schema.applied_directives@), name);
        let after = directive_targets(subgraphs, name);
        law_every_element_is_merged_once(rest, name);
        law_distinct_items_are_added(before, added);
        assert forall|target: Target| #[trigger] after.contains(target) <==> exists|s: int|
            0 <= s < subgraphs.len() && applies_directive(
                (#[trigger] subgraphs[s]).1,
                name,
                target,
            ) by {
            lemma_referencers(last.1, name, target);
            assert(after.contains(target) <==> before.contains(target) || added.contains(target));
            assert(subgraphs[subgraphs.len() - 1] == last);
            if before.contains(target) {
                let s = choose|s: int|
                    0 <= s < rest.len() && applies_directive(
                        (#[trigger] rest[s]).1,
                        name,
                        target,
                    );
                assert(subgraphs[s] == rest[s]);
            }
            if exists|s: int|
                0 <= s < subgraphs.len() && applies_directive(
                    (#[trigger] subgraphs[s]).1,
                    name,
                    target,
                ) {
                let s = choose|s: int|
                    0 <= s < subgraphs.len() && applies_directive(
                        (#[trigger] subgraphs[s]).1,
                        name,
                        target,
                    );
                if s < rest.len() {
                    assert(rest[s] == subgraphs[s]);
                    assert(before.contains(target));
                }
            }
        }
    }
}

proof fn lemma_present_holds(sources: Seq<(usize, Option<Subgraph>)>, i: int)
    requires
        0 <= i < sources.len(),
        sources[i].1 is Some,
    ensures
        present(sources).contains((sources[i].0, sources[i].1->0)),
    decreases sources.len(),
{
    let rest = sources.drop_last();
    let item = (sources[i].0, sources[i].1->0);
    let before = present(rest);
    let after = present(sources);
    if i < rest.len() {
        assert(rest[i] == sources[i]);
        lemma_present_holds(rest, i);
        assert(after[before.index_of(item)] == item);
    } else {
        assert(after[after.len() - 1] == item);
    }
}

/// For each subgraph among the sources and each application in it of a directive with the name,
/// the element that it is applied to is one of those whose applications are merged.
pub proof fn law_applications_of_every_source_are_merged(
    sources: Seq<(usize, Option<Subgraph>)>,
    name: Seq<char>,
    i: int,
    a: int,
)
    requires
        0 <= i < sources.len(),
        sources[i].1 is Some,
        0 <= a < sources[i].1->0.schema.applied_directives@.len(),
        sources[i].1->0.schema.applied_directives@[a].directive.name@ == name,
    ensures
        directive_targets(present(sources), name).contains(
            sources[i].1->0.schema.applied_directives@[a].target@,
        ),
{
    let subgraph = sources[i].1->0;
    let target = subgraph.schema.applied_directives@[a].target@;
    lemma_present_holds(sources, i);
    law_every_element_is_merged_once(present(sources), name);
    let at = present(sources).index_of((sources[i].0, subgraph));
    assert(applies_directive(present(sources)[at].1, name, target));
}

/// The applications in all subgraphs are those of each, in order: those of two lists are those of
/// the first followed by those of the second.
pub proof fn law_applications_of_all_subgraphs(
    first: Seq<(usize, Seq<DirectiveShape>)>,
    second: Seq<(usize, Seq<DirectiveShape>)>,
    key: usize,
    given: Seq<DirectiveShape>,
)
    ensures
        all_applications(first + second) == all_applications(first) + all_applications(second),
        all_applications(seq![(key, given)]) == given,
        all_applications(Seq::empty()) == Seq::<DirectiveShape>::empty(),
    decreases second.len(),
{
    reveal_with_fuel(all_applications, 2);
    assert(seq![(key, given)].drop_last() =~= Seq::<(usize, Seq<DirectiveShape>)>::empty());
    assert(all_applications(seq![(key, given)]) =~= given);
    if second.len() == 0 {
        assert(first + second =~= first);
        assert(all_applications(first) + all_applications(second) =~= all_applications(first));
    } else {
        assert((first + second).drop_last() =~= first + second.drop_last());
        law_applications_of_all_subgraphs(first, second.drop_last(), key, given);
        assert(all_applications(first + second) =~= all_applications(first) + all_applications(
            second,
        ));
    }
}

/// Whether one of the subgraphs has the application.
pub open spec fn is_given(
    by_source: Seq<(usize, Seq<DirectiveShape>)>,
    directive: DirectiveShape,
) -> bool {
    exists|s: int| 0 <= s < by_source.len() && (#[trigger] by_source[s]).1.contains(directive)
}

proof fn lemma_all_applications(
    by_source: Seq<(usize, Seq<DirectiveShape>)>,
    directive: DirectiveShape,
)
    ensures
        all_applications(by_source).contains(directive) <==> is_given(by_source, directive),
    decreases by_source.len(),
{
    if by_source.len() > 0 {
        let rest = by_source.drop_last();
        let last = by_source.last().1;
        let before = all_applications(rest);
        let after = all_applications(by_source);
        lemma_all_applications(rest, directive);
        assert(by_source[by_source.len() - 1] == by_source.last());
        if is_given(rest, directive) {
            let s = choose|s: int|
                0 <= s < rest.len() && (#[trigger] rest[s]).1.contains(directive);
            assert(by_source[s] == rest[s]);
            assert(after[before.index_of(directive)] == directive);
        }
        if last.contains(directive) {
            assert(after[before.len() + last.index_of(directive)] == directive);
        }
        if after.contains(directive) {
            let at = after.index_of(directive);
            if at < before.len() {
                assert(before[at] == directive);
            } else {
                assert(last[at - before.len()] == directive);
            }
        }
        if is_given(by_source, directive) {
            let s = choose|s: int|
                0 <= s < by_source.len() && (#[trigger] by_source[s]).1.contains(directive);
            if s < rest.len() {
                assert(rest[s] == by_source[s]);
            }
        }
    }
}

/// How often an item occurs is its multiplicity in the list.
pub proof fn law_occurrences_are_multiplicities<A>(items: Seq<A>, item: A)
    ensures
        occurrences(items, item) == items.to_multiset().count(item),
    decreases items.len(),
{
    broadcast use vstd::seq_lib::group_to_multiset_ensures;

    if items.len() > 0 {
        law_occurrences_are_multiplicities(items.drop_last(), item);
        assert(items.drop_last().push(items.last()) =~= items);
    }
}

/// Each different application of a repeatable directive is applied to the element, exactly once,
/// and nothing else is applied or reported.
pub proof fn law_repeatable_directive_is_applied(
    name: Seq<char>,
    definition: DefinitionShape,
    has_merger: bool,
    target: Target,
    by_source: Seq<(usize, Seq<DirectiveShape>)>,
    merged: Result<Seq<Option<ValueShape>>, Seq<char>>,
    strategy: Seq<char>,
    state: DirectiveState,
)
    requires
        definition.repeatable,
    ensures
        ({
            let (after, failure) = carried_out(
                name,
                definition,
                has_merger,
                target,
                true,
                by_source,
                merged,
                strategy,
                state,
            );
            let added = after.applied.skip(state.applied.len() as int);
            &&& failure is None
            &&& after.report == state.report
            &&& state.applied.is_prefix_of(after.applied)
            &&& added.no_duplicates()
            &&& forall|application: Application| #[trigger]
                added.contains(application) <==> application.target == target && is_given(
                    by_source,
                    application.directive,
                )
        }),
{
    let given = all_applications(by_source);
    let (after, failure) = carried_out(
        name,
        definition,
        has_merger,
        target,
        true,
        by_source,
        merged,
        strategy,
        state,
    );
    law_different_items(given);
    let kinds = counted(given).map_values(|c: (DirectiveShape, nat)| c.0);
    assert(kinds =~= different(given));
    let list = kinds.map_values(|directive: DirectiveShape| Application { target, directive });
    let added = after.applied.skip(state.applied.len() as int);
    assert(added =~= list);
    assert(state.applied.is_prefix_of(after.applied));
    assert(list.no_duplicates()) by {
        assert forall|i: int, j: int| 0 <= i < list.len() && 0 <= j < list.len() && i != j implies
            list[i] != list[j] by {
            assert(list[i].directive == kinds[i]);
            assert(list[j].directive == kinds[j]);
        }
    }
    assert forall|application: Application| #[trigger] added.contains(application)
        <==> application.target == target && is_given(by_source, application.directive) by {
        lemma_all_applications(by_source, application.directive);
        if added.contains(application) {
            let at = list.index_of(application);
            assert(kinds[at] == application.directive);
            assert(kinds.contains(application.directive));
        }
        if application.target == target && is_given(by_source, application.directive) {
            assert(kinds.contains(application.directive));
            let at = kinds.index_of(application.directive);
            assert(list[at] == application);
        }
    }
}

/// Of a directive that is not repeatable, the application is applied that all subgraphs have, where
/// they have one and the same; nothing is reported.
pub proof fn law_only_application_is_applied(
    name: Seq<char>,
    definition: DefinitionShape,
    has_merger: bool,
    target: Target,
    by_source: Seq<(usize, Seq<DirectiveShape>)>,
    merged: Result<Seq<Option<ValueShape>>, Seq<char>>,
    strategy: Seq<char>,
    state: DirectiveState,
    directive: DirectiveShape,
)
    requires
        !definition.repeatable,
        is_given(by_source, directive),
        forall|other: DirectiveShape| #[trigger] is_given(by_source, other) ==> other == directive,
    ensures
        carried_out(
            name,
            definition,
            has_merger,
            target,
            true,
            by_source,
            merged,
            strategy,
            state,
        ) == (
            DirectiveState {
                applied: state.applied.push(Application { target, directive }),
                report: state.report,
            },
            None::<Seq<char>>,
        ),
{
    let given = all_applications(by_source);
    law_different_items(given);
    lemma_all_applications(by_source, directive);
    let kinds = different(given);
    assert(kinds.contains(directive));
    assert forall|i: int| 0 <= i < kinds.len() implies kinds[i] == directive by {
        assert(kinds.contains(kinds[i]));
        lemma_all_applications(by_source, kinds[i]);
    }
    if kinds.len() > 1 {
        assert(kinds[0] == kinds[1]);
    }
    assert(counted(given)[0].0 == directive);
}

/// Of two or more different applications of a directive that is not repeatable and whose arguments
/// are not merged, one that no other is used more often than is applied, with a hint.
pub proof fn law_most_used_application_is_applied(
    name: Seq<char>,
    definition: DefinitionShape,
    target: Target,
    by_source: Seq<(usize, Seq<DirectiveShape>)>,
    merged: Result<Seq<Option<ValueShape>>, Seq<char>>,
    strategy: Seq<char>,
    state: DirectiveState,
    one: DirectiveShape,
    other: DirectiveShape,
)
    requires
        !definition.repeatable,
        is_given(by_source, one),
        is_given(by_source, other),
        one != other,
    ensures
        ({
            let (after, failure) = carried_out(
                name,
                definition,
                false,
                target,
                true,
                by_source,
                merged,
                strategy,
                state,
            );
            let chosen = after.applied.last();
            let given = all_applications(by_source);
            &&& failure is None
            &&& after.applied.len() == state.applied.len() + 1
            &&& state.applied.is_prefix_of(after.applied)
            &&& chosen.target == target
            &&& is_given(by_source, chosen.directive)
            &&& forall|d: DirectiveShape| #[trigger]
                given.to_multiset().count(d) <= given.to_multiset().count(chosen.directive)
            &&& after.report.errors == state.report.errors
            &&& after.report.hints.len() == state.report.hints.len() + 1
            &&& state.report.hints.is_prefix_of(after.report.hints)
            &&& after.report.hints.last().code
                == HintCode::InconsistentNonRepeatableDirectiveArguments.code_text()
        }),
{
    let given = all_applications(by_source);
    let counts = counted(given);
    let kinds = different(given);
    law_different_items(given);
    lemma_all_applications(by_source, one);
    lemma_all_applications(by_source, other);
    assert(kinds.contains(one) && kinds.contains(other));
    if kinds.len() <= 1 {
        assert(kinds.index_of(one) == kinds.index_of(other));
    }
    law_most_used_is_most_frequent(counts);
    let best = most_used(counts)->0;
    let at = counts.index_of(best);
    assert(best.0 == kinds[at] && best.1 == occurrences(given, kinds[at]));
    assert(kinds.contains(best.0));
    lemma_all_applications(by_source, best.0);
    law_occurrences_are_multiplicities(given, best.0);
    assert forall|d: DirectiveShape| #[trigger] given.to_multiset().count(d)
        <= given.to_multiset().count(best.0) by {
        law_occurrences_are_multiplicities(given, d);
        if given.contains(d) {
            assert(kinds.contains(d));
            let k = kinds.index_of(d);
            assert(counts[k].1 == occurrences(given, d));
            assert(counts[k].1 <= best.1);
        } else {
            broadcast use vstd::seq_lib::group_to_multiset_ensures;

            assert(!given.to_multiset().contains(d));
        }
    }
}

/// Of two or more different applications of a directive that is not repeatable and whose arguments
/// are merged, one with the merged arguments is applied, with a hint. Each argument that merged to
/// a value has it, the others are left out.
pub proof fn law_merged_application_is_applied(
    name: Seq<char>,
    definition: DefinitionShape,
    target: Target,
    by_source: Seq<(usize, Seq<DirectiveShape>)>,
    merged: Seq<Option<ValueShape>>,
    strategy: Seq<char>,
    state: DirectiveState,
    one: DirectiveShape,
    other: DirectiveShape,
)
    requires
        !definition.repeatable,
        is_given(by_source, one),
        is_given(by_source, other),
        one != other,
        merged.len() == definition.arguments.len(),
    ensures
        ({
            let (after, failure) = carried_out(
                name,
                definition,
                true,
                target,
                true,
                by_source,
                Ok(merged),
                strategy,
                state,
            );
            let chosen = after.applied.last();
            &&& failure is None
            &&& after.applied.len() == state.applied.len() + 1
            &&& state.applied.is_prefix_of(after.applied)
            &&& chosen.target == target
            &&& chosen.directive.name == name
            &&& forall|argument: ArgumentShape| #[trigger]
                chosen.directive.arguments.contains(argument) <==> exists|i: int|
                    0 <= i < merged.len() && (#[trigger] merged[i]) == Some(argument.value)
                        && definition.arguments[i].name == argument.name
            &&& after.report.errors == state.report.errors
            &&& after.report.hints.len() == state.report.hints.len() + 1
            &&& state.report.hints.is_prefix_of(after.report.hints)
            &&& after.report.hints.last().code
                == HintCode::MergedNonRepeatableDirectiveArguments.code_text()
        }),
{
    let given = all_applications(by_source);
    let kinds = different(given);
    law_different_items(given);
    lemma_all_applications(by_source, one);
    lemma_all_applications(by_source, other);
    assert(kinds.contains(one) && kinds.contains(other));
    if kinds.len() <= 1 {
        assert(kinds.index_of(one) == kinds.index_of(other));
    }
    assert(counted(given).len() == kinds.len());
    lemma_merged_arguments(definition.arguments, merged, definition.arguments.len() as int);
    assert(definition.arguments.take(definition.arguments.len() as int)
        =~= definition.arguments);
}

proof fn lemma_merged_arguments(
    arguments: Seq<InputValueShape>,
    merged: Seq<Option<ValueShape>>,
    count: int,
)
    requires
        0 <= count <= arguments.len(),
        merged.len() == arguments.len(),
    ensures
        forall|argument: ArgumentShape| #[trigger]
            merged_arguments(arguments.take(count), merged).contains(argument) <==> exists|i: int|
                0 <= i < count && (#[trigger] merged[i]) == Some(argument.value)
                    && arguments[i].name == argument.name,
    decreases count,
{
    if count == 0 {
        assert(arguments.take(0) =~= Seq::<InputValueShape>::empty());
    } else {
        let before = merged_arguments(arguments.take(count - 1), merged);
        let after = merged_arguments(arguments.take(count), merged);
        assert(arguments.take(count).drop_last() =~= arguments.take(count - 1));
        lemma_merged_arguments(arguments, merged, count - 1);
        assert forall|argument: ArgumentShape| #[trigger] after.contains(
            argument,
        ) <==> exists|i: int|
            0 <= i < count && (#[trigger] merged[i]) == Some(argument.value) && arguments[i].name
                == argument.name by {
            assert(before.contains(argument) <==> exists|i: int|
                0 <= i < count - 1 && (#[trigger] merged[i]) == Some(argument.value)
                    && arguments[i].name == argument.name);
            if before.contains(argument) {
                assert(after[before.index_of(argument)] == argument);
            }
            if after.contains(argument) {
                let at = after.index_of(argument);
                if at < before.len() {
                    assert(before[at] == argument);
                } else {
                    assert(merged[count - 1] == Some(argument.value));
                }
            }
            if exists|i: int|
                0 <= i < count && (#[trigger] merged[i]) == Some(argument.value)
                    && arguments[i].name == argument.name {
                let i = choose|i: int|
                    0 <= i < count && (#[trigger] merged[i]) == Some(argument.value)
                        && arguments[i].name == argument.name;
                if i == count - 1 {
                    assert(after[after.len() - 1] == argument);
                }
            }
        }
    }
}

/// Merging fails where the arguments cannot be merged, or where there is an application but not the
/// element; then nothing is applied or reported. It does not fail where nothing is applied.
pub proof fn law_failures_of_a_merge(
    name: Seq<char>,
    definition: DefinitionShape,
    has_merger: bool,
    target: Target,
    by_source: Seq<(usize, Seq<DirectiveShape>)>,
    merged: Result<Seq<Option<ValueShape>>, Seq<char>>,
    strategy: Seq<char>,
    state: DirectiveState,
    one: DirectiveShape,
    other: DirectiveShape,
)
    requires
        is_given(by_source, one),
    ensures
        merged is Ok ==> carried_out(
            name,
            definition,
            has_merger,
            target,
            false,
            by_source,
            merged,
            strategy,
            state,
        ) == (state, Some(missing_element(target))),
        !definition.repeatable && has_merger && is_given(by_source, other) && one != other
            && merged is Err ==> carried_out(
            name,
            definition,
            has_merger,
            target,
            true,
            by_source,
            merged,
            strategy,
            state,
        ) == (state, Some(merged->Err_0)),
{
    let given = all_applications(by_source);
    let kinds = different(given);
    law_different_items(given);
    lemma_all_applications(by_source, one);
    lemma_all_applications(by_source, other);
    assert(kinds.contains(one));
    assert(kinds.len() > 0);
    assert(counted(given).len() == kinds.len());
    law_most_used_is_most_frequent(counted(given));
    if is_given(by_source, other) && one != other {
        assert(kinds.contains(other));
        if kinds.len() <= 1 {
            assert(kinds.index_of(one) == kinds.index_of(other));
        }
    }
}

/// The value of an argument that is merged is, for each application, the value of the first
/// argument of its name, else its default, else none; the values of two lists of applications are
/// those of the first followed by those of the second.
pub proof fn law_values_of_an_argument(
    argument: InputValueShape,
    first: Seq<DirectiveShape>,
    second: Seq<DirectiveShape>,
    kind: DirectiveShape,
    a: int,
)
    ensures
        argument_values(argument, first + second) == argument_values(argument, first)
            + argument_values(argument, second),
        argument_values(argument, Seq::empty()) == Seq::<ValueShape>::empty(),
        is_first_argument(kind.arguments, a, argument.name) ==> argument_values(
            argument,
            seq![kind],
        ) == seq![kind.arguments[a].value],
        (forall|k: int|
            0 <= k < kind.arguments.len() ==> (#[trigger] kind.arguments[k]).name != argument.name)
            ==> argument_values(argument, seq![kind]) == (match argument.default_value {
            Some(value) => seq![value],
            None => Seq::empty(),
        }),
    decreases second.len(),
{
    reveal_with_fuel(argument_values, 2);
    law_first_argument_is_found(kind.arguments, argument.name);
    assert(seq![kind].drop_last() =~= Seq::<DirectiveShape>::empty());
    if is_first_argument(kind.arguments, a, argument.name) {
        assert(argument_named(kind.arguments, argument.name) == Some(kind.arguments[a].value));
        assert(argument_values(argument, seq![kind]) =~= seq![kind.arguments[a].value]);
    }
    if forall|k: int|
        0 <= k < kind.arguments.len() ==> (#[trigger] kind.arguments[k]).name != argument.name {
        match argument.default_value {
            Some(value) => {
                assert(argument_values(argument, seq![kind]) =~= seq![value]);
            },
            None => {
                assert(argument_values(argument, seq![kind]) =~= Seq::<ValueShape>::empty());
            },
        }
    }
    if second.len() == 0 {
        assert(first + second =~= first);
        assert(argument_values(argument, first) + argument_values(argument, second)
            =~= argument_values(argument, first));
    } else {
        assert((first + second).drop_last() =~= first + second.drop_last());
        law_values_of_an_argument(argument, first, second.drop_last(), kind, a);
        assert(argument_values(argument, first + second) =~= argument_values(argument, first)
            + argument_values(argument, second));
    }
}

/// Whether no argument of a list has the name of another.
pub open spec fn have_different_names(arguments: Seq<ArgumentShape>) -> bool {
    forall|i: int, j: int|
        0 <= i < j < arguments.len() ==> (#[trigger] arguments[i]).name != (
        #[trigger] arguments[j]).name
}

/// An application handed to a transformation has each argument name of the application once, with
/// the value that it has last, and no other name.
pub proof fn law_each_argument_is_handed_over_once(arguments: Seq<ArgumentShape>)
    ensures
        have_different_names(indexed(arguments)),
        forall|i: int|
            0 <= i < arguments.len() && (forall|k: int|
                i < k < arguments.len() ==> (#[trigger] arguments[k]).name != arguments[i].name)
                ==> indexed(arguments).contains(#[trigger] arguments[i]),
        forall|argument: ArgumentShape| #[trigger]
            indexed(arguments).contains(argument) ==> arguments.contains(argument),
    decreases arguments.len(),
{
    if arguments.len() > 0 {
        let rest = arguments.drop_last();
        let last = arguments.last();
        let before = indexed(rest);
        let after = indexed(arguments);
        law_each_argument_is_handed_over_once(rest);
        let known = has_argument(before, last.name);
        let at = argument_position(before, last.name);
        if known {
            assert(before[at].name == last.name);
        }
        assert forall|i: int, j: int| 0 <= i < j < after.len() implies (#[trigger] after[i]).name
            != (#[trigger] after[j]).name by {
            if known {
                assert(after[i].name == before[i].name);
                assert(after[j].name == before[j].name);
            } else if j < before.len() {
                assert(before[i].name != before[j].name);
            } else {
                assert(before[i].name != last.name);
            }
        }
        assert forall|i: int|
            0 <= i < arguments.len() && (forall|k: int|
                i < k < arguments.len() ==> (#[trigger] arguments[k]).name
                    != arguments[i].name) implies after.contains(#[trigger] arguments[i]) by {
            if i < rest.len() {
                assert(rest[i] == arguments[i]);
                assert forall|k: int| i < k < rest.len() implies (#[trigger] rest[k]).name
                    != rest[i].name by {
                    assert(arguments[k].name != arguments[i].name);
                }
                assert(before.contains(rest[i]));
                assert(arguments[arguments.len() - 1].name != arguments[i].name);
                let there = before.index_of(rest[i]);
                assert(after[there] == arguments[i]);
            } else if known {
                assert(after[at] == last);
            } else {
                assert(after[after.len() - 1] == last);
            }
        }
        assert forall|argument: ArgumentShape| #[trigger] after.contains(
            argument,
        ) implies arguments.contains(argument) by {
            let there = after.index_of(argument);
            assert(arguments[arguments.len() - 1] == last);
            if argument != last {
                assert(before[there] == argument);
                assert(before.contains(argument));
                assert(arguments[rest.index_of(argument)] == argument);
            }
        }
    }
}

proof fn lemma_carried_out_only_adds(
    name: Seq<char>,
    info: MergedDirectiveInfo,
    elements: Seq<Target>,
    positions: Seq<Target>,
    steps: Seq<DirectiveStep>,
    state: DirectiveState,
    count: int,
)
    requires
        0 <= count <= steps.len(),
        all_carried_out(name, info, elements, positions, steps, state).1 is None,
    ensures
        all_carried_out(name, info, elements, positions, steps.take(count), state).1 is None,
        all_carried_out(
            name,
            info,
            elements,
            positions,
            steps.take(count),
            state,
        ).0.applied.is_prefix_of(
            all_carried_out(name, info, elements, positions, steps, state).0.applied,
        ),
    decreases steps.len() - count,
{
    if count == steps.len() {
        assert(steps.take(count) =~= steps);
    } else {
        lemma_carried_out_only_adds(name, info, elements, positions, steps, state, count + 1);
        assert(steps.take(count + 1).drop_last() =~= steps.take(count));
        let before = all_carried_out(name, info, elements, positions, steps.take(count), state);
        let after = all_carried_out(
            name,
            info,
            elements,
            positions,
            steps.take(count + 1),
            state,
        );
        assert(before.1 is None);
        assert(before.0.applied.is_prefix_of(after.0.applied));
    }
}

/// Where the merge of a repeatable directive succeeds, each application to each element is applied
/// to it in the supergraph, whichever elements and subgraphs come before.
pub proof fn law_every_repeatable_application_is_applied(
    name: Seq<char>,
    info: MergedDirectiveInfo,
    elements: Seq<Target>,
    positions: Seq<Target>,
    steps: Seq<DirectiveStep>,
    state: DirectiveState,
    i: int,
    directive: DirectiveShape,
)
    requires
        info.definition.repeatable,
        steps.len() <= positions.len(),
        all_carried_out(name, info, elements, positions, steps, state).1 is None,
        0 <= i < steps.len(),
        is_given(shapes_by_source(steps[i].by_source), directive),
    ensures
        all_carried_out(name, info, elements, positions, steps, state).0.applied.contains(
            Application { target: positions[i], directive },
        ),
{
    lemma_carried_out_only_adds(name, info, elements, positions, steps, state, i);
    lemma_carried_out_only_adds(name, info, elements, positions, steps, state, i + 1);
    assert(steps.take(i + 1).drop_last() =~= steps.take(i));
    let before = all_carried_out(name, info, elements, positions, steps.take(i), state);
    let middle = all_carried_out(name, info, elements, positions, steps.take(i + 1), state);
    let last = all_carried_out(name, info, elements, positions, steps, state);
    let step = steps[i];
    let by_source = shapes_by_source(step.by_source);
    let application = Application { target: positions[i], directive };
    let outcome = merge_outcome(step.merged);
    let has_merger = info.arguments_merger is Some;
    law_repeatable_directive_is_applied(
        name,
        info.definition@,
        has_merger,
        positions[i],
        by_source,
        outcome,
        step.strategy@,
        before.0,
    );
    lemma_all_applications(by_source, directive);
    law_different_items(all_applications(by_source));
    assert(different(all_applications(by_source)).contains(directive));
    assert(plan(true, has_merger, all_applications(by_source)) matches DirectivePlan::Each(kinds)
        && kinds =~= different(all_applications(by_source)));
    assert(elements.contains(positions[i]));
    let added = middle.0.applied.skip(before.0.applied.len() as int);
    assert(added.contains(application));
    let at = added.index_of(application);
    assert(middle.0.applied[before.0.applied.len() + at] == application);
    assert(last.0.applied[before.0.applied.len() + at] == application);
}

/// Each application of the directive to the element in a subgraph is collected, with its arguments
/// transformed, where the directive has a transformation; without one none is.
pub proof fn law_every_application_is_collected<
    T: Fn(usize, &Subgraph, Vec<Argument>) -> Vec<Argument>,
>(
    transform: T,
    info: MergedDirectiveInfo,
    subgraphs: Seq<(usize, Subgraph)>,
    target: Target,
    by_source: Seq<(usize, Vec<Directive>)>,
    s: int,
    a: int,
)
    requires
        are_collected(transform, info, subgraphs, target, by_source),
        0 <= s < subgraphs.len(),
        0 <= a < subgraphs[s].1.schema.applied_directives@.len(),
        subgraphs[s].1.schema.applied_directives@[a].target@ == target,
        subgraphs[s].1.schema.applied_directives@[a].directive.name@ == info.definition.name@,
    ensures
        by_source[s].0 == subgraphs[s].0,
        match info.static_argument_transform {
            Some(strategy) => exists|i: int|
                0 <= i < by_source[s].1@.len() && is_transformed(
                    transform,
                    strategy,
                    subgraphs[s].1,
                    subgraphs[s].1.schema.applied_directives@[a].directive@,
                    #[trigger] by_source[s].1@[i],
                ),
            None => by_source[s].1@.len() == 0,
        },
{
    let subgraph = subgraphs[s].1;
    let all = applications(subgraph.schema.applied_directives@);
    let given = applied_at(all, target, info.definition.name@);
    let directive = subgraph.schema.applied_directives@[a].directive@;
    assert(by_source[s].0 == subgraphs[s].0);
    assert(all[a].target == target && all[a].directive == directive);
    law_applications_at_an_element(all, target, info.definition.name@);
    assert(given.contains(directive));
    let i = given.index_of(directive);
    if info.static_argument_transform is Some {
        let result = by_source[s].1@[i];
        assert(is_transformed(
            transform,
            info.static_argument_transform->0,
            subgraph,
            given[i],
            result,
        ));
    }
}

/// The hint about the choice of an application says of each subgraph what its first application is,
/// or that it has none.
pub proof fn law_first_application_of_each_subgraph(
    by_source: Seq<(usize, Seq<DirectiveShape>)>,
    s: int,
)
    requires
        0 <= s < by_source.len(),
    ensures
        first_texts(by_source).len() == by_source.len(),
        first_texts(by_source)[s].0 == by_source[s].0,
        by_source[s].1.len() == 0 ==> first_texts(by_source)[s].1 is None,
        by_source[s].1.len() > 0 ==> first_texts(by_source)[s].1 == Some(
            application_text(by_source[s].1[0]),
        ),
{
}

/// The words for an application name each of its arguments with its value.
pub proof fn law_application_in_words(directive: DirectiveShape, a: int)
    ensures
        directive.arguments.len() == 0 ==> application_text(directive) == "no arguments"@,
        0 <= a < directive.arguments.len() ==> {
            let part = directive.arguments[a].name + ": "@ + directive.arguments[a].value.notation();
            exists|start: int| #[trigger] stands_at(application_text(directive), part, start)
        },
{
    if 0 <= a < directive.arguments.len() {
        let texts = argument_texts(directive.arguments);
        let list = join(texts, ", "@);
        let all = application_text(directive);
        let part = directive.arguments[a].name + ": "@ + directive.arguments[a].value.notation();
        assert(texts[a] == part);
        law_each_text_is_joined(texts, ", "@, a);
        let start = choose|start: int| #[trigger] stands_at(list, part, start);
        let shift = "arguments: ["@.len();
        assert(all.subrange(shift + start, shift + start + part.len()) =~= list.subrange(
            start,
            start + part.len(),
        ));
        assert(stands_at(all, part, shift + start));
    }
}

/// Where the arguments of two or more different applications are merged, each application counts
/// once, however often it is given, and no other does.
pub proof fn law_each_different_application_is_combined(
    given: Seq<DirectiveShape>,
    one: DirectiveShape,
    other: DirectiveShape,
)
    requires
        given.contains(one),
        given.contains(other),
        one != other,
    ensures
        plan(false, true, given) matches DirectivePlan::Combine(kinds) && kinds.no_duplicates()
            && forall|directive: DirectiveShape| #[trigger]
            kinds.contains(directive) <==> given.contains(directive),
{
    law_different_items(given);
    let kinds = counted(given).map_values(|c: (DirectiveShape, nat)| c.0);
    assert(kinds =~= different(given));
    assert(kinds.contains(one) && kinds.contains(other));
    if kinds.len() <= 1 {
        assert(kinds.index_of(one) == kinds.index_of(other));
    }
}

} // verus!
