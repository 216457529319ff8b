//! The applications of a directive to one element: which there are, how often each occurs and
//! what their arguments are.

use crate::ast::{argument_shapes, Argument, ArgumentShape, Directive, DirectiveShape};
use crate::index_map::{distinct_keys, has_key, key_position, IndexedMap};
use crate::schema::{plain_directives, with_all_distinct, with_distinct};
use crate::text::{join, join_first, same_text, texts};
use vstd::prelude::*;
use vstd::string::*;

verus! {

/// How often an item occurs in a list.
pub open spec fn occurrences<A>(items: Seq<A>, item: A) -> nat
    decreases items.len(),
{
    if items.len() == 0 {
        0
    } else {
        occurrences(items.drop_last(), item) + if items.last() == item {
            1nat
        } else {
            0
        }
    }
}

/// Calls `itertools::Itertools::counts`: each number that occurs in the list, once, with the
/// number of times that it occurs. The order of the result is left open.
#[verifier::external_body]
fn count_numbers(numbers: Vec<usize>) -> (counts: Vec<(usize, usize)>)
    ensures
        distinct_keys(counts@),
        forall|number: usize| #[trigger]
            has_key(counts@, number) == (occurrences(numbers@, number) > 0),
        forall|i: int|
            0 <= i < counts@.len() ==> (#[trigger] counts@[i]).1 == occurrences(
                numbers@,
                counts@[i].0,
            ),
{
    itertools::Itertools::counts(numbers.into_iter()).into_iter().collect()
}

/// The different items of a list, each once, in the order of their first occurrence.
pub open spec fn different<A>(items: Seq<A>) -> Seq<A> {
    with_all_distinct(Seq::empty(), items)
}

/// The different applications of a list, with the number of times that each occurs.
pub open spec fn counted(applications: Seq<DirectiveShape>) -> Seq<(DirectiveShape, nat)> {
    different(applications).map_values(|d: DirectiveShape| (d, occurrences(applications, d)))
}

/// What some counted applications are.
pub open spec fn counted_shapes(counts: Seq<(Directive, usize)>) -> Seq<(DirectiveShape, nat)> {
    counts.map_values(|c: (Directive, usize)| (c.0@, c.1 as nat))
}

/// The different items of a list are those of the list, and no two of them are the same.
pub proof fn law_different_items<A>(items: Seq<A>)
    ensures
        different(items).no_duplicates(),
        forall|item: A| #[trigger] different(items).contains(item) <==> items.contains(item),
        different(items).len() <= items.len(),
    decreases items.len(),
{
    if items.len() > 0 {
        let rest = items.drop_last();
        let before = different(rest);
        let after = different(items);
        assert(after == with_distinct(before, items.last()));
        law_different_items(rest);
        assert forall|item: A| #[trigger] after.contains(item) <==> items.contains(item) by {
            if items.contains(item) {
                let at = items.index_of(item);
                if at < rest.len() {
                    assert(rest[at] == item);
                    assert(before.contains(item));
                    let there = before.index_of(item);
                    assert(after[there] == item);
                } else {
                    if before.contains(item) {
                        let there = before.index_of(item);
                        assert(after[there] == item);
                    } else {
                        assert(after[after.len() - 1] == item);
                    }
                }
            }
            if after.contains(item) {
                let at = after.index_of(item);
                if at < before.len() {
                    assert(before[at] == item);
                    assert(before.contains(item));
                    assert(rest.contains(item));
                    assert(items[rest.index_of(item)] == item);
                } else {
                    assert(items[items.len() - 1] == item);
                }
            }
        }
    }
}

/// Numbers that stand for the items of a list occur as often as the items do.
proof fn lemma_same_occurrences<A>(
    items: Seq<A>,
    numbers: Seq<usize>,
    kinds: Seq<A>,
    number: usize,
)
    requires
        kinds.no_duplicates(),
        numbers.len() == items.len(),
        number < kinds.len(),
        forall|i: int|
            0 <= i < items.len() ==> (#[trigger] numbers[i]) < kinds.len()
                && kinds[numbers[i] as int] == items[i],
    ensures
        occurrences(numbers, number) == occurrences(items, kinds[number as int]),
    decreases items.len(),
{
    if items.len() > 0 {
        assert forall|i: int| 0 <= i < items.len() - 1 implies (#[trigger] numbers.drop_last()[i])
            < kinds.len() && kinds[numbers.drop_last()[i] as int] == items.drop_last()[i] by {
            assert(numbers[i] < kinds.len());
        }
        lemma_same_occurrences(items.drop_last(), numbers.drop_last(), kinds, number);
        assert(numbers[items.len() - 1] < kinds.len());
    }
}

/// What occurs in a list occurs at least once.
proof fn lemma_occurs<A>(items: Seq<A>, item: A)
    ensures
        items.contains(item) <==> occurrences(items, item) > 0,
    decreases items.len(),
{
    if items.len() > 0 {
        lemma_occurs(items.drop_last(), item);
        if items.contains(item) {
            let at = items.index_of(item);
            if at < items.len() - 1 {
                assert(items.drop_last()[at] == item);
            }
        }
        if items.drop_last().contains(item) {
            assert(items[items.drop_last().index_of(item)] == item);
        }
        assert(items[items.len() - 1] == items.last());
    }
}

/// Finds an application in a list.
fn find_directive(list: &Vec<Directive>, directive: &Directive) -> (position: usize)
    ensures
        position <= list.len(),
        position < list.len() ==> list@[position as int]@ == directive@,
        (position == list.len()) == !plain_directives(list@).contains(directive@),
{
    let mut i: usize = 0;
    while i < list.len()
        invariant
            i <= list.len(),
            forall|j: int| 0 <= j < i ==> (#[trigger] list@[j])@ != directive@,
        decreases list.len() - i,
    {
        if list[i].same_as(directive) {
            assert(plain_directives(list@)[i as int] == directive@);
            return i;
        }
        i += 1;
    }
    assert forall|j: int| 0 <= j < plain_directives(list@).len() implies plain_directives(list@)[j]
        != directive@ by {
        assert(plain_directives(list@)[j] == list@[j]@);
    }
    i
}

/// Counts the different applications of a list.
pub fn count_applications(applications: &Vec<Directive>) -> (counts: Vec<(Directive, usize)>)
    ensures
        counted_shapes(counts@) == counted(plain_directives(applications@)),
{
    let ghost all = plain_directives(applications@);
    let mut kinds: Vec<Directive> = Vec::new();
    let mut numbers: Vec<usize> = Vec::new();
    let mut i: usize = 0;
    assert(all.take(0) =~= Seq::<DirectiveShape>::empty());
    assert(plain_directives(kinds@) =~= Seq::<DirectiveShape>::empty());
    while i < applications.len()
        invariant
            i <= applications.len(),
            all == plain_directives(applications@),
            plain_directives(kinds@) == different(all.take(i as int)),
            numbers.len() == i,
            forall|j: int|
                0 <= j < i ==> (#[trigger] numbers@[j]) < kinds.len()
                    && kinds@[numbers@[j] as int]@ == all[j],
        decreases applications.len() - i,
    {
        assert(all.take(i + 1).drop_last() =~= all.take(i as int));
        assert(all.take(i + 1).last() == applications@[i as int]@);
        let ghost before = plain_directives(kinds@);
        let number = find_directive(&kinds, &applications[i]);
        if number == kinds.len() {
            kinds.push(applications[i].clone());
            assert(plain_directives(kinds@) =~= before.push(all[i as int]));
        }
        numbers.push(number);
        i += 1;
    }
    assert(all.take(applications.len() as int) =~= all);
    let ghost shapes = plain_directives(kinds@);
    let ghost given = numbers@;
    let found = count_numbers(numbers);
    proof {
        law_different_items(all);
        assert forall|j: int| 0 <= j < all.len() implies (#[trigger] given[j]) < shapes.len()
            && shapes[given[j] as int] == all[j] by {
            assert(shapes[given[j] as int] == kinds@[given[j] as int]@);
        }
    }
    let mut counts: Vec<(Directive, usize)> = Vec::new();
    let mut k: usize = 0;
    while k < kinds.len()
        invariant
            k <= kinds.len(),
            shapes == plain_directives(kinds@),
            shapes == different(all),
            shapes.no_duplicates(),
            forall|shape: DirectiveShape| #[trigger]
                shapes.contains(shape) <==> all.contains(shape),
            given.len() == all.len(),
            forall|j: int|
                0 <= j < all.len() ==> (#[trigger] given[j]) < shapes.len()
                    && shapes[given[j] as int] == all[j],
            distinct_keys(found@),
            forall|number: usize| #[trigger]
                has_key(found@, number) == (occurrences(given, number) > 0),
            forall|j: int|
                0 <= j < found@.len() ==> (#[trigger] found@[j]).1 == occurrences(
                    given,
                    found@[j].0,
                ),
            counts.len() == k,
            forall|j: int|
                0 <= j < k ==> (#[trigger] counts@[j]).0@ == shapes[j] && counts@[j].1
                    == occurrences(all, shapes[j]),
        decreases kinds.len() - k,
    {
        proof {
            lemma_same_occurrences(all, given, shapes, k);
            assert(shapes.contains(shapes[k as int]));
            lemma_occurs(all, shapes[k as int]);
            assert(has_key(found@, k));
        }
        let count = look_up_count(&found, k);
        assert(shapes[k as int] == kinds@[k as int]@);
        counts.push((kinds[k].clone(), count));
        k += 1;
    }
    assert(counted_shapes(counts@) =~= counted(all));
    counts
}

/// Finds the count of a number.
fn look_up_count(counts: &Vec<(usize, usize)>, number: usize) -> (count: usize)
    requires
        has_key(counts@, number),
        distinct_keys(counts@),
    ensures
        exists|i: int| 0 <= i < counts@.len() && (#[trigger] counts@[i]) == (number, count),
{
    let mut i: usize = 0;
    while i < counts.len()
        invariant
            i <= counts.len(),
            has_key(counts@, number),
            forall|j: int| 0 <= j < i ==> (#[trigger] counts@[j]).0 != number,
        decreases counts.len() - i,
    {
        if counts[i].0 == number {
            assert(counts@[i as int] == (number, counts@[i as int].1));
            return counts[i].1;
        }
        i += 1;
    }
    0
}

/// The application that occurs most often, and how often. Of several, the one that came last.
pub open spec fn most_used(counts: Seq<(DirectiveShape, nat)>) -> Option<(DirectiveShape, nat)>
    decreases counts.len(),
{
    if counts.len() == 0 {
        None
    } else {
        match most_used(counts.drop_last()) {
            Some(best) => if counts.last().1 >= best.1 {
                Some(counts.last())
            } else {
                Some(best)
            },
            None => Some(counts.last()),
        }
    }
}

/// Finds the application that occurs most often.
pub fn find_most_used(counts: &Vec<(Directive, usize)>) -> (found: Option<&Directive>)
    ensures
        match found {
            Some(directive) => most_used(counted_shapes(counts@)) matches Some(best) && best.0
                == directive@,
            None => most_used(counted_shapes(counts@)) is None,
        },
{
    let ghost all = counted_shapes(counts@);
    let mut best: Option<usize> = None;
    let mut i: usize = 0;
    assert(all.take(0) =~= Seq::<(DirectiveShape, nat)>::empty());
    while i < counts.len()
        invariant
            i <= counts.len(),
            all == counted_shapes(counts@),
            match best {
                Some(k) => k < i && most_used(all.take(i as int)) == Some(all[k as int]),
                None => most_used(all.take(i as int)) is None,
            },
        decreases counts.len() - i,
    {
        assert(all.take(i + 1).drop_last() =~= all.take(i as int));
        assert(all[i as int] == (counts@[i as int].0@, counts@[i as int].1 as nat));
        match best {
            Some(k) => {
                assert(all[k as int] == (counts@[k as int].0@, counts@[k as int].1 as nat));
                if counts[i].1 >= counts[k].1 {
                    best = Some(i);
                }
            },
            None => {
                best = Some(i);
            },
        }
        i += 1;
    }
    assert(all.take(counts.len() as int) =~= all);
    match best {
        Some(k) => {
            assert(all[k as int] == (counts@[k as int].0@, counts@[k as int].1 as nat));
            Some(&counts[k].0)
        },
        None => None,
    }
}

/// No application occurs more often than the one that is used most, and that one does occur.
pub proof fn law_most_used_is_most_frequent(counts: Seq<(DirectiveShape, nat)>)
    requires
        counts.len() > 0,
    ensures
        most_used(counts) matches Some(best) && counts.contains(best) && forall|i: int|
            0 <= i < counts.len() ==> (#[trigger] counts[i]).1 <= best.1,
    decreases counts.len(),
{
    assert(counts[counts.len() - 1] == counts.last());
    if counts.len() > 1 {
        let rest = counts.drop_last();
        law_most_used_is_most_frequent(rest);
        let best = most_used(rest)->0;
        assert(counts[rest.index_of(best)] == best);
        let (_, most) = most_used(counts)->0;
        assert forall|i: int| 0 <= i < counts.len() implies (#[trigger] counts[i]).1 <= most by {
            if i < rest.len() {
                assert(rest[i].1 <= best.1);
            }
        }
    }
}

/// Whether a list of arguments has one with the name.
pub open spec fn has_argument(arguments: Seq<ArgumentShape>, name: Seq<char>) -> bool {
    exists|i: int| 0 <= i < arguments.len() && (#[trigger] arguments[i]).name == name
}

/// Where the argument with the name stands.
pub open spec fn argument_position(arguments: Seq<ArgumentShape>, name: Seq<char>) -> int {
    choose|i: int| 0 <= i < arguments.len() && (#[trigger] arguments[i]).name == name
}

/// The arguments, each name once: it stands where it first occurs, with the value that it has
/// last.
pub open spec fn indexed(arguments: Seq<ArgumentShape>) -> Seq<ArgumentShape>
    decreases arguments.len(),
{
    if arguments.len() == 0 {
        Seq::empty()
    } else {
        let rest = indexed(arguments.drop_last());
        let last = arguments.last();
        if has_argument(rest, last.name) {
            rest.update(argument_position(rest, last.name), last)
        } else {
            rest.push(last)
        }
    }
}

/// Finds the first argument with the name.
fn find_first(arguments: &Vec<Argument>, name: &str) -> (position: usize)
    requires
        has_argument(argument_shapes(arguments@), name@),
    ensures
        position < arguments.len(),
        arguments@[position as int].name@ == name@,
        forall|j: int| 0 <= j < position ==> (#[trigger] arguments@[j]).name@ != name@,
{
    let mut i: usize = 0;
    while i < arguments.len()
        invariant
            i <= arguments.len(),
            has_argument(argument_shapes(arguments@), name@),
            forall|j: int| 0 <= j < i ==> (#[trigger] arguments@[j]).name@ != name@,
        decreases arguments.len() - i,
    {
        if same_text(arguments[i].name.as_str(), name) {
            return i;
        }
        i += 1;
    }
    proof {
        let at = argument_position(argument_shapes(arguments@), name@);
        assert(argument_shapes(arguments@)[at] == arguments@[at]@);
    }
    i
}

/// Whether an entry stands under the place of the first argument with its name.
spec fn is_under_first(arguments: Seq<Argument>, entry: (usize, Argument)) -> bool {
    &&& entry.0 < arguments.len()
    &&& arguments[entry.0 as int].name@ == entry.1.name@
    &&& forall|j: int| 0 <= j < entry.0 ==> (#[trigger] arguments[j]).name@ != entry.1.name@
}

/// What the arguments of some entries are.
spec fn entry_shapes(entries: Seq<(usize, Argument)>) -> Seq<ArgumentShape> {
    entries.map_values(|e: (usize, Argument)| e.1@)
}

/// Entries under the same place have the same name, and the other way round.
proof fn lemma_same_place(arguments: Seq<Argument>, a: (usize, Argument), b: (usize, Argument))
    requires
        is_under_first(arguments, a),
        is_under_first(arguments, b),
    ensures
        a.0 == b.0 <==> a.1.name@ == b.1.name@,
{
    if a.1.name@ == b.1.name@ {
        if a.0 < b.0 {
            assert(arguments[a.0 as int].name@ != b.1.name@);
        }
        if b.0 < a.0 {
            assert(arguments[b.0 as int].name@ != a.1.name@);
        }
    }
}

/// Puts the arguments of an application into a map: each name once, where it first occurs, with
/// the value that it has last.
pub fn index_arguments(arguments: &Vec<Argument>) -> (result: Vec<Argument>)
    ensures
        argument_shapes(result@) == indexed(argument_shapes(arguments@)),
{
    let ghost all = argument_shapes(arguments@);
    let mut map: IndexedMap<Argument> = IndexedMap::new();
    let mut i: usize = 0;
    assert(all.take(0) =~= Seq::<ArgumentShape>::empty());
    assert(entry_shapes(map@) =~= Seq::<ArgumentShape>::empty());
    while i < arguments.len()
        invariant
            i <= arguments.len(),
            all == argument_shapes(arguments@),
            map.well_formed(),
            entry_shapes(map@) == indexed(all.take(i as int)),
            forall|j: int| 0 <= j < map@.len() ==> is_under_first(arguments@, #[trigger] map@[j]),
        decreases arguments.len() - i,
    {
        assert(all.take(i + 1).drop_last() =~= all.take(i as int));
        assert(all[i as int] == arguments@[i as int]@);
        let ghost before = map@;
        let ghost rest = entry_shapes(before);
        let argument = arguments[i].clone();
        let key = find_first(arguments, argument.name.as_str());
        map.insert(key, argument);
        proof {
            let entry = (key, argument);
            assert(is_under_first(arguments@, entry));
            if has_key(before, key) {
                let at = key_position(before, key);
                assert(before[at].0 == key);
                lemma_same_place(arguments@, before[at], entry);
                assert(rest[at] == before[at].1@);
                assert(has_argument(rest, argument@.name));
                let there = argument_position(rest, argument@.name);
                assert(rest[there] == before[there].1@);
                lemma_same_place(arguments@, before[there], entry);
                map.lemma_keys_are_distinct();
                assert(map@[there].0 == key && map@[at].0 == key);
                assert(there == at);
                assert(entry_shapes(map@) =~= rest.update(at, argument@));
            } else {
                if has_argument(rest, argument@.name) {
                    let there = argument_position(rest, argument@.name);
                    assert(rest[there] == before[there].1@);
                    lemma_same_place(arguments@, before[there], entry);
                    assert(has_key(before, key));
                }
                assert(entry_shapes(map@) =~= rest.push(argument@));
            }
            assert forall|j: int| 0 <= j < map@.len() implies is_under_first(
                arguments@,
                #[trigger] map@[j],
            ) by {
                if j < before.len() {
                    assert(is_under_first(arguments@, before[j]));
                }
            }
        }
        i += 1;
    }
    assert(all.take(arguments.len() as int) =~= all);
    let mut result: Vec<Argument> = Vec::new();
    let mut k: usize = 0;
    while k < map.len()
        invariant
            k <= map@.len(),
            result.len() == k,
            forall|j: int| 0 <= j < k ==> (#[trigger] result@[j])@ == entry_shapes(map@)[j],
        decreases map@.len() - k,
    {
        result.push(map.item_at(k).clone());
        k += 1;
    }
    assert(argument_shapes(result@) =~= entry_shapes(map@));
    result
}

/// The arguments in words.
pub open spec fn argument_texts(arguments: Seq<ArgumentShape>) -> Seq<Seq<char>> {
    arguments.map_values(|a: ArgumentShape| a.name + ": "@ + a.value.notation())
}

/// An application in words.
pub open spec fn application_text(directive: DirectiveShape) -> Seq<char> {
    if directive.arguments.len() == 0 {
        "no arguments"@
    } else {
        "arguments: ["@ + join(argument_texts(directive.arguments), ", "@) + "]"@
    }
}

/// Puts an application into words.
pub fn describe_application(directive: &Directive) -> (text: String)
    ensures
        text@ == application_text(directive@),
{
    let arguments = &directive.arguments;
    assert(directive@.arguments.len() == arguments@.len());
    if arguments.len() == 0 {
        return "no arguments".to_owned();
    }
    let mut parts: Vec<String> = Vec::new();
    let mut i: usize = 0;
    while i < arguments.len()
        invariant
            i <= arguments.len(),
            parts.len() == i,
            forall|j: int|
                0 <= j < i ==> (#[trigger] parts@[j])@ == arguments@[j].name@ + ": "@
                    + arguments@[j].value@.notation(),
        decreases arguments.len() - i,
    {
        let value = arguments[i].value.to_notation();
        parts.push(arguments[i].name.clone().concat(": ").concat(value.as_str()));
        i += 1;
    }
    assert(texts(parts@) =~= argument_texts(directive@.arguments));
    assert(texts(parts@).take(parts.len() as int) =~= texts(parts@));
    let joined = join_first(&parts, parts.len(), ", ");
    "arguments: [".to_owned().concat(joined.as_str()).concat("]")
}

} // verus!
