//! What holds of the words of messages.

use crate::human_readable::{
    did_you_mean, fitting, full_list, human_readable_list, list_prefix, printed_subgraphs,
    printed_types, shown,
};
use crate::labels::{
    all_digits, is_decimal, is_digit, is_label_char, is_letter, is_percentage, is_standard_label,
    is_valid_label, percent_label,
};
use crate::mismatch::{name_at, names_with, presence_text, with_specifics};
use crate::report::{ErrorKind, ErrorRecord};
use crate::text::{all_quoted, byte_length, bytes_before, join, quoted};
use vstd::prelude::*;

verus! {

/// One text joined is the text itself; two lists joined are the first one joined, the separator,
/// and the second one joined.
pub proof fn law_lists_are_joined(
    first: Seq<Seq<char>>,
    second: Seq<Seq<char>>,
    separator: Seq<char>,
    text: Seq<char>,
)
    requires
        first.len() > 0,
        second.len() > 0,
    ensures
        join(first + second, separator) == join(first, separator) + separator + join(
            second,
            separator,
        ),
        join(seq![text], separator) == text,
        join(Seq::empty(), separator) == Seq::<char>::empty(),
    decreases second.len(),
{
    let all = first + second;
    if second.len() == 1 {
        assert(all.drop_last() =~= first);
        assert(all.last() == second[0]);
    } else {
        assert(all.drop_last() =~= first + second.drop_last());
        law_lists_are_joined(first, second.drop_last(), separator, text);
        assert(join(all, separator) =~= join(first, separator) + separator + join(
            second,
            separator,
        ));
    }
}

/// Whether a part stands in a text, from the place on.
pub open spec fn stands_at(text: Seq<char>, part: Seq<char>, start: int) -> bool {
    &&& 0 <= start <= text.len() - part.len()
    &&& text.subrange(start, start + part.len()) == part
}

/// Each text of a list stands in the joined one.
pub proof fn law_each_text_is_joined(parts: Seq<Seq<char>>, separator: Seq<char>, i: int)
    requires
        0 <= i < parts.len(),
    ensures
        exists|start: int| #[trigger] stands_at(join(parts, separator), parts[i], start),
    decreases parts.len(),
{
    let all = join(parts, separator);
    let part = parts[i];
    if parts.len() == 1 {
        assert(all.subrange(0, part.len() as int) =~= part);
        assert(stands_at(all, part, 0));
    } else {
        let rest = join(parts.drop_last(), separator);
        if i < parts.len() - 1 {
            law_each_text_is_joined(parts.drop_last(), separator, i);
            let start = choose|start: int| #[trigger] stands_at(rest, part, start);
            assert(all.subrange(start, start + part.len()) =~= rest.subrange(
                start,
                start + part.len(),
            ));
            assert(stands_at(all, part, start));
        } else {
            let start = (rest.len() + separator.len()) as int;
            assert(all.subrange(start, start + part.len()) =~= part);
            assert(stands_at(all, part, start));
        }
    }
}

/// The order of bytes is a total order.
pub proof fn law_bytes_are_ordered(a: Seq<u8>, b: Seq<u8>)
    ensures
        !(bytes_before(a, b) && bytes_before(b, a)),
        bytes_before(a, b) || bytes_before(b, a) || a == b,
        !bytes_before(a, a),
    decreases a.len(),
{
    if a.len() > 0 {
        law_bytes_are_ordered(a.skip(1), a.skip(1));
        if b.len() > 0 {
            law_bytes_are_ordered(a.skip(1), b.skip(1));
            if a[0] == b[0] && a.skip(1) == b.skip(1) {
                assert(a =~= seq![a[0]] + a.skip(1));
                assert(b =~= seq![b[0]] + b.skip(1));
            }
        }
    } else if b.len() == 0 {
        assert(a =~= b);
    }
}

/// Where two byte strings first differ, the one with the smaller byte stands before the other; one
/// that the other goes on from stands before it.
pub proof fn law_first_difference_decides(a: Seq<u8>, b: Seq<u8>, at: int)
    requires
        0 <= at <= a.len(),
        at < b.len(),
        forall|k: int| 0 <= k < at ==> #[trigger] a[k] == b[k],
    ensures
        at == a.len() ==> bytes_before(a, b),
        at < a.len() && a[at] < b[at] ==> bytes_before(a, b),
        at < a.len() && a[at] > b[at] ==> !bytes_before(a, b),
    decreases a.len(),
{
    if at > 0 {
        assert(a[0] == b[0]);
        assert forall|k: int| 0 <= k < at - 1 implies #[trigger] a.skip(1)[k] == b.skip(1)[k] by {
            assert(a[k + 1] == b[k + 1]);
        }
        law_first_difference_decides(a.skip(1), b.skip(1), at - 1);
    }
}

/// How many bytes some texts take together.
pub open spec fn total_length(items: Seq<Seq<char>>) -> nat {
    items.fold_left(0nat, |sum: nat, item: Seq<char>| sum + byte_length(item))
}

proof fn lemma_fitting(items: Seq<Seq<char>>, cutoff: nat)
    ensures
        fitting(items, cutoff).0 <= items.len(),
        fitting(items, cutoff).1 <= total_length(items),
        fitting(items, cutoff).1 <= cutoff,
        total_length(items) <= cutoff ==> fitting(items, cutoff) == (
            items.len(),
            total_length(items),
        ),
        total_length(items) > cutoff ==> fitting(items, cutoff).0 < items.len(),
    decreases items.len(),
{
    reveal_with_fuel(Seq::fold_left, 2);
    if items.len() > 0 {
        lemma_fitting(items.drop_last(), cutoff);
        assert(total_length(items) == total_length(items.drop_last()) + byte_length(
            items.last(),
        ));
    }
}

/// A list whose items take no more bytes than the cutoff is written in full. One of two or more
/// items that take more is cut off: it shows fewer items than it has, the first ones, but at least
/// one.
pub proof fn law_list_is_cut_off(
    items: Seq<Seq<char>>,
    singular: Option<Seq<char>>,
    plural: Option<Seq<char>>,
    last_separator: Seq<char>,
    cutoff: nat,
)
    ensures
        total_length(items) <= cutoff || items.len() <= 1 ==> human_readable_list(
            items,
            singular,
            plural,
            last_separator,
            cutoff,
        ) == full_list(items, singular, plural, last_separator),
        total_length(items) > cutoff && items.len() > 1 ==> exists|count: int|
            1 <= count < items.len() && human_readable_list(
                items,
                singular,
                plural,
                last_separator,
                cutoff,
            ) == list_prefix(singular, plural) + join(#[trigger] items.take(count), ", "@)
                + ", ..."@,
{
    lemma_fitting(items, cutoff);
    if total_length(items) > cutoff && items.len() > 1 {
        let count = shown(items, cutoff) as int;
        assert(human_readable_list(items, singular, plural, last_separator, cutoff) == list_prefix(
            singular,
            plural,
        ) + join(items.take(count), ", "@) + ", ..."@);
    }
}

/// One more item shows in a list where it still fits behind those that fit before it.
pub proof fn law_item_that_fits_is_counted(items: Seq<Seq<char>>, item: Seq<char>, cutoff: nat)
    ensures
        ({
            let (count, length) = fitting(items, cutoff);
            let fits = length + byte_length(item) <= cutoff;
            &&& fits ==> fitting(items.push(item), cutoff) == (
                count + 1,
                length + byte_length(item),
            )
            &&& !fits ==> fitting(items.push(item), cutoff) == (count, length)
        }),
        fitting(Seq::empty(), cutoff) == (0nat, 0nat),
{
    assert(items.push(item).drop_last() =~= items);
}

/// A list with a comma as its last separator is the prefix and the items joined by commas.
pub proof fn law_list_of_two_or_more(
    items: Seq<Seq<char>>,
    singular: Option<Seq<char>>,
    plural: Option<Seq<char>>,
    last_separator: Seq<char>,
)
    requires
        items.len() >= 2,
    ensures
        full_list(items, singular, plural, ", "@) == list_prefix(singular, plural) + join(
            items,
            ", "@,
        ),
        items.len() == 2 ==> full_list(items, None, None, last_separator) == items[0]
            + last_separator + items[1],
        singular is Some ==> full_list(items, singular, plural, last_separator) == (match plural {
            Some(words) => words,
            None => singular->0,
        }) + " "@ + full_list(items, None, None, last_separator),
{
    let bare = full_list(items, None, None, last_separator);
    let list = join(items.drop_last(), ", "@) + last_separator + items.last();
    assert(bare =~= list);
    if items.len() == 2 {
        assert(items.drop_last()[0] == items[0]);
    }
    if singular is Some {
        let words = match plural {
            Some(words) => words,
            None => singular->0,
        };
        assert(full_list(items, singular, plural, last_separator) =~= words + " "@ + bare);
    }
}

/// A list of one item is the item, behind the singular prefix where there is one; an empty list
/// is empty.
pub proof fn law_list_of_one(
    item: Seq<char>,
    prefix: Seq<char>,
    plural: Option<Seq<char>>,
    last_separator: Seq<char>,
)
    ensures
        full_list(seq![item], None, plural, last_separator) == item,
        full_list(seq![item], Some(prefix), plural, last_separator) == prefix + " "@ + item,
        full_list(Seq::empty(), Some(prefix), plural, last_separator) == Seq::<char>::empty(),
{
}

/// One type prints as `type "a"`, two as `types "a" and "b"`, more with a comma before the `and`.
pub proof fn law_types_in_words(types: Seq<Seq<char>>)
    ensures
        types.len() == 1 ==> printed_types(types) == "type "@ + quoted(types[0]),
        types.len() == 2 ==> printed_types(types) == "types "@ + quoted(types[0]) + " and "@
            + quoted(types[1]),
        types.len() > 2 ==> printed_types(types) == "types "@ + join(
            all_quoted(types.drop_last()),
            ", "@,
        ) + ", and "@ + quoted(types.last()),
{
    let items = all_quoted(types);
    reveal_strlit("type");
    reveal_strlit("type ");
    reveal_strlit("types");
    reveal_strlit("types ");
    reveal_strlit(" ");
    assert("type"@ + " "@ =~= "type "@);
    assert("types"@ + " "@ =~= "types "@);
    if types.len() == 1 {
        assert(printed_types(types) =~= "type "@ + quoted(types[0]));
    } else if types.len() == 2 {
        assert(items.drop_last()[0] == quoted(types[0]));
        assert(printed_types(types) =~= "types "@ + quoted(types[0]) + " and "@ + quoted(
            types[1],
        ));
    } else if types.len() > 2 {
        assert(items.drop_last() =~= all_quoted(types.drop_last()));
        assert(printed_types(types) =~= "types "@ + join(all_quoted(types.drop_last()), ", "@)
            + ", and "@ + quoted(types.last()));
    }
}

/// The names of subgraphs, where they fit, print as `subgraph "a"` or `subgraphs "a", "b" and "c"`.
pub proof fn law_subgraphs_in_words(names: Seq<Seq<char>>)
    requires
        total_length(all_quoted(names)) <= 100,
    ensures
        names.len() == 1 ==> printed_subgraphs(names) == "subgraph "@ + quoted(names[0]),
        names.len() > 1 ==> printed_subgraphs(names) == "subgraphs "@ + join(
            all_quoted(names.drop_last()),
            ", "@,
        ) + " and "@ + quoted(names.last()),
{
    let items = all_quoted(names);
    reveal_strlit("subgraph");
    reveal_strlit("subgraph ");
    reveal_strlit("subgraphs");
    reveal_strlit("subgraphs ");
    reveal_strlit(" ");
    assert("subgraph"@ + " "@ =~= "subgraph "@);
    assert("subgraphs"@ + " "@ =~= "subgraphs "@);
    law_list_is_cut_off(items, Some("subgraph"@), Some("subgraphs"@), " and "@, 100);
    if names.len() == 1 {
        assert(printed_subgraphs(names) =~= "subgraph "@ + quoted(names[0]));
    } else if names.len() > 1 {
        assert(items.drop_last() =~= all_quoted(names.drop_last()));
        assert(printed_subgraphs(names) =~= "subgraphs "@ + join(
            all_quoted(names.drop_last()),
            ", "@,
        ) + " and "@ + quoted(names.last()));
    }
}

/// A question with up to five suggestions offers each of them: one or two as they are, more with
/// commas and a comma before the `or`.
pub proof fn law_question_offers_each_suggestion(suggestions: Seq<Seq<char>>)
    requires
        1 <= suggestions.len() <= 5,
    ensures
        did_you_mean(suggestions) == " Did you mean "@ + full_list(
            all_quoted(suggestions),
            None,
            None,
            if suggestions.len() <= 2 {
                " or "@
            } else {
                ", or "@
            },
        ) + "?"@,
{
    let items = all_quoted(suggestions);
    let last = suggestions.len() - 1;
    if suggestions.len() == 2 {
        assert(items.drop_last()[0] == items[0]);
        assert(did_you_mean(suggestions) =~= " Did you mean "@ + full_list(
            items,
            None,
            None,
            " or "@,
        ) + "?"@);
    } else if suggestions.len() > 2 {
        assert(items.take(last) =~= items.drop_last());
        assert(did_you_mean(suggestions) =~= " Did you mean "@ + full_list(
            items,
            None,
            None,
            ", or "@,
        ) + "?"@);
    }
}

/// The names of the subgraphs with an answer are those of each subgraph that gives it; each
/// subgraph is named once, under one of the two answers.
pub proof fn law_each_subgraph_is_named_once(
    names: Seq<Seq<char>>,
    subgraphs: Seq<usize>,
    answers: Seq<bool>,
    answer: bool,
    name: Seq<char>,
)
    requires
        answers.len() >= subgraphs.len(),
    ensures
        names_with(names, subgraphs, answers, answer).contains(name) <==> exists|i: int|
            0 <= i < subgraphs.len() && (#[trigger] answers[i]) == answer && name_at(
                names,
                subgraphs[i],
            ) == name,
        names_with(names, subgraphs, answers, true).len() + names_with(
            names,
            subgraphs,
            answers,
            false,
        ).len() == subgraphs.len(),
    decreases subgraphs.len(),
{
    if subgraphs.len() > 0 {
        let rest = subgraphs.drop_last();
        let last = subgraphs.len() - 1;
        let before = names_with(names, rest, answers, answer);
        let after = names_with(names, subgraphs, answers, answer);
        law_each_subgraph_is_named_once(names, rest, answers, answer, name);
        if before.contains(name) {
            assert(after[before.index_of(name)] == name);
            let i = choose|i: int|
                0 <= i < rest.len() && (#[trigger] answers[i]) == answer && name_at(names, rest[i])
                    == name;
            assert(answers[i] == answer && subgraphs[i] == rest[i]);
        }
        if after.contains(name) {
            let at = after.index_of(name);
            if at < before.len() {
                assert(before[at] == name);
            } else {
                assert(answers[last] == answer);
            }
        }
        if exists|i: int|
            0 <= i < subgraphs.len() && (#[trigger] answers[i]) == answer && name_at(
                names,
                subgraphs[i],
            ) == name {
            let i = choose|i: int|
                0 <= i < subgraphs.len() && (#[trigger] answers[i]) == answer && name_at(
                    names,
                    subgraphs[i],
                ) == name;
            if i < last {
                assert(rest[i] == subgraphs[i]);
                assert(before.contains(name));
            } else {
                assert(after[after.len() - 1] == name);
            }
        }
    }
}

/// The words for which subgraphs have an element name those that have it, those that do not, or
/// both. Only an error about enum values gets them.
pub proof fn law_words_name_both_sides(
    error: ErrorRecord,
    having: Seq<Seq<char>>,
    missing: Seq<Seq<char>>,
)
    ensures
        having.len() > 0 && missing.len() > 0 ==> presence_text(having, missing)
            == presence_text(having, Seq::empty()) + " "@ + presence_text(Seq::empty(), missing),
        having.len() > 0 ==> presence_text(having, Seq::empty()) == "defined in "@ + join(
            having,
            ", "@,
        ),
        missing.len() > 0 ==> presence_text(Seq::empty(), missing) == "but not in "@ + join(
            missing,
            ", "@,
        ),
        presence_text(Seq::empty(), Seq::empty()).len() == 0,
        error.kind != ErrorKind::EnumValueMismatch ==> with_specifics(error, having, missing)
            == error,
        with_specifics(error, having, missing).kind == error.kind,
        with_specifics(error, having, missing).mismatch == error.mismatch,
        error.kind == ErrorKind::EnumValueMismatch ==> with_specifics(
            error,
            having,
            missing,
        ).message == error.message + presence_text(having, missing),
{
}

/// A letter is a label, and a label with a character behind it is one where, and only where, the
/// character is a letter, a digit, an underscore, a minus, a colon, a period or a slash.
pub proof fn law_labels_grow(label: Seq<char>, c: char)
    ensures
        is_standard_label(seq![c]) <==> is_letter(c),
        label.len() > 0 ==> (is_standard_label(label.push(c)) <==> is_standard_label(label) && (
        is_letter(c) || is_digit(c) || c == '_' || c == '-' || c == ':' || c == '.' || c == '/')),
        is_standard_label(label) ==> is_valid_label(label),
        !is_standard_label(Seq::empty()),
{
    if label.len() > 0 {
        let longer = label.push(c);
        if is_standard_label(longer) {
            assert(is_label_char(longer[label.len() as int]));
            assert forall|i: int| 1 <= i < label.len() implies is_label_char(
                #[trigger] label[i],
            ) by {
                assert(is_label_char(longer[i]));
            }
        }
        if is_standard_label(label) && is_label_char(c) {
            assert forall|i: int| 1 <= i < longer.len() implies is_label_char(
                #[trigger] longer[i],
            ) by {
                if i < label.len() {
                    assert(is_label_char(label[i]));
                }
            }
        }
    }
}

/// One or two digits are a percentage, also with a period and one to eight digits behind them; so
/// is `100`. The labels with a percentage are valid.
pub proof fn law_percentages(whole: Seq<char>, decimals: Seq<char>)
    requires
        all_digits(whole),
        1 <= whole.len() <= 2,
        all_digits(decimals),
        1 <= decimals.len() <= 8,
    ensures
        is_percentage(whole),
        is_percentage(whole.push('.') + decimals),
        is_percentage("100"@),
        is_valid_label(percent_label(whole)),
        is_valid_label(percent_label(whole.push('.') + decimals)),
        is_valid_label(percent_label("100"@)),
{
    let at = whole.len() as int;
    let number = whole.push('.') + decimals;
    assert(whole.take(at) =~= whole);
    assert(number.take(at) =~= whole);
    assert(number.skip(at + 1) =~= decimals);
    assert(is_decimal(whole, at));
    assert(is_decimal(number, at));
}

/// A percentage starts with a digit and has at most two digits before its period and eight behind
/// it, but for `100`.
pub proof fn law_no_other_percentages(number: Seq<char>)
    requires
        is_percentage(number),
        number != "100"@,
    ensures
        1 <= number.len() <= 11,
        is_digit(number[0]),
        number.len() > 1 ==> is_digit(number[1]) || number[1] == '.',
        number.len() > 2 ==> number[1] == '.' || number[2] == '.',
        forall|i: int|
            0 <= i < number.len() ==> is_digit(#[trigger] number[i]) || (number[i] == '.' && 1 <= i
                <= 2),
{
    let at: int = if is_decimal(number, 1) {
        1
    } else {
        2
    };
    assert(is_decimal(number, at));
    assert forall|i: int| 0 <= i < number.len() implies is_digit(#[trigger] number[i]) || (number[i]
        == '.' && 1 <= i <= 2) by {
        if i < at {
            assert(is_digit(number.take(at)[i]));
        } else if i > at {
            assert(is_digit(number.skip(at + 1)[i - at - 1]));
        }
    }
}

} // verus!
