//! Lists of names in the words of a message.

use crate::text::{
    all_quoted, byte_length, join, join_first, length_in_bytes, quote, quoted, slice_texts, texts,
};
use vstd::prelude::*;
use vstd::string::*;

verus! {

/// The length at which a list is cut off where no other length is asked for.
pub const DEFAULT_CUTOFF: usize = 100;

/// The number of suggestions that a message names at most.
pub const MAX_SUGGESTIONS: usize = 5;

/// How many of the items fit into the cutoff, and how many bytes those take.
///
/// An item that does not fit is passed over; a later, shorter one may still fit.
pub open spec fn fitting(items: Seq<Seq<char>>, cutoff: nat) -> (nat, nat)
    decreases items.len(),
{
    if items.len() == 0 {
        (0, 0)
    } else {
        let (count, length) = fitting(items.drop_last(), cutoff);
        if length + byte_length(items.last()) > cutoff {
            (count, length)
        } else {
            (count + 1, length + byte_length(items.last()))
        }
    }
}

/// How many of the items are shown: as many as fit, but at least one.
pub open spec fn shown(items: Seq<Seq<char>>, cutoff: nat) -> nat {
    let count = fitting(items, cutoff).0;
    if count == 0 {
        1
    } else {
        count
    }
}

/// No more items fit than there are, within the cutoff.
proof fn lemma_fitting_bounds(items: Seq<Seq<char>>, cutoff: nat)
    ensures
        fitting(items, cutoff).0 <= items.len(),
        fitting(items, cutoff).1 <= cutoff,
    decreases items.len(),
{
    if items.len() > 0 {
        lemma_fitting_bounds(items.drop_last(), cutoff);
    }
}

/// The characters of an optional string slice.
pub open spec fn option_text(text: Option<&str>) -> Option<Seq<char>> {
    match text {
        Some(t) => Some(t@),
        None => None,
    }
}

/// The words before a list of two or more items.
pub open spec fn list_prefix(singular: Option<Seq<char>>, plural: Option<Seq<char>>) -> Seq<char> {
    match (plural, singular) {
        (Some(prefix), _) => prefix + " "@,
        (None, Some(prefix)) => prefix + " "@,
        (None, None) => Seq::empty(),
    }
}

/// A list in words, in full: with the last separator before its last item.
pub open spec fn full_list(
    items: Seq<Seq<char>>,
    singular: Option<Seq<char>>,
    plural: Option<Seq<char>>,
    last_separator: Seq<char>,
) -> Seq<char> {
    if items.len() == 0 {
        Seq::empty()
    } else if items.len() == 1 {
        match singular {
            Some(prefix) => prefix + " "@ + items[0],
            None => items[0],
        }
    } else {
        list_prefix(singular, plural) + (join(items.drop_last(), ", "@) + last_separator
            + items.last())
    }
}

/// A list in words. A list that is cut off ends in an ellipsis; any other is written in full.
pub open spec fn human_readable_list(
    items: Seq<Seq<char>>,
    singular: Option<Seq<char>>,
    plural: Option<Seq<char>>,
    last_separator: Seq<char>,
    cutoff: nat,
) -> Seq<char> {
    if items.len() > 1 && shown(items, cutoff) < items.len() {
        list_prefix(singular, plural) + join(items.take(shown(items, cutoff) as int), ", "@)
            + ", ..."@
    } else {
        full_list(items, singular, plural, last_separator)
    }
}

/// Counts the items that fit into the cutoff.
fn count_fitting(items: &Vec<String>, cutoff: usize) -> (count: usize)
    ensures
        count == fitting(texts(items@), cutoff as nat).0,
        count <= items.len(),
{
    let ghost all = texts(items@);
    let mut count: usize = 0;
    let mut length: usize = 0;
    let mut i: usize = 0;
    assert(all.take(0) =~= Seq::<Seq<char>>::empty());
    while i < items.len()
        invariant
            i <= items.len(),
            all == texts(items@),
            count <= i,
            length <= cutoff,
            (count as nat, length as nat) == fitting(all.take(i as int), cutoff as nat),
        decreases items.len() - i,
    {
        let ghost grown = all.take(i + 1);
        assert(grown.drop_last() =~= all.take(i as int));
        assert(grown.last() == items@[i as int]@);
        let size = length_in_bytes(items[i].as_str());
        if size <= cutoff - length {
            count += 1;
            length += size;
        }
        i += 1;
    }
    assert(all.take(items.len() as int) =~= all);
    count
}

/// Writes the words before a list of two or more items.
fn write_list_prefix(singular: Option<&str>, plural: Option<&str>) -> (text: String)
    ensures
        text@ == list_prefix(option_text(singular), option_text(plural)),
{
    match (plural, singular) {
        (Some(prefix), _) => prefix.to_owned().concat(" "),
        (None, Some(prefix)) => prefix.to_owned().concat(" "),
        (None, None) => String::new(),
    }
}

/// Puts a list into words, in full.
fn write_full_list(
    items: &Vec<String>,
    prefix_singular: Option<&str>,
    prefix_plural: Option<&str>,
    last_separator: &str,
) -> (text: String)
    ensures
        text@ == full_list(
            texts(items@),
            option_text(prefix_singular),
            option_text(prefix_plural),
            last_separator@,
        ),
{
    if items.len() == 0 {
        return String::new();
    }
    if items.len() == 1 {
        return match prefix_singular {
            Some(prefix) => prefix.to_owned().concat(" ").concat(items[0].as_str()),
            None => items[0].clone(),
        };
    }
    let rest = join_first(items, items.len() - 1, ", ");
    assert(texts(items@).take(items.len() - 1) =~= texts(items@).drop_last());
    let list = rest.concat(last_separator).concat(items[items.len() - 1].as_str());
    write_list_prefix(prefix_singular, prefix_plural).concat(list.as_str())
}

/// Puts a list into words: with a prefix, cut off where it is too long, and with the last
/// separator before the last item.
pub fn format_human_readable_list(
    items: &Vec<String>,
    prefix_singular: Option<&str>,
    prefix_plural: Option<&str>,
    last_separator: Option<&str>,
    cutoff_length: Option<usize>,
) -> (text: String)
    ensures
        text@ == human_readable_list(
            texts(items@),
            option_text(prefix_singular),
            option_text(prefix_plural),
            (match last_separator {
                Some(separator) => separator@,
                None => " and "@,
            }),
            (match cutoff_length {
                Some(cutoff) => cutoff as nat,
                None => DEFAULT_CUTOFF as nat,
            }),
        ),
{
    let separator = match last_separator {
        Some(separator) => separator,
        None => " and ",
    };
    let cutoff = match cutoff_length {
        Some(cutoff) => cutoff,
        None => DEFAULT_CUTOFF,
    };
    let fitting_count = count_fitting(items, cutoff);
    let display_count = if fitting_count == 0 {
        1
    } else {
        fitting_count
    };
    if items.len() > 1 && display_count < items.len() {
        let list = join_first(items, display_count, ", ");
        write_list_prefix(prefix_singular, prefix_plural).concat(list.as_str()).concat(", ...")
    } else {
        write_full_list(items, prefix_singular, prefix_plural, separator)
    }
}

/// Type names in words, however long they are: `type "User"`, or
/// `types "User", "Profile", and "Account"`.
pub open spec fn printed_types(types: Seq<Seq<char>>) -> Seq<char> {
    full_list(
        all_quoted(types),
        Some("type"@),
        Some("types"@),
        if types.len() > 2 {
            ", and "@
        } else {
            " and "@
        },
    )
}

/// Puts each string of a list between double quotes.
pub fn quote_all(list: &Vec<String>) -> (result: Vec<String>)
    ensures
        texts(result@) == all_quoted(texts(list@)),
{
    let mut result: Vec<String> = Vec::new();
    let mut i: usize = 0;
    while i < list.len()
        invariant
            i <= list.len(),
            result.len() == i,
            forall|j: int| 0 <= j < i ==> (#[trigger] result@[j])@ == quoted(list@[j]@),
        decreases list.len() - i,
    {
        result.push(quote(list[i].as_str()));
        i += 1;
    }
    assert(texts(result@) =~= all_quoted(texts(list@)));
    result
}

/// Puts type names into words: `type "User"`, or `types "User", "Profile", and "Account"`.
pub fn print_types(types: &Vec<&str>) -> (text: String)
    ensures
        text@ == printed_types(slice_texts(types@)),
{
    let mut names: Vec<String> = Vec::new();
    let mut i: usize = 0;
    while i < types.len()
        invariant
            i <= types.len(),
            names.len() == i,
            forall|j: int| 0 <= j < i ==> (#[trigger] names@[j])@ == quoted(types@[j]@),
        decreases types.len() - i,
    {
        names.push(quote(types[i]));
        i += 1;
    }
    assert(texts(names@) =~= all_quoted(slice_texts(types@)));
    let separator = if types.len() > 2 {
        ", and "
    } else {
        " and "
    };
    write_full_list(&names, Some("type"), Some("types"), separator)
}

/// Subgraph names in words: `subgraph "a"`, or `subgraphs "a", "b" and "c"`.
pub open spec fn printed_subgraphs(names: Seq<Seq<char>>) -> Seq<char> {
    human_readable_list(
        all_quoted(names),
        Some("subgraph"@),
        Some("subgraphs"@),
        " and "@,
        DEFAULT_CUTOFF as nat,
    )
}

/// Puts subgraph names into words: `subgraph "a"`, or `subgraphs "a", "b" and "c"`.
pub fn human_readable_subgraph_names(names: &Vec<String>) -> (text: String)
    ensures
        text@ == printed_subgraphs(texts(names@)),
{
    let quoted_names = quote_all(names);
    format_human_readable_list(&quoted_names, Some("subgraph"), Some("subgraphs"), None, None)
}

/// The question that offers the suggestions: nothing where there is none, and at most five of
/// them otherwise.
pub open spec fn did_you_mean(suggestions: Seq<Seq<char>>) -> Seq<char> {
    let names = all_quoted(suggestions);
    if names.len() == 0 {
        Seq::empty()
    } else if names.len() == 1 {
        " Did you mean "@ + names[0] + "?"@
    } else if names.len() == 2 {
        " Did you mean "@ + names[0] + " or "@ + names[1] + "?"@
    } else {
        let last = if names.len() > MAX_SUGGESTIONS {
            MAX_SUGGESTIONS - 1
        } else {
            names.len() - 1
        };
        " Did you mean "@ + join(names.take(last), ", "@) + ", or "@ + names[last] + "?"@
    }
}

/// Puts suggestions into a question: ` Did you mean "account"?`, or
/// ` Did you mean "user", "account", or "profile"?`.
pub fn format_did_you_mean(suggestions: &Vec<String>) -> (text: String)
    ensures
        text@ == did_you_mean(texts(suggestions@)),
{
    let names = quote_all(suggestions);
    let ghost all = texts(names@);
    assert(all.len() == suggestions.len());
    if names.len() == 0 {
        String::new()
    } else if names.len() == 1 {
        assert(all[0] == names@[0]@);
        " Did you mean ".to_owned().concat(names[0].as_str()).concat("?")
    } else if names.len() == 2 {
        assert(all[0] == names@[0]@ && all[1] == names@[1]@);
        " Did you mean ".to_owned().concat(names[0].as_str()).concat(" or ").concat(
            names[1].as_str(),
        ).concat("?")
    } else {
        let last = if names.len() > MAX_SUGGESTIONS {
            MAX_SUGGESTIONS - 1
        } else {
            names.len() - 1
        };
        let rest = join_first(&names, last, ", ");
        assert(all[last as int] == names@[last as int]@);
        " Did you mean ".to_owned().concat(rest.as_str()).concat(", or ").concat(
            names[last].as_str(),
        ).concat("?")
    }
}

/// A list of at least one item shows at least one and never more than it has.
pub proof fn law_list_shows_some_items(items: Seq<Seq<char>>, cutoff: nat)
    requires
        items.len() > 0,
    ensures
        1 <= shown(items, cutoff) <= items.len(),
{
    lemma_fitting_bounds(items, cutoff);
}

/// Suggestions past the fifth do not show in the question.
pub proof fn law_only_five_suggestions_show(suggestions: Seq<Seq<char>>)
    requires
        suggestions.len() >= MAX_SUGGESTIONS,
    ensures
        did_you_mean(suggestions) == did_you_mean(suggestions.take(MAX_SUGGESTIONS as int)),
{
    let few = suggestions.take(MAX_SUGGESTIONS as int);
    assert(all_quoted(few) =~= all_quoted(suggestions).take(MAX_SUGGESTIONS as int));
    assert(all_quoted(few).take(MAX_SUGGESTIONS - 1) =~= all_quoted(suggestions).take(
        MAX_SUGGESTIONS - 1,
    ));
}

/// The question is empty where, and only where, there is no suggestion.
pub proof fn law_no_question_without_suggestions(suggestions: Seq<Seq<char>>)
    ensures
        did_you_mean(suggestions).len() == 0 <==> suggestions.len() == 0,
{
    reveal_strlit("?");
    reveal_strlit(" Did you mean ");
}

} // verus!
