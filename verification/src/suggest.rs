//! Suggestions for a subgraph name that does not exist.

use crate::text::{byte_length, comes_before, length_in_bytes, same_text, slice_texts, text_before, texts};
use crate::human_readable::MAX_SUGGESTIONS;
use crate::threshold::{double_bits, similarity_threshold, threshold_units};
use vstd::prelude::*;
use vstd::string::*;

verus! {

/// The score of the target itself: the bits of the double 1.
pub const EXACT_MATCH_SCORE: u64 = 0x3FF0_0000_0000_0000;

/// The score of a name that differs from the target in case alone: the bits of the double 0.95.
pub const CASE_DIFFERENCE_SCORE: u64 = 0x3FEE_6666_6666_6666;

/// The Jaro-Winkler similarity of two texts, as the bits of a double.
///
/// A similarity is not negative, so its bits are ordered as the similarities themselves are.
pub uninterp spec fn jaro_winkler_bits(a: Seq<char>, b: Seq<char>) -> u64;

/// The lower case of a text.
pub uninterp spec fn lower_case(text: Seq<char>) -> Seq<char>;

/// Calls `strsim::jaro_winkler`: the similarity depends on the two texts alone.
#[verifier::external_body]
fn similarity(a: &str, b: &str) -> (bits: u64)
    ensures
        bits == jaro_winkler_bits(a@, b@),
{
    strsim::jaro_winkler(a, b).to_bits()
}

/// Calls `str::to_lowercase`: the result depends on the text alone.
#[verifier::external_body]
fn to_lower_case(text: &str) -> (lower: String)
    ensures
        lower@ == lower_case(text@),
{
    text.to_lowercase()
}

/// How similar a name is to the target: the full score where it is the target, a fixed high score
/// where only the case differs, the Jaro-Winkler similarity otherwise.
pub open spec fn score(target: Seq<char>, name: Seq<char>) -> u64 {
    if target == name {
        EXACT_MATCH_SCORE
    } else if lower_case(target) == lower_case(name) {
        CASE_DIFFERENCE_SCORE
    } else {
        jaro_winkler_bits(target, name)
    }
}

/// A name and its score.
pub struct Candidate {
    pub name: String,
    pub score: u64,
}

/// What a candidate is.
pub struct Ranked {
    pub name: Seq<char>,
    pub score: u64,
}

impl View for Candidate {
    type V = Ranked;

    open spec fn view(&self) -> Ranked {
        Ranked { name: self.name@, score: self.score }
    }
}

/// What each candidate of a list is.
pub open spec fn ranked_names(candidates: Seq<Candidate>) -> Seq<Ranked> {
    candidates.map_values(|c: Candidate| c@)
}

/// Whether `a` is suggested before `b`: by the higher score, and by name where the scores are
/// equal.
pub open spec fn precedes(a: Ranked, b: Ranked) -> bool {
    a.score > b.score || (a.score == b.score && text_before(a.name, b.name))
}

/// The names whose score reaches the threshold, with their scores, in their order.
pub open spec fn qualified(names: Seq<Seq<char>>, scores: Seq<u64>, threshold: u64) -> Seq<Ranked>
    decreases names.len(),
{
    if names.len() == 0 {
        Seq::empty()
    } else {
        let rest = qualified(names.drop_last(), scores, threshold);
        let last = scores[names.len() - 1];
        if last >= threshold {
            rest.push(Ranked { name: names.last(), score: last })
        } else {
            rest
        }
    }
}

/// A ranking with one more candidate: behind all that it does not precede.
pub open spec fn insert_ranked(ranking: Seq<Ranked>, candidate: Ranked) -> Seq<Ranked>
    decreases ranking.len(),
{
    if ranking.len() > 0 && precedes(candidate, ranking.last()) {
        insert_ranked(ranking.drop_last(), candidate).push(ranking.last())
    } else {
        ranking.push(candidate)
    }
}

/// The candidates, best first.
pub open spec fn ranking(candidates: Seq<Ranked>) -> Seq<Ranked>
    decreases candidates.len(),
{
    if candidates.len() == 0 {
        Seq::empty()
    } else {
        insert_ranked(ranking(candidates.drop_last()), candidates.last())
    }
}

/// The first names of a ranking, at most five.
pub open spec fn best_names(ranking: Seq<Ranked>) -> Seq<Seq<char>> {
    let count = if ranking.len() > MAX_SUGGESTIONS {
        MAX_SUGGESTIONS as int
    } else {
        ranking.len() as int
    };
    ranking.take(count).map_values(|r: Ranked| r.name)
}

/// The suggestions among names with the given scores.
pub open spec fn selection(names: Seq<Seq<char>>, scores: Seq<u64>, threshold: u64) -> Seq<
    Seq<char>,
> {
    best_names(ranking(qualified(names, scores, threshold)))
}

/// The suggestions for the target among the available names.
pub open spec fn suggestions(target: Seq<char>, available: Seq<Seq<char>>) -> Seq<Seq<char>> {
    selection(
        available,
        available.map_values(|name: Seq<char>| score(target, name)),
        double_bits(threshold_units(byte_length(target))) as u64,
    )
}

/// A candidate stands in the ranking right before the first one that it precedes, if all from
/// there on are preceded by it.
proof fn lemma_insert_at(ranking: Seq<Ranked>, candidate: Ranked, position: int)
    requires
        0 <= position <= ranking.len(),
        forall|i: int| position <= i < ranking.len() ==> precedes(candidate, #[trigger] ranking[i]),
        position > 0 ==> !precedes(candidate, ranking[position - 1]),
    ensures
        insert_ranked(ranking, candidate) == ranking.insert(position, candidate),
    decreases ranking.len(),
{
    if position == ranking.len() {
        assert(ranking.insert(position, candidate) =~= ranking.push(candidate));
    } else {
        assert(precedes(candidate, ranking[ranking.len() - 1]));
        lemma_insert_at(ranking.drop_last(), candidate, position);
        assert(ranking.insert(position, candidate) =~= ranking.drop_last().insert(
            position,
            candidate,
        ).push(ranking.last()));
    }
}

/// Whether a candidate is suggested before another.
fn is_before(a: &Candidate, b: &Candidate) -> (before: bool)
    ensures
        before == precedes(a@, b@),
{
    a.score > b.score || (a.score == b.score && comes_before(a.name.as_str(), b.name.as_str()))
}

/// Puts a candidate into a ranking.
fn add_candidate(list: &mut Vec<Candidate>, candidate: Candidate)
    ensures
        ranked_names(final(list)@) == insert_ranked(ranked_names(old(list)@), candidate@),
{
    let ghost before = ranked_names(list@);
    let mut position: usize = list.len();
    while position > 0 && is_before(&candidate, &list[position - 1])
        invariant
            position <= list.len(),
            before == ranked_names(list@),
            list@ == old(list)@,
            forall|i: int|
                position <= i < list.len() ==> precedes(candidate@, #[trigger] before[i]),
        decreases position,
    {
        assert(before[position - 1] == list@[position - 1]@);
        position -= 1;
    }
    proof {
        if position > 0 {
            assert(before[position - 1] == list@[position - 1]@);
        }
        lemma_insert_at(before, candidate@, position as int);
    }
    list.insert(position, candidate);
    assert(ranked_names(list@) =~= before.insert(position as int, candidate@));
}

/// Selects the suggestions among names with the given scores: those that reach the threshold,
/// best first, at most five.
pub fn select_suggestions(names: &Vec<&str>, scores: &Vec<u64>, threshold: u64) -> (selected: Vec<
    String,
>)
    requires
        scores.len() == names.len(),
    ensures
        texts(selected@) == selection(slice_texts(names@), scores@, threshold),
{
    let ghost all = slice_texts(names@);
    let mut list: Vec<Candidate> = Vec::new();
    let mut i: usize = 0;
    assert(all.take(0) =~= Seq::<Seq<char>>::empty());
    assert(ranked_names(list@) =~= Seq::<Ranked>::empty());
    while i < names.len()
        invariant
            i <= names.len(),
            scores.len() == names.len(),
            all == slice_texts(names@),
            ranked_names(list@) == ranking(qualified(all.take(i as int), scores@, threshold)),
        decreases names.len() - i,
    {
        let ghost grown = all.take(i + 1);
        assert(grown.drop_last() =~= all.take(i as int));
        assert(grown.last() == names@[i as int]@);
        let ghost before = qualified(all.take(i as int), scores@, threshold);
        if scores[i] >= threshold {
            let candidate = Candidate { name: names[i].to_owned(), score: scores[i] };
            assert(before.push(candidate@).drop_last() =~= before);
            add_candidate(&mut list, candidate);
        }
        i += 1;
    }
    assert(all.take(names.len() as int) =~= all);
    let count = if list.len() > MAX_SUGGESTIONS {
        MAX_SUGGESTIONS
    } else {
        list.len()
    };
    let mut selected: Vec<String> = Vec::new();
    let mut k: usize = 0;
    while k < count
        invariant
            k <= count <= list.len(),
            selected.len() == k,
            forall|j: int| 0 <= j < k ==> (#[trigger] selected@[j])@ == list@[j].name@,
        decreases count - k,
    {
        selected.push(list[k].name.clone());
        k += 1;
    }
    assert(texts(selected@) =~= best_names(ranked_names(list@)));
    selected
}

/// Suggests the available names that are most similar to the target, best first, at most five.
pub fn suggest_similar_subgraph_names_impl(target: &str, available: &Vec<&str>) -> (selected: Vec<
    String,
>)
    ensures
        texts(selected@) == suggestions(target@, slice_texts(available@)),
{
    let threshold = similarity_threshold(length_in_bytes(target));
    let target_lower = to_lower_case(target);
    let mut scores: Vec<u64> = Vec::new();
    let mut i: usize = 0;
    while i < available.len()
        invariant
            i <= available.len(),
            target_lower@ == lower_case(target@),
            scores.len() == i,
            forall|j: int| 0 <= j < i ==> (#[trigger] scores@[j]) == score(target@, available@[j]@),
        decreases available.len() - i,
    {
        if same_text(target, available[i]) {
            scores.push(EXACT_MATCH_SCORE);
        } else {
            let name_lower = to_lower_case(available[i]);
            if same_text(target_lower.as_str(), name_lower.as_str()) {
                scores.push(CASE_DIFFERENCE_SCORE);
            } else {
                scores.push(similarity(target, available[i]));
            }
        }
        i += 1;
    }
    assert(scores@ =~= slice_texts(available@).map_values(|name: Seq<char>| score(target@, name)));
    select_suggestions(available, &scores, threshold)
}

} // verus!
