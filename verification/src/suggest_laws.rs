//! What holds of the suggestions for a subgraph name.

use crate::human_readable::MAX_SUGGESTIONS;
use crate::suggest::{
    insert_ranked, jaro_winkler_bits, lower_case, precedes, qualified, ranking, score, suggestions,
    Ranked, CASE_DIFFERENCE_SCORE, EXACT_MATCH_SCORE,
};
use crate::text::{byte_length, bytes_before, text_before};
use crate::threshold::{double_bits, law_threshold_bounds, threshold_units};
use vstd::prelude::*;
use vstd::utf8::encode_utf8;

verus! {

/// What is not before another, which is not before a third, is not before the third.
proof fn lemma_bytes_order(a: Seq<u8>, b: Seq<u8>, c: Seq<u8>)
    requires
        !bytes_before(a, b),
        !bytes_before(b, c),
    ensures
        !bytes_before(a, c),
    decreases a.len(),
{
    if a.len() > 0 && b.len() > 0 && c.len() > 0 {
        if a[0] == b[0] && b[0] == c[0] {
            lemma_bytes_order(a.skip(1), b.skip(1), c.skip(1));
        }
    }
}

/// Of two, at most one is before the other.
proof fn lemma_bytes_asymmetric(a: Seq<u8>, b: Seq<u8>)
    requires
        bytes_before(a, b),
    ensures
        !bytes_before(b, a),
    decreases a.len(),
{
    if a.len() > 0 && a[0] == b[0] {
        lemma_bytes_asymmetric(a.skip(1), b.skip(1));
    }
}

proof fn lemma_order(a: Ranked, b: Ranked, c: Ranked)
    requires
        !precedes(a, b),
        !precedes(b, c),
    ensures
        !precedes(a, c),
{
    if a.score == b.score && b.score == c.score {
        lemma_bytes_order(encode_utf8(a.name), encode_utf8(b.name), encode_utf8(c.name));
    }
}

/// Whether no candidate of a list precedes an earlier one.
pub open spec fn is_best_first(list: Seq<Ranked>) -> bool {
    forall|i: int, j: int|
        0 <= i < j < list.len() ==> !precedes(#[trigger] list[j], #[trigger] list[i])
}

proof fn lemma_insert_keeps_order(list: Seq<Ranked>, candidate: Ranked)
    requires
        is_best_first(list),
    ensures
        is_best_first(insert_ranked(list, candidate)),
        insert_ranked(list, candidate).to_multiset() =~= list.to_multiset().insert(candidate),
        insert_ranked(list, candidate).len() == list.len() + 1,
        forall|i: int|
            0 <= i < insert_ranked(list, candidate).len() ==> (
            #[trigger] insert_ranked(list, candidate)[i]) == candidate || list.contains(
                insert_ranked(list, candidate)[i],
            ),
    decreases list.len(),
{
    broadcast use vstd::seq_lib::group_to_multiset_ensures;

    let after = insert_ranked(list, candidate);
    if list.len() > 0 && precedes(candidate, list.last()) {
        let rest = list.drop_last();
        let inner = insert_ranked(rest, candidate);
        assert forall|i: int, j: int| 0 <= i < j < rest.len() implies !precedes(
            #[trigger] rest[j],
            #[trigger] rest[i],
        ) by {
            assert(!precedes(list[j], list[i]));
        }
        lemma_insert_keeps_order(rest, candidate);
        assert(rest.push(list.last()) =~= list);
        assert forall|i: int, j: int| 0 <= i < j < after.len() implies !precedes(
            #[trigger] after[j],
            #[trigger] after[i],
        ) by {
            if j < inner.len() {
                assert(!precedes(inner[j], inner[i]));
            } else {
                assert(after[i] == inner[i]);
                if inner[i] == candidate {
                    lemma_precedes_asymmetric(candidate, list.last());
                } else {
                    let at = rest.index_of(inner[i]);
                    assert(list[at] == inner[i]);
                    assert(!precedes(list[list.len() - 1], list[at]));
                }
            }
        }
        assert forall|i: int| 0 <= i < after.len() implies (#[trigger] after[i]) == candidate
            || list.contains(after[i]) by {
            if i < inner.len() {
                assert(after[i] == inner[i]);
                if inner[i] != candidate {
                    assert(list[rest.index_of(inner[i])] == inner[i]);
                }
            } else {
                assert(list[list.len() - 1] == after[i]);
            }
        }
    } else {
        assert forall|i: int, j: int| 0 <= i < j < after.len() implies !precedes(
            #[trigger] after[j],
            #[trigger] after[i],
        ) by {
            if j < list.len() {
                assert(!precedes(list[j], list[i]));
            } else if i < list.len() - 1 {
                assert(!precedes(list[list.len() - 1], list[i]));
                lemma_order(candidate, list.last(), list[i]);
            }
        }
        assert forall|i: int| 0 <= i < after.len() implies (#[trigger] after[i]) == candidate
            || list.contains(after[i]) by {
            if i < list.len() {
                assert(after[i] == list[i]);
            }
        }
    }
}

proof fn lemma_precedes_asymmetric(a: Ranked, b: Ranked)
    requires
        precedes(a, b),
    ensures
        !precedes(b, a),
{
    if a.score == b.score {
        lemma_bytes_asymmetric(encode_utf8(a.name), encode_utf8(b.name));
    }
}

/// A ranking holds the candidates, each as often as it is given, best first: by the higher score,
/// and by name where the scores are equal.
pub proof fn law_ranking_is_best_first(candidates: Seq<Ranked>)
    ensures
        is_best_first(ranking(candidates)),
        ranking(candidates).to_multiset() =~= candidates.to_multiset(),
        ranking(candidates).len() == candidates.len(),
    decreases candidates.len(),
{
    broadcast use vstd::seq_lib::group_to_multiset_ensures;

    if candidates.len() > 0 {
        let rest = candidates.drop_last();
        law_ranking_is_best_first(rest);
        lemma_insert_keeps_order(ranking(rest), candidates.last());
        assert(rest.push(candidates.last()) =~= candidates);
    }
}

/// The candidates are the names whose score reaches the threshold.
proof fn lemma_qualified(names: Seq<Seq<char>>, scores: Seq<u64>, threshold: u64)
    requires
        names.len() <= scores.len(),
    ensures
        forall|i: int|
            0 <= i < qualified(names, scores, threshold).len() ==> is_qualified(
                names,
                scores,
                threshold,
                #[trigger] qualified(names, scores, threshold)[i],
            ),
        forall|k: int|
            0 <= k < names.len() && scores[k] >= threshold ==> qualified(
                names,
                scores,
                threshold,
            ).contains(Ranked { name: #[trigger] names[k], score: scores[k] }),
    decreases names.len(),
{
    if names.len() > 0 {
        let rest = names.drop_last();
        let before = qualified(rest, scores, threshold);
        let after = qualified(names, scores, threshold);
        lemma_qualified(rest, scores, threshold);
        assert forall|i: int| 0 <= i < after.len() implies is_qualified(
            names,
            scores,
            threshold,
            #[trigger] after[i],
        ) by {
            if i < before.len() {
                assert(after[i] == before[i]);
                assert(is_qualified(rest, scores, threshold, before[i]));
                let k = choose|k: int|
                    0 <= k < rest.len() && (#[trigger] rest[k]) == before[i].name && scores[k]
                        == before[i].score;
                assert(names[k] == before[i].name);
            } else {
                assert(names[names.len() - 1] == after[i].name);
            }
        }
        assert forall|k: int| 0 <= k < names.len() && scores[k] >= threshold implies after.contains(
            Ranked { name: #[trigger] names[k], score: scores[k] },
        ) by {
            let candidate = Ranked { name: names[k], score: scores[k] };
            if k < rest.len() {
                assert(rest[k] == names[k]);
                assert(before.contains(candidate));
                assert(after[before.index_of(candidate)] == candidate);
            } else {
                assert(after[after.len() - 1] == candidate);
            }
        }
    }
}

/// Whether a candidate is one of the names, with its score, and reaches the threshold.
pub open spec fn is_qualified(
    names: Seq<Seq<char>>,
    scores: Seq<u64>,
    threshold: u64,
    candidate: Ranked,
) -> bool {
    candidate.score >= threshold && exists|k: int|
        0 <= k < names.len() && (#[trigger] names[k]) == candidate.name && scores[k]
            == candidate.score
}

/// The score that a name must reach to be suggested for the target.
pub open spec fn threshold_for(target: Seq<char>) -> u64 {
    double_bits(threshold_units(byte_length(target))) as u64
}

/// The suggestions are at most five of the available names, best first, and each reaches the
/// threshold. An available name that reaches the threshold is left out only where five others are
/// suggested, none of them a worse match.
pub proof fn law_suggestions_are_the_best(target: Seq<char>, available: Seq<Seq<char>>)
    ensures
        ({
            let chosen = suggestions(target, available);
            let threshold = threshold_for(target);
            &&& chosen.len() <= MAX_SUGGESTIONS
            &&& forall|i: int|
                0 <= i < chosen.len() ==> available.contains(#[trigger] chosen[i]) && score(
                    target,
                    chosen[i],
                ) >= threshold
            &&& forall|i: int, j: int|
                0 <= i < j < chosen.len() ==> {
                    let better = score(target, #[trigger] chosen[i]);
                    let worse = score(target, #[trigger] chosen[j]);
                    better > worse || (better == worse && !text_before(chosen[j], chosen[i]))
                }
            &&& forall|name: Seq<char>|
                available.contains(name) && score(target, name) >= threshold
                    && !#[trigger] chosen.contains(name) ==> chosen.len() == MAX_SUGGESTIONS
                    && forall|i: int|
                    0 <= i < chosen.len() ==> score(target, #[trigger] chosen[i]) >= score(
                        target,
                        name,
                    )
        }),
{
    broadcast use vstd::seq_lib::group_to_multiset_ensures;

    let scores = available.map_values(|name: Seq<char>| score(target, name));
    let threshold = threshold_for(target);
    let candidates = qualified(available, scores, threshold);
    let ranked = ranking(candidates);
    let chosen = suggestions(target, available);
    lemma_qualified(available, scores, threshold);
    law_ranking_is_best_first(candidates);
    assert forall|i: int| 0 <= i < ranked.len() implies (#[trigger] ranked[i]).score == score(
        target,
        ranked[i].name,
    ) && ranked[i].score >= threshold && available.contains(ranked[i].name) by {
        assert(ranked.to_multiset().contains(ranked[i]));
        assert(candidates.contains(ranked[i]));
        let at = candidates.index_of(ranked[i]);
        assert(is_qualified(available, scores, threshold, candidates[at]));
        let k = choose|k: int|
            0 <= k < available.len() && (#[trigger] available[k]) == ranked[i].name && scores[k]
                == ranked[i].score;
        assert(available[k] == ranked[i].name);
    }
    assert forall|i: int| 0 <= i < chosen.len() implies (#[trigger] chosen[i]) == ranked[i].name by {
    }
    assert forall|i: int, j: int| 0 <= i < j < chosen.len() implies {
        let better = score(target, #[trigger] chosen[i]);
        let worse = score(target, #[trigger] chosen[j]);
        better > worse || (better == worse && !text_before(chosen[j], chosen[i]))
    } by {
        assert(!precedes(ranked[j], ranked[i]));
    }
    assert forall|name: Seq<char>|
        available.contains(name) && score(target, name) >= threshold && !#[trigger] chosen.contains(
            name,
        ) implies chosen.len() == MAX_SUGGESTIONS && forall|i: int|
        0 <= i < chosen.len() ==> score(target, #[trigger] chosen[i]) >= score(target, name) by {
        let k = available.index_of(name);
        let candidate = Ranked { name, score: scores[k] };
        assert(available[k] == name);
        assert(candidates.contains(candidate));
        assert(candidates.to_multiset().contains(candidate));
        assert(ranked.contains(candidate));
        let at = ranked.index_of(candidate);
        if at < chosen.len() {
            assert(chosen[at] == name);
        }
        assert forall|i: int| 0 <= i < chosen.len() implies score(target, #[trigger] chosen[i])
            >= score(target, name) by {
            assert(!precedes(ranked[at], ranked[i]));
        }
    }
}

/// Where the target itself is available it is the first suggestion, unless another name has as
/// high a similarity.
pub proof fn law_exact_match_comes_first(target: Seq<char>, available: Seq<Seq<char>>)
    ensures
        available.contains(target) && (forall|name: Seq<char>|
            available.contains(name) && name != target ==> #[trigger] jaro_winkler_bits(
                target,
                name,
            ) < EXACT_MATCH_SCORE) ==> suggestions(target, available).len() > 0 && suggestions(
            target,
            available,
        )[0] == target,
{
    let chosen = suggestions(target, available);
    law_suggestions_are_the_best(target, available);
    law_threshold_bounds(byte_length(target));
    if available.contains(target) && (forall|name: Seq<char>|
        available.contains(name) && name != target ==> #[trigger] jaro_winkler_bits(target, name)
            < EXACT_MATCH_SCORE) {
        if !chosen.contains(target) {
            assert(score(target, chosen[0]) >= score(target, target));
        } else {
            let at = chosen.index_of(target);
            if at > 0 {
                let better = score(target, chosen[0]);
                assert(better >= score(target, chosen[at]));
            }
        }
        assert(available.contains(chosen[0]));
    }
}

/// A name that is the target, or differs from it in case alone, always reaches the threshold.
pub proof fn law_case_difference_qualifies(target: Seq<char>, name: Seq<char>)
    requires
        lower_case(target) == lower_case(name),
    ensures
        score(target, name) >= threshold_for(target),
{
    law_threshold_bounds(byte_length(target));
}

/// A name that is not the target, and not in case alone, is scored by its similarity; the target
/// has the highest of the fixed scores.
pub proof fn law_score_of_a_name(target: Seq<char>, name: Seq<char>)
    ensures
        score(target, target) == EXACT_MATCH_SCORE,
        target != name && lower_case(target) == lower_case(name) ==> score(target, name)
            == CASE_DIFFERENCE_SCORE,
        lower_case(target) != lower_case(name) ==> score(target, name) == jaro_winkler_bits(
            target,
            name,
        ),
        CASE_DIFFERENCE_SCORE < EXACT_MATCH_SCORE,
{
}

} // verus!
