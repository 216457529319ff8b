//! What holds of versions and of the version that each subgraph uses.

use crate::labels::{all_digits, digits_value, is_digit};
use crate::report::{hint_record, HintCode, HintRecord, Report};
use crate::subgraph::Subgraph;
use crate::version::{
    decimal, is_upgraded, latest_of, report_upgrades, version_used, versions_used, Version,
};
use vstd::prelude::*;

verus! {

/// Versions are totally ordered, by their major numbers first and by their minor numbers where
/// those are the same.
pub proof fn law_versions_are_ordered(a: Version, b: Version, c: Version)
    ensures
        !(a.before(b) && b.before(a)),
        a.before(b) || b.before(a) || a == b,
        !a.before(a),
        a.before(b) && b.before(c) ==> a.before(c),
        a.major < b.major ==> a.before(b),
        a.major == b.major ==> (a.before(b) <==> a.minor < b.minor),
{
}

/// A version stands for itself, and for no version with another major number. From the first major
/// version on it stands for each earlier minor version; before that, for no other.
pub proof fn law_versions_that_meet_a_version(a: Version, b: Version)
    ensures
        a.meets(a),
        a.major != b.major ==> !a.meets(b),
        a.major == b.major && a.major > 0 ==> (a.meets(b) <==> a.minor >= b.minor),
        a.major == 0 && a.minor != b.minor ==> !a.meets(b),
{
}

/// The latest of some versions is one of them, and none of them is later; of no versions it is the
/// given one.
pub proof fn law_latest_of_some_versions(versions: Seq<Version>, default: Version)
    ensures
        versions.len() == 0 ==> latest_of(versions, default) == default,
        versions.len() > 0 ==> versions.contains(latest_of(versions, default)),
        forall|i: int|
            0 <= i < versions.len() ==> !latest_of(versions, default).before(#[trigger] versions[i]),
    decreases versions.len(),
{
    if versions.len() == 1 {
        assert(versions[0] == latest_of(versions, default));
    } else if versions.len() > 1 {
        let rest = versions.drop_last();
        law_latest_of_some_versions(rest, default);
        let before = latest_of(rest, default);
        assert(versions[rest.index_of(before)] == before);
        assert(versions[versions.len() - 1] == versions.last());
        assert forall|i: int| 0 <= i < versions.len() implies !latest_of(
            versions,
            default,
        ).before(#[trigger] versions[i]) by {
            if i < rest.len() {
                assert(!before.before(rest[i]));
            }
        }
    }
}

/// Whether the feature needs the latest version of all features of a subgraph.
pub open spec fn is_latest_feature(subgraph: Subgraph, f: int) -> bool {
    &&& 0 <= f < subgraph.feature_versions@.len()
    &&& forall|k: int|
        0 <= k < subgraph.feature_versions@.len() ==> !subgraph.feature_versions@[f].before(
            #[trigger] subgraph.feature_versions@[k],
        )
}

/// Whether a feature needs a later version than the one that the subgraph links, of the same major
/// version, which is not before the first.
pub open spec fn needs_upgrade(subgraph: Subgraph, f: int) -> bool {
    let needed = subgraph.feature_versions@[f];
    &&& is_latest_feature(subgraph, f)
    &&& needed.major == subgraph.federation_version.major
    &&& needed.major > 0
    &&& needed.minor > subgraph.federation_version.minor
}

/// A subgraph uses the version that the latest of its features needs, where that is a later one of
/// the same major version; otherwise the one that it links.
pub proof fn law_features_upgrade_a_subgraph(subgraph: Subgraph, f: int)
    requires
        is_latest_feature(subgraph, f),
    ensures
        needs_upgrade(subgraph, f) ==> is_upgraded(subgraph) && version_used(subgraph)
            == subgraph.feature_versions@[f],
        !needs_upgrade(subgraph, f) ==> !is_upgraded(subgraph) && version_used(subgraph)
            == subgraph.federation_version,
{
    let versions = subgraph.feature_versions@;
    let latest = latest_of(versions, subgraph.federation_version);
    law_latest_of_some_versions(versions, subgraph.federation_version);
    assert(!latest.before(versions[f]));
    let at = versions.index_of(latest);
    assert(!versions[f].before(versions[at]));
    assert(latest == versions[f]);
}

/// A subgraph without features uses the version that it links.
pub proof fn law_version_without_features(subgraph: Subgraph)
    requires
        subgraph.feature_versions@.len() == 0,
    ensures
        !is_upgraded(subgraph),
        version_used(subgraph) == subgraph.federation_version,
{
}

/// The hint about a subgraph whose version is upgraded.
pub open spec fn upgrade_hint(subgraph: Subgraph, to: Version) -> HintRecord {
    hint_record(
        HintCode::ImplicitlyUpgradedFederationVersion.code_text(),
        "Subgraph "@ + subgraph.name@ + " has been implicitly upgraded from federation "@
            + subgraph.federation_version.notation() + " to "@ + to.notation(),
        Seq::empty(),
    )
}

/// There is a hint about each subgraph that is upgraded, wherever it stands, and nothing else is
/// reported.
pub proof fn law_every_upgrade_is_a_hint(report: Report, subgraphs: Seq<Subgraph>)
    ensures
        report_upgrades(report, subgraphs).errors == report.errors,
        report.hints.is_prefix_of(report_upgrades(report, subgraphs).hints),
        forall|s: int, f: int|
            0 <= s < subgraphs.len() && #[trigger] needs_upgrade(subgraphs[s], f)
                ==> report_upgrades(report, subgraphs).hints.contains(
                upgrade_hint(subgraphs[s], subgraphs[s].feature_versions@[f]),
            ),
        forall|h: int|
            report.hints.len() <= h < report_upgrades(report, subgraphs).hints.len()
                ==> is_upgrade_of_one(
                subgraphs,
                #[trigger] report_upgrades(report, subgraphs).hints[h],
            ),
        report_upgrades(report, subgraphs).hints.len() <= report.hints.len() + subgraphs.len(),
    decreases subgraphs.len(),
{
    if subgraphs.len() > 0 {
        let rest = subgraphs.drop_last();
        let last = subgraphs.last();
        let before = report_upgrades(report, rest);
        let after = report_upgrades(report, subgraphs);
        law_every_upgrade_is_a_hint(report, rest);
        assert forall|s: int, f: int|
            0 <= s < subgraphs.len() && #[trigger] needs_upgrade(
                subgraphs[s],
                f,
            ) implies after.hints.contains(
            upgrade_hint(subgraphs[s], subgraphs[s].feature_versions@[f]),
        ) by {
            let hint = upgrade_hint(subgraphs[s], subgraphs[s].feature_versions@[f]);
            if s < rest.len() {
                assert(needs_upgrade(rest[s], f));
                assert(after.hints[before.hints.index_of(hint)] == hint);
            } else {
                law_features_upgrade_a_subgraph(last, f);
                assert(after.hints[after.hints.len() - 1] == hint);
            }
        }
        assert forall|h: int| report.hints.len() <= h < after.hints.len() implies is_upgrade_of_one(
            subgraphs,
            #[trigger] after.hints[h],
        ) by {
            if h < before.hints.len() {
                assert(after.hints[h] == before.hints[h]);
                let s = choose|s: int|
                    0 <= s < rest.len() && version_used(#[trigger] rest[s])
                        != rest[s].federation_version && before.hints[h] == upgrade_hint(
                        rest[s],
                        version_used(rest[s]),
                    );
                assert(subgraphs[s] == rest[s]);
            } else {
                assert(subgraphs[subgraphs.len() - 1] == last);
                assert(last.federation_version.before(version_used(last)));
            }
        }
    }
}

/// Whether the hint is about one of the subgraphs, which uses another version than it links.
pub open spec fn is_upgrade_of_one(subgraphs: Seq<Subgraph>, hint: HintRecord) -> bool {
    exists|s: int|
        0 <= s < subgraphs.len() && version_used(#[trigger] subgraphs[s])
            != subgraphs[s].federation_version && hint == upgrade_hint(
            subgraphs[s],
            version_used(subgraphs[s]),
        )
}

/// In the list of the versions in use, each subgraph has its own at its place.
pub proof fn law_each_subgraph_has_its_version(subgraphs: Seq<Subgraph>, s: int)
    requires
        0 <= s < subgraphs.len(),
    ensures
        versions_used(subgraphs).len() == subgraphs.len(),
        versions_used(subgraphs)[s] == version_used(subgraphs[s]),
{
}

/// The decimal notation of a number is made of digits, with no zero in front but for zero itself,
/// and has the number as its value.
pub proof fn law_decimal_has_its_value(number: nat)
    ensures
        decimal(number).len() > 0,
        all_digits(decimal(number)),
        digits_value(decimal(number)) == number,
        number > 0 ==> decimal(number)[0] != '0',
    decreases number,
{
    let text = decimal(number);
    if number < 10 {
        assert(text.drop_last() =~= Seq::<char>::empty());
        reveal_with_fuel(digits_value, 2);
        assert(is_digit(text[0]));
    } else {
        let rest = decimal(number / 10);
        law_decimal_has_its_value(number / 10);
        assert(text.drop_last() =~= rest);
        assert(text[0] == rest[0]);
        assert forall|i: int| 0 <= i < text.len() implies is_digit(#[trigger] text[i]) by {
            if i < rest.len() {
                assert(text[i] == rest[i]);
            }
        }
    }
}

} // verus!
