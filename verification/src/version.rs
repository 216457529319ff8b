//! Versions of the federation specification.

use crate::report::{hint_record, CompositionHint, ErrorReporter, HintCode, Report};
use crate::subgraph::Subgraph;
use vstd::prelude::*;
use vstd::string::*;

verus! {

/// A version of a specification.
#[derive(Debug, Clone, Copy, PartialEq, Eq, Structural)]
pub struct Version {
    pub major: u32,
    pub minor: u32,
}

/// The decimal digits of a number.
pub open spec fn decimal(number: nat) -> Seq<char>
    decreases number,
{
    if number < 10 {
        seq![(number + '0' as nat) as char]
    } else {
        decimal(number / 10).push((number % 10 + '0' as nat) as char)
    }
}

/// Writes a digit.
fn write_digit(digit: u32) -> (text: &'static str)
    requires
        digit < 10,
    ensures
        text@ == seq![(digit + '0' as nat) as char],
{
    proof {
        reveal_strlit("0");
        reveal_strlit("1");
        reveal_strlit("2");
        reveal_strlit("3");
        reveal_strlit("4");
        reveal_strlit("5");
        reveal_strlit("6");
        reveal_strlit("7");
        reveal_strlit("8");
        reveal_strlit("9");
    }
    let text = match digit {
        0 => "0",
        1 => "1",
        2 => "2",
        3 => "3",
        4 => "4",
        5 => "5",
        6 => "6",
        7 => "7",
        8 => "8",
        _ => "9",
    };
    assert(text@ =~= seq![(digit + '0' as nat) as char]);
    text
}

/// Writes the decimal digits of a number.
fn write_number(number: u32) -> (text: String)
    ensures
        text@ == decimal(number as nat),
    decreases number,
{
    let last = write_digit(number % 10);
    if number < 10 {
        return last.to_owned();
    }
    let text = write_number(number / 10).concat(last);
    assert(text@ =~= decimal(number as nat));
    text
}

impl Version {
    /// Whether this version comes before the other.
    pub open spec fn before(self, other: Version) -> bool {
        self.major < other.major || (self.major == other.major && self.minor < other.minor)
    }

    /// Whether this version can stand for the required one: it has the same major number and no
    /// smaller minor number, or, before the first major version, the same minor number.
    pub open spec fn meets(self, required: Version) -> bool {
        if self.major == 0 {
            self == required
        } else {
            self.major == required.major && self.minor >= required.minor
        }
    }

    /// The version in the notation `2.3`.
    pub open spec fn notation(self) -> Seq<char> {
        decimal(self.major as nat) + "."@ + decimal(self.minor as nat)
    }

    /// Whether this version comes after the other.
    pub fn is_after(&self, other: &Version) -> (after: bool)
        ensures
            after == other.before(*self),
    {
        self.major > other.major || (self.major == other.major && self.minor > other.minor)
    }

    /// Whether this version can stand for the required one.
    pub fn satisfies(&self, required: &Version) -> (satisfied: bool)
        ensures
            satisfied == self.meets(*required),
    {
        if self.major == 0 {
            *self == *required
        } else {
            self.major == required.major && self.minor >= required.minor
        }
    }

    /// The version in the notation `2.3`.
    pub fn to_notation(&self) -> (text: String)
        ensures
            text@ == self.notation(),
    {
        let major = write_number(self.major);
        let minor = write_number(self.minor);
        major.concat(".").concat(minor.as_str())
    }
}

/// The latest of some versions; where there is none, the given one.
pub open spec fn latest_of(versions: Seq<Version>, default: Version) -> Version
    decreases versions.len(),
{
    if versions.len() == 0 {
        default
    } else if versions.len() == 1 {
        versions[0]
    } else {
        let rest = latest_of(versions.drop_last(), default);
        if rest.before(versions.last()) {
            versions.last()
        } else {
            rest
        }
    }
}

/// Whether a subgraph uses a feature that needs a later version than the one it links.
pub open spec fn is_upgraded(subgraph: Subgraph) -> bool {
    let needed = latest_of(subgraph.feature_versions@, subgraph.federation_version);
    subgraph.feature_versions@.len() > 0 && needed.meets(subgraph.federation_version)
        && subgraph.federation_version.before(needed)
}

/// The version that a subgraph uses: the one it links, or the later one that its features need.
pub open spec fn version_used(subgraph: Subgraph) -> Version {
    if is_upgraded(subgraph) {
        latest_of(subgraph.feature_versions@, subgraph.federation_version)
    } else {
        subgraph.federation_version
    }
}

/// The text of the hint about a subgraph that is upgraded.
pub open spec fn upgrade_text(subgraph: Subgraph) -> Seq<char> {
    "Subgraph "@ + subgraph.name@ + " has been implicitly upgraded from federation "@
        + subgraph.federation_version.notation() + " to "@ + version_used(subgraph).notation()
}

/// The report after a look at the version that a subgraph uses.
pub open spec fn report_upgrade(report: Report, subgraph: Subgraph) -> Report {
    if is_upgraded(subgraph) {
        report.with_hint(
            hint_record(
                HintCode::ImplicitlyUpgradedFederationVersion.code_text(),
                upgrade_text(subgraph),
                Seq::empty(),
            ),
        )
    } else {
        report
    }
}

/// The report after a look at the versions that the subgraphs use.
pub open spec fn report_upgrades(report: Report, subgraphs: Seq<Subgraph>) -> Report
    decreases subgraphs.len(),
{
    if subgraphs.len() == 0 {
        report
    } else {
        report_upgrade(report_upgrades(report, subgraphs.drop_last()), subgraphs.last())
    }
}

/// The versions that the subgraphs use.
pub open spec fn versions_used(subgraphs: Seq<Subgraph>) -> Seq<Version> {
    subgraphs.map_values(|s: Subgraph| version_used(s))
}

/// Finds the latest of some versions.
fn find_latest(versions: &Vec<Version>, default: Version) -> (latest: Version)
    ensures
        latest == latest_of(versions@, default),
{
    if versions.len() == 0 {
        return default;
    }
    let mut latest: Version = versions[0];
    let mut i: usize = 1;
    assert(versions@.take(1)[0] == versions@[0]);
    while i < versions.len()
        invariant
            1 <= i <= versions.len(),
            latest == latest_of(versions@.take(i as int), default),
        decreases versions.len() - i,
    {
        let ghost grown = versions@.take(i + 1);
        assert(grown.drop_last() =~= versions@.take(i as int));
        if versions[i].is_after(&latest) {
            latest = versions[i];
        }
        i += 1;
    }
    assert(versions@.take(versions.len() as int) =~= versions@);
    latest
}

/// Finds the version that a subgraph uses, and reports where that is not the one it links.
pub fn get_latest_federation_version_used_in_subgraph(
    subgraph: &Subgraph,
    error_reporter: &mut ErrorReporter,
) -> (version: Version)
    ensures
        version == version_used(*subgraph),
        final(error_reporter)@ == report_upgrade(old(error_reporter)@, *subgraph),
{
    let linked = subgraph.federation_version;
    if subgraph.feature_versions.len() > 0 {
        let needed = find_latest(&subgraph.feature_versions, linked);
        if needed.satisfies(&linked) && needed.is_after(&linked) {
            let from = linked.to_notation();
            let to = needed.to_notation();
            let text = "Subgraph ".to_owned().concat(subgraph.name.as_str()).concat(
                " has been implicitly upgraded from federation ",
            ).concat(from.as_str()).concat(" to ").concat(to.as_str());
            error_reporter.add_hint(
                CompositionHint::new(
                    text,
                    HintCode::ImplicitlyUpgradedFederationVersion.code().to_owned(),
                ),
            );
            return needed;
        }
    }
    linked
}

/// Finds the latest version that a subgraph uses; where there is no subgraph, the latest one
/// there is.
pub fn get_latest_federation_version_used(
    subgraphs: &Vec<Subgraph>,
    latest_version: Version,
    error_reporter: &mut ErrorReporter,
) -> (version: Version)
    ensures
        version == latest_of(versions_used(subgraphs@), latest_version),
        final(error_reporter)@ == report_upgrades(old(error_reporter)@, subgraphs@),
{
    let ghost before = error_reporter@;
    let mut versions: Vec<Version> = Vec::new();
    let mut i: usize = 0;
    assert(subgraphs@.take(0) =~= Seq::<Subgraph>::empty());
    while i < subgraphs.len()
        invariant
            i <= subgraphs.len(),
            versions@ =~= versions_used(subgraphs@.take(i as int)),
            error_reporter@ == report_upgrades(before, subgraphs@.take(i as int)),
        decreases subgraphs.len() - i,
    {
        let ghost grown = subgraphs@.take(i + 1);
        assert(grown.drop_last() =~= subgraphs@.take(i as int));
        let version = get_latest_federation_version_used_in_subgraph(
            &subgraphs[i],
            error_reporter,
        );
        versions.push(version);
        i += 1;
    }
    assert(subgraphs@.take(subgraphs.len() as int) =~= subgraphs@);
    find_latest(&versions, latest_version)
}

/// No subgraph uses a later version than the latest one, and some subgraph uses that one.
pub proof fn law_latest_version_bounds_all(subgraphs: Seq<Subgraph>, default: Version, i: int)
    requires
        0 <= i < subgraphs.len(),
    ensures
        !latest_of(versions_used(subgraphs), default).before(version_used(subgraphs[i])),
        versions_used(subgraphs).contains(latest_of(versions_used(subgraphs), default)),
{
    lemma_latest_bounds(versions_used(subgraphs), default, i);
}

proof fn lemma_latest_bounds(versions: Seq<Version>, default: Version, i: int)
    requires
        0 <= i < versions.len(),
    ensures
        !latest_of(versions, default).before(versions[i]),
        versions.contains(latest_of(versions, default)),
    decreases versions.len(),
{
    if versions.len() == 1 {
        assert(versions[0] == latest_of(versions, default));
    } else {
        let rest = versions.drop_last();
        let at = if i < rest.len() {
            i
        } else {
            0
        };
        lemma_latest_bounds(rest, default, at);
        let found = rest.index_of(latest_of(rest, default));
        assert(versions[found] == latest_of(rest, default));
        assert(versions[versions.len() - 1] == versions.last());
    }
}

/// A subgraph never uses an earlier version than the one it links.
pub proof fn law_version_used_is_not_before_linked(subgraph: Subgraph)
    ensures
        !version_used(subgraph).before(subgraph.federation_version),
{
}

} // verus!
