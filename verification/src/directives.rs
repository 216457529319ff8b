//! The federation directives that merging knows, and the codes of the `@override` hints.

use crate::ast::{directive_shapes, located, Directive, LocatedDirective, Node};
use crate::text::same_text;
use vstd::prelude::*;

verus! {

/// A federation directive that merging handles specially.
#[derive(Debug, Clone, Copy, PartialEq, Eq, Structural)]
pub enum FederationDirective {
    Override,
    External,
    Requires,
    Provides,
}

impl FederationDirective {
    /// The name of the directive.
    pub open spec fn name_text(self) -> Seq<char> {
        match self {
            FederationDirective::Override => "override"@,
            FederationDirective::External => "external"@,
            FederationDirective::Requires => "requires"@,
            FederationDirective::Provides => "provides"@,
        }
    }

    /// The name of the directive in a schema that does not import it.
    pub open spec fn federation_name_text(self) -> Seq<char> {
        match self {
            FederationDirective::Override => "federation__override"@,
            FederationDirective::External => "federation__external"@,
            FederationDirective::Requires => "federation__requires"@,
            FederationDirective::Provides => "federation__provides"@,
        }
    }

    /// Whether the name is one of the two that the directive has.
    pub open spec fn is_named(self, directive_name: Seq<char>) -> bool {
        directive_name == self.name_text() || directive_name == self.federation_name_text()
    }

    /// The name of the directive.
    pub fn name(self) -> (name: &'static str)
        ensures
            name@ == self.name_text(),
    {
        match self {
            Self::Override => "override",
            Self::External => "external",
            Self::Requires => "requires",
            Self::Provides => "provides",
        }
    }

    /// The name of the directive in a schema that does not import it.
    pub fn federation_name(self) -> (name: &'static str)
        ensures
            name@ == self.federation_name_text(),
    {
        match self {
            Self::Override => "federation__override",
            Self::External => "federation__external",
            Self::Requires => "federation__requires",
            Self::Provides => "federation__provides",
        }
    }

    /// Whether the name is one of the two that the directive has.
    pub fn matches(self, directive_name: &str) -> (matching: bool)
        ensures
            matching == self.is_named(directive_name@),
    {
        same_text(directive_name, self.name()) || same_text(directive_name, self.federation_name())
    }

    /// The name of the directive in messages about a conflict.
    pub fn conflict_name(self) -> (name: &'static str)
        ensures
            name@ == self.name_text(),
    {
        self.name()
    }
}

/// The first application of the federation directive.
pub open spec fn applied(
    directives: Seq<LocatedDirective>,
    kind: FederationDirective,
) -> Option<LocatedDirective>
    decreases directives.len(),
{
    if directives.len() == 0 {
        None
    } else if kind.is_named(directives[0].directive.name) {
        Some(directives[0])
    } else {
        applied(directives.skip(1), kind)
    }
}

/// Finds the first application of the federation directive.
pub fn find_application<'a>(
    directives: &'a Vec<Node<Directive>>,
    kind: FederationDirective,
) -> (found: Option<&'a Node<Directive>>)
    ensures
        match found {
            Some(directive) => applied(directive_shapes(directives@), kind) == Some(
                located(*directive),
            ),
            None => applied(directive_shapes(directives@), kind) is None,
        },
{
    let ghost all = directive_shapes(directives@);
    let mut i: usize = 0;
    assert(all.skip(0) =~= all);
    while i < directives.len()
        invariant
            i <= directives.len(),
            all == directive_shapes(directives@),
            applied(all, kind) == applied(all.skip(i as int), kind),
        decreases directives.len() - i,
    {
        assert(all.skip(i as int)[0] == located(directives@[i as int]));
        assert(all.skip(i as int).skip(1) =~= all.skip(i + 1));
        if kind.matches(directives[i].node.name.as_str()) {
            return Some(&directives[i]);
        }
        i += 1;
    }
    None
}

/// Whether one of the directives is the federation directive.
pub fn has_application(directives: &Vec<Node<Directive>>, kind: FederationDirective) -> (found:
    bool)
    ensures
        found == (applied(directive_shapes(directives@), kind) is Some),
{
    find_application(directives, kind).is_some()
}

/// The codes of the hints about `@override`.
#[derive(Debug, Clone, Copy, PartialEq, Eq, Structural)]
pub enum OverrideHintCode {
    FromSubgraphDoesNotExist,
    OverrideDirectiveCanBeRemoved,
    OverrideSourceHasNoField,
    OverriddenFieldCanBeRemoved,
}

impl OverrideHintCode {
    /// The text of the code.
    pub open spec fn code_text(self) -> Seq<char> {
        match self {
            OverrideHintCode::FromSubgraphDoesNotExist => "FROM_SUBGRAPH_DOES_NOT_EXIST"@,
            OverrideHintCode::OverrideDirectiveCanBeRemoved
                => "OVERRIDE_DIRECTIVE_CAN_BE_REMOVED"@,
            OverrideHintCode::OverrideSourceHasNoField => "OVERRIDE_SOURCE_HAS_NO_FIELD"@,
            OverrideHintCode::OverriddenFieldCanBeRemoved => "OVERRIDDEN_FIELD_CAN_BE_REMOVED"@,
        }
    }

    /// The text of the code.
    pub fn as_str(&self) -> (code: &'static str)
        ensures
            code@ == self.code_text(),
    {
        match self {
            Self::FromSubgraphDoesNotExist => "FROM_SUBGRAPH_DOES_NOT_EXIST",
            Self::OverrideDirectiveCanBeRemoved => "OVERRIDE_DIRECTIVE_CAN_BE_REMOVED",
            Self::OverrideSourceHasNoField => "OVERRIDE_SOURCE_HAS_NO_FIELD",
            Self::OverriddenFieldCanBeRemoved => "OVERRIDDEN_FIELD_CAN_BE_REMOVED",
        }
    }
}

} // verus!
