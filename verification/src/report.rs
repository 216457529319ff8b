//! Errors and hints of a composition, and the reporter that collects them.

use crate::ast::SourceSpan;
use vstd::prelude::*;
use vstd::string::*;

verus! {

/// A failure of the merge itself, as opposed to a finding about the subgraphs.
#[derive(Debug)]
pub struct FederationError {
    pub message: String,
}

impl FederationError {
    /// A failure that only a defect of the composition can cause.
    pub fn internal(message: String) -> (error: Self)
        ensures
            error.message@ == message@,
    {
        FederationError { message }
    }
}

impl Clone for FederationError {
    fn clone(&self) -> (copy: Self)
        ensures
            copy.message@ == self.message@,
    {
        FederationError { message: self.message.clone() }
    }
}

/// What an error is about.
#[derive(Debug, Clone, Copy, PartialEq, Eq, Structural)]
pub enum ErrorKind {
    InternalError,
    InterfaceObjectUsageError,
    TypeKindMismatch,
    EnumValueMismatch,
    DirectiveDefinitionInvalid,
    OverrideOnInterface,
    OverrideFromSelfError,
    OverrideLabelInvalid,
    OverrideCollisionWithAnotherDirective,
}

impl ErrorKind {
    /// The code that names the kind.
    pub open spec fn code_text(self) -> Seq<char> {
        match self {
            ErrorKind::InternalError => "INTERNAL"@,
            ErrorKind::InterfaceObjectUsageError => "INTERFACE_OBJECT_USAGE_ERROR"@,
            ErrorKind::TypeKindMismatch => "TYPE_KIND_MISMATCH"@,
            ErrorKind::EnumValueMismatch => "ENUM_VALUE_MISMATCH"@,
            ErrorKind::DirectiveDefinitionInvalid => "DIRECTIVE_DEFINITION_INVALID"@,
            ErrorKind::OverrideOnInterface => "OVERRIDE_ON_INTERFACE"@,
            ErrorKind::OverrideFromSelfError => "OVERRIDE_FROM_SELF_ERROR"@,
            ErrorKind::OverrideLabelInvalid => "OVERRIDE_LABEL_INVALID"@,
            ErrorKind::OverrideCollisionWithAnotherDirective
                => "OVERRIDE_COLLISION_WITH_ANOTHER_DIRECTIVE"@,
        }
    }

    /// The code that names the kind.
    pub fn code(self) -> (code: &'static str)
        ensures
            code@ == self.code_text(),
    {
        match self {
            ErrorKind::InternalError => "INTERNAL",
            ErrorKind::InterfaceObjectUsageError => "INTERFACE_OBJECT_USAGE_ERROR",
            ErrorKind::TypeKindMismatch => "TYPE_KIND_MISMATCH",
            ErrorKind::EnumValueMismatch => "ENUM_VALUE_MISMATCH",
            ErrorKind::DirectiveDefinitionInvalid => "DIRECTIVE_DEFINITION_INVALID",
            ErrorKind::OverrideOnInterface => "OVERRIDE_ON_INTERFACE",
            ErrorKind::OverrideFromSelfError => "OVERRIDE_FROM_SELF_ERROR",
            ErrorKind::OverrideLabelInvalid => "OVERRIDE_LABEL_INVALID",
            ErrorKind::OverrideCollisionWithAnotherDirective
                => "OVERRIDE_COLLISION_WITH_ANOTHER_DIRECTIVE",
        }
    }
}

/// How an element differs between subgraphs.
#[derive(Debug)]
pub struct Mismatch {
    /// The element as the supergraph has it.
    pub element: String,
    /// The element as each subgraph has it; `None` where a subgraph does not have it.
    pub sources: Vec<(usize, Option<String>)>,
}

/// What a mismatch says.
pub struct MismatchRecord {
    pub element: Seq<char>,
    pub sources: Seq<(usize, Option<Seq<char>>)>,
}

/// The characters of an optional string.
pub open spec fn optional_text(text: Option<String>) -> Option<Seq<char>> {
    match text {
        Some(t) => Some(t@),
        None => None,
    }
}

/// What is said of each subgraph.
pub open spec fn source_texts(sources: Seq<(usize, Option<String>)>) -> Seq<
    (usize, Option<Seq<char>>),
> {
    sources.map_values(|s: (usize, Option<String>)| (s.0, optional_text(s.1)))
}

impl View for Mismatch {
    type V = MismatchRecord;

    open spec fn view(&self) -> MismatchRecord {
        MismatchRecord { element: self.element@, sources: source_texts(self.sources@) }
    }
}

/// What an optional mismatch says.
pub open spec fn optional_mismatch(mismatch: Option<Mismatch>) -> Option<MismatchRecord> {
    match mismatch {
        Some(m) => Some(m@),
        None => None,
    }
}

/// A finding that keeps the subgraphs from being composed.
#[derive(Debug)]
pub struct CompositionError {
    pub kind: ErrorKind,
    pub message: String,
    pub mismatch: Option<Mismatch>,
}

/// What an error says.
pub struct ErrorRecord {
    pub kind: ErrorKind,
    pub message: Seq<char>,
    pub mismatch: Option<MismatchRecord>,
}

impl View for CompositionError {
    type V = ErrorRecord;

    open spec fn view(&self) -> ErrorRecord {
        ErrorRecord {
            kind: self.kind,
            message: self.message@,
            mismatch: optional_mismatch(self.mismatch),
        }
    }
}

/// An error that does not list what each subgraph has.
pub open spec fn plain_error(kind: ErrorKind, message: Seq<char>) -> ErrorRecord {
    ErrorRecord { kind, message, mismatch: None }
}

impl CompositionError {
    /// An error that does not list what each subgraph has.
    pub fn new(kind: ErrorKind, message: String) -> (error: Self)
        ensures
            error@ == plain_error(kind, message@),
    {
        CompositionError { kind, message, mismatch: None }
    }

    /// The code of the error and its message.
    pub fn to_string(&self) -> (text: String)
        ensures
            text@ == self.kind.code_text() + ": "@ + self.message@,
    {
        self.kind.code().to_owned().concat(": ").concat(self.message.as_str())
    }
}

/// What kind of syntax tree node a location points to.
#[derive(Debug, Clone, Copy, PartialEq, Eq, Structural)]
pub enum ASTNodeKind {
    Directive,
    Field,
}

/// A location in the schema of a subgraph.
#[derive(Debug)]
pub struct SubgraphASTNode {
    pub location: SourceSpan,
    pub subgraph: String,
    pub kind: ASTNodeKind,
}

/// What a location in a subgraph is.
pub struct NodeRecord {
    pub location: SourceSpan,
    pub subgraph: Seq<char>,
    pub kind: ASTNodeKind,
}

impl View for SubgraphASTNode {
    type V = NodeRecord;

    open spec fn view(&self) -> NodeRecord {
        NodeRecord { location: self.location, subgraph: self.subgraph@, kind: self.kind }
    }
}

/// What each location of a list is.
pub open spec fn node_records(nodes: Seq<SubgraphASTNode>) -> Seq<NodeRecord> {
    nodes.map_values(|n: SubgraphASTNode| n@)
}

/// The codes of the hints that do not concern `@override`.
#[derive(Debug, Clone, Copy, PartialEq, Eq, Structural)]
pub enum HintCode {
    ImplicitlyUpgradedFederationVersion,
    MergedNonRepeatableDirectiveArguments,
    InconsistentNonRepeatableDirectiveArguments,
    InconsistentButCompatibleArgumentType,
    InconsistentButCompatibleFieldType,
}

impl HintCode {
    /// The text of the code.
    pub open spec fn code_text(self) -> Seq<char> {
        match self {
            HintCode::ImplicitlyUpgradedFederationVersion
                => "IMPLICITLY_UPGRADED_FEDERATION_VERSION"@,
            HintCode::MergedNonRepeatableDirectiveArguments
                => "MERGED_NON_REPEATABLE_DIRECTIVE_ARGUMENTS"@,
            HintCode::InconsistentNonRepeatableDirectiveArguments
                => "INCONSISTENT_NON_REPEATABLE_DIRECTIVE_ARGUMENTS"@,
            HintCode::InconsistentButCompatibleArgumentType
                => "INCONSISTENT_BUT_COMPATIBLE_ARGUMENT_TYPE"@,
            HintCode::InconsistentButCompatibleFieldType
                => "INCONSISTENT_BUT_COMPATIBLE_FIELD_TYPE"@,
        }
    }

    /// The text of the code.
    pub fn code(self) -> (code: &'static str)
        ensures
            code@ == self.code_text(),
    {
        match self {
            HintCode::ImplicitlyUpgradedFederationVersion
                => "IMPLICITLY_UPGRADED_FEDERATION_VERSION",
            HintCode::MergedNonRepeatableDirectiveArguments
                => "MERGED_NON_REPEATABLE_DIRECTIVE_ARGUMENTS",
            HintCode::InconsistentNonRepeatableDirectiveArguments
                => "INCONSISTENT_NON_REPEATABLE_DIRECTIVE_ARGUMENTS",
            HintCode::InconsistentButCompatibleArgumentType
                => "INCONSISTENT_BUT_COMPATIBLE_ARGUMENT_TYPE",
            HintCode::InconsistentButCompatibleFieldType
                => "INCONSISTENT_BUT_COMPATIBLE_FIELD_TYPE",
        }
    }
}

/// A finding that does not keep the subgraphs from being composed.
#[derive(Debug)]
pub struct CompositionHint {
    pub code: String,
    /// The code in brackets, then the text of the hint.
    pub message: String,
    pub nodes: Vec<SubgraphASTNode>,
    pub mismatch: Option<Mismatch>,
}

/// What a hint says.
pub struct HintRecord {
    pub code: Seq<char>,
    pub message: Seq<char>,
    pub nodes: Seq<NodeRecord>,
    pub mismatch: Option<MismatchRecord>,
}

impl View for CompositionHint {
    type V = HintRecord;

    open spec fn view(&self) -> HintRecord {
        HintRecord {
            code: self.code@,
            message: self.message@,
            nodes: node_records(self.nodes@),
            mismatch: optional_mismatch(self.mismatch),
        }
    }
}

/// The message of a hint: its code in brackets, then its text.
pub open spec fn hint_message(code: Seq<char>, text: Seq<char>) -> Seq<char> {
    "["@ + code + "] "@ + text
}

/// A hint with the code and the text that points to some locations.
pub open spec fn hint_record(
    code: Seq<char>,
    text: Seq<char>,
    nodes: Seq<NodeRecord>,
) -> HintRecord {
    HintRecord { code, message: hint_message(code, text), nodes, mismatch: None }
}

/// A hint with the code and the text that says what each subgraph has.
pub open spec fn mismatch_hint_record(
    code: Seq<char>,
    text: Seq<char>,
    mismatch: MismatchRecord,
) -> HintRecord {
    HintRecord {
        code,
        message: hint_message(code, text),
        nodes: Seq::empty(),
        mismatch: Some(mismatch),
    }
}

impl CompositionHint {
    /// A hint that points to no location.
    pub fn new(text: String, code: String) -> (hint: Self)
        ensures
            hint@ == hint_record(code@, text@, Seq::empty()),
    {
        let nodes: Vec<SubgraphASTNode> = Vec::new();
        assert(node_records(nodes@) =~= Seq::<NodeRecord>::empty());
        Self::with_ast_nodes(text, code, nodes)
    }

    /// A hint that points to some locations.
    pub fn with_ast_nodes(text: String, code: String, nodes: Vec<SubgraphASTNode>) -> (hint: Self)
        ensures
            hint@ == hint_record(code@, text@, node_records(nodes@)),
    {
        let message = "[".to_owned().concat(code.as_str()).concat("] ").concat(text.as_str());
        CompositionHint { code, message, nodes, mismatch: None }
    }

    /// A hint that says what each subgraph has.
    pub fn with_mismatch(text: String, code: String, mismatch: Mismatch) -> (hint: Self)
        ensures
            hint@ == mismatch_hint_record(code@, text@, mismatch@),
    {
        let message = "[".to_owned().concat(code.as_str()).concat("] ").concat(text.as_str());
        let hint = CompositionHint { code, message, nodes: Vec::new(), mismatch: Some(mismatch) };
        assert(hint@.nodes =~= Seq::<NodeRecord>::empty());
        hint
    }
}

/// Collects the errors and hints of a composition in the order in which they are found.
#[derive(Debug)]
pub struct ErrorReporter {
    pub errors: Vec<CompositionError>,
    pub hints: Vec<CompositionHint>,
}

/// What has been reported.
#[verifier::ext_equal]
pub struct Report {
    pub errors: Seq<ErrorRecord>,
    pub hints: Seq<HintRecord>,
}

impl Report {
    /// A report of nothing.
    pub open spec fn empty() -> Report {
        Report { errors: Seq::empty(), hints: Seq::empty() }
    }

    /// The report with one more error.
    pub open spec fn with_error(self, error: ErrorRecord) -> Report {
        Report { errors: self.errors.push(error), hints: self.hints }
    }

    /// The report with one more hint.
    pub open spec fn with_hint(self, hint: HintRecord) -> Report {
        Report { errors: self.errors, hints: self.hints.push(hint) }
    }

    /// Whether everything in this report stands, in the same order, at the start of the other.
    pub open spec fn is_start_of(self, other: Report) -> bool {
        self.errors.is_prefix_of(other.errors) && self.hints.is_prefix_of(other.hints)
    }
}

impl View for ErrorReporter {
    type V = Report;

    open spec fn view(&self) -> Report {
        Report {
            errors: self.errors@.map_values(|e: CompositionError| e@),
            hints: self.hints@.map_values(|h: CompositionHint| h@),
        }
    }
}

impl ErrorReporter {
    /// A reporter that has nothing to report.
    pub fn new() -> (reporter: Self)
        ensures
            reporter@ == Report::empty(),
    {
        let reporter = ErrorReporter { errors: Vec::new(), hints: Vec::new() };
        assert(reporter@ =~= Report::empty());
        reporter
    }

    /// Adds an error.
    pub fn add_error(&mut self, error: CompositionError)
        ensures
            final(self)@ == old(self)@.with_error(error@),
    {
        self.errors.push(error);
        assert(self@ =~= old(self)@.with_error(error@));
    }

    /// Adds a hint.
    pub fn add_hint(&mut self, hint: CompositionHint)
        ensures
            final(self)@ == old(self)@.with_hint(hint@),
    {
        self.hints.push(hint);
        assert(self@ =~= old(self)@.with_hint(hint@));
    }

    /// Adds an error that says what each subgraph has.
    pub fn report_mismatch_error(&mut self, error: CompositionError, mismatch: Mismatch)
        ensures
            final(self)@ == old(self)@.with_error(
                (ErrorRecord {
                    kind: error.kind,
                    message: error.message@,
                    mismatch: Some(mismatch@),
                }),
            ),
    {
        self.add_error(
            CompositionError { kind: error.kind, message: error.message, mismatch: Some(mismatch) },
        );
    }

    /// Adds a hint that says what each subgraph has.
    pub fn report_mismatch_hint(&mut self, code: HintCode, text: String, mismatch: Mismatch)
        ensures
            final(self)@ == old(self)@.with_hint(
                mismatch_hint_record(code.code_text(), text@, mismatch@),
            ),
    {
        self.add_hint(CompositionHint::with_mismatch(text, code.code().to_owned(), mismatch));
    }

    /// Whether an error was reported.
    pub fn has_errors(&self) -> (some: bool)
        ensures
            some == (self@.errors.len() > 0),
    {
        self.errors.len() > 0
    }

    /// Whether a hint was reported.
    pub fn has_hints(&self) -> (some: bool)
        ensures
            some == (self@.hints.len() > 0),
    {
        self.hints.len() > 0
    }

    /// Hands out what was reported.
    pub fn into_errors_and_hints(self) -> (parts: (Vec<CompositionError>, Vec<CompositionHint>))
        ensures
            parts.0@.map_values(|e: CompositionError| e@) == self@.errors,
            parts.1@.map_values(|h: CompositionHint| h@) == self@.hints,
    {
        (self.errors, self.hints)
    }
}

} // verus!
