//! Validation of `@override`.

use crate::ast::{
    argument_named, argument_shapes, find_argument, located, ArgumentShape, Directive,
    FieldDefinition, FieldShape, LocatedDirective, Node, SourceSpan, Value, ValueShape,
};
use crate::directives::{
    applied, find_application, has_application, FederationDirective, OverrideHintCode,
};
use crate::field_context::{
    with_label, with_unknown_target, with_unused_overridden, with_used_overridden,
    FieldMergeContext, FieldProperties,
};
use crate::human_readable::{did_you_mean, format_did_you_mean, print_types, printed_types};
use crate::index_map::Sources;
use crate::labels::{is_valid_label, is_valid_override_label_complete};
use crate::merger::{Known, Merger};
use crate::override_messages::{
    abstracted, also_overridden, collision, field_gone, from_self, invalid_label, migration,
    not_resolved, on_interface, on_interface_object, overridden, unknown_source, write_abstracted,
    write_also_overridden, write_collision, write_field_gone, write_from_self, write_invalid_label,
    write_migration, write_not_resolved, write_on_interface, write_on_interface_object,
    write_overridden, write_unknown_source, MIGRATION_CODE,
};
use crate::report::{
    hint_record, node_records, optional_text, plain_error, ASTNodeKind, CompositionError,
    CompositionHint, ErrorKind, FederationError, NodeRecord, Report, SubgraphASTNode,
};
use crate::schema::{
    find_field, find_type, lookup_field, targets, with_distinct, DirectiveTargetPosition,
    ExtendedType, FieldDefinitionPosition, FieldPlace, Target, TypeDefinition, TypeKind,
};
use crate::subgraph::{find_subgraph, subgraph_named, Subgraph};
use crate::suggest::{suggest_similar_subgraph_names_impl, suggestions};
use crate::text::{contains_text, same_text, slice_texts, texts};
use vstd::prelude::*;
use vstd::string::*;

verus! {

/// The coordinate of a field whose parent is not at hand.
pub open spec fn coordinate_of(field: FieldShape) -> Seq<char> {
    "<Type>."@ + field.name
}

/// Writes the coordinate of a field whose parent is not at hand.
pub fn field_coordinate(field: &FieldDefinition) -> (text: String)
    ensures
        text@ == coordinate_of(field@),
{
    "<Type>.".to_owned().concat(field.name.as_str())
}

/// The location of a node in a subgraph, where the node has one.
pub open spec fn node_location(
    location: Option<SourceSpan>,
    subgraph: Seq<char>,
    kind: ASTNodeKind,
) -> Seq<NodeRecord> {
    match location {
        Some(span) => seq![NodeRecord { location: span, subgraph, kind }],
        None => Seq::empty(),
    }
}

/// Lists the location of a node in a subgraph, where the node has one.
pub fn extract_ast_nodes_with_subgraph<T>(
    node: &Node<T>,
    subgraph_name: &str,
    node_kind: ASTNodeKind,
) -> (nodes: Vec<SubgraphASTNode>)
    ensures
        node_records(nodes@) == node_location(node.location, subgraph_name@, node_kind),
{
    let mut nodes: Vec<SubgraphASTNode> = Vec::new();
    if let Some(location) = node.location {
        nodes.push(
            SubgraphASTNode { location, subgraph: subgraph_name.to_owned(), kind: node_kind },
        );
    }
    assert(node_records(nodes@) =~= node_location(node.location, subgraph_name@, node_kind));
    nodes
}

/// The value of the first argument with the name `label` that is a string.
pub open spec fn label_argument(arguments: Seq<ArgumentShape>) -> Option<Seq<char>>
    decreases arguments.len(),
{
    if arguments.len() == 0 {
        None
    } else {
        match arguments[0].value {
            ValueShape::String(text) => if arguments[0].name == "label"@ {
                Some(text)
            } else {
                label_argument(arguments.skip(1))
            },
            ValueShape::Literal(_) => label_argument(arguments.skip(1)),
        }
    }
}

/// Finds the label of an `@override` application.
pub fn get_override_label(override_directive: &Directive) -> (label: Option<&String>)
    ensures
        match label {
            Some(text) => label_argument(override_directive@.arguments) == Some(text@),
            None => label_argument(override_directive@.arguments) is None,
        },
{
    let ghost all = override_directive@.arguments;
    let arguments = &override_directive.arguments;
    let mut i: usize = 0;
    assert(all.skip(0) =~= all);
    while i < arguments.len()
        invariant
            i <= arguments.len(),
            all == override_directive@.arguments,
            all == argument_shapes(arguments@),
            label_argument(all) == label_argument(all.skip(i as int)),
        decreases arguments.len() - i,
    {
        assert(all.skip(i as int)[0] == arguments@[i as int]@);
        assert(all.skip(i as int).skip(1) =~= all.skip(i + 1));
        if let Value::String(text) = &arguments[i].value {
            if same_text(arguments[i].name.as_str(), "label") {
                return Some(text);
            }
        }
        i += 1;
    }
    None
}

/// What each field of a list is.
pub open spec fn field_shapes(fields: Seq<FieldDefinition>) -> Seq<FieldShape> {
    fields.map_values(|f: FieldDefinition| f@)
}

/// What an optional field is.
pub open spec fn optional_field(field: Option<&FieldDefinition>) -> Option<FieldShape> {
    match field {
        Some(f) => Some(f@),
        None => None,
    }
}

/// The field by which a source subgraph abstracts a field of an interface: the supergraph has
/// the interface with the field, the source subgraph has an object of its name with it.
pub open spec fn abstracting_field(
    types: Seq<TypeDefinition>,
    source_types: Seq<TypeDefinition>,
    interface: Seq<char>,
    field: Seq<char>,
) -> Option<FieldShape> {
    match (find_type(types, interface), find_type(source_types, interface)) {
        (Some(ExtendedType::Interface(in_supergraph)), Some(ExtendedType::Object(in_source))) => {
            if find_field(in_supergraph.fields@, field) is Some {
                match find_field(in_source.fields@, field) {
                    Some(f) => Some(f@),
                    None => None,
                }
            } else {
                None
            }
        },
        _ => None,
    }
}

/// The fields by which a source subgraph abstracts a field of some interfaces.
pub open spec fn abstracting_fields(
    types: Seq<TypeDefinition>,
    source_types: Seq<TypeDefinition>,
    interfaces: Seq<Seq<char>>,
    field: Seq<char>,
) -> Seq<FieldShape>
    decreases interfaces.len(),
{
    if interfaces.len() == 0 {
        Seq::empty()
    } else {
        let rest = abstracting_fields(types, source_types, interfaces.drop_last(), field);
        match abstracting_field(types, source_types, interfaces.last(), field) {
            Some(f) => rest.push(f),
            None => rest,
        }
    }
}

impl Known {
    /// The name of a subgraph.
    pub open spec fn subgraph_name(self, subgraph: usize) -> Seq<char> {
        if subgraph < self.subgraphs.len() {
            self.subgraphs[subgraph as int].name@
        } else {
            "unknown"@
        }
    }

    /// Whether a field is external in a subgraph. Where the subgraph or the position of the field
    /// is not known, its directives decide.
    pub open spec fn is_external(self, subgraph: usize, field: FieldShape) -> bool {
        match self.position_of(field) {
            Some(place) => if subgraph < self.subgraphs.len() {
                self.subgraphs[subgraph as int].has_external_field(place)
            } else {
                applied(field.directives, FederationDirective::External) is Some
            },
            None => applied(field.directives, FederationDirective::External) is Some,
        }
    }

    /// Whether a federation directive or an interface needs a field in a subgraph.
    pub open spec fn is_used(self, subgraph: usize, place: FieldPlace) -> bool {
        subgraph < self.subgraphs.len() && self.subgraphs[subgraph as int].uses_field(place)
    }

    /// Whether the parent of a field is an object type that carries `@interfaceObject`.
    pub open spec fn is_on_interface_object(self, subgraph: usize, place: FieldPlace) -> bool {
        match place {
            FieldPlace::Object(typename, _) => subgraph < self.subgraphs.len()
                && self.subgraphs[subgraph as int].has_interface_object(typename, TypeKind::Object),
            _ => false,
        }
    }

    /// The first `@override` application of a field, in a Federation 2 subgraph.
    pub open spec fn override_application(self, subgraph: usize, field: FieldShape) -> Option<
        LocatedDirective,
    > {
        if subgraph < self.subgraphs.len() && self.subgraphs[subgraph as int].is_fed_2_schema {
            applied(field.directives, FederationDirective::Override)
        } else {
            None
        }
    }

    /// The fields by which a source subgraph that does not have the parent type abstracts a field.
    pub open spec fn abstracting(self, field: FieldShape, source: usize) -> Seq<FieldShape> {
        match self.position_of(field) {
            Some(FieldPlace::Object(parent, _) | FieldPlace::Interface(parent, _)) => {
                if source < self.subgraphs.len() && !self.subgraphs[source as int].schema.has_type(
                    parent,
                ) {
                    match find_type(self.types, parent) {
                        Some(ExtendedType::Object(t)) => abstracting_fields(
                            self.types,
                            self.subgraphs[source as int].schema.types@,
                            texts(t.implements_interfaces@),
                            field.name,
                        ),
                        _ => Seq::empty(),
                    }
                } else {
                    Seq::empty()
                }
            },
            _ => Seq::empty(),
        }
    }

    /// The directive that does not go with `@override`, and the subgraph that applies it:
    /// `@requires` or `@provides` on the overridden field, or `@external` on the overriding one.
    pub open spec fn conflict(
        self,
        subgraph: usize,
        field: Option<FieldShape>,
        subgraph_name: Seq<char>,
        source: usize,
        source_field: Option<FieldShape>,
    ) -> Option<(Seq<char>, Seq<char>)> {
        if source_field is Some && applied(
            source_field->0.directives,
            FederationDirective::Requires,
        ) is Some {
            Some((FederationDirective::Requires.name_text(), self.subgraph_name(source)))
        } else if source_field is Some && applied(
            source_field->0.directives,
            FederationDirective::Provides,
        ) is Some {
            Some((FederationDirective::Provides.name_text(), self.subgraph_name(source)))
        } else if field is Some && self.is_external(subgraph, field->0) {
            Some((FederationDirective::External.name_text(), subgraph_name))
        } else {
            None
        }
    }
}

/// The directive that does not go with an `@override`, and the subgraph that applies it.
#[derive(Debug)]
pub struct OverrideConflictResult {
    pub has_incompatible: bool,
    pub conflicting_directive: Option<String>,
    pub subgraph: Option<String>,
}

impl Merger {
    /// Whether a field is external in a subgraph.
    pub fn is_external(&self, subgraph_idx: usize, field: &FieldDefinition) -> (external: bool)
        ensures
            external == self.known().is_external(subgraph_idx, field@),
    {
        if subgraph_idx < self.subgraphs.len() {
            if let Some(position) = self.get_field_position(field) {
                return self.subgraphs[subgraph_idx].is_field_external(position);
            }
        }
        self.is_external_directive_fallback(field)
    }

    /// Whether a field carries `@external`.
    pub fn is_external_directive_fallback(&self, field: &FieldDefinition) -> (external: bool)
        ensures
            external == (applied(field@.directives, FederationDirective::External) is Some),
    {
        has_application(&field.directives, FederationDirective::External)
    }

    /// Whether a field is needed in a subgraph.
    pub fn is_field_used(&self, subgraph_idx: usize, position: &FieldDefinitionPosition) -> (used:
        bool)
        ensures
            used == self.known().is_used(subgraph_idx, position@),
    {
        subgraph_idx < self.subgraphs.len() && self.subgraphs[subgraph_idx].is_field_used(position)
    }

    /// Whether a field is a field of an interface.
    pub fn is_interface_field(&self, position: &FieldDefinitionPosition) -> (found: bool)
        ensures
            found == (position@ is Interface),
    {
        matches!(position, FieldDefinitionPosition::Interface(_))
    }

    /// Whether the parent of a field is an object type that carries `@interfaceObject`.
    pub fn is_interface_object(
        &self,
        subgraph_idx: usize,
        position: &FieldDefinitionPosition,
    ) -> (found: bool)
        ensures
            found == self.known().is_on_interface_object(subgraph_idx, position@),
    {
        if subgraph_idx < self.subgraphs.len() {
            if let FieldDefinitionPosition::Object(field) = position {
                return self.subgraphs[subgraph_idx].is_interface_object_type(
                    field.typename.as_str(),
                    TypeKind::Object,
                );
            }
        }
        false
    }

    /// Finds the `@override` application of a field, in a Federation 2 subgraph.
    pub fn get_override_directive<'a>(
        &self,
        subgraph_idx: usize,
        field: &'a FieldDefinition,
    ) -> (found: Option<&'a Node<Directive>>)
        ensures
            match found {
                Some(directive) => self.known().override_application(subgraph_idx, field@)
                    == Some(located(*directive)),
                None => self.known().override_application(subgraph_idx, field@) is None,
            },
    {
        if subgraph_idx < self.subgraphs.len() && self.subgraphs[subgraph_idx].is_fed_2_schema {
            find_application(&field.directives, FederationDirective::Override)
        } else {
            None
        }
    }

    /// Suggests the names of subgraphs that are most similar to the target.
    pub fn suggest_similar_subgraph_names(&self, target: &str) -> (selected: Vec<String>)
        ensures
            texts(selected@) == suggestions(
                target@,
                self.known().subgraphs.map_values(|s: Subgraph| s.name@),
            ),
    {
        let mut available: Vec<&str> = Vec::new();
        let mut i: usize = 0;
        while i < self.subgraphs.len()
            invariant
                i <= self.subgraphs.len(),
                available.len() == i,
                forall|j: int|
                    0 <= j < i ==> (#[trigger] available@[j])@ == self.subgraphs@[j].name@,
            decreases self.subgraphs.len() - i,
        {
            available.push(self.subgraphs[i].name.as_str());
            i += 1;
        }
        assert(slice_texts(available@) =~= self.subgraphs@.map_values(|s: Subgraph| s.name@));
        suggest_similar_subgraph_names_impl(target, &available)
    }

    /// Lists the fields by which a source subgraph that does not have the parent type abstracts a
    /// field.
    pub fn fields_in_source_if_abstracted_by_interface_object_impl(
        &self,
        dest_field: &FieldDefinition,
        source_idx: usize,
    ) -> (fields: Vec<FieldDefinition>)
        ensures
            field_shapes(fields@) == self.known().abstracting(dest_field@, source_idx),
    {
        let mut fields: Vec<FieldDefinition> = Vec::new();
        assert(field_shapes(fields@) =~= Seq::<FieldShape>::empty());
        let parent = match self.get_field_position(dest_field) {
            Some(FieldDefinitionPosition::Object(position)) => &position.typename,
            Some(FieldDefinitionPosition::Interface(position)) => &position.typename,
            _ => {
                return fields;
            },
        };
        if source_idx >= self.subgraphs.len() {
            return fields;
        }
        let source = &self.subgraphs[source_idx].schema;
        if source.get_type(parent.as_str()).is_some() {
            return fields;
        }
        let interfaces = match self.merged.get_type(parent.as_str()) {
            Some(ExtendedType::Object(object)) => &object.implements_interfaces,
            _ => {
                return fields;
            },
        };
        let ghost all = texts(interfaces@);
        let mut i: usize = 0;
        assert(all.take(0) =~= Seq::<Seq<char>>::empty());
        while i < interfaces.len()
            invariant
                i <= interfaces.len(),
                all == texts(interfaces@),
                field_shapes(fields@) == abstracting_fields(
                    self.merged.types@,
                    source.types@,
                    all.take(i as int),
                    dest_field@.name,
                ),
            decreases interfaces.len() - i,
        {
            assert(all.take(i + 1).drop_last() =~= all.take(i as int));
            assert(all.take(i + 1).last() == interfaces@[i as int]@);
            let ghost before = field_shapes(fields@);
            let name = interfaces[i].as_str();
            if let (
                Some(ExtendedType::Interface(in_supergraph)),
                Some(ExtendedType::Object(in_source)),
            ) = (self.merged.get_type(name), source.get_type(name)) {
                if lookup_field(&in_supergraph.fields, dest_field.name.as_str()).is_some() {
                    if let Some(field) = lookup_field(&in_source.fields, dest_field.name.as_str()) {
                        fields.push(field.clone());
                        assert(field_shapes(fields@) =~= before.push(field@));
                    }
                }
            }
            i += 1;
        }
        assert(all.take(interfaces.len() as int) =~= all);
        fields
    }

    /// Finds a directive that does not go with `@override`: `@requires` or `@provides` on the
    /// overridden field, or `@external` on the overriding one.
    pub fn override_conflicts_with_other_directive(
        &self,
        idx: usize,
        field: Option<&FieldDefinition>,
        subgraph_name: &str,
        from_idx: usize,
        from_field: Option<&FieldDefinition>,
    ) -> (result: OverrideConflictResult)
        ensures
            match self.known().conflict(
                idx,
                optional_field(field),
                subgraph_name@,
                from_idx,
                optional_field(from_field),
            ) {
                Some((directive, subgraph)) => result.has_incompatible && optional_text(
                    result.conflicting_directive,
                ) == Some(directive) && optional_text(result.subgraph) == Some(subgraph),
                None => !result.has_incompatible && result.conflicting_directive is None
                    && result.subgraph is None,
            },
    {
        let source_name = if from_idx < self.subgraphs.len() {
            self.subgraphs[from_idx].name.clone()
        } else {
            "unknown".to_owned()
        };
        if let Some(from_field) = from_field {
            if has_application(&from_field.directives, FederationDirective::Requires) {
                return OverrideConflictResult {
                    has_incompatible: true,
                    conflicting_directive: Some(
                        FederationDirective::Requires.conflict_name().to_owned(),
                    ),
                    subgraph: Some(source_name),
                };
            }
            if has_application(&from_field.directives, FederationDirective::Provides) {
                return OverrideConflictResult {
                    has_incompatible: true,
                    conflicting_directive: Some(
                        FederationDirective::Provides.conflict_name().to_owned(),
                    ),
                    subgraph: Some(source_name),
                };
            }
        }
        if let Some(field) = field {
            if self.is_external(idx, field) {
                return OverrideConflictResult {
                    has_incompatible: true,
                    conflicting_directive: Some(
                        FederationDirective::External.conflict_name().to_owned(),
                    ),
                    subgraph: Some(subgraph_name.to_owned()),
                };
            }
        }
        OverrideConflictResult {
            has_incompatible: false,
            conflicting_directive: None,
            subgraph: None,
        }
    }
}

/// What a subgraph provides for a field, as far as `@override` is concerned.
pub struct SourceInfo {
    pub subgraph: usize,
    pub field: Option<FieldShape>,
    pub on_interface: bool,
    pub on_interface_object: bool,
    /// The `@override` application.
    pub directive: Option<LocatedDirective>,
    /// The fields by which the subgraph abstracts a field that it does not have.
    pub abstracting: Seq<FieldShape>,
}

/// What a subgraph provides for a field, as far as `@override` is concerned.
#[derive(Debug)]
pub struct MappedValue<'a> {
    pub idx: usize,
    pub field: Option<&'a FieldDefinition>,
    pub is_interface_field: bool,
    pub is_interface_object: bool,
    pub override_directive: Option<&'a Node<Directive>>,
    pub interface_object_abstracting_fields: Vec<FieldDefinition>,
}

impl<'a> View for MappedValue<'a> {
    type V = SourceInfo;

    open spec fn view(&self) -> SourceInfo {
        SourceInfo {
            subgraph: self.idx,
            field: optional_field(self.field),
            on_interface: self.is_interface_field,
            on_interface_object: self.is_interface_object,
            directive: match self.override_directive {
                Some(directive) => Some(located(*directive)),
                None => None,
            },
            abstracting: field_shapes(self.interface_object_abstracting_fields@),
        }
    }
}

/// What each subgraph of a list provides.
pub open spec fn source_infos<'a>(infos: Seq<MappedValue<'a>>) -> Seq<SourceInfo> {
    infos.map_values(|i: MappedValue<'a>| i@)
}

/// What the field of each source is.
pub open spec fn field_sources(sources: Seq<(usize, Option<Node<FieldDefinition>>)>) -> Seq<
    (usize, Option<FieldShape>),
> {
    sources.map_values(
        |s: (usize, Option<Node<FieldDefinition>>)|
            (
                s.0,
                match s.1 {
                    Some(field) => Some(field.node@),
                    None => None,
                },
            ),
    )
}

/// Whether a field with the name carries `@override` in some subgraph.
pub open spec fn is_overridden_somewhere(fields: Seq<Target>, name: Seq<char>) -> bool {
    exists|i: int|
        0 <= i < fields.len() && match #[trigger] fields[i] {
            Target::ObjectField(_, field) => field == name,
            Target::InterfaceField(_, field) => field == name,
            Target::Element(_) => false,
        }
}

impl Known {
    /// What a subgraph provides for a field; nothing where it neither has nor abstracts the field.
    pub open spec fn source_info(
        self,
        subgraph: usize,
        field: Option<FieldShape>,
        dest: FieldShape,
    ) -> Option<SourceInfo> {
        match field {
            Some(f) => Some(
                SourceInfo {
                    subgraph,
                    field: Some(f),
                    on_interface: self.position_of(f) matches Some(FieldPlace::Interface(_, _)),
                    on_interface_object: self.position_of(f) is Some
                        && self.is_on_interface_object(subgraph, self.position_of(f)->0),
                    directive: self.override_application(subgraph, f),
                    abstracting: Seq::empty(),
                },
            ),
            None => if self.abstracting(dest, subgraph).len() == 0 {
                None
            } else {
                Some(
                    SourceInfo {
                        subgraph,
                        field: None,
                        on_interface: false,
                        on_interface_object: false,
                        directive: None,
                        abstracting: self.abstracting(dest, subgraph),
                    },
                )
            },
        }
    }

    /// What each subgraph provides for a field, in order.
    pub open spec fn infos(
        self,
        sources: Seq<(usize, Option<FieldShape>)>,
        dest: FieldShape,
    ) -> Seq<SourceInfo>
        decreases sources.len(),
    {
        if sources.len() == 0 {
            Seq::empty()
        } else {
            let rest = self.infos(sources.drop_last(), dest);
            match self.source_info(sources.last().0, sources.last().1, dest) {
                Some(info) => rest.push(info),
                None => rest,
            }
        }
    }

    /// The names of the subgraphs that override a field, each once, in order.
    pub open spec fn overriding(self, infos: Seq<SourceInfo>) -> Seq<Seq<char>>
        decreases infos.len(),
    {
        if infos.len() == 0 {
            Seq::empty()
        } else if infos.last().directive is Some {
            with_distinct(
                self.overriding(infos.drop_last()),
                self.names[infos.last().subgraph as int],
            )
        } else {
            self.overriding(infos.drop_last())
        }
    }

    /// What the last subgraph with the name provides.
    pub open spec fn info_named(self, infos: Seq<SourceInfo>, name: Seq<char>) -> Option<SourceInfo>
        decreases infos.len(),
    {
        if infos.len() == 0 {
            None
        } else if self.names[infos.last().subgraph as int] == name {
            Some(infos.last())
        } else {
            self.info_named(infos.drop_last(), name)
        }
    }
}

impl Merger {
    /// Collects what a subgraph provides for a field.
    fn map_source<'a>(
        &self,
        subgraph_idx: usize,
        field: &'a Option<Node<FieldDefinition>>,
        dest: &FieldDefinition,
    ) -> (info: Option<MappedValue<'a>>)
        ensures
            match info {
                Some(value) => self.known().source_info(
                    subgraph_idx,
                    match *field {
                        Some(f) => Some(f.node@),
                        None => None,
                    },
                    dest@,
                ) == Some(value@),
                None => self.known().source_info(
                    subgraph_idx,
                    match *field {
                        Some(f) => Some(f.node@),
                        None => None,
                    },
                    dest@,
                ) is None,
            },
    {
        match field {
            Some(field) => {
                let (is_interface_field, is_interface_object) = match self.get_field_position(
                    &field.node,
                ) {
                    Some(position) => (
                        self.is_interface_field(position),
                        self.is_interface_object(subgraph_idx, position),
                    ),
                    None => (false, false),
                };
                let value = MappedValue {
                    idx: subgraph_idx,
                    field: Some(&field.node),
                    is_interface_field,
                    is_interface_object,
                    override_directive: self.get_override_directive(subgraph_idx, &field.node),
                    interface_object_abstracting_fields: Vec::new(),
                };
                assert(value@.abstracting =~= Seq::<FieldShape>::empty());
                Some(value)
            },
            None => {
                let fields = self.fields_in_source_if_abstracted_by_interface_object_impl(
                    dest,
                    subgraph_idx,
                );
                assert(fields@.len() == field_shapes(fields@).len());
                if fields.len() == 0 {
                    return None;
                }
                Some(
                    MappedValue {
                        idx: subgraph_idx,
                        field: None,
                        is_interface_field: false,
                        is_interface_object: false,
                        override_directive: None,
                        interface_object_abstracting_fields: fields,
                    },
                )
            },
        }
    }

    /// Collects what each subgraph provides for a field.
    fn map_override_sources<'a>(
        &self,
        sources: &'a Sources<Node<FieldDefinition>>,
        dest: &FieldDefinition,
    ) -> (infos: Vec<MappedValue<'a>>)
        requires
            sources.well_formed(),
            forall|i: int| 0 <= i < sources@.len() ==> (#[trigger] sources@[i]).0 < self.names.len(),
        ensures
            source_infos(infos@) == self.known().infos(field_sources(sources@), dest@),
            forall|i: int| 0 <= i < infos@.len() ==> (#[trigger] infos@[i]).idx < self.names.len(),
    {
        let ghost all = field_sources(sources@);
        let mut infos: Vec<MappedValue<'a>> = Vec::new();
        let mut i: usize = 0;
        assert(all.take(0) =~= Seq::<(usize, Option<FieldShape>)>::empty());
        assert(source_infos(infos@) =~= Seq::<SourceInfo>::empty());
        while i < sources.len()
            invariant
                i <= sources@.len(),
                all == field_sources(sources@),
                sources.well_formed(),
                forall|j: int|
                    0 <= j < sources@.len() ==> (#[trigger] sources@[j]).0 < self.names.len(),
                source_infos(infos@) == self.known().infos(all.take(i as int), dest@),
                forall|j: int|
                    0 <= j < infos@.len() ==> (#[trigger] infos@[j]).idx < self.names.len(),
            decreases sources@.len() - i,
        {
            assert(all.take(i + 1).drop_last() =~= all.take(i as int));
            let ghost before = infos@;
            if let Some(info) = self.map_source(sources.key_at(i), sources.item_at(i), dest) {
                infos.push(info);
                assert(source_infos(infos@) =~= source_infos(before).push(info@));
            }
            i += 1;
        }
        assert(all.take(all.len() as int) =~= all);
        infos
    }

    /// Lists the names of the subgraphs that override a field.
    fn list_overriding<'a>(&self, infos: &Vec<MappedValue<'a>>) -> (names: Vec<String>)
        requires
            forall|i: int| 0 <= i < infos@.len() ==> (#[trigger] infos@[i]).idx < self.names.len(),
        ensures
            texts(names@) == self.known().overriding(source_infos(infos@)),
    {
        let ghost all = source_infos(infos@);
        let mut names: Vec<String> = Vec::new();
        let mut i: usize = 0;
        assert(all.take(0) =~= Seq::<SourceInfo>::empty());
        assert(texts(names@) =~= Seq::<Seq<char>>::empty());
        while i < infos.len()
            invariant
                i <= infos.len(),
                all == source_infos(infos@),
                forall|j: int|
                    0 <= j < infos@.len() ==> (#[trigger] infos@[j]).idx < self.names.len(),
                texts(names@) == self.known().overriding(all.take(i as int)),
            decreases infos.len() - i,
        {
            assert(all.take(i + 1).drop_last() =~= all.take(i as int));
            assert(all.take(i + 1).last() == infos@[i as int]@);
            let ghost before = names@;
            if infos[i].override_directive.is_some() {
                let name = &self.names[infos[i].idx];
                if !contains_text(&names, name.as_str()) {
                    names.push(name.clone());
                    assert(texts(names@) =~= texts(before).push(name@));
                }
            }
            i += 1;
        }
        assert(all.take(infos.len() as int) =~= all);
        names
    }

    /// Finds what the last subgraph with the name provides.
    fn find_info<'a, 'b>(&self, infos: &'b Vec<MappedValue<'a>>, name: &str) -> (found: Option<
        &'b MappedValue<'a>,
    >)
        requires
            forall|i: int| 0 <= i < infos@.len() ==> (#[trigger] infos@[i]).idx < self.names.len(),
        ensures
            match found {
                Some(info) => self.known().info_named(source_infos(infos@), name@) == Some(info@),
                None => self.known().info_named(source_infos(infos@), name@) is None,
            },
    {
        let ghost all = source_infos(infos@);
        let mut i: usize = infos.len();
        assert(all.take(infos.len() as int) =~= all);
        while i > 0
            invariant
                i <= infos.len(),
                all == source_infos(infos@),
                forall|j: int|
                    0 <= j < infos@.len() ==> (#[trigger] infos@[j]).idx < self.names.len(),
                self.known().info_named(all, name@) == self.known().info_named(
                    all.take(i as int),
                    name@,
                ),
            decreases i,
        {
            assert(all.take(i as int).drop_last() =~= all.take(i - 1));
            assert(all.take(i as int).last() == infos@[i - 1]@);
            i -= 1;
            if same_text(self.names[infos[i].idx].as_str(), name) {
                return Some(&infos[i]);
            }
        }
        None
    }
}

/// What has been found out about the overrides of a field.
pub struct OverrideState {
    pub report: Report,
    pub context: Seq<(usize, FieldProperties)>,
}

impl OverrideState {
    /// The state with one more error.
    pub open spec fn with_error(self, kind: ErrorKind, message: Seq<char>) -> OverrideState {
        OverrideState { report: self.report.with_error(plain_error(kind, message)), ..self }
    }

    /// The state with one more hint.
    pub open spec fn with_hint(
        self,
        code: Seq<char>,
        text: Seq<char>,
        nodes: Seq<NodeRecord>,
    ) -> OverrideState {
        OverrideState { report: self.report.with_hint(hint_record(code, text, nodes)), ..self }
    }
}

/// An override of a field that another subgraph has.
pub struct Override {
    /// The name of the subgraph that overrides the field.
    pub subgraph_name: Seq<char>,
    /// The subgraph that is overridden.
    pub source: usize,
    pub source_name: Seq<char>,
    /// The field in the subgraph that is overridden.
    pub source_field: FieldShape,
    /// The coordinate of the field.
    pub coordinate: Seq<char>,
    /// Whether the overridden field is still needed.
    pub is_referenced: bool,
    pub label: Option<Seq<char>>,
    /// Where the `@override` application stands.
    pub nodes: Seq<NodeRecord>,
}

impl Known {
    /// The state after the overridden field is marked. An external field is not marked: it is
    /// not resolved by its subgraph anyway.
    pub open spec fn marked(self, valid: Override, state: OverrideState) -> OverrideState {
        if self.is_external(valid.source, valid.source_field) {
            state.with_hint(
                OverrideHintCode::OverrideDirectiveCanBeRemoved.code_text(),
                not_resolved(valid.coordinate, valid.subgraph_name, valid.source_name),
                valid.nodes,
            )
        } else {
            let marked = OverrideState {
                context: if valid.is_referenced {
                    with_used_overridden(state.context, valid.source)
                } else {
                    with_unused_overridden(state.context, valid.source)
                },
                ..state
            };
            if valid.label is None {
                marked.with_hint(
                    OverrideHintCode::OverriddenFieldCanBeRemoved.code_text(),
                    overridden(valid.coordinate, valid.source_name, valid.is_referenced),
                    valid.nodes,
                )
            } else {
                marked
            }
        }
    }
}

/// The state after the label of an override by a subgraph is looked at.
pub open spec fn labelled(valid: Override, subgraph: usize, state: OverrideState) ->
    OverrideState {
    match valid.label {
        Some(label) => {
            let checked = if is_valid_label(label) {
                OverrideState {
                    context: with_label(
                        with_label(state.context, subgraph, label),
                        valid.source,
                        label,
                    ),
                    ..state
                }
            } else {
                state.with_error(
                    ErrorKind::OverrideLabelInvalid,
                    invalid_label(label, valid.coordinate, valid.subgraph_name),
                )
            };
            checked.with_hint(
                MIGRATION_CODE@,
                migration(valid.coordinate, valid.source_name, valid.is_referenced),
                valid.nodes,
            )
        },
        None => state,
    }
}

/// The names of the types of some fields, where they are known.
pub open spec fn parent_names(known: Known, fields: Seq<FieldShape>) -> Seq<Seq<char>>
    decreases fields.len(),
{
    if fields.len() == 0 {
        Seq::empty()
    } else {
        let rest = parent_names(known, fields.drop_last());
        match known.position_of(fields.last()) {
            Some(FieldPlace::Object(typename, _)) => rest.push(typename),
            Some(FieldPlace::Interface(typename, _)) => rest.push(typename),
            Some(FieldPlace::Union(_)) => rest.push("unknown"@),
            None => rest,
        }
    }
}

impl Known {
    /// The state after a subgraph that overrides a field is held against the subgraph that it
    /// overrides.
    pub open spec fn source_checked(
        self,
        infos: Seq<SourceInfo>,
        dest: FieldShape,
        info: SourceInfo,
        directive: LocatedDirective,
        name: Seq<char>,
        source: Seq<char>,
        state: OverrideState,
    ) -> OverrideState {
        let field = coordinate_of(dest);
        let nodes = node_location(directive.location, name, ASTNodeKind::Directive);
        if subgraph_named(self.subgraphs, source) is None {
            let question = did_you_mean(
                suggestions(source, self.subgraphs.map_values(|s: Subgraph| s.name@)),
            );
            OverrideState {
                context: with_unknown_target(state.context, info.subgraph),
                ..state
            }.with_hint(
                OverrideHintCode::FromSubgraphDoesNotExist.code_text(),
                unknown_source(source, field, name, question),
                nodes,
            )
        } else if source == name {
            state.with_error(ErrorKind::OverrideFromSelfError, from_self(source, field))
        } else if self.overriding(infos).contains(source) {
            state.with_error(
                ErrorKind::DirectiveDefinitionInvalid,
                also_overridden(field, name, source),
            )
        } else {
            match self.info_named(infos, source) {
                None => state.with_hint(
                    OverrideHintCode::OverrideDirectiveCanBeRemoved.code_text(),
                    field_gone(field, name),
                    nodes,
                ),
                Some(from) => self.field_checked(dest, info, directive, name, source, from, state),
            }
        }
    }

    /// The state after a field that a subgraph overrides is held against the field that it
    /// overrides.
    pub open spec fn field_checked(
        self,
        dest: FieldShape,
        info: SourceInfo,
        directive: LocatedDirective,
        name: Seq<char>,
        source: Seq<char>,
        from: SourceInfo,
        state: OverrideState,
    ) -> OverrideState {
        let field = coordinate_of(dest);
        let source_idx = subgraph_named(self.subgraphs, source)->0 as usize;
        if from.abstracting.len() > 0 {
            state.with_error(
                ErrorKind::DirectiveDefinitionInvalid,
                abstracted(
                    field,
                    name,
                    source,
                    printed_types(parent_names(self, from.abstracting)),
                ),
            )
        } else {
            match self.conflict(info.subgraph, info.field, name, source_idx, from.field) {
                Some((conflicting, carrier)) => state.with_error(
                    ErrorKind::OverrideCollisionWithAnotherDirective,
                    collision(
                        match from.field {
                            Some(f) => coordinate_of(f),
                            None => field,
                        },
                        name,
                        field,
                        carrier,
                        conflicting,
                    ),
                ),
                None => match from.field {
                    Some(source_field) => {
                        let valid = Override {
                            subgraph_name: name,
                            source: from.subgraph,
                            source_name: source,
                            source_field,
                            coordinate: field,
                            is_referenced: self.position_of(source_field) is Some && self.is_used(
                                from.subgraph,
                                self.position_of(source_field)->0,
                            ),
                            label: label_argument(directive.directive.arguments),
                            nodes: node_location(directive.location, name, ASTNodeKind::Directive),
                        };
                        labelled(valid, info.subgraph, self.marked(valid, state))
                    },
                    None => state,
                },
            }
        }
    }

    /// The state after a subgraph that overrides a field is looked at.
    pub open spec fn override_checked(
        self,
        infos: Seq<SourceInfo>,
        dest: FieldShape,
        name: Seq<char>,
        state: OverrideState,
    ) -> OverrideState {
        match self.info_named(infos, name) {
            Some(info) => match info.directive {
                Some(directive) => if info.on_interface {
                    state.with_error(
                        ErrorKind::OverrideOnInterface,
                        on_interface(coordinate_of(dest), name),
                    )
                } else if info.on_interface_object {
                    state.with_error(
                        ErrorKind::DirectiveDefinitionInvalid,
                        on_interface_object(coordinate_of(dest), name),
                    )
                } else {
                    match argument_named(directive.directive.arguments, "from"@) {
                        Some(ValueShape::String(source)) => self.source_checked(
                            infos,
                            dest,
                            info,
                            directive,
                            name,
                            source,
                            state,
                        ),
                        _ => state,
                    }
                },
                None => state,
            },
            None => state,
        }
    }

    /// The state after some of the subgraphs that override a field are looked at.
    pub open spec fn overrides_checked(
        self,
        infos: Seq<SourceInfo>,
        dest: FieldShape,
        names: Seq<Seq<char>>,
        state: OverrideState,
    ) -> OverrideState
        decreases names.len(),
    {
        if names.len() == 0 {
            state
        } else {
            self.override_checked(
                infos,
                dest,
                names.last(),
                self.overrides_checked(infos, dest, names.drop_last(), state),
            )
        }
    }

    /// The state after the overrides of a field are validated. Nothing is looked at where no field
    /// of its name carries `@override`.
    pub open spec fn validated(
        self,
        overridden: Seq<Target>,
        sources: Seq<(usize, Option<FieldShape>)>,
        dest: FieldShape,
        report: Report,
    ) -> OverrideState {
        let start = OverrideState { report, context: Seq::empty() };
        if is_overridden_somewhere(overridden, dest.name) {
            let infos = self.infos(sources, dest);
            self.overrides_checked(infos, dest, self.overriding(infos), start)
        } else {
            start
        }
    }
}

/// The override that a field takes part in.
#[derive(Debug)]
pub struct OverrideValidationParams<'a> {
    pub from_idx: usize,
    pub source_field: &'a FieldDefinition,
    pub dest: &'a FieldDefinition,
    pub subgraph_name: &'a str,
    pub source_subgraph_name: &'a str,
    pub overridden_field_is_referenced: bool,
    pub override_label: Option<&'a String>,
    pub override_directive: &'a Node<Directive>,
}

impl<'a> View for OverrideValidationParams<'a> {
    type V = Override;

    open spec fn view(&self) -> Override {
        Override {
            subgraph_name: self.subgraph_name@,
            source: self.from_idx,
            source_name: self.source_subgraph_name@,
            source_field: self.source_field@,
            coordinate: coordinate_of(self.dest@),
            is_referenced: self.overridden_field_is_referenced,
            label: match self.override_label {
                Some(label) => Some(label@),
                None => None,
            },
            nodes: node_location(
                self.override_directive.location,
                self.subgraph_name@,
                ASTNodeKind::Directive,
            ),
        }
    }
}

/// Whether a field with the name carries `@override` in some subgraph.
fn has_override_somewhere(fields: &Vec<DirectiveTargetPosition>, name: &str) -> (found: bool)
    ensures
        found == is_overridden_somewhere(targets(fields@), name@),
{
    let ghost all = targets(fields@);
    let mut i: usize = 0;
    while i < fields.len()
        invariant
            i <= fields.len(),
            all == targets(fields@),
            forall|j: int|
                0 <= j < i ==> !match #[trigger] all[j] {
                    Target::ObjectField(_, field) => field == name@,
                    Target::InterfaceField(_, field) => field == name@,
                    Target::Element(_) => false,
                },
        decreases fields.len() - i,
    {
        assert(all[i as int] == fields@[i as int]@);
        let found = match &fields[i] {
            DirectiveTargetPosition::ObjectField(field) => same_text(
                field.field_name.as_str(),
                name,
            ),
            DirectiveTargetPosition::InterfaceField(field) => same_text(
                field.field_name.as_str(),
                name,
            ),
            DirectiveTargetPosition::Element(_) => false,
        };
        if found {
            return true;
        }
        i += 1;
    }
    false
}

impl Merger {
    /// What has been found out so far.
    pub open spec fn override_state(&self, context: FieldMergeContext) -> OverrideState {
        OverrideState { report: self.error_reporter@, context: context@ }
    }

    /// Adds an error about `@override`.
    fn add_override_error(&mut self, kind: ErrorKind, message: String)
        ensures
            final(self).error_reporter@ == old(self).error_reporter@.with_error(
                plain_error(kind, message@),
            ),
            *final(self) == (Merger { error_reporter: final(self).error_reporter, ..*old(self) }),
    {
        self.error_reporter.add_error(CompositionError::new(kind, message));
    }

    /// Adds a hint about an `@override` application.
    fn add_override_hint(
        &mut self,
        code: &str,
        text: String,
        directive: &Node<Directive>,
        subgraph_name: &str,
    )
        ensures
            final(self).error_reporter@ == old(self).error_reporter@.with_hint(
                hint_record(
                    code@,
                    text@,
                    node_location(directive.location, subgraph_name@, ASTNodeKind::Directive),
                ),
            ),
            *final(self) == (Merger { error_reporter: final(self).error_reporter, ..*old(self) }),
    {
        let nodes = extract_ast_nodes_with_subgraph(
            directive,
            subgraph_name,
            ASTNodeKind::Directive,
        );
        self.error_reporter.add_hint(
            CompositionHint::with_ast_nodes(text, code.to_owned(), nodes),
        );
    }

    /// Marks the overridden field as used or unused, and reports what can be removed.
    pub fn handle_override_field_validation<'a>(
        &mut self,
        params: &OverrideValidationParams<'a>,
        merge_context: &mut FieldMergeContext,
    )
        requires
            old(merge_context).well_formed(),
        ensures
            final(merge_context).well_formed(),
            final(self).override_state(*final(merge_context)) == old(self).known().marked(
                params@,
                old(self).override_state(*old(merge_context)),
            ),
            *final(self) == (Merger { error_reporter: final(self).error_reporter, ..*old(self) }),
    {
        let coordinate = field_coordinate(params.dest);
        if self.is_external(params.from_idx, params.source_field) {
            self.add_override_hint(
                OverrideHintCode::OverrideDirectiveCanBeRemoved.as_str(),
                write_not_resolved(
                    coordinate.as_str(),
                    params.subgraph_name,
                    params.source_subgraph_name,
                ),
                params.override_directive,
                params.subgraph_name,
            );
            return;
        }
        if params.overridden_field_is_referenced {
            merge_context.set_used_overridden(params.from_idx);
        } else {
            merge_context.set_unused_overridden(params.from_idx);
        }
        if params.override_label.is_none() {
            self.add_override_hint(
                OverrideHintCode::OverriddenFieldCanBeRemoved.as_str(),
                write_overridden(
                    coordinate.as_str(),
                    params.source_subgraph_name,
                    params.overridden_field_is_referenced,
                ),
                params.override_directive,
                params.subgraph_name,
            );
        }
    }

    /// Sets the label of an override by a subgraph, or reports that it is not valid; then reports
    /// the migration.
    fn handle_override_label<'a>(
        &mut self,
        subgraph_idx: usize,
        params: &OverrideValidationParams<'a>,
        merge_context: &mut FieldMergeContext,
    )
        requires
            old(merge_context).well_formed(),
        ensures
            final(merge_context).well_formed(),
            final(self).override_state(*final(merge_context)) == labelled(
                params@,
                subgraph_idx,
                old(self).override_state(*old(merge_context)),
            ),
            *final(self) == (Merger { error_reporter: final(self).error_reporter, ..*old(self) }),
    {
        if let Some(label) = params.override_label {
            let coordinate = field_coordinate(params.dest);
            if is_valid_override_label_complete(label.as_str()) {
                merge_context.set_override_label(subgraph_idx, label.clone());
                merge_context.set_override_label(params.from_idx, label.clone());
            } else {
                self.add_override_error(
                    ErrorKind::OverrideLabelInvalid,
                    write_invalid_label(label.as_str(), coordinate.as_str(), params.subgraph_name),
                );
            }
            self.add_override_hint(
                MIGRATION_CODE,
                write_migration(
                    coordinate.as_str(),
                    params.source_subgraph_name,
                    params.overridden_field_is_referenced,
                ),
                params.override_directive,
                params.subgraph_name,
            );
        }
    }

    /// Puts the types of some fields into words.
    fn print_parent_types(&self, fields: &Vec<FieldDefinition>) -> (text: String)
        ensures
            text@ == printed_types(parent_names(self.known(), field_shapes(fields@))),
    {
        let ghost all = field_shapes(fields@);
        let mut names: Vec<&str> = Vec::new();
        let mut i: usize = 0;
        assert(all.take(0) =~= Seq::<FieldShape>::empty());
        assert(slice_texts(names@) =~= Seq::<Seq<char>>::empty());
        while i < fields.len()
            invariant
                i <= fields.len(),
                all == field_shapes(fields@),
                slice_texts(names@) == parent_names(self.known(), all.take(i as int)),
            decreases fields.len() - i,
        {
            assert(all.take(i + 1).drop_last() =~= all.take(i as int));
            assert(all.take(i + 1).last() == fields@[i as int]@);
            let ghost before = names@;
            if let Some(position) = self.get_field_position(&fields[i]) {
                let name = match position {
                    FieldDefinitionPosition::Object(field) => field.typename.as_str(),
                    FieldDefinitionPosition::Interface(field) => field.typename.as_str(),
                    FieldDefinitionPosition::Union(_) => "unknown",
                };
                names.push(name);
                assert(slice_texts(names@) =~= slice_texts(before).push(name@));
            }
            i += 1;
        }
        assert(all.take(fields.len() as int) =~= all);
        print_types(&names)
    }

    /// Holds a field that a subgraph overrides against the field that it overrides.
    fn check_overridden_field<'a>(
        &mut self,
        dest: &FieldDefinition,
        info: &MappedValue<'a>,
        directive: &Node<Directive>,
        name: &str,
        source: &str,
        source_idx: usize,
        from: &MappedValue<'a>,
        merge_context: &mut FieldMergeContext,
    )
        requires
            old(merge_context).well_formed(),
            subgraph_named(old(self).subgraphs@, source@) == Some(source_idx as int),
        ensures
            final(merge_context).well_formed(),
            final(self).override_state(*final(merge_context)) == old(self).known().field_checked(
                dest@,
                info@,
                located(*directive),
                name@,
                source@,
                from@,
                old(self).override_state(*old(merge_context)),
            ),
            *final(self) == (Merger { error_reporter: final(self).error_reporter, ..*old(self) }),
    {
        let coordinate = field_coordinate(dest);
        assert(from@.abstracting.len() == from.interface_object_abstracting_fields@.len());
        if from.interface_object_abstracting_fields.len() > 0 {
            let types = self.print_parent_types(&from.interface_object_abstracting_fields);
            self.add_override_error(
                ErrorKind::DirectiveDefinitionInvalid,
                write_abstracted(coordinate.as_str(), name, source, types.as_str()),
            );
            return;
        }
        let conflict = self.override_conflicts_with_other_directive(
            info.idx,
            info.field,
            name,
            source_idx,
            from.field,
        );
        if conflict.has_incompatible {
            let conflicting = match conflict.conflicting_directive {
                Some(text) => text,
                None => "unknown".to_owned(),
            };
            let carrier = match conflict.subgraph {
                Some(text) => text,
                None => "unknown".to_owned(),
            };
            let from_coordinate = match from.field {
                Some(field) => field_coordinate(field),
                None => coordinate.clone(),
            };
            self.add_override_error(
                ErrorKind::OverrideCollisionWithAnotherDirective,
                write_collision(
                    from_coordinate.as_str(),
                    name,
                    coordinate.as_str(),
                    carrier.as_str(),
                    conflicting.as_str(),
                ),
            );
            return;
        }
        if let Some(source_field) = from.field {
            let is_referenced = match self.get_field_position(source_field) {
                Some(position) => self.is_field_used(from.idx, position),
                None => false,
            };
            let params = OverrideValidationParams {
                from_idx: from.idx,
                source_field,
                dest,
                subgraph_name: name,
                source_subgraph_name: source,
                overridden_field_is_referenced: is_referenced,
                override_label: get_override_label(&directive.node),
                override_directive: directive,
            };
            self.handle_override_field_validation(&params, merge_context);
            self.handle_override_label(info.idx, &params, merge_context);
        }
    }

    /// Looks at a subgraph that overrides a field.
    fn check_override<'a>(
        &mut self,
        infos: &Vec<MappedValue<'a>>,
        overriding: &Vec<String>,
        dest: &FieldDefinition,
        name: &str,
        merge_context: &mut FieldMergeContext,
    )
        requires
            old(merge_context).well_formed(),
            forall|i: int|
                0 <= i < infos@.len() ==> (#[trigger] infos@[i]).idx < old(self).names.len(),
            texts(overriding@) == old(self).known().overriding(source_infos(infos@)),
        ensures
            final(merge_context).well_formed(),
            final(self).override_state(*final(merge_context)) == old(
                self,
            ).known().override_checked(
                source_infos(infos@),
                dest@,
                name@,
                old(self).override_state(*old(merge_context)),
            ),
            *final(self) == (Merger { error_reporter: final(self).error_reporter, ..*old(self) }),
    {
        let info = match self.find_info(infos, name) {
            Some(info) => info,
            None => {
                return;
            },
        };
        let directive = match info.override_directive {
            Some(directive) => directive,
            None => {
                return;
            },
        };
        let coordinate = field_coordinate(dest);
        if info.is_interface_field {
            self.add_override_error(
                ErrorKind::OverrideOnInterface,
                write_on_interface(coordinate.as_str(), name),
            );
            return;
        }
        if info.is_interface_object {
            self.add_override_error(
                ErrorKind::DirectiveDefinitionInvalid,
                write_on_interface_object(coordinate.as_str(), name),
            );
            return;
        }
        let source = match find_argument(&directive.node.arguments, "from") {
            Some(Value::String(source)) => source.as_str(),
            _ => {
                return;
            },
        };
        let source_idx = match find_subgraph(&self.subgraphs, source) {
            Some(source_idx) => source_idx,
            None => {
                merge_context.set_override_with_unknown_target(info.idx);
                let selected = self.suggest_similar_subgraph_names(source);
                let question = format_did_you_mean(&selected);
                self.add_override_hint(
                    OverrideHintCode::FromSubgraphDoesNotExist.as_str(),
                    write_unknown_source(source, coordinate.as_str(), name, question.as_str()),
                    directive,
                    name,
                );
                return;
            },
        };
        if same_text(source, name) {
            self.add_override_error(
                ErrorKind::OverrideFromSelfError,
                write_from_self(source, coordinate.as_str()),
            );
            return;
        }
        if contains_text(overriding, source) {
            self.add_override_error(
                ErrorKind::DirectiveDefinitionInvalid,
                write_also_overridden(coordinate.as_str(), name, source),
            );
            return;
        }
        match self.find_info(infos, source) {
            Some(from) => self.check_overridden_field(
                dest,
                info,
                directive,
                name,
                source,
                source_idx,
                from,
                merge_context,
            ),
            None => self.add_override_hint(
                OverrideHintCode::OverrideDirectiveCanBeRemoved.as_str(),
                write_field_gone(coordinate.as_str(), name),
                directive,
                name,
            ),
        }
    }

    /// Validates the uses of `@override` on a field, and says what they mean for each subgraph.
    ///
    /// The subgraphs that override the field are looked at in the order of the sources.
    pub fn validate_override(
        &mut self,
        sources: &Sources<Node<FieldDefinition>>,
        dest: &Node<FieldDefinition>,
    ) -> (result: Result<FieldMergeContext, FederationError>)
        requires
            sources.well_formed(),
            is_overridden_somewhere(targets(old(self).fields_with_override@), dest.node@.name)
                ==> forall|i: int|
                0 <= i < sources@.len() ==> (#[trigger] sources@[i]).0 < old(self).names.len(),
        ensures
            result matches Ok(context) && context.well_formed() && final(self).override_state(
                context,
            ) == old(self).known().validated(
                targets(old(self).fields_with_override@),
                field_sources(sources@),
                dest.node@,
                old(self).error_reporter@,
            ),
            *final(self) == (Merger { error_reporter: final(self).error_reporter, ..*old(self) }),
    {
        let mut merge_context = FieldMergeContext::new();
        if !has_override_somewhere(&self.fields_with_override, dest.node.name.as_str()) {
            return Ok(merge_context);
        }
        let infos = self.map_override_sources(sources, &dest.node);
        let overriding = self.list_overriding(&infos);
        let ghost known = self.known();
        let ghost start = self.override_state(merge_context);
        let ghost all = texts(overriding@);
        let ghost values = source_infos(infos@);
        let mut i: usize = 0;
        assert(all.take(0) =~= Seq::<Seq<char>>::empty());
        while i < overriding.len()
            invariant
                i <= overriding.len(),
                all == texts(overriding@),
                values == source_infos(infos@),
                known == old(self).known(),
                all == known.overriding(values),
                merge_context.well_formed(),
                forall|j: int|
                    0 <= j < infos@.len() ==> (#[trigger] infos@[j]).idx < old(self).names.len(),
                self.override_state(merge_context) == known.overrides_checked(
                    values,
                    dest.node@,
                    all.take(i as int),
                    start,
                ),
                *self == (Merger { error_reporter: self.error_reporter, ..*old(self) }),
            decreases overriding.len() - i,
        {
            assert(all.take(i + 1).drop_last() =~= all.take(i as int));
            assert(all.take(i + 1).last() == overriding@[i as int]@);
            assert(self.known() == known);
            self.check_override(
                &infos,
                &overriding,
                &dest.node,
                overriding[i].as_str(),
                &mut merge_context,
            );
            i += 1;
        }
        assert(all.take(overriding.len() as int) =~= all);
        Ok(merge_context)
    }
}

} // verus!
