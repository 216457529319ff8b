//! The shallow passes: they add each type and each directive definition of the subgraphs to the
//! supergraph, the types without what is in them.

use crate::ast::{DefinitionShape, Directive, DirectiveDefinition, DirectiveLocation};
use crate::human_readable::{human_readable_subgraph_names, printed_subgraphs};
use crate::merger::{ComposedDirective, Merger};
use crate::report::{
    plain_error, source_texts, CompositionError, ErrorKind, ErrorRecord, FederationError, Mismatch,
    MismatchRecord, Report,
};
use crate::schema::{
    contains_type_position, find_type, type_positions, with_distinct, ExtendedType,
    FederationSchema, TypeDefinition, TypeDefinitionPosition, TypeKind, TypePosition,
};
use crate::subgraph::{link_of_type, Subgraph};
use crate::text::{contains_text, same_text, texts};
use vstd::prelude::*;
use vstd::string::*;

verus! {

/// Whether the name is that of an introspection type: it starts with two underscores.
pub open spec fn is_introspection_name(name: Seq<char>) -> bool {
    name.len() >= 2 && name[0] == '_' && name[1] == '_'
}

/// Whether the name is that of a type which federation adds to the operations of a subgraph.
pub open spec fn is_federation_operation_name(name: Seq<char>) -> bool {
    name == "_Any"@ || name == "_Entity"@ || name == "_Service"@
}

/// Whether a type of a subgraph belongs into the supergraph.
pub open spec fn merges_type(subgraph: Subgraph, name: Seq<char>) -> bool {
    !is_introspection_name(name) && !is_federation_operation_name(name) && match link_of_type(
        subgraph.type_links@,
        name,
    ) {
        Some(identity) => !identity.is_not_merged(),
        None => true,
    }
}

/// The names and kinds of some types.
pub open spec fn definition_positions(types: Seq<TypeDefinition>) -> Seq<TypePosition> {
    types.map_values(
        |t: TypeDefinition| TypePosition { typename: t.name@, kind: t.definition.spec_kind() },
    )
}

/// The kind of the first type with the name.
pub open spec fn kind_of(types: Seq<TypePosition>, name: Seq<char>) -> Option<TypeKind>
    decreases types.len(),
{
    if types.len() == 0 {
        None
    } else if types[0].typename == name {
        Some(types[0].kind)
    } else {
        kind_of(types.skip(1), name)
    }
}

/// What the pass over the types has come to.
pub struct ShallowTypes {
    /// The types of the supergraph.
    pub types: Seq<TypePosition>,
    /// The types whose kind is not that of the supergraph.
    pub mismatched: Seq<TypePosition>,
    /// The object types that carry `@interfaceObject`.
    pub interface_objects: Seq<TypePosition>,
}

/// The pass with one more type of a subgraph. A type that carries `@interfaceObject` is an
/// interface in the supergraph.
pub open spec fn with_shallow_type(
    state: ShallowTypes,
    subgraph: Subgraph,
    position: TypePosition,
) -> ShallowTypes {
    if !merges_type(subgraph, position.typename) {
        state
    } else {
        let is_interface_object = subgraph.has_interface_object(position.typename, position.kind);
        let expected = if is_interface_object {
            TypeKind::Interface
        } else {
            position.kind
        };
        let interface_objects = if is_interface_object {
            with_distinct(state.interface_objects, position)
        } else {
            state.interface_objects
        };
        match kind_of(state.types, position.typename) {
            Some(kind) => ShallowTypes {
                mismatched: if kind == expected {
                    state.mismatched
                } else {
                    with_distinct(state.mismatched, position)
                },
                interface_objects,
                ..state
            },
            None => ShallowTypes {
                types: state.types.push(
                    TypePosition { typename: position.typename, kind: expected },
                ),
                interface_objects,
                ..state
            },
        }
    }
}

/// The pass with the types of a subgraph.
pub open spec fn with_shallow_types(
    state: ShallowTypes,
    subgraph: Subgraph,
    positions: Seq<TypePosition>,
) -> ShallowTypes
    decreases positions.len(),
{
    if positions.len() == 0 {
        state
    } else {
        with_shallow_type(
            with_shallow_types(state, subgraph, positions.drop_last()),
            subgraph,
            positions.last(),
        )
    }
}

/// The pass over the types of some subgraphs.
pub open spec fn shallow_types(types: Seq<TypePosition>, subgraphs: Seq<Subgraph>) -> ShallowTypes
    decreases subgraphs.len(),
{
    if subgraphs.len() == 0 {
        ShallowTypes { types, mismatched: Seq::empty(), interface_objects: Seq::empty() }
    } else {
        with_shallow_types(
            shallow_types(types, subgraphs.drop_last()),
            subgraphs.last(),
            definition_positions(subgraphs.last().schema.types@),
        )
    }
}

/// The words for the kind of a type.
pub open spec fn kind_text(position: TypePosition, interface_objects: Seq<TypePosition>) -> Seq<
    char,
> {
    if interface_objects.contains(position) {
        "Interface Object Type (Object Type with @interfaceObject)"@
    } else {
        position.kind.description()
    }
}

/// The kind of a type in each subgraph, in words.
pub open spec fn kind_texts(
    subgraphs: Seq<Subgraph>,
    name: Seq<char>,
    interface_objects: Seq<TypePosition>,
) -> Seq<(usize, Option<Seq<char>>)> {
    subgraphs.map(
        |i: int, s: Subgraph|
            (
                i as usize,
                match find_type(s.schema.types@, name) {
                    Some(definition) => Some(
                        kind_text(
                            TypePosition { typename: name, kind: definition.spec_kind() },
                            interface_objects,
                        ),
                    ),
                    None => None,
                },
            ),
    )
}

/// The error about a type whose kind differs between subgraphs.
pub open spec fn kind_mismatch(
    subgraphs: Seq<Subgraph>,
    position: TypePosition,
    interface_objects: Seq<TypePosition>,
) -> ErrorRecord {
    ErrorRecord {
        kind: ErrorKind::TypeKindMismatch,
        message: "Type \""@ + position.typename + "\" has mismatched kind: it is defined as "@,
        mismatch: Some(
            MismatchRecord {
                element: kind_text(position, interface_objects),
                sources: kind_texts(subgraphs, position.typename, interface_objects),
            },
        ),
    }
}

/// The report after the types with mismatched kinds are reported.
pub open spec fn report_mismatched(
    report: Report,
    subgraphs: Seq<Subgraph>,
    mismatched: Seq<TypePosition>,
    interface_objects: Seq<TypePosition>,
) -> Report
    decreases mismatched.len(),
{
    if mismatched.len() == 0 {
        report
    } else {
        report_mismatched(
            report,
            subgraphs,
            mismatched.drop_last(),
            interface_objects,
        ).with_error(kind_mismatch(subgraphs, mismatched.last(), interface_objects))
    }
}

/// Whether the type is an interface in some subgraph.
pub open spec fn is_interface_somewhere(subgraphs: Seq<Subgraph>, name: Seq<char>) -> bool {
    exists|i: int|
        0 <= i < subgraphs.len() && find_type(
            (#[trigger] subgraphs[i]).schema.types@,
            name,
        ) matches Some(ExtendedType::Interface(_))
}

/// The names of the subgraphs that have the type, each once.
pub open spec fn subgraphs_with_type(subgraphs: Seq<Subgraph>, name: Seq<char>) -> Seq<Seq<char>>
    decreases subgraphs.len(),
{
    if subgraphs.len() == 0 {
        Seq::empty()
    } else if subgraphs.last().schema.has_type(name) {
        with_distinct(subgraphs_with_type(subgraphs.drop_last(), name), subgraphs.last().name@)
    } else {
        subgraphs_with_type(subgraphs.drop_last(), name)
    }
}

/// The message about a type that carries `@interfaceObject` wherever it is defined.
pub open spec fn no_interface(subgraphs: Seq<Subgraph>, name: Seq<char>) -> Seq<char> {
    "Type \""@ + name
        + "\" is declared with @interfaceObject in all the subgraphs in which it is defined (it is defined in "@
        + printed_subgraphs(subgraphs_with_type(subgraphs, name))
        + " but should be defined as an interface in at least one subgraph)"@
}

/// The report after the types that carry `@interfaceObject` are looked at. Those with mismatched
/// kinds are reported already.
pub open spec fn report_interface_objects(
    report: Report,
    subgraphs: Seq<Subgraph>,
    mismatched: Seq<TypePosition>,
    interface_objects: Seq<TypePosition>,
) -> Report
    decreases interface_objects.len(),
{
    if interface_objects.len() == 0 {
        report
    } else {
        let rest = report_interface_objects(
            report,
            subgraphs,
            mismatched,
            interface_objects.drop_last(),
        );
        let position = interface_objects.last();
        if mismatched.contains(position) || is_interface_somewhere(subgraphs, position.typename) {
            rest
        } else {
            rest.with_error(
                plain_error(
                    ErrorKind::InterfaceObjectUsageError,
                    no_interface(subgraphs, position.typename),
                ),
            )
        }
    }
}

/// The report after the pass over the types.
pub open spec fn report_shallow_types(
    report: Report,
    types: Seq<TypePosition>,
    subgraphs: Seq<Subgraph>,
) -> Report {
    let state = shallow_types(types, subgraphs);
    report_interface_objects(
        report_mismatched(report, subgraphs, state.mismatched, state.interface_objects),
        subgraphs,
        state.mismatched,
        state.interface_objects,
    )
}

/// Whether the types are the earlier ones, followed by some without interfaces, fields or members.
pub open spec fn extends_with_bare(before: Seq<TypeDefinition>, after: Seq<TypeDefinition>) -> bool {
    &&& before.is_prefix_of(after)
    &&& forall|i: int|
        before.len() <= i < after.len() ==> (#[trigger] after[i]).definition.is_bare()
}

/// Types that are extended twice are extended.
proof fn lemma_extends_twice(
    first: Seq<TypeDefinition>,
    second: Seq<TypeDefinition>,
    third: Seq<TypeDefinition>,
)
    requires
        extends_with_bare(first, second),
        extends_with_bare(second, third),
    ensures
        extends_with_bare(first, third),
{
    assert forall|i: int| first.len() <= i < third.len() implies (
    #[trigger] third[i]).definition.is_bare() by {
        if i < second.len() {
            assert(second[i].definition.is_bare());
        }
    }
}

/// A type definition is found exactly where its position is.
proof fn lemma_kind_of(types: Seq<TypeDefinition>, name: Seq<char>)
    ensures
        kind_of(definition_positions(types), name) == (match find_type(types, name) {
            Some(definition) => Some(definition.spec_kind()),
            None => None,
        }),
    decreases types.len(),
{
    if types.len() > 0 {
        assert(definition_positions(types)[0].typename == types[0].name@);
        assert(definition_positions(types).skip(1) =~= definition_positions(types.skip(1)));
        lemma_kind_of(types.skip(1), name);
    }
}

/// Whether the name is that of an introspection type.
fn has_introspection_name(name: &str) -> (found: bool)
    ensures
        found == is_introspection_name(name@),
{
    name.unicode_len() >= 2 && name.get_char(0) == '_' && name.get_char(1) == '_'
}

/// Whether a type of a subgraph belongs into the supergraph: introspection types, the operation
/// types of federation and the types of some specifications do not.
pub fn is_merged_type(subgraph: &Subgraph, name: &str) -> (merged: bool)
    ensures
        merged == merges_type(*subgraph, name@),
{
    if has_introspection_name(name) || same_text(name, "_Any") || same_text(name, "_Entity")
        || same_text(name, "_Service") {
        return false;
    }
    match subgraph.source_link_of_type(name) {
        Some(identity) => !identity.is_non_merged_core_feature(),
        None => true,
    }
}

/// Adds the position of a type to a list that does not hold it yet.
fn add_type_position(list: &mut Vec<TypeDefinitionPosition>, position: &TypeDefinitionPosition)
    ensures
        type_positions(final(list)@) == with_distinct(type_positions(old(list)@), position@),
{
    if !contains_type_position(list, position) {
        list.push(position.clone());
        assert(type_positions(list@) =~= type_positions(old(list)@).push(position@));
    }
}

/// What the pass over the types has come to.
spec fn pass_state(
    merged: FederationSchema,
    mismatched: Seq<TypeDefinitionPosition>,
    interface_objects: Seq<TypeDefinitionPosition>,
) -> ShallowTypes {
    ShallowTypes {
        types: definition_positions(merged.types@),
        mismatched: type_positions(mismatched),
        interface_objects: type_positions(interface_objects),
    }
}

/// Adds the types of a subgraph to the supergraph.
fn add_subgraph_types(
    merged: &mut FederationSchema,
    subgraph: &Subgraph,
    mismatched: &mut Vec<TypeDefinitionPosition>,
    interface_objects: &mut Vec<TypeDefinitionPosition>,
)
    ensures
        pass_state(*final(merged), final(mismatched)@, final(interface_objects)@)
            == with_shallow_types(
            pass_state(*old(merged), old(mismatched)@, old(interface_objects)@),
            *subgraph,
            definition_positions(subgraph.schema.types@),
        ),
        extends_with_bare(old(merged).types@, final(merged).types@),
        *final(merged) == (FederationSchema { types: final(merged).types, ..*old(merged) }),
{
    let ghost start = pass_state(*merged, mismatched@, interface_objects@);
    let types = &subgraph.schema.types;
    let ghost all = definition_positions(types@);
    let mut i: usize = 0;
    assert(all.take(0) =~= Seq::<TypePosition>::empty());
    while i < types.len()
        invariant
            i <= types.len(),
            all == definition_positions(types@),
            pass_state(*merged, mismatched@, interface_objects@) == with_shallow_types(
                start,
                *subgraph,
                all.take(i as int),
            ),
            extends_with_bare(old(merged).types@, merged.types@),
            *merged == (FederationSchema { types: merged.types, ..*old(merged) }),
        decreases types.len() - i,
    {
        assert(all.take(i + 1).drop_last() =~= all.take(i as int));
        let position = TypeDefinitionPosition {
            typename: types[i].name.clone(),
            kind: types[i].definition.kind(),
        };
        assert(all[i as int] == position@);
        if is_merged_type(subgraph, position.typename.as_str()) {
            let expects_interface = subgraph.is_interface_object_type(
                position.typename.as_str(),
                position.kind,
            );
            if expects_interface {
                add_type_position(interface_objects, &position);
            }
            proof {
                lemma_kind_of(merged.types@, position.typename@);
            }
            let ghost before = merged.types@;
            let known = match merged.get_type(position.typename.as_str()) {
                Some(definition) => Some(definition.kind()),
                None => None,
            };
            let expected = if expects_interface {
                TypeKind::Interface
            } else {
                position.kind
            };
            match known {
                Some(kind) => {
                    if kind != expected {
                        add_type_position(mismatched, &position);
                    }
                },
                None => {
                    merged.insert_empty(
                        &TypeDefinitionPosition {
                            typename: position.typename.clone(),
                            kind: expected,
                        },
                    );
                    assert(merged.types@ =~= before.push(merged.types@.last()));
                    assert(definition_positions(merged.types@) =~= definition_positions(
                        before,
                    ).push(TypePosition { typename: position.typename@, kind: expected }));
                },
            }
        }
        i += 1;
    }
    assert(all.take(types.len() as int) =~= all);
}

/// Puts the kind of a type into words.
fn describe_kind(
    position: &TypeDefinitionPosition,
    interface_objects: &Vec<TypeDefinitionPosition>,
) -> (text: String)
    ensures
        text@ == kind_text(position@, type_positions(interface_objects@)),
{
    if contains_type_position(interface_objects, position) {
        "Interface Object Type (Object Type with @interfaceObject)".to_owned()
    } else {
        position.kind.describe().to_owned()
    }
}

impl Merger {
    /// Reports a type whose kind differs between subgraphs.
    pub fn report_mismatched_type_definitions(
        &mut self,
        mismatched_type: &TypeDefinitionPosition,
        types_with_interface_object: &Vec<TypeDefinitionPosition>,
    )
        ensures
            final(self).error_reporter@ == old(self).error_reporter@.with_error(
                kind_mismatch(
                    old(self).subgraphs@,
                    mismatched_type@,
                    type_positions(types_with_interface_object@),
                ),
            ),
            *final(self) == (Merger { error_reporter: final(self).error_reporter, ..*old(self) }),
    {
        let ghost expected = kind_texts(
            self.subgraphs@,
            mismatched_type@.typename,
            type_positions(types_with_interface_object@),
        );
        let mut sources: Vec<(usize, Option<String>)> = Vec::new();
        let mut i: usize = 0;
        while i < self.subgraphs.len()
            invariant
                i <= self.subgraphs.len(),
                *self == *old(self),
                sources.len() == i,
                expected == kind_texts(
                    self.subgraphs@,
                    mismatched_type@.typename,
                    type_positions(types_with_interface_object@),
                ),
                forall|j: int| 0 <= j < i ==> (#[trigger] source_texts(sources@)[j]) == expected[j],
            decreases self.subgraphs.len() - i,
        {
            let ghost before = sources@;
            let text = match self.subgraphs[i].schema.get_type(mismatched_type.typename.as_str()) {
                Some(definition) => {
                    let position = TypeDefinitionPosition {
                        typename: mismatched_type.typename.clone(),
                        kind: definition.kind(),
                    };
                    Some(describe_kind(&position, types_with_interface_object))
                },
                None => None,
            };
            sources.push((i, text));
            assert forall|j: int| 0 <= j <= i implies (#[trigger] source_texts(sources@)[j])
                == expected[j] by {
                if j < i {
                    assert(source_texts(before)[j] == expected[j]);
                }
            }
            i += 1;
        }
        assert(source_texts(sources@) =~= expected);
        let message = "Type \"".to_owned().concat(mismatched_type.typename.as_str()).concat(
            "\" has mismatched kind: it is defined as ",
        );
        let element = describe_kind(mismatched_type, types_with_interface_object);
        self.error_reporter.report_mismatch_error(
            CompositionError::new(ErrorKind::TypeKindMismatch, message),
            Mismatch { element, sources },
        );
    }

    /// Reports a type that carries `@interfaceObject` where no subgraph defines it as an interface.
    fn check_interface_object(&mut self, position: &TypeDefinitionPosition)
        ensures
            final(self).error_reporter@ == if is_interface_somewhere(
                old(self).subgraphs@,
                position@.typename,
            ) {
                old(self).error_reporter@
            } else {
                old(self).error_reporter@.with_error(
                    plain_error(
                        ErrorKind::InterfaceObjectUsageError,
                        no_interface(old(self).subgraphs@, position@.typename),
                    ),
                )
            },
            *final(self) == (Merger { error_reporter: final(self).error_reporter, ..*old(self) }),
    {
        let name = position.typename.as_str();
        let ghost all = self.subgraphs@;
        let mut names: Vec<String> = Vec::new();
        let mut i: usize = 0;
        assert(all.take(0) =~= Seq::<Subgraph>::empty());
        assert(texts(names@) =~= Seq::<Seq<char>>::empty());
        while i < self.subgraphs.len()
            invariant
                i <= self.subgraphs.len(),
                *self == *old(self),
                all == self.subgraphs@,
                name@ == position@.typename,
                texts(names@) == subgraphs_with_type(all.take(i as int), name@),
                forall|j: int|
                    0 <= j < i ==> !(find_type(
                        (#[trigger] all[j]).schema.types@,
                        name@,
                    ) matches Some(ExtendedType::Interface(_))),
            decreases self.subgraphs.len() - i,
        {
            assert(all.take(i + 1).drop_last() =~= all.take(i as int));
            let subgraph = &self.subgraphs[i];
            let ghost before = names@;
            match subgraph.schema.get_type(name) {
                Some(ExtendedType::Interface(_)) => {
                    assert(find_type(all[i as int].schema.types@, name@) matches Some(
                        ExtendedType::Interface(_),
                    ));
                    return;
                },
                Some(_) => {
                    if !contains_text(&names, subgraph.name.as_str()) {
                        names.push(subgraph.name.clone());
                        assert(texts(names@) =~= texts(before).push(subgraph.name@));
                    }
                },
                None => {},
            }
            i += 1;
        }
        assert(all.take(self.subgraphs.len() as int) =~= all);
        let listed = human_readable_subgraph_names(&names);
        let message = "Type \"".to_owned().concat(name).concat(
            "\" is declared with @interfaceObject in all the subgraphs in which it is defined (it is defined in ",
        ).concat(listed.as_str()).concat(
            " but should be defined as an interface in at least one subgraph)",
        );
        self.error_reporter.add_error(
            CompositionError::new(ErrorKind::InterfaceObjectUsageError, message),
        );
    }

    /// Adds the types of the subgraphs to the supergraph, without interfaces, fields and members.
    /// Reports types whose kind differs between subgraphs, and types that carry
    /// `@interfaceObject` while no subgraph defines the interface.
    pub fn add_types_shallow(&mut self)
        ensures
            definition_positions(final(self).merged.types@) == shallow_types(
                definition_positions(old(self).merged.types@),
                old(self).subgraphs@,
            ).types,
            extends_with_bare(old(self).merged.types@, final(self).merged.types@),
            final(self).merged == (FederationSchema {
                types: final(self).merged.types,
                ..old(self).merged
            }),
            final(self).error_reporter@ == report_shallow_types(
                old(self).error_reporter@,
                definition_positions(old(self).merged.types@),
                old(self).subgraphs@,
            ),
            *final(self) == (Merger {
                error_reporter: final(self).error_reporter,
                merged: final(self).merged,
                ..*old(self)
            }),
    {
        let ghost subgraphs = self.subgraphs@;
        let ghost types = definition_positions(self.merged.types@);
        let ghost report = self.error_reporter@;
        let mut mismatched: Vec<TypeDefinitionPosition> = Vec::new();
        let mut interface_objects: Vec<TypeDefinitionPosition> = Vec::new();
        let mut i: usize = 0;
        assert(subgraphs.take(0) =~= Seq::<Subgraph>::empty());
        assert(type_positions(mismatched@) =~= Seq::<TypePosition>::empty());
        assert(type_positions(interface_objects@) =~= Seq::<TypePosition>::empty());
        while i < self.subgraphs.len()
            invariant
                i <= self.subgraphs.len(),
                subgraphs == self.subgraphs@,
                *self == (Merger { merged: self.merged, ..*old(self) }),
                self.merged == (FederationSchema { types: self.merged.types, ..old(self).merged }),
                extends_with_bare(old(self).merged.types@, self.merged.types@),
                pass_state(self.merged, mismatched@, interface_objects@) == shallow_types(
                    types,
                    subgraphs.take(i as int),
                ),
            decreases self.subgraphs.len() - i,
        {
            assert(subgraphs.take(i + 1).drop_last() =~= subgraphs.take(i as int));
            let ghost before = self.merged.types@;
            add_subgraph_types(
                &mut self.merged,
                &self.subgraphs[i],
                &mut mismatched,
                &mut interface_objects,
            );
            proof {
                lemma_extends_twice(old(self).merged.types@, before, self.merged.types@);
            }
            i += 1;
        }
        assert(subgraphs.take(self.subgraphs.len() as int) =~= subgraphs);
        let ghost wrong = type_positions(mismatched@);
        let ghost objects = type_positions(interface_objects@);
        let ghost merged = self.merged;
        let mut k: usize = 0;
        assert(wrong.take(0) =~= Seq::<TypePosition>::empty());
        while k < mismatched.len()
            invariant
                k <= mismatched.len(),
                subgraphs == self.subgraphs@,
                wrong == type_positions(mismatched@),
                objects == type_positions(interface_objects@),
                self.merged == merged,
                *self == (Merger {
                    error_reporter: self.error_reporter,
                    merged: self.merged,
                    ..*old(self)
                }),
                self.error_reporter@ == report_mismatched(
                    report,
                    subgraphs,
                    wrong.take(k as int),
                    objects,
                ),
            decreases mismatched.len() - k,
        {
            assert(wrong.take(k + 1).drop_last() =~= wrong.take(k as int));
            assert(wrong.take(k + 1).last() == mismatched@[k as int]@);
            self.report_mismatched_type_definitions(&mismatched[k], &interface_objects);
            k += 1;
        }
        assert(wrong.take(mismatched.len() as int) =~= wrong);
        let ghost reported = self.error_reporter@;
        let mut n: usize = 0;
        assert(objects.take(0) =~= Seq::<TypePosition>::empty());
        while n < interface_objects.len()
            invariant
                n <= interface_objects.len(),
                subgraphs == self.subgraphs@,
                wrong == type_positions(mismatched@),
                objects == type_positions(interface_objects@),
                self.merged == merged,
                *self == (Merger {
                    error_reporter: self.error_reporter,
                    merged: self.merged,
                    ..*old(self)
                }),
                self.error_reporter@ == report_interface_objects(
                    reported,
                    subgraphs,
                    wrong,
                    objects.take(n as int),
                ),
            decreases interface_objects.len() - n,
        {
            assert(objects.take(n + 1).drop_last() =~= objects.take(n as int));
            assert(objects.take(n + 1).last() == interface_objects@[n as int]@);
            if !contains_type_position(&mismatched, &interface_objects[n]) {
                self.check_interface_object(&interface_objects[n]);
            }
            n += 1;
        }
        assert(objects.take(interface_objects.len() as int) =~= objects);
    }
}

/// Whether the directive is built in for merging, whether a subgraph redefines it or not.
pub open spec fn is_built_in(name: Seq<char>) -> bool {
    name == "skip"@ || name == "include"@ || name == "deprecated"@ || name == "specifiedBy"@ || name
        == "defer"@ || name == "stream"@
}

/// Whether a subgraph composes the directive.
pub open spec fn is_composed(
    composed: Seq<ComposedDirective>,
    subgraph: Seq<char>,
    directive: Seq<char>,
) -> bool {
    exists|i: int|
        0 <= i < composed.len() && (#[trigger] composed[i]).subgraph_name@ == subgraph
            && composed[i].directive_name@ == directive
}

/// Whether the definition of a directive in a subgraph belongs into the supergraph: where the
/// subgraph composes the directive, or where the directive is not built in and can be applied in
/// an operation or a fragment.
pub open spec fn merges_definition(
    composed: Seq<ComposedDirective>,
    subgraph: Seq<char>,
    definition: DefinitionShape,
) -> bool {
    is_composed(composed, subgraph, definition.name) || (!is_built_in(definition.name)
        && is_executable(definition.locations))
}

/// Whether some location is in an operation or a fragment.
pub open spec fn is_executable(locations: Seq<DirectiveLocation>) -> bool {
    exists|i: int| 0 <= i < locations.len() && (#[trigger] locations[i]).executable()
}

/// What each directive definition of a list is.
pub open spec fn definition_shapes(definitions: Seq<DirectiveDefinition>) -> Seq<DefinitionShape> {
    definitions.map_values(|d: DirectiveDefinition| d@)
}

/// Whether one of the definitions has the name.
pub open spec fn defines(definitions: Seq<DefinitionShape>, name: Seq<char>) -> bool {
    exists|i: int| 0 <= i < definitions.len() && (#[trigger] definitions[i]).name == name
}

/// The definitions with those of a subgraph that belong into the supergraph and are not defined
/// yet.
pub open spec fn with_definitions(
    built_in: Seq<Seq<char>>,
    definitions: Seq<DefinitionShape>,
    composed: Seq<ComposedDirective>,
    subgraph: Seq<char>,
    added: Seq<DefinitionShape>,
) -> Seq<DefinitionShape>
    decreases added.len(),
{
    if added.len() == 0 {
        definitions
    } else {
        let rest = with_definitions(built_in, definitions, composed, subgraph, added.drop_last());
        let definition = added.last();
        if !built_in.contains(definition.name) && !defines(rest, definition.name)
            && merges_definition(composed, subgraph, definition) {
            rest.push(definition)
        } else {
            rest
        }
    }
}

/// The definitions with those of some subgraphs.
pub open spec fn shallow_definitions(
    built_in: Seq<Seq<char>>,
    definitions: Seq<DefinitionShape>,
    composed: Seq<ComposedDirective>,
    subgraphs: Seq<Subgraph>,
) -> Seq<DefinitionShape>
    decreases subgraphs.len(),
{
    if subgraphs.len() == 0 {
        definitions
    } else {
        with_definitions(
            built_in,
            shallow_definitions(built_in, definitions, composed, subgraphs.drop_last()),
            composed,
            subgraphs.last().name@,
            definition_shapes(subgraphs.last().schema.directive_definitions@),
        )
    }
}

/// A schema has the directives that are built in and those that it defines.
proof fn lemma_has_directive(schema: FederationSchema, name: Seq<char>)
    ensures
        schema.has_directive(name) == (texts(schema.built_in_directives@).contains(name)
            || defines(definition_shapes(schema.directive_definitions@), name)),
{
    let known = schema.directive_definitions@;
    if defines(definition_shapes(known), name) {
        let at = choose|k: int|
            0 <= k < known.len() && (#[trigger] definition_shapes(known)[k]).name == name;
        assert(known[at].name@ == name);
    }
    if exists|k: int| 0 <= k < known.len() && (#[trigger] known[k]).name@ == name {
        let at = choose|k: int| 0 <= k < known.len() && (#[trigger] known[k]).name@ == name;
        assert(definition_shapes(known)[at].name == name);
    }
}

/// Whether the directive is built in for merging.
fn has_built_in_name(name: &str) -> (found: bool)
    ensures
        found == is_built_in(name@),
{
    same_text(name, "skip") || same_text(name, "include") || same_text(name, "deprecated")
        || same_text(name, "specifiedBy") || same_text(name, "defer") || same_text(name, "stream")
}

/// Whether some location is in an operation or a fragment.
fn has_executable_location(locations: &Vec<DirectiveLocation>) -> (found: bool)
    ensures
        found == is_executable(locations@),
{
    let mut i: usize = 0;
    while i < locations.len()
        invariant
            i <= locations.len(),
            forall|j: int| 0 <= j < i ==> !(#[trigger] locations@[j]).executable(),
        decreases locations.len() - i,
    {
        if locations[i].is_executable_location() {
            return true;
        }
        i += 1;
    }
    false
}

impl Merger {
    /// Whether a subgraph composes the directive.
    pub fn should_compose_directive(&self, subgraph_name: &str, directive_name: &str) -> (found: bool)
        ensures
            found == is_composed(
                self.compose_directive_manager@,
                subgraph_name@,
                directive_name@,
            ),
    {
        let composed = &self.compose_directive_manager;
        let mut i: usize = 0;
        while i < composed.len()
            invariant
                i <= composed.len(),
                composed@ == self.compose_directive_manager@,
                forall|j: int|
                    0 <= j < i ==> !((#[trigger] composed@[j]).subgraph_name@ == subgraph_name@
                        && composed@[j].directive_name@ == directive_name@),
            decreases composed.len() - i,
        {
            if same_text(composed[i].subgraph_name.as_str(), subgraph_name) && same_text(
                composed[i].directive_name.as_str(),
                directive_name,
            ) {
                return true;
            }
            i += 1;
        }
        false
    }

    /// Whether the applications of a directive in a subgraph are merged: where the subgraph
    /// composes it, federation merges it, or it is built in.
    pub fn is_merged_directive(&self, subgraph_name: &str, directive: &Directive) -> (merged: bool)
        ensures
            merged == (is_composed(
                self.compose_directive_manager@,
                subgraph_name@,
                directive@.name,
            ) || self.merged_federation_directive_names@.contains(directive@.name) || is_built_in(
                directive@.name,
            )),
    {
        self.should_compose_directive(subgraph_name, directive.name.as_str())
            || self.merged_federation_directive_names.contains(directive.name.as_str())
            || has_built_in_name(directive.name.as_str())
    }

    /// Whether the definition of a directive in a subgraph belongs into the supergraph.
    pub fn is_merged_directive_definition(
        &self,
        subgraph_name: &str,
        definition: &DirectiveDefinition,
    ) -> (merged: bool)
        ensures
            merged == merges_definition(
                self.compose_directive_manager@,
                subgraph_name@,
                definition@,
            ),
    {
        self.should_compose_directive(subgraph_name, definition.name.as_str()) || (
        !has_built_in_name(definition.name.as_str()) && has_executable_location(
            &definition.locations,
        ))
    }

    /// Adds the directive definitions of a subgraph to the supergraph.
    fn add_subgraph_directives(&mut self, subgraph_idx: usize)
        requires
            subgraph_idx < old(self).subgraphs.len(),
        ensures
            definition_shapes(final(self).merged.directive_definitions@) == with_definitions(
                texts(old(self).merged.built_in_directives@),
                definition_shapes(old(self).merged.directive_definitions@),
                old(self).compose_directive_manager@,
                old(self).subgraphs@[subgraph_idx as int].name@,
                definition_shapes(
                    old(self).subgraphs@[subgraph_idx as int].schema.directive_definitions@,
                ),
            ),
            final(self).merged == (FederationSchema {
                directive_definitions: final(self).merged.directive_definitions,
                ..old(self).merged
            }),
            *final(self) == (Merger { merged: final(self).merged, ..*old(self) }),
    {
        let ghost added = definition_shapes(
            self.subgraphs@[subgraph_idx as int].schema.directive_definitions@,
        );
        let ghost built_in = texts(self.merged.built_in_directives@);
        let ghost before = definition_shapes(self.merged.directive_definitions@);
        let mut i: usize = 0;
        assert(added.take(0) =~= Seq::<DefinitionShape>::empty());
        while i < self.subgraphs[subgraph_idx].schema.directive_definitions.len()
            invariant
                subgraph_idx < self.subgraphs.len(),
                i <= added.len(),
                added == definition_shapes(
                    self.subgraphs@[subgraph_idx as int].schema.directive_definitions@,
                ),
                built_in == texts(self.merged.built_in_directives@),
                self.merged == (FederationSchema {
                    directive_definitions: self.merged.directive_definitions,
                    ..old(self).merged
                }),
                *self == (Merger { merged: self.merged, ..*old(self) }),
                definition_shapes(self.merged.directive_definitions@) == with_definitions(
                    built_in,
                    before,
                    self.compose_directive_manager@,
                    self.subgraphs@[subgraph_idx as int].name@,
                    added.take(i as int),
                ),
            decreases added.len() - i,
        {
            assert(added.take(i + 1).drop_last() =~= added.take(i as int));
            let subgraph = &self.subgraphs[subgraph_idx];
            let definition = &subgraph.schema.directive_definitions[i];
            assert(added[i as int] == definition@);
            let ghost known = self.merged.directive_definitions@;
            proof {
                lemma_has_directive(self.merged, definition@.name);
            }
            if !self.merged.defines_directive(definition.name.as_str())
                && self.is_merged_directive_definition(subgraph.name.as_str(), definition) {
                let copy = definition.clone();
                self.merged.directive_definitions.push(copy);
                assert(definition_shapes(self.merged.directive_definitions@) =~= definition_shapes(
                    known,
                ).push(copy@));
            }
            i += 1;
        }
        assert(added.take(added.len() as int) =~= added);
    }

    /// Adds the directive definitions of the subgraphs that belong into the supergraph; of several
    /// with the same name, the first one.
    pub fn add_directives_shallow(&mut self) -> (result: Result<(), FederationError>)
        ensures
            result is Ok,
            definition_shapes(final(self).merged.directive_definitions@) == shallow_definitions(
                texts(old(self).merged.built_in_directives@),
                definition_shapes(old(self).merged.directive_definitions@),
                old(self).compose_directive_manager@,
                old(self).subgraphs@,
            ),
            final(self).merged == (FederationSchema {
                directive_definitions: final(self).merged.directive_definitions,
                ..old(self).merged
            }),
            *final(self) == (Merger { merged: final(self).merged, ..*old(self) }),
    {
        let ghost subgraphs = self.subgraphs@;
        let ghost built_in = texts(self.merged.built_in_directives@);
        let ghost before = definition_shapes(self.merged.directive_definitions@);
        let mut i: usize = 0;
        assert(subgraphs.take(0) =~= Seq::<Subgraph>::empty());
        while i < self.subgraphs.len()
            invariant
                i <= self.subgraphs.len(),
                subgraphs == self.subgraphs@,
                built_in == texts(self.merged.built_in_directives@),
                self.merged == (FederationSchema {
                    directive_definitions: self.merged.directive_definitions,
                    ..old(self).merged
                }),
                *self == (Merger { merged: self.merged, ..*old(self) }),
                definition_shapes(self.merged.directive_definitions@) == shallow_definitions(
                    built_in,
                    before,
                    self.compose_directive_manager@,
                    subgraphs.take(i as int),
                ),
            decreases self.subgraphs.len() - i,
        {
            assert(subgraphs.take(i + 1).drop_last() =~= subgraphs.take(i as int));
            self.add_subgraph_directives(i);
            i += 1;
        }
        assert(subgraphs.take(self.subgraphs.len() as int) =~= subgraphs);
        Ok(())
    }
}

} // verus!
