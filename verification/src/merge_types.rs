//! Merging of the types that the subgraphs give an element.

use crate::ast::{same_type, FieldDefinition, InputValueDefinition, Node, Type, TypeShape};
use crate::enum_usage::{
    add_usage, next_usage, optional_element, usage_records, EnumExample, EnumExampleAst,
    ExampleElement, ExampleRecord, UsageRecord,
};
use crate::index_map::Sources;
use crate::merger::Merger;
use crate::report::{
    mismatch_hint_record, plain_error, source_texts, CompositionError, ErrorKind, ErrorRecord,
    FederationError, HintCode, Mismatch, MismatchRecord, Report,
};
use crate::schema::{find_type, ExtendedType, TypeDefinition};
use crate::text::{contains_text, same_text, texts};
use vstd::prelude::*;
use vstd::string::*;

verus! {

/// A schema element that has a type.
pub trait SchemaElementWithType: Sized {
    /// The coordinate of the element under its parent.
    spec fn coordinate_text(&self, parent_name: Seq<char>) -> Seq<char>;

    /// Whether the element is the earlier one with the type.
    spec fn is_retyped(&self, before: Self, ty: TypeShape) -> bool;

    /// The element as an example of the use of an enum type.
    spec fn example(&self) -> Option<ExampleElement>;

    /// The coordinate of the element under its parent.
    fn coordinate(&self, parent_name: &str) -> (text: String)
        ensures
            text@ == self.coordinate_text(parent_name@),
    ;

    /// Sets the type of the element.
    fn set_type(&mut self, typ: Type)
        ensures
            final(self).is_retyped(*old(self), typ@),
    ;

    /// The element as an example of the use of an enum type.
    fn enum_example_ast(&self) -> (element: Option<EnumExampleAst>)
        ensures
            optional_element(element) == self.example(),
    ;
}

impl SchemaElementWithType for FieldDefinition {
    open spec fn coordinate_text(&self, parent_name: Seq<char>) -> Seq<char> {
        parent_name + "."@ + self.name@
    }

    open spec fn is_retyped(&self, before: Self, ty: TypeShape) -> bool {
        self.ty@ == ty && *self == (FieldDefinition { ty: self.ty, ..before })
    }

    open spec fn example(&self) -> Option<ExampleElement> {
        Some(ExampleElement::Field(self@, None))
    }

    fn coordinate(&self, parent_name: &str) -> (text: String) {
        parent_name.to_owned().concat(".").concat(self.name.as_str())
    }

    fn set_type(&mut self, typ: Type) {
        self.ty = typ;
    }

    fn enum_example_ast(&self) -> (element: Option<EnumExampleAst>) {
        Some(EnumExampleAst::Field(Node::new(self.clone())))
    }
}

impl SchemaElementWithType for InputValueDefinition {
    open spec fn coordinate_text(&self, parent_name: Seq<char>) -> Seq<char> {
        parent_name + "."@ + self.name@
    }

    open spec fn is_retyped(&self, before: Self, ty: TypeShape) -> bool {
        self.ty@ == ty && *self == (InputValueDefinition { ty: self.ty, ..before })
    }

    open spec fn example(&self) -> Option<ExampleElement> {
        Some(ExampleElement::Input(self@, None))
    }

    fn coordinate(&self, parent_name: &str) -> (text: String) {
        parent_name.to_owned().concat(".").concat(self.name.as_str())
    }

    fn set_type(&mut self, typ: Type) {
        self.ty = typ;
    }

    fn enum_example_ast(&self) -> (element: Option<EnumExampleAst>) {
        Some(EnumExampleAst::Input(Node::new(self.clone())))
    }
}

/// The message about a type that the schema does not have.
pub open spec fn missing_type(name: Seq<char>) -> Seq<char> {
    "Cannot find type '"@ + name + "' in schema"@
}

/// Whether a named type is a direct subtype of another: an object or interface that implements
/// it, or an object or interface that is a member of it. The error is the message about the
/// first type that is not there.
pub open spec fn named_subtype(
    types: Seq<TypeDefinition>,
    supertype: Seq<char>,
    subtype: Seq<char>,
) -> Result<bool, Seq<char>> {
    match (find_type(types, subtype), find_type(types, supertype)) {
        (None, _) => Err(missing_type(subtype)),
        (Some(_), None) => Err(missing_type(supertype)),
        (
            Some(ExtendedType::Object(t) | ExtendedType::Interface(t)),
            Some(ExtendedType::Interface(_)),
        ) => Ok(texts(t.implements_interfaces@).contains(supertype)),
        (
            Some(ExtendedType::Object(_) | ExtendedType::Interface(_)),
            Some(ExtendedType::Union(members)),
        ) => Ok(texts(members@).contains(subtype)),
        _ => Ok(false),
    }
}

/// Whether a type is a strict subtype of another: the non-null form of a type is one of it, a
/// direct subtype is one of a named type, and a list of strict subtypes of its items is one of a
/// list type. A nullable type is no subtype of a non-null one.
pub open spec fn strict_subtype(
    types: Seq<TypeDefinition>,
    supertype: TypeShape,
    subtype: TypeShape,
) -> Result<bool, Seq<char>>
    decreases subtype,
{
    match (subtype, supertype) {
        (TypeShape::List(sub), TypeShape::List(sup)) => strict_subtype(types, *sup, *sub),
        (TypeShape::NonNullList(sub), TypeShape::List(sup)) => if sub == sup {
            Ok(true)
        } else {
            strict_subtype(types, *sup, *sub)
        },
        (TypeShape::NonNullList(sub), TypeShape::NonNullList(sup)) => strict_subtype(
            types,
            *sup,
            *sub,
        ),
        (TypeShape::NonNullNamed(sub), TypeShape::Named(sup)) => if sub == sup {
            Ok(true)
        } else {
            named_subtype(types, sup, sub)
        },
        (TypeShape::Named(sub), TypeShape::Named(sup)) => if sub == sup {
            Ok(false)
        } else {
            named_subtype(types, sup, sub)
        },
        (TypeShape::NonNullNamed(sub), TypeShape::NonNullNamed(sup)) => if sub == sup {
            Ok(false)
        } else {
            named_subtype(types, sup, sub)
        },
        _ => Ok(false),
    }
}

/// The types that the subgraphs give, in order.
pub open spec fn given_types(sources: Seq<(usize, Option<Type>)>) -> Seq<TypeShape>
    decreases sources.len(),
{
    if sources.len() == 0 {
        Seq::empty()
    } else {
        match sources.last().1 {
            Some(ty) => given_types(sources.drop_last()).push(ty@),
            None => given_types(sources.drop_last()),
        }
    }
}

/// What merging some types comes to.
pub struct TypeMerge {
    /// The merged type.
    pub ty: TypeShape,
    /// Whether some type differs from the merged one but is compatible with it.
    pub has_subtypes: bool,
    /// Whether some type is not compatible with the others.
    pub has_incompatible: bool,
}

/// A type without the marks of what is not null, its items included.
pub open spec fn bare_type(ty: TypeShape) -> TypeShape
    decreases ty,
{
    match ty {
        TypeShape::Named(name) | TypeShape::NonNullNamed(name) => TypeShape::Named(name),
        TypeShape::List(item) | TypeShape::NonNullList(item) => TypeShape::List(
            Box::new(bare_type(*item)),
        ),
    }
}

/// Whether two types differ at most in what may be null.
pub open spec fn same_but_for_null(a: TypeShape, b: TypeShape) -> bool {
    bare_type(a) == bare_type(b)
}

/// The one that stands of a type and a strict subtype of it: the subtype in input position, the
/// type in output position. Where the two differ in what may be null alone, the type stands in
/// either position.
pub open spec fn standing_type(supertype: TypeShape, subtype: TypeShape, is_input: bool) ->
    TypeShape {
    if is_input && !same_but_for_null(supertype, subtype) {
        subtype
    } else {
        supertype
    }
}

/// The merge with one more type.
pub open spec fn merge_step(
    types: Seq<TypeDefinition>,
    state: TypeMerge,
    source: TypeShape,
    is_input: bool,
) -> TypeMerge {
    if state.ty == source {
        state
    } else if strict_subtype(types, source, state.ty) == Ok::<bool, Seq<char>>(true) {
        TypeMerge {
            ty: standing_type(source, state.ty, is_input),
            has_subtypes: true,
            ..state
        }
    } else if strict_subtype(types, state.ty, source) == Ok::<bool, Seq<char>>(true) {
        TypeMerge {
            ty: standing_type(state.ty, source, is_input),
            has_subtypes: true,
            ..state
        }
    } else {
        TypeMerge { has_incompatible: true, ..state }
    }
}

/// The merge of some types, at least one.
pub open spec fn merged_types(
    types: Seq<TypeDefinition>,
    given: Seq<TypeShape>,
    is_input: bool,
) -> TypeMerge
    decreases given.len(),
{
    if given.len() <= 1 {
        TypeMerge { ty: given[0], has_subtypes: false, has_incompatible: false }
    } else {
        merge_step(types, merged_types(types, given.drop_last(), is_input), given.last(), is_input)
    }
}

/// The words for the type of an element.
pub open spec fn type_text(ty: TypeShape) -> Seq<char> {
    "type \""@ + ty.notation() + "\""@
}

/// The type that each subgraph gives an element, in words.
pub open spec fn type_texts(sources: Seq<(usize, Option<Type>)>) -> Seq<
    (usize, Option<Seq<char>>),
> {
    sources.map_values(
        |s: (usize, Option<Type>)|
            (
                s.0,
                match s.1 {
                    Some(ty) => Some(type_text(ty@)),
                    None => None,
                },
            ),
    )
}

/// What kind of element has the type.
pub open spec fn element_kind(is_input_position: bool) -> Seq<char> {
    if is_input_position {
        "argument"@
    } else {
        "field"@
    }
}

/// The message about a type that is not in the supergraph.
pub open spec fn missing_target_type(name: Seq<char>) -> Seq<char> {
    "Cannot find type '"@ + name + "' in target schema"@
}

/// The report after a type reference is copied to the supergraph.
pub open spec fn report_copied_type(
    report: Report,
    types: Seq<TypeDefinition>,
    ty: TypeShape,
) -> Report {
    if find_type(types, ty.inner_name()) is Some {
        report
    } else {
        report.with_error(
            plain_error(ErrorKind::InternalError, missing_target_type(ty.inner_name())),
        )
    }
}

/// The uses of the enum types after one more use of a type.
pub open spec fn track_usage(
    usages: Map<Seq<char>, UsageRecord>,
    types: Seq<TypeDefinition>,
    ty: TypeShape,
    example: ExampleRecord,
    is_input_position: bool,
) -> Map<Seq<char>, UsageRecord> {
    let name = ty.inner_name();
    if find_type(types, name) matches Some(ExtendedType::Enum) {
        let current = if usages.contains_key(name) {
            Some(usages[name])
        } else {
            None
        };
        usages.insert(name, next_usage(current, example, is_input_position))
    } else {
        usages
    }
}

/// The report after the types of an element are merged.
pub open spec fn report_type_merge(
    report: Report,
    merge: TypeMerge,
    sources: Seq<(usize, Option<Type>)>,
    coordinate: Seq<char>,
    is_input_position: bool,
) -> Report {
    let mismatch = MismatchRecord { element: type_text(merge.ty), sources: type_texts(sources) };
    if merge.has_incompatible {
        report.with_error(
            ErrorRecord {
                kind: ErrorKind::InternalError,
                message: "Type of "@ + element_kind(is_input_position) + " \""@ + coordinate
                    + "\" is incompatible across subgraphs"@,
                mismatch: Some(mismatch),
            },
        )
    } else if merge.has_subtypes {
        report.with_hint(
            mismatch_hint_record(
                if is_input_position {
                    HintCode::InconsistentButCompatibleArgumentType.code_text()
                } else {
                    HintCode::InconsistentButCompatibleFieldType.code_text()
                },
                "Type of "@ + element_kind(is_input_position) + " \""@ + coordinate
                    + "\" is inconsistent but compatible across subgraphs:"@,
                mismatch,
            ),
        )
    } else {
        report
    }
}

/// Writes the type that each subgraph gives an element in words.
fn write_type_texts(sources: &Sources<Type>) -> (written: Vec<(usize, Option<String>)>)
    requires
        sources.well_formed(),
    ensures
        source_texts(written@) == type_texts(sources@),
{
    let mut written: Vec<(usize, Option<String>)> = Vec::new();
    let mut i: usize = 0;
    while i < sources.len()
        invariant
            i <= sources@.len(),
            written.len() == i,
            sources.well_formed(),
            forall|j: int|
                0 <= j < i ==> (#[trigger] source_texts(written@)[j]) == type_texts(sources@)[j],
        decreases sources@.len() - i,
    {
        let ghost before = written@;
        let text = match sources.item_at(i) {
            Some(ty) => Some(write_type(ty)),
            None => None,
        };
        written.push((sources.key_at(i), text));
        assert forall|j: int| 0 <= j <= i implies (#[trigger] source_texts(written@)[j])
            == type_texts(sources@)[j] by {
            if j < i {
                assert(source_texts(before)[j] == type_texts(sources@)[j]);
            }
        }
        i += 1;
    }
    assert(source_texts(written@) =~= type_texts(sources@));
    written
}

/// Writes a type in words.
fn write_type(ty: &Type) -> (text: String)
    ensures
        text@ == type_text(ty@),
{
    let notation = ty.to_notation();
    "type \"".to_owned().concat(notation.as_str()).concat("\"")
}

/// Whether two types differ at most in what may be null.
fn is_same_but_for_null(a: &Type, b: &Type) -> (same: bool)
    ensures
        same == same_but_for_null(a@, b@),
    decreases a,
{
    match (a, b) {
        (
            Type::Named(first) | Type::NonNullNamed(first),
            Type::Named(second) | Type::NonNullNamed(second),
        ) => same_text(first.as_str(), second.as_str()),
        (
            Type::List(first) | Type::NonNullList(first),
            Type::List(second) | Type::NonNullList(second),
        ) => is_same_but_for_null(first, second),
        _ => false,
    }
}

/// Chooses the one that stands of a type and a strict subtype of it.
fn choose_standing<'a>(supertype: &'a Type, subtype: &'a Type, is_input: bool) -> (standing:
    &'a Type)
    ensures
        standing@ == standing_type(supertype@, subtype@, is_input),
{
    if is_input && !is_same_but_for_null(supertype, subtype) {
        subtype
    } else {
        supertype
    }
}

impl Merger {
    /// Whether a named type is a direct subtype of another.
    pub fn is_named_type_subtype(&self, potential_supertype: &str, potential_subtype: &str) -> (result:
        Result<bool, FederationError>)
        ensures
            match result {
                Ok(is_subtype) => named_subtype(
                    self.merged.types@,
                    potential_supertype@,
                    potential_subtype@,
                ) == Ok::<bool, Seq<char>>(is_subtype),
                Err(error) => named_subtype(
                    self.merged.types@,
                    potential_supertype@,
                    potential_subtype@,
                ) == Err::<bool, Seq<char>>(error.message@),
            },
    {
        let subtype = match self.merged.get_type(potential_subtype) {
            Some(definition) => definition,
            None => {
                return Err(
                    FederationError::internal(
                        "Cannot find type '".to_owned().concat(potential_subtype).concat(
                            "' in schema",
                        ),
                    ),
                );
            },
        };
        let supertype = match self.merged.get_type(potential_supertype) {
            Some(definition) => definition,
            None => {
                return Err(
                    FederationError::internal(
                        "Cannot find type '".to_owned().concat(potential_supertype).concat(
                            "' in schema",
                        ),
                    ),
                );
            },
        };
        match (subtype, supertype) {
            (ExtendedType::Object(t), ExtendedType::Interface(_)) => Ok(
                contains_text(&t.implements_interfaces, potential_supertype),
            ),
            (ExtendedType::Interface(t), ExtendedType::Interface(_)) => Ok(
                contains_text(&t.implements_interfaces, potential_supertype),
            ),
            (ExtendedType::Object(_), ExtendedType::Union(members)) => Ok(
                contains_text(members, potential_subtype),
            ),
            (ExtendedType::Interface(_), ExtendedType::Union(members)) => Ok(
                contains_text(members, potential_subtype),
            ),
            _ => Ok(false),
        }
    }

    /// Whether a type is a strict subtype of another.
    pub fn is_strict_subtype(&self, potential_supertype: &Type, potential_subtype: &Type) -> (result:
        Result<bool, FederationError>)
        ensures
            match result {
                Ok(is_subtype) => strict_subtype(
                    self.merged.types@,
                    potential_supertype@,
                    potential_subtype@,
                ) == Ok::<bool, Seq<char>>(is_subtype),
                Err(error) => strict_subtype(
                    self.merged.types@,
                    potential_supertype@,
                    potential_subtype@,
                ) == Err::<bool, Seq<char>>(error.message@),
            },
        decreases potential_subtype,
    {
        match (potential_subtype, potential_supertype) {
            (Type::List(sub), Type::List(sup)) => self.is_strict_subtype(sup, sub),
            (Type::NonNullList(sub), Type::NonNullList(sup)) => self.is_strict_subtype(sup, sub),
            (Type::NonNullList(sub), Type::List(sup)) => if same_type(sub, sup) {
                Ok(true)
            } else {
                self.is_strict_subtype(sup, sub)
            },
            (Type::List(_), _) => Ok(false),
            (Type::NonNullList(_), _) => Ok(false),
            (Type::NonNullNamed(sub), Type::Named(sup)) => if same_text(
                sub.as_str(),
                sup.as_str(),
            ) {
                Ok(true)
            } else {
                self.is_named_type_subtype(sup.as_str(), sub.as_str())
            },
            (Type::Named(sub), Type::Named(sup)) => self.is_named_strict_subtype(sup, sub),
            (Type::NonNullNamed(sub), Type::NonNullNamed(sup)) => self.is_named_strict_subtype(
                sup,
                sub,
            ),
            _ => Ok(false),
        }
    }

    /// Whether a named type is a direct subtype of another one that is not itself.
    fn is_named_strict_subtype(&self, supertype: &String, subtype: &String) -> (result: Result<
        bool,
        FederationError,
    >)
        ensures
            subtype@ == supertype@ ==> result == Ok::<bool, FederationError>(false),
            subtype@ != supertype@ ==> match result {
                Ok(is_subtype) => named_subtype(self.merged.types@, supertype@, subtype@) == Ok::<
                    bool,
                    Seq<char>,
                >(is_subtype),
                Err(error) => named_subtype(self.merged.types@, supertype@, subtype@) == Err::<
                    bool,
                    Seq<char>,
                >(error.message@),
            },
    {
        if same_text(subtype.as_str(), supertype.as_str()) {
            Ok(false)
        } else {
            self.is_named_type_subtype(supertype.as_str(), subtype.as_str())
        }
    }

    /// Copies a type reference to the supergraph; reports an error where the supergraph does not
    /// have the type.
    pub fn copy_type_reference(&mut self, source_type: &Type) -> (result: Result<
        Type,
        FederationError,
    >)
        ensures
            result matches Ok(copy) && copy@ == source_type@,
            final(self).error_reporter@ == report_copied_type(
                old(self).error_reporter@,
                old(self).merged.types@,
                source_type@,
            ),
            *final(self) == (Merger { error_reporter: final(self).error_reporter, ..*old(self) }),
    {
        let name = source_type.inner_named_type();
        if self.merged.get_type(name.as_str()).is_none() {
            self.error_reporter.add_error(
                CompositionError::new(
                    ErrorKind::InternalError,
                    "Cannot find type '".to_owned().concat(name.as_str()).concat(
                        "' in target schema",
                    ),
                ),
            );
        }
        Ok(source_type.clone())
    }

    /// Records the use of an enum type by an element; other types are not recorded.
    pub fn track_enum_usage(
        &mut self,
        typ: &Type,
        element_name: String,
        element_ast: Option<EnumExampleAst>,
        is_input_position: bool,
    )
        ensures
            usage_records(final(self).enum_usages@) == track_usage(
                usage_records(old(self).enum_usages@),
                old(self).merged.types@,
                typ@,
                (ExampleRecord {
                    coordinate: element_name@,
                    element: optional_element(element_ast),
                }),
                is_input_position,
            ),
            *final(self) == (Merger { enum_usages: final(self).enum_usages, ..*old(self) }),
    {
        let ghost before = usage_records(self.enum_usages@);
        let name = typ.inner_named_type();
        if let Some(ExtendedType::Enum) = self.merged.get_type(name.as_str()) {
            let example = EnumExample { coordinate: element_name, element_ast };
            let usage = add_usage(
                self.enum_usages.get(name.as_str()),
                example,
                is_input_position,
            );
            self.enum_usages.insert(name.clone(), usage);
            assert(usage_records(self.enum_usages@) =~= before.insert(name@, usage@));
        }
    }

    /// Merges the types that the subgraphs give an element, and sets the type of the element.
    ///
    /// Of two compatible types the more general one is taken in output position and the more
    /// specific one in input position; where they differ in what may be null alone, the one that
    /// may be null is taken in both. Reports an error about types that are not compatible and a
    /// hint about compatible ones that differ, and records the use of enum types. The result says
    /// whether the subgraphs agree.
    pub fn merge_type_reference<TElement>(
        &mut self,
        sources: &Sources<Type>,
        dest: &mut TElement,
        is_input_position: bool,
        parent_typename: &str,
    ) -> (result: Result<bool, FederationError>) where TElement: SchemaElementWithType
        requires
            sources.well_formed(),
        ensures
            *final(self) == (Merger {
                error_reporter: final(self).error_reporter,
                enum_usages: final(self).enum_usages,
                ..*old(self)
            }),
            sources@.len() == 0 ==> result == Ok::<bool, FederationError>(false) && *final(dest)
                == *old(dest) && final(self).enum_usages == old(self).enum_usages
                && final(self).error_reporter@ == old(self).error_reporter@.with_error(
                plain_error(
                    ErrorKind::InternalError,
                    "No type sources provided for merging "@ + old(dest).coordinate_text(
                        parent_typename@,
                    ),
                ),
            ),
            sources@.len() > 0 && given_types(sources@).len() == 0 ==> result == Ok::<
                bool,
                FederationError,
            >(false) && *final(dest) == *old(dest) && final(self).enum_usages == old(
                self,
            ).enum_usages && final(self).error_reporter@ == old(self).error_reporter@.with_error(
                plain_error(
                    ErrorKind::InternalError,
                    "No type sources provided for "@ + old(dest).coordinate_text(parent_typename@)
                        + " across subgraphs"@,
                ),
            ),
            given_types(sources@).len() > 0 ==> {
                let types = old(self).merged.types@;
                let merge = merged_types(types, given_types(sources@), is_input_position);
                let coordinate = final(dest).coordinate_text(parent_typename@);
                &&& result == Ok::<bool, FederationError>(
                    !merge.has_subtypes && !merge.has_incompatible,
                )
                &&& final(dest).is_retyped(*old(dest), merge.ty)
                &&& final(self).error_reporter@ == report_type_merge(
                    report_copied_type(old(self).error_reporter@, types, merge.ty),
                    merge,
                    sources@,
                    coordinate,
                    is_input_position,
                )
                &&& usage_records(final(self).enum_usages@) == track_usage(
                    usage_records(old(self).enum_usages@),
                    types,
                    merge.ty,
                    ExampleRecord { coordinate, element: final(dest).example() },
                    is_input_position,
                )
            },
    {
        if sources.is_empty() {
            let coordinate = dest.coordinate(parent_typename);
            self.error_reporter.add_error(
                CompositionError::new(
                    ErrorKind::InternalError,
                    "No type sources provided for merging ".to_owned().concat(coordinate.as_str()),
                ),
            );
            return Ok(false);
        }
        let ghost all = sources@;
        let ghost types = self.merged.types@;
        let mut merged: Option<&Type> = None;
        let mut has_subtypes = false;
        let mut has_incompatible = false;
        let mut i: usize = 0;
        assert(all.take(0) =~= Seq::<(usize, Option<Type>)>::empty());
        while i < sources.len()
            invariant
                i <= sources@.len(),
                all == sources@,
                types == self.merged.types@,
                *self == *old(self),
                *dest == *old(dest),
                match merged {
                    None => given_types(all.take(i as int)).len() == 0,
                    Some(ty) => given_types(all.take(i as int)).len() > 0 && merged_types(
                        types,
                        given_types(all.take(i as int)),
                        is_input_position,
                    ) == (TypeMerge { ty: ty@, has_subtypes, has_incompatible }),
                },
                merged is None ==> !has_subtypes && !has_incompatible,
            decreases sources@.len() - i,
        {
            let ghost grown = all.take(i + 1);
            assert(grown.drop_last() =~= all.take(i as int));
            let ghost before = given_types(all.take(i as int));
            if let Some(source) = sources.item_at(i) {
                assert(before.push(source@).drop_last() =~= before);
                match merged {
                    None => {
                        merged = Some(source);
                    },
                    Some(typ) => {
                        if !same_type(typ, source) {
                            if let Ok(true) = self.is_strict_subtype(source, typ) {
                                has_subtypes = true;
                                merged = Some(choose_standing(source, typ, is_input_position));
                            } else if let Ok(true) = self.is_strict_subtype(typ, source) {
                                has_subtypes = true;
                                merged = Some(choose_standing(typ, source, is_input_position));
                            } else {
                                has_incompatible = true;
                            }
                        }
                    },
                }
            }
            i += 1;
        }
        assert(all.take(all.len() as int) =~= all);
        let typ = match merged {
            Some(typ) => typ,
            None => {
                let coordinate = dest.coordinate(parent_typename);
                self.error_reporter.add_error(
                    CompositionError::new(
                        ErrorKind::InternalError,
                        "No type sources provided for ".to_owned().concat(
                            coordinate.as_str(),
                        ).concat(" across subgraphs"),
                    ),
                );
                return Ok(false);
            },
        };
        let copied_type = self.copy_type_reference(typ)?;
        dest.set_type(copied_type);
        let coordinate = dest.coordinate(parent_typename);
        let element = dest.enum_example_ast();
        self.track_enum_usage(typ, coordinate.clone(), element, is_input_position);
        let kind = if is_input_position {
            "argument"
        } else {
            "field"
        };
        if has_incompatible {
            let message = "Type of ".to_owned().concat(kind).concat(" \"").concat(
                coordinate.as_str(),
            ).concat("\" is incompatible across subgraphs");
            self.error_reporter.report_mismatch_error(
                CompositionError::new(ErrorKind::InternalError, message),
                Mismatch { element: write_type(typ), sources: write_type_texts(sources) },
            );
            Ok(false)
        } else if has_subtypes {
            let text = "Type of ".to_owned().concat(kind).concat(" \"").concat(
                coordinate.as_str(),
            ).concat("\" is inconsistent but compatible across subgraphs:");
            let code = if is_input_position {
                HintCode::InconsistentButCompatibleArgumentType
            } else {
                HintCode::InconsistentButCompatibleFieldType
            };
            self.error_reporter.report_mismatch_hint(
                code,
                text,
                Mismatch { element: write_type(typ), sources: write_type_texts(sources) },
            );
            Ok(false)
        } else {
            Ok(true)
        }
    }
}

/// No type is a strict subtype of itself.
pub proof fn law_no_type_is_its_own_strict_subtype(types: Seq<TypeDefinition>, ty: TypeShape)
    ensures
        strict_subtype(types, ty, ty) == Ok::<bool, Seq<char>>(false),
    decreases ty,
{
    match ty {
        TypeShape::List(item) => law_no_type_is_its_own_strict_subtype(types, *item),
        TypeShape::NonNullList(item) => law_no_type_is_its_own_strict_subtype(types, *item),
        _ => {},
    }
}

/// The non-null form of a type.
pub open spec fn non_null_form(ty: TypeShape) -> TypeShape {
    match ty {
        TypeShape::Named(name) => TypeShape::NonNullNamed(name),
        TypeShape::List(item) => TypeShape::NonNullList(item),
        _ => ty,
    }
}

/// Whether a value of the type may be null.
pub open spec fn may_be_null(ty: TypeShape) -> bool {
    ty is Named || ty is List
}

/// The non-null form of a type that may be null is a strict subtype of it, lists included,
/// whether the schema has the type or not.
pub proof fn law_non_null_form_is_a_strict_subtype(types: Seq<TypeDefinition>, ty: TypeShape)
    requires
        may_be_null(ty),
    ensures
        strict_subtype(types, ty, non_null_form(ty)) == Ok::<bool, Seq<char>>(true),
{
}

/// A type that may be null is no strict subtype of one that may not.
pub proof fn law_nullable_type_is_no_subtype_of_a_non_null_one(
    types: Seq<TypeDefinition>,
    supertype: TypeShape,
    subtype: TypeShape,
)
    requires
        may_be_null(subtype),
        !may_be_null(supertype),
    ensures
        strict_subtype(types, supertype, subtype) == Ok::<bool, Seq<char>>(false),
{
}

/// Where two different types that may be null relate, their non-null forms relate in the same
/// way, and so does the non-null form of the one to the other.
pub proof fn law_non_null_forms_relate_as_the_types(
    types: Seq<TypeDefinition>,
    supertype: TypeShape,
    subtype: TypeShape,
)
    requires
        may_be_null(supertype),
        may_be_null(subtype),
        supertype != subtype,
    ensures
        ({
            let related = strict_subtype(types, supertype, subtype);
            &&& strict_subtype(types, non_null_form(supertype), non_null_form(subtype)) == related
            &&& strict_subtype(types, supertype, non_null_form(subtype)) == related
        }),
{
}

/// A list of one type relates to a list of another as the types do, and nothing but a list
/// relates to a list.
pub proof fn law_lists_relate_as_their_items(
    types: Seq<TypeDefinition>,
    supertype: TypeShape,
    subtype: TypeShape,
    name: Seq<char>,
)
    ensures
        ({
            let sup = TypeShape::List(Box::new(supertype));
            let sub = TypeShape::List(Box::new(subtype));
            let unrelated = Ok::<bool, Seq<char>>(false);
            &&& strict_subtype(types, sup, sub) == strict_subtype(types, supertype, subtype)
            &&& strict_subtype(types, TypeShape::Named(name), sub) == unrelated
            &&& strict_subtype(types, sup, TypeShape::Named(name)) == unrelated
        }),
{
}

/// Where all subgraphs give the same type, that type is the merged one and there is nothing to
/// report.
pub proof fn law_same_types_agree(
    types: Seq<TypeDefinition>,
    given: Seq<TypeShape>,
    report: Report,
    sources: Seq<(usize, Option<Type>)>,
    coordinate: Seq<char>,
    is_input_position: bool,
)
    requires
        given.len() > 0,
        forall|i: int| 0 <= i < given.len() ==> #[trigger] given[i] == given[0],
    ensures
        merged_types(types, given, is_input_position) == (TypeMerge {
            ty: given[0],
            has_subtypes: false,
            has_incompatible: false,
        }),
        report_type_merge(
            report,
            merged_types(types, given, is_input_position),
            sources,
            coordinate,
            is_input_position,
        ) == report,
    decreases given.len(),
{
    if given.len() > 1 {
        let rest = given.drop_last();
        assert(rest[0] == given[0]);
        law_same_types_agree(types, rest, report, sources, coordinate, is_input_position);
        assert(given[given.len() - 1] == given[0]);
    }
}

/// The merged type is one of the types that the subgraphs give.
pub proof fn law_merged_type_is_given(
    types: Seq<TypeDefinition>,
    given: Seq<TypeShape>,
    is_input: bool,
)
    requires
        given.len() > 0,
    ensures
        given.contains(merged_types(types, given, is_input).ty),
    decreases given.len(),
{
    if given.len() == 1 {
        assert(given[0] == merged_types(types, given, is_input).ty);
    } else {
        let rest = given.drop_last();
        law_merged_type_is_given(types, rest, is_input);
        let at = rest.index_of(merged_types(types, rest, is_input).ty);
        assert(given[at] == merged_types(types, rest, is_input).ty);
        assert(given[given.len() - 1] == given.last());
    }
}

/// Of a type and a strict subtype of it, in output position the more general one is taken and in
/// input position the more specific one, whichever comes first. Where the two differ in what may
/// be null alone, the more general one is taken in input position too. Left out are types that are
/// strict subtypes of each other.
pub proof fn law_position_decides_between_type_and_subtype(
    types: Seq<TypeDefinition>,
    supertype: TypeShape,
    subtype: TypeShape,
    is_input: bool,
)
    requires
        strict_subtype(types, supertype, subtype) == Ok::<bool, Seq<char>>(true),
        strict_subtype(types, subtype, supertype) != Ok::<bool, Seq<char>>(true),
    ensures
        merged_types(types, seq![supertype, subtype], is_input) == (TypeMerge {
            ty: if is_input && !same_but_for_null(supertype, subtype) {
                subtype
            } else {
                supertype
            },
            has_subtypes: true,
            has_incompatible: false,
        }),
        merged_types(types, seq![subtype, supertype], is_input) == merged_types(
            types,
            seq![supertype, subtype],
            is_input,
        ),
{
    reveal_with_fuel(merged_types, 2);
    law_no_type_is_its_own_strict_subtype(types, subtype);
    assert(seq![supertype, subtype].drop_last() =~= seq![supertype]);
    assert(seq![subtype, supertype].drop_last() =~= seq![subtype]);
}

/// Of a type and its non-null form the one that may be null is taken, in either position.
pub proof fn law_nullable_type_stands(
    types: Seq<TypeDefinition>,
    ty: TypeShape,
    is_input: bool,
)
    requires
        may_be_null(ty),
    ensures
        merged_types(types, seq![ty, non_null_form(ty)], is_input).ty == ty,
        merged_types(types, seq![non_null_form(ty), ty], is_input).ty == ty,
        !merged_types(types, seq![ty, non_null_form(ty)], is_input).has_incompatible,
        !merged_types(types, seq![non_null_form(ty), ty], is_input).has_incompatible,
{
    law_non_null_form_is_a_strict_subtype(types, ty);
    law_nullable_type_is_no_subtype_of_a_non_null_one(types, non_null_form(ty), ty);
    law_position_decides_between_type_and_subtype(types, ty, non_null_form(ty), is_input);
}

/// Types that are incompatible stay so, whatever types follow.
pub proof fn law_incompatibility_remains(
    types: Seq<TypeDefinition>,
    given: Seq<TypeShape>,
    later: TypeShape,
    is_input: bool,
)
    requires
        given.len() > 0,
        merged_types(types, given, is_input).has_incompatible,
    ensures
        merged_types(types, given.push(later), is_input).has_incompatible,
{
    assert(given.push(later).drop_last() =~= given);
}

/// Merging the types of an element only adds to what was reported before.
pub proof fn law_type_merge_only_adds(
    report: Report,
    types: Seq<TypeDefinition>,
    merge: TypeMerge,
    sources: Seq<(usize, Option<Type>)>,
    coordinate: Seq<char>,
    is_input_position: bool,
)
    ensures
        report.is_start_of(
            report_type_merge(
                report_copied_type(report, types, merge.ty),
                merge,
                sources,
                coordinate,
                is_input_position,
            ),
        ),
{
}

} // verus!
