//! Schemas: their types, their directive definitions and the directives applied to them.

use crate::ast::{Directive, DirectiveDefinition, DirectiveShape, FieldDefinition};
use crate::report::FederationError;
use crate::text::{contains_text, same_text, texts};
use vstd::prelude::*;
use vstd::string::*;

verus! {

/// The kind of a type definition.
#[derive(Debug, Clone, Copy, PartialEq, Eq, Structural)]
pub enum TypeKind {
    Scalar,
    Object,
    Interface,
    Union,
    Enum,
    InputObject,
}

impl TypeKind {
    /// The kind in the words of a message.
    pub open spec fn description(self) -> Seq<char> {
        match self {
            TypeKind::Scalar => "Scalar Type"@,
            TypeKind::Object => "Object Type"@,
            TypeKind::Interface => "Interface Type"@,
            TypeKind::Union => "Union Type"@,
            TypeKind::Enum => "Enum Type"@,
            TypeKind::InputObject => "InputObject Type"@,
        }
    }

    /// The kind in the words of a message.
    pub fn describe(self) -> (text: &'static str)
        ensures
            text@ == self.description(),
    {
        match self {
            TypeKind::Scalar => "Scalar Type",
            TypeKind::Object => "Object Type",
            TypeKind::Interface => "Interface Type",
            TypeKind::Union => "Union Type",
            TypeKind::Enum => "Enum Type",
            TypeKind::InputObject => "InputObject Type",
        }
    }
}

/// The interfaces and the fields of an object or interface type.
#[derive(Debug)]
pub struct FieldsType {
    pub implements_interfaces: Vec<String>,
    pub fields: Vec<FieldDefinition>,
}

/// A type definition.
#[derive(Debug)]
pub enum ExtendedType {
    Scalar,
    Object(FieldsType),
    Interface(FieldsType),
    /// The names of the members.
    Union(Vec<String>),
    Enum,
    InputObject,
}

impl ExtendedType {
    /// The kind of the definition.
    pub open spec fn spec_kind(self) -> TypeKind {
        match self {
            ExtendedType::Scalar => TypeKind::Scalar,
            ExtendedType::Object(_) => TypeKind::Object,
            ExtendedType::Interface(_) => TypeKind::Interface,
            ExtendedType::Union(_) => TypeKind::Union,
            ExtendedType::Enum => TypeKind::Enum,
            ExtendedType::InputObject => TypeKind::InputObject,
        }
    }

    /// The kind of the definition.
    pub fn kind(&self) -> (kind: TypeKind)
        ensures
            kind == self.spec_kind(),
    {
        match self {
            ExtendedType::Scalar => TypeKind::Scalar,
            ExtendedType::Object(_) => TypeKind::Object,
            ExtendedType::Interface(_) => TypeKind::Interface,
            ExtendedType::Union(_) => TypeKind::Union,
            ExtendedType::Enum => TypeKind::Enum,
            ExtendedType::InputObject => TypeKind::InputObject,
        }
    }

    /// Whether the definition has no interfaces, fields or members.
    pub open spec fn is_bare(self) -> bool {
        match self {
            ExtendedType::Object(t) => t.implements_interfaces@.len() == 0 && t.fields@.len() == 0,
            ExtendedType::Interface(t) => t.implements_interfaces@.len() == 0 && t.fields@.len()
                == 0,
            ExtendedType::Union(members) => members@.len() == 0,
            _ => true,
        }
    }

    /// A definition of the kind without interfaces, fields or members.
    pub fn bare(kind: TypeKind) -> (definition: ExtendedType)
        ensures
            definition.spec_kind() == kind,
            definition.is_bare(),
    {
        match kind {
            TypeKind::Scalar => ExtendedType::Scalar,
            TypeKind::Object => ExtendedType::Object(
                FieldsType { implements_interfaces: Vec::new(), fields: Vec::new() },
            ),
            TypeKind::Interface => ExtendedType::Interface(
                FieldsType { implements_interfaces: Vec::new(), fields: Vec::new() },
            ),
            TypeKind::Union => ExtendedType::Union(Vec::new()),
            TypeKind::Enum => ExtendedType::Enum,
            TypeKind::InputObject => ExtendedType::InputObject,
        }
    }
}

/// A type definition under its name.
#[derive(Debug)]
pub struct TypeDefinition {
    pub name: String,
    pub definition: ExtendedType,
}

/// The name and kind of a type.
#[derive(Debug)]
pub struct TypeDefinitionPosition {
    pub typename: String,
    pub kind: TypeKind,
}

/// What the position of a type is.
pub struct TypePosition {
    pub typename: Seq<char>,
    pub kind: TypeKind,
}

impl View for TypeDefinitionPosition {
    type V = TypePosition;

    open spec fn view(&self) -> TypePosition {
        TypePosition { typename: self.typename@, kind: self.kind }
    }
}

impl Clone for TypeDefinitionPosition {
    fn clone(&self) -> (copy: Self)
        ensures
            copy@ == self@,
    {
        TypeDefinitionPosition { typename: self.typename.clone(), kind: self.kind }
    }
}

/// What each type position of a list is.
pub open spec fn type_positions(positions: Seq<TypeDefinitionPosition>) -> Seq<TypePosition> {
    positions.map_values(|p: TypeDefinitionPosition| p@)
}

/// Whether a list holds the position of a type.
pub fn contains_type_position(
    list: &Vec<TypeDefinitionPosition>,
    position: &TypeDefinitionPosition,
) -> (found: bool)
    ensures
        found == type_positions(list@).contains(position@),
{
    let mut i: usize = 0;
    while i < list.len()
        invariant
            i <= list.len(),
            forall|j: int| 0 <= j < i ==> (#[trigger] list@[j])@ != position@,
        decreases list.len() - i,
    {
        if list[i].kind == position.kind && same_text(
            list[i].typename.as_str(),
            position.typename.as_str(),
        ) {
            assert(type_positions(list@)[i as int] == position@);
            return true;
        }
        i += 1;
    }
    assert forall|j: int| 0 <= j < type_positions(list@).len() implies type_positions(list@)[j]
        != position@ by {
        assert(type_positions(list@)[j] == list@[j]@);
    }
    false
}

/// The first definition with the name.
pub open spec fn find_type(types: Seq<TypeDefinition>, name: Seq<char>) -> Option<ExtendedType>
    decreases types.len(),
{
    if types.len() == 0 {
        None
    } else if types[0].name@ == name {
        Some(types[0].definition)
    } else {
        find_type(types.skip(1), name)
    }
}

/// Finds the first definition with the name.
pub fn lookup_type<'a>(types: &'a Vec<TypeDefinition>, name: &str) -> (found: Option<
    &'a ExtendedType,
>)
    ensures
        match found {
            Some(definition) => find_type(types@, name@) == Some(*definition),
            None => find_type(types@, name@) is None,
        },
{
    let mut i: usize = 0;
    assert(types@.skip(0) =~= types@);
    while i < types.len()
        invariant
            i <= types.len(),
            find_type(types@, name@) == find_type(types@.skip(i as int), name@),
        decreases types.len() - i,
    {
        assert(types@.skip(i as int).skip(1) =~= types@.skip(i + 1));
        if same_text(types[i].name.as_str(), name) {
            return Some(&types[i].definition);
        }
        i += 1;
    }
    None
}

/// The fields of a type, if it has fields.
pub open spec fn fields_of(ty: TypeDefinition) -> Seq<FieldDefinition> {
    match ty.definition {
        ExtendedType::Object(t) => t.fields@,
        ExtendedType::Interface(t) => t.fields@,
        _ => Seq::empty(),
    }
}

/// The first field with the name.
pub open spec fn find_field(fields: Seq<FieldDefinition>, name: Seq<char>) -> Option<
    FieldDefinition,
>
    decreases fields.len(),
{
    if fields.len() == 0 {
        None
    } else if fields[0].name@ == name {
        Some(fields[0])
    } else {
        find_field(fields.skip(1), name)
    }
}

/// Finds the first field with the name.
pub fn lookup_field<'a>(fields: &'a Vec<FieldDefinition>, name: &str) -> (found: Option<
    &'a FieldDefinition,
>)
    ensures
        match found {
            Some(field) => find_field(fields@, name@) == Some(*field),
            None => find_field(fields@, name@) is None,
        },
{
    let mut i: usize = 0;
    assert(fields@.skip(0) =~= fields@);
    while i < fields.len()
        invariant
            i <= fields.len(),
            find_field(fields@, name@) == find_field(fields@.skip(i as int), name@),
        decreases fields.len() - i,
    {
        assert(fields@.skip(i as int).skip(1) =~= fields@.skip(i + 1));
        if same_text(fields[i].name.as_str(), name) {
            return Some(&fields[i]);
        }
        i += 1;
    }
    None
}

/// A field under the type that declares it.
#[derive(Debug)]
pub enum FieldDefinitionPosition {
    Object(FieldPosition),
    Interface(FieldPosition),
    /// The `__typename` field of a union.
    Union(String),
}

/// The name of a type and of one of its fields.
#[derive(Debug)]
pub struct FieldPosition {
    pub typename: String,
    pub field_name: String,
}

/// What the position of a field is.
pub enum FieldPlace {
    Object(Seq<char>, Seq<char>),
    Interface(Seq<char>, Seq<char>),
    Union(Seq<char>),
}

impl View for FieldDefinitionPosition {
    type V = FieldPlace;

    open spec fn view(&self) -> FieldPlace {
        match self {
            FieldDefinitionPosition::Object(p) => FieldPlace::Object(p.typename@, p.field_name@),
            FieldDefinitionPosition::Interface(p) => FieldPlace::Interface(
                p.typename@,
                p.field_name@,
            ),
            FieldDefinitionPosition::Union(name) => FieldPlace::Union(name@),
        }
    }
}

impl FieldDefinitionPosition {
    /// Whether two positions are the same.
    pub fn same_as(&self, other: &FieldDefinitionPosition) -> (same: bool)
        ensures
            same == (self@ == other@),
    {
        match (self, other) {
            (FieldDefinitionPosition::Object(a), FieldDefinitionPosition::Object(b)) => same_text(
                a.typename.as_str(),
                b.typename.as_str(),
            ) && same_text(a.field_name.as_str(), b.field_name.as_str()),
            (
                FieldDefinitionPosition::Interface(a),
                FieldDefinitionPosition::Interface(b),
            ) => same_text(a.typename.as_str(), b.typename.as_str()) && same_text(
                a.field_name.as_str(),
                b.field_name.as_str(),
            ),
            (FieldDefinitionPosition::Union(a), FieldDefinitionPosition::Union(b)) => same_text(
                a.as_str(),
                b.as_str(),
            ),
            _ => false,
        }
    }
}

/// What each field position of a list is.
pub open spec fn field_places(positions: Seq<FieldDefinitionPosition>) -> Seq<FieldPlace> {
    positions.map_values(|p: FieldDefinitionPosition| p@)
}

/// Whether a list holds the position of a field.
pub fn contains_field_position(
    list: &Vec<FieldDefinitionPosition>,
    position: &FieldDefinitionPosition,
) -> (found: bool)
    ensures
        found == field_places(list@).contains(position@),
{
    let mut i: usize = 0;
    while i < list.len()
        invariant
            i <= list.len(),
            forall|j: int| 0 <= j < i ==> (#[trigger] list@[j])@ != position@,
        decreases list.len() - i,
    {
        if list[i].same_as(position) {
            assert(field_places(list@)[i as int] == position@);
            return true;
        }
        i += 1;
    }
    assert forall|j: int| 0 <= j < field_places(list@).len() implies field_places(list@)[j]
        != position@ by {
        assert(field_places(list@)[j] == list@[j]@);
    }
    false
}

/// An element that a directive is applied to.
#[derive(Debug)]
pub enum DirectiveTargetPosition {
    ObjectField(FieldPosition),
    InterfaceField(FieldPosition),
    /// Any other element, by its coordinate.
    Element(String),
}

/// What the target of a directive is.
pub enum Target {
    ObjectField(Seq<char>, Seq<char>),
    InterfaceField(Seq<char>, Seq<char>),
    Element(Seq<char>),
}

impl Target {
    /// The coordinate of the element.
    pub open spec fn coordinate(self) -> Seq<char> {
        match self {
            Target::ObjectField(typename, field_name) => typename + "."@ + field_name,
            Target::InterfaceField(typename, field_name) => typename + "."@ + field_name,
            Target::Element(coordinate) => coordinate,
        }
    }
}

impl View for DirectiveTargetPosition {
    type V = Target;

    open spec fn view(&self) -> Target {
        match self {
            DirectiveTargetPosition::ObjectField(p) => Target::ObjectField(
                p.typename@,
                p.field_name@,
            ),
            DirectiveTargetPosition::InterfaceField(p) => Target::InterfaceField(
                p.typename@,
                p.field_name@,
            ),
            DirectiveTargetPosition::Element(coordinate) => Target::Element(coordinate@),
        }
    }
}

impl Clone for DirectiveTargetPosition {
    fn clone(&self) -> (copy: Self)
        ensures
            copy@ == self@,
    {
        match self {
            DirectiveTargetPosition::ObjectField(p) => DirectiveTargetPosition::ObjectField(
                FieldPosition { typename: p.typename.clone(), field_name: p.field_name.clone() },
            ),
            DirectiveTargetPosition::InterfaceField(p) => DirectiveTargetPosition::InterfaceField(
                FieldPosition { typename: p.typename.clone(), field_name: p.field_name.clone() },
            ),
            DirectiveTargetPosition::Element(coordinate) => DirectiveTargetPosition::Element(
                coordinate.clone(),
            ),
        }
    }
}

impl DirectiveTargetPosition {
    /// Whether two targets are the same.
    pub fn same_as(&self, other: &DirectiveTargetPosition) -> (same: bool)
        ensures
            same == (self@ == other@),
    {
        match (self, other) {
            (
                DirectiveTargetPosition::ObjectField(a),
                DirectiveTargetPosition::ObjectField(b),
            ) => same_text(a.typename.as_str(), b.typename.as_str()) && same_text(
                a.field_name.as_str(),
                b.field_name.as_str(),
            ),
            (
                DirectiveTargetPosition::InterfaceField(a),
                DirectiveTargetPosition::InterfaceField(b),
            ) => same_text(a.typename.as_str(), b.typename.as_str()) && same_text(
                a.field_name.as_str(),
                b.field_name.as_str(),
            ),
            (
                DirectiveTargetPosition::Element(a),
                DirectiveTargetPosition::Element(b),
            ) => same_text(a.as_str(), b.as_str()),
            _ => false,
        }
    }

    /// The coordinate of the element.
    pub fn to_coordinate(&self) -> (text: String)
        ensures
            text@ == self@.coordinate(),
    {
        match self {
            DirectiveTargetPosition::ObjectField(p) => p.typename.clone().concat(".").concat(
                p.field_name.as_str(),
            ),
            DirectiveTargetPosition::InterfaceField(p) => p.typename.clone().concat(".").concat(
                p.field_name.as_str(),
            ),
            DirectiveTargetPosition::Element(coordinate) => coordinate.clone(),
        }
    }
}

/// What each target of a list is.
pub open spec fn targets(positions: Seq<DirectiveTargetPosition>) -> Seq<Target> {
    positions.map_values(|p: DirectiveTargetPosition| p@)
}

/// Whether a list holds a target.
pub fn contains_target(
    list: &Vec<DirectiveTargetPosition>,
    target: &DirectiveTargetPosition,
) -> (found: bool)
    ensures
        found == targets(list@).contains(target@),
{
    let mut i: usize = 0;
    while i < list.len()
        invariant
            i <= list.len(),
            forall|j: int| 0 <= j < i ==> (#[trigger] list@[j])@ != target@,
        decreases list.len() - i,
    {
        if list[i].same_as(target) {
            assert(targets(list@)[i as int] == target@);
            return true;
        }
        i += 1;
    }
    assert forall|j: int| 0 <= j < targets(list@).len() implies targets(list@)[j] != target@ by {
        assert(targets(list@)[j] == list@[j]@);
    }
    false
}

/// The list with the item at its end, unless it holds the item already.
pub open spec fn with_distinct<A>(list: Seq<A>, item: A) -> Seq<A> {
    if list.contains(item) {
        list
    } else {
        list.push(item)
    }
}

/// The first list with the items of the second one that it does not hold yet, in their order.
pub open spec fn with_all_distinct<A>(list: Seq<A>, items: Seq<A>) -> Seq<A>
    decreases items.len(),
{
    if items.len() == 0 {
        list
    } else {
        with_distinct(with_all_distinct(list, items.drop_last()), items.last())
    }
}

/// Adds a target to a list that does not hold it yet.
pub fn add_target(list: &mut Vec<DirectiveTargetPosition>, target: &DirectiveTargetPosition)
    ensures
        targets(final(list)@) == with_distinct(targets(old(list)@), target@),
{
    if !contains_target(list, target) {
        list.push(target.clone());
        assert(targets(list@) =~= targets(old(list)@).push(target@));
    }
}

/// Adds each target of the second list that the first one does not hold yet.
pub fn extend_targets(
    list: &mut Vec<DirectiveTargetPosition>,
    added: &Vec<DirectiveTargetPosition>,
)
    ensures
        targets(final(list)@) == with_all_distinct(targets(old(list)@), targets(added@)),
{
    let ghost before = targets(list@);
    let mut i: usize = 0;
    assert(targets(added@).take(0) =~= Seq::<Target>::empty());
    while i < added.len()
        invariant
            i <= added.len(),
            targets(list@) == with_all_distinct(before, targets(added@).take(i as int)),
        decreases added.len() - i,
    {
        let ghost grown = targets(added@).take(i + 1);
        assert(grown.drop_last() =~= targets(added@).take(i as int));
        assert(grown.last() == added@[i as int]@);
        add_target(list, &added[i]);
        i += 1;
    }
    assert(targets(added@).take(added.len() as int) =~= targets(added@));
}

/// A directive applied to an element.
#[derive(Debug)]
pub struct AppliedDirective {
    pub target: DirectiveTargetPosition,
    pub directive: Directive,
}

/// What an applied directive is.
pub struct Application {
    pub target: Target,
    pub directive: DirectiveShape,
}

impl View for AppliedDirective {
    type V = Application;

    open spec fn view(&self) -> Application {
        Application { target: self.target@, directive: self.directive@ }
    }
}

/// What each applied directive of a list is.
pub open spec fn applications(applied: Seq<AppliedDirective>) -> Seq<Application> {
    applied.map_values(|a: AppliedDirective| a@)
}

/// The elements that the directive is applied to, each once, in the order of the applications.
pub open spec fn referencers(applied: Seq<Application>, name: Seq<char>) -> Seq<Target>
    decreases applied.len(),
{
    if applied.len() == 0 {
        Seq::empty()
    } else if applied.last().directive.name == name {
        with_distinct(referencers(applied.drop_last(), name), applied.last().target)
    } else {
        referencers(applied.drop_last(), name)
    }
}

/// The applications of the directive to the element, in order.
pub open spec fn applied_at(applied: Seq<Application>, target: Target, name: Seq<char>) -> Seq<
    DirectiveShape,
>
    decreases applied.len(),
{
    if applied.len() == 0 {
        Seq::empty()
    } else if applied.last().directive.name == name && applied.last().target == target {
        applied_at(applied.drop_last(), target, name).push(applied.last().directive)
    } else {
        applied_at(applied.drop_last(), target, name)
    }
}

/// Lists the elements that the directive is applied to.
pub fn list_referencers(applied: &Vec<AppliedDirective>, name: &str) -> (list: Vec<
    DirectiveTargetPosition,
>)
    ensures
        targets(list@) == referencers(applications(applied@), name@),
{
    let ghost all = applications(applied@);
    let mut list: Vec<DirectiveTargetPosition> = Vec::new();
    let mut i: usize = 0;
    assert(all.take(0) =~= Seq::<Application>::empty());
    assert(targets(list@) =~= Seq::<Target>::empty());
    while i < applied.len()
        invariant
            i <= applied.len(),
            all == applications(applied@),
            targets(list@) == referencers(all.take(i as int), name@),
        decreases applied.len() - i,
    {
        let ghost grown = all.take(i + 1);
        assert(grown.drop_last() =~= all.take(i as int));
        assert(grown.last() == applied@[i as int]@);
        if same_text(applied[i].directive.name.as_str(), name) {
            add_target(&mut list, &applied[i].target);
        }
        i += 1;
    }
    assert(all.take(applied.len() as int) =~= all);
    list
}

/// What each directive of a list is.
pub open spec fn plain_directives(directives: Seq<Directive>) -> Seq<DirectiveShape> {
    directives.map_values(|d: Directive| d@)
}

/// Lists the applications of the directive to the element.
pub fn list_applied_at(
    applied: &Vec<AppliedDirective>,
    target: &DirectiveTargetPosition,
    name: &str,
) -> (list: Vec<Directive>)
    ensures
        plain_directives(list@) == applied_at(applications(applied@), target@, name@),
{
    let ghost all = applications(applied@);
    let mut list: Vec<Directive> = Vec::new();
    let mut i: usize = 0;
    assert(all.take(0) =~= Seq::<Application>::empty());
    assert(plain_directives(list@) =~= Seq::<DirectiveShape>::empty());
    while i < applied.len()
        invariant
            i <= applied.len(),
            all == applications(applied@),
            plain_directives(list@) == applied_at(all.take(i as int), target@, name@),
        decreases applied.len() - i,
    {
        let ghost grown = all.take(i + 1);
        assert(grown.drop_last() =~= all.take(i as int));
        assert(grown.last() == applied@[i as int]@);
        let ghost before = plain_directives(list@);
        if same_text(applied[i].directive.name.as_str(), name) && applied[i].target.same_as(
            target,
        ) {
            list.push(applied[i].directive.clone());
            assert(plain_directives(list@) =~= before.push(grown.last().directive));
        }
        i += 1;
    }
    assert(all.take(applied.len() as int) =~= all);
    list
}

/// The built-in types of GraphQL, in the order in which a schema lists them.
pub open spec fn built_in_types() -> Seq<TypePosition> {
    seq![
        TypePosition { typename: "__Schema"@, kind: TypeKind::Object },
        TypePosition { typename: "__Type"@, kind: TypeKind::Object },
        TypePosition { typename: "__TypeKind"@, kind: TypeKind::Enum },
        TypePosition { typename: "__Field"@, kind: TypeKind::Object },
        TypePosition { typename: "__InputValue"@, kind: TypeKind::Object },
        TypePosition { typename: "__EnumValue"@, kind: TypeKind::Object },
        TypePosition { typename: "__Directive"@, kind: TypeKind::Object },
        TypePosition { typename: "__DirectiveLocation"@, kind: TypeKind::Enum },
        TypePosition { typename: "Int"@, kind: TypeKind::Scalar },
        TypePosition { typename: "Float"@, kind: TypeKind::Scalar },
        TypePosition { typename: "String"@, kind: TypeKind::Scalar },
        TypePosition { typename: "Boolean"@, kind: TypeKind::Scalar },
        TypePosition { typename: "ID"@, kind: TypeKind::Scalar },
    ]
}

/// The built-in directives of GraphQL, in the order in which a schema lists them.
pub open spec fn built_in_directives() -> Seq<Seq<char>> {
    seq!["skip"@, "include"@, "deprecated"@, "specifiedBy"@]
}

/// Reads the types of `apollo_compiler::Schema::new`: the introspection types and the built-in
/// scalars.
#[verifier::external_body]
fn new_schema_types() -> (types: Vec<TypeDefinitionPosition>)
    ensures
        type_positions(types@) == built_in_types(),
{
    let schema = apollo_compiler::Schema::new();
    let position = |(name, definition): (&apollo_compiler::Name, &apollo_compiler::schema::ExtendedType)| TypeDefinitionPosition {
        typename: name.to_string(),
        kind: match definition {
            apollo_compiler::schema::ExtendedType::Scalar(_) => TypeKind::Scalar,
            apollo_compiler::schema::ExtendedType::Object(_) => TypeKind::Object,
            apollo_compiler::schema::ExtendedType::Interface(_) => TypeKind::Interface,
            apollo_compiler::schema::ExtendedType::Union(_) => TypeKind::Union,
            apollo_compiler::schema::ExtendedType::Enum(_) => TypeKind::Enum,
            apollo_compiler::schema::ExtendedType::InputObject(_) => TypeKind::InputObject,
        },
    };
    schema.types.iter().map(position).collect()
}

/// Reads the directive definitions of `apollo_compiler::Schema::new`: the built-in directives.
#[verifier::external_body]
fn new_schema_directives() -> (names: Vec<String>)
    ensures
        texts(names@) == built_in_directives(),
{
    apollo_compiler::Schema::new().directive_definitions.keys().map(|n| n.to_string()).collect()
}

/// A schema: types, directive definitions and applied directives.
#[derive(Debug)]
pub struct FederationSchema {
    pub types: Vec<TypeDefinition>,
    pub built_in_directives: Vec<String>,
    pub directive_definitions: Vec<DirectiveDefinition>,
    /// The elements that a directive can be applied to.
    pub elements: Vec<DirectiveTargetPosition>,
    pub applied_directives: Vec<AppliedDirective>,
}

impl FederationSchema {
    /// Whether the schema has a type with the name.
    pub open spec fn has_type(&self, name: Seq<char>) -> bool {
        find_type(self.types@, name) is Some
    }

    /// Whether the schema defines the directive.
    pub open spec fn has_directive(&self, name: Seq<char>) -> bool {
        texts(self.built_in_directives@).contains(name) || exists|i: int|
            0 <= i < self.directive_definitions@.len() && (
            #[trigger] self.directive_definitions@[i]).name@ == name
    }

    /// Whether the schema has the built-in types and directives alone.
    pub open spec fn is_blank(&self) -> bool {
        &&& self.types@.map_values(
            |t: TypeDefinition| TypePosition { typename: t.name@, kind: t.definition.spec_kind() },
        ) == built_in_types()
        &&& forall|i: int|
            0 <= i < self.types@.len() ==> (#[trigger] self.types@[i]).definition.is_bare()
        &&& texts(self.built_in_directives@) == built_in_directives()
        &&& self.directive_definitions@.len() == 0
        &&& self.elements@.len() == 0
        &&& self.applied_directives@.len() == 0
    }

    /// A schema with the built-in types and directives alone.
    pub fn new() -> (schema: FederationSchema)
        ensures
            schema.is_blank(),
    {
        let built_in = new_schema_types();
        let mut types: Vec<TypeDefinition> = Vec::new();
        let mut i: usize = 0;
        while i < built_in.len()
            invariant
                i <= built_in.len(),
                types.len() == i,
                type_positions(built_in@) == built_in_types(),
                forall|j: int|
                    0 <= j < i ==> (#[trigger] types@[j]).name@ == built_in@[j].typename@
                        && types@[j].definition.spec_kind() == built_in@[j].kind
                        && types@[j].definition.is_bare(),
            decreases built_in.len() - i,
        {
            types.push(
                TypeDefinition {
                    name: built_in[i].typename.clone(),
                    definition: ExtendedType::bare(built_in[i].kind),
                },
            );
            i += 1;
        }
        proof {
            let shapes = types@.map_values(
                |t: TypeDefinition| TypePosition {
                    typename: t.name@,
                    kind: t.definition.spec_kind(),
                },
            );
            assert forall|j: int| 0 <= j < shapes.len() implies shapes[j]
                == built_in_types()[j] by {
                assert(type_positions(built_in@)[j] == built_in@[j]@);
            }
            assert(shapes =~= built_in_types());
        }
        FederationSchema {
            types,
            built_in_directives: new_schema_directives(),
            directive_definitions: Vec::new(),
            elements: Vec::new(),
            applied_directives: Vec::new(),
        }
    }

    /// Finds the type with the name.
    pub fn get_type(&self, name: &str) -> (found: Option<&ExtendedType>)
        ensures
            match found {
                Some(definition) => find_type(self.types@, name@) == Some(*definition),
                None => find_type(self.types@, name@) is None,
            },
    {
        lookup_type(&self.types, name)
    }

    /// Whether the schema defines the directive.
    pub fn defines_directive(&self, name: &str) -> (found: bool)
        ensures
            found == self.has_directive(name@),
    {
        if contains_text(&self.built_in_directives, name) {
            return true;
        }
        let mut i: usize = 0;
        while i < self.directive_definitions.len()
            invariant
                i <= self.directive_definitions.len(),
                forall|j: int|
                    0 <= j < i ==> (#[trigger] self.directive_definitions@[j]).name@ != name@,
            decreases self.directive_definitions.len() - i,
        {
            if same_text(self.directive_definitions[i].name.as_str(), name) {
                return true;
            }
            i += 1;
        }
        false
    }

    /// Adds a type without interfaces, fields or members.
    pub fn insert_empty(&mut self, position: &TypeDefinitionPosition)
        ensures
            final(self).types@.len() == old(self).types@.len() + 1,
            final(self).types@.drop_last() == old(self).types@,
            final(self).types@.last().name@ == position.typename@,
            final(self).types@.last().definition.spec_kind() == position.kind,
            final(self).types@.last().definition.is_bare(),
            *final(self) == (FederationSchema { types: final(self).types, ..*old(self) }),
    {
        self.types.push(
            TypeDefinition {
                name: position.typename.clone(),
                definition: ExtendedType::bare(position.kind),
            },
        );
        assert(self.types@.drop_last() =~= old(self).types@);
    }

    /// Applies a directive to an element. Fails where the schema does not have the element.
    pub fn insert_directive(
        &mut self,
        target: &DirectiveTargetPosition,
        directive: Directive,
    ) -> (result: Result<(), FederationError>)
        ensures
            match result {
                Ok(_) => targets(old(self).elements@).contains(target@) && applications(
                    final(self).applied_directives@,
                ) == applications(old(self).applied_directives@).push(
                    Application { target: target@, directive: directive@ },
                ) && *final(self) == (FederationSchema {
                    applied_directives: final(self).applied_directives,
                    ..*old(self)
                }),
                Err(error) => !targets(old(self).elements@).contains(target@) && *final(self)
                    == *old(self) && error.message@ == missing_element(target@),
            },
    {
        if !contains_target(&self.elements, target) {
            let coordinate = target.to_coordinate();
            return Err(
                FederationError::internal(
                    "Schema has no element \"".to_owned().concat(coordinate.as_str()).concat(
                        "\" to apply a directive to",
                    ),
                ),
            );
        }
        self.applied_directives.push(AppliedDirective { target: target.clone(), directive });
        assert(applications(self.applied_directives@) =~= applications(
            old(self).applied_directives@,
        ).push(Application { target: target@, directive: directive@ }));
        Ok(())
    }
}

/// The message of the failure to apply a directive to an element that is not there.
pub open spec fn missing_element(target: Target) -> Seq<char> {
    "Schema has no element \""@ + target.coordinate() + "\" to apply a directive to"@
}

} // verus!
