//! The parts of a GraphQL syntax tree that merging reads.

use crate::text::same_text;
use vstd::prelude::*;
use vstd::string::*;

verus! {

/// A type reference.
#[derive(Debug, PartialEq, Eq)]
pub enum Type {
    /// `Name`
    Named(String),
    /// `Name!`
    NonNullNamed(String),
    /// `[Item]`
    List(Box<Type>),
    /// `[Item]!`
    NonNullList(Box<Type>),
}

/// What a type reference says.
pub enum TypeShape {
    Named(Seq<char>),
    NonNullNamed(Seq<char>),
    List(Box<TypeShape>),
    NonNullList(Box<TypeShape>),
}

impl TypeShape {
    /// The name under all list and non-null wrappers.
    pub open spec fn inner_name(self) -> Seq<char>
        decreases self,
    {
        match self {
            TypeShape::Named(name) => name,
            TypeShape::NonNullNamed(name) => name,
            TypeShape::List(inner) => inner.inner_name(),
            TypeShape::NonNullList(inner) => inner.inner_name(),
        }
    }

    /// The GraphQL notation of the type.
    pub open spec fn notation(self) -> Seq<char>
        decreases self,
    {
        match self {
            TypeShape::Named(name) => name,
            TypeShape::NonNullNamed(name) => name + "!"@,
            TypeShape::List(inner) => "["@ + inner.notation() + "]"@,
            TypeShape::NonNullList(inner) => "["@ + inner.notation() + "]!"@,
        }
    }
}

impl Type {
    pub open spec fn shape(self) -> TypeShape
        decreases self,
    {
        match self {
            Type::Named(name) => TypeShape::Named(name@),
            Type::NonNullNamed(name) => TypeShape::NonNullNamed(name@),
            Type::List(inner) => TypeShape::List(Box::new(inner.shape())),
            Type::NonNullList(inner) => TypeShape::NonNullList(Box::new(inner.shape())),
        }
    }

    /// The name under all list and non-null wrappers.
    pub fn inner_named_type(&self) -> (name: &String)
        ensures
            name@ == self@.inner_name(),
        decreases self,
    {
        match self {
            Type::Named(name) => name,
            Type::NonNullNamed(name) => name,
            Type::List(inner) => inner.inner_named_type(),
            Type::NonNullList(inner) => inner.inner_named_type(),
        }
    }

    /// The GraphQL notation of the type.
    pub fn to_notation(&self) -> (text: String)
        ensures
            text@ == self@.notation(),
        decreases self,
    {
        match self {
            Type::Named(name) => name.clone(),
            Type::NonNullNamed(name) => name.clone().concat("!"),
            Type::List(inner) => {
                let text = inner.to_notation();
                "[".to_owned().concat(text.as_str()).concat("]")
            },
            Type::NonNullList(inner) => {
                let text = inner.to_notation();
                "[".to_owned().concat(text.as_str()).concat("]!")
            },
        }
    }
}

impl View for Type {
    type V = TypeShape;

    open spec fn view(&self) -> TypeShape {
        self.shape()
    }
}

impl Clone for Type {
    fn clone(&self) -> (copy: Self)
        ensures
            copy@ == self@,
        decreases self,
    {
        match self {
            Type::Named(name) => Type::Named(name.clone()),
            Type::NonNullNamed(name) => Type::NonNullNamed(name.clone()),
            Type::List(inner) => Type::List(Box::new((&**inner).clone())),
            Type::NonNullList(inner) => Type::NonNullList(Box::new((&**inner).clone())),
        }
    }
}

/// Whether two type references are the same.
pub fn same_type(dest_type: &Type, source_type: &Type) -> (same: bool)
    ensures
        same == (dest_type@ == source_type@),
    decreases dest_type,
{
    match (dest_type, source_type) {
        (Type::Named(a), Type::Named(b)) => same_text(a.as_str(), b.as_str()),
        (Type::NonNullNamed(a), Type::NonNullNamed(b)) => same_text(a.as_str(), b.as_str()),
        (Type::List(a), Type::List(b)) => same_type(a, b),
        (Type::NonNullList(a), Type::NonNullList(b)) => same_type(a, b),
        _ => false,
    }
}

/// An argument value. A string value is held by its text, any other value by its notation.
#[derive(Debug, PartialEq, Eq)]
pub enum Value {
    String(String),
    Literal(String),
}

/// What a value is.
pub enum ValueShape {
    String(Seq<char>),
    Literal(Seq<char>),
}

/// The GraphQL notation of a string value, quotes and escapes included.
pub uninterp spec fn string_notation(text: Seq<char>) -> Seq<char>;

/// Calls `to_string` on `apollo_compiler::ast::Value::String`: the notation of a string value
/// depends on its text alone.
#[verifier::external_body]
fn write_string_value(text: &str) -> (notation: String)
    ensures
        notation@ == string_notation(text@),
{
    apollo_compiler::ast::Value::String(text.to_owned()).to_string()
}

impl ValueShape {
    /// The GraphQL notation of the value.
    pub open spec fn notation(self) -> Seq<char> {
        match self {
            ValueShape::String(text) => string_notation(text),
            ValueShape::Literal(notation) => notation,
        }
    }
}

impl View for Value {
    type V = ValueShape;

    open spec fn view(&self) -> ValueShape {
        match self {
            Value::String(text) => ValueShape::String(text@),
            Value::Literal(notation) => ValueShape::Literal(notation@),
        }
    }
}

impl Clone for Value {
    fn clone(&self) -> (copy: Self)
        ensures
            copy@ == self@,
    {
        match self {
            Value::String(text) => Value::String(text.clone()),
            Value::Literal(notation) => Value::Literal(notation.clone()),
        }
    }
}

impl Value {
    /// The GraphQL notation of the value.
    pub fn to_notation(&self) -> (text: String)
        ensures
            text@ == self@.notation(),
    {
        match self {
            Value::String(text) => write_string_value(text.as_str()),
            Value::Literal(notation) => notation.clone(),
        }
    }

    /// Whether two values are the same.
    pub fn same_as(&self, other: &Value) -> (same: bool)
        ensures
            same == (self@ == other@),
    {
        match (self, other) {
            (Value::String(a), Value::String(b)) => same_text(a.as_str(), b.as_str()),
            (Value::Literal(a), Value::Literal(b)) => same_text(a.as_str(), b.as_str()),
            _ => false,
        }
    }
}

/// A named argument of a directive application.
#[derive(Debug, PartialEq, Eq)]
pub struct Argument {
    pub name: String,
    pub value: Value,
}

/// What an argument is.
pub struct ArgumentShape {
    pub name: Seq<char>,
    pub value: ValueShape,
}

impl View for Argument {
    type V = ArgumentShape;

    open spec fn view(&self) -> ArgumentShape {
        ArgumentShape { name: self.name@, value: self.value@ }
    }
}

impl Clone for Argument {
    fn clone(&self) -> (copy: Self)
        ensures
            copy@ == self@,
    {
        Argument { name: self.name.clone(), value: self.value.clone() }
    }
}

/// What each argument of a list is.
pub open spec fn argument_shapes(arguments: Seq<Argument>) -> Seq<ArgumentShape> {
    arguments.map_values(|a: Argument| a@)
}

/// The first argument with the name.
pub open spec fn argument_named(arguments: Seq<ArgumentShape>, name: Seq<char>) -> Option<
    ValueShape,
>
    decreases arguments.len(),
{
    if arguments.len() == 0 {
        None
    } else if arguments[0].name == name {
        Some(arguments[0].value)
    } else {
        argument_named(arguments.skip(1), name)
    }
}

/// Copies a list of arguments.
pub fn copy_arguments(arguments: &Vec<Argument>) -> (copy: Vec<Argument>)
    ensures
        argument_shapes(copy@) == argument_shapes(arguments@),
{
    let mut copy: Vec<Argument> = Vec::new();
    let mut i: usize = 0;
    while i < arguments.len()
        invariant
            i <= arguments.len(),
            copy.len() == i,
            forall|j: int| 0 <= j < i ==> (#[trigger] copy@[j])@ == arguments@[j]@,
        decreases arguments.len() - i,
    {
        copy.push(arguments[i].clone());
        i += 1;
    }
    assert(argument_shapes(copy@) =~= argument_shapes(arguments@));
    copy
}

/// Finds the value of the first argument with the name.
pub fn find_argument<'a>(arguments: &'a Vec<Argument>, name: &str) -> (value: Option<&'a Value>)
    ensures
        match value {
            Some(found) => argument_named(argument_shapes(arguments@), name@) == Some(found@),
            None => argument_named(argument_shapes(arguments@), name@) is None,
        },
{
    let ghost all = argument_shapes(arguments@);
    let mut i: usize = 0;
    assert(all.skip(0) =~= all);
    while i < arguments.len()
        invariant
            i <= arguments.len(),
            all == argument_shapes(arguments@),
            argument_named(all, name@) == argument_named(all.skip(i as int), name@),
        decreases arguments.len() - i,
    {
        assert(all.skip(i as int)[0] == arguments@[i as int]@);
        assert(all.skip(i as int).skip(1) =~= all.skip(i + 1));
        if same_text(arguments[i].name.as_str(), name) {
            return Some(&arguments[i].value);
        }
        i += 1;
    }
    None
}

/// A directive application.
#[derive(Debug, PartialEq, Eq)]
pub struct Directive {
    pub name: String,
    pub arguments: Vec<Argument>,
}

/// What a directive application is.
pub struct DirectiveShape {
    pub name: Seq<char>,
    pub arguments: Seq<ArgumentShape>,
}

impl View for Directive {
    type V = DirectiveShape;

    open spec fn view(&self) -> DirectiveShape {
        DirectiveShape { name: self.name@, arguments: argument_shapes(self.arguments@) }
    }
}

impl Clone for Directive {
    fn clone(&self) -> (copy: Self)
        ensures
            copy@ == self@,
    {
        Directive { name: self.name.clone(), arguments: copy_arguments(&self.arguments) }
    }
}

impl Directive {
    /// An application without arguments.
    pub fn new(name: String) -> (directive: Directive)
        ensures
            directive@ == (DirectiveShape { name: name@, arguments: Seq::empty() }),
    {
        let directive = Directive { name, arguments: Vec::new() };
        assert(directive@.arguments =~= Seq::<ArgumentShape>::empty());
        directive
    }

    /// Whether two applications are the same: the same name and the same arguments in the same
    /// order.
    pub fn same_as(&self, other: &Directive) -> (same: bool)
        ensures
            same == (self@ == other@),
    {
        if !same_text(self.name.as_str(), other.name.as_str()) {
            return false;
        }
        if self.arguments.len() != other.arguments.len() {
            assert(self@.arguments.len() != other@.arguments.len());
            return false;
        }
        let mut i: usize = 0;
        while i < self.arguments.len()
            invariant
                i <= self.arguments.len(),
                self.arguments.len() == other.arguments.len(),
                forall|j: int|
                    0 <= j < i ==> (#[trigger] self@.arguments[j]) == other@.arguments[j],
            decreases self.arguments.len() - i,
        {
            let mine = &self.arguments[i];
            let theirs = &other.arguments[i];
            assert(self@.arguments[i as int] == mine@);
            assert(other@.arguments[i as int] == theirs@);
            if !same_text(mine.name.as_str(), theirs.name.as_str()) || !mine.value.same_as(
                &theirs.value,
            ) {
                return false;
            }
            i += 1;
        }
        assert(self@.arguments =~= other@.arguments);
        true
    }
}

/// A range of a source file.
#[derive(Debug, Clone, Copy, PartialEq, Eq)]
pub struct SourceSpan {
    pub file: u64,
    pub start: usize,
    pub end: usize,
}

/// A syntax tree node: a value and where it was parsed from, if it was.
#[derive(Debug, PartialEq, Eq)]
pub struct Node<T> {
    pub node: T,
    pub location: Option<SourceSpan>,
}

impl<T> Node<T> {
    /// A node that was not parsed from a source file.
    pub fn new(node: T) -> (result: Self)
        ensures
            result.node == node,
            result.location is None,
    {
        Node { node, location: None }
    }
}

/// A directive application and where it was parsed from.
pub struct LocatedDirective {
    pub directive: DirectiveShape,
    pub location: Option<SourceSpan>,
}

/// What a directive node is.
pub open spec fn located(directive: Node<Directive>) -> LocatedDirective {
    LocatedDirective { directive: directive.node@, location: directive.location }
}

/// What each directive node of a list is.
pub open spec fn directive_shapes(directives: Seq<Node<Directive>>) -> Seq<LocatedDirective> {
    directives.map_values(|d: Node<Directive>| located(d))
}

/// Copies a list of directive nodes.
pub fn copy_directives(directives: &Vec<Node<Directive>>) -> (copy: Vec<Node<Directive>>)
    ensures
        directive_shapes(copy@) == directive_shapes(directives@),
{
    let mut copy: Vec<Node<Directive>> = Vec::new();
    let mut i: usize = 0;
    while i < directives.len()
        invariant
            i <= directives.len(),
            copy.len() == i,
            forall|j: int|
                0 <= j < i ==> (#[trigger] copy@[j]).node@ == directives@[j].node@
                    && copy@[j].location == directives@[j].location,
        decreases directives.len() - i,
    {
        copy.push(
            Node { node: directives[i].node.clone(), location: directives[i].location },
        );
        i += 1;
    }
    assert(directive_shapes(copy@) =~= directive_shapes(directives@));
    copy
}

/// A field of an object or interface type.
#[derive(Debug, PartialEq, Eq)]
pub struct FieldDefinition {
    pub name: String,
    pub ty: Type,
    pub directives: Vec<Node<Directive>>,
}

/// What a field is.
pub struct FieldShape {
    pub name: Seq<char>,
    pub ty: TypeShape,
    pub directives: Seq<LocatedDirective>,
}

impl View for FieldDefinition {
    type V = FieldShape;

    open spec fn view(&self) -> FieldShape {
        FieldShape {
            name: self.name@,
            ty: self.ty@,
            directives: directive_shapes(self.directives@),
        }
    }
}

impl Clone for FieldDefinition {
    fn clone(&self) -> (copy: Self)
        ensures
            copy@ == self@,
    {
        FieldDefinition {
            name: self.name.clone(),
            ty: self.ty.clone(),
            directives: copy_directives(&self.directives),
        }
    }
}

/// An argument of a field or of a directive definition.
#[derive(Debug, PartialEq, Eq)]
pub struct InputValueDefinition {
    pub name: String,
    pub ty: Type,
    pub default_value: Option<Value>,
    pub directives: Vec<Node<Directive>>,
}

/// What an argument definition is.
pub struct InputValueShape {
    pub name: Seq<char>,
    pub ty: TypeShape,
    pub default_value: Option<ValueShape>,
    pub directives: Seq<LocatedDirective>,
}

/// What an optional value is.
pub open spec fn optional_shape(value: Option<Value>) -> Option<ValueShape> {
    match value {
        Some(v) => Some(v@),
        None => None,
    }
}

impl View for InputValueDefinition {
    type V = InputValueShape;

    open spec fn view(&self) -> InputValueShape {
        InputValueShape {
            name: self.name@,
            ty: self.ty@,
            default_value: optional_shape(self.default_value),
            directives: directive_shapes(self.directives@),
        }
    }
}

impl Clone for InputValueDefinition {
    fn clone(&self) -> (copy: Self)
        ensures
            copy@ == self@,
    {
        InputValueDefinition {
            name: self.name.clone(),
            ty: self.ty.clone(),
            default_value: match &self.default_value {
                Some(value) => Some(value.clone()),
                None => None,
            },
            directives: copy_directives(&self.directives),
        }
    }
}

/// Where a directive may be applied.
#[derive(Debug, Clone, Copy, PartialEq, Eq, Structural)]
pub enum DirectiveLocation {
    Query,
    Mutation,
    Subscription,
    Field,
    FragmentDefinition,
    FragmentSpread,
    InlineFragment,
    VariableDefinition,
    Schema,
    Scalar,
    Object,
    FieldDefinition,
    ArgumentDefinition,
    Interface,
    Union,
    Enum,
    EnumValue,
    InputObject,
    InputFieldDefinition,
}

impl DirectiveLocation {
    /// Whether the location is in an operation or a fragment rather than in a schema.
    pub open spec fn executable(self) -> bool {
        self is Query || self is Mutation || self is Subscription || self is Field
            || self is FragmentDefinition || self is FragmentSpread || self is InlineFragment
            || self is VariableDefinition
    }

    /// Whether the location is in an operation or a fragment rather than in a schema.
    pub fn is_executable_location(&self) -> (executable: bool)
        ensures
            executable == self.executable(),
    {
        matches!(
            self,
            DirectiveLocation::Query
                | DirectiveLocation::Mutation
                | DirectiveLocation::Subscription
                | DirectiveLocation::Field
                | DirectiveLocation::FragmentDefinition
                | DirectiveLocation::FragmentSpread
                | DirectiveLocation::InlineFragment
                | DirectiveLocation::VariableDefinition
        )
    }
}

/// A directive definition.
#[derive(Debug)]
pub struct DirectiveDefinition {
    pub name: String,
    pub repeatable: bool,
    pub arguments: Vec<InputValueDefinition>,
    pub locations: Vec<DirectiveLocation>,
}

/// What a directive definition is.
pub struct DefinitionShape {
    pub name: Seq<char>,
    pub repeatable: bool,
    pub arguments: Seq<InputValueShape>,
    pub locations: Seq<DirectiveLocation>,
}

/// What each argument definition of a list is.
pub open spec fn input_shapes(inputs: Seq<InputValueDefinition>) -> Seq<InputValueShape> {
    inputs.map_values(|i: InputValueDefinition| i@)
}

impl View for DirectiveDefinition {
    type V = DefinitionShape;

    open spec fn view(&self) -> DefinitionShape {
        DefinitionShape {
            name: self.name@,
            repeatable: self.repeatable,
            arguments: input_shapes(self.arguments@),
            locations: self.locations@,
        }
    }
}

impl Clone for DirectiveDefinition {
    fn clone(&self) -> (copy: Self)
        ensures
            copy@ == self@,
    {
        let mut arguments: Vec<InputValueDefinition> = Vec::new();
        let mut i: usize = 0;
        while i < self.arguments.len()
            invariant
                i <= self.arguments.len(),
                arguments.len() == i,
                forall|j: int| 0 <= j < i ==> (#[trigger] arguments@[j])@ == self.arguments@[j]@,
            decreases self.arguments.len() - i,
        {
            arguments.push(self.arguments[i].clone());
            i += 1;
        }
        assert(input_shapes(arguments@) =~= input_shapes(self.arguments@));
        let mut locations: Vec<DirectiveLocation> = Vec::new();
        let mut k: usize = 0;
        while k < self.locations.len()
            invariant
                k <= self.locations.len(),
                locations.len() == k,
                forall|j: int| 0 <= j < k ==> (#[trigger] locations@[j]) == self.locations@[j],
            decreases self.locations.len() - k,
        {
            locations.push(self.locations[k]);
            k += 1;
        }
        assert(locations@ =~= self.locations@);
        DirectiveDefinition {
            name: self.name.clone(),
            repeatable: self.repeatable,
            arguments,
            locations,
        }
    }
}

} // verus!
