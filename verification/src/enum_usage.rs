//! Where the supergraph uses its enum types.

use crate::ast::{
    FieldDefinition, FieldShape, InputValueDefinition, InputValueShape, Node, SourceSpan,
};
use vstd::prelude::*;

verus! {

/// The element that uses an enum type.
#[derive(Debug)]
pub enum EnumExampleAst {
    Field(Node<FieldDefinition>),
    Input(Node<InputValueDefinition>),
}

/// What an element that uses an enum type is.
pub enum ExampleElement {
    Field(FieldShape, Option<SourceSpan>),
    Input(InputValueShape, Option<SourceSpan>),
}

impl View for EnumExampleAst {
    type V = ExampleElement;

    open spec fn view(&self) -> ExampleElement {
        match self {
            EnumExampleAst::Field(field) => ExampleElement::Field(field.node@, field.location),
            EnumExampleAst::Input(input) => ExampleElement::Input(input.node@, input.location),
        }
    }
}

impl Clone for EnumExampleAst {
    fn clone(&self) -> (copy: Self)
        ensures
            copy@ == self@,
    {
        match self {
            EnumExampleAst::Field(field) => EnumExampleAst::Field(
                Node { node: field.node.clone(), location: field.location },
            ),
            EnumExampleAst::Input(input) => EnumExampleAst::Input(
                Node { node: input.node.clone(), location: input.location },
            ),
        }
    }
}

/// What an optional element is.
pub open spec fn optional_element(element: Option<EnumExampleAst>) -> Option<ExampleElement> {
    match element {
        Some(e) => Some(e@),
        None => None,
    }
}

/// An example of the use of an enum type.
#[derive(Debug)]
pub struct EnumExample {
    pub coordinate: String,
    pub element_ast: Option<EnumExampleAst>,
}

/// What an example is.
pub struct ExampleRecord {
    pub coordinate: Seq<char>,
    pub element: Option<ExampleElement>,
}

impl View for EnumExample {
    type V = ExampleRecord;

    open spec fn view(&self) -> ExampleRecord {
        ExampleRecord {
            coordinate: self.coordinate@,
            element: optional_element(self.element_ast),
        }
    }
}

impl Clone for EnumExample {
    fn clone(&self) -> (copy: Self)
        ensures
            copy@ == self@,
    {
        EnumExample {
            coordinate: self.coordinate.clone(),
            element_ast: match &self.element_ast {
                Some(element) => Some(element.clone()),
                None => None,
            },
        }
    }
}

/// In which positions an enum type is used, with an example of each.
#[derive(Debug)]
pub enum EnumTypeUsage {
    Input { input_example: EnumExample },
    Output { output_example: EnumExample },
    Both { input_example: EnumExample, output_example: EnumExample },
}

/// What the use of an enum type is.
pub enum UsageRecord {
    Input(ExampleRecord),
    Output(ExampleRecord),
    Both(ExampleRecord, ExampleRecord),
}

impl View for EnumTypeUsage {
    type V = UsageRecord;

    open spec fn view(&self) -> UsageRecord {
        match self {
            EnumTypeUsage::Input { input_example } => UsageRecord::Input(input_example@),
            EnumTypeUsage::Output { output_example } => UsageRecord::Output(output_example@),
            EnumTypeUsage::Both { input_example, output_example } => UsageRecord::Both(
                input_example@,
                output_example@,
            ),
        }
    }
}

/// The use of each enum type.
pub open spec fn usage_records(usages: Map<Seq<char>, EnumTypeUsage>) -> Map<
    Seq<char>,
    UsageRecord,
> {
    usages.map_values(|u: EnumTypeUsage| u@)
}

/// The use of an enum type after one more use. The first example in a position is kept; a type
/// that was used in both positions is put down for the position of the last use.
pub open spec fn next_usage(
    current: Option<UsageRecord>,
    example: ExampleRecord,
    is_input_position: bool,
) -> UsageRecord {
    match current {
        Some(UsageRecord::Input(input)) => if is_input_position {
            UsageRecord::Input(input)
        } else {
            UsageRecord::Both(input, example)
        },
        Some(UsageRecord::Output(output)) => if is_input_position {
            UsageRecord::Both(example, output)
        } else {
            UsageRecord::Output(output)
        },
        Some(UsageRecord::Both(input, output)) => if is_input_position {
            UsageRecord::Input(input)
        } else {
            UsageRecord::Output(output)
        },
        None => if is_input_position {
            UsageRecord::Input(example)
        } else {
            UsageRecord::Output(example)
        },
    }
}

/// Adds a use to the use of an enum type.
pub fn add_usage(
    current: Option<&EnumTypeUsage>,
    example: EnumExample,
    is_input_position: bool,
) -> (usage: EnumTypeUsage)
    ensures
        usage@ == next_usage(
            match current {
                Some(c) => Some(c@),
                None => None,
            },
            example@,
            is_input_position,
        ),
{
    match current {
        Some(EnumTypeUsage::Input { input_example }) => {
            let input_example = input_example.clone();
            if is_input_position {
                EnumTypeUsage::Input { input_example }
            } else {
                EnumTypeUsage::Both { input_example, output_example: example }
            }
        },
        Some(EnumTypeUsage::Output { output_example }) => {
            let output_example = output_example.clone();
            if is_input_position {
                EnumTypeUsage::Both { input_example: example, output_example }
            } else {
                EnumTypeUsage::Output { output_example }
            }
        },
        Some(EnumTypeUsage::Both { input_example, output_example }) => if is_input_position {
            EnumTypeUsage::Input { input_example: input_example.clone() }
        } else {
            EnumTypeUsage::Output { output_example: output_example.clone() }
        },
        None => if is_input_position {
            EnumTypeUsage::Input { input_example: example }
        } else {
            EnumTypeUsage::Output { output_example: example }
        },
    }
}

/// A type that is used once as input and once as output is used in both positions, with these
/// uses as the examples, whichever came first.
pub proof fn law_one_use_in_each_position_is_both(input: ExampleRecord, output: ExampleRecord)
    ensures
        next_usage(Some(next_usage(None, input, true)), output, false) == UsageRecord::Both(
            input,
            output,
        ),
        next_usage(Some(next_usage(None, output, false)), input, true) == UsageRecord::Both(
            input,
            output,
        ),
{
}

/// A further use in the only position so far changes nothing: the first example is kept.
pub proof fn law_first_example_is_kept(
    first: ExampleRecord,
    later: ExampleRecord,
    is_input_position: bool,
)
    ensures
        next_usage(
            Some(next_usage(None, first, is_input_position)),
            later,
            is_input_position,
        ) == next_usage(None, first, is_input_position),
{
}

/// The example for a position, where there is one.
pub open spec fn example_in(usage: Option<UsageRecord>, is_input_position: bool) -> Option<
    ExampleRecord,
> {
    match usage {
        Some(UsageRecord::Input(input)) if is_input_position => Some(input),
        Some(UsageRecord::Output(output)) if !is_input_position => Some(output),
        Some(UsageRecord::Both(input, output)) => if is_input_position {
            Some(input)
        } else {
            Some(output)
        },
        _ => None,
    }
}

/// After a use there is an example for its position: the one that was there, else the use itself.
/// The example for the other position is kept where there was none for this one.
pub proof fn law_every_use_is_put_down(
    current: Option<UsageRecord>,
    example: ExampleRecord,
    is_input_position: bool,
)
    ensures
        ({
            let after = Some(next_usage(current, example, is_input_position));
            &&& example_in(after, is_input_position) == Some(
                match example_in(current, is_input_position) {
                    Some(first) => first,
                    None => example,
                },
            )
            &&& example_in(current, is_input_position) is None ==> example_in(
                after,
                !is_input_position,
            ) == example_in(current, !is_input_position)
            &&& example_in(current, is_input_position) is Some ==> example_in(
                after,
                !is_input_position,
            ) is None
        }),
{
}

} // verus!
