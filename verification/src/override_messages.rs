//! The texts of the errors and hints about `@override`.

use vstd::prelude::*;
use vstd::string::*;

verus! {

/// The code of the hint about a field that is being migrated.
pub const MIGRATION_CODE: &'static str = "OVERRIDE_MIGRATION_IN_PROGRESS";

/// The error about `@override` on a field of an interface.
pub open spec fn on_interface(field: Seq<char>, subgraph: Seq<char>) -> Seq<char> {
    "@override cannot be used on field \""@ + field + "\" on subgraph \""@ + subgraph
        + "\": @override is not supported on interface type fields."@
}

/// Writes the error about `@override` on a field of an interface.
pub fn write_on_interface(field: &str, subgraph: &str) -> (text: String)
    ensures
        text@ == on_interface(field@, subgraph@),
{
    "@override cannot be used on field \"".to_owned().concat(field).concat(
        "\" on subgraph \"",
    ).concat(subgraph).concat("\": @override is not supported on interface type fields.")
}

/// The error about `@override` on a field of an `@interfaceObject` type.
pub open spec fn on_interface_object(field: Seq<char>, subgraph: Seq<char>) -> Seq<char> {
    "@override is not yet supported on fields of @interfaceObject types: cannot be used on field \""@
        + field + "\" on subgraph \""@ + subgraph + "\"."@
}

/// Writes the error about `@override` on a field of an `@interfaceObject` type.
pub fn write_on_interface_object(field: &str, subgraph: &str) -> (text: String)
    ensures
        text@ == on_interface_object(field@, subgraph@),
{
    "@override is not yet supported on fields of @interfaceObject types: cannot be used on field \"".to_owned().concat(
        field,
    ).concat("\" on subgraph \"").concat(subgraph).concat("\".")
}

/// The hint about a source subgraph that does not exist.
pub open spec fn unknown_source(
    source: Seq<char>,
    field: Seq<char>,
    subgraph: Seq<char>,
    question: Seq<char>,
) -> Seq<char> {
    "Source subgraph \""@ + source + "\" for field \""@ + field + "\" on subgraph \""@ + subgraph
        + "\" does not exist."@ + question
}

/// Writes the hint about a source subgraph that does not exist.
pub fn write_unknown_source(source: &str, field: &str, subgraph: &str, question: &str) -> (text:
    String)
    ensures
        text@ == unknown_source(source@, field@, subgraph@, question@),
{
    "Source subgraph \"".to_owned().concat(source).concat("\" for field \"").concat(field).concat(
        "\" on subgraph \"",
    ).concat(subgraph).concat("\" does not exist.").concat(question)
}

/// The error about a subgraph that overrides itself.
pub open spec fn from_self(source: Seq<char>, field: Seq<char>) -> Seq<char> {
    "Source and destination subgraphs \""@ + source + "\" are the same for overridden field \""@
        + field + "\""@
}

/// Writes the error about a subgraph that overrides itself.
pub fn write_from_self(source: &str, field: &str) -> (text: String)
    ensures
        text@ == from_self(source@, field@),
{
    "Source and destination subgraphs \"".to_owned().concat(source).concat(
        "\" are the same for overridden field \"",
    ).concat(field).concat("\"")
}

/// The error about a source subgraph that overrides the field too.
pub open spec fn also_overridden(
    field: Seq<char>,
    subgraph: Seq<char>,
    source: Seq<char>,
) -> Seq<char> {
    "Field \""@ + field + "\" on subgraph \""@ + subgraph
        + "\" is also marked with directive @override in subgraph \""@ + source
        + "\". Only one @override directive is allowed per field."@
}

/// Writes the error about a source subgraph that overrides the field too.
pub fn write_also_overridden(field: &str, subgraph: &str, source: &str) -> (text: String)
    ensures
        text@ == also_overridden(field@, subgraph@, source@),
{
    "Field \"".to_owned().concat(field).concat("\" on subgraph \"").concat(subgraph).concat(
        "\" is also marked with directive @override in subgraph \"",
    ).concat(source).concat("\". Only one @override directive is allowed per field.")
}

/// The hint about a field that the source subgraph does not have.
pub open spec fn field_gone(field: Seq<char>, subgraph: Seq<char>) -> Seq<char> {
    "Field \""@ + field + "\" on subgraph \""@ + subgraph
        + "\" no longer exists in the from subgraph. The @override directive can be removed."@
}

/// Writes the hint about a field that the source subgraph does not have.
pub fn write_field_gone(field: &str, subgraph: &str) -> (text: String)
    ensures
        text@ == field_gone(field@, subgraph@),
{
    "Field \"".to_owned().concat(field).concat("\" on subgraph \"").concat(subgraph).concat(
        "\" no longer exists in the from subgraph. The @override directive can be removed.",
    )
}

/// The error about a field that the source subgraph abstracts.
pub open spec fn abstracted(
    field: Seq<char>,
    subgraph: Seq<char>,
    source: Seq<char>,
    types: Seq<char>,
) -> Seq<char> {
    "Invalid @override on field \""@ + field + "\" of subgraph \""@ + subgraph
        + "\": source subgraph \""@ + source + "\" does not have field \""@ + field
        + "\" but abstract it in "@ + types
        + " and overriding abstracted fields is not supported."@
}

/// Writes the error about a field that the source subgraph abstracts.
pub fn write_abstracted(field: &str, subgraph: &str, source: &str, types: &str) -> (text: String)
    ensures
        text@ == abstracted(field@, subgraph@, source@, types@),
{
    "Invalid @override on field \"".to_owned().concat(field).concat("\" of subgraph \"").concat(
        subgraph,
    ).concat("\": source subgraph \"").concat(source).concat("\" does not have field \"").concat(
        field,
    ).concat("\" but abstract it in ").concat(types).concat(
        " and overriding abstracted fields is not supported.",
    )
}

/// The error about a field that carries a directive which does not go with `@override`.
pub open spec fn collision(
    from_field: Seq<char>,
    subgraph: Seq<char>,
    field: Seq<char>,
    carrier: Seq<char>,
    directive: Seq<char>,
) -> Seq<char> {
    "@override cannot be used on field \""@ + from_field + "\" on subgraph \""@ + subgraph
        + "\" since \""@ + field + "\" on \""@ + carrier + "\" is marked with directive \"@"@
        + directive + "\""@
}

/// Writes the error about a directive that does not go with `@override`.
pub fn write_collision(
    from_field: &str,
    subgraph: &str,
    field: &str,
    carrier: &str,
    directive: &str,
) -> (text: String)
    ensures
        text@ == collision(from_field@, subgraph@, field@, carrier@, directive@),
{
    "@override cannot be used on field \"".to_owned().concat(from_field).concat(
        "\" on subgraph \"",
    ).concat(subgraph).concat("\" since \"").concat(field).concat("\" on \"").concat(
        carrier,
    ).concat("\" is marked with directive \"@").concat(directive).concat("\"")
}

/// The error about a label that is not valid.
pub open spec fn invalid_label(
    label: Seq<char>,
    field: Seq<char>,
    subgraph: Seq<char>,
) -> Seq<char> {
    "Invalid @override label \""@ + label + "\" on field \""@ + field + "\" on subgraph \""@
        + subgraph
        + "\": labels must start with a letter and after that may contain alphanumerics, underscores, minuses, colons, periods, or slashes. Alternatively, labels may be of the form \"percent(x)\" where x is a float between 0-100 inclusive."@
}

/// Writes the error about a label that is not valid.
pub fn write_invalid_label(label: &str, field: &str, subgraph: &str) -> (text: String)
    ensures
        text@ == invalid_label(label@, field@, subgraph@),
{
    "Invalid @override label \"".to_owned().concat(label).concat("\" on field \"").concat(
        field,
    ).concat("\" on subgraph \"").concat(subgraph).concat(
        "\": labels must start with a letter and after that may contain alphanumerics, underscores, minuses, colons, periods, or slashes. Alternatively, labels may be of the form \"percent(x)\" where x is a float between 0-100 inclusive.",
    )
}

/// The hint about a field that is being migrated.
pub open spec fn migration(field: Seq<char>, source: Seq<char>, is_referenced: bool) -> Seq<char> {
    if is_referenced {
        "Field \""@ + field + "\" on subgraph \""@ + source
            + "\" is currently being migrated via progressive @override. It is still used in some federation directive(s) (@key, @requires, and/or @provides) and/or to satisfy interface constraint(s). Once the migration is complete, consider marking it @external explicitly or removing it along with its references."@
    } else {
        "Field \""@ + field
            + "\" is currently being migrated with progressive @override. Once the migration is complete, remove the field from subgraph \""@
            + source + "\"."@
    }
}

/// Writes the hint about a field that is being migrated.
pub fn write_migration(field: &str, source: &str, is_referenced: bool) -> (text: String)
    ensures
        text@ == migration(field@, source@, is_referenced),
{
    if is_referenced {
        "Field \"".to_owned().concat(field).concat("\" on subgraph \"").concat(source).concat(
            "\" is currently being migrated via progressive @override. It is still used in some federation directive(s) (@key, @requires, and/or @provides) and/or to satisfy interface constraint(s). Once the migration is complete, consider marking it @external explicitly or removing it along with its references.",
        )
    } else {
        "Field \"".to_owned().concat(field).concat(
            "\" is currently being migrated with progressive @override. Once the migration is complete, remove the field from subgraph \"",
        ).concat(source).concat("\".")
    }
}

/// The hint about a field that the source subgraph does not resolve.
pub open spec fn not_resolved(
    field: Seq<char>,
    subgraph: Seq<char>,
    source: Seq<char>,
) -> Seq<char> {
    "Field \""@ + field + "\" on subgraph \""@ + subgraph
        + "\" is not resolved anymore by the from subgraph (it is marked \"@external\" in \""@
        + source + "\"). The @override directive can be removed."@
}

/// Writes the hint about a field that the source subgraph does not resolve.
pub fn write_not_resolved(field: &str, subgraph: &str, source: &str) -> (text: String)
    ensures
        text@ == not_resolved(field@, subgraph@, source@),
{
    "Field \"".to_owned().concat(field).concat("\" on subgraph \"").concat(subgraph).concat(
        "\" is not resolved anymore by the from subgraph (it is marked \"@external\" in \"",
    ).concat(source).concat("\"). The @override directive can be removed.")
}

/// The hint about a field that is overridden.
pub open spec fn overridden(field: Seq<char>, source: Seq<char>, is_referenced: bool) -> Seq<char> {
    if is_referenced {
        "Field \""@ + field + "\" on subgraph \""@ + source
            + "\" is overridden. It is still used in some federation directive(s) (@key, @requires, and/or @provides) and/or to satisfy interface constraint(s), but consider marking it @external explicitly or removing it along with its references."@
    } else {
        "Field \""@ + field + "\" on subgraph \""@ + source
            + "\" is overridden. Consider removing it."@
    }
}

/// Writes the hint about a field that is overridden.
pub fn write_overridden(field: &str, source: &str, is_referenced: bool) -> (text: String)
    ensures
        text@ == overridden(field@, source@, is_referenced),
{
    let start = "Field \"".to_owned().concat(field).concat("\" on subgraph \"").concat(source);
    if is_referenced {
        start.concat(
            "\" is overridden. It is still used in some federation directive(s) (@key, @requires, and/or @provides) and/or to satisfy interface constraint(s), but consider marking it @external explicitly or removing it along with its references.",
        )
    } else {
        start.concat("\" is overridden. Consider removing it.")
    }
}

} // verus!
