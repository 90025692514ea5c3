//! Why a schema cannot be read for replication.

use vstd::prelude::*;
use vstd::string::StringExecFns;

verus! {

/// The part that a field plays in a model's attribute.
#[derive(Clone, Copy, Debug, PartialEq, Eq, Structural)]
pub enum Role {
    Owner,
    Item,
    Group,
}

#[derive(Clone, Debug, PartialEq, Eq)]
pub enum DatamodelError {
    /// The model has no comment that could hold its attribute.
    MissingAttribute { model: String },
    /// The model's comment does not begin with an attribute.
    InvalidAttribute { model: String },
    /// The field is neither a scalar nor a relation.
    UnsupportedField { field: String },
    NoPrimaryKey { model: String },
    /// The attribute names a field as the identifier, and the primary key
    /// has `count` fields instead of one.
    PrimaryKeyFields { model: String, count: usize },
    /// The model has no field of the name that its primary key gives.
    PrimaryKeyFieldNotFound { field: String },
    NoField { model: String, field: String },
    /// The attribute gives no field for the role.
    MissingRole { role: Role },
    /// The model has no field of the name that the attribute gives for the
    /// role.
    UnknownRole { role: Role, field: String },
    InvalidCreateType { value: String },
    InvalidAttributeType { name: String },
}

pub enum DatamodelErrorView {
    MissingAttribute { model: Seq<char> },
    InvalidAttribute { model: Seq<char> },
    UnsupportedField { field: Seq<char> },
    NoPrimaryKey { model: Seq<char> },
    PrimaryKeyFields { model: Seq<char>, count: usize },
    PrimaryKeyFieldNotFound { field: Seq<char> },
    NoField { model: Seq<char>, field: Seq<char> },
    MissingRole { role: Role },
    UnknownRole { role: Role, field: Seq<char> },
    InvalidCreateType { value: Seq<char> },
    InvalidAttributeType { name: Seq<char> },
}

impl View for DatamodelError {
    type V = DatamodelErrorView;

    open spec fn view(&self) -> DatamodelErrorView {
        match self {
            DatamodelError::MissingAttribute { model } => DatamodelErrorView::MissingAttribute { model: model@ },
            DatamodelError::InvalidAttribute { model } => DatamodelErrorView::InvalidAttribute { model: model@ },
            DatamodelError::UnsupportedField { field } => DatamodelErrorView::UnsupportedField { field: field@ },
            DatamodelError::NoPrimaryKey { model } => DatamodelErrorView::NoPrimaryKey { model: model@ },
            DatamodelError::PrimaryKeyFields { model, count } => DatamodelErrorView::PrimaryKeyFields {
                model: model@,
                count: *count,
            },
            DatamodelError::PrimaryKeyFieldNotFound { field } => DatamodelErrorView::PrimaryKeyFieldNotFound {
                field: field@,
            },
            DatamodelError::NoField { model, field } => DatamodelErrorView::NoField { model: model@, field: field@ },
            DatamodelError::MissingRole { role } => DatamodelErrorView::MissingRole { role: *role },
            DatamodelError::UnknownRole { role, field } => DatamodelErrorView::UnknownRole {
                role: *role,
                field: field@,
            },
            DatamodelError::InvalidCreateType { value } => DatamodelErrorView::InvalidCreateType { value: value@ },
            DatamodelError::InvalidAttributeType { name } => DatamodelErrorView::InvalidAttributeType {
                name: name@,
            },
        }
    }
}

/// The digit that writes a number below ten.
pub open spec fn digit_char(d: int) -> char {
    ('0' as u32 + d) as char
}

/// A number in decimal digits.
pub open spec fn decimal(n: nat) -> Seq<char>
    decreases n,
{
    if n < 10 {
        seq![digit_char(n as int)]
    } else {
        decimal(n / 10).push(digit_char((n % 10) as int))
    }
}

fn digit_text(d: usize) -> (text: &'static str)
    requires
        d < 10,
    ensures
        text@ == seq![digit_char(d as int)],
{
    proof {
        reveal_strlit("0");
        reveal_strlit("1");
        reveal_strlit("2");
        reveal_strlit("3");
        reveal_strlit("4");
        reveal_strlit("5");
        reveal_strlit("6");
        reveal_strlit("7");
        reveal_strlit("8");
        reveal_strlit("9");
    }
    let text = match d {
        0 => "0",
        1 => "1",
        2 => "2",
        3 => "3",
        4 => "4",
        5 => "5",
        6 => "6",
        7 => "7",
        8 => "8",
        _ => "9",
    };
    assert(text@ =~= seq![digit_char(d as int)]);
    text
}

/// A number in decimal digits.
pub fn decimal_text(n: usize) -> (text: String)
    ensures
        text@ == decimal(n as nat),
    decreases n,
{
    if n < 10 {
        String::from_str(digit_text(n))
    } else {
        let text = decimal_text(n / 10).concat(digit_text(n % 10));
        assert(text@ =~= decimal((n / 10) as nat).push(digit_char((n % 10) as int)));
        text
    }
}

/// The name of a role, as attributes and messages write it.
pub open spec fn role_text(role: Role) -> Seq<char> {
    match role {
        Role::Owner => "owner"@,
        Role::Item => "item"@,
        Role::Group => "group"@,
    }
}

/// What an error says.
pub open spec fn message_of(e: DatamodelErrorView) -> Seq<char> {
    match e {
        DatamodelErrorView::MissingAttribute { model } => "Model "@ + model + " has no attribute"@,
        DatamodelErrorView::InvalidAttribute { model } => "Model "@ + model + " has an invalid attribute"@,
        DatamodelErrorView::UnsupportedField { field } => "Unsupported field type: "@ + field,
        DatamodelErrorView::NoPrimaryKey { model } => "Model "@ + model + " has no primary key"@,
        DatamodelErrorView::PrimaryKeyFields { model, count } => "Model "@ + model + " has a primary key with "@
            + decimal(count as nat) + " fields"@,
        DatamodelErrorView::PrimaryKeyFieldNotFound { field } => "Failed to find field "@ + field,
        DatamodelErrorView::NoField { model, field } => "Model "@ + model + " has no field "@ + field,
        DatamodelErrorView::MissingRole { role } => "Missing "@ + role_text(role) + " field"@,
        DatamodelErrorView::UnknownRole { role, field } => "Unknown "@ + role_text(role) + " field "@ + field,
        DatamodelErrorView::InvalidCreateType { value } => "Invalid create type "@ + value,
        DatamodelErrorView::InvalidAttributeType { name } => "Invalid attribute type "@ + name,
    }
}

fn role_str(role: Role) -> (text: &'static str)
    ensures
        text@ == role_text(role),
{
    match role {
        Role::Owner => "owner",
        Role::Item => "item",
        Role::Group => "group",
    }
}

impl DatamodelError {
    /// What the error says.
    pub fn message(&self) -> (text: String)
        ensures
            text@ == message_of(self@),
    {
        match self {
            DatamodelError::MissingAttribute { model } => String::from_str("Model ").concat(model.as_str()).concat(
                " has no attribute",
            ),
            DatamodelError::InvalidAttribute { model } => String::from_str("Model ").concat(model.as_str()).concat(
                " has an invalid attribute",
            ),
            DatamodelError::UnsupportedField { field } => String::from_str("Unsupported field type: ").concat(
                field.as_str(),
            ),
            DatamodelError::NoPrimaryKey { model } => String::from_str("Model ").concat(model.as_str()).concat(
                " has no primary key",
            ),
            DatamodelError::PrimaryKeyFields { model, count } => String::from_str("Model ").concat(
                model.as_str(),
            ).concat(" has a primary key with ").concat(decimal_text(*count).as_str()).concat(" fields"),
            DatamodelError::PrimaryKeyFieldNotFound { field } => String::from_str("Failed to find field ").concat(
                field.as_str(),
            ),
            DatamodelError::NoField { model, field } => String::from_str("Model ").concat(model.as_str()).concat(
                " has no field ",
            ).concat(field.as_str()),
            DatamodelError::MissingRole { role } => String::from_str("Missing ").concat(role_str(*role)).concat(
                " field",
            ),
            DatamodelError::UnknownRole { role, field } => String::from_str("Unknown ").concat(
                role_str(*role),
            ).concat(" field ").concat(field.as_str()),
            DatamodelError::InvalidCreateType { value } => String::from_str("Invalid create type ").concat(
                value.as_str(),
            ),
            DatamodelError::InvalidAttributeType { name } => String::from_str("Invalid attribute type ").concat(
                name.as_str(),
            ),
        }
    }
}

} // verus!
