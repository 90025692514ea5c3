//! The fields of a model.

use vstd::prelude::*;
use crate::datamodel::error::DatamodelError;
use crate::datamodel::error::DatamodelErrorView;
use crate::datamodel::source::FieldArity;
use crate::datamodel::source::FieldKind;
use crate::datamodel::source::FieldSource;
use crate::datamodel::source::RelationInfo;
use crate::names::strings_view;
use crate::prelude::pascal_case;
use crate::prelude::pascal_ident;
use crate::prelude::snake_case;
use crate::prelude::snake_ident;

verus! {

/// A field, by the position of its model in the data model and its own
/// position in the model.
#[derive(Clone, Copy, Debug, PartialEq, Eq, Structural)]
pub struct FieldRef {
    pub model: usize,
    pub field: usize,
}

/// What a scalar field that holds part of a foreign key refers to.
#[derive(Clone, Copy, Debug, PartialEq, Eq, Structural)]
pub struct RelationFieldInfo {
    /// The position, in the same model, of the relation field that the
    /// scalar is a part of.
    pub relation: usize,
    /// The scalar field of the other model that the scalar refers to.
    pub referenced_field: FieldRef,
}

impl RelationFieldInfo {
    pub fn new(relation: usize, referenced_field: FieldRef) -> (r: Self)
        ensures
            r == (RelationFieldInfo { relation, referenced_field }),
    {
        RelationFieldInfo { relation, referenced_field }
    }
}

#[derive(Clone, Debug, PartialEq, Eq)]
pub enum FieldType {
    Scalar { relation_field_info: Option<RelationFieldInfo> },
    Relation { relation_info: RelationInfo },
}

#[derive(Clone, Debug, PartialEq, Eq)]
pub struct Field {
    pub name: String,
    pub name_snake: String,
    pub name_pascal: String,
    pub arity: FieldArity,
    pub required_on_create: bool,
    pub typ: FieldType,
}

/// A copy of a list of names.
pub fn copy_names(names: &Vec<String>) -> (c: Vec<String>)
    ensures
        strings_view(c@) == strings_view(names@),
{
    let mut c: Vec<String> = Vec::new();
    let mut i: usize = 0;
    while i < names.len()
        invariant
            i <= names@.len(),
            c@.len() == i,
            forall|j: int| 0 <= j < i ==> c@[j]@ == names@[j]@,
        decreases names@.len() - i,
    {
        c.push(names[i].clone());
        i += 1;
    }
    assert(strings_view(c@) =~= strings_view(names@));
    c
}

impl RelationInfo {
    /// Whether two relations say the same.
    pub open spec fn same(&self, other: &RelationInfo) -> bool {
        &&& self.to@ == other.to@
        &&& strings_view(self.fields@) == strings_view(other.fields@)
        &&& strings_view(self.references@) == strings_view(other.references@)
    }

    pub fn copy(&self) -> (c: RelationInfo)
        ensures
            c.same(self),
    {
        RelationInfo {
            to: self.to.clone(),
            fields: copy_names(&self.fields),
            references: copy_names(&self.references),
        }
    }
}

impl FieldType {
    /// Whether this is the type of a field of that kind, with nothing known
    /// yet of what a scalar refers to.
    pub open spec fn made_of(&self, kind: &FieldKind) -> bool {
        match kind {
            FieldKind::Scalar => self is Scalar,
            FieldKind::Relation(info) => self matches FieldType::Relation { relation_info } && relation_info.same(
                info,
            ),
            FieldKind::Other => false,
        }
    }

    /// The type of a field of that kind, with nothing known yet of what a
    /// scalar refers to. There is none for a field that is neither a scalar
    /// nor a relation.
    pub fn from(kind: &FieldKind) -> (r: Option<FieldType>)
        ensures
            match r {
                Some(typ) => typ.made_of(kind) && (typ matches FieldType::Scalar { relation_field_info }
                    ==> relation_field_info.is_none()),
                None => kind is Other,
            },
    {
        match kind {
            FieldKind::Scalar => Some(FieldType::Scalar { relation_field_info: None }),
            FieldKind::Relation(info) => Some(FieldType::Relation { relation_info: info.copy() }),
            FieldKind::Other => None,
        }
    }
}

impl Field {
    pub open spec fn is_scalar_field(&self) -> bool {
        self.typ is Scalar
    }

    pub fn is_scalar(&self) -> (b: bool)
        ensures
            b == self.is_scalar_field(),
    {
        matches!(self.typ, FieldType::Scalar { .. })
    }

    /// Whether nothing is noted in the field of what it refers to.
    pub open spec fn unlinked(&self) -> bool {
        self.typ matches FieldType::Scalar { relation_field_info } ==> relation_field_info.is_none()
    }

    /// Whether the field is what `source` says, with its names in the forms
    /// that generated code uses.
    pub open spec fn made_of(&self, source: &FieldSource) -> bool {
        &&& self.name@ == source.name@
        &&& self.name_snake@ == snake_case(source.name@)
        &&& self.name_pascal@ == pascal_case(source.name@)
        &&& self.arity == source.arity
        &&& self.required_on_create == source.required_on_create
        &&& self.typ.made_of(&source.kind)
    }

    /// The field that `source` describes.
    pub fn new(source: &FieldSource) -> (r: Result<Field, DatamodelError>)
        ensures
            match r {
                Ok(field) => field.made_of(source) && field.unlinked(),
                Err(e) => source.kind is Other && e@ == (DatamodelErrorView::UnsupportedField {
                    field: source.name@,
                }),
            },
    {
        match FieldType::from(&source.kind) {
            Some(typ) => Ok(
                Field {
                    name: source.name.clone(),
                    name_snake: snake_ident(source.name.as_str()),
                    name_pascal: pascal_ident(source.name.as_str()),
                    arity: source.arity,
                    required_on_create: source.required_on_create,
                    typ,
                },
            ),
            None => Err(DatamodelError::UnsupportedField { field: source.name.clone() }),
        }
    }
}

/// The names of a list of fields.
pub open spec fn field_names(fields: Seq<Field>) -> Seq<Seq<char>> {
    Seq::new(fields.len(), |i: int| fields[i].name@)
}

/// The first field of that name.
pub fn find_field(fields: &Vec<Field>, name: &String) -> (r: Option<usize>)
    ensures
        match r {
            Some(i) => crate::names::first_of(field_names(fields@), name@) == Some(i as int) && i < fields@.len(),
            None => crate::names::first_of(field_names(fields@), name@).is_none(),
        },
{
    let mut i: usize = 0;
    while i < fields.len()
        invariant
            i <= fields@.len(),
            forall|j: int| 0 <= j < i ==> field_names(fields@)[j] != name@,
        decreases fields@.len() - i,
    {
        if fields[i].name == *name {
            proof {
                assert(field_names(fields@)[i as int] == name@);
                crate::names::lemma_first(field_names(fields@), name@, i as int);
            }
            return Some(i);
        }
        i += 1;
    }
    None
}

} // verus!
